//! Architecture-name decoding for the raw machine/CPU codes that container
//! headers report. The decoding tables live in the `goblin` crate; this
//! module gives each table lookup a name that contracts can speak of.

use vstd::prelude::*;

verus! {

/// The architecture name that `goblin` assigns to an ELF machine code.
pub uninterp spec fn elf_machine_name(machine: u16) -> Seq<char>;

/// The architecture name that `goblin` assigns to a PE/COFF machine code.
pub uninterp spec fn pe_machine_name(machine: u16) -> Seq<char>;

/// The architecture name, if any, that `goblin` assigns to a Mach-O
/// cputype/cpusubtype pair.
pub uninterp spec fn macho_arch_name(cputype: u32, cpusubtype: u32) -> Option<Seq<char>>;

/// Relies on `goblin::elf::header::machine_to_str`: a total match over the
/// ELF machine codes, whose result depends on the code alone.
#[verifier::external_body]
pub(crate) fn elf_machine_str(machine: u16) -> (r: String)
    ensures
        r@ == elf_machine_name(machine),
{
    goblin::elf::header::machine_to_str(machine).to_owned()
}

/// Relies on `goblin::pe::header::machine_to_str`: a total match over the
/// COFF machine codes, whose result depends on the code alone.
#[verifier::external_body]
pub(crate) fn pe_machine_str(machine: u16) -> (r: String)
    ensures
        r@ == pe_machine_name(machine),
{
    goblin::pe::header::machine_to_str(machine).to_owned()
}

/// Relies on `goblin::mach::constants::cputype::get_arch_name_from_types`:
/// `Some` exactly for the cputype/cpusubtype pairs in its table, `None` for
/// every other pair, and the result depends on the pair alone.
#[verifier::external_body]
pub(crate) fn macho_arch_str(cputype: u32, cpusubtype: u32) -> (r: Option<String>)
    ensures
        r is Some <==> macho_arch_name(cputype, cpusubtype) is Some,
        r is Some ==> r->0@ == macho_arch_name(cputype, cpusubtype)->0,
{
    match goblin::mach::constants::cputype::get_arch_name_from_types(cputype, cpusubtype) {
        Some(name) => Some(name.to_owned()),
        None => None,
    }
}

} // verus!
