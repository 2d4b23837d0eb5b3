//! Per-format hardening property records.
//!
//! Each supported container format has its own record type, holding exactly
//! the properties that format's analyzer computes. The records are plain
//! data; what "stack protection" or "position independence" means for one
//! format is not flattened into a shape shared with the others. Each record
//! renders itself; the dispatch layer above contributes no formatting.

use vstd::prelude::*;
use vstd::string::StringExecFns;

verus! {

/// How fully an ELF binary opts into relocation read-only.
#[derive(Clone, Copy, Debug, PartialEq, Eq, Structural)]
pub enum RelroLevel {
    Off,
    Partial,
    Full,
}

/// Whether an ELF image is position-independent: not at all, a shared
/// object, or a full position-independent executable.
#[derive(Clone, Copy, Debug, PartialEq, Eq, Structural)]
pub enum PieLevel {
    Off,
    Dso,
    Full,
}

/// Hardening properties of one ELF image.
#[derive(Clone, Copy, Debug, PartialEq, Eq, Structural)]
pub struct ElfProperties {
    pub canary: bool,
    pub fortify: bool,
    pub nx: bool,
    pub pie: PieLevel,
    pub relro: RelroLevel,
}

/// Hardening properties of one PE image.
#[derive(Clone, Copy, Debug, PartialEq, Eq, Structural)]
pub struct PeProperties {
    pub aslr: bool,
    pub cfg: bool,
    pub dep: bool,
    pub gs: bool,
    pub safe_seh: bool,
}

/// Hardening properties of one Mach-O image.
#[derive(Clone, Copy, Debug, PartialEq, Eq, Structural)]
pub struct MachOProperties {
    pub arc: bool,
    pub canary: bool,
    pub code_signature: bool,
    pub nx_heap: bool,
    pub nx_stack: bool,
    pub pie: bool,
    pub restrict: bool,
}

/// Text for one boolean property value.
pub open spec fn yes_no(b: bool) -> Seq<char> {
    if b {
        "yes"@
    } else {
        "no"@
    }
}

/// Text for a position-independence level.
pub open spec fn pie_text(p: PieLevel) -> Seq<char> {
    match p {
        PieLevel::Off => "no"@,
        PieLevel::Dso => "dso"@,
        PieLevel::Full => "yes"@,
    }
}

/// Text for a relocation read-only level.
pub open spec fn relro_text(r: RelroLevel) -> Seq<char> {
    match r {
        RelroLevel::Off => "none"@,
        RelroLevel::Partial => "partial"@,
        RelroLevel::Full => "full"@,
    }
}

/// The full rendering of an ELF record.
pub open spec fn elf_props_text(p: ElfProperties) -> Seq<char> {
    "Canary: "@ + yes_no(p.canary) + ", Fortify: "@ + yes_no(p.fortify) + ", NX: "@ + yes_no(
        p.nx,
    ) + ", PIE: "@ + pie_text(p.pie) + ", Relro: "@ + relro_text(p.relro)
}

/// The full rendering of a PE record.
pub open spec fn pe_props_text(p: PeProperties) -> Seq<char> {
    "ASLR: "@ + yes_no(p.aslr) + ", CFG: "@ + yes_no(p.cfg) + ", DEP: "@ + yes_no(p.dep)
        + ", GS: "@ + yes_no(p.gs) + ", SafeSEH: "@ + yes_no(p.safe_seh)
}

/// The full rendering of a Mach-O record.
pub open spec fn macho_props_text(p: MachOProperties) -> Seq<char> {
    "ARC: "@ + yes_no(p.arc) + ", Canary: "@ + yes_no(p.canary) + ", Code Signature: "@ + yes_no(
        p.code_signature,
    ) + ", NX Heap: "@ + yes_no(p.nx_heap) + ", NX Stack: "@ + yes_no(p.nx_stack) + ", PIE: "@
        + yes_no(p.pie) + ", Restrict: "@ + yes_no(p.restrict)
}

fn yes_no_str(b: bool) -> (r: &'static str)
    ensures
        r@ == yes_no(b),
{
    if b {
        "yes"
    } else {
        "no"
    }
}

fn pie_str(p: PieLevel) -> (r: &'static str)
    ensures
        r@ == pie_text(p),
{
    match p {
        PieLevel::Off => "no",
        PieLevel::Dso => "dso",
        PieLevel::Full => "yes",
    }
}

fn relro_str(r: RelroLevel) -> (s: &'static str)
    ensures
        s@ == relro_text(r),
{
    match r {
        RelroLevel::Off => "none",
        RelroLevel::Partial => "partial",
        RelroLevel::Full => "full",
    }
}

impl ElfProperties {
    /// Render the record as one line of `name: value` pairs.
    pub fn render(&self) -> (r: String)
        ensures
            r@ == elf_props_text(*self),
    {
        let mut s = String::from_str("Canary: ");
        s.append(yes_no_str(self.canary));
        s.append(", Fortify: ");
        s.append(yes_no_str(self.fortify));
        s.append(", NX: ");
        s.append(yes_no_str(self.nx));
        s.append(", PIE: ");
        s.append(pie_str(self.pie));
        s.append(", Relro: ");
        s.append(relro_str(self.relro));
        s
    }
}

impl PeProperties {
    /// Render the record as one line of `name: value` pairs.
    pub fn render(&self) -> (r: String)
        ensures
            r@ == pe_props_text(*self),
    {
        let mut s = String::from_str("ASLR: ");
        s.append(yes_no_str(self.aslr));
        s.append(", CFG: ");
        s.append(yes_no_str(self.cfg));
        s.append(", DEP: ");
        s.append(yes_no_str(self.dep));
        s.append(", GS: ");
        s.append(yes_no_str(self.gs));
        s.append(", SafeSEH: ");
        s.append(yes_no_str(self.safe_seh));
        s
    }
}

impl MachOProperties {
    /// Render the record as one line of `name: value` pairs.
    pub fn render(&self) -> (r: String)
        ensures
            r@ == macho_props_text(*self),
    {
        let mut s = String::from_str("ARC: ");
        s.append(yes_no_str(self.arc));
        s.append(", Canary: ");
        s.append(yes_no_str(self.canary));
        s.append(", Code Signature: ");
        s.append(yes_no_str(self.code_signature));
        s.append(", NX Heap: ");
        s.append(yes_no_str(self.nx_heap));
        s.append(", NX Stack: ");
        s.append(yes_no_str(self.nx_stack));
        s.append(", PIE: ");
        s.append(yes_no_str(self.pie));
        s.append(", Restrict: ");
        s.append(yes_no_str(self.restrict));
        s
    }
}

} // verus!
