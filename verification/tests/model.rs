use binrep::binary::{BinSpecificProperties, BinType, Binary, Blob};
use binrep::props::{ElfProperties, MachOProperties, PeProperties, PieLevel, RelroLevel};

fn elf_record(canary: bool, nx: bool, pie: PieLevel) -> ElfProperties {
    ElfProperties { canary, fortify: false, nx, pie, relro: RelroLevel::Full }
}

fn elf_blob(machine: u16) -> Blob {
    Blob::new(
        BinType::Elf(machine),
        BinSpecificProperties::Elf(elf_record(true, true, PieLevel::Full)),
    )
}

#[test]
fn blob_new_pairs_matching_variants() {
    let elf = Blob::new(
        BinType::Elf(0x3E),
        BinSpecificProperties::Elf(elf_record(true, true, PieLevel::Off)),
    );
    assert!(matches!(elf.binarytype, BinType::Elf(0x3E)));
    assert!(matches!(elf.properties, BinSpecificProperties::Elf(_)));

    let pe = Blob::new(
        BinType::PE(0x8664),
        BinSpecificProperties::PE(PeProperties {
            aslr: true,
            cfg: false,
            dep: true,
            gs: true,
            safe_seh: false,
        }),
    );
    assert!(matches!(pe.binarytype, BinType::PE(0x8664)));
    assert!(matches!(pe.properties, BinSpecificProperties::PE(_)));

    let macho = Blob::new(
        BinType::MachO(0x0100_0007, 3),
        BinSpecificProperties::MachO(MachOProperties {
            arc: true,
            canary: true,
            code_signature: true,
            nx_heap: false,
            nx_stack: true,
            pie: true,
            restrict: false,
        }),
    );
    assert!(matches!(macho.binarytype, BinType::MachO(0x0100_0007, 3)));
    assert!(matches!(macho.properties, BinSpecificProperties::MachO(_)));
}

#[test]
fn label_elf_x86_64() {
    assert_eq!(BinType::Elf(0x3E).label(), "ELF_X86_64");
}

#[test]
fn label_pe_x86_64() {
    assert_eq!(BinType::PE(0x8664).label(), "PE_X86_64");
}

#[test]
fn label_macho_x86_64() {
    assert_eq!(BinType::MachO(0x0100_0007, 3).label(), "MachO_x86_64");
}

#[test]
fn label_macho_unknown_arch_uses_placeholder() {
    let label = BinType::MachO(2, 2).label();
    assert_eq!(label, "MachO_UNKNOWN");
    assert!(label.contains("UNKNOWN"));
}

#[test]
fn elf_props_render_exact() {
    let p = ElfProperties {
        canary: true,
        fortify: false,
        nx: true,
        pie: PieLevel::Off,
        relro: RelroLevel::Full,
    };
    assert_eq!(p.render(), "Canary: yes, Fortify: no, NX: yes, PIE: no, Relro: full");
}

#[test]
fn pe_props_render_exact() {
    let p = PeProperties { aslr: true, cfg: false, dep: true, gs: false, safe_seh: true };
    assert_eq!(p.render(), "ASLR: yes, CFG: no, DEP: yes, GS: no, SafeSEH: yes");
}

#[test]
fn macho_props_render_exact() {
    let p = MachOProperties {
        arc: false,
        canary: true,
        code_signature: true,
        nx_heap: false,
        nx_stack: true,
        pie: true,
        restrict: false,
    };
    assert_eq!(
        p.render(),
        "ARC: no, Canary: yes, Code Signature: yes, NX Heap: no, NX Stack: yes, PIE: yes, Restrict: no"
    );
}

#[test]
fn libfoo_scenario_label_then_properties() {
    let props = BinSpecificProperties::Elf(elf_record(false, true, PieLevel::Off));
    let blob = Blob::new(BinType::Elf(0x3E), props);
    let rendered = blob.render();
    assert!(rendered.starts_with("ELF_X86_64"));
    assert_eq!(rendered, format!("{}{}", blob.binarytype.label(), blob.properties.render()));
    assert!(rendered.contains("NX: yes, PIE: no"));

    let node = Binary::new(String::from("libfoo.so"), vec![blob]);
    let line = node.render_line();
    assert!(line.starts_with("libfoo.so: ELF_X86_64"));
}

#[test]
fn preorder_visits_root_a_c_b() {
    let mut a = Binary::new(String::from("A"), vec![elf_blob(0x3E)]);
    let c = Binary::new(String::from("C"), vec![elf_blob(0x3E)]);
    a.push_library(c);
    let b = Binary::new(String::from("B"), vec![elf_blob(0x3E)]);
    let mut root = Binary::new(String::from("root"), vec![elf_blob(0x3E)]);
    root.push_library(a);
    root.push_library(b);
    let order = root.preorder_paths();
    assert_eq!(order, vec!["root", "A", "C", "B"]);
}

#[test]
fn leaf_renders_without_recursing() {
    let leaf = Binary::new(String::from("libleaf.so"), vec![elf_blob(0x3E)]);
    assert!(leaf.libraries.is_empty());
    assert_eq!(leaf.render_tree(), format!("{}\n", leaf.render_line()));
}

#[test]
fn empty_blobs_render_no_recognized_format() {
    let node = Binary::new(String::from("data.bin"), vec![]);
    assert_eq!(node.render_line(), "data.bin: no recognized format");
}

#[test]
fn structural_equality_of_independent_trees() {
    let build = |lib_name: &str| {
        let lib = Binary::new(String::from(lib_name), vec![elf_blob(0x3E)]);
        let mut root = Binary::new(String::from("app"), vec![elf_blob(0x3E)]);
        root.push_library(lib);
        root
    };
    let t1 = build("libfoo.so");
    let t2 = build("libfoo.so");
    assert_eq!(t1, t2);

    let t3 = build("libbar.so");
    assert_ne!(t1, t3);
}

#[test]
fn clone_is_structurally_equal() {
    let mut root = Binary::new(String::from("app"), vec![elf_blob(0x3E)]);
    root.push_library(Binary::new(String::from("libfoo.so"), vec![elf_blob(0x3E)]));
    let copy = root.clone();
    assert_eq!(root, copy);
}

#[test]
fn push_library_keeps_resolution_order() {
    let mut root = Binary::new(String::from("app"), vec![elf_blob(0x3E)]);
    assert_eq!(root.libraries.len(), 0);
    root.push_library(Binary::new(String::from("first"), vec![elf_blob(0x3E)]));
    root.push_library(Binary::new(String::from("second"), vec![elf_blob(0x3E)]));
    assert_eq!(root.libraries.len(), 2);
    assert_eq!(root.libraries[0].file, "first");
    assert_eq!(root.libraries[1].file, "second");
}

#[test]
fn render_tree_lists_each_node_line() {
    let mut root = Binary::new(String::from("app"), vec![elf_blob(0x3E)]);
    root.push_library(Binary::new(String::from("libfoo.so"), vec![elf_blob(0x3E)]));
    let text = root.render_tree();
    let lines: Vec<&str> = text.lines().collect();
    assert_eq!(lines.len(), 2);
    assert!(lines[0].starts_with("app: "));
    assert!(lines[1].starts_with("libfoo.so: "));
}
