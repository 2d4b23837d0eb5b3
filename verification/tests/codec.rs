use binrep::binary::{BinSpecificProperties, BinType, Binary, Blob};
use binrep::codec::Value;
use binrep::props::{ElfProperties, MachOProperties, PeProperties, PieLevel, RelroLevel};

fn sample_elf_props() -> BinSpecificProperties {
    BinSpecificProperties::Elf(ElfProperties {
        canary: true,
        fortify: false,
        nx: true,
        pie: PieLevel::Dso,
        relro: RelroLevel::Partial,
    })
}

fn sample_pe_props() -> BinSpecificProperties {
    BinSpecificProperties::PE(PeProperties {
        aslr: true,
        cfg: true,
        dep: false,
        gs: true,
        safe_seh: false,
    })
}

fn sample_macho_props() -> BinSpecificProperties {
    BinSpecificProperties::MachO(MachOProperties {
        arc: true,
        canary: false,
        code_signature: true,
        nx_heap: true,
        nx_stack: false,
        pie: true,
        restrict: true,
    })
}

#[test]
fn tag_codec_round_trips_each_variant() {
    for tag in [BinType::Elf(0x3E), BinType::PE(0x8664), BinType::MachO(0x0100_0007, 3)] {
        let encoded = tag.to_value();
        assert_eq!(BinType::from_value(&encoded), Some(tag));
    }
}

#[test]
fn props_codec_round_trips_each_variant() {
    for props in [sample_elf_props(), sample_pe_props(), sample_macho_props()] {
        let encoded = props.to_value();
        assert_eq!(BinSpecificProperties::from_value(&encoded), Some(props));
    }
}

#[test]
fn blob_codec_round_trips() {
    let blob = Blob::new(BinType::Elf(0x3E), sample_elf_props());
    let encoded = blob.to_value();
    assert_eq!(Blob::from_value(&encoded), Some(blob));
}

#[test]
fn tree_codec_round_trips() {
    let mut lib_a = Binary::new(
        String::from("liba.so"),
        vec![Blob::new(BinType::Elf(0x3E), sample_elf_props())],
    );
    lib_a.push_library(Binary::new(
        String::from("libc.so"),
        vec![Blob::new(BinType::MachO(0x0100_0007, 3), sample_macho_props())],
    ));
    let lib_b = Binary::new(
        String::from("b.dll"),
        vec![Blob::new(BinType::PE(0x8664), sample_pe_props())],
    );
    let mut root = Binary::new(
        String::from("app"),
        vec![
            Blob::new(BinType::Elf(0x3E), sample_elf_props()),
            Blob::new(BinType::PE(0x8664), sample_pe_props()),
        ],
    );
    root.push_library(lib_a);
    root.push_library(lib_b);

    let encoded = root.to_value();
    let decoded = Binary::from_value(&encoded).expect("an encoded tree decodes");
    assert_eq!(decoded, root);
}

#[test]
fn empty_tree_round_trips() {
    let node = Binary::new(String::from("empty.bin"), vec![]);
    let decoded = Binary::from_value(&node.to_value()).expect("an encoded leaf decodes");
    assert_eq!(decoded, node);
}

#[test]
fn decode_rejects_mismatched_tag_and_properties() {
    let tag = BinType::Elf(0x3E).to_value();
    let props = sample_pe_props().to_value();
    let forged = Value::List(vec![
        Value::Str(String::from("format_tag")),
        tag,
        Value::Str(String::from("properties")),
        props,
    ]);
    assert_eq!(Blob::from_value(&forged), None);
}

#[test]
fn decode_rejects_wrong_shapes() {
    assert_eq!(BinType::from_value(&Value::Flag(true)), None);
    assert_eq!(BinType::from_value(&Value::List(vec![Value::Int(1)])), None);
    assert_eq!(
        BinType::from_value(&Value::List(vec![
            Value::Str(String::from("Elf")),
            Value::Int(0x1_0000),
        ])),
        None
    );
    assert_eq!(BinSpecificProperties::from_value(&Value::Int(9)), None);
    assert!(Binary::from_value(&Value::Int(3)).is_none());
    assert!(Binary::from_value(&Value::List(vec![Value::Str(String::from("file"))])).is_none());
}

#[test]
fn reencoding_a_decoded_document_reproduces_it() {
    let document = Value::List(vec![
        Value::Str(String::from("file")),
        Value::Str(String::from("libfoo.so")),
        Value::Str(String::from("blobs")),
        Value::List(vec![Value::List(vec![
            Value::Str(String::from("format_tag")),
            BinType::Elf(0x3E).to_value(),
            Value::Str(String::from("properties")),
            sample_elf_props().to_value(),
        ])]),
        Value::Str(String::from("libraries")),
        Value::List(vec![]),
    ]);
    let tree = Binary::from_value(&document).expect("a well-shaped document decodes");
    assert_eq!(tree.file, "libfoo.so");
    let reencoded = tree.to_value();
    assert!(reencoded == document);
}

#[test]
fn encoding_preserves_field_names() {
    let node = Binary::new(
        String::from("app"),
        vec![Blob::new(BinType::Elf(0x3E), sample_elf_props())],
    );
    let encoded = node.to_value();
    let items = match &encoded {
        Value::List(items) => items,
        _ => panic!("a tree encodes as a list"),
    };
    assert_eq!(items.len(), 6);
    assert!(matches!(&items[0], Value::Str(s) if s == "file"));
    assert!(matches!(&items[1], Value::Str(s) if s == "app"));
    assert!(matches!(&items[2], Value::Str(s) if s == "blobs"));
    assert!(matches!(&items[4], Value::Str(s) if s == "libraries"));
    let blob_items = match &items[3] {
        Value::List(bs) => bs,
        _ => panic!("blobs encode as a list"),
    };
    let blob_fields = match &blob_items[0] {
        Value::List(fs) => fs,
        _ => panic!("a blob encodes as a list"),
    };
    assert!(matches!(&blob_fields[0], Value::Str(s) if s == "format_tag"));
    assert!(matches!(&blob_fields[2], Value::Str(s) if s == "properties"));
}
