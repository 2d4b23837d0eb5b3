//! Structured serialization of the result model.
//!
//! A [`Value`] is a small structured document: strings, unsigned integers,
//! booleans and lists. The model serializes into it preserving the field
//! names `file`, `blobs`, `libraries`, `format_tag` and `properties` and the
//! variant tag of each sum type, and deserializes back; decoding an encoded
//! tree yields a structurally equal tree. A text backend (JSON, for one)
//! only has to map `Value` onto its own notation.

use crate::binary::{BinSpecificProperties, BinType, Binary, Blob, NodeView, node_view,
    node_views, lemma_node_views_index};
use crate::props::{ElfProperties, MachOProperties, PeProperties, PieLevel, RelroLevel};
use vstd::prelude::*;
use vstd::string::StringExecFns;

verus! {

/// One node of a structured document.
#[derive(Debug)]
pub enum Value {
    Str(String),
    Int(u64),
    Flag(bool),
    List(Vec<Value>),
}

/// The mathematical shape of a `Value`.
#[verifier::ext_equal]
pub ghost enum ValueView {
    Str(Seq<char>),
    Int(u64),
    Flag(bool),
    List(Seq<ValueView>),
}

/// The view of one value.
pub open spec fn value_view(v: Value) -> ValueView
    decreases v,
{
    match v {
        Value::Str(s) => ValueView::Str(s@),
        Value::Int(n) => ValueView::Int(n),
        Value::Flag(b) => ValueView::Flag(b),
        Value::List(items) => ValueView::List(value_views(items@)),
    }
}

/// The views of a sequence of values, in order.
pub open spec fn value_views(s: Seq<Value>) -> Seq<ValueView>
    decreases s,
{
    if s.len() == 0 {
        Seq::empty()
    } else {
        seq![value_view(s[0])] + value_views(s.drop_first())
    }
}

impl View for Value {
    type V = ValueView;

    open spec fn view(&self) -> ValueView {
        value_view(*self)
    }
}

/// `value_views` maps `value_view` over the sequence, index by index.
pub proof fn lemma_value_views_index(s: Seq<Value>)
    ensures
        value_views(s).len() == s.len(),
        forall|i: int| 0 <= i < s.len() ==> value_views(s)[i] == value_view(s[i]),
    decreases s,
{
    if s.len() > 0 {
        lemma_value_views_index(s.drop_first());
    }
}

/// The boolean under a `Flag`, if the value is one.
pub open spec fn spec_as_flag(w: ValueView) -> Option<bool> {
    match w {
        ValueView::Flag(b) => Some(b),
        _ => None,
    }
}

/// The integer under an `Int`, if the value is one.
pub open spec fn spec_as_int(w: ValueView) -> Option<u64> {
    match w {
        ValueView::Int(n) => Some(n),
        _ => None,
    }
}

fn flag_of(v: &Value) -> (r: Option<bool>)
    ensures
        r == spec_as_flag(v@),
{
    match v {
        Value::Flag(b) => Some(*b),
        _ => None,
    }
}

fn int_of(v: &Value) -> (r: Option<u64>)
    ensures
        r == spec_as_int(v@),
{
    match v {
        Value::Int(n) => Some(*n),
        _ => None,
    }
}

fn str_is(s: &String, lit: &str) -> (r: bool)
    ensures
        r == (s@ == lit@),
{
    let l: String = String::from_str(lit);
    *s == l
}

/// The encoding of a format tag: its variant name, then its raw codes.
pub open spec fn enc_tag(t: BinType) -> ValueView {
    match t {
        BinType::Elf(m) => ValueView::List(
            seq![ValueView::Str("Elf"@), ValueView::Int(m as u64)],
        ),
        BinType::PE(m) => ValueView::List(seq![ValueView::Str("PE"@), ValueView::Int(m as u64)]),
        BinType::MachO(c, s) => ValueView::List(
            seq![ValueView::Str("MachO"@), ValueView::Int(c as u64), ValueView::Int(s as u64)],
        ),
    }
}

/// The decoding of a format tag; `None` on any value of another shape.
pub open spec fn dec_tag(w: ValueView) -> Option<BinType> {
    match w {
        ValueView::List(items) => {
            if items.len() == 2 && items[0] == ValueView::Str("Elf"@) {
                match spec_as_int(items[1]) {
                    Some(n) => if n <= 0xFFFF {
                        Some(BinType::Elf(n as u16))
                    } else {
                        None
                    },
                    None => None,
                }
            } else if items.len() == 2 && items[0] == ValueView::Str("PE"@) {
                match spec_as_int(items[1]) {
                    Some(n) => if n <= 0xFFFF {
                        Some(BinType::PE(n as u16))
                    } else {
                        None
                    },
                    None => None,
                }
            } else if items.len() == 3 && items[0] == ValueView::Str("MachO"@) {
                match (spec_as_int(items[1]), spec_as_int(items[2])) {
                    (Some(c), Some(s)) => if c <= 0xFFFF_FFFF && s <= 0xFFFF_FFFF {
                        Some(BinType::MachO(c as u32, s as u32))
                    } else {
                        None
                    },
                    _ => None,
                }
            } else {
                None
            }
        },
        _ => None,
    }
}

/// Law: decoding an encoded format tag gives the tag back.
pub proof fn lemma_tag_round_trip(t: BinType)
    ensures
        dec_tag(enc_tag(t)) == Some(t),
{
    reveal_strlit("Elf");
    reveal_strlit("PE");
    reveal_strlit("MachO");
    assert("Elf"@.len() == 3 && "PE"@.len() == 2 && "MachO"@.len() == 5);
    match t {
        BinType::Elf(m) => {
            let items = seq![ValueView::Str("Elf"@), ValueView::Int(m as u64)];
            assert(items[0] == ValueView::Str("Elf"@) && items[1] == ValueView::Int(m as u64));
            assert((m as u64) as u16 == m);
            assert(dec_tag(enc_tag(t)) == Some(t));
        },
        BinType::PE(m) => {
            let items = seq![ValueView::Str("PE"@), ValueView::Int(m as u64)];
            assert(items[0] == ValueView::Str("PE"@) && items[1] == ValueView::Int(m as u64));
            assert("PE"@ != "Elf"@);
            assert((m as u64) as u16 == m);
            assert(dec_tag(enc_tag(t)) == Some(t));
        },
        BinType::MachO(c, s) => {
            let items = seq![
                ValueView::Str("MachO"@),
                ValueView::Int(c as u64),
                ValueView::Int(s as u64),
            ];
            assert(items.len() == 3 && items[0] == ValueView::Str("MachO"@) && items[1]
                == ValueView::Int(c as u64) && items[2] == ValueView::Int(s as u64));
            assert((c as u64) as u32 == c && (s as u64) as u32 == s);
            assert(dec_tag(enc_tag(t)) == Some(t));
        },
    }
}

impl BinType {
    /// Encode the tag.
    pub fn to_value(&self) -> (r: Value)
        ensures
            r@ == enc_tag(*self),
    {
        match *self {
            BinType::Elf(m) => {
                let mut items: Vec<Value> = Vec::new();
                items.push(Value::Str(String::from_str("Elf")));
                items.push(Value::Int(m as u64));
                proof {
                    lemma_value_views_index(items@);
                    assert(value_views(items@) =~= seq![
                        ValueView::Str("Elf"@),
                        ValueView::Int(m as u64),
                    ]);
                }
                Value::List(items)
            },
            BinType::PE(m) => {
                let mut items: Vec<Value> = Vec::new();
                items.push(Value::Str(String::from_str("PE")));
                items.push(Value::Int(m as u64));
                proof {
                    lemma_value_views_index(items@);
                    assert(value_views(items@) =~= seq![
                        ValueView::Str("PE"@),
                        ValueView::Int(m as u64),
                    ]);
                }
                Value::List(items)
            },
            BinType::MachO(c, s) => {
                let mut items: Vec<Value> = Vec::new();
                items.push(Value::Str(String::from_str("MachO")));
                items.push(Value::Int(c as u64));
                items.push(Value::Int(s as u64));
                proof {
                    lemma_value_views_index(items@);
                    assert(value_views(items@) =~= seq![
                        ValueView::Str("MachO"@),
                        ValueView::Int(c as u64),
                        ValueView::Int(s as u64),
                    ]);
                }
                Value::List(items)
            },
        }
    }

    /// Decode a tag; `None` on any value of another shape.
    pub fn from_value(v: &Value) -> (r: Option<BinType>)
        ensures
            r == dec_tag(v@),
    {
        match v {
            Value::List(items) => {
                proof {
                    lemma_value_views_index(items@);
                }
                if items.len() == 2 {
                    let name = match &items[0] {
                        Value::Str(s) => s,
                        _ => {
                            return None;
                        },
                    };
                    if str_is(name, "Elf") {
                        match int_of(&items[1]) {
                            Some(n) => if n <= 0xFFFF {
                                Some(BinType::Elf(n as u16))
                            } else {
                                None
                            },
                            None => None,
                        }
                    } else if str_is(name, "PE") {
                        match int_of(&items[1]) {
                            Some(n) => if n <= 0xFFFF {
                                Some(BinType::PE(n as u16))
                            } else {
                                None
                            },
                            None => None,
                        }
                    } else {
                        None
                    }
                } else if items.len() == 3 {
                    let name = match &items[0] {
                        Value::Str(s) => s,
                        _ => {
                            return None;
                        },
                    };
                    if str_is(name, "MachO") {
                        match (int_of(&items[1]), int_of(&items[2])) {
                            (Some(c), Some(s)) => if c <= 0xFFFF_FFFF && s <= 0xFFFF_FFFF {
                                Some(BinType::MachO(c as u32, s as u32))
                            } else {
                                None
                            },
                            _ => None,
                        }
                    } else {
                        None
                    }
                } else {
                    None
                }
            },
            _ => None,
        }
    }
}

/// The integer code of a position-independence level.
pub open spec fn pie_code(p: PieLevel) -> u64 {
    match p {
        PieLevel::Off => 0,
        PieLevel::Dso => 1,
        PieLevel::Full => 2,
    }
}

/// The level back from its code.
pub open spec fn dec_pie(n: u64) -> Option<PieLevel> {
    if n == 0 {
        Some(PieLevel::Off)
    } else if n == 1 {
        Some(PieLevel::Dso)
    } else if n == 2 {
        Some(PieLevel::Full)
    } else {
        None
    }
}

/// The integer code of a relocation read-only level.
pub open spec fn relro_code(r: RelroLevel) -> u64 {
    match r {
        RelroLevel::Off => 0,
        RelroLevel::Partial => 1,
        RelroLevel::Full => 2,
    }
}

/// The level back from its code.
pub open spec fn dec_relro(n: u64) -> Option<RelroLevel> {
    if n == 0 {
        Some(RelroLevel::Off)
    } else if n == 1 {
        Some(RelroLevel::Partial)
    } else if n == 2 {
        Some(RelroLevel::Full)
    } else {
        None
    }
}

/// The encoding of a hardening record: its variant name, then its fields in
/// declaration order.
pub open spec fn enc_props(p: BinSpecificProperties) -> ValueView {
    match p {
        BinSpecificProperties::Elf(e) => ValueView::List(
            seq![
                ValueView::Str("Elf"@),
                ValueView::Flag(e.canary),
                ValueView::Flag(e.fortify),
                ValueView::Flag(e.nx),
                ValueView::Int(pie_code(e.pie)),
                ValueView::Int(relro_code(e.relro)),
            ],
        ),
        BinSpecificProperties::PE(e) => ValueView::List(
            seq![
                ValueView::Str("PE"@),
                ValueView::Flag(e.aslr),
                ValueView::Flag(e.cfg),
                ValueView::Flag(e.dep),
                ValueView::Flag(e.gs),
                ValueView::Flag(e.safe_seh),
            ],
        ),
        BinSpecificProperties::MachO(e) => ValueView::List(
            seq![
                ValueView::Str("MachO"@),
                ValueView::Flag(e.arc),
                ValueView::Flag(e.canary),
                ValueView::Flag(e.code_signature),
                ValueView::Flag(e.nx_heap),
                ValueView::Flag(e.nx_stack),
                ValueView::Flag(e.pie),
                ValueView::Flag(e.restrict),
            ],
        ),
    }
}

/// The decoding of a hardening record; `None` on any value of another shape.
pub open spec fn dec_props(w: ValueView) -> Option<BinSpecificProperties> {
    match w {
        ValueView::List(items) => {
            if items.len() == 6 && items[0] == ValueView::Str("Elf"@) {
                match (
                    spec_as_flag(items[1]),
                    spec_as_flag(items[2]),
                    spec_as_flag(items[3]),
                    spec_as_int(items[4]),
                    spec_as_int(items[5]),
                ) {
                    (Some(canary), Some(fortify), Some(nx), Some(pc), Some(rc)) => match (
                        dec_pie(pc),
                        dec_relro(rc),
                    ) {
                        (Some(pie), Some(relro)) => Some(
                            BinSpecificProperties::Elf(
                                ElfProperties { canary, fortify, nx, pie, relro },
                            ),
                        ),
                        _ => None,
                    },
                    _ => None,
                }
            } else if items.len() == 6 && items[0] == ValueView::Str("PE"@) {
                match (
                    spec_as_flag(items[1]),
                    spec_as_flag(items[2]),
                    spec_as_flag(items[3]),
                    spec_as_flag(items[4]),
                    spec_as_flag(items[5]),
                ) {
                    (Some(aslr), Some(cfg), Some(dep), Some(gs), Some(safe_seh)) => Some(
                        BinSpecificProperties::PE(PeProperties { aslr, cfg, dep, gs, safe_seh }),
                    ),
                    _ => None,
                }
            } else if items.len() == 8 && items[0] == ValueView::Str("MachO"@) {
                match (
                    spec_as_flag(items[1]),
                    spec_as_flag(items[2]),
                    spec_as_flag(items[3]),
                    spec_as_flag(items[4]),
                    spec_as_flag(items[5]),
                    spec_as_flag(items[6]),
                    spec_as_flag(items[7]),
                ) {
                    (
                        Some(arc),
                        Some(canary),
                        Some(code_signature),
                        Some(nx_heap),
                        Some(nx_stack),
                        Some(pie),
                        Some(restrict),
                    ) => Some(
                        BinSpecificProperties::MachO(
                            MachOProperties {
                                arc,
                                canary,
                                code_signature,
                                nx_heap,
                                nx_stack,
                                pie,
                                restrict,
                            },
                        ),
                    ),
                    _ => None,
                }
            } else {
                None
            }
        },
        _ => None,
    }
}

/// Law: decoding an encoded hardening record gives the record back.
pub proof fn lemma_props_round_trip(p: BinSpecificProperties)
    ensures
        dec_props(enc_props(p)) == Some(p),
{
    reveal_strlit("Elf");
    reveal_strlit("PE");
    reveal_strlit("MachO");
    assert("Elf"@.len() == 3 && "PE"@.len() == 2 && "MachO"@.len() == 5);
    match p {
        BinSpecificProperties::Elf(e) => {
            assert(dec_pie(pie_code(e.pie)) == Some(e.pie));
            assert(dec_relro(relro_code(e.relro)) == Some(e.relro));
            assert(dec_props(enc_props(p)) == Some(p));
        },
        BinSpecificProperties::PE(e) => {
            assert("PE"@ != "Elf"@);
            assert(dec_props(enc_props(p)) == Some(p));
        },
        BinSpecificProperties::MachO(e) => {
            assert("MachO"@ != "Elf"@ && "MachO"@ != "PE"@);
            assert(dec_props(enc_props(p)) == Some(p));
        },
    }
}

impl BinSpecificProperties {
    /// Encode the record.
    pub fn to_value(&self) -> (r: Value)
        ensures
            r@ == enc_props(*self),
    {
        match self {
            BinSpecificProperties::Elf(e) => {
                let mut items: Vec<Value> = Vec::new();
                items.push(Value::Str(String::from_str("Elf")));
                items.push(Value::Flag(e.canary));
                items.push(Value::Flag(e.fortify));
                items.push(Value::Flag(e.nx));
                items.push(Value::Int(match e.pie {
                    PieLevel::Off => 0,
                    PieLevel::Dso => 1,
                    PieLevel::Full => 2,
                }));
                items.push(Value::Int(match e.relro {
                    RelroLevel::Off => 0,
                    RelroLevel::Partial => 1,
                    RelroLevel::Full => 2,
                }));
                proof {
                    lemma_value_views_index(items@);
                    assert(value_views(items@) =~= seq![
                        ValueView::Str("Elf"@),
                        ValueView::Flag(e.canary),
                        ValueView::Flag(e.fortify),
                        ValueView::Flag(e.nx),
                        ValueView::Int(pie_code(e.pie)),
                        ValueView::Int(relro_code(e.relro)),
                    ]);
                }
                Value::List(items)
            },
            BinSpecificProperties::PE(e) => {
                let mut items: Vec<Value> = Vec::new();
                items.push(Value::Str(String::from_str("PE")));
                items.push(Value::Flag(e.aslr));
                items.push(Value::Flag(e.cfg));
                items.push(Value::Flag(e.dep));
                items.push(Value::Flag(e.gs));
                items.push(Value::Flag(e.safe_seh));
                proof {
                    lemma_value_views_index(items@);
                    assert(value_views(items@) =~= seq![
                        ValueView::Str("PE"@),
                        ValueView::Flag(e.aslr),
                        ValueView::Flag(e.cfg),
                        ValueView::Flag(e.dep),
                        ValueView::Flag(e.gs),
                        ValueView::Flag(e.safe_seh),
                    ]);
                }
                Value::List(items)
            },
            BinSpecificProperties::MachO(e) => {
                let mut items: Vec<Value> = Vec::new();
                items.push(Value::Str(String::from_str("MachO")));
                items.push(Value::Flag(e.arc));
                items.push(Value::Flag(e.canary));
                items.push(Value::Flag(e.code_signature));
                items.push(Value::Flag(e.nx_heap));
                items.push(Value::Flag(e.nx_stack));
                items.push(Value::Flag(e.pie));
                items.push(Value::Flag(e.restrict));
                proof {
                    lemma_value_views_index(items@);
                    assert(value_views(items@) =~= seq![
                        ValueView::Str("MachO"@),
                        ValueView::Flag(e.arc),
                        ValueView::Flag(e.canary),
                        ValueView::Flag(e.code_signature),
                        ValueView::Flag(e.nx_heap),
                        ValueView::Flag(e.nx_stack),
                        ValueView::Flag(e.pie),
                        ValueView::Flag(e.restrict),
                    ]);
                }
                Value::List(items)
            },
        }
    }

    /// Decode a record; `None` on any value of another shape.
    pub fn from_value(v: &Value) -> (r: Option<BinSpecificProperties>)
        ensures
            r == dec_props(v@),
    {
        let items = match v {
            Value::List(items) => items,
            _ => {
                return None;
            },
        };
        proof {
            lemma_value_views_index(items@);
        }
        if items.len() == 6 {
            let name = match &items[0] {
                Value::Str(s) => s,
                _ => {
                    return None;
                },
            };
            if str_is(name, "Elf") {
                match (
                    flag_of(&items[1]),
                    flag_of(&items[2]),
                    flag_of(&items[3]),
                    int_of(&items[4]),
                    int_of(&items[5]),
                ) {
                    (Some(canary), Some(fortify), Some(nx), Some(pc), Some(rc)) => {
                        let pie = if pc == 0 {
                            PieLevel::Off
                        } else if pc == 1 {
                            PieLevel::Dso
                        } else if pc == 2 {
                            PieLevel::Full
                        } else {
                            return None;
                        };
                        let relro = if rc == 0 {
                            RelroLevel::Off
                        } else if rc == 1 {
                            RelroLevel::Partial
                        } else if rc == 2 {
                            RelroLevel::Full
                        } else {
                            return None;
                        };
                        Some(BinSpecificProperties::Elf(
                            ElfProperties { canary, fortify, nx, pie, relro },
                        ))
                    },
                    _ => None,
                }
            } else if str_is(name, "PE") {
                match (
                    flag_of(&items[1]),
                    flag_of(&items[2]),
                    flag_of(&items[3]),
                    flag_of(&items[4]),
                    flag_of(&items[5]),
                ) {
                    (Some(aslr), Some(cfg), Some(dep), Some(gs), Some(safe_seh)) => Some(
                        BinSpecificProperties::PE(PeProperties { aslr, cfg, dep, gs, safe_seh }),
                    ),
                    _ => None,
                }
            } else {
                None
            }
        } else if items.len() == 8 {
            let name = match &items[0] {
                Value::Str(s) => s,
                _ => {
                    return None;
                },
            };
            if str_is(name, "MachO") {
                match (
                    flag_of(&items[1]),
                    flag_of(&items[2]),
                    flag_of(&items[3]),
                    flag_of(&items[4]),
                    flag_of(&items[5]),
                    flag_of(&items[6]),
                    flag_of(&items[7]),
                ) {
                    (
                        Some(arc),
                        Some(canary),
                        Some(code_signature),
                        Some(nx_heap),
                        Some(nx_stack),
                        Some(pie),
                        Some(restrict),
                    ) => Some(
                        BinSpecificProperties::MachO(
                            MachOProperties {
                                arc,
                                canary,
                                code_signature,
                                nx_heap,
                                nx_stack,
                                pie,
                                restrict,
                            },
                        ),
                    ),
                    _ => None,
                }
            } else {
                None
            }
        } else {
            None
        }
    }
}

/// The encoding of a blob, under the field names `format_tag` and
/// `properties`.
pub open spec fn enc_blob(b: Blob) -> ValueView {
    ValueView::List(
        seq![
            ValueView::Str("format_tag"@),
            enc_tag(b.binarytype),
            ValueView::Str("properties"@),
            enc_props(b.properties),
        ],
    )
}

/// The decoding of a blob. A pair whose tag and record disagree about the
/// format is not a blob: decoding refuses it, so every decoded blob
/// satisfies the pairing invariant.
pub open spec fn dec_blob(w: ValueView) -> Option<Blob> {
    match w {
        ValueView::List(items) => {
            if items.len() == 4 && items[0] == ValueView::Str("format_tag"@) && items[2]
                == ValueView::Str("properties"@) {
                match (dec_tag(items[1]), dec_props(items[3])) {
                    (Some(t), Some(p)) => if t.format() == p.format() {
                        Some(Blob { binarytype: t, properties: p })
                    } else {
                        None
                    },
                    _ => None,
                }
            } else {
                None
            }
        },
        _ => None,
    }
}

/// Law: decoding an encoded blob gives the blob back, for every blob that
/// satisfies the pairing invariant.
pub proof fn lemma_blob_round_trip(b: Blob)
    requires
        b.wf(),
    ensures
        dec_blob(enc_blob(b)) == Some(b),
{
    lemma_tag_round_trip(b.binarytype);
    lemma_props_round_trip(b.properties);
}

impl Blob {
    /// Encode the blob.
    pub fn to_value(&self) -> (r: Value)
        ensures
            r@ == enc_blob(*self),
    {
        let mut items: Vec<Value> = Vec::new();
        items.push(Value::Str(String::from_str("format_tag")));
        items.push(self.binarytype.to_value());
        items.push(Value::Str(String::from_str("properties")));
        items.push(self.properties.to_value());
        proof {
            lemma_value_views_index(items@);
            assert(value_views(items@) =~= seq![
                ValueView::Str("format_tag"@),
                enc_tag(self.binarytype),
                ValueView::Str("properties"@),
                enc_props(self.properties),
            ]);
        }
        Value::List(items)
    }

    /// Decode a blob; `None` on any value of another shape and on a pair
    /// whose tag and record disagree about the format.
    pub fn from_value(v: &Value) -> (r: Option<Blob>)
        ensures
            r == dec_blob(v@),
            r is Some ==> r->0.wf(),
    {
        let items = match v {
            Value::List(items) => items,
            _ => {
                return None;
            },
        };
        proof {
            lemma_value_views_index(items@);
        }
        if items.len() != 4 {
            return None;
        }
        let k0 = match &items[0] {
            Value::Str(s) => s,
            _ => {
                return None;
            },
        };
        if !str_is(k0, "format_tag") {
            return None;
        }
        let k2 = match &items[2] {
            Value::Str(s) => s,
            _ => {
                return None;
            },
        };
        if !str_is(k2, "properties") {
            return None;
        }
        match (BinType::from_value(&items[1]), BinSpecificProperties::from_value(&items[3])) {
            (Some(t), Some(p)) => {
                let same = match (t, p) {
                    (BinType::Elf(_), BinSpecificProperties::Elf(_)) => true,
                    (BinType::PE(_), BinSpecificProperties::PE(_)) => true,
                    (BinType::MachO(_, _), BinSpecificProperties::MachO(_)) => true,
                    _ => false,
                };
                if same {
                    Some(Blob { binarytype: t, properties: p })
                } else {
                    None
                }
            },
            _ => None,
        }
    }
}

/// The encodings of a sequence of blobs, in order.
pub open spec fn enc_blobs(s: Seq<Blob>) -> Seq<ValueView>
    decreases s,
{
    if s.len() == 0 {
        Seq::empty()
    } else {
        seq![enc_blob(s[0])] + enc_blobs(s.drop_first())
    }
}

/// The decoding of a sequence of blobs; `None` as soon as one fails.
pub open spec fn dec_blobs(s: Seq<ValueView>) -> Option<Seq<Blob>>
    decreases s,
{
    if s.len() == 0 {
        Some(Seq::empty())
    } else {
        match (dec_blob(s[0]), dec_blobs(s.drop_first())) {
            (Some(b), Some(rest)) => Some(seq![b] + rest),
            _ => None,
        }
    }
}

/// `enc_blobs` maps `enc_blob` over the sequence, index by index.
pub proof fn lemma_enc_blobs_index(s: Seq<Blob>)
    ensures
        enc_blobs(s).len() == s.len(),
        forall|i: int| 0 <= i < s.len() ==> enc_blobs(s)[i] == enc_blob(s[i]),
    decreases s,
{
    if s.len() > 0 {
        lemma_enc_blobs_index(s.drop_first());
    }
}

/// `dec_blobs` succeeds exactly when each element decodes, and then decodes
/// index by index.
pub proof fn lemma_dec_blobs_index(s: Seq<ValueView>)
    ensures
        dec_blobs(s) is Some <==> (forall|i: int|
            0 <= i < s.len() ==> (#[trigger] dec_blob(s[i])) is Some),
        dec_blobs(s) is Some ==> dec_blobs(s)->0.len() == s.len(),
        dec_blobs(s) is Some ==> forall|i: int|
            0 <= i < s.len() ==> #[trigger] dec_blobs(s)->0[i] == dec_blob(s[i])->0,
    decreases s,
{
    if s.len() > 0 {
        let rest = s.drop_first();
        lemma_dec_blobs_index(rest);
        assert(forall|i: int| 0 <= i < rest.len() ==> #[trigger] rest[i] == s[i + 1]);
        if forall|i: int| 0 <= i < s.len() ==> (#[trigger] dec_blob(s[i])) is Some {
            assert forall|i: int| 0 <= i < rest.len() implies (#[trigger] dec_blob(rest[i]))
                is Some by {
                assert(dec_blob(s[i + 1]) is Some);
            }
            assert(dec_blobs(rest) is Some);
        }
        if dec_blobs(s) is Some {
            assert forall|i: int| 0 <= i < s.len() implies (#[trigger] dec_blob(s[i]))
                is Some by {
                if i > 0 {
                    assert(dec_blob(rest[i - 1]) is Some);
                }
            }
        }
    }
}

/// The encoding of a node, under the field names `file`, `blobs` and
/// `libraries`.
pub open spec fn enc_node(v: NodeView) -> ValueView
    decreases v,
{
    ValueView::List(
        seq![
            ValueView::Str("file"@),
            ValueView::Str(v.file),
            ValueView::Str("blobs"@),
            ValueView::List(enc_blobs(v.blobs)),
            ValueView::Str("libraries"@),
            ValueView::List(enc_nodes(v.libraries)),
        ],
    )
}

/// The encodings of a sequence of nodes, in order.
pub open spec fn enc_nodes(s: Seq<NodeView>) -> Seq<ValueView>
    decreases s,
{
    if s.len() == 0 {
        Seq::empty()
    } else {
        seq![enc_node(s[0])] + enc_nodes(s.drop_first())
    }
}

/// The decoding of a node; `None` on any value of another shape.
pub open spec fn dec_node(w: ValueView) -> Option<NodeView>
    decreases w,
{
    match w {
        ValueView::List(items) => {
            if items.len() == 6 && items[0] == ValueView::Str("file"@) && items[2]
                == ValueView::Str("blobs"@) && items[4] == ValueView::Str("libraries"@) {
                match (items[1], items[3], items[5]) {
                    (ValueView::Str(file), ValueView::List(bs), ValueView::List(ls)) => {
                        match (dec_blobs(bs), dec_nodes(ls)) {
                            (Some(blobs), Some(libraries)) => Some(
                                NodeView { file, blobs, libraries },
                            ),
                            _ => None,
                        }
                    },
                    _ => None,
                }
            } else {
                None
            }
        },
        _ => None,
    }
}

/// The decoding of a sequence of nodes; `None` as soon as one fails.
pub open spec fn dec_nodes(s: Seq<ValueView>) -> Option<Seq<NodeView>>
    decreases s,
{
    if s.len() == 0 {
        Some(Seq::empty())
    } else {
        match (dec_node(s[0]), dec_nodes(s.drop_first())) {
            (Some(v), Some(rest)) => Some(seq![v] + rest),
            _ => None,
        }
    }
}

/// `enc_nodes` maps `enc_node` over the sequence, index by index.
pub proof fn lemma_enc_nodes_index(s: Seq<NodeView>)
    ensures
        enc_nodes(s).len() == s.len(),
        forall|i: int| 0 <= i < s.len() ==> enc_nodes(s)[i] == enc_node(s[i]),
    decreases s,
{
    if s.len() > 0 {
        lemma_enc_nodes_index(s.drop_first());
    }
}

/// `dec_nodes` succeeds exactly when each element decodes, and then decodes
/// index by index.
pub proof fn lemma_dec_nodes_index(s: Seq<ValueView>)
    ensures
        dec_nodes(s) is Some <==> (forall|i: int|
            0 <= i < s.len() ==> (#[trigger] dec_node(s[i])) is Some),
        dec_nodes(s) is Some ==> dec_nodes(s)->0.len() == s.len(),
        dec_nodes(s) is Some ==> forall|i: int|
            0 <= i < s.len() ==> #[trigger] dec_nodes(s)->0[i] == dec_node(s[i])->0,
    decreases s,
{
    if s.len() > 0 {
        let rest = s.drop_first();
        lemma_dec_nodes_index(rest);
        assert(forall|i: int| 0 <= i < rest.len() ==> #[trigger] rest[i] == s[i + 1]);
        if forall|i: int| 0 <= i < s.len() ==> (#[trigger] dec_node(s[i])) is Some {
            assert forall|i: int| 0 <= i < rest.len() implies (#[trigger] dec_node(rest[i]))
                is Some by {
                assert(dec_node(s[i + 1]) is Some);
            }
            assert(dec_nodes(rest) is Some);
            assert(dec_node(s[0]) is Some);
            assert(dec_nodes(s) is Some);
        }
        if dec_nodes(s) is Some {
            assert forall|i: int| 0 <= i < s.len() implies (#[trigger] dec_node(s[i]))
                is Some by {
                if i > 0 {
                    assert(dec_node(rest[i - 1]) is Some);
                }
            }
        }
    }
}

/// A tree is well formed when every blob in it satisfies the pairing
/// invariant, at this node and below.
pub open spec fn node_wf(v: NodeView) -> bool
    decreases v,
{
    (forall|i: int| 0 <= i < v.blobs.len() ==> (#[trigger] v.blobs[i]).wf()) && nodes_wf(
        v.libraries,
    )
}

/// Well-formedness of a forest.
pub open spec fn nodes_wf(s: Seq<NodeView>) -> bool
    decreases s,
{
    s.len() == 0 || (node_wf(s[0]) && nodes_wf(s.drop_first()))
}

/// Law: decoding an encoded sequence of well-formed blobs gives it back.
pub proof fn lemma_blobs_round_trip(s: Seq<Blob>)
    requires
        forall|i: int| 0 <= i < s.len() ==> (#[trigger] s[i]).wf(),
    ensures
        dec_blobs(enc_blobs(s)) == Some(s),
    decreases s,
{
    if s.len() == 0 {
        assert(s =~= Seq::<Blob>::empty());
    } else {
        let es = enc_blobs(s);
        assert(es[0] == enc_blob(s[0]));
        assert(es.drop_first() =~= enc_blobs(s.drop_first()));
        lemma_blob_round_trip(s[0]);
        assert(forall|i: int|
            0 <= i < s.drop_first().len() ==> #[trigger] s.drop_first()[i] == s[i + 1]);
        lemma_blobs_round_trip(s.drop_first());
        assert(seq![s[0]] + s.drop_first() =~= s);
    }
}

/// Law: serializing then deserializing any well-formed tree yields a tree
/// equal to the original: same file, same blob contents, same library order
/// and nesting.
pub proof fn lemma_node_round_trip(v: NodeView)
    requires
        node_wf(v),
    ensures
        dec_node(enc_node(v)) == Some(v),
    decreases v,
{
    lemma_blobs_round_trip(v.blobs);
    lemma_nodes_round_trip(v.libraries);
    let items = seq![
        ValueView::Str("file"@),
        ValueView::Str(v.file),
        ValueView::Str("blobs"@),
        ValueView::List(enc_blobs(v.blobs)),
        ValueView::Str("libraries"@),
        ValueView::List(enc_nodes(v.libraries)),
    ];
    assert(items.len() == 6 && items[0] == ValueView::Str("file"@) && items[2]
        == ValueView::Str("blobs"@) && items[4] == ValueView::Str("libraries"@) && items[1]
        == ValueView::Str(v.file) && items[3] == ValueView::List(enc_blobs(v.blobs)) && items[5]
        == ValueView::List(enc_nodes(v.libraries)));
    assert(dec_node(enc_node(v)) == Some(
        NodeView { file: v.file, blobs: v.blobs, libraries: v.libraries },
    ));
    assert(NodeView { file: v.file, blobs: v.blobs, libraries: v.libraries } =~= v);
}

/// Law: decoding an encoded forest of well-formed trees gives it back.
pub proof fn lemma_nodes_round_trip(s: Seq<NodeView>)
    requires
        nodes_wf(s),
    ensures
        dec_nodes(enc_nodes(s)) == Some(s),
    decreases s,
{
    if s.len() == 0 {
        assert(s =~= Seq::<NodeView>::empty());
    } else {
        let es = enc_nodes(s);
        assert(es[0] == enc_node(s[0]));
        assert(es.drop_first() =~= enc_nodes(s.drop_first()));
        lemma_node_round_trip(s[0]);
        lemma_nodes_round_trip(s.drop_first());
        assert(seq![s[0]] + s.drop_first() =~= s);
    }
}

/// Structural equality of two documents: equal exactly when the views are
/// equal.
#[verifier::loop_isolation(false)]
pub fn eq_values(a: &Value, b: &Value) -> (r: bool)
    ensures
        r == (a@ == b@),
    decreases *a,
{
    match (a, b) {
        (Value::Str(x), Value::Str(y)) => *x == *y,
        (Value::Int(x), Value::Int(y)) => *x == *y,
        (Value::Flag(x), Value::Flag(y)) => *x == *y,
        (Value::List(xs), Value::List(ys)) => {
            proof {
                lemma_value_views_index(xs@);
                lemma_value_views_index(ys@);
            }
            if xs.len() != ys.len() {
                return false;
            }
            let n = xs.len();
            let mut i: usize = 0;
            while i < n
                invariant
                    i <= n,
                    n == xs@.len() == ys@.len(),
                    forall|j: int|
                        0 <= j < i ==> #[trigger] value_view(xs@[j]) == value_view(ys@[j]),
                decreases n - i,
            {
                proof {
                    assert(*a == Value::List(*xs));
                    assert(decreases_to!(*a => *xs));
                    assert(decreases_to!(*xs => xs@));
                    assert(decreases_to!(xs@ => xs@[i as int]));
                }
                if !eq_values(&xs[i], &ys[i]) {
                    assert(value_views(xs@)[i as int] != value_views(ys@)[i as int]);
                    return false;
                }
                i += 1;
            }
            assert(value_views(xs@) =~= value_views(ys@));
            true
        },
        _ => false,
    }
}

impl PartialEq for Value {
    /// Structural equality over the whole document.
    fn eq(&self, other: &Value) -> (r: bool) {
        eq_values(self, other)
    }
}

impl Eq for Value {

}

impl vstd::std_specs::cmp::PartialEqSpecImpl for Value {
    open spec fn obeys_eq_spec() -> bool {
        true
    }

    open spec fn eq_spec(&self, other: &Value) -> bool {
        value_view(*self) == value_view(*other)
    }
}

/// Law: re-encoding a decoded format tag reproduces the document exactly.
pub proof fn lemma_tag_reencode(w: ValueView)
    requires
        dec_tag(w) is Some,
    ensures
        enc_tag(dec_tag(w)->0) == w,
{
    match w {
        ValueView::List(items) => {
            if items.len() == 2 && items[0] == ValueView::Str("Elf"@) {
                let n = spec_as_int(items[1])->0;
                assert(items[1] == ValueView::Int(n));
                assert(seq![ValueView::Str("Elf"@), ValueView::Int((n as u16) as u64)] =~= items);
                assert(ValueView::List(
                    seq![ValueView::Str("Elf"@), ValueView::Int((n as u16) as u64)],
                ) =~= w);
            } else if items.len() == 2 && items[0] == ValueView::Str("PE"@) {
                let n = spec_as_int(items[1])->0;
                assert(items[1] == ValueView::Int(n));
                assert(seq![ValueView::Str("PE"@), ValueView::Int((n as u16) as u64)] =~= items);
                assert(ValueView::List(
                    seq![ValueView::Str("PE"@), ValueView::Int((n as u16) as u64)],
                ) =~= w);
            } else {
                let c = spec_as_int(items[1])->0;
                let s = spec_as_int(items[2])->0;
                assert(items[1] == ValueView::Int(c) && items[2] == ValueView::Int(s));
                assert(seq![
                    ValueView::Str("MachO"@),
                    ValueView::Int((c as u32) as u64),
                    ValueView::Int((s as u32) as u64),
                ] =~= items);
                assert(ValueView::List(
                    seq![
                        ValueView::Str("MachO"@),
                        ValueView::Int((c as u32) as u64),
                        ValueView::Int((s as u32) as u64),
                    ],
                ) =~= w);
            }
        },
        _ => {
            assert(false);
        },
    }
}

/// Law: re-encoding a decoded hardening record reproduces the document
/// exactly.
pub proof fn lemma_props_reencode(w: ValueView)
    requires
        dec_props(w) is Some,
    ensures
        enc_props(dec_props(w)->0) == w,
{
    match w {
        ValueView::List(items) => {
            let p = dec_props(w)->0;
            assert(enc_props(p) is List);
            assert(enc_props(p)->List_0 =~= items);
            assert(enc_props(p) =~= w);
        },
        _ => {
            assert(false);
        },
    }
}

/// Law: re-encoding a decoded blob reproduces the document exactly.
pub proof fn lemma_blob_reencode(w: ValueView)
    requires
        dec_blob(w) is Some,
    ensures
        enc_blob(dec_blob(w)->0) == w,
{
    match w {
        ValueView::List(items) => {
            lemma_tag_reencode(items[1]);
            lemma_props_reencode(items[3]);
            let b = dec_blob(w)->0;
            assert(enc_blob(b)->List_0 =~= items);
            assert(enc_blob(b) =~= w);
        },
        _ => {
            assert(false);
        },
    }
}

/// Law: re-encoding a decoded sequence of blobs reproduces it exactly.
pub proof fn lemma_blobs_reencode(s: Seq<ValueView>)
    requires
        dec_blobs(s) is Some,
    ensures
        enc_blobs(dec_blobs(s)->0) == s,
    decreases s,
{
    if s.len() == 0 {
        assert(enc_blobs(dec_blobs(s)->0) =~= s);
    } else {
        lemma_blob_reencode(s[0]);
        lemma_blobs_reencode(s.drop_first());
        let bs = dec_blobs(s)->0;
        assert(bs == seq![dec_blob(s[0])->0] + dec_blobs(s.drop_first())->0);
        assert(bs.len() > 0);
        assert(bs[0] == dec_blob(s[0])->0);
        assert(bs.drop_first() =~= dec_blobs(s.drop_first())->0);
        assert(enc_blobs(bs) =~= s);
    }
}

/// Law: re-encoding a decoded tree reproduces the serialized document
/// exactly, node for node and byte for byte.
pub proof fn lemma_node_reencode(w: ValueView)
    requires
        dec_node(w) is Some,
    ensures
        enc_node(dec_node(w)->0) == w,
    decreases w,
{
    match w {
        ValueView::List(items) => {
            match (items[1], items[3], items[5]) {
                (ValueView::Str(file), ValueView::List(bs), ValueView::List(ls)) => {
                    lemma_blobs_reencode(bs);
                    lemma_nodes_reencode(ls);
                    let v = dec_node(w)->0;
                    assert(enc_node(v)->List_0 =~= items);
                    assert(enc_node(v) =~= w);
                },
                _ => {
                    assert(false);
                },
            }
        },
        _ => {
            assert(false);
        },
    }
}

/// Law: re-encoding a decoded forest reproduces it exactly.
pub proof fn lemma_nodes_reencode(s: Seq<ValueView>)
    requires
        dec_nodes(s) is Some,
    ensures
        enc_nodes(dec_nodes(s)->0) == s,
    decreases s,
{
    if s.len() == 0 {
        assert(enc_nodes(dec_nodes(s)->0) =~= s);
    } else {
        lemma_node_reencode(s[0]);
        lemma_nodes_reencode(s.drop_first());
        let vs = dec_nodes(s)->0;
        assert(vs == seq![dec_node(s[0])->0] + dec_nodes(s.drop_first())->0);
        assert(vs.len() > 0);
        assert(vs[0] == dec_node(s[0])->0);
        assert(vs.drop_first() =~= dec_nodes(s.drop_first())->0);
        assert(enc_nodes(vs) =~= s);
    }
}

impl Binary {
    /// Encode the tree.
    pub fn to_value(&self) -> (r: Value)
        ensures
            r@ == enc_node(self@),
        decreases *self,
    {
        let mut blob_vals: Vec<Value> = Vec::new();
        let nb = self.blobs.len();
        let mut i: usize = 0;
        while i < nb
            invariant
                i <= nb,
                nb == self.blobs@.len(),
                blob_vals@.len() == i,
                forall|j: int|
                    0 <= j < i ==> #[trigger] value_view(blob_vals@[j]) == enc_blob(
                        self.blobs@[j],
                    ),
            decreases nb - i,
        {
            blob_vals.push(self.blobs[i].to_value());
            i += 1;
        }
        let mut lib_vals: Vec<Value> = Vec::new();
        let nl = self.libraries.len();
        let mut k: usize = 0;
        while k < nl
            invariant
                k <= nl,
                nl == self.libraries@.len(),
                lib_vals@.len() == k,
                forall|j: int|
                    0 <= j < k ==> #[trigger] value_view(lib_vals@[j]) == enc_node(
                        node_view(self.libraries@[j]),
                    ),
            decreases nl - k,
        {
            lib_vals.push(self.libraries[k].to_value());
            k += 1;
        }
        proof {
            lemma_value_views_index(blob_vals@);
            lemma_enc_blobs_index(self.blobs@);
            assert(value_views(blob_vals@) =~= enc_blobs(self.blobs@));
            lemma_value_views_index(lib_vals@);
            lemma_enc_nodes_index(node_views(self.libraries@));
            lemma_node_views_index(self.libraries@);
            assert(value_views(lib_vals@) =~= enc_nodes(node_views(self.libraries@)));
        }
        let ghost bvs = value_views(blob_vals@);
        let ghost lvs = value_views(lib_vals@);
        let mut items: Vec<Value> = Vec::new();
        items.push(Value::Str(String::from_str("file")));
        items.push(Value::Str(self.file.clone()));
        items.push(Value::Str(String::from_str("blobs")));
        items.push(Value::List(blob_vals));
        items.push(Value::Str(String::from_str("libraries")));
        items.push(Value::List(lib_vals));
        proof {
            lemma_value_views_index(items@);
            assert(value_views(items@) =~= seq![
                ValueView::Str("file"@),
                ValueView::Str(self.file@),
                ValueView::Str("blobs"@),
                ValueView::List(bvs),
                ValueView::Str("libraries"@),
                ValueView::List(lvs),
            ]);
        }
        Value::List(items)
    }

    /// Decode a tree; `None` on any value of another shape.
    #[verifier::loop_isolation(false)]
    pub fn from_value(v: &Value) -> (r: Option<Binary>)
        ensures
            r is Some <==> dec_node(v@) is Some,
            r is Some ==> node_view(r->0) == dec_node(v@)->0,
        decreases *v,
    {
        let items = match v {
            Value::List(items) => items,
            _ => {
                return None;
            },
        };
        proof {
            lemma_value_views_index(items@);
        }
        if items.len() != 6 {
            return None;
        }
        let k0 = match &items[0] {
            Value::Str(s) => s,
            _ => {
                return None;
            },
        };
        if !str_is(k0, "file") {
            return None;
        }
        let k2 = match &items[2] {
            Value::Str(s) => s,
            _ => {
                return None;
            },
        };
        if !str_is(k2, "blobs") {
            return None;
        }
        let k4 = match &items[4] {
            Value::Str(s) => s,
            _ => {
                return None;
            },
        };
        if !str_is(k4, "libraries") {
            return None;
        }
        let file = match &items[1] {
            Value::Str(s) => s.clone(),
            _ => {
                return None;
            },
        };
        let bs = match &items[3] {
            Value::List(b) => b,
            _ => {
                return None;
            },
        };
        let ls = match &items[5] {
            Value::List(l) => l,
            _ => {
                return None;
            },
        };
        proof {
            lemma_value_views_index(bs@);
            lemma_value_views_index(ls@);
            lemma_dec_blobs_index(value_views(bs@));
            lemma_dec_nodes_index(value_views(ls@));
        }
        let ghost bvs = value_views(bs@);
        let ghost lvs = value_views(ls@);
        let mut blobs: Vec<Blob> = Vec::new();
        let nb = bs.len();
        let mut i: usize = 0;
        while i < nb
            invariant
                i <= nb,
                nb == bs@.len(),
                bvs == value_views(bs@),
                bvs.len() == bs@.len(),
                forall|j: int| 0 <= j < bs@.len() ==> #[trigger] bvs[j] == value_view(bs@[j]),
                blobs@.len() == i,
                forall|j: int| 0 <= j < i ==> (#[trigger] dec_blob(bvs[j])) is Some,
                forall|j: int| 0 <= j < i ==> #[trigger] blobs@[j] == dec_blob(bvs[j])->0,
            decreases nb - i,
        {
            match Blob::from_value(&bs[i]) {
                Some(b) => {
                    blobs.push(b);
                },
                None => {
                    proof {
                        assert(dec_blob(bvs[i as int]) is None);
                        assert(!(forall|j: int|
                            0 <= j < bvs.len() ==> (#[trigger] dec_blob(bvs[j])) is Some)) by {
                            assert(!(dec_blob(bvs[i as int]) is Some));
                        }
                        assert(dec_blobs(bvs) is None);
                    }
                    return None;
                },
            }
            i += 1;
        }
        proof {
            assert(dec_blobs(bvs) is Some);
            assert(blobs@ =~= dec_blobs(bvs)->0);
        }
        let mut libs: Vec<Binary> = Vec::new();
        let nl = ls.len();
        let mut k: usize = 0;
        while k < nl
            invariant
                k <= nl,
                nl == ls@.len(),
                lvs == value_views(ls@),
                lvs.len() == ls@.len(),
                forall|j: int| 0 <= j < ls@.len() ==> #[trigger] lvs[j] == value_view(ls@[j]),
                libs@.len() == k,
                forall|j: int| 0 <= j < k ==> (#[trigger] dec_node(lvs[j])) is Some,
                forall|j: int|
                    0 <= j < k ==> #[trigger] node_view(libs@[j]) == dec_node(lvs[j])->0,
            decreases nl - k,
        {
            proof {
                assert(*v == Value::List(*items));
                assert(decreases_to!(*v => *items));
                assert(decreases_to!(*items => items@));
                assert(decreases_to!(items@ => items@[5]));
                assert(items@[5] == Value::List(*ls));
                assert(decreases_to!(items@[5] => *ls));
                assert(decreases_to!(*ls => ls@));
                assert(decreases_to!(ls@ => ls@[k as int]));
                assert(decreases_to!(*v => ls@[k as int]));
            }
            match Binary::from_value(&ls[k]) {
                Some(b) => {
                    libs.push(b);
                },
                None => {
                    proof {
                        assert(dec_node(lvs[k as int]) is None);
                        assert(!(forall|j: int|
                            0 <= j < lvs.len() ==> (#[trigger] dec_node(lvs[j])) is Some)) by {
                            assert(!(dec_node(lvs[k as int]) is Some));
                        }
                        assert(dec_nodes(lvs) is None);
                    }
                    return None;
                },
            }
            k += 1;
        }
        proof {
            assert(dec_nodes(lvs) is Some);
            lemma_node_views_index(libs@);
            assert(node_views(libs@) =~= dec_nodes(lvs)->0);
        }
        let r = Binary { file, blobs, libraries: libs };
        proof {
            assert(dec_node(v@) == Some(
                NodeView { file: r.file@, blobs: r.blobs@, libraries: node_views(r.libraries@) },
            ));
            assert(node_view(r) =~= dec_node(v@)->0);
        }
        Some(r)
    }
}

} // verus!
