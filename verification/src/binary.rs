//! The format-tagged result model: `BinType` identifies a container format
//! together with the raw machine/CPU codes its header reported,
//! `BinSpecificProperties` carries that format's hardening record, a `Blob`
//! pairs the two, and a `Binary` ties a file to its blobs and, recursively,
//! to the binaries it links against.

use crate::arch::{elf_machine_name, elf_machine_str, macho_arch_name, macho_arch_str,
    pe_machine_name, pe_machine_str};
use crate::props::{elf_props_text, macho_props_text, pe_props_text, ElfProperties,
    MachOProperties, PeProperties};
use vstd::prelude::*;
use vstd::string::StringExecFns;

verus! {

/// The container format of one analyzed image.
#[derive(Clone, Copy, Debug, PartialEq, Eq, Structural)]
pub enum Format {
    Elf,
    PE,
    MachO,
}

/// A format tag: which container format a blob belongs to, with the raw
/// machine/CPU identifier codes its header reported.
#[derive(Clone, Copy, Debug, PartialEq, Eq, Structural)]
pub enum BinType {
    /// An ELF image, with its 16-bit machine code.
    Elf(u16),
    /// A PE image, with its 16-bit COFF machine code.
    PE(u16),
    /// A Mach-O image, with its 32-bit cputype and cpusubtype.
    MachO(u32, u32),
}

/// The hardening record of one analyzed image, one variant per format.
#[derive(Clone, Copy, Debug, PartialEq, Eq, Structural)]
pub enum BinSpecificProperties {
    Elf(ElfProperties),
    PE(PeProperties),
    MachO(MachOProperties),
}

impl BinType {
    /// The format this tag identifies.
    pub open spec fn format(self) -> Format {
        match self {
            BinType::Elf(_) => Format::Elf,
            BinType::PE(_) => Format::PE,
            BinType::MachO(_, _) => Format::MachO,
        }
    }

    /// The human-readable label: the format name joined to the decoded
    /// architecture name. A Mach-O pair outside the name table degrades to
    /// the `UNKNOWN` placeholder instead of failing.
    pub open spec fn label_text(self) -> Seq<char> {
        match self {
            BinType::Elf(m) => "ELF_"@ + elf_machine_name(m),
            BinType::PE(m) => "PE_"@ + pe_machine_name(m),
            BinType::MachO(c, s) => "MachO_"@ + match macho_arch_name(c, s) {
                Some(name) => name,
                None => "UNKNOWN"@,
            },
        }
    }

    /// Render the label.
    pub fn label(&self) -> (r: String)
        ensures
            r@ == self.label_text(),
    {
        match *self {
            BinType::Elf(m) => {
                let mut s = String::from_str("ELF_");
                let name = elf_machine_str(m);
                s.append(name.as_str());
                s
            },
            BinType::PE(m) => {
                let mut s = String::from_str("PE_");
                let name = pe_machine_str(m);
                s.append(name.as_str());
                s
            },
            BinType::MachO(c, sub) => {
                let mut s = String::from_str("MachO_");
                match macho_arch_str(c, sub) {
                    Some(name) => s.append(name.as_str()),
                    None => s.append("UNKNOWN"),
                }
                s
            },
        }
    }
}

/// Law: a Mach-O tag whose cputype/cpusubtype pair decodes to no known
/// architecture still has a label, and that label carries the literal
/// `UNKNOWN` placeholder.
pub proof fn lemma_unknown_arch_placeholder(cputype: u32, cpusubtype: u32)
    requires
        macho_arch_name(cputype, cpusubtype) is None,
    ensures
        BinType::MachO(cputype, cpusubtype).label_text() == "MachO_"@ + "UNKNOWN"@,
        BinType::MachO(cputype, cpusubtype).label_text() == "MachO_UNKNOWN"@,
{
    reveal_strlit("MachO_");
    reveal_strlit("UNKNOWN");
    reveal_strlit("MachO_UNKNOWN");
    assert("MachO_"@ + "UNKNOWN"@ =~= "MachO_UNKNOWN"@);
}

impl BinSpecificProperties {
    /// The format this record belongs to.
    pub open spec fn format(self) -> Format {
        match self {
            BinSpecificProperties::Elf(_) => Format::Elf,
            BinSpecificProperties::PE(_) => Format::PE,
            BinSpecificProperties::MachO(_) => Format::MachO,
        }
    }

    /// The rendering of the record, delegated entirely to the format's own
    /// record type: this dispatch adds no text of its own.
    pub open spec fn render_text(self) -> Seq<char> {
        match self {
            BinSpecificProperties::Elf(p) => elf_props_text(p),
            BinSpecificProperties::PE(p) => pe_props_text(p),
            BinSpecificProperties::MachO(p) => macho_props_text(p),
        }
    }

    /// Render the record.
    pub fn render(&self) -> (r: String)
        ensures
            r@ == self.render_text(),
    {
        match self {
            BinSpecificProperties::Elf(p) => p.render(),
            BinSpecificProperties::PE(p) => p.render(),
            BinSpecificProperties::MachO(p) => p.render(),
        }
    }
}

/// One analyzed binary image: a format tag paired with that same format's
/// hardening record.
#[derive(Clone, Copy, Debug, PartialEq, Eq, Structural)]
pub struct Blob {
    pub binarytype: BinType,
    pub properties: BinSpecificProperties,
}

impl Blob {
    /// The pairing invariant: the tag and the record speak of one format.
    pub open spec fn wf(self) -> bool {
        self.binarytype.format() == self.properties.format()
    }

    /// Pair a tag with a matching record. Callers pass a pair of one
    /// format; the result always satisfies the pairing invariant.
    pub fn new(binarytype: BinType, properties: BinSpecificProperties) -> (r: Blob)
        requires
            binarytype.format() == properties.format(),
        ensures
            r.binarytype == binarytype,
            r.properties == properties,
            r.wf(),
    {
        Blob { binarytype, properties }
    }

    /// The rendering of a blob: the tag's label, then the record's own
    /// rendering, concatenated with no separator of this layer's making.
    pub open spec fn render_text(self) -> Seq<char> {
        self.binarytype.label_text() + self.properties.render_text()
    }

    /// Render the blob.
    pub fn render(&self) -> (r: String)
        ensures
            r@ == self.render_text(),
    {
        let label = self.binarytype.label();
        let props = self.properties.render();
        label.concat(props.as_str())
    }
}

/// One file on disk: its path, the blobs found inside it, and the binaries
/// it links against, each owned exclusively by this node.
#[derive(Debug)]
pub struct Binary {
    pub file: String,
    pub blobs: Vec<Blob>,
    pub libraries: Vec<Binary>,
}

/// The mathematical shape of a `Binary`: the same tree over sequences.
#[verifier::ext_equal]
pub ghost struct NodeView {
    pub file: Seq<char>,
    pub blobs: Seq<Blob>,
    pub libraries: Seq<NodeView>,
}

/// The view of one node.
pub open spec fn node_view(b: Binary) -> NodeView
    decreases b,
{
    NodeView { file: b.file@, blobs: b.blobs@, libraries: node_views(b.libraries@) }
}

/// The views of a sequence of nodes, in order.
pub open spec fn node_views(s: Seq<Binary>) -> Seq<NodeView>
    decreases s,
{
    if s.len() == 0 {
        Seq::empty()
    } else {
        seq![node_view(s[0])] + node_views(s.drop_first())
    }
}

impl View for Binary {
    type V = NodeView;

    open spec fn view(&self) -> NodeView {
        node_view(*self)
    }
}

/// `node_views` maps `node_view` over the sequence, index by index.
pub proof fn lemma_node_views_index(s: Seq<Binary>)
    ensures
        node_views(s).len() == s.len(),
        forall|i: int| 0 <= i < s.len() ==> node_views(s)[i] == node_view(s[i]),
    decreases s,
{
    if s.len() > 0 {
        lemma_node_views_index(s.drop_first());
    }
}

/// Appending one node appends its view.
pub proof fn lemma_node_views_push(s: Seq<Binary>, b: Binary)
    ensures
        node_views(s.push(b)) == node_views(s).push(node_view(b)),
    decreases s,
{
    if s.len() == 0 {
        assert(s.push(b).drop_first() =~= s);
        assert(node_views(s.push(b)) =~= node_views(s).push(node_view(b)));
    } else {
        assert(s.push(b).drop_first() =~= s.drop_first().push(b));
        lemma_node_views_push(s.drop_first(), b);
        assert(node_views(s.push(b)) =~= node_views(s).push(node_view(b)));
    }
}

impl Binary {
    /// Wrap a file and its analyzed blobs into a node with no libraries
    /// attached yet; dependency resolution attaches them afterwards.
    pub fn new(file: String, blobs: Vec<Blob>) -> (r: Binary)
        ensures
            r@ == (NodeView { file: file@, blobs: blobs@, libraries: Seq::<NodeView>::empty() }),
            r.file == file,
            r.blobs == blobs,
            r.libraries@.len() == 0,
    {
        let r = Binary { file, blobs, libraries: Vec::new() };
        proof {
            assert(node_views(r.libraries@) =~= Seq::<NodeView>::empty());
            assert(r@ =~= (NodeView {
                file: r.file@,
                blobs: r.blobs@,
                libraries: Seq::<NodeView>::empty(),
            }));
        }
        r
    }

    /// Attach one resolved library, after the libraries already attached.
    pub fn push_library(&mut self, lib: Binary)
        ensures
            final(self)@ == (NodeView {
                file: old(self)@.file,
                blobs: old(self)@.blobs,
                libraries: old(self)@.libraries.push(lib@),
            }),
    {
        proof {
            lemma_node_views_push(self.libraries@, lib);
        }
        self.libraries.push(lib);
        proof {
            assert(self@ =~= (NodeView {
                file: old(self)@.file,
                blobs: old(self)@.blobs,
                libraries: old(self)@.libraries.push(lib@),
            }));
        }
    }
}

/// Copy one tree, node by node.
pub fn clone_node(a: &Binary) -> (r: Binary)
    ensures
        r@ == a@,
    decreases *a,
{
    proof {
        lemma_node_views_index(a.libraries@);
    }
    let mut blobs: Vec<Blob> = Vec::new();
    let n_blobs = a.blobs.len();
    let mut i: usize = 0;
    while i < n_blobs
        invariant
            i <= n_blobs,
            n_blobs == a.blobs@.len(),
            blobs@ == a.blobs@.take(i as int),
        decreases n_blobs - i,
    {
        blobs.push(a.blobs[i]);
        assert(blobs@ =~= a.blobs@.take(i + 1));
        i += 1;
    }
    assert(blobs@ =~= a.blobs@);
    let mut libs: Vec<Binary> = Vec::new();
    let n_libs = a.libraries.len();
    let mut k: usize = 0;
    while k < n_libs
        invariant
            k <= n_libs,
            n_libs == a.libraries@.len(),
            libs@.len() == k,
            forall|j: int| 0 <= j < k
                ==> #[trigger] node_view(libs@[j]) == node_view(a.libraries@[j]),
        decreases n_libs - k,
    {
        libs.push(clone_node(&a.libraries[k]));
        k += 1;
    }
    let r = Binary { file: a.file.clone(), blobs, libraries: libs };
    proof {
        lemma_node_views_index(r.libraries@);
        assert(node_views(r.libraries@) =~= node_views(a.libraries@));
        assert(r@ =~= a@);
    }
    r
}

impl Clone for Binary {
    /// A copy of the tree, structurally equal to the original.
    fn clone(&self) -> (r: Binary)
        ensures
            r@ == self@,
    {
        clone_node(self)
    }
}

/// Structural equality of two nodes: equal exactly when the views are equal,
/// that is, same file path, same blob contents, same library order and
/// nesting.
pub fn eq_nodes(a: &Binary, b: &Binary) -> (r: bool)
    ensures
        r == (a@ == b@),
    decreases *a,
{
    proof {
        lemma_node_views_index(a.libraries@);
        lemma_node_views_index(b.libraries@);
    }
    if !(a.file == b.file) {
        return false;
    }
    if a.blobs.len() != b.blobs.len() {
        assert(a@.blobs.len() != b@.blobs.len());
        return false;
    }
    let n_blobs = a.blobs.len();
    let mut i: usize = 0;
    while i < n_blobs
        invariant
            i <= n_blobs,
            n_blobs == a.blobs@.len() == b.blobs@.len(),
            forall|j: int| 0 <= j < i ==> a.blobs@[j] == b.blobs@[j],
        decreases n_blobs - i,
    {
        let ba = a.blobs[i];
        let bb = b.blobs[i];
        if !(ba == bb) {
            assert(a@.blobs[i as int] != b@.blobs[i as int]);
            return false;
        }
        i += 1;
    }
    assert(a@.blobs =~= b@.blobs);
    if a.libraries.len() != b.libraries.len() {
        assert(a@.libraries.len() != b@.libraries.len());
        return false;
    }
    let n_libs = a.libraries.len();
    let mut k: usize = 0;
    while k < n_libs
        invariant
            k <= n_libs,
            n_libs == a.libraries@.len() == b.libraries@.len(),
            a@.blobs == b@.blobs,
            a@.file == b@.file,
            node_views(a.libraries@).len() == a.libraries@.len(),
            node_views(b.libraries@).len() == b.libraries@.len(),
            forall|j: int| 0 <= j < a.libraries@.len()
                ==> #[trigger] node_views(a.libraries@)[j] == node_view(a.libraries@[j]),
            forall|j: int| 0 <= j < b.libraries@.len()
                ==> #[trigger] node_views(b.libraries@)[j] == node_view(b.libraries@[j]),
            forall|j: int| 0 <= j < k
                ==> #[trigger] node_views(a.libraries@)[j] == node_views(b.libraries@)[j],
        decreases n_libs - k,
    {
        let sub_eq = eq_nodes(&a.libraries[k], &b.libraries[k]);
        if !sub_eq {
            assert(a@.libraries[k as int] != b@.libraries[k as int]);
            return false;
        }
        k += 1;
    }
    assert(a@.libraries =~= b@.libraries);
    assert(a@ =~= b@);
    true
}

/// Law: equality of trees is structural, so two trees that agree except in
/// one library's path are unequal.
pub proof fn lemma_path_change_breaks_equality(a: Binary, b: Binary, i: int)
    requires
        0 <= i < node_view(a).libraries.len(),
        0 <= i < node_view(b).libraries.len(),
        node_view(a).libraries[i].file != node_view(b).libraries[i].file,
    ensures
        node_view(a) != node_view(b),
{
}

impl PartialEq for Binary {
    /// Structural equality over the whole tree.
    fn eq(&self, other: &Binary) -> (r: bool) {
        eq_nodes(self, other)
    }
}

impl Eq for Binary {

}

impl vstd::std_specs::cmp::PartialEqSpecImpl for Binary {
    open spec fn obeys_eq_spec() -> bool {
        true
    }

    open spec fn eq_spec(&self, other: &Binary) -> bool {
        node_view(*self) == node_view(*other)
    }
}

/// The files of a tree in depth-first pre-order: the node itself, then each
/// library in resolution order, recursively.
pub open spec fn preorder_of(v: NodeView) -> Seq<Seq<char>>
    decreases v,
{
    seq![v.file] + preorders_of(v.libraries)
}

/// Pre-order traversal of a forest, left to right.
pub open spec fn preorders_of(s: Seq<NodeView>) -> Seq<Seq<char>>
    decreases s,
{
    if s.len() == 0 {
        Seq::empty()
    } else {
        preorder_of(s[0]) + preorders_of(s.drop_first())
    }
}

/// Visiting one more tree appends its traversal.
pub proof fn lemma_preorders_push(s: Seq<NodeView>, v: NodeView)
    ensures
        preorders_of(s.push(v)) == preorders_of(s) + preorder_of(v),
    decreases s,
{
    if s.len() == 0 {
        assert(s.push(v).drop_first() =~= s);
        assert(preorders_of(s.push(v)) =~= preorders_of(s) + preorder_of(v));
    } else {
        assert(s.push(v).drop_first() =~= s.drop_first().push(v));
        lemma_preorders_push(s.drop_first(), v);
        assert(preorders_of(s.push(v)) =~= preorders_of(s) + preorder_of(v));
    }
}

impl Binary {
    /// Collect the file paths of the tree in depth-first pre-order. This is
    /// the order reporters must use for deterministic output. A node whose
    /// library path reaches the same file twice lists it twice: no
    /// deduplication happens at this layer.
    pub fn preorder_paths(&self) -> (r: Vec<String>)
        ensures
            r.deep_view() == preorder_of(self@),
        decreases *self,
    {
        proof {
            lemma_node_views_index(self.libraries@);
        }
        let mut out: Vec<String> = Vec::new();
        out.push(self.file.clone());
        assert(out.deep_view() =~= seq![self@.file] + preorders_of(self@.libraries.take(0)));
        let n = self.libraries.len();
        let mut i: usize = 0;
        while i < n
            invariant
                i <= n,
                n == self.libraries@.len(),
                self@.libraries.len() == self.libraries@.len(),
                forall|j: int| 0 <= j < self.libraries@.len()
                    ==> #[trigger] self@.libraries[j] == node_view(self.libraries@[j]),
                out.deep_view() == seq![self@.file] + preorders_of(self@.libraries.take(i as int)),
            decreases n - i,
        {
            let mut sub = self.libraries[i].preorder_paths();
            let ghost prev = out@;
            let ghost subv = sub@;
            let ghost target = seq![self@.file] + preorders_of(self@.libraries.take(i + 1));
            out.append(&mut sub);
            proof {
                lemma_preorders_push(self@.libraries.take(i as int), self@.libraries[i as int]);
                assert(self@.libraries.take(i as int).push(self@.libraries[i as int])
                    =~= self@.libraries.take(i + 1));
                assert(out@ == prev + subv);
                assert(target =~= (seq![self@.file] + preorders_of(self@.libraries.take(i as int)))
                    + preorder_of(self@.libraries[i as int]));
                assert forall|j: int| 0 <= j < out@.len() implies #[trigger] out.deep_view()[j]
                    == target[j] by {
                    if j < prev.len() {
                        assert(out@[j] == prev[j]);
                    } else {
                        assert(out@[j] == subv[j - prev.len()]);
                    }
                }
                assert(out.deep_view() =~= target);
            }
            i += 1;
        }
        proof {
            assert(self@.libraries.take(n as int) =~= self@.libraries);
        }
        out
    }
}

} // verus!
