//! Plain-text rendering of a tree: one line per node — the file, then each
//! blob's label and properties — walking the libraries depth-first in
//! pre-order. A styled backend may decorate the same text; it adds no
//! content.

use crate::binary::{Binary, Blob, NodeView};
use vstd::prelude::*;
use vstd::string::StringExecFns;

verus! {

/// The text of the blobs after the first, each behind a comma.
pub open spec fn blobs_text_suffix(s: Seq<Blob>, i: int) -> Seq<char>
    decreases s.len() - i,
{
    if i < 0 || i >= s.len() {
        Seq::empty()
    } else {
        ", "@ + s[i].render_text() + blobs_text_suffix(s, i + 1)
    }
}

/// The text of a node's blobs, joined by commas.
pub open spec fn blobs_text(s: Seq<Blob>) -> Seq<char> {
    if s.len() == 0 {
        Seq::empty()
    } else {
        s[0].render_text() + blobs_text_suffix(s, 1)
    }
}

/// One node's own line: the file, then its blobs. A node in which no
/// supported format was recognized still renders, saying so.
pub open spec fn line_text(v: NodeView) -> Seq<char> {
    v.file + ": "@ + if v.blobs.len() == 0 {
        "no recognized format"@
    } else {
        blobs_text(v.blobs)
    }
}

/// The text of a whole tree: the node's line, then each library's tree, in
/// resolution order.
pub open spec fn tree_text(v: NodeView) -> Seq<char>
    decreases v,
{
    line_text(v) + "\n"@ + trees_text(v.libraries)
}

/// The text of a forest, left to right.
pub open spec fn trees_text(s: Seq<NodeView>) -> Seq<char>
    decreases s,
{
    if s.len() == 0 {
        Seq::empty()
    } else {
        tree_text(s[0]) + trees_text(s.drop_first())
    }
}

/// Law: a node without libraries is a valid leaf; its tree is its own line
/// alone, and rendering it recurses into nothing.
pub proof fn lemma_leaf_renders_alone(v: NodeView)
    requires
        v.libraries.len() == 0,
    ensures
        tree_text(v) == line_text(v) + "\n"@,
{
    assert(trees_text(v.libraries) =~= Seq::<char>::empty());
    assert(line_text(v) + "\n"@ + Seq::<char>::empty() =~= line_text(v) + "\n"@);
}

/// Rendering one more tree appends its text.
pub proof fn lemma_trees_text_push(s: Seq<NodeView>, v: NodeView)
    ensures
        trees_text(s.push(v)) == trees_text(s) + tree_text(v),
    decreases s,
{
    if s.len() == 0 {
        assert(s.push(v).drop_first() =~= s);
        assert(trees_text(s.push(v)) =~= trees_text(s) + tree_text(v));
    } else {
        assert(s.push(v).drop_first() =~= s.drop_first().push(v));
        lemma_trees_text_push(s.drop_first(), v);
        assert(trees_text(s.push(v)) =~= trees_text(s) + tree_text(v));
    }
}

fn render_blobs_suffix(blobs: &Vec<Blob>, i: usize) -> (r: String)
    ensures
        r@ == blobs_text_suffix(blobs@, i as int),
    decreases blobs@.len() - i,
{
    if i >= blobs.len() {
        let r = String::new();
        proof {
            assert(r@ =~= blobs_text_suffix(blobs@, i as int));
        }
        r
    } else {
        let mut s = String::from_str(", ");
        let one = blobs[i].render();
        s.append(one.as_str());
        let rest = render_blobs_suffix(blobs, i + 1);
        s.append(rest.as_str());
        s
    }
}

impl Binary {
    /// Render this node's own line, without its libraries.
    pub fn render_line(&self) -> (r: String)
        ensures
            r@ == line_text(self@),
    {
        let mut s = self.file.clone();
        s.append(": ");
        if self.blobs.len() == 0 {
            s.append("no recognized format");
        } else {
            let first = self.blobs[0].render();
            s.append(first.as_str());
            let rest = render_blobs_suffix(&self.blobs, 1);
            s.append(rest.as_str());
            proof {
                assert(self.file@ + ": "@ + (self.blobs@[0].render_text() + blobs_text_suffix(
                    self.blobs@,
                    1,
                )) =~= self.file@ + ": "@ + self.blobs@[0].render_text() + blobs_text_suffix(
                    self.blobs@,
                    1,
                ));
            }
        }
        s
    }

    /// Render the whole tree, depth-first in pre-order.
    #[verifier::loop_isolation(false)]
    pub fn render_tree(&self) -> (r: String)
        ensures
            r@ == tree_text(self@),
        decreases *self,
    {
        proof {
            crate::binary::lemma_node_views_index(self.libraries@);
        }
        let mut s = self.render_line();
        s.append("\n");
        let n = self.libraries.len();
        let mut k: usize = 0;
        while k < n
            invariant
                k <= n,
                s@ == line_text(self@) + "\n"@ + trees_text(self@.libraries.take(k as int)),
            decreases n - k,
        {
            let sub = self.libraries[k].render_tree();
            s.append(sub.as_str());
            proof {
                lemma_trees_text_push(self@.libraries.take(k as int), self@.libraries[k as int]);
                assert(self@.libraries.take(k as int).push(self@.libraries[k as int])
                    =~= self@.libraries.take(k + 1));
                assert(line_text(self@) + "\n"@ + trees_text(self@.libraries.take(k as int))
                    + tree_text(self@.libraries[k as int]) =~= line_text(self@) + "\n"@
                    + trees_text(self@.libraries.take(k + 1)));
            }
            k += 1;
        }
        proof {
            assert(self@.libraries.take(n as int) =~= self@.libraries);
            assert(line_text(self@) + "\n"@ + trees_text(self@.libraries.take(0))
                =~= line_text(self@) + "\n"@);
        }
        s
    }
}

} // verus!
