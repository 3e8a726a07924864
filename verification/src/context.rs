//! Questions that a detector asks about a node's surroundings: its ancestors,
//! its receiver, and the text of the nodes around it.

use crate::text::text_eq;
use crate::tree::NodeKind;
use crate::tree::Tree;
use crate::tree::TreeModel;
use crate::tree::TypeTag;
use vstd::prelude::*;

verus! {

impl TreeModel {
    /// The kind of node `i`.
    pub open spec fn kind(self, i: usize) -> NodeKind {
        self.nodes[i as int].kind
    }

    /// What is evident about the value of node `i`.
    pub open spec fn tag(self, i: usize) -> TypeTag {
        self.nodes[i as int].tag
    }

    /// The textual payload of node `i`.
    pub open spec fn text(self, i: usize) -> Option<Seq<char>> {
        self.nodes[i as int].text
    }

    /// The children of node `i`.
    pub open spec fn children(self, i: usize) -> Seq<usize> {
        self.nodes[i as int].children
    }

    /// The parent of node `i`.
    pub open spec fn parent(self, i: usize) -> Option<usize> {
        self.nodes[i as int].parent
    }

    /// The first child of node `i`, if it has children.
    pub open spec fn first_child(self, i: usize) -> Option<usize> {
        if self.children(i).len() > 0 {
            Some(self.children(i)[0])
        } else {
            None
        }
    }

    /// Node `i` has the first child `c`.
    pub open spec fn leads_with(self, i: usize, c: usize) -> bool {
        self.first_child(i) == Some(c)
    }

    /// Node `i` is of kind `kind` and carries the text `text`.
    pub open spec fn is_named(self, i: usize, kind: NodeKind, text: Seq<char>) -> bool {
        self.kind(i) == kind && self.text(i) == Some(text)
    }

    /// Some proper ancestor of node `i` is of kind `kind`.
    pub open spec fn has_ancestor_kind(self, i: usize, kind: NodeKind) -> bool
        decreases i,
    {
        match self.parent(i) {
            Some(p) => p < i && (self.kind(p) == kind || self.has_ancestor_kind(p, kind)),
            None => false,
        }
    }

    /// The nearest proper ancestor of node `i` that is of kind `kind`.
    pub open spec fn enclosing(self, i: usize, kind: NodeKind) -> Option<usize>
        decreases i,
    {
        match self.parent(i) {
            Some(p) => if p < i {
                if self.kind(p) == kind {
                    Some(p)
                } else {
                    self.enclosing(p, kind)
                }
            } else {
                None
            },
            None => None,
        }
    }

    /// In a well-formed tree, the parent of a node and its children are nodes
    /// of the tree, the parent before it and the children behind it.
    pub proof fn lemma_links(self, i: usize)
        requires
            self.wf(),
            self.has(i),
        ensures
            self.parent(i) matches Some(p) ==> p < i && self.has(p),
            self.parent(i) is None <==> i == 0,
            forall|k: int|
                0 <= k < self.children(i).len() ==> {
                    &&& i < #[trigger] self.children(i)[k]
                    &&& self.has(self.children(i)[k])
                    &&& self.parent(self.children(i)[k]) == Some(i)
                },
            forall|k: int, l: int|
                0 <= k < l < self.children(i).len() ==> self.children(i)[k] < self.children(
                    i,
                )[l],
    {
        assert(self.node_wf(i as int));
    }
}

/// Whether two optional texts are the same: both absent, or both present with
/// the same characters.
pub fn same_text(a: Option<&String>, b: Option<&String>) -> (r: bool)
    ensures
        r == (match (a, b) {
            (Some(x), Some(y)) => x@ == y@,
            (None, None) => true,
            _ => false,
        }),
{
    match (a, b) {
        (Some(x), Some(y)) => text_eq(x.as_str(), y.as_str()),
        (None, None) => true,
        _ => false,
    }
}

/// The first child of node `i`, if it has children.
pub(crate) fn first_child(tree: &Tree, i: usize) -> (c: Option<usize>)
    requires
        tree@.has(i),
    ensures
        c == tree@.first_child(i),
        c matches Some(x) ==> tree@.has(x),
{
    proof {
        use_type_invariant(tree);
        tree@.lemma_links(i);
    }
    let children = tree.node(i).children();
    if children.len() > 0 {
        Some(children[0])
    } else {
        None
    }
}

/// Whether node `i` has the first child `c`.
pub(crate) fn leads_with(tree: &Tree, i: usize, c: usize) -> (b: bool)
    requires
        tree@.has(i),
    ensures
        b == tree@.leads_with(i, c),
{
    match first_child(tree, i) {
        Some(x) => x == c,
        None => false,
    }
}

/// Whether node `i` is of kind `kind` and carries the text `text`.
pub(crate) fn is_named(tree: &Tree, i: usize, kind: NodeKind, text: &str) -> (b: bool)
    requires
        tree@.has(i),
    ensures
        b == tree@.is_named(i, kind, text@),
{
    let node = tree.node(i);
    node.kind() == kind && node.text_is(text)
}

/// Whether some proper ancestor of node `i` is of kind `kind`.
pub(crate) fn has_ancestor_of_kind(tree: &Tree, i: usize, kind: NodeKind) -> (b: bool)
    requires
        tree@.has(i),
    ensures
        b == tree@.has_ancestor_kind(i, kind),
{
    proof {
        use_type_invariant(tree);
    }
    let mut cur = i;
    loop
        invariant
            tree@.wf(),
            tree@.has(cur),
            tree@.has_ancestor_kind(i, kind) == tree@.has_ancestor_kind(cur, kind),
        decreases cur,
    {
        proof {
            tree@.lemma_links(cur);
        }
        match tree.node(cur).parent() {
            None => {
                return false;
            },
            Some(p) => {
                if tree.node(p).kind() == kind {
                    return true;
                }
                cur = p;
            },
        }
    }
}

/// The nearest proper ancestor of node `i` that is of kind `kind`.
pub(crate) fn enclosing(tree: &Tree, i: usize, kind: NodeKind) -> (a: Option<usize>)
    requires
        tree@.has(i),
    ensures
        a == tree@.enclosing(i, kind),
        a matches Some(x) ==> tree@.has(x),
{
    proof {
        use_type_invariant(tree);
    }
    let mut cur = i;
    loop
        invariant
            tree@.wf(),
            tree@.has(cur),
            tree@.enclosing(i, kind) == tree@.enclosing(cur, kind),
        decreases cur,
    {
        proof {
            tree@.lemma_links(cur);
        }
        match tree.node(cur).parent() {
            None => {
                return None;
            },
            Some(p) => {
                if tree.node(p).kind() == kind {
                    return Some(p);
                }
                cur = p;
            },
        }
    }
}

} // verus!
