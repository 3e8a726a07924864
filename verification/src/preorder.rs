//! The pre-order of a well-formed tree holds every node exactly once.

use crate::tree::TreeModel;
use vstd::prelude::*;
use vstd::seq_lib::lemma_no_dup_in_concat;

verus! {

impl TreeModel {
    /// Node `j` is node `a` or lies under it.
    pub open spec fn under(self, a: usize, j: usize) -> bool {
        j == a || self.ancestor(a, j)
    }

    /// Node `j` is one of the children of `i` from child `k` on, or lies
    /// under one of them.
    pub open spec fn under_child(self, i: usize, k: int, j: usize) -> bool {
        exists|m: int| k <= m < self.children(i).len() && self.under(#[trigger] self.children(i)[m], j)
    }

    /// An ancestor is a node of the tree and comes before its descendants.
    pub proof fn lemma_ancestor_before(self, a: usize, j: usize)
        requires
            self.wf(),
            self.has(j),
            self.ancestor(a, j),
        ensures
            a < j,
            self.has(a),
        decreases j,
    {
        self.lemma_links(j);
        let p = self.parent(j)->0;
        if p != a {
            self.lemma_ancestor_before(a, p);
        }
    }

    /// An ancestor of an ancestor is an ancestor.
    pub proof fn lemma_ancestor_transitive(self, a: usize, b: usize, j: usize)
        requires
            self.wf(),
            self.has(j),
            self.ancestor(a, b),
            self.ancestor(b, j),
        ensures
            self.ancestor(a, j),
        decreases j,
    {
        self.lemma_links(j);
        let p = self.parent(j)->0;
        if p != b {
            self.lemma_ancestor_transitive(a, b, p);
        }
    }

    /// Every node is the root or lies under it.
    pub proof fn lemma_root_over_all(self, j: usize)
        requires
            self.wf(),
            self.has(j),
        ensures
            self.under(0, j),
        decreases j,
    {
        self.lemma_links(j);
        if j != 0 {
            let p = self.parent(j)->0;
            self.lemma_root_over_all(p);
        }
    }

    /// What lies under a node lies under one of its children, or is one.
    pub proof fn lemma_descends_through_child(self, i: usize, j: usize)
        requires
            self.wf(),
            self.has(j),
            self.ancestor(i, j),
        ensures
            self.under_child(i, 0, j),
        decreases j,
    {
        self.lemma_links(j);
        let p = self.parent(j)->0;
        if p == i {
            assert(self.node_wf(j as int));
            let m = choose|m: int|
                0 <= m < self.children(i).len() && self.children(i)[m] == j;
        } else {
            self.lemma_descends_through_child(i, p);
            let m = choose|m: int|
                0 <= m < self.children(i).len() && self.under(#[trigger] self.children(i)[m], p);
        }
    }

    /// Two nodes that a third lies under lie one under the other.
    pub proof fn lemma_comparable(self, a: usize, b: usize, j: usize)
        requires
            self.wf(),
            self.has(j),
            self.under(a, j),
            self.under(b, j),
        ensures
            a == b || self.ancestor(a, b) || self.ancestor(b, a),
        decreases j,
    {
        if j != a && j != b {
            self.lemma_links(j);
            let p = self.parent(j)->0;
            self.lemma_comparable(a, b, p);
        }
    }

    /// Nothing lies under two children of one node.
    pub proof fn lemma_siblings_apart(self, i: usize, k: int, m: int, j: usize)
        requires
            self.wf(),
            self.has(i),
            self.has(j),
            0 <= k < self.children(i).len(),
            0 <= m < self.children(i).len(),
            k != m,
            self.under(self.children(i)[k], j),
        ensures
            !self.under(self.children(i)[m], j),
    {
        let a = self.children(i)[k];
        let b = self.children(i)[m];
        self.lemma_links(i);
        if self.under(b, j) {
            self.lemma_comparable(a, b, j);
            self.lemma_links(a);
            self.lemma_links(b);
            if self.ancestor(a, b) {
                if self.ancestor(a, i) {
                    self.lemma_ancestor_before(a, i);
                }
            } else if self.ancestor(b, a) {
                if self.ancestor(b, i) {
                    self.lemma_ancestor_before(b, i);
                }
            }
        }
    }

    /// The pre-order of the subtree under node `i` holds node `i` and what
    /// lies under it, each node once.
    pub proof fn lemma_subtree_holds(self, i: usize)
        requires
            self.wf(),
            self.has(i),
        ensures
            self.subtree(i).no_duplicates(),
            forall|j: usize|
                #[trigger] self.subtree(i).contains(j) <==> self.has(j) && self.under(i, j),
        decreases self.nodes.len() - i, self.children(i).len() + 1,
    {
        let head = seq![i];
        let tail = self.forest(i, 0);
        self.lemma_forest_holds(i, 0);
        self.lemma_links(i);
        assert forall|x: int, y: int| 0 <= x < head.len() && 0 <= y < tail.len() implies head[x]
            != tail[y] by {
            assert(tail.contains(tail[y]));
            let m = choose|m: int|
                0 <= m < self.children(i).len() && self.under(
                    #[trigger] self.children(i)[m],
                    tail[y],
                );
            if self.ancestor(self.children(i)[m], tail[y]) {
                self.lemma_ancestor_before(self.children(i)[m], tail[y]);
            }
        }
        lemma_no_dup_in_concat(head, tail);
        assert forall|j: usize| self.subtree(i).contains(j) <==> self.has(j) && self.under(
            i,
            j,
        ) by {
            if self.subtree(i).contains(j) {
                let x = choose|x: int| 0 <= x < (head + tail).len() && (head + tail)[x] == j;
                if x >= 1 {
                    assert(tail.contains(j));
                    let m = choose|m: int|
                        0 <= m < self.children(i).len() && self.under(
                            #[trigger] self.children(i)[m],
                            j,
                        );
                    let c = self.children(i)[m];
                    self.lemma_links(j);
                    if j != c {
                        assert(self.ancestor(i, c)) by {
                            self.lemma_links(c);
                        }
                        self.lemma_ancestor_transitive(i, c, j);
                    }
                }
            }
            if self.has(j) && self.under(i, j) {
                if j == i {
                    assert((head + tail)[0] == j);
                } else {
                    self.lemma_descends_through_child(i, j);
                    assert(tail.contains(j));
                    let y = choose|y: int| 0 <= y < tail.len() && tail[y] == j;
                    assert((head + tail)[y + 1] == j);
                }
            }
        }
    }

    /// The pre-order of the subtrees under the children of node `i` from
    /// child `k` on holds those children and what lies under them, each node
    /// once.
    pub proof fn lemma_forest_holds(self, i: usize, k: int)
        requires
            self.wf(),
            self.has(i),
            0 <= k <= self.children(i).len(),
        ensures
            self.forest(i, k).no_duplicates(),
            forall|j: usize|
                #[trigger] self.forest(i, k).contains(j) <==> self.has(j) && self.under_child(
                    i,
                    k,
                    j,
                ),
        decreases self.nodes.len() - i, self.children(i).len() - k,
    {
        self.lemma_links(i);
        if k < self.children(i).len() {
            let c = self.children(i)[k];
            let first = self.subtree(c);
            let rest = self.forest(i, k + 1);
            self.lemma_subtree_holds(c);
            self.lemma_forest_holds(i, k + 1);
            assert forall|x: int, y: int| 0 <= x < first.len() && 0 <= y < rest.len() implies first[x]
                != rest[y] by {
                assert(first.contains(first[x]));
                assert(rest.contains(rest[y]));
                if first[x] == rest[y] {
                    let m = choose|m: int|
                        k + 1 <= m < self.children(i).len() && self.under(
                            #[trigger] self.children(i)[m],
                            rest[y],
                        );
                    self.lemma_siblings_apart(i, k, m, rest[y]);
                }
            }
            lemma_no_dup_in_concat(first, rest);
            assert forall|j: usize|
                self.forest(i, k).contains(j) <==> self.has(j) && self.under_child(i, k, j) by {
                if self.forest(i, k).contains(j) {
                    let x = choose|x: int| 0 <= x < (first + rest).len() && (first + rest)[x] == j;
                    if x < first.len() {
                        assert(first.contains(j));
                    } else {
                        assert(rest.contains(j));
                        let m = choose|m: int|
                            k + 1 <= m < self.children(i).len() && self.under(
                                #[trigger] self.children(i)[m],
                                j,
                            );
                    }
                }
                if self.has(j) && self.under_child(i, k, j) {
                    let m = choose|m: int|
                        k <= m < self.children(i).len() && self.under(
                            #[trigger] self.children(i)[m],
                            j,
                        );
                    if m == k {
                        assert(first.contains(j));
                        let x = choose|x: int| 0 <= x < first.len() && first[x] == j;
                        assert((first + rest)[x] == j);
                    } else {
                        assert(self.under_child(i, k + 1, j));
                        assert(rest.contains(j));
                        let y = choose|y: int| 0 <= y < rest.len() && rest[y] == j;
                        assert((first + rest)[first.len() + y] == j);
                    }
                }
            }
        } else {
            assert forall|j: usize| !self.under_child(i, k, j) by {}
        }
    }
}

/// The indices below `n`.
pub open spec fn below(n: nat) -> Set<usize> {
    Set::new(|j: usize| j < n)
}

/// There are `n` indices below `n`.
pub proof fn lemma_below_len(n: nat)
    requires
        n <= usize::MAX + 1,
    ensures
        below(n).finite(),
        below(n).len() == n,
    decreases n,
{
    broadcast use vstd::set::group_set_axioms;

    if n == 0 {
        assert(below(n) =~= Set::<usize>::empty());
    } else {
        lemma_below_len((n - 1) as nat);
        assert(below(n) =~= below((n - 1) as nat).insert((n - 1) as usize));
    }
}

/// The walk visits every node exactly once: the pre-order of a well-formed
/// tree holds each node of the tree once and nothing else, so it is as long
/// as the tree has nodes.
pub proof fn law_every_node_once(t: TreeModel)
    requires
        t.wf(),
    ensures
        t.preorder().no_duplicates(),
        forall|j: usize| t.preorder().contains(j) <==> t.has(j),
        t.preorder().len() == t.nodes.len(),
{
    let p = t.preorder();
    if t.nodes.len() > 0 {
        t.lemma_subtree_holds(0);
        assert forall|j: usize| p.contains(j) <==> t.has(j) by {
            if t.has(j) {
                t.lemma_root_over_all(j);
            }
        }
        p.unique_seq_to_set();
        lemma_below_len(t.nodes.len());
        assert(p.to_set() =~= below(t.nodes.len()));
    }
}

} // verus!
