//! The detectors of the catalog.
//!
//! Each detector is defined by a predicate on the model of the tree, and
//! computed by a function that is proved to decide that predicate. A detector
//! reads a node, its ancestors and the text of the nodes around it; it looks
//! for a local configuration, follows no data, and stays silent where the
//! configuration is in doubt.

use crate::context::enclosing;
use crate::context::first_child;
use crate::context::has_ancestor_of_kind;
use crate::context::is_named;
use crate::context::leads_with;
use crate::context::same_text;
use crate::rule::Detector;
use crate::rule::Outcome;
use crate::tree::NodeKind;
use crate::tree::Tree;
use crate::tree::TreeModel;
use crate::tree::TypeTag;
use vstd::prelude::*;

verus! {

/// The characters of an optional text.
pub open spec fn chars_of(name: Option<&String>) -> Option<Seq<char>> {
    match name {
        Some(s) => Some(s@),
        None => None,
    }
}

impl TreeModel {
    /// The conditional at node `a` tests the value called `name`, or may do
    /// so: a conditional or a value without a name is taken to test it.
    pub open spec fn may_test(self, a: usize, name: Option<Seq<char>>) -> bool {
        self.kind(a) == NodeKind::Conditional && (self.text(a) is None || name is None
            || self.text(a) == name)
    }

    /// Node `i` lies under a propagation, or under a conditional that may
    /// test the value called `name`.
    pub open spec fn shielded(self, i: usize, name: Option<Seq<char>>) -> bool
        decreases i,
    {
        match self.parent(i) {
            Some(p) => p < i && (self.kind(p) == NodeKind::Propagate || self.may_test(p, name)
                || self.shielded(p, name)),
            None => false,
        }
    }

    /// The name of the receiver of node `i`, where the receiver is a plain name.
    pub open spec fn receiver_name(self, i: usize) -> Option<Seq<char>> {
        match self.first_child(i) {
            Some(r) => if self.kind(r) == NodeKind::Identifier {
                self.text(r)
            } else {
                None
            },
            None => None,
        }
    }

    /// Node `i` is a call of the method `unwrap`.
    pub open spec fn is_unwrap(self, i: usize) -> bool {
        self.is_named(i, NodeKind::MethodCall, "unwrap"@)
    }

    /// Node `i` takes the value out of an optional or fallible receiver with
    /// `unwrap`, under no propagation and under no conditional that may test
    /// the receiver.
    pub open spec fn extraction(self, i: usize) -> bool {
        &&& self.is_unwrap(i)
        &&& self.first_child(i) matches Some(r)
        &&& (self.tag(r) == TypeTag::OptionLike || self.tag(r) == TypeTag::ResultLike)
        &&& !self.shielded(i, self.receiver_name(i))
    }

    /// Node `s` binds a lock guard.
    pub open spec fn acquires(self, s: usize) -> bool {
        self.kind(s) == NodeKind::Let && self.tag(s) == TypeTag::Guard
    }

    /// Node `r` drops the guard that node `s` binds.
    pub open spec fn releases(self, r: usize, s: usize) -> bool {
        &&& self.is_named(r, NodeKind::Call, "drop"@)
        &&& self.first_child(r) matches Some(a)
        &&& self.kind(a) == NodeKind::Identifier
        &&& self.text(a) is Some
        &&& self.text(a) == self.text(s)
    }

    /// A child of `p` between `s` and `c` drops the guard that `s` binds.
    pub open spec fn released_between(self, p: usize, s: usize, c: usize) -> bool {
        exists|k: int|
            0 <= k < self.children(p).len() && s < #[trigger] self.children(p)[k] < c
                && self.releases(self.children(p)[k], s)
    }

    /// Node `s` comes before `c`, binds a guard, and no child of `p` between
    /// the two drops it.
    pub open spec fn holds_from(self, p: usize, s: usize, c: usize) -> bool {
        s < c && self.acquires(s) && !self.released_between(p, s, c)
    }

    /// A child of `p` in front of `c` binds a guard that is still held at `c`.
    pub open spec fn held_in(self, p: usize, c: usize) -> bool {
        exists|j: int|
            0 <= j < self.children(p).len() && self.holds_from(p, #[trigger] self.children(p)[j], c)
    }

    /// Node `p` starts a task of its own: what is held outside it is not held
    /// by the work inside.
    pub open spec fn task_boundary(self, p: usize) -> bool {
        self.kind(p) == NodeKind::Function || self.kind(p) == NodeKind::Spawn
    }

    /// A guard bound earlier in an enclosing scope of the same task is still
    /// held where node `i` runs.
    pub open spec fn lock_held_at(self, i: usize) -> bool
        decreases i,
    {
        match self.parent(i) {
            Some(p) => p < i && (self.held_in(p, i) || (!self.task_boundary(p)
                && self.lock_held_at(p))),
            None => false,
        }
    }
}

/// Whether the conditional at node `a` tests the value called `name`, or may do so.
fn may_test(tree: &Tree, a: usize, name: Option<&String>) -> (b: bool)
    requires
        tree@.has(a),
    ensures
        b == tree@.may_test(a, chars_of(name)),
{
    let node = tree.node(a);
    if node.kind() != NodeKind::Conditional {
        return false;
    }
    let tested = node.text();
    tested.is_none() || name.is_none() || same_text(tested, name)
}

/// Whether node `i` lies under a propagation, or under a conditional that may
/// test the value called `name`.
fn shielded(tree: &Tree, i: usize, name: Option<&String>) -> (b: bool)
    requires
        tree@.has(i),
    ensures
        b == tree@.shielded(i, chars_of(name)),
{
    proof {
        use_type_invariant(tree);
    }
    let mut cur = i;
    loop
        invariant
            tree@.wf(),
            tree@.has(cur),
            tree@.shielded(i, chars_of(name)) == tree@.shielded(cur, chars_of(name)),
        decreases cur,
    {
        proof {
            tree@.lemma_links(cur);
        }
        match tree.node(cur).parent() {
            None => {
                return false;
            },
            Some(p) => {
                if tree.node(p).kind() == NodeKind::Propagate || may_test(tree, p, name) {
                    return true;
                }
                cur = p;
            },
        }
    }
}

/// Whether node `i` takes a value out with `unwrap` and nothing shields it.
pub(crate) fn extraction(tree: &Tree, i: usize) -> (b: bool)
    requires
        tree@.has(i),
    ensures
        b == tree@.extraction(i),
{
    if !is_named(tree, i, NodeKind::MethodCall, "unwrap") {
        return false;
    }
    match first_child(tree, i) {
        None => false,
        Some(r) => {
            let receiver = tree.node(r);
            let tag = receiver.tag();
            if tag != TypeTag::OptionLike && tag != TypeTag::ResultLike {
                return false;
            }
            let name = if receiver.kind() == NodeKind::Identifier {
                receiver.text()
            } else {
                None
            };
            !shielded(tree, i, name)
        },
    }
}

/// Whether node `r` drops the guard that node `s` binds.
fn releases(tree: &Tree, r: usize, s: usize) -> (b: bool)
    requires
        tree@.has(r),
        tree@.has(s),
    ensures
        b == tree@.releases(r, s),
{
    if !is_named(tree, r, NodeKind::Call, "drop") {
        return false;
    }
    match first_child(tree, r) {
        None => false,
        Some(a) => {
            let arg = tree.node(a);
            arg.kind() == NodeKind::Identifier && arg.text().is_some() && same_text(
                arg.text(),
                tree.node(s).text(),
            )
        },
    }
}

/// Whether a child of `p` between `s` and `c` drops the guard that `s` binds.
fn released_between(tree: &Tree, p: usize, s: usize, c: usize) -> (b: bool)
    requires
        tree@.has(p),
        tree@.has(s),
    ensures
        b == tree@.released_between(p, s, c),
{
    proof {
        use_type_invariant(tree);
        tree@.lemma_links(p);
    }
    let children = tree.node(p).children();
    let mut k: usize = 0;
    while k < children.len()
        invariant
            tree@.wf(),
            tree@.has(p),
            tree@.has(s),
            children@ == tree@.children(p),
            k <= children@.len(),
            forall|j: int|
                0 <= j < k ==> !(s < #[trigger] children@[j] < c && tree@.releases(
                    children@[j],
                    s,
                )),
        decreases children@.len() - k,
    {
        let r = children[k];
        proof {
            tree@.lemma_links(p);
        }
        if s < r && r < c && releases(tree, r, s) {
            return true;
        }
        k += 1;
    }
    false
}

/// Whether a child of `p` in front of `c` binds a guard that is still held at `c`.
fn held_in(tree: &Tree, p: usize, c: usize) -> (b: bool)
    requires
        tree@.has(p),
    ensures
        b == tree@.held_in(p, c),
{
    proof {
        use_type_invariant(tree);
        tree@.lemma_links(p);
    }
    let children = tree.node(p).children();
    let mut j: usize = 0;
    while j < children.len()
        invariant
            tree@.wf(),
            tree@.has(p),
            children@ == tree@.children(p),
            j <= children@.len(),
            forall|k: int| 0 <= k < j ==> !tree@.holds_from(p, #[trigger] children@[k], c),
        decreases children@.len() - j,
    {
        let s = children[j];
        proof {
            tree@.lemma_links(p);
        }
        let node = tree.node(s);
        if s < c && node.kind() == NodeKind::Let && node.tag() == TypeTag::Guard
            && !released_between(tree, p, s, c) {
            return true;
        }
        j += 1;
    }
    false
}

/// Whether a guard bound earlier in an enclosing scope of the same task is
/// still held where node `i` runs.
pub(crate) fn lock_held_at(tree: &Tree, i: usize) -> (b: bool)
    requires
        tree@.has(i),
    ensures
        b == tree@.lock_held_at(i),
{
    proof {
        use_type_invariant(tree);
    }
    let mut cur = i;
    loop
        invariant
            tree@.wf(),
            tree@.has(cur),
            tree@.lock_held_at(i) == tree@.lock_held_at(cur),
        decreases cur,
    {
        proof {
            tree@.lemma_links(cur);
        }
        match tree.node(cur).parent() {
            None => {
                return false;
            },
            Some(p) => {
                if held_in(tree, p, cur) {
                    return true;
                }
                let kind = tree.node(p).kind();
                if kind == NodeKind::Function || kind == NodeKind::Spawn {
                    return false;
                }
                cur = p;
            },
        }
    }
}

impl TreeModel {
    /// Node `i` is a call of `transmute` that turns an owned, growable value
    /// into an integer of the size of an address.
    pub open spec fn reinterprets(self, i: usize) -> bool {
        &&& self.is_named(i, NodeKind::Call, "transmute"@)
        &&& self.first_child(i) matches Some(a)
        &&& self.tag(a) == TypeTag::Growable
        &&& self.tag(i) == TypeTag::AddressInt
    }

    /// Node `a` waits for something: it awaits, or it calls the method `join`.
    pub open spec fn is_join(self, a: usize) -> bool {
        self.kind(a) == NodeKind::Await || self.is_named(a, NodeKind::MethodCall, "join"@)
    }

    /// Node `a` waits for the handle that the binding `l` names, and stands
    /// behind that binding in the source text.
    pub open spec fn joins(self, a: usize, l: usize) -> bool {
        &&& self.is_join(a)
        &&& self.first_child(a) matches Some(h)
        &&& self.kind(h) == NodeKind::Identifier
        &&& self.text(h) == self.text(l)
        &&& self.nodes[a as int].span.start >= self.nodes[l as int].span.end
    }

    /// Some node of the tree waits for the handle that the binding `l` names.
    pub open spec fn joined(self, l: usize) -> bool {
        exists|a: usize| self.has(a) && #[trigger] self.joins(a, l)
    }

    /// The binding `l` gives its value no name.
    pub open spec fn discards(self, l: usize) -> bool {
        self.text(l) is None || self.text(l) == Some("_"@)
    }

    /// The handle of the spawn at node `i` is dropped: the spawn is a
    /// statement of a block, or it is bound and the binding has no name or
    /// nothing waits for it. A handle that goes anywhere else is in doubt.
    pub open spec fn forgotten(self, i: usize) -> bool {
        match self.parent(i) {
            Some(p) => if self.kind(p) == NodeKind::Block {
                true
            } else if self.kind(p) == NodeKind::Let && self.leads_with(p, i) {
                self.discards(p) || !self.joined(p)
            } else {
                false
            },
            None => false,
        }
    }

    /// Node `i` discards the error of a fallible value: it binds the value to
    /// no name, or takes it out with an unshielded `unwrap`.
    pub open spec fn drops_error(self, i: usize) -> bool {
        &&& self.first_child(i) matches Some(v)
        &&& self.tag(v) == TypeTag::ResultLike
        &&& (self.is_named(i, NodeKind::Let, "_"@) || self.extraction(i))
    }

    /// Node `i` discards an error inside scheduled work.
    pub open spec fn silent_error(self, i: usize) -> bool {
        self.has_ancestor_kind(i, NodeKind::Spawn) && self.drops_error(i)
    }

    /// The literal that fixes the duration at node `d`: the node itself, or
    /// the first argument of the call that builds the duration.
    pub open spec fn fixed_literal(self, d: usize) -> Option<usize> {
        if self.kind(d) == NodeKind::Literal {
            Some(d)
        } else if self.kind(d) == NodeKind::Call {
            match self.first_child(d) {
                Some(a) => if self.kind(a) == NodeKind::Literal {
                    Some(a)
                } else {
                    None
                },
                None => None,
            }
        } else {
            None
        }
    }

    /// The wait at node `w` lasts a fixed time that is not zero.
    pub open spec fn fixed_wait(self, w: usize) -> bool {
        &&& self.first_child(w) matches Some(d)
        &&& self.fixed_literal(d) matches Some(l)
        &&& self.text(l) is Some
        &&& self.text(l) != Some("0"@)
    }

    /// The value of node `c` is taken out with `unwrap`, at once or after it
    /// was awaited.
    pub open spec fn unwrapped(self, c: usize) -> bool {
        match self.parent(c) {
            Some(p) => self.leads_with(p, c) && (self.is_unwrap(p) || (self.kind(p)
                == NodeKind::Await && (match self.parent(p) {
                Some(q) => self.is_unwrap(q) && self.leads_with(q, p),
                None => false,
            }))),
            None => false,
        }
    }

    /// Node `c` calls the function `name` inside scheduled work, under no
    /// timeout, and its value is taken out with `unwrap`.
    pub open spec fn unchecked_task_call(self, c: usize, name: Seq<char>) -> bool {
        &&& self.is_named(c, NodeKind::Call, name)
        &&& self.has_ancestor_kind(c, NodeKind::Spawn)
        &&& !self.has_ancestor_kind(c, NodeKind::Timeout)
        &&& self.unwrapped(c)
    }

    /// Some node of the tree calls the function `name` inside scheduled work
    /// and takes its value out unchecked.
    pub open spec fn called_unchecked(self, name: Seq<char>) -> bool {
        exists|c: usize| self.has(c) && #[trigger] self.unchecked_task_call(c, name)
    }

    /// The wait at node `w` lasts a fixed time, stands under no timeout in a
    /// function with a name, and scheduled work calls that function and takes
    /// its value out unchecked.
    pub open spec fn unbounded_wait(self, w: usize) -> bool {
        &&& self.fixed_wait(w)
        &&& !self.has_ancestor_kind(w, NodeKind::Timeout)
        &&& self.enclosing(w, NodeKind::Function) matches Some(f)
        &&& self.text(f) matches Some(name)
        &&& self.called_unchecked(name)
    }
}

/// Whether node `i` reinterprets an owned, growable value as an address-sized integer.
fn reinterprets(tree: &Tree, i: usize) -> (b: bool)
    requires
        tree@.has(i),
    ensures
        b == tree@.reinterprets(i),
{
    if !is_named(tree, i, NodeKind::Call, "transmute") {
        return false;
    }
    match first_child(tree, i) {
        None => false,
        Some(a) => tree.node(a).tag() == TypeTag::Growable && tree.node(i).tag()
            == TypeTag::AddressInt,
    }
}

/// Whether node `a` waits for the handle that the binding `l` names.
fn joins(tree: &Tree, a: usize, l: usize) -> (b: bool)
    requires
        tree@.has(a),
        tree@.has(l),
    ensures
        b == tree@.joins(a, l),
{
    let node = tree.node(a);
    if !(node.kind() == NodeKind::Await || is_named(tree, a, NodeKind::MethodCall, "join")) {
        return false;
    }
    match first_child(tree, a) {
        None => false,
        Some(h) => {
            let handle = tree.node(h);
            let binding = tree.node(l);
            handle.kind() == NodeKind::Identifier && same_text(handle.text(), binding.text())
                && node.span().start >= binding.span().end
        },
    }
}

/// Whether some node of the tree waits for the handle that the binding `l` names.
fn joined(tree: &Tree, l: usize) -> (b: bool)
    requires
        tree@.has(l),
    ensures
        b == tree@.joined(l),
{
    let n = tree.len();
    let mut a: usize = 0;
    while a < n
        invariant
            n == tree@.nodes.len(),
            tree@.has(l),
            a <= n,
            forall|x: usize| x < a ==> !#[trigger] tree@.joins(x, l),
        decreases n - a,
    {
        if joins(tree, a, l) {
            return true;
        }
        a += 1;
    }
    false
}

/// Whether the handle of the spawn at node `i` is dropped.
fn forgotten(tree: &Tree, i: usize) -> (b: bool)
    requires
        tree@.has(i),
    ensures
        b == tree@.forgotten(i),
{
    proof {
        use_type_invariant(tree);
        tree@.lemma_links(i);
    }
    match tree.node(i).parent() {
        None => false,
        Some(p) => {
            let binding = tree.node(p);
            if binding.kind() == NodeKind::Block {
                true
            } else if binding.kind() == NodeKind::Let && leads_with(tree, p, i) {
                binding.text().is_none() || binding.text_is("_") || !joined(tree, p)
            } else {
                false
            }
        },
    }
}

/// Whether node `i` discards an error inside scheduled work.
fn silent_error(tree: &Tree, i: usize) -> (b: bool)
    requires
        tree@.has(i),
    ensures
        b == tree@.silent_error(i),
{
    match first_child(tree, i) {
        None => false,
        Some(v) => {
            if tree.node(v).tag() != TypeTag::ResultLike {
                return false;
            }
            if !(is_named(tree, i, NodeKind::Let, "_") || extraction(tree, i)) {
                return false;
            }
            has_ancestor_of_kind(tree, i, NodeKind::Spawn)
        },
    }
}

/// The literal that fixes the duration at node `d`, if one does.
fn fixed_literal(tree: &Tree, d: usize) -> (l: Option<usize>)
    requires
        tree@.has(d),
    ensures
        l == tree@.fixed_literal(d),
        l matches Some(x) ==> tree@.has(x),
{
    let kind = tree.node(d).kind();
    if kind == NodeKind::Literal {
        Some(d)
    } else if kind == NodeKind::Call {
        match first_child(tree, d) {
            Some(a) => if tree.node(a).kind() == NodeKind::Literal {
                Some(a)
            } else {
                None
            },
            None => None,
        }
    } else {
        None
    }
}

/// Whether the wait at node `w` lasts a fixed time that is not zero.
fn fixed_wait(tree: &Tree, w: usize) -> (b: bool)
    requires
        tree@.has(w),
    ensures
        b == tree@.fixed_wait(w),
{
    match first_child(tree, w) {
        None => false,
        Some(d) => match fixed_literal(tree, d) {
            None => false,
            Some(l) => {
                let literal = tree.node(l);
                literal.text().is_some() && !literal.text_is("0")
            },
        },
    }
}

/// Whether the value of node `c` is taken out with `unwrap`, at once or after
/// it was awaited.
fn unwrapped(tree: &Tree, c: usize) -> (b: bool)
    requires
        tree@.has(c),
    ensures
        b == tree@.unwrapped(c),
{
    proof {
        use_type_invariant(tree);
        tree@.lemma_links(c);
    }
    match tree.node(c).parent() {
        None => false,
        Some(p) => {
            if !leads_with(tree, p, c) {
                return false;
            }
            if is_named(tree, p, NodeKind::MethodCall, "unwrap") {
                return true;
            }
            if tree.node(p).kind() != NodeKind::Await {
                return false;
            }
            proof {
                tree@.lemma_links(p);
            }
            match tree.node(p).parent() {
                None => false,
                Some(q) => is_named(tree, q, NodeKind::MethodCall, "unwrap") && leads_with(
                    tree,
                    q,
                    p,
                ),
            }
        },
    }
}

/// Whether node `c` calls the function `name` inside scheduled work and its
/// value is taken out unchecked.
fn unchecked_task_call(tree: &Tree, c: usize, name: &String) -> (b: bool)
    requires
        tree@.has(c),
    ensures
        b == tree@.unchecked_task_call(c, name@),
{
    is_named(tree, c, NodeKind::Call, name.as_str()) && unwrapped(tree, c) && has_ancestor_of_kind(
        tree,
        c,
        NodeKind::Spawn,
    ) && !has_ancestor_of_kind(tree, c, NodeKind::Timeout)
}

/// Whether some node of the tree calls the function `name` inside scheduled
/// work and takes its value out unchecked.
fn called_unchecked(tree: &Tree, name: &String) -> (b: bool)
    ensures
        b == tree@.called_unchecked(name@),
{
    let n = tree.len();
    let mut c: usize = 0;
    while c < n
        invariant
            n == tree@.nodes.len(),
            c <= n,
            forall|x: usize| x < c ==> !#[trigger] tree@.unchecked_task_call(x, name@),
        decreases n - c,
    {
        if unchecked_task_call(tree, c, name) {
            return true;
        }
        c += 1;
    }
    false
}

/// Whether the wait at node `w` is a fixed wait of scheduled work whose result
/// is taken out unchecked.
fn unbounded_wait(tree: &Tree, w: usize) -> (b: bool)
    requires
        tree@.has(w),
    ensures
        b == tree@.unbounded_wait(w),
{
    if !fixed_wait(tree, w) || has_ancestor_of_kind(tree, w, NodeKind::Timeout) {
        return false;
    }
    match enclosing(tree, w, NodeKind::Function) {
        None => false,
        Some(f) => match tree.node(f).text() {
            None => false,
            Some(name) => called_unchecked(tree, name),
        },
    }
}

/// Whether a detector reads nodes of kind `kind`. At a node of any other kind
/// it is silent.
pub open spec fn inspects(d: Detector, kind: NodeKind) -> bool {
    match d {
        Detector::UnwrapPanic => kind == NodeKind::MethodCall,
        Detector::LockPoisonOnPanic => kind == NodeKind::Panic || kind == NodeKind::MethodCall,
        Detector::UnsafeReinterpret => kind == NodeKind::Call,
        Detector::FireAndForgetSpawn => kind == NodeKind::Spawn,
        Detector::SilentBackgroundError => kind == NodeKind::Let || kind == NodeKind::MethodCall,
        Detector::UnboundedBlockingWait => kind == NodeKind::Wait,
    }
}

/// A node of kind `kind` must have a child for the detector to read it: a
/// receiver, an argument, a body or a duration.
pub open spec fn needs_child(d: Detector, kind: NodeKind) -> bool {
    match d {
        Detector::UnwrapPanic => true,
        Detector::LockPoisonOnPanic => kind == NodeKind::MethodCall,
        Detector::UnsafeReinterpret => false,
        Detector::FireAndForgetSpawn => true,
        Detector::SilentBackgroundError => kind == NodeKind::MethodCall,
        Detector::UnboundedBlockingWait => true,
    }
}

/// Whether node `i` shows the defect that the detector looks for.
pub open spec fn shows(d: Detector, t: TreeModel, i: usize) -> bool {
    match d {
        Detector::UnwrapPanic => t.extraction(i),
        Detector::LockPoisonOnPanic => (t.kind(i) == NodeKind::Panic || t.extraction(i))
            && t.lock_held_at(i),
        Detector::UnsafeReinterpret => t.reinterprets(i),
        Detector::FireAndForgetSpawn => t.forgotten(i),
        Detector::SilentBackgroundError => t.silent_error(i),
        Detector::UnboundedBlockingWait => t.unbounded_wait(i),
    }
}

/// What a detector says of node `i`: a fault where the tree has no such node
/// or the node lacks the child that the detector reads; silence at a kind
/// that the detector does not read; otherwise a match exactly where the node
/// shows the defect.
pub open spec fn outcome(d: Detector, t: TreeModel, i: usize) -> Outcome {
    if !t.has(i) {
        Outcome::Fault
    } else if !inspects(d, t.kind(i)) {
        Outcome::Silent
    } else if needs_child(d, t.kind(i)) && t.children(i).len() == 0 {
        Outcome::Fault
    } else if shows(d, t, i) {
        Outcome::Match
    } else {
        Outcome::Silent
    }
}

impl Detector {
    /// Whether the detector reads nodes of kind `kind`.
    pub fn inspects(&self, kind: NodeKind) -> (b: bool)
        ensures
            b == inspects(*self, kind),
    {
        match self {
            Detector::UnwrapPanic => kind == NodeKind::MethodCall,
            Detector::LockPoisonOnPanic => kind == NodeKind::Panic || kind
                == NodeKind::MethodCall,
            Detector::UnsafeReinterpret => kind == NodeKind::Call,
            Detector::FireAndForgetSpawn => kind == NodeKind::Spawn,
            Detector::SilentBackgroundError => kind == NodeKind::Let || kind
                == NodeKind::MethodCall,
            Detector::UnboundedBlockingWait => kind == NodeKind::Wait,
        }
    }

    /// Evaluates the detector at node `i` of `tree`.
    pub fn evaluate(&self, tree: &Tree, i: usize) -> (o: Outcome)
        ensures
            o == outcome(*self, tree@, i),
    {
        if i >= tree.len() {
            return Outcome::Fault;
        }
        let kind = tree.node(i).kind();
        if !self.inspects(kind) {
            return Outcome::Silent;
        }
        let childless = tree.node(i).children().len() == 0;
        let found = match self {
            Detector::UnwrapPanic => {
                if childless {
                    return Outcome::Fault;
                }
                extraction(tree, i)
            },
            Detector::LockPoisonOnPanic => {
                if kind == NodeKind::MethodCall && childless {
                    return Outcome::Fault;
                }
                (kind == NodeKind::Panic || extraction(tree, i)) && lock_held_at(tree, i)
            },
            Detector::UnsafeReinterpret => reinterprets(tree, i),
            Detector::FireAndForgetSpawn => {
                if childless {
                    return Outcome::Fault;
                }
                forgotten(tree, i)
            },
            Detector::SilentBackgroundError => {
                if kind == NodeKind::MethodCall && childless {
                    return Outcome::Fault;
                }
                silent_error(tree, i)
            },
            Detector::UnboundedBlockingWait => {
                if childless {
                    return Outcome::Fault;
                }
                unbounded_wait(tree, i)
            },
        };
        if found {
            Outcome::Match
        } else {
            Outcome::Silent
        }
    }
}

} // verus!
