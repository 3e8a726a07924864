//! The syntax tree: an arena of nodes addressed by index.
//!
//! A parent is stored before its children, and parent links are indices, so
//! the structure can hold no cycle. A front-end fills a tree through
//! [`Tree::new`] and [`Tree::add_child`]; the engine only reads it.

use crate::text::text_eq;
use vstd::prelude::*;

verus! {

/// The closed set of node kinds that a front-end may produce.
#[derive(Clone, Copy, Debug, PartialEq, Eq, Structural)]
pub enum NodeKind {
    /// The root of a unit: one source text.
    Unit,
    /// A function item; the payload is its name.
    Function,
    /// A block of statements.
    Block,
    /// A binding; the payload is the bound name, `_` for a discarded value.
    Let,
    /// A call of a free function; the payload is the last segment of its path.
    Call,
    /// A method call; the payload is the method's name, the first child the receiver.
    MethodCall,
    /// A conditional that tests a value (`if`, `if let`, `match`); the payload
    /// names the tested value where it is a plain name.
    Conditional,
    /// Propagation of a failure to the caller.
    Propagate,
    /// Waiting for a scheduled unit of work or a future; the first child is awaited.
    Await,
    /// A spawn-like call; its children are the work it schedules.
    Spawn,
    /// A wrapper that bounds the time of what it contains or lets it be cancelled.
    Timeout,
    /// A wait or sleep; its first child is the duration.
    Wait,
    /// An explicit abort of the running computation.
    Panic,
    /// An unsafe block.
    Unsafe,
    /// A binary operation.
    BinaryOp,
    /// A literal; the payload is its text.
    Literal,
    /// A plain name; the payload is the name.
    Identifier,
    /// Anything else.
    Other,
}

/// What is lexically evident about the value of an expression.
#[derive(Clone, Copy, Debug, PartialEq, Eq, Structural)]
pub enum TypeTag {
    /// Nothing is evident.
    Unknown,
    /// A value that may be absent.
    OptionLike,
    /// A value that may be an error.
    ResultLike,
    /// An owned, growable sequence.
    Growable,
    /// An integer of the size of an address.
    AddressInt,
    /// A guard that holds a lock until it is dropped.
    Guard,
}

/// A half-open range of byte offsets in the source text.
#[derive(Clone, Copy, Debug, PartialEq, Eq, Structural)]
pub struct Span {
    pub start: usize,
    pub end: usize,
}

impl Span {
    /// The start does not lie behind the end.
    pub open spec fn valid(self) -> bool {
        self.start <= self.end
    }

    /// `self` lies inside `outer`.
    pub open spec fn within(self, outer: Span) -> bool {
        outer.start <= self.start && self.end <= outer.end
    }

    /// The span from `start` to `end`. Whether it is valid is decided where
    /// a node is added with it.
    pub fn new(start: usize, end: usize) -> (s: Span)
        ensures
            s.start == start,
            s.end == end,
    {
        Span { start, end }
    }

    /// Whether the start does not lie behind the end.
    pub fn is_valid(&self) -> (b: bool)
        ensures
            b == self.valid(),
    {
        self.start <= self.end
    }

    /// Whether `self` lies inside `outer`.
    pub fn is_within(&self, outer: &Span) -> (b: bool)
        ensures
            b == self.within(*outer),
    {
        outer.start <= self.start && self.end <= outer.end
    }
}

/// Why a node was not added to a tree.
#[derive(Clone, Copy, Debug, PartialEq, Eq, Structural)]
pub enum TreeError {
    /// The tree holds no node with the index given as parent.
    UnknownParent,
    /// The span starts behind its end.
    InvalidSpan,
    /// The span does not lie inside the parent's span.
    OutsideParent,
}

/// The mathematical model of a node.
pub struct NodeModel {
    pub kind: NodeKind,
    pub tag: TypeTag,
    pub span: Span,
    pub parent: Option<usize>,
    pub children: Seq<usize>,
    pub text: Option<Seq<char>>,
}

/// The mathematical model of a tree: its nodes in the order of their indices.
pub struct TreeModel {
    pub nodes: Seq<NodeModel>,
}

/// The characters of an optional text.
pub open spec fn text_view(text: Option<String>) -> Option<Seq<char>> {
    match text {
        Some(s) => Some(s@),
        None => None,
    }
}

impl TreeModel {
    /// The tree holds a node with index `i`.
    pub open spec fn has(self, i: usize) -> bool {
        i < self.nodes.len()
    }

    /// Node `i` is consistent with the rest of the tree: its span is valid and
    /// lies inside its parent's, its parent comes before it and lists it, and
    /// its children come after it, in rising order, and name it as parent.
    pub open spec fn node_wf(self, i: int) -> bool {
        let n = self.nodes[i];
        &&& n.span.valid()
        &&& (i == 0 ==> n.parent is None)
        &&& (i > 0 ==> {
            &&& n.parent matches Some(p)
            &&& p < i
            &&& n.span.within(self.nodes[p as int].span)
            &&& self.nodes[p as int].children.contains(i as usize)
        })
        &&& (forall|k: int|
            0 <= k < n.children.len() ==> {
                &&& i < #[trigger] n.children[k] < self.nodes.len()
                &&& self.nodes[n.children[k] as int].parent == Some(i as usize)
            })
        &&& (forall|k: int, l: int|
            0 <= k < l < n.children.len() ==> n.children[k] < n.children[l])
    }

    /// Every node is consistent, and node 0, if there is one, is the only root.
    pub open spec fn wf(self) -> bool {
        &&& self.nodes.len() <= usize::MAX
        &&& forall|i: int| 0 <= i < self.nodes.len() ==> #[trigger] self.node_wf(i)
    }

    /// `a` is a proper ancestor of `i`.
    pub open spec fn ancestor(self, a: usize, i: usize) -> bool
        decreases i,
    {
        match self.nodes[i as int].parent {
            Some(p) => p < i && (p == a || self.ancestor(a, p)),
            None => false,
        }
    }

    /// Why a node with span `span` cannot become a child of `parent`, if it cannot.
    pub open spec fn rejection(self, parent: usize, span: Span) -> Option<TreeError> {
        if !self.has(parent) {
            Some(TreeError::UnknownParent)
        } else if !span.valid() {
            Some(TreeError::InvalidSpan)
        } else if !span.within(self.nodes[parent as int].span) {
            Some(TreeError::OutsideParent)
        } else {
            None
        }
    }

    /// The tree with one more node, appended as the last child of `parent`.
    pub open spec fn with_child(
        self,
        parent: usize,
        kind: NodeKind,
        span: Span,
        tag: TypeTag,
        text: Option<Seq<char>>,
    ) -> TreeModel {
        let id = self.nodes.len() as usize;
        let p = self.nodes[parent as int];
        TreeModel {
            nodes: self.nodes.update(
                parent as int,
                NodeModel { children: p.children.push(id), ..p },
            ).push(NodeModel { kind, tag, span, parent: Some(parent), children: Seq::empty(), text }),
        }
    }

    /// The tree of one unit: a single root that spans `len` bytes.
    pub open spec fn unit(len: usize) -> TreeModel {
        TreeModel {
            nodes: seq![
                NodeModel {
                    kind: NodeKind::Unit,
                    tag: TypeTag::Unknown,
                    span: Span { start: 0, end: len },
                    parent: None,
                    children: Seq::empty(),
                    text: None,
                },
            ],
        }
    }

    /// Appending an accepted child keeps a tree well-formed.
    pub proof fn lemma_with_child_wf(
        self,
        parent: usize,
        kind: NodeKind,
        span: Span,
        tag: TypeTag,
        text: Option<Seq<char>>,
    )
        requires
            self.wf(),
            self.nodes.len() < usize::MAX,
            self.rejection(parent, span) is None,
        ensures
            self.with_child(parent, kind, span, tag, text).wf(),
    {
        let t = self.with_child(parent, kind, span, tag, text);
        let id = self.nodes.len() as usize;
        assert forall|i: int| 0 <= i < t.nodes.len() implies #[trigger] t.node_wf(i) by {
            if i < self.nodes.len() {
                assert(self.node_wf(i));
                let n = self.nodes[i];
                if i > 0 {
                    let p = n.parent->0;
                    let k = choose|k: int|
                        0 <= k < self.nodes[p as int].children.len()
                            && self.nodes[p as int].children[k] == i as usize;
                    assert(t.nodes[p as int].children[k] == i as usize);
                }
                if i == parent {
                    let c = t.nodes[i].children;
                    assert forall|k: int| 0 <= k < c.len() implies {
                        &&& i < #[trigger] c[k] < t.nodes.len()
                        &&& t.nodes[c[k] as int].parent == Some(i as usize)
                    } by {}
                    assert forall|k: int, l: int| 0 <= k < l < c.len() implies c[k] < c[l] by {}
                }
            } else {
                let c = t.nodes[parent as int].children;
                assert(c[c.len() - 1] == id);
            }
        }
    }
}

/// A node of a syntax tree.
pub struct SyntaxNode {
    kind: NodeKind,
    tag: TypeTag,
    span: Span,
    parent: Option<usize>,
    children: Vec<usize>,
    text: Option<String>,
}

impl View for SyntaxNode {
    type V = NodeModel;

    closed spec fn view(&self) -> NodeModel {
        NodeModel {
            kind: self.kind,
            tag: self.tag,
            span: self.span,
            parent: self.parent,
            children: self.children@,
            text: text_view(self.text),
        }
    }
}

impl SyntaxNode {
    /// The node's kind.
    pub fn kind(&self) -> (k: NodeKind)
        ensures
            k == self@.kind,
    {
        self.kind
    }

    /// What is evident about the node's value.
    pub fn tag(&self) -> (t: TypeTag)
        ensures
            t == self@.tag,
    {
        self.tag
    }

    /// The node's place in the source text.
    pub fn span(&self) -> (s: Span)
        ensures
            s == self@.span,
    {
        self.span
    }

    /// The index of the node's parent; `None` for the root.
    pub fn parent(&self) -> (p: Option<usize>)
        ensures
            p == self@.parent,
    {
        self.parent
    }

    /// The indices of the node's children, in their order.
    pub fn children(&self) -> (c: &Vec<usize>)
        ensures
            c@ == self@.children,
    {
        &self.children
    }

    /// The node's textual payload, if it has one.
    pub fn text(&self) -> (t: Option<&String>)
        ensures
            match t {
                Some(s) => self@.text == Some(s@),
                None => self@.text is None,
            },
    {
        match &self.text {
            Some(s) => Some(s),
            None => None,
        }
    }

    /// Whether the node's textual payload is exactly `text`.
    pub fn text_is(&self, text: &str) -> (b: bool)
        ensures
            b == (self@.text == Some(text@)),
    {
        match &self.text {
            Some(s) => text_eq(s.as_str(), text),
            None => false,
        }
    }
}

/// A syntax tree. Node 0 is the root.
pub struct Tree {
    nodes: Vec<SyntaxNode>,
}

impl View for Tree {
    type V = TreeModel;

    closed spec fn view(&self) -> TreeModel {
        model_of(self.nodes@)
    }
}

/// The model of a sequence of nodes.
spec fn model_of(nodes: Seq<SyntaxNode>) -> TreeModel {
    TreeModel { nodes: Seq::new(nodes.len(), |i: int| nodes[i]@) }
}

impl Tree {
    /// Every tree is well-formed.
    #[verifier::type_invariant]
    pub open spec fn inv(&self) -> bool {
        self@.wf()
    }

    /// The tree of a unit of `len` bytes: a root of kind `Unit` and nothing else.
    pub fn new(len: usize) -> (t: Tree)
        ensures
            t@ == TreeModel::unit(len),
            t@.wf(),
    {
        let root = SyntaxNode {
            kind: NodeKind::Unit,
            tag: TypeTag::Unknown,
            span: Span { start: 0, end: len },
            parent: None,
            children: Vec::new(),
            text: None,
        };
        let mut nodes: Vec<SyntaxNode> = Vec::new();
        nodes.push(root);
        let t = Tree { nodes };
        assert(t@.nodes =~= TreeModel::unit(len).nodes);
        t
    }

    /// The number of nodes.
    pub fn len(&self) -> (n: usize)
        ensures
            n == self@.nodes.len(),
    {
        self.nodes.len()
    }

    /// Node `i`.
    pub(crate) fn node(&self, i: usize) -> (n: &SyntaxNode)
        requires
            self@.has(i),
        ensures
            n@ == self@.nodes[i as int],
    {
        &self.nodes[i]
    }

    /// Node `i`, if the tree has one.
    pub fn get(&self, i: usize) -> (n: Option<&SyntaxNode>)
        ensures
            match n {
                Some(node) => self@.has(i) && node@ == self@.nodes[i as int],
                None => !self@.has(i),
            },
    {
        if i < self.nodes.len() {
            Some(&self.nodes[i])
        } else {
            None
        }
    }

    /// Appends a node as the last child of `parent` and returns its index.
    ///
    /// The node is refused, and the tree left as it was, where `parent` is no
    /// node of the tree, where the span is not valid, and where the span does
    /// not lie inside the parent's span.
    pub fn add_child(
        &mut self,
        parent: usize,
        kind: NodeKind,
        span: Span,
        tag: TypeTag,
        text: Option<String>,
    ) -> (r: Result<usize, TreeError>)
        ensures
            final(self)@.wf(),
            match r {
                Ok(id) => {
                    &&& old(self)@.rejection(parent, span) is None
                    &&& id == old(self)@.nodes.len()
                    &&& final(self)@ == old(self)@.with_child(
                        parent,
                        kind,
                        span,
                        tag,
                        text_view(text),
                    )
                },
                Err(e) => {
                    &&& old(self)@.rejection(parent, span) == Some(e)
                    &&& final(self)@ == old(self)@
                },
            },
    {
        proof {
            use_type_invariant(&*self);
        }
        let n = self.nodes.len();
        if parent >= n {
            return Err(TreeError::UnknownParent);
        }
        if !span.is_valid() {
            return Err(TreeError::InvalidSpan);
        }
        let outer = self.nodes[parent].span;
        if !span.is_within(&outer) {
            return Err(TreeError::OutsideParent);
        }
        let ghost before = self@;
        let mut nodes: Vec<SyntaxNode> = Vec::new();
        std::mem::swap(&mut self.nodes, &mut nodes);
        nodes[parent].children.push(n);
        nodes.push(
            SyntaxNode { kind, tag, span, parent: Some(parent), children: Vec::new(), text },
        );
        let grown = nodes.len();
        proof {
            assert(grown == n + 1);
            let after = before.with_child(parent, kind, span, tag, text_view(text));
            assert(model_of(nodes@).nodes =~= after.nodes);
            before.lemma_with_child_wf(parent, kind, span, tag, text_view(text));
        }
        self.nodes = nodes;
        Ok(n)
    }
}

} // verus!
