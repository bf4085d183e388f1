use vstd::prelude::*;
use std::ops::Range;
use crate::source::SourceSpan;

verus! {

/// A managing structure for the whole AST, contains the allocation
/// arena for the nodes.
pub struct Ast {
    arena: Vec<AstNode>,
    root: Option<NodeRef>,
}

impl Ast {
    pub closed spec fn nodes(&self) -> Seq<AstNode> {
        self.arena@
    }

    pub closed spec fn spec_root(&self) -> Option<NodeRef> {
        self.root
    }

    /// Index zero holds the invalid node, and every node knows its own index.
    pub open spec fn wf(&self) -> bool {
        &&& self.nodes().len() >= 1
        &&& self.nodes()[0].spec_kind() is Invalid
        &&& forall|i: int|
            0 <= i < self.nodes().len() ==> (#[trigger] self.nodes()[i]).spec_index().spec_pos()
                == i
    }

    pub fn empty() -> (a: Self)
        ensures
            a.wf(),
            a.nodes().len() == 1,
            a.nodes()[0] == AstNode::spec_new(AstKind::Invalid, 0, 0, NodeRef::spec_new(0)),
            a.spec_root() is None,
    {
        let mut arena: Vec<AstNode> = Vec::new();
        // reserve index zero for the invalid/uninitialized node
        arena.push(AstNode { kind: AstKind::Invalid, span: Range { start: 0, end: 0 }, index: uninit_node_ref() });
        Self { arena, root: None }
    }

    pub fn resolved_root(&mut self, root: NodeRef) -> (r: NodeRef)
        ensures
            r == root,
            final(self).spec_root() == Some(root),
            final(self).nodes() == old(self).nodes(),
    {
        self.root = Some(root);
        root
    }

    pub fn get(&self, ptr: NodeRef) -> (n: &AstNode)
        requires
            ptr.spec_pos() < self.nodes().len(),
        ensures
            *n == self.nodes()[ptr.spec_pos() as int],
    {
        &self.arena[ptr.0]
    }

    pub fn get_mut(&mut self, ptr: NodeRef) -> (n: &mut AstNode)
        requires
            ptr.spec_pos() < old(self).nodes().len(),
        ensures
            *n == old(self).nodes()[ptr.spec_pos() as int],
            final(self).nodes() == old(self).nodes().update(ptr.spec_pos() as int, *final(n)),
            final(self).spec_root() == old(self).spec_root(),
    {
        &mut self.arena[ptr.0]
    }

    pub fn insert(&mut self, node: AstNode) -> (r: NodeRef)
        requires
            old(self).wf(),
        ensures
            final(self).wf(),
            r.spec_pos() == old(self).nodes().len(),
            final(self).nodes() == old(self).nodes().push(
                AstNode::spec_new(node.spec_kind(), node.spec_span().start, node.spec_span().end, r),
            ),
            final(self).spec_root() == old(self).spec_root(),
    {
        let mut node = node;
        let index = self.arena.len();
        node.index = NodeRef(index);
        self.arena.push(node);
        NodeRef(index)
    }

    pub fn make(&mut self, kind: AstKind, span: SourceSpan) -> (r: NodeRef)
        requires
            old(self).wf(),
        ensures
            final(self).wf(),
            r.spec_pos() == old(self).nodes().len(),
            final(self).nodes() == old(self).nodes().push(
                AstNode::spec_new(kind, span.start, span.end, r),
            ),
            final(self).spec_root() == old(self).spec_root(),
    {
        let index = self.arena.len();
        self.arena.push(AstNode { kind, span, index: NodeRef(index) });
        NodeRef(index)
    }
}

/// A node made in a well-formed tree reads back with the kind and span it
/// was made with and knows its own reference; that reference is valid (never
/// the reserved index zero); the nodes made before it are unchanged, and the
/// tree stays well-formed.
pub proof fn law_get_after_make(
    before: Ast,
    after: Ast,
    kind: AstKind,
    span: SourceSpan,
    r: NodeRef,
)
    requires
        before.wf(),
        r.spec_pos() == before.nodes().len(),
        after.nodes() == before.nodes().push(AstNode::spec_new(kind, span.start, span.end, r)),
    ensures
        after.wf(),
        r.spec_pos() != 0,
        r.spec_pos() < after.nodes().len(),
        after.nodes()[r.spec_pos() as int].spec_kind() == kind,
        after.nodes()[r.spec_pos() as int].spec_span() == span,
        after.nodes()[r.spec_pos() as int].spec_index() == r,
        forall|i: int| 0 <= i < before.nodes().len() ==> after.nodes()[i] == before.nodes()[i],
{
    AstNode::lemma_spec_new(kind, span.start, span.end, r);
    assert(forall|i: int| 0 <= i < before.nodes().len() ==> after.nodes()[i] == before.nodes()[i]);
}

/// Represents the data of a node in an abstract syntax tree.
#[derive(Debug)]
pub struct AstNode {
    index: NodeRef,  // self-aware index, useful
    kind: AstKind,
    span: SourceSpan,  // the span this node covers
}

impl Clone for AstNode {
    fn clone(&self) -> (r: Self)
        ensures
            r == *self,
    {
        AstNode {
            index: self.index,
            kind: self.kind,
            span: Range { start: self.span.start, end: self.span.end },
        }
    }
}

impl AstNode {
    pub closed spec fn spec_new(kind: AstKind, start: u32, end: u32, index: NodeRef) -> AstNode {
        AstNode { kind, span: Range { start, end }, index }
    }

    pub closed spec fn spec_index(&self) -> NodeRef {
        self.index
    }

    pub closed spec fn spec_kind(&self) -> AstKind {
        self.kind
    }

    pub closed spec fn spec_span(&self) -> SourceSpan {
        self.span
    }

    pub proof fn lemma_spec_new(kind: AstKind, start: u32, end: u32, index: NodeRef)
        ensures
            Self::spec_new(kind, start, end, index).spec_kind() == kind,
            Self::spec_new(kind, start, end, index).spec_span() == (Range { start, end }),
            Self::spec_new(kind, start, end, index).spec_index() == index,
    {
    }

    pub fn partial(kind: AstKind, span: SourceSpan) -> (n: Self)
        ensures
            n == AstNode::spec_new(kind, span.start, span.end, NodeRef::spec_new(0)),
    {
        Self { kind, span, index: uninit_node_ref() }
    }

    pub fn insert(self, ast: &mut Ast) -> (r: NodeRef)
        requires
            old(ast).wf(),
        ensures
            final(ast).wf(),
            r.spec_pos() == old(ast).nodes().len(),
            final(ast).nodes() == old(ast).nodes().push(
                AstNode::spec_new(self.spec_kind(), self.spec_span().start, self.spec_span().end, r),
            ),
            final(ast).spec_root() == old(ast).spec_root(),
    {
        ast.insert(self)
    }

    pub fn reference(&self) -> (r: NodeRef)
        requires
            self.spec_index().spec_pos() != 0,
        ensures
            r == self.spec_index(),
    {
        self.index
    }
}

/// Marker value, nodes must never be used without an initialized reference
/// unless for temporary passes of data or data initialization logic.
fn uninit_node_ref() -> (r: NodeRef)
    ensures
        r == NodeRef::spec_new(0),
{
    NodeRef(0)
}

/// Nodes are recursively contained through the mechanism of indices into
/// an arena of all the nodes flattened.
#[derive(Copy, Clone, PartialOrd, PartialEq, Debug)]
pub struct NodeRef(usize);

impl NodeRef {
    pub closed spec fn spec_new(pos: usize) -> NodeRef {
        NodeRef(pos)
    }

    /// The index of the node in the arena.
    pub closed spec fn spec_pos(&self) -> usize {
        self.0
    }

    pub proof fn lemma_spec_new(pos: usize)
        ensures
            Self::spec_new(pos).spec_pos() == pos,
    {
    }

    pub fn deref(self, ast: &Ast) -> (n: &AstNode)
        requires
            self.spec_pos() < ast.nodes().len(),
        ensures
            *n == ast.nodes()[self.spec_pos() as int],
    {
        ast.get(self)
    }

    pub fn deref_mut(self, ast: &mut Ast) -> (n: &mut AstNode)
        requires
            self.spec_pos() < old(ast).nodes().len(),
        ensures
            *n == old(ast).nodes()[self.spec_pos() as int],
            final(ast).nodes() == old(ast).nodes().update(self.spec_pos() as int, *final(n)),
            final(ast).spec_root() == old(ast).spec_root(),
    {
        ast.get_mut(self)
    }

    pub fn is_valid(&self) -> (b: bool)
        ensures
            b == (self.spec_pos() != 0),
    {
        self.0 != 0
    }
}

/// Represents the type and fields of a node in an abstract syntax tree.
/// These are the main node classes and their field definitions.
#[derive(Clone, Copy, Debug)]
pub enum AstKind {
    /// Marker value, reserved at index zero, must never escape index zero of the arena
    Invalid,
    /// Represents an invalid sequence of tokens which was not immediately fatal to
    /// parsing. Contains the index into the parser' diagnostics vector.
    Error(usize),
}

} // verus!
