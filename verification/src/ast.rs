//! The arena-based syntax tree: nodes, arguments, opaque handles, and the
//! well-formedness every parsed tree satisfies.

use vstd::prelude::*;

use crate::error::Span;

verus! {

/// An opaque handle into an [`Ast`] arena.
///
/// Handles are indices into the append-only node store; no node is ever
/// removed, so a handle stays valid for the arena's whole lifetime.
#[derive(Clone, Copy, Debug)]
pub struct NodeId {
    pub idx: usize,
}

/// One node of the tree: a run of children, a paragraph, a literal run of
/// source bytes, or a command invocation.
pub enum Node {
    /// A transparent sequence with no wrapping tag.
    Group(Vec<NodeId>),
    /// A sequence wrapped in an HTML paragraph tag.
    Paragraph(Vec<NodeId>),
    /// A literal run of source bytes, emitted verbatim.
    Text(Span),
    /// An invocation of a named built-in: name span and arguments.
    Command(Span, Vec<Argument>),
}

/// One argument of a command; each variant carries the span of its own
/// surface syntax.
pub enum Argument {
    /// Zero or more block-level nodes (braces). The span covers the braces.
    Block(Vec<NodeId>, Span),
    /// One inline-level node (brackets). The span covers the brackets.
    Inline(NodeId, Span),
    /// A bare alphabetic identifier.
    Ident(Span),
    /// A quoted literal; the span includes the surrounding quote characters.
    String(Span),
}

/// The mathematical value of a [`Node`]: the same shape over `Seq` instead
/// of `Vec`.
pub enum SpecNode {
    Group(Seq<NodeId>),
    Paragraph(Seq<NodeId>),
    Text(Span),
    Command(Span, Seq<SpecArg>),
}

/// The mathematical value of an [`Argument`].
pub enum SpecArg {
    Block(Seq<NodeId>, Span),
    Inline(NodeId, Span),
    Ident(Span),
    String(Span),
}

impl View for Argument {
    type V = SpecArg;

    open spec fn view(&self) -> SpecArg {
        match self {
            Argument::Block(c, span) => SpecArg::Block(c@, *span),
            Argument::Inline(id, span) => SpecArg::Inline(*id, *span),
            Argument::Ident(span) => SpecArg::Ident(*span),
            Argument::String(span) => SpecArg::String(*span),
        }
    }
}

impl View for Node {
    type V = SpecNode;

    open spec fn view(&self) -> SpecNode {
        match self {
            Node::Group(c) => SpecNode::Group(c@),
            Node::Paragraph(c) => SpecNode::Paragraph(c@),
            Node::Text(span) => SpecNode::Text(*span),
            Node::Command(name, args) => SpecNode::Command(
                *name,
                args@.map_values(|a: Argument| a@),
            ),
        }
    }
}

/// Well-formedness of one argument sitting in a node at arena index `i`,
/// for a source buffer of length `len_src`: every handle points strictly
/// below `i` (children are pushed before their parent) and every span fits
/// the source. A string argument always includes its two quote characters.
pub open spec fn arg_wf(a: SpecArg, i: int, len_src: int) -> bool {
    match a {
        SpecArg::Block(c, span) => span.wf(len_src) && forall|j: int|
            0 <= j < c.len() ==> (#[trigger] c[j]).idx < i,
        SpecArg::Inline(id, span) => span.wf(len_src) && id.idx < i,
        SpecArg::Ident(span) => span.wf(len_src),
        SpecArg::String(span) => span.wf(len_src) && span.start + 2 <= span.end,
    }
}

/// Well-formedness of the node at arena index `i`.
pub open spec fn node_wf(n: SpecNode, i: int, len_src: int) -> bool {
    match n {
        SpecNode::Group(c) => forall|j: int|
            0 <= j < c.len() ==> (#[trigger] c[j]).idx < i,
        SpecNode::Paragraph(c) => forall|j: int|
            0 <= j < c.len() ==> (#[trigger] c[j]).idx < i,
        SpecNode::Text(span) => span.wf(len_src),
        SpecNode::Command(name, args) => name.wf(len_src) && forall|k: int|
            0 <= k < args.len() ==> arg_wf(#[trigger] args[k], i, len_src),
    }
}

/// Every node of the arena is well-formed at its own index: the arena is a
/// forest whose edges all point backwards, with spans inside the source.
pub open spec fn arena_wf(ns: Seq<SpecNode>, len_src: int) -> bool {
    forall|i: int| 0 <= i < ns.len() ==> node_wf(#[trigger] ns[i], i, len_src)
}

/// Every handle in `ids` points below `n`.
pub open spec fn ids_bounded(ids: Seq<NodeId>, n: int) -> bool {
    forall|j: int| 0 <= j < ids.len() ==> (#[trigger] ids[j]).idx < n
}

/// Every argument in `args` is well-formed for a node at index `n`.
pub open spec fn args_bounded(args: Seq<SpecArg>, n: int, len_src: int) -> bool {
    forall|k: int| 0 <= k < args.len() ==> arg_wf(#[trigger] args[k], n, len_src)
}

/// Appending a node that is well-formed at the arena's current length keeps
/// the whole arena well-formed.
pub proof fn lemma_arena_wf_push(ns: Seq<SpecNode>, n: SpecNode, len_src: int)
    requires
        arena_wf(ns, len_src),
        node_wf(n, ns.len() as int, len_src),
    ensures
        arena_wf(ns.push(n), len_src),
{
    assert forall|i: int| 0 <= i < ns.push(n).len() implies node_wf(
        #[trigger] ns.push(n)[i],
        i,
        len_src,
    ) by {
        if i < ns.len() {
            assert(ns.push(n)[i] == ns[i]);
        } else {
            assert(ns.push(n)[i] == n);
        }
    }
}

/// The arena: an append-only store of nodes plus a root handle. The tree is
/// reachable from `root`; nodes are referenced exclusively by [`NodeId`].
pub struct Ast {
    pub root: NodeId,
    pub(crate) nodes: Vec<Node>,
}

impl Ast {
    /// The arena's mathematical value: the sequence of node models in push
    /// order.
    pub open(crate) spec fn arena(self) -> Seq<SpecNode> {
        self.nodes@.map_values(|n: Node| n@)
    }

    /// The root handle.
    pub open(crate) spec fn root_id(self) -> NodeId {
        self.root
    }

    /// The whole tree is well-formed for a source of length `len_src`.
    pub open(crate) spec fn wf(self, len_src: int) -> bool {
        arena_wf(self.arena(), len_src) && self.root.idx < self.arena().len()
    }

    pub(crate) fn new() -> (r: Self)
        ensures
            r.arena() == Seq::<SpecNode>::empty(),
            r.root == (NodeId { idx: 0 }),
    {
        let r = Self { root: NodeId { idx: 0 }, nodes: Vec::new() };
        proof {
            assert(r.arena() =~= Seq::<SpecNode>::empty());
        }
        r
    }

    pub(crate) fn push(&mut self, node: Node) -> (r: NodeId)
        ensures
            final(self).arena() == old(self).arena().push(node@),
            final(self).root == old(self).root,
            r == (NodeId { idx: old(self).arena().len() as usize }),
    {
        let idx = self.nodes.len();
        self.nodes.push(node);
        proof {
            assert(self.arena() =~= old(self).arena().push(node@));
        }
        NodeId { idx }
    }

    /// Read the node a handle points at.
    pub(crate) fn get(&self, id: NodeId) -> (r: &Node)
        requires
            id.idx < self.arena().len(),
        ensures
            r@ == self.arena()[id.idx as int],
    {
        &self.nodes[id.idx]
    }
}

} // verus!
