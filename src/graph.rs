//! The call graph and the chain graph, both stored as arenas: nodes live in an
//! append-only vector and edges refer to them by position.

use vstd::prelude::*;
use crate::ir::{DefId, HirId};

verus! {

/// A function of the analysed program, as a node of the call graph.
#[derive(Debug, Clone)]
pub struct CallNode {
    pub id: usize,
    pub label: String,
    pub kind: CallNodeKind,
    pub panics: bool,
}

/// Where a function lives: in the program, with a body that can be walked, or
/// outside it, known only by its definition.
#[derive(Debug, Clone, Copy, PartialEq, Eq, Structural)]
pub enum CallNodeKind {
    LocalFn(DefId, HirId),
    NonLocalFn(DefId),
}

/// One call site, from the caller's node to the callee's node.
#[derive(Debug, Clone)]
pub struct CallEdge {
    pub from: usize,
    pub to: usize,
    pub call_id: HirId,
    pub ty: Option<String>,
    pub propagates: bool,
    pub is_error: bool,
}

/// The call graph of one program.
#[derive(Debug, Clone)]
pub struct CallGraph {
    pub nodes: Vec<CallNode>,
    pub edges: Vec<CallEdge>,
    pub crate_name: String,
}

impl CallNodeKind {
    /// Two kinds stand for the same function: a local function is known by its
    /// body, an outside one by its definition.
    pub open spec fn same_fn(self, other: CallNodeKind) -> bool {
        match (self, other) {
            (CallNodeKind::LocalFn(_, h1), CallNodeKind::LocalFn(_, h2)) => h1 == h2,
            (CallNodeKind::NonLocalFn(d1), CallNodeKind::NonLocalFn(d2)) => d1 == d2,
            _ => false,
        }
    }

    pub open spec fn spec_def_id(&self) -> DefId {
        match self {
            CallNodeKind::LocalFn(def_id, _) => *def_id,
            CallNodeKind::NonLocalFn(def_id) => *def_id,
        }
    }

    /// Get a new `LocalFn`.
    pub fn local_fn(def_id: DefId, hir_id: HirId) -> (r: Self)
        ensures
            r == CallNodeKind::LocalFn(def_id, hir_id),
    {
        CallNodeKind::LocalFn(def_id, hir_id)
    }

    /// Get a new `NonLocalFn`.
    pub fn non_local_fn(id: DefId) -> (r: Self)
        ensures
            r == CallNodeKind::NonLocalFn(id),
    {
        CallNodeKind::NonLocalFn(id)
    }

    /// The definition of the function.
    #[verifier::when_used_as_spec(spec_def_id)]
    pub fn def_id(&self) -> (r: DefId)
        ensures
            r == self.spec_def_id(),
    {
        match self {
            CallNodeKind::LocalFn(def_id, _hir_id) => *def_id,
            CallNodeKind::NonLocalFn(def_id) => *def_id,
        }
    }
}

impl CallNode {
    /// Create a new node.
    fn new(node_id: usize, label: &str, node_type: CallNodeKind) -> (r: Self)
        ensures
            r.id == node_id,
            r.label@ == label@,
            r.kind == node_type,
            !r.panics,
    {
        CallNode { id: node_id, label: label.to_owned(), kind: node_type, panics: false }
    }

    /// Get the id of this node.
    pub fn id(&self) -> (r: usize)
        ensures
            r == self.id,
    {
        self.id
    }
}

/// A copy of an optional label.
pub fn copy_label(l: &Option<String>) -> (r: Option<String>)
    ensures
        r == *l,
{
    match l {
        Some(s) => Some(s.clone()),
        None => None,
    }
}

impl CallEdge {
    /// Create a new edge, not yet annotated with a type.
    pub fn new(from: usize, to: usize, call_id: HirId, propagates: bool) -> (r: Self)
        ensures
            r == (CallEdge { from, to, call_id, ty: None, propagates, is_error: false }),
    {
        CallEdge { from, to, call_id, ty: None, propagates, is_error: false }
    }

    /// A field-for-field copy.
    pub fn copy(&self) -> (r: Self)
        ensures
            r == *self,
    {
        CallEdge {
            from: self.from,
            to: self.to,
            call_id: self.call_id,
            ty: copy_label(&self.ty),
            propagates: self.propagates,
            is_error: self.is_error,
        }
    }

    /// Whether both edges join the same two nodes in the same direction.
    pub fn same_ends(&self, other: &CallEdge) -> (r: bool)
        ensures
            r == (self.from == other.from && self.to == other.to),
    {
        self.from == other.from && self.to == other.to
    }
}

/// The edges of `edges` that leave `node`, in order.
pub open spec fn outgoing(edges: Seq<CallEdge>, node: usize) -> Seq<CallEdge>
    decreases edges.len(),
{
    if edges.len() == 0 {
        Seq::empty()
    } else {
        let rest = outgoing(edges.drop_last(), node);
        if edges.last().from == node {
            rest.push(edges.last())
        } else {
            rest
        }
    }
}

/// Every element of `outgoing` is an edge of the list that leaves `node`.
pub proof fn lemma_outgoing_members(edges: Seq<CallEdge>, node: usize)
    ensures
        forall|k: int|
            0 <= k < outgoing(edges, node).len() ==> edges.contains(#[trigger] outgoing(
                edges,
                node,
            )[k]) && outgoing(edges, node)[k].from == node,
    decreases edges.len(),
{
    if edges.len() > 0 {
        lemma_outgoing_members(edges.drop_last(), node);
        let rest = outgoing(edges.drop_last(), node);
        assert forall|k: int| 0 <= k < outgoing(edges, node).len() implies edges.contains(
            #[trigger] outgoing(edges, node)[k],
        ) && outgoing(edges, node)[k].from == node by {
            if k < rest.len() {
                let j = choose|j: int| 0 <= j < edges.drop_last().len() && edges.drop_last()[j]
                    == rest[k];
                assert(edges[j] == rest[k]);
            } else {
                assert(edges[edges.len() - 1] == edges.last());
            }
        }
    }
}

impl CallGraph {
    /// Nodes sit at their own position, and edges join nodes of the graph.
    pub open spec fn wf(&self) -> bool {
        &&& forall|i: int| 0 <= i < self.nodes@.len() ==> (#[trigger] self.nodes@[i]).id == i
        &&& forall|k: int|
            0 <= k < self.edges@.len() ==> (#[trigger] self.edges@[k]).from < self.nodes@.len()
                && self.edges@[k].to < self.nodes@.len()
    }

    /// No function has two nodes.
    pub open spec fn distinct_nodes(&self) -> bool {
        forall|i: int, j: int|
            0 <= i < self.nodes@.len() && 0 <= j < self.nodes@.len() && i != j ==> !(
            #[trigger] self.nodes@[i]).kind.same_fn(#[trigger] self.nodes@[j].kind)
    }

    /// Create a new, empty graph.
    pub fn new(crate_name: String) -> (r: Self)
        ensures
            r.nodes@.len() == 0,
            r.edges@.len() == 0,
            r.crate_name == crate_name,
            r.wf(),
    {
        CallGraph { nodes: Vec::new(), edges: Vec::new(), crate_name }
    }

    /// Add a node to this graph, returning its id.
    pub fn add_node(&mut self, label: &str, node_kind: CallNodeKind) -> (r: usize)
        requires
            old(self).nodes@.len() < usize::MAX,
        ensures
            r == old(self).nodes@.len(),
            final(self).nodes@.len() == old(self).nodes@.len() + 1,
            final(self).nodes@.drop_last() == old(self).nodes@,
            final(self).nodes@.last().id == r,
            final(self).nodes@.last().label@ == label@,
            final(self).nodes@.last().kind == node_kind,
            !final(self).nodes@.last().panics,
            final(self).edges == old(self).edges,
            final(self).crate_name == old(self).crate_name,
            old(self).wf() ==> final(self).wf(),
    {
        let node = CallNode::new(self.nodes.len(), label, node_kind);
        let id = node.id();
        self.nodes.push(node);
        proof {
            assert(self.nodes@.drop_last() =~= old(self).nodes@);
        }
        id
    }

    /// Add an edge between two nodes to this graph.
    pub fn add_edge(&mut self, edge: CallEdge)
        ensures
            final(self).edges@ == old(self).edges@.push(edge),
            final(self).nodes == old(self).nodes,
            final(self).crate_name == old(self).crate_name,
            old(self).wf() && edge.from < old(self).nodes@.len() && edge.to < old(
                self,
            ).nodes@.len() ==> final(self).wf(),
    {
        self.edges.push(edge);
    }

    /// Find the first node of the local function whose body is `id`.
    pub fn find_local_fn_node(&self, id: HirId) -> (r: Option<CallNode>)
        ensures
            r is Some <==> exists|i: int|
                0 <= i < self.nodes@.len() && #[trigger] self.nodes@[i].kind.same_fn(
                    CallNodeKind::LocalFn(DefId { krate: 0, index: 0 }, id),
                ),
            r is Some ==> exists|i: int|
                0 <= i < self.nodes@.len() && self.nodes@[i] == r->0 && #[trigger] self.nodes@[
                    i
                ].kind.same_fn(CallNodeKind::LocalFn(DefId { krate: 0, index: 0 }, id)) && forall|
                    j: int,
                | 0 <= j < i ==> !self.nodes@[j].kind.same_fn(
                    CallNodeKind::LocalFn(DefId { krate: 0, index: 0 }, id),
                ),
    {
        let mut i: usize = 0;
        while i < self.nodes.len()
            invariant
                i <= self.nodes@.len(),
                forall|j: int|
                    0 <= j < i ==> !(#[trigger] self.nodes@[j]).kind.same_fn(
                        CallNodeKind::LocalFn(DefId { krate: 0, index: 0 }, id),
                    ),
            decreases self.nodes@.len() - i,
        {
            let node = &self.nodes[i];
            if let CallNodeKind::LocalFn(_def_id, hir_id) = node.kind {
                if hir_id == id {
                    proof {
                        assert(self.nodes@[i as int].kind.same_fn(
                            CallNodeKind::LocalFn(DefId { krate: 0, index: 0 }, id),
                        ));
                    }
                    return Some(node.clone_node());
                }
            }
            i = i + 1;
        }
        None
    }

    /// Find the first node of the outside function `id`.
    pub fn find_non_local_fn_node(&self, id: DefId) -> (r: Option<CallNode>)
        ensures
            r is Some <==> exists|i: int|
                0 <= i < self.nodes@.len() && #[trigger] self.nodes@[i].kind.same_fn(
                    CallNodeKind::NonLocalFn(id),
                ),
            r is Some ==> exists|i: int|
                0 <= i < self.nodes@.len() && self.nodes@[i] == r->0 && #[trigger] self.nodes@[
                    i
                ].kind.same_fn(CallNodeKind::NonLocalFn(id)) && forall|j: int|
                    0 <= j < i ==> !self.nodes@[j].kind.same_fn(CallNodeKind::NonLocalFn(id)),
    {
        let mut i: usize = 0;
        while i < self.nodes.len()
            invariant
                i <= self.nodes@.len(),
                forall|j: int|
                    0 <= j < i ==> !(#[trigger] self.nodes@[j]).kind.same_fn(
                        CallNodeKind::NonLocalFn(id),
                    ),
            decreases self.nodes@.len() - i,
        {
            let node = &self.nodes[i];
            if let CallNodeKind::NonLocalFn(def_id) = node.kind {
                if def_id == id {
                    proof {
                        assert(self.nodes@[i as int].kind.same_fn(CallNodeKind::NonLocalFn(id)));
                    }
                    return Some(node.clone_node());
                }
            }
            i = i + 1;
        }
        None
    }

    /// The edges that leave `node_id`, in the order they were added.
    pub fn get_outgoing_edges(&self, node_id: usize) -> (res: Vec<&CallEdge>)
        ensures
            res@.len() == outgoing(self.edges@, node_id).len(),
            forall|k: int| 0 <= k < res@.len() ==> *res@[k] == outgoing(self.edges@, node_id)[k],
    {
        let mut res: Vec<&CallEdge> = Vec::new();
        let mut i: usize = 0;
        while i < self.edges.len()
            invariant
                i <= self.edges@.len(),
                res@.len() == outgoing(self.edges@.take(i as int), node_id).len(),
                forall|k: int|
                    0 <= k < res@.len() ==> *res@[k] == outgoing(
                        self.edges@.take(i as int),
                        node_id,
                    )[k],
            decreases self.edges@.len() - i,
        {
            let edge = &self.edges[i];
            proof {
                assert(self.edges@.take(i + 1).drop_last() =~= self.edges@.take(i as int));
            }
            if edge.from == node_id {
                res.push(edge);
            }
            i = i + 1;
        }
        proof {
            assert(self.edges@.take(i as int) =~= self.edges@);
        }
        res
    }
}

impl CallNode {
    /// A field-for-field copy.
    pub fn clone_node(&self) -> (r: Self)
        ensures
            r == *self,
    {
        CallNode { id: self.id, label: self.label.clone(), kind: self.kind, panics: self.panics }
    }
}

/// The graph of error propagation chains: each chain is drawn with nodes of
/// its own, holding the labels of the functions it passes through.
#[derive(Debug, Clone)]
pub struct ChainGraph {
    pub nodes: Vec<ChainNode>,
    pub edges: Vec<ChainEdge>,
    pub crate_name: String,
}

/// A function as it appears in one chain.
#[derive(Debug, Clone)]
pub struct ChainNode {
    pub id: usize,
    pub label: String,
}

/// One call of a chain, labelled with the error type it carries.
#[derive(Debug, Clone)]
pub struct ChainEdge {
    pub from: usize,
    pub to: usize,
    pub label: Option<String>,
}

impl ChainGraph {
    /// Nodes sit at their own position, and edges join nodes of the graph.
    pub open spec fn wf(&self) -> bool {
        &&& forall|i: int| 0 <= i < self.nodes@.len() ==> (#[trigger] self.nodes@[i]).id == i
        &&& forall|k: int|
            0 <= k < self.edges@.len() ==> (#[trigger] self.edges@[k]).from < self.nodes@.len()
                && self.edges@[k].to < self.nodes@.len()
    }

    /// Create a new, empty graph.
    pub fn new(crate_name: String) -> (r: Self)
        ensures
            r.nodes@.len() == 0,
            r.edges@.len() == 0,
            r.crate_name == crate_name,
            r.wf(),
    {
        ChainGraph { nodes: Vec::new(), edges: Vec::new(), crate_name }
    }

    /// Add a node with the given label, returning its id.
    pub fn add_node(&mut self, label: String) -> (r: usize)
        requires
            old(self).nodes@.len() < usize::MAX,
        ensures
            r == old(self).nodes@.len(),
            final(self).nodes@ == old(self).nodes@.push(ChainNode { id: r, label }),
            final(self).edges == old(self).edges,
            final(self).crate_name == old(self).crate_name,
            old(self).wf() ==> final(self).wf(),
    {
        let id = self.nodes.len();
        self.nodes.push(ChainNode::new(id, label));
        id
    }

    /// Add an edge between two nodes.
    pub fn add_edge(&mut self, from: usize, to: usize, label: Option<String>)
        ensures
            final(self).edges@ == old(self).edges@.push(ChainEdge { from, to, label }),
            final(self).nodes == old(self).nodes,
            final(self).crate_name == old(self).crate_name,
            old(self).wf() && from < old(self).nodes@.len() && to < old(self).nodes@.len()
                ==> final(self).wf(),
    {
        self.edges.push(ChainEdge::new(from, to, label));
    }
}

impl ChainNode {
    /// Create a new node.
    fn new(id: usize, label: String) -> (r: Self)
        ensures
            r == (ChainNode { id, label }),
    {
        ChainNode { id, label }
    }
}

impl ChainEdge {
    /// Create a new edge.
    pub fn new(from: usize, to: usize, label: Option<String>) -> (r: Self)
        ensures
            r == (ChainEdge { from, to, label }),
    {
        ChainEdge { from, to, label }
    }
}

} // verus!
