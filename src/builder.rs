//! Building the call graph from the entry function.
//!
//! The body of the entry function is walked for calls; every function met for
//! the first time gets a node, and a local one has its own body walked at
//! once. A function that already has a node is never walked again, which
//! bounds the walk even where functions call each other.

use vstd::prelude::*;
use crate::collect::{calls_in_block, get_function_calls_in_block, FoundCall};
use crate::graph::{lemma_outgoing_members, outgoing, CallEdge, CallGraph, CallNode, CallNodeKind};
use crate::ir::{find_body, find_def, DefId, FnBody, HirId, Program};
use crate::resolve::{local_def_id_to_hir_id, local_hir};

verus! {

/// The label of definition `d`: its recorded path, or nothing.
pub open spec fn def_path(p: Program, d: DefId) -> Seq<char> {
    match find_def(p.defs@, d) {
        Some(info) => info.path@,
        None => Seq::empty(),
    }
}

/// The calls in the body of the function of `n`, if it has one.
pub open spec fn body_calls(p: Program, n: CallNode) -> Seq<FoundCall> {
    match n.kind {
        CallNodeKind::LocalFn(_, h) => match find_body(p.bodies@, h) {
            Some(b) => calls_in_block(p, b.block, true),
            None => Seq::empty(),
        },
        CallNodeKind::NonLocalFn(_) => Seq::empty(),
    }
}

/// Edge `e`, ending at node `target`, records call `c`.
pub open spec fn records(e: CallEdge, target: CallNode, c: FoundCall) -> bool {
    &&& c.add_edge
    &&& e.call_id == c.call_id
    &&& e.propagates == c.propagates
    &&& target.kind.same_fn(c.kind)
}

/// Every edge of `g` records a call in the body of its source.
pub open spec fn edges_sound(p: Program, g: CallGraph) -> bool {
    forall|k: int|
        0 <= k < g.edges@.len() ==> exists|j: int|
            0 <= j < body_calls(p, g.nodes@[(#[trigger] g.edges@[k]).from as int]).len()
                && records(
                g.edges@[k],
                g.nodes@[g.edges@[k].to as int],
                body_calls(p, g.nodes@[g.edges@[k].from as int])[j],
            )
}

/// Every call of the body of node `i` that makes an edge has an edge from `i`
/// that records it.
pub open spec fn node_complete(p: Program, g: CallGraph, i: int) -> bool {
    forall|j: int|
        0 <= j < body_calls(p, g.nodes@[i]).len() && (#[trigger] body_calls(p, g.nodes@[i])[j]).add_edge
            ==> exists|k: int|
            0 <= k < g.edges@.len() && g.edges@[k].from == i && records(
                g.edges@[k],
                g.nodes@[g.edges@[k].to as int],
                body_calls(p, g.nodes@[i])[j],
            )
}

/// Node `i` is reached by an edge from an earlier node.
pub open spec fn reached(g: CallGraph, i: int) -> bool {
    exists|k: int| 0 <= k < g.edges@.len() && (#[trigger] g.edges@[k]).to == i && g.edges@[k].from < i
}

/// Each node but the first is reached by an edge from an earlier node.
pub open spec fn nodes_reached(g: CallGraph) -> bool {
    forall|i: int| 0 < i < g.nodes@.len() ==> #[trigger] reached(g, i)
}

/// Facts that hold of the graph at every step of the walk.
pub open spec fn build_inv(p: Program, g: CallGraph) -> bool {
    &&& g.wf()
    &&& g.distinct_nodes()
    &&& edges_sound(p, g)
    &&& nodes_reached(g)
    &&& forall|i: int|
        0 <= i < g.nodes@.len() ==> (#[trigger] g.nodes@[i]).label@ == def_path(
            p,
            g.nodes@[i].kind.spec_def_id(),
        ) && !g.nodes@[i].panics
}

/// `g` extends `g0`: the same nodes and edges, and maybe more after them.
pub open spec fn grows(g0: CallGraph, g: CallGraph) -> bool {
    &&& g0.nodes@.is_prefix_of(g.nodes@)
    &&& g0.edges@.is_prefix_of(g.edges@)
    &&& g.crate_name == g0.crate_name
}

/// Some node of `nodes` is the local function with body `h`.
pub open spec fn has_local_node(nodes: Seq<CallNode>, h: HirId) -> bool {
    exists|i: int|
        0 <= i < nodes.len() && (#[trigger] nodes[i]).kind.same_fn(
            CallNodeKind::LocalFn(DefId { krate: 0, index: 0 }, h),
        )
}

/// How many of `bodies` belong to no local node of `nodes`.
pub open spec fn unexplored(bodies: Seq<FnBody>, nodes: Seq<CallNode>) -> nat
    decreases bodies.len(),
{
    if bodies.len() == 0 {
        0
    } else {
        (if has_local_node(nodes, bodies[0].hir_id) {
            0nat
        } else {
            1nat
        }) + unexplored(bodies.drop_first(), nodes)
    }
}

/// More nodes leave no more bodies unexplored, and fewer once a body gets its
/// first node.
pub proof fn lemma_unexplored(bodies: Seq<FnBody>, n0: Seq<CallNode>, n1: Seq<CallNode>, h: HirId)
    requires
        n0.is_prefix_of(n1),
    ensures
        unexplored(bodies, n1) <= unexplored(bodies, n0),
        find_body(bodies, h) is Some && !has_local_node(n0, h) && has_local_node(n1, h)
            ==> unexplored(bodies, n1) < unexplored(bodies, n0),
    decreases bodies.len(),
{
    if bodies.len() > 0 {
        lemma_unexplored(bodies.drop_first(), n0, n1, h);
        if has_local_node(n0, bodies[0].hir_id) {
            let i = choose|i: int|
                0 <= i < n0.len() && (#[trigger] n0[i]).kind.same_fn(
                    CallNodeKind::LocalFn(DefId { krate: 0, index: 0 }, bodies[0].hir_id),
                );
            assert(n1[i] == n0[i]);
        }
    }
}

/// Growing a graph keeps the facts about its older part.
pub proof fn lemma_grow_keeps(p: Program, g0: CallGraph, g: CallGraph)
    requires
        grows(g0, g),
        g0.wf(),
    ensures
        forall|i: int| 0 <= i < g0.nodes@.len() && node_complete(p, g0, i) ==> node_complete(p, g, i),
        forall|i: int| 0 <= i < g0.nodes@.len() ==> g.nodes@[i] == g0.nodes@[i],
        forall|k: int| 0 <= k < g0.edges@.len() ==> g.edges@[k] == g0.edges@[k],
        forall|h: HirId| has_local_node(g0.nodes@, h) ==> has_local_node(g.nodes@, h),
{
    assert forall|i: int| 0 <= i < g0.nodes@.len() && node_complete(p, g0, i) implies node_complete(p, g, i) by {
        assert(g.nodes@[i] == g0.nodes@[i]);
        assert forall|j: int|
            0 <= j < body_calls(p, g.nodes@[i]).len() && (#[trigger] body_calls(p, g.nodes@[i])[j]).add_edge
            implies exists|k: int|
            0 <= k < g.edges@.len() && g.edges@[k].from == i && records(
                g.edges@[k],
                g.nodes@[g.edges@[k].to as int],
                body_calls(p, g.nodes@[i])[j],
            ) by {
            assert(body_calls(p, g0.nodes@[i])[j].add_edge);
            let k = choose|k: int|
                0 <= k < g0.edges@.len() && g0.edges@[k].from == i && records(
                    g0.edges@[k],
                    g0.nodes@[g0.edges@[k].to as int],
                    body_calls(p, g0.nodes@[i])[j],
                );
            assert(g.edges@[k] == g0.edges@[k]);
            assert(g.nodes@[g0.edges@[k].to as int] == g0.nodes@[g0.edges@[k].to as int]);
        }
    }
    assert forall|h: HirId| has_local_node(g0.nodes@, h) implies has_local_node(g.nodes@, h) by {
        let i = choose|i: int|
            0 <= i < g0.nodes@.len() && (#[trigger] g0.nodes@[i]).kind.same_fn(
                CallNodeKind::LocalFn(DefId { krate: 0, index: 0 }, h),
            );
        assert(g.nodes@[i] == g0.nodes@[i]);
    }
}

/// Adding one node and the edge that reaches it keeps the facts of the walk.
pub proof fn lemma_add_node_and_edge(p: Program, g0: CallGraph, g1: CallGraph, c: FoundCall, j: int)
    requires
        build_inv(p, g0),
        g1.nodes@.len() == g0.nodes@.len() + 1,
        g1.nodes@.drop_last() == g0.nodes@,
        g1.nodes@.last().id == g0.nodes@.len(),
        g1.nodes@.last().label@ == def_path(p, g1.nodes@.last().kind.spec_def_id()),
        !g1.nodes@.last().panics,
        g1.nodes@.last().kind == c.kind,
        forall|i: int| 0 <= i < g0.nodes@.len() ==> !(#[trigger] g0.nodes@[i]).kind.same_fn(c.kind),
        g1.edges@.len() == g0.edges@.len() + 1,
        g1.edges@.drop_last() == g0.edges@,
        g1.edges@.last().to == g0.nodes@.len(),
        g1.edges@.last().from < g0.nodes@.len(),
        0 <= j < body_calls(p, g0.nodes@[g1.edges@.last().from as int]).len(),
        body_calls(p, g0.nodes@[g1.edges@.last().from as int])[j] == c,
        c.add_edge,
        g1.edges@.last().call_id == c.call_id,
        g1.edges@.last().propagates == c.propagates,
    ensures
        build_inv(p, g1),
{
    let n = g0.nodes@.len() as int;
    let m = g0.edges@.len() as int;
    assert forall|i: int| 0 <= i < n implies g1.nodes@[i] == g0.nodes@[i] by {
        assert(g1.nodes@.drop_last()[i] == g1.nodes@[i]);
    }
    assert forall|k: int| 0 <= k < m implies g1.edges@[k] == g0.edges@[k] by {
        assert(g1.edges@.drop_last()[k] == g1.edges@[k]);
    }
    assert(g1.nodes@[n] == g1.nodes@.last());
    assert(g1.edges@[m] == g1.edges@.last());
    assert forall|i: int, i2: int|
        0 <= i < g1.nodes@.len() && 0 <= i2 < g1.nodes@.len() && i != i2 implies !(
        #[trigger] g1.nodes@[i]).kind.same_fn(#[trigger] g1.nodes@[i2].kind) by {
        if i < n && i2 < n {
            assert(!g0.nodes@[i].kind.same_fn(g0.nodes@[i2].kind));
        } else if i < n {
            assert(!g0.nodes@[i].kind.same_fn(c.kind));
        } else {
            assert(!g0.nodes@[i2].kind.same_fn(c.kind));
        }
    }
    assert forall|k: int| 0 <= k < g1.edges@.len() implies exists|jj: int|
        0 <= jj < body_calls(p, g1.nodes@[(#[trigger] g1.edges@[k]).from as int]).len() && records(
            g1.edges@[k],
            g1.nodes@[g1.edges@[k].to as int],
            body_calls(p, g1.nodes@[g1.edges@[k].from as int])[jj],
        ) by {
        if k < m {
            let jj = choose|jj: int|
                0 <= jj < body_calls(p, g0.nodes@[g0.edges@[k].from as int]).len() && records(
                    g0.edges@[k],
                    g0.nodes@[g0.edges@[k].to as int],
                    body_calls(p, g0.nodes@[g0.edges@[k].from as int])[jj],
                );
            assert(records(
                g1.edges@[k],
                g1.nodes@[g1.edges@[k].to as int],
                body_calls(p, g1.nodes@[g1.edges@[k].from as int])[jj],
            ));
        } else {
            assert(records(
                g1.edges@[k],
                g1.nodes@[g1.edges@[k].to as int],
                body_calls(p, g1.nodes@[g1.edges@[k].from as int])[j],
            ));
        }
    }
    assert forall|i: int| 0 < i < g1.nodes@.len() implies #[trigger] reached(g1, i) by {
        if i < n {
            assert(reached(g0, i));
            let k = choose|k: int|
                0 <= k < g0.edges@.len() && (#[trigger] g0.edges@[k]).to == i && g0.edges@[k].from
                    < i;
            assert(g1.edges@[k] == g0.edges@[k]);
        } else {
            assert(g1.edges@[m].to == i);
        }
    }
}

/// Adding an edge that records a call of its source keeps the facts of the
/// walk.
pub proof fn lemma_add_edge(p: Program, g0: CallGraph, g1: CallGraph, j: int)
    requires
        build_inv(p, g0),
        g1.nodes == g0.nodes,
        g1.edges@.len() == g0.edges@.len() + 1,
        g1.edges@.drop_last() == g0.edges@,
        g1.edges@.last().to < g0.nodes@.len(),
        g1.edges@.last().from < g0.nodes@.len(),
        0 <= j < body_calls(p, g0.nodes@[g1.edges@.last().from as int]).len(),
        records(
            g1.edges@.last(),
            g0.nodes@[g1.edges@.last().to as int],
            body_calls(p, g0.nodes@[g1.edges@.last().from as int])[j],
        ),
    ensures
        build_inv(p, g1),
{
    let m = g0.edges@.len() as int;
    assert forall|k: int| 0 <= k < m implies g1.edges@[k] == g0.edges@[k] by {
        assert(g1.edges@.drop_last()[k] == g1.edges@[k]);
    }
    assert(g1.edges@[m] == g1.edges@.last());
    assert forall|k: int| 0 <= k < g1.edges@.len() implies exists|jj: int|
        0 <= jj < body_calls(p, g1.nodes@[(#[trigger] g1.edges@[k]).from as int]).len() && records(
            g1.edges@[k],
            g1.nodes@[g1.edges@[k].to as int],
            body_calls(p, g1.nodes@[g1.edges@[k].from as int])[jj],
        ) by {
        if k < m {
            let jj = choose|jj: int|
                0 <= jj < body_calls(p, g0.nodes@[g0.edges@[k].from as int]).len() && records(
                    g0.edges@[k],
                    g0.nodes@[g0.edges@[k].to as int],
                    body_calls(p, g0.nodes@[g0.edges@[k].from as int])[jj],
                );
            assert(records(
                g1.edges@[k],
                g1.nodes@[g1.edges@[k].to as int],
                body_calls(p, g1.nodes@[g1.edges@[k].from as int])[jj],
            ));
        } else {
            assert(records(
                g1.edges@[k],
                g1.nodes@[g1.edges@[k].to as int],
                body_calls(p, g1.nodes@[g1.edges@[k].from as int])[j],
            ));
        }
    }
    assert forall|i: int| 0 < i < g1.nodes@.len() implies #[trigger] reached(g1, i) by {
        assert(reached(g0, i));
        let k = choose|k: int|
            0 <= k < g0.edges@.len() && (#[trigger] g0.edges@[k]).to == i && g0.edges@[k].from < i;
        assert(g1.edges@[k] == g0.edges@[k]);
    }
}

/// The label of definition `def_id`.
pub fn def_path_str(context: &Program, def_id: DefId) -> (r: String)
    ensures
        r@ == def_path(*context, def_id),
{
    match context.def_info(def_id) {
        Some(info) => info.path.clone(),
        None => String::new(),
    }
}

/// The node of the function that `kind` stands for, if the graph has one.
fn find_node(g: &CallGraph, kind: CallNodeKind) -> (r: Option<CallNode>)
    ensures
        r is Some ==> exists|i: int|
            0 <= i < g.nodes@.len() && g.nodes@[i] == r->0 && #[trigger] g.nodes@[i].kind.same_fn(kind),
        r is None ==> forall|i: int| 0 <= i < g.nodes@.len() ==> !(#[trigger] g.nodes@[i]).kind.same_fn(kind),
{
    match kind {
        CallNodeKind::LocalFn(_, hir_id) => {
            let r = g.find_local_fn_node(hir_id);
            proof {
                assert forall|i: int| 0 <= i < g.nodes@.len() implies (#[trigger] g.nodes@[i]).kind.same_fn(kind)
                    == g.nodes@[i].kind.same_fn(CallNodeKind::LocalFn(DefId { krate: 0, index: 0 }, hir_id)) by {}
            }
            r
        },
        CallNodeKind::NonLocalFn(def_id) => g.find_non_local_fn_node(def_id),
    }
}

/// The calls of `cs` that make an edge, in order.
pub open spec fn edge_calls(cs: Seq<FoundCall>) -> Seq<FoundCall>
    decreases cs.len(),
{
    if cs.len() == 0 {
        Seq::empty()
    } else {
        let prev = edge_calls(cs.drop_last());
        if cs.last().add_edge {
            prev.push(cs.last())
        } else {
            prev
        }
    }
}

/// The edges out of node `i`, in order, record the calls `cs` one for one.
pub open spec fn records_exactly(g: CallGraph, i: usize, cs: Seq<FoundCall>) -> bool {
    let out = outgoing(g.edges@, i);
    &&& out.len() == cs.len()
    &&& forall|m: int|
        0 <= m < out.len() ==> records(#[trigger] out[m], g.nodes@[out[m].to as int], cs[m])
}

/// The edges out of node `i` record the calls of its body that make an edge,
/// each by exactly one edge, in the order of the body.
pub open spec fn node_exact(p: Program, g: CallGraph, i: int) -> bool {
    records_exactly(g, i as usize, edge_calls(body_calls(p, g.nodes@[i])))
}

/// No edge carries a type label or an error flag yet.
pub open spec fn unannotated(g: CallGraph) -> bool {
    forall|k: int| 0 <= k < g.edges@.len() ==> (#[trigger] g.edges@[k]).ty is None && !g.edges@[k].is_error
}

/// The edges that `g` has beyond `g0` leave `from` or a node that `g0` lacks.
pub open spec fn new_edges_from(g0: CallGraph, g: CallGraph, from: usize) -> bool {
    forall|k: int|
        g0.edges@.len() <= k < g.edges@.len() ==> (#[trigger] g.edges@[k]).from == from
            || g.edges@[k].from >= g0.nodes@.len()
}

/// Appending edges that do not leave `i` keeps the edges out of `i`.
pub proof fn lemma_outgoing_extend(e0: Seq<CallEdge>, e1: Seq<CallEdge>, i: usize)
    requires
        e0.is_prefix_of(e1),
        forall|k: int| e0.len() <= k < e1.len() ==> (#[trigger] e1[k]).from != i,
    ensures
        outgoing(e1, i) == outgoing(e0, i),
    decreases e1.len(),
{
    if e1.len() == e0.len() {
        assert(e1 =~= e0);
    } else {
        assert(e0.is_prefix_of(e1.drop_last())) by {
            assert(e1.drop_last().subrange(0, e0.len() as int) =~= e1.subrange(0, e0.len() as int));
        }
        assert(e1.last() == e1[e1.len() - 1]);
        lemma_outgoing_extend(e0, e1.drop_last(), i);
    }
}

/// Appending an edge out of `i` appends it to the edges out of `i`.
pub proof fn lemma_outgoing_push(e: Seq<CallEdge>, x: CallEdge, i: usize)
    ensures
        outgoing(e.push(x), i) == if x.from == i {
            outgoing(e, i).push(x)
        } else {
            outgoing(e, i)
        },
{
    assert(e.push(x).drop_last() =~= e);
}

/// Growing a graph by nodes, and by edges that do not leave `i`, keeps what
/// the edges out of `i` record.
pub proof fn lemma_exact_keeps(g0: CallGraph, g: CallGraph, i: usize, cs: Seq<FoundCall>)
    requires
        g0.wf(),
        grows(g0, g),
        forall|k: int| g0.edges@.len() <= k < g.edges@.len() ==> (#[trigger] g.edges@[k]).from != i,
        records_exactly(g0, i, cs),
    ensures
        records_exactly(g, i, cs),
{
    lemma_outgoing_extend(g0.edges@, g.edges@, i);
    lemma_outgoing_members(g0.edges@, i);
    let out = outgoing(g0.edges@, i);
    assert forall|m: int| 0 <= m < out.len() implies records(#[trigger] out[m], g.nodes@[out[m].to as int], cs[m]) by {
        let w = choose|w: int| 0 <= w < g0.edges@.len() && g0.edges@[w] == out[m];
        assert(g.nodes@[out[m].to as int] == g0.nodes@[out[m].to as int]);
    }
}

/// Appending an edge out of `i` that records `c` extends what the edges out
/// of `i` record by `c`.
pub proof fn lemma_exact_push(g0: CallGraph, g: CallGraph, i: usize, cs: Seq<FoundCall>, c: FoundCall)
    requires
        g0.wf(),
        g0.nodes@.is_prefix_of(g.nodes@),
        g.edges@ == g0.edges@.push(g.edges@.last()),
        g.edges@.last().from == i,
        records(g.edges@.last(), g.nodes@[g.edges@.last().to as int], c),
        records_exactly(g0, i, cs),
    ensures
        records_exactly(g, i, cs.push(c)),
{
    lemma_outgoing_push(g0.edges@, g.edges@.last(), i);
    lemma_outgoing_members(g0.edges@, i);
    let out0 = outgoing(g0.edges@, i);
    let out = outgoing(g.edges@, i);
    assert forall|m: int| 0 <= m < out.len() implies records(#[trigger] out[m], g.nodes@[out[m].to as int], cs.push(c)[m]) by {
        if m < out0.len() {
            let w = choose|w: int| 0 <= w < g0.edges@.len() && g0.edges@[w] == out0[m];
            assert(out[m] == out0[m]);
            assert(g.nodes@[out[m].to as int] == g0.nodes@[out[m].to as int]);
        } else {
            assert(out[m] == g.edges@.last());
        }
    }
}

/// All calls of the first `j` in `calls` that make an edge have an edge from
/// `from` that records them.
pub open spec fn calls_recorded(g: CallGraph, from: int, calls: Seq<FoundCall>, j: int) -> bool {
    forall|jj: int|
        0 <= jj < j && (#[trigger] calls[jj]).add_edge ==> exists|k: int|
            0 <= k < g.edges@.len() && g.edges@[k].from == from && records(
                g.edges@[k],
                g.nodes@[g.edges@[k].to as int],
                calls[jj],
            )
}

/// The largest number of nodes the walk creates; past it, calls are skipped.
pub const NODE_LIMIT: usize = usize::MAX - 1;

/// Add the calls in `block`, the body of node `from`, and walk every local
/// function met for the first time.
fn add_calls_from_block(context: &Program, from: usize, block: &crate::ir::Block, graph: CallGraph) -> (r:
    CallGraph)
    requires
        build_inv(*context, graph),
        from < graph.nodes@.len(),
        graph.nodes@.len() <= NODE_LIMIT,
        calls_in_block(*context, *block, true) == body_calls(*context, graph.nodes@[from as int]),
        unannotated(graph),
        outgoing(graph.edges@, from).len() == 0,
    ensures
        build_inv(*context, r),
        grows(graph, r),
        unannotated(r),
        new_edges_from(graph, r, from),
        r.nodes@.len() <= NODE_LIMIT,
        r.nodes@.len() < NODE_LIMIT ==> node_complete(*context, r, from as int) && forall|i: int|
            graph.nodes@.len() <= i < r.nodes@.len() ==> node_complete(*context, r, i),
        r.nodes@.len() < NODE_LIMIT ==> node_exact(*context, r, from as int) && forall|i: int|
            graph.nodes@.len() <= i < r.nodes@.len() ==> node_exact(*context, r, i),
    decreases unexplored(context.bodies@, graph.nodes@),
{
    let ghost p = *context;
    let calls = get_function_calls_in_block(context, block, true);
    let mut g = graph;
    let mut j: usize = 0;
    proof {
        assert(graph.nodes@.is_prefix_of(g.nodes@)) by {
            assert(g.nodes@.subrange(0, g.nodes@.len() as int) =~= g.nodes@);
        }
        assert(graph.edges@.is_prefix_of(g.edges@)) by {
            assert(g.edges@.subrange(0, g.edges@.len() as int) =~= g.edges@);
        }
        assert(calls@.take(0) =~= Seq::<FoundCall>::empty());
        assert(outgoing(g.edges@, from) =~= Seq::<CallEdge>::empty());
    }
    while j < calls.len()
        invariant
            p == *context,
            j <= calls@.len(),
            build_inv(p, g),
            grows(graph, g),
            from < graph.nodes@.len(),
            g.nodes@.len() <= NODE_LIMIT,
            calls@ == body_calls(p, g.nodes@[from as int]),
            unexplored(p.bodies@, g.nodes@) <= unexplored(p.bodies@, graph.nodes@),
            g.nodes@.len() < NODE_LIMIT ==> calls_recorded(g, from as int, calls@, j as int)
                && forall|i: int| graph.nodes@.len() <= i < g.nodes@.len() ==> node_complete(p, g, i),
            unannotated(g),
            new_edges_from(graph, g, from),
            g.nodes@.len() < NODE_LIMIT ==> records_exactly(g, from, edge_calls(calls@.take(j as int)))
                && forall|i: int| graph.nodes@.len() <= i < g.nodes@.len() ==> node_exact(p, g, i),
        decreases calls@.len() - j,
    {
        let c = calls[j];
        let ghost g0 = g;
        proof {
            assert(calls@.take(j + 1).drop_last() =~= calls@.take(j as int));
            assert(calls@.take(j + 1).last() == c);
            assert(g.nodes@[from as int] == graph.nodes@[from as int]) by {
                assert(graph.nodes@[from as int] == g.nodes@.subrange(0, graph.nodes@.len() as int)[from as int]);
            }
        }
        if c.add_edge {
            let local = match c.kind {
                CallNodeKind::LocalFn(_, _) => true,
                CallNodeKind::NonLocalFn(_) => false,
            };
            let def_id = c.kind.def_id();
            match find_node(&g, c.kind) {
                Some(node) => {
                    let ghost i = choose|i: int| 0 <= i < g.nodes@.len() && g.nodes@[i] == node && #[trigger] g.nodes@[i].kind.same_fn(c.kind);
                    g.add_edge(CallEdge::new(from, node.id(), c.call_id, c.propagates));
                    proof {
                        assert(g.edges@.drop_last() =~= g0.edges@);
                        assert(g0.nodes@[i].id == i);
                        lemma_add_edge(p, g0, g, j as int);
                        lemma_grow_keeps(p, g0, g);
                        assert(graph.edges@.is_prefix_of(g.edges@)) by {
                            assert(g.edges@.subrange(0, graph.edges@.len() as int) =~= g0.edges@.subrange(0, graph.edges@.len() as int));
                        }
                        assert(g0.edges@.is_prefix_of(g.edges@)) by {
                            assert(g.edges@.subrange(0, g0.edges@.len() as int) =~= g0.edges@);
                        }
                        assert(g0.nodes@.is_prefix_of(g.nodes@)) by {
                            assert(g.nodes@.subrange(0, g0.nodes@.len() as int) =~= g0.nodes@);
                        }
                        assert(g.edges@ == g0.edges@.push(g.edges@.last()));
                        assert(g.edges@[g0.edges@.len() as int] == g.edges@.last());
                        if g.nodes@.len() < NODE_LIMIT {
                            lemma_exact_push(g0, g, from, edge_calls(calls@.take(j as int)), c);
                            assert forall|i: int| graph.nodes@.len() <= i < g.nodes@.len() implies node_exact(p, g, i) by {
                                assert(node_exact(p, g0, i));
                                lemma_exact_keeps(g0, g, i as usize, edge_calls(body_calls(p, g0.nodes@[i])));
                            }
                        }
                        if g.nodes@.len() < NODE_LIMIT {
                            assert forall|jj: int| 0 <= jj < j + 1 && (#[trigger] calls@[jj]).add_edge implies exists|k: int|
                                0 <= k < g.edges@.len() && g.edges@[k].from == from && records(
                                    g.edges@[k],
                                    g.nodes@[g.edges@[k].to as int],
                                    calls@[jj],
                                ) by {
                                if jj < j {
                                    let k = choose|k: int| 0 <= k < g0.edges@.len() && g0.edges@[k].from == from && records(
                                        g0.edges@[k],
                                        g0.nodes@[g0.edges@[k].to as int],
                                        calls@[jj],
                                    );
                                    assert(g.edges@[k] == g0.edges@[k]);
                                } else {
                                    assert(g.edges@[g0.edges@.len() as int] == g.edges@.last());
                                }
                            }
                        }
                    }
                },
                None => {
                    if g.nodes.len() < NODE_LIMIT {
                        let label = def_path_str(context, def_id);
                        let id = g.add_node(label.as_str(), c.kind);
                        g.add_edge(CallEdge::new(from, id, c.call_id, c.propagates));
                        proof {
                            assert(g.edges@.drop_last() =~= g0.edges@);
                            assert(forall|i: int| 0 <= i < g0.nodes@.len() ==> !(#[trigger] g0.nodes@[i]).kind.same_fn(c.kind));
                            lemma_add_node_and_edge(p, g0, g, c, j as int);
                            assert(g0.nodes@.is_prefix_of(g.nodes@)) by {
                                assert(g.nodes@.subrange(0, g0.nodes@.len() as int) =~= g0.nodes@);
                            }
                            assert(g0.edges@.is_prefix_of(g.edges@)) by {
                                assert(g.edges@.subrange(0, g0.edges@.len() as int) =~= g0.edges@);
                            }
                            lemma_grow_keeps(p, g0, g);
                            assert(graph.nodes@.is_prefix_of(g.nodes@)) by {
                                assert(g.nodes@.subrange(0, graph.nodes@.len() as int) =~= g0.nodes@.subrange(0, graph.nodes@.len() as int));
                            }
                            assert(graph.edges@.is_prefix_of(g.edges@)) by {
                                assert(g.edges@.subrange(0, graph.edges@.len() as int) =~= g0.edges@.subrange(0, graph.edges@.len() as int));
                            }
                            assert(g.nodes@[id as int] == g.nodes@.last());
                            assert(g.edges@[g0.edges@.len() as int] == g.edges@.last());
                            lemma_unexplored(p.bodies@, g0.nodes@, g.nodes@, HirId { owner: 0, local_id: 0 });
                            assert(g.edges@ == g0.edges@.push(g.edges@.last()));
                            if g.nodes@.len() < NODE_LIMIT {
                                lemma_exact_push(g0, g, from, edge_calls(calls@.take(j as int)), c);
                                assert forall|i: int| graph.nodes@.len() <= i < g0.nodes@.len() implies node_exact(p, g, i) by {
                                    assert(node_exact(p, g0, i));
                                    assert(g.nodes@[i] == g0.nodes@[i]);
                                    lemma_exact_keeps(g0, g, i as usize, edge_calls(body_calls(p, g0.nodes@[i])));
                                }
                            }
                            assert forall|k: int| 0 <= k < g.edges@.len() implies (#[trigger] g.edges@[k]).from != id by {
                                if k < g0.edges@.len() {
                                    assert(g.edges@[k] == g0.edges@[k]);
                                }
                            }
                            lemma_outgoing_extend(Seq::<CallEdge>::empty(), g.edges@, id);
                        }
                        let ghost g2 = g;
                        let mut walked = false;
                        if local {
                            if let CallNodeKind::LocalFn(_, hir_id) = c.kind {
                                if let Some(body) = context.body_of(hir_id) {
                                    proof {
                                        assert forall|i: int| 0 <= i < g0.nodes@.len() implies !(#[trigger] g0.nodes@[i]).kind.same_fn(
                                            CallNodeKind::LocalFn(DefId { krate: 0, index: 0 }, hir_id)) by {
                                            assert(!g0.nodes@[i].kind.same_fn(c.kind));
                                        }
                                        assert(!has_local_node(g0.nodes@, hir_id));
                                        assert(g.nodes@[id as int].kind.same_fn(
                                            CallNodeKind::LocalFn(DefId { krate: 0, index: 0 }, hir_id),
                                        ));
                                        assert(has_local_node(g.nodes@, hir_id));
                                        lemma_unexplored(p.bodies@, g0.nodes@, g.nodes@, hir_id);
                                    }
                                    g = add_calls_from_block(context, id, &body.block, g);
                                    walked = true;
                                    proof {
                                        if g.nodes@.len() < NODE_LIMIT {
                                            assert forall|k: int| g2.edges@.len() <= k < g.edges@.len() implies (#[trigger] g.edges@[k]).from != from by {}
                                            lemma_exact_keeps(g2, g, from, edge_calls(calls@.take(j + 1)));
                                            assert forall|i: int| graph.nodes@.len() <= i < g2.nodes@.len() - 1 implies node_exact(p, g, i) by {
                                                assert(node_exact(p, g2, i));
                                                assert(g.nodes@[i] == g2.nodes@[i]);
                                                assert forall|k: int| g2.edges@.len() <= k < g.edges@.len() implies (#[trigger] g.edges@[k]).from != i as usize by {}
                                                lemma_exact_keeps(g2, g, i as usize, edge_calls(body_calls(p, g2.nodes@[i])));
                                            }
                                        }
                                        lemma_grow_keeps(p, g2, g);
                                        lemma_unexplored(p.bodies@, g2.nodes@, g.nodes@, hir_id);
                                        assert(graph.nodes@.is_prefix_of(g.nodes@)) by {
                                            assert(g.nodes@.subrange(0, graph.nodes@.len() as int) =~= g2.nodes@.subrange(0, graph.nodes@.len() as int));
                                        }
                                        assert(graph.edges@.is_prefix_of(g.edges@)) by {
                                            assert(g.edges@.subrange(0, graph.edges@.len() as int) =~= g2.edges@.subrange(0, graph.edges@.len() as int));
                                        }
                                    }
                                }
                            }
                        }
                        proof {
                            if !walked {
                                assert(g == g2);
                                assert(node_complete(p, g, id as int)) by {
                                    assert(body_calls(p, g.nodes@[id as int]).len() == 0);
                                }
                                assert(node_exact(p, g, id as int)) by {
                                    assert(body_calls(p, g.nodes@[id as int]).len() == 0);
                                    assert(edge_calls(body_calls(p, g.nodes@[id as int])) =~= Seq::<FoundCall>::empty());
                                }
                            }
                            lemma_grow_keeps(p, g2, g);
                            assert(g.nodes@[from as int] == g0.nodes@[from as int]);
                            if g.nodes@.len() < NODE_LIMIT {
                                assert forall|jj: int| 0 <= jj < j + 1 && (#[trigger] calls@[jj]).add_edge implies exists|k: int|
                                    0 <= k < g.edges@.len() && g.edges@[k].from == from && records(
                                        g.edges@[k],
                                        g.nodes@[g.edges@[k].to as int],
                                        calls@[jj],
                                    ) by {
                                    if jj < j {
                                        let k = choose|k: int| 0 <= k < g0.edges@.len() && g0.edges@[k].from == from && records(
                                            g0.edges@[k],
                                            g0.nodes@[g0.edges@[k].to as int],
                                            calls@[jj],
                                        );
                                        assert(g.edges@[k] == g0.edges@[k]);
                                        assert(g.nodes@[g0.edges@[k].to as int] == g0.nodes@[g0.edges@[k].to as int]);
                                    } else {
                                        let k = g0.edges@.len() as int;
                                        assert(g.edges@[k] == g2.edges@[k]);
                                        assert(g.nodes@[id as int] == g2.nodes@[id as int]);
                                    }
                                }
                                assert forall|i: int| graph.nodes@.len() <= i < g.nodes@.len() implies node_complete(p, g, i) by {
                                    if i < g0.nodes@.len() {
                                        assert(node_complete(p, g0, i));
                                    }
                                }
                                assert forall|i: int| graph.nodes@.len() <= i < g.nodes@.len() implies node_exact(p, g, i) by {
                                    if i < g0.nodes@.len() {
                                        assert(node_exact(p, g2, i));
                                    }
                                }
                            }
                        }
                    }
                },
            }
        }
        j = j + 1;
    }
    proof {
        if g.nodes@.len() < NODE_LIMIT {
            assert forall|jj: int|
                0 <= jj < body_calls(p, g.nodes@[from as int]).len() && (#[trigger] body_calls(p, g.nodes@[from as int])[jj]).add_edge
                implies exists|k: int|
                0 <= k < g.edges@.len() && g.edges@[k].from == from && records(
                    g.edges@[k],
                    g.nodes@[g.edges@[k].to as int],
                    body_calls(p, g.nodes@[from as int])[jj],
                ) by {
                assert(calls@[jj] == body_calls(p, g.nodes@[from as int])[jj]);
            }
            assert(calls@.take(j as int) =~= calls@);
        }
    }
    g
}

/// Add the calls in the body of `fn_id`, the function of node `from_node`,
/// and walk every local function met for the first time.
fn add_calls_from_function(context: &Program, from_node: usize, fn_id: HirId, graph: CallGraph) -> (r:
    CallGraph)
    requires
        build_inv(*context, graph),
        from_node < graph.nodes@.len(),
        graph.nodes@.len() <= NODE_LIMIT,
        graph.nodes@[from_node as int].kind matches CallNodeKind::LocalFn(_, h) && h == fn_id,
        unannotated(graph),
        outgoing(graph.edges@, from_node).len() == 0,
    ensures
        build_inv(*context, r),
        grows(graph, r),
        unannotated(r),
        r.nodes@.len() < NODE_LIMIT ==> node_exact(*context, r, from_node as int) && forall|i: int|
            graph.nodes@.len() <= i < r.nodes@.len() ==> node_exact(*context, r, i),
        r.nodes@.len() <= NODE_LIMIT,
        r.nodes@.len() < NODE_LIMIT ==> node_complete(*context, r, from_node as int) && forall|i: int|
            graph.nodes@.len() <= i < r.nodes@.len() ==> node_complete(*context, r, i),
{
    match context.body_of(fn_id) {
        Some(body) => add_calls_from_block(context, from_node, &body.block, graph),
        None => {
            proof {
                assert(graph.nodes@.is_prefix_of(graph.nodes@)) by {
                    assert(graph.nodes@.subrange(0, graph.nodes@.len() as int) =~= graph.nodes@);
                }
                assert(graph.edges@.is_prefix_of(graph.edges@)) by {
                    assert(graph.edges@.subrange(0, graph.edges@.len() as int) =~= graph.edges@);
                }
                assert(body_calls(*context, graph.nodes@[from_node as int]).len() == 0);
                assert(edge_calls(body_calls(*context, graph.nodes@[from_node as int])) =~= Seq::<FoundCall>::empty());
            }
            graph
        },
    }
}

/// `g` is the call graph of program `p` from `entry`: the walk's facts hold,
/// its first node is the entry function, and every node's calls that make an
/// edge are recorded, each by exactly one edge out of it.
pub open spec fn is_call_graph_of(p: Program, entry: DefId, g: CallGraph) -> bool {
    &&& build_inv(p, g)
    &&& g.nodes@.len() > 0
    &&& g.nodes@[0].kind == CallNodeKind::LocalFn(entry, local_hir(p, entry))
    &&& g.crate_name@ == p.crate_name@
    &&& forall|i: int| 0 <= i < g.nodes@.len() ==> #[trigger] node_complete(p, g, i)
    &&& forall|i: int| 0 <= i < g.nodes@.len() ==> #[trigger] node_exact(p, g, i)
}

/// Two nodes for the same function have the same calls in their bodies.
pub proof fn lemma_same_fn_same_calls(p: Program, a: CallNode, b: CallNode)
    requires
        a.kind.same_fn(b.kind),
    ensures
        body_calls(p, a) == body_calls(p, b),
{
}

/// Every node of one call graph stands for a function that has a node in any
/// other call graph of the same program and entry.
pub proof fn lemma_node_in_both(p: Program, entry: DefId, g1: CallGraph, g2: CallGraph, i: int)
    requires
        is_call_graph_of(p, entry, g1),
        is_call_graph_of(p, entry, g2),
        0 <= i < g1.nodes@.len(),
    ensures
        exists|i2: int| 0 <= i2 < g2.nodes@.len() && g1.nodes@[i].kind.same_fn(#[trigger] g2.nodes@[i2].kind),
    decreases i,
{
    if i == 0 {
        assert(g1.nodes@[0].kind.same_fn(g2.nodes@[0].kind));
    } else {
        assert(reached(g1, i));
        let k = choose|k: int| 0 <= k < g1.edges@.len() && (#[trigger] g1.edges@[k]).to == i && g1.edges@[k].from < i;
        let f = g1.edges@[k].from as int;
        lemma_node_in_both(p, entry, g1, g2, f);
        let f2 = choose|i2: int| 0 <= i2 < g2.nodes@.len() && g1.nodes@[f].kind.same_fn(#[trigger] g2.nodes@[i2].kind);
        let j = choose|j: int|
            0 <= j < body_calls(p, g1.nodes@[f]).len() && records(
                g1.edges@[k],
                g1.nodes@[g1.edges@[k].to as int],
                body_calls(p, g1.nodes@[f])[j],
            );
        lemma_same_fn_same_calls(p, g1.nodes@[f], g2.nodes@[f2]);
        let c = body_calls(p, g1.nodes@[f])[j];
        assert(node_complete(p, g2, f2));
        assert(body_calls(p, g2.nodes@[f2])[j] == c);
        let k2 = choose|k2: int|
            0 <= k2 < g2.edges@.len() && g2.edges@[k2].from == f2 && records(
                g2.edges@[k2],
                g2.nodes@[g2.edges@[k2].to as int],
                c,
            );
        let t2 = g2.edges@[k2].to as int;
        assert(g1.nodes@[i].kind.same_fn(g2.nodes@[t2].kind));
    }
}

/// Determinism of the call graph: any two call graphs of one program from one
/// entry function have nodes for the same functions, and each edge of one has
/// an edge in the other between the same functions, for the same call site,
/// that forwards its result alike.
pub proof fn lemma_call_graph_deterministic(p: Program, entry: DefId, g1: CallGraph, g2: CallGraph)
    requires
        is_call_graph_of(p, entry, g1),
        is_call_graph_of(p, entry, g2),
    ensures
        forall|i: int|
            0 <= i < g1.nodes@.len() ==> exists|i2: int|
                0 <= i2 < g2.nodes@.len() && (#[trigger] g1.nodes@[i]).kind.same_fn(
                    #[trigger] g2.nodes@[i2].kind,
                ),
        forall|i2: int|
            0 <= i2 < g2.nodes@.len() ==> exists|i: int|
                0 <= i < g1.nodes@.len() && (#[trigger] g2.nodes@[i2]).kind.same_fn(
                    #[trigger] g1.nodes@[i].kind,
                ),
        forall|k: int|
            0 <= k < g1.edges@.len() ==> exists|k2: int|
                0 <= k2 < g2.edges@.len() && (#[trigger] g1.edges@[k]).call_id == (
                #[trigger] g2.edges@[k2]).call_id && g1.edges@[k].propagates
                    == g2.edges@[k2].propagates && g1.nodes@[g1.edges@[k].from as int].kind.same_fn(
                    g2.nodes@[g2.edges@[k2].from as int].kind,
                ) && g1.nodes@[g1.edges@[k].to as int].kind.same_fn(
                    g2.nodes@[g2.edges@[k2].to as int].kind,
                ),
{
    assert forall|i: int| 0 <= i < g1.nodes@.len() implies exists|i2: int|
        0 <= i2 < g2.nodes@.len() && (#[trigger] g1.nodes@[i]).kind.same_fn(
            #[trigger] g2.nodes@[i2].kind,
        ) by {
        lemma_node_in_both(p, entry, g1, g2, i);
    }
    assert forall|i2: int| 0 <= i2 < g2.nodes@.len() implies exists|i: int|
        0 <= i < g1.nodes@.len() && (#[trigger] g2.nodes@[i2]).kind.same_fn(
            #[trigger] g1.nodes@[i].kind,
        ) by {
        lemma_node_in_both(p, entry, g2, g1, i2);
    }
    assert forall|k: int| 0 <= k < g1.edges@.len() implies exists|k2: int|
        0 <= k2 < g2.edges@.len() && (#[trigger] g1.edges@[k]).call_id == (
        #[trigger] g2.edges@[k2]).call_id && g1.edges@[k].propagates == g2.edges@[k2].propagates
            && g1.nodes@[g1.edges@[k].from as int].kind.same_fn(
            g2.nodes@[g2.edges@[k2].from as int].kind,
        ) && g1.nodes@[g1.edges@[k].to as int].kind.same_fn(
            g2.nodes@[g2.edges@[k2].to as int].kind,
        ) by {
        lemma_edge_in_both(p, entry, g1, g2, k);
    }
}

/// Every edge of one call graph has a counterpart in any other call graph of
/// the same program and entry.
pub proof fn lemma_edge_in_both(p: Program, entry: DefId, g1: CallGraph, g2: CallGraph, k: int)
    requires
        is_call_graph_of(p, entry, g1),
        is_call_graph_of(p, entry, g2),
        0 <= k < g1.edges@.len(),
    ensures
        exists|k2: int|
            0 <= k2 < g2.edges@.len() && g1.edges@[k].call_id == (#[trigger] g2.edges@[k2]).call_id
                && g1.edges@[k].propagates == g2.edges@[k2].propagates && g1.nodes@[g1.edges@[
                k
            ].from as int].kind.same_fn(g2.nodes@[g2.edges@[k2].from as int].kind) && g1.nodes@[
                g1.edges@[k].to as int
            ].kind.same_fn(g2.nodes@[g2.edges@[k2].to as int].kind),
{
        let f = g1.edges@[k].from as int;
    lemma_node_in_both(p, entry, g1, g2, f);
    let f2 = choose|i2: int| 0 <= i2 < g2.nodes@.len() && g1.nodes@[f].kind.same_fn(#[trigger] g2.nodes@[i2].kind);
    let j = choose|j: int|
        0 <= j < body_calls(p, g1.nodes@[f]).len() && records(
            g1.edges@[k],
            g1.nodes@[g1.edges@[k].to as int],
            body_calls(p, g1.nodes@[f])[j],
        );
    lemma_same_fn_same_calls(p, g1.nodes@[f], g2.nodes@[f2]);
    let c = body_calls(p, g1.nodes@[f])[j];
    assert(node_complete(p, g2, f2));
    assert(body_calls(p, g2.nodes@[f2])[j] == c);
    let k2 = choose|k2: int|
        0 <= k2 < g2.edges@.len() && g2.edges@[k2].from == f2 && records(
            g2.edges@[k2],
            g2.nodes@[g2.edges@[k2].to as int],
            c,
        );
    assert(g1.nodes@[g1.edges@[k].to as int].kind.same_fn(g2.nodes@[g2.edges@[k2].to as int].kind));
}

/// No duplicate nodes: in a call graph, every call that makes an edge, from
/// the body of any node, has exactly one node for the function it resolves
/// to.
pub proof fn lemma_one_node_per_function(p: Program, entry: DefId, g: CallGraph, i: int, j: int)
    requires
        is_call_graph_of(p, entry, g),
        0 <= i < g.nodes@.len(),
        0 <= j < body_calls(p, g.nodes@[i]).len(),
        body_calls(p, g.nodes@[i])[j].add_edge,
    ensures
        exists|t: int|
            0 <= t < g.nodes@.len() && (#[trigger] g.nodes@[t]).kind.same_fn(
                body_calls(p, g.nodes@[i])[j].kind,
            ),
        forall|t1: int, t2: int|
            0 <= t1 < g.nodes@.len() && 0 <= t2 < g.nodes@.len() && (#[trigger] g.nodes@[
                t1
            ]).kind.same_fn(body_calls(p, g.nodes@[i])[j].kind) && (#[trigger] g.nodes@[
                t2
            ]).kind.same_fn(body_calls(p, g.nodes@[i])[j].kind) ==> t1 == t2,
{
    let c = body_calls(p, g.nodes@[i])[j];
    assert(node_complete(p, g, i));
    let k = choose|k: int|
        0 <= k < g.edges@.len() && g.edges@[k].from == i && records(
            g.edges@[k],
            g.nodes@[g.edges@[k].to as int],
            c,
        );
    assert(g.nodes@[g.edges@[k].to as int].kind.same_fn(c.kind));
    assert forall|t1: int, t2: int|
        0 <= t1 < g.nodes@.len() && 0 <= t2 < g.nodes@.len() && (#[trigger] g.nodes@[
            t1
        ]).kind.same_fn(c.kind) && (#[trigger] g.nodes@[t2]).kind.same_fn(c.kind) implies t1
        == t2 by {
        if t1 != t2 {
            assert(!g.nodes@[t1].kind.same_fn(g.nodes@[t2].kind));
        }
    }
}

/// Determinism of the edges: in two call graphs of one program from one
/// entry function, the nodes of one function have the same edges out of them,
/// one for one and in order: for the same call sites, forwarding alike, to
/// nodes of the same functions.
pub proof fn lemma_outgoing_match(p: Program, entry: DefId, g1: CallGraph, g2: CallGraph, i1: int, i2: int)
    requires
        is_call_graph_of(p, entry, g1),
        is_call_graph_of(p, entry, g2),
        0 <= i1 < g1.nodes@.len(),
        0 <= i2 < g2.nodes@.len(),
        g1.nodes@[i1].kind.same_fn(g2.nodes@[i2].kind),
    ensures
        outgoing(g1.edges@, i1 as usize).len() == outgoing(g2.edges@, i2 as usize).len(),
        forall|m: int|
            0 <= m < outgoing(g1.edges@, i1 as usize).len() ==> {
                let e1 = #[trigger] outgoing(g1.edges@, i1 as usize)[m];
                let e2 = outgoing(g2.edges@, i2 as usize)[m];
                &&& e1.call_id == e2.call_id
                &&& e1.propagates == e2.propagates
                &&& g1.nodes@[e1.to as int].kind.same_fn(g2.nodes@[e2.to as int].kind)
            },
{
    assert(node_exact(p, g1, i1));
    assert(node_exact(p, g2, i2));
    lemma_same_fn_same_calls(p, g1.nodes@[i1], g2.nodes@[i2]);
}

/// What building the call graph of `p` from `entry` gives: the walk's facts,
/// the entry function first, no edge annotated yet, and, short of the node
/// limit, exactly the call graph.
pub open spec fn built_from(p: Program, entry: DefId, r: CallGraph) -> bool {
    &&& build_inv(p, r)
    &&& r.nodes@.len() > 0
    &&& r.nodes@[0].kind == CallNodeKind::LocalFn(entry, local_hir(p, entry))
    &&& r.crate_name@ == p.crate_name@
    &&& r.nodes@.len() <= NODE_LIMIT
    &&& r.nodes@.len() < NODE_LIMIT ==> is_call_graph_of(p, entry, r)
    &&& unannotated(r)
}

/// Create the call graph of `context` from its entry function `entry`.
///
/// Short of the node limit, which no real program reaches, the graph is
/// exactly the call graph: see `is_call_graph_of`.
pub fn create_call_graph_from_root(context: &Program, entry: DefId) -> (r: CallGraph)
    ensures
        build_inv(*context, r),
        r.nodes@.len() > 0,
        r.nodes@[0].kind == CallNodeKind::LocalFn(entry, local_hir(*context, entry)),
        r.crate_name@ == context.crate_name@,
        r.nodes@.len() <= NODE_LIMIT,
        r.nodes@.len() < NODE_LIMIT ==> is_call_graph_of(*context, entry, r),
        unannotated(r),
        built_from(*context, entry, r),
{
    let mut graph = CallGraph::new(context.crate_name.clone());
    let hir_id = local_def_id_to_hir_id(context, entry);
    let node = CallNodeKind::local_fn(entry, hir_id);
    let label = def_path_str(context, entry);
    let node_id = graph.add_node(label.as_str(), node);
    proof {
        assert(graph.nodes@[0] == graph.nodes@.last());
        assert(graph.distinct_nodes());
        assert(nodes_reached(graph));
        assert(outgoing(graph.edges@, node_id) =~= Seq::<CallEdge>::empty());
    }
    let r = add_calls_from_function(context, node_id, hir_id, graph);
    proof {
        assert(r.nodes@[0] == graph.nodes@[0]) by {
            assert(graph.nodes@[0] == r.nodes@.subrange(0, graph.nodes@.len() as int)[0]);
        }
        if r.nodes@.len() < NODE_LIMIT {
            assert forall|i: int| 0 <= i < r.nodes@.len() implies #[trigger] node_complete(*context, r, i) by {
                if i > 0 {
                    assert(graph.nodes@.len() <= i);
                }
            }
            assert forall|i: int| 0 <= i < r.nodes@.len() implies #[trigger] node_exact(*context, r, i) by {
                if i > 0 {
                    assert(graph.nodes@.len() <= i);
                }
            }
        }
    }
    r
}

} // verus!
