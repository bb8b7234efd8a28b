//! The whole analysis: call graph from the entry function, return types on
//! its edges, then the error propagation chains.

use vstd::prelude::*;
use crate::builder::{
    body_calls, build_inv, create_call_graph_from_root, edge_calls, is_call_graph_of, node_complete,
    node_exact, reached, records, built_from, NODE_LIMIT,
};
use crate::chains::{
    all_chain_edges, all_chain_nodes, chain_stats, copies_edge, edges_in_block, starts_chain,
    to_chains, ChainStats,
};
use crate::graph::{outgoing, CallEdge, CallGraph, ChainGraph};
use crate::ir::{DefId, Program};
use crate::types::{error_or_type, get_error_or_type};

verus! {

/// Why the analysis could not run.
#[derive(Debug, Clone, Copy, PartialEq, Eq, Structural)]
pub enum AnalysisError {
    /// The program has no entry function, or it is not defined in the program.
    NoEntryPoint,
}

/// Edge `e` of a graph with nodes `nodes` carries the return type label and
/// error flag of its call.
pub open spec fn edge_annotated(p: Program, nodes: Seq<crate::graph::CallNode>, e: CallEdge) -> bool {
    let (label, is_error) = error_or_type(
        p,
        e.call_id,
        nodes[e.from as int].kind.spec_def_id(),
        nodes[e.to as int].kind.spec_def_id(),
    );
    &&& e.ty matches Some(t) && t@ == label
    &&& e.is_error == is_error
}

/// `g` is `g0` with every edge annotated: the same nodes, and the same edges
/// but for their type label and error flag.
pub open spec fn annotation_of(p: Program, g0: CallGraph, g: CallGraph) -> bool {
    &&& g.nodes == g0.nodes
    &&& g.crate_name == g0.crate_name
    &&& g.edges@.len() == g0.edges@.len()
    &&& forall|k: int|
        0 <= k < g.edges@.len() ==> {
            &&& (#[trigger] g.edges@[k]).from == g0.edges@[k].from
            &&& g.edges@[k].to == g0.edges@[k].to
            &&& g.edges@[k].call_id == g0.edges@[k].call_id
            &&& g.edges@[k].propagates == g0.edges@[k].propagates
            &&& edge_annotated(p, g.nodes@, g.edges@[k])
        }
}

/// Two edge lists that agree edge for edge on ends, call site and
/// forwarding agree in the same way on the edges out of `i`.
pub proof fn lemma_outgoing_same_calls(e0: Seq<CallEdge>, e1: Seq<CallEdge>, i: usize)
    requires
        e0.len() == e1.len(),
        forall|k: int|
            0 <= k < e0.len() ==> (#[trigger] e1[k]).from == e0[k].from && e1[k].to == e0[k].to
                && e1[k].call_id == e0[k].call_id && e1[k].propagates == e0[k].propagates,
    ensures
        outgoing(e1, i).len() == outgoing(e0, i).len(),
        forall|m: int|
            0 <= m < outgoing(e0, i).len() ==> (#[trigger] outgoing(e1, i)[m]).to == outgoing(
                e0,
                i,
            )[m].to && outgoing(e1, i)[m].call_id == outgoing(e0, i)[m].call_id && outgoing(
                e1,
                i,
            )[m].propagates == outgoing(e0, i)[m].propagates,
    decreases e0.len(),
{
    if e0.len() > 0 {
        assert(e1.last() == e1[e1.len() - 1]);
        assert(e0.last() == e0[e0.len() - 1]);
        lemma_outgoing_same_calls(e0.drop_last(), e1.drop_last(), i);
    }
}

/// `g` is the call graph built from `entry`, with every edge annotated.
pub open spec fn annotated_build(p: Program, entry: DefId, g: CallGraph) -> bool {
    exists|g0: CallGraph| built_from(p, entry, g0) && #[trigger] annotation_of(p, g0, g)
}

/// Annotating the edges keeps a call graph a call graph.
pub proof fn lemma_annotation_keeps(p: Program, entry: DefId, g0: CallGraph, g: CallGraph)
    requires
        annotation_of(p, g0, g),
        build_inv(p, g0),
    ensures
        build_inv(p, g),
        is_call_graph_of(p, entry, g0) ==> is_call_graph_of(p, entry, g),
{
    assert forall|k: int| 0 <= k < g.edges@.len() implies exists|j: int|
        0 <= j < body_calls(p, g.nodes@[(#[trigger] g.edges@[k]).from as int]).len() && records(
            g.edges@[k],
            g.nodes@[g.edges@[k].to as int],
            body_calls(p, g.nodes@[g.edges@[k].from as int])[j],
        ) by {
        assert(g0.edges@[k].from == g.edges@[k].from);
        let j = choose|j: int|
            0 <= j < body_calls(p, g0.nodes@[g0.edges@[k].from as int]).len() && records(
                g0.edges@[k],
                g0.nodes@[g0.edges@[k].to as int],
                body_calls(p, g0.nodes@[g0.edges@[k].from as int])[j],
            );
    }
    assert forall|i: int| 0 < i < g.nodes@.len() implies #[trigger] reached(g, i) by {
        assert(reached(g0, i));
        let k = choose|k: int|
            0 <= k < g0.edges@.len() && (#[trigger] g0.edges@[k]).to == i && g0.edges@[k].from < i;
        assert(g.edges@[k].to == g0.edges@[k].to);
    }
    if is_call_graph_of(p, entry, g0) {
        assert forall|i: int| 0 <= i < g.nodes@.len() implies #[trigger] node_exact(p, g, i) by {
            assert(node_exact(p, g0, i));
            lemma_outgoing_same_calls(g0.edges@, g.edges@, i as usize);
            let out0 = outgoing(g0.edges@, i as usize);
            let out = outgoing(g.edges@, i as usize);
            let cs = edge_calls(body_calls(p, g.nodes@[i]));
            assert forall|m: int| 0 <= m < out.len() implies records(#[trigger] out[m], g.nodes@[out[m].to as int], cs[m]) by {
                assert(records(out0[m], g0.nodes@[out0[m].to as int], cs[m]));
            }
        }
        assert forall|i: int| 0 <= i < g.nodes@.len() implies #[trigger] node_complete(p, g, i) by {
            assert(node_complete(p, g0, i));
            assert forall|j: int|
                0 <= j < body_calls(p, g.nodes@[i]).len() && (#[trigger] body_calls(
                    p,
                    g.nodes@[i],
                )[j]).add_edge implies exists|k: int|
                0 <= k < g.edges@.len() && g.edges@[k].from == i && records(
                    g.edges@[k],
                    g.nodes@[g.edges@[k].to as int],
                    body_calls(p, g.nodes@[i])[j],
                ) by {
                let k = choose|k: int|
                    0 <= k < g0.edges@.len() && g0.edges@[k].from == i && records(
                        g0.edges@[k],
                        g0.nodes@[g0.edges@[k].to as int],
                        body_calls(p, g0.nodes@[i])[j],
                    );
                assert(g.edges@[k].from == g0.edges@[k].from);
            }
        }
    }
}

/// Label every edge of `graph` with its callee's return type, or the error
/// type that return type carries, and whether it carries one.
pub fn annotate(context: &Program, graph: CallGraph) -> (r: CallGraph)
    requires
        graph.wf(),
    ensures
        annotation_of(*context, graph, r),
        r.wf(),
{
    let mut edges: Vec<CallEdge> = Vec::new();
    let mut k: usize = 0;
    while k < graph.edges.len()
        invariant
            graph.wf(),
            k <= graph.edges@.len(),
            edges@.len() == k,
            forall|m: int|
                0 <= m < k ==> {
                    &&& (#[trigger] edges@[m]).from == graph.edges@[m].from
                    &&& edges@[m].to == graph.edges@[m].to
                    &&& edges@[m].call_id == graph.edges@[m].call_id
                    &&& edges@[m].propagates == graph.edges@[m].propagates
                    &&& edge_annotated(*context, graph.nodes@, edges@[m])
                },
        decreases graph.edges@.len() - k,
    {
        let e = &graph.edges[k];
        let (ty, is_error) = get_error_or_type(
            context,
            e.call_id,
            graph.nodes[e.from].kind.def_id(),
            graph.nodes[e.to].kind.def_id(),
        );
        edges.push(
            CallEdge {
                from: e.from,
                to: e.to,
                call_id: e.call_id,
                ty: Some(ty),
                propagates: e.propagates,
                is_error,
            },
        );
        k = k + 1;
    }
    CallGraph { nodes: graph.nodes, edges, crate_name: graph.crate_name }
}

/// The entry function of the program, which must be defined in it.
pub fn get_entry_node(context: &Program) -> (r: Result<DefId, AnalysisError>)
    ensures
        r matches Ok(d) ==> context.entry == Some(d) && d.spec_is_local(),
        r is Err <==> !(context.entry matches Some(d) && d.spec_is_local()),
{
    match context.entry {
        Some(d) => if d.is_local() {
            Ok(d)
        } else {
            Err(AnalysisError::NoEntryPoint)
        },
        None => Err(AnalysisError::NoEntryPoint),
    }
}

/// Analyse a program: build its call graph from the entry function, label
/// the edges with return types, and split the graph into error propagation
/// chains.
///
/// Fails with `NoEntryPoint` exactly when the program has no local entry
/// function.
pub fn analyze(context: &Program) -> (r: Result<(CallGraph, ChainGraph, ChainStats), AnalysisError>)
    ensures
        r is Err <==> !(context.entry matches Some(d) && d.spec_is_local()),
        r matches Err(e) ==> e == AnalysisError::NoEntryPoint,
        r matches Ok((g, chains, stats)) ==> {
            &&& annotated_build(*context, context.entry->0, g)
            &&& build_inv(*context, g)
            &&& g.nodes@.len() <= NODE_LIMIT
            &&& g.nodes@.len() < NODE_LIMIT ==> is_call_graph_of(*context, context.entry->0, g)
            &&& forall|k: int|
                0 <= k < g.edges@.len() ==> edge_annotated(*context, g.nodes@, #[trigger] g.edges@[k])
            &&& chains.wf()
            &&& chains.crate_name == g.crate_name
            &&& 2 * all_chain_edges(g).len() < usize::MAX ==> {
                &&& stats == chain_stats(g)
                &&& chains.edges@.len() == all_chain_edges(g).len()
                &&& forall|j: int|
                    0 <= j < chains.edges@.len() ==> copies_edge(
                        chains,
                        j,
                        g,
                        #[trigger] all_chain_edges(g)[j],
                    )
                &&& chains.nodes@.len() == all_chain_nodes(g).len()
                &&& forall|i: int|
                    0 <= i < chains.nodes@.len() ==> (#[trigger] chains.nodes@[i]).label@
                        == g.nodes@[all_chain_nodes(g)[i] as int].label@
                &&& forall|j: int|
                    0 <= j < chains.edges@.len() ==> all_chain_nodes(g)[(
                    #[trigger] chains.edges@[j]).from as int] == all_chain_edges(g)[j].from
                        && all_chain_nodes(g)[chains.edges@[j].to as int] == all_chain_edges(
                        g,
                    )[j].to
                &&& forall|k: int|
                    0 <= k < g.edges@.len() && starts_chain(#[trigger] g.edges@[k])
                        ==> edges_in_block(chains, g, k)
            }
        },
{
    let entry = match get_entry_node(context) {
        Ok(d) => d,
        Err(e) => return Err(e),
    };
    let raw = create_call_graph_from_root(context, entry);
    let graph = annotate(context, raw);
    proof {
        lemma_annotation_keeps(*context, entry, raw, graph);
        assert(built_from(*context, context.entry->0, raw) && annotation_of(*context, raw, graph));
        assert(annotated_build(*context, context.entry->0, graph));
    }
    let (chains, stats) = to_chains(&graph);
    Ok((graph, chains, stats))
}

} // verus!
