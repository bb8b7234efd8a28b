//! Splitting an annotated call graph into error propagation chains.
//!
//! A chain starts at a call whose result is an error that the caller does not
//! forward, and goes on through every call from there that both returns an
//! error and forwards it.

use vstd::prelude::*;
use crate::render::{call_ends, touched};
use crate::graph::{copy_label, lemma_outgoing_members, outgoing, CallEdge, CallGraph, ChainGraph};

verus! {

/// An error is produced here and the caller does not pass it on.
pub open spec fn starts_chain(e: CallEdge) -> bool {
    e.is_error && !e.propagates
}

/// An error is produced here and the caller passes it on.
pub open spec fn extends_chain(e: CallEdge) -> bool {
    e.is_error && e.propagates
}

/// Whether some edge of `es` joins the same two nodes as `e`.
pub open spec fn has_same_ends(es: Seq<CallEdge>, e: CallEdge) -> bool {
    exists|k: int| 0 <= k < es.len() && (#[trigger] es[k]).from == e.from && es[k].to == e.to
}

/// The edges found past `from`, and the deepest level reached, when the nodes
/// in `path` have already been entered and `from` sits at level `depth`.
///
/// Every forwarding error edge out of `from.to` is recorded; its target is
/// entered only if it is not on the path yet, no earlier edge between the same
/// two nodes was recorded here, and it is not `from` itself.
pub open spec fn chain_from(g: CallGraph, from: CallEdge, path: Seq<usize>, depth: nat) -> (Seq<
    CallEdge,
>, nat)
    decreases g.nodes@.len() - path.len(), 0nat,
{
    if path.len() >= g.nodes@.len() {
        (Seq::empty(), depth)
    } else {
        let outs = outgoing(g.edges@, from.to);
        chain_loop(g, from, path.push(from.to), depth, outs, outs.len())
    }
}

/// What `chain_from` has gathered after the first `i` edges of `outs`.
pub open spec fn chain_loop(
    g: CallGraph,
    from: CallEdge,
    visited: Seq<usize>,
    depth: nat,
    outs: Seq<CallEdge>,
    i: nat,
) -> (Seq<CallEdge>, nat)
    decreases g.nodes@.len() - visited.len(), i + 1,
{
    if i == 0 || i > outs.len() || visited.len() > g.nodes@.len() {
        (Seq::empty(), depth)
    } else {
        let (res, md) = chain_loop(g, from, visited, depth, outs, (i - 1) as nat);
        let e = outs[i - 1];
        if !extends_chain(e) {
            (res, md)
        } else if !visited.contains(e.to) && !has_same_ends(res, e) && !(e.from == from.from
            && e.to == from.to) {
            let (c, d) = chain_from(g, e, visited, depth + 1);
            (res.push(e) + c, if d > md {
                d
            } else {
                md
            })
        } else {
            (res.push(e), md)
        }
    }
}

/// Every edge that `chain_from` gathers is an edge of the graph that extends
/// a chain.
pub proof fn lemma_chain_edges(g: CallGraph, from: CallEdge, path: Seq<usize>, depth: nat)
    ensures
        forall|k: int|
            0 <= k < chain_from(g, from, path, depth).0.len() ==> g.edges@.contains(
                #[trigger] chain_from(g, from, path, depth).0[k],
            ) && extends_chain(chain_from(g, from, path, depth).0[k]),
    decreases g.nodes@.len() - path.len(), 0nat,
{
    if path.len() < g.nodes@.len() {
        let outs = outgoing(g.edges@, from.to);
        lemma_outgoing_members(g.edges@, from.to);
        lemma_loop_edges(g, from, path.push(from.to), depth, outs, outs.len());
        assert(chain_from(g, from, path, depth) == chain_loop(
            g,
            from,
            path.push(from.to),
            depth,
            outs,
            outs.len(),
        ));
    }
}

/// Every edge that `chain_loop` gathers from graph edges is an edge of the
/// graph that extends a chain.
pub proof fn lemma_loop_edges(
    g: CallGraph,
    from: CallEdge,
    visited: Seq<usize>,
    depth: nat,
    outs: Seq<CallEdge>,
    i: nat,
)
    requires
        forall|k: int| 0 <= k < outs.len() ==> g.edges@.contains(#[trigger] outs[k]),
    ensures
        forall|k: int|
            0 <= k < chain_loop(g, from, visited, depth, outs, i).0.len() ==> g.edges@.contains(
                #[trigger] chain_loop(g, from, visited, depth, outs, i).0[k],
            ) && extends_chain(chain_loop(g, from, visited, depth, outs, i).0[k]),
    decreases g.nodes@.len() - visited.len(), i + 1,
{
    if !(i == 0 || i > outs.len() || visited.len() > g.nodes@.len()) {
        lemma_loop_edges(g, from, visited, depth, outs, (i - 1) as nat);
        let e = outs[i - 1];
        let res = chain_loop(g, from, visited, depth, outs, (i - 1) as nat).0;
        if extends_chain(e) && !visited.contains(e.to) && !has_same_ends(res, e) && !(e.from
            == from.from && e.to == from.to) {
            lemma_chain_edges(g, e, visited, depth + 1);
            let c = chain_from(g, e, visited, depth + 1).0;
            assert forall|k: int| 0 <= k < (res.push(e) + c).len() implies g.edges@.contains(
                #[trigger] (res.push(e) + c)[k],
            ) && extends_chain((res.push(e) + c)[k]) by {
                if k < res.len() {
                    assert((res.push(e) + c)[k] == res[k]);
                } else if k == res.len() {
                    assert((res.push(e) + c)[k] == e);
                } else {
                    assert((res.push(e) + c)[k] == c[k - res.len() - 1]);
                }
            }
        } else if extends_chain(e) {
            assert forall|k: int| 0 <= k < res.push(e).len() implies g.edges@.contains(
                #[trigger] res.push(e)[k],
            ) && extends_chain(res.push(e)[k]) by {
                if k < res.len() {
                    assert(res.push(e)[k] == res[k]);
                }
            }
        }
    }
}

/// The whole chain that starts at `e`: the edges found past it, then `e`.
pub open spec fn chain_of(g: CallGraph, e: CallEdge) -> Seq<CallEdge> {
    chain_from(g, e, Seq::empty(), 1).0.push(e)
}

/// The deepest level that the chain starting at `e` reaches; `e` is level one.
pub open spec fn chain_depth(g: CallGraph, e: CallEdge) -> nat {
    chain_from(g, e, Seq::empty(), 1).1
}

/// All chain edges of the chains that start among the first `k` edges, chain
/// after chain.
pub open spec fn chain_edges_upto(g: CallGraph, k: nat) -> Seq<CallEdge>
    decreases k,
{
    if k == 0 || k > g.edges@.len() {
        Seq::empty()
    } else {
        let prev = chain_edges_upto(g, (k - 1) as nat);
        let e = g.edges@[k - 1];
        if starts_chain(e) {
            prev + chain_of(g, e)
        } else {
            prev
        }
    }
}

/// Figures over the chains that start among the first `k` edges: how many
/// there are, the most edges in one, the deepest level, and all their edges.
pub open spec fn stats_upto(g: CallGraph, k: nat) -> ChainStats
    decreases k,
{
    if k == 0 || k > g.edges@.len() {
        ChainStats { count: 0, max_edge_count: 0, max_depth: 0, total_edge_count: 0 }
    } else {
        let prev = stats_upto(g, (k - 1) as nat);
        let e = g.edges@[k - 1];
        if starts_chain(e) {
            let size = chain_of(g, e).len();
            let depth = chain_depth(g, e);
            ChainStats {
                count: (prev.count + 1) as usize,
                max_edge_count: if size > prev.max_edge_count {
                    size as usize
                } else {
                    prev.max_edge_count
                },
                max_depth: if depth > prev.max_depth {
                    depth as usize
                } else {
                    prev.max_depth
                },
                total_edge_count: (prev.total_edge_count + size) as usize,
            }
        } else {
            prev
        }
    }
}

/// The figures over all chains of `g`.
pub open spec fn chain_stats(g: CallGraph) -> ChainStats {
    stats_upto(g, g.edges@.len())
}

/// All chain edges of `g`, chain after chain.
pub open spec fn all_chain_edges(g: CallGraph) -> Seq<CallEdge> {
    chain_edges_upto(g, g.edges@.len())
}

/// Figures over the chains of one graph.
#[derive(Debug, Clone, Copy, PartialEq, Eq, Structural)]
pub struct ChainStats {
    /// How many chains there are.
    pub count: usize,
    /// The most edges in one chain.
    pub max_edge_count: usize,
    /// The deepest level that a chain reaches.
    pub max_depth: usize,
    /// The edges of all chains together.
    pub total_edge_count: usize,
}

impl ChainStats {
    /// The mean number of edges in a chain, as numerator and denominator; none
    /// when there is no chain.
    pub fn mean_edge_count(&self) -> (r: Option<(usize, usize)>)
        ensures
            self.count == 0 ==> r is None,
            self.count != 0 ==> r == Some((self.total_edge_count, self.count)),
    {
        if self.count == 0 {
            None
        } else {
            Some((self.total_edge_count, self.count))
        }
    }
}

/// The id given in the chain graph to `src`, where the chain already has one.
fn lookup_node(node_map: &Vec<(usize, usize)>, src: usize) -> (r: Option<usize>)
    ensures
        r is Some <==> exists|j: int| 0 <= j < node_map@.len() && (#[trigger] node_map@[j]).0 == src,
        r is Some ==> exists|j: int| 0 <= j < node_map@.len() && #[trigger] node_map@[j] == (src, r->0),
{
    let mut i: usize = 0;
    while i < node_map.len()
        invariant
            i <= node_map@.len(),
            forall|j: int| 0 <= j < i ==> (#[trigger] node_map@[j]).0 != src,
        decreases node_map@.len() - i,
    {
        if node_map[i].0 == src {
            proof {
                assert(node_map@[i as int] == (src, node_map@[i as int].1));
            }
            return Some(node_map[i].1);
        }
        i = i + 1;
    }
    None
}

/// Edge `j` of `out` copies chain edge `e` of `graph`: its label, and the labels
/// of both ends.
pub open spec fn copies_edge(out: ChainGraph, j: int, graph: CallGraph, e: CallEdge) -> bool {
    &&& out.edges@[j].label == e.ty
    &&& out.nodes@[out.edges@[j].from as int].label@ == graph.nodes@[e.from as int].label@
    &&& out.nodes@[out.edges@[j].to as int].label@ == graph.nodes@[e.to as int].label@
}

/// `seen` with `src` added at the end unless it is there already.
pub open spec fn add_seen(seen: Seq<usize>, src: usize) -> Seq<usize> {
    if seen.contains(src) {
        seen
    } else {
        seen.push(src)
    }
}

/// `node_map` gives the nodes of `seen`, in order, the ids from `base` on.
pub open spec fn maps_seen(node_map: Seq<(usize, usize)>, seen: Seq<usize>, base: int) -> bool {
    &&& node_map.len() == seen.len()
    &&& forall|m: int| 0 <= m < node_map.len() ==> #[trigger] node_map[m] == (seen[m], (base + m) as usize)
}

/// The id in `out` of the chain's node for `src`: the one the chain already
/// has, or a new node with the label of `src` in `graph`.
fn chain_node(
    out: &mut ChainGraph,
    node_map: &mut Vec<(usize, usize)>,
    graph: &CallGraph,
    src: usize,
    Ghost(seen): Ghost<Seq<usize>>,
    Ghost(base): Ghost<int>,
) -> (r: usize)
    requires
        src < graph.nodes@.len(),
        old(out).nodes@.len() < usize::MAX,
        old(out).wf(),
        maps_seen(old(node_map)@, seen, base),
        old(out).nodes@.len() == base + seen.len(),
        0 <= base,
    ensures
        final(out).wf(),
        maps_seen(final(node_map)@, add_seen(seen, src), base),
        final(out).nodes@.len() == base + add_seen(seen, src).len(),
        final(out).nodes@ == old(out).nodes@ || final(out).nodes@ == old(out).nodes@.push(
            final(out).nodes@.last(),
        ),
        final(out).nodes@.len() > old(out).nodes@.len() ==> final(out).nodes@.last().label@
            == graph.nodes@[src as int].label@,
        base <= r < final(out).nodes@.len(),
        add_seen(seen, src)[r - base] == src,
        final(out).edges == old(out).edges,
        final(out).crate_name == old(out).crate_name,
{
    match lookup_node(node_map, src) {
        Some(id) => {
            proof {
                let j = choose|j: int| 0 <= j < node_map@.len() && #[trigger] node_map@[j] == (src, id);
                assert(seen[j] == src);
                assert(seen.contains(src));
            }
            id
        },
        None => {
            let id = out.add_node(graph.nodes[src].label.clone());
            node_map.push((src, id));
            proof {
                assert(!seen.contains(src)) by {
                    if seen.contains(src) {
                        let j = choose|j: int| 0 <= j < seen.len() && seen[j] == src;
                        assert(old(node_map)@[j].0 == src);
                    }
                }
                assert forall|m: int| 0 <= m < node_map@.len() implies #[trigger] node_map@[m] == (
                    add_seen(seen, src)[m],
                    (base + m) as usize,
                ) by {
                    if m < seen.len() {
                        assert(node_map@[m] == old(node_map)@[m]);
                    }
                }
                assert(out.nodes@.last() == out.nodes@[out.nodes@.len() - 1]);
            }
            id
        },
    }
}

/// Whether `x` is in `v`.
fn contains_node(v: &Vec<usize>, x: usize) -> (r: bool)
    ensures
        r == v@.contains(x),
{
    let mut i: usize = 0;
    while i < v.len()
        invariant
            i <= v@.len(),
            forall|j: int| 0 <= j < i ==> v@[j] != x,
        decreases v@.len() - i,
    {
        if v[i] == x {
            return true;
        }
        i = i + 1;
    }
    false
}

/// Whether some edge of `es` joins the same two nodes as `e`.
fn contains_same_ends(es: &Vec<CallEdge>, e: &CallEdge) -> (r: bool)
    ensures
        r == has_same_ends(es@, *e),
{
    let mut i: usize = 0;
    while i < es.len()
        invariant
            i <= es@.len(),
            forall|j: int| 0 <= j < i ==> !((#[trigger] es@[j]).from == e.from && es@[j].to == e.to),
        decreases es@.len() - i,
    {
        if es[i].same_ends(e) {
            return true;
        }
        i = i + 1;
    }
    false
}

/// The edges of the chain past `from`, and the deepest level reached.
fn get_chain_from_edge(graph: &CallGraph, from: &CallEdge, path: &Vec<usize>, depth: usize) -> (r: (
    Vec<CallEdge>,
    usize,
))
    requires
        depth + graph.nodes@.len() <= usize::MAX + path@.len(),
    ensures
        (r.0@, r.1 as nat) == chain_from(*graph, *from, path@, depth as nat),
    decreases graph.nodes@.len() - path@.len(),
{
    if path.len() >= graph.nodes.len() {
        return (Vec::new(), depth);
    }
    let mut res: Vec<CallEdge> = Vec::new();
    let mut max_depth = depth;
    let mut explored = path.clone();
    explored.push(from.to);
    let ghost outs_spec = outgoing(graph.edges@, from.to);
    proof {
        assert(explored@ == path@.push(from.to));
    }
    let outs = graph.get_outgoing_edges(from.to);
    let mut i: usize = 0;
    while i < outs.len()
        invariant
            i <= outs@.len(),
            outs@.len() == outs_spec.len(),
            forall|k: int| 0 <= k < outs@.len() ==> *outs@[k] == outs_spec[k],
            outs_spec == outgoing(graph.edges@, from.to),
            explored@ == path@.push(from.to),
            path@.len() < graph.nodes@.len(),
            depth + graph.nodes@.len() <= usize::MAX + path@.len(),
            (res@, max_depth as nat) == chain_loop(
                *graph,
                *from,
                explored@,
                depth as nat,
                outs_spec,
                i as nat,
            ),
        decreases outs@.len() - i,
    {
        let edge: &CallEdge = outs[i];
        proof {
            assert(*edge == outs_spec[i as int]);
        }
        if edge.is_error && edge.propagates {
            if !contains_node(&explored, edge.to) && !contains_same_ends(&res, edge)
                && !edge.same_ends(from) {
                res.push(edge.copy());
                let (mut chain, d) = get_chain_from_edge(graph, edge, &explored, depth + 1);
                if d > max_depth {
                    max_depth = d;
                }
                res.append(&mut chain);
            } else {
                res.push(edge.copy());
            }
        }
        i = i + 1;
    }
    (res, max_depth)
}

} // verus!

verus! {

/// The chain edges found among the first `i` edges are never more than those
/// among the first `k`, for `i <= k`.
pub proof fn lemma_chain_edges_grow(g: CallGraph, i: nat, k: nat)
    requires
        i <= k <= g.edges@.len(),
    ensures
        chain_edges_upto(g, i).len() <= chain_edges_upto(g, k).len(),
    decreases k - i,
{
    if i < k {
        lemma_chain_edges_grow(g, i, (k - 1) as nat);
    }
}

/// The graph nodes that the chains starting among the first `k` edges draw,
/// chain after chain: for each chain, the ends of its edges, each once, in
/// the order the chain's edges meet them, source before target.
pub open spec fn chain_nodes_upto(g: CallGraph, k: nat) -> Seq<usize>
    decreases k,
{
    if k == 0 || k > g.edges@.len() {
        Seq::empty()
    } else {
        let prev = chain_nodes_upto(g, (k - 1) as nat);
        let e = g.edges@[k - 1];
        if starts_chain(e) {
            prev + touched(call_ends(chain_of(g, e)))
        } else {
            prev
        }
    }
}

/// The graph node behind each node of the chain graph of `g`.
pub open spec fn all_chain_nodes(g: CallGraph) -> Seq<usize> {
    chain_nodes_upto(g, g.edges@.len())
}

/// The chain starting at edge `k` has its edges at positions `lo_e..hi_e` of
/// the chain graph and its nodes at positions `lo_n..hi_n`.
pub open spec fn chain_block(g: CallGraph, k: int) -> (int, int, int, int) {
    (
        chain_edges_upto(g, k as nat).len() as int,
        chain_edges_upto(g, (k + 1) as nat).len() as int,
        chain_nodes_upto(g, k as nat).len() as int,
        chain_nodes_upto(g, (k + 1) as nat).len() as int,
    )
}

/// Each edge of `out` drawn for the chain starting at edge `k` of `g` joins
/// nodes of that chain's own block.
pub open spec fn edges_in_block(out: ChainGraph, g: CallGraph, k: int) -> bool {
    let (lo_e, hi_e, lo_n, hi_n) = chain_block(g, k);
    forall|j: int|
        lo_e <= j < hi_e ==> lo_n <= (#[trigger] out.edges@[j]).from < hi_n && lo_n
            <= out.edges@[j].to < hi_n
}

/// The nodes that the ends of `ends` meet are all different.
pub proof fn lemma_touched_distinct(ends: Seq<(usize, usize)>)
    ensures
        touched(ends).no_duplicates(),
    decreases ends.len(),
{
    if ends.len() > 0 {
        lemma_touched_distinct(ends.drop_last());
    }
}

/// Split `graph` into its error propagation chains.
///
/// Each chain is drawn with nodes of its own: within one chain a function has
/// one node, but a function met by two chains is drawn in both. The result is
/// exact whenever the chain graph's ids fit in a `usize`: its nodes stand for
/// `all_chain_nodes`, each chain's edges join nodes of its own block, and
/// each edge joins the nodes of its chain edge's ends.
pub fn to_chains(graph: &CallGraph) -> (r: (ChainGraph, ChainStats))
    requires
        graph.wf(),
        graph.nodes@.len() < usize::MAX,
    ensures
        r.0.wf(),
        r.0.crate_name == graph.crate_name,
        2 * all_chain_edges(*graph).len() < usize::MAX ==> {
            &&& r.1 == chain_stats(*graph)
            &&& r.0.edges@.len() == all_chain_edges(*graph).len()
            &&& forall|j: int|
                0 <= j < r.0.edges@.len() ==> copies_edge(
                    r.0,
                    j,
                    *graph,
                    #[trigger] all_chain_edges(*graph)[j],
                )
            &&& r.0.nodes@.len() == all_chain_nodes(*graph).len()
            &&& forall|i: int|
                0 <= i < r.0.nodes@.len() ==> (#[trigger] r.0.nodes@[i]).label@ == graph.nodes@[
                    all_chain_nodes(*graph)[i] as int
                ].label@
            &&& forall|j: int|
                0 <= j < r.0.edges@.len() ==> all_chain_nodes(*graph)[(#[trigger] r.0.edges@[
                    j
                ]).from as int] == all_chain_edges(*graph)[j].from && all_chain_nodes(
                    *graph,
                )[r.0.edges@[j].to as int] == all_chain_edges(*graph)[j].to
            &&& forall|k: int|
                0 <= k < graph.edges@.len() && starts_chain(#[trigger] graph.edges@[k])
                    ==> edges_in_block(r.0, *graph, k)
        },
{
    let mut new_graph = ChainGraph::new(graph.crate_name.clone());
    let mut count: usize = 0;
    let mut max_size: usize = 0;
    let mut total_size: usize = 0;
    let mut max_depth: usize = 0;
    let mut k: usize = 0;
    while k < graph.edges.len()
        invariant
            k <= graph.edges@.len(),
            graph.wf(),
            graph.nodes@.len() < usize::MAX,
            2 * total_size < usize::MAX,
            new_graph.wf(),
            new_graph.crate_name == graph.crate_name,
            new_graph.nodes@.len() <= 2 * new_graph.edges@.len(),
            new_graph.edges@.len() == chain_edges_upto(*graph, k as nat).len(),
            forall|j: int|
                0 <= j < new_graph.edges@.len() ==> copies_edge(
                    new_graph,
                    j,
                    *graph,
                    #[trigger] chain_edges_upto(*graph, k as nat)[j],
                ),
            new_graph.nodes@.len() == chain_nodes_upto(*graph, k as nat).len(),
            forall|i: int|
                0 <= i < new_graph.nodes@.len() ==> (#[trigger] new_graph.nodes@[i]).label@
                    == graph.nodes@[chain_nodes_upto(*graph, k as nat)[i] as int].label@,
            forall|j: int|
                0 <= j < new_graph.edges@.len() ==> chain_nodes_upto(*graph, k as nat)[(
                #[trigger] new_graph.edges@[j]).from as int] == chain_edges_upto(
                    *graph,
                    k as nat,
                )[j].from && chain_nodes_upto(*graph, k as nat)[new_graph.edges@[j].to as int]
                    == chain_edges_upto(*graph, k as nat)[j].to,
            forall|k2: int|
                0 <= k2 < k && starts_chain(#[trigger] graph.edges@[k2]) ==> edges_in_block(
                    new_graph,
                    *graph,
                    k2,
                ),
            (ChainStats {
                count,
                max_edge_count: max_size,
                max_depth,
                total_edge_count: total_size,
            }) == stats_upto(*graph, k as nat),
            total_size == chain_edges_upto(*graph, k as nat).len(),
            count <= k,
        decreases graph.edges@.len() - k,
    {
        let edge = &graph.edges[k];
        let ghost prev = chain_edges_upto(*graph, k as nat);
        let ghost prev_n = chain_nodes_upto(*graph, k as nat);
        if edge.is_error && !edge.propagates {
            let mut node_map: Vec<(usize, usize)> = Vec::new();
            let path: Vec<usize> = Vec::new();
            let (mut calls, depth) = get_chain_from_edge(graph, edge, &path, 1);
            calls.push(edge.copy());
            proof {
                assert(path@ == Seq::<usize>::empty());
                assert(calls@ == chain_of(*graph, *edge));
                assert(chain_edges_upto(*graph, (k + 1) as nat) == prev + calls@);
                assert(chain_nodes_upto(*graph, (k + 1) as nat) == prev_n + touched(
                    call_ends(calls@),
                ));
                lemma_chain_edges(*graph, *edge, Seq::empty(), 1);
                assert forall|m: int| 0 <= m < calls@.len() implies (#[trigger] calls@[m]).from
                    < graph.nodes@.len() && calls@[m].to < graph.nodes@.len() by {
                    if m < calls@.len() - 1 {
                        assert(calls@[m] == chain_from(*graph, *edge, Seq::empty(), 1).0[m]);
                        let w = choose|w: int|
                            0 <= w < graph.edges@.len() && graph.edges@[w] == calls@[m];
                    } else {
                        assert(calls@[m] == graph.edges@[k as int]);
                    }
                }
            }
            let size = calls.len();
            if size > usize::MAX / 2 - total_size {
                proof {
                    lemma_chain_edges_grow(*graph, (k + 1) as nat, graph.edges@.len());
                }
                let stats = ChainStats {
                    count,
                    max_edge_count: max_size,
                    max_depth,
                    total_edge_count: total_size,
                };
                return (new_graph, stats);
            }
            count = count + 1;
            total_size = total_size + size;
            if size > max_size {
                max_size = size;
            }
            if depth > max_depth {
                max_depth = depth;
            }
            let ghost base = new_graph.edges@.len();
            let ghost base_n = new_graph.nodes@.len() as int;
            let mut j: usize = 0;
            proof {
                assert(call_ends(calls@.take(0)) =~= Seq::<(usize, usize)>::empty());
                assert(prev_n + touched(call_ends(calls@.take(0))) =~= prev_n);
            }
            while j < calls.len()
                invariant
                    j <= calls@.len(),
                    k < graph.edges@.len(),
                    prev == chain_edges_upto(*graph, k as nat),
                    graph.wf(),
                    forall|m: int|
                        0 <= m < calls@.len() ==> (#[trigger] calls@[m]).from < graph.nodes@.len()
                            && calls@[m].to < graph.nodes@.len(),
                    base == prev.len(),
                    base_n == prev_n.len(),
                    2 * (base + calls@.len()) < usize::MAX,
                    new_graph.wf(),
                    new_graph.crate_name == graph.crate_name,
                    new_graph.nodes@.len() <= 2 * new_graph.edges@.len(),
                    new_graph.edges@.len() == base + j,
                    forall|m: int|
                        0 <= m < new_graph.edges@.len() ==> copies_edge(
                            new_graph,
                            m,
                            *graph,
                            #[trigger] (prev + calls@)[m],
                        ),
                    maps_seen(node_map@, touched(call_ends(calls@.take(j as int))), base_n),
                    new_graph.nodes@.len() == base_n + touched(call_ends(calls@.take(j as int))).len(),
                    forall|i: int|
                        0 <= i < new_graph.nodes@.len() ==> (#[trigger] new_graph.nodes@[i]).label@
                            == graph.nodes@[(prev_n + touched(call_ends(calls@.take(j as int))))[i] as int].label@,
                    forall|m: int|
                        0 <= m < new_graph.edges@.len() ==> (prev_n + touched(call_ends(calls@.take(j as int))))[(
                        #[trigger] new_graph.edges@[m]).from as int] == (prev + calls@)[m].from
                            && (prev_n + touched(call_ends(calls@.take(j as int))))[new_graph.edges@[m].to as int]
                            == (prev + calls@)[m].to,
                    forall|m: int|
                        0 <= m < base ==> (#[trigger] new_graph.edges@[m]).from < base_n
                            && new_graph.edges@[m].to < base_n,
                    forall|m: int|
                        base <= m < new_graph.edges@.len() ==> base_n <= (
                        #[trigger] new_graph.edges@[m]).from && base_n <= new_graph.edges@[m].to,
                    forall|k2: int|
                        0 <= k2 < k && starts_chain(#[trigger] graph.edges@[k2]) ==> edges_in_block(
                            new_graph,
                            *graph,
                            k2,
                        ),
                decreases calls@.len() - j,
            {
                let call = &calls[j];
                let ghost before = new_graph;
                let ghost seen0 = touched(call_ends(calls@.take(j as int)));
                let from = chain_node(&mut new_graph, &mut node_map, graph, call.from, Ghost(seen0), Ghost(base_n));
                let ghost seen1 = add_seen(seen0, call.from);
                let ghost mid = new_graph;
                let to = chain_node(&mut new_graph, &mut node_map, graph, call.to, Ghost(seen1), Ghost(base_n));
                let ghost seen2 = add_seen(seen1, call.to);
                new_graph.add_edge(from, to, copy_label(&call.ty));
                proof {
                    assert(call_ends(calls@.take(j + 1)).drop_last() =~= call_ends(calls@.take(j as int)));
                    assert(call_ends(calls@.take(j + 1)).last() == (call.from, call.to));
                    assert(touched(call_ends(calls@.take(j + 1))) == seen2);
                    assert(seen0.is_prefix_of(seen2));
                    assert forall|x: int| 0 <= x < base_n + seen0.len() implies (prev_n + seen2)[x] == (prev_n + seen0)[x] by {
                        if x >= base_n {
                            assert(seen1[x - base_n] == seen0[x - base_n]);
                        }
                    }
                    assert forall|x: int| 0 <= x < base_n + seen1.len() implies (prev_n + seen2)[x] == (prev_n + seen1)[x] by {}
                    assert forall|i: int| 0 <= i < new_graph.nodes@.len() implies (#[trigger] new_graph.nodes@[i]).label@
                        == graph.nodes@[(prev_n + seen2)[i] as int].label@ by {
                        if i < before.nodes@.len() {
                            assert(new_graph.nodes@[i] == before.nodes@[i]);
                        } else if i < mid.nodes@.len() {
                            assert(new_graph.nodes@[i] == mid.nodes@[i]);
                        }
                    }
                    assert forall|m: int| 0 <= m < new_graph.edges@.len() implies copies_edge(
                        new_graph,
                        m,
                        *graph,
                        #[trigger] (prev + calls@)[m],
                    ) by {
                        if m < before.edges@.len() {
                            assert(new_graph.edges@[m] == before.edges@[m]);
                            assert(new_graph.nodes@[before.edges@[m].from as int]
                                == before.nodes@[before.edges@[m].from as int]);
                            assert(new_graph.nodes@[before.edges@[m].to as int]
                                == before.nodes@[before.edges@[m].to as int]);
                        } else {
                            assert((prev + calls@)[m] == calls@[j as int]);
                            assert(new_graph.nodes@[from as int] == mid.nodes@[from as int]);
                        }
                    }
                    assert forall|m: int| 0 <= m < new_graph.edges@.len() implies (prev_n + seen2)[(
                        #[trigger] new_graph.edges@[m]).from as int] == (prev + calls@)[m].from
                        && (prev_n + seen2)[new_graph.edges@[m].to as int] == (prev + calls@)[m].to by {
                        if m < before.edges@.len() {
                            assert(new_graph.edges@[m] == before.edges@[m]);
                        } else {
                            assert((prev + calls@)[m] == calls@[j as int]);
                        }
                    }
                    assert forall|k2: int|
                        0 <= k2 < k && starts_chain(#[trigger] graph.edges@[k2]) implies edges_in_block(
                            new_graph,
                            *graph,
                            k2,
                        ) by {
                        assert(edges_in_block(before, *graph, k2));
                        let (lo_e, hi_e, lo_n, hi_n) = chain_block(*graph, k2);
                        assert forall|jj: int| lo_e <= jj < hi_e implies lo_n <= (#[trigger] new_graph.edges@[jj]).from < hi_n && lo_n
                            <= new_graph.edges@[jj].to < hi_n by {
                            lemma_chain_edges_grow(*graph, (k2 + 1) as nat, k as nat);
                            assert(jj < before.edges@.len());
                            assert(new_graph.edges@[jj] == before.edges@[jj]);
                        }
                    }
                }
                j = j + 1;
            }
            proof {
                assert(calls@.take(j as int) =~= calls@);
                assert(chain_nodes_upto(*graph, (k + 1) as nat) == prev_n + touched(call_ends(calls@)));
                assert forall|k2: int|
                    0 <= k2 < k + 1 && starts_chain(#[trigger] graph.edges@[k2]) implies edges_in_block(
                        new_graph,
                        *graph,
                        k2,
                    ) by {
                    if k2 == k {
                        let (lo_e, hi_e, lo_n, hi_n) = chain_block(*graph, k2);
                        assert(lo_e == base && hi_e == base + calls@.len());
                        assert(lo_n == base_n && hi_n == new_graph.nodes@.len());
                    }
                }
            }
        } else {
            proof {
                assert(chain_edges_upto(*graph, (k + 1) as nat) == prev);
                assert(chain_nodes_upto(*graph, (k + 1) as nat) == prev_n);
                assert forall|k2: int|
                    0 <= k2 < k + 1 && starts_chain(#[trigger] graph.edges@[k2]) implies edges_in_block(
                        new_graph,
                        *graph,
                        k2,
                    ) by {
                }
            }
        }
        k = k + 1;
    }
    let stats = ChainStats {
        count,
        max_edge_count: max_size,
        max_depth,
        total_edge_count: total_size,
    };
    proof {
        assert(graph.edges@.len() == k);
    }
    (new_graph, stats)
}

} // verus!

verus! {

/// With no chain starting among the first `k` edges, there is nothing to count.
proof fn lemma_no_start_upto(g: CallGraph, k: nat)
    requires
        k <= g.edges@.len(),
        forall|m: int| 0 <= m < g.edges@.len() ==> !starts_chain(#[trigger] g.edges@[m]),
    ensures
        stats_upto(g, k) == (ChainStats {
            count: 0,
            max_edge_count: 0,
            max_depth: 0,
            total_edge_count: 0,
        }),
        chain_edges_upto(g, k).len() == 0,
        chain_nodes_upto(g, k).len() == 0,
    decreases k,
{
    if k > 0 {
        lemma_no_start_upto(g, (k - 1) as nat);
        assert(!starts_chain(g.edges@[k - 1]));
    }
}

/// A graph in which no edge starts a chain has no chains: the count, the
/// figures, the chain edges and the chain nodes are all zero, and there is
/// no mean.
pub proof fn lemma_no_start_no_chains(g: CallGraph)
    requires
        forall|m: int| 0 <= m < g.edges@.len() ==> !starts_chain(#[trigger] g.edges@[m]),
    ensures
        chain_stats(g) == (ChainStats {
            count: 0,
            max_edge_count: 0,
            max_depth: 0,
            total_edge_count: 0,
        }),
        all_chain_edges(g).len() == 0,
        all_chain_nodes(g).len() == 0,
{
    lemma_no_start_upto(g, g.edges@.len());
}

} // verus!
