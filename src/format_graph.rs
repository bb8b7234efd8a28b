//! Drawing each maximal error propagation path as a chain of its own.
//!
//! Where `to_chains` draws one tree per starting call, this draws every
//! maximal path from a starting call separately, with fresh nodes for each.
//! A path that comes back to a node already on it ends with the edge that
//! closes the cycle.

use vstd::prelude::*;
use crate::chains::{extends_chain, starts_chain};
use crate::graph::{copy_label, lemma_outgoing_members, outgoing, CallEdge, CallGraph, ChainGraph};

verus! {

/// Each chain of `cs` with `start` in front.
pub open spec fn prefixed(start: CallEdge, cs: Seq<Seq<CallEdge>>) -> Seq<Seq<CallEdge>> {
    cs.map_values(|c: Seq<CallEdge>| seq![start] + c)
}

/// The maximal paths that begin with `start`, when the nodes of `path` are
/// already on the path.
pub open spec fn paths_from(g: CallGraph, start: CallEdge, path: Seq<usize>) -> Seq<Seq<CallEdge>>
    decreases g.nodes@.len() - path.len(), 0nat,
{
    if path.len() >= g.nodes@.len() {
        seq![seq![start]]
    } else {
        let outs = outgoing(g.edges@, start.to);
        let found = paths_loop(g, start, path.push(start.to), outs, outs.len());
        if found.len() == 0 {
            seq![seq![start]]
        } else {
            found
        }
    }
}

/// The paths that `paths_from` finds through the first `i` edges of `outs`.
pub open spec fn paths_loop(
    g: CallGraph,
    start: CallEdge,
    visited: Seq<usize>,
    outs: Seq<CallEdge>,
    i: nat,
) -> Seq<Seq<CallEdge>>
    decreases g.nodes@.len() - visited.len(), i + 1,
{
    if i == 0 || i > outs.len() || visited.len() > g.nodes@.len() {
        Seq::empty()
    } else {
        let prev = paths_loop(g, start, visited, outs, (i - 1) as nat);
        let e = outs[i - 1];
        if !extends_chain(e) {
            prev
        } else if !visited.contains(e.to) {
            prev + prefixed(start, paths_from(g, e, visited))
        } else {
            prev.push(seq![start, e])
        }
    }
}

/// Every edge on a path from `start` is `start` or an edge of the graph.
pub proof fn lemma_path_edges(g: CallGraph, start: CallEdge, path: Seq<usize>)
    ensures
        forall|a: int, b: int|
            0 <= a < paths_from(g, start, path).len() && 0 <= b < paths_from(g, start, path)[a].len()
                ==> #[trigger] paths_from(g, start, path)[a][b] == start || g.edges@.contains(
                paths_from(g, start, path)[a][b],
            ),
    decreases g.nodes@.len() - path.len(), 0nat,
{
    if path.len() < g.nodes@.len() {
        let outs = outgoing(g.edges@, start.to);
        lemma_outgoing_members(g.edges@, start.to);
        lemma_loop_path_edges(g, start, path.push(start.to), outs, outs.len());
    }
}

/// Every edge on a path that `paths_loop` finds is its start or an edge of
/// the graph.
pub proof fn lemma_loop_path_edges(
    g: CallGraph,
    start: CallEdge,
    visited: Seq<usize>,
    outs: Seq<CallEdge>,
    i: nat,
)
    requires
        forall|k: int| 0 <= k < outs.len() ==> g.edges@.contains(#[trigger] outs[k]),
    ensures
        forall|a: int, b: int|
            0 <= a < paths_loop(g, start, visited, outs, i).len() && 0 <= b < paths_loop(
                g,
                start,
                visited,
                outs,
                i,
            )[a].len() ==> #[trigger] paths_loop(g, start, visited, outs, i)[a][b] == start
                || g.edges@.contains(paths_loop(g, start, visited, outs, i)[a][b]),
    decreases g.nodes@.len() - visited.len(), i + 1,
{
    if !(i == 0 || i > outs.len() || visited.len() > g.nodes@.len()) {
        lemma_loop_path_edges(g, start, visited, outs, (i - 1) as nat);
        let prev = paths_loop(g, start, visited, outs, (i - 1) as nat);
        let e = outs[i - 1];
        let all = paths_loop(g, start, visited, outs, i);
        if extends_chain(e) && !visited.contains(e.to) {
            lemma_path_edges(g, e, visited);
            let sub = paths_from(g, e, visited);
            assert forall|a: int, b: int| 0 <= a < all.len() && 0 <= b < all[a].len() implies #[trigger] all[a][b]
                == start || g.edges@.contains(all[a][b]) by {
                if a >= prev.len() {
                    let c = sub[a - prev.len()];
                    assert(all[a] == seq![start] + c);
                    if b > 0 {
                        assert(all[a][b] == c[b - 1]);
                        assert(c[b - 1] == e || g.edges@.contains(c[b - 1]));
                    }
                } else {
                    assert(all[a] == prev[a]);
                }
            }
        } else if extends_chain(e) {
            assert forall|a: int, b: int| 0 <= a < all.len() && 0 <= b < all[a].len() implies #[trigger] all[a][b]
                == start || g.edges@.contains(all[a][b]) by {
                if a == prev.len() {
                    assert(all[a] == seq![start, e]);
                    if b == 1 {
                        assert(all[a][b] == e);
                    }
                } else {
                    assert(all[a] == prev[a]);
                }
            }
        }
    }
}

/// The views of a vector of chains.
pub open spec fn deep(v: Seq<Vec<CallEdge>>) -> Seq<Seq<CallEdge>> {
    v.map_values(|c: Vec<CallEdge>| c@)
}

/// Whether `x` is in `v`.
fn on_path(v: &Vec<usize>, x: usize) -> (r: bool)
    ensures
        r == v@.contains(x),
{
    let mut i: usize = 0;
    while i < v.len()
        invariant
            i <= v@.len(),
            forall|j: int| 0 <= j < i ==> v@[j] != x,
        decreases v@.len() - i,
    {
        if v[i] == x {
            return true;
        }
        i = i + 1;
    }
    false
}

/// `start` followed by copies of the edges of `chain`.
fn prepend(start: &CallEdge, chain: &Vec<CallEdge>) -> (r: Vec<CallEdge>)
    ensures
        r@ == seq![*start] + chain@,
{
    let mut r: Vec<CallEdge> = vec![start.copy()];
    let mut i: usize = 0;
    while i < chain.len()
        invariant
            i <= chain@.len(),
            r@ == seq![*start] + chain@.take(i as int),
        decreases chain@.len() - i,
    {
        r.push(chain[i].copy());
        proof {
            assert(seq![*start] + chain@.take(i + 1) =~= (seq![*start] + chain@.take(i as int)).push(
                chain@[i as int],
            ));
        }
        i = i + 1;
    }
    proof {
        assert(chain@.take(i as int) =~= chain@);
    }
    r
}

/// The maximal paths that begin with `start_edge`, when the nodes of `path`
/// are already on the path.
fn find_chains(graph: &CallGraph, start_edge: &CallEdge, path: &Vec<usize>) -> (r: Vec<Vec<CallEdge>>)
    ensures
        deep(r@) == paths_from(*graph, *start_edge, path@),
    decreases graph.nodes@.len() - path@.len(),
{
    let mut res: Vec<Vec<CallEdge>> = Vec::new();
    if path.len() < graph.nodes.len() {
        let mut visited = path.clone();
        visited.push(start_edge.to);
        proof {
            assert(visited@ == path@.push(start_edge.to));
        }
        let ghost outs_spec = outgoing(graph.edges@, start_edge.to);
        let outs = graph.get_outgoing_edges(start_edge.to);
        let mut i: usize = 0;
        proof {
            assert(deep(res@) =~= Seq::<Seq<CallEdge>>::empty());
        }
        while i < outs.len()
            invariant
                i <= outs@.len(),
                outs@.len() == outs_spec.len(),
                forall|k: int| 0 <= k < outs@.len() ==> *outs@[k] == outs_spec[k],
                outs_spec == outgoing(graph.edges@, start_edge.to),
                visited@ == path@.push(start_edge.to),
                path@.len() < graph.nodes@.len(),
                deep(res@) == paths_loop(*graph, *start_edge, visited@, outs_spec, i as nat),
            decreases outs@.len() - i,
        {
            let edge: &CallEdge = outs[i];
            proof {
                assert(*edge == outs_spec[i as int]);
            }
            if edge.is_error && edge.propagates {
                if !on_path(&visited, edge.to) {
                    let sub = find_chains(graph, edge, &visited);
                    let ghost before = deep(res@);
                    let mut m: usize = 0;
                    while m < sub.len()
                        invariant
                            m <= sub@.len(),
                            deep(res@) == before + prefixed(*start_edge, deep(sub@).take(m as int)),
                        decreases sub@.len() - m,
                    {
                        let chain = prepend(start_edge, &sub[m]);
                        proof {
                            assert(prefixed(*start_edge, deep(sub@).take(m + 1)) =~= prefixed(
                                *start_edge,
                                deep(sub@).take(m as int),
                            ).push(seq![*start_edge] + sub@[m as int]@));
                        }
                        let ghost r0 = res@;
                        res.push(chain);
                        proof {
                            assert(deep(res@) =~= deep(r0).push(chain@));
                        }
                        m = m + 1;
                    }
                    proof {
                        assert(deep(sub@).take(m as int) =~= deep(sub@));
                    }
                } else {
                    let chain = vec![start_edge.copy(), edge.copy()];
                    proof {
                        assert(chain@ =~= seq![*start_edge, *edge]);
                    }
                    let ghost r0 = res@;
                    res.push(chain);
                    proof {
                        assert(deep(res@) =~= deep(r0).push(chain@));
                    }
                }
            }
            i = i + 1;
        }
    }
    if res.len() == 0 {
        let only = vec![start_edge.copy()];
        proof {
            assert(only@ =~= seq![*start_edge]);
        }
        res.push(only);
        proof {
            assert(deep(res@) =~= seq![seq![*start_edge]]);
        }
    }
    res
}

} // verus!

verus! {

/// The maximal paths from the chains that start among the first `k` edges,
/// chain after chain.
pub open spec fn all_paths_upto(g: CallGraph, k: nat) -> Seq<Seq<CallEdge>>
    decreases k,
{
    if k == 0 || k > g.edges@.len() {
        Seq::empty()
    } else {
        let prev = all_paths_upto(g, (k - 1) as nat);
        let e = g.edges@[k - 1];
        if starts_chain(e) {
            prev + paths_from(g, e, Seq::empty())
        } else {
            prev
        }
    }
}

/// The maximal paths of all chains of `g`.
pub open spec fn all_paths(g: CallGraph) -> Seq<Seq<CallEdge>> {
    all_paths_upto(g, g.edges@.len())
}

/// Every edge on every path is an edge of the graph.
pub proof fn lemma_all_paths_edges(g: CallGraph, k: nat)
    requires
        k <= g.edges@.len(),
    ensures
        forall|a: int, b: int|
            0 <= a < all_paths_upto(g, k).len() && 0 <= b < all_paths_upto(g, k)[a].len()
                ==> g.edges@.contains(#[trigger] all_paths_upto(g, k)[a][b]),
    decreases k,
{
    if k > 0 {
        lemma_all_paths_edges(g, (k - 1) as nat);
        let prev = all_paths_upto(g, (k - 1) as nat);
        let e = g.edges@[k - 1];
        if starts_chain(e) {
            lemma_path_edges(g, e, Seq::empty());
            let sub = paths_from(g, e, Seq::empty());
            let all = all_paths_upto(g, k);
            assert forall|a: int, b: int| 0 <= a < all.len() && 0 <= b < all[a].len() implies g.edges@.contains(
                #[trigger] all[a][b],
            ) by {
                if a < prev.len() {
                    assert(all[a] == prev[a]);
                } else {
                    assert(all[a] == sub[a - prev.len()]);
                    assert(all[a][b] == e || g.edges@.contains(all[a][b]));
                }
            }
        }
    }
}

/// The labels of the nodes drawn for path `c`: its first source, then each
/// target in turn. A path without edges draws nothing.
pub open spec fn path_labels(g: CallGraph, c: Seq<CallEdge>) -> Seq<Seq<char>> {
    if c.len() == 0 {
        Seq::empty()
    } else {
        seq![g.nodes@[c[0].from as int].label@] + c.map_values(
            |e: CallEdge| g.nodes@[e.to as int].label@,
        )
    }
}

/// The labels of the nodes drawn for paths `ps`, path after path.
pub open spec fn drawn_labels(g: CallGraph, ps: Seq<Seq<CallEdge>>) -> Seq<Seq<char>>
    decreases ps.len(),
{
    if ps.len() == 0 {
        Seq::empty()
    } else {
        drawn_labels(g, ps.drop_last()) + path_labels(g, ps.last())
    }
}

/// The edges drawn for paths `ps`: for each path, one edge from each of its
/// nodes to the next, labelled as the path's edge.
pub open spec fn drawn_edges(g: CallGraph, ps: Seq<Seq<CallEdge>>) -> Seq<(int, int, Option<String>)>
    decreases ps.len(),
{
    if ps.len() == 0 {
        Seq::empty()
    } else {
        let base = drawn_labels(g, ps.drop_last()).len() as int;
        let c = ps.last();
        drawn_edges(g, ps.drop_last()) + Seq::new(c.len(), |i: int| (base + i, base + i + 1, c[i].ty))
    }
}

/// Drawing fewer paths draws no more nodes.
pub proof fn lemma_drawn_grow(g: CallGraph, ps: Seq<Seq<CallEdge>>, m: int)
    requires
        0 <= m <= ps.len(),
    ensures
        drawn_labels(g, ps.take(m)).len() <= drawn_labels(g, ps).len(),
    decreases ps.len(),
{
    if m < ps.len() {
        lemma_drawn_grow(g, ps.drop_last(), m);
        assert(ps.drop_last().take(m) =~= ps.take(m));
    } else {
        assert(ps.take(m) =~= ps);
    }
}

/// Draw every maximal path of every chain of `graph` with nodes of its own.
///
/// The result is exact whenever its node ids fit in a `usize`.
fn split_chains(graph: &CallGraph) -> (r: ChainGraph)
    requires
        graph.wf(),
    ensures
        r.wf(),
        r.crate_name == graph.crate_name,
        drawn_labels(*graph, all_paths(*graph)).len() < usize::MAX ==> {
            &&& r.nodes@.len() == drawn_labels(*graph, all_paths(*graph)).len()
            &&& forall|i: int|
                0 <= i < r.nodes@.len() ==> (#[trigger] r.nodes@[i]).label@ == drawn_labels(
                    *graph,
                    all_paths(*graph),
                )[i]
            &&& r.edges@.len() == drawn_edges(*graph, all_paths(*graph)).len()
            &&& forall|i: int|
                0 <= i < r.edges@.len() ==> ((#[trigger] r.edges@[i]).from as int, r.edges@[i].to as int, r.edges@[i].label)
                    == drawn_edges(*graph, all_paths(*graph))[i]
        },
{
    let mut all: Vec<Vec<CallEdge>> = Vec::new();
    let mut k: usize = 0;
    proof {
        assert(deep(all@) =~= Seq::<Seq<CallEdge>>::empty());
    }
    while k < graph.edges.len()
        invariant
            k <= graph.edges@.len(),
            deep(all@) == all_paths_upto(*graph, k as nat),
        decreases graph.edges@.len() - k,
    {
        let edge = &graph.edges[k];
        if edge.is_error && !edge.propagates {
            let path: Vec<usize> = Vec::new();
            proof {
                assert(path@ =~= Seq::<usize>::empty());
            }
            let mut sub = find_chains(graph, edge, &path);
            let ghost a0 = all@;
            let ghost s0 = sub@;
            all.append(&mut sub);
            proof {
                assert(deep(all@) =~= deep(a0) + deep(s0));
            }
        }
        k = k + 1;
    }
    proof {
        lemma_all_paths_edges(*graph, graph.edges@.len());
    }
    let ghost ps = all_paths(*graph);
    let mut out = ChainGraph::new(graph.crate_name.clone());
    let mut m: usize = 0;
    proof {
        assert(ps.take(0) =~= Seq::<Seq<CallEdge>>::empty());
    }
    while m < all.len()
        invariant
            graph.wf(),
            deep(all@) == ps,
            ps == all_paths(*graph),
            forall|a: int, b: int|
                0 <= a < ps.len() && 0 <= b < ps[a].len() ==> graph.edges@.contains(#[trigger] ps[a][b]),
            m <= all@.len(),
            out.wf(),
            out.crate_name == graph.crate_name,
            out.nodes@.len() == drawn_labels(*graph, ps.take(m as int)).len(),
            forall|i: int|
                0 <= i < out.nodes@.len() ==> (#[trigger] out.nodes@[i]).label@ == drawn_labels(
                    *graph,
                    ps.take(m as int),
                )[i],
            out.edges@.len() == drawn_edges(*graph, ps.take(m as int)).len(),
            forall|i: int|
                0 <= i < out.edges@.len() ==> ((#[trigger] out.edges@[i]).from as int, out.edges@[i].to as int, out.edges@[i].label)
                    == drawn_edges(*graph, ps.take(m as int))[i],
        decreases all@.len() - m,
    {
        let chain = &all[m];
        proof {
            assert(chain@ == ps[m as int]);
            assert(ps.take(m + 1).drop_last() =~= ps.take(m as int));
            assert(ps.take(m + 1).last() == chain@);
            lemma_drawn_grow(*graph, ps, m + 1);
        }
        if chain.len() > 0 {
            if chain.len() >= usize::MAX - 1 || out.nodes.len() >= usize::MAX - 1 - chain.len() {
                proof {
                    assert(path_labels(*graph, chain@).len() == chain@.len() + 1);
                    assert(drawn_labels(*graph, ps.take(m + 1)) == drawn_labels(*graph, ps.take(m as int)) + path_labels(*graph, chain@));
                }
                return out;
            }
            proof {
                let e0 = chain@[0];
                assert(ps[m as int][0] == e0);
                let w = choose|w: int| 0 <= w < graph.edges@.len() && graph.edges@[w] == e0;
            }
            let ghost labels0 = drawn_labels(*graph, ps.take(m as int));
            let ghost edges0 = drawn_edges(*graph, ps.take(m as int));
            let ghost pl = path_labels(*graph, chain@);
            let base = out.nodes.len();
            let mut prev = out.add_node(graph.nodes[chain[0].from].label.clone());
            let mut j: usize = 0;
            while j < chain.len()
                invariant
                    graph.wf(),
                    0 < chain@.len(),
                    m < ps.len(),
                    chain@ == ps[m as int],
                    forall|b: int| 0 <= b < chain@.len() ==> graph.edges@.contains(#[trigger] chain@[b]),
                    base == labels0.len(),
                    base + chain@.len() + 1 < usize::MAX,
                    pl == path_labels(*graph, chain@),
                    j <= chain@.len(),
                    prev == base + j,
                    out.wf(),
                    out.crate_name == graph.crate_name,
                    out.nodes@.len() == base + j + 1,
                    forall|i: int|
                        0 <= i < out.nodes@.len() ==> (#[trigger] out.nodes@[i]).label@ == (labels0 + pl)[i],
                    out.edges@.len() == edges0.len() + j,
                    forall|i: int|
                        0 <= i < out.edges@.len() ==> ((#[trigger] out.edges@[i]).from as int, out.edges@[i].to as int, out.edges@[i].label)
                            == (edges0 + Seq::new(chain@.len(), |x: int| (base + x, base + x + 1, chain@[x].ty)))[i],
                decreases chain@.len() - j,
            {
                let ce = &chain[j];
                proof {
                    assert(chain@[j as int] == ps[m as int][j as int]);
                    let w = choose|w: int| 0 <= w < graph.edges@.len() && graph.edges@[w] == chain@[j as int];
                }
                let new = out.add_node(graph.nodes[ce.to].label.clone());
                out.add_edge(prev, new, copy_label(&ce.ty));
                prev = new;
                j = j + 1;
            }
            proof {
                assert(drawn_labels(*graph, ps.take(m + 1)) == labels0 + pl);
                assert(pl.len() == chain@.len() + 1);
                assert(drawn_edges(*graph, ps.take(m + 1)) == edges0 + Seq::new(chain@.len(), |x: int| (base + x, base + x + 1, chain@[x].ty)));
            }
        } else {
            proof {
                assert(drawn_labels(*graph, ps.take(m + 1)) =~= drawn_labels(*graph, ps.take(m as int)));
                assert(drawn_edges(*graph, ps.take(m + 1)) =~= drawn_edges(*graph, ps.take(m as int)));
            }
        }
        m = m + 1;
    }
    proof {
        assert(ps.take(m as int) =~= ps);
    }
    out
}

/// Draw the maximal error propagation paths of `graph`, each with nodes of
/// its own.
pub fn format(graph: &CallGraph) -> (r: ChainGraph)
    requires
        graph.wf(),
    ensures
        r.wf(),
        r.crate_name == graph.crate_name,
        drawn_labels(*graph, all_paths(*graph)).len() < usize::MAX ==> {
            &&& r.nodes@.len() == drawn_labels(*graph, all_paths(*graph)).len()
            &&& forall|i: int|
                0 <= i < r.nodes@.len() ==> (#[trigger] r.nodes@[i]).label@ == drawn_labels(
                    *graph,
                    all_paths(*graph),
                )[i]
            &&& r.edges@.len() == drawn_edges(*graph, all_paths(*graph)).len()
            &&& forall|i: int|
                0 <= i < r.edges@.len() ==> ((#[trigger] r.edges@[i]).from as int, r.edges@[i].to as int, r.edges@[i].label)
                    == drawn_edges(*graph, all_paths(*graph))[i]
        },
{
    split_chains(graph)
}

} // verus!
