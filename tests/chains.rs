use error_chains::chains::to_chains;

use error_chains::graph::{CallEdge, CallGraph, CallNodeKind, ChainEdge, ChainGraph};
use error_chains::ir::{DefId, HirId};
use error_chains::render::{edge_color, edge_style, graph_id, node_color, Color, LineStyle};

fn graph(labels: &[&str], edges: &[(usize, usize, bool, bool)]) -> CallGraph {
    let mut g = CallGraph::new("crate1".to_string());
    for (i, l) in labels.iter().enumerate() {
        let d = DefId { krate: 0, index: i as u32 };
        g.add_node(l, CallNodeKind::local_fn(d, HirId { owner: i as u32, local_id: 0 }));
    }
    for (k, (from, to, is_error, propagates)) in edges.iter().enumerate() {
        let mut e = CallEdge::new(*from, *to, HirId { owner: 0, local_id: k as u32 }, *propagates);
        e.is_error = *is_error;
        e.ty = Some(format!("T{k}"));
        g.add_edge(e);
    }
    g
}

fn chain_labels(c: &ChainGraph) -> Vec<(String, String, Option<String>)> {
    c.edges
        .iter()
        .map(|e| (c.nodes[e.from].label.clone(), c.nodes[e.to].label.clone(), e.label.clone()))
        .collect()
}

fn pair(a: &str, b: &str, l: &str) -> (String, String, Option<String>) {
    (a.to_string(), b.to_string(), Some(l.to_string()))
}

#[test]
fn chain_extraction_boundary() {
    // a->b error kept, b->c error forwarded, c->d no error
    let g = graph(&["a", "b", "c", "d"], &[(0, 1, true, false), (1, 2, true, true), (2, 3, false, false)]);
    let (c, stats) = to_chains(&g);
    assert_eq!(stats.count, 1);
    assert_eq!(stats.max_depth, 2);
    assert_eq!(stats.max_edge_count, 2);
    assert_eq!(stats.total_edge_count, 2);
    assert_eq!(stats.mean_edge_count(), Some((2, 1)));
    assert_eq!(c.nodes.len(), 3);
    assert!(c.nodes.iter().all(|n| n.label != "d"));
    assert_eq!(chain_labels(&c), vec![pair("b", "c", "T1"), pair("a", "b", "T0")]);
}

#[test]
fn empty_chain_average() {
    let g = graph(&["a", "b", "c"], &[(0, 1, false, true), (1, 2, true, true), (0, 2, false, false)]);
    let (c, stats) = to_chains(&g);
    assert_eq!(stats.count, 0);
    assert_eq!(stats.max_depth, 0);
    assert_eq!(stats.mean_edge_count(), None);
    assert_eq!(c.nodes.len(), 0);
    assert_eq!(c.edges.len(), 0);
}

#[test]
fn cycle_safety() {
    // x->a starts a chain; a->b->a forwards errors round a cycle
    let g = graph(&["x", "a", "b"], &[(0, 1, true, false), (1, 2, true, true), (2, 1, true, true)]);
    let (c, stats) = to_chains(&g);
    assert_eq!(stats.count, 1);
    assert_eq!(stats.max_depth, 2);
    assert_eq!(stats.total_edge_count, 3);
    let edges = chain_labels(&c);
    assert_eq!(edges, vec![pair("a", "b", "T1"), pair("b", "a", "T2"), pair("x", "a", "T0")]);
    let closing = edges.iter().filter(|e| e.0 == "b" && e.1 == "a").count();
    assert_eq!(closing, 1);
    assert_eq!(c.nodes.len(), 3);
}

#[test]
fn two_chains_each_get_their_own_nodes() {
    let g = graph(
        &["a", "b", "c", "d"],
        &[(0, 2, true, false), (1, 2, true, false), (2, 3, true, true)],
    );
    let (c, stats) = to_chains(&g);
    assert_eq!(stats.count, 2);
    assert_eq!(stats.total_edge_count, 4);
    assert_eq!(c.nodes.len(), 6);
    assert_eq!(
        chain_labels(&c),
        vec![pair("c", "d", "T2"), pair("a", "c", "T0"), pair("c", "d", "T2"), pair("b", "c", "T1")]
    );
}

#[test]
fn deepest_branch_counts() {
    // s->a starts; a->b, a->c, c->d forward
    let g = graph(
        &["s", "a", "b", "c", "d"],
        &[(0, 1, true, false), (1, 2, true, true), (1, 3, true, true), (3, 4, true, true)],
    );
    let (_c, stats) = to_chains(&g);
    assert_eq!(stats.count, 1);
    assert_eq!(stats.max_depth, 3);
    assert_eq!(stats.max_edge_count, 4);
}

#[test]
fn format_draws_each_path() {
    let g = graph(
        &["s", "a", "b", "c", "d"],
        &[(0, 1, true, false), (1, 2, true, true), (1, 3, true, true), (3, 4, true, true)],
    );
    let c = error_chains::format_graph::format(&g);
    assert_eq!(c.nodes.len(), 7);
    assert_eq!(
        chain_labels(&c),
        vec![pair("s", "a", "T0"), pair("a", "b", "T1"), pair("s", "a", "T0"), pair("a", "c", "T2"), pair("c", "d", "T3")]
    );
}

#[test]
fn format_stops_at_cycle() {
    let g = graph(&["x", "a", "b"], &[(0, 1, true, false), (1, 2, true, true), (2, 1, true, true)]);
    let c = error_chains::format_graph::format(&g);
    assert_eq!(chain_labels(&c), vec![pair("x", "a", "T0"), pair("a", "b", "T1"), pair("b", "a", "T2")]);
}

#[test]
fn format_of_lone_start() {
    let g = graph(&["x", "a"], &[(0, 1, true, false)]);
    let c = error_chains::format_graph::format(&g);
    assert_eq!(c.nodes.len(), 2);
    assert_eq!(chain_labels(&c), vec![pair("x", "a", "T0")]);
}

#[test]
fn chain_graph_building() {
    let mut c = ChainGraph::new("k".to_string());
    assert_eq!(c.add_node("one".to_string()), 0);
    assert_eq!(c.add_node("two".to_string()), 1);
    c.add_edge(0, 1, Some("E".to_string()));
    assert_eq!(c.edges.len(), 1);
    let e = ChainEdge::new(1, 0, None);
    assert_eq!((e.from, e.to, e.label), (1, 0, None));
    assert_eq!(c.walk_nodes(), vec![0, 1]);
}

#[test]
fn outgoing_edges_and_lookup() {
    let g = graph(&["a", "b", "c"], &[(0, 1, false, false), (1, 2, false, false), (0, 2, false, false)]);
    let out: Vec<usize> = g.get_outgoing_edges(0).iter().map(|e| e.to).collect();
    assert_eq!(out, vec![1, 2]);
    assert_eq!(g.find_local_fn_node(HirId { owner: 2, local_id: 0 }).map(|n| n.id()), Some(2));
    assert!(g.find_local_fn_node(HirId { owner: 7, local_id: 0 }).is_none());
    assert!(g.find_non_local_fn_node(DefId { krate: 0, index: 1 }).is_none());
    assert_eq!(g.walk_nodes(), vec![0, 1, 2]);
}

#[test]
fn drawing_choices() {
    let mut e = CallEdge::new(0, 1, HirId { owner: 0, local_id: 0 }, true);
    assert_eq!(edge_color(&e), Some(Color::Blue));
    assert_eq!(edge_style(&e), LineStyle::Solid);
    e.is_error = true;
    assert_eq!(edge_color(&e), Some(Color::Purple));
    e.propagates = false;
    assert_eq!(edge_color(&e), Some(Color::Red));
    e.is_error = false;
    assert_eq!(edge_color(&e), None);
    assert_eq!(edge_style(&e), LineStyle::Dotted);
    let g = graph(&["a"], &[]);
    assert_eq!(node_color(&g.nodes[0]), None);
    let id: String = graph_id("my-crate 2", false).into_iter().collect();
    assert_eq!(id, "error_propagation_mycrate2");
    let id: String = graph_id("x_y", true).into_iter().collect();
    assert_eq!(id, "error_propagation_x_y_chains");
}
