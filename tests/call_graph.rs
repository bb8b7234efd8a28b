use error_chains::analysis::{analyze, annotate, AnalysisError};
use error_chains::builder::create_call_graph_from_root;
use error_chains::collect::get_function_calls_in_block;
use error_chains::graph::CallNodeKind;
use error_chains::ir::{
    Block, DefId, DefInfo, DefKind, Expr, ExprKind, FnBody, HirId, MatchSource, MirBody, MirCall,
    MirCallee, Program, QPath, Res, SpanOf, Stmt, TypeDesc,
};
use error_chains::resolve::{get_call_def_id, get_node_kind_from_path};

fn def(index: u32) -> DefId {
    DefId { krate: 0, index }
}

fn hir(owner: u32) -> HirId {
    HirId { owner, local_id: 0 }
}

fn ty(printed: &str, args: Vec<TypeDesc>) -> TypeDesc {
    TypeDesc { printed: printed.to_string(), args, opaque_future: false, coroutine_args: None }
}

fn unit() -> TypeDesc {
    ty("()", vec![])
}

fn result_of(err: &str) -> TypeDesc {
    ty(&format!("std::result::Result<(), {err}>"), vec![unit(), ty(err, vec![])])
}

fn def_info(index: u32, path: &str, output: TypeDesc) -> DefInfo {
    DefInfo {
        def_id: def(index),
        hir_id: Some(hir(index)),
        path: path.to_string(),
        ty: None,
        sig_output: Some(output),
    }
}

/// A call of the local function `callee`, written as a path.
fn call(owner: u32, local_id: u32, callee: u32) -> Expr {
    Expr {
        hir_id: HirId { owner, local_id },
        kind: ExprKind::Call(
            Box::new(Expr {
                hir_id: HirId { owner, local_id: local_id + 100 },
                kind: ExprKind::Path(QPath::Resolved(Res::Def(DefKind::Fn, def(callee)))),
            }),
            vec![],
        ),
    }
}

fn body(owner: u32, stmts: Vec<Stmt>, tail: Option<Expr>) -> FnBody {
    FnBody { hir_id: hir(owner), block: Block { stmts, expr: tail.map(Box::new) } }
}

fn program(entry: Option<DefId>, defs: Vec<DefInfo>, bodies: Vec<FnBody>) -> Program {
    Program {
        crate_name: "crate1".to_string(),
        entry,
        defs,
        bodies,
        mir: vec![],
        spans: vec![],
    }
}

fn local_id_of(kind: &CallNodeKind) -> u32 {
    match kind {
        CallNodeKind::LocalFn(d, _) => d.index,
        CallNodeKind::NonLocalFn(d) => d.index + 1000,
    }
}

#[test]
fn forwarding_detection() {
    // fn f() -> Result<(), E> { g()?; h(); return i(); }
    let try_g = Expr {
        hir_id: HirId { owner: 1, local_id: 50 },
        kind: ExprKind::Match(Box::new(call(1, 1, 2)), vec![], MatchSource::TryDesugar),
    };
    let ret_i = Expr {
        hir_id: HirId { owner: 1, local_id: 51 },
        kind: ExprKind::Ret(Some(Box::new(call(1, 3, 4)))),
    };
    let f = body(1, vec![Stmt::Expr(try_g), Stmt::Expr(call(1, 2, 3)), Stmt::Expr(ret_i)], None);
    let p = program(
        Some(def(1)),
        vec![
            def_info(1, "crate1::f", result_of("E")),
            def_info(2, "crate1::g", result_of("E")),
            def_info(3, "crate1::h", result_of("E")),
            def_info(4, "crate1::i", result_of("E")),
        ],
        vec![f, body(2, vec![], None), body(3, vec![], None), body(4, vec![], None)],
    );
    let g = create_call_graph_from_root(&p, def(1));
    assert_eq!(g.nodes.len(), 4);
    assert_eq!(g.edges.len(), 3);
    let mut seen = vec![];
    for e in &g.edges {
        seen.push((local_id_of(&g.nodes[e.to].kind), e.propagates));
    }
    assert_eq!(seen, vec![(2, true), (3, false), (4, true)]);
}

#[test]
fn tail_expression_forwards_but_not_its_arguments() {
    // fn f() -> R { a(b()) }
    let mut outer = call(1, 1, 2);
    if let ExprKind::Call(_, args) = &mut outer.kind {
        args.push(call(1, 2, 3));
    }
    let p = program(
        Some(def(1)),
        vec![def_info(1, "f", unit()), def_info(2, "a", unit()), def_info(3, "b", unit())],
        vec![body(1, vec![], Some(outer))],
    );
    let calls = get_function_calls_in_block(&p, &p.bodies[0].block, true);
    assert_eq!(calls.len(), 2);
    assert!(calls[0].propagates);
    assert!(!calls[1].propagates);
}

#[test]
fn recursion_direct() {
    // fn main() { main() }
    let p = program(
        Some(def(1)),
        vec![def_info(1, "crate1::main", unit())],
        vec![body(1, vec![Stmt::Expr(call(1, 1, 1))], None)],
    );
    let g = create_call_graph_from_root(&p, def(1));
    assert_eq!(g.nodes.len(), 1);
    assert_eq!(g.nodes[0].label, "crate1::main");
    assert_eq!(g.edges.len(), 1);
    assert_eq!((g.edges[0].from, g.edges[0].to), (0, 0));
}

#[test]
fn recursion_mutual() {
    // fn main() { f() }  fn f() { g() }  fn g() { f() }
    let p = program(
        Some(def(1)),
        vec![
            def_info(1, "crate1::main", unit()),
            def_info(2, "crate1::f", unit()),
            def_info(3, "crate1::g", unit()),
        ],
        vec![
            body(1, vec![], Some(call(1, 1, 2))),
            body(2, vec![], Some(call(2, 1, 3))),
            body(3, vec![], Some(call(3, 1, 2))),
        ],
    );
    let g = create_call_graph_from_root(&p, def(1));
    let labels: Vec<&str> = g.nodes.iter().map(|n| n.label.as_str()).collect();
    assert_eq!(labels, vec!["crate1::main", "crate1::f", "crate1::g"]);
    let ends: Vec<(usize, usize)> = g.edges.iter().map(|e| (e.from, e.to)).collect();
    assert_eq!(ends, vec![(0, 1), (1, 2), (2, 1)]);
}

#[test]
fn repeated_callee_has_one_node() {
    // fn main() { ext(); ext(); f() }  fn f() { ext() }, ext outside the program
    let ext = |owner: u32, local_id: u32| Expr {
        hir_id: HirId { owner, local_id },
        kind: ExprKind::Call(
            Box::new(Expr {
                hir_id: HirId { owner, local_id: local_id + 100 },
                kind: ExprKind::Path(QPath::Resolved(Res::Def(
                    DefKind::Fn,
                    DefId { krate: 3, index: 9 },
                ))),
            }),
            vec![],
        ),
    };
    let p = program(
        Some(def(1)),
        vec![def_info(1, "main", unit()), def_info(2, "f", unit())],
        vec![
            body(1, vec![Stmt::Expr(ext(1, 1)), Stmt::Expr(ext(1, 2))], Some(call(1, 3, 2))),
            body(2, vec![], Some(ext(2, 1))),
        ],
    );
    let g = create_call_graph_from_root(&p, def(1));
    let outside = g
        .nodes
        .iter()
        .filter(|n| matches!(n.kind, CallNodeKind::NonLocalFn(_)))
        .count();
    assert_eq!(outside, 1);
    assert_eq!(g.nodes.len(), 3);
    assert_eq!(g.edges.len(), 4);
}

#[test]
fn closure_literal_makes_no_edge() {
    let closure = Expr { hir_id: HirId { owner: 1, local_id: 7 }, kind: ExprKind::Closure(def(5)) };
    let p = program(
        Some(def(1)),
        vec![def_info(1, "main", unit())],
        vec![body(1, vec![Stmt::Let(Some(closure))], None)],
    );
    let g = create_call_graph_from_root(&p, def(1));
    assert_eq!(g.nodes.len(), 1);
    assert_eq!(g.edges.len(), 0);
}

#[test]
fn unresolved_call_is_skipped() {
    // a call through a local variable
    let dynamic = Expr {
        hir_id: HirId { owner: 1, local_id: 1 },
        kind: ExprKind::Call(
            Box::new(Expr {
                hir_id: HirId { owner: 1, local_id: 2 },
                kind: ExprKind::Path(QPath::Resolved(Res::Other)),
            }),
            vec![],
        ),
    };
    let p = program(Some(def(1)), vec![def_info(1, "main", unit())], vec![body(1, vec![], Some(dynamic))]);
    let g = create_call_graph_from_root(&p, def(1));
    assert_eq!(g.edges.len(), 0);
}

#[test]
fn compiled_call_target_is_preferred() {
    // the path names def 2, but the compiled body records def 3
    let mut p = program(
        Some(def(1)),
        vec![def_info(1, "main", unit()), def_info(2, "two", unit()), def_info(3, "three", result_of("E3"))],
        vec![body(1, vec![], Some(call(1, 1, 2)))],
    );
    p.spans.push(SpanOf { hir_id: HirId { owner: 1, local_id: 1 }, hi: 40 });
    p.mir.push(MirBody {
        owner: def(1),
        calls: vec![
            MirCall { fn_span_hi: 12, callee: Some(MirCallee { def_id: def(2), output: unit() }) },
            MirCall { fn_span_hi: 40, callee: Some(MirCallee { def_id: def(3), output: result_of("E3") }) },
        ],
    });
    assert_eq!(get_call_def_id(&p, HirId { owner: 1, local_id: 1 }), Some(def(3)));
    assert_eq!(get_call_def_id(&p, HirId { owner: 1, local_id: 9 }), None);
    let (g, _chains, _stats) = analyze(&p).unwrap();
    assert_eq!(g.nodes[1].label, "three");
    assert_eq!(g.edges[0].ty.as_deref(), Some("E3"));
    assert!(g.edges[0].is_error);
    assert!(g.edges[0].propagates);
}

#[test]
fn type_relative_path_resolves_through_its_type() {
    let p = program(None, vec![], vec![]);
    let q = QPath::TypeRelative(Some(Box::new(QPath::Resolved(Res::Def(DefKind::AssocFn, def(4))))));
    let (kind, add_edge) = get_node_kind_from_path(&p, &q).unwrap();
    assert!(add_edge);
    assert_eq!(kind, CallNodeKind::LocalFn(def(4), hir(4)));
    let q = QPath::Resolved(Res::Def(DefKind::Other, DefId { krate: 2, index: 4 }));
    assert_eq!(
        get_node_kind_from_path(&p, &q),
        Some((CallNodeKind::NonLocalFn(DefId { krate: 2, index: 4 }), false))
    );
    assert_eq!(get_node_kind_from_path(&p, &QPath::LangItem), None);
    assert_eq!(get_node_kind_from_path(&p, &QPath::TypeRelative(None)), None);
}

#[test]
fn missing_entry_point_fails() {
    let p = program(None, vec![], vec![]);
    assert!(matches!(analyze(&p), Err(AnalysisError::NoEntryPoint)));
    let p = program(Some(DefId { krate: 5, index: 1 }), vec![], vec![]);
    assert!(matches!(analyze(&p), Err(AnalysisError::NoEntryPoint)));
}

#[test]
fn annotation_labels_edges() {
    let p = program(
        Some(def(1)),
        vec![
            def_info(1, "main", unit()),
            def_info(2, "fails", result_of("MyError")),
            def_info(3, "count", ty("u32", vec![])),
        ],
        vec![body(1, vec![Stmt::Expr(call(1, 1, 2))], Some(call(1, 2, 3))), body(4, vec![], None)],
    );
    let raw = create_call_graph_from_root(&p, def(1));
    let g = annotate(&p, raw);
    assert_eq!(g.edges[0].ty.as_deref(), Some("u32"));
    assert!(!g.edges[0].is_error);
    assert_eq!(g.edges[1].ty.as_deref(), Some("MyError"));
    assert!(g.edges[1].is_error);
}

#[test]
fn unknown_return_type() {
    let p = program(
        Some(def(1)),
        vec![def_info(1, "main", unit())],
        vec![body(1, vec![], Some(call(1, 1, 7)))],
    );
    let (g, _chains, stats) = analyze(&p).unwrap();
    assert_eq!(g.edges[0].ty.as_deref(), Some("unknown"));
    assert!(!g.edges[0].is_error);
    assert_eq!(stats.count, 0);
}

#[test]
fn analysis_is_deterministic() {
    let make = || {
        program(
            Some(def(1)),
            vec![
                def_info(1, "crate1::main", result_of("E")),
                def_info(2, "crate1::f", result_of("E")),
                def_info(3, "crate1::g", result_of("E")),
            ],
            vec![
                body(1, vec![Stmt::Expr(call(1, 1, 2))], Some(call(1, 2, 3))),
                body(2, vec![], Some(call(2, 1, 3))),
                body(3, vec![], Some(call(3, 1, 2))),
            ],
        )
    };
    let (g1, c1, s1) = analyze(&make()).unwrap();
    let (g2, c2, s2) = analyze(&make()).unwrap();
    let nodes = |g: &error_chains::graph::CallGraph| -> Vec<String> {
        g.nodes.iter().map(|n| n.label.clone()).collect()
    };
    let edges = |g: &error_chains::graph::CallGraph| -> Vec<(usize, usize, bool, bool, Option<String>)> {
        g.edges.iter().map(|e| (e.from, e.to, e.propagates, e.is_error, e.ty.clone())).collect()
    };
    assert_eq!(nodes(&g1), nodes(&g2));
    assert_eq!(edges(&g1), edges(&g2));
    assert_eq!(s1, s2);
    assert_eq!(c1.edges.len(), c2.edges.len());
    // main -> g is the tail call and forwards; main -> f does not
    assert_eq!(edges(&g1)[0], (0, 1, true, true, Some("E".to_string())));
    assert_eq!(s1.count, 1);
}

#[test]
fn statements_beside_dropped_temporaries_are_walked() {
    // { let x = a(); DropTemps({ b() }) }
    let inner = Expr {
        hir_id: HirId { owner: 1, local_id: 30 },
        kind: ExprKind::Block(Block { stmts: vec![], expr: Some(Box::new(call(1, 2, 3))) }),
    };
    let tail = Expr { hir_id: HirId { owner: 1, local_id: 31 }, kind: ExprKind::DropTemps(Box::new(inner)) };
    let p = program(
        Some(def(1)),
        vec![def_info(1, "f", unit()), def_info(2, "a", unit()), def_info(3, "b", unit())],
        vec![body(1, vec![Stmt::Let(Some(call(1, 1, 2)))], Some(tail))],
    );
    let calls = get_function_calls_in_block(&p, &p.bodies[0].block, true);
    assert_eq!(calls.len(), 2);
    assert_eq!(calls[0].call_id, HirId { owner: 1, local_id: 2 });
    assert!(calls[0].propagates);
    assert_eq!(calls[1].call_id, HirId { owner: 1, local_id: 1 });
    assert!(!calls[1].propagates);
}

#[test]
fn first_matching_node_is_found() {
    let mut g = error_chains::graph::CallGraph::new("k".to_string());
    g.add_node("one", CallNodeKind::local_fn(def(1), hir(1)));
    g.add_node("two", CallNodeKind::local_fn(def(2), hir(1)));
    g.add_node("ext", CallNodeKind::non_local_fn(DefId { krate: 4, index: 1 }));
    g.add_node("ext2", CallNodeKind::non_local_fn(DefId { krate: 4, index: 1 }));
    assert_eq!(g.find_local_fn_node(hir(1)).map(|n| n.id()), Some(0));
    assert_eq!(g.find_non_local_fn_node(DefId { krate: 4, index: 1 }).map(|n| n.id()), Some(2));
}

#[test]
fn built_edges_are_unannotated_and_once_per_call() {
    let p = program(
        Some(def(1)),
        vec![def_info(1, "main", result_of("E")), def_info(2, "f", result_of("E"))],
        vec![body(1, vec![Stmt::Expr(call(1, 1, 2))], Some(call(1, 2, 2))), body(2, vec![], None)],
    );
    let g = create_call_graph_from_root(&p, def(1));
    assert_eq!(g.edges.len(), 2);
    assert!(g.edges.iter().all(|e| e.ty.is_none() && !e.is_error));
    let ids: Vec<u32> = g.edges.iter().map(|e| e.call_id.local_id).collect();
    assert_eq!(ids, vec![2, 1]);
}
