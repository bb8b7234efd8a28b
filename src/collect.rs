//! Finding the calls in a function body.
//!
//! A call forwards its result when it stands in forwarding position: as the
//! operand of `?`, or as the value the function returns. The value returned is
//! the final expression of the body, seen through blocks, `if` branches and
//! match arms that are themselves in that position, and the operand of a
//! `return` that is in that position or is a statement of a block that is.
//! Arguments, conditions, scrutinees and operands of other expressions are
//! never in forwarding position.

use vstd::prelude::*;
use crate::graph::CallNodeKind;
use crate::ir::{Arm, Block, Expr, ExprKind, MatchSource, Pat, Program, Stmt};
use crate::resolve::{
    get_call_def_id, get_node_kind_from_def_id, get_node_kind_from_path, mir_callee_def,
    node_kind_of, path_target,
};
use crate::ir::HirId;

verus! {

/// A call site found in a body: the function it resolves to, the call
/// expression, whether it becomes an edge, and whether it forwards its result.
#[derive(Debug, Clone, Copy, PartialEq, Eq, Structural)]
pub struct FoundCall {
    pub kind: CallNodeKind,
    pub call_id: HirId,
    pub add_edge: bool,
    pub propagates: bool,
}

/// The calls in expression `e`, in the order they are visited; `fwd` tells
/// whether `e` is in forwarding position.
pub open spec fn calls_in_expr(p: Program, e: Expr, fwd: bool) -> Seq<FoundCall>
    decreases e, 2nat,
{
    let here = |kind: CallNodeKind, add_edge: bool, propagates: bool|
        seq![FoundCall { kind, call_id: e.hir_id, add_edge, propagates }];
    match e.kind {
        ExprKind::Call(func, args) => {
            let callee = match mir_callee_def(p, e.hir_id) {
                Some(d) => here(node_kind_of(p, d), true, fwd),
                None => match func.kind {
                    ExprKind::Path(q) => match path_target(p, q) {
                        Some((k, _)) => here(k, true, fwd),
                        None => Seq::empty(),
                    },
                    _ => Seq::empty(),
                },
            };
            callee + calls_in_exprs(p, args@)
        },
        ExprKind::MethodCall(recv, args, chosen) => {
            let callee = match mir_callee_def(p, e.hir_id) {
                Some(d) => here(node_kind_of(p, d), true, fwd),
                None => match chosen {
                    Some(d) => here(node_kind_of(p, d), true, fwd),
                    None => Seq::empty(),
                },
            };
            callee + calls_in_expr(p, *recv, false) + calls_in_exprs(p, args@)
        },
        ExprKind::Match(scrutinee, arms, MatchSource::TryDesugar) => calls_in_expr(
            p,
            *scrutinee,
            true,
        ),
        ExprKind::Match(scrutinee, arms, MatchSource::Normal) => calls_in_expr(
            p,
            *scrutinee,
            false,
        ) + calls_in_arms(p, arms@, fwd),
        ExprKind::If(cond, then_branch, else_branch) => {
            let other = match else_branch {
                Some(b) => calls_in_expr(p, *b, fwd),
                None => Seq::empty(),
            };
            calls_in_expr(p, *cond, false) + calls_in_expr(p, *then_branch, fwd) + other
        },
        ExprKind::Closure(d) => here(node_kind_of(p, d), false, false),
        ExprKind::Block(b) => calls_in_block(p, b, fwd),
        ExprKind::Path(q) => match path_target(p, q) {
            Some((k, add_edge)) => here(k, add_edge, false),
            None => Seq::empty(),
        },
        ExprKind::Ret(value) => match value {
            Some(v) => calls_in_expr(p, *v, fwd),
            None => Seq::empty(),
        },
        ExprKind::DropTemps(inner) => calls_in_expr(p, *inner, fwd),
        ExprKind::Nested(operands) => calls_in_exprs(p, operands@),
        ExprKind::Leaf => Seq::empty(),
    }
}

/// The calls in `es`, none of them in forwarding position, one after another.
pub open spec fn calls_in_exprs(p: Program, es: Seq<Expr>) -> Seq<FoundCall>
    decreases es, 1nat,
{
    if es.len() == 0 {
        Seq::empty()
    } else {
        calls_in_exprs(p, es.drop_last()) + calls_in_expr(p, es.last(), false)
    }
}

/// The calls in the arms of a match, each arm's body, then its guard, then its
/// pattern; `fwd` tells whether the match is in forwarding position.
pub open spec fn calls_in_arms(p: Program, arms: Seq<Arm>, fwd: bool) -> Seq<FoundCall>
    decreases arms, 1nat,
{
    if arms.len() == 0 {
        Seq::empty()
    } else {
        let a = arms.last();
        let guard = match a.guard {
            Some(g) => calls_in_expr(p, g, false),
            None => Seq::empty(),
        };
        calls_in_arms(p, arms.drop_last(), fwd) + calls_in_expr(p, a.body, fwd) + guard
            + calls_in_pat(p, a.pat)
    }
}

/// The calls in block `b`: first those of its final expression, then those of
/// its statements. A final expression that only drops the temporaries of an
/// inner block stands for that block, whose calls come first.
pub open spec fn calls_in_block(p: Program, b: Block, fwd: bool) -> Seq<FoundCall>
    decreases b, 2nat,
{
    match b.expr {
        Some(tail) => match tail.kind {
            ExprKind::DropTemps(inner) => match inner.kind {
                ExprKind::Block(ib) => calls_in_block(p, ib, fwd) + calls_in_stmts(p, b.stmts@, fwd),
                _ => calls_in_expr(p, *tail, fwd) + calls_in_stmts(p, b.stmts@, fwd),
            },
            _ => calls_in_expr(p, *tail, fwd) + calls_in_stmts(p, b.stmts@, fwd),
        },
        None => calls_in_stmts(p, b.stmts@, fwd),
    }
}

/// A `return` expression.
pub open spec fn is_return(e: Expr) -> bool {
    e.kind is Ret
}

/// The calls in statements `ss`; in a block in forwarding position, a
/// statement that is a `return` is in forwarding position too.
pub open spec fn calls_in_stmts(p: Program, ss: Seq<Stmt>, fwd: bool) -> Seq<FoundCall>
    decreases ss, 1nat,
{
    if ss.len() == 0 {
        Seq::empty()
    } else {
        let last = match ss.last() {
            Stmt::Let(Some(init)) => calls_in_expr(p, init, false),
            Stmt::Let(None) => Seq::empty(),
            Stmt::Item => Seq::empty(),
            Stmt::Expr(e) => calls_in_expr(p, e, fwd && is_return(e)),
        };
        calls_in_stmts(p, ss.drop_last(), fwd) + last
    }
}

/// The calls in pattern `pat`: those of literal and range bounds.
pub open spec fn calls_in_pat(p: Program, pat: Pat) -> Seq<FoundCall>
    decreases pat, 2nat,
{
    match pat {
        Pat::Leaf => Seq::empty(),
        Pat::Nested(ps) => calls_in_pats(p, ps@),
        Pat::Lit(e) => calls_in_expr(p, *e, false),
        Pat::Range(lo, hi) => {
            let low = match lo {
                Some(a) => calls_in_expr(p, *a, false),
                None => Seq::empty(),
            };
            let high = match hi {
                Some(b) => calls_in_expr(p, *b, false),
                None => Seq::empty(),
            };
            low + high
        },
    }
}

/// The calls in patterns `ps`, one after another.
pub open spec fn calls_in_pats(p: Program, ps: Seq<Pat>) -> Seq<FoundCall>
    decreases ps, 1nat,
{
    if ps.len() == 0 {
        Seq::empty()
    } else {
        calls_in_pats(p, ps.drop_last()) + calls_in_pat(p, ps.last())
    }
}

/// A call record for expression `e`.
fn found(kind: CallNodeKind, e: &Expr, add_edge: bool, propagates: bool) -> (r: Vec<FoundCall>)
    ensures
        r@ == seq![FoundCall { kind, call_id: e.hir_id, add_edge, propagates }],
{
    let r = vec![FoundCall { kind, call_id: e.hir_id, add_edge, propagates }];
    proof {
        assert(r@ =~= seq![FoundCall { kind, call_id: e.hir_id, add_edge, propagates }]);
    }
    r
}

/// The calls in expression `expr`; `fwd` tells whether it is in forwarding
/// position.
pub fn get_function_calls_in_expression(context: &Program, expr: &Expr, fwd: bool) -> (r: Vec<
    FoundCall,
>)
    ensures
        r@ == calls_in_expr(*context, *expr, fwd),
    decreases expr, 2nat,
{
    let mut res: Vec<FoundCall> = Vec::new();
    match &expr.kind {
        ExprKind::Call(func, args) => {
            if let Some(def_id) = get_call_def_id(context, expr.hir_id) {
                let node_kind = get_node_kind_from_def_id(context, def_id);
                res = found(node_kind, expr, true, fwd);
            } else if let ExprKind::Path(qpath) = &func.kind {
                if let Some((node_kind, _add_edge)) = get_node_kind_from_path(context, qpath) {
                    res = found(node_kind, expr, true, fwd);
                }
            }
            let mut rest = get_function_calls_in_exprs(context, args);
            res.append(&mut rest);
        },
        ExprKind::MethodCall(recv, args, chosen) => {
            if let Some(def_id) = get_call_def_id(context, expr.hir_id) {
                let node_kind = get_node_kind_from_def_id(context, def_id);
                res = found(node_kind, expr, true, fwd);
            } else if let Some(def_id) = chosen {
                let node_kind = get_node_kind_from_def_id(context, *def_id);
                res = found(node_kind, expr, true, fwd);
            }
            let mut receiver = get_function_calls_in_expression(context, recv, false);
            res.append(&mut receiver);
            let mut rest = get_function_calls_in_exprs(context, args);
            res.append(&mut rest);
        },
        ExprKind::Match(scrutinee, arms, src) => match src {
            MatchSource::TryDesugar => {
                res = get_function_calls_in_expression(context, scrutinee, true);
            },
            MatchSource::Normal => {
                res = get_function_calls_in_expression(context, scrutinee, false);
                let mut rest = get_function_calls_in_arms(context, arms, fwd);
                res.append(&mut rest);
            },
        },
        ExprKind::If(cond, then_branch, else_branch) => {
            res = get_function_calls_in_expression(context, cond, false);
            let mut then_calls = get_function_calls_in_expression(context, then_branch, fwd);
            res.append(&mut then_calls);
            if let Some(b) = else_branch {
                let mut else_calls = get_function_calls_in_expression(context, b, fwd);
                res.append(&mut else_calls);
            }
        },
        ExprKind::Closure(def_id) => {
            let node_kind = get_node_kind_from_def_id(context, *def_id);
            res = found(node_kind, expr, false, false);
        },
        ExprKind::Block(block) => {
            res = get_function_calls_in_block(context, block, fwd);
        },
        ExprKind::Path(qpath) => {
            if let Some((node_kind, add_edge)) = get_node_kind_from_path(context, qpath) {
                res = found(node_kind, expr, add_edge, false);
            }
        },
        ExprKind::Ret(value) => {
            if let Some(v) = value {
                res = get_function_calls_in_expression(context, v, fwd);
            }
        },
        ExprKind::DropTemps(inner) => {
            res = get_function_calls_in_expression(context, inner, fwd);
        },
        ExprKind::Nested(operands) => {
            res = get_function_calls_in_exprs(context, operands);
        },
        ExprKind::Leaf => {},
    }
    res
}

/// The calls in `es`, none of them in forwarding position.
fn get_function_calls_in_exprs(context: &Program, es: &Vec<Expr>) -> (r: Vec<FoundCall>)
    ensures
        r@ == calls_in_exprs(*context, es@),
    decreases es, 1nat,
{
    let mut res: Vec<FoundCall> = Vec::new();
    let mut i: usize = 0;
    while i < es.len()
        invariant
            i <= es@.len(),
            res@ == calls_in_exprs(*context, es@.take(i as int)),
        decreases es@.len() - i,
    {
        let mut more = get_function_calls_in_expression(context, &es[i], false);
        proof {
            assert(es@.take(i + 1).drop_last() =~= es@.take(i as int));
        }
        res.append(&mut more);
        i = i + 1;
    }
    proof {
        assert(es@.take(i as int) =~= es@);
    }
    res
}

/// The calls in the arms of a match; `fwd` tells whether the match is in
/// forwarding position.
fn get_function_calls_in_arms(context: &Program, arms: &Vec<Arm>, fwd: bool) -> (r: Vec<FoundCall>)
    ensures
        r@ == calls_in_arms(*context, arms@, fwd),
    decreases arms, 1nat,
{
    let mut res: Vec<FoundCall> = Vec::new();
    let mut i: usize = 0;
    while i < arms.len()
        invariant
            i <= arms@.len(),
            res@ == calls_in_arms(*context, arms@.take(i as int), fwd),
        decreases arms@.len() - i,
    {
        let arm = &arms[i];
        proof {
            assert(arms@.take(i + 1).drop_last() =~= arms@.take(i as int));
        }
        let mut body = get_function_calls_in_expression(context, &arm.body, fwd);
        res.append(&mut body);
        if let Some(guard) = &arm.guard {
            let mut guard_calls = get_function_calls_in_expression(context, guard, false);
            res.append(&mut guard_calls);
        }
        let mut pat = get_function_calls_in_pattern(context, &arm.pat);
        res.append(&mut pat);
        i = i + 1;
    }
    proof {
        assert(arms@.take(i as int) =~= arms@);
    }
    res
}

/// The calls in block `block`; `fwd` tells whether it is in forwarding
/// position, as the body of a function is.
pub fn get_function_calls_in_block(context: &Program, block: &Block, fwd: bool) -> (r: Vec<
    FoundCall,
>)
    ensures
        r@ == calls_in_block(*context, *block, fwd),
    decreases block, 2nat,
{
    let mut res: Vec<FoundCall> = Vec::new();
    if let Some(exp) = &block.expr {
        if let ExprKind::DropTemps(ex) = &exp.kind {
            if let ExprKind::Block(b) = &ex.kind {
                res = get_function_calls_in_block(context, b, fwd);
                let mut stmts = get_function_calls_in_stmts(context, &block.stmts, fwd);
                res.append(&mut stmts);
                return res;
            }
        }
        res = get_function_calls_in_expression(context, exp, fwd);
    }
    let mut stmts = get_function_calls_in_stmts(context, &block.stmts, fwd);
    res.append(&mut stmts);
    res
}

/// The calls in statements `stmts` of a block; `fwd` tells whether the block
/// is in forwarding position.
fn get_function_calls_in_stmts(context: &Program, stmts: &Vec<Stmt>, fwd: bool) -> (r: Vec<
    FoundCall,
>)
    ensures
        r@ == calls_in_stmts(*context, stmts@, fwd),
    decreases stmts, 1nat,
{
    let mut res: Vec<FoundCall> = Vec::new();
    let mut i: usize = 0;
    while i < stmts.len()
        invariant
            i <= stmts@.len(),
            res@ == calls_in_stmts(*context, stmts@.take(i as int), fwd),
        decreases stmts@.len() - i,
    {
        proof {
            assert(stmts@.take(i + 1).drop_last() =~= stmts@.take(i as int));
        }
        match &stmts[i] {
            Stmt::Let(init) => {
                if let Some(exp) = init {
                    let mut more = get_function_calls_in_expression(context, exp, false);
                    res.append(&mut more);
                }
            },
            Stmt::Item => {},
            Stmt::Expr(exp) => {
                let is_ret = match &exp.kind {
                    ExprKind::Ret(_) => true,
                    _ => false,
                };
                let mut more = get_function_calls_in_expression(context, exp, fwd && is_ret);
                res.append(&mut more);
            },
        }
        i = i + 1;
    }
    proof {
        assert(stmts@.take(i as int) =~= stmts@);
    }
    res
}

/// The calls in pattern `pat`.
pub fn get_function_calls_in_pattern(context: &Program, pat: &Pat) -> (r: Vec<FoundCall>)
    ensures
        r@ == calls_in_pat(*context, *pat),
    decreases pat, 2nat,
{
    let mut res: Vec<FoundCall> = Vec::new();
    match pat {
        Pat::Leaf => {},
        Pat::Nested(pats) => {
            res = get_function_calls_in_pats(context, pats);
        },
        Pat::Lit(exp) => {
            res = get_function_calls_in_expression(context, exp, false);
        },
        Pat::Range(lo, hi) => {
            if let Some(a) = lo {
                res = get_function_calls_in_expression(context, a, false);
            }
            if let Some(b) = hi {
                let mut more = get_function_calls_in_expression(context, b, false);
                res.append(&mut more);
            }
        },
    }
    res
}

/// The calls in patterns `pats`, one after another.
fn get_function_calls_in_pats(context: &Program, pats: &Vec<Pat>) -> (r: Vec<FoundCall>)
    ensures
        r@ == calls_in_pats(*context, pats@),
    decreases pats, 1nat,
{
    let mut res: Vec<FoundCall> = Vec::new();
    let mut i: usize = 0;
    while i < pats.len()
        invariant
            i <= pats@.len(),
            res@ == calls_in_pats(*context, pats@.take(i as int)),
        decreases pats@.len() - i,
    {
        proof {
            assert(pats@.take(i + 1).drop_last() =~= pats@.take(i as int));
        }
        let mut more = get_function_calls_in_pattern(context, &pats[i]);
        res.append(&mut more);
        i = i + 1;
    }
    proof {
        assert(pats@.take(i as int) =~= pats@);
    }
    res
}

} // verus!
