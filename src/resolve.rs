//! Resolving a call site to the function it invokes.
//!
//! The compiled body's record of the call is preferred; a direct path to a
//! function comes next. A call through a value of unknown type resolves to
//! nothing and gives no edge: dynamic dispatch and calls through unresolved
//! generic parameters are not seen by the analysis.

use vstd::prelude::*;
use crate::graph::CallNodeKind;
use crate::ir::{
    find_callee, find_def, find_mir, find_span, owner_def_id, DefId, DefKind, HirId, Program,
    QPath, Res,
};
use crate::types::owner_of;

verus! {

/// The syntax node that owns local definition `d`: the one recorded for it,
/// or else the item node of the same index.
pub open spec fn local_hir(p: Program, d: DefId) -> HirId {
    match find_def(p.defs@, d) {
        Some(info) if info.hir_id is Some => info.hir_id->0,
        _ => HirId { owner: d.index, local_id: 0 },
    }
}

/// The node kind of definition `d`.
pub open spec fn node_kind_of(p: Program, d: DefId) -> CallNodeKind {
    if d.is_local() {
        CallNodeKind::LocalFn(d, local_hir(p, d))
    } else {
        CallNodeKind::NonLocalFn(d)
    }
}

/// The callee that the compiled body records for call `call_id`.
pub open spec fn mir_callee_def(p: Program, call_id: HirId) -> Option<DefId> {
    match find_mir(p.mir@, owner_def_id(call_id.owner)) {
        Some(body) => match find_span(p.spans@, call_id) {
            Some(hi) => match find_callee(body.calls@, hi) {
                Some(c) => Some(c.def_id),
                None => None,
            },
            None => None,
        },
        None => None,
    }
}

/// Definitions whose use is a call: functions, constructors, associated
/// functions and closures.
pub open spec fn is_callable(kind: DefKind) -> bool {
    kind == DefKind::Fn || kind == DefKind::Ctor || kind == DefKind::AssocFn || kind
        == DefKind::Closure
}

/// The node kind that path `q` names, and whether using it is a call.
pub open spec fn path_target(p: Program, q: QPath) -> Option<(CallNodeKind, bool)>
    decreases q,
{
    match q {
        QPath::Resolved(Res::Def(kind, id)) => Some((node_kind_of(p, id), is_callable(kind))),
        QPath::Resolved(Res::Other) => None,
        QPath::TypeRelative(Some(inner)) => path_target(p, *inner),
        QPath::TypeRelative(None) => None,
        QPath::LangItem => None,
    }
}

/// The syntax node that owns local definition `def_id`.
pub fn local_def_id_to_hir_id(context: &Program, def_id: DefId) -> (r: HirId)
    ensures
        r == local_hir(*context, def_id),
{
    match context.def_info(def_id) {
        Some(info) => match info.hir_id {
            Some(h) => h,
            None => HirId { owner: def_id.index, local_id: 0 },
        },
        None => HirId { owner: def_id.index, local_id: 0 },
    }
}

/// Get the `CallNodeKind` of a definition.
pub fn get_node_kind_from_def_id(context: &Program, def_id: DefId) -> (r: CallNodeKind)
    ensures
        r == node_kind_of(*context, def_id),
{
    if def_id.is_local() {
        CallNodeKind::local_fn(def_id, local_def_id_to_hir_id(context, def_id))
    } else {
        CallNodeKind::non_local_fn(def_id)
    }
}

/// Get the node kind from a path, and whether using the path is a call.
pub fn get_node_kind_from_path(context: &Program, qpath: &QPath) -> (r: Option<(CallNodeKind, bool)>)
    ensures
        r == path_target(*context, *qpath),
    decreases qpath,
{
    match qpath {
        QPath::Resolved(res) => {
            if let Res::Def(kind, id) = res {
                let add_edge: bool = match kind {
                    DefKind::Fn | DefKind::Ctor | DefKind::AssocFn | DefKind::Closure => true,
                    DefKind::Other => false,
                };
                return Some((get_node_kind_from_def_id(context, *id), add_edge));
            }
            None
        },
        QPath::TypeRelative(ty_path) => match ty_path {
            Some(inner) => get_node_kind_from_path(context, inner),
            None => None,
        },
        QPath::LangItem => None,
    }
}

/// Get the definition that the compiled body records as the callee of call
/// `call_id`.
pub fn get_call_def_id(context: &Program, call_id: HirId) -> (r: Option<DefId>)
    ensures
        r == mir_callee_def(*context, call_id),
{
    let body = match context.mir_of(owner_of(call_id)) {
        Some(b) => b,
        None => return None,
    };
    let hi = match context.span_hi(call_id) {
        Some(h) => h,
        None => return None,
    };
    match body.callee_at(hi) {
        Some(c) => Some(c.def_id),
        None => None,
    }
}

} // verus!
