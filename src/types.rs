//! Recognising error-carrying result types and the error type they carry.

use vstd::prelude::*;
use crate::ir::{
    find_callee, find_def, find_mir, find_span, owner_def_id, DefId, HirId, Program, TypeDesc,
};
use crate::text::{chars_of, concat_chars, ends_with, has_prefix, has_suffix, starts_with};

verus! {

/// How the result type prints, up to its first argument.
pub open spec fn result_prefix() -> Seq<char> {
    "std::result::Result<"@
}

/// A printed type is a result type: it starts with the result prefix and ends
/// with the closing bracket.
pub open spec fn is_result_form(s: Seq<char>) -> bool {
    has_prefix(s, result_prefix()) && has_suffix(s, seq!['>'])
}

/// `f` prints as the last generic argument of the type printed as `t`.
pub open spec fn is_last_arg(t: Seq<char>, f: Seq<char>) -> bool {
    has_suffix(t, seq![',', ' '] + f + seq!['>'])
}

/// The first result type met walking `t` before its arguments, in order.
pub open spec fn result_in(t: TypeDesc) -> Option<TypeDesc>
    decreases t, 1nat,
{
    if is_result_form(t.printed@) {
        Some(t)
    } else {
        result_in_list(t.args@)
    }
}

/// The first result type met walking `ts` in order.
pub open spec fn result_in_list(ts: Seq<TypeDesc>) -> Option<TypeDesc>
    decreases ts, 0nat,
{
    if ts.len() == 0 {
        None
    } else {
        match result_in(ts[0]) {
            Some(r) => Some(r),
            None => result_in_list(ts.drop_first()),
        }
    }
}

/// Walking `t` before its arguments, the first opaque type whose coroutine
/// holds a result type, walking the coroutine's arguments as `result_in`
/// does, gives that result type.
pub open spec fn future_result_in(t: TypeDesc) -> Option<TypeDesc>
    decreases t, 1nat,
{
    match t.coroutine_args {
        Some(args) if result_in_list(args@) is Some => result_in_list(args@),
        _ => future_result_in_list(t.args@),
    }
}

/// `future_result_in` over `ts` in order.
pub open spec fn future_result_in_list(ts: Seq<TypeDesc>) -> Option<TypeDesc>
    decreases ts, 0nat,
{
    if ts.len() == 0 {
        None
    } else {
        match future_result_in(ts[0]) {
            Some(r) => Some(r),
            None => future_result_in_list(ts.drop_first()),
        }
    }
}

/// Walking `t` before its arguments, the first type that prints as the last
/// argument of the type printed as `outer`.
pub open spec fn last_arg_in(outer: Seq<char>, t: TypeDesc) -> Option<Seq<char>>
    decreases t, 1nat,
{
    if is_last_arg(outer, t.printed@) {
        Some(t.printed@)
    } else {
        last_arg_in_list(outer, t.args@)
    }
}

/// `last_arg_in` over `ts` in order.
pub open spec fn last_arg_in_list(outer: Seq<char>, ts: Seq<TypeDesc>) -> Option<Seq<char>>
    decreases ts, 0nat,
{
    if ts.len() == 0 {
        None
    } else {
        match last_arg_in(outer, ts[0]) {
            Some(r) => Some(r),
            None => last_arg_in_list(outer, ts.drop_first()),
        }
    }
}

/// The result type that `t` is or holds: found in `t` itself, or else, for a
/// future, in the coroutine it stands for.
pub open spec fn result_of(t: TypeDesc) -> Option<TypeDesc> {
    match result_in(t) {
        Some(r) => Some(r),
        None => if t.opaque_future {
            future_result_in(t)
        } else {
            None
        },
    }
}

/// The error type that the result type `r` carries: its last argument.
pub open spec fn error_of(r: TypeDesc) -> Option<Seq<char>> {
    last_arg_in(r.printed@, r)
}

/// The label of a call returning `t`, and whether it returns an error: the
/// error type where `t` carries one, else `t` as printed.
pub open spec fn classify(t: TypeDesc) -> (Seq<char>, bool) {
    match result_of(t) {
        Some(r) => match error_of(r) {
            Some(e) => (e, true),
            None => (t.printed@, false),
        },
        None => (t.printed@, false),
    }
}

/// The return type recorded for call `call_id` in the compiled body of
/// `caller`, instantiated for that call.
pub open spec fn mir_call_type(p: Program, call_id: HirId, caller: DefId) -> Option<TypeDesc> {
    match find_mir(p.mir@, caller) {
        Some(body) => match find_span(p.spans@, call_id) {
            Some(hi) => match find_callee(body.calls@, hi) {
                Some(c) => Some(c.output),
                None => None,
            },
            None => None,
        },
        None => None,
    }
}

/// The declared return type of `called`, or its type if it is not a function.
pub open spec fn context_type(p: Program, called: DefId) -> Option<TypeDesc> {
    match find_def(p.defs@, called) {
        Some(d) => if d.sig_output is Some {
            d.sig_output
        } else {
            d.ty
        },
        None => None,
    }
}

/// The return type of a call: from the compiled body where it is there, else
/// from the callee's declaration.
pub open spec fn call_type(p: Program, call_id: HirId, caller: DefId, called: DefId) -> Option<
    TypeDesc,
> {
    match mir_call_type(p, call_id, caller) {
        Some(t) => Some(t),
        None => context_type(p, called),
    }
}

/// The label used when no return type is known.
pub open spec fn unknown_label() -> Seq<char> {
    "unknown"@
}

/// The label and error flag of a call.
pub open spec fn error_or_type(p: Program, call_id: HirId, caller: DefId, called: DefId) -> (Seq<
    char,
>, bool) {
    match call_type(p, call_id, caller, called) {
        Some(t) => classify(t),
        None => (unknown_label(), false),
    }
}

/// Whether the printed type `s` is a result type.
fn is_result_printed(s: &String) -> (r: bool)
    ensures
        r == is_result_form(s@),
{
    let c = chars_of(s.as_str());
    let prefix = chars_of("std::result::Result<");
    let close: Vec<char> = vec!['>'];
    proof {
        assert(close@ =~= seq!['>']);
    }
    starts_with(&c, &prefix) && ends_with(&c, &close)
}

/// The first result type met walking `t` before its arguments.
fn extract_result(t: &TypeDesc) -> (r: Option<&TypeDesc>)
    ensures
        r matches Some(x) ==> result_in(*t) == Some(*x),
        r is None ==> result_in(*t) is None,
    decreases t,
{
    if is_result_printed(&t.printed) {
        return Some(t);
    }
    let mut i: usize = 0;
    proof {
        assert(t.args@.skip(0) =~= t.args@);
    }
    while i < t.args.len()
        invariant
            i <= t.args@.len(),
            result_in(*t) == result_in_list(t.args@.skip(i as int)),
        decreases t.args@.len() - i,
    {
        proof {
            assert(t.args@.skip(i as int).drop_first() =~= t.args@.skip(i + 1));
        }
        let found = extract_result(&t.args[i]);
        if found.is_some() {
            return found;
        }
        i = i + 1;
    }
    None
}

/// The first result type met walking `ts` in order.
fn extract_result_in_list(ts: &Vec<TypeDesc>) -> (r: Option<&TypeDesc>)
    ensures
        r matches Some(x) ==> result_in_list(ts@) == Some(*x),
        r is None ==> result_in_list(ts@) is None,
{
    let mut i: usize = 0;
    proof {
        assert(ts@.skip(0) =~= ts@);
    }
    while i < ts.len()
        invariant
            i <= ts@.len(),
            result_in_list(ts@) == result_in_list(ts@.skip(i as int)),
        decreases ts@.len() - i,
    {
        proof {
            assert(ts@.skip(i as int).drop_first() =~= ts@.skip(i + 1));
        }
        let found = extract_result(&ts[i]);
        if found.is_some() {
            return found;
        }
        i = i + 1;
    }
    None
}

/// The result type held, at any depth, by the coroutine of the first opaque
/// type, walking `t` before its arguments, whose coroutine holds one.
fn extract_result_from_future(t: &TypeDesc) -> (r: Option<&TypeDesc>)
    ensures
        r matches Some(x) ==> future_result_in(*t) == Some(*x),
        r is None ==> future_result_in(*t) is None,
    decreases t,
{
    if let Some(args) = &t.coroutine_args {
        let found = extract_result_in_list(args);
        if found.is_some() {
            return found;
        }
    }
    let mut i: usize = 0;
    proof {
        assert(t.args@.skip(0) =~= t.args@);
    }
    while i < t.args.len()
        invariant
            i <= t.args@.len(),
            future_result_in(*t) == future_result_in_list(t.args@.skip(i as int)),
        decreases t.args@.len() - i,
    {
        proof {
            assert(t.args@.skip(i as int).drop_first() =~= t.args@.skip(i + 1));
        }
        let found = extract_result_from_future(&t.args[i]);
        if found.is_some() {
            return found;
        }
        i = i + 1;
    }
    None
}

/// Walking `t` before its arguments, the first type printed as the last
/// argument of `outer`; `sep` holds ", " and `close` holds ">".
fn find_last_arg(outer: &Vec<char>, t: &TypeDesc, sep: &Vec<char>, close: &Vec<char>) -> (r:
    Option<String>)
    requires
        sep@ == seq![',', ' '],
        close@ == seq!['>'],
    ensures
        r matches Some(x) ==> last_arg_in(outer@, *t) == Some(x@),
        r is None ==> last_arg_in(outer@, *t) is None,
    decreases t,
{
    let f = chars_of(t.printed.as_str());
    let wrapped = concat_chars(&concat_chars(sep, &f), close);
    if ends_with(outer, &wrapped) {
        return Some(t.printed.clone());
    }
    let mut i: usize = 0;
    proof {
        assert(t.args@.skip(0) =~= t.args@);
    }
    while i < t.args.len()
        invariant
            i <= t.args@.len(),
            sep@ == seq![',', ' '],
            close@ == seq!['>'],
            last_arg_in(outer@, *t) == last_arg_in_list(outer@, t.args@.skip(i as int)),
        decreases t.args@.len() - i,
    {
        proof {
            assert(t.args@.skip(i as int).drop_first() =~= t.args@.skip(i + 1));
        }
        let found = find_last_arg(outer, &t.args[i], sep, close);
        if found.is_some() {
            return found;
        }
        i = i + 1;
    }
    None
}

/// The error type that the result type `r` carries.
fn extract_error_from_result(r: &TypeDesc) -> (e: Option<String>)
    ensures
        e matches Some(x) ==> error_of(*r) == Some(x@),
        e is None ==> error_of(*r) is None,
{
    let outer = chars_of(r.printed.as_str());
    let sep: Vec<char> = vec![',', ' '];
    let close: Vec<char> = vec!['>'];
    proof {
        assert(sep@ =~= seq![',', ' ']);
        assert(close@ =~= seq!['>']);
    }
    find_last_arg(&outer, r, &sep, &close)
}

/// Classify a return type: the error type it carries and `true`, or the type
/// as printed and `false`.
pub fn classify_type(t: &TypeDesc) -> (r: (String, bool))
    ensures
        (r.0@, r.1) == classify(*t),
{
    let mut result = extract_result(t);
    if result.is_none() && t.opaque_future {
        result = extract_result_from_future(t);
    }
    match result {
        Some(res) => match extract_error_from_result(res) {
            Some(e) => (e, true),
            None => (t.printed.clone(), false),
        },
        None => (t.printed.clone(), false),
    }
}

/// The return type recorded for call `call_id` in the compiled body of
/// `caller`.
fn get_call_type_using_mir<'a>(context: &'a Program, call_id: HirId, caller_id: DefId) -> (r:
    Option<&'a TypeDesc>)
    ensures
        r matches Some(x) ==> mir_call_type(*context, call_id, caller_id) == Some(*x),
        r is None ==> mir_call_type(*context, call_id, caller_id) is None,
{
    let body = match context.mir_of(caller_id) {
        Some(b) => b,
        None => return None,
    };
    let hi = match context.span_hi(call_id) {
        Some(h) => h,
        None => return None,
    };
    match body.callee_at(hi) {
        Some(c) => Some(&c.output),
        None => None,
    }
}

/// The declared return type of `called_id`, or its type if it is not a
/// function.
fn get_call_type_using_context<'a>(context: &'a Program, called_id: DefId) -> (r: Option<
    &'a TypeDesc,
>)
    ensures
        r matches Some(x) ==> context_type(*context, called_id) == Some(*x),
        r is None ==> context_type(*context, called_id) is None,
{
    match context.def_info(called_id) {
        Some(d) => match &d.sig_output {
            Some(o) => Some(o),
            None => match &d.ty {
                Some(t) => Some(t),
                None => None,
            },
        },
        None => None,
    }
}

/// The return type of a call.
fn get_call_type<'a>(context: &'a Program, call_id: HirId, caller_id: DefId, called_id: DefId) -> (r:
    Option<&'a TypeDesc>)
    ensures
        r matches Some(x) ==> call_type(*context, call_id, caller_id, called_id) == Some(*x),
        r is None ==> call_type(*context, call_id, caller_id, called_id) is None,
{
    match get_call_type_using_mir(context, call_id, caller_id) {
        Some(t) => Some(t),
        None => get_call_type_using_context(context, called_id),
    }
}

/// The label of call `call_id` from `caller_id` to `called_id`, and whether it
/// returns an error.
pub fn get_error_or_type(context: &Program, call_id: HirId, caller_id: DefId, called_id: DefId) -> (r:
    (String, bool))
    ensures
        (r.0@, r.1) == error_or_type(*context, call_id, caller_id, called_id),
{
    match get_call_type(context, call_id, caller_id, called_id) {
        Some(t) => classify_type(t),
        None => ("unknown".to_owned(), false),
    }
}

/// The definition that owns the syntax nodes of `call_id`'s item.
pub fn owner_of(call_id: HirId) -> (r: DefId)
    ensures
        r == owner_def_id(call_id.owner),
{
    DefId { krate: crate::ir::LOCAL_CRATE, index: call_id.owner }
}

} // verus!

verus! {

/// A type printed as a result of `ok` and `err`, with those two arguments,
/// classifies as an error carrying `err`, provided nothing inside `ok` prints
/// as a different last argument of it.
pub proof fn lemma_result_type_classified(t: TypeDesc, ok: TypeDesc, err: TypeDesc)
    requires
        t.printed@ == result_prefix() + ok.printed@ + seq![',', ' '] + err.printed@ + seq!['>'],
        t.args@ == seq![ok, err],
        last_arg_in(t.printed@, ok) matches Some(x) ==> x == err.printed@,
    ensures
        classify(t) == (err.printed@, true),
{
    let s = t.printed@;
    let pre = result_prefix();
    assert(s.take(pre.len() as int) =~= pre);
    assert(s.skip(s.len() - 1) =~= seq!['>']);
    assert(is_result_form(s));
    assert(result_in(t) == Some(t));
    let w = seq![',', ' '] + err.printed@ + seq!['>'];
    assert(s.skip(s.len() - w.len()) =~= w);
    assert(is_last_arg(s, err.printed@));
    assert(!is_last_arg(s, s));
    assert(t.args@.drop_first() =~= seq![err]);
    assert(seq![err].drop_first() =~= Seq::<TypeDesc>::empty());
    assert(last_arg_in(s, err) == Some(err.printed@));
    assert(last_arg_in_list(s, seq![err]) == Some(err.printed@));
    assert(t.args@[0] == ok);
    assert(last_arg_in_list(s, t.args@) == Some(err.printed@));
    assert(error_of(t) == Some(err.printed@));
}

/// A type that neither is nor holds a result type, and is not a future,
/// classifies as no error, labelled as printed.
pub proof fn lemma_other_type_classified(t: TypeDesc)
    requires
        result_in(t) is None,
        !t.opaque_future,
    ensures
        classify(t) == (t.printed@, false),
{
}

} // verus!
