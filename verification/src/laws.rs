//! Laws of the semantics: what holds of every expression, environment and
//! program.

use crate::ast::{Expr, ExprView, TopLevel, TopLevelView};
use crate::error::{EvalError, EvalErrorView};
use crate::eval::{eval, eval_toplevel};
use crate::semantics::{apply_spec, eval_spec, eval_toplevel_spec, load_spec};
use crate::value::{outcome_view, EnvView, Environment, Value, ValueView};
use vstd::prelude::*;

verus! {

/// Whether `r` is the failure of running out of depth.
pub open spec fn out_of_depth<T>(r: Result<T, EvalErrorView>) -> bool {
    r == Err::<T, EvalErrorView>(EvalErrorView::RecursionLimitExceeded)
}

/// Determinism. Whatever [`eval`] may return for an expression and an
/// environment, it returns for every expression and environment with the
/// same views: two evaluations of one expression in one environment yield
/// equal values, or fail alike.
pub proof fn lemma_eval_deterministic(
    expr: &Expr,
    ctx: Environment,
    first: Result<Value, EvalError>,
    again_expr: &Expr,
    again_ctx: Environment,
    second: Result<Value, EvalError>,
)
    requires
        expr@ == again_expr@,
        ctx@ == again_ctx@,
        call_ensures(eval, (expr, ctx), first),
        call_ensures(eval, (again_expr, again_ctx), second),
    ensures
        outcome_view(first) == outcome_view(second),
        first matches Ok(v) ==> second matches Ok(w) && v@ == w@,
{
}

/// As [`lemma_eval_deterministic`], for [`eval_toplevel`]: loading one
/// program into one environment twice yields equal values, or fails alike.
pub proof fn lemma_toplevel_deterministic(
    top: &TopLevel,
    ctx: Environment,
    first: Result<Value, EvalError>,
    again_top: &TopLevel,
    again_ctx: Environment,
    second: Result<Value, EvalError>,
)
    requires
        top@ == again_top@,
        ctx@ == again_ctx@,
        call_ensures(eval_toplevel, (top, ctx), first),
        call_ensures(eval_toplevel, (again_top, again_ctx), second),
    ensures
        outcome_view(first) == outcome_view(second),
        first matches Ok(v) ==> second matches Ok(w) && v@ == w@,
{
}

/// Call by value. The argument of a call is evaluated in full, in the
/// caller's environment, before anything is bound: where it fails, the call
/// fails in the same way, whether or not the body would have used its
/// parameter; where it yields a value and the callee is a closure, the call
/// is the body evaluated with the parameter bound to that value.
pub proof fn lemma_call_by_value(f: ExprView, a: ExprView, env: EnvView, depth: nat)
    requires
        depth > 0,
    ensures
        match eval_spec(a, env, (depth - 1) as nat) {
            Err(err) => eval_spec(ExprView::App(Box::new(f), Box::new(a)), env, depth) == Err::<
                ValueView,
                EvalErrorView,
            >(err),
            Ok(arg) => match eval_spec(f, env, (depth - 1) as nat) {
                Ok(ValueView::VClosure(captured, param, body)) => eval_spec(
                    ExprView::App(Box::new(f), Box::new(a)),
                    env,
                    depth,
                ) == eval_spec(body, captured.insert(param, arg), (depth - 1) as nat),
                Ok(ValueView::VInt(_)) => eval_spec(
                    ExprView::App(Box::new(f), Box::new(a)),
                    env,
                    depth,
                ) is Err,
                Err(err) => eval_spec(ExprView::App(Box::new(f), Box::new(a)), env, depth) == Err::<
                    ValueView,
                    EvalErrorView,
                >(err),
            },
        },
{
    reveal_with_fuel(eval_spec, 3);
    reveal_with_fuel(apply_spec, 3);
}

/// Lexical capture. A function keeps the environment of the place where it
/// was written. Evaluating `#param => body` in `defined` yields a closure;
/// called through the name `f` from any environment `caller` that binds `f`
/// to that closure, its body sees `defined` extended by the parameter, and
/// nothing of `caller`.
pub proof fn lemma_closure_sees_its_own_scope(
    param: Seq<char>,
    body: ExprView,
    defined: EnvView,
    f: Seq<char>,
    a: ExprView,
    caller: EnvView,
    depth: nat,
)
    requires
        depth > 0,
        caller.dom().contains(f),
        caller[f] == ValueView::VClosure(defined, param, body),
    ensures
        eval_spec(ExprView::Lam(param, Box::new(body)), defined, depth) == Ok::<
            ValueView,
            EvalErrorView,
        >(caller[f]),
        match eval_spec(a, caller, (depth - 1) as nat) {
            Err(err) => eval_spec(
                ExprView::App(Box::new(ExprView::Var(f)), Box::new(a)),
                caller,
                depth,
            ) == Err::<ValueView, EvalErrorView>(err),
            Ok(arg) => eval_spec(
                ExprView::App(Box::new(ExprView::Var(f)), Box::new(a)),
                caller,
                depth,
            ) == eval_spec(body, defined.insert(param, arg), (depth - 1) as nat),
        },
{
    reveal_with_fuel(eval_spec, 3);
    reveal_with_fuel(apply_spec, 3);
}

/// Lexical capture, seen from the caller. Binding or rebinding any name but
/// `f` itself, after the value of `f` was made, does not change what a call
/// of `f` gives, as long as the argument has the same value.
pub proof fn lemma_rebinding_keeps_call(
    env: EnvView,
    f: Seq<char>,
    a: ExprView,
    other: Seq<char>,
    w: ValueView,
    depth: nat,
)
    requires
        depth > 0,
        other != f,
        eval_spec(a, env.insert(other, w), (depth - 1) as nat) == eval_spec(
            a,
            env,
            (depth - 1) as nat,
        ),
    ensures
        eval_spec(
            ExprView::App(Box::new(ExprView::Var(f)), Box::new(a)),
            env.insert(other, w),
            depth,
        ) == eval_spec(ExprView::App(Box::new(ExprView::Var(f)), Box::new(a)), env, depth),
{
    reveal_with_fuel(eval_spec, 3);
    reveal_with_fuel(apply_spec, 3);
}

/// A `let` binds its name for its body alone: the bound expression is
/// evaluated without the name, and the body with it.
pub proof fn lemma_let_scope(x: Seq<char>, bound: ExprView, body: ExprView, env: EnvView, depth: nat)
    requires
        depth > 0,
    ensures
        match eval_spec(bound, env, (depth - 1) as nat) {
            Err(err) => eval_spec(
                ExprView::Let(x, Box::new(bound), Box::new(body)),
                env,
                depth,
            ) == Err::<ValueView, EvalErrorView>(err),
            Ok(v) => eval_spec(ExprView::Let(x, Box::new(bound), Box::new(body)), env, depth)
                == eval_spec(body, env.insert(x, v), (depth - 1) as nat),
        },
{
}

/// The depth limit decides only whether an evaluation completes, never what
/// it yields: a result reached within `d1` nested evaluations is the result
/// for every larger limit.
pub proof fn lemma_eval_depth_monotonic(e: ExprView, env: EnvView, d1: nat, d2: nat)
    requires
        d1 <= d2,
        !out_of_depth(eval_spec(e, env, d1)),
    ensures
        eval_spec(e, env, d2) == eval_spec(e, env, d1),
    decreases d1, 0nat,
{
    let i1 = (d1 - 1) as nat;
    let i2 = (d2 - 1) as nat;
    match e {
        ExprView::Int(_) => {},
        ExprView::Var(_) => {},
        ExprView::Lam(_, _) => {},
        ExprView::App(f, a) => {
            lemma_eval_depth_monotonic(*a, env, i1, i2);
            if let Ok(arg) = eval_spec(*a, env, i1) {
                lemma_eval_depth_monotonic(*f, env, i1, i2);
                if let Ok(callee) = eval_spec(*f, env, i1) {
                    lemma_apply_depth_monotonic(callee, arg, i1, i2);
                }
            }
        },
        ExprView::Let(x, bound, body) => {
            lemma_eval_depth_monotonic(*bound, env, i1, i2);
            if let Ok(v) = eval_spec(*bound, env, i1) {
                lemma_eval_depth_monotonic(*body, env.insert(x, v), i1, i2);
            }
        },
        ExprView::Add(l, r) => {
            lemma_eval_depth_monotonic(*l, env, i1, i2);
            if eval_spec(*l, env, i1) is Ok {
                lemma_eval_depth_monotonic(*r, env, i1, i2);
            }
        },
    }
}

/// As [`lemma_eval_depth_monotonic`], for a call.
pub proof fn lemma_apply_depth_monotonic(callee: ValueView, arg: ValueView, d1: nat, d2: nat)
    requires
        d1 <= d2,
        !out_of_depth(apply_spec(callee, arg, d1)),
    ensures
        apply_spec(callee, arg, d2) == apply_spec(callee, arg, d1),
    decreases d1, 1nat,
{
    match callee {
        ValueView::VClosure(captured, param, body) => {
            lemma_eval_depth_monotonic(body, captured.insert(param, arg), d1, d2);
        },
        ValueView::VInt(_) => {},
    }
}

/// As [`lemma_eval_depth_monotonic`], for the loading of definitions.
pub proof fn lemma_load_depth_monotonic(items: Seq<TopLevelView>, env: EnvView, d1: nat, d2: nat)
    requires
        d1 <= d2,
        !out_of_depth(load_spec(items, env, d1)),
    ensures
        load_spec(items, env, d2) == load_spec(items, env, d1),
    decreases items.len(),
{
    if items.len() > 0 {
        lemma_load_depth_monotonic(items.drop_last(), env, d1, d2);
        if let Ok(acc) = load_spec(items.drop_last(), env, d1) {
            if let TopLevelView::TopDef(_, expr) = items.last() {
                lemma_eval_depth_monotonic(expr, acc, d1, d2);
            }
        }
    }
}

/// As [`lemma_eval_depth_monotonic`], for a whole program.
pub proof fn lemma_toplevel_depth_monotonic(top: TopLevelView, env: EnvView, d1: nat, d2: nat)
    requires
        d1 <= d2,
        !out_of_depth(eval_toplevel_spec(top, env, d1)),
    ensures
        eval_toplevel_spec(top, env, d2) == eval_toplevel_spec(top, env, d1),
{
    if let TopLevelView::TopLoad(items) = top {
        lemma_load_depth_monotonic(items, env, d1, d2);
    }
}

/// Loading fails fast: a failure while loading the first `k` items is the
/// failure of loading them all, whatever follows.
pub proof fn lemma_load_fails_early(items: Seq<TopLevelView>, k: int, env: EnvView, depth: nat)
    requires
        0 <= k <= items.len(),
        load_spec(items.take(k), env, depth) is Err,
    ensures
        load_spec(items, env, depth) == load_spec(items.take(k), env, depth),
    decreases items.len() - k,
{
    if k < items.len() {
        assert(items.take(k + 1).drop_last() == items.take(k));
        lemma_load_fails_early(items, k + 1, env, depth);
    } else {
        assert(items.take(k) == items);
    }
}

/// No forward reference: what the first `k` definitions are bound to does
/// not depend on the items that follow them. Where the whole load succeeds,
/// so does the load of the first `k` items alone.
pub proof fn lemma_loaded_prefix_succeeds(
    items: Seq<TopLevelView>,
    k: int,
    env: EnvView,
    depth: nat,
)
    requires
        0 <= k <= items.len(),
        load_spec(items, env, depth) is Ok,
    ensures
        load_spec(items.take(k), env, depth) is Ok,
{
    if load_spec(items.take(k), env, depth) is Err {
        lemma_load_fails_early(items, k, env, depth);
    }
}

} // verus!
