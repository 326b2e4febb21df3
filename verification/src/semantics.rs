//! The meaning of expressions and programs, as specification functions over
//! views.
//!
//! Evaluation is call by value and passes environments: a closure keeps the
//! environment of the place where it was written, and a call evaluates the
//! body in that environment extended by the parameter. Nesting is bounded: an
//! evaluation that would nest more deeply than `depth` fails with
//! `RecursionLimitExceeded`. Addition wraps around at 32 bits.

use crate::ast::{ExprView, TopLevelView};
use crate::error::EvalErrorView;
use crate::value::{kind_spec, lookup_spec, EnvView, Outcome, ValueView};
use vstd::prelude::*;

verus! {

/// The sum of two 32-bit integers, wrapped around into the 32-bit range.
pub open spec fn wrapping_sum(a: i32, b: i32) -> i32 {
    let s = a + b;
    if s > i32::MAX {
        (s - 0x1_0000_0000) as i32
    } else if s < i32::MIN {
        (s + 0x1_0000_0000) as i32
    } else {
        s as i32
    }
}

/// The sum of two values: both must be integers, and the first that is not
/// is reported with its kind.
pub open spec fn add_spec(left: ValueView, right: ValueView) -> Outcome {
    match (left, right) {
        (ValueView::VInt(a), ValueView::VInt(b)) => Ok(ValueView::VInt(wrapping_sum(a, b))),
        (ValueView::VInt(_), other) => Err(
            EvalErrorView::TypeMismatch("integer"@, kind_spec(other)),
        ),
        (other, _) => Err(EvalErrorView::TypeMismatch("integer"@, kind_spec(other))),
    }
}

/// The value of `e` in `env`, with at most `depth` nested evaluations.
///
/// In an application the argument is evaluated first, then the callee, both
/// in `env`; in a sum the left operand first, then the right.
pub open spec fn eval_spec(e: ExprView, env: EnvView, depth: nat) -> Outcome
    decreases depth, 0nat,
{
    if depth == 0 {
        Err(EvalErrorView::RecursionLimitExceeded)
    } else {
        let inner = (depth - 1) as nat;
        match e {
            ExprView::Int(n) => Ok(ValueView::VInt(n)),
            ExprView::Var(x) => lookup_spec(env, x),
            ExprView::Lam(param, body) => Ok(ValueView::VClosure(env, param, *body)),
            ExprView::App(f, a) => match eval_spec(*a, env, inner) {
                Err(err) => Err(err),
                Ok(arg) => match eval_spec(*f, env, inner) {
                    Err(err) => Err(err),
                    Ok(callee) => apply_spec(callee, arg, inner),
                },
            },
            ExprView::Let(x, bound, body) => match eval_spec(*bound, env, inner) {
                Err(err) => Err(err),
                Ok(v) => eval_spec(*body, env.insert(x, v), inner),
            },
            ExprView::Add(l, r) => match eval_spec(*l, env, inner) {
                Err(err) => Err(err),
                Ok(left) => match eval_spec(*r, env, inner) {
                    Err(err) => Err(err),
                    Ok(right) => add_spec(left, right),
                },
            },
        }
    }
}

/// The result of calling `callee` on the value `arg`: the body of the
/// closure, evaluated in the closure's own environment extended by the
/// parameter. Anything but a closure is no function.
pub open spec fn apply_spec(callee: ValueView, arg: ValueView, depth: nat) -> Outcome
    decreases depth, 1nat,
{
    match callee {
        ValueView::VClosure(captured, param, body) => eval_spec(
            body,
            captured.insert(param, arg),
            depth,
        ),
        other => Err(EvalErrorView::NotAFunction(kind_spec(other))),
    }
}

/// The environment after the definitions `items` have been loaded into `env`
/// in order. Each expression is evaluated in the environment built so far,
/// which holds the earlier definitions and neither its own name nor a later
/// one. The first failure ends the load.
pub open spec fn load_spec(items: Seq<TopLevelView>, env: EnvView, depth: nat) -> Result<
    EnvView,
    EvalErrorView,
>
    decreases items.len(),
{
    if items.len() == 0 {
        Ok(env)
    } else {
        match load_spec(items.drop_last(), env, depth) {
            Err(err) => Err(err),
            Ok(acc) => match items.last() {
                TopLevelView::TopDef(name, expr) => match eval_spec(expr, acc, depth) {
                    Err(err) => Err(err),
                    Ok(v) => Ok(acc.insert(name, v)),
                },
                TopLevelView::TopLoad(_) => Err(EvalErrorView::UnsupportedTopLevelItem),
            },
        }
    }
}

/// The value that `env` binds to `main`.
pub open spec fn main_spec(env: EnvView) -> Outcome {
    if env.dom().contains("main"@) {
        Ok(env["main"@])
    } else {
        Err(EvalErrorView::MainNotFound)
    }
}

/// The result of the program `top`, loaded into `env`: the value of `main`
/// once every definition has been loaded.
pub open spec fn eval_toplevel_spec(top: TopLevelView, env: EnvView, depth: nat) -> Outcome {
    match top {
        TopLevelView::TopLoad(items) => match load_spec(items, env, depth) {
            Err(err) => Err(err),
            Ok(loaded) => main_spec(loaded),
        },
        TopLevelView::TopDef(_, _) => Err(EvalErrorView::UnsupportedTopLevelItem),
    }
}

} // verus!
