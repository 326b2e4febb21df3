//! The evaluator and the loader of programs.

use crate::ast::{items_view, lemma_items_view, Expr, Name, TopLevel};
use crate::error::{EvalError, EvalErrorView};
use crate::laws::lemma_load_fails_early;
use crate::semantics::{add_spec, apply_spec, eval_spec, eval_toplevel_spec, load_spec};
use crate::shared::share;
use crate::value::{lookup_spec, outcome_view, Environment, Value};
use vstd::prelude::*;

verus! {

/// How deeply evaluations may nest in [`eval`] and [`eval_toplevel`].
pub const RECURSION_LIMIT: usize = 1000;

/// The value bound to `name` in `ctx`, or `UnboundVariable(name)`.
pub fn find_variable(name: &Name, ctx: &Environment) -> (r: Result<Value, EvalError>)
    ensures
        outcome_view(r) == lookup_spec(ctx@, name@),
{
    ctx.lookup(name)
}

/// The sum of two values.
pub fn add_values(left: &Value, right: &Value) -> (r: Result<Value, EvalError>)
    ensures
        outcome_view(r) == add_spec(left@, right@),
{
    match left {
        Value::VInt(a) => match right {
            Value::VInt(b) => Ok(Value::VInt(a.wrapping_add(*b))),
            Value::VClosure(_, _, _) => Err(
                EvalError::TypeMismatch("integer".to_owned(), right.kind()),
            ),
        },
        Value::VClosure(_, _, _) => Err(EvalError::TypeMismatch("integer".to_owned(), left.kind())),
    }
}

/// The value of `expr` in `ctx`, with at most `depth` nested evaluations.
///
/// The result is a function of the views of `expr` and `ctx` and of `depth`
/// alone: evaluating equal expressions in equal environments gives equal
/// results, however often it is done.
pub fn eval_within(expr: &Expr, ctx: &Environment, depth: usize) -> (r: Result<Value, EvalError>)
    ensures
        outcome_view(r) == eval_spec(expr@, ctx@, depth as nat),
    decreases depth, 0nat,
{
    if depth == 0 {
        return Err(EvalError::RecursionLimitExceeded);
    }
    let inner: usize = depth - 1;
    match expr {
        Expr::Int(n) => Ok(Value::VInt(*n)),
        Expr::Var(name) => find_variable(name, ctx),
        Expr::Lam(param, body) => Ok(Value::VClosure(ctx.clone(), param.clone(), share(body))),
        Expr::App(f, a) => {
            let arg = eval_within(&**a, ctx, inner)?;
            let callee = eval_within(&**f, ctx, inner)?;
            apply(&callee, arg, inner)
        },
        Expr::Let(name, bound, body) => {
            let v = eval_within(&**bound, ctx, inner)?;
            let scope = ctx.extend(name.clone(), v);
            eval_within(&**body, &scope, inner)
        },
        Expr::Add(l, r) => {
            let left = eval_within(&**l, ctx, inner)?;
            let right = eval_within(&**r, ctx, inner)?;
            add_values(&left, &right)
        },
    }
}

/// The result of calling `callee` on `arg`, with at most `depth` nested
/// evaluations of the body.
pub fn apply(callee: &Value, arg: Value, depth: usize) -> (r: Result<Value, EvalError>)
    ensures
        outcome_view(r) == apply_spec(callee@, arg@, depth as nat),
    decreases depth, 1nat,
{
    match callee {
        Value::VClosure(captured, param, body) => {
            let scope = captured.extend(param.clone(), arg);
            eval_within(&**body, &scope, depth)
        },
        Value::VInt(_) => Err(EvalError::NotAFunction(callee.kind())),
    }
}

/// The value of `expr` in `ctx`.
///
/// Evaluations may nest [`RECURSION_LIMIT`] deep; beyond that the result is
/// `RecursionLimitExceeded`. The result is a function of the views of `expr`
/// and `ctx` alone: two evaluations of the same expression in the same
/// environment give equal results.
pub fn eval(expr: &Expr, ctx: Environment) -> (r: Result<Value, EvalError>)
    ensures
        outcome_view(r) == eval_spec(expr@, ctx@, RECURSION_LIMIT as nat),
{
    eval_within(expr, &ctx, RECURSION_LIMIT)
}

/// The result of the program `t`, loaded into `ctx`.
///
/// `t` must be a list of definitions: anything else, and any member that is
/// no definition, gives `UnsupportedTopLevelItem`. The definitions are
/// evaluated in order, each in the environment that holds the earlier ones,
/// and bound one after the other. The result is the value then bound to
/// `main`, or `MainNotFound`. Each definition may nest [`RECURSION_LIMIT`]
/// deep.
#[verifier::loop_isolation(false)]
pub fn eval_toplevel(t: &TopLevel, ctx: Environment) -> (r: Result<Value, EvalError>)
    ensures
        outcome_view(r) == eval_toplevel_spec(t@, ctx@, RECURSION_LIMIT as nat),
{
    let items = match t {
        TopLevel::TopLoad(items) => items,
        TopLevel::TopDef(_, _) => {
            return Err(EvalError::UnsupportedTopLevelItem);
        },
    };
    let ghost views = items_view(items@);
    let ghost start = ctx@;
    let ghost limit = RECURSION_LIMIT as nat;
    proof {
        lemma_items_view(items@);
    }
    let mut env = ctx;
    let mut i: usize = 0;
    assert(views.take(0) =~= Seq::empty());
    while i < items.len()
        invariant
            i <= items.len(),
            load_spec(views.take(i as int), start, limit) == Ok::<_, EvalErrorView>(env@),
        decreases items.len() - i,
    {
        proof {
            assert(views.take(i + 1).drop_last() == views.take(i as int));
        }
        match &*items[i] {
            TopLevel::TopDef(name, expr) => {
                match eval_within(expr, &env, RECURSION_LIMIT) {
                    Ok(v) => {
                        env = env.extend(name.clone(), v);
                    },
                    Err(err) => {
                        proof {
                            lemma_load_fails_early(views, i + 1, start, limit);
                        }
                        return Err(err);
                    },
                }
            },
            TopLevel::TopLoad(_) => {
                proof {
                    lemma_load_fails_early(views, i + 1, start, limit);
                }
                return Err(EvalError::UnsupportedTopLevelItem);
            },
        }
        i += 1;
    }
    assert(views.take(i as int) == views);
    match env.lookup(&"main".to_owned()) {
        Ok(v) => Ok(v),
        Err(_) => Err(EvalError::MainNotFound),
    }
}

} // verus!
