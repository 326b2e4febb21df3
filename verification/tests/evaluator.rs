//! The evaluator on single expressions, the depth limit, environments and
//! values.

use lambda_eval::{
    add_values, apply, eval, eval_within, find_variable, Environment, EvalError, Expr, Value,
    RECURSION_LIMIT,
};
use std::rc::Rc;

fn v(x: &str) -> Rc<Expr> {
    Rc::new(Expr::Var(x.to_string()))
}

fn n(k: i32) -> Rc<Expr> {
    Rc::new(Expr::Int(k))
}

fn fun(p: &str, body: Rc<Expr>) -> Rc<Expr> {
    Rc::new(Expr::Lam(p.to_string(), body))
}

fn call(f: Rc<Expr>, a: Rc<Expr>) -> Rc<Expr> {
    Rc::new(Expr::App(f, a))
}

fn plus(l: Rc<Expr>, r: Rc<Expr>) -> Rc<Expr> {
    Rc::new(Expr::Add(l, r))
}

fn as_int(r: Result<Value, EvalError>) -> i32 {
    match r {
        Ok(Value::VInt(k)) => k,
        other => panic!("expected an integer, got {:?}", other),
    }
}

fn as_error(r: Result<Value, EvalError>) -> EvalError {
    match r {
        Err(e) => e,
        Ok(val) => panic!("expected a failure, got {:?}", val),
    }
}

/// `(#x => x(x))(#x => x(x))`, which calls itself for ever.
fn omega() -> Rc<Expr> {
    let half = fun("x", call(v("x"), v("x")));
    call(half.clone(), half)
}

/// `0 + (0 + (... + 1))`, nested `depth` sums deep.
fn nested_sum(depth: usize) -> Rc<Expr> {
    let mut e = n(1);
    for _ in 0..depth {
        e = plus(n(0), e);
    }
    e
}

#[test]
fn literal_evaluates_to_itself() {
    assert_eq!(as_int(eval(&Expr::Int(-3), Environment::empty())), -3);
}

#[test]
fn variable_is_looked_up() {
    let env = Environment::empty().extend("a".to_string(), Value::VInt(9));
    assert_eq!(as_int(eval(&Expr::Var("a".to_string()), env)), 9);
}

#[test]
fn lambda_captures_the_environment() {
    let env = Environment::empty().extend("a".to_string(), Value::VInt(9));
    match eval(&fun("p", v("a")), env) {
        Ok(Value::VClosure(captured, p, body)) => {
            assert_eq!(p, "p");
            assert!(matches!(&*body, Expr::Var(name) if name == "a"));
            assert_eq!(as_int(captured.lookup(&"a".to_string())), 9);
            assert_eq!(
                as_error(captured.lookup(&"p".to_string())),
                EvalError::UnboundVariable("p".to_string())
            );
        }
        other => panic!("expected a closure, got {:?}", other),
    }
}

#[test]
fn closure_body_is_shared_not_copied() {
    let body = v("a");
    let lambda = Expr::Lam("p".to_string(), body.clone());
    let made = eval(&lambda, Environment::empty());
    match made {
        Ok(Value::VClosure(_, _, held)) => {
            assert!(Rc::ptr_eq(&held, &body));
            let copy = Value::VClosure(Environment::empty(), "p".to_string(), held.clone()).clone();
            match copy {
                Value::VClosure(_, _, again) => assert!(Rc::ptr_eq(&again, &body)),
                other => panic!("expected a closure, got {:?}", other),
            }
        }
        other => panic!("expected a closure, got {:?}", other),
    }
}

#[test]
fn clone_of_a_value_behaves_alike() {
    let env = Environment::empty().extend("a".to_string(), Value::VInt(30));
    let f = eval(&fun("p", plus(v("a"), v("p"))), env).unwrap();
    let g = f.clone();
    assert_eq!(as_int(apply(&f, Value::VInt(12), 10)), 42);
    assert_eq!(as_int(apply(&g, Value::VInt(12), 10)), 42);
    assert_eq!(as_int(Ok(Value::VInt(5).clone())), 5);
}

#[test]
fn depth_zero_allows_nothing() {
    let r = eval_within(&Expr::Int(1), &Environment::empty(), 0);
    assert_eq!(as_error(r), EvalError::RecursionLimitExceeded);
}

#[test]
fn depth_one_allows_a_leaf() {
    assert_eq!(as_int(eval_within(&Expr::Int(1), &Environment::empty(), 1)), 1);
    let r = eval_within(&plus(n(1), n(2)), &Environment::empty(), 1);
    assert_eq!(as_error(r), EvalError::RecursionLimitExceeded);
    assert_eq!(as_int(eval_within(&plus(n(1), n(2)), &Environment::empty(), 2)), 3);
}

#[test]
fn call_needs_one_level_more_than_its_body() {
    // (#x => x + 1)(2): the call, then the body, then its operands
    let e = call(fun("x", plus(v("x"), n(1))), n(2));
    let r = eval_within(&e, &Environment::empty(), 2);
    assert_eq!(as_error(r), EvalError::RecursionLimitExceeded);
    assert_eq!(as_int(eval_within(&e, &Environment::empty(), 3)), 3);
}

#[test]
fn larger_limit_keeps_the_result() {
    let e = call(fun("x", plus(v("x"), n(1))), n(2));
    for depth in 3..40 {
        assert_eq!(as_int(eval_within(&e, &Environment::empty(), depth)), 3);
    }
    let failing = call(n(1), n(2));
    for depth in 2..40 {
        assert_eq!(
            as_error(eval_within(&failing, &Environment::empty(), depth)),
            EvalError::NotAFunction("integer".to_string())
        );
    }
}

#[test]
fn endless_recursion_hits_the_limit() {
    let r = eval(&omega(), Environment::empty());
    assert_eq!(as_error(r), EvalError::RecursionLimitExceeded);
}

#[test]
fn endless_recursion_hits_any_limit() {
    for depth in [0usize, 1, 2, 3, 10, 100] {
        let r = eval_within(&omega(), &Environment::empty(), depth);
        assert_eq!(as_error(r), EvalError::RecursionLimitExceeded);
    }
}

#[test]
fn nesting_up_to_the_limit_is_evaluated() {
    // a chain of `k` sums needs `k + 1` levels
    let e = nested_sum(RECURSION_LIMIT - 1);
    assert_eq!(as_int(eval(&e, Environment::empty())), 1);
    let e = nested_sum(RECURSION_LIMIT);
    assert_eq!(
        as_error(eval(&e, Environment::empty())),
        EvalError::RecursionLimitExceeded
    );
}

#[test]
fn failure_on_the_left_hides_the_depth_on_the_right() {
    // missing + (deep sum): the left operand fails before the right is tried
    let e = plus(v("missing"), nested_sum(50));
    let r = eval_within(&e, &Environment::empty(), 5);
    assert_eq!(as_error(r), EvalError::UnboundVariable("missing".to_string()));
}

#[test]
fn empty_environment_binds_nothing() {
    let env = Environment::empty();
    assert_eq!(
        as_error(env.lookup(&"x".to_string())),
        EvalError::UnboundVariable("x".to_string())
    );
    assert_eq!(
        as_error(env.lookup(&String::new())),
        EvalError::UnboundVariable(String::new())
    );
}

#[test]
fn extend_binds_and_shadows() {
    let one = Environment::empty().extend("x".to_string(), Value::VInt(1));
    let two = one.extend("y".to_string(), Value::VInt(2));
    let three = two.extend("x".to_string(), Value::VInt(3));
    assert_eq!(as_int(three.lookup(&"x".to_string())), 3);
    assert_eq!(as_int(three.lookup(&"y".to_string())), 2);
    assert_eq!(as_int(two.lookup(&"x".to_string())), 1);
}

#[test]
fn extend_leaves_the_base_alone() {
    let base = Environment::empty().extend("x".to_string(), Value::VInt(1));
    let left = base.extend("x".to_string(), Value::VInt(10));
    let right = base.extend("y".to_string(), Value::VInt(20));
    assert_eq!(as_int(base.lookup(&"x".to_string())), 1);
    assert_eq!(
        as_error(base.lookup(&"y".to_string())),
        EvalError::UnboundVariable("y".to_string())
    );
    assert_eq!(as_int(left.lookup(&"x".to_string())), 10);
    assert_eq!(
        as_error(left.lookup(&"y".to_string())),
        EvalError::UnboundVariable("y".to_string())
    );
    assert_eq!(as_int(right.lookup(&"x".to_string())), 1);
    assert_eq!(as_int(right.lookup(&"y".to_string())), 20);
}

#[test]
fn clone_of_an_environment_binds_the_same() {
    let base = Environment::empty().extend("x".to_string(), Value::VInt(1));
    let copy = base.clone();
    let grown = copy.extend("y".to_string(), Value::VInt(2));
    assert_eq!(as_int(copy.lookup(&"x".to_string())), 1);
    assert_eq!(as_int(grown.lookup(&"y".to_string())), 2);
    assert_eq!(
        as_error(base.lookup(&"y".to_string())),
        EvalError::UnboundVariable("y".to_string())
    );
}

#[test]
fn find_variable_agrees_with_lookup() {
    let env = Environment::empty().extend("x".to_string(), Value::VInt(1));
    assert_eq!(as_int(find_variable(&"x".to_string(), &env)), 1);
    assert_eq!(
        as_error(find_variable(&"z".to_string(), &env)),
        EvalError::UnboundVariable("z".to_string())
    );
}

#[test]
fn kinds_have_their_names() {
    assert_eq!(Value::VInt(0).kind(), "integer");
    let f = eval(&fun("x", v("x")), Environment::empty()).unwrap();
    assert_eq!(f.kind(), "closure");
}

#[test]
fn add_values_adds_integers_only() {
    let f = eval(&fun("x", v("x")), Environment::empty()).unwrap();
    assert_eq!(as_int(add_values(&Value::VInt(2), &Value::VInt(3))), 5);
    assert_eq!(as_int(add_values(&Value::VInt(i32::MAX), &Value::VInt(2))), i32::MIN + 1);
    let mismatch = EvalError::TypeMismatch("integer".to_string(), "closure".to_string());
    assert_eq!(as_error(add_values(&Value::VInt(2), &f)), mismatch);
    assert_eq!(as_error(add_values(&f, &Value::VInt(2))), mismatch);
    assert_eq!(as_error(add_values(&f, &f)), mismatch);
}

#[test]
fn apply_binds_the_parameter_in_the_captured_scope() {
    let env = Environment::empty().extend("a".to_string(), Value::VInt(1));
    let f = eval(&fun("a", v("a")), env.clone()).unwrap();
    assert_eq!(as_int(apply(&f, Value::VInt(5), 1)), 5);
    let g = eval(&fun("b", v("a")), env).unwrap();
    assert_eq!(as_int(apply(&g, Value::VInt(5), 1)), 1);
    assert_eq!(
        as_error(apply(&g, Value::VInt(5), 0)),
        EvalError::RecursionLimitExceeded
    );
    assert_eq!(
        as_error(apply(&Value::VInt(3), Value::VInt(5), 9)),
        EvalError::NotAFunction("integer".to_string())
    );
    assert_eq!(
        as_error(apply(&Value::VInt(3), Value::VInt(5), 0)),
        EvalError::NotAFunction("integer".to_string())
    );
}

#[test]
fn rebinding_another_name_keeps_the_call() {
    // f = #x => outer + x, made where outer = 1
    let made_in = Environment::empty().extend("outer".to_string(), Value::VInt(1));
    let f = eval(&fun("x", plus(v("outer"), v("x"))), made_in).unwrap();
    let caller = Environment::empty()
        .extend("outer".to_string(), Value::VInt(1))
        .extend("f".to_string(), f);
    let the_call = call(v("f"), n(5));
    assert_eq!(as_int(eval(&the_call, caller.clone())), 6);
    let rebound = caller.extend("outer".to_string(), Value::VInt(1000));
    assert_eq!(as_int(eval(&the_call, rebound.clone())), 6);
    let more = rebound.extend("x".to_string(), Value::VInt(-1));
    assert_eq!(as_int(eval(&the_call, more)), 6);
}

#[test]
fn clone_of_an_expression_is_equal_and_shares() {
    let body = plus(v("a"), n(1));
    let e = Expr::Lam("p".to_string(), body.clone());
    let copy = e.clone();
    assert_eq!(copy, e);
    match copy {
        Expr::Lam(p, held) => {
            assert_eq!(p, "p");
            assert!(Rc::ptr_eq(&held, &body));
        }
        other => panic!("expected a lambda, got {:?}", other),
    }
    for e in [
        Expr::Var("x".to_string()),
        Expr::Int(-4),
        Expr::App(v("f"), n(1)),
        Expr::Let("x".to_string(), n(1), v("x")),
        Expr::Add(n(1), n(2)),
    ] {
        assert_eq!(e.clone(), e);
    }
}

#[test]
fn clone_of_an_error_is_equal() {
    for e in [
        EvalError::UnboundVariable("x".to_string()),
        EvalError::NotAFunction("integer".to_string()),
        EvalError::TypeMismatch("integer".to_string(), "closure".to_string()),
        EvalError::UnsupportedTopLevelItem,
        EvalError::MainNotFound,
        EvalError::RecursionLimitExceeded,
    ] {
        assert_eq!(e.clone(), e);
    }
}
