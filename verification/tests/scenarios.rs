//! Whole programs, built as syntax trees and run through the loader.

use lambda_eval::{eval_toplevel, Environment, EvalError, Expr, TopLevel, Value};
use std::rc::Rc;

fn var(x: &str) -> Rc<Expr> {
    Rc::new(Expr::Var(x.to_string()))
}

fn num(n: i32) -> Rc<Expr> {
    Rc::new(Expr::Int(n))
}

fn lam(p: &str, body: Rc<Expr>) -> Rc<Expr> {
    Rc::new(Expr::Lam(p.to_string(), body))
}

fn app(f: Rc<Expr>, a: Rc<Expr>) -> Rc<Expr> {
    Rc::new(Expr::App(f, a))
}

fn add(l: Rc<Expr>, r: Rc<Expr>) -> Rc<Expr> {
    Rc::new(Expr::Add(l, r))
}

fn let_in(x: &str, bound: Rc<Expr>, body: Rc<Expr>) -> Rc<Expr> {
    Rc::new(Expr::Let(x.to_string(), bound, body))
}

fn def(name: &str, e: Rc<Expr>) -> Rc<TopLevel> {
    Rc::new(TopLevel::TopDef(name.to_string(), (*e).clone()))
}

fn run(items: Vec<Rc<TopLevel>>) -> Result<Value, EvalError> {
    eval_toplevel(&TopLevel::TopLoad(items), Environment::empty())
}

fn int_of(r: Result<Value, EvalError>) -> i32 {
    match r {
        Ok(Value::VInt(n)) => n,
        other => panic!("expected an integer, got {:?}", other),
    }
}

fn error_of(r: Result<Value, EvalError>) -> EvalError {
    match r {
        Err(e) => e,
        Ok(v) => panic!("expected a failure, got {:?}", v),
    }
}

#[test]
fn identity_returns_its_argument() {
    // id = #x => x; main = id(5)
    let r = run(vec![
        def("id", lam("x", var("x"))),
        def("main", app(var("id"), num(5))),
    ]);
    assert_eq!(int_of(r), 5);
}

#[test]
fn twice_successor_of_zero_is_two() {
    // two = #f => #x => f(f(x)); succ = #x => x + 1; main = two(succ)(0)
    let r = run(vec![
        def("two", lam("f", lam("x", app(var("f"), app(var("f"), var("x")))))),
        def("succ", lam("x", add(var("x"), num(1)))),
        def("main", app(app(var("two"), var("succ")), num(0))),
    ]);
    assert_eq!(int_of(r), 2);
}

#[test]
fn undefined_name_is_unbound() {
    // main = y
    let r = run(vec![def("main", var("y"))]);
    assert_eq!(error_of(r), EvalError::UnboundVariable("y".to_string()));
}

#[test]
fn program_without_main_fails() {
    let r = run(vec![def("one", num(1)), def("two", num(2))]);
    assert_eq!(error_of(r), EvalError::MainNotFound);
}

#[test]
fn empty_program_has_no_main() {
    assert_eq!(error_of(run(vec![])), EvalError::MainNotFound);
}

#[test]
fn applying_an_integer_is_not_a_function() {
    // main = 5(1)
    let r = run(vec![def("main", app(num(5), num(1)))]);
    assert_eq!(error_of(r), EvalError::NotAFunction("integer".to_string()));
}

#[test]
fn adding_a_closure_is_a_type_mismatch() {
    // f = #x => x; main = 1 + f
    let r = run(vec![
        def("f", lam("x", var("x"))),
        def("main", add(num(1), var("f"))),
    ]);
    assert_eq!(
        error_of(r),
        EvalError::TypeMismatch("integer".to_string(), "closure".to_string())
    );
}

#[test]
fn closure_on_the_left_is_a_type_mismatch() {
    // main = (#x => x) + 1
    let r = run(vec![def("main", add(lam("x", var("x")), num(1)))]);
    assert_eq!(
        error_of(r),
        EvalError::TypeMismatch("integer".to_string(), "closure".to_string())
    );
}

#[test]
fn let_binds_for_its_body() {
    // main = let x = 1 in x + 1
    let r = run(vec![def("main", let_in("x", num(1), add(var("x"), num(1))))]);
    assert_eq!(int_of(r), 2);
}

#[test]
fn let_does_not_bind_outside_its_body() {
    // main = (let x = 1 in x + 1) + x
    let r = run(vec![def(
        "main",
        add(let_in("x", num(1), add(var("x"), num(1))), var("x")),
    )]);
    assert_eq!(error_of(r), EvalError::UnboundVariable("x".to_string()));
}

#[test]
fn let_is_not_recursive() {
    // main = let x = x in 1
    let r = run(vec![def("main", let_in("x", var("x"), num(1)))]);
    assert_eq!(error_of(r), EvalError::UnboundVariable("x".to_string()));
}

#[test]
fn let_does_not_leak_into_later_definitions() {
    // a = let x = 1 in x; main = x
    let r = run(vec![
        def("a", let_in("x", num(1), var("x"))),
        def("main", var("x")),
    ]);
    assert_eq!(error_of(r), EvalError::UnboundVariable("x".to_string()));
}

#[test]
fn closure_keeps_the_binding_it_was_made_with() {
    // outer = 1; f = #x => outer + x; outer = 100; main = f(5)
    let r = run(vec![
        def("outer", num(1)),
        def("f", lam("x", add(var("outer"), var("x")))),
        def("outer", num(100)),
        def("main", app(var("f"), num(5))),
    ]);
    assert_eq!(int_of(r), 6);
}

#[test]
fn caller_scope_is_invisible_to_the_callee() {
    // f = #x => y; main = let y = 1 in f(0)
    let r = run(vec![
        def("f", lam("x", var("y"))),
        def("main", let_in("y", num(1), app(var("f"), num(0)))),
    ]);
    assert_eq!(error_of(r), EvalError::UnboundVariable("y".to_string()));
}

#[test]
fn argument_is_evaluated_even_if_unused() {
    // main = (#x => 1)(y)
    let r = run(vec![def("main", app(lam("x", num(1)), var("y")))]);
    assert_eq!(error_of(r), EvalError::UnboundVariable("y".to_string()));
}

#[test]
fn argument_is_evaluated_before_the_callee() {
    // main = f(a), with neither bound: the argument fails first
    let r = run(vec![def("main", app(var("f"), var("a")))]);
    assert_eq!(error_of(r), EvalError::UnboundVariable("a".to_string()));
}

#[test]
fn argument_is_evaluated_before_the_callee_is_checked() {
    // main = 5(a)
    let r = run(vec![def("main", app(num(5), var("a")))]);
    assert_eq!(error_of(r), EvalError::UnboundVariable("a".to_string()));
}

#[test]
fn left_operand_is_evaluated_first() {
    // main = a + b
    let r = run(vec![def("main", add(var("a"), var("b")))]);
    assert_eq!(error_of(r), EvalError::UnboundVariable("a".to_string()));
}

#[test]
fn both_operands_are_evaluated_before_the_kinds_are_checked() {
    // main = (#x => x) + b
    let r = run(vec![def("main", add(lam("x", var("x")), var("b")))]);
    assert_eq!(error_of(r), EvalError::UnboundVariable("b".to_string()));
}

#[test]
fn sum_wraps_around() {
    let r = run(vec![def("main", add(num(i32::MAX), num(1)))]);
    assert_eq!(int_of(r), i32::MIN);
    let r = run(vec![def("main", add(num(i32::MIN), num(-1)))]);
    assert_eq!(int_of(r), i32::MAX);
    let r = run(vec![def("main", add(num(i32::MIN), num(i32::MIN)))]);
    assert_eq!(int_of(r), 0);
    let r = run(vec![def("main", add(num(i32::MAX), num(i32::MAX)))]);
    assert_eq!(int_of(r), -2);
}

#[test]
fn sum_of_small_numbers_is_exact() {
    let r = run(vec![def("main", add(num(-7), add(num(40), num(9))))]);
    assert_eq!(int_of(r), 42);
}

#[test]
fn main_may_be_a_closure() {
    let r = run(vec![def("main", lam("x", var("x")))]);
    match r {
        Ok(Value::VClosure(_, p, body)) => {
            assert_eq!(p, "x");
            assert!(matches!(&*body, Expr::Var(n) if n == "x"));
        }
        other => panic!("expected a closure, got {:?}", other),
    }
}

#[test]
fn later_definition_of_a_name_wins() {
    let r = run(vec![
        def("x", num(1)),
        def("x", num(2)),
        def("main", var("x")),
    ]);
    assert_eq!(int_of(r), 2);
}

#[test]
fn later_definition_of_main_wins() {
    let r = run(vec![def("main", num(1)), def("main", num(2))]);
    assert_eq!(int_of(r), 2);
}

#[test]
fn definition_may_use_an_earlier_one() {
    let r = run(vec![
        def("a", num(20)),
        def("b", add(var("a"), num(1))),
        def("main", add(var("a"), var("b"))),
    ]);
    assert_eq!(int_of(r), 41);
}

#[test]
fn definition_may_not_use_a_later_one() {
    let r = run(vec![def("main", var("later")), def("later", num(1))]);
    assert_eq!(error_of(r), EvalError::UnboundVariable("later".to_string()));
}

#[test]
fn definition_may_not_use_itself() {
    let r = run(vec![def("f", lam("x", app(var("f"), var("x")))), def("main", app(var("f"), num(0)))]);
    assert_eq!(error_of(r), EvalError::UnboundVariable("f".to_string()));
}

#[test]
fn redefinition_sees_the_old_binding() {
    // x = 1; x = x + 1; main = x
    let r = run(vec![
        def("x", num(1)),
        def("x", add(var("x"), num(1))),
        def("main", var("x")),
    ]);
    assert_eq!(int_of(r), 2);
}

#[test]
fn single_definition_is_no_program() {
    let top = TopLevel::TopDef("main".to_string(), Expr::Int(1));
    let r = eval_toplevel(&top, Environment::empty());
    assert_eq!(error_of(r), EvalError::UnsupportedTopLevelItem);
}

#[test]
fn nested_list_is_rejected() {
    let r = run(vec![
        def("main", num(1)),
        Rc::new(TopLevel::TopLoad(vec![def("a", num(1))])),
    ]);
    assert_eq!(error_of(r), EvalError::UnsupportedTopLevelItem);
}

#[test]
fn empty_nested_list_is_rejected() {
    let r = run(vec![Rc::new(TopLevel::TopLoad(vec![])), def("main", num(1))]);
    assert_eq!(error_of(r), EvalError::UnsupportedTopLevelItem);
}

#[test]
fn first_failure_in_order_is_reported() {
    // a failing definition before a nested list
    let r = run(vec![
        def("a", var("missing")),
        Rc::new(TopLevel::TopLoad(vec![])),
    ]);
    assert_eq!(error_of(r), EvalError::UnboundVariable("missing".to_string()));
    // a nested list before a failing definition
    let r = run(vec![
        Rc::new(TopLevel::TopLoad(vec![])),
        def("a", var("missing")),
    ]);
    assert_eq!(error_of(r), EvalError::UnsupportedTopLevelItem);
}

#[test]
fn failure_wins_over_a_missing_main() {
    let r = run(vec![def("a", app(num(1), num(2)))]);
    assert_eq!(error_of(r), EvalError::NotAFunction("integer".to_string()));
}

#[test]
fn initial_environment_is_visible() {
    let start = Environment::empty().extend("seed".to_string(), Value::VInt(40));
    let top = TopLevel::TopLoad(vec![def("main", add(var("seed"), num(2)))]);
    assert_eq!(int_of(eval_toplevel(&top, start)), 42);
}

#[test]
fn main_of_the_initial_environment_is_found() {
    let start = Environment::empty().extend("main".to_string(), Value::VInt(7));
    let top = TopLevel::TopLoad(vec![def("other", num(1))]);
    assert_eq!(int_of(eval_toplevel(&top, start)), 7);
}

#[test]
fn names_are_case_sensitive() {
    let r = run(vec![def("Main", num(1))]);
    assert_eq!(error_of(r), EvalError::MainNotFound);
    let r = run(vec![def("x", num(1)), def("main", var("X"))]);
    assert_eq!(error_of(r), EvalError::UnboundVariable("X".to_string()));
}

#[test]
fn same_program_gives_the_same_result_twice() {
    let items = vec![
        def("two", lam("f", lam("x", app(var("f"), app(var("f"), var("x")))))),
        def("succ", lam("x", add(var("x"), num(1)))),
        def("main", app(app(var("two"), var("succ")), num(40))),
    ];
    let top = TopLevel::TopLoad(items);
    let first = eval_toplevel(&top, Environment::empty());
    let second = eval_toplevel(&top, Environment::empty());
    assert_eq!(int_of(first), 42);
    assert_eq!(int_of(second), 42);
}

#[test]
fn shared_body_serves_many_closures() {
    // k = #a => #b => a; main = k(1)(2) + k(10)(20)
    let r = run(vec![
        def("k", lam("a", lam("b", var("a")))),
        def(
            "main",
            add(
                app(app(var("k"), num(1)), num(2)),
                app(app(var("k"), num(10)), num(20)),
            ),
        ),
    ]);
    assert_eq!(int_of(r), 11);
}

#[test]
fn parameter_shadows_the_captured_name() {
    // x = 1; f = #x => x + 1; main = f(10) + x
    let r = run(vec![
        def("x", num(1)),
        def("f", lam("x", add(var("x"), num(1)))),
        def("main", add(app(var("f"), num(10)), var("x"))),
    ]);
    assert_eq!(int_of(r), 12);
}

#[test]
fn long_program_is_loaded_and_let_go() {
    // two hundred thousand definitions, each a closure over all before it
    let mut items = Vec::new();
    items.push(def("a", num(1)));
    for _ in 0..200_000 {
        items.push(def("a", lam("x", var("a"))));
    }
    items.push(def("main", num(7)));
    assert_eq!(int_of(run(items)), 7);
}

#[test]
fn long_environment_is_searched_to_its_end() {
    let mut env = Environment::empty().extend("first".to_string(), Value::VInt(1));
    for k in 0..100_000 {
        env = env.extend("later".to_string(), Value::VInt(k));
    }
    assert_eq!(int_of(env.lookup(&"first".to_string())), 1);
    assert_eq!(int_of(env.lookup(&"later".to_string())), 99_999);
    assert_eq!(
        error_of(env.lookup(&"never".to_string())),
        EvalError::UnboundVariable("never".to_string())
    );
}
