//! Runtime values and the environments that bind names to them.
//!
//! An [`Environment`] is persistent: extending one yields a new environment
//! and leaves the old one as it was. Bindings are kept in a shared,
//! immutable chain, so that extending and copying take constant time and a
//! closure can hold on to the scope it was made in at no cost.

use crate::ast::{BExpr, ExprView, Name};
use crate::error::{EvalError, EvalErrorView};
use crate::shared::{share, unwrap_unique};
use std::rc::Rc;
use vstd::prelude::*;

verus! {

/// The result of an evaluation.
#[derive(Debug)]
pub enum Value {
    /// An integer.
    VInt(i32),
    /// A function: the environment of the place where it was written, its
    /// parameter and its body.
    VClosure(Environment, Name, BExpr),
}

/// A mapping from names to values.
#[derive(Debug)]
pub struct Environment {
    head: Option<Rc<Binding>>,
}

/// The context of an evaluation: the environment in which it takes place.
pub type Context = Environment;

/// One binding of a chain, in front of the older ones.
#[derive(Debug)]
struct Binding {
    name: Name,
    value: Value,
    rest: Environment,
}

/// The view of a [`Value`].
pub enum ValueView {
    VInt(i32),
    VClosure(Map<Seq<char>, ValueView>, Seq<char>, ExprView),
}

/// The view of an [`Environment`]: a map in which each name has the value
/// that was bound to it last.
pub type EnvView = Map<Seq<char>, ValueView>;

/// What an evaluation yields, over views.
pub type Outcome = Result<ValueView, EvalErrorView>;

impl View for Value {
    type V = ValueView;

    open spec fn view(&self) -> ValueView
        decreases self,
    {
        match self {
            Value::VInt(n) => ValueView::VInt(*n),
            Value::VClosure(env, param, body) => ValueView::VClosure(
                env.view(),
                param@,
                (**body).view(),
            ),
        }
    }
}

impl View for Environment {
    type V = EnvView;

    closed spec fn view(&self) -> EnvView
        decreases self,
    {
        match self.head {
            None => Map::empty(),
            Some(node) => node.rest.view().insert(node.name@, node.value.view()),
        }
    }
}

/// The view of what an evaluation returns.
pub open spec fn outcome_view(r: Result<Value, EvalError>) -> Outcome {
    match r {
        Ok(v) => Ok(v@),
        Err(e) => Err(e@),
    }
}

/// What looking `name` up in `env` yields.
pub open spec fn lookup_spec(env: EnvView, name: Seq<char>) -> Outcome {
    if env.dom().contains(name) {
        Ok(env[name])
    } else {
        Err(EvalErrorView::UnboundVariable(name))
    }
}

/// The name of the kind of a value.
pub open spec fn kind_spec(v: ValueView) -> Seq<char> {
    match v {
        ValueView::VInt(_) => "integer"@,
        ValueView::VClosure(_, _, _) => "closure"@,
    }
}

impl Drop for Environment {
    /// Lets go of the bindings one after the other, so that a long chain is
    /// taken apart in a loop and not by nested calls.
    fn drop(&mut self)
        opens_invariants none
        no_unwind
    {
        let mut cur: Option<Rc<Binding>> = None;
        core::mem::swap(&mut self.head, &mut cur);
        loop
            decreases cur,
        {
            let rc = match cur {
                None => {
                    return ;
                },
                Some(rc) => rc,
            };
            match unwrap_unique(rc) {
                None => {
                    return ;
                },
                Some(mut binding) => {
                    let mut next: Option<Rc<Binding>> = None;
                    core::mem::swap(&mut binding.rest.head, &mut next);
                    cur = next;
                },
            }
        }
    }
}

impl Clone for Environment {
    /// A copy that shares every binding with `self`.
    fn clone(&self) -> (r: Environment)
        ensures
            r == *self,
    {
        match &self.head {
            None => Environment { head: None },
            Some(node) => Environment { head: Some(share(node)) },
        }
    }
}

impl Clone for Value {
    /// A copy that shares the captured environment and the body with `self`.
    fn clone(&self) -> (r: Value)
        ensures
            r == *self,
    {
        match self {
            Value::VInt(n) => Value::VInt(*n),
            Value::VClosure(env, param, body) => Value::VClosure(
                env.clone(),
                param.clone(),
                share(body),
            ),
        }
    }
}

impl Value {
    /// The name of the kind of this value: `"integer"` or `"closure"`.
    pub fn kind(&self) -> (r: String)
        ensures
            r@ == kind_spec(self@),
    {
        match self {
            Value::VInt(_) => "integer".to_owned(),
            Value::VClosure(_, _, _) => "closure".to_owned(),
        }
    }
}

impl Environment {
    /// An environment binds finitely many names.
    pub proof fn lemma_finite(&self)
        ensures
            self@.dom().finite(),
        decreases self,
    {
        match self.head {
            None => {
                assert(self@ == Map::<Seq<char>, ValueView>::empty());
            },
            Some(node) => {
                node.rest.lemma_finite();
                assert(self@ == node.rest@.insert(node.name@, node.value@));
            },
        }
    }

    /// The environment that binds nothing.
    pub fn empty() -> (r: Environment)
        ensures
            r@ == Map::<Seq<char>, ValueView>::empty(),
    {
        Environment { head: None }
    }

    /// The value bound to `name`, or `UnboundVariable(name)` where there is
    /// none.
    pub fn lookup(&self, name: &Name) -> (r: Result<Value, EvalError>)
        ensures
            outcome_view(r) == lookup_spec(self@, name@),
    {
        let mut cur: &Environment = self;
        loop
            invariant
                lookup_spec(cur@, name@) == lookup_spec(self@, name@),
            decreases cur,
        {
            match &cur.head {
                None => {
                    return Err(EvalError::UnboundVariable(name.clone()));
                },
                Some(node) => {
                    assert(cur@ == node.rest@.insert(node.name@, node.value@));
                    if node.name == *name {
                        return Ok(node.value.clone());
                    }
                    cur = &node.rest;
                },
            }
        }
    }

    /// A new environment that binds `name` to `value` and is otherwise as
    /// `self`. `self` is left as it was.
    pub fn extend(&self, name: Name, value: Value) -> (r: Environment)
        ensures
            r@ == self@.insert(name@, value@),
    {
        Environment { head: Some(Rc::new(Binding { name, value, rest: self.clone() })) }
    }
}

} // verus!
