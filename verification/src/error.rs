//! The ways in which an evaluation can fail.

use crate::ast::Name;
use vstd::prelude::*;

verus! {

/// A failure of evaluation. The first failure met ends the whole evaluation:
/// nothing is recovered and no partial result is returned.
#[derive(Debug, PartialEq, Eq)]
pub enum EvalError {
    /// The name is not bound in the environment in which it was looked up.
    UnboundVariable(Name),
    /// The callee of an application is no closure; the field is the kind of
    /// value that it is.
    NotAFunction(String),
    /// An operand has the wrong kind: the kind expected, then the kind found.
    TypeMismatch(String, String),
    /// The program is no list of definitions, or holds something other than
    /// a definition.
    UnsupportedTopLevelItem,
    /// The program defines no `main`.
    MainNotFound,
    /// Evaluation nested more deeply than the limit allows.
    RecursionLimitExceeded,
}

/// The view of an [`EvalError`]: the same failure with its texts as
/// character sequences.
pub enum EvalErrorView {
    UnboundVariable(Seq<char>),
    NotAFunction(Seq<char>),
    TypeMismatch(Seq<char>, Seq<char>),
    UnsupportedTopLevelItem,
    MainNotFound,
    RecursionLimitExceeded,
}

impl View for EvalError {
    type V = EvalErrorView;

    open spec fn view(&self) -> EvalErrorView {
        match self {
            EvalError::UnboundVariable(name) => EvalErrorView::UnboundVariable(name@),
            EvalError::NotAFunction(kind) => EvalErrorView::NotAFunction(kind@),
            EvalError::TypeMismatch(expected, actual) => EvalErrorView::TypeMismatch(
                expected@,
                actual@,
            ),
            EvalError::UnsupportedTopLevelItem => EvalErrorView::UnsupportedTopLevelItem,
            EvalError::MainNotFound => EvalErrorView::MainNotFound,
            EvalError::RecursionLimitExceeded => EvalErrorView::RecursionLimitExceeded,
        }
    }
}

impl Clone for EvalError {
    fn clone(&self) -> (r: EvalError)
        ensures
            r == *self,
    {
        match self {
            EvalError::UnboundVariable(name) => EvalError::UnboundVariable(name.clone()),
            EvalError::NotAFunction(kind) => EvalError::NotAFunction(kind.clone()),
            EvalError::TypeMismatch(expected, actual) => EvalError::TypeMismatch(
                expected.clone(),
                actual.clone(),
            ),
            EvalError::UnsupportedTopLevelItem => EvalError::UnsupportedTopLevelItem,
            EvalError::MainNotFound => EvalError::MainNotFound,
            EvalError::RecursionLimitExceeded => EvalError::RecursionLimitExceeded,
        }
    }
}

} // verus!
