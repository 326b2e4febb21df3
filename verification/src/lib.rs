//! A small call-by-value evaluator for a functional language with integers,
//! addition, single-parameter lambdas with lexical closures, application and
//! non-recursive `let`.
//!
//! The syntax tree lives in [`ast`], values and environments in [`value`],
//! failures in [`error`]. Every type has a mathematical view. The meaning of
//! an expression and of a program is a specification function over those
//! views, in [`semantics`]; [`eval`] holds the evaluator and the loader,
//! which compute it, and [`laws`] what follows from it.
//!
//! A program can be read from text: [`token`] holds the lexer and
//! [`parser`] the parser, each with the specification function that it
//! computes. [`writing`] and [`spelling`] give every program a plain text
//! and prove that the parser reads the program back from it.
//!
//! Two limits keep every function total on every input: evaluations nest at
//! most [`RECURSION_LIMIT`] deep, and the parser follows nesting only as far
//! as [`NESTING_LIMIT`] units of fuel reach. Addition wraps around at 32
//! bits.

pub mod ast;
pub mod error;
pub mod eval;
pub mod laws;
pub mod parser;
pub mod semantics;
mod shared;
pub mod spelling;
pub mod token;
pub mod value;
pub mod writing;

pub use ast::{BExpr, Expr, ExprView, Name, TopLevel, TopLevelView};
pub use error::{EvalError, EvalErrorView};
pub use eval::{
    add_values, apply, eval, eval_toplevel, eval_within, find_variable, RECURSION_LIMIT,
};
pub use parser::{parse, parse_bytes, parse_tokens, NESTING_LIMIT};
pub use token::{tokenize, ParseError, Token, TokenView};
pub use value::{Context, EnvView, Environment, Outcome, Value, ValueView};
