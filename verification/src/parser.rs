//! The parser: from tokens to a program.
//!
//! ```text
//! program    := ( definition | ';' )*
//! definition := IDENT '=' expr
//! expr       := '#' IDENT '=>' expr
//!             | 'let' IDENT '=' expr 'in' expr
//!             | sum
//! sum        := call ( '+' call )*
//! call       := atom ( '(' expr ')' )*
//! atom       := IDENT | INT | '(' expr ')'
//! ```
//!
//! Sums and calls associate to the left. The body of a function or of a
//! `let` reaches as far to the right as it can. A semicolon may follow a
//! definition and is not needed: a definition ends where its expression
//! cannot go on.
//!
//! The parser follows nesting only so far: each step down into the grammar,
//! and each further operand of a sum or argument of a call, uses up one unit
//! of `fuel`, and a text that needs more than it is given is refused with
//! `NestingTooDeep`.

use crate::ast::{items_view, Expr, ExprView, TopLevel, TopLevelView};
use crate::token::{lex_spec, tokenize, tokens_view, ParseError, Token, TokenView};
use std::rc::Rc;
use vstd::prelude::*;
use vstd::string::StringSliceAdditionalSpecFns;

verus! {

/// How much fuel [`parse`] and [`parse_tokens`] give the parser.
pub const NESTING_LIMIT: usize = 1000;

/// An expression and the index of the token behind it, or an error.
pub type Parsed = Result<(ExprView, int), ParseError>;

/// The identifier at `pos`.
pub open spec fn name_at(ts: Seq<TokenView>, pos: int) -> Result<Seq<char>, ParseError> {
    if pos < 0 || pos >= ts.len() {
        Err(ParseError::UnexpectedEnd)
    } else {
        match ts[pos] {
            TokenView::Ident(x) => Ok(x),
            _ => Err(ParseError::UnexpectedToken(pos as usize)),
        }
    }
}

/// The index behind the token at `pos`, which must be `want`.
pub open spec fn expect_at(ts: Seq<TokenView>, pos: int, want: TokenView) -> Result<
    int,
    ParseError,
> {
    if pos < 0 || pos >= ts.len() {
        Err(ParseError::UnexpectedEnd)
    } else if ts[pos] == want {
        Ok(pos + 1)
    } else {
        Err(ParseError::UnexpectedToken(pos as usize))
    }
}

/// Whether the token at `pos` is `want`.
pub open spec fn at(ts: Seq<TokenView>, pos: int, want: TokenView) -> bool {
    0 <= pos < ts.len() && ts[pos] == want
}

/// The expression that begins at `pos`.
pub open spec fn expr_spec(ts: Seq<TokenView>, pos: int, fuel: nat) -> Parsed
    decreases fuel,
{
    if fuel == 0 {
        Err(ParseError::NestingTooDeep)
    } else if at(ts, pos, TokenView::Hash) {
        match name_at(ts, pos + 1) {
            Err(e) => Err(e),
            Ok(param) => match expect_at(ts, pos + 2, TokenView::Arrow) {
                Err(e) => Err(e),
                Ok(start) => match expr_spec(ts, start, (fuel - 1) as nat) {
                    Err(e) => Err(e),
                    Ok((body, end)) => Ok((ExprView::Lam(param, Box::new(body)), end)),
                },
            },
        }
    } else if at(ts, pos, TokenView::Let) {
        match name_at(ts, pos + 1) {
            Err(e) => Err(e),
            Ok(x) => match expect_at(ts, pos + 2, TokenView::Equals) {
                Err(e) => Err(e),
                Ok(start) => match expr_spec(ts, start, (fuel - 1) as nat) {
                    Err(e) => Err(e),
                    Ok((bound, mid)) => match expect_at(ts, mid, TokenView::In) {
                        Err(e) => Err(e),
                        Ok(rest) => match expr_spec(ts, rest, (fuel - 1) as nat) {
                            Err(e) => Err(e),
                            Ok((body, end)) => Ok(
                                (ExprView::Let(x, Box::new(bound), Box::new(body)), end),
                            ),
                        },
                    },
                },
            },
        }
    } else {
        sum_spec(ts, pos, (fuel - 1) as nat)
    }
}

/// The sum that begins at `pos`.
pub open spec fn sum_spec(ts: Seq<TokenView>, pos: int, fuel: nat) -> Parsed
    decreases fuel,
{
    if fuel == 0 {
        Err(ParseError::NestingTooDeep)
    } else {
        match call_spec(ts, pos, (fuel - 1) as nat) {
            Err(e) => Err(e),
            Ok((left, end)) => sum_rest_spec(ts, end, left, (fuel - 1) as nat),
        }
    }
}

/// The sum of which `left` has been read and whose rest, if any, begins at
/// `pos`.
pub open spec fn sum_rest_spec(ts: Seq<TokenView>, pos: int, left: ExprView, fuel: nat) -> Parsed
    decreases fuel,
{
    if !at(ts, pos, TokenView::Plus) {
        Ok((left, pos))
    } else if fuel == 0 {
        Err(ParseError::NestingTooDeep)
    } else {
        match call_spec(ts, pos + 1, (fuel - 1) as nat) {
            Err(e) => Err(e),
            Ok((right, end)) => sum_rest_spec(
                ts,
                end,
                ExprView::Add(Box::new(left), Box::new(right)),
                (fuel - 1) as nat,
            ),
        }
    }
}

/// The atom that begins at `pos`, with the calls made of it.
pub open spec fn call_spec(ts: Seq<TokenView>, pos: int, fuel: nat) -> Parsed
    decreases fuel,
{
    if fuel == 0 {
        Err(ParseError::NestingTooDeep)
    } else {
        match atom_spec(ts, pos, (fuel - 1) as nat) {
            Err(e) => Err(e),
            Ok((callee, end)) => call_rest_spec(ts, end, callee, (fuel - 1) as nat),
        }
    }
}

/// The calls of which `callee` has been read and whose next argument, if
/// any, begins at `pos`.
pub open spec fn call_rest_spec(
    ts: Seq<TokenView>,
    pos: int,
    callee: ExprView,
    fuel: nat,
) -> Parsed
    decreases fuel,
{
    if !at(ts, pos, TokenView::LParen) {
        Ok((callee, pos))
    } else if fuel == 0 {
        Err(ParseError::NestingTooDeep)
    } else {
        match expr_spec(ts, pos + 1, (fuel - 1) as nat) {
            Err(e) => Err(e),
            Ok((arg, mid)) => match expect_at(ts, mid, TokenView::RParen) {
                Err(e) => Err(e),
                Ok(end) => call_rest_spec(
                    ts,
                    end,
                    ExprView::App(Box::new(callee), Box::new(arg)),
                    (fuel - 1) as nat,
                ),
            },
        }
    }
}

/// The atom that begins at `pos`.
pub open spec fn atom_spec(ts: Seq<TokenView>, pos: int, fuel: nat) -> Parsed
    decreases fuel,
{
    if pos < 0 || pos >= ts.len() {
        Err(ParseError::UnexpectedEnd)
    } else {
        match ts[pos] {
            TokenView::Ident(x) => Ok((ExprView::Var(x), pos + 1)),
            TokenView::Int(n) => Ok((ExprView::Int(n), pos + 1)),
            TokenView::LParen => if fuel == 0 {
                Err(ParseError::NestingTooDeep)
            } else {
                match expr_spec(ts, pos + 1, (fuel - 1) as nat) {
                    Err(e) => Err(e),
                    Ok((inner, mid)) => match expect_at(ts, mid, TokenView::RParen) {
                        Err(e) => Err(e),
                        Ok(end) => Ok((inner, end)),
                    },
                }
            },
            _ => Err(ParseError::UnexpectedToken(pos as usize)),
        }
    }
}

/// The definition that begins at `pos`, and the index of the token behind
/// it.
pub open spec fn definition_spec(ts: Seq<TokenView>, pos: int, fuel: nat) -> Result<
    (TopLevelView, int),
    ParseError,
> {
    match name_at(ts, pos) {
        Err(e) => Err(e),
        Ok(name) => match expect_at(ts, pos + 1, TokenView::Equals) {
            Err(e) => Err(e),
            Ok(start) => match expr_spec(ts, start, fuel) {
                Err(e) => Err(e),
                Ok((e, end)) => Ok((TopLevelView::TopDef(name, e), end)),
            },
        },
    }
}

/// The definitions from `pos` on, behind those of `found`.
pub open spec fn program_spec(
    ts: Seq<TokenView>,
    pos: int,
    found: Seq<TopLevelView>,
    fuel: nat,
) -> Result<Seq<TopLevelView>, ParseError>
    decreases ts.len() - pos,
    via program_spec_terminates
{
    if pos < 0 || pos >= ts.len() {
        Ok(found)
    } else if ts[pos] == TokenView::Semi {
        program_spec(ts, pos + 1, found, fuel)
    } else {
        match definition_spec(ts, pos, fuel) {
            Err(e) => Err(e),
            Ok((def, end)) => program_spec(ts, end, found.push(def), fuel),
        }
    }
}

#[via_fn]
proof fn program_spec_terminates(
    ts: Seq<TokenView>,
    pos: int,
    found: Seq<TopLevelView>,
    fuel: nat,
) {
    if 0 <= pos < ts.len() {
        lemma_expr_advances(ts, pos + 2, fuel);
    }
}

/// The program that a sequence of tokens writes.
pub open spec fn parse_tokens_spec(ts: Seq<TokenView>, fuel: nat) -> Result<
    TopLevelView,
    ParseError,
> {
    match program_spec(ts, 0, Seq::empty(), fuel) {
        Err(e) => Err(e),
        Ok(items) => Ok(TopLevelView::TopLoad(items)),
    }
}

/// The program that a text writes.
pub open spec fn parse_spec(bytes: Seq<u8>) -> Result<TopLevelView, ParseError> {
    match lex_spec(bytes) {
        Err(e) => Err(e),
        Ok(ts) => parse_tokens_spec(ts, NESTING_LIMIT as nat),
    }
}

/// An expression is at least one token long and ends within the tokens.
pub proof fn lemma_expr_advances(ts: Seq<TokenView>, pos: int, fuel: nat)
    ensures
        expr_spec(ts, pos, fuel) matches Ok((_, end)) ==> pos < end <= ts.len(),
    decreases fuel, 0nat,
{
    if fuel > 0 {
        let inner = (fuel - 1) as nat;
        if at(ts, pos, TokenView::Hash) {
            lemma_expr_advances(ts, pos + 3, inner);
        } else if at(ts, pos, TokenView::Let) {
            lemma_expr_advances(ts, pos + 3, inner);
            if let Ok((_, mid)) = expr_spec(ts, pos + 3, inner) {
                lemma_expr_advances(ts, mid + 1, inner);
            }
        } else {
            lemma_sum_advances(ts, pos, inner);
        }
    }
}

/// As [`lemma_expr_advances`], for a sum.
pub proof fn lemma_sum_advances(ts: Seq<TokenView>, pos: int, fuel: nat)
    ensures
        sum_spec(ts, pos, fuel) matches Ok((_, end)) ==> pos < end <= ts.len(),
    decreases fuel, 0nat,
{
    if fuel > 0 {
        let inner = (fuel - 1) as nat;
        lemma_call_advances(ts, pos, inner);
        if let Ok((left, end)) = call_spec(ts, pos, inner) {
            lemma_sum_rest_advances(ts, end, left, inner);
        }
    }
}

/// The rest of a sum ends at or behind its beginning, within the tokens.
pub proof fn lemma_sum_rest_advances(ts: Seq<TokenView>, pos: int, left: ExprView, fuel: nat)
    requires
        0 <= pos <= ts.len(),
    ensures
        sum_rest_spec(ts, pos, left, fuel) matches Ok((_, end)) ==> pos <= end <= ts.len(),
    decreases fuel, 0nat,
{
    if at(ts, pos, TokenView::Plus) && fuel > 0 {
        let inner = (fuel - 1) as nat;
        lemma_call_advances(ts, pos + 1, inner);
        if let Ok((right, end)) = call_spec(ts, pos + 1, inner) {
            lemma_sum_rest_advances(
                ts,
                end,
                ExprView::Add(Box::new(left), Box::new(right)),
                inner,
            );
        }
    }
}

/// As [`lemma_expr_advances`], for an atom with its calls.
pub proof fn lemma_call_advances(ts: Seq<TokenView>, pos: int, fuel: nat)
    ensures
        call_spec(ts, pos, fuel) matches Ok((_, end)) ==> pos < end <= ts.len(),
    decreases fuel, 0nat,
{
    if fuel > 0 {
        let inner = (fuel - 1) as nat;
        lemma_atom_advances(ts, pos, inner);
        if let Ok((callee, end)) = atom_spec(ts, pos, inner) {
            lemma_call_rest_advances(ts, end, callee, inner);
        }
    }
}

/// The arguments of a call end at or behind their beginning, within the
/// tokens.
pub proof fn lemma_call_rest_advances(ts: Seq<TokenView>, pos: int, callee: ExprView, fuel: nat)
    requires
        0 <= pos <= ts.len(),
    ensures
        call_rest_spec(ts, pos, callee, fuel) matches Ok((_, end)) ==> pos <= end <= ts.len(),
    decreases fuel, 0nat,
{
    if at(ts, pos, TokenView::LParen) && fuel > 0 {
        let inner = (fuel - 1) as nat;
        lemma_expr_advances(ts, pos + 1, inner);
        if let Ok((arg, mid)) = expr_spec(ts, pos + 1, inner) {
            if let Ok(end) = expect_at(ts, mid, TokenView::RParen) {
                lemma_call_rest_advances(
                    ts,
                    end,
                    ExprView::App(Box::new(callee), Box::new(arg)),
                    inner,
                );
            }
        }
    }
}

/// As [`lemma_expr_advances`], for an atom.
pub proof fn lemma_atom_advances(ts: Seq<TokenView>, pos: int, fuel: nat)
    ensures
        atom_spec(ts, pos, fuel) matches Ok((_, end)) ==> pos < end <= ts.len(),
    decreases fuel, 0nat,
{
    if 0 <= pos < ts.len() && ts[pos] == TokenView::LParen && fuel > 0 {
        lemma_expr_advances(ts, pos + 1, (fuel - 1) as nat);
    }
}

/// The view of a parser's result.
pub open spec fn parsed_view(r: Result<(Expr, usize), ParseError>) -> Parsed {
    match r {
        Ok((e, end)) => Ok((e@, end as int)),
        Err(err) => Err(err),
    }
}

/// The view of the result of [`parse`].
pub open spec fn program_view(r: Result<TopLevel, ParseError>) -> Result<
    TopLevelView,
    ParseError,
> {
    match r {
        Ok(top) => Ok(top@),
        Err(err) => Err(err),
    }
}

/// Whether `token` is the keyword or sign `want`.
fn same_sign(token: &Token, want: &Token) -> (r: bool)
    requires
        !(want@ is Ident),
        !(want@ is Int),
    ensures
        r == (token@ == want@),
{
    match (token, want) {
        (Token::Let, Token::Let) => true,
        (Token::In, Token::In) => true,
        (Token::Hash, Token::Hash) => true,
        (Token::Arrow, Token::Arrow) => true,
        (Token::Equals, Token::Equals) => true,
        (Token::Plus, Token::Plus) => true,
        (Token::LParen, Token::LParen) => true,
        (Token::RParen, Token::RParen) => true,
        (Token::Semi, Token::Semi) => true,
        _ => false,
    }
}

fn token_is(tokens: &Vec<Token>, pos: usize, want: &Token) -> (r: bool)
    requires
        !(want@ is Ident),
        !(want@ is Int),
    ensures
        r == at(tokens_view(tokens@), pos as int, want@),
        r ==> pos < tokens@.len() <= usize::MAX,
{
    pos < tokens.len() && same_sign(&tokens[pos], want)
}

fn name_of(tokens: &Vec<Token>, pos: usize) -> (r: Result<String, ParseError>)
    ensures
        match r {
            Ok(name) => name_at(tokens_view(tokens@), pos as int) == Ok::<Seq<char>, ParseError>(
                name@,
            ),
            Err(e) => name_at(tokens_view(tokens@), pos as int) == Err::<Seq<char>, ParseError>(e),
        },
        r is Ok ==> pos < tokens@.len() <= usize::MAX,
{
    if pos >= tokens.len() {
        return Err(ParseError::UnexpectedEnd);
    }
    match &tokens[pos] {
        Token::Ident(name) => Ok(name.clone()),
        _ => Err(ParseError::UnexpectedToken(pos)),
    }
}

fn expect(tokens: &Vec<Token>, pos: usize, want: &Token) -> (r: Result<usize, ParseError>)
    requires
        !(want@ is Ident),
        !(want@ is Int),
    ensures
        match r {
            Ok(next) => expect_at(tokens_view(tokens@), pos as int, want@) == Ok::<
                int,
                ParseError,
            >(next as int),
            Err(e) => expect_at(tokens_view(tokens@), pos as int, want@) == Err::<int, ParseError>(
                e,
            ),
        },
{
    if pos >= tokens.len() {
        Err(ParseError::UnexpectedEnd)
    } else if same_sign(&tokens[pos], want) {
        Ok(pos + 1)
    } else {
        Err(ParseError::UnexpectedToken(pos))
    }
}

fn parse_expr(tokens: &Vec<Token>, pos: usize, fuel: usize) -> (r: Result<
    (Expr, usize),
    ParseError,
>)
    ensures
        parsed_view(r) == expr_spec(tokens_view(tokens@), pos as int, fuel as nat),
    decreases fuel,
{
    if fuel == 0 {
        return Err(ParseError::NestingTooDeep);
    }
    if token_is(tokens, pos, &Token::Hash) {
        let param = name_of(tokens, pos + 1)?;
        let start = expect(tokens, pos + 2, &Token::Arrow)?;
        let (body, end) = parse_expr(tokens, start, fuel - 1)?;
        Ok((Expr::Lam(param, Rc::new(body)), end))
    } else if token_is(tokens, pos, &Token::Let) {
        let x = name_of(tokens, pos + 1)?;
        let start = expect(tokens, pos + 2, &Token::Equals)?;
        let (bound, mid) = parse_expr(tokens, start, fuel - 1)?;
        let rest = expect(tokens, mid, &Token::In)?;
        let (body, end) = parse_expr(tokens, rest, fuel - 1)?;
        Ok((Expr::Let(x, Rc::new(bound), Rc::new(body)), end))
    } else {
        parse_sum(tokens, pos, fuel - 1)
    }
}

fn parse_sum(tokens: &Vec<Token>, pos: usize, fuel: usize) -> (r: Result<(Expr, usize), ParseError>)
    ensures
        parsed_view(r) == sum_spec(tokens_view(tokens@), pos as int, fuel as nat),
    decreases fuel,
{
    if fuel == 0 {
        return Err(ParseError::NestingTooDeep);
    }
    let (left, end) = parse_call(tokens, pos, fuel - 1)?;
    parse_sum_rest(tokens, end, left, fuel - 1)
}

fn parse_sum_rest(tokens: &Vec<Token>, pos: usize, left: Expr, fuel: usize) -> (r: Result<
    (Expr, usize),
    ParseError,
>)
    ensures
        parsed_view(r) == sum_rest_spec(tokens_view(tokens@), pos as int, left@, fuel as nat),
    decreases fuel,
{
    if !token_is(tokens, pos, &Token::Plus) {
        return Ok((left, pos));
    }
    if fuel == 0 {
        return Err(ParseError::NestingTooDeep);
    }
    let (right, end) = parse_call(tokens, pos + 1, fuel - 1)?;
    parse_sum_rest(tokens, end, Expr::Add(Rc::new(left), Rc::new(right)), fuel - 1)
}

fn parse_call(tokens: &Vec<Token>, pos: usize, fuel: usize) -> (r: Result<
    (Expr, usize),
    ParseError,
>)
    ensures
        parsed_view(r) == call_spec(tokens_view(tokens@), pos as int, fuel as nat),
    decreases fuel,
{
    if fuel == 0 {
        return Err(ParseError::NestingTooDeep);
    }
    let (callee, end) = parse_atom(tokens, pos, fuel - 1)?;
    parse_call_rest(tokens, end, callee, fuel - 1)
}

fn parse_call_rest(tokens: &Vec<Token>, pos: usize, callee: Expr, fuel: usize) -> (r: Result<
    (Expr, usize),
    ParseError,
>)
    ensures
        parsed_view(r) == call_rest_spec(tokens_view(tokens@), pos as int, callee@, fuel as nat),
    decreases fuel,
{
    if !token_is(tokens, pos, &Token::LParen) {
        return Ok((callee, pos));
    }
    if fuel == 0 {
        return Err(ParseError::NestingTooDeep);
    }
    let (arg, mid) = parse_expr(tokens, pos + 1, fuel - 1)?;
    let end = expect(tokens, mid, &Token::RParen)?;
    parse_call_rest(tokens, end, Expr::App(Rc::new(callee), Rc::new(arg)), fuel - 1)
}

fn parse_atom(tokens: &Vec<Token>, pos: usize, fuel: usize) -> (r: Result<
    (Expr, usize),
    ParseError,
>)
    ensures
        parsed_view(r) == atom_spec(tokens_view(tokens@), pos as int, fuel as nat),
    decreases fuel,
{
    if pos >= tokens.len() {
        return Err(ParseError::UnexpectedEnd);
    }
    match &tokens[pos] {
        Token::Ident(x) => Ok((Expr::Var(x.clone()), pos + 1)),
        Token::Int(n) => Ok((Expr::Int(*n), pos + 1)),
        Token::LParen => {
            if fuel == 0 {
                return Err(ParseError::NestingTooDeep);
            }
            let (inner, mid) = parse_expr(tokens, pos + 1, fuel - 1)?;
            let end = expect(tokens, mid, &Token::RParen)?;
            Ok((inner, end))
        },
        _ => Err(ParseError::UnexpectedToken(pos)),
    }
}

/// The program that `tokens` write, or the first error in them.
#[verifier::loop_isolation(false)]
pub fn parse_tokens(tokens: &Vec<Token>) -> (r: Result<TopLevel, ParseError>)
    ensures
        program_view(r) == parse_tokens_spec(tokens_view(tokens@), NESTING_LIMIT as nat),
{
    let ghost ts = tokens_view(tokens@);
    let ghost fuel = NESTING_LIMIT as nat;
    let mut items: Vec<Rc<TopLevel>> = Vec::new();
    let mut pos: usize = 0;
    assert(items_view(items@) =~= Seq::empty());
    while pos < tokens.len()
        invariant
            pos <= tokens@.len(),
            program_spec(ts, pos as int, items_view(items@), fuel) == program_spec(
                ts,
                0,
                Seq::empty(),
                fuel,
            ),
        decreases tokens@.len() - pos,
    {
        if same_sign(&tokens[pos], &Token::Semi) {
            pos += 1;
        } else {
            let name = name_of(tokens, pos)?;
            let start = expect(tokens, pos + 1, &Token::Equals)?;
            let (e, end) = parse_expr(tokens, start, NESTING_LIMIT)?;
            let item = Rc::new(TopLevel::TopDef(name, e));
            proof {
                lemma_expr_advances(ts, start as int, fuel);
                assert(items_view(items@.push(item)) =~= items_view(items@).push((*item)@)) by {
                    assert(items@.push(item).drop_last() =~= items@);
                }
            }
            items.push(item);
            pos = end;
        }
    }
    Ok(TopLevel::TopLoad(items))
}

/// The program that the text `input` writes, or the first error in it.
pub fn parse_bytes(input: &[u8]) -> (r: Result<TopLevel, ParseError>)
    ensures
        program_view(r) == parse_spec(input@),
{
    let tokens = tokenize(input)?;
    parse_tokens(&tokens)
}

/// The program that the text `input` writes, or the first error in it. The
/// text is read as its bytes in UTF-8.
pub fn parse(input: &str) -> (r: Result<TopLevel, ParseError>)
    ensures
        program_view(r) == parse_spec(input.spec_bytes()),
{
    parse_bytes(input.as_bytes())
}

} // verus!
