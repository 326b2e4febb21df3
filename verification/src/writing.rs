//! The plain writing of a program as tokens, and the law that the parser
//! reads every program back from its writing.

use crate::ast::{ExprView, TopLevelView};
use crate::parser::{
    at,
    atom_spec,
    call_rest_spec,
    call_spec,
    definition_spec,
    expect_at,
    expr_spec,
    parse_tokens_spec,
    program_spec,
    sum_rest_spec,
    sum_spec,
};
use crate::token::{ParseError, TokenView};
use vstd::prelude::*;

verus! {

/// How deeply `e` nests: 1 for a name or a literal, one more than its
/// deepest part for anything else.
pub open spec fn depth(e: ExprView) -> nat
    decreases e,
{
    match e {
        ExprView::Var(_) => 1,
        ExprView::Int(_) => 1,
        ExprView::Lam(_, body) => 1 + depth(*body),
        ExprView::App(f, a) => 1 + if depth(*f) >= depth(*a) {
            depth(*f)
        } else {
            depth(*a)
        },
        ExprView::Let(_, bound, body) => 1 + if depth(*bound) >= depth(*body) {
            depth(*bound)
        } else {
            depth(*body)
        },
        ExprView::Add(l, r) => 1 + if depth(*l) >= depth(*r) {
            depth(*l)
        } else {
            depth(*r)
        },
    }
}

/// The fuel that certainly suffices to read `e` back from its writing.
pub open spec fn fuel_for(e: ExprView) -> nat {
    5 * depth(e)
}

/// The writing of `e` as an expression. Operands, and the callee of a call,
/// are written as atoms.
pub open spec fn write_expr(e: ExprView) -> Seq<TokenView>
    decreases e, 0nat,
{
    match e {
        ExprView::Var(x) => seq![TokenView::Ident(x)],
        ExprView::Int(n) => seq![TokenView::Int(n)],
        ExprView::Lam(param, body) => seq![
            TokenView::Hash,
            TokenView::Ident(param),
            TokenView::Arrow,
        ] + write_expr(*body),
        ExprView::Let(x, bound, body) => seq![TokenView::Let, TokenView::Ident(x), TokenView::Equals]
            + write_expr(*bound) + seq![TokenView::In] + write_expr(*body),
        ExprView::Add(l, r) => write_atom(*l) + seq![TokenView::Plus] + write_atom(*r),
        ExprView::App(f, a) => write_atom(*f) + seq![TokenView::LParen] + write_expr(*a)
            + seq![TokenView::RParen],
    }
}

/// The writing of `e` as an atom: a name or a literal as it is, anything
/// else in parentheses.
pub open spec fn write_atom(e: ExprView) -> Seq<TokenView>
    decreases e, 1nat,
{
    match e {
        ExprView::Var(x) => seq![TokenView::Ident(x)],
        ExprView::Int(n) => seq![TokenView::Int(n)],
        _ => seq![TokenView::LParen] + write_expr(e) + seq![TokenView::RParen],
    }
}

/// Whether `item` is a definition.
pub open spec fn is_definition(item: TopLevelView) -> bool {
    item is TopDef
}

/// The writing of a definition, with a semicolon behind it. A nested
/// program has no writing.
pub open spec fn write_item(item: TopLevelView) -> Seq<TokenView> {
    match item {
        TopLevelView::TopDef(name, e) => seq![TokenView::Ident(name), TokenView::Equals]
            + write_expr(e) + seq![TokenView::Semi],
        TopLevelView::TopLoad(_) => Seq::empty(),
    }
}

/// The writing of a list of definitions, one after the other.
pub open spec fn write_items(items: Seq<TopLevelView>) -> Seq<TokenView>
    decreases items.len(),
{
    if items.len() == 0 {
        Seq::empty()
    } else {
        write_item(items.first()) + write_items(items.drop_first())
    }
}

/// Whether the items of `w` stand in `ts` from `pos` on.
pub open spec fn stands_at<T>(ts: Seq<T>, pos: int, w: Seq<T>) -> bool {
    &&& 0 <= pos
    &&& pos + w.len() <= ts.len()
    &&& forall|i: int| 0 <= i < w.len() ==> ts[pos + i] == #[trigger] w[i]
}

/// Where `a + b` stands, `a` stands, and `b` behind it.
pub proof fn lemma_stands_split<T>(ts: Seq<T>, pos: int, a: Seq<T>, b: Seq<T>)
    requires
        stands_at(ts, pos, a + b),
    ensures
        stands_at(ts, pos, a),
        stands_at(ts, pos + a.len(), b),
{
    let w = a + b;
    assert forall|i: int| 0 <= i < a.len() implies ts[pos + i] == #[trigger] a[i] by {
        assert(w[i] == a[i]);
    }
    assert forall|i: int| 0 <= i < b.len() implies ts[pos + a.len() + i] == #[trigger] b[i] by {
        assert(w[a.len() + i] == b[i]);
    }
}

/// Whether the token behind an expression that ends before `pos` lets the
/// expression end there: it is neither `(` nor `+`.
pub open spec fn ends_at(ts: Seq<TokenView>, pos: int) -> bool {
    !at(ts, pos, TokenView::LParen) && !at(ts, pos, TokenView::Plus)
}

/// The parser reads an expression back from its writing: where the writing
/// of `e` stands in `ts` at `pos`, followed by neither `(` nor `+`, the
/// expression at `pos` is `e` and ends behind the writing.
pub proof fn lemma_reads_expr(e: ExprView, ts: Seq<TokenView>, pos: int, fuel: nat)
    requires
        stands_at(ts, pos, write_expr(e)),
        ends_at(ts, pos + write_expr(e).len()),
        fuel >= fuel_for(e),
    ensures
        expr_spec(ts, pos, fuel) == Ok::<(ExprView, int), ParseError>(
            (e, pos + write_expr(e).len()),
        ),
    decreases e, 0nat,
{
    let end = pos + write_expr(e).len();
    match e {
        ExprView::Var(x) => {
            assert(write_expr(e)[0] == TokenView::Ident(x));
            lemma_reads_leaf(e, ts, pos, fuel);
        },
        ExprView::Int(n) => {
            assert(write_expr(e)[0] == TokenView::Int(n));
            lemma_reads_leaf(e, ts, pos, fuel);
        },
        ExprView::Lam(param, body) => {
            let head = seq![TokenView::Hash, TokenView::Ident(param), TokenView::Arrow];
            lemma_stands_split(ts, pos, head, write_expr(*body));
            assert(ts[pos + 0] == head[0] && ts[pos + 1] == head[1] && ts[pos + 2] == head[2]);
            lemma_reads_expr(*body, ts, pos + 3, (fuel - 1) as nat);
        },
        ExprView::Let(x, bound, body) => {
            let head = seq![TokenView::Let, TokenView::Ident(x), TokenView::Equals];
            let wb = write_expr(*bound);
            let mid = seq![TokenView::In];
            lemma_stands_split(ts, pos, head + wb + mid, write_expr(*body));
            lemma_stands_split(ts, pos, head + wb, mid);
            lemma_stands_split(ts, pos, head, wb);
            assert(ts[pos + 0] == head[0] && ts[pos + 1] == head[1] && ts[pos + 2] == head[2]);
            assert(ts[pos + 3 + wb.len() + 0] == mid[0]);
            lemma_reads_expr(*bound, ts, pos + 3, (fuel - 1) as nat);
            lemma_reads_expr(*body, ts, pos + 3 + wb.len() + 1, (fuel - 1) as nat);
        },
        ExprView::Add(l, r) => {
            let wl = write_atom(*l);
            let plus = seq![TokenView::Plus];
            let wr = write_atom(*r);
            lemma_stands_split(ts, pos, wl + plus, wr);
            lemma_stands_split(ts, pos, wl, plus);
            let mid = pos + wl.len();
            assert(ts[mid + 0] == plus[0]);
            lemma_atom_begins(*l, ts, pos);
            lemma_reads_atom(*l, ts, pos, (fuel - 3) as nat);
            assert(call_rest_spec(ts, mid, *l, (fuel - 3) as nat) == Ok::<
                (ExprView, int),
                ParseError,
            >((*l, mid)));
            assert(call_spec(ts, pos, (fuel - 2) as nat) == Ok::<(ExprView, int), ParseError>(
                (*l, mid),
            ));
            lemma_reads_atom(*r, ts, mid + 1, (fuel - 4) as nat);
            assert(call_rest_spec(ts, end, *r, (fuel - 4) as nat) == Ok::<
                (ExprView, int),
                ParseError,
            >((*r, end)));
            assert(call_spec(ts, mid + 1, (fuel - 3) as nat) == Ok::<(ExprView, int), ParseError>(
                (*r, end),
            ));
            assert(sum_rest_spec(ts, end, e, (fuel - 3) as nat) == Ok::<
                (ExprView, int),
                ParseError,
            >((e, end)));
            assert(sum_rest_spec(ts, mid, *l, (fuel - 2) as nat) == Ok::<
                (ExprView, int),
                ParseError,
            >((e, end)));
            assert(sum_spec(ts, pos, (fuel - 1) as nat) == Ok::<(ExprView, int), ParseError>(
                (e, end),
            ));
        },
        ExprView::App(f, a) => {
            let wf = write_atom(*f);
            let open = seq![TokenView::LParen];
            let wa = write_expr(*a);
            let close = seq![TokenView::RParen];
            lemma_stands_split(ts, pos, wf + open + wa, close);
            lemma_stands_split(ts, pos, wf + open, wa);
            lemma_stands_split(ts, pos, wf, open);
            let mid = pos + wf.len();
            let close_at = mid + 1 + wa.len();
            assert(ts[mid + 0] == open[0]);
            assert(ts[close_at + 0] == close[0]);
            lemma_atom_begins(*f, ts, pos);
            lemma_reads_atom(*f, ts, pos, (fuel - 3) as nat);
            lemma_reads_expr(*a, ts, mid + 1, (fuel - 4) as nat);
            assert(expect_at(ts, close_at, TokenView::RParen) == Ok::<int, ParseError>(end));
            assert(call_rest_spec(ts, end, e, (fuel - 4) as nat) == Ok::<
                (ExprView, int),
                ParseError,
            >((e, end)));
            assert(call_rest_spec(ts, mid, *f, (fuel - 3) as nat) == Ok::<
                (ExprView, int),
                ParseError,
            >((e, end)));
            assert(call_spec(ts, pos, (fuel - 2) as nat) == Ok::<(ExprView, int), ParseError>(
                (e, end),
            ));
            assert(sum_rest_spec(ts, end, e, (fuel - 2) as nat) == Ok::<
                (ExprView, int),
                ParseError,
            >((e, end)));
            assert(sum_spec(ts, pos, (fuel - 1) as nat) == Ok::<(ExprView, int), ParseError>(
                (e, end),
            ));
        },
    }
}

/// [`lemma_reads_expr`] for a name or a literal.
proof fn lemma_reads_leaf(e: ExprView, ts: Seq<TokenView>, pos: int, fuel: nat)
    requires
        e is Var || e is Int,
        0 <= pos < ts.len(),
        e matches ExprView::Var(x) ==> ts[pos] == TokenView::Ident(x),
        e matches ExprView::Int(n) ==> ts[pos] == TokenView::Int(n),
        ends_at(ts, pos + 1),
        fuel >= 3,
    ensures
        expr_spec(ts, pos, fuel) == Ok::<(ExprView, int), ParseError>((e, pos + 1)),
{
    assert(atom_spec(ts, pos, (fuel - 3) as nat) == Ok::<(ExprView, int), ParseError>(
        (e, pos + 1),
    ));
    assert(call_rest_spec(ts, pos + 1, e, (fuel - 3) as nat) == Ok::<(ExprView, int), ParseError>(
        (e, pos + 1),
    ));
    assert(call_spec(ts, pos, (fuel - 2) as nat) == Ok::<(ExprView, int), ParseError>(
        (e, pos + 1),
    ));
    assert(sum_rest_spec(ts, pos + 1, e, (fuel - 2) as nat) == Ok::<(ExprView, int), ParseError>(
        (e, pos + 1),
    ));
    assert(sum_spec(ts, pos, (fuel - 1) as nat) == Ok::<(ExprView, int), ParseError>(
        (e, pos + 1),
    ));
}

/// The writing of an atom begins with a name, a literal or `(`.
proof fn lemma_atom_begins(e: ExprView, ts: Seq<TokenView>, pos: int)
    requires
        stands_at(ts, pos, write_atom(e)),
    ensures
        0 <= pos < ts.len(),
        ts[pos] is Ident || ts[pos] is Int || ts[pos] is LParen,
{
    let w = write_atom(e);
    assert(ts[pos + 0] == w[0]);
}

/// The parser reads an atom back from its writing.
pub proof fn lemma_reads_atom(e: ExprView, ts: Seq<TokenView>, pos: int, fuel: nat)
    requires
        stands_at(ts, pos, write_atom(e)),
        e is Var || e is Int || fuel >= fuel_for(e) + 1,
    ensures
        atom_spec(ts, pos, fuel) == Ok::<(ExprView, int), ParseError>(
            (e, pos + write_atom(e).len()),
        ),
    decreases e, 1nat,
{
    let w = write_atom(e);
    match e {
        ExprView::Var(x) => {
            assert(ts[pos + 0] == w[0]);
        },
        ExprView::Int(n) => {
            assert(ts[pos + 0] == w[0]);
        },
        _ => {
            let open = seq![TokenView::LParen];
            let inner = write_expr(e);
            let close = seq![TokenView::RParen];
            lemma_stands_split(ts, pos, open + inner, close);
            lemma_stands_split(ts, pos, open, inner);
            assert(ts[pos + 0] == open[0]);
            assert(ts[pos + 1 + inner.len() + 0] == close[0]);
            lemma_reads_expr(e, ts, pos + 1, (fuel - 1) as nat);
        },
    }
}

/// Whether every item of `items` is a definition that `fuel` suffices for.
pub open spec fn readable(items: Seq<TopLevelView>, fuel: nat) -> bool {
    forall|i: int|
        0 <= i < items.len() ==> match #[trigger] items[i] {
            TopLevelView::TopDef(_, e) => fuel >= fuel_for(e),
            TopLevelView::TopLoad(_) => false,
        }
}

/// The parser reads definitions back from their writing: where the writing
/// of `items` stands at the end of `ts`, the definitions from there on are
/// `items`.
pub proof fn lemma_reads_items(
    items: Seq<TopLevelView>,
    ts: Seq<TokenView>,
    pos: int,
    found: Seq<TopLevelView>,
    fuel: nat,
)
    requires
        readable(items, fuel),
        stands_at(ts, pos, write_items(items)),
        pos + write_items(items).len() == ts.len(),
    ensures
        program_spec(ts, pos, found, fuel) == Ok::<Seq<TopLevelView>, ParseError>(found + items),
    decreases items.len(),
{
    if items.len() == 0 {
        assert(found + items =~= found);
    } else {
        let rest = items.drop_first();
        match items[0] {
            TopLevelView::TopDef(name, e) => {
                let head = seq![TokenView::Ident(name), TokenView::Equals];
                let we = write_expr(e);
                let semi = seq![TokenView::Semi];
                lemma_stands_split(ts, pos, head + we + semi, write_items(rest));
                lemma_stands_split(ts, pos, head + we, semi);
                lemma_stands_split(ts, pos, head, we);
                let end = pos + 2 + we.len();
                assert(ts[pos + 0] == head[0] && ts[pos + 1] == head[1]);
                assert(ts[end + 0] == semi[0]);
                lemma_reads_expr(e, ts, pos + 2, fuel);
                assert(definition_spec(ts, pos, fuel) == Ok::<(TopLevelView, int), ParseError>(
                    (items[0], end),
                ));
                assert forall|i: int| 0 <= i < rest.len() implies match #[trigger] rest[i] {
                    TopLevelView::TopDef(_, e) => fuel >= fuel_for(e),
                    TopLevelView::TopLoad(_) => false,
                } by {
                    assert(rest[i] == items[i + 1]);
                }
                lemma_reads_items(rest, ts, end + 1, found.push(items[0]), fuel);
                assert(found.push(items[0]) + rest =~= found + items);
                assert(program_spec(ts, end, found.push(items[0]), fuel) == program_spec(
                    ts,
                    end + 1,
                    found.push(items[0]),
                    fuel,
                ));
            },
            TopLevelView::TopLoad(_) => {},
        }
    }
}

/// The parser reads every program back from its writing: a list of
/// definitions, none nested more deeply than the fuel reaches, is what its
/// writing parses to.
pub proof fn lemma_reads_program(items: Seq<TopLevelView>, fuel: nat)
    requires
        readable(items, fuel),
    ensures
        parse_tokens_spec(write_items(items), fuel) == Ok::<TopLevelView, ParseError>(
            TopLevelView::TopLoad(items),
        ),
{
    let ts = write_items(items);
    lemma_reads_items(items, ts, 0, Seq::empty(), fuel);
    assert(Seq::<TopLevelView>::empty() + items =~= items);
}

} // verus!
