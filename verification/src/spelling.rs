//! The plain spelling of tokens as text, and the law that a program is read
//! back from the spelling of its writing.

use crate::ast::{ExprView, TopLevelView};
use crate::parser::{parse_spec, NESTING_LIMIT};
use crate::token::{
    decimal,
    digit_run,
    is_digit,
    is_space,
    is_word_part,
    is_word_start,
    lex_from,
    token_at,
    word_run,
    word_token,
    ParseError,
    TokenView,
};
use crate::writing::{
    lemma_reads_program,
    lemma_stands_split,
    readable,
    stands_at,
    write_atom,
    write_expr,
    write_item,
    write_items,
};
use vstd::prelude::*;

verus! {

/// The digits of `n` in base ten, without leading zeros.
pub open spec fn digits_of(n: nat) -> Seq<u8>
    decreases n,
{
    if n < 10 {
        seq![(48 + n) as u8]
    } else {
        digits_of(n / 10).push((48 + n % 10) as u8)
    }
}

/// The bytes of a name whose characters are ASCII.
pub open spec fn bytes_of(name: Seq<char>) -> Seq<u8> {
    name.map_values(|c: char| c as u8)
}

/// Whether `name` can be written as an identifier: it is a word, no
/// keyword, and the characters are those of its bytes.
pub open spec fn is_identifier(name: Seq<char>) -> bool {
    let w = bytes_of(name);
    &&& w.len() > 0
    &&& is_word_start(w[0])
    &&& forall|i: int| 0 <= i < w.len() ==> is_word_part(#[trigger] w[i])
    &&& word_token(w) == TokenView::Ident(name)
}

/// Whether a token can be spelled: every token but an identifier that is
/// none.
pub open spec fn spellable(token: TokenView) -> bool {
    token matches TokenView::Ident(name) ==> is_identifier(name)
}

/// The spelling of a token.
pub open spec fn spell(token: TokenView) -> Seq<u8> {
    match token {
        TokenView::Ident(name) => bytes_of(name),
        TokenView::Int(n) => if n < 0 {
            // '-' before the digits
            seq![45u8] + digits_of((-n) as nat)
        } else {
            digits_of(n as nat)
        },
        // "let", "in", "#", "=>", "=", "+", "(", ")", ";"
        TokenView::Let => seq![108u8, 101u8, 116u8],
        TokenView::In => seq![105u8, 110u8],
        TokenView::Hash => seq![35u8],
        TokenView::Arrow => seq![61u8, 62u8],
        TokenView::Equals => seq![61u8],
        TokenView::Plus => seq![43u8],
        TokenView::LParen => seq![40u8],
        TokenView::RParen => seq![41u8],
        TokenView::Semi => seq![59u8],
    }
}

/// The text of a sequence of tokens: the spelling of each, with a space
/// behind it.
pub open spec fn text_of(tokens: Seq<TokenView>) -> Seq<u8>
    decreases tokens.len(),
{
    if tokens.len() == 0 {
        Seq::empty()
    } else {
        spell(tokens.first()) + seq![32u8] + text_of(tokens.drop_first())
    }
}

/// The digits of a number are digits, at least one, and write that number.
pub proof fn lemma_digits_of(n: nat)
    ensures
        digits_of(n).len() >= 1,
        forall|i: int| 0 <= i < digits_of(n).len() ==> is_digit(#[trigger] digits_of(n)[i]),
        decimal(digits_of(n)) == n,
    decreases n,
{
    if n < 10 {
        let d = digits_of(n);
        assert(d.drop_last() =~= Seq::empty());
        assert(decimal(d.drop_last()) == 0);
    } else {
        lemma_digits_of(n / 10);
        let front = digits_of(n / 10);
        let d = digits_of(n);
        assert(d.drop_last() =~= front);
        assert(d.last() == (48 + n % 10) as u8);
    }
}

/// A run of word bytes that ends before a byte that is none, or at the end
/// of the text, is as long as it looks.
pub proof fn lemma_word_run_exact(bytes: Seq<u8>, from: int, to: int)
    requires
        0 <= from <= to <= bytes.len(),
        forall|i: int| from <= i < to ==> is_word_part(#[trigger] bytes[i]),
        to == bytes.len() || !is_word_part(bytes[to]),
    ensures
        word_run(bytes, from) == to - from,
    decreases to - from,
{
    if from < to {
        lemma_word_run_exact(bytes, from + 1, to);
    }
}

/// As [`lemma_word_run_exact`], for digits.
pub proof fn lemma_digit_run_exact(bytes: Seq<u8>, from: int, to: int)
    requires
        0 <= from <= to <= bytes.len(),
        forall|i: int| from <= i < to ==> is_digit(#[trigger] bytes[i]),
        to == bytes.len() || !is_digit(bytes[to]),
    ensures
        digit_run(bytes, from) == to - from,
    decreases to - from,
{
    if from < to {
        lemma_digit_run_exact(bytes, from + 1, to);
    }
}

/// The lexer reads a token back from its spelling: where the spelling of a
/// token stands, with a space behind it, the token found there is that one
/// and ends before the space.
pub proof fn lemma_lexes_token(token: TokenView, bytes: Seq<u8>, pos: int)
    requires
        spellable(token),
        stands_at(bytes, pos, spell(token) + seq![32u8]),
    ensures
        !is_space(bytes[pos]),
        token_at(bytes, pos) == Ok::<(TokenView, int), ParseError>(
            (token, pos + spell(token).len()),
        ),
{
    let w = spell(token);
    let blank = seq![32u8];
    lemma_stands_split(bytes, pos, w, blank);
    let end = pos + w.len();
    assert(bytes[end + 0] == blank[0]);
    match token {
        TokenView::Ident(name) => {
            assert(bytes[pos + 0] == w[0]);
            assert forall|i: int| pos + 1 <= i < end implies is_word_part(#[trigger] bytes[i]) by {
                assert(bytes[pos + (i - pos)] == w[i - pos]);
            }
            lemma_word_run_exact(bytes, pos + 1, end);
            assert(bytes.subrange(pos, end) =~= w) by {
                assert forall|i: int| 0 <= i < w.len() implies bytes.subrange(pos, end)[i]
                    == w[i] by {
                    assert(bytes[pos + i] == w[i]);
                }
            }
        },
        TokenView::Int(n) => {
            if n < 0 {
                let d = digits_of((-n) as nat);
                lemma_digits_of((-n) as nat);
                lemma_stands_split(bytes, pos, seq![45u8], d);
                assert(bytes[pos + 0] == seq![45u8][0]);
                assert forall|i: int| pos + 1 <= i < end implies is_digit(#[trigger] bytes[i]) by {
                    assert(bytes[pos + 1 + (i - pos - 1)] == d[i - pos - 1]);
                }
                lemma_digit_run_exact(bytes, pos + 2, end);
                assert(bytes.subrange(pos + 1, end) =~= d) by {
                    assert forall|i: int| 0 <= i < d.len() implies bytes.subrange(pos + 1, end)[i]
                        == d[i] by {
                        assert(bytes[pos + 1 + i] == d[i]);
                    }
                }
            } else {
                let d = digits_of(n as nat);
                lemma_digits_of(n as nat);
                assert(bytes[pos + 0] == d[0]);
                assert forall|i: int| pos <= i < end implies is_digit(#[trigger] bytes[i]) by {
                    assert(bytes[pos + (i - pos)] == d[i - pos]);
                }
                lemma_digit_run_exact(bytes, pos + 1, end);
                assert(bytes.subrange(pos, end) =~= d) by {
                    assert forall|i: int| 0 <= i < d.len() implies bytes.subrange(pos, end)[i]
                        == d[i] by {
                        assert(bytes[pos + i] == d[i]);
                    }
                }
            }
        },
        TokenView::Let => {
            assert(bytes[pos + 0] == w[0] && bytes[pos + 1] == w[1] && bytes[pos + 2] == w[2]);
            lemma_word_run_exact(bytes, pos + 1, end);
            assert(bytes.subrange(pos, end) =~= w);
        },
        TokenView::In => {
            assert(bytes[pos + 0] == w[0] && bytes[pos + 1] == w[1]);
            lemma_word_run_exact(bytes, pos + 1, end);
            assert(bytes.subrange(pos, end) =~= w);
        },
        TokenView::Arrow => {
            assert(bytes[pos + 0] == w[0] && bytes[pos + 1] == w[1]);
        },
        _ => {
            assert(bytes[pos + 0] == w[0]);
        },
    }
}

/// The lexer reads tokens back from their text: where the text of `tokens`
/// stands at the end of `bytes`, the tokens from there on are `tokens`.
pub proof fn lemma_lexes_text(
    tokens: Seq<TokenView>,
    bytes: Seq<u8>,
    pos: int,
    found: Seq<TokenView>,
)
    requires
        forall|i: int| 0 <= i < tokens.len() ==> spellable(#[trigger] tokens[i]),
        stands_at(bytes, pos, text_of(tokens)),
        pos + text_of(tokens).len() == bytes.len(),
    ensures
        lex_from(bytes, pos, found) == Ok::<Seq<TokenView>, ParseError>(found + tokens),
    decreases tokens.len(),
{
    if tokens.len() == 0 {
        assert(found + tokens =~= found);
    } else {
        let first = tokens.first();
        let rest = tokens.drop_first();
        let blank = seq![32u8];
        lemma_stands_split(bytes, pos, spell(first) + blank, text_of(rest));
        lemma_lexes_token(first, bytes, pos);
        let end = pos + spell(first).len();
        lemma_stands_split(bytes, pos, spell(first), blank);
        assert(bytes[end + 0] == blank[0]);
        assert forall|i: int| 0 <= i < rest.len() implies spellable(#[trigger] rest[i]) by {
            assert(rest[i] == tokens[i + 1]);
        }
        lemma_lexes_text(rest, bytes, end + 1, found.push(first));
        assert(found.push(first) + rest =~= found + tokens);
        assert(lex_from(bytes, end, found.push(first)) == lex_from(
            bytes,
            end + 1,
            found.push(first),
        ));
    }
}

/// Whether every token of `tokens` can be spelled.
pub open spec fn all_spellable(tokens: Seq<TokenView>) -> bool {
    forall|i: int| 0 <= i < tokens.len() ==> spellable(#[trigger] tokens[i])
}

/// Whether every name in `e` can be written as an identifier.
pub open spec fn names_written(e: ExprView) -> bool
    decreases e,
{
    match e {
        ExprView::Var(x) => is_identifier(x),
        ExprView::Int(_) => true,
        ExprView::Lam(param, body) => is_identifier(param) && names_written(*body),
        ExprView::App(f, a) => names_written(*f) && names_written(*a),
        ExprView::Let(x, bound, body) => is_identifier(x) && names_written(*bound)
            && names_written(*body),
        ExprView::Add(l, r) => names_written(*l) && names_written(*r),
    }
}

/// Whether every item of `items` is a definition in which every name can be
/// written as an identifier.
pub open spec fn program_written(items: Seq<TopLevelView>) -> bool {
    forall|i: int|
        0 <= i < items.len() ==> match #[trigger] items[i] {
            TopLevelView::TopDef(name, e) => is_identifier(name) && names_written(e),
            TopLevelView::TopLoad(_) => false,
        }
}

/// Tokens that can be spelled, put one sequence behind the other, can be
/// spelled.
proof fn lemma_spellable_concat(a: Seq<TokenView>, b: Seq<TokenView>)
    requires
        all_spellable(a),
        all_spellable(b),
    ensures
        all_spellable(a + b),
{
    assert forall|i: int| 0 <= i < (a + b).len() implies spellable(#[trigger] (a + b)[i]) by {
        if i < a.len() {
            assert((a + b)[i] == a[i]);
        } else {
            assert((a + b)[i] == b[i - a.len()]);
        }
    }
}

/// The writing of an expression whose names can be written can be spelled.
pub proof fn lemma_writing_spellable(e: ExprView)
    requires
        names_written(e),
    ensures
        all_spellable(write_expr(e)),
        all_spellable(write_atom(e)),
    decreases e,
{
    let open = seq![TokenView::LParen];
    let close = seq![TokenView::RParen];
    match e {
        ExprView::Var(_) => {},
        ExprView::Int(_) => {},
        ExprView::Lam(param, body) => {
            lemma_writing_spellable(*body);
            let head = seq![TokenView::Hash, TokenView::Ident(param), TokenView::Arrow];
            lemma_spellable_concat(head, write_expr(*body));
        },
        ExprView::Let(x, bound, body) => {
            lemma_writing_spellable(*bound);
            lemma_writing_spellable(*body);
            let head = seq![TokenView::Let, TokenView::Ident(x), TokenView::Equals];
            let mid = seq![TokenView::In];
            lemma_spellable_concat(head, write_expr(*bound));
            lemma_spellable_concat(head + write_expr(*bound), mid);
            lemma_spellable_concat(head + write_expr(*bound) + mid, write_expr(*body));
        },
        ExprView::Add(l, r) => {
            lemma_writing_spellable(*l);
            lemma_writing_spellable(*r);
            let plus = seq![TokenView::Plus];
            lemma_spellable_concat(write_atom(*l), plus);
            lemma_spellable_concat(write_atom(*l) + plus, write_atom(*r));
        },
        ExprView::App(f, a) => {
            lemma_writing_spellable(*f);
            lemma_writing_spellable(*a);
            lemma_spellable_concat(write_atom(*f), open);
            lemma_spellable_concat(write_atom(*f) + open, write_expr(*a));
            lemma_spellable_concat(write_atom(*f) + open + write_expr(*a), close);
        },
    }
    if !(e is Var) && !(e is Int) {
        lemma_spellable_concat(open, write_expr(e));
        lemma_spellable_concat(open + write_expr(e), close);
    }
}

/// The writing of definitions whose names can be written can be spelled.
pub proof fn lemma_items_spellable(items: Seq<TopLevelView>)
    requires
        program_written(items),
    ensures
        all_spellable(write_items(items)),
    decreases items.len(),
{
    if items.len() > 0 {
        let rest = items.drop_first();
        assert forall|i: int| 0 <= i < rest.len() implies match #[trigger] rest[i] {
            TopLevelView::TopDef(name, e) => is_identifier(name) && names_written(e),
            TopLevelView::TopLoad(_) => false,
        } by {
            assert(rest[i] == items[i + 1]);
        }
        lemma_items_spellable(rest);
        match items[0] {
            TopLevelView::TopDef(name, e) => {
                lemma_writing_spellable(e);
                let head = seq![TokenView::Ident(name), TokenView::Equals];
                let semi = seq![TokenView::Semi];
                lemma_spellable_concat(head, write_expr(e));
                lemma_spellable_concat(head + write_expr(e), semi);
                lemma_spellable_concat(write_item(items[0]), write_items(rest));
            },
            TopLevelView::TopLoad(_) => {},
        }
    }
}

/// A program is read back from its text. Take a list of definitions in
/// which every name is an identifier and nothing is nested more deeply than
/// the parser follows; write it as tokens and spell them: the text parses
/// to that very list.
pub proof fn lemma_reads_text(items: Seq<TopLevelView>)
    requires
        readable(items, NESTING_LIMIT as nat),
        program_written(items),
    ensures
        parse_spec(text_of(write_items(items))) == Ok::<TopLevelView, ParseError>(
            TopLevelView::TopLoad(items),
        ),
{
    let tokens = write_items(items);
    let text = text_of(tokens);
    lemma_items_spellable(items);
    lemma_lexes_text(tokens, text, 0, Seq::empty());
    assert(Seq::<TokenView>::empty() + tokens =~= tokens);
    lemma_reads_program(items, NESTING_LIMIT as nat);
}

} // verus!
