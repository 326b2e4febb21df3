//! The tokens of the surface syntax, and the lexer that finds them in a
//! text.
//!
//! A text is a sequence of bytes. Blanks (space, tab, carriage return, line
//! feed) separate tokens and mean nothing else. The tokens are
//!
//! - a word, `[A-Za-z_][A-Za-z0-9_]*`, taken as long as it goes: `let` and
//!   `in` are keywords, every other word is an identifier;
//! - an integer, `-?[0-9]+`, taken as long as it goes, which must fit in 32
//!   bits;
//! - the signs `#`, `=>`, `=`, `+`, `(`, `)` and `;`.
//!
//! Any other byte is an error.

use crate::ast::Name;
use vstd::prelude::*;

verus! {

/// A token.
#[derive(Debug, PartialEq, Eq)]
pub enum Token {
    /// An identifier.
    Ident(Name),
    /// An integer literal.
    Int(i32),
    /// `let`
    Let,
    /// `in`
    In,
    /// `#`
    Hash,
    /// `=>`
    Arrow,
    /// `=`
    Equals,
    /// `+`
    Plus,
    /// `(`
    LParen,
    /// `)`
    RParen,
    /// `;`
    Semi,
}

/// The view of a [`Token`].
pub enum TokenView {
    Ident(Seq<char>),
    Int(i32),
    Let,
    In,
    Hash,
    Arrow,
    Equals,
    Plus,
    LParen,
    RParen,
    Semi,
}

impl View for Token {
    type V = TokenView;

    open spec fn view(&self) -> TokenView {
        match self {
            Token::Ident(name) => TokenView::Ident(name@),
            Token::Int(n) => TokenView::Int(*n),
            Token::Let => TokenView::Let,
            Token::In => TokenView::In,
            Token::Hash => TokenView::Hash,
            Token::Arrow => TokenView::Arrow,
            Token::Equals => TokenView::Equals,
            Token::Plus => TokenView::Plus,
            Token::LParen => TokenView::LParen,
            Token::RParen => TokenView::RParen,
            Token::Semi => TokenView::Semi,
        }
    }
}

impl Clone for Token {
    fn clone(&self) -> (r: Token)
        ensures
            r == *self,
    {
        match self {
            Token::Ident(name) => Token::Ident(name.clone()),
            Token::Int(n) => Token::Int(*n),
            Token::Let => Token::Let,
            Token::In => Token::In,
            Token::Hash => Token::Hash,
            Token::Arrow => Token::Arrow,
            Token::Equals => Token::Equals,
            Token::Plus => Token::Plus,
            Token::LParen => Token::LParen,
            Token::RParen => Token::RParen,
            Token::Semi => Token::Semi,
        }
    }
}

/// Why a text is no program.
#[derive(Clone, Copy, Debug, PartialEq, Eq)]
pub enum ParseError {
    /// The byte at this offset begins no token.
    UnexpectedByte(usize),
    /// The integer literal that begins at this offset does not fit in 32
    /// bits.
    IntegerOutOfRange(usize),
    /// The token with this index, counting from 0, cannot stand where it is.
    UnexpectedToken(usize),
    /// The text ends where a token is still needed.
    UnexpectedEnd,
    /// The text nests more deeply than the parser follows.
    NestingTooDeep,
}

/// The views of a sequence of tokens.
pub open spec fn tokens_view(tokens: Seq<Token>) -> Seq<TokenView> {
    tokens.map_values(|t: Token| t@)
}

/// Whether `b` is a blank: space, tab, line feed or carriage return.
pub open spec fn is_space(b: u8) -> bool {
    // ' ', '\t', '\n', '\r'
    b == 32 || b == 9 || b == 10 || b == 13
}

/// Whether `b` is one of `0` to `9`.
pub open spec fn is_digit(b: u8) -> bool {
    // '0' to '9'
    48 <= b <= 57
}

/// Whether a word can begin with `b`: a letter or `_`.
pub open spec fn is_word_start(b: u8) -> bool {
    // 'A' to 'Z', 'a' to 'z', '_'
    65 <= b <= 90 || 97 <= b <= 122 || b == 95
}

/// Whether a word can go on with `b`: a letter, `_` or a digit.
pub open spec fn is_word_part(b: u8) -> bool {
    is_word_start(b) || is_digit(b)
}

/// How many bytes from `pos` on belong to a word.
pub open spec fn word_run(bytes: Seq<u8>, pos: int) -> nat
    decreases bytes.len() - pos,
{
    if 0 <= pos < bytes.len() && is_word_part(bytes[pos]) {
        1 + word_run(bytes, pos + 1)
    } else {
        0
    }
}

/// How many bytes from `pos` on are digits.
pub open spec fn digit_run(bytes: Seq<u8>, pos: int) -> nat
    decreases bytes.len() - pos,
{
    if 0 <= pos < bytes.len() && is_digit(bytes[pos]) {
        1 + digit_run(bytes, pos + 1)
    } else {
        0
    }
}

/// The number that a sequence of digits writes in base ten.
pub open spec fn decimal(digits: Seq<u8>) -> nat
    decreases digits.len(),
{
    if digits.len() == 0 {
        0
    } else {
        decimal(digits.drop_last()) * 10 + (digits.last() - 48) as nat
    }
}

/// The characters that ASCII bytes stand for.
pub open spec fn chars_of(bytes: Seq<u8>) -> Seq<char> {
    bytes.map_values(|b: u8| b as char)
}

/// The token that a word is: a keyword or an identifier.
pub open spec fn word_token(word: Seq<u8>) -> TokenView {
    if word == seq![108u8, 101u8, 116u8] {
        // "let"
        TokenView::Let
    } else if word == seq![105u8, 110u8] {
        // "in"
        TokenView::In
    } else {
        TokenView::Ident(chars_of(word))
    }
}

/// The token that begins at `pos`, where a byte stands that is no blank,
/// and the offset behind it.
pub open spec fn token_at(bytes: Seq<u8>, pos: int) -> Result<(TokenView, int), ParseError> {
    let b = bytes[pos];
    if is_word_start(b) {
        let end = pos + 1 + word_run(bytes, pos + 1);
        Ok((word_token(bytes.subrange(pos, end)), end))
    } else if is_digit(b) {
        let end = pos + 1 + digit_run(bytes, pos + 1);
        let value = decimal(bytes.subrange(pos, end));
        if value <= i32::MAX {
            Ok((TokenView::Int(value as i32), end))
        } else {
            Err(ParseError::IntegerOutOfRange(pos as usize))
        }
    } else if b == 45 && pos + 1 < bytes.len() && is_digit(bytes[pos + 1]) {
        // '-' before a digit
        let end = pos + 2 + digit_run(bytes, pos + 2);
        let value = decimal(bytes.subrange(pos + 1, end));
        if value <= -i32::MIN {
            Ok((TokenView::Int((-value) as i32), end))
        } else {
            Err(ParseError::IntegerOutOfRange(pos as usize))
        }
    } else if b == 61 {
        // '=', and "=>" where '>' follows
        if pos + 1 < bytes.len() && bytes[pos + 1] == 62 {
            Ok((TokenView::Arrow, pos + 2))
        } else {
            Ok((TokenView::Equals, pos + 1))
        }
    } else if b == 35 {
        // '#'
        Ok((TokenView::Hash, pos + 1))
    } else if b == 43 {
        // '+'
        Ok((TokenView::Plus, pos + 1))
    } else if b == 40 {
        // '('
        Ok((TokenView::LParen, pos + 1))
    } else if b == 41 {
        // ')'
        Ok((TokenView::RParen, pos + 1))
    } else if b == 59 {
        // ';'
        Ok((TokenView::Semi, pos + 1))
    } else {
        Err(ParseError::UnexpectedByte(pos as usize))
    }
}

/// The tokens of `bytes` from `pos` on, behind those of `found`; or the
/// first error from `pos` on.
pub open spec fn lex_from(bytes: Seq<u8>, pos: int, found: Seq<TokenView>) -> Result<
    Seq<TokenView>,
    ParseError,
>
    decreases bytes.len() - pos,
    via lex_from_terminates
{
    if pos < 0 || pos >= bytes.len() {
        Ok(found)
    } else if is_space(bytes[pos]) {
        lex_from(bytes, pos + 1, found)
    } else {
        match token_at(bytes, pos) {
            Err(e) => Err(e),
            Ok((token, end)) => lex_from(bytes, end, found.push(token)),
        }
    }
}

/// A token is at least one byte long and ends within the text.
pub proof fn lemma_token_advances(bytes: Seq<u8>, pos: int)
    requires
        0 <= pos < bytes.len(),
    ensures
        token_at(bytes, pos) matches Ok((_, end)) ==> pos < end <= bytes.len(),
{
    lemma_word_run_bound(bytes, pos + 1);
    lemma_digit_run_bound(bytes, pos + 1);
    if pos + 1 < bytes.len() {
        lemma_digit_run_bound(bytes, pos + 2);
    }
}

/// A run of word bytes ends within the text.
pub proof fn lemma_word_run_bound(bytes: Seq<u8>, pos: int)
    requires
        0 <= pos <= bytes.len(),
    ensures
        pos + word_run(bytes, pos) <= bytes.len(),
    decreases bytes.len() - pos,
{
    if pos < bytes.len() && is_word_part(bytes[pos]) {
        lemma_word_run_bound(bytes, pos + 1);
    }
}

/// A run of digits ends within the text.
pub proof fn lemma_digit_run_bound(bytes: Seq<u8>, pos: int)
    requires
        0 <= pos <= bytes.len(),
    ensures
        pos + digit_run(bytes, pos) <= bytes.len(),
    decreases bytes.len() - pos,
{
    if pos < bytes.len() && is_digit(bytes[pos]) {
        lemma_digit_run_bound(bytes, pos + 1);
    }
}

#[via_fn]
proof fn lex_from_terminates(bytes: Seq<u8>, pos: int, found: Seq<TokenView>) {
    if 0 <= pos < bytes.len() && !is_space(bytes[pos]) {
        lemma_token_advances(bytes, pos);
    }
}

/// The tokens of a text.
pub open spec fn lex_spec(bytes: Seq<u8>) -> Result<Seq<TokenView>, ParseError> {
    lex_from(bytes, 0, Seq::empty())
}

/// The view of the lexer's result.
pub open spec fn lexed_view(r: Result<Vec<Token>, ParseError>) -> Result<
    Seq<TokenView>,
    ParseError,
> {
    match r {
        Ok(tokens) => Ok(tokens_view(tokens@)),
        Err(e) => Err(e),
    }
}

/// Appends one ASCII character to a string.
///
/// Trusted: this is `String::push`, which appends the given character at
/// the end of the string and leaves what was there as it is.
#[verifier::external_body]
fn push_ascii(s: &mut String, b: u8)
    requires
        b < 128,
    ensures
        final(s)@ == old(s)@.push(b as char),
{
    s.push(b as char)
}

fn byte_is_digit(b: u8) -> (r: bool)
    ensures
        r == is_digit(b),
{
    48 <= b && b <= 57
}

fn byte_is_word_start(b: u8) -> (r: bool)
    ensures
        r == is_word_start(b),
{
    (65 <= b && b <= 90) || (97 <= b && b <= 122) || b == 95
}

fn byte_is_word_part(b: u8) -> (r: bool)
    ensures
        r == is_word_part(b),
{
    byte_is_word_start(b) || byte_is_digit(b)
}

/// The offset behind the word bytes that begin at `start`.
fn word_end(input: &[u8], start: usize) -> (end: usize)
    requires
        start <= input@.len(),
    ensures
        end == start + word_run(input@, start as int),
        end <= input@.len(),
        forall|i: int| start <= i < end ==> is_word_part(#[trigger] input@[i]),
{
    let mut j: usize = start;
    while j < input.len() && byte_is_word_part(input[j])
        invariant
            start <= j <= input@.len(),
            word_run(input@, start as int) == (j - start) + word_run(input@, j as int),
            forall|i: int| start <= i < j ==> is_word_part(#[trigger] input@[i]),
        decreases input@.len() - j,
    {
        j += 1;
    }
    j
}

/// The offset behind the digits that begin at `start`, and the number that
/// they write, as far as it matters: a number above 2^31 is given as some
/// number above 2^31.
fn number_end(input: &[u8], start: usize) -> (r: (u64, usize))
    requires
        start <= input@.len(),
    ensures
        r.1 == start + digit_run(input@, start as int),
        r.1 <= input@.len(),
        decimal(input@.subrange(start as int, r.1 as int)) <= 0x8000_0000 ==> r.0 == decimal(
            input@.subrange(start as int, r.1 as int),
        ),
        decimal(input@.subrange(start as int, r.1 as int)) > 0x8000_0000 ==> r.0 > 0x8000_0000,
{
    let mut j: usize = start;
    let mut value: u64 = 0;
    assert(input@.subrange(start as int, start as int) =~= Seq::empty());
    while j < input.len() && byte_is_digit(input[j])
        invariant
            start <= j <= input@.len(),
            digit_run(input@, start as int) == (j - start) + digit_run(input@, j as int),
            decimal(input@.subrange(start as int, j as int)) <= 0x8000_0000 ==> value == decimal(
                input@.subrange(start as int, j as int),
            ),
            decimal(input@.subrange(start as int, j as int)) > 0x8000_0000 ==> value > 0x8000_0000,
        decreases input@.len() - j,
    {
        assert(input@.subrange(start as int, j + 1).drop_last() =~= input@.subrange(
            start as int,
            j as int,
        ));
        if value <= 0x8000_0000 {
            value = value * 10 + (input[j] - 48) as u64;
        }
        j += 1;
    }
    (value, j)
}

/// The characters of the word in `input[start..end]`.
fn word_text(input: &[u8], start: usize, end: usize) -> (r: String)
    requires
        start <= end <= input@.len(),
        forall|i: int| start <= i < end ==> is_word_part(#[trigger] input@[i]),
    ensures
        r@ == chars_of(input@.subrange(start as int, end as int)),
{
    let mut text = String::new();
    let mut k: usize = start;
    while k < end
        invariant
            start <= k <= end <= input@.len(),
            forall|i: int| start <= i < end ==> is_word_part(#[trigger] input@[i]),
            text@ == chars_of(input@.subrange(start as int, k as int)),
        decreases end - k,
    {
        push_ascii(&mut text, input[k]);
        k += 1;
        assert(chars_of(input@.subrange(start as int, k as int)) =~= chars_of(
            input@.subrange(start as int, k - 1),
        ).push(input@[k - 1] as char));
    }
    text
}

/// The token that the word in `input[start..end]` is.
fn word(input: &[u8], start: usize, end: usize) -> (r: Token)
    requires
        start < end <= input@.len(),
        forall|i: int| start <= i < end ==> is_word_part(#[trigger] input@[i]),
    ensures
        r@ == word_token(input@.subrange(start as int, end as int)),
{
    let ghost w = input@.subrange(start as int, end as int);
    if end - start == 3 && input[start] == 108 && input[start + 1] == 101 && input[start + 2]
        == 116 {
        assert(w =~= seq![108u8, 101u8, 116u8]);
        Token::Let
    } else if end - start == 2 && input[start] == 105 && input[start + 1] == 110 {
        assert(w =~= seq![105u8, 110u8]);
        Token::In
    } else {
        proof {
            let l = seq![108u8, 101u8, 116u8];
            let i = seq![105u8, 110u8];
            if w == l {
                assert(w.len() == 3 && w[0] == l[0] && w[1] == l[1] && w[2] == l[2]);
            }
            if w == i {
                assert(w.len() == 2 && w[0] == i[0] && w[1] == i[1]);
            }
        }
        Token::Ident(word_text(input, start, end))
    }
}

/// The token that begins at `pos`, and the offset behind it.
fn next_token(input: &[u8], pos: usize) -> (r: Result<(Token, usize), ParseError>)
    requires
        pos < input@.len(),
    ensures
        match r {
            Ok((token, end)) => token_at(input@, pos as int) == Ok::<(TokenView, int), ParseError>(
                (token@, end as int),
            ) && pos < end <= input@.len(),
            Err(e) => token_at(input@, pos as int) == Err::<(TokenView, int), ParseError>(e),
        },
{
    let b: u8 = input[pos];
    if byte_is_word_start(b) {
        let end: usize = word_end(input, pos + 1);
        Ok((word(input, pos, end), end))
    } else if byte_is_digit(b) {
        let (value, end) = number_end(input, pos);
        if value <= 0x7fff_ffff {
            Ok((Token::Int(value as i32), end))
        } else {
            Err(ParseError::IntegerOutOfRange(pos))
        }
    } else if b == 45 && pos + 1 < input.len() && byte_is_digit(input[pos + 1]) {
        let (value, end) = number_end(input, pos + 1);
        if value <= 0x8000_0000 {
            Ok((Token::Int((0 - value as i64) as i32), end))
        } else {
            Err(ParseError::IntegerOutOfRange(pos))
        }
    } else if b == 61 {
        if pos + 1 < input.len() && input[pos + 1] == 62 {
            Ok((Token::Arrow, pos + 2))
        } else {
            Ok((Token::Equals, pos + 1))
        }
    } else if b == 35 {
        Ok((Token::Hash, pos + 1))
    } else if b == 43 {
        Ok((Token::Plus, pos + 1))
    } else if b == 40 {
        Ok((Token::LParen, pos + 1))
    } else if b == 41 {
        Ok((Token::RParen, pos + 1))
    } else if b == 59 {
        Ok((Token::Semi, pos + 1))
    } else {
        Err(ParseError::UnexpectedByte(pos))
    }
}

/// The tokens of `input`, or the first error in it.
pub fn tokenize(input: &[u8]) -> (r: Result<Vec<Token>, ParseError>)
    ensures
        lexed_view(r) == lex_spec(input@),
{
    let mut tokens: Vec<Token> = Vec::new();
    let mut pos: usize = 0;
    assert(tokens_view(tokens@) =~= Seq::empty());
    while pos < input.len()
        invariant
            pos <= input@.len(),
            lex_from(input@, pos as int, tokens_view(tokens@)) == lex_spec(input@),
        decreases input@.len() - pos,
    {
        let b: u8 = input[pos];
        if b == 32 || b == 9 || b == 10 || b == 13 {
            pos += 1;
        } else {
            match next_token(input, pos) {
                Err(e) => {
                    return Err(e);
                },
                Ok((token, end)) => {
                    let ghost before = tokens_view(tokens@);
                    tokens.push(token);
                    assert(tokens_view(tokens@) =~= before.push(token@));
                    pos = end;
                },
            }
        }
    }
    Ok(tokens)
}

} // verus!
