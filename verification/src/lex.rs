//! Text to tokens.
//!
//! Keywords are not told apart here. They arrive as [`Tok::Word`] and the parser compares them
//! without regard to case, so no word is reserved.

use vstd::prelude::*;
use vstd::utf8::{decode_utf8, is_char_boundary, valid_utf8};
use crate::error::{Result, SqlError, SqlErrorView};
use crate::pql::{Literal, LiteralView};
use crate::text::{bytes, same, views};

verus! {

/// One token, and where it started.
#[derive(Clone, PartialEq, Eq, Debug)]
pub struct Token {
    /// What it is.
    pub tok: Tok,
    /// Byte offset of its first character.
    pub at: usize,
}

/// What a [`Token`] holds.
#[verifier::ext_equal]
pub struct TokenView {
    pub tok: TokView,
    pub at: usize,
}

impl View for Token {
    type V = TokenView;

    open spec fn view(&self) -> TokenView {
        TokenView {
            tok: self.tok@,
            at: self.at,
        }
    }
}

/// What a token is.
#[derive(Clone, PartialEq, Eq, Debug)]
pub enum Tok {
    /// A bare word: an identifier, or a keyword, told apart by the parser.
    Word(String),
    /// A double-quoted identifier, which is never a keyword.
    Quoted(String),
    /// A single-quoted string. `''` is the escape for one quote.
    Str(String),
    /// A number, already in the shape the planner takes.
    Num(Literal),
    /// A comparison, normalised: `==` arrives as `=` and `<>` as `!=`.
    Op(&'static str),
    /// An arithmetic sign: `+`, `-`, `/` or `%`.
    Arith(&'static str),
    /// `(`
    LParen,
    /// `)`
    RParen,
    /// `,`
    Comma,
    /// `*`
    Star,
    /// `.`
    Dot,
}

/// What a [`Tok`] holds.
#[verifier::ext_equal]
pub enum TokView {
    Word(Seq<char>),
    Quoted(Seq<char>),
    Str(Seq<char>),
    Num(LiteralView),
    Op(Seq<char>),
    Arith(Seq<char>),
    LParen,
    RParen,
    Comma,
    Star,
    Dot,
}

impl View for Tok {
    type V = TokView;

    open spec fn view(&self) -> TokView {
        match *self {
            Tok::Word(a) => TokView::Word(a@),
            Tok::Quoted(a) => TokView::Quoted(a@),
            Tok::Str(a) => TokView::Str(a@),
            Tok::Num(a) => TokView::Num(a@),
            Tok::Op(a) => TokView::Op(a@),
            Tok::Arith(a) => TokView::Arith(a@),
            Tok::LParen => TokView::LParen,
            Tok::RParen => TokView::RParen,
            Tok::Comma => TokView::Comma,
            Tok::Star => TokView::Star,
            Tok::Dot => TokView::Dot,
        }
    }
}

impl Tok {

    /// Whether two are the same.
    pub fn same(&self, other: &Tok) -> (r: bool)
        ensures
            r == (self@ == other@),
    {
        match (self, other) {
            (Tok::Word(x_a), Tok::Word(y_a)) => same(x_a.as_str(), y_a.as_str()),
            (Tok::Quoted(x_a), Tok::Quoted(y_a)) => same(x_a.as_str(), y_a.as_str()),
            (Tok::Str(x_a), Tok::Str(y_a)) => same(x_a.as_str(), y_a.as_str()),
            (Tok::Num(x_a), Tok::Num(y_a)) => x_a.same(y_a),
            (Tok::Op(x_a), Tok::Op(y_a)) => same(x_a, y_a),
            (Tok::Arith(x_a), Tok::Arith(y_a)) => same(x_a, y_a),
            (Tok::LParen, Tok::LParen) => true,
            (Tok::RParen, Tok::RParen) => true,
            (Tok::Comma, Tok::Comma) => true,
            (Tok::Star, Tok::Star) => true,
            (Tok::Dot, Tok::Dot) => true,
            _ => false,
        }
    }
}

/// A byte that separates tokens and is none.
pub open spec fn is_blank(c: u8) -> bool {
    c == 32 || c == 9 || c == 10 || c == 12 || c == 13
}

/// An ASCII digit.
pub open spec fn is_digit(c: u8) -> bool {
    48 <= c <= 57
}

/// A byte a word may begin with.
pub open spec fn starts_word(c: u8) -> bool {
    (65 <= c <= 90) || (97 <= c <= 122) || c == 95
}

/// A byte a word may go on with.
pub open spec fn continues_word(c: u8) -> bool {
    starts_word(c) || is_digit(c)
}

/// Whether a byte is at a position.
pub open spec fn byte_is(s: Seq<u8>, i: int, c: u8) -> bool {
    0 <= i < s.len() && s[i] == c
}

/// Whether a digit is at a position.
pub open spec fn digit_at(s: Seq<u8>, i: int) -> bool {
    0 <= i < s.len() && is_digit(s[i])
}

/// The end of the run of digits that starts here.
pub open spec fn digits_end(s: Seq<u8>, i: int) -> int
    decreases s.len() - i,
{
    if digit_at(s, i) {
        digits_end(s, i + 1)
    } else {
        i
    }
}

/// The end of the word that goes on from here.
pub open spec fn word_end(s: Seq<u8>, i: int) -> int
    decreases s.len() - i,
{
    if 0 <= i < s.len() && continues_word(s[i]) {
        word_end(s, i + 1)
    } else {
        i
    }
}

/// The position of the next given byte, or the end.
pub open spec fn next_byte(s: Seq<u8>, i: int, c: u8) -> int
    decreases s.len() - i,
{
    if 0 <= i < s.len() && s[i] != c {
        next_byte(s, i + 1, c)
    } else {
        i
    }
}

/// The text between two positions.
pub open spec fn slice(s: Seq<u8>, a: int, b: int) -> Seq<char> {
    decode_utf8(s.subrange(a, b))
}

/// What is inside a quoted run whose opening quote has been passed, and the position after the
/// closing one. A doubled quote stands for itself; `None` when nothing closes the run.
pub open spec fn unquote(s: Seq<u8>, i: int, quote: u8) -> Option<(Seq<char>, int)>
    decreases s.len() - i,
{
    if i < 0 || i >= s.len() {
        None
    } else if s[i] == quote {
        if byte_is(s, i + 1, quote) {
            match unquote(s, i + 2, quote) {
                Some((rest, end)) => Some((seq![quote as char] + rest, end)),
                None => None,
            }
        } else {
            Some((Seq::empty(), i + 1))
        }
    } else {
        let j = next_byte(s, i, quote);
        proof {
            lemma_next_byte(s, i, quote);
        }
        match unquote(s, j, quote) {
            Some((rest, end)) => Some((slice(s, i, j) + rest, end)),
            None => None,
        }
    }
}

/// The number a run of digits spells.
pub open spec fn value_of(digits: Seq<u8>) -> nat
    decreases digits.len(),
{
    if digits.len() == 0 {
        0
    } else {
        value_of(digits.drop_last()) * 10 + (digits.last() - 48) as nat
    }
}

/// A token and the position after it, or why there is none.
pub type Scan = core::result::Result<(TokView, int), SqlErrorView>;

/// The number that starts at a position, which holds a digit, or a sign before one.
pub open spec fn scan_number(s: Seq<u8>, i: int) -> Scan {
    let negative = s[i] == 45;
    let start = if negative {
        i + 1
    } else {
        i
    };
    let e = digits_end(s, start);
    let fractional = byte_is(s, e, 46) && digit_at(s, e + 1);
    let end = if fractional {
        digits_end(s, e + 1)
    } else {
        e
    };
    let scale = if fractional {
        end - (e + 1)
    } else {
        0
    };
    let digits = if fractional {
        s.subrange(start, e) + s.subrange(e + 1, end)
    } else {
        s.subrange(start, e)
    };
    let units = value_of(digits);
    if units > u64::MAX || scale > 255 || (negative && units > i64::MAX) {
        Err(SqlErrorView::NumberTooLarge { at: i as nat })
    } else if negative && scale > 0 {
        Ok((TokView::Num(LiteralView::Sdec { units: (-units) as i64, scale: scale as u8 }), end))
    } else if negative {
        Ok((TokView::Num(LiteralView::Sint((-units) as i64)), end))
    } else if scale == 0 {
        Ok((TokView::Num(LiteralView::Int(units as u64)), end))
    } else {
        Ok((TokView::Num(LiteralView::Dec { units: units as u64, scale: scale as u8 }), end))
    }
}

/// The token that starts at a position, which is neither blank nor the start of a comment.
pub open spec fn scan(s: Seq<u8>, i: int) -> Scan {
    let c = s[i];
    if c == 40 {
        Ok((TokView::LParen, i + 1))
    } else if c == 41 {
        Ok((TokView::RParen, i + 1))
    } else if c == 44 {
        Ok((TokView::Comma, i + 1))
    } else if c == 42 {
        Ok((TokView::Star, i + 1))
    } else if c == 46 {
        Ok((TokView::Dot, i + 1))
    } else if c == 61 {
        Ok((TokView::Op("="@), if byte_is(s, i + 1, 61) { i + 2 } else { i + 1 }))
    } else if c == 33 && byte_is(s, i + 1, 61) {
        Ok((TokView::Op("!="@), i + 2))
    } else if c == 60 {
        if byte_is(s, i + 1, 61) {
            Ok((TokView::Op("<="@), i + 2))
        } else if byte_is(s, i + 1, 62) {
            Ok((TokView::Op("!="@), i + 2))
        } else {
            Ok((TokView::Op("<"@), i + 1))
        }
    } else if c == 62 {
        if byte_is(s, i + 1, 61) {
            Ok((TokView::Op(">="@), i + 2))
        } else {
            Ok((TokView::Op(">"@), i + 1))
        }
    } else if c == 39 {
        match unquote(s, i + 1, 39) {
            Some((text, end)) => Ok((TokView::Str(text), end)),
            None => Err(SqlErrorView::UnterminatedString { at: i as nat }),
        }
    } else if c == 34 {
        match unquote(s, i + 1, 34) {
            Some((text, end)) => Ok((TokView::Quoted(text), end)),
            None => Err(SqlErrorView::UnterminatedString { at: i as nat }),
        }
    } else if is_digit(c) || (c == 45 && digit_at(s, i + 1)) {
        scan_number(s, i)
    } else if c == 43 {
        Ok((TokView::Arith("+"@), i + 1))
    } else if c == 45 {
        Ok((TokView::Arith("-"@), i + 1))
    } else if c == 47 {
        Ok((TokView::Arith("/"@), i + 1))
    } else if c == 37 {
        Ok((TokView::Arith("%"@), i + 1))
    } else if starts_word(c) {
        Ok((TokView::Word(slice(s, i, word_end(s, i))), word_end(s, i)))
    } else {
        Err(SqlErrorView::Syntax {
            at: i as nat,
            found: seq![c as char],
            want: "a word, a number, a string, or an operator"@,
        })
    }
}

/// The tokens from a position on, or the first thing that is none.
pub open spec fn tokens_from(s: Seq<u8>, i: int) -> core::result::Result<
    Seq<TokenView>,
    SqlErrorView,
>
    decreases s.len() - i,
{
    if i < 0 || i >= s.len() {
        Ok(Seq::empty())
    } else if is_blank(s[i]) {
        tokens_from(s, i + 1)
    } else if s[i] == 45 && byte_is(s, i + 1, 45) {
        proof {
            lemma_next_byte(s, i, 10);
        }
        tokens_from(s, next_byte(s, i, 10))
    } else {
        proof {
            lemma_scan_advances(s, i);
        }
        match scan(s, i) {
            Err(e) => Err(e),
            Ok((tok, end)) => match tokens_from(s, end) {
                Err(e) => Err(e),
                Ok(rest) => Ok(seq![TokenView { tok, at: i as usize }] + rest),
            },
        }
    }
}

/// Some tokens put in front of what the rest gave.
pub open spec fn after(
    before: Seq<TokenView>,
    rest: core::result::Result<Seq<TokenView>, SqlErrorView>,
) -> core::result::Result<Seq<TokenView>, SqlErrorView> {
    match rest {
        Ok(r) => Ok(before + r),
        Err(e) => Err(e),
    }
}

/// The next occurrence is at or after the start, and before it there is none.
pub proof fn lemma_next_byte(s: Seq<u8>, i: int, c: u8)
    requires
        0 <= i <= s.len(),
    ensures
        i <= next_byte(s, i, c) <= s.len(),
        i < s.len() && s[i] != c ==> i < next_byte(s, i, c),
        next_byte(s, i, c) < s.len() ==> s[next_byte(s, i, c)] == c,
    decreases s.len() - i,
{
    if i < s.len() && s[i] != c {
        lemma_next_byte(s, i + 1, c);
    }
}

proof fn lemma_digits_end(s: Seq<u8>, i: int)
    requires
        0 <= i <= s.len(),
    ensures
        i <= digits_end(s, i) <= s.len(),
        digit_at(s, i) ==> i < digits_end(s, i),
    decreases s.len() - i,
{
    if digit_at(s, i) {
        lemma_digits_end(s, i + 1);
    }
}

proof fn lemma_word_end(s: Seq<u8>, i: int)
    requires
        0 <= i <= s.len(),
    ensures
        i <= word_end(s, i) <= s.len(),
        i < s.len() && continues_word(s[i]) ==> i < word_end(s, i),
    decreases s.len() - i,
{
    if i < s.len() && continues_word(s[i]) {
        lemma_word_end(s, i + 1);
    }
}

proof fn lemma_unquote(s: Seq<u8>, i: int, quote: u8)
    requires
        0 <= i <= s.len(),
    ensures
        unquote(s, i, quote) matches Some(p) ==> i < p.1 <= s.len(),
    decreases s.len() - i,
{
    if i < s.len() {
        if s[i] == quote {
            if byte_is(s, i + 1, quote) {
                lemma_unquote(s, i + 2, quote);
            }
        } else {
            lemma_next_byte(s, i, quote);
            lemma_unquote(s, next_byte(s, i, quote), quote);
        }
    }
}

/// A token is never empty and never runs past the end.
pub proof fn lemma_scan_advances(s: Seq<u8>, i: int)
    requires
        0 <= i < s.len(),
    ensures
        scan(s, i) matches Ok(p) ==> i < p.1 <= s.len(),
{
    lemma_word_end(s, i);
    lemma_unquote(s, i + 1, 39);
    lemma_unquote(s, i + 1, 34);
    if is_digit(s[i]) || (s[i] == 45 && digit_at(s, i + 1)) {
        let start = if s[i] == 45 {
            i + 1
        } else {
            i
        };
        lemma_digits_end(s, start);
        let e = digits_end(s, start);
        if byte_is(s, e, 46) && digit_at(s, e + 1) {
            lemma_digits_end(s, e + 1);
        }
    }
}

/// Tokens come in the order they were written, each beginning inside the text on the first byte
/// of a character.
pub proof fn tokens_are_in_order(s: Seq<u8>, i: int)
    requires
        valid_utf8(s),
        0 <= i <= s.len(),
        s.len() <= usize::MAX,
    ensures
        tokens_from(s, i) matches Ok(t) ==> {
            &&& forall|j: int| 0 <= j < t.len() ==> i <= (#[trigger] t[j]).at < s.len()
                && is_char_boundary(s, t[j].at as int)
            &&& forall|j: int, k: int|
                #![trigger t[j], t[k]]
                0 <= j < k < t.len() ==> t[j].at < t[k].at
        },
    decreases s.len() - i,
{
    if i < s.len() {
        if is_blank(s[i]) {
            tokens_are_in_order(s, i + 1);
        } else if s[i] == 45 && byte_is(s, i + 1, 45) {
            lemma_next_byte(s, i, 10);
            tokens_are_in_order(s, next_byte(s, i, 10));
        } else {
            lemma_scan_advances(s, i);
            match scan(s, i) {
                Err(_) => {},
                Ok((tok, end)) => {
                    tokens_are_in_order(s, end);
                    lemma_ascii_starts(s, i);
                },
            }
        }
    }
}

/// An ASCII byte begins a character.
pub proof fn lemma_ascii_starts(s: Seq<u8>, i: int)
    requires
        valid_utf8(s),
        0 <= i < s.len(),
        s[i] < 128,
    ensures
        is_char_boundary(s, i),
{
    vstd::utf8::is_char_boundary_iff_not_is_continuation_byte(s, i);
}

/// What follows an ASCII byte begins a character, or is the end.
proof fn lemma_ascii_ends(s: Seq<u8>, i: int)
    requires
        valid_utf8(s),
        0 <= i < s.len(),
        s[i] < 128,
        is_char_boundary(s, i),
    ensures
        is_char_boundary(s, i + 1),
    decreases s.len(),
{
    if i == 0 {
        reveal_with_fuel(is_char_boundary, 2);
    } else {
        let n = vstd::utf8::length_of_first_scalar(s);
        let rest = vstd::utf8::pop_first_scalar(s);
        reveal_with_fuel(is_char_boundary, 2);
        assert(rest[i - n] == s[i]);
        lemma_ascii_ends(rest, i - n);
    }
}

/// The part of a text between two byte positions that begin characters.
pub fn part(input: &str, a: usize, b: usize) -> (r: &str)
    requires
        a <= b <= bytes(input@).len(),
        is_char_boundary(bytes(input@), a as int),
        is_char_boundary(bytes(input@), b as int),
    ensures
        r@ == slice(bytes(input@), a as int, b as int),
{
    let ghost s = bytes(input@);
    let (left, _right) = input.split_at(b);
    let ghost l = s.subrange(0, b as int);
    proof {
        vstd::utf8::encode_utf8_valid_utf8(input@);
        vstd::utf8::encode_utf8_valid_utf8(left@);
        assert(bytes(left@) == l);
        if a < b {
            vstd::utf8::is_char_boundary_iff_not_is_continuation_byte(s, a as int);
            assert(l[a as int] == s[a as int]);
            vstd::utf8::is_char_boundary_iff_not_is_continuation_byte(l, a as int);
        } else {
            vstd::utf8::is_char_boundary_start_end_of_seq(l);
        }
    }
    let (_skip, mid) = left.split_at(a);
    proof {
        assert(bytes(mid@) =~= s.subrange(a as int, b as int));
        vstd::utf8::encode_utf8_decode_utf8(mid@);
    }
    mid
}

/// Splits a statement into tokens, or says where it stopped making sense.
pub fn lex(input: &str) -> (r: Result<Vec<Token>>)
    ensures
        tokens_from(bytes(input@), 0) == (match r {
            Ok(v) => Ok::<Seq<TokenView>, SqlErrorView>(views(v@)),
            Err(e) => Err(e@),
        }),
{
    let s = input.as_bytes();
    let ghost all = tokens_from(s@, 0);
    let mut i: usize = 0;
    let mut out: Vec<Token> = Vec::new();
    proof {
        vstd::utf8::encode_utf8_valid_utf8(input@);
        assert(after(views(out@), all) == all) by {
            match all {
                Ok(t) => {
                    assert(views(out@) + t =~= t);
                },
                Err(_) => {},
            }
        }
    }
    while i < s.len()
        invariant
            s@ == bytes(input@),
            valid_utf8(s@),
            i <= s.len(),
            all == tokens_from(bytes(input@), 0),
            all == after(views(out@), tokens_from(s@, i as int)),
        decreases s.len() - i,
    {
        let c = s[i];
        if c == 32 || c == 9 || c == 10 || c == 12 || c == 13 {
            i += 1;
            continue;
        }
        if c == 45 && i + 1 < s.len() && s[i + 1] == 45 {
            let ghost from = i as int;
            while i < s.len() && s[i] != 10
                invariant
                    i <= s.len(),
                    from <= i,
                    next_byte(s@, from, 10) == next_byte(s@, i as int, 10),
                decreases s.len() - i,
            {
                i += 1;
            }
            proof {
                lemma_next_byte(s@, from, 10);
                assert(i > from);
            }
            continue;
        }
        let at = i;
        let ghost before = out@;
        proof {
            lemma_scan_advances(s@, i as int);
        }
        let tok = token(input, s, &mut i)?;
        out.push(Token { tok, at });
        proof {
            assert(views(out@) =~= views(before).push(out@.last()@));
            match tokens_from(s@, i as int) {
                Ok(rest) => {
                    assert(views(before) + (seq![out@.last()@] + rest) =~= views(out@) + rest);
                },
                Err(_) => {},
            }
        }
    }
    proof {
        assert(views(out@) + Seq::<TokenView>::empty() =~= views(out@));
    }
    Ok(out)
}

/// The token at a position, leaving the position after it.
fn token(input: &str, s: &[u8], i: &mut usize) -> (r: Result<Tok>)
    requires
        s@ == bytes(input@),
        valid_utf8(s@),
        *old(i) < s@.len(),
    ensures
        match r {
            Ok(t) => scan(s@, *old(i) as int) == Ok::<(TokView, int), SqlErrorView>(
                (t@, *final(i) as int),
            ),
            Err(e) => scan(s@, *old(i) as int) == Err::<(TokView, int), SqlErrorView>(e@),
        },
        *final(i) <= s@.len(),
{
    let at = *i;
    let c = s[at];
    let next: u8 = if at + 1 < s.len() {
        s[at + 1]
    } else {
        0
    };
    proof {
        lemma_scan_advances(s@, at as int);
    }
    if c == 40 {
        *i = at + 1;
        Ok(Tok::LParen)
    } else if c == 41 {
        *i = at + 1;
        Ok(Tok::RParen)
    } else if c == 44 {
        *i = at + 1;
        Ok(Tok::Comma)
    } else if c == 42 {
        *i = at + 1;
        Ok(Tok::Star)
    } else if c == 46 {
        *i = at + 1;
        Ok(Tok::Dot)
    } else if c == 61 {
        *i = if next == 61 {
            at + 2
        } else {
            at + 1
        };
        Ok(Tok::Op("="))
    } else if c == 33 && next == 61 {
        *i = at + 2;
        Ok(Tok::Op("!="))
    } else if c == 60 {
        if next == 61 {
            *i = at + 2;
            Ok(Tok::Op("<="))
        } else if next == 62 {
            *i = at + 2;
            Ok(Tok::Op("!="))
        } else {
            *i = at + 1;
            Ok(Tok::Op("<"))
        }
    } else if c == 62 {
        if next == 61 {
            *i = at + 2;
            Ok(Tok::Op(">="))
        } else {
            *i = at + 1;
            Ok(Tok::Op(">"))
        }
    } else if c == 39 {
        let text = string(input, s, i, 39)?;
        Ok(Tok::Str(text))
    } else if c == 34 {
        let text = string(input, s, i, 34)?;
        Ok(Tok::Quoted(text))
    } else if (48 <= c && c <= 57) || (c == 45 && 48 <= next && next <= 57) {
        number(s, i)
    } else if c == 43 {
        *i = at + 1;
        Ok(Tok::Arith("+"))
    } else if c == 45 {
        *i = at + 1;
        Ok(Tok::Arith("-"))
    } else if c == 47 {
        *i = at + 1;
        Ok(Tok::Arith("/"))
    } else if c == 37 {
        *i = at + 1;
        Ok(Tok::Arith("%"))
    } else if (65 <= c && c <= 90) || (97 <= c && c <= 122) || c == 95 {
        proof {
            lemma_ascii_starts(s@, at as int);
        }
        while *i < s.len() && ((65 <= s[*i] && s[*i] <= 90) || (97 <= s[*i] && s[*i] <= 122)
            || s[*i] == 95 || (48 <= s[*i] && s[*i] <= 57))
            invariant
                at <= *i <= s@.len(),
                s@ == bytes(input@),
                valid_utf8(s@),
                at < s@.len(),
                word_end(s@, at as int) == word_end(s@, *i as int),
                is_char_boundary(s@, *i as int),
            decreases s@.len() - *i,
        {
            proof {
                lemma_ascii_ends(s@, *i as int);
            }
            *i = *i + 1;
        }
        Ok(Tok::Word(str::to_owned(part(input, at, *i))))
    } else {
        let mut found = String::new();
        found.push(c as char);
        assert(found@ =~= seq![c as char]);
        Err(
            SqlError::Syntax { at, found, want: "a word, a number, a string, or an operator" },
        )
    }
}

/// A quoted run, with the quote character doubled to mean itself.
fn string(input: &str, s: &[u8], i: &mut usize, quote: u8) -> (r: Result<String>)
    requires
        s@ == bytes(input@),
        valid_utf8(s@),
        *old(i) < s@.len(),
        s@[*old(i) as int] == quote,
        quote < 128,
    ensures
        match r {
            Ok(t) => unquote(s@, *old(i) + 1, quote) == Some((t@, *final(i) as int)),
            Err(e) => unquote(s@, *old(i) + 1, quote) is None && e@
                == (SqlErrorView::UnterminatedString { at: *old(i) as nat }),
        },
        *final(i) <= s@.len(),
{
    let open = *i;
    let len = s.len();
    let ghost want = unquote(s@, open + 1, quote);
    proof {
        lemma_ascii_starts(s@, open as int);
        lemma_ascii_ends(s@, open as int);
    }
    *i = open + 1;
    let mut out = String::new();
    assert(want matches Some(p) ==> out@ + p.0 =~= p.0);
    loop
        invariant
            s@ == bytes(input@),
            valid_utf8(s@),
            quote < 128,
            open < *i <= s@.len(),
            open == *old(i),
            len == s@.len(),
            is_char_boundary(s@, *i as int),
            want == unquote(s@, open + 1, quote),
            match unquote(s@, *i as int, quote) {
                Some(p) => want == Some((out@ + p.0, p.1)),
                None => want is None,
            },
        decreases s@.len() - *i,
    {
        if *i >= len {
            return Err(SqlError::UnterminatedString { at: open });
        }
        let ghost so_far = out@;
        let ghost here = *i as int;
        if s[*i] == quote {
            proof {
                lemma_ascii_ends(s@, here);
            }
            if *i + 1 < s.len() && s[*i + 1] == quote {
                proof {
                    lemma_ascii_ends(s@, here + 1);
                }
                out.push(quote as char);
                *i = *i + 2;
                proof {
                    match unquote(s@, here + 2, quote) {
                        Some(p) => {
                            assert(so_far + (seq![quote as char] + p.0) =~= out@ + p.0);
                        },
                        None => {},
                    }
                }
            } else {
                *i = *i + 1;
                assert(so_far + Seq::<char>::empty() =~= so_far);
                return Ok(out);
            }
        } else {
            let start = *i;
            while *i < s.len() && s[*i] != quote
                invariant
                    start <= *i <= s@.len(),
                    next_byte(s@, start as int, quote) == next_byte(s@, *i as int, quote),
                decreases s@.len() - *i,
            {
                *i = *i + 1;
            }
            proof {
                lemma_next_byte(s@, start as int, quote);
                assert(*i == next_byte(s@, start as int, quote));
                if *i < s@.len() {
                    lemma_ascii_starts(s@, *i as int);
                } else {
                    vstd::utf8::is_char_boundary_start_end_of_seq(s@);
                }
            }
            out.append(part(input, start, *i));
            proof {
                match unquote(s@, *i as int, quote) {
                    Some(p) => {
                        assert(so_far + (slice(s@, start as int, *i as int) + p.0) =~= out@ + p.0);
                    },
                    None => {},
                }
            }
        }
    }
}

/// The number a run of digits spells, when it fits.
fn digits_value(s: &[u8], a: usize, b: usize, from: Option<u64>, Ghost(head): Ghost<Seq<u8>>) -> (r:
    Option<u64>)
    requires
        a <= b <= s@.len(),
        forall|j: int| a <= j < b ==> is_digit(#[trigger] s@[j]),
        match from {
            Some(v) => value_of(head) == v,
            None => value_of(head) > u64::MAX,
        },
    ensures
        match r {
            Some(v) => value_of(head + s@.subrange(a as int, b as int)) == v,
            None => value_of(head + s@.subrange(a as int, b as int)) > u64::MAX,
        },
{
    let mut acc: Option<u64> = from;
    let mut k: usize = a;
    assert(head + s@.subrange(a as int, a as int) =~= head);
    while k < b
        invariant
            a <= k <= b <= s@.len(),
            forall|j: int| a <= j < b ==> is_digit(#[trigger] s@[j]),
            match acc {
                Some(v) => value_of(head + s@.subrange(a as int, k as int)) == v,
                None => value_of(head + s@.subrange(a as int, k as int)) > u64::MAX,
            },
        decreases b - k,
    {
        let d: u64 = (s[k] - 48) as u64;
        let ghost longer = head + s@.subrange(a as int, k + 1);
        proof {
            assert(longer.drop_last() =~= head + s@.subrange(a as int, k as int));
            assert(longer.last() == s@[k as int]);
            assert(value_of(longer) == value_of(longer.drop_last()) * 10 + d);
        }
        acc = match acc {
            None => None,
            Some(v) => match v.checked_mul(10) {
                None => None,
                Some(t) => t.checked_add(d),
            },
        };
        k += 1;
    }
    acc
}

proof fn lemma_digits_run(s: Seq<u8>, a: int, b: int)
    requires
        0 <= a <= b <= s.len(),
        digits_end(s, a) == digits_end(s, b),
        digits_end(s, a) >= b,
    ensures
        forall|j: int| a <= j < b ==> is_digit(#[trigger] s[j]),
    decreases b - a,
{
    if a < b {
        if !digit_at(s, a) {
            assert(digits_end(s, a) == a);
        }
        lemma_digits_end(s, a + 1);
        lemma_digits_run(s, a + 1, b);
    }
}

/// The position after the run of digits that starts here.
fn skip_digits(s: &[u8], a: usize) -> (b: usize)
    requires
        a <= s@.len(),
    ensures
        b == digits_end(s@, a as int),
        a <= b <= s@.len(),
        forall|j: int| a <= j < b ==> is_digit(#[trigger] s@[j]),
{
    let mut b: usize = a;
    while b < s.len() && 48 <= s[b] && s[b] <= 57
        invariant
            a <= b <= s@.len(),
            digits_end(s@, a as int) == digits_end(s@, b as int),
        decreases s@.len() - b,
    {
        b += 1;
    }
    proof {
        lemma_digits_run(s@, a as int, b as int);
    }
    b
}

/// An integer, a decimal, or either with a leading `-`.
fn number(s: &[u8], i: &mut usize) -> (r: Result<Tok>)
    requires
        *old(i) < s@.len(),
        is_digit(s@[*old(i) as int]) || (s@[*old(i) as int] == 45 && digit_at(s@, *old(i) + 1)),
    ensures
        match r {
            Ok(t) => scan_number(s@, *old(i) as int) == Ok::<(TokView, int), SqlErrorView>(
                (t@, *final(i) as int),
            ),
            Err(e) => scan_number(s@, *old(i) as int) == Err::<(TokView, int), SqlErrorView>(e@),
        },
        *final(i) <= s@.len(),
{
    let at = *i;
    let negative = s[at] == 45;
    let start = if negative {
        at + 1
    } else {
        at
    };
    let whole = skip_digits(s, start);
    let ghost head = s@.subrange(start as int, whole as int);
    let first = digits_value(s, start, whole, Some(0), Ghost(Seq::<u8>::empty()));
    assert(Seq::<u8>::empty() + head =~= head);
    let mut end: usize = whole;
    let mut value = first;
    let mut scale: usize = 0;
    if whole < s.len() && s[whole] == 46 && whole + 1 < s.len() && 48 <= s[whole + 1] && s[whole
        + 1] <= 57 {
        end = skip_digits(s, whole + 1);
        value = digits_value(s, whole + 1, end, first, Ghost(head));
        scale = end - (whole + 1);
        proof {
            lemma_digits_end(s@, whole + 1);
        }
    }
    *i = end;
    let units: u64 = match value {
        None => {
            return Err(SqlError::NumberTooLarge { at });
        },
        Some(v) => v,
    };
    if scale > 255 {
        return Err(SqlError::NumberTooLarge { at });
    }
    if negative {
        if units > 0x7fff_ffff_ffff_ffff {
            return Err(SqlError::NumberTooLarge { at });
        }
        let v: i64 = -(units as i64);
        if scale > 0 {
            Ok(Tok::Num(Literal::Sdec { units: v, scale: scale as u8 }))
        } else {
            Ok(Tok::Num(Literal::Sint(v)))
        }
    } else if scale == 0 {
        Ok(Tok::Num(Literal::Int(units)))
    } else {
        Ok(Tok::Num(Literal::Dec { units, scale: scale as u8 }))
    }
}

/// A number with its sign turned around, or why it has none.
pub open spec fn negated(n: LiteralView, at: nat) -> core::result::Result<LiteralView, SqlErrorView> {
    match n {
        LiteralView::Int(v) => if v <= i64::MAX {
            Ok(LiteralView::Sint((-(v as int)) as i64))
        } else {
            Err(SqlErrorView::NumberTooLarge { at })
        },
        LiteralView::Dec { units, scale } => if units <= i64::MAX {
            Ok(LiteralView::Sdec { units: (-(units as int)) as i64, scale })
        } else {
            Err(SqlErrorView::NumberTooLarge { at })
        },
        LiteralView::Sint(v) => if v > i64::MIN {
            Ok(LiteralView::Sint((-v) as i64))
        } else {
            Err(SqlErrorView::NumberTooLarge { at })
        },
        LiteralView::Sdec { units, scale } => if units > i64::MIN {
            Ok(LiteralView::Sdec { units: (-units) as i64, scale })
        } else {
            Err(SqlErrorView::NumberTooLarge { at })
        },
        _ => Ok(n),
    }
}

/// Folds a `-` in front of a number into it.
pub fn negate(n: &Literal, at: usize) -> (r: Result<Literal>)
    ensures
        negated(n@, at as nat) == (match r {
            Ok(v) => Ok::<LiteralView, SqlErrorView>(v@),
            Err(e) => Err(e@),
        }),
{
    match n {
        Literal::Int(v) => {
            if *v <= 0x7fff_ffff_ffff_ffff {
                Ok(Literal::Sint(-(*v as i64)))
            } else {
                Err(SqlError::NumberTooLarge { at })
            }
        },
        Literal::Dec { units, scale } => {
            if *units <= 0x7fff_ffff_ffff_ffff {
                Ok(Literal::Sdec { units: -(*units as i64), scale: *scale })
            } else {
                Err(SqlError::NumberTooLarge { at })
            }
        },
        Literal::Sint(v) => {
            if *v > i64::MIN {
                Ok(Literal::Sint(-*v))
            } else {
                Err(SqlError::NumberTooLarge { at })
            }
        },
        Literal::Sdec { units, scale } => {
            if *units > i64::MIN {
                Ok(Literal::Sdec { units: -*units, scale: *scale })
            } else {
                Err(SqlError::NumberTooLarge { at })
            }
        },
        other => Ok(other.copied()),
    }
}

} // verus!
