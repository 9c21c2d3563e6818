//! A schema that is written out is read back as it was.

use vstd::prelude::*;
use crate::ddl::{ColumnKind, ColumnView, DdlView};
use crate::error::SqlErrorView;
use crate::insert::RECORD_COLUMN;
use crate::lex::{continues_word, digits_end, is_blank, lemma_ascii_starts, next_byte, scan, slice, starts_word, tokens_from, unquote, value_of, word_end, TokView, TokenView};
use crate::parse::create::{bits_for, fixed_type, keyless_type, more_columns, read_column, read_column_list, read_column_type, read_create, read_create_table, read_created, read_decimal, read_engine, read_type, refused_type, text_type, whole_type};
use crate::parse::cursor::{peek_at, read_number, tok_is, Env};
use crate::parse::statement::{read_any, read_definition, read_statement, said, ParsedView};
use crate::pql::LiteralView;
use crate::render::{column_line, column_lines, create_text, digits_for, engine_text, is_bare, is_word, type_text, word_char};
use crate::text::{bytes, dec, digit, fold, lower_char, same_word};

verus! {

/// What some tokens say, wherever they stand.
pub open spec fn said_by(t: Seq<TokenView>) -> Seq<TokView> {
    t.map_values(|x: TokenView| x.tok)
}

/// A text of one byte per character, as its bytes.
pub open spec fn raw(s: Seq<char>) -> Seq<u8> {
    s.map_values(|c: char| c as u8)
}

/// Some bytes, as a text of one character per byte.
pub open spec fn widened(b: Seq<u8>) -> Seq<char> {
    b.map_values(|c: u8| c as char)
}

/// Whether every character of a text stands for one byte.
pub open spec fn narrow(s: Seq<char>) -> bool {
    forall|k: int| 0 <= k < s.len() ==> (#[trigger] s[k]) as u32 <= 255
}

/// Whether the text from a position on reads as some tokens. The text has a character per byte.
pub open spec fn reads_as(s: Seq<char>, i: int, toks: Seq<TokView>) -> bool {
    tokens_from(raw(s), i) matches Ok(t) && said_by(t) == toks
}

proof fn lemma_raw(s: Seq<char>)
    requires
        narrow(s),
    ensures
        raw(s).len() == s.len(),
        forall|i: int|
            0 <= i < s.len() ==> #[trigger] raw(s)[i] == s[i] as u8 && s[i] as u32 <= 255,
{
}

/// Whether the text that comes next cannot be part of a word.
pub open spec fn ends_word(rest: Seq<char>) -> bool {
    rest.len() == 0 || !word_char(rest[0])
}

/// The bytes of a text of ASCII characters are its characters.
pub proof fn lemma_ascii(s: Seq<char>)
    requires
        vstd::utf8::is_ascii_chars(s),
    ensures
        bytes(s).len() == s.len(),
        forall|i: int| 0 <= i < s.len() ==> #[trigger] bytes(s)[i] == s[i] as u8,
        forall|i: int| 0 <= i < s.len() ==> (#[trigger] s[i]) as u32 <= 127,
{
    vstd::utf8::is_ascii_chars_encode_utf8(s);
    assert forall|i: int| 0 <= i < s.len() implies #[trigger] bytes(s)[i] == s[i] as u8 by {
        assert(s[i] as u8 == vstd::utf8::encode_utf8(s)[i]);
    }
}

proof fn lemma_slice(s: Seq<char>, a: int, b: int)
    requires
        0 <= a <= b <= s.len(),
        vstd::utf8::is_ascii_chars(s.subrange(a, b)),
    ensures
        slice(raw(s), a, b) == s.subrange(a, b),
{
    let part = s.subrange(a, b);
    lemma_ascii(part);
    assert(raw(s).subrange(a, b) =~= bytes(part)) by {
        assert forall|i: int| 0 <= i < b - a implies raw(s).subrange(a, b)[i] == bytes(part)[i] by {
            assert(bytes(part)[i] == part[i] as u8);
        }
    }
    vstd::utf8::encode_utf8_decode_utf8(part);
}

/// What comes after a piece of text.
proof fn lemma_after(s: Seq<char>, i: int, piece: Seq<char>, rest: Seq<char>)
    requires
        0 <= i <= s.len(),
        s.skip(i) == piece + rest,
    ensures
        i + piece.len() <= s.len(),
        s.skip(i + piece.len()) == rest,
        forall|k: int| 0 <= k < piece.len() ==> s[i + k] == #[trigger] piece[k],
        rest.len() > 0 ==> i + piece.len() < s.len() && s[i + piece.len()] == rest[0],
        rest.len() == 0 ==> i + piece.len() == s.len(),
{
    let t = s.skip(i);
    assert(t.len() == s.len() - i);
    assert forall|k: int| 0 <= k < piece.len() implies s[i + k] == #[trigger] piece[k] by {
        assert(t[k] == (piece + rest)[k]);
    }
    assert(s.skip(i + piece.len()) =~= rest) by {
        assert forall|k: int| 0 <= k < rest.len() implies s.skip(i + piece.len())[k] == rest[k] by {
            assert(t[piece.len() + k] == (piece + rest)[piece.len() + k]);
        }
    }
    if rest.len() > 0 {
        assert(t[piece.len() as int] == rest[0]);
    }
}

/// A blank is passed over.
proof fn lemma_blank(s: Seq<char>, i: int, toks: Seq<TokView>)
    requires
        narrow(s),
        0 <= i < s.len(),
        s[i] == ' ' || s[i] == '\n',
        reads_as(s, i + 1, toks),
    ensures
        reads_as(s, i, toks),
{
    lemma_raw(s);
    assert(raw(s)[i] == s[i] as u8);
}

/// A token is read where it is scanned.
proof fn lemma_token(s: Seq<char>, i: int, tok: TokView, end: int, toks: Seq<TokView>)
    requires
        narrow(s),
        0 <= i < s.len(),
        !is_blank(raw(s)[i]),
        raw(s)[i] != 45,
        raw(s).len() == s.len(),
        scan(raw(s), i) == Ok::<(TokView, int), crate::error::SqlErrorView>((tok, end)),
        reads_as(s, end, toks),
    ensures
        reads_as(s, i, seq![tok] + toks),
{
    let b = raw(s);
    let rest = tokens_from(b, end)->Ok_0;
    let t = seq![TokenView { tok, at: i as usize }] + rest;
    assert(tokens_from(b, i) == Ok::<Seq<TokenView>, crate::error::SqlErrorView>(t));
    assert(said_by(t) =~= seq![tok] + toks);
}

/// A bracket, a comma, a dot and an equals sign are tokens of their own.
proof fn lemma_mark(s: Seq<char>, i: int, tok: TokView, toks: Seq<TokView>)
    requires
        narrow(s),
        0 <= i < s.len(),
        (s[i] == '(' && tok == TokView::LParen) || (s[i] == ')' && tok == TokView::RParen) || (s[i]
            == ',' && tok == TokView::Comma) || (s[i] == '.' && tok == TokView::Dot) || (s[i] == '=' && tok == TokView::Op("="@) && (i + 1
            < s.len() ==> s[i + 1] != '=')),
        reads_as(s, i + 1, toks),
    ensures
        reads_as(s, i, seq![tok] + toks),
{
    lemma_raw(s);
    assert(raw(s)[i] == s[i] as u8);
    if i + 1 < s.len() {
        assert(raw(s)[i + 1] == s[i + 1] as u8);
        lemma_char_byte(s[i + 1]);
    }
    lemma_token(s, i, tok, i + 1, toks);
}

proof fn lemma_char_byte(c: char)
    requires
        c as u32 <= 255,
    ensures
        (c as u8) as u32 == c as u32,
        (c as u8 == 39) == (c == '\''),
        (c as u8 == 61) == (c == '='),
        (48 <= c as u8 <= 57) == ('0' <= c && c <= '9'),
{
}

proof fn lemma_word_char(c: char)
    requires
        c as u32 <= 255,
    ensures
        word_char(c) == continues_word(c as u8),
        (word_char(c) && !('0' <= c && c <= '9')) == starts_word(c as u8),
{
}

proof fn lemma_word_end(s: Seq<char>, i: int, end: int)
    requires
        narrow(s),
        0 <= i <= end <= s.len(),
        forall|k: int| i <= k < end ==> word_char(#[trigger] s[k]),
        end == s.len() || !word_char(s[end]),
    ensures
        word_end(raw(s), i) == end,
    decreases end - i,
{
    lemma_raw(s);
    if i < end {
        lemma_word_char(s[i]);
        assert(raw(s)[i] == s[i] as u8);
        lemma_word_end(s, i + 1, end);
    } else if end < s.len() {
        lemma_word_char(s[end]);
        assert(raw(s)[end] == s[end] as u8);
    }
}

/// A word is read whole.
proof fn lemma_word(s: Seq<char>, i: int, w: Seq<char>, rest: Seq<char>, toks: Seq<TokView>)
    requires
        narrow(s),
        0 <= i <= s.len(),
        s.skip(i) == w + rest,
        is_word(w),
        ends_word(rest),
        reads_as(s, i + w.len(), toks),
    ensures
        reads_as(s, i, seq![TokView::Word(w)] + toks),
{
    lemma_raw(s);
    lemma_after(s, i, w, rest);
    let end = i + w.len();
    assert forall|k: int| i <= k < end implies word_char(#[trigger] s[k]) by {
        assert(s[i + (k - i)] == w[k - i]);
    }
    lemma_word_end(s, i, end);
    assert(s.subrange(i, end) =~= w) by {
        assert forall|k: int| 0 <= k < w.len() implies s.subrange(i, end)[k] == w[k] by {
            assert(s[i + k] == w[k]);
        }
    }
    lemma_ascii_word(w);
    lemma_slice(s, i, end);
    assert(s[i] == w[0]);
    lemma_word_char(s[i]);
    assert(raw(s)[i] == s[i] as u8);
    lemma_token(s, i, TokView::Word(w), end, toks);
}

/// A number's digits are digits, and spell it.
proof fn lemma_dec(n: nat)
    ensures
        dec(n).len() > 0,
        forall|k: int| 0 <= k < dec(n).len() ==> '0' <= #[trigger] dec(n)[k] && dec(n)[k] <= '9',
        value_of(Seq::new(dec(n).len(), |k: int| dec(n)[k] as u8)) == n,
    decreases n,
{
    let d = Seq::new(dec(n).len(), |k: int| dec(n)[k] as u8);
    if n < 10 {
        assert(d.drop_last() =~= Seq::<u8>::empty());
        assert(value_of(d.drop_last()) == 0);
        assert(d.last() == digit(n) as u8);
    } else {
        lemma_dec(n / 10);
        let e = Seq::new(dec(n / 10).len(), |k: int| dec(n / 10)[k] as u8);
        assert(d.drop_last() =~= e);
        assert(d.last() == digit(n % 10) as u8);
        assert(n == (n / 10) * 10 + n % 10);
        assert forall|k: int| 0 <= k < dec(n).len() implies '0' <= #[trigger] dec(n)[k] && dec(n)[k]
            <= '9' by {
            if k < dec(n / 10).len() {
                assert(dec(n)[k] == dec(n / 10)[k]);
            }
        }
    }
}

proof fn lemma_digits_end(s: Seq<char>, i: int, end: int)
    requires
        narrow(s),
        0 <= i <= end <= s.len(),
        forall|k: int| i <= k < end ==> '0' <= #[trigger] s[k] && s[k] <= '9',
        end == s.len() || !('0' <= s[end] && s[end] <= '9'),
    ensures
        digits_end(raw(s), i) == end,
    decreases end - i,
{
    lemma_raw(s);
    if i < end {
        assert(raw(s)[i] == s[i] as u8);
        lemma_char_byte(s[i]);
        lemma_digits_end(s, i + 1, end);
    } else if end < s.len() {
        assert(raw(s)[end] == s[end] as u8);
        lemma_char_byte(s[end]);
    }
}

/// A number is read whole.
proof fn lemma_number(s: Seq<char>, i: int, n: nat, rest: Seq<char>, toks: Seq<TokView>)
    requires
        narrow(s),
        0 <= i <= s.len(),
        s.skip(i) == dec(n) + rest,
        n <= u64::MAX,
        rest.len() > 0,
        rest[0] == ')' || rest[0] == ',',
        reads_as(s, i + dec(n).len(), toks),
    ensures
        reads_as(s, i, seq![TokView::Num(LiteralView::Int(n as u64))] + toks),
{
    lemma_raw(s);
    lemma_dec(n);
    lemma_after(s, i, dec(n), rest);
    let end = i + dec(n).len();
    assert forall|k: int| i <= k < end implies '0' <= #[trigger] s[k] && s[k] <= '9' by {
        assert(s[i + (k - i)] == dec(n)[k - i]);
    }
    lemma_digits_end(s, i, end);
    let b = raw(s);
    assert(b[end] == s[end] as u8);
    assert(b.subrange(i, end) =~= Seq::new(dec(n).len(), |k: int| dec(n)[k] as u8)) by {
        assert forall|k: int| 0 <= k < dec(n).len() implies b.subrange(i, end)[k] == dec(n)[k] as u8 by {
            assert(b[i + k] == s[i + k] as u8);
            assert(s[i + k] == dec(n)[k]);
        }
    }
    assert(s[i] == dec(n)[0]);
    assert(b[i] == s[i] as u8);
    lemma_token(s, i, TokView::Num(LiteralView::Int(n as u64)), end, toks);
}

proof fn lemma_next_quote(s: Seq<char>, i: int, end: int)
    requires
        narrow(s),
        0 <= i <= end < s.len(),
        s[end] == '\'',
        forall|k: int| i <= k < end ==> #[trigger] s[k] != '\'',
    ensures
        next_byte(raw(s), i, 39) == end,
    decreases end - i,
{
    lemma_raw(s);
    if i < end {
        assert(raw(s)[i] == s[i] as u8);
        lemma_char_byte(s[i]);
        lemma_next_quote(s, i + 1, end);
    } else {
        assert(raw(s)[end] == s[end] as u8);
    }
}

/// A quoted text without a quote in it is read whole. `w` is the text, a character per byte.
proof fn lemma_quoted(s: Seq<char>, i: int, w: Seq<char>, text: Seq<char>, toks: Seq<TokView>)
    requires
        narrow(s),
        0 <= i <= s.len(),
        s.skip(i) == seq!['\''] + w + seq!['\''],
        forall|k: int| 0 <= k < w.len() ==> #[trigger] w[k] != '\'',
        raw(w) == bytes(text),
        reads_as(s, s.len() as int, toks),
    ensures
        reads_as(s, i, seq![TokView::Str(text)] + toks),
{
    lemma_raw(s);
    let piece = seq!['\''] + w + seq!['\''];
    assert(piece + Seq::<char>::empty() =~= piece);
    lemma_after(s, i, piece, Seq::empty());
    let b = raw(s);
    let end = i + 1 + w.len();
    assert(piece[0] == '\'');
    assert(s[i + 0] == piece[0]);
    assert(piece[1 + w.len() as int] == '\'');
    assert(s[i + (1 + w.len())] == piece[1 + w.len() as int]);
    assert forall|k: int| i + 1 <= k < end implies #[trigger] s[k] != '\'' by {
        assert(piece[k - i] == w[k - i - 1]);
        assert(s[i + (k - i)] == piece[k - i]);
    }
    assert(b[i] == s[i] as u8);
    assert(b[i + 1] == s[i + 1] as u8);
    assert(s[i + 1] as u32 <= 255);
    assert(b[end] == s[end] as u8);
    lemma_next_quote(s, i + 1, end);
    assert(b.subrange(i + 1, end) =~= bytes(text)) by {
        assert forall|k: int| 0 <= k < w.len() implies b.subrange(i + 1, end)[k] == raw(w)[k] by {
            assert(piece[k + 1] == w[k]);
            assert(s[i + (k + 1)] == piece[k + 1]);
        }
    }
    vstd::utf8::encode_utf8_decode_utf8(text);
    assert(unquote(b, end, 39) == Some((Seq::<char>::empty(), end + 1)));
    assert(text + Seq::<char>::empty() =~= text);
    assert(unquote(b, i + 1, 39) == Some((text, end + 1)));
    lemma_token(s, i, TokView::Str(text), end + 1, toks);
}

/// A column that a statement can declare, under a name that is one word.
pub open spec fn declarable(c: ColumnView) -> bool {
    &&& is_word(c.name)
    &&& !same_word(c.name, RECORD_COLUMN@)
    &&& match c.kind {
        ColumnKind::Keyed => c.bit_depth == 32 && c.scale is None,
        ColumnKind::Mutex => c.bit_depth == 32 && c.scale is None,
        ColumnKind::Bool => c.bit_depth == 32 && c.scale is None,
        ColumnKind::TimeQuantum => c.bit_depth == 32 && c.scale is None,
        ColumnKind::Float32 => c.bit_depth == 32 && c.scale is None,
        ColumnKind::Float64 => c.bit_depth == 64 && c.scale is None,
        ColumnKind::Date => c.bit_depth == 32 && c.scale is None,
        ColumnKind::DateTime => c.bit_depth == 64 && c.scale is None,
        ColumnKind::Int => 1 <= c.bit_depth <= 64 && c.scale is None,
        ColumnKind::Signed => 1 <= c.bit_depth <= 64 && c.scale is None,
        ColumnKind::Decimal => exists|p: u64| #[trigger] declares(p, c),
    }
}

/// Whether so many digits declare a decimal.
pub open spec fn declares(p: u64, c: ColumnView) -> bool {
    &&& 1 <= p <= 19
    &&& c.bit_depth == bits_for(p)
    &&& c.scale matches Some(s) && 0 <= s <= p
}

/// The digits of a declared decimal are the ones it was declared with.
pub proof fn declared_digits_come_back(p: u64)
    requires
        1 <= p <= 19,
    ensures
        digits_for(bits_for(p) as u32, 1) == p,
        bits_for(p) <= 64,
{
    lemma_digits_for(p, 1);
}

proof fn lemma_digits_for(p: u64, from: nat)
    requires
        1 <= from <= p <= 19,
    ensures
        digits_for(bits_for(p) as u32, from) == p,
        bits_for(p) <= 64,
    decreases p - from,
{
    assert(bits_for(p) == (p * 10 + 2) / 3);
    if from < p {
        assert(bits_for(from as u64) == (from * 10 + 2) / 3);
        assert(bits_for(from as u64) < bits_for(p));
        lemma_digits_for(p, from + 1);
    }
}

/// The word a type begins with.
pub open spec fn type_word(kind: ColumnKind) -> Seq<char> {
    match kind {
        ColumnKind::Keyed => "SET"@,
        ColumnKind::Mutex => "MUTEX"@,
        ColumnKind::Bool => "BOOL"@,
        ColumnKind::TimeQuantum => "TIMEQUANTUM"@,
        ColumnKind::Float32 => "FLOAT32"@,
        ColumnKind::Float64 => "FLOAT64"@,
        ColumnKind::Date => "DATE"@,
        ColumnKind::DateTime => "DATETIME"@,
        ColumnKind::Int => "UINT"@,
        ColumnKind::Signed => "SIGNED"@,
        ColumnKind::Decimal => "DECIMAL"@,
    }
}

/// A whole number as a token.
pub open spec fn number_tok(n: int) -> TokView {
    TokView::Num(LiteralView::Int(n as u64))
}

/// What a type takes in brackets.
pub open spec fn bracket_toks(c: ColumnView) -> Seq<TokView> {
    match c.kind {
        ColumnKind::Int => seq![TokView::LParen, number_tok(c.bit_depth as int), TokView::RParen],
        ColumnKind::Signed => seq![TokView::LParen, number_tok(c.bit_depth as int), TokView::RParen],
        ColumnKind::Decimal => seq![
            TokView::LParen,
            number_tok(digits_for(c.bit_depth, 1) as int),
            TokView::Comma,
            number_tok(c.scale->0 as int),
            TokView::RParen,
        ],
        _ => Seq::empty(),
    }
}

/// The tokens of a column.
pub open spec fn column_toks(c: ColumnView) -> Seq<TokView> {
    seq![TokView::Word(c.name), TokView::Word(type_word(c.kind))] + bracket_toks(c)
}

/// The tokens of the columns from one on, with commas between them.
pub open spec fn columns_toks(columns: Seq<ColumnView>, k: int) -> Seq<TokView>
    decreases columns.len() - k,
{
    if k < 0 || k >= columns.len() {
        Seq::empty()
    } else if k + 1 == columns.len() {
        column_toks(columns[k])
    } else {
        column_toks(columns[k]) + seq![TokView::Comma] + columns_toks(columns, k + 1)
    }
}

proof fn lemma_type_words(kind: ColumnKind)
    ensures
        is_word(type_word(kind)),
{
    reveal_strlit("SET");
    reveal_strlit("MUTEX");
    reveal_strlit("BOOL");
    reveal_strlit("TIMEQUANTUM");
    reveal_strlit("FLOAT32");
    reveal_strlit("FLOAT64");
    reveal_strlit("DATE");
    reveal_strlit("DATETIME");
    reveal_strlit("UINT");
    reveal_strlit("SIGNED");
    reveal_strlit("DECIMAL");
}

/// `( <n> )` after something, and what comes after that.
proof fn lemma_one_number(s: Seq<char>, i: int, n: nat, rest: Seq<char>, toks: Seq<TokView>)
    requires
        narrow(s),
        0 <= i <= s.len(),
        n <= u64::MAX,
        s.skip(i) == seq!['('] + (dec(n) + (seq![')'] + rest)),
        reads_as(s, i + 2 + dec(n).len(), toks),
    ensures
        reads_as(s, i, seq![TokView::LParen, number_tok(n as int), TokView::RParen] + toks),
{
    lemma_after(s, i, seq!['('], dec(n) + (seq![')'] + rest));
    lemma_after(s, i + 1, dec(n), seq![')'] + rest);
    lemma_after(s, i + 1 + dec(n).len(), seq![')'], rest);
    lemma_dec(n);
    let a = seq![TokView::RParen] + toks;
    assert(s[i + 1 + dec(n).len()] == ')');
    lemma_mark(s, i + 1 + dec(n).len(), TokView::RParen, toks);
    let b = seq![number_tok(n as int)] + a;
    lemma_number(s, i + 1, n, seq![')'] + rest, a);
    assert(s[i] == '(') by {
        assert(seq!['('][0] == '(');
    }
    lemma_mark(s, i, TokView::LParen, b);
    assert(seq![TokView::LParen] + b =~= seq![TokView::LParen, number_tok(n as int), TokView::RParen]
        + toks);
}

/// `( <n>, <m> )` after something, and what comes after that.
proof fn lemma_two_numbers(
    s: Seq<char>,
    i: int,
    n: nat,
    m: nat,
    rest: Seq<char>,
    toks: Seq<TokView>,
)
    requires
        narrow(s),
        0 <= i <= s.len(),
        n <= u64::MAX,
        m <= u64::MAX,
        s.skip(i) == seq!['('] + (dec(n) + (seq![',', ' '] + (dec(m) + (seq![')'] + rest)))),
        reads_as(s, i + 4 + dec(n).len() + dec(m).len(), toks),
    ensures
        reads_as(
            s,
            i,
            seq![
                TokView::LParen,
                number_tok(n as int),
                TokView::Comma,
                number_tok(m as int),
                TokView::RParen,
            ] + toks,
        ),
{
    let after_m = seq![')'] + rest;
    let after_comma = dec(m) + after_m;
    let after_n = seq![',', ' '] + after_comma;
    lemma_after(s, i, seq!['('], dec(n) + after_n);
    lemma_after(s, i + 1, dec(n), after_n);
    let j = i + 1 + dec(n).len();
    lemma_after(s, j, seq![',', ' '], after_comma);
    lemma_after(s, j + 2, dec(m), after_m);
    let k = j + 2 + dec(m).len();
    lemma_after(s, k, seq![')'], rest);
    lemma_dec(n);
    lemma_dec(m);
    assert(s[k] == ')');
    lemma_mark(s, k, TokView::RParen, toks);
    let a = seq![TokView::RParen] + toks;
    lemma_number(s, j + 2, m, after_m, a);
    let b = seq![number_tok(m as int)] + a;
    assert(seq![',', ' '][0] == ',' && seq![',', ' '][1] == ' ');
    assert(s[j + 0] == ',');
    assert(s[j + 1] == ' ');
    lemma_blank(s, j + 1, b);
    lemma_mark(s, j, TokView::Comma, b);
    let c = seq![TokView::Comma] + b;
    assert(after_n[0] == ',');
    lemma_number(s, i + 1, n, after_n, c);
    let d = seq![number_tok(n as int)] + c;
    assert(seq!['('][0] == '(');
    assert(s[i + 0] == '(');
    lemma_mark(s, i, TokView::LParen, d);
    assert(seq![TokView::LParen] + d =~= seq![
        TokView::LParen,
        number_tok(n as int),
        TokView::Comma,
        number_tok(m as int),
        TokView::RParen,
    ] + toks);
}

/// What a type takes in brackets, as it is written.
pub open spec fn bracket_text(c: ColumnView) -> Seq<char> {
    match c.kind {
        ColumnKind::Int => seq!['('] + (dec(c.bit_depth as nat) + seq![')']),
        ColumnKind::Signed => seq!['('] + (dec(c.bit_depth as nat) + seq![')']),
        ColumnKind::Decimal => seq!['('] + (dec(digits_for(c.bit_depth, 1)) + (seq![',', ' '] + (dec(
            c.scale->0 as nat,
        ) + seq![')']))),
        _ => Seq::empty(),
    }
}

proof fn lemma_type_text(c: ColumnView)
    requires
        declarable(c),
    ensures
        type_text(c) == type_word(c.kind) + bracket_text(c),
{
    match c.kind {
        ColumnKind::Int => {
            reveal_strlit("UINT(");
            reveal_strlit("UINT");
            reveal_strlit(")");
            assert("UINT("@ =~= "UINT"@ + seq!['(']);
            assert(")"@ =~= seq![')']);
            assert(type_text(c) =~= type_word(c.kind) + bracket_text(c));
        },
        ColumnKind::Signed => {
            reveal_strlit("SIGNED(");
            reveal_strlit("SIGNED");
            reveal_strlit(")");
            assert("SIGNED("@ =~= "SIGNED"@ + seq!['(']);
            assert(")"@ =~= seq![')']);
            assert(type_text(c) =~= type_word(c.kind) + bracket_text(c));
        },
        ColumnKind::Decimal => {
            reveal_strlit("DECIMAL(");
            reveal_strlit("DECIMAL");
            reveal_strlit(")");
            reveal_strlit(", ");
            assert("DECIMAL("@ =~= "DECIMAL"@ + seq!['(']);
            assert(")"@ =~= seq![')']);
            assert(", "@ =~= seq![',', ' ']);
            assert(type_text(c) =~= type_word(c.kind) + bracket_text(c));
        },
        _ => {
            assert(type_text(c) =~= type_word(c.kind) + bracket_text(c));
        },
    }
}

/// A type is read as its tokens.
proof fn lemma_type(s: Seq<char>, i: int, c: ColumnView, rest: Seq<char>, toks: Seq<TokView>)
    requires
        narrow(s),
        0 <= i <= s.len(),
        declarable(c),
        ends_word(rest),
        s.skip(i) == type_text(c) + rest,
        reads_as(s, i + type_text(c).len(), toks),
    ensures
        reads_as(s, i, seq![TokView::Word(type_word(c.kind))] + bracket_toks(c) + toks),
{
    lemma_type_text(c);
    lemma_type_words(c.kind);
    let w = type_word(c.kind);
    let more = bracket_text(c) + rest;
    assert(type_text(c) + rest =~= w + more);
    lemma_after(s, i, w, more);
    let j = i + w.len();
    match c.kind {
        ColumnKind::Int => {
            assert(more =~= seq!['('] + (dec(c.bit_depth as nat) + (seq![')'] + rest)));
            lemma_one_number(s, j, c.bit_depth as nat, rest, toks);
        },
        ColumnKind::Signed => {
            assert(more =~= seq!['('] + (dec(c.bit_depth as nat) + (seq![')'] + rest)));
            lemma_one_number(s, j, c.bit_depth as nat, rest, toks);
        },
        ColumnKind::Decimal => {
            let p = choose|p: u64| #[trigger] declares(p, c);
            declared_digits_come_back(p);
            let n = digits_for(c.bit_depth, 1);
            let m = c.scale->0 as nat;
            assert(more =~= seq!['('] + (dec(n) + (seq![',', ' '] + (dec(m) + (seq![')'] + rest)))));
            lemma_two_numbers(s, j, n, m, rest, toks);
        },
        _ => {
            assert(more =~= rest);
            assert(bracket_toks(c) + toks =~= toks);
        },
    }
    lemma_word(s, i, w, more, bracket_toks(c) + toks);
    assert(seq![TokView::Word(w)] + (bracket_toks(c) + toks) =~= seq![TokView::Word(w)] + bracket_toks(
        c,
    ) + toks);
}

/// The lines of the columns from one on.
pub open spec fn lines_from(columns: Seq<ColumnView>, k: int) -> Seq<char>
    decreases columns.len() - k,
{
    if k < 0 || k >= columns.len() {
        Seq::empty()
    } else {
        column_line(columns[k], k + 1 == columns.len()) + lines_from(columns, k + 1)
    }
}

proof fn lemma_lines_from(columns: Seq<ColumnView>, n: int)
    requires
        0 <= n <= columns.len(),
    ensures
        column_lines(columns, n) + lines_from(columns, n) == column_lines(
            columns,
            columns.len() as int,
        ),
    decreases columns.len() - n,
{
    if n < columns.len() {
        lemma_lines_from(columns, n + 1);
        let line = column_line(columns[n], n + 1 == columns.len());
        assert(column_lines(columns, n + 1) == column_lines(columns, n) + line);
        assert(column_lines(columns, n) + lines_from(columns, n) =~= column_lines(columns, n + 1)
            + lines_from(columns, n + 1));
    } else {
        assert(column_lines(columns, n) + lines_from(columns, n) =~= column_lines(columns, n));
    }
}

/// A column's line is read as its tokens.
proof fn lemma_line(
    s: Seq<char>,
    i: int,
    c: ColumnView,
    last: bool,
    rest: Seq<char>,
    toks: Seq<TokView>,
)
    requires
        narrow(s),
        0 <= i <= s.len(),
        declarable(c),
        s.skip(i) == column_line(c, last) + rest,
        reads_as(s, i + column_line(c, last).len(), toks),
    ensures
        reads_as(
            s,
            i,
            column_toks(c) + (if last {
                Seq::empty()
            } else {
                seq![TokView::Comma]
            }) + toks,
        ),
{
    reveal_strlit("    ");
    reveal_strlit(" ");
    reveal_strlit("\n");
    reveal_strlit(",\n");
    let end = if last {
        "\n"@
    } else {
        ",\n"@
    };
    let after_type = end + rest;
    let after_gap = type_text(c) + after_type;
    let after_name = " "@ + after_gap;
    let after_indent = c.name + after_name;
    assert(column_line(c, last) + rest =~= "    "@ + after_indent);
    lemma_after(s, i, "    "@, after_indent);
    lemma_after(s, i + 4, c.name, after_name);
    let j = i + 4 + c.name.len();
    lemma_after(s, j, " "@, after_gap);
    lemma_after(s, j + 1, type_text(c), after_type);
    let k = j + 1 + type_text(c).len();
    lemma_after(s, k, end, rest);
    let tail = if last {
        toks
    } else {
        seq![TokView::Comma] + toks
    };
    if last {
        assert(s[k + 0] == end[0]);
        lemma_blank(s, k, toks);
    } else {
        assert(s[k + 0] == end[0]);
        assert(s[k + 1] == end[1]);
        lemma_blank(s, k + 1, toks);
        lemma_mark(s, k, TokView::Comma, toks);
    }
    assert(after_type[0] == end[0]);
    lemma_type(s, j + 1, c, after_type, tail);
    let typed = seq![TokView::Word(type_word(c.kind))] + bracket_toks(c) + tail;
    assert(" "@[0] == ' ');
    assert(s[j + 0] == ' ');
    lemma_blank(s, j, typed);
    assert(after_name[0] == ' ');
    lemma_word(s, i + 4, c.name, after_name, typed);
    let named = seq![TokView::Word(c.name)] + typed;
    assert("    "@[0] == ' ' && "    "@[1] == ' ' && "    "@[2] == ' ' && "    "@[3] == ' ');
    assert(s[i + 3] == ' ');
    lemma_blank(s, i + 3, named);
    assert(s[i + 2] == ' ');
    lemma_blank(s, i + 2, named);
    assert(s[i + 1] == ' ');
    lemma_blank(s, i + 1, named);
    assert(s[i + 0] == ' ');
    lemma_blank(s, i, named);
    assert(named =~= column_toks(c) + (if last {
        Seq::empty()
    } else {
        seq![TokView::Comma]
    }) + toks);
}

/// The lines of the columns are read as their tokens.
proof fn lemma_lines(
    s: Seq<char>,
    i: int,
    columns: Seq<ColumnView>,
    k: int,
    rest: Seq<char>,
    toks: Seq<TokView>,
)
    requires
        narrow(s),
        0 <= i <= s.len(),
        0 <= k <= columns.len(),
        forall|j: int| 0 <= j < columns.len() ==> declarable(#[trigger] columns[j]),
        s.skip(i) == lines_from(columns, k) + rest,
        reads_as(s, i + lines_from(columns, k).len(), toks),
    ensures
        reads_as(s, i, columns_toks(columns, k) + toks),
    decreases columns.len() - k,
{
    if k < columns.len() {
        let last = k + 1 == columns.len();
        let line = column_line(columns[k], last);
        let more = lines_from(columns, k + 1) + rest;
        assert(lines_from(columns, k) + rest =~= line + more);
        lemma_after(s, i, line, more);
        lemma_lines(s, i + line.len(), columns, k + 1, rest, toks);
        lemma_line(s, i, columns[k], last, more, columns_toks(columns, k + 1) + toks);
        if last {
            assert(columns_toks(columns, k + 1) =~= Seq::<TokView>::empty());
            assert(column_toks(columns[k]) + Seq::<TokView>::empty() + (columns_toks(columns, k + 1)
                + toks) =~= columns_toks(columns, k) + toks);
        } else {
            assert(column_toks(columns[k]) + seq![TokView::Comma] + (columns_toks(columns, k + 1)
                + toks) =~= columns_toks(columns, k) + toks);
        }
    } else {
        assert(columns_toks(columns, k) + toks =~= toks);
        assert(lines_from(columns, k).len() == 0);
    }
}

/// An engine name that is read back: any that has no quote in it.
pub open spec fn engine_reads(engine: Option<Seq<char>>) -> bool {
    match engine {
        None => true,
        Some(e) => forall|k: int| 0 <= k < e.len() ==> #[trigger] e[k] != '\'',
    }
}

/// An engine clause, a character per byte.
pub open spec fn engine_chars(engine: Option<Seq<char>>) -> Seq<char> {
    match engine {
        None => Seq::empty(),
        Some(e) => " ENGINE = "@ + if is_word(e) {
            e
        } else {
            seq!['\''] + widened(bytes(e)) + seq!['\'']
        },
    }
}

/// The tokens of an engine clause.
pub open spec fn engine_toks(engine: Option<Seq<char>>) -> Seq<TokView> {
    match engine {
        None => Seq::empty(),
        Some(e) => seq![
            TokView::Word("ENGINE"@),
            TokView::Op("="@),
            if is_word(e) {
                TokView::Word(e)
            } else {
                TokView::Str(e)
            },
        ],
    }
}

/// The bytes of one text after another are those of the one after those of the other.
proof fn lemma_bytes_parts(a: Seq<char>, b: Seq<char>)
    ensures
        bytes(a + b) == bytes(a) + bytes(b),
    decreases a.len(),
{
    if a.len() == 0 {
        assert(a + b =~= b);
        assert(bytes(a) + bytes(b) =~= bytes(b));
    } else {
        lemma_bytes_parts(a.drop_first(), b);
        assert((a + b).drop_first() =~= a.drop_first() + b);
        assert(bytes(a + b) =~= bytes(a) + bytes(b));
    }
}

/// A byte that is a quote is a character that is one.
proof fn lemma_quote_bytes(text: Seq<char>, k: int)
    requires
        0 <= k < bytes(text).len(),
        bytes(text)[k] == 39,
    ensures
        text.contains('\''),
{
    let b = bytes(text);
    vstd::utf8::encode_utf8_valid_utf8(text);
    vstd::utf8::encode_utf8_decode_utf8(text);
    lemma_ascii_starts(b, k);
    vstd::utf8::decode_utf8_split(b, k);
    vstd::utf8::valid_utf8_split(b, k);
    let rest = b.subrange(k, b.len() as int);
    assert(rest[0] == 39);
    let after = vstd::utf8::decode_utf8(rest);
    assert(39u8 & 0x7fu8 == 39u8) by (bit_vector);
    assert(vstd::utf8::decode_first_scalar(rest) == 39);
    assert(after.len() > 0 && after[0] == '\'');
    let n = vstd::utf8::decode_utf8(b.subrange(0, k)).len() as int;
    assert(text[n] == '\'');
}

/// The bytes of a text, a character each.
proof fn lemma_widened(text: Seq<char>)
    ensures
        raw(widened(bytes(text))) == bytes(text),
        narrow(widened(bytes(text))),
        widened(bytes(text)).len() == bytes(text).len(),
        text.len() > 0 ==> bytes(text).len() > 0,
        !text.contains('\'') ==> forall|k: int|
            0 <= k < bytes(text).len() ==> #[trigger] widened(bytes(text))[k] != '\'',
{
    let b = bytes(text);
    assert(raw(widened(b)) =~= b) by {
        assert forall|k: int| 0 <= k < b.len() implies #[trigger] raw(widened(b))[k] == b[k] by {
            lemma_one_byte(b[k]);
        }
    }
    assert forall|k: int| 0 <= k < b.len() implies (#[trigger] widened(b)[k]) as u32 <= 255 by {
        lemma_one_byte(b[k]);
    }
    if text.len() > 0 {
        vstd::utf8::encode_utf8_decode_utf8(text);
        assert(b.len() > 0) by {
            if b.len() == 0 {
                assert(vstd::utf8::decode_utf8(b).len() == 0);
            }
        }
    }
    if !text.contains('\'') {
        assert forall|k: int| 0 <= k < b.len() implies #[trigger] widened(b)[k] != '\'' by {
            lemma_one_byte(b[k]);
            if b[k] == 39 {
                lemma_quote_bytes(text, k);
            }
        }
    }
}

proof fn lemma_one_byte(c: u8)
    ensures
        (c as char) as u8 == c,
        (c as char) as u32 == c as u32,
{
}

/// A text of ASCII characters is its bytes, a character each.
proof fn lemma_raw_ascii(s: Seq<char>)
    requires
        vstd::utf8::is_ascii_chars(s),
    ensures
        raw(s) == bytes(s),
        narrow(s),
{
    lemma_ascii(s);
    assert(raw(s) =~= bytes(s));
}

/// Two texts of a character per byte, one after the other.
proof fn lemma_raw_parts(a: Seq<char>, b: Seq<char>)
    requires
        narrow(a),
        narrow(b),
    ensures
        narrow(a + b),
        raw(a + b) == raw(a) + raw(b),
{
    assert(raw(a + b) =~= raw(a) + raw(b));
    assert forall|k: int| 0 <= k < (a + b).len() implies (#[trigger] (a + b)[k]) as u32 <= 255 by {
        if k < a.len() {
            assert((a + b)[k] == a[k]);
        } else {
            assert((a + b)[k] == b[k - a.len()]);
        }
    }
}

/// An engine clause is its bytes, a character each.
proof fn lemma_engine_chars(engine: Option<Seq<char>>)
    ensures
        raw(engine_chars(engine)) == bytes(engine_text(engine)),
        narrow(engine_chars(engine)),
{
    match engine {
        None => {
            assert(engine_text(engine) =~= Seq::<char>::empty());
            lemma_raw_ascii(Seq::empty());
        },
        Some(e) => {
            let word = " ENGINE = "@;
            let quote = seq!['\''];
            reveal_strlit(" ENGINE = ");
            assert(vstd::utf8::is_ascii_chars(word));
            lemma_raw_ascii(word);
            if is_word(e) {
                lemma_ascii_word(e);
                lemma_raw_ascii(e);
                lemma_raw_parts(word, e);
                lemma_bytes_parts(word, e);
            } else {
                reveal_strlit(" ENGINE = '");
                reveal_strlit("'");
                assert(vstd::utf8::is_ascii_chars(quote));
                lemma_raw_ascii(quote);
                lemma_widened(e);
                let w = widened(bytes(e));
                lemma_raw_parts(quote, w);
                lemma_raw_parts(quote + w, quote);
                lemma_raw_parts(word, quote + w + quote);
                lemma_bytes_parts(quote, e);
                lemma_bytes_parts(quote + e, quote);
                lemma_bytes_parts(word, quote + e + quote);
                assert(engine_text(engine) =~= word + (quote + e + quote));
            }
        },
    }
}

/// An engine clause at the end of a text is read as its tokens.
proof fn lemma_engine(s: Seq<char>, i: int, engine: Option<Seq<char>>)
    requires
        narrow(s),
        0 <= i <= s.len(),
        engine_reads(engine),
        s.skip(i) == engine_chars(engine),
    ensures
        reads_as(s, i, engine_toks(engine)),
{
    lemma_raw(s);
    let none = Seq::<TokView>::empty();
    assert(s.skip(i).len() == s.len() - i);
    assert(tokens_from(raw(s), s.len() as int) == Ok::<
        Seq<TokenView>,
        crate::error::SqlErrorView,
    >(Seq::empty()));
    assert(said_by(Seq::<TokenView>::empty()) =~= none);
    assert(reads_as(s, s.len() as int, none));
    if engine is Some {
        let e = engine->0;
        reveal_strlit(" ENGINE = ");
        reveal_strlit("ENGINE");
        let value = if is_word(e) {
            e
        } else {
            seq!['\''] + widened(bytes(e)) + seq!['\'']
        };
        let after_equals = seq![' '] + value;
        let after_word = seq![' ', '='] + after_equals;
        let after_gap = "ENGINE"@ + after_word;
        assert(engine_chars(engine) =~= seq![' '] + after_gap);
        lemma_after(s, i, seq![' '], after_gap);
        lemma_after(s, i + 1, "ENGINE"@, after_word);
        lemma_after(s, i + 7, seq![' ', '='], after_equals);
        lemma_after(s, i + 9, seq![' '], value);
        let tok = if is_word(e) {
            TokView::Word(e)
        } else {
            TokView::Str(e)
        };
        if is_word(e) {
            assert(value + Seq::<char>::empty() =~= value);
            lemma_after(s, i + 10, value, Seq::empty());
            lemma_word(s, i + 10, e, Seq::empty(), none);
        } else {
            lemma_widened(e);
            assert(!e.contains('\''));
            lemma_quoted(s, i + 10, widened(bytes(e)), e, none);
        }
        let a = seq![tok] + none;
        assert(seq![' '][0] == ' ');
        assert(s[i + 9 + 0] == ' ');
        lemma_blank(s, i + 9, a);
        assert(seq![' ', '='][0] == ' ' && seq![' ', '='][1] == '=');
        assert(s[i + 7 + 1] == '=');
        lemma_mark(s, i + 8, TokView::Op("="@), a);
        let b = seq![TokView::Op("="@)] + a;
        assert(s[i + 7 + 0] == ' ');
        lemma_blank(s, i + 7, b);
        assert(after_word[0] == ' ');
        lemma_word(s, i + 1, "ENGINE"@, after_word, b);
        let c = seq![TokView::Word("ENGINE"@)] + b;
        assert(s[i + 0] == ' ');
        lemma_blank(s, i, c);
        assert(c =~= engine_toks(engine));
    } else {
        assert(s.skip(i).len() == 0);
        assert(i == s.len());
    }
}

/// The tokens of a column list in brackets, when there are columns.
pub open spec fn list_toks(columns: Seq<ColumnView>) -> Seq<TokView> {
    if columns.len() > 0 {
        seq![TokView::LParen] + columns_toks(columns, 0) + seq![TokView::RParen]
    } else {
        Seq::empty()
    }
}

/// The tokens of the statement that creates some columns.
pub open spec fn create_toks(
    database: Option<Seq<char>>,
    table: Seq<char>,
    engine: Option<Seq<char>>,
    columns: Seq<ColumnView>,
) -> Seq<TokView> {
    seq![TokView::Word("CREATE"@), TokView::Word("TABLE"@)] + name_toks(database, table) + list_toks(
        columns,
    ) + engine_toks(engine)
}

/// The text of a column list in brackets, when there are columns.
pub open spec fn list_text(columns: Seq<ColumnView>) -> Seq<char> {
    if columns.len() > 0 {
        seq![' ', '(', '\n'] + (lines_from(columns, 0) + seq![')'])
    } else {
        Seq::empty()
    }
}

proof fn lemma_list(
    s: Seq<char>,
    i: int,
    columns: Seq<ColumnView>,
    rest: Seq<char>,
    toks: Seq<TokView>,
)
    requires
        narrow(s),
        0 <= i <= s.len(),
        forall|j: int| 0 <= j < columns.len() ==> declarable(#[trigger] columns[j]),
        s.skip(i) == list_text(columns) + rest,
        reads_as(s, i + list_text(columns).len(), toks),
    ensures
        reads_as(s, i, list_toks(columns) + toks),
{
    if columns.len() > 0 {
        let open = seq![' ', '(', '\n'];
        let lines = lines_from(columns, 0);
        let close = seq![')'] + rest;
        assert(list_text(columns) + rest =~= open + (lines + close));
        lemma_after(s, i, open, lines + close);
        lemma_after(s, i + 3, lines, close);
        let j = i + 3 + lines.len();
        lemma_after(s, j, seq![')'], rest);
        assert(seq![')'][0] == ')');
        assert(s[j + 0] == ')');
        lemma_mark(s, j, TokView::RParen, toks);
        let a = seq![TokView::RParen] + toks;
        lemma_lines(s, i + 3, columns, 0, close, a);
        let b = columns_toks(columns, 0) + a;
        assert(open[0] == ' ' && open[1] == '(' && open[2] == '\n');
        assert(s[i + 2] == '\n');
        lemma_blank(s, i + 2, b);
        assert(s[i + 1] == '(');
        lemma_mark(s, i + 1, TokView::LParen, b);
        let c = seq![TokView::LParen] + b;
        assert(s[i + 0] == ' ');
        lemma_blank(s, i, c);
        assert(c =~= list_toks(columns) + toks);
    } else {
        assert(list_toks(columns) + toks =~= toks);
    }
}

pub proof fn lemma_ascii_parts(a: Seq<char>, b: Seq<char>)
    requires
        vstd::utf8::is_ascii_chars(a),
        vstd::utf8::is_ascii_chars(b),
    ensures
        vstd::utf8::is_ascii_chars(a + b),
{
    let c = a + b;
    assert forall|i| 0 <= i < c.len() implies '\0' <= #[trigger] c[i] <= '\u{7f}' by {
        if i < a.len() {
            assert(c[i] == a[i]);
        } else {
            assert(c[i] == b[i - a.len()]);
        }
    }
}

proof fn lemma_ascii_word(w: Seq<char>)
    requires
        is_bare(w),
    ensures
        vstd::utf8::is_ascii_chars(w),
{
    assert forall|i| 0 <= i < w.len() implies '\0' <= #[trigger] w[i] <= '\u{7f}' by {
        assert(word_char(w[i]));
    }
}

proof fn lemma_ascii_dec(n: nat)
    ensures
        vstd::utf8::is_ascii_chars(dec(n)),
{
    lemma_dec(n);
}

proof fn lemma_ascii_type(c: ColumnView)
    requires
        declarable(c),
    ensures
        vstd::utf8::is_ascii_chars(type_text(c)),
{
    lemma_type_text(c);
    lemma_type_words(c.kind);
    lemma_ascii_word(type_word(c.kind));
    match c.kind {
        ColumnKind::Int => {
            lemma_ascii_dec(c.bit_depth as nat);
            lemma_ascii_parts(dec(c.bit_depth as nat), seq![')']);
            lemma_ascii_parts(seq!['('], dec(c.bit_depth as nat) + seq![')']);
        },
        ColumnKind::Signed => {
            lemma_ascii_dec(c.bit_depth as nat);
            lemma_ascii_parts(dec(c.bit_depth as nat), seq![')']);
            lemma_ascii_parts(seq!['('], dec(c.bit_depth as nat) + seq![')']);
        },
        ColumnKind::Decimal => {
            let n = digits_for(c.bit_depth, 1);
            let m = c.scale->0 as nat;
            lemma_ascii_dec(n);
            lemma_ascii_dec(m);
            lemma_ascii_parts(dec(m), seq![')']);
            lemma_ascii_parts(seq![',', ' '], dec(m) + seq![')']);
            lemma_ascii_parts(dec(n), seq![',', ' '] + (dec(m) + seq![')']));
            lemma_ascii_parts(seq!['('], dec(n) + (seq![',', ' '] + (dec(m) + seq![')'])));
        },
        _ => {},
    }
    lemma_ascii_parts(type_word(c.kind), bracket_text(c));
}

proof fn lemma_ascii_lines(columns: Seq<ColumnView>, k: int)
    requires
        0 <= k,
        forall|j: int| 0 <= j < columns.len() ==> declarable(#[trigger] columns[j]),
    ensures
        vstd::utf8::is_ascii_chars(lines_from(columns, k)),
    decreases columns.len() - k,
{
    if k < columns.len() {
        let c = columns[k];
        lemma_ascii_lines(columns, k + 1);
        reveal_strlit("    ");
        reveal_strlit(" ");
        reveal_strlit("\n");
        reveal_strlit(",\n");
        let end = if k + 1 == columns.len() {
            "\n"@
        } else {
            ",\n"@
        };
        assert(vstd::utf8::is_ascii_chars(end));
        assert(vstd::utf8::is_ascii_chars("    "@));
        assert(vstd::utf8::is_ascii_chars(" "@));
        lemma_ascii_word(c.name);
        lemma_ascii_type(c);
        lemma_ascii_parts("    "@, c.name);
        lemma_ascii_parts("    "@ + c.name, " "@);
        lemma_ascii_parts("    "@ + c.name + " "@, type_text(c));
        lemma_ascii_parts("    "@ + c.name + " "@ + type_text(c), end);
        lemma_ascii_parts(column_line(c, k + 1 == columns.len()), lines_from(columns, k + 1));
    }
}

/// The text of a column list is ASCII.
proof fn lemma_ascii_list(columns: Seq<ColumnView>)
    requires
        forall|j: int| 0 <= j < columns.len() ==> declarable(#[trigger] columns[j]),
    ensures
        vstd::utf8::is_ascii_chars(list_text(columns)),
{
    lemma_ascii_lines(columns, 0);
    lemma_ascii_parts(lines_from(columns, 0), seq![')']);
    lemma_ascii_parts(seq![' ', '(', '\n'], lines_from(columns, 0) + seq![')']);
}

/// What comes after the first word of the statement.
pub open spec fn after_create(table: Seq<char>, after_table: Seq<char>) -> Seq<char> {
    seq![' '] + ("TABLE"@ + (seq![' '] + (table + after_table)))
}

proof fn lemma_create_text(table: Seq<char>, engine: Option<Seq<char>>, columns: Seq<ColumnView>)
    ensures
        create_text(table, engine, columns) == "CREATE"@ + after_create(
            table,
            list_text(columns) + engine_text(engine),
        ),
{
    reveal_strlit("CREATE TABLE ");
    reveal_strlit("CREATE");
    reveal_strlit("TABLE");
    reveal_strlit(" (\n");
    reveal_strlit(")");
    lemma_lines_from(columns, 0);
    assert(column_lines(columns, 0) + lines_from(columns, 0) =~= lines_from(columns, 0));
    assert("CREATE TABLE "@ =~= "CREATE"@ + seq![' '] + "TABLE"@ + seq![' ']);
    assert(" (\n"@ =~= seq![' ', '(', '\n']);
    assert(")"@ =~= seq![')']);
    let middle = if columns.len() > 0 {
        " (\n"@ + column_lines(columns, columns.len() as int) + ")"@
    } else {
        Seq::empty()
    };
    assert(middle =~= list_text(columns));
    assert(create_text(table, engine, columns) =~= "CREATE"@ + after_create(
        table,
        list_text(columns) + engine_text(engine),
    ));
}

/// The name of a table, with its database where it has one.
pub open spec fn name_text(database: Option<Seq<char>>, table: Seq<char>) -> Seq<char> {
    match database {
        Some(d) => d + (seq!['.'] + table),
        None => table,
    }
}

/// Whether a table is named in words.
pub open spec fn name_reads(database: Option<Seq<char>>, table: Seq<char>) -> bool {
    is_word(table) && (database matches Some(d) ==> is_word(d))
}

/// The tokens of the name of a table.
pub open spec fn name_toks(database: Option<Seq<char>>, table: Seq<char>) -> Seq<TokView> {
    match database {
        Some(d) => seq![TokView::Word(d), TokView::Dot, TokView::Word(table)],
        None => seq![TokView::Word(table)],
    }
}

/// The name of a table is read as its tokens.
proof fn lemma_name(
    s: Seq<char>,
    i: int,
    database: Option<Seq<char>>,
    table: Seq<char>,
    rest: Seq<char>,
    toks: Seq<TokView>,
)
    requires
        narrow(s),
        0 <= i <= s.len(),
        name_reads(database, table),
        ends_word(rest),
        s.skip(i) == name_text(database, table) + rest,
        reads_as(s, i + name_text(database, table).len(), toks),
    ensures
        reads_as(s, i, name_toks(database, table) + toks),
{
    match database {
        None => lemma_word(s, i, table, rest, toks),
        Some(d) => {
            let after_dot = table + rest;
            let after_word = seq!['.'] + after_dot;
            assert(name_text(database, table) + rest =~= d + after_word);
            let k = i + d.len();
            lemma_after(s, i, d, after_word);
            lemma_after(s, k, seq!['.'], after_dot);
            lemma_word(s, k + 1, table, rest, toks);
            let b = seq![TokView::Word(table)] + toks;
            assert(seq!['.'][0] == '.');
            assert(s[k + 0] == '.');
            lemma_mark(s, k, TokView::Dot, b);
            let c = seq![TokView::Dot] + b;
            assert(after_word[0] == '.');
            lemma_word(s, i, d, after_word, c);
            assert(seq![TokView::Word(d)] + c =~= name_toks(database, table) + toks);
        },
    }
}

/// `CREATE TABLE <table>` and what comes after it.
#[verifier::rlimit(60)]
#[verifier::spinoff_prover]
proof fn lemma_head(
    s: Seq<char>,
    database: Option<Seq<char>>,
    table: Seq<char>,
    after_table: Seq<char>,
    toks: Seq<TokView>,
)
    requires
        narrow(s),
        name_reads(database, table),
        ends_word(after_table),
        s == "CREATE"@ + after_create(name_text(database, table), after_table),
        reads_as(s, 13 + name_text(database, table).len() as int, toks),
    ensures
        reads_as(
            s,
            0,
            seq![TokView::Word("CREATE"@), TokView::Word("TABLE"@)] + name_toks(database, table)
                + toks,
        ),
{
    reveal_strlit("CREATE");
    reveal_strlit("TABLE");
    let after_gap = name_text(database, table) + after_table;
    let after_word = seq![' '] + after_gap;
    let after_second = "TABLE"@ + after_word;
    let after_first = seq![' '] + after_second;
    assert(s.skip(0) =~= s);
    lemma_after(s, 0, "CREATE"@, after_first);
    lemma_after(s, 6, seq![' '], after_second);
    lemma_after(s, 7, "TABLE"@, after_word);
    lemma_after(s, 12, seq![' '], after_gap);
    assert(seq![' '][0] == ' ');
    assert(s[6int + 0int] == ' ');
    assert(s[12int + 0int] == ' ');
    lemma_name(s, 13, database, table, after_table, toks);
    let b = name_toks(database, table) + toks;
    lemma_blank(s, 12, b);
    assert(after_word[0] == ' ');
    lemma_word(s, 7, "TABLE"@, after_word, b);
    let c = seq![TokView::Word("TABLE"@)] + b;
    lemma_blank(s, 6, c);
    assert(after_first[0] == ' ');
    lemma_word(s, 0, "CREATE"@, after_first, c);
    assert(seq![TokView::Word("CREATE"@)] + c =~= seq![
        TokView::Word("CREATE"@),
        TokView::Word("TABLE"@),
    ] + name_toks(database, table) + toks);
}

/// A statement that creates some columns is its bytes, a character each.
proof fn lemma_create_chars(table: Seq<char>, engine: Option<Seq<char>>, columns: Seq<ColumnView>)
    requires
        vstd::utf8::is_ascii_chars(table),
        forall|j: int| 0 <= j < columns.len() ==> declarable(#[trigger] columns[j]),
    ensures
        ({
            let s = "CREATE"@ + after_create(table, list_text(columns) + engine_chars(engine));
            raw(s) == bytes(create_text(table, engine, columns)) && narrow(s)
        }),
{
    reveal_strlit("CREATE");
    reveal_strlit("TABLE");
    lemma_create_text(table, engine, columns);
    lemma_ascii_list(columns);
    let list = list_text(columns);
    let head = "CREATE"@ + (seq![' '] + ("TABLE"@ + (seq![' '] + (table + list))));
    lemma_ascii_parts(table, list);
    lemma_ascii_parts(seq![' '], table + list);
    lemma_ascii_parts("TABLE"@, seq![' '] + (table + list));
    lemma_ascii_parts(seq![' '], "TABLE"@ + (seq![' '] + (table + list)));
    lemma_ascii_parts("CREATE"@, seq![' '] + ("TABLE"@ + (seq![' '] + (table + list))));
    lemma_engine_chars(engine);
    lemma_raw_ascii(head);
    lemma_raw_parts(head, engine_chars(engine));
    lemma_bytes_parts(head, engine_text(engine));
    assert("CREATE"@ + after_create(table, list + engine_chars(engine)) =~= head + engine_chars(
        engine,
    ));
    assert("CREATE"@ + after_create(table, list + engine_text(engine)) =~= head + engine_text(engine));
}

proof fn lemma_grouped(a: Seq<TokView>, b: Seq<TokView>, c: Seq<TokView>)
    ensures
        a + (b + c) == a + b + c,
{
    assert(a + (b + c) =~= a + b + c);
}

proof fn lemma_ascii_name(database: Option<Seq<char>>, table: Seq<char>)
    requires
        name_reads(database, table),
    ensures
        vstd::utf8::is_ascii_chars(name_text(database, table)),
{
    lemma_ascii_word(table);
    if database is Some {
        lemma_ascii_word(database->0);
        lemma_ascii_parts(seq!['.'], table);
        lemma_ascii_parts(database->0, seq!['.'] + table);
    }
}

/// The statement that creates some columns is read as its tokens.
proof fn lemma_create(
    database: Option<Seq<char>>,
    name: Seq<char>,
    engine: Option<Seq<char>>,
    columns: Seq<ColumnView>,
)
    requires
        name_reads(database, name),
        engine_reads(engine),
        forall|j: int| 0 <= j < columns.len() ==> declarable(#[trigger] columns[j]),
    ensures
        tokens_from(bytes(create_text(name_text(database, name), engine, columns)), 0) matches Ok(t)
            && said_by(t) == create_toks(database, name, engine, columns),
{
    let table = name_text(database, name);
    lemma_ascii_name(database, name);
    let list = list_text(columns);
    let ending = engine_chars(engine);
    let s = "CREATE"@ + after_create(table, list + ending);
    lemma_create_chars(table, engine, columns);
    lemma_positions(s, table, list, ending);
    let i = 13 + table.len() as int;
    lemma_engine(s, i + list.len(), engine);
    lemma_list(s, i, columns, ending, engine_toks(engine));
    let a = list_toks(columns) + engine_toks(engine);
    assert(ends_word(list + ending)) by {
        if columns.len() > 0 {
            assert((list + ending)[0] == ' ');
        } else if engine is Some {
            reveal_strlit(" ENGINE = ");
            assert((list + ending)[0] == ' ');
        }
    }
    lemma_head(s, database, name, list + ending, a);
    let words = seq![TokView::Word("CREATE"@), TokView::Word("TABLE"@)] + name_toks(database, name);
    lemma_grouped(words, list_toks(columns), engine_toks(engine));
}

/// Where the column list and the engine clause begin.
proof fn lemma_positions(s: Seq<char>, table: Seq<char>, list: Seq<char>, ending: Seq<char>)
    requires
        s == "CREATE"@ + after_create(table, list + ending),
    ensures
        s.skip(13 + table.len() as int) == list + ending,
        s.skip(13 + table.len() as int + list.len()) == ending,
        13 + table.len() + list.len() <= s.len(),
{
    reveal_strlit("CREATE");
    reveal_strlit("TABLE");
    assert(s.len() == 13 + table.len() + list.len() + ending.len());
    assert(s.skip(13 + table.len() as int) =~= list + ending);
    assert(s.skip(13 + table.len() as int + list.len()) =~= ending);
}

/// Two texts that are the same word have the same length, and letters that differ in case alone.
pub proof fn lemma_unlike(a: Seq<char>, b: Seq<char>)
    ensures
        same_word(a, b) ==> {
            &&& a.len() == b.len()
            &&& a.len() > 0 ==> lower_char(a[0]) == lower_char(b[0])
            &&& a.len() > 1 ==> lower_char(a[1]) == lower_char(b[1])
            &&& a.len() > 5 ==> lower_char(a[5]) == lower_char(b[5])
        },
{
    if same_word(a, b) {
        let x = fold(a);
        let y = fold(b);
        assert(x.len() == a.len());
        assert(y.len() == b.len());
        if a.len() > 0 {
            assert(x[0] == y[0]);
        }
        if a.len() > 1 {
            assert(x[1] == y[1]);
        }
        if a.len() > 5 {
            assert(x[5] == y[5]);
        }
    }
}

proof fn lemma_mutex()
    ensures
        keyless_type("MUTEX"@) == Some(ColumnKind::Mutex),
{
    let w = "MUTEX"@;
    reveal_strlit("MUTEX");
    reveal_strlit("SET");
    lemma_unlike(w, "SET"@);
}

proof fn lemma_bool()
    ensures
        keyless_type("BOOL"@) == Some(ColumnKind::Bool),
{
    let w = "BOOL"@;
    reveal_strlit("BOOL");
    reveal_strlit("SET");
    lemma_unlike(w, "SET"@);
    reveal_strlit("MUTEX");
    lemma_unlike(w, "MUTEX"@);
}

proof fn lemma_quantum()
    ensures
        keyless_type("TIMEQUANTUM"@) == Some(ColumnKind::TimeQuantum),
{
    let w = "TIMEQUANTUM"@;
    reveal_strlit("TIMEQUANTUM");
    reveal_strlit("SET");
    lemma_unlike(w, "SET"@);
    reveal_strlit("MUTEX");
    lemma_unlike(w, "MUTEX"@);
    reveal_strlit("BOOL");
    lemma_unlike(w, "BOOL"@);
    reveal_strlit("BOOLEAN");
    lemma_unlike(w, "BOOLEAN"@);
}

proof fn lemma_date()
    ensures
        keyless_type("DATE"@) is None,
        fixed_type("DATE"@) == Some((ColumnKind::Date, 32u32)),
        !same_word("DATE"@, "DOUBLE"@),
{
    let w = "DATE"@;
    reveal_strlit("DATE");
    reveal_strlit("SET");
    lemma_unlike(w, "SET"@);
    reveal_strlit("MUTEX");
    lemma_unlike(w, "MUTEX"@);
    reveal_strlit("BOOL");
    lemma_unlike(w, "BOOL"@);
    reveal_strlit("BOOLEAN");
    lemma_unlike(w, "BOOLEAN"@);
    reveal_strlit("TIMEQUANTUM");
    lemma_unlike(w, "TIMEQUANTUM"@);
    reveal_strlit("DOUBLE");
    lemma_unlike(w, "DOUBLE"@);
}

proof fn lemma_datetime()
    ensures
        keyless_type("DATETIME"@) is None,
        fixed_type("DATETIME"@) == Some((ColumnKind::DateTime, 64u32)),
        !same_word("DATETIME"@, "DOUBLE"@),
{
    let w = "DATETIME"@;
    reveal_strlit("DATETIME");
    reveal_strlit("SET");
    lemma_unlike(w, "SET"@);
    reveal_strlit("MUTEX");
    lemma_unlike(w, "MUTEX"@);
    reveal_strlit("BOOL");
    lemma_unlike(w, "BOOL"@);
    reveal_strlit("BOOLEAN");
    lemma_unlike(w, "BOOLEAN"@);
    reveal_strlit("TIMEQUANTUM");
    lemma_unlike(w, "TIMEQUANTUM"@);
    reveal_strlit("DATE");
    lemma_unlike(w, "DATE"@);
    reveal_strlit("DOUBLE");
    lemma_unlike(w, "DOUBLE"@);
}

proof fn lemma_float32()
    ensures
        keyless_type("FLOAT32"@) is None,
        fixed_type("FLOAT32"@) == Some((ColumnKind::Float32, 32u32)),
        !same_word("FLOAT32"@, "DOUBLE"@),
{
    let w = "FLOAT32"@;
    reveal_strlit("FLOAT32");
    reveal_strlit("SET");
    lemma_unlike(w, "SET"@);
    reveal_strlit("MUTEX");
    lemma_unlike(w, "MUTEX"@);
    reveal_strlit("BOOL");
    lemma_unlike(w, "BOOL"@);
    reveal_strlit("BOOLEAN");
    lemma_unlike(w, "BOOLEAN"@);
    reveal_strlit("TIMEQUANTUM");
    lemma_unlike(w, "TIMEQUANTUM"@);
    reveal_strlit("DATE");
    lemma_unlike(w, "DATE"@);
    reveal_strlit("DATETIME");
    lemma_unlike(w, "DATETIME"@);
    reveal_strlit("TIMESTAMP");
    lemma_unlike(w, "TIMESTAMP"@);
    reveal_strlit("FLOAT");
    lemma_unlike(w, "FLOAT"@);
    reveal_strlit("DOUBLE");
    lemma_unlike(w, "DOUBLE"@);
}

proof fn lemma_float64()
    ensures
        keyless_type("FLOAT64"@) is None,
        fixed_type("FLOAT64"@) == Some((ColumnKind::Float64, 64u32)),
        !same_word("FLOAT64"@, "DOUBLE"@),
{
    let w = "FLOAT64"@;
    reveal_strlit("FLOAT64");
    reveal_strlit("SET");
    lemma_unlike(w, "SET"@);
    reveal_strlit("MUTEX");
    lemma_unlike(w, "MUTEX"@);
    reveal_strlit("BOOL");
    lemma_unlike(w, "BOOL"@);
    reveal_strlit("BOOLEAN");
    lemma_unlike(w, "BOOLEAN"@);
    reveal_strlit("TIMEQUANTUM");
    lemma_unlike(w, "TIMEQUANTUM"@);
    reveal_strlit("DATE");
    lemma_unlike(w, "DATE"@);
    reveal_strlit("DATETIME");
    lemma_unlike(w, "DATETIME"@);
    reveal_strlit("TIMESTAMP");
    lemma_unlike(w, "TIMESTAMP"@);
    reveal_strlit("FLOAT");
    lemma_unlike(w, "FLOAT"@);
    reveal_strlit("FLOAT32");
    lemma_unlike(w, "FLOAT32"@);
    reveal_strlit("REAL");
    lemma_unlike(w, "REAL"@);
    reveal_strlit("DOUBLE");
    lemma_unlike(w, "DOUBLE"@);
}

proof fn lemma_uint()
    ensures
        keyless_type("UINT"@) is None,
        fixed_type("UINT"@) is None,
        !text_type("UINT"@),
        !same_word("UINT"@, "LOWCARDINALITY"@),
        refused_type("UINT"@) is None,
        whole_type("UINT"@) is None,
{
    let w = "UINT"@;
    reveal_strlit("UINT");
    reveal_strlit("SET");
    lemma_unlike(w, "SET"@);
    reveal_strlit("MUTEX");
    lemma_unlike(w, "MUTEX"@);
    reveal_strlit("BOOL");
    lemma_unlike(w, "BOOL"@);
    reveal_strlit("BOOLEAN");
    lemma_unlike(w, "BOOLEAN"@);
    reveal_strlit("TIMEQUANTUM");
    lemma_unlike(w, "TIMEQUANTUM"@);
    reveal_strlit("DATE");
    lemma_unlike(w, "DATE"@);
    reveal_strlit("DATETIME");
    lemma_unlike(w, "DATETIME"@);
    reveal_strlit("TIMESTAMP");
    lemma_unlike(w, "TIMESTAMP"@);
    reveal_strlit("FLOAT");
    lemma_unlike(w, "FLOAT"@);
    reveal_strlit("FLOAT32");
    lemma_unlike(w, "FLOAT32"@);
    reveal_strlit("REAL");
    lemma_unlike(w, "REAL"@);
    reveal_strlit("DOUBLE");
    lemma_unlike(w, "DOUBLE"@);
    reveal_strlit("FLOAT64");
    lemma_unlike(w, "FLOAT64"@);
    reveal_strlit("TEXT");
    lemma_unlike(w, "TEXT"@);
    reveal_strlit("VARCHAR");
    lemma_unlike(w, "VARCHAR"@);
    reveal_strlit("CHAR");
    lemma_unlike(w, "CHAR"@);
    reveal_strlit("STRING");
    lemma_unlike(w, "STRING"@);
    reveal_strlit("LOWCARDINALITY");
    lemma_unlike(w, "LOWCARDINALITY"@);
    reveal_strlit("NULLABLE");
    lemma_unlike(w, "NULLABLE"@);
    reveal_strlit("ARRAY");
    lemma_unlike(w, "ARRAY"@);
    reveal_strlit("MAP");
    lemma_unlike(w, "MAP"@);
    reveal_strlit("TUPLE");
    lemma_unlike(w, "TUPLE"@);
    reveal_strlit("NESTED");
    lemma_unlike(w, "NESTED"@);
    reveal_strlit("ENUM");
    lemma_unlike(w, "ENUM"@);
    reveal_strlit("ENUM8");
    lemma_unlike(w, "ENUM8"@);
    reveal_strlit("ENUM16");
    lemma_unlike(w, "ENUM16"@);
    reveal_strlit("BITMAP");
    lemma_unlike(w, "BITMAP"@);
    reveal_strlit("AGGREGATEFUNCTION");
    lemma_unlike(w, "AGGREGATEFUNCTION"@);
    reveal_strlit("HLL");
    lemma_unlike(w, "HLL"@);
    reveal_strlit("QUANTILE_STATE");
    lemma_unlike(w, "QUANTILE_STATE"@);
    reveal_strlit("QUANTILESTATE");
    lemma_unlike(w, "QUANTILESTATE"@);
    reveal_strlit("SIMPLEAGGREGATEFUNCTION");
    lemma_unlike(w, "SIMPLEAGGREGATEFUNCTION"@);
    reveal_strlit("TINYINT");
    lemma_unlike(w, "TINYINT"@);
    reveal_strlit("SMALLINT");
    lemma_unlike(w, "SMALLINT"@);
    reveal_strlit("INT");
    lemma_unlike(w, "INT"@);
    reveal_strlit("INTEGER");
    lemma_unlike(w, "INTEGER"@);
    reveal_strlit("BIGINT");
    lemma_unlike(w, "BIGINT"@);
}

proof fn lemma_signed()
    ensures
        keyless_type("SIGNED"@) is None,
        fixed_type("SIGNED"@) is None,
        !text_type("SIGNED"@),
        !same_word("SIGNED"@, "LOWCARDINALITY"@),
        refused_type("SIGNED"@) is None,
        whole_type("SIGNED"@) is None,
        !same_word("SIGNED"@, "UINT"@),
{
    let w = "SIGNED"@;
    reveal_strlit("SIGNED");
    reveal_strlit("SET");
    lemma_unlike(w, "SET"@);
    reveal_strlit("MUTEX");
    lemma_unlike(w, "MUTEX"@);
    reveal_strlit("BOOL");
    lemma_unlike(w, "BOOL"@);
    reveal_strlit("BOOLEAN");
    lemma_unlike(w, "BOOLEAN"@);
    reveal_strlit("TIMEQUANTUM");
    lemma_unlike(w, "TIMEQUANTUM"@);
    reveal_strlit("DATE");
    lemma_unlike(w, "DATE"@);
    reveal_strlit("DATETIME");
    lemma_unlike(w, "DATETIME"@);
    reveal_strlit("TIMESTAMP");
    lemma_unlike(w, "TIMESTAMP"@);
    reveal_strlit("FLOAT");
    lemma_unlike(w, "FLOAT"@);
    reveal_strlit("FLOAT32");
    lemma_unlike(w, "FLOAT32"@);
    reveal_strlit("REAL");
    lemma_unlike(w, "REAL"@);
    reveal_strlit("DOUBLE");
    lemma_unlike(w, "DOUBLE"@);
    reveal_strlit("FLOAT64");
    lemma_unlike(w, "FLOAT64"@);
    reveal_strlit("TEXT");
    lemma_unlike(w, "TEXT"@);
    reveal_strlit("VARCHAR");
    lemma_unlike(w, "VARCHAR"@);
    reveal_strlit("CHAR");
    lemma_unlike(w, "CHAR"@);
    reveal_strlit("STRING");
    lemma_unlike(w, "STRING"@);
    reveal_strlit("LOWCARDINALITY");
    lemma_unlike(w, "LOWCARDINALITY"@);
    reveal_strlit("NULLABLE");
    lemma_unlike(w, "NULLABLE"@);
    reveal_strlit("ARRAY");
    lemma_unlike(w, "ARRAY"@);
    reveal_strlit("MAP");
    lemma_unlike(w, "MAP"@);
    reveal_strlit("TUPLE");
    lemma_unlike(w, "TUPLE"@);
    reveal_strlit("NESTED");
    lemma_unlike(w, "NESTED"@);
    reveal_strlit("ENUM");
    lemma_unlike(w, "ENUM"@);
    reveal_strlit("ENUM8");
    lemma_unlike(w, "ENUM8"@);
    reveal_strlit("ENUM16");
    lemma_unlike(w, "ENUM16"@);
    reveal_strlit("BITMAP");
    lemma_unlike(w, "BITMAP"@);
    reveal_strlit("AGGREGATEFUNCTION");
    lemma_unlike(w, "AGGREGATEFUNCTION"@);
    reveal_strlit("HLL");
    lemma_unlike(w, "HLL"@);
    reveal_strlit("QUANTILE_STATE");
    lemma_unlike(w, "QUANTILE_STATE"@);
    reveal_strlit("QUANTILESTATE");
    lemma_unlike(w, "QUANTILESTATE"@);
    reveal_strlit("SIMPLEAGGREGATEFUNCTION");
    lemma_unlike(w, "SIMPLEAGGREGATEFUNCTION"@);
    reveal_strlit("TINYINT");
    lemma_unlike(w, "TINYINT"@);
    reveal_strlit("SMALLINT");
    lemma_unlike(w, "SMALLINT"@);
    reveal_strlit("INT");
    lemma_unlike(w, "INT"@);
    reveal_strlit("INTEGER");
    lemma_unlike(w, "INTEGER"@);
    reveal_strlit("BIGINT");
    lemma_unlike(w, "BIGINT"@);
    reveal_strlit("UINT");
    lemma_unlike(w, "UINT"@);
}

proof fn lemma_decimal()
    ensures
        keyless_type("DECIMAL"@) is None,
        fixed_type("DECIMAL"@) is None,
        !text_type("DECIMAL"@),
        !same_word("DECIMAL"@, "LOWCARDINALITY"@),
        refused_type("DECIMAL"@) is None,
        whole_type("DECIMAL"@) is None,
        !same_word("DECIMAL"@, "UINT"@),
        !same_word("DECIMAL"@, "SIGNED"@),
{
    let w = "DECIMAL"@;
    reveal_strlit("DECIMAL");
    reveal_strlit("SET");
    lemma_unlike(w, "SET"@);
    reveal_strlit("MUTEX");
    lemma_unlike(w, "MUTEX"@);
    reveal_strlit("BOOL");
    lemma_unlike(w, "BOOL"@);
    reveal_strlit("BOOLEAN");
    lemma_unlike(w, "BOOLEAN"@);
    reveal_strlit("TIMEQUANTUM");
    lemma_unlike(w, "TIMEQUANTUM"@);
    reveal_strlit("DATE");
    lemma_unlike(w, "DATE"@);
    reveal_strlit("DATETIME");
    lemma_unlike(w, "DATETIME"@);
    reveal_strlit("TIMESTAMP");
    lemma_unlike(w, "TIMESTAMP"@);
    reveal_strlit("FLOAT");
    lemma_unlike(w, "FLOAT"@);
    reveal_strlit("FLOAT32");
    lemma_unlike(w, "FLOAT32"@);
    reveal_strlit("REAL");
    lemma_unlike(w, "REAL"@);
    reveal_strlit("DOUBLE");
    lemma_unlike(w, "DOUBLE"@);
    reveal_strlit("FLOAT64");
    lemma_unlike(w, "FLOAT64"@);
    reveal_strlit("TEXT");
    lemma_unlike(w, "TEXT"@);
    reveal_strlit("VARCHAR");
    lemma_unlike(w, "VARCHAR"@);
    reveal_strlit("CHAR");
    lemma_unlike(w, "CHAR"@);
    reveal_strlit("STRING");
    lemma_unlike(w, "STRING"@);
    reveal_strlit("LOWCARDINALITY");
    lemma_unlike(w, "LOWCARDINALITY"@);
    reveal_strlit("NULLABLE");
    lemma_unlike(w, "NULLABLE"@);
    reveal_strlit("ARRAY");
    lemma_unlike(w, "ARRAY"@);
    reveal_strlit("MAP");
    lemma_unlike(w, "MAP"@);
    reveal_strlit("TUPLE");
    lemma_unlike(w, "TUPLE"@);
    reveal_strlit("NESTED");
    lemma_unlike(w, "NESTED"@);
    reveal_strlit("ENUM");
    lemma_unlike(w, "ENUM"@);
    reveal_strlit("ENUM8");
    lemma_unlike(w, "ENUM8"@);
    reveal_strlit("ENUM16");
    lemma_unlike(w, "ENUM16"@);
    reveal_strlit("BITMAP");
    lemma_unlike(w, "BITMAP"@);
    reveal_strlit("AGGREGATEFUNCTION");
    lemma_unlike(w, "AGGREGATEFUNCTION"@);
    reveal_strlit("HLL");
    lemma_unlike(w, "HLL"@);
    reveal_strlit("QUANTILE_STATE");
    lemma_unlike(w, "QUANTILE_STATE"@);
    reveal_strlit("QUANTILESTATE");
    lemma_unlike(w, "QUANTILESTATE"@);
    reveal_strlit("SIMPLEAGGREGATEFUNCTION");
    lemma_unlike(w, "SIMPLEAGGREGATEFUNCTION"@);
    reveal_strlit("TINYINT");
    lemma_unlike(w, "TINYINT"@);
    reveal_strlit("SMALLINT");
    lemma_unlike(w, "SMALLINT"@);
    reveal_strlit("INT");
    lemma_unlike(w, "INT"@);
    reveal_strlit("INTEGER");
    lemma_unlike(w, "INTEGER"@);
    reveal_strlit("BIGINT");
    lemma_unlike(w, "BIGINT"@);
    reveal_strlit("UINT");
    lemma_unlike(w, "UINT"@);
    reveal_strlit("SIGNED");
    lemma_unlike(w, "SIGNED"@);
}

/// Whether some tokens stand at a position.
pub open spec fn stands(e: Env, i: int, toks: Seq<TokView>) -> bool {
    &&& 0 <= i
    &&& i + toks.len() <= e.t.len()
    &&& forall|k: int| 0 <= k < toks.len() ==> e.t[i + k].tok == #[trigger] toks[k]
}

pub proof fn lemma_stands_parts(e: Env, i: int, a: Seq<TokView>, b: Seq<TokView>)
    requires
        stands(e, i, a + b),
    ensures
        stands(e, i, a),
        stands(e, i + a.len(), b),
{
    let c = a + b;
    assert forall|k: int| 0 <= k < a.len() implies e.t[i + k].tok == #[trigger] a[k] by {
        assert(c[k] == a[k]);
    }
    assert forall|k: int| 0 <= k < b.len() implies e.t[i + a.len() + k].tok == #[trigger] b[k] by {
        assert(c[a.len() + k] == b[k]);
        assert(e.t[i + (a.len() + k)].tok == c[a.len() + k]);
    }
}

/// A token at a position is what is looked at there.
pub proof fn lemma_peek(e: Env, i: int, toks: Seq<TokView>, k: int)
    requires
        stands(e, i, toks),
        0 <= k < toks.len(),
    ensures
        peek_at(e, i + k) == Some(toks[k]),
{
    assert(e.t[i + k].tok == toks[k]);
}

/// A type is read back from its tokens.
proof fn lemma_read_type(e: Env, i: int, c: ColumnView)
    requires
        declarable(c),
        stands(e, i, seq![TokView::Word(type_word(c.kind))] + bracket_toks(c)),
        c.kind != ColumnKind::Int && c.kind != ColumnKind::Signed && c.kind != ColumnKind::Decimal
            ==> !tok_is(e, i + 1, TokView::LParen),
    ensures
        read_type(e, i, type_word(c.kind), c.name) == Ok::<(ColumnView, int), SqlErrorView>(
            (c, i + 1 + bracket_toks(c).len()),
        ),
{
    let toks = seq![TokView::Word(type_word(c.kind))] + bracket_toks(c);
    match c.kind {
        ColumnKind::Keyed => {},
        ColumnKind::Mutex => lemma_mutex(),
        ColumnKind::Bool => lemma_bool(),
        ColumnKind::TimeQuantum => lemma_quantum(),
        ColumnKind::Date => lemma_date(),
        ColumnKind::DateTime => lemma_datetime(),
        ColumnKind::Float32 => lemma_float32(),
        ColumnKind::Float64 => lemma_float64(),
        ColumnKind::Int => {
            lemma_uint();
            lemma_peek(e, i, toks, 1);
            lemma_peek(e, i, toks, 2);
            lemma_peek(e, i, toks, 3);
        },
        ColumnKind::Signed => {
            lemma_signed();
            lemma_peek(e, i, toks, 1);
            lemma_peek(e, i, toks, 2);
            lemma_peek(e, i, toks, 3);
        },
        ColumnKind::Decimal => {
            lemma_decimal();
            let p = choose|p: u64| #[trigger] declares(p, c);
            declared_digits_come_back(p);
            lemma_peek(e, i, toks, 1);
            lemma_peek(e, i, toks, 2);
            lemma_peek(e, i, toks, 3);
            lemma_peek(e, i, toks, 4);
            lemma_peek(e, i, toks, 5);
        },
    }
}

/// A column is read back from its tokens, where a comma or a bracket comes after it.
proof fn lemma_read_column(e: Env, i: int, c: ColumnView)
    requires
        declarable(c),
        stands(e, i, column_toks(c)),
        tok_is(e, i + column_toks(c).len(), TokView::Comma) || tok_is(
            e,
            i + column_toks(c).len(),
            TokView::RParen,
        ),
    ensures
        read_column(e, i) == Ok::<(ColumnView, int), SqlErrorView>((c, i + column_toks(c).len())),
{
    let name = seq![TokView::Word(c.name)];
    let typed = seq![TokView::Word(type_word(c.kind))] + bracket_toks(c);
    assert(column_toks(c) =~= name + typed);
    lemma_stands_parts(e, i, name, typed);
    lemma_peek(e, i, name, 0);
    lemma_peek(e, i + 1, typed, 0);
    lemma_read_type(e, i + 1, c);
}

/// The columns are read back from their tokens.
proof fn lemma_read_columns(e: Env, i: int, columns: Seq<ColumnView>, k: int)
    requires
        0 <= k < columns.len(),
        forall|j: int| 0 <= j < columns.len() ==> declarable(#[trigger] columns[j]),
        stands(e, i, columns_toks(columns, k) + seq![TokView::RParen]),
    ensures
        more_columns(e, i, columns.take(k)) == Ok::<(Seq<ColumnView>, int), SqlErrorView>(
            (columns, i + columns_toks(columns, k).len() + 1),
        ),
    decreases columns.len() - k,
{
    let c = columns[k];
    let mine = column_toks(c);
    let before = columns.take(k);
    assert(before.push(c) =~= columns.take(k + 1));
    if k + 1 == columns.len() {
        lemma_stands_parts(e, i, mine, seq![TokView::RParen]);
        lemma_peek(e, i + mine.len(), seq![TokView::RParen], 0);
        lemma_read_column(e, i, c);
        assert(columns.take(k + 1) =~= columns);
    } else {
        let later = columns_toks(columns, k + 1) + seq![TokView::RParen];
        assert(columns_toks(columns, k) + seq![TokView::RParen] =~= mine + (seq![TokView::Comma]
            + later));
        lemma_stands_parts(e, i, mine, seq![TokView::Comma] + later);
        lemma_stands_parts(e, i + mine.len(), seq![TokView::Comma], later);
        lemma_peek(e, i + mine.len(), seq![TokView::Comma], 0);
        lemma_read_column(e, i, c);
        lemma_read_columns(e, i + mine.len() + 1, columns, k + 1);
    }
}

/// `CREATE` is none of the words a statement is looked at for before it.
proof fn lemma_create_word()
    ensures
        !same_word("CREATE"@, "EXPLAIN"@),
        !same_word("CREATE"@, "WITH"@),
        !same_word("CREATE"@, "SELECT"@),
        !same_word("CREATE"@, "DROP"@),
{
    let w = "CREATE"@;
    reveal_strlit("CREATE");
    reveal_strlit("EXPLAIN");
    lemma_unlike(w, "EXPLAIN"@);
    reveal_strlit("WITH");
    lemma_unlike(w, "WITH"@);
    reveal_strlit("SELECT");
    lemma_unlike(w, "SELECT"@);
    reveal_strlit("DROP");
    lemma_unlike(w, "DROP"@);
}

/// `TABLE` is none of the words a `CREATE` is looked at for before it.
proof fn lemma_table_word()
    ensures
        !same_word("TABLE"@, "ROLE"@),
        !same_word("TABLE"@, "USER"@),
        !same_word("TABLE"@, "TEMPORARY"@),
        !same_word("TABLE"@, "TEMP"@),
        !same_word("TABLE"@, "DATABASE"@),
        !same_word("TABLE"@, "SCHEMA"@),
        !same_word("TABLE"@, "DATASET"@),
        !same_word("TABLE"@, "OR"@),
        !same_word("TABLE"@, "VIEW"@),
{
    let w = "TABLE"@;
    reveal_strlit("TABLE");
    reveal_strlit("ROLE");
    lemma_unlike(w, "ROLE"@);
    reveal_strlit("USER");
    lemma_unlike(w, "USER"@);
    reveal_strlit("TEMPORARY");
    lemma_unlike(w, "TEMPORARY"@);
    reveal_strlit("TEMP");
    lemma_unlike(w, "TEMP"@);
    reveal_strlit("DATABASE");
    lemma_unlike(w, "DATABASE"@);
    reveal_strlit("SCHEMA");
    lemma_unlike(w, "SCHEMA"@);
    reveal_strlit("DATASET");
    lemma_unlike(w, "DATASET"@);
    reveal_strlit("OR");
    lemma_unlike(w, "OR"@);
    reveal_strlit("VIEW");
    lemma_unlike(w, "VIEW"@);
}

/// A column list is read back from its tokens.
proof fn lemma_read_list(e: Env, i: int, columns: Seq<ColumnView>)
    requires
        forall|j: int| 0 <= j < columns.len() ==> declarable(#[trigger] columns[j]),
        stands(e, i, list_toks(columns)),
        columns.len() == 0 ==> !tok_is(e, i, TokView::LParen),
    ensures
        read_column_list(e, i) == Ok::<(Seq<ColumnView>, int), SqlErrorView>(
            (columns, i + list_toks(columns).len()),
        ),
{
    if columns.len() > 0 {
        let rest = columns_toks(columns, 0) + seq![TokView::RParen];
        assert(list_toks(columns) =~= seq![TokView::LParen] + rest);
        lemma_stands_parts(e, i, seq![TokView::LParen], rest);
        lemma_peek(e, i, seq![TokView::LParen], 0);
        assert(rest[0] == column_toks(columns[0])[0]);
        lemma_peek(e, i + 1, rest, 0);
        lemma_read_columns(e, i + 1, columns, 0);
        assert(columns.take(0) =~= Seq::<ColumnView>::empty());
    } else {
        assert(columns =~= Seq::<ColumnView>::empty());
    }
}

/// An engine clause at the end of a statement is read back from its tokens.
proof fn lemma_read_engine(e: Env, i: int, engine: Option<Seq<char>>)
    requires
        engine_reads(engine),
        stands(e, i, engine_toks(engine)),
        i + engine_toks(engine).len() == e.t.len(),
    ensures
        read_engine(e, i) == Ok::<(Option<Seq<char>>, int), SqlErrorView>(
            (engine, e.t.len() as int),
        ),
{
    if engine is Some {
        lemma_peek(e, i, engine_toks(engine), 0);
        lemma_peek(e, i, engine_toks(engine), 1);
        lemma_peek(e, i, engine_toks(engine), 2);
    }
}

/// Whether the name of a table begins with the word `IF`, which cannot be told from the start of
/// `IF NOT EXISTS`.
pub open spec fn begins_as_if(database: Option<Seq<char>>, table: Seq<char>) -> bool {
    match database {
        Some(d) => same_word(d, "IF"@),
        None => same_word(table, "IF"@),
    }
}

/// What comes after `CREATE TABLE` is read back from its tokens.
proof fn lemma_read_create_table(
    e: Env,
    database: Option<Seq<char>>,
    table: Seq<char>,
    engine: Option<Seq<char>>,
    columns: Seq<ColumnView>,
)
    requires
        !begins_as_if(database, table),
        engine_reads(engine),
        forall|j: int| 0 <= j < columns.len() ==> declarable(#[trigger] columns[j]),
        stands(e, 2, name_toks(database, table) + list_toks(columns) + engine_toks(engine)),
        e.t.len() == 2 + name_toks(database, table).len() + list_toks(columns).len() + engine_toks(
            engine,
        ).len(),
    ensures
        read_create_table(e, 2) == Ok::<(DdlView, int), SqlErrorView>(
            (
                DdlView::CreateTable {
                    database,
                    table,
                    engine,
                    columns,
                    if_not_exists: false,
                },
                e.t.len() as int,
            ),
        ),
{
    let list = list_toks(columns);
    let ending = engine_toks(engine);
    let name = name_toks(database, table);
    let n = 2 + name.len() as int;
    assert(name + list + ending =~= name + (list + ending));
    lemma_stands_parts(e, 2, name, list + ending);
    lemma_stands_parts(e, n, list, ending);
    lemma_peek(e, 2, name, 0);
    if database is Some {
        lemma_peek(e, 2, name, 1);
        lemma_peek(e, 2, name, 2);
    }
    assert(!tok_is(e, n, TokView::Dot) && (columns.len() == 0 ==> !tok_is(e, n, TokView::LParen))) by {
        if columns.len() > 0 {
            lemma_peek(e, n, list, 0);
        } else if engine is Some {
            lemma_peek(e, n, ending, 0);
        }
    }
    lemma_read_list(e, n, columns);
    lemma_read_engine(e, n + list.len() as int, engine);
}

/// `CREATE TABLE` leads to what comes after it.
proof fn lemma_created(e: Env)
    requires
        peek_at(e, 1) == Some(TokView::Word("TABLE"@)),
    ensures
        read_create(e, 1, 0) == read_create_table(e, 2),
{
    lemma_table_word();
    assert(read_created(e, 1, 0, false) == read_create_table(e, 2));
}

/// A schema change that begins with `CREATE TABLE`.
proof fn lemma_defined(e: Env)
    requires
        peek_at(e, 0) == Some(TokView::Word("CREATE"@)),
        peek_at(e, 1) == Some(TokView::Word("TABLE"@)),
    ensures
        read_definition(e, 0, 0) == (match read_create(e, 1, 0) {
            Ok((v, j)) => Ok::<(ParsedView, int), SqlErrorView>((ParsedView::Ddl(v), j)),
            Err(x) => Err(x),
        }),
{
    lemma_create_word();
    lemma_table_word();
}

/// A statement that begins with `CREATE`.
proof fn lemma_stated(e: Env)
    requires
        peek_at(e, 0) == Some(TokView::Word("CREATE"@)),
    ensures
        read_any(e, 0, 0) == read_definition(e, 0, 0),
{
    lemma_create_word();
    reveal(read_statement);
    assert(read_statement(e, 0, 0) == read_definition(e, 0, 0));
}

/// The statement that creates some columns is read back as the creation of those columns.
proof fn lemma_read_create(
    e: Env,
    database: Option<Seq<char>>,
    table: Seq<char>,
    engine: Option<Seq<char>>,
    columns: Seq<ColumnView>,
)
    requires
        !begins_as_if(database, table),
        engine_reads(engine),
        forall|j: int| 0 <= j < columns.len() ==> declarable(#[trigger] columns[j]),
        stands(e, 0, create_toks(database, table, engine, columns)),
        e.t.len() == create_toks(database, table, engine, columns).len(),
    ensures
        peek_at(e, 0) == Some(TokView::Word("CREATE"@)),
        peek_at(e, 1) == Some(TokView::Word("TABLE"@)),
        read_create_table(e, 2) == Ok::<(DdlView, int), SqlErrorView>(
            (
                DdlView::CreateTable {
                    database,
                    table,
                    engine,
                    columns,
                    if_not_exists: false,
                },
                e.t.len() as int,
            ),
        ),
{
    let first = seq![TokView::Word("CREATE"@), TokView::Word("TABLE"@)];
    let rest = name_toks(database, table) + list_toks(columns) + engine_toks(engine);
    assert(create_toks(database, table, engine, columns) =~= first + rest);
    lemma_stands_parts(e, 0, first, rest);
    lemma_peek(e, 0, first, 0);
    lemma_peek(e, 0, first, 1);
    lemma_read_create_table(e, database, table, engine, columns);
}

/// The `CREATE TABLE` a schema is written as is read back as the creation of the same table, with
/// the same columns and the same engine.
///
/// The table and the columns have names that are one word, the table's with its database before it
/// where it has one, the columns are ones a statement can declare, and the engine's name has no
/// quote in it. A table called `IF` cannot be told from the start of `IF NOT EXISTS`.
pub proof fn a_schema_reads_back(
    database: Option<Seq<char>>,
    table: Seq<char>,
    engine: Option<Seq<char>>,
    columns: Seq<ColumnView>,
    now: i64,
)
    requires
        name_reads(database, table),
        !begins_as_if(database, table),
        engine_reads(engine),
        forall|j: int| 0 <= j < columns.len() ==> declarable(#[trigger] columns[j]),
    ensures
        said(create_text(name_text(database, table), engine, columns), now) == Ok::<ParsedView, SqlErrorView>(
            ParsedView::Ddl(
                DdlView::CreateTable {
                    database,
                    table,
                    engine,
                    columns,
                    if_not_exists: false,
                },
            ),
        ),
{
    let s = create_text(name_text(database, table), engine, columns);
    let toks = create_toks(database, table, engine, columns);
    lemma_create(database, table, engine, columns);
    let t = tokens_from(bytes(s), 0)->Ok_0;
    let e = Env { t, src: bytes(s), bound: Map::empty(), now };
    assert(said_by(t).len() == t.len());
    assert forall|k: int| 0 <= k < toks.len() implies e.t[0 + k].tok == #[trigger] toks[k] by {
        assert(said_by(t)[k] == t[k].tok);
    }
    lemma_read_create(e, database, table, engine, columns);
    lemma_created(e);
    lemma_defined(e);
    lemma_stated(e);
}

/// A column that is read under a name that is one word is one that reads back.
pub proof fn a_read_column_can_be_written(e: Env, i: int, name: Seq<char>)
    requires
        is_word(name),
        !same_word(name, RECORD_COLUMN@),
    ensures
        read_column_type(e, i, name) matches Ok((c, _)) ==> declarable(c) && c.name == name,
{
    match peek_at(e, i) {
        Some(TokView::Word(w)) => {
            match read_type(e, i, w, name) {
                Ok((c, _)) => {
                    if c.kind is Decimal {
                        lemma_read_decimal(e, i + 1, name);
                    }
                },
                Err(_) => {},
            }
        },
        _ => {},
    }
}

proof fn lemma_read_decimal(e: Env, i: int, name: Seq<char>)
    ensures
        read_decimal(e, i, name) matches Ok((c, _)) ==> (exists|p: u64| #[trigger] declares(p, c))
            && c.name == name && c.kind is Decimal,
{
    match read_number(e, i + 1, "the precision, in digits"@) {
        Ok((precision, j)) => {
            match read_decimal(e, i, name) {
                Ok((c, _)) => {
                    assert(bits_for(precision) <= 64);
                    assert(precision <= 19);
                    assert(declares(precision, c));
                },
                Err(_) => {},
            }
        },
        Err(_) => {},
    }
}

} // verus!
