//! Conditions and assignments, written out and read back.

use vstd::prelude::*;
use crate::ast::{CondView, DeleteView, NameView, UpdateView};
use crate::error::SqlErrorView;
use crate::insert::RECORD_COLUMN;
use crate::lex::TokView;
use crate::parse::cond::{more_and, more_or, read_cond, read_conj, read_neg, read_predicate, read_test, read_values};
use crate::parse::cursor::{moved, peek_at, offset, read_literal, read_name, read_table, tok_is, word_at, Env, MAX_DEPTH};
use crate::parse::delete::{read_assignment, read_assignments, read_delete, read_narrowing, read_update};
use crate::pql::LiteralView;
use crate::readback::{lemma_peek, lemma_stands_parts, lemma_unlike, stands};
use crate::settings::{no_settings, Settings};
use crate::text::same_word;

verus! {

/// A value as a token.
pub open spec fn value_tok(v: LiteralView) -> TokView {
    match v {
        LiteralView::Str(s) => TokView::Str(s),
        LiteralView::Bool(b) => TokView::Word(
            if b {
                "TRUE"@
            } else {
                "FALSE"@
            },
        ),
        n => TokView::Num(n),
    }
}

/// A column as tokens.
pub open spec fn column_toks(n: NameView) -> Seq<TokView> {
    match n.qualifier {
        Some(q) => seq![TokView::Quoted(q), TokView::Dot, TokView::Quoted(n.column)],
        None => seq![TokView::Quoted(n.column)],
    }
}

/// The values from one on, with commas between them, and the bracket that closes them.
pub open spec fn values_toks(values: Seq<LiteralView>, k: int) -> Seq<TokView>
    decreases values.len() - k,
{
    if k < 0 || k >= values.len() {
        Seq::empty()
    } else if k + 1 == values.len() {
        seq![value_tok(values[k]), TokView::RParen]
    } else {
        seq![value_tok(values[k]), TokView::Comma] + values_toks(values, k + 1)
    }
}

/// What a column is tested with.
pub open spec fn test_toks(c: CondView) -> Seq<TokView> {
    match c {
        CondView::Cmp { op, value, .. } => seq![TokView::Op(op), value_tok(value)],
        CondView::In { values, .. } => seq![TokView::Word("IN"@), TokView::LParen] + values_toks(
            values,
            0,
        ),
        CondView::Between { low, high, .. } => seq![
            TokView::Word("BETWEEN"@),
            value_tok(low),
            TokView::Word("AND"@),
            value_tok(high),
        ],
        CondView::Like { pattern, fold, .. } => seq![
            TokView::Word(
                if fold {
                    "ILIKE"@
                } else {
                    "LIKE"@
                },
            ),
            TokView::Str(pattern),
        ],
        _ => Seq::empty(),
    }
}

/// The column a test is of.
pub open spec fn tested(c: CondView) -> NameView {
    match c {
        CondView::Cmp { field, .. } => field,
        CondView::In { field, .. } => field,
        CondView::Between { field, .. } => field,
        CondView::Like { field, .. } => field,
        _ => NameView { qualifier: None, column: Seq::empty() },
    }
}

/// Whether a condition is made of comparisons, lists, ranges and patterns.
pub open spec fn writable(c: CondView) -> bool
    decreases c,
{
    match c {
        CondView::And(a, b) => writable(*a) && writable(*b),
        CondView::Or(a, b) => writable(*a) && writable(*b),
        CondView::Not(a) => writable(*a),
        CondView::Cmp { .. } => true,
        CondView::In { values, .. } => values.len() > 0,
        CondView::Between { .. } => true,
        CondView::Like { .. } => true,
        _ => false,
    }
}

/// How tightly a place in a condition binds: after nothing, next to an `OR`, or next to an `AND`
/// or a `NOT`.
pub enum Place {
    Outside,
    NextToOr,
    NextToAnd,
}

/// How often a place can hand a condition on before it is one it takes apart.
pub open spec fn steps(c: CondView, place: Place) -> int {
    match (c, place) {
        (CondView::Or(..), Place::Outside) => 0,
        (CondView::Or(..), Place::NextToAnd) => 1,
        (CondView::Or(..), Place::NextToOr) => 2,
        (CondView::And(..), Place::NextToOr) => 0,
        (CondView::And(..), Place::Outside) => 1,
        (CondView::And(..), Place::NextToAnd) => 2,
        (_, Place::NextToAnd) => 0,
        (_, Place::NextToOr) => 1,
        (_, Place::Outside) => 2,
    }
}

/// A condition as tokens, with brackets around an `OR` next to an `AND` or a `NOT`, around an
/// `AND` next to a `NOT`, and around what is on the right of one of its own kind.
pub open spec fn cond_toks(c: CondView, place: Place) -> Seq<TokView>
    decreases c, steps(c, place),
{
    match (c, place) {
        (CondView::Or(a, b), Place::Outside) => cond_toks(*a, Place::Outside) + seq![
            TokView::Word("OR"@),
        ] + cond_toks(*b, Place::NextToOr),
        (CondView::Or(..), _) => seq![TokView::LParen] + cond_toks(c, Place::Outside) + seq![
            TokView::RParen,
        ],
        (CondView::And(a, b), Place::NextToAnd) => seq![TokView::LParen] + cond_toks(
            c,
            Place::Outside,
        ) + seq![TokView::RParen],
        (CondView::And(a, b), _) => cond_toks(*a, Place::NextToOr) + seq![TokView::Word("AND"@)]
            + cond_toks(*b, Place::NextToAnd),
        (CondView::Not(a), _) => seq![TokView::Word("NOT"@)] + cond_toks(*a, Place::NextToAnd),
        _ => column_toks(tested(c)) + test_toks(c),
    }
}

/// How deep a condition nests at a place.
pub open spec fn nests(c: CondView, place: Place) -> int
    decreases c, steps(c, place),
{
    match (c, place) {
        (CondView::Or(a, b), Place::Outside) => 1 + larger(
            nests(*a, Place::Outside),
            nests(*b, Place::NextToOr),
        ),
        (_, Place::Outside) => 1 + nests(c, Place::NextToOr),
        (CondView::And(a, b), Place::NextToOr) => 1 + larger(
            nests(*a, Place::NextToOr),
            nests(*b, Place::NextToAnd),
        ),
        (_, Place::NextToOr) => 1 + nests(c, Place::NextToAnd),
        (CondView::Not(a), Place::NextToAnd) => 1 + nests(*a, Place::NextToAnd),
        (CondView::Or(..), Place::NextToAnd) => 1 + nests(c, Place::Outside),
        (CondView::And(..), Place::NextToAnd) => 1 + nests(c, Place::Outside),
        _ => 1,
    }
}

/// The larger of two numbers.
pub open spec fn larger(a: int, b: int) -> int {
    if a < b {
        b
    } else {
        a
    }
}

/// Whether the words of a truth value are not bound to something else.
pub open spec fn truth_is_free(e: Env) -> bool {
    !e.bound.dom().contains("TRUE"@) && !e.bound.dom().contains("FALSE"@)
}

/// The words of conditions are different words.
pub proof fn lemma_words()
    ensures
        same_word("OR"@, "OR"@) && same_word("AND"@, "AND"@) && same_word("NOT"@, "NOT"@),
        same_word("IN"@, "IN"@) && same_word("BETWEEN"@, "BETWEEN"@),
        same_word("LIKE"@, "LIKE"@) && same_word("ILIKE"@, "ILIKE"@),
        same_word("TRUE"@, "TRUE"@) && same_word("FALSE"@, "FALSE"@),
        !same_word("OR"@, "AND"@) && !same_word("AND"@, "OR"@),
        !same_word("NOT"@, "SELECT"@),
        !same_word("IN"@, "IS"@) && !same_word("IN"@, "NOT"@),
        !same_word("BETWEEN"@, "IS"@) && !same_word("BETWEEN"@, "NOT"@) && !same_word(
            "BETWEEN"@,
            "IN"@,
        ) && !same_word("BETWEEN"@, "LIKE"@) && !same_word("BETWEEN"@, "ILIKE"@),
        !same_word("LIKE"@, "IS"@) && !same_word("LIKE"@, "NOT"@) && !same_word("LIKE"@, "IN"@),
        !same_word("ILIKE"@, "IS"@) && !same_word("ILIKE"@, "NOT"@) && !same_word("ILIKE"@, "IN"@)
            && !same_word("ILIKE"@, "LIKE"@),
        !same_word("TRUE"@, "SELECT"@) && !same_word("FALSE"@, "SELECT"@),
        !same_word("TRUE"@, "NULL"@) && !same_word("FALSE"@, "NULL"@) && !same_word(
            "FALSE"@,
            "TRUE"@,
        ),
{
    reveal_strlit("OR");
    reveal_strlit("AND");
    reveal_strlit("NOT");
    reveal_strlit("IN");
    reveal_strlit("IS");
    reveal_strlit("BETWEEN");
    reveal_strlit("LIKE");
    reveal_strlit("ILIKE");
    reveal_strlit("SELECT");
    reveal_strlit("TRUE");
    reveal_strlit("FALSE");
    reveal_strlit("NULL");
    assert("OR"@.len() == 2 && "AND"@.len() == 3 && "NOT"@.len() == 3 && "IN"@.len() == 2
        && "IS"@.len() == 2 && "BETWEEN"@.len() == 7 && "LIKE"@.len() == 4 && "ILIKE"@.len() == 5
        && "SELECT"@.len() == 6 && "TRUE"@.len() == 4 && "FALSE"@.len() == 5 && "NULL"@.len() == 4);
    lemma_unlike("OR"@, "AND"@);
    lemma_unlike("AND"@, "OR"@);
    lemma_unlike("NOT"@, "SELECT"@);
    lemma_unlike("IN"@, "IS"@);
    lemma_unlike("IN"@, "NOT"@);
    lemma_unlike("BETWEEN"@, "IS"@);
    lemma_unlike("BETWEEN"@, "NOT"@);
    lemma_unlike("BETWEEN"@, "IN"@);
    lemma_unlike("BETWEEN"@, "LIKE"@);
    lemma_unlike("BETWEEN"@, "ILIKE"@);
    lemma_unlike("LIKE"@, "IS"@);
    lemma_unlike("LIKE"@, "NOT"@);
    lemma_unlike("LIKE"@, "IN"@);
    lemma_unlike("ILIKE"@, "IS"@);
    lemma_unlike("ILIKE"@, "NOT"@);
    lemma_unlike("ILIKE"@, "IN"@);
    lemma_unlike("ILIKE"@, "LIKE"@);
    lemma_unlike("TRUE"@, "SELECT"@);
    lemma_unlike("FALSE"@, "SELECT"@);
    lemma_unlike("TRUE"@, "NULL"@);
    lemma_unlike("FALSE"@, "NULL"@);
    lemma_unlike("FALSE"@, "TRUE"@);
    assert("IN"@[1] == 'N' && "IS"@[1] == 'S');
    assert("TRUE"@[0] == 'T' && "NULL"@[0] == 'N');
}

/// A value reads back.
pub proof fn lemma_value(e: Env, i: int, v: LiteralView, want: Seq<char>)
    requires
        truth_is_free(e),
        peek_at(e, i) == Some(value_tok(v)),
    ensures
        read_literal(e, i, want) == Ok::<(LiteralView, int), SqlErrorView>((v, i + 1)),
{
    lemma_words();
}

/// A column reads back.
pub proof fn lemma_column(e: Env, i: int, n: NameView, want: Seq<char>)
    requires
        stands(e, i, column_toks(n)),
        !tok_is(e, i + column_toks(n).len(), TokView::Dot),
    ensures
        read_name(e, i, want) == Ok::<(NameView, int), SqlErrorView>(
            (n, i + column_toks(n).len()),
        ),
{
    let toks = column_toks(n);
    lemma_peek(e, i, toks, 0);
    if n.qualifier is Some {
        lemma_peek(e, i, toks, 1);
        lemma_peek(e, i, toks, 2);
    }
}

/// The values of a list read back.
proof fn lemma_values(e: Env, i: int, values: Seq<LiteralView>, k: int)
    requires
        truth_is_free(e),
        0 <= k < values.len(),
        stands(e, i, values_toks(values, k)),
    ensures
        read_values(e, i, values.take(k)) == Ok::<(Seq<LiteralView>, int), SqlErrorView>(
            (values, i + values_toks(values, k).len()),
        ),
    decreases values.len() - k,
{
    let toks = values_toks(values, k);
    lemma_peek(e, i, toks, 0);
    lemma_peek(e, i, toks, 1);
    lemma_value(e, i, values[k], "a value inside IN"@);
    assert(values.take(k).push(values[k]) =~= values.take(k + 1));
    if k + 1 == values.len() {
        assert(values.take(k + 1) =~= values);
    } else {
        lemma_stands_parts(
            e,
            i,
            seq![value_tok(values[k]), TokView::Comma],
            values_toks(values, k + 1),
        );
        lemma_values(e, i + 2, values, k + 1);
    }
}

/// What a column is tested with reads back.
proof fn lemma_test(e: Env, j: int, c: CondView)
    requires
        truth_is_free(e),
        writable(c),
        !(c is And) && !(c is Or) && !(c is Not),
        stands(e, j, test_toks(c)),
    ensures
        read_test(e, j, tested(c)) == Ok::<(CondView, int), SqlErrorView>(
            (c, j + test_toks(c).len()),
        ),
        !tok_is(e, j, TokView::Dot),
        !tok_is(e, j, TokView::LParen),
        !word_at(e, j, "IS"@),
        !word_at(e, j, "NOT"@),
        word_at(e, j, "IN"@) ==> !word_at(e, j + 2, "SELECT"@),
{
    lemma_words();
    let toks = test_toks(c);
    match c {
        CondView::In { field, values } => {
            lemma_stands_parts(
                e,
                j,
                seq![TokView::Word("IN"@), TokView::LParen],
                values_toks(values, 0),
            );
            lemma_peek(e, j, toks, 0);
            lemma_peek(e, j, toks, 1);
            assert(values_toks(values, 0).len() > 0);
            lemma_peek(e, j + 2, values_toks(values, 0), 0);
            assert(values_toks(values, 0)[0] == value_tok(values[0]));
            assert(values.take(0) =~= Seq::<LiteralView>::empty());
            lemma_values(e, j + 2, values, 0);
        },
        CondView::Cmp { field, op, value } => {
            lemma_peek(e, j, toks, 0);
            lemma_peek(e, j, toks, 1);
            lemma_value(e, j + 1, value, "a value to compare against"@);
        },
        CondView::Like { field, pattern, fold } => {
            lemma_peek(e, j, toks, 0);
            lemma_peek(e, j, toks, 1);
            lemma_value(e, j + 1, LiteralView::Str(pattern), "a quoted pattern after LIKE"@);
        },
        CondView::Between { field, low, high } => {
            lemma_peek(e, j, toks, 0);
            lemma_peek(e, j, toks, 1);
            lemma_peek(e, j, toks, 2);
            lemma_peek(e, j, toks, 3);
            lemma_value(e, j + 1, low, "a lower bound"@);
            lemma_value(e, j + 3, high, "an upper bound"@);
        },
        _ => {},
    }
}

/// A test of a column reads back.
proof fn lemma_predicate(e: Env, i: int, d: int, c: CondView)
    requires
        truth_is_free(e),
        writable(c),
        !(c is And) && !(c is Or) && !(c is Not),
        stands(e, i, column_toks(tested(c)) + test_toks(c)),
    ensures
        read_predicate(e, i, d) == Ok::<(CondView, int), SqlErrorView>(
            (c, i + (column_toks(tested(c)) + test_toks(c)).len()),
        ),
        peek_at(e, i) is Some && peek_at(e, i)->0 is Quoted,
{
    let head = column_toks(tested(c));
    lemma_stands_parts(e, i, head, test_toks(c));
    lemma_peek(e, i, head, 0);
    lemma_test(e, i + head.len(), c);
    lemma_column(e, i, tested(c), "a column name"@);
}

/// A condition is at least one token.
proof fn lemma_some_tokens(c: CondView, place: Place)
    requires
        writable(c),
    ensures
        cond_toks(c, place).len() > 0,
        nests(c, place) > 0,
        !(cond_toks(c, place)[0] is Word) || cond_toks(c, place)[0] == TokView::Word("NOT"@),
    decreases c, steps(c, place),
{
    match (c, place) {
        (CondView::Or(a, b), Place::Outside) => {
            lemma_some_tokens(*a, Place::Outside);
            lemma_some_tokens(*b, Place::NextToOr);
            assert(cond_toks(c, place)[0] == cond_toks(*a, Place::Outside)[0]);
        },
        (CondView::Or(..), Place::NextToOr) => {
            lemma_some_tokens(c, Place::NextToAnd);
        },
        (CondView::Or(..), Place::NextToAnd) => {
            lemma_some_tokens(c, Place::Outside);
        },
        (CondView::And(a, b), Place::NextToOr) => {
            lemma_some_tokens(*a, Place::NextToOr);
            lemma_some_tokens(*b, Place::NextToAnd);
            assert(cond_toks(c, place)[0] == cond_toks(*a, Place::NextToOr)[0]);
        },
        (CondView::And(a, b), Place::Outside) => {
            lemma_some_tokens(*a, Place::NextToOr);
            lemma_some_tokens(c, Place::NextToOr);
            assert(cond_toks(c, place)[0] == cond_toks(*a, Place::NextToOr)[0]);
        },
        (CondView::And(a, b), Place::NextToAnd) => {
            lemma_some_tokens(c, Place::Outside);
        },
        (CondView::Not(a), _) => {
            lemma_some_tokens(*a, Place::NextToAnd);
            if !(place is NextToAnd) {
                lemma_some_tokens(
                    c,
                    if place is Outside {
                        Place::NextToOr
                    } else {
                        Place::NextToAnd
                    },
                );
            }
        },
        _ => {
            assert(cond_toks(c, place) == column_toks(tested(c)) + test_toks(c));
            assert(cond_toks(c, place)[0] is Quoted);
            if place is Outside {
                lemma_some_tokens(c, Place::NextToOr);
            }
            if place is NextToOr {
                lemma_some_tokens(c, Place::NextToAnd);
            }
        },
    }
}

/// What stands between brackets reads back.
proof fn lemma_bracketed(e: Env, i: int, d: int, c: CondView)
    requires
        truth_is_free(e),
        writable(c),
        c is Or || c is And,
        0 <= d,
        d + nests(c, Place::NextToAnd) <= MAX_DEPTH,
        stands(e, i, cond_toks(c, Place::NextToAnd)),
    ensures
        read_neg(e, i, d) == Ok::<(CondView, int), SqlErrorView>(
            (c, i + cond_toks(c, Place::NextToAnd).len()),
        ),
    decreases
            c,
            if c is Or {
                1int
            } else {
                2
            },
{
    lemma_words();
    let inner = cond_toks(c, Place::Outside);
    let toks = cond_toks(c, Place::NextToAnd);
    assert(toks == seq![TokView::LParen] + inner + seq![TokView::RParen]);
    lemma_stands_parts(e, i, seq![TokView::LParen] + inner, seq![TokView::RParen]);
    lemma_stands_parts(e, i, seq![TokView::LParen], inner);
    lemma_peek(e, i, seq![TokView::LParen], 0);
    lemma_some_tokens(c, Place::Outside);
    lemma_peek(e, i + 1, inner, 0);
    let close = i + 1 + inner.len();
    lemma_peek(e, close, seq![TokView::RParen], 0);
    lemma_outside(e, i + 1, d + 1, c);
    assert(read_cond(e, i + 1, d + 1) == more_or(e, close, d + 2, c));
    assert(more_or(e, close, d + 2, c) == Ok::<(CondView, int), SqlErrorView>((c, close)));
}

/// A condition next to an `AND` or a `NOT` reads back.
proof fn lemma_next_to_and(e: Env, i: int, d: int, c: CondView)
    requires
        truth_is_free(e),
        writable(c),
        0 <= d,
        d + nests(c, Place::NextToAnd) <= MAX_DEPTH,
        stands(e, i, cond_toks(c, Place::NextToAnd)),
    ensures
        read_neg(e, i, d) == Ok::<(CondView, int), SqlErrorView>(
            (c, i + cond_toks(c, Place::NextToAnd).len()),
        ),
    decreases
            c,
            if c is Or {
                2int
            } else if c is And {
                3
            } else {
                0
            },
{
    lemma_words();
    match c {
        CondView::Or(..) => lemma_bracketed(e, i, d, c),
        CondView::And(..) => lemma_bracketed(e, i, d, c),
        CondView::Not(a) => {
            let inner = cond_toks(*a, Place::NextToAnd);
            lemma_stands_parts(e, i, seq![TokView::Word("NOT"@)], inner);
            lemma_peek(e, i, seq![TokView::Word("NOT"@)], 0);
            lemma_some_tokens(*a, Place::NextToAnd);
            lemma_next_to_and(e, i + 1, d + 1, *a);
        },
        _ => {
            lemma_predicate(e, i, d + 1, c);
        },
    }
}

/// A condition next to an `OR` reads back.
proof fn lemma_next_to_or(e: Env, i: int, d: int, c: CondView)
    requires
        truth_is_free(e),
        writable(c),
        0 <= d,
        d + nests(c, Place::NextToOr) <= MAX_DEPTH,
        stands(e, i, cond_toks(c, Place::NextToOr)),
    ensures
        read_conj(e, i, d) == more_and(e, i + cond_toks(c, Place::NextToOr).len(), d + 1, c),
    decreases
            c,
            if c is Or {
                3int
            } else if c is And {
                0
            } else {
                1
            },
{
    lemma_words();
    lemma_some_tokens(c, Place::NextToOr);
    match c {
        CondView::And(a, b) => {
            let left = cond_toks(*a, Place::NextToOr);
            let right = cond_toks(*b, Place::NextToAnd);
            let word = seq![TokView::Word("AND"@)];
            assert(cond_toks(c, Place::NextToOr) == left + word + right);
            lemma_stands_parts(e, i, left + word, right);
            lemma_stands_parts(e, i, left, word);
            let m = i + left.len();
            lemma_peek(e, m, word, 0);
            lemma_some_tokens(*b, Place::NextToAnd);
            lemma_next_to_or(e, i, d, *a);
            lemma_next_to_and(e, m + 1, d + 1, *b);
            assert(word_at(e, m, "AND"@));
        },
        _ => {
            assert(cond_toks(c, Place::NextToOr) == cond_toks(c, Place::NextToAnd));
            lemma_next_to_and(e, i, d + 1, c);
        },
    }
}

/// A condition that stands alone reads back.
proof fn lemma_outside(e: Env, i: int, d: int, c: CondView)
    requires
        truth_is_free(e),
        writable(c),
        0 <= d,
        d + nests(c, Place::Outside) <= MAX_DEPTH,
        stands(e, i, cond_toks(c, Place::Outside)),
        !word_at(e, i + cond_toks(c, Place::Outside).len(), "AND"@),
    ensures
        read_cond(e, i, d) == more_or(e, i + cond_toks(c, Place::Outside).len(), d + 1, c),
    decreases
            c,
            if c is Or {
                0int
            } else if c is And {
                1
            } else {
                2
            },
{
    lemma_words();
    lemma_some_tokens(c, Place::Outside);
    match c {
        CondView::Or(a, b) => {
            let left = cond_toks(*a, Place::Outside);
            let right = cond_toks(*b, Place::NextToOr);
            let word = seq![TokView::Word("OR"@)];
            assert(cond_toks(c, Place::Outside) == left + word + right);
            lemma_stands_parts(e, i, left + word, right);
            lemma_stands_parts(e, i, left, word);
            let m = i + left.len();
            lemma_peek(e, m, word, 0);
            lemma_some_tokens(*b, Place::NextToOr);
            lemma_outside(e, i, d, *a);
            lemma_next_to_or(e, m + 1, d + 1, *b);
            assert(word_at(e, m, "OR"@));
        },
        _ => {
            assert(cond_toks(c, Place::Outside) == cond_toks(c, Place::NextToOr));
            lemma_next_to_or(e, i, d + 1, c);
        },
    }
}

/// A condition reads back as it was written: `NOT` binds tighter than `AND`, `AND` tighter than
/// `OR`, each of the two groups to the left, and brackets are needed nowhere else. A comparison, a
/// list, a range and a pattern read back with their column and their values.
pub proof fn a_condition_reads_back(e: Env, i: int, d: int, c: CondView)
    requires
        truth_is_free(e),
        writable(c),
        0 <= d,
        d + nests(c, Place::Outside) <= MAX_DEPTH,
        stands(e, i, cond_toks(c, Place::Outside)),
        !word_at(e, i + cond_toks(c, Place::Outside).len(), "AND"@),
        !word_at(e, i + cond_toks(c, Place::Outside).len(), "OR"@),
    ensures
        read_cond(e, i, d) == Ok::<(CondView, int), SqlErrorView>(
            (c, i + cond_toks(c, Place::Outside).len()),
        ),
{
    lemma_outside(e, i, d, c);
}

/// A column and the value it is given, as tokens.
pub open spec fn assignment_toks(a: (Seq<char>, LiteralView)) -> Seq<TokView> {
    seq![TokView::Quoted(a.0), TokView::Op("="@), value_tok(a.1)]
}

/// The assignments from one on, with commas between them.
pub open spec fn assignments_toks(all: Seq<(Seq<char>, LiteralView)>, k: int) -> Seq<TokView>
    decreases all.len() - k,
{
    if k < 0 || k >= all.len() {
        Seq::empty()
    } else if k + 1 == all.len() {
        assignment_toks(all[k])
    } else {
        assignment_toks(all[k]) + seq![TokView::Comma] + assignments_toks(all, k + 1)
    }
}

/// An assignment reads back.
proof fn lemma_assignment(e: Env, i: int, a: (Seq<char>, LiteralView))
    requires
        truth_is_free(e),
        a.0 != RECORD_COLUMN@,
        stands(e, i, assignment_toks(a)),
        !(peek_at(e, i + 3) is Some && peek_at(e, i + 3)->0 is Arith),
    ensures
        read_assignment(e, i) == Ok::<((Seq<char>, LiteralView), int), SqlErrorView>((a, i + 3)),
{
    lemma_peek(e, i, assignment_toks(a), 0);
    lemma_peek(e, i, assignment_toks(a), 1);
    lemma_peek(e, i, assignment_toks(a), 2);
    lemma_value(e, i + 2, a.1, "a value"@);
}

proof fn lemma_assignments(e: Env, i: int, all: Seq<(Seq<char>, LiteralView)>, k: int)
    requires
        truth_is_free(e),
        0 <= k < all.len(),
        forall|j: int| 0 <= j < all.len() ==> (#[trigger] all[j]).0 != RECORD_COLUMN@,
        stands(e, i, assignments_toks(all, k)),
        !tok_is(e, i + assignments_toks(all, k).len(), TokView::Comma),
        !(peek_at(e, i + assignments_toks(all, k).len()) is Some && peek_at(
            e,
            i + assignments_toks(all, k).len(),
        )->0 is Arith),
    ensures
        read_assignments(e, i, all.take(k)) == Ok::<
            (Seq<(Seq<char>, LiteralView)>, int),
            SqlErrorView,
        >((all, i + assignments_toks(all, k).len())),
    decreases all.len() - k,
{
    assert(all.take(k).push(all[k]) =~= all.take(k + 1));
    if k + 1 == all.len() {
        assert(all.take(k + 1) =~= all);
        lemma_assignment(e, i, all[k]);
    } else {
        let one = assignment_toks(all[k]);
        let rest = assignments_toks(all, k + 1);
        lemma_stands_parts(e, i, one + seq![TokView::Comma], rest);
        lemma_stands_parts(e, i, one, seq![TokView::Comma]);
        lemma_peek(e, i + 3, seq![TokView::Comma], 0);
        lemma_assignment(e, i, all[k]);
        lemma_assignments(e, i + 4, all, k + 1);
    }
}

/// The name of a table as tokens.
pub open spec fn table_toks(database: Option<Seq<char>>, table: Seq<char>) -> Seq<TokView> {
    match database {
        Some(d) => seq![TokView::Quoted(d), TokView::Dot, TokView::Quoted(table)],
        None => seq![TokView::Quoted(table)],
    }
}

proof fn lemma_table(e: Env, i: int, database: Option<Seq<char>>, table: Seq<char>, want: Seq<char>)
    requires
        stands(e, i, table_toks(database, table)),
        !tok_is(e, i + table_toks(database, table).len(), TokView::Dot),
    ensures
        read_table(e, i, want) == Ok::<((Option<Seq<char>>, Seq<char>), int), SqlErrorView>(
            ((database, table), i + table_toks(database, table).len()),
        ),
{
    let toks = table_toks(database, table);
    lemma_peek(e, i, toks, 0);
    if database is Some {
        lemma_peek(e, i, toks, 1);
        lemma_peek(e, i, toks, 2);
    }
}

/// The words that begin the clauses of a delete and an update.
proof fn lemma_clause_words()
    ensures
        same_word("WHERE"@, "WHERE"@) && same_word("FROM"@, "FROM"@) && same_word("SET"@, "SET"@),
        !same_word("WHERE"@, "USING"@),
{
    reveal_strlit("WHERE");
    reveal_strlit("USING");
    assert("WHERE"@[0] == 'W' && "USING"@[0] == 'U');
    lemma_unlike("WHERE"@, "USING"@);
}

/// A condition at the end of a statement reads back.
proof fn lemma_narrowing(e: Env, i: int, d: int, at: usize, c: CondView)
    requires
        truth_is_free(e),
        writable(c),
        0 <= d,
        d + nests(c, Place::Outside) <= MAX_DEPTH,
        stands(e, i, seq![TokView::Word("WHERE"@)] + cond_toks(c, Place::Outside)),
        e.t.len() == i + 1 + cond_toks(c, Place::Outside).len(),
    ensures
        read_narrowing(e, i, d, at) == Ok::<((CondView, Settings), int), SqlErrorView>(
            ((c, no_settings()), e.t.len() as int),
        ),
{
    lemma_clause_words();
    lemma_stands_parts(
        e,
        i,
        seq![TokView::Word("WHERE"@)],
        cond_toks(c, Place::Outside),
    );
    lemma_peek(e, i, seq![TokView::Word("WHERE"@)], 0);
    a_condition_reads_back(e, i + 1, d, c);
}

/// The tokens of an update, after `UPDATE`.
pub open spec fn update_toks(u: UpdateView) -> Seq<TokView> {
    table_toks(u.database, u.table) + seq![TokView::Word("SET"@)] + assignments_toks(
        u.assignments,
        0,
    ) + (seq![TokView::Word("WHERE"@)] + cond_toks(u.filter, Place::Outside))
}

/// The tokens of a delete, after `DELETE`.
pub open spec fn delete_toks(v: DeleteView) -> Seq<TokView> {
    seq![TokView::Word("FROM"@)] + table_toks(v.database, v.table) + (seq![
        TokView::Word("WHERE"@),
    ] + cond_toks(v.filter, Place::Outside))
}

/// An update reads back with its table, every column it assigns with its value, in order, and its
/// condition.
pub proof fn an_update_reads_back(e: Env, i: int, d: int, u: UpdateView)
    requires
        truth_is_free(e),
        writable(u.filter),
        0 <= d,
        d + nests(u.filter, Place::Outside) <= MAX_DEPTH,
        u.assignments.len() > 0,
        forall|j: int| 0 <= j < u.assignments.len() ==> (#[trigger] u.assignments[j]).0
            != RECORD_COLUMN@,
        stands(e, i, update_toks(u)),
        e.t.len() == i + update_toks(u).len(),
        u.at == offset(e, i),
    ensures
        read_update(e, i, d) == Ok::<((UpdateView, Settings), int), SqlErrorView>(
            ((u, no_settings()), e.t.len() as int),
        ),
{
    lemma_clause_words();
    let table = table_toks(u.database, u.table);
    let set = seq![TokView::Word("SET"@)];
    let all = assignments_toks(u.assignments, 0);
    let filter = seq![TokView::Word("WHERE"@)] + cond_toks(u.filter, Place::Outside);
    lemma_stands_parts(e, i, table + set + all, filter);
    lemma_stands_parts(e, i, table + set, all);
    lemma_stands_parts(e, i, table, set);
    let j = i + table.len();
    lemma_peek(e, j, set, 0);
    lemma_table(e, i, u.database, u.table, "a table name"@);
    let k = j + 1 + all.len();
    lemma_peek(e, k, filter, 0);
    assert(filter[0] == TokView::Word("WHERE"@));
    assert(u.assignments.take(0) =~= Seq::<(Seq<char>, LiteralView)>::empty());
    lemma_assignments(e, j + 1, u.assignments, 0);
    lemma_narrowing(e, k, d, offset(e, i), u.filter);
}

/// A delete reads back with its table and its condition.
pub proof fn a_delete_reads_back(e: Env, i: int, d: int, v: DeleteView)
    requires
        truth_is_free(e),
        writable(v.filter),
        0 <= d,
        d + nests(v.filter, Place::Outside) <= MAX_DEPTH,
        stands(e, i, delete_toks(v)),
        e.t.len() == i + delete_toks(v).len(),
        v.at == offset(e, i + 1),
    ensures
        read_delete(e, i, d) == Ok::<((DeleteView, Settings), int), SqlErrorView>(
            ((v, no_settings()), e.t.len() as int),
        ),
{
    lemma_clause_words();
    let from = seq![TokView::Word("FROM"@)];
    let table = table_toks(v.database, v.table);
    let filter = seq![TokView::Word("WHERE"@)] + cond_toks(v.filter, Place::Outside);
    lemma_stands_parts(e, i, from + table, filter);
    lemma_stands_parts(e, i, from, table);
    lemma_peek(e, i, from, 0);
    let j = i + 1 + table.len();
    lemma_peek(e, j, filter, 0);
    assert(filter[0] == TokView::Word("WHERE"@));
    lemma_table(e, i + 1, v.database, v.table, "a table name"@);
    lemma_narrowing(e, j, d, offset(e, i + 1), v.filter);
}

proof fn lemma_some_assigned(e: Env, i: int, before: Seq<(Seq<char>, LiteralView)>)
    ensures
        read_assignments(e, i, before) matches Ok((all, _)) ==> all.len() > before.len(),
    decreases e.t.len() - i,
{
    match moved(e, i, read_assignment(e, i)) {
        Ok((one, j)) => {
            if tok_is(e, j, TokView::Comma) {
                lemma_some_assigned(e, j + 1, before.push(one));
            }
        },
        Err(_) => {},
    }
}

/// An update that is read assigns something.
pub proof fn an_update_assigns_something(e: Env, i: int, d: int)
    ensures
        read_update(e, i, d) matches Ok(((u, _), _)) ==> u.assignments.len() > 0,
{
    match read_table(e, i, "a table name"@) {
        Ok((_, j)) => lemma_some_assigned(e, j + 1, Seq::empty()),
        Err(_) => {},
    }
}

} // verus!
