//! The clauses that end a `SELECT`, written out and read back.

use vstd::prelude::*;
use crate::ast::{Agg, HavingAggView, HavingOperandView, HavingView, OrderKeyView, OrderView, ProjView, SelectView};
use crate::error::SqlErrorView;
use crate::lex::TokView;
use crate::parse::aggregate::{read_aggregate, stem_of, LeafView, Which};
use crate::parse::cursor::{offset, peek_at, tok_is, word_at, Env, MAX_DEPTH};
use crate::parse::having::{having_term, having_terms, more_having, more_terms, read_compared, read_having, read_operand, read_order, read_order_key};
use crate::parse::select::{read_having_clause, read_limit, read_offset, read_order_clause, read_tail};
use crate::parse::writing::{column_toks, larger, lemma_column, lemma_value, lemma_words, truth_is_free, value_tok, Place};
use crate::pql::LiteralView;
use crate::readback::{lemma_peek, lemma_stands_parts, lemma_unlike, stands};
use crate::shape::Format;
use crate::text::same_word;

verus! {

/// The word of an aggregate.
pub open spec fn aggregate_word(a: HavingAggView) -> Seq<char> {
    match a {
        HavingAggView::Count => "count"@,
        HavingAggView::Agg { func: Agg::Sum, .. } => "sum"@,
        HavingAggView::Agg { func: Agg::Min, .. } => "min"@,
        HavingAggView::Agg { func: Agg::Max, .. } => "max"@,
        HavingAggView::Avg(_) => "avg"@,
    }
}

/// An aggregate as tokens.
pub open spec fn aggregate_toks(a: HavingAggView) -> Seq<TokView> {
    seq![TokView::Word(aggregate_word(a)), TokView::LParen] + (match a {
        HavingAggView::Count => seq![TokView::Star],
        HavingAggView::Agg { field, .. } => column_toks(field),
        HavingAggView::Avg(field) => column_toks(field),
    }) + seq![TokView::RParen]
}

/// What an aggregate measures.
pub open spec fn aggregate_proj(a: HavingAggView) -> ProjView {
    match a {
        HavingAggView::Count => ProjView::Count,
        HavingAggView::Agg { func, field } => ProjView::Agg { func, field },
        HavingAggView::Avg(field) => ProjView::Avg(field),
    }
}

proof fn lemma_aggregate_words(a: HavingAggView)
    ensures
        stem_of(aggregate_word(a)) == (aggregate_word(a), false),
        Which::spelled(aggregate_word(a)) == Some(
            match a {
                HavingAggView::Count => Which::Count,
                HavingAggView::Agg { func, .. } => Which::Agg(func),
                HavingAggView::Avg(_) => Which::Avg,
            },
        ),
{
    reveal_strlit("count");
    reveal_strlit("sum");
    reveal_strlit("min");
    reveal_strlit("max");
    reveal_strlit("avg");
    reveal_strlit("if");
    assert("count"@.len() == 5 && "sum"@.len() == 3 && "min"@.len() == 3 && "max"@.len() == 3
        && "avg"@.len() == 3 && "if"@.len() == 2);
    assert("sum"@[0] == 's' && "sum"@[1] == 'u' && "min"@[0] == 'm' && "min"@[1] == 'i'
        && "min"@[2] == 'n' && "max"@[0] == 'm' && "max"@[1] == 'a' && "avg"@[0] == 'a'
        && "avg"@[1] == 'v' && "count"@[3] == 'n');
    assert("if"@[0] == 'i' && "if"@[1] == 'f');
    let w = aggregate_word(a);
    let end = w.subrange(w.len() - 2, w.len() as int);
    assert(end.len() == 2 && end[0] == w[w.len() - 2] && end[1] == w[w.len() - 1]);
    lemma_unlike(end, "if"@);
    lemma_unlike(w, "count"@);
    lemma_unlike(w, "avg"@);
    lemma_unlike(w, "sum"@);
    lemma_unlike(w, "min"@);
}

/// An aggregate reads back.
proof fn lemma_aggregate(e: Env, i: int, d: int, a: HavingAggView)
    requires
        stands(e, i, aggregate_toks(a)),
    ensures
        read_aggregate(e, i + 1, d, aggregate_word(a)) == Ok::<
            (Option<LeafView>, int),
            SqlErrorView,
        >((Some(LeafView { proj: aggregate_proj(a), filter: None }), i + aggregate_toks(a).len())),
        peek_at(e, i) == Some(TokView::Word(aggregate_word(a))),
        tok_is(e, i + 1, TokView::LParen),
{
    lemma_aggregate_words(a);
    let head = seq![TokView::Word(aggregate_word(a)), TokView::LParen];
    let close = seq![TokView::RParen];
    let inner = match a {
        HavingAggView::Count => seq![TokView::Star],
        HavingAggView::Agg { field, .. } => column_toks(field),
        HavingAggView::Avg(field) => column_toks(field),
    };
    lemma_stands_parts(e, i, head + inner, close);
    lemma_stands_parts(e, i, head, inner);
    lemma_peek(e, i, head, 0);
    lemma_peek(e, i, head, 1);
    lemma_peek(e, i + 2 + inner.len(), close, 0);
    match a {
        HavingAggView::Count => {
            lemma_peek(e, i + 2, inner, 0);
        },
        HavingAggView::Agg { field, .. } => {
            lemma_column(e, i + 2, field, "a column to aggregate"@);
        },
        HavingAggView::Avg(field) => {
            lemma_column(e, i + 2, field, "a column to average"@);
        },
    }
}

/// One side of a comparison as tokens.
pub open spec fn operand_toks(o: HavingOperandView) -> Seq<TokView> {
    match o {
        HavingOperandView::Agg(a) => aggregate_toks(a),
        HavingOperandView::Value(v) => seq![value_tok(v)],
    }
}

/// Whether one side of a comparison can be written: a truth value cannot.
pub open spec fn operand_writable(o: HavingOperandView) -> bool {
    o matches HavingOperandView::Value(v) ==> !(v is Bool)
}

/// One side of a comparison reads back.
proof fn lemma_operand(e: Env, i: int, d: int, at: usize, o: HavingOperandView)
    requires
        truth_is_free(e),
        operand_writable(o),
        stands(e, i, operand_toks(o)),
    ensures
        read_operand(e, i, d, at) == Ok::<(HavingOperandView, int), SqlErrorView>(
            (o, i + operand_toks(o).len()),
        ),
        operand_toks(o).len() > 0,
{
    match o {
        HavingOperandView::Agg(a) => lemma_aggregate(e, i, d, a),
        HavingOperandView::Value(v) => {
            lemma_peek(e, i, operand_toks(o), 0);
            lemma_value(e, i, v, "a value to compare the aggregate against"@);
        },
    }
}

/// Whether two conditions over groups are the same but for where they stand.
pub open spec fn same_having(a: HavingView, b: HavingView) -> bool
    decreases a,
{
    match (a, b) {
        (HavingView::And(x, y), HavingView::And(p, q)) => same_having(*x, *p) && same_having(*y, *q),
        (HavingView::Or(x, y), HavingView::Or(p, q)) => same_having(*x, *p) && same_having(*y, *q),
        (HavingView::Not(x), HavingView::Not(p)) => same_having(*x, *p),
        (
            HavingView::Cmp { left, op, right, .. },
            HavingView::Cmp { left: l, op: o, right: r, .. },
        ) => left == l && op == o && right == r,
        _ => false,
    }
}

/// Whether a condition over groups can be written.
pub open spec fn having_writable(h: HavingView) -> bool
    decreases h,
{
    match h {
        HavingView::And(a, b) => having_writable(*a) && having_writable(*b),
        HavingView::Or(a, b) => having_writable(*a) && having_writable(*b),
        HavingView::Not(a) => having_writable(*a),
        HavingView::Cmp { left, right, .. } => operand_writable(left) && operand_writable(right),
    }
}

/// How often a place can hand a condition on before it is one it takes apart.
pub open spec fn having_steps(h: HavingView, place: Place) -> int {
    match (h, place) {
        (HavingView::Or(..), Place::Outside) => 0,
        (HavingView::Or(..), Place::NextToAnd) => 1,
        (HavingView::Or(..), Place::NextToOr) => 2,
        (HavingView::And(..), Place::NextToOr) => 0,
        (HavingView::And(..), Place::Outside) => 1,
        (HavingView::And(..), Place::NextToAnd) => 2,
        (_, Place::NextToAnd) => 0,
        (_, Place::NextToOr) => 1,
        (_, Place::Outside) => 2,
    }
}

/// A condition over groups as tokens, with brackets only where they are needed.
pub open spec fn having_toks(h: HavingView, place: Place) -> Seq<TokView>
    decreases h, having_steps(h, place),
{
    match (h, place) {
        (HavingView::Or(a, b), Place::Outside) => having_toks(*a, Place::Outside) + seq![
            TokView::Word("OR"@),
        ] + having_toks(*b, Place::NextToOr),
        (HavingView::Or(..), _) => seq![TokView::LParen] + having_toks(h, Place::Outside) + seq![
            TokView::RParen,
        ],
        (HavingView::And(a, b), Place::NextToAnd) => seq![TokView::LParen] + having_toks(
            h,
            Place::Outside,
        ) + seq![TokView::RParen],
        (HavingView::And(a, b), _) => having_toks(*a, Place::NextToOr) + seq![
            TokView::Word("AND"@),
        ] + having_toks(*b, Place::NextToAnd),
        (HavingView::Not(a), _) => seq![TokView::Word("NOT"@)] + having_toks(*a, Place::NextToAnd),
        (HavingView::Cmp { left, op, right, .. }, _) => operand_toks(left) + seq![TokView::Op(op)]
            + operand_toks(right),
    }
}

/// How deep a condition over groups nests at a place.
pub open spec fn having_nests(h: HavingView, place: Place) -> int
    decreases h, having_steps(h, place),
{
    match (h, place) {
        (HavingView::Or(a, b), Place::Outside) => 1 + larger(
            having_nests(*a, Place::Outside),
            having_nests(*b, Place::NextToOr),
        ),
        (_, Place::Outside) => 1 + having_nests(h, Place::NextToOr),
        (HavingView::And(a, b), Place::NextToOr) => 1 + larger(
            having_nests(*a, Place::NextToOr),
            having_nests(*b, Place::NextToAnd),
        ),
        (_, Place::NextToOr) => 1 + having_nests(h, Place::NextToAnd),
        (HavingView::Not(a), Place::NextToAnd) => 1 + having_nests(*a, Place::NextToAnd),
        (HavingView::Or(..), Place::NextToAnd) => 1 + having_nests(h, Place::Outside),
        (HavingView::And(..), Place::NextToAnd) => 1 + having_nests(h, Place::Outside),
        _ => 1,
    }
}

/// The first word of a condition over groups is an aggregate or a `NOT`.
proof fn lemma_first_words()
    ensures
        !same_word("count"@, "SELECT"@) && !same_word("sum"@, "SELECT"@) && !same_word(
            "min"@,
            "SELECT"@,
        ) && !same_word("max"@, "SELECT"@) && !same_word("avg"@, "SELECT"@),
        !same_word("count"@, "NOT"@) && !same_word("sum"@, "NOT"@) && !same_word("min"@, "NOT"@)
            && !same_word("max"@, "NOT"@) && !same_word("avg"@, "NOT"@),
{
    reveal_strlit("count");
    reveal_strlit("sum");
    reveal_strlit("min");
    reveal_strlit("max");
    reveal_strlit("avg");
    reveal_strlit("SELECT");
    reveal_strlit("NOT");
    assert("count"@.len() == 5 && "sum"@.len() == 3 && "min"@.len() == 3 && "max"@.len() == 3
        && "avg"@.len() == 3 && "SELECT"@.len() == 6 && "NOT"@.len() == 3);
    assert("sum"@[0] == 's' && "min"@[0] == 'm' && "max"@[0] == 'm' && "avg"@[0] == 'a' && "NOT"@[0]
        == 'N');
    lemma_unlike("count"@, "SELECT"@);
    lemma_unlike("sum"@, "SELECT"@);
    lemma_unlike("min"@, "SELECT"@);
    lemma_unlike("max"@, "SELECT"@);
    lemma_unlike("avg"@, "SELECT"@);
    lemma_unlike("count"@, "NOT"@);
    lemma_unlike("sum"@, "NOT"@);
    lemma_unlike("min"@, "NOT"@);
    lemma_unlike("max"@, "NOT"@);
    lemma_unlike("avg"@, "NOT"@);
}

/// Whether a token can begin a condition over groups.
spec fn begins(tok: TokView) -> bool {
    match tok {
        TokView::Word(w) => !same_word(w, "SELECT"@),
        _ => true,
    }
}

proof fn lemma_operand_begins(o: HavingOperandView)
    requires
        operand_writable(o),
    ensures
        operand_toks(o).len() > 0,
        begins(operand_toks(o)[0]),
        operand_toks(o)[0] != TokView::LParen,
        operand_toks(o)[0] matches TokView::Word(w) ==> !same_word(w, "NOT"@),
{
    lemma_first_words();
    match o {
        HavingOperandView::Agg(a) => {
            assert(operand_toks(o)[0] == TokView::Word(aggregate_word(a)));
        },
        _ => {},
    }
}

proof fn lemma_having_begins(h: HavingView, place: Place)
    requires
        having_writable(h),
    ensures
        having_toks(h, place).len() > 0,
        having_nests(h, place) > 0,
        begins(having_toks(h, place)[0]),
    decreases h, having_steps(h, place),
{
    lemma_words();
    match (h, place) {
        (HavingView::Or(a, b), Place::Outside) => {
            lemma_having_begins(*a, Place::Outside);
            lemma_having_begins(*b, Place::NextToOr);
            assert(having_toks(h, place)[0] == having_toks(*a, Place::Outside)[0]);
        },
        (HavingView::Or(..), Place::NextToOr) => {
            lemma_having_begins(h, Place::NextToAnd);
        },
        (HavingView::Or(..), Place::NextToAnd) => {
            lemma_having_begins(h, Place::Outside);
        },
        (HavingView::And(a, b), Place::NextToOr) => {
            lemma_having_begins(*a, Place::NextToOr);
            lemma_having_begins(*b, Place::NextToAnd);
            assert(having_toks(h, place)[0] == having_toks(*a, Place::NextToOr)[0]);
        },
        (HavingView::And(a, b), Place::Outside) => {
            lemma_having_begins(*a, Place::NextToOr);
            lemma_having_begins(h, Place::NextToOr);
            assert(having_toks(h, place)[0] == having_toks(*a, Place::NextToOr)[0]);
        },
        (HavingView::And(a, b), Place::NextToAnd) => {
            lemma_having_begins(h, Place::Outside);
        },
        (HavingView::Not(a), _) => {
            lemma_having_begins(*a, Place::NextToAnd);
            if !(place is NextToAnd) {
                lemma_having_begins(
                    h,
                    if place is Outside {
                        Place::NextToOr
                    } else {
                        Place::NextToAnd
                    },
                );
            }
        },
        (HavingView::Cmp { left, .. }, _) => {
            lemma_operand_begins(left);
            assert(having_toks(h, place)[0] == operand_toks(left)[0]);
            if place is Outside {
                lemma_having_begins(h, Place::NextToOr);
            }
            if place is NextToOr {
                lemma_having_begins(h, Place::NextToAnd);
            }
        },
    }
}

/// A comparison over groups reads back.
proof fn lemma_compared(e: Env, i: int, d: int, h: HavingView) -> (g: HavingView)
    requires
        truth_is_free(e),
        having_writable(h),
        h is Cmp,
        stands(e, i, having_toks(h, Place::NextToAnd)),
    ensures
        same_having(g, h),
        read_compared(e, i, d) == Ok::<(HavingView, int), SqlErrorView>(
            (g, i + having_toks(h, Place::NextToAnd).len()),
        ),
        !word_at(e, i, "NOT"@),
        !tok_is(e, i, TokView::LParen),
{
    let (left, op, right) = (h->Cmp_left, h->Cmp_op, h->Cmp_right);
    let a = operand_toks(left);
    let b = seq![TokView::Op(op)];
    let c = operand_toks(right);
    lemma_stands_parts(e, i, a + b, c);
    lemma_stands_parts(e, i, a, b);
    lemma_operand_begins(left);
    lemma_peek(e, i, a, 0);
    lemma_peek(e, i + a.len(), b, 0);
    lemma_operand(e, i, d, offset(e, i), left);
    lemma_operand(e, i + a.len() + 1, d, offset(e, i + a.len() + 1), right);
    HavingView::Cmp { left, op, right, at: offset(e, i) }
}

/// What stands between brackets reads back.
proof fn lemma_having_bracketed(e: Env, i: int, d: int, h: HavingView) -> (g: HavingView)
    requires
        truth_is_free(e),
        having_writable(h),
        h is Or || h is And,
        0 <= d,
        d + having_nests(h, Place::NextToAnd) <= MAX_DEPTH,
        stands(e, i, having_toks(h, Place::NextToAnd)),
    ensures
        same_having(g, h),
        having_term(e, i, d) == Ok::<(HavingView, int), SqlErrorView>(
            (g, i + having_toks(h, Place::NextToAnd).len()),
        ),
    decreases
            h,
            if h is Or {
                1int
            } else {
                2
            },
{
    let inner = having_toks(h, Place::Outside);
    let toks = having_toks(h, Place::NextToAnd);
    assert(toks == seq![TokView::LParen] + inner + seq![TokView::RParen]);
    lemma_stands_parts(e, i, seq![TokView::LParen] + inner, seq![TokView::RParen]);
    lemma_stands_parts(e, i, seq![TokView::LParen], inner);
    lemma_peek(e, i, seq![TokView::LParen], 0);
    lemma_having_begins(h, Place::Outside);
    lemma_peek(e, i + 1, inner, 0);
    let close = i + 1 + inner.len();
    lemma_peek(e, close, seq![TokView::RParen], 0);
    let g = lemma_having_outside(e, i + 1, d + 1, h);
    assert(read_having(e, i + 1, d + 1) == more_having(e, close, d + 2, g));
    assert(more_having(e, close, d + 2, g) == Ok::<(HavingView, int), SqlErrorView>((g, close)));
    g
}

/// A condition over groups next to an `AND` or a `NOT` reads back.
proof fn lemma_having_and(e: Env, i: int, d: int, h: HavingView) -> (g: HavingView)
    requires
        truth_is_free(e),
        having_writable(h),
        0 <= d,
        d + having_nests(h, Place::NextToAnd) <= MAX_DEPTH,
        stands(e, i, having_toks(h, Place::NextToAnd)),
    ensures
        same_having(g, h),
        having_term(e, i, d) == Ok::<(HavingView, int), SqlErrorView>(
            (g, i + having_toks(h, Place::NextToAnd).len()),
        ),
    decreases
            h,
            if h is Or {
                2int
            } else if h is And {
                3
            } else {
                0
            },
{
    lemma_words();
    match h {
        HavingView::Or(..) => lemma_having_bracketed(e, i, d, h),
        HavingView::And(..) => lemma_having_bracketed(e, i, d, h),
        HavingView::Not(a) => {
            let inner = having_toks(*a, Place::NextToAnd);
            lemma_stands_parts(e, i, seq![TokView::Word("NOT"@)], inner);
            lemma_peek(e, i, seq![TokView::Word("NOT"@)], 0);
            let g = lemma_having_and(e, i + 1, d + 1, *a);
            HavingView::Not(Box::new(g))
        },
        HavingView::Cmp { .. } => lemma_compared(e, i, d + 1, h),
    }
}

/// A condition over groups next to an `OR` reads back.
proof fn lemma_having_or(e: Env, i: int, d: int, h: HavingView) -> (g: HavingView)
    requires
        truth_is_free(e),
        having_writable(h),
        0 <= d,
        d + having_nests(h, Place::NextToOr) <= MAX_DEPTH,
        stands(e, i, having_toks(h, Place::NextToOr)),
    ensures
        same_having(g, h),
        having_terms(e, i, d) == more_terms(
            e,
            i + having_toks(h, Place::NextToOr).len(),
            d + 1,
            g,
        ),
    decreases
            h,
            if h is Or {
                3int
            } else if h is And {
                0
            } else {
                1
            },
{
    lemma_words();
    lemma_having_begins(h, Place::NextToOr);
    match h {
        HavingView::And(a, b) => {
            let left = having_toks(*a, Place::NextToOr);
            let right = having_toks(*b, Place::NextToAnd);
            let word = seq![TokView::Word("AND"@)];
            assert(having_toks(h, Place::NextToOr) == left + word + right);
            lemma_stands_parts(e, i, left + word, right);
            lemma_stands_parts(e, i, left, word);
            let m = i + left.len();
            lemma_peek(e, m, word, 0);
            lemma_having_begins(*b, Place::NextToAnd);
            let x = lemma_having_or(e, i, d, *a);
            let y = lemma_having_and(e, m + 1, d + 1, *b);
            assert(word_at(e, m, "AND"@));
            HavingView::And(Box::new(x), Box::new(y))
        },
        _ => {
            assert(having_toks(h, Place::NextToOr) == having_toks(h, Place::NextToAnd));
            lemma_having_and(e, i, d + 1, h)
        },
    }
}

/// A condition over groups that stands alone reads back.
proof fn lemma_having_outside(e: Env, i: int, d: int, h: HavingView) -> (g: HavingView)
    requires
        truth_is_free(e),
        having_writable(h),
        0 <= d,
        d + having_nests(h, Place::Outside) <= MAX_DEPTH,
        stands(e, i, having_toks(h, Place::Outside)),
        !word_at(e, i + having_toks(h, Place::Outside).len(), "AND"@),
    ensures
        same_having(g, h),
        read_having(e, i, d) == more_having(
            e,
            i + having_toks(h, Place::Outside).len(),
            d + 1,
            g,
        ),
    decreases
            h,
            if h is Or {
                0int
            } else if h is And {
                1
            } else {
                2
            },
{
    lemma_words();
    lemma_having_begins(h, Place::Outside);
    match h {
        HavingView::Or(a, b) => {
            let left = having_toks(*a, Place::Outside);
            let right = having_toks(*b, Place::NextToOr);
            let word = seq![TokView::Word("OR"@)];
            assert(having_toks(h, Place::Outside) == left + word + right);
            lemma_stands_parts(e, i, left + word, right);
            lemma_stands_parts(e, i, left, word);
            let m = i + left.len();
            lemma_peek(e, m, word, 0);
            lemma_having_begins(*b, Place::NextToOr);
            let x = lemma_having_outside(e, i, d, *a);
            let y = lemma_having_or(e, m + 1, d + 1, *b);
            assert(word_at(e, m, "OR"@));
            HavingView::Or(Box::new(x), Box::new(y))
        },
        _ => {
            assert(having_toks(h, Place::Outside) == having_toks(h, Place::NextToOr));
            lemma_having_or(e, i, d + 1, h)
        },
    }
}

/// A `HAVING` reads back as it was written, but for where each comparison stands: `NOT` binds
/// tighter than `AND`, `AND` tighter than `OR`, and each comparison has its own two sides in order.
pub proof fn a_having_reads_back(e: Env, i: int, d: int, h: HavingView)
    requires
        truth_is_free(e),
        having_writable(h),
        0 <= d,
        d + having_nests(h, Place::Outside) <= MAX_DEPTH,
        stands(e, i, having_toks(h, Place::Outside)),
        !word_at(e, i + having_toks(h, Place::Outside).len(), "AND"@),
        !word_at(e, i + having_toks(h, Place::Outside).len(), "OR"@),
    ensures
        read_having(e, i, d) matches Ok((g, j)) && same_having(g, h) && j == i + having_toks(
            h,
            Place::Outside,
        ).len(),
{
    let g = lemma_having_outside(e, i, d, h);
}

// The order and the cut.

/// What an `ORDER BY` names, as tokens.
pub open spec fn order_key_toks(key: OrderKeyView) -> Seq<TokView> {
    match key {
        OrderKeyView::Count => aggregate_toks(HavingAggView::Count),
        OrderKeyView::Agg { func, field } => aggregate_toks(HavingAggView::Agg { func, field }),
        OrderKeyView::Avg(field) => aggregate_toks(HavingAggView::Avg(field)),
        OrderKeyView::Name(n) => column_toks(n),
    }
}

/// An order as tokens.
pub open spec fn order_toks(o: OrderView) -> Seq<TokView> {
    order_key_toks(o.key) + seq![
        TokView::Word(
            if o.desc {
                "DESC"@
            } else {
                "ASC"@
            },
        ),
    ]
}

proof fn lemma_direction_words()
    ensures
        same_word("DESC"@, "DESC"@) && same_word("ASC"@, "ASC"@) && !same_word("ASC"@, "DESC"@),
{
    reveal_strlit("DESC");
    reveal_strlit("ASC");
    assert("DESC"@.len() == 4 && "ASC"@.len() == 3);
    lemma_unlike("ASC"@, "DESC"@);
}

/// An `ORDER BY` reads back with what it names and its direction.
pub proof fn an_order_reads_back(e: Env, i: int, d: int, o: OrderView)
    requires
        stands(e, i, order_toks(o)),
        !tok_is(e, i + order_toks(o).len(), TokView::Comma),
        o.at == offset(e, i),
    ensures
        read_order(e, i, d) == Ok::<(OrderView, int), SqlErrorView>((o, i + order_toks(o).len())),
{
    lemma_direction_words();
    let key = order_key_toks(o.key);
    let word = seq![
        TokView::Word(
            if o.desc {
                "DESC"@
            } else {
                "ASC"@
            },
        ),
    ];
    lemma_stands_parts(e, i, key, word);
    lemma_peek(e, i + key.len(), word, 0);
    match o.key {
        OrderKeyView::Count => lemma_aggregate(e, i, d, HavingAggView::Count),
        OrderKeyView::Agg { func, field } => lemma_aggregate(
            e,
            i,
            d,
            HavingAggView::Agg { func, field },
        ),
        OrderKeyView::Avg(field) => lemma_aggregate(e, i, d, HavingAggView::Avg(field)),
        OrderKeyView::Name(n) => {
            lemma_column(e, i, n, "a column, an alias, or an aggregate"@);
        },
    }
    assert(read_order_key(e, i, d) == Ok::<(OrderKeyView, int), SqlErrorView>(
        (o.key, i + key.len()),
    ));
}

/// The clauses after the groups of a statement, as tokens.
pub open spec fn having_clause_toks(s: SelectView) -> Seq<TokView> {
    match s.having {
        Some(h) => seq![TokView::Word("HAVING"@)] + having_toks(h, Place::Outside),
        None => Seq::empty(),
    }
}

/// `ORDER BY`, when there is one.
pub open spec fn order_clause_toks(s: SelectView) -> Seq<TokView> {
    match s.order_by {
        Some(o) => seq![TokView::Word("ORDER"@), TokView::Word("BY"@)] + order_toks(o),
        None => Seq::empty(),
    }
}

/// `LIMIT` and its ties, when there is one.
pub open spec fn limit_toks(s: SelectView) -> Seq<TokView> {
    match s.limit {
        Some(n) => seq![TokView::Word("LIMIT"@), TokView::Num(LiteralView::Int(n))] + if s.with_ties {
            seq![TokView::Word("WITH"@), TokView::Word("TIES"@)]
        } else {
            Seq::empty()
        },
        None => Seq::empty(),
    }
}

/// `OFFSET`, when there is one.
pub open spec fn offset_toks(s: SelectView) -> Seq<TokView> {
    match s.offset {
        Some(n) => seq![TokView::Word("OFFSET"@), TokView::Num(LiteralView::Int(n))],
        None => Seq::empty(),
    }
}

proof fn lemma_tail_words()
    ensures
        same_word("HAVING"@, "HAVING"@) && same_word("ORDER"@, "ORDER"@) && same_word("BY"@, "BY"@)
            && same_word("LIMIT"@, "LIMIT"@) && same_word("WITH"@, "WITH"@) && same_word(
            "TIES"@,
            "TIES"@,
        ) && same_word("OFFSET"@, "OFFSET"@),
        !same_word("ORDER"@, "HAVING"@) && !same_word("LIMIT"@, "HAVING"@) && !same_word(
            "OFFSET"@,
            "HAVING"@,
        ),
        !same_word("LIMIT"@, "ORDER"@) && !same_word("OFFSET"@, "ORDER"@) && !same_word(
            "OFFSET"@,
            "LIMIT"@,
        ) && !same_word("OFFSET"@, "WITH"@),
        !same_word("ORDER"@, "AND"@) && !same_word("ORDER"@, "OR"@) && !same_word("LIMIT"@, "AND"@)
            && !same_word("LIMIT"@, "OR"@) && !same_word("OFFSET"@, "AND"@) && !same_word(
            "OFFSET"@,
            "OR"@,
        ),
{
    reveal_strlit("HAVING");
    reveal_strlit("ORDER");
    reveal_strlit("LIMIT");
    reveal_strlit("OFFSET");
    reveal_strlit("WITH");
    reveal_strlit("AND");
    reveal_strlit("OR");
    assert("HAVING"@.len() == 6 && "ORDER"@.len() == 5 && "LIMIT"@.len() == 5 && "OFFSET"@.len()
        == 6 && "WITH"@.len() == 4 && "AND"@.len() == 3 && "OR"@.len() == 2);
    assert("HAVING"@[0] == 'H' && "OFFSET"@[0] == 'O' && "ORDER"@[0] == 'O' && "LIMIT"@[0] == 'L');
    lemma_unlike("ORDER"@, "HAVING"@);
    lemma_unlike("LIMIT"@, "HAVING"@);
    lemma_unlike("OFFSET"@, "HAVING"@);
    lemma_unlike("LIMIT"@, "ORDER"@);
    lemma_unlike("OFFSET"@, "ORDER"@);
    lemma_unlike("OFFSET"@, "LIMIT"@);
    lemma_unlike("OFFSET"@, "WITH"@);
    lemma_unlike("ORDER"@, "AND"@);
    lemma_unlike("ORDER"@, "OR"@);
    lemma_unlike("LIMIT"@, "AND"@);
    lemma_unlike("LIMIT"@, "OR"@);
    lemma_unlike("OFFSET"@, "AND"@);
    lemma_unlike("OFFSET"@, "OR"@);
}

/// Whether what stands at a position is the end, or one of some words.
spec fn then(e: Env, i: int, order: bool, limit: bool) -> bool {
    match peek_at(e, i) {
        None => true,
        Some(TokView::Word(w)) => (order && w == "ORDER"@) || (limit && w == "LIMIT"@) || w
            == "OFFSET"@,
        _ => false,
    }
}

/// An `OFFSET` reads back.
proof fn lemma_offset_clause(e: Env, l: int, s: SelectView)
    requires
        0 <= l,
        stands(e, l, offset_toks(s)),
        e.t.len() == l + offset_toks(s).len(),
    ensures
        read_offset(e, l) == Ok::<(Option<u64>, int), SqlErrorView>((s.offset, e.t.len() as int)),
        then(e, l, false, false),
{
    lemma_tail_words();
    if s.offset is Some {
        lemma_peek(e, l, offset_toks(s), 0);
        lemma_peek(e, l, offset_toks(s), 1);
    }
}

/// A `LIMIT` reads back.
proof fn lemma_limit_clause(e: Env, k: int, s: SelectView)
    requires
        stands(e, k, limit_toks(s)),
        then(e, k + limit_toks(s).len(), false, false),
        s.with_ties ==> s.limit is Some && s.order_by is Some,
    ensures
        read_limit(e, k, s.order_by is Some) == Ok::<((Option<u64>, bool), int), SqlErrorView>(
            ((s.limit, s.with_ties), k + limit_toks(s).len()),
        ),
        then(e, k, false, true),
{
    lemma_tail_words();
    let c = limit_toks(s);
    if s.limit is Some {
        lemma_peek(e, k, c, 0);
        lemma_peek(e, k, c, 1);
        if s.with_ties {
            lemma_peek(e, k, c, 2);
            lemma_peek(e, k, c, 3);
        } else {
            assert(c.len() == 2);
        }
    }
}

/// An `ORDER BY` clause reads back.
proof fn lemma_order_clause(e: Env, j: int, d: int, s: SelectView)
    requires
        stands(e, j, order_clause_toks(s)),
        then(e, j + order_clause_toks(s).len(), false, true),
        s.order_by matches Some(o) ==> o.at == offset(e, j + 2),
    ensures
        read_order_clause(e, j, d) == Ok::<(Option<OrderView>, int), SqlErrorView>(
            (s.order_by, j + order_clause_toks(s).len()),
        ),
        then(e, j, true, true),
{
    lemma_tail_words();
    if let Some(o) = s.order_by {
        let words = seq![TokView::Word("ORDER"@), TokView::Word("BY"@)];
        lemma_stands_parts(e, j, words, order_toks(o));
        lemma_peek(e, j, words, 0);
        lemma_peek(e, j, words, 1);
        an_order_reads_back(e, j + 2, d, o);
    }
}

/// A `HAVING` clause reads back.
proof fn lemma_having_clause(e: Env, i: int, d: int, s: SelectView)
    requires
        truth_is_free(e),
        0 <= d,
        s.having matches Some(h) ==> having_writable(h) && d + having_nests(h, Place::Outside)
            <= MAX_DEPTH,
        stands(e, i, having_clause_toks(s)),
        then(e, i + having_clause_toks(s).len(), true, true),
    ensures
        read_having_clause(e, i, d) matches Ok((r, j)) && j == i + having_clause_toks(s).len()
            && r is Some == s.having is Some && (s.having matches Some(h) ==> same_having(r->0, h)),
{
    lemma_tail_words();
    if let Some(h) = s.having {
        let word = seq![TokView::Word("HAVING"@)];
        lemma_stands_parts(e, i, word, having_toks(h, Place::Outside));
        lemma_peek(e, i, word, 0);
        a_having_reads_back(e, i + 1, d, h);
    }
}

/// The clauses that end a `SELECT` read back: its `HAVING`, what its `ORDER BY` names and in which
/// direction, its `LIMIT` and whether ties are kept, and its `OFFSET`, each as it was written and
/// none where none was.
pub proof fn the_end_of_a_select_reads_back(e: Env, i: int, d: int, head: SelectView, s: SelectView)
    requires
        truth_is_free(e),
        0 <= i <= e.t.len(),
        0 <= d,
        s.having matches Some(h) ==> having_writable(h) && d + having_nests(h, Place::Outside)
            <= MAX_DEPTH,
        s.order_by matches Some(o) ==> o.at == offset(
            e,
            i + having_clause_toks(s).len() + 2,
        ),
        s.with_ties ==> s.limit is Some && s.order_by is Some,
        stands(
            e,
            i,
            having_clause_toks(s) + order_clause_toks(s) + limit_toks(s) + offset_toks(s),
        ),
        e.t.len() == i + having_clause_toks(s).len() + order_clause_toks(s).len() + limit_toks(
            s,
        ).len() + offset_toks(s).len(),
    ensures
        read_tail(e, i, d, head) matches Ok((r, j)) && {
            &&& j == e.t.len()
            &&& r.having is Some == s.having is Some
            &&& s.having matches Some(h) ==> same_having(r.having->0, h)
            &&& r == SelectView {
                having: r.having,
                order_by: s.order_by,
                limit: s.limit,
                with_ties: s.with_ties,
                offset: s.offset,
                format: Format::Json,
                ..head
            }
        },
{
    let a = having_clause_toks(s);
    let b = order_clause_toks(s);
    let c = limit_toks(s);
    let x = offset_toks(s);
    lemma_stands_parts(e, i, a + b + c, x);
    lemma_stands_parts(e, i, a + b, c);
    lemma_stands_parts(e, i, a, b);
    let j = i + a.len();
    let k = j + b.len();
    lemma_offset_clause(e, k + c.len(), s);
    lemma_limit_clause(e, k, s);
    lemma_order_clause(e, j, d, s);
    lemma_having_clause(e, i, d, s);
}

} // verus!
