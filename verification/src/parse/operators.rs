//! Expressions with operators, written out and read back.

use vstd::prelude::*;
use crate::ast::NameView;
use crate::error::SqlErrorView;
use crate::lex::TokView;
use crate::parse::aggregate::LeafView;
use crate::parse::cursor::{peek_at, tok_is, Env};
use crate::parse::scalar::{column_leaf, infix_at, more_infix, read_climb, read_primary, read_unary, Expr};
use crate::parse::writing::{column_toks, lemma_column, lemma_value, lemma_words, truth_is_free, value_tok};
use crate::readback::{lemma_peek, lemma_stands_parts, stands};
use crate::scalar::{BinOp, ScalarView};

verus! {

/// How tightly an operator binds: products before sums, sums before comparisons, comparisons
/// before `AND`, and `AND` before `OR`.
pub open spec fn binds(op: BinOp) -> int {
    match op {
        BinOp::Or => 1,
        BinOp::And => 2,
        BinOp::Eq => 3,
        BinOp::Ne => 3,
        BinOp::Lt => 3,
        BinOp::Le => 3,
        BinOp::Gt => 3,
        BinOp::Ge => 3,
        BinOp::Add => 4,
        BinOp::Sub => 4,
        BinOp::Mul => 5,
        BinOp::Div => 5,
        BinOp::Rem => 5,
    }
}

/// An operator as a token.
pub open spec fn op_tok(op: BinOp) -> TokView {
    match op {
        BinOp::Or => TokView::Word("OR"@),
        BinOp::And => TokView::Word("AND"@),
        BinOp::Eq => TokView::Op("="@),
        BinOp::Ne => TokView::Op("!="@),
        BinOp::Lt => TokView::Op("<"@),
        BinOp::Le => TokView::Op("<="@),
        BinOp::Gt => TokView::Op(">"@),
        BinOp::Ge => TokView::Op(">="@),
        BinOp::Add => TokView::Arith("+"@),
        BinOp::Sub => TokView::Arith("-"@),
        BinOp::Mul => TokView::Star,
        BinOp::Div => TokView::Arith("/"@),
        BinOp::Rem => TokView::Arith("%"@),
    }
}

/// Whether an expression is made of a column, constants and operators between two of them.
pub open spec fn operated(x: ScalarView) -> bool
    decreases x,
{
    match x {
        ScalarView::Value => true,
        ScalarView::Literal(v) => v is Int || v is Str,
        ScalarView::Binary { left, right, .. } => operated(*left) && operated(*right),
        _ => false,
    }
}

/// An expression over a column as tokens, where anything that binds less tightly than a place
/// wants is in brackets.
pub open spec fn expr_toks(x: ScalarView, n: NameView, place: int) -> Seq<TokView>
    decreases
            x,
            if x matches ScalarView::Binary { op, .. } && binds(op) < place {
                1int
            } else {
                0
            },
{
    match x {
        ScalarView::Value => column_toks(n),
        ScalarView::Literal(v) => seq![value_tok(v)],
        ScalarView::Binary { op, left, right } => if binds(op) < place {
            seq![TokView::LParen] + expr_toks(x, n, 0) + seq![TokView::RParen]
        } else {
            expr_toks(*left, n, binds(op)) + seq![op_tok(op)] + expr_toks(*right, n, binds(op) + 1)
        },
        _ => Seq::empty(),
    }
}

/// How often an expression names the column.
pub open spec fn named(x: ScalarView) -> nat
    decreases x,
{
    match x {
        ScalarView::Value => 1,
        ScalarView::Binary { left, right, .. } => named(*left) + named(*right),
        _ => 0,
    }
}

/// A column so many times.
pub open spec fn leaves(n: NameView, count: nat) -> Seq<LeafView> {
    Seq::new(count, |k: int| column_leaf(n))
}

/// An operator reads back, and binds as tightly as it should.
proof fn lemma_op(e: Env, i: int, op: BinOp)
    requires
        peek_at(e, i) == Some(op_tok(op)),
    ensures
        infix_at(e, i) == Some(op),
        op.strength() == binds(op),
{
    lemma_words();
    reveal_strlit("=");
    reveal_strlit("!=");
    reveal_strlit("<");
    reveal_strlit("<=");
    reveal_strlit(">");
    reveal_strlit(">=");
    reveal_strlit("+");
    reveal_strlit("-");
    reveal_strlit("/");
    reveal_strlit("%");
    assert("="@.len() == 1 && "="@[0] == '=');
    assert("!="@.len() == 2 && "!="@[0] == '!');
    assert("<"@.len() == 1 && "<"@[0] == '<');
    assert("<="@.len() == 2 && "<="@[0] == '<');
    assert(">"@.len() == 1 && ">"@[0] == '>');
    assert(">="@.len() == 2 && ">="@[0] == '>');
    assert("+"@[0] == '+' && "-"@[0] == '-' && "/"@[0] == '/' && "%"@[0] == '%');
}

/// Whether what follows an expression goes on with nothing that binds more tightly than a place.
pub open spec fn stops(e: Env, i: int, place: int) -> bool {
    &&& infix_at(e, i) matches Some(op) ==> op.strength() <= place
    &&& !tok_is(e, i, TokView::Dot)
    &&& !tok_is(e, i, TokView::LParen)
}

proof fn lemma_some(x: ScalarView, n: NameView, place: int)
    requires
        operated(x),
    ensures
        expr_toks(x, n, place).len() > 0,
        expr_toks(x, n, place)[0] is Quoted || expr_toks(x, n, place)[0] is Num || expr_toks(
            x,
            n,
            place,
        )[0] is Str || expr_toks(x, n, place)[0] is LParen,
    decreases
            x,
            if x matches ScalarView::Binary { op, .. } && binds(op) < place {
                1int
            } else {
                0
            },
{
    match x {
        ScalarView::Binary { op, left, right } => {
            if binds(op) < place {
                lemma_some(x, n, 0);
                assert(expr_toks(x, n, place)[0] == TokView::LParen);
            } else {
                lemma_some(*left, n, binds(op));
                assert(expr_toks(x, n, place)[0] == expr_toks(*left, n, binds(op))[0]);
            }
        },
        _ => {},
    }
}

/// A constant or the column reads back.
proof fn lemma_leaf(e: Env, i: int, d: int, lv: Seq<LeafView>, x: ScalarView, n: NameView, place: int)
    requires
        truth_is_free(e),
        operated(x),
        !(x is Binary),
        stands(e, i, expr_toks(x, n, place)),
        stops(e, i + expr_toks(x, n, place).len(), place),
    ensures
        read_unary(e, i, d, lv) == Ok::<(Expr, int), SqlErrorView>(
            ((x, lv + leaves(n, named(x))), i + expr_toks(x, n, place).len()),
        ),
{
    let toks = expr_toks(x, n, place);
    lemma_peek(e, i, toks, 0);
    match x {
        ScalarView::Value => {
            lemma_column(e, i, n, "a column, a value or a function"@);
            assert(lv + leaves(n, 1) =~= lv.push(column_leaf(n)));
            assert(read_primary(e, i, d, lv) == Ok::<(Expr, int), SqlErrorView>(
                ((x, lv.push(column_leaf(n))), i + toks.len()),
            ));
        },
        ScalarView::Literal(v) => {
            lemma_value(e, i, v, "a value"@);
            assert(lv + leaves(n, 0) =~= lv);
        },
        _ => {},
    }
}

/// An expression reads back, and what follows is left to go on from it.
proof fn lemma_climb(
    e: Env,
    i: int,
    d: int,
    min: int,
    lv: Seq<LeafView>,
    x: ScalarView,
    n: NameView,
    place: int,
)
    requires
        truth_is_free(e),
        operated(x),
        0 <= min <= place,
        stands(e, i, expr_toks(x, n, place)),
        stops(e, i + expr_toks(x, n, place).len(), place),
    ensures
        read_climb(e, i, d, min, lv) == more_infix(
            e,
            i + expr_toks(x, n, place).len(),
            d,
            min,
            x,
            lv + leaves(n, named(x)),
        ),
    decreases
            x,
            if x matches ScalarView::Binary { op, .. } && binds(op) < place {
                1int
            } else {
                0
            },
{
    let toks = expr_toks(x, n, place);
    let end = i + toks.len();
    lemma_some(x, n, place);
    match x {
        ScalarView::Binary { op, left, right } => {
            if binds(op) < place {
                let inner = expr_toks(x, n, 0);
                lemma_stands_parts(e, i, seq![TokView::LParen] + inner, seq![TokView::RParen]);
                lemma_stands_parts(e, i, seq![TokView::LParen], inner);
                lemma_peek(e, i, seq![TokView::LParen], 0);
                let close = i + 1 + inner.len();
                lemma_peek(e, close, seq![TokView::RParen], 0);
                assert(infix_at(e, close) is None);
                lemma_climb(e, i + 1, d, 0, lv, x, n, 0);
                assert(read_primary(e, i, d, lv) == Ok::<(Expr, int), SqlErrorView>(
                    ((x, lv + leaves(n, named(x))), end),
                ));
                assert(read_unary(e, i, d, lv) == read_primary(e, i, d, lv));
            } else {
                let l = expr_toks(*left, n, binds(op));
                let o = seq![op_tok(op)];
                let r = expr_toks(*right, n, binds(op) + 1);
                lemma_stands_parts(e, i, l + o, r);
                lemma_stands_parts(e, i, l, o);
                let m = i + l.len();
                lemma_peek(e, m, o, 0);
                lemma_op(e, m, op);
                lemma_some(*right, n, binds(op) + 1);
                lemma_climb(e, i, d, min, lv, *left, n, binds(op));
                let mid = lv + leaves(n, named(*left));
                lemma_climb(e, m + 1, d, binds(op) + 1, mid, *right, n, binds(op) + 1);
                let last = mid + leaves(n, named(*right));
                assert(last =~= lv + leaves(n, named(x)));
                assert(more_infix(e, end, d, binds(op) + 1, *right, last) == Ok::<
                    (Expr, int),
                    SqlErrorView,
                >(((*right, last), end)));
                assert(read_climb(e, m + 1, d, binds(op) + 1, mid) == Ok::<
                    (Expr, int),
                    SqlErrorView,
                >(((*right, last), end)));
            }
        },
        _ => {
            lemma_leaf(e, i, d, lv, x, n, place);
        },
    }
}

/// An expression reads back as it was written: `*`, `/` and `%` bind tighter than `+` and `-`,
/// those tighter than a comparison, a comparison tighter than `AND`, and `AND` tighter than `OR`;
/// operators that bind alike group to the left, and brackets are needed nowhere else.
pub proof fn an_expression_reads_back(
    e: Env,
    i: int,
    d: int,
    lv: Seq<LeafView>,
    x: ScalarView,
    n: NameView,
)
    requires
        truth_is_free(e),
        operated(x),
        stands(e, i, expr_toks(x, n, 0)),
        infix_at(e, i + expr_toks(x, n, 0).len()) is None,
        !tok_is(e, i + expr_toks(x, n, 0).len(), TokView::Dot),
        !tok_is(e, i + expr_toks(x, n, 0).len(), TokView::LParen),
    ensures
        read_climb(e, i, d, 0, lv) == Ok::<(Expr, int), SqlErrorView>(
            ((x, lv + leaves(n, named(x))), i + expr_toks(x, n, 0).len()),
        ),
{
    lemma_climb(e, i, d, 0, lv, x, n, 0);
}

} // verus!
