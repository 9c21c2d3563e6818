//! The expression half of a select-list entry.
//!
//! Precedence climbing, with one wrinkle: the operand at the bottom may be an aggregate. `avg(x)`
//! and `x` are both the one number an entry is about, so both are read here into the same leaf,
//! and which of them it was is carried out for the caller to plan.

use vstd::prelude::*;
use crate::ast::{Proj, ProjView};
use crate::civil::Unit;
use crate::error::{Refused, Result, SqlError, SqlErrorView};
use crate::lex::{negate, negated, Tok, TokView};
use crate::parse::aggregate::{call_refusal, read_aggregate, unsupported_call, Leaf, LeafView};
use crate::parse::cursor::{expected, goes, moved, offset, peek_at, read_ident, read_literal, read_name, refusal, refused, shown, tok_is, word_at, Env, Out, Parser};
use crate::pql::{Literal, LiteralView};
use crate::scalar::{BinOp, Func, Scalar, ScalarView, UnOp};
use crate::text::{same_word, views};

verus! {

/// An expression, and the leaves met up to its end.
pub type Expr = (ScalarView, Seq<LeafView>);

/// The infix operator at a position.
pub open spec fn infix_at(e: Env, i: int) -> Option<BinOp> {
    match peek_at(e, i) {
        Some(TokView::Op(o)) => BinOp::compare_of(o),
        Some(TokView::Arith(o)) => BinOp::arith_of(o),
        Some(TokView::Star) => Some(BinOp::Mul),
        Some(TokView::Word(w)) => if same_word(w, "AND"@) {
            Some(BinOp::And)
        } else if same_word(w, "OR"@) {
            Some(BinOp::Or)
        } else {
            None
        },
        _ => None,
    }
}

/// An operand, and every operator after it that binds at least as tightly as `min`.
pub open spec fn read_climb(e: Env, i: int, d: int, min: int, lv: Seq<LeafView>) -> Out<Expr>
    decreases e.t.len() - i, 5int,
{
    match moved(e, i, read_unary(e, i, d, lv)) {
        Err(x) => Err(x),
        Ok(((left, lv2), j)) => more_infix(e, j, d, min, left, lv2),
    }
}

/// The operators after an operand. Left-associative: a right-hand side stops at anything that
/// binds as loosely as its own operator.
pub open spec fn more_infix(
    e: Env,
    i: int,
    d: int,
    min: int,
    left: ScalarView,
    lv: Seq<LeafView>,
) -> Out<Expr>
    decreases e.t.len() - i, 5int,
{
    match infix_at(e, i) {
        Some(op) => if op.strength() < min {
            Ok(((left, lv), i))
        } else {
            match moved(e, i + 1, read_climb(e, i + 1, d, op.strength() + 1, lv)) {
                Err(x) => Err(x),
                Ok(((right, lv2), j)) => more_infix(
                    e,
                    j,
                    d,
                    min,
                    ScalarView::Binary { op, left: Box::new(left), right: Box::new(right) },
                    lv2,
                ),
            }
        },
        None => Ok(((left, lv), i)),
    }
}

/// An operator around what was read.
pub open spec fn signed(op: UnOp, r: Out<Expr>) -> Out<Expr> {
    match r {
        Err(x) => Err(x),
        Ok(((arg, lv), j)) => Ok(((ScalarView::Unary { op, arg: Box::new(arg) }, lv), j)),
    }
}

/// `-x`, `NOT x`, or an operand. A `-` in front of a number is the number's sign.
pub open spec fn read_unary(e: Env, i: int, d: int, lv: Seq<LeafView>) -> Out<Expr>
    decreases e.t.len() - i, 4int,
{
    if tok_is(e, i, TokView::Arith("-"@)) {
        match peek_at(e, i + 1) {
            Some(TokView::Num(n)) => match negated(n, offset(e, i + 1) as nat) {
                Err(x) => Err(x),
                Ok(v) => Ok(((ScalarView::Literal(v), lv), i + 2)),
            },
            _ => signed(UnOp::Neg, read_unary(e, i + 1, d, lv)),
        }
    } else if word_at(e, i, "NOT"@) {
        signed(UnOp::Not, read_unary(e, i + 1, d, lv))
    } else {
        read_primary(e, i, d, lv)
    }
}

/// A literal, a bracketed expression, a `CASE`, a `CAST`, a call, or the column.
pub open spec fn read_primary(e: Env, i: int, d: int, lv: Seq<LeafView>) -> Out<Expr>
    decreases e.t.len() - i, 3int,
{
    if tok_is(e, i, TokView::LParen) {
        match read_climb(e, i + 1, d, 0, lv) {
            Err(x) => Err(x),
            Ok((inner, j)) => if tok_is(e, j, TokView::RParen) {
                Ok((inner, j + 1))
            } else {
                Err(expected(e, j, ") to close the expression"@))
            },
        }
    } else if peek_at(e, i) is Some && (peek_at(e, i)->0 is Num || peek_at(e, i)->0 is Str) {
        match read_literal(e, i, "a value"@) {
            Err(x) => Err(x),
            Ok((v, j)) => Ok(((ScalarView::Literal(v), lv), j)),
        }
    } else if word_at(e, i, "CASE"@) {
        read_case(e, i, d, lv)
    } else if word_at(e, i, "CAST"@) {
        read_cast(e, i, d, lv)
    } else if word_at(e, i, "NULL"@) {
        Err(refused(e, i, Refused::Null))
    } else if word_at(e, i, "TRUE"@) {
        Ok(((ScalarView::Literal(LiteralView::Bool(true)), lv), i + 1))
    } else if word_at(e, i, "FALSE"@) {
        Ok(((ScalarView::Literal(LiteralView::Bool(false)), lv), i + 1))
    } else {
        match read_name(e, i, "a column, a value or a function"@) {
            Err(x) => Err(x),
            Ok((name, j)) => if name.qualifier is Some {
                if tok_is(e, j, TokView::LParen) {
                    Err(expected(e, j, "a column, not a call on a qualified name"@))
                } else {
                    Ok(((ScalarView::Value, lv.push(column_leaf(name))), j))
                }
            } else {
                match read_aggregate(e, j, d, name.column) {
                    Err(x) => Err(x),
                    Ok((Some(leaf), k)) => Ok(((ScalarView::Value, lv.push(leaf)), k)),
                    Ok((None, _)) => if tok_is(e, j, TokView::LParen) {
                        read_call(e, j, d, name.column, offset(e, i), lv)
                    } else {
                        Ok(((ScalarView::Value, lv.push(column_leaf(name))), j))
                    },
                }
            },
        }
    }
}

/// A bare column as a leaf.
pub open spec fn column_leaf(name: crate::ast::NameView) -> LeafView {
    LeafView { proj: ProjView::Column(name), filter: None }
}

/// A call, with its name read and the `(` at `i`.
pub open spec fn read_call(
    e: Env,
    i: int,
    d: int,
    name: Seq<char>,
    at: usize,
    lv: Seq<LeafView>,
) -> Out<Expr>
    decreases e.t.len() - i, 2int,
{
    if same_word(name, "now"@) {
        if tok_is(e, i + 1, TokView::RParen) {
            Ok(((ScalarView::Now { unix_seconds: e.now }, lv), i + 2))
        } else {
            Err(expected(e, i + 1, ") after now("@))
        }
    } else if same_word(name, "toStartOfInterval"@) {
        Err(refusal(Refused::Interval, at))
    } else if same_word(name, "if"@) || same_word(name, "multiIf"@) {
        if tok_is(e, i, TokView::LParen) {
            match read_args(e, i + 1, d, lv, Seq::empty()) {
                Err(x) => Err(x),
                Ok(((args, lv2), j)) => if args.len() < 3 {
                    Err(refusal(Refused::Shape, at))
                } else {
                    Ok(((choice(args), lv2), j))
                },
            }
        } else {
            Err(expected(e, i, "("@))
        }
    } else {
        match Func::spelled(name) {
            None => Err(refusal(call_refusal(name), at)),
            Some(func) => if tok_is(e, i + 1, TokView::RParen) {
                finish_call(e, i + 2, func, Seq::empty(), at, lv)
            } else if tok_is(e, i, TokView::LParen) {
                match read_args(e, i + 1, d, lv, Seq::empty()) {
                    Err(x) => Err(x),
                    Ok(((args, lv2), j)) => finish_call(e, j, func, args, at, lv2),
                }
            } else {
                Err(expected(e, i, "("@))
            },
        }
    }
}

/// The branches a list of arguments spells: pairs of a condition and a value, and one more value
/// at the end when the count is odd.
pub open spec fn choice(args: Seq<ScalarView>) -> ScalarView {
    ScalarView::Case {
        arms: Seq::new((args.len() / 2) as nat, |k: int| (args[2 * k], args[2 * k + 1])),
        default: if args.len() % 2 == 1 {
            Some(Box::new(args.last()))
        } else {
            None
        },
    }
}

/// Whether a function's first argument has to be a calendar boundary.
pub open spec fn takes_unit(func: Func) -> bool {
    func is DateTrunc || func is DateDiff || func is DateAdd || func is DateSub
}

/// A call whose arguments have been read up to `i`.
pub open spec fn finish_call(
    e: Env,
    i: int,
    func: Func,
    args: Seq<ScalarView>,
    at: usize,
    lv: Seq<LeafView>,
) -> Out<Expr> {
    if !func.takes(args.len()) {
        Err(refusal(Refused::Shape, at))
    } else if takes_unit(func) {
        match args[0] {
            ScalarView::Literal(LiteralView::Str(u)) => if Unit::spelled(u) is Some {
                Ok(((ScalarView::Call { func, args }, lv), i))
            } else {
                Err(refusal(Refused::TruncUnit, at))
            },
            _ => Err(
                SqlErrorView::Syntax {
                    at: at as nat,
                    found: shown(e, i),
                    want: "a quoted unit, like 'month'"@,
                },
            ),
        }
    } else {
        Ok(((ScalarView::Call { func, args }, lv), i))
    }
}

/// The arguments of a call, after those already read, and its closing bracket.
pub open spec fn read_args(
    e: Env,
    i: int,
    d: int,
    lv: Seq<LeafView>,
    before: Seq<ScalarView>,
) -> Out<(Seq<ScalarView>, Seq<LeafView>)>
    decreases e.t.len() - i, 6int,
{
    match moved(e, i, read_climb(e, i, d, 0, lv)) {
        Err(x) => Err(x),
        Ok(((arg, lv2), j)) => if tok_is(e, j, TokView::Comma) {
            read_args(e, j + 1, d, lv2, before.push(arg))
        } else if tok_is(e, j, TokView::RParen) {
            Ok(((before.push(arg), lv2), j + 1))
        } else {
            Err(expected(e, j, ", or ) to close the call"@))
        },
    }
}

/// The conversion a `CAST` target names.
pub open spec fn target_of(ty: Seq<char>) -> Option<Func> {
    if same_word(ty, "int"@)
        || same_word(ty, "integer"@)
        || same_word(ty, "tinyint"@)
        || same_word(ty, "smallint"@)
        || same_word(ty, "bigint"@)
        || same_word(ty, "uint"@)
        || same_word(ty, "signed"@)
        || same_word(ty, "int32"@)
        || same_word(ty, "int64"@)
        || same_word(ty, "uint64"@) {
        Some(Func::ToInt)
    } else if same_word(ty, "float"@)
        || same_word(ty, "real"@)
        || same_word(ty, "double"@)
        || same_word(ty, "float32"@)
        || same_word(ty, "float64"@)
        || same_word(ty, "decimal"@)
        || same_word(ty, "numeric"@) {
        Some(Func::ToFloat)
    } else if same_word(ty, "text"@)
        || same_word(ty, "varchar"@)
        || same_word(ty, "char"@)
        || same_word(ty, "string"@) {
        Some(Func::ToStr)
    } else if same_word(ty, "date"@) {
        Some(Func::ToDate)
    } else {
        None
    }
}

/// The position after the next closing bracket.
pub open spec fn skip_type(e: Env, i: int) -> Out<()>
    decreases e.t.len() - i,
{
    if tok_is(e, i, TokView::RParen) {
        Ok(((), i + 1))
    } else if 0 <= i < e.t.len() {
        skip_type(e, i + 1)
    } else {
        Err(expected(e, i, ") to close the type"@))
    }
}

/// The end of a `CAST`, from the name of its type on.
pub open spec fn finish_cast(e: Env, i: int, inner: ScalarView, at: usize, lv: Seq<LeafView>) -> Out<Expr> {
    match read_ident(e, i, "a type name"@) {
        Err(x) => Err(x),
        Ok((ty, j)) => {
            let width = if tok_is(e, j, TokView::LParen) {
                skip_type(e, j + 1)
            } else {
                Ok(((), j))
            };
            match width {
                Err(x) => Err(x),
                Ok((_, k)) => if !tok_is(e, k, TokView::RParen) {
                    Err(expected(e, k, ") to close CAST"@))
                } else {
                    match target_of(ty) {
                        None => Err(refusal(Refused::ColumnType, at)),
                        Some(func) => Ok(
                            ((ScalarView::Call { func, args: seq![inner] }, lv), k + 1),
                        ),
                    }
                },
            }
        },
    }
}

/// `CAST(<expr> AS <type>)`, with `CAST` at `i`.
pub open spec fn read_cast(e: Env, i: int, d: int, lv: Seq<LeafView>) -> Out<Expr>
    decreases e.t.len() - i, 2int,
{
    if !tok_is(e, i + 1, TokView::LParen) {
        Err(expected(e, i + 1, "( after CAST"@))
    } else {
        match read_climb(e, i + 2, d, 0, lv) {
            Err(x) => Err(x),
            Ok(((inner, lv2), j)) => if !word_at(e, j, "AS"@) {
                Err(expected(e, j, "AS inside CAST"@))
            } else {
                finish_cast(e, j + 1, inner, offset(e, i), lv2)
            },
        }
    }
}

/// `WHEN <cond> THEN <value>`, as often as it is written, after those already read.
pub open spec fn read_arms(
    e: Env,
    i: int,
    d: int,
    lv: Seq<LeafView>,
    before: Seq<(ScalarView, ScalarView)>,
) -> Out<(Seq<(ScalarView, ScalarView)>, Seq<LeafView>)>
    decreases e.t.len() - i, 6int,
{
    if !word_at(e, i, "WHEN"@) {
        Ok(((before, lv), i))
    } else {
        match moved(e, i + 1, read_climb(e, i + 1, d, 0, lv)) {
            Err(x) => Err(x),
            Ok(((when, lv2), j)) => if !word_at(e, j, "THEN"@) {
                Err(expected(e, j, "THEN after the condition"@))
            } else {
                match moved(e, j + 1, read_climb(e, j + 1, d, 0, lv2)) {
                    Err(x) => Err(x),
                    Ok(((val, lv3), k)) => read_arms(e, k, d, lv3, before.push((when, val))),
                }
            },
        }
    }
}

/// The `END` of a `CASE`.
pub open spec fn finish_case(
    e: Env,
    i: int,
    arms: Seq<(ScalarView, ScalarView)>,
    default: Option<Box<ScalarView>>,
    lv: Seq<LeafView>,
) -> Out<Expr> {
    if word_at(e, i, "END"@) {
        Ok(((ScalarView::Case { arms, default }, lv), i + 1))
    } else {
        Err(expected(e, i, "END to close CASE"@))
    }
}

/// `CASE WHEN <cond> THEN <value> [...] [ELSE <value>] END`, with `CASE` at `i`.
pub open spec fn read_case(e: Env, i: int, d: int, lv: Seq<LeafView>) -> Out<Expr>
    decreases e.t.len() - i, 2int,
{
    if !word_at(e, i, "CASE"@) {
        Err(expected(e, i, "CASE"@))
    } else {
        match read_arms(e, i + 1, d, lv, Seq::empty()) {
            Err(x) => Err(x),
            Ok(((arms, lv2), j)) => if arms.len() == 0 {
                Err(refusal(Refused::Case, offset(e, i)))
            } else if word_at(e, j, "ELSE"@) && i < j {
                match read_climb(e, j + 1, d, 0, lv2) {
                    Err(x) => Err(x),
                    Ok(((val, lv3), k)) => finish_case(e, k, arms, Some(Box::new(val)), lv3),
                }
            } else {
                finish_case(e, j, arms, None, lv2)
            },
        }
    }
}

/// The views of a list of branches.
pub open spec fn arms_of(arms: Seq<(Scalar, Scalar)>) -> Seq<(ScalarView, ScalarView)> {
    arms.map_values(|a: (Scalar, Scalar)| (a.0@, a.1@))
}

/// By value, an expression and the leaves so far.
pub open spec fn seen_expr(r: Result<Scalar>, leaves: Seq<Leaf>) -> core::result::Result<
    Expr,
    SqlErrorView,
> {
    match r {
        Ok(x) => Ok((x@, views(leaves))),
        Err(e) => Err(e@),
    }
}

/// The conversion a `CAST` target names, under every spelling a column list takes.
pub fn cast_target(ty: &str) -> (r: Option<Func>)
    ensures
        r == target_of(ty@),
{
    if ty.eq_ignore_ascii_case("int")
        || ty.eq_ignore_ascii_case("integer")
        || ty.eq_ignore_ascii_case("tinyint")
        || ty.eq_ignore_ascii_case("smallint")
        || ty.eq_ignore_ascii_case("bigint")
        || ty.eq_ignore_ascii_case("uint")
        || ty.eq_ignore_ascii_case("signed")
        || ty.eq_ignore_ascii_case("int32")
        || ty.eq_ignore_ascii_case("int64")
        || ty.eq_ignore_ascii_case("uint64") {
        Some(Func::ToInt)
    } else if ty.eq_ignore_ascii_case("float")
        || ty.eq_ignore_ascii_case("real")
        || ty.eq_ignore_ascii_case("double")
        || ty.eq_ignore_ascii_case("float32")
        || ty.eq_ignore_ascii_case("float64")
        || ty.eq_ignore_ascii_case("decimal")
        || ty.eq_ignore_ascii_case("numeric") {
        Some(Func::ToFloat)
    } else if ty.eq_ignore_ascii_case("text")
        || ty.eq_ignore_ascii_case("varchar")
        || ty.eq_ignore_ascii_case("char")
        || ty.eq_ignore_ascii_case("string") {
        Some(Func::ToStr)
    } else if ty.eq_ignore_ascii_case("date") {
        Some(Func::ToDate)
    } else {
        None
    }
}

/// A leaf added at the end of those met.
fn add_leaf(leaves: &mut Vec<Leaf>, leaf: Leaf)
    ensures
        views(final(leaves)@) == views(old(leaves)@).push(leaf@),
{
    leaves.push(leaf);
    assert(views(leaves@) =~= views(old(leaves)@).push(leaf@));
}

/// The branches a list of arguments spells.
fn branches(args: Vec<Scalar>) -> (r: Scalar)
    ensures
        r@ == choice(views(args@)),
{
    let mut rest = args;
    let ghost all = views(rest@);
    let default = if rest.len() % 2 == 1 {
        match rest.pop() {
            Some(last) => Some(Box::new(last)),
            None => None,
        }
    } else {
        None
    };
    let ghost n = rest@.len();
    let mut arms: Vec<(Scalar, Scalar)> = Vec::new();
    while rest.len() >= 2
        invariant
            n % 2 == 0,
            n <= all.len() <= n + 1,
            n == arms@.len() * 2 + rest@.len(),
            forall|k: int| 0 <= k < rest@.len() ==> (#[trigger] rest@[k])@ == all[n - rest@.len() + k],
            forall|k: int|
                0 <= k < arms@.len() ==> (#[trigger] arms@[k]).0@ == all[2 * k] && arms@[k].1@
                    == all[2 * k + 1],
        decreases rest.len(),
    {
        let ghost was = rest@;
        let when = rest.remove(0);
        assert(when@ == all[n - was.len()]) by {
            assert(was[0]@ == all[n - was.len() + 0]);
        }
        assert(rest@ =~= was.remove(0));
        assert(rest@[0] == was[1]);
        let val = rest.remove(0);
        assert(val@ == all[n - was.len() + 1]);
        assert(forall|k: int| 0 <= k < rest@.len() ==> (#[trigger] rest@[k]) == was[k + 2]);
        arms.push((when, val));
    }
    let r = Scalar::Case { arms, default };
    assert(r@->arms =~= choice(all)->arms);
    r
}

impl<'a> Parser<'a> {
    /// A full expression, lowest precedence first.
    pub(crate) fn expr(&mut self, leaves: &mut Vec<Leaf>) -> (r: Result<Scalar>)
        requires
            old(self).wf(),
        ensures
            goes(
                *old(self),
                *final(self),
                seen_expr(r, final(leaves)@),
                read_climb(
                    old(self).env(),
                    old(self).i as int,
                    old(self).depth as int,
                    0,
                    views(old(leaves)@),
                ),
            ),
            r is Ok ==> final(self).i > old(self).i,
    {
        self.climb(0, leaves)
    }

    /// Precedence climbing: parse a unary, then absorb every operator that binds at least as
    /// tightly as `min`.
    fn climb(&mut self, min: u8, leaves: &mut Vec<Leaf>) -> (r: Result<Scalar>)
        requires
            old(self).wf(),
        ensures
            goes(
                *old(self),
                *final(self),
                seen_expr(r, final(leaves)@),
                read_climb(
                    old(self).env(),
                    old(self).i as int,
                    old(self).depth as int,
                    min as int,
                    views(old(leaves)@),
                ),
            ),
            r is Ok ==> final(self).i > old(self).i,
        decreases old(self).t@.len() - old(self).i, 5int,
    {
        let mut left = self.unary(leaves)?;
        loop
            invariant
                self.wf(),
                self.env() == old(self).env(),
                self.t == old(self).t,
                self.depth == old(self).depth,
                self.i > old(self).i,
                read_climb(
                    old(self).env(),
                    old(self).i as int,
                    old(self).depth as int,
                    min as int,
                    views(old(leaves)@),
                ) == more_infix(
                    self.env(),
                    self.i as int,
                    self.depth as int,
                    min as int,
                    left@,
                    views(leaves@),
                ),
            decreases self.t@.len() - self.i,
        {
            let op = match self.infix() {
                Some(op) => op,
                None => {
                    return Ok(left);
                },
            };
            if op.precedence() < min {
                return Ok(left);
            }
            self.skip(1);
            let right = self.climb(op.precedence() + 1, leaves)?;
            left = Scalar::Binary { op, left: Box::new(left), right: Box::new(right) };
        }
    }

    /// The infix operator being looked at, without consuming it.
    fn infix(&self) -> (r: Option<BinOp>)
        requires
            self.wf(),
        ensures
            r == infix_at(self.env(), self.i as int),
            r is Some ==> self.i < self.t@.len(),
    {
        match self.peek() {
            Some(Tok::Op(o)) => BinOp::compare(o),
            Some(Tok::Arith(o)) => BinOp::arith(o),
            Some(Tok::Star) => Some(BinOp::Mul),
            Some(Tok::Word(w)) => {
                if w.as_str().eq_ignore_ascii_case("AND") {
                    Some(BinOp::And)
                } else if w.as_str().eq_ignore_ascii_case("OR") {
                    Some(BinOp::Or)
                } else {
                    None
                }
            },
            _ => None,
        }
    }

    /// `-x`, `NOT x`, or a primary.
    fn unary(&mut self, leaves: &mut Vec<Leaf>) -> (r: Result<Scalar>)
        requires
            old(self).wf(),
        ensures
            goes(
                *old(self),
                *final(self),
                seen_expr(r, final(leaves)@),
                read_unary(
                    old(self).env(),
                    old(self).i as int,
                    old(self).depth as int,
                    views(old(leaves)@),
                ),
            ),
            r is Ok ==> final(self).i > old(self).i,
        decreases old(self).t@.len() - old(self).i, 4int,
    {
        if self.is_tok(&Tok::Arith("-")) {
            self.skip(1);
            let number: Option<Literal> = match self.peek() {
                Some(Tok::Num(n)) => {
                    let v = negate(n, self.at())?;
                    Some(v)
                },
                _ => None,
            };
            match number {
                Some(v) => {
                    self.skip(1);
                    return Ok(Scalar::Literal(v));
                },
                None => {},
            }
            let arg = self.unary(leaves)?;
            return Ok(Scalar::Unary { op: UnOp::Neg, arg: Box::new(arg) });
        }
        if self.eat_word("NOT") {
            let arg = self.unary(leaves)?;
            return Ok(Scalar::Unary { op: UnOp::Not, arg: Box::new(arg) });
        }
        self.primary(leaves)
    }

    /// A literal, a bracketed expression, a `CASE`, a `CAST`, a call, or the column.
    fn primary(&mut self, leaves: &mut Vec<Leaf>) -> (r: Result<Scalar>)
        requires
            old(self).wf(),
        ensures
            goes(
                *old(self),
                *final(self),
                seen_expr(r, final(leaves)@),
                read_primary(
                    old(self).env(),
                    old(self).i as int,
                    old(self).depth as int,
                    views(old(leaves)@),
                ),
            ),
            r is Ok ==> final(self).i > old(self).i,
        decreases old(self).t@.len() - old(self).i, 3int,
    {
        let at = self.at();
        if self.eat(&Tok::LParen) {
            let inner = self.climb(0, leaves)?;
            self.expect(&Tok::RParen, ") to close the expression")?;
            return Ok(inner);
        }
        let value = match self.peek() {
            Some(Tok::Num(_)) => true,
            Some(Tok::Str(_)) => true,
            _ => false,
        };
        if value {
            let v = self.literal("a value")?;
            return Ok(Scalar::Literal(v));
        }
        if self.word_is("CASE") {
            return self.case(leaves);
        }
        if self.word_is("CAST") {
            return self.cast(leaves);
        }
        if self.word_is("NULL") {
            return Err(self.refuse(Refused::Null));
        }
        if self.eat_word("TRUE") {
            return Ok(Scalar::Literal(Literal::Bool(true)));
        }
        if self.eat_word("FALSE") {
            return Ok(Scalar::Literal(Literal::Bool(false)));
        }
        let name = self.name("a column, a value or a function")?;
        if name.qualifier.is_none() {
            match self.aggregate(name.column.as_str())? {
                Some(leaf) => {
                    add_leaf(leaves, leaf);
                    return Ok(Scalar::Value);
                },
                None => {},
            }
            if self.is_tok(&Tok::LParen) {
                return self.call(name.column.as_str(), at, leaves);
            }
        }
        if self.is_tok(&Tok::LParen) {
            return Err(self.syntax("a column, not a call on a qualified name"));
        }
        add_leaf(leaves, Leaf { proj: Proj::Column(name), filter: None });
        Ok(Scalar::Value)
    }

    /// The arguments of a call and its closing bracket.
    fn args(&mut self, leaves: &mut Vec<Leaf>) -> (r: Result<Vec<Scalar>>)
        requires
            old(self).wf(),
        ensures
            goes(
                *old(self),
                *final(self),
                match r {
                    Ok(v) => Ok((views(v@), views(final(leaves)@))),
                    Err(e) => Err(e@),
                },
                read_args(
                    old(self).env(),
                    old(self).i as int,
                    old(self).depth as int,
                    views(old(leaves)@),
                    Seq::empty(),
                ),
            ),
            r is Ok ==> final(self).i > old(self).i,
        decreases old(self).t@.len() - old(self).i, 6int,
    {
        let mut out: Vec<Scalar> = Vec::new();
        assert(views(out@) =~= Seq::<ScalarView>::empty());
        loop
            invariant
                self.wf(),
                self.env() == old(self).env(),
                self.t == old(self).t,
                self.depth == old(self).depth,
                self.i >= old(self).i,
                read_args(
                    old(self).env(),
                    old(self).i as int,
                    old(self).depth as int,
                    views(old(leaves)@),
                    Seq::empty(),
                ) == read_args(
                    self.env(),
                    self.i as int,
                    self.depth as int,
                    views(leaves@),
                    views(out@),
                ),
            decreases self.t@.len() - self.i,
        {
            let ghost before = views(out@);
            let arg = self.climb(0, leaves)?;
            out.push(arg);
            assert(views(out@) =~= before.push(arg@));
            if !self.eat(&Tok::Comma) {
                self.expect(&Tok::RParen, ", or ) to close the call")?;
                return Ok(out);
            }
        }
    }

    /// A scalar call, with the name read and the `(` still ahead.
    fn call(&mut self, name: &str, at: usize, leaves: &mut Vec<Leaf>) -> (r: Result<Scalar>)
        requires
            old(self).wf(),
            tok_is(old(self).env(), old(self).i as int, TokView::LParen),
        ensures
            goes(
                *old(self),
                *final(self),
                seen_expr(r, final(leaves)@),
                read_call(
                    old(self).env(),
                    old(self).i as int,
                    old(self).depth as int,
                    name@,
                    at,
                    views(old(leaves)@),
                ),
            ),
            r is Ok ==> final(self).i > old(self).i,
        decreases old(self).t@.len() - old(self).i, 2int,
    {
        if name.eq_ignore_ascii_case("now") {
            self.skip(1);
            self.expect(&Tok::RParen, ") after now(")?;
            return Ok(Scalar::Now { unix_seconds: self.now });
        }
        if name.eq_ignore_ascii_case("toStartOfInterval") {
            return Err(self.refuse_at(Refused::Interval, at));
        }
        if name.eq_ignore_ascii_case("if") || name.eq_ignore_ascii_case("multiIf") {
            return self.if_call(at, leaves);
        }
        let func = match Func::of(name) {
            Some(func) => func,
            None => {
                return Err(self.refuse_at(unsupported_call(name), at));
            },
        };
        self.skip(1);
        let args = if self.eat(&Tok::RParen) {
            Vec::new()
        } else {
            self.args(leaves)?
        };
        assert(args@.len() == 0 ==> views(args@) =~= Seq::<ScalarView>::empty());
        func.check_arity(args.len(), at)?;
        self.checked_unit(func, &args, at)?;
        let r = Scalar::Call { func, args };
        assert(r@->Call_args =~= views(args@));
        Ok(r)
    }

    /// `if(cond, then, else)` and `multiIf(c1, v1, ..., else)`, with the `(` still ahead.
    fn if_call(&mut self, at: usize, leaves: &mut Vec<Leaf>) -> (r: Result<Scalar>)
        requires
            old(self).wf(),
            tok_is(old(self).env(), old(self).i as int, TokView::LParen),
        ensures
            goes(
                *old(self),
                *final(self),
                seen_expr(r, final(leaves)@),
                match read_args(
                    old(self).env(),
                    old(self).i + 1,
                    old(self).depth as int,
                    views(old(leaves)@),
                    Seq::empty(),
                ) {
                    Err(x) => Err(x),
                    Ok(((args, lv2), j)) => if args.len() < 3 {
                        Err(refusal(Refused::Shape, at))
                    } else {
                        Ok(((choice(args), lv2), j))
                    },
                },
            ),
            r is Ok ==> final(self).i > old(self).i,
        decreases old(self).t@.len() - old(self).i, 1int,
    {
        self.skip(1);
        let args = self.args(leaves)?;
        if args.len() < 3 {
            return Err(SqlError::Refused { what: Refused::Shape, at });
        }
        Ok(branches(args))
    }

    /// The calendar boundary a time function names, checked where it is written.
    fn checked_unit(&self, func: Func, args: &Vec<Scalar>, at: usize) -> (r: Result<()>)
        requires
            self.wf(),
            func.takes(args@.len()),
        ensures
            match r {
                Ok(_) => takes_unit(func) ==> (args@[0]@ matches ScalarView::Literal(
                    LiteralView::Str(u),
                ) && Unit::spelled(u) is Some),
                Err(e) => takes_unit(func) && match args@[0]@ {
                    ScalarView::Literal(LiteralView::Str(u)) => Unit::spelled(u) is None && e@
                        == refusal(Refused::TruncUnit, at),
                    _ => e@ == (SqlErrorView::Syntax {
                        at: at as nat,
                        found: shown(self.env(), self.i as int),
                        want: "a quoted unit, like 'month'"@,
                    }),
                },
            },
    {
        match func {
            Func::DateTrunc | Func::DateDiff | Func::DateAdd | Func::DateSub => {},
            _ => {
                return Ok(());
            },
        }
        match &args[0] {
            Scalar::Literal(Literal::Str(u)) => match Unit::parse(u.as_str()) {
                Some(_) => Ok(()),
                None => Err(SqlError::Refused { what: Refused::TruncUnit, at }),
            },
            _ => Err(
                SqlError::Syntax { at, found: self.here(), want: "a quoted unit, like 'month'" },
            ),
        }
    }

    /// A width in brackets, which changes nothing, up to its closing bracket.
    fn skip_width(&mut self) -> (r: Result<()>)
        requires
            old(self).wf(),
        ensures
            goes(
                *old(self),
                *final(self),
                match r {
                    Ok(_) => Ok(()),
                    Err(e) => Err(e@),
                },
                skip_type(old(self).env(), old(self).i as int),
            ),
    {
        loop
            invariant
                self.wf(),
                self.env() == old(self).env(),
                self.t == old(self).t,
                self.depth == old(self).depth,
                self.i >= old(self).i,
                skip_type(old(self).env(), old(self).i as int) == skip_type(
                    self.env(),
                    self.i as int,
                ),
            decreases self.t@.len() - self.i,
        {
            if self.eat(&Tok::RParen) {
                return Ok(());
            }
            if self.done() {
                return Err(self.syntax(") to close the type"));
            }
            self.skip(1);
        }
    }

    /// `CAST(<expr> AS <type>)`.
    fn cast(&mut self, leaves: &mut Vec<Leaf>) -> (r: Result<Scalar>)
        requires
            old(self).wf(),
            word_at(old(self).env(), old(self).i as int, "CAST"@),
        ensures
            goes(
                *old(self),
                *final(self),
                seen_expr(r, final(leaves)@),
                read_cast(
                    old(self).env(),
                    old(self).i as int,
                    old(self).depth as int,
                    views(old(leaves)@),
                ),
            ),
            r is Ok ==> final(self).i > old(self).i,
        decreases old(self).t@.len() - old(self).i, 2int,
    {
        let at = self.at();
        self.skip(1);
        self.expect(&Tok::LParen, "( after CAST")?;
        let inner = self.climb(0, leaves)?;
        self.expect_word("AS", "AS inside CAST")?;
        let ty = self.bare_ident("a type name")?;
        if self.eat(&Tok::LParen) {
            self.skip_width()?;
        }
        self.expect(&Tok::RParen, ") to close CAST")?;
        let func = match cast_target(ty.as_str()) {
            Some(f) => f,
            None => {
                return Err(SqlError::Refused { what: Refused::ColumnType, at });
            },
        };
        let mut args: Vec<Scalar> = Vec::new();
        args.push(inner);
        let r = Scalar::Call { func, args };
        assert(r@->Call_args =~= seq![inner@]);
        Ok(r)
    }

    /// `WHEN <cond> THEN <value>`, as often as it is written.
    fn arms(&mut self, leaves: &mut Vec<Leaf>) -> (r: Result<Vec<(Scalar, Scalar)>>)
        requires
            old(self).wf(),
        ensures
            goes(
                *old(self),
                *final(self),
                match r {
                    Ok(v) => Ok((arms_of(v@), views(final(leaves)@))),
                    Err(e) => Err(e@),
                },
                read_arms(
                    old(self).env(),
                    old(self).i as int,
                    old(self).depth as int,
                    views(old(leaves)@),
                    Seq::empty(),
                ),
            ),
            r matches Ok(v) ==> v@.len() > 0 ==> final(self).i > old(self).i,
        decreases old(self).t@.len() - old(self).i, 6int,
    {
        let mut out: Vec<(Scalar, Scalar)> = Vec::new();
        assert(arms_of(out@) =~= Seq::<(ScalarView, ScalarView)>::empty());
        loop
            invariant
                self.wf(),
                self.env() == old(self).env(),
                self.t == old(self).t,
                self.depth == old(self).depth,
                self.i >= old(self).i,
                out@.len() > 0 ==> self.i > old(self).i,
                read_arms(
                    old(self).env(),
                    old(self).i as int,
                    old(self).depth as int,
                    views(old(leaves)@),
                    Seq::empty(),
                ) == read_arms(
                    self.env(),
                    self.i as int,
                    self.depth as int,
                    views(leaves@),
                    arms_of(out@),
                ),
            decreases self.t@.len() - self.i,
        {
            if !self.eat_word("WHEN") {
                return Ok(out);
            }
            let ghost before = arms_of(out@);
            let when = self.climb(0, leaves)?;
            self.expect_word("THEN", "THEN after the condition")?;
            let val = self.climb(0, leaves)?;
            out.push((when, val));
            assert(arms_of(out@) =~= before.push((when@, val@)));
        }
    }

    /// `CASE WHEN <cond> THEN <value> [...] [ELSE <value>] END`. Only the searched form.
    fn case(&mut self, leaves: &mut Vec<Leaf>) -> (r: Result<Scalar>)
        requires
            old(self).wf(),
            word_at(old(self).env(), old(self).i as int, "CASE"@),
        ensures
            goes(
                *old(self),
                *final(self),
                seen_expr(r, final(leaves)@),
                read_case(
                    old(self).env(),
                    old(self).i as int,
                    old(self).depth as int,
                    views(old(leaves)@),
                ),
            ),
            r is Ok ==> final(self).i > old(self).i,
        decreases old(self).t@.len() - old(self).i, 2int,
    {
        let at = self.at();
        self.skip(1);
        let arms = self.arms(leaves)?;
        let ghost seen = arms_of(arms@);
        if arms.len() == 0 {
            return Err(SqlError::Refused { what: Refused::Case, at });
        }
        let default = if self.eat_word("ELSE") {
            Some(Box::new(self.climb(0, leaves)?))
        } else {
            None
        };
        self.expect_word("END", "END to close CASE")?;
        let r = Scalar::Case { arms, default };
        assert(r@->arms =~= seen);
        Ok(r)
    }
}

} // verus!
