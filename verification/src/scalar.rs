//! The expression a select-list entry applies to the one number it is about.

use vstd::prelude::*;
use crate::pql::{Literal, LiteralView};
use crate::error::{Refused, Result, SqlError, SqlErrorView};
use crate::text::{same, same_word};

verus! {

/// An expression over one value.
#[allow(inconsistent_fields)]
#[derive(PartialEq, Eq, Debug)]
pub enum Scalar {
    /// The column or the aggregate the entry is about.
    Value,
    /// A constant.
    Literal(Literal),
    /// The instant the statement was translated at.
    Now { unix_seconds: i64 },
    /// `-x`, `NOT x`.
    Unary { op: UnOp, arg: Box<Scalar> },
    /// `a + b` and its like.
    Binary { op: BinOp, left: Box<Scalar>, right: Box<Scalar> },
    /// A scalar function.
    Call { func: Func, args: Vec<Scalar> },
    /// `CASE WHEN ... THEN ... ELSE ... END`.
    Case { arms: Vec<(Scalar, Scalar)>, default: Option<Box<Scalar>> },
}

/// What a [`Scalar`] holds.
#[allow(inconsistent_fields)]
#[verifier::ext_equal]
pub enum ScalarView {
    Value,
    Literal(LiteralView),
    Now { unix_seconds: i64 },
    Unary { op: UnOp, arg: Box<ScalarView> },
    Binary { op: BinOp, left: Box<ScalarView>, right: Box<ScalarView> },
    Call { func: Func, args: Seq<ScalarView> },
    Case { arms: Seq<(ScalarView, ScalarView)>, default: Option<Box<ScalarView>> },
}

impl Scalar {
    /// What this holds.
    pub open spec fn model(&self) -> ScalarView
        decreases self,
    {
        match *self {
            Scalar::Value => ScalarView::Value,
            Scalar::Literal(a) => ScalarView::Literal(a@),
            Scalar::Now { unix_seconds } => ScalarView::Now { unix_seconds },
            Scalar::Unary { op, arg } => ScalarView::Unary { op, arg: Box::new((*arg).model()) },
            Scalar::Binary { op, left, right } => ScalarView::Binary { op, left: Box::new((*left).model()), right: Box::new((*right).model()) },
            Scalar::Call { func, args } => ScalarView::Call { func, args: Seq::new(args@.len(), |i: int| if 0 <= i < args@.len() { args@[i].model() } else { arbitrary() }) },
            Scalar::Case { arms, default } => ScalarView::Case { arms: Seq::new(arms@.len(), |i: int| if 0 <= i < arms@.len() { (arms@[i].0.model(), arms@[i].1.model()) } else { arbitrary() }), default: match default { Some(v) => Some(Box::new((*v).model())), None => None } },
        }
    }
}

impl View for Scalar {
    type V = ScalarView;

    open spec fn view(&self) -> ScalarView {
        self.model()
    }
}

/// An operator between two values.
#[derive(Clone, Copy, PartialEq, Eq, Debug, Structural)]
pub enum BinOp {
    Or,
    And,
    Eq,
    Ne,
    Lt,
    Le,
    Gt,
    Ge,
    Add,
    Sub,
    Mul,
    Div,
    Rem,
}

/// An operator in front of one.
#[derive(Clone, Copy, PartialEq, Eq, Debug, Structural)]
pub enum UnOp {
    Neg,
    Not,
}

/// A scalar function.
#[derive(Clone, Copy, PartialEq, Eq, Debug, Structural)]
pub enum Func {
    Round,
    Floor,
    Ceil,
    Abs,
    Lower,
    Upper,
    Substring,
    DateTrunc,
    DateDiff,
    DateAdd,
    DateSub,
    ToDate,
    ToYear,
    ToMonth,
    ToDayOfMonth,
    ToInt,
    ToFloat,
    ToStr,
    Coalesce,
    NullIf,
    IfNull,
}

impl BinOp {
    /// The operator a comparison spells.
    pub open spec fn compare_of(op: Seq<char>) -> Option<BinOp> {
        if op == "="@ {
            Some(BinOp::Eq)
        } else if op == "!="@ {
            Some(BinOp::Ne)
        } else if op == "<"@ {
            Some(BinOp::Lt)
        } else if op == "<="@ {
            Some(BinOp::Le)
        } else if op == ">"@ {
            Some(BinOp::Gt)
        } else if op == ">="@ {
            Some(BinOp::Ge)
        } else {
            None
        }
    }

    /// The operator an arithmetic sign spells.
    pub open spec fn arith_of(op: Seq<char>) -> Option<BinOp> {
        if op == "+"@ {
            Some(BinOp::Add)
        } else if op == "-"@ {
            Some(BinOp::Sub)
        } else if op == "/"@ {
            Some(BinOp::Div)
        } else if op == "%"@ {
            Some(BinOp::Rem)
        } else {
            None
        }
    }

    /// How tightly an operator binds.
    pub open spec fn strength(self) -> u8 {
        match self {
            BinOp::Or => 1,
            BinOp::And => 2,
            BinOp::Eq | BinOp::Ne | BinOp::Lt | BinOp::Le | BinOp::Gt | BinOp::Ge => 3,
            BinOp::Add | BinOp::Sub => 4,
            BinOp::Mul | BinOp::Div | BinOp::Rem => 5,
        }
    }

    /// The operator a comparison spells.
    pub fn compare(op: &str) -> (r: Option<BinOp>)
        ensures
            r == BinOp::compare_of(op@),
    {
        if same(op, "=") {
            Some(BinOp::Eq)
        } else if same(op, "!=") {
            Some(BinOp::Ne)
        } else if same(op, "<") {
            Some(BinOp::Lt)
        } else if same(op, "<=") {
            Some(BinOp::Le)
        } else if same(op, ">") {
            Some(BinOp::Gt)
        } else if same(op, ">=") {
            Some(BinOp::Ge)
        } else {
            None
        }
    }

    /// The operator an arithmetic sign spells.
    pub fn arith(op: &str) -> (r: Option<BinOp>)
        ensures
            r == BinOp::arith_of(op@),
    {
        if same(op, "+") {
            Some(BinOp::Add)
        } else if same(op, "-") {
            Some(BinOp::Sub)
        } else if same(op, "/") {
            Some(BinOp::Div)
        } else if same(op, "%") {
            Some(BinOp::Rem)
        } else {
            None
        }
    }

    /// How tightly this operator binds.
    pub fn precedence(self) -> (r: u8)
        ensures
            r == self.strength(),
            1 <= r <= 5,
    {
        match self {
            BinOp::Or => 1,
            BinOp::And => 2,
            BinOp::Eq | BinOp::Ne | BinOp::Lt | BinOp::Le | BinOp::Gt | BinOp::Ge => 3,
            BinOp::Add | BinOp::Sub => 4,
            BinOp::Mul | BinOp::Div | BinOp::Rem => 5,
        }
    }
}

/// Whether a name is a word, in any case.
pub open spec fn says(name: Seq<char>, word: Seq<char>) -> bool {
    same_word(name, word)
}

impl Func {
    /// The function a name spells, in any case.
    pub open spec fn spelled(name: Seq<char>) -> Option<Func> {
        if says(name, "round"@) {
            Some(Func::Round)
        } else if says(name, "floor"@) {
            Some(Func::Floor)
        } else if says(name, "ceil"@) || says(name, "ceiling"@) {
            Some(Func::Ceil)
        } else if says(name, "abs"@) {
            Some(Func::Abs)
        } else if says(name, "lower"@) {
            Some(Func::Lower)
        } else if says(name, "upper"@) {
            Some(Func::Upper)
        } else if says(name, "substring"@) {
            Some(Func::Substring)
        } else if says(name, "date_trunc"@) || says(name, "dateTrunc"@) {
            Some(Func::DateTrunc)
        } else if says(name, "date_diff"@) || says(name, "dateDiff"@) {
            Some(Func::DateDiff)
        } else if says(name, "date_add"@) || says(name, "dateAdd"@) {
            Some(Func::DateAdd)
        } else if says(name, "date_sub"@) || says(name, "dateSub"@) {
            Some(Func::DateSub)
        } else if says(name, "toDate"@) {
            Some(Func::ToDate)
        } else if says(name, "toYear"@) {
            Some(Func::ToYear)
        } else if says(name, "toMonth"@) {
            Some(Func::ToMonth)
        } else if says(name, "toDayOfMonth"@) {
            Some(Func::ToDayOfMonth)
        } else if says(name, "coalesce"@) {
            Some(Func::Coalesce)
        } else if says(name, "nullIf"@) {
            Some(Func::NullIf)
        } else if says(name, "ifNull"@) {
            Some(Func::IfNull)
        } else {
            None
        }
    }

    /// Whether a function takes this many arguments.
    pub open spec fn takes(self, n: nat) -> bool {
        match self {
            Func::Round => n == 1 || n == 2,
            Func::Substring => n == 2 || n == 3,
            Func::DateTrunc | Func::NullIf | Func::IfNull => n == 2,
            Func::Coalesce => n >= 1,
            Func::DateDiff | Func::DateAdd | Func::DateSub => n == 3,
            _ => n == 1,
        }
    }

    /// The function a name spells, in any case.
    pub fn of(name: &str) -> (r: Option<Func>)
        ensures
            r == Func::spelled(name@),
    {
        if name.eq_ignore_ascii_case("round") {
            Some(Func::Round)
        } else if name.eq_ignore_ascii_case("floor") {
            Some(Func::Floor)
        } else if name.eq_ignore_ascii_case("ceil") || name.eq_ignore_ascii_case("ceiling") {
            Some(Func::Ceil)
        } else if name.eq_ignore_ascii_case("abs") {
            Some(Func::Abs)
        } else if name.eq_ignore_ascii_case("lower") {
            Some(Func::Lower)
        } else if name.eq_ignore_ascii_case("upper") {
            Some(Func::Upper)
        } else if name.eq_ignore_ascii_case("substring") {
            Some(Func::Substring)
        } else if name.eq_ignore_ascii_case("date_trunc") || name.eq_ignore_ascii_case("dateTrunc") {
            Some(Func::DateTrunc)
        } else if name.eq_ignore_ascii_case("date_diff") || name.eq_ignore_ascii_case("dateDiff") {
            Some(Func::DateDiff)
        } else if name.eq_ignore_ascii_case("date_add") || name.eq_ignore_ascii_case("dateAdd") {
            Some(Func::DateAdd)
        } else if name.eq_ignore_ascii_case("date_sub") || name.eq_ignore_ascii_case("dateSub") {
            Some(Func::DateSub)
        } else if name.eq_ignore_ascii_case("toDate") {
            Some(Func::ToDate)
        } else if name.eq_ignore_ascii_case("toYear") {
            Some(Func::ToYear)
        } else if name.eq_ignore_ascii_case("toMonth") {
            Some(Func::ToMonth)
        } else if name.eq_ignore_ascii_case("toDayOfMonth") {
            Some(Func::ToDayOfMonth)
        } else if name.eq_ignore_ascii_case("coalesce") {
            Some(Func::Coalesce)
        } else if name.eq_ignore_ascii_case("nullIf") {
            Some(Func::NullIf)
        } else if name.eq_ignore_ascii_case("ifNull") {
            Some(Func::IfNull)
        } else {
            None
        }
    }

    /// Refuses a call with the wrong number of arguments, at the call.
    pub fn check_arity(self, n: usize, at: usize) -> (r: Result<()>)
        ensures
            match r {
                Ok(_) => self.takes(n as nat),
                Err(e) => !self.takes(n as nat) && e@ == (SqlErrorView::Refused {
                    what: Refused::Shape,
                    at: at as nat,
                }),
            },
    {
        let fits = match self {
            Func::Round => n == 1 || n == 2,
            Func::Substring => n == 2 || n == 3,
            Func::DateTrunc | Func::NullIf | Func::IfNull => n == 2,
            Func::Coalesce => n >= 1,
            Func::DateDiff | Func::DateAdd | Func::DateSub => n == 3,
            _ => n == 1,
        };
        if fits {
            Ok(())
        } else {
            Err(SqlError::Refused { what: Refused::Shape, at })
        }
    }
}

impl Clone for Scalar {
    fn clone(&self) -> (r: Scalar)
        ensures
            r@ == self@,
    {
        self.copied()
    }
}

impl Scalar {
    /// A copy.
    pub fn copied(&self) -> (r: Scalar)
        ensures
            r@ == self@,
        decreases self,
    {
        match self {
            Scalar::Value => Scalar::Value,
            Scalar::Literal(l) => Scalar::Literal(l.copied()),
            Scalar::Now { unix_seconds } => Scalar::Now { unix_seconds: *unix_seconds },
            Scalar::Unary { op, arg } => Scalar::Unary {
                op: *op,
                arg: Box::new((**arg).copied()),
            },
            Scalar::Binary { op, left, right } => Scalar::Binary {
                op: *op,
                left: Box::new((**left).copied()),
                right: Box::new((**right).copied()),
            },
            Scalar::Call { func, args } => {
                let mut out: Vec<Scalar> = Vec::new();
                let mut i: usize = 0;
                while i < args.len()
                    invariant
                        self matches Scalar::Call { args: a, .. } && a == *args,
                        i <= args.len(),
                        out@.len() == i,
                        forall|j: int| 0 <= j < i ==> (#[trigger] out@[j])@ == args@[j]@,
                    decreases args.len() - i,
                {
                    out.push(args[i].copied());
                    i += 1;
                }
                let r = Scalar::Call { func: *func, args: out };
                assert(r@->Call_args =~= self@->Call_args);
                r
            },
            Scalar::Case { arms, default } => {
                let mut out: Vec<(Scalar, Scalar)> = Vec::new();
                let mut i: usize = 0;
                while i < arms.len()
                    invariant
                        self matches Scalar::Case { arms: a, .. } && a == *arms,
                        i <= arms.len(),
                        out@.len() == i,
                        forall|j: int|
                            0 <= j < i ==> (#[trigger] out@[j]).0@ == arms@[j].0@ && out@[j].1@
                                == arms@[j].1@,
                    decreases arms.len() - i,
                {
                    let arm = &arms[i];
                    out.push((arm.0.copied(), arm.1.copied()));
                    i += 1;
                }
                let d = match default {
                    Some(e) => Some(Box::new((**e).copied())),
                    None => None,
                };
                let r = Scalar::Case { arms: out, default: d };
                assert(r@->arms =~= self@->arms);
                r
            },
        }
    }

    /// Whether two are the same.
    pub fn same(&self, other: &Scalar) -> (r: bool)
        ensures
            r == (self@ == other@),
        decreases self,
    {
        match (self, other) {
            (Scalar::Value, Scalar::Value) => true,
            (Scalar::Literal(a), Scalar::Literal(b)) => a.same(b),
            (Scalar::Now { unix_seconds: a }, Scalar::Now { unix_seconds: b }) => *a == *b,
            (Scalar::Unary { op: o, arg: a }, Scalar::Unary { op: p, arg: b }) => *o == *p
                && (**a).same(&**b),
            (
                Scalar::Binary { op: o, left: a, right: c },
                Scalar::Binary { op: p, left: b, right: d },
            ) => *o == *p && (**a).same(&**b) && (**c).same(&**d),
            (Scalar::Call { func: f, args: a }, Scalar::Call { func: g, args: b }) => {
                if *f != *g || a.len() != b.len() {
                    assert(self@->Call_args.len() == a@.len());
                    assert(other@->Call_args.len() == b@.len());
                    return false;
                }
                let mut i: usize = 0;
                while i < a.len()
                    invariant
                        self matches Scalar::Call { args: x, func: h } && x == *a && h == *f,
                        other matches Scalar::Call { args: x, func: h } && x == *b && h == *g,
                        a.len() == b.len(),
                        i <= a.len(),
                        forall|j: int| 0 <= j < i ==> (#[trigger] a@[j])@ == b@[j]@,
                    decreases a.len() - i,
                {
                    if !a[i].same(&b[i]) {
                        assert(self@->Call_args[i as int] != other@->Call_args[i as int]);
                        return false;
                    }
                    i += 1;
                }
                assert(self@->Call_args =~= other@->Call_args);
                true
            },
            (Scalar::Case { arms: a, default: d }, Scalar::Case { arms: b, default: e }) => {
                if a.len() != b.len() {
                    assert(self@->arms.len() == a@.len());
                    assert(other@->arms.len() == b@.len());
                    return false;
                }
                let mut i: usize = 0;
                while i < a.len()
                    invariant
                        self matches Scalar::Case { arms: x, default: h } && x == *a && h == *d,
                        other matches Scalar::Case { arms: x, default: h } && x == *b && h == *e,
                        a.len() == b.len(),
                        i <= a.len(),
                        forall|j: int|
                            0 <= j < i ==> (#[trigger] a@[j]).0@ == b@[j].0@ && a@[j].1@
                                == b@[j].1@,
                    decreases a.len() - i,
                {
                    let x = &a[i];
                    let y = &b[i];
                    if !x.0.same(&y.0) || !x.1.same(&y.1) {
                        assert(self@->arms[i as int] != other@->arms[i as int]);
                        return false;
                    }
                    i += 1;
                }
                assert(self@->arms =~= other@->arms);
                match (d, e) {
                    (Some(x), Some(y)) => (**x).same(&**y),
                    (None, None) => true,
                    _ => false,
                }
            },
            _ => false,
        }
    }

    /// Whether the expression is the value itself.
    pub fn is_identity(&self) -> (r: bool)
        ensures
            r == (self@ == ScalarView::Value),
    {
        match self {
            Scalar::Value => true,
            _ => false,
        }
    }
}

} // verus!
