//! Values and expressions, written out.

use vstd::prelude::*;
use crate::civil::padded;
use crate::pql::{Literal, LiteralView};
use crate::scalar::{BinOp, Func, Scalar, ScalarView, UnOp};
use crate::text::{dec, dec_signed, join, joined, push_dec, push_signed, views, wrapped};

verus! {

/// A decimal as it is written: the digits, with as many of them after the point as its scale.
pub open spec fn decimal_text(units: nat, scale: u8) -> Seq<char> {
    let text = padded(units, (scale + 1) as nat);
    let whole = text.len() - scale;
    if scale == 0 {
        text
    } else {
        text.subrange(0, whole) + "."@ + text.subrange(whole, text.len() as int)
    }
}

/// A value exactly as the statement wrote it, so that a decimal's scale is visible.
pub open spec fn literal_text(v: LiteralView) -> Seq<char> {
    match v {
        LiteralView::Int(n) => dec(n as nat),
        LiteralView::Sint(n) => dec_signed(n as int),
        LiteralView::Dec { units, scale } => decimal_text(units as nat, scale),
        LiteralView::Sdec { units, scale } => if units < 0 {
            "-"@ + decimal_text((-units) as nat, scale)
        } else {
            decimal_text(units as nat, scale)
        },
        LiteralView::Str(s) => "'"@ + s + "'"@,
        LiteralView::Bool(b) => if b {
            "true"@
        } else {
            "false"@
        },
    }
}

/// Appends a number with zeros in front up to a width.
fn push_wide(out: &mut String, n: u64, width: usize)
    ensures
        final(out)@ == old(out)@ + padded(n as nat, width as nat),
{
    let mut digits = String::new();
    push_dec(&mut digits, n as u128);
    let ghost all = dec(n as nat);
    assert(digits@ =~= all);
    let len = digits.as_str().unicode_len();
    let mut k: usize = len;
    let ghost was = out@;
    assert(out@ =~= was + Seq::new(0, |i: int| '0'));
    while k < width
        invariant
            len == all.len(),
            len <= k,
            k <= width || k == len,
            out@ == was + Seq::new((k - len) as nat, |i: int| '0'),
        decreases width - k,
    {
        out.push('0');
        k += 1;
        assert(out@ =~= was + Seq::new((k - len) as nat, |i: int| '0'));
    }
    out.append(digits.as_str());
    assert(out@ =~= was + padded(n as nat, width as nat));
}

proof fn lemma_digits(n: nat)
    ensures
        dec(n).len() > 0,
    decreases n,
{
    if n >= 10 {
        lemma_digits(n / 10);
    }
}

/// A decimal as it is written.
fn decimal(units: u64, scale: u8) -> (r: String)
    ensures
        r@ == decimal_text(units as nat, scale),
{
    let mut text = String::new();
    push_wide(&mut text, units, scale as usize + 1);
    proof {
        lemma_digits(units as nat);
        assert(text@ =~= padded(units as nat, (scale + 1) as nat));
        assert(text@.len() > scale);
    }
    if scale == 0 {
        return text;
    }
    let n = text.as_str().unicode_len();
    let whole = n - scale as usize;
    wrapped(text.as_str().substring_char(0, whole), ".", text.as_str().substring_char(whole, n))
}

/// A value exactly as the statement wrote it.
pub fn literal(v: &Literal) -> (r: String)
    ensures
        r@ == literal_text(v@),
{
    let mut out = String::new();
    assert(out@ =~= Seq::<char>::empty());
    match v {
        Literal::Int(n) => {
            push_dec(&mut out, *n as u128);
            assert(out@ =~= dec(*n as nat));
        },
        Literal::Sint(n) => {
            push_signed(&mut out, *n as i128);
            assert(out@ =~= dec_signed(*n as int));
        },
        Literal::Dec { units, scale } => {
            return decimal(*units, *scale);
        },
        Literal::Sdec { units, scale } => {
            if *units < 0 {
                let size: u64 = (-(*units as i128)) as u64;
                let mut text = str::to_owned("-");
                text.append(decimal(size, *scale).as_str());
                return text;
            }
            return decimal(*units as u64, *scale);
        },
        Literal::Str(s) => {
            return wrapped("'", s.as_str(), "'");
        },
        Literal::Bool(b) => {
            return str::to_owned(if *b {
                "true"
            } else {
                "false"
            });
        },
    }
    out
}

impl Func {
    /// The name a function is written with.
    pub open spec fn written(self) -> Seq<char> {
        match self {
            Func::Round => "round"@,
            Func::Floor => "floor"@,
            Func::Ceil => "ceil"@,
            Func::Abs => "abs"@,
            Func::Lower => "lower"@,
            Func::Upper => "upper"@,
            Func::Substring => "substring"@,
            Func::DateTrunc => "date_trunc"@,
            Func::DateDiff => "date_diff"@,
            Func::DateAdd => "date_add"@,
            Func::DateSub => "date_sub"@,
            Func::ToDate => "toDate"@,
            Func::ToYear => "toYear"@,
            Func::ToMonth => "toMonth"@,
            Func::ToDayOfMonth => "toDayOfMonth"@,
            Func::ToInt => "toInt"@,
            Func::ToFloat => "toFloat"@,
            Func::ToStr => "toString"@,
            Func::Coalesce => "coalesce"@,
            Func::NullIf => "nullIf"@,
            Func::IfNull => "ifNull"@,
        }
    }

    /// The name a function is written with.
    pub fn name(self) -> (r: &'static str)
        ensures
            r@ == self.written(),
    {
        match self {
            Func::Round => "round",
            Func::Floor => "floor",
            Func::Ceil => "ceil",
            Func::Abs => "abs",
            Func::Lower => "lower",
            Func::Upper => "upper",
            Func::Substring => "substring",
            Func::DateTrunc => "date_trunc",
            Func::DateDiff => "date_diff",
            Func::DateAdd => "date_add",
            Func::DateSub => "date_sub",
            Func::ToDate => "toDate",
            Func::ToYear => "toYear",
            Func::ToMonth => "toMonth",
            Func::ToDayOfMonth => "toDayOfMonth",
            Func::ToInt => "toInt",
            Func::ToFloat => "toFloat",
            Func::ToStr => "toString",
            Func::Coalesce => "coalesce",
            Func::NullIf => "nullIf",
            Func::IfNull => "ifNull",
        }
    }
}

impl BinOp {
    /// How an operator is written.
    pub open spec fn written(self) -> Seq<char> {
        match self {
            BinOp::Or => "or"@,
            BinOp::And => "and"@,
            BinOp::Eq => "="@,
            BinOp::Ne => "!="@,
            BinOp::Lt => "<"@,
            BinOp::Le => "<="@,
            BinOp::Gt => ">"@,
            BinOp::Ge => ">="@,
            BinOp::Add => "+"@,
            BinOp::Sub => "-"@,
            BinOp::Mul => "*"@,
            BinOp::Div => "/"@,
            BinOp::Rem => "%"@,
        }
    }

    /// How an operator is written.
    pub fn sign(self) -> (r: &'static str)
        ensures
            r@ == self.written(),
    {
        match self {
            BinOp::Or => "or",
            BinOp::And => "and",
            BinOp::Eq => "=",
            BinOp::Ne => "!=",
            BinOp::Lt => "<",
            BinOp::Le => "<=",
            BinOp::Gt => ">",
            BinOp::Ge => ">=",
            BinOp::Add => "+",
            BinOp::Sub => "-",
            BinOp::Mul => "*",
            BinOp::Div => "/",
            BinOp::Rem => "%",
        }
    }
}

impl ScalarView {
    /// An expression over a value, on one line.
    pub open spec fn printed(self) -> Seq<char>
        decreases self,
    {
        match self {
            ScalarView::Value => "value"@,
            ScalarView::Literal(v) => literal_text(v),
            ScalarView::Now { .. } => "now()"@,
            ScalarView::Unary { op, arg } => (match op {
                UnOp::Neg => "-("@,
                UnOp::Not => "not ("@,
            }) + arg.printed() + ")"@,
            ScalarView::Binary { op, left, right } => "("@ + left.printed() + " "@ + op.written()
                + " "@ + right.printed() + ")"@,
            ScalarView::Call { func, args } => func.written() + "("@ + joined(
                printed_each(args),
                ", "@,
            ) + ")"@,
            ScalarView::Case { arms, default } => "case "@ + joined(
                printed_arms(arms),
                " "@,
            ) + (match default {
                Some(d) => " else "@ + d.printed(),
                None => Seq::empty(),
            }) + " end"@,
        }
    }
}

/// The arguments of a call, each on its own.
pub open spec fn printed_each(args: Seq<ScalarView>) -> Seq<Seq<char>>
    decreases args,
{
    Seq::new(
        args.len(),
        |i: int|
            if 0 <= i < args.len() {
                args[i].printed()
            } else {
                arbitrary()
            },
    )
}

/// The arms of a `CASE`, each on its own.
pub open spec fn printed_arms(arms: Seq<(ScalarView, ScalarView)>) -> Seq<Seq<char>>
    decreases arms,
{
    Seq::new(
        arms.len(),
        |i: int|
            if 0 <= i < arms.len() {
                "when "@ + arms[i].0.printed() + " then "@ + arms[i].1.printed()
            } else {
                arbitrary()
            },
    )
}

impl Scalar {
    /// An expression over a value, on one line.
    pub fn print(&self) -> (r: String)
        ensures
            r@ == self@.printed(),
        decreases self,
    {
        match self {
            Scalar::Value => str::to_owned("value"),
            Scalar::Literal(v) => literal(v),
            Scalar::Now { .. } => str::to_owned("now()"),
            Scalar::Unary { op, arg } => {
                let sign = match op {
                    UnOp::Neg => "-(",
                    UnOp::Not => "not (",
                };
                wrapped(sign, (**arg).print().as_str(), ")")
            },
            Scalar::Binary { op, left, right } => {
                let mut out = str::to_owned("(");
                out.append((**left).print().as_str());
                out.append(" ");
                out.append((*op).sign());
                out.append(" ");
                out.append((**right).print().as_str());
                out.append(")");
                out
            },
            Scalar::Call { func, args } => {
                let mut parts: Vec<String> = Vec::new();
                let mut k: usize = 0;
                while k < args.len()
                    invariant
                        k <= args@.len(),
                        parts@.len() == k,
                        self matches Scalar::Call { args: a, .. } && a == *args,
                        forall|j: int| 0 <= j < k ==> (#[trigger] parts@[j])@ == args@[j]@.printed(),
                    decreases args.len() - k,
                {
                    parts.push(args[k].print());
                    k += 1;
                }
                assert(self@->Call_args =~= views(args@));
                assert(views(parts@) =~= printed_each(self@->Call_args));
                let mut out = str::to_owned((*func).name());
                out.append("(");
                out.append(join(&parts, ", ").as_str());
                out.append(")");
                out
            },
            Scalar::Case { arms, default } => {
                let mut parts: Vec<String> = Vec::new();
                let mut k: usize = 0;
                while k < arms.len()
                    invariant
                        k <= arms@.len(),
                        parts@.len() == k,
                        self matches Scalar::Case { arms: a, .. } && a == *arms,
                        forall|j: int|
                            0 <= j < k ==> (#[trigger] parts@[j])@ == "when "@
                                + arms@[j].0@.printed() + " then "@ + arms@[j].1@.printed(),
                    decreases arms.len() - k,
                {
                    let arm = &arms[k];
                    let mut text = str::to_owned("when ");
                    text.append(arm.0.print().as_str());
                    text.append(" then ");
                    text.append(arm.1.print().as_str());
                    parts.push(text);
                    k += 1;
                }
                let ghost held = self@->arms;
                assert forall|i: int| 0 <= i < arms@.len() implies #[trigger] held[i] == (
                    arms@[i].0@,
                    arms@[i].1@,
                ) by {}
                assert(views(parts@) =~= printed_arms(held));
                let mut out = str::to_owned("case ");
                out.append(join(&parts, " ").as_str());
                match default {
                    Some(d) => {
                        out.append(" else ");
                        out.append((**d).print().as_str());
                    },
                    None => {},
                }
                out.append(" end");
                assert(out@ =~= self@.printed());
                out
            },
        }
    }
}

} // verus!
