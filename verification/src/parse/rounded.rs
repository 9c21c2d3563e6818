//! `WHERE date_trunc('month', ts) = '2024-01-01'`, read as the range it means.
//!
//! A rounding in a `WHERE` is not evaluated but inverted: every value whose month is January is
//! every value in `[2024-01-01, 2024-02-01)`, and a range on a bit-sliced column is a read the
//! field already has. The bounds are computed on the written date, so one rewrite is correct
//! for a column counting days and for one counting seconds.

use vstd::prelude::*;
use crate::ast::{Cond, CondView, Name, NameView, Rounding};
use crate::civil::{moment_of, parse_datetime, Moment, Unit};
use crate::error::{Refused, Result, SqlError, SqlErrorView};
use crate::lex::{Tok, TokView};
use crate::parse::cursor::{expected, goes, offset, peek_at, read_literal, read_name, refusal, seen, tok_is, Env, Out, Parser};
use crate::pql::{Literal, LiteralView};
use crate::text::{bytes, same, same_word};

verus! {

/// A call that can be turned into a range, and the boundary it rounds to.
#[derive(Clone, Copy, PartialEq, Eq, Debug, Structural)]
pub enum Round {
    /// `date_trunc(<unit>, <column>)`, whose unit is read from the statement.
    Trunc,
    /// `toDate(<column>)`.
    Day,
    /// `toYear(<column>)`, compared against a year number rather than a date.
    Year,
    /// `round(<column>[, <digits>])`, `floor(<column>)`, `ceil(<column>)`.
    Number(Rounding),
}

impl Round {
    /// The rounding a name spells, in any case.
    pub open spec fn spelled(name: Seq<char>) -> Option<Round> {
        if same_word(name, "date_trunc"@) || same_word(name, "dateTrunc"@) {
            Some(Round::Trunc)
        } else if same_word(name, "toDate"@) {
            Some(Round::Day)
        } else if same_word(name, "toYear"@) {
            Some(Round::Year)
        } else if same_word(name, "round"@) {
            Some(Round::Number(Rounding::Round { digits: 0 }))
        } else if same_word(name, "floor"@) {
            Some(Round::Number(Rounding::Floor))
        } else if same_word(name, "ceil"@) || same_word(name, "ceiling"@) {
            Some(Round::Number(Rounding::Ceil))
        } else {
            None
        }
    }

    /// The rounding a name spells, in any case.
    pub fn of(name: &str) -> (r: Option<Round>)
        ensures
            r == Round::spelled(name@),
    {
        if name.eq_ignore_ascii_case("date_trunc") || name.eq_ignore_ascii_case("dateTrunc") {
            Some(Round::Trunc)
        } else if name.eq_ignore_ascii_case("toDate") {
            Some(Round::Day)
        } else if name.eq_ignore_ascii_case("toYear") {
            Some(Round::Year)
        } else if name.eq_ignore_ascii_case("round") {
            Some(Round::Number(Rounding::Round { digits: 0 }))
        } else if name.eq_ignore_ascii_case("floor") {
            Some(Round::Number(Rounding::Floor))
        } else if name.eq_ignore_ascii_case("ceil") || name.eq_ignore_ascii_case("ceiling") {
            Some(Round::Number(Rounding::Ceil))
        } else {
            None
        }
    }
}

/// The values a rounding maps into one answer: `[low, high)`, as they would be written.
#[derive(Clone, PartialEq, Eq, Debug)]
pub struct Bucket {
    pub low: String,
    pub high: String,
    /// Whether the value compared against is itself the start of the bucket.
    pub exact: bool,
}

/// What a [`Bucket`] holds.
pub struct BucketView {
    pub low: Seq<char>,
    pub high: Seq<char>,
    pub exact: bool,
}

impl View for Bucket {
    type V = BucketView;

    open spec fn view(&self) -> BucketView {
        BucketView { low: self.low@, high: self.high@, exact: self.exact }
    }
}

/// `<column> <op> '<value>'`.
pub open spec fn text_cmp(column: NameView, op: Seq<char>, v: Seq<char>) -> CondView {
    CondView::Cmp { field: column, op, value: LiteralView::Str(v) }
}

impl BucketView {
    /// The condition that holds of exactly the values inside.
    pub open spec fn within(self, column: NameView) -> CondView {
        CondView::And(
            Box::new(text_cmp(column, ">="@, self.low)),
            Box::new(text_cmp(column, "<"@, self.high)),
        )
    }

    /// The condition a comparison of the rounded column becomes.
    pub open spec fn compared(self, column: NameView, op: Seq<char>, at: usize) -> core::result::Result<
        CondView,
        SqlErrorView,
    > {
        if (op == "="@ || op == "!="@) && !self.exact {
            Err(refusal(Refused::Round, at))
        } else if op == "="@ {
            Ok(self.within(column))
        } else if op == "!="@ {
            Ok(CondView::Not(Box::new(self.within(column))))
        } else if op == ">="@ && self.exact {
            Ok(text_cmp(column, ">="@, self.low))
        } else if op == ">="@ || op == ">"@ {
            Ok(text_cmp(column, ">="@, self.high))
        } else if op == "<"@ && self.exact {
            Ok(text_cmp(column, "<"@, self.low))
        } else {
            Ok(text_cmp(column, "<"@, self.high))
        }
    }
}

fn make_cmp(column: &Name, op: &'static str, v: &String) -> (r: Cond)
    ensures
        r@ == text_cmp(column@, op@, v@),
{
    Cond::Cmp { field: column.copied(), op, value: Literal::Str(v.clone()) }
}

impl Bucket {
    /// The condition every value inside meets, and no other.
    fn inside(&self, column: &Name) -> (r: Cond)
        ensures
            r@ == self@.within(column@),
    {
        Cond::And(
            Box::new(make_cmp(column, ">=", &self.low)),
            Box::new(make_cmp(column, "<", &self.high)),
        )
    }

    /// The condition the comparison becomes.
    pub fn compare(self, column: &Name, op: &'static str, at: usize) -> (r: Result<Cond>)
        ensures
            self@.compared(column@, op@, at) == (match r {
                Ok(c) => Ok::<CondView, SqlErrorView>(c@),
                Err(e) => Err(e@),
            }),
    {
        if (same(op, "=") || same(op, "!=")) && !self.exact {
            Err(self.refuse(at))
        } else if same(op, "=") {
            Ok(self.inside(column))
        } else if same(op, "!=") {
            Ok(Cond::Not(Box::new(self.inside(column))))
        } else if same(op, ">=") && self.exact {
            Ok(make_cmp(column, ">=", &self.low))
        } else if same(op, ">=") || same(op, ">") {
            Ok(make_cmp(column, ">=", &self.high))
        } else if same(op, "<") && self.exact {
            Ok(make_cmp(column, "<", &self.low))
        } else {
            Ok(make_cmp(column, "<", &self.high))
        }
    }

    /// No rounding produces the value.
    pub fn refuse(&self, at: usize) -> (r: SqlError)
        ensures
            r@ == refusal(Refused::Round, at),
    {
        SqlError::Refused { what: Refused::Round, at }
    }
}

/// How a boundary is written back: as a date where every boundary is a midnight, and with its
/// time where it is not.
pub open spec fn boundary_text(m: Moment, unit: Unit) -> Seq<char> {
    if unit.whole_days() {
        m.date_text()
    } else {
        m.text()
    }
}

/// The range of written values that round to the one compared against. The value has been read
/// and `i` is after it; `at` is where the comparison stands.
pub open spec fn bucket_for(
    e: Env,
    i: int,
    unit: Unit,
    value: LiteralView,
    by_year: bool,
    at: usize,
) -> core::result::Result<BucketView, SqlErrorView> {
    if by_year {
        match value {
            LiteralView::Int(n) => if n < i64::MAX {
                Ok(
                    BucketView {
                        low: Moment::midnight(n as i64, 1, 1).date_text(),
                        high: Moment::midnight((n + 1) as i64, 1, 1).date_text(),
                        exact: true,
                    },
                )
            } else {
                Err(refusal(Refused::Round, at))
            },
            _ => Err(expected(e, i, "a year, like 2024"@)),
        }
    } else {
        match value {
            LiteralView::Str(written) => match moment_of(bytes(written)) {
                Some(m) => Ok(
                    BucketView {
                        low: boundary_text(m.floor(unit), unit),
                        high: boundary_text(m.after(unit), unit),
                        exact: m.floor(unit) == m,
                    },
                ),
                None => Err(expected(e, i, "a written date, like '2024-01-01'"@)),
            },
            _ => Err(expected(e, i, "a written date, like '2024-01-01'"@)),
        }
    }
}

/// The `<op> <value>` a rounding is tested by.
pub open spec fn read_compared(e: Env, i: int) -> Out<(Seq<char>, LiteralView)> {
    match peek_at(e, i) {
        Some(TokView::Op(op)) => match read_literal(e, i + 1, "a value to compare against"@) {
            Err(x) => Err(x),
            Ok((value, j)) => Ok(((op, value), j)),
        },
        _ => Err(expected(e, i, "a comparison against the rounded value"@)),
    }
}

/// The closing bracket of a rounding, and the comparison after it.
pub open spec fn read_closed(e: Env, i: int) -> Out<(Seq<char>, LiteralView)> {
    if tok_is(e, i, TokView::RParen) {
        read_compared(e, i + 1)
    } else {
        Err(expected(e, i, ") to close the rounding"@))
    }
}

/// A number's rounding, from inside its bracket.
pub open spec fn read_rounded_number(e: Env, i: int, kind: Rounding) -> Out<CondView> {
    match read_name(e, i, "a column name"@) {
        Err(x) => Err(x),
        Ok((column, j)) => if tok_is(e, j, TokView::Comma) {
            if !(kind is Round) {
                Err(expected(e, j + 1, ") to close the rounding"@))
            } else {
                match read_literal(e, j + 1, "a number of digits"@) {
                    Err(x) => Err(x),
                    Ok((LiteralView::Int(d), k)) => if d <= 255 {
                        match read_closed(e, k) {
                            Err(x) => Err(x),
                            Ok(((op, value), m)) => Ok(
                                (
                                    CondView::Rounded {
                                        field: column,
                                        round: Rounding::Round { digits: d as u8 },
                                        op,
                                        value,
                                    },
                                    m,
                                ),
                            ),
                        }
                    } else {
                        Err(expected(e, k, "a number of digits"@))
                    },
                    Ok((_, k)) => Err(expected(e, k, "a number of digits"@)),
                }
            }
        } else {
            match read_closed(e, j) {
                Err(x) => Err(x),
                Ok(((op, value), m)) => Ok(
                    (CondView::Rounded { field: column, round: kind, op, value }, m),
                ),
            }
        },
    }
}

/// A date's rounding, from the end of its column on.
pub open spec fn read_rounded_date(
    e: Env,
    i: int,
    column: NameView,
    unit: Unit,
    by_year: bool,
) -> Out<CondView> {
    match read_closed(e, i) {
        Err(x) => Err(x),
        Ok(((op, value), j)) => match bucket_for(e, j, unit, value, by_year, offset(e, i + 1)) {
            Err(x) => Err(x),
            Ok(b) => match b.compared(column, op, offset(e, i + 1)) {
                Err(x) => Err(x),
                Ok(c) => Ok((c, j)),
            },
        },
    }
}

/// `date_trunc`, from inside its bracket. `at` is where its name stands.
pub open spec fn read_trunc(e: Env, i: int, at: usize) -> Out<CondView> {
    match read_literal(e, i, "a quoted unit, like 'month'"@) {
        Err(x) => Err(x),
        Ok((LiteralView::Str(u), j)) => match Unit::spelled(u) {
            None => Err(refusal(Refused::TruncUnit, at)),
            Some(unit) => if !tok_is(e, j, TokView::Comma) {
                Err(expected(e, j, ", between the unit and the column"@))
            } else {
                match read_name(e, j + 1, "a column name"@) {
                    Err(x) => Err(x),
                    Ok((column, k)) => read_rounded_date(e, k, column, unit, false),
                }
            },
        },
        Ok((_, j)) => Err(expected(e, j, "a quoted unit, like 'month'"@)),
    }
}

/// `toDate` or `toYear`, from inside its bracket.
pub open spec fn read_day_or_year(e: Env, i: int, unit: Unit, by_year: bool) -> Out<CondView> {
    match read_name(e, i, "a column name"@) {
        Err(x) => Err(x),
        Ok((column, k)) => read_rounded_date(e, k, column, unit, by_year),
    }
}

/// A rounding compared against a value, from inside its bracket.
pub open spec fn read_rounded(e: Env, i: int, round: Round, at: usize) -> Out<CondView> {
    match round {
        Round::Number(kind) => read_rounded_number(e, i, kind),
        Round::Trunc => read_trunc(e, i, at),
        Round::Day => read_day_or_year(e, i, Unit::Day, false),
        Round::Year => read_day_or_year(e, i, Unit::Year, true),
    }
}

impl<'a> Parser<'a> {
    /// The `<op> <value>` a rounding is tested by.
    fn compared_against(&mut self) -> (r: Result<(&'static str, Literal)>)
        requires
            old(self).wf(),
        ensures
            goes(
                *old(self),
                *final(self),
                match r {
                    Ok(p) => Ok((p.0@, p.1@)),
                    Err(e) => Err(e@),
                },
                read_compared(old(self).env(), old(self).i as int),
            ),
    {
        let op = match self.op() {
            Some(op) => op,
            None => {
                return Err(self.syntax("a comparison against the rounded value"));
            },
        };
        self.skip(1);
        let value = self.literal("a value to compare against")?;
        Ok((op, value))
    }

    /// The half-open range of written values that round to the one compared against.
    fn bucket(&self, unit: Unit, value: &Literal, by_year: bool, at: usize) -> (r: Result<Bucket>)
        requires
            self.wf(),
        ensures
            bucket_for(self.env(), self.i as int, unit, value@, by_year, at) == (match r {
                Ok(b) => Ok::<BucketView, SqlErrorView>(b@),
                Err(e) => Err(e@),
            }),
    {
        if by_year {
            match value {
                Literal::Int(n) => {
                    if *n >= 0x7fff_ffff_ffff_ffff {
                        return Err(self.refuse_at(Refused::Round, at));
                    }
                    let year: i64 = *n as i64;
                    let low = Moment { year, month: 1, day: 1, hour: 0, minute: 0, second: 0 };
                    let high = Moment {
                        year: year + 1,
                        month: 1,
                        day: 1,
                        hour: 0,
                        minute: 0,
                        second: 0,
                    };
                    return Ok(Bucket { low: low.write_date(), high: high.write_date(), exact: true });
                },
                _ => {
                    return Err(self.syntax("a year, like 2024"));
                },
            }
        }
        let written = match value {
            Literal::Str(w) => w,
            _ => {
                return Err(self.syntax("a written date, like '2024-01-01'"));
            },
        };
        let m = match parse_datetime(written.as_str()) {
            Some(m) => m,
            None => {
                return Err(self.syntax("a written date, like '2024-01-01'"));
            },
        };
        let low = m.truncate(unit);
        let high = m.next(unit);
        let exact = low == m;
        if unit.is_whole_days() {
            Ok(Bucket { low: low.write_date(), high: high.write_date(), exact })
        } else {
            Ok(Bucket { low: low.write(), high: high.write(), exact })
        }
    }

    fn rounded_number(&mut self, kind: Rounding) -> (r: Result<Cond>)
        requires
            old(self).wf(),
        ensures
            goes(
                *old(self),
                *final(self),
                seen(r),
                read_rounded_number(old(self).env(), old(self).i as int, kind),
            ),
    {
        let column = self.name("a column name")?;
        let round = if self.eat(&Tok::Comma) {
            match kind {
                Rounding::Round { .. } => match self.literal("a number of digits")? {
                    Literal::Int(d) => {
                        if d > 255 {
                            return Err(self.syntax("a number of digits"));
                        }
                        Rounding::Round { digits: d as u8 }
                    },
                    _ => {
                        return Err(self.syntax("a number of digits"));
                    },
                },
                _ => {
                    return Err(self.syntax(") to close the rounding"));
                },
            }
        } else {
            kind
        };
        self.expect(&Tok::RParen, ") to close the rounding")?;
        let (op, value) = self.compared_against()?;
        Ok(Cond::Rounded { field: column, round, op, value })
    }

    fn rounded_date(&mut self, column: Name, unit: Unit, by_year: bool) -> (r: Result<Cond>)
        requires
            old(self).wf(),
        ensures
            goes(
                *old(self),
                *final(self),
                seen(r),
                read_rounded_date(old(self).env(), old(self).i as int, column@, unit, by_year),
            ),
    {
        self.expect(&Tok::RParen, ") to close the rounding")?;
        let op_at = self.at();
        let (op, value) = self.compared_against()?;
        let bucket = self.bucket(unit, &value, by_year, op_at)?;
        bucket.compare(&column, op, op_at)
    }

    /// A rounding compared against a value, as the range it selects. `None` when the call is
    /// not one of these. The `(` is still ahead; `name` is what stands in front of it.
    pub(crate) fn rounded(&mut self, name: &Name, at: usize) -> (r: Result<Option<Cond>>)
        requires
            old(self).wf(),
            tok_is(old(self).env(), old(self).i as int, TokView::LParen),
        ensures
            match Round::spelled(name.column@) {
                None => r matches Ok(None) && *final(self) == *old(self),
                Some(round) => {
                    &&& r matches Ok(c) ==> c is Some && final(self).i > old(self).i
                    &&& goes(
                        *old(self),
                        *final(self),
                        match r {
                            Ok(c) => Ok(c->0@),
                            Err(e) => Err(e@),
                        },
                        read_rounded(old(self).env(), old(self).i + 1, round, at),
                    )
                },
            },
    {
        let round = match Round::of(name.column.as_str()) {
            None => {
                return Ok(None);
            },
            Some(round) => round,
        };
        self.skip(1);
        let cond = match round {
            Round::Number(kind) => self.rounded_number(kind)?,
            Round::Trunc => {
                let unit = match self.literal("a quoted unit, like 'month'")? {
                    Literal::Str(u) => match Unit::parse(u.as_str()) {
                        Some(unit) => unit,
                        None => {
                            return Err(self.refuse_at(Refused::TruncUnit, at));
                        },
                    },
                    _ => {
                        return Err(self.syntax("a quoted unit, like 'month'"));
                    },
                };
                self.expect(&Tok::Comma, ", between the unit and the column")?;
                let column = self.name("a column name")?;
                self.rounded_date(column, unit, false)?
            },
            Round::Day => {
                let column = self.name("a column name")?;
                self.rounded_date(column, Unit::Day, false)?
            },
            Round::Year => {
                let column = self.name("a column name")?;
                self.rounded_date(column, Unit::Year, true)?
            },
        };
        Ok(Some(cond))
    }
}

} // verus!
