//! The aggregates of a select list, an ordering and a `HAVING`.

use vstd::prelude::*;
use crate::ast::{Agg, Cond, CondView, Proj, ProjView};
use crate::error::{Refused, Result, SqlErrorView};
use crate::lex::{Tok, TokView};
use crate::parse::cond::read_cond;
use crate::parse::cursor::{expected, goes, peek_at, read_name, refused, seen, tok_is, word_at, Env, Out, Parser};
use crate::pql::{Literal, LiteralView};
use crate::text::same_word;

verus! {

/// How many keys `topK(x)` ranks when no number was written.
pub const DEFAULT_TOP_K: u64 = 10;

/// What the one leaf of an expression turned out to be, and the condition it was narrowed by.
#[derive(PartialEq, Eq, Debug)]
pub struct Leaf {
    /// The projection the leaf is, as though the expression around it were not there.
    pub proj: Proj,
    /// The condition an `-If` suffix gave it.
    pub filter: Option<Cond>,
}

/// What a [`Leaf`] holds.
#[verifier::ext_equal]
pub struct LeafView {
    pub proj: ProjView,
    pub filter: Option<CondView>,
}

impl View for Leaf {
    type V = LeafView;

    open spec fn view(&self) -> LeafView {
        LeafView {
            proj: self.proj@,
            filter: match self.filter {
                Some(c) => Some(c@),
                None => None,
            },
        }
    }
}

/// Which aggregate a name spells, before the bracket has been seen.
#[derive(Clone, Copy, PartialEq, Eq, Debug, Structural)]
pub enum Which {
    Count,
    Avg,
    Agg(Agg),
    /// `uniq` and its approximate cousins, all of them answered exactly.
    Uniq,
    TopKeys,
    /// A quantile, with the level a named spelling fixes.
    Quantile(Option<u32>),
}

/// The names of a distinct count.
pub open spec fn uniq_name(name: Seq<char>) -> bool {
    same_word(name, "uniq"@)
        || same_word(name, "uniqExact"@)
        || same_word(name, "uniqCombined"@)
        || same_word(name, "uniqCombined64"@)
        || same_word(name, "uniqHLL12"@)
        || same_word(name, "uniqTheta"@)
        || same_word(name, "approx_count_distinct"@)
        || same_word(name, "approxCountDistinct"@)
}

impl Which {
    /// The aggregate a name spells, in any case.
    pub open spec fn spelled(name: Seq<char>) -> Option<Which> {
        if same_word(name, "count"@) {
            Some(Which::Count)
        } else if same_word(name, "avg"@) {
            Some(Which::Avg)
        } else if same_word(name, "sum"@) {
            Some(Which::Agg(Agg::Sum))
        } else if same_word(name, "min"@) {
            Some(Which::Agg(Agg::Min))
        } else if same_word(name, "max"@) {
            Some(Which::Agg(Agg::Max))
        } else if same_word(name, "topK"@) {
            Some(Which::TopKeys)
        } else if same_word(name, "median"@) {
            Some(Which::Quantile(Some(500)))
        } else if same_word(name, "quantileExact"@) || same_word(name, "quantile"@) {
            Some(Which::Quantile(None))
        } else if uniq_name(name) {
            Some(Which::Uniq)
        } else {
            None
        }
    }

    /// The aggregate a name spells, in any case.
    pub fn of(name: &str) -> (r: Option<Which>)
        ensures
            r == Which::spelled(name@),
    {
        if name.eq_ignore_ascii_case("count") {
            Some(Which::Count)
        } else if name.eq_ignore_ascii_case("avg") {
            Some(Which::Avg)
        } else if name.eq_ignore_ascii_case("sum") {
            Some(Which::Agg(Agg::Sum))
        } else if name.eq_ignore_ascii_case("min") {
            Some(Which::Agg(Agg::Min))
        } else if name.eq_ignore_ascii_case("max") {
            Some(Which::Agg(Agg::Max))
        } else if name.eq_ignore_ascii_case("topK") {
            Some(Which::TopKeys)
        } else if name.eq_ignore_ascii_case("median") {
            Some(Which::Quantile(Some(500)))
        } else if name.eq_ignore_ascii_case("quantileExact") || name.eq_ignore_ascii_case(
            "quantile",
        ) {
            Some(Which::Quantile(None))
        } else if name.eq_ignore_ascii_case("uniq")
            || name.eq_ignore_ascii_case("uniqExact")
            || name.eq_ignore_ascii_case("uniqCombined")
            || name.eq_ignore_ascii_case("uniqCombined64")
            || name.eq_ignore_ascii_case("uniqHLL12")
            || name.eq_ignore_ascii_case("uniqTheta")
            || name.eq_ignore_ascii_case("approx_count_distinct")
            || name.eq_ignore_ascii_case("approxCountDistinct") {
            Some(Which::Uniq)
        } else {
            None
        }
    }
}

/// A name without its `-If` suffix, and whether it had one.
pub open spec fn stem_of(name: Seq<char>) -> (Seq<char>, bool) {
    if name.len() > 2 && same_word(name.subrange(name.len() - 2, name.len() as int), "if"@) {
        (name.subrange(0, name.len() - 2), true)
    } else {
        (name, false)
    }
}

/// The names that fold bitmaps as values elsewhere.
pub open spec fn bitmap_name(name: Seq<char>) -> bool {
    same_word(name, "to_bitmap"@)
        || same_word(name, "groupBitmapState"@)
        || same_word(name, "groupBitmap"@)
        || same_word(name, "bitmap_and"@)
        || same_word(name, "bitmap_or"@)
        || same_word(name, "bitmap_xor"@)
        || same_word(name, "bitmap_andnot"@)
        || same_word(name, "bitmapAnd"@)
        || same_word(name, "bitmapOr"@)
        || same_word(name, "bitmapXor"@)
        || same_word(name, "bitmapAndnot"@)
        || same_word(name, "bitmap_count"@)
        || same_word(name, "bitmap_cardinality"@)
        || same_word(name, "bitmapCardinality"@)
        || same_word(name, "bitmap_contains"@)
        || same_word(name, "bitmap_union"@)
        || same_word(name, "bitmap_subset_in_range"@)
        || same_word(name, "bitmapSubsetInRange"@)
        || same_word(name, "intersect_count"@)
        || same_word(name, "orthogonal_bitmap_union_count"@)
        || same_word(name, "bsi_sum"@)
        || same_word(name, "bsi_range"@)
        || same_word(name, "bsi_topk"@)
}

/// The names of conversions between representations that do not convert.
pub open spec fn cast_name(name: Seq<char>) -> bool {
    same_word(name, "cast"@)
        || same_word(name, "convert"@)
        || same_word(name, "toInt64"@)
        || same_word(name, "toUInt64"@)
        || same_word(name, "toInt32"@)
        || same_word(name, "toUInt32"@)
        || same_word(name, "toString"@)
        || same_word(name, "toDateTime"@)
}

/// The names that choose between two values per record.
pub open spec fn choice_name(name: Seq<char>) -> bool {
    same_word(name, "if"@)
        || same_word(name, "multiIf"@)
        || same_word(name, "coalesce"@)
        || same_word(name, "nullIf"@)
        || same_word(name, "ifNull"@)
}

/// A window function, which says nothing without the rows it sees.
pub open spec fn window_name(name: Seq<char>) -> bool {
    same_word(name, "row_number"@) || same_word(name, "rank"@) || same_word(name, "lag"@)
        || same_word(name, "lead"@) || same_word(name, "first_value"@)
}

/// A question about a row and the rows around it.
pub open spec fn sequence_name(name: Seq<char>) -> bool {
    same_word(name, "neighbor"@) || same_word(name, "sequenceMatch"@) || same_word(
        name,
        "windowFunnel"@,
    ) || same_word(name, "retention"@)
}

/// A question about a column of lists, which a keyed column answers under another word.
pub open spec fn array_name(name: Seq<char>) -> bool {
    same_word(name, "arrayMap"@) || same_word(name, "has"@) || same_word(name, "arrayExists"@)
        || same_word(name, "arrayDistinct"@) || same_word(name, "arrayUniq"@) || same_word(
        name,
        "arraySum"@,
    )
}

/// Which refusal a call of an unknown function earns.
pub open spec fn call_refusal(name: Seq<char>) -> Refused {
    if bitmap_name(name) {
        Refused::BitmapFunction
    } else if cast_name(name) {
        Refused::Cast
    } else if choice_name(name) {
        Refused::Case
    } else if window_name(name) {
        Refused::Window
    } else if sequence_name(name) {
        Refused::SequenceFunction
    } else if array_name(name) {
        Refused::ArrayFunction
    } else {
        Refused::Aggregate
    }
}

/// Which refusal a function call in the select list earns.
pub fn unsupported_call(name: &str) -> (r: Refused)
    ensures
        r == call_refusal(name@),
{
    if name.eq_ignore_ascii_case("to_bitmap")
        || name.eq_ignore_ascii_case("groupBitmapState")
        || name.eq_ignore_ascii_case("groupBitmap")
        || name.eq_ignore_ascii_case("bitmap_and")
        || name.eq_ignore_ascii_case("bitmap_or")
        || name.eq_ignore_ascii_case("bitmap_xor")
        || name.eq_ignore_ascii_case("bitmap_andnot")
        || name.eq_ignore_ascii_case("bitmapAnd")
        || name.eq_ignore_ascii_case("bitmapOr")
        || name.eq_ignore_ascii_case("bitmapXor")
        || name.eq_ignore_ascii_case("bitmapAndnot")
        || name.eq_ignore_ascii_case("bitmap_count")
        || name.eq_ignore_ascii_case("bitmap_cardinality")
        || name.eq_ignore_ascii_case("bitmapCardinality")
        || name.eq_ignore_ascii_case("bitmap_contains")
        || name.eq_ignore_ascii_case("bitmap_union")
        || name.eq_ignore_ascii_case("bitmap_subset_in_range")
        || name.eq_ignore_ascii_case("bitmapSubsetInRange")
        || name.eq_ignore_ascii_case("intersect_count")
        || name.eq_ignore_ascii_case("orthogonal_bitmap_union_count")
        || name.eq_ignore_ascii_case("bsi_sum")
        || name.eq_ignore_ascii_case("bsi_range")
        || name.eq_ignore_ascii_case("bsi_topk") {
        Refused::BitmapFunction
    } else if name.eq_ignore_ascii_case("cast")
        || name.eq_ignore_ascii_case("convert")
        || name.eq_ignore_ascii_case("toInt64")
        || name.eq_ignore_ascii_case("toUInt64")
        || name.eq_ignore_ascii_case("toInt32")
        || name.eq_ignore_ascii_case("toUInt32")
        || name.eq_ignore_ascii_case("toString")
        || name.eq_ignore_ascii_case("toDateTime") {
        Refused::Cast
    } else if name.eq_ignore_ascii_case("if")
        || name.eq_ignore_ascii_case("multiIf")
        || name.eq_ignore_ascii_case("coalesce")
        || name.eq_ignore_ascii_case("nullIf")
        || name.eq_ignore_ascii_case("ifNull") {
        Refused::Case
    } else if name.eq_ignore_ascii_case("row_number")
        || name.eq_ignore_ascii_case("rank")
        || name.eq_ignore_ascii_case("lag")
        || name.eq_ignore_ascii_case("lead")
        || name.eq_ignore_ascii_case("first_value") {
        Refused::Window
    } else if name.eq_ignore_ascii_case("neighbor")
        || name.eq_ignore_ascii_case("sequenceMatch")
        || name.eq_ignore_ascii_case("windowFunnel")
        || name.eq_ignore_ascii_case("retention") {
        Refused::SequenceFunction
    } else if name.eq_ignore_ascii_case("arrayMap")
        || name.eq_ignore_ascii_case("has")
        || name.eq_ignore_ascii_case("arrayExists")
        || name.eq_ignore_ascii_case("arrayDistinct")
        || name.eq_ignore_ascii_case("arrayUniq")
        || name.eq_ignore_ascii_case("arraySum") {
        Refused::ArrayFunction
    } else {
        Refused::Aggregate
    }
}

/// A level between 0 and 1 in parts per thousand, when it has at most three digits.
pub open spec fn level_of(v: LiteralView) -> Option<u32> {
    match v {
        LiteralView::Int(n) => if n == 0 {
            Some(0)
        } else if n == 1 {
            Some(1000)
        } else {
            None
        },
        LiteralView::Dec { units, scale } => {
            let parts = if scale == 0 {
                units * 1000
            } else if scale == 1 {
                units * 100
            } else if scale == 2 {
                units * 10
            } else {
                units as int
            };
            if scale <= 3 && parts <= 1000 {
                Some(parts as u32)
            } else {
                None
            }
        },
        _ => None,
    }
}

/// The column of a quantile and its closing bracket.
pub open spec fn read_quantile_column(e: Env, i: int, per_mille: u32) -> Out<LeafView> {
    match read_name(e, i, "a column to take the quantile of"@) {
        Err(x) => Err(x),
        Ok((field, j)) => if tok_is(e, j, TokView::RParen) {
            Ok((LeafView { proj: ProjView::Quantile { per_mille, field }, filter: None }, j + 1))
        } else {
            Err(expected(e, j, ") to close the quantile"@))
        },
    }
}

/// `quantile(p)(<column>)`, or a named one whose level is fixed, from inside its bracket.
pub open spec fn read_quantile(e: Env, i: int, default: Option<u32>) -> Out<LeafView> {
    if peek_at(e, i) is Some && peek_at(e, i)->0 is Num && (default is None || tok_is(
        e,
        i + 1,
        TokView::RParen,
    )) {
        match level_of(peek_at(e, i)->0->Num_0) {
            None => Err(refused(e, i + 1, Refused::Quantile)),
            Some(per_mille) => if !tok_is(e, i + 1, TokView::RParen) {
                Err(expected(e, i + 1, ") after the level"@))
            } else if !tok_is(e, i + 2, TokView::LParen) {
                Err(expected(e, i + 2, "( and the column"@))
            } else {
                read_quantile_column(e, i + 3, per_mille)
            },
        }
    } else {
        match default {
            Some(p) => read_quantile_column(e, i, p),
            None => Err(refused(e, i, Refused::Quantile)),
        }
    }
}

/// The column of a ranking and its closing bracket.
pub open spec fn read_ranked(e: Env, i: int, n: u64, want: Seq<char>) -> Out<LeafView> {
    match read_name(e, i, want) {
        Err(x) => Err(x),
        Ok((field, j)) => if tok_is(e, j, TokView::RParen) {
            Ok((LeafView { proj: ProjView::TopKeys { n, field }, filter: None }, j + 1))
        } else {
            Err(expected(e, j, ") to close topK"@))
        },
    }
}

/// `topK(n)(<column>)` or `topK(<column>)`, from inside its bracket.
pub open spec fn read_top_keys(e: Env, i: int) -> Out<LeafView> {
    match peek_at(e, i) {
        Some(TokView::Num(LiteralView::Int(n))) => if !tok_is(e, i + 1, TokView::RParen) {
            Err(expected(e, i + 1, ") after the number of keys"@))
        } else if !tok_is(e, i + 2, TokView::LParen) {
            Err(expected(e, i + 2, "( and the column to rank"@))
        } else {
            read_ranked(e, i + 3, n, "a column to rank"@)
        },
        _ => read_ranked(e, i, DEFAULT_TOP_K, "a column to rank, or the number of keys"@),
    }
}

/// A column under an aggregate.
pub open spec fn read_over(e: Env, i: int, want: Seq<char>, which: Which) -> Out<ProjView> {
    match read_name(e, i, want) {
        Err(x) => Err(x),
        Ok((field, j)) => Ok(
            (
                match which {
                    Which::Agg(func) => ProjView::Agg { func, field },
                    Which::Avg => ProjView::Avg(field),
                    _ => ProjView::CountDistinct(field),
                },
                j,
            ),
        ),
    }
}

/// What an aggregate measures, from inside its bracket.
pub open spec fn read_measured(e: Env, i: int, which: Which, iff: bool) -> Out<ProjView> {
    match which {
        Which::Agg(_) => read_over(e, i, "a column to aggregate"@, which),
        Which::Avg => read_over(e, i, "a column to average"@, which),
        Which::Uniq => read_over(e, i, "a column to count the values of"@, which),
        _ => if iff {
            Ok((ProjView::Count, i))
        } else if tok_is(e, i, TokView::Star) {
            Ok((ProjView::Count, i + 1))
        } else if word_at(e, i, "DISTINCT"@) {
            read_over(e, i + 1, "a column"@, which)
        } else {
            Err(refused(e, i, Refused::Shape))
        },
    }
}

/// The bracket that closes an aggregate.
pub open spec fn close_aggregate(e: Env, i: int, leaf: LeafView) -> Out<LeafView> {
    if tok_is(e, i, TokView::RParen) {
        Ok((leaf, i + 1))
    } else {
        Err(expected(e, i, ") to close the aggregate"@))
    }
}

/// The condition of an `-If`, when there is one, and the closing bracket.
pub open spec fn read_narrowed(e: Env, i: int, d: int, proj: ProjView, iff: bool) -> Out<LeafView> {
    if !iff {
        close_aggregate(e, i, LeafView { proj, filter: None })
    } else if proj != ProjView::Count && !tok_is(e, i, TokView::Comma) {
        Err(expected(e, i, ", before the condition"@))
    } else {
        let j = if proj != ProjView::Count {
            i + 1
        } else {
            i
        };
        match read_cond(e, j, d) {
            Err(x) => Err(x),
            Ok((c, k)) => close_aggregate(e, k, LeafView { proj, filter: Some(c) }),
        }
    }
}

/// An aggregate whose name has been read, from inside its bracket.
pub open spec fn read_called(e: Env, i: int, d: int, which: Which, iff: bool) -> Out<LeafView> {
    match which {
        Which::TopKeys => if iff {
            Err(refused(e, i, Refused::Shape))
        } else {
            read_top_keys(e, i)
        },
        Which::Quantile(default) => if iff {
            Err(refused(e, i, Refused::Shape))
        } else {
            read_quantile(e, i, default)
        },
        _ => match read_measured(e, i, which, iff) {
            Err(x) => Err(x),
            Ok((proj, j)) => read_narrowed(e, j, d, proj, iff),
        },
    }
}

/// An aggregate whose name has been read, or `None` when the name is not one or no bracket
/// follows it.
pub open spec fn read_aggregate(e: Env, i: int, d: int, name: Seq<char>) -> Out<Option<LeafView>> {
    let (stem, iff) = stem_of(name);
    match Which::spelled(stem) {
        None => Ok((None, i)),
        Some(which) => if !tok_is(e, i, TokView::LParen) {
            Ok((None, i))
        } else {
            match read_called(e, i + 1, d, which, iff) {
                Err(x) => Err(x),
                Ok((leaf, j)) => Ok((Some(leaf), j)),
            }
        },
    }
}

/// By value, an aggregate or none.
pub open spec fn seen_leaf(r: Result<Option<Leaf>>) -> core::result::Result<
    Option<LeafView>,
    SqlErrorView,
> {
    match r {
        Ok(Some(l)) => Ok(Some(l@)),
        Ok(None) => Ok(None),
        Err(e) => Err(e@),
    }
}

impl<'a> Parser<'a> {
    fn quantile_column(&mut self, per_mille: u32) -> (r: Result<Leaf>)
        requires
            old(self).wf(),
        ensures
            goes(
                *old(self),
                *final(self),
                seen(r),
                read_quantile_column(old(self).env(), old(self).i as int, per_mille),
            ),
    {
        let field = self.name("a column to take the quantile of")?;
        self.expect(&Tok::RParen, ") to close the quantile")?;
        Ok(Leaf { proj: Proj::Quantile { per_mille, field }, filter: None })
    }

    /// `quantile(p)(<column>)`, or a named one like `median(<column>)` whose level is fixed.
    fn quantile(&mut self, default: Option<u32>) -> (r: Result<Leaf>)
        requires
            old(self).wf(),
        ensures
            goes(
                *old(self),
                *final(self),
                seen(r),
                read_quantile(old(self).env(), old(self).i as int, default),
            ),
    {
        let level: Option<Option<u32>> = match self.peek() {
            Some(Tok::Num(v)) => if default.is_none() || self.tok_at_is(1, &Tok::RParen) {
                Some(level(v))
            } else {
                None
            },
            _ => None,
        };
        match level {
            Some(found) => {
                self.skip(1);
                let per_mille: u32 = match found {
                    Some(p) => p,
                    None => {
                        return Err(self.refuse(Refused::Quantile));
                    },
                };
                self.expect(&Tok::RParen, ") after the level")?;
                self.expect(&Tok::LParen, "( and the column")?;
                self.quantile_column(per_mille)
            },
            None => match default {
                Some(p) => self.quantile_column(p),
                None => Err(self.refuse(Refused::Quantile)),
            },
        }
    }

    fn ranked(&mut self, n: u64, want: &'static str) -> (r: Result<Leaf>)
        requires
            old(self).wf(),
        ensures
            goes(
                *old(self),
                *final(self),
                seen(r),
                read_ranked(old(self).env(), old(self).i as int, n, want@),
            ),
    {
        let field = self.name(want)?;
        self.expect(&Tok::RParen, ") to close topK")?;
        Ok(Leaf { proj: Proj::TopKeys { n, field }, filter: None })
    }

    /// `topK(n)(<column>)` or `topK(<column>)`, with the opening bracket already eaten.
    fn top_keys(&mut self) -> (r: Result<Leaf>)
        requires
            old(self).wf(),
        ensures
            goes(
                *old(self),
                *final(self),
                seen(r),
                read_top_keys(old(self).env(), old(self).i as int),
            ),
    {
        let count: Option<u64> = match self.peek() {
            Some(Tok::Num(Literal::Int(n))) => Some(*n),
            _ => None,
        };
        match count {
            Some(n) => {
                self.skip(1);
                self.expect(&Tok::RParen, ") after the number of keys")?;
                self.expect(&Tok::LParen, "( and the column to rank")?;
                self.ranked(n, "a column to rank")
            },
            None => self.ranked(DEFAULT_TOP_K, "a column to rank, or the number of keys"),
        }
    }

    /// What an aggregate measures, from inside its bracket.
    fn measured(&mut self, which: Which, iff: bool) -> (r: Result<Proj>)
        requires
            old(self).wf(),
        ensures
            goes(
                *old(self),
                *final(self),
                seen(r),
                read_measured(old(self).env(), old(self).i as int, which, iff),
            ),
    {
        match which {
            Which::Agg(func) => {
                let field = self.name("a column to aggregate")?;
                Ok(Proj::Agg { func, field })
            },
            Which::Avg => {
                let field = self.name("a column to average")?;
                Ok(Proj::Avg(field))
            },
            Which::Uniq => {
                let field = self.name("a column to count the values of")?;
                Ok(Proj::CountDistinct(field))
            },
            _ => {
                if iff {
                    Ok(Proj::Count)
                } else if self.eat(&Tok::Star) {
                    Ok(Proj::Count)
                } else if self.eat_word("DISTINCT") {
                    let field = self.name("a column")?;
                    Ok(Proj::CountDistinct(field))
                } else {
                    Err(self.refuse(Refused::Shape))
                }
            },
        }
    }

    /// One parsed aggregate: what it measures, and the condition an `-If` narrowed it by.
    ///
    /// `None` when `name` is not an aggregate at all, which is how a column is told from a
    /// function without a reserved word list.
    pub(crate) fn aggregate(&mut self, name: &str) -> (r: Result<Option<Leaf>>)
        requires
            old(self).wf(),
        ensures
            goes(
                *old(self),
                *final(self),
                seen_leaf(r),
                read_aggregate(old(self).env(), old(self).i as int, old(self).depth as int, name@),
            ),
            r matches Ok(None) ==> final(self).i == old(self).i,
    {
        let n = name.unicode_len();
        let iff = n > 2 && name.substring_char(n - 2, n).eq_ignore_ascii_case("if");
        let stem = if iff {
            name.substring_char(0, n - 2)
        } else {
            name
        };
        let which = match Which::of(stem) {
            None => {
                return Ok(None);
            },
            Some(which) => which,
        };
        if !self.is_tok(&Tok::LParen) {
            return Ok(None);
        }
        self.skip(1);
        match which {
            Which::TopKeys => {
                if iff {
                    return Err(self.refuse(Refused::Shape));
                }
                let leaf = self.top_keys()?;
                return Ok(Some(leaf));
            },
            Which::Quantile(default) => {
                if iff {
                    return Err(self.refuse(Refused::Shape));
                }
                let leaf = self.quantile(default)?;
                return Ok(Some(leaf));
            },
            _ => {},
        }
        let proj = self.measured(which, iff)?;
        let filter = if iff {
            let bare = match &proj {
                Proj::Count => true,
                _ => false,
            };
            if !bare {
                self.expect(&Tok::Comma, ", before the condition")?;
            }
            Some(self.cond()?)
        } else {
            None
        };
        self.expect(&Tok::RParen, ") to close the aggregate")?;
        Ok(Some(Leaf { proj, filter }))
    }
}

/// A level in parts per thousand.
fn level(v: &Literal) -> (r: Option<u32>)
    ensures
        r == level_of(v@),
{
    match v {
        Literal::Int(n) => {
            if *n == 0 {
                Some(0)
            } else if *n == 1 {
                Some(1000)
            } else {
                None
            }
        },
        Literal::Dec { units, scale } => {
            if *units > 1000 || *scale > 3 {
                return None;
            }
            let u: u32 = *units as u32;
            let parts: u32 = if *scale == 0 {
                u * 1000
            } else if *scale == 1 {
                u * 100
            } else if *scale == 2 {
                u * 10
            } else {
                u
            };
            if parts <= 1000 {
                Some(parts)
            } else {
                None
            }
        },
        _ => None,
    }
}

} // verus!
