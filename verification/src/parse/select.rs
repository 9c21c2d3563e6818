//! `SELECT`: the clauses, in the order they are written.

use vstd::prelude::*;
use crate::ast::{Cond, CondView, Grouping, GroupingSetsView, GroupingView, Having, HavingView, Item, ItemView, Order, OrderView, Proj, ProjView, Select, SelectView};
use crate::error::{Refused, Result, SqlError, SqlErrorView};
use crate::lex::{Tok, TokView};
use crate::parse::cond::read_cond;
use crate::parse::cursor::{expected, goes, offset, past_word, read_ident, read_number, refusal, refused, seen, seen_opt, seen_plain, tok_is, word_at, Env, Out, Parser};
use crate::parse::from::{read_joins, read_source};
use crate::parse::grouping::{boundary_of, bucket_of, read_group_by, MAX_GROUP_COLUMNS};
use crate::parse::having::{read_having, read_order};
use crate::parse::item::read_items;
use crate::shape::Format;
use crate::text::views;

verus! {

/// A `WHERE`-like clause under its keyword, when it is written.
pub open spec fn read_filter(e: Env, i: int, d: int, kw: Seq<char>) -> Out<Option<CondView>> {
    if word_at(e, i, kw) {
        match read_cond(e, i + 1, d) {
            Err(x) => Err(x),
            Ok((c, j)) => Ok((Some(c), j)),
        }
    } else {
        Ok((None, i))
    }
}

/// Both conditions, when both are there.
pub open spec fn both(a: Option<CondView>, b: Option<CondView>) -> Option<CondView> {
    match (a, b) {
        (Some(x), Some(y)) => Some(CondView::And(Box::new(x), Box::new(y))),
        (Some(x), None) => Some(x),
        (None, y) => y,
    }
}

/// `[PREWHERE c] [WHERE c]`, which are one condition.
pub open spec fn read_where(e: Env, i: int, d: int) -> Out<Option<CondView>> {
    match read_filter(e, i, d, "PREWHERE"@) {
        Err(x) => Err(x),
        Ok((a, j)) => match read_filter(e, j, d, "WHERE"@) {
            Err(x) => Err(x),
            Ok((b, k)) => Ok((both(a, b), k)),
        },
    }
}

/// The grouping one entry of a `DISTINCT` list stands for.
pub open spec fn distinct_term(item: ItemView) -> core::result::Result<GroupingView, SqlErrorView> {
    match item.proj {
        ProjView::Column(name) => Ok(GroupingView { name, bucket: None, at: item.at }),
        ProjView::Scalar { .. } => if item.leaf() is Column && boundary_of(item.apply()) is Some {
            Ok(
                GroupingView {
                    name: item.leaf()->Column_0,
                    bucket: boundary_of(item.apply()),
                    at: item.at,
                },
            )
        } else {
            Err(refusal(Refused::GroupExpression, item.at))
        },
        _ => Err(refusal(Refused::Shape, item.at)),
    }
}

/// The groupings a `DISTINCT` list stands for, from its `k`-th entry on.
pub open spec fn distinct_terms(
    items: Seq<ItemView>,
    k: int,
    before: Seq<GroupingView>,
) -> core::result::Result<Seq<GroupingView>, SqlErrorView>
    decreases items.len() - k,
{
    if k < 0 || k >= items.len() {
        Ok(before)
    } else {
        match distinct_term(items[k]) {
            Err(x) => Err(x),
            Ok(g) => distinct_terms(items, k + 1, before.push(g)),
        }
    }
}

/// What a statement groups by: its `GROUP BY`, or the list itself under `DISTINCT`. Both spellings
/// together are refused, whatever the clause names.
pub open spec fn grouped_by(
    distinct: bool,
    distinct_at: usize,
    items: Seq<ItemView>,
    by: Seq<GroupingView>,
    sets: Option<GroupingSetsView>,
) -> core::result::Result<Seq<GroupingView>, SqlErrorView> {
    if !distinct {
        Ok(by)
    } else if by.len() > 0 || sets is Some {
        Err(refusal(Refused::Shape, distinct_at))
    } else {
        match distinct_terms(items, 0, Seq::empty()) {
            Err(x) => Err(x),
            Ok(terms) => if terms.len() > MAX_GROUP_COLUMNS {
                Err(refusal(Refused::MultiDistinct, items[MAX_GROUP_COLUMNS as int].at))
            } else {
                Ok(terms)
            },
        }
    }
}

/// `HAVING`, when it is written.
pub open spec fn read_having_clause(e: Env, i: int, d: int) -> Out<Option<HavingView>> {
    if word_at(e, i, "HAVING"@) {
        match read_having(e, i + 1, d) {
            Err(x) => Err(x),
            Ok((h, j)) => Ok((Some(h), j)),
        }
    } else {
        Ok((None, i))
    }
}

/// `ORDER BY`, when it is written.
pub open spec fn read_order_clause(e: Env, i: int, d: int) -> Out<Option<OrderView>> {
    if !word_at(e, i, "ORDER"@) {
        Ok((None, i))
    } else if !word_at(e, i + 1, "BY"@) {
        Err(expected(e, i + 1, "BY after ORDER"@))
    } else {
        match read_order(e, i + 2, d) {
            Err(x) => Err(x),
            Ok((o, j)) => Ok((Some(o), j)),
        }
    }
}

/// `LIMIT n [WITH TIES]`, when it is written. Ties are ties of an order.
pub open spec fn read_limit(e: Env, i: int, in_order: bool) -> Out<(Option<u64>, bool)> {
    if !word_at(e, i, "LIMIT"@) {
        Ok(((None, false), i))
    } else {
        match read_number(e, i + 1, "a whole number after LIMIT"@) {
            Err(x) => Err(x),
            Ok((n, j)) => if !word_at(e, j, "WITH"@) {
                Ok(((Some(n), false), j))
            } else if !word_at(e, j + 1, "TIES"@) {
                Err(expected(e, j + 1, "TIES after WITH"@))
            } else if !in_order {
                Err(refused(e, j + 2, Refused::Order))
            } else {
                Ok(((Some(n), true), j + 2))
            },
        }
    }
}

/// `OFFSET n`, when it is written.
pub open spec fn read_offset(e: Env, i: int) -> Out<Option<u64>> {
    if word_at(e, i, "OFFSET"@) {
        match read_number(e, i + 1, "a whole number after OFFSET"@) {
            Err(x) => Err(x),
            Ok((n, j)) => Ok((Some(n), j)),
        }
    } else {
        Ok((None, i))
    }
}

/// `FORMAT f`, or the default.
pub open spec fn read_format(e: Env, i: int) -> Out<Format> {
    if !word_at(e, i, "FORMAT"@) {
        Ok((Format::Json, i))
    } else {
        match read_ident(e, i + 1, "a format name after FORMAT"@) {
            Err(x) => Err(x),
            Ok((name, j)) => match Format::spelled(name) {
                Some(f) => Ok((f, j)),
                None => Err(refused(e, i + 1, Refused::Format)),
            },
        }
    }
}

/// The clauses before `HAVING`, as a statement without the rest.
pub open spec fn read_head(e: Env, i: int, d: int) -> Out<SelectView> {
    let distinct = word_at(e, i, "DISTINCT"@);
    match read_items(e, past_word(e, i, "DISTINCT"@), d, Seq::empty()) {
        Err(x) => Err(x),
        Ok((items, j)) => if !word_at(e, j, "FROM"@) {
            Err(expected(e, j, "FROM after the select list"@))
        } else {
            match read_source(e, j + 1, "a table name"@) {
                Err(x) => Err(x),
                Ok((from, k)) => if tok_is(e, k, TokView::Comma) {
                    Err(refused(e, k, Refused::Joins))
                } else {
                    match read_joins(e, k, Seq::empty()) {
                        Err(x) => Err(x),
                        Ok((joins, l)) => match read_where(e, l, d) {
                            Err(x) => Err(x),
                            Ok((filter, m)) => match read_group_by(e, m, d) {
                                Err(x) => Err(x),
                                Ok(((by, grouping_sets), n)) => match grouped_by(
                                    distinct,
                                    offset(e, i),
                                    items,
                                    by,
                                    grouping_sets,
                                ) {
                                    Err(x) => Err(x),
                                    Ok(group_by) => Ok(
                                        (
                                            SelectView {
                                                items,
                                                from,
                                                joins,
                                                sample: None,
                                                filter,
                                                group_by,
                                                grouping_sets,
                                                having: None,
                                                order_by: None,
                                                limit: None,
                                                with_ties: false,
                                                offset: None,
                                                format: Format::Json,
                                            },
                                            n,
                                        ),
                                    ),
                                },
                            },
                        },
                    }
                },
            }
        },
    }
}

/// The clauses from `HAVING` on, added to a statement.
pub open spec fn read_tail(e: Env, i: int, d: int, head: SelectView) -> Out<SelectView> {
    match read_having_clause(e, i, d) {
        Err(x) => Err(x),
        Ok((having, j)) => match read_order_clause(e, j, d) {
            Err(x) => Err(x),
            Ok((order_by, k)) => match read_limit(e, k, order_by is Some) {
                Err(x) => Err(x),
                Ok(((limit, with_ties), l)) => match read_offset(e, l) {
                    Err(x) => Err(x),
                    Ok((skipped, m)) => match read_format(e, m) {
                        Err(x) => Err(x),
                        Ok((format, n)) => Ok(
                            (
                                SelectView {
                                    having,
                                    order_by,
                                    limit,
                                    with_ties,
                                    offset: skipped,
                                    format,
                                    ..head
                                },
                                n,
                            ),
                        ),
                    },
                },
            },
        },
    }
}

/// One `SELECT`, with the word already read.
pub open spec fn read_select(e: Env, i: int, d: int) -> Out<SelectView> {
    match read_head(e, i, d) {
        Err(x) => Err(x),
        Ok((head, j)) => read_tail(e, j, d, head),
    }
}

/// The groupings a `DISTINCT` list stands for.
fn distinct_groupings(items: &Vec<Item>) -> (r: Result<Vec<Grouping>>)
    ensures
        match r {
            Ok(v) => distinct_terms(views(items@), 0, Seq::empty()) == Ok::<_, SqlErrorView>(
                views(v@),
            ) && v@.len() == items@.len(),
            Err(e) => distinct_terms(views(items@), 0, Seq::empty()) == Err::<Seq<GroupingView>, _>(
                e@,
            ),
        },
{
    let mut by: Vec<Grouping> = Vec::new();
    let mut k: usize = 0;
    assert(views(by@) =~= Seq::<GroupingView>::empty());
    while k < items.len()
        invariant
            k <= items@.len(),
            by@.len() == k,
            distinct_terms(views(items@), 0, Seq::empty()) == distinct_terms(
                views(items@),
                k as int,
                views(by@),
            ),
        decreases items.len() - k,
    {
        let item = &items[k];
        assert(views(items@)[k as int] == item@);
        let ghost before = views(by@);
        let g = match &item.proj {
            Proj::Column(name) => Grouping { name: name.copied(), bucket: None, at: item.at },
            Proj::Scalar { .. } => match (item.leaf(), bucket_of(item.apply())) {
                (Proj::Column(name), Some(unit)) => Grouping {
                    name: name.copied(),
                    bucket: Some(unit),
                    at: item.at,
                },
                _ => {
                    return Err(SqlError::Refused { what: Refused::GroupExpression, at: item.at });
                },
            },
            _ => {
                return Err(SqlError::Refused { what: Refused::Shape, at: item.at });
            },
        };
        by.push(g);
        assert(views(by@) =~= before.push(g@));
        k += 1;
    }
    Ok(by)
}

impl<'a> Parser<'a> {
    /// A condition under its keyword, when it is written.
    fn filter(&mut self, kw: &str) -> (r: Result<Option<Cond>>)
        requires
            old(self).wf(),
        ensures
            goes(
                *old(self),
                *final(self),
                seen_opt(r),
                read_filter(old(self).env(), old(self).i as int, old(self).depth as int, kw@),
            ),
    {
        if self.eat_word(kw) {
            Ok(Some(self.cond()?))
        } else {
            Ok(None)
        }
    }

    /// `[PREWHERE c] [WHERE c]`, which are one condition.
    fn where_clause(&mut self) -> (r: Result<Option<Cond>>)
        requires
            old(self).wf(),
        ensures
            goes(
                *old(self),
                *final(self),
                seen_opt(r),
                read_where(old(self).env(), old(self).i as int, old(self).depth as int),
            ),
    {
        let pre = self.filter("PREWHERE")?;
        let filter = self.filter("WHERE")?;
        match (pre, filter) {
            (Some(a), Some(b)) => Ok(Some(Cond::And(Box::new(a), Box::new(b)))),
            (Some(one), None) => Ok(Some(one)),
            (None, other) => Ok(other),
        }
    }

    /// `HAVING`, when it is written.
    fn having_clause(&mut self) -> (r: Result<Option<Having>>)
        requires
            old(self).wf(),
        ensures
            goes(
                *old(self),
                *final(self),
                seen_opt(r),
                read_having_clause(old(self).env(), old(self).i as int, old(self).depth as int),
            ),
    {
        if self.eat_word("HAVING") {
            Ok(Some(self.having()?))
        } else {
            Ok(None)
        }
    }

    /// `ORDER BY`, when it is written.
    fn order_clause(&mut self) -> (r: Result<Option<Order>>)
        requires
            old(self).wf(),
        ensures
            goes(
                *old(self),
                *final(self),
                seen_opt(r),
                read_order_clause(old(self).env(), old(self).i as int, old(self).depth as int),
            ),
    {
        if !self.eat_word("ORDER") {
            return Ok(None);
        }
        self.expect_word("BY", "BY after ORDER")?;
        Ok(Some(self.order()?))
    }

    /// `LIMIT n [WITH TIES]`, when it is written.
    fn limit(&mut self, in_order: bool) -> (r: Result<(Option<u64>, bool)>)
        requires
            old(self).wf(),
        ensures
            goes(
                *old(self),
                *final(self),
                seen_plain(r),
                read_limit(old(self).env(), old(self).i as int, in_order),
            ),
    {
        if !self.eat_word("LIMIT") {
            return Ok((None, false));
        }
        let n = self.small_number("a whole number after LIMIT")?;
        if !self.eat_word("WITH") {
            return Ok((Some(n), false));
        }
        self.expect_word("TIES", "TIES after WITH")?;
        if !in_order {
            return Err(self.refuse(Refused::Order));
        }
        Ok((Some(n), true))
    }

    /// `OFFSET n`, when it is written.
    fn offset_clause(&mut self) -> (r: Result<Option<u64>>)
        requires
            old(self).wf(),
        ensures
            goes(
                *old(self),
                *final(self),
                seen_plain(r),
                read_offset(old(self).env(), old(self).i as int),
            ),
    {
        if self.eat_word("OFFSET") {
            Ok(Some(self.small_number("a whole number after OFFSET")?))
        } else {
            Ok(None)
        }
    }

    /// The trailing `FORMAT <name>`, or the default.
    pub(crate) fn format(&mut self) -> (r: Result<Format>)
        requires
            old(self).wf(),
        ensures
            goes(
                *old(self),
                *final(self),
                seen_plain(r),
                read_format(old(self).env(), old(self).i as int),
            ),
    {
        if !self.eat_word("FORMAT") {
            return Ok(Format::default());
        }
        let at = self.at();
        let name = self.bare_ident("a format name after FORMAT")?;
        match Format::of(name.as_str()) {
            Some(f) => Ok(f),
            None => Err(self.refuse_at(Refused::Format, at)),
        }
    }

    /// The clauses before `HAVING`.
    fn head(&mut self) -> (r: Result<Select>)
        requires
            old(self).wf(),
        ensures
            goes(
                *old(self),
                *final(self),
                seen(r),
                read_head(old(self).env(), old(self).i as int, old(self).depth as int),
            ),
            r is Ok ==> final(self).i > old(self).i,
    {
        let distinct_at = self.at();
        let distinct = self.eat_word("DISTINCT");
        let items = self.items()?;
        self.expect_word("FROM", "FROM after the select list")?;
        let from = self.source("a table name")?;
        if self.is_tok(&Tok::Comma) {
            return Err(self.refuse(Refused::Joins));
        }
        let joins = self.joins()?;
        let filter = self.where_clause()?;
        let (by, grouping_sets) = self.group_by()?;
        let group_by = if !distinct {
            by
        } else if by.len() > 0 || grouping_sets.is_some() {
            return Err(self.refuse_at(Refused::Shape, distinct_at));
        } else {
            let terms = distinct_groupings(&items)?;
            if terms.len() > MAX_GROUP_COLUMNS {
                return Err(self.refuse_at(Refused::MultiDistinct, items[MAX_GROUP_COLUMNS].at));
            }
            terms
        };
        Ok(
            Select {
                items,
                from,
                joins,
                sample: None,
                filter,
                group_by,
                grouping_sets,
                having: None,
                order_by: None,
                limit: None,
                with_ties: false,
                offset: None,
                format: Format::default(),
            },
        )
    }

    /// One `SELECT`, with the word already read.
    pub(crate) fn select(&mut self) -> (r: Result<Select>)
        requires
            old(self).wf(),
        ensures
            goes(
                *old(self),
                *final(self),
                seen(r),
                read_select(old(self).env(), old(self).i as int, old(self).depth as int),
            ),
            r is Ok ==> final(self).i > old(self).i,
    {
        let head = self.head()?;
        let having = self.having_clause()?;
        let order_by = self.order_clause()?;
        let (limit, with_ties) = self.limit(order_by.is_some())?;
        let offset = self.offset_clause()?;
        let format = self.format()?;
        Ok(Select { having, order_by, limit, with_ties, offset, format, ..head })
    }
}

} // verus!
