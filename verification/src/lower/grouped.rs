//! `GROUP BY` one keyed column, with the aggregates of it the select list asked for.

use vstd::prelude::*;
use crate::ast::{Grouping, GroupingView, Item, ItemView, Order, OrderKey, OrderKeyView, OrderView, Select, SelectView};
use crate::error::{Refused, Result, SqlError, SqlErrorView};
use crate::lower::calls::{no_names, asking, Ask, AskView, Calls, Probe, ProbeView, Statement, StatementView};
use crate::lower::keyed::{any_filtered, cells_for, cells_of, check_columns, check_numbers, column_fault, filtered, group_keys, keys_call, measures_of, number_fault, numbers_by, order_number, ordered_number};
use crate::lower::measure::{asks_nothing, find_first, first_of, having_of, having_resolved, kind, kind_of, listed_counts, measured, nameable, nothing_asked, only_counts, start, start_of, Frame, FrameView, Kind, Measure, Measures};
use crate::lower::pql::{call_of, field_arg, given_number, named_number, over};
use crate::lower::ungrouped::{a_call, as_length, length, lowered_to};
use crate::parse::cursor::refusal;
use crate::parse::grouping::{positions, upto};
use crate::pql::{Expr, ExprView};
use crate::shape::{Absent, Answer, AnswerView, Cut, GroupOrder, Of, OrderBy, Shape, ShapeView};
use crate::text::{same, views};

verus! {

/// Whether a column of the select list answers under a name, from a position on.
pub open spec fn shown_as(items: Seq<ItemView>, name: Seq<char>, k: int) -> bool
    decreases items.len() - k,
{
    if k < 0 || k >= items.len() {
        false
    } else {
        (kind_of(items[k]) == Kind::Column && items[k].column() == name) || shown_as(
            items,
            name,
            k + 1,
        )
    }
}

/// What an ordering of groups is by. A number of the answer is looked for before its key.
pub open spec fn order_by(
    order: OrderView,
    items: Seq<ItemView>,
    group: Seq<char>,
    measures: Measures,
) -> core::result::Result<OrderBy, SqlErrorView> {
    match order_number(
        order.key,
        items,
        if order.key is Name {
            measures
        } else {
            nameable(measures, listed_counts(0))
        },
    ) {
        Some(of) => Ok(OrderBy::Value { of }),
        None => match order.key {
            OrderKeyView::Name(n) => if shown_as(items, n.column, 0) || n.column == group {
                Ok(OrderBy::Key)
            } else {
                Err(refusal(Refused::Order, order.at))
            },
            _ => Err(refusal(Refused::Order, order.at)),
        },
    }
}

/// Whether an ordering is a ranking by count of the keys of a column, which the plan can do. A
/// ranking knows nothing of buckets.
pub open spec fn by_count(
    by: OrderBy,
    group: GroupingView,
    measures: Measures,
    with_ties: bool,
) -> bool {
    &&& !with_ties
    &&& group.bucket is None
    &&& measures.len() <= 1
    &&& by is Value
    &&& by->Value_of is Group
    &&& measures.len() == 1 ==> measures[0].0 is Count
}

/// Where an `ORDER BY` ends up: whether the plan ranks, and what is left to do to the merged
/// answer. Groups already come in the order of their key.
pub open spec fn ordering(select: SelectView, group: GroupingView, measures: Measures) -> core::result::Result<
    (bool, Option<GroupOrder>),
    SqlErrorView,
> {
    match select.order_by {
        None => Ok((false, None)),
        Some(order) => match order_by(order, select.items, group.name.column, measures) {
            Err(x) => Err(x),
            Ok(by) => if by is Key && !order.desc {
                Ok((false, None))
            } else if order.desc && by_count(
                by,
                group,
                nameable(measures, listed_counts(0)),
                select.with_ties,
            ) {
                Ok((true, None))
            } else {
                Ok((false, Some(GroupOrder { by, desc: order.desc })))
            },
        },
    }
}

/// The part of the ordered list a statement keeps.
pub open spec fn cut_of(select: SelectView) -> Cut {
    Cut {
        limit: as_length(select.limit),
        offset: as_length(select.offset),
        ties: select.with_ties,
    }
}

/// How many groups a ranking plan may stop at. A `HAVING` drops groups after the plan has ranked
/// them, and a tie may lie past the limit, so with either it may not stop.
pub open spec fn plan_cut(ranked: bool, having: bool, cut: Cut) -> Option<usize> {
    if ranked && !having && !cut.ties {
        match (cut.limit, cut.offset) {
            (Some(l), Some(o)) => if l + o <= usize::MAX {
                Some((l + o) as usize)
            } else {
                None
            },
            (Some(l), None) => Some(l),
            (None, _) => None,
        }
    } else {
        None
    }
}

/// What is left of a cut once the plan has stopped there.
pub open spec fn cut_after(cut: Cut, plan: Option<usize>) -> Cut {
    if plan is Some && cut.plain() {
        Cut { limit: None, ..cut }
    } else {
        cut
    }
}

/// `TopN(<rows>, field=<column>[, n=<most>])`.
pub open spec fn ranking(table: Seq<char>, rows: ExprView, select: SelectView, n: Option<usize>) -> Seq<
    AskView,
> {
    seq![
        AskView {
            table,
            call: a_call(
                "TopN"@,
                seq![rows, over(select.group_by[0].name)] + match n {
                    Some(n) => seq![given_number("n"@, n as u64)],
                    None => Seq::empty(),
                },
            ),
        },
    ]
}

/// The calls of a grouping and what they measure, with the one that lists the groups where
/// nothing else does.
pub open spec fn grouped_calls(select: SelectView, table: Seq<char>, rows: ExprView) -> core::result::Result<
    (Seq<AskView>, Measures),
    SqlErrorView,
> {
    let at = start_of(select.items);
    match numbers_by(
        select.items,
        0,
        Seq::empty(),
        Seq::empty(),
        at,
        table,
        rows,
        select.group_by,
    ) {
        Err(x) => Err(x),
        Ok((out, measures)) => if asks_nothing(measures) || filtered(select.items, 0) {
            match asking(out, at, table, group_keys(rows, select.group_by[0])) {
                Err(x) => Err(x),
                Ok((out2, _)) => Ok((out2, measures)),
            }
        } else {
            Ok((out, measures))
        },
    }
}

/// What no grouping can hold: `*`, a column that is not grouped by, and a number that would need
/// a grouping of its own.
pub open spec fn grouping_fault(select: SelectView) -> Option<SqlErrorView> {
    match first_of(select.items, Kind::Star, 0) {
        Some(k) => Some(refusal(Refused::Shape, select.items[k].at)),
        None => match column_fault(select.items, select.group_by, 0) {
            Some(x) => Some(x),
            None => number_fault(select.items, 0),
        },
    }
}

/// A statement with one grouped column.
pub open spec fn lowered_grouped(select: SelectView, table: Seq<char>, rows: ExprView) -> core::result::Result<
    StatementView,
    SqlErrorView,
> {
    match grouping_fault(select) {
        Some(x) => Err(x),
        None => match grouped_calls(select, table, rows) {
            Err(x) => Err(x),
            Ok((out, measures)) => match having_resolved(
                select.having,
                FrameView::One(table),
                nameable(measures, listed_counts(0)),
            ) {
                Err(x) => Err(x),
                Ok(having) => match ordering(select, select.group_by[0], measures) {
                    Err(x) => Err(x),
                    Ok((ranked, order)) => {
                        let stop = plan_cut(ranked, having is Some, cut_of(select));
                        let calls = if ranked {
                            ranking(table, rows, select, stop)
                        } else {
                            out
                        };
                        Ok(
                            StatementView {
                                calls,
                                probes: Seq::empty(),
                                reads: Seq::empty(),
                                answer: AnswerView {
                                    shape: ShapeView::Groups {
                                        keys: upto(calls.len()),
                                        cells: cells_for(
                                            select.items,
                                            table,
                                            select.group_by,
                                            seq![0],
                                            measures,
                                        ),
                                        having,
                                        order,
                                        cut: cut_after(cut_of(select), stop),
                                    },
                                    format: select.format,
                                    calls: 0,
                                },
                            },
                        )
                    },
                },
            },
        },
    }
}

/// Whether a column of the select list answers under a name.
fn is_shown(items: &Vec<Item>, name: &str) -> (r: bool)
    ensures
        r == shown_as(views(items@), name@, 0),
{
    let mut k: usize = 0;
    while k < items.len()
        invariant
            k <= items@.len(),
            shown_as(views(items@), name@, 0) == shown_as(views(items@), name@, k as int),
        decreases items.len() - k,
    {
        assert(views(items@)[k as int] == items@[k as int]@);
        if kind(&items[k]) == Kind::Column && same(items[k].column().as_str(), name) {
            return true;
        }
        k += 1;
    }
    false
}

/// What an ordering of groups is by.
fn ordered_by(
    order: &Order,
    items: &Vec<Item>,
    group: &str,
    measures: &Vec<(Measure, Of)>,
    named: &Vec<(Measure, Of)>,
) -> (r: Result<OrderBy>)
    requires
        measured(named@) == nameable(measured(measures@), listed_counts(0)),
    ensures
        order_by(order@, views(items@), group@, measured(measures@)) == (match r {
            Ok(by) => Ok::<_, SqlErrorView>(by),
            Err(e) => Err(e@),
        }),
{
    let numbers = match &order.key {
        OrderKey::Name(_) => measures,
        _ => named,
    };
    match ordered_number(&order.key, items, numbers) {
        Some(of) => Ok(OrderBy::Value { of }),
        None => match &order.key {
            OrderKey::Name(n) => {
                if is_shown(items, n.column.as_str()) || same(n.column.as_str(), group) {
                    Ok(OrderBy::Key)
                } else {
                    Err(SqlError::Refused { what: Refused::Order, at: order.at })
                }
            },
            _ => Err(SqlError::Refused { what: Refused::Order, at: order.at }),
        },
    }
}

/// Where an `ORDER BY` ends up.
fn place_order(
    select: &Select,
    group: &Grouping,
    measures: &Vec<(Measure, Of)>,
    named: &Vec<(Measure, Of)>,
) -> (r: Result<(bool, Option<GroupOrder>)>)
    requires
        measured(named@) == nameable(measured(measures@), listed_counts(0)),
    ensures
        ordering(select@, group@, measured(measures@)) == (match r {
            Ok(p) => Ok::<_, SqlErrorView>(p),
            Err(e) => Err(e@),
        }),
{
    match &select.order_by {
        None => Ok((false, None)),
        Some(order) => {
            let column = group.name.column.as_str();
            let by = ordered_by(order, &select.items, column, measures, named)?;
            assert(measured(named@).len() == named@.len());
            let keyed = match by {
                OrderBy::Key => true,
                _ => false,
            };
            if keyed && !order.desc {
                return Ok((false, None));
            }
            let grouped = match by {
                OrderBy::Value { of: Of::Group { .. } } => true,
                _ => false,
            };
            let counted = if named.len() == 0 {
                true
            } else {
                match named[0].0 {
                    Measure::Count => true,
                    _ => false,
                }
            };
            if order.desc && !select.with_ties && group.bucket.is_none() && named.len() <= 1
                && grouped && counted {
                return Ok((true, None));
            }
            Ok((false, Some(GroupOrder { by, desc: order.desc })))
        },
    }
}

/// The part of the ordered list a statement keeps.
pub fn cut(select: &Select) -> (r: Cut)
    ensures
        r == cut_of(select@),
{
    Cut {
        limit: length(select.limit),
        offset: length(select.offset),
        ties: select.with_ties,
    }
}

/// How many groups a ranking plan may stop at.
fn stop_at(ranked: bool, having: bool, cut: Cut) -> (r: Option<usize>)
    ensures
        r == plan_cut(ranked, having, cut),
{
    if ranked && !having && !cut.ties {
        match (cut.limit, cut.offset) {
            (Some(l), Some(o)) => l.checked_add(o),
            (Some(l), None) => Some(l),
            (None, _) => None,
        }
    } else {
        None
    }
}

/// `TopN(<rows>, field=<column>[, n=<most>])`.
fn rank(select: &Select, table: &str, rows: &Expr, n: Option<usize>) -> (r: Vec<Ask>)
    requires
        select.group_by@.len() == 1,
    ensures
        views(r@) == ranking(table@, rows@, select@, n),
{
    assert(select@.group_by[0] == select.group_by@[0]@);
    let mut args: Vec<Expr> = Vec::new();
    args.push(rows.copied());
    args.push(field_arg(&select.group_by[0].name));
    if let Some(n) = n {
        args.push(named_number("n", n as u64));
    }
    assert(views(args@) =~= ranking(table@, rows@, select@, n)[0].call.args);
    let mut out: Vec<Ask> = Vec::new();
    out.push(Ask { table: str::to_owned(table), call: call_of("TopN", args) });
    assert(views(out@) =~= ranking(table@, rows@, select@, n));
    out
}

/// Refuses what no grouping can hold.
fn refuse_what_a_grouping_cannot_hold(select: &Select) -> (r: Result<()>)
    ensures
        match r {
            Ok(_) => grouping_fault(select@) is None,
            Err(e) => grouping_fault(select@) == Some(e@),
        },
{
    if let Some(k) = find_first(&select.items, Kind::Star, 0) {
        assert(select@.items[k as int] == select.items@[k as int]@);
        return Err(SqlError::Refused { what: Refused::Shape, at: select.items[k].at });
    }
    check_columns(&select.items, &select.group_by)?;
    check_numbers(&select.items)
}

/// The calls of a grouping and what they measure.
fn calls_of(select: &Select, table: &str, rows: &Expr) -> (r: Result<
    (Vec<Ask>, Vec<(Measure, Of)>),
>)
    requires
        select.group_by@.len() == 1,
    ensures
        grouped_calls(select@, table@, rows@) == (match r {
            Ok(p) => Ok::<_, SqlErrorView>((views(p.0@), measured(p.1@))),
            Err(e) => Err(e@),
        }),
{
    assert(select@.group_by[0] == select.group_by@[0]@);
    let at = start(&select.items);
    let mut calls = Calls::new(at);
    let measures = measures_of(table, rows, &select.group_by, &select.items, &mut calls)?;
    assert(measured(measures@).len() == measures@.len());
    if nothing_asked(&measures) || any_filtered(&select.items) {
        calls.push(table, keys_call(rows.copied(), &select.group_by[0]))?;
    }
    Ok((calls.out, measures))
}

/// `GROUP BY` one keyed column.
pub fn grouped(select: &Select, table: &str, rows: &Expr) -> (r: Result<Statement>)
    requires
        select.group_by@.len() == 1,
    ensures
        lowered_to(r) == lowered_grouped(select@, table@, rows@),
{
    assert(select@.group_by[0] == select.group_by@[0]@);
    refuse_what_a_grouping_cannot_hold(select)?;
    let (out, measures) = calls_of(select, table, rows)?;
    let counts = only_counts(Of::Group { plan: 0, absent: Absent::Zero });
    let named = if nothing_asked(&measures) {
        &counts
    } else {
        &measures
    };
    let having = having_of(&select.having, Frame::One(table), named)?;
    let (ranked, order) = place_order(select, &select.group_by[0], &measures, named)?;
    let whole = cut(select);
    let stop = stop_at(ranked, having.is_some(), whole);
    let mut set: Vec<usize> = Vec::new();
    set.push(0);
    assert(set@ =~= seq![0usize]);
    let cells = cells_of(&select.items, table, &select.group_by, &set, &measures);
    let calls = if ranked {
        rank(select, table, rows, stop)
    } else {
        out
    };
    let kept = if stop.is_some() && whole.is_plain_limit() {
        Cut { limit: None, offset: whole.offset, ties: whole.ties }
    } else {
        whole
    };
    let keys = positions(calls.len());
    let probes: Vec<Probe> = Vec::new();
    assert(views(probes@) =~= Seq::<ProbeView>::empty());
    assert(views(calls@).len() == calls@.len());
    Ok(
        Statement {
            calls,
            probes,
            reads: no_names(),
            answer: Answer {
                shape: Shape::Groups { keys, cells, having, order, cut: kept },
                format: select.format,
                calls: 0,
            },
        },
    )
}

} // verus!
