//! `GROUP BY` two columns or more: one row per combination of their keys.

use vstd::prelude::*;
use crate::ast::{Order, OrderKey, OrderKeyView, Select, SelectView};
use crate::error::{Refused, Result, SqlError, SqlErrorView};
use crate::lower::calls::{no_names, asking, AskView, Calls, Probe, ProbeView, Statement, StatementView};
use crate::lower::grouped::{cut, cut_of};
use crate::lower::keyed::{cells_for, cells_of, check_columns, column_fault, measures_of, numbers_by, order_number, ordered_number, repeated, repeats, tuple_args, tuple_arguments};
use crate::lower::measure::{find_first, first_of, having_of, having_resolved, measured, start, start_of, Frame, FrameView, Kind, Measure, Measures};
use crate::lower::pql::call_of;
use crate::lower::ungrouped::{a_call, lowered_to};
use crate::parse::cursor::refusal;
use crate::parse::grouping::{find_grouped, grouped_at, positions, upto};
use crate::pql::{Expr, ExprView};
use crate::shape::{Answer, AnswerView, GroupOrder, Of, OrderBy, Shape, ShapeView};
use crate::text::views;

verus! {

/// The order of a grouping by several columns, as what is left to do to the merged answer.
pub open spec fn tuple_order(select: SelectView, measures: Measures) -> core::result::Result<
    Option<GroupOrder>,
    SqlErrorView,
> {
    match select.order_by {
        None => Ok(None),
        Some(order) => if order.key is Avg {
            Err(refusal(Refused::Order, order.at))
        } else {
            match order_number(order.key, select.items, measures) {
                Some(of) => Ok(Some(GroupOrder { by: OrderBy::Value { of }, desc: order.desc })),
                None => match order.key {
                    OrderKeyView::Name(n) => if grouped_at(select.group_by, n.column) is None {
                        Err(refusal(Refused::Order, order.at))
                    } else if order.desc {
                        Ok(Some(GroupOrder { by: OrderBy::Key, desc: true }))
                    } else {
                        Ok(None)
                    },
                    _ => Err(refusal(Refused::Order, order.at)),
                },
            }
        },
    }
}

/// What a grouping by several columns cannot hold.
pub open spec fn tuple_fault(select: SelectView) -> Option<SqlErrorView> {
    match first_of(select.items, Kind::Star, 0) {
        Some(k) => Some(refusal(Refused::Shape, select.items[k].at)),
        None => if repeated(select.group_by) {
            Some(refusal(Refused::Shape, start_of(select.items)))
        } else {
            column_fault(select.items, select.group_by, 0)
        },
    }
}

/// The calls of a grouping and what they measure, with the one that lists the combinations where
/// nothing else does.
pub open spec fn tuple_calls(select: SelectView, table: Seq<char>, rows: ExprView) -> core::result::Result<
    (Seq<AskView>, Measures),
    SqlErrorView,
> {
    let at = start_of(select.items);
    match numbers_by(
        select.items,
        0,
        Seq::empty(),
        Seq::empty(),
        at,
        table,
        rows,
        select.group_by,
    ) {
        Err(x) => Err(x),
        Ok((out, measures)) => if measures.len() == 0 {
            match asking(
                out,
                at,
                table,
                a_call("GroupByTuple"@, tuple_args(select.group_by, rows)),
            ) {
                Err(x) => Err(x),
                Ok((out2, _)) => Ok((out2, measures)),
            }
        } else {
            Ok((out, measures))
        },
    }
}

/// A statement with several grouped columns.
pub open spec fn lowered_tuples(select: SelectView, table: Seq<char>, rows: ExprView) -> core::result::Result<
    StatementView,
    SqlErrorView,
> {
    match tuple_fault(select) {
        Some(x) => Err(x),
        None => match tuple_calls(select, table, rows) {
            Err(x) => Err(x),
            Ok((calls, measures)) => match having_resolved(
                select.having,
                FrameView::One(table),
                measures,
            ) {
                Err(x) => Err(x),
                Ok(having) => match tuple_order(select, measures) {
                    Err(x) => Err(x),
                    Ok(order) => Ok(
                        StatementView {
                            calls,
                            probes: Seq::empty(),
                            reads: Seq::empty(),
                            answer: AnswerView {
                                shape: ShapeView::Tuples {
                                    axes: select.group_by.len() as u8,
                                    keys: upto(calls.len()),
                                    cells: cells_for(
                                        select.items,
                                        table,
                                        select.group_by,
                                        upto(select.group_by.len()),
                                        measures,
                                    ),
                                    having,
                                    order,
                                    cut: cut_of(select),
                                },
                                format: select.format,
                                calls: 0,
                            },
                        },
                    ),
                },
            },
        },
    }
}

/// The order of a grouping by several columns.
fn place_order(select: &Select, measures: &Vec<(Measure, Of)>) -> (r: Result<Option<GroupOrder>>)
    ensures
        tuple_order(select@, measured(measures@)) == (match r {
            Ok(p) => Ok::<_, SqlErrorView>(p),
            Err(e) => Err(e@),
        }),
{
    let order = match &select.order_by {
        None => {
            return Ok(None);
        },
        Some(order) => order,
    };
    if let OrderKey::Avg(_) = &order.key {
        return Err(SqlError::Refused { what: Refused::Order, at: order.at });
    }
    match ordered_number(&order.key, &select.items, measures) {
        Some(of) => Ok(Some(GroupOrder { by: OrderBy::Value { of }, desc: order.desc })),
        None => match &order.key {
            OrderKey::Name(n) => {
                if find_grouped(&select.group_by, n.column.as_str()).is_none() {
                    Err(SqlError::Refused { what: Refused::Order, at: order.at })
                } else if order.desc {
                    Ok(Some(GroupOrder { by: OrderBy::Key, desc: true }))
                } else {
                    Ok(None)
                }
            },
            _ => Err(SqlError::Refused { what: Refused::Order, at: order.at }),
        },
    }
}

/// Refuses what a grouping by several columns cannot hold.
fn check(select: &Select) -> (r: Result<()>)
    ensures
        match r {
            Ok(_) => tuple_fault(select@) is None,
            Err(e) => tuple_fault(select@) == Some(e@),
        },
{
    if let Some(k) = find_first(&select.items, Kind::Star, 0) {
        assert(select@.items[k as int] == select.items@[k as int]@);
        return Err(SqlError::Refused { what: Refused::Shape, at: select.items[k].at });
    }
    if repeats(&select.group_by) {
        return Err(SqlError::Refused { what: Refused::Shape, at: start(&select.items) });
    }
    check_columns(&select.items, &select.group_by)
}

/// `GROUP BY` several columns.
pub fn tuples(select: &Select, table: &str, rows: &Expr) -> (r: Result<Statement>)
    requires
        2 <= select.group_by@.len() <= 255,
    ensures
        lowered_to(r) == lowered_tuples(select@, table@, rows@),
{
    check(select)?;
    let mut calls = Calls::new(start(&select.items));
    let measures = measures_of(table, rows, &select.group_by, &select.items, &mut calls)?;
    assert(measured(measures@).len() == measures@.len());
    if measures.len() == 0 {
        let args = tuple_arguments(&select.group_by, rows.copied());
        calls.push(table, call_of("GroupByTuple", args))?;
    }
    let having = having_of(&select.having, Frame::One(table), &measures)?;
    let order = place_order(select, &measures)?;
    let set = positions(select.group_by.len());
    let cells = cells_of(&select.items, table, &select.group_by, &set, &measures);
    let keys = positions(calls.out.len());
    let probes: Vec<Probe> = Vec::new();
    assert(views(probes@) =~= Seq::<ProbeView>::empty());
    assert(views(calls.out@).len() == calls.out@.len());
    Ok(
        Statement {
            calls: calls.out,
            probes,
            reads: no_names(),
            answer: Answer {
                shape: Shape::Tuples {
                    axes: select.group_by.len() as u8,
                    keys,
                    cells,
                    having,
                    order,
                    cut: cut(select),
                },
                format: select.format,
                calls: 0,
            },
        },
    )
}

} // verus!
