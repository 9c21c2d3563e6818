//! A number of an answer is the aggregate that was asked for.

use vstd::prelude::*;
use crate::ast::{Agg, CondView, GroupingView, ItemView, NameView, ProjView, SelectView};
use crate::lower::calls::{asking, asking_is_frugal, frugal, AskView, ProbeView};
use crate::lower::cond::{a_condition_is_a_call, selected};
use crate::lower::keyed::{aggregate_arg, bucket, by_arg, group_counts, group_numbers, level, number_by, tuple_args};
use crate::lower::measure::narrowed;
use crate::lower::model::{allows, among, argument, asked_of, axes_by, axes_of, axes_upto, axis_in, axis_of, boundary, comes_to, figure, field_in, folded, held, least, greatest, number_at, over_records, picks, reduced, total, Axis, Stored};
use crate::lower::pql::{every_row, over};
use crate::lower::selecting::{a_where_picks_the_records_it_is_true_of, lemma_call_names};
use crate::lower::ungrouped::a_call;
use crate::pql::ExprView;
use crate::shape::Of;

verus! {

/// Arguments and the calls that answer numbers have names of their own.
pub proof fn lemma_answer_names()
    ensures
        "field"@ != "by"@ && "field"@ != "aggregate"@ && "field"@ != "n"@ && "field"@ != "unit"@,
        "by"@ != "aggregate"@ && "by"@ != "n"@ && "aggregate"@ != "n"@ && "unit"@ != "n"@,
        "Sum"@ != "Min"@ && "Sum"@ != "Max"@ && "Min"@ != "Max"@,
        "Count"@ != "Sum"@ && "Count"@ != "Min"@ && "Count"@ != "Max"@,
        "Count"@ != "Distinct"@ && "Count"@ != "GroupBy"@ && "Count"@ != "GroupByTuple"@ && "Count"@
            != "TopN"@,
        "Sum"@ != "Distinct"@ && "Sum"@ != "GroupBy"@ && "Sum"@ != "GroupByTuple"@ && "Sum"@
            != "TopN"@,
        "Min"@ != "Distinct"@ && "Min"@ != "GroupBy"@ && "Min"@ != "GroupByTuple"@ && "Min"@
            != "TopN"@,
        "Max"@ != "Distinct"@ && "Max"@ != "GroupBy"@ && "Max"@ != "GroupByTuple"@ && "Max"@
            != "TopN"@,
{
    reveal_strlit("field");
    reveal_strlit("by");
    reveal_strlit("aggregate");
    reveal_strlit("n");
    reveal_strlit("unit");
    reveal_strlit("Sum");
    reveal_strlit("Min");
    reveal_strlit("Max");
    reveal_strlit("Count");
    reveal_strlit("Distinct");
    reveal_strlit("GroupBy");
    reveal_strlit("GroupByTuple");
    reveal_strlit("TopN");
    assert("Min"@[1] == 'i');
    assert("Max"@[1] == 'a');
    assert("Sum"@[1] == 'u');
    assert("field"@.len() == 5);
    assert("by"@.len() == 2);
    assert("aggregate"@.len() == 9);
    assert("n"@.len() == 1);
    assert("unit"@.len() == 4);
    assert("Count"@.len() == 5);
    assert("Distinct"@.len() == 8);
    assert("GroupBy"@.len() == 7);
    assert("GroupByTuple"@.len() == 12);
    assert("TopN"@.len() == 4);
}

/// Whether an expression selects the records two conditions are true of.
pub open spec fn right_rows(
    rows: ExprView,
    filter: Option<CondView>,
    narrow: Option<CondView>,
    table: Seq<char>,
    w: Stored,
) -> bool {
    rows is Call && forall|r: int| #[trigger]
        picks(rows, table, r, w) == (allows(filter, table, r, w) && allows(narrow, table, r, w))
}

/// The records of a `WHERE`.
pub proof fn lemma_rows(select: SelectView, table: Seq<char>, w: Stored)
    ensures
        right_rows(select.rows(), select.filter, None, table, w),
{
    lemma_call_names();
    match select.filter {
        Some(c) => {
            a_condition_is_a_call(c);
            assert forall|r: int| #[trigger] picks(select.rows(), table, r, w) == allows(
                select.filter,
                table,
                r,
                w,
            ) by {
                a_where_picks_the_records_it_is_true_of(c, table, r, w);
            }
        },
        None => {
            assert(select.rows() == every_row());
        },
    }
}

/// The records of a `WHERE` and a `FILTER`.
pub proof fn lemma_narrowed(
    rows: ExprView,
    item: ItemView,
    filter: Option<CondView>,
    table: Seq<char>,
    w: Stored,
)
    requires
        right_rows(rows, filter, None, table, w),
    ensures
        right_rows(narrowed(rows, item), filter, item.filter, table, w),
{
    lemma_call_names();
    match item.filter {
        Some(c) => {
            let e = narrowed(rows, item);
            assert forall|r: int| #[trigger] picks(e, table, r, w) == (allows(filter, table, r, w)
                && allows(item.filter, table, r, w)) by {
                a_where_picks_the_records_it_is_true_of(c, table, r, w);
                let args = e->Call_0.args;
                assert(args.len() == 2);
                assert(args[0] == rows);
                assert(args[1] == selected(c));
                assert(picks(rows, table, r, w) == allows(filter, table, r, w));
                if picks(args[0], table, r, w) && picks(args[1], table, r, w) {
                    assert forall|k: int| 0 <= k < args.len() implies picks(
                        #[trigger] args[k],
                        table,
                        r,
                        w,
                    ) by {}
                }
            }
        },
        None => {},
    }
}

/// A call over the right records is over the records that were asked about.
pub proof fn lemma_over(
    ask: AskView,
    filter: Option<CondView>,
    narrow: Option<CondView>,
    axes: Seq<Axis>,
    keys: Seq<int>,
    w: Stored,
)
    requires
        ask.call.args.len() > 0,
        right_rows(ask.call.args[0], filter, narrow, ask.table, w),
        axes_of(ask.call) == axes,
    ensures
        over_records(ask, keys, w) == asked_of(w, ask.table, filter, narrow, axes, keys),
{
    let f = |r: int|
        picks(ask.call.args[0], ask.table, r, w) && among(
            ask.table,
            r,
            axes_of(ask.call),
            keys,
            w,
        );
    let g = |r: int|
        allows(filter, ask.table, r, w) && allows(narrow, ask.table, r, w) && among(
            ask.table,
            r,
            axes,
            keys,
            w,
        );
    assert(f =~= g);
}

/// Where no argument from a position to another is the one that is looked for, it is looked for
/// after them.
pub proof fn lemma_skip(args: Seq<ExprView>, from: int, to: int, name: Seq<char>)
    requires
        0 <= from <= to <= args.len(),
        forall|k: int|
            from <= k < to ==> !((#[trigger] args[k]) is Named && args[k]->Named_name == name),
    ensures
        argument(args, from, name) == argument(args, to, name),
    decreases to - from,
{
    if from < to {
        lemma_skip(args, from + 1, to, name);
        assert(!(args[from] is Named && args[from]->Named_name == name));
    }
}

/// What a grouping argument groups by.
proof fn lemma_axis(g: GroupingView)
    ensures
        axis_in(by_arg(g)) == Some(axis_of(g)),
        axis_in(level(g)) == Some(axis_of(g)),
        by_arg(g) is Named && (by_arg(g)->Named_name == "field"@ || by_arg(g)->Named_name == "by"@),
        level(g) is Named && level(g)->Named_name == "by"@,
{
    lemma_answer_names();
    match g.bucket {
        Some(unit) => {
            let args = bucket(g.name, unit)->Call_0.args;
            assert(args[0] == over(g.name));
            reveal_with_fuel(argument, 3);
            assert(argument(args, 0, "field"@) == Some(ExprView::Ident(g.name.column)));
            assert(args.len() == 3);
            assert(args[1] == crate::lower::pql::given_text("unit"@, unit.word()));
            assert(unit.word() == boundary(unit));
        },
        None => {},
    }
}

/// The axes of a call whose arguments are the records, groupings, and others that group by
/// nothing.
proof fn lemma_axes(args: Seq<ExprView>, by: Seq<GroupingView>, n: int)
    requires
        0 <= n <= args.len(),
        1 + by.len() <= args.len(),
        args[0] is Call,
        forall|k: int| 0 <= k < by.len() ==> axis_in(#[trigger] args[k + 1]) == Some(axis_of(by[k])),
        forall|k: int| by.len() < k < args.len() ==> axis_in(#[trigger] args[k]) is None,
    ensures
        axes_upto(args, n) == axes_by(by).take(
            if n <= 0 {
                0
            } else if n - 1 <= by.len() {
                n - 1
            } else {
                by.len() as int
            },
        ),
    decreases n,
{
    let m = if n <= 0 {
        0
    } else if n - 1 <= by.len() {
        n - 1
    } else {
        by.len() as int
    };
    if n > 0 {
        lemma_axes(args, by, n - 1);
        if n == 1 {
            assert(axis_in(args[0]) is None);
            assert(axes_upto(args, 1) =~= axes_by(by).take(0));
        } else if n - 1 <= by.len() {
            assert(axis_in(args[(n - 2) + 1]) == Some(axis_of(by[n - 2])));
            assert(axes_upto(args, n) =~= axes_by(by).take(n - 1));
        } else {
            assert(axis_in(args[n - 1]) is None);
        }
    } else {
        assert(axes_upto(args, n) =~= axes_by(by).take(0));
    }
}

/// The same of all the arguments.
pub proof fn lemma_all_axes(args: Seq<ExprView>, by: Seq<GroupingView>)
    requires
        1 + by.len() <= args.len(),
        args[0] is Call,
        forall|k: int| 0 <= k < by.len() ==> axis_in(#[trigger] args[k + 1]) == Some(axis_of(by[k])),
        forall|k: int| by.len() < k < args.len() ==> axis_in(#[trigger] args[k]) is None,
    ensures
        axes_upto(args, args.len() as int) == axes_by(by),
{
    lemma_axes(args, by, args.len() as int);
    assert(axes_by(by).take(by.len() as int) =~= axes_by(by));
}

/// What the functions of the query language make of numbers.
proof fn lemma_reduced(func: Agg, s: Seq<int>)
    ensures
        reduced(func.called(), s) == folded(func, s),
        func.called() == "Sum"@ || func.called() == "Min"@ || func.called() == "Max"@,
{
    lemma_answer_names();
}

/// A call of the right records, groupings and aggregate answers that aggregate.
proof fn lemma_call(
    ask: AskView,
    filter: Option<CondView>,
    narrow: Option<CondView>,
    axes: Seq<Axis>,
    keys: Seq<int>,
    aggregate: Option<(Agg, NameView)>,
    w: Stored,
)
    requires
        ask.call.args.len() > 0,
        right_rows(ask.call.args[0], filter, narrow, ask.table, w),
        axes_of(ask.call) == axes,
        ask.call.name != "Sum"@ && ask.call.name != "Min"@ && ask.call.name != "Max"@,
        argument(ask.call.args, 0, "aggregate"@) == match aggregate {
            Some((func, field)) => Some(*aggregate_arg(func.called(), field)->Named_value),
            None => None,
        },
    ensures
        over_records(ask, keys, w) == asked_of(w, ask.table, filter, narrow, axes, keys),
        number_at(ask, keys, w) == match aggregate {
            Some((func, field)) => folded(
                func,
                held(
                    w,
                    ask.table,
                    asked_of(w, ask.table, filter, narrow, axes, keys),
                    field.column,
                ),
            ),
            None => Some(asked_of(w, ask.table, filter, narrow, axes, keys).len() as int),
        },
{
    lemma_over(ask, filter, narrow, axes, keys, w);
    match aggregate {
        Some((func, field)) => {
            let args = seq![over(field)];
            assert(args[0] == over(field));
            assert(field_in(args) == field.column);
            lemma_reduced(
                func,
                held(
                    w,
                    ask.table,
                    asked_of(w, ask.table, filter, narrow, axes, keys),
                    field.column,
                ),
            );
        },
        None => {},
    }
}

/// An aggregate call over a whole set of records.
proof fn lemma_whole_call(
    ask: AskView,
    filter: Option<CondView>,
    narrow: Option<CondView>,
    func: Agg,
    field: NameView,
    keys: Seq<int>,
    w: Stored,
)
    requires
        ask.call.name == func.called(),
        ask.call.args.len() == 2,
        right_rows(ask.call.args[0], filter, narrow, ask.table, w),
        ask.call.args[1] == over(field),
    ensures
        number_at(ask, keys, w) == folded(
            func,
            held(
                w,
                ask.table,
                asked_of(w, ask.table, filter, narrow, Seq::empty(), keys),
                field.column,
            ),
        ),
{
    lemma_answer_names();
    lemma_over(ask, filter, narrow, Seq::empty(), keys, w);
    reveal_with_fuel(argument, 3);
    assert(field_in(ask.call.args) == field.column);
    lemma_reduced(
        func,
        held(
            w,
            ask.table,
            asked_of(w, ask.table, filter, narrow, Seq::empty(), keys),
            field.column,
        ),
    );
}

/// Whether a number is what an aggregate comes to, in the group of any keys.
pub open spec fn answers(
    of: Of,
    calls: Seq<AskView>,
    probes: Seq<ProbeView>,
    leaf: ProjView,
    table: Seq<char>,
    filter: Option<CondView>,
    narrow: Option<CondView>,
    by: Seq<GroupingView>,
    w: Stored,
) -> bool {
    forall|keys: Seq<int>|
        #[trigger] figure(of, calls, probes, keys, w) == comes_to(
            leaf,
            table,
            asked_of(w, table, filter, narrow, axes_by(by), keys),
            w,
        )
}

/// A number stays what it is when more is asked.
pub proof fn lemma_same_figure(
    of: Of,
    calls: Seq<AskView>,
    more: Seq<AskView>,
    probes: Seq<ProbeView>,
    most: Seq<ProbeView>,
    keys: Seq<int>,
    w: Stored,
)
    requires
        of.fits(calls.len() as int, probes.len() as int),
        calls.is_prefix_of(more),
        probes.is_prefix_of(most),
    ensures
        figure(of, calls, probes, keys, w) == figure(of, more, most, keys, w),
{
    assert forall|k: int| 0 <= k < calls.len() implies calls[k] == more[k] by {
        assert(more.subrange(0, calls.len() as int)[k] == more[k]);
    }
    assert forall|k: int| 0 <= k < probes.len() implies probes[k] == most[k] by {
        assert(most.subrange(0, probes.len() as int)[k] == most[k]);
    }
    let from = of.read_from();
    if from.len() > 0 {
        assert(from[0] < calls.len());
        if from.len() > 1 {
            assert(from[1] < calls.len());
        }
    }
}

/// A grouping call by its arguments.
pub proof fn lemma_grouping_call(
    ask: AskView,
    filter: Option<CondView>,
    narrow: Option<CondView>,
    by: Seq<GroupingView>,
    keys: Seq<int>,
    aggregate: Option<(Agg, NameView)>,
    w: Stored,
)
    requires
        by.len() > 0,
        by.len() == 1 ==> ask.call == match aggregate {
            Some((func, field)) => group_numbers(ask.call.args[0], by[0], func.called(), field),
            None => group_counts(ask.call.args[0], by[0]),
        },
        by.len() > 1 ==> ask.call == a_call(
            "GroupByTuple"@,
            match aggregate {
                Some((func, field)) => tuple_args(by, ask.call.args[0]).push(
                    aggregate_arg(func.called(), field),
                ),
                None => tuple_args(by, ask.call.args[0]),
            },
        ),
        ask.call.args.len() > 0,
        right_rows(ask.call.args[0], filter, narrow, ask.table, w),
    ensures
        axes_of(ask.call) == axes_by(by),
        over_records(ask, keys, w) == asked_of(w, ask.table, filter, narrow, axes_by(by), keys),
        number_at(ask, keys, w) == match aggregate {
            Some((func, field)) => folded(
                func,
                held(
                    w,
                    ask.table,
                    asked_of(w, ask.table, filter, narrow, axes_by(by), keys),
                    field.column,
                ),
            ),
            None => Some(asked_of(w, ask.table, filter, narrow, axes_by(by), keys).len() as int),
        },
{
    lemma_answer_names();
    let args = ask.call.args;
    let last = args.len() - 1;
    let n = by.len() as int;
    assert forall|k: int| 0 <= k < n implies axis_in(#[trigger] args[k + 1]) == Some(axis_of(by[k]))
        && args[k + 1] is Named && args[k + 1]->Named_name != "aggregate"@ by {
        lemma_axis(by[k]);
        if n == 1 {
            assert(args[1] == by_arg(by[0]));
        } else {
            assert(args[k + 1] == level(by[k]));
        }
    }
    if n == 1 {
        assert(args.len() == if aggregate is Some {
            3int
        } else {
            2
        });
        if let Some((func, field)) = aggregate {
            assert(args[2] == aggregate_arg(func.called(), field));
        }
    } else {
        assert(args.len() == n + 2 + if aggregate is Some {
            1int
        } else {
            0
        });
        assert(args[n + 1] == crate::lower::pql::given_number(
            "n"@,
            crate::lower::calls::MAX_PASSES,
        ));
        if let Some((func, field)) = aggregate {
            assert(args[n + 2] == aggregate_arg(func.called(), field));
        }
    }
    assert forall|k: int| n < k < args.len() implies axis_in(#[trigger] args[k]) is None by {}
    lemma_all_axes(args, by);
    assert forall|k: int| 0 <= k <= n implies !((#[trigger] args[k]) is Named
        && args[k]->Named_name == "aggregate"@) by {
        if k > 0 {
            assert(args[(k - 1) + 1] is Named);
        }
    }
    lemma_skip(args, 0, n + 1, "aggregate"@);
    reveal_with_fuel(argument, 4);
    assert(argument(args, 0, "aggregate"@) == match aggregate {
        Some((func, field)) => Some(*aggregate_arg(func.called(), field)->Named_value),
        None => None,
    });
    lemma_call(ask, filter, narrow, axes_by(by), keys, aggregate, w);
}

proof fn lemma_empty_folds()
    ensures
        least(Seq::empty()) is None,
        greatest(Seq::empty()) is None,
        total(Seq::empty()) == 0,
{
}

proof fn lemma_held_nothing(w: Stored, table: Seq<char>, rs: Seq<int>, field: Seq<char>)
    requires
        rs.len() == 0,
    ensures
        held(w, table, rs, field) == Seq::<int>::empty(),
{
}

/// A number over a grouping is the aggregate that was asked for, in each group.
pub proof fn lemma_number_answers(
    out: Seq<AskView>,
    at: usize,
    table: Seq<char>,
    rows: ExprView,
    filter: Option<CondView>,
    narrow: Option<CondView>,
    by: Seq<GroupingView>,
    item: ItemView,
    w: Stored,
)
    requires
        frugal(out),
        right_rows(rows, filter, narrow, table, w),
    ensures
        number_by(out, at, table, rows, by, item) matches Ok((now, of)) ==> {
            &&& frugal(now)
            &&& out.is_prefix_of(now)
            &&& of.fits(now.len() as int, 0)
            &&& answers(of, now, Seq::empty(), item.leaf(), table, filter, narrow, by, w)
        },
{
    lemma_answer_names();
    assert(axes_by(by) =~= if by.len() == 0 {
        Seq::empty()
    } else {
        axes_by(by)
    });
    let none = Seq::<ProbeView>::empty();
    match number_by(out, at, table, rows, by, item) {
        Err(_) => {},
        Ok((now, of)) => match item.leaf() {
            ProjView::Now { .. } => {},
            ProjView::Count => {
                let call = if by.len() == 0 {
                    a_call("Count"@, seq![rows])
                } else if by.len() == 1 {
                    group_counts(rows, by[0])
                } else {
                    a_call("GroupByTuple"@, tuple_args(by, rows))
                };
                asking_is_frugal(out, at, table, call);
                let ask = AskView { table, call };
                assert(ask.call.args[0] == rows);
                assert forall|keys: Seq<int>| #[trigger] figure(
                    of,
                    now,
                    none,
                    keys,
                    w,
                ) == comes_to(
                    item.leaf(),
                    table,
                    asked_of(w, table, filter, narrow, axes_by(by), keys),
                    w,
                ) by {
                    if by.len() == 0 {
                        reveal_with_fuel(argument, 3);
                        lemma_call(ask, filter, narrow, Seq::empty(), keys, None, w);
                    } else {
                        lemma_grouping_call(ask, filter, narrow, by, keys, None, w);
                    }
                }
            },
            ProjView::Agg { func, field } => {
                let call = if by.len() == 0 {
                    a_call(func.called(), seq![rows, over(field)])
                } else if by.len() == 1 {
                    group_numbers(rows, by[0], func.called(), field)
                } else {
                    a_call(
                        "GroupByTuple"@,
                        tuple_args(by, rows).push(aggregate_arg(func.called(), field)),
                    )
                };
                asking_is_frugal(out, at, table, call);
                let ask = AskView { table, call };
                assert(ask.call.args[0] == rows);
                assert forall|keys: Seq<int>| #[trigger] figure(
                    of,
                    now,
                    none,
                    keys,
                    w,
                ) == comes_to(
                    item.leaf(),
                    table,
                    asked_of(w, table, filter, narrow, axes_by(by), keys),
                    w,
                ) by {
                    lemma_empty_folds();
                    if by.len() == 0 {
                        lemma_whole_call(ask, filter, narrow, func, field, keys, w);
                    } else {
                        lemma_grouping_call(
                            ask,
                            filter,
                            narrow,
                            by,
                            keys,
                            Some((func, field)),
                            w,
                        );
                        if over_records(ask, keys, w).len() == 0 {
                            lemma_held_nothing(w, table, over_records(ask, keys, w), field.column);
                        }
                    }
                }
            },
            ProjView::Avg(field) => {
                let sum = if by.len() == 0 {
                    a_call("Sum"@, seq![rows, over(field)])
                } else {
                    group_numbers(rows, by[0], "Sum"@, field)
                };
                let count = if by.len() == 0 {
                    a_call("Count"@, seq![rows])
                } else {
                    group_counts(rows, by[0])
                };
                asking_is_frugal(out, at, table, sum);
                let out2 = asking(out, at, table, sum)->Ok_0.0;
                asking_is_frugal(out2, at, table, count);
                let top = AskView { table, call: sum };
                let bottom = AskView { table, call: count };
                assert(Agg::Sum.called() == "Sum"@);
                let plan = of->Ratio_plan;
                assert(now[plan as int] == top) by {
                    assert(now.subrange(0, out2.len() as int)[plan as int] == now[plan as int]);
                }
                assert(top.call.args[0] == rows);
                assert(bottom.call.args[0] == rows);
                assert forall|keys: Seq<int>| #[trigger] figure(
                    of,
                    now,
                    none,
                    keys,
                    w,
                ) == comes_to(
                    item.leaf(),
                    table,
                    asked_of(w, table, filter, narrow, axes_by(by), keys),
                    w,
                ) by {
                    if by.len() == 0 {
                        reveal_with_fuel(argument, 3);
                        lemma_whole_call(top, filter, narrow, Agg::Sum, field, keys, w);
                        lemma_call(bottom, filter, narrow, Seq::empty(), keys, None, w);
                    } else {
                        lemma_grouping_call(
                            top,
                            filter,
                            narrow,
                            by,
                            keys,
                            Some((Agg::Sum, field)),
                            w,
                        );
                        lemma_grouping_call(bottom, filter, narrow, by, keys, None, w);
                    }
                }
            },
            _ => {},
        },
    }
}

} // verus!
