//! The groups of an answer are the groups that were asked for.

use vstd::prelude::*;
use crate::ast::{CondView, GroupingView, ItemView, NameView, ProjView, SelectView};
use crate::lower::answers::{answers, lemma_grouping_call, lemma_narrowed, lemma_number_answers, lemma_same_figure, right_rows};
use crate::lower::calls::{asking, asking_is_frugal, frugal, AskView, ProbeView};
use crate::lower::keeping::{lemma_numbers_rise, measures_what, right_entries, right_measures};
use crate::lower::keyed::{group_counts, group_numbers, number_by, numbers_by, numbers_upto, tuple_args};
use crate::lower::laws::measures_fit;
use crate::lower::measure::{asks_nothing, kind_of, measure, narrowed, Kind, Measures};
use crate::lower::model::{answer_shows, asked_of, axes_by, axes_of, comes_to, figure, group_comes, group_entry, over_records, whole_name, Stored};
use crate::lower::ungrouped::a_call;
use crate::pql::{CallView, ExprView};
use crate::shape::{Absent, Of};

verus! {

/// Whether the numbers of the entries before a position are the aggregates that were asked for.
pub open spec fn recorded(
    items: Seq<ItemView>,
    n: int,
    measures: Measures,
    calls: Seq<AskView>,
    table: Seq<char>,
    filter: Option<CondView>,
    by: Seq<GroupingView>,
    w: Stored,
) -> bool {
    &&& measures.len() == numbers_upto(items, n)
    &&& measures_fit(measures, calls.len() as int, 0)
    &&& forall|k: int|
        0 <= k < n && kind_of(#[trigger] items[k]) == Kind::Number ==> {
            let m = measures[numbers_upto(items, k) as int];
            &&& !(items[k].leaf() is Scalar)
            &&& m.0 == measure(items[k])
            &&& answers(
                m.1,
                calls,
                Seq::empty(),
                items[k].leaf(),
                table,
                filter,
                items[k].filter,
                by,
                w,
            )
        }
    &&& forall|k: int|
        0 <= k < measures.len() && !((#[trigger] measures[k]).0 is Other) ==> answers(
            measures[k].1,
            calls,
            Seq::empty(),
            measures_what(measures[k].0),
            table,
            filter,
            None,
            by,
            w,
        )
}

pub proof fn lemma_still_answers(
    of: Of,
    calls: Seq<AskView>,
    more: Seq<AskView>,
    leaf: ProjView,
    table: Seq<char>,
    filter: Option<CondView>,
    narrow: Option<CondView>,
    by: Seq<GroupingView>,
    w: Stored,
)
    requires
        answers(of, calls, Seq::empty(), leaf, table, filter, narrow, by, w),
        of.fits(calls.len() as int, 0),
        calls.is_prefix_of(more),
    ensures
        answers(of, more, Seq::empty(), leaf, table, filter, narrow, by, w),
{
    let none = Seq::<ProbeView>::empty();
    assert forall|keys: Seq<int>| #[trigger] figure(
        of,
        more,
        none,
        keys,
        w,
    ) == comes_to(leaf, table, asked_of(w, table, filter, narrow, axes_by(by), keys), w) by {
        lemma_same_figure(of, calls, more, none, none, keys, w);
        assert(figure(of, calls, none, keys, w) == comes_to(
            leaf,
            table,
            asked_of(w, table, filter, narrow, axes_by(by), keys),
            w,
        ));
    }
}

/// Numbers stay what they are when more is asked.
pub proof fn lemma_still_recorded(
    items: Seq<ItemView>,
    n: int,
    measures: Measures,
    calls: Seq<AskView>,
    more: Seq<AskView>,
    table: Seq<char>,
    filter: Option<CondView>,
    by: Seq<GroupingView>,
    w: Stored,
)
    requires
        recorded(items, n, measures, calls, table, filter, by, w),
        0 <= n <= items.len(),
        calls.is_prefix_of(more),
    ensures
        recorded(items, n, measures, more, table, filter, by, w),
{
    assert forall|k: int| 0 <= k < measures.len() implies (#[trigger] measures[k]).1.fits(
        more.len() as int,
        0,
    ) by {
        assert(measures[k].1.fits(calls.len() as int, 0));
    }
    assert forall|k: int| 0 <= k < n && kind_of(#[trigger] items[k]) == Kind::Number implies {
        let m = measures[numbers_upto(items, k) as int];
        &&& !(items[k].leaf() is Scalar)
        &&& m.0 == measure(items[k])
        &&& answers(
            m.1,
            more,
            Seq::empty(),
            items[k].leaf(),
            table,
            filter,
            items[k].filter,
            by,
            w,
        )
    } by {
        lemma_numbers_rise(items, k, n);
        let m = measures[numbers_upto(items, k) as int];
        assert(m.1.fits(calls.len() as int, 0));
        lemma_still_answers(
            m.1,
            calls,
            more,
            items[k].leaf(),
            table,
            filter,
            items[k].filter,
            by,
            w,
        );
    }
    assert forall|k: int|
        0 <= k < measures.len() && !((#[trigger] measures[k]).0 is Other) implies answers(
        measures[k].1,
        more,
        Seq::empty(),
        measures_what(measures[k].0),
        table,
        filter,
        None,
        by,
        w,
    ) by {
        lemma_still_answers(
            measures[k].1,
            calls,
            more,
            measures_what(measures[k].0),
            table,
            filter,
            None,
            by,
            w,
        );
    }
}

/// One more number is the aggregate that was asked for.
proof fn lemma_recorded_one(
    items: Seq<ItemView>,
    k: int,
    out: Seq<AskView>,
    measures: Measures,
    at: usize,
    table: Seq<char>,
    rows: ExprView,
    filter: Option<CondView>,
    by: Seq<GroupingView>,
    w: Stored,
)
    requires
        frugal(out),
        0 <= k < items.len(),
        kind_of(items[k]) == Kind::Number,
        right_rows(rows, filter, None, table, w),
        recorded(items, k, measures, out, table, filter, by, w),
    ensures
        number_by(out, at, table, narrowed(rows, items[k]), by, items[k]) matches Ok((now, of))
            ==> frugal(now) && out.is_prefix_of(now) && recorded(
            items,
            k + 1,
            measures.push((measure(items[k]), of)),
            now,
            table,
            filter,
            by,
            w,
        ),
{
    let item = items[k];
    let mine = narrowed(rows, item);
    lemma_narrowed(rows, item, filter, table, w);
    lemma_number_answers(out, at, table, mine, filter, item.filter, by, item, w);
    match number_by(out, at, table, mine, by, item) {
        Err(_) => {},
        Ok((now, of)) => {
            lemma_still_recorded(items, k, measures, out, now, table, filter, by, w);
            let m2 = measures.push((measure(item), of));
            assert(numbers_upto(items, k + 1) == measures.len() + 1);
            assert(!(item.leaf() is Scalar));
            assert forall|j: int| 0 <= j < m2.len() implies (#[trigger] m2[j]).1.fits(
                now.len() as int,
                0,
            ) by {
                if j < measures.len() {
                    assert(m2[j] == measures[j]);
                }
            }
            assert forall|j: int| 0 <= j < k + 1 && kind_of(#[trigger] items[j]) == Kind::Number implies {
                let m = m2[numbers_upto(items, j) as int];
                &&& !(items[j].leaf() is Scalar)
                &&& m.0 == measure(items[j])
                &&& answers(
                    m.1,
                    now,
                    Seq::empty(),
                    items[j].leaf(),
                    table,
                    filter,
                    items[j].filter,
                    by,
                    w,
                )
            } by {
                if j < k {
                    lemma_numbers_rise(items, j, k);
                    assert(m2[numbers_upto(items, j) as int] == measures[numbers_upto(
                        items,
                        j,
                    ) as int]);
                } else {
                    assert(m2[numbers_upto(items, j) as int] == (measure(item), of));
                }
            }
            assert forall|j: int|
                0 <= j < m2.len() && !((#[trigger] m2[j]).0 is Other) implies answers(
                m2[j].1,
                now,
                Seq::empty(),
                measures_what(m2[j].0),
                table,
                filter,
                None,
                by,
                w,
            ) by {
                if j < measures.len() {
                    assert(m2[j] == measures[j]);
                } else {
                    assert(item.filter is None);
                    assert(measures_what(m2[j].0) == item.leaf());
                }
            }
        },
    }
}

/// The numbers of a grouping are the aggregates that were asked for.
pub proof fn lemma_recorded(
    items: Seq<ItemView>,
    k: int,
    out: Seq<AskView>,
    measures: Measures,
    at: usize,
    table: Seq<char>,
    rows: ExprView,
    filter: Option<CondView>,
    by: Seq<GroupingView>,
    w: Stored,
)
    requires
        frugal(out),
        0 <= k <= items.len(),
        right_rows(rows, filter, None, table, w),
        recorded(items, k, measures, out, table, filter, by, w),
    ensures
        numbers_by(items, k, out, measures, at, table, rows, by) matches Ok((now, m)) ==> frugal(
            now,
        ) && out.is_prefix_of(now) && recorded(
            items,
            items.len() as int,
            m,
            now,
            table,
            filter,
            by,
            w,
        ),
    decreases items.len() - k,
{
    if k < items.len() {
        if kind_of(items[k]) != Kind::Number {
            assert(recorded(items, k + 1, measures, out, table, filter, by, w));
            lemma_recorded(items, k + 1, out, measures, at, table, rows, filter, by, w);
        } else {
            lemma_recorded_one(items, k, out, measures, at, table, rows, filter, by, w);
            match number_by(out, at, table, narrowed(rows, items[k]), by, items[k]) {
                Err(_) => {},
                Ok((now, of)) => {
                    lemma_recorded(
                        items,
                        k + 1,
                        now,
                        measures.push((measure(items[k]), of)),
                        at,
                        table,
                        rows,
                        filter,
                        by,
                        w,
                    );
                },
            }
        }
    }
}

/// What recorded numbers show in the group of some keys.
pub proof fn lemma_recorded_shows(
    select: SelectView,
    measures: Measures,
    calls: Seq<AskView>,
    by: Seq<GroupingView>,
    keys: Seq<int>,
    w: Stored,
)
    requires
        recorded(
            select.items,
            select.items.len() as int,
            measures,
            calls,
            whole_name(select.from),
            select.filter,
            by,
            w,
        ),
    ensures
        right_entries(
            select.items,
            select.items.len() as int,
            measures,
            |of: Of| answer_shows(calls, Seq::empty(), w)(keys, of),
            |k: int| group_entry(select, by, w)(keys, k),
        ),
        measures.len() > 0 ==> right_measures(
            measures,
            |of: Of| answer_shows(calls, Seq::empty(), w)(keys, of),
            |p: ProjView| group_comes(select, by, w)(keys, p),
        ),
{
    let items = select.items;
    let shows = |of: Of| answer_shows(calls, Seq::empty(), w)(keys, of);
    let entry = |k: int| group_entry(select, by, w)(keys, k);
    let comes = |p: ProjView| group_comes(select, by, w)(keys, p);
    assert forall|k: int|
        0 <= k < items.len() && kind_of(#[trigger] items[k]) == Kind::Number implies shows(
        measures[numbers_upto(items, k) as int].1,
    ) == entry(k) by {
        let of = measures[numbers_upto(items, k) as int].1;
        assert(figure(of, calls, Seq::empty(), keys, w) == entry(k));
    }
    assert forall|k: int|
        0 <= k < measures.len() && !((#[trigger] measures[k]).0 is Other) implies shows(
        measures[k].1,
    ) == comes(measures_what(measures[k].0)) by {
        assert(figure(measures[k].1, calls, Seq::empty(), keys, w) == comes(
            measures_what(measures[k].0),
        ));
    }
}

/// Whether an entry is a number that is asked for.
pub open spec fn counts(item: ItemView) -> bool {
    kind_of(item) == Kind::Number && !(item.leaf() is Now)
}

/// Whether a call lists the groups of the records two conditions are true of.
pub open spec fn lists(
    ask: AskView,
    table: Seq<char>,
    filter: Option<CondView>,
    narrow: Option<CondView>,
    by: Seq<GroupingView>,
    w: Stored,
) -> bool {
    &&& ask.table == table
    &&& axes_of(ask.call) == axes_by(by)
    &&& ask.call.name != "TopN"@
    &&& forall|keys: Seq<int>|
        #[trigger] over_records(ask, keys, w) == asked_of(
            w,
            table,
            filter,
            narrow,
            axes_by(by),
            keys,
        )
}

/// Whether some calls are those of the numbers before a position, after the first `start`.
pub open spec fn listed(
    items: Seq<ItemView>,
    n: int,
    measures: Measures,
    calls: Seq<AskView>,
    start: int,
    table: Seq<char>,
    filter: Option<CondView>,
    by: Seq<GroupingView>,
    w: Stored,
) -> bool {
    &&& start <= calls.len()
    &&& forall|j: int|
        start <= j < calls.len() ==> exists|k: int|
            0 <= k < n && counts(#[trigger] items[k]) && lists(
                #[trigger] calls[j],
                table,
                filter,
                items[k].filter,
                by,
                w,
            )
    &&& forall|k: int|
        0 <= k < n && counts(#[trigger] items[k]) ==> exists|j: int|
            0 <= j < calls.len() && lists(
                #[trigger] calls[j],
                table,
                filter,
                items[k].filter,
                by,
                w,
            )
    &&& (forall|k: int| 0 <= k < n ==> !counts(#[trigger] items[k])) ==> asks_nothing(measures)
    &&& asks_nothing(measures) ==> calls.len() == start
    &&& start == 0 && measures.len() > 0 && measures[0].0 is Count ==> measures[0].1 == (
    Of::Group { plan: 0, absent: Absent::Zero })
}

/// A grouping call lists the groups of its records.
pub proof fn lemma_lists(
    ask: AskView,
    table: Seq<char>,
    filter: Option<CondView>,
    narrow: Option<CondView>,
    by: Seq<GroupingView>,
    aggregate: Option<(crate::ast::Agg, NameView)>,
    w: Stored,
)
    requires
        by.len() > 0,
        ask.table == table,
        by.len() == 1 ==> ask.call == match aggregate {
            Some((func, field)) => group_numbers(ask.call.args[0], by[0], func.called(), field),
            None => group_counts(ask.call.args[0], by[0]),
        },
        by.len() > 1 ==> ask.call == a_call(
            "GroupByTuple"@,
            match aggregate {
                Some((func, field)) => tuple_args(by, ask.call.args[0]).push(
                    crate::lower::keyed::aggregate_arg(func.called(), field),
                ),
                None => tuple_args(by, ask.call.args[0]),
            },
        ),
        ask.call.args.len() > 0,
        right_rows(ask.call.args[0], filter, narrow, table, w),
    ensures
        lists(ask, table, filter, narrow, by, w),
{
    reveal_strlit("TopN");
    reveal_strlit("GroupBy");
    reveal_strlit("GroupByTuple");
    assert("TopN"@[0] == 'T');
    assert("GroupBy"@[0] == 'G');
    assert("GroupByTuple"@[0] == 'G');
    lemma_grouping_call(ask, filter, narrow, by, Seq::empty(), aggregate, w);
    assert forall|keys: Seq<int>|
        #[trigger] over_records(ask, keys, w) == asked_of(
            w,
            table,
            filter,
            narrow,
            axes_by(by),
            keys,
        ) by {
        lemma_grouping_call(ask, filter, narrow, by, keys, aggregate, w);
    }
}

/// Asking adds no call but the one asked.
pub proof fn lemma_asking(out: Seq<AskView>, at: usize, table: Seq<char>, call: CallView)
    requires
        frugal(out),
    ensures
        asking(out, at, table, call) matches Ok((now, k)) ==> {
            &&& frugal(now)
            &&& k < now.len()
            &&& now[k as int] == (AskView { table, call })
            &&& now.len() >= out.len()
            &&& forall|j: int| 0 <= j < out.len() ==> #[trigger] now[j] == out[j]
            &&& forall|j: int|
                out.len() <= j < now.len() ==> #[trigger] now[j] == (AskView { table, call })
            &&& out.len() == 0 ==> k == 0
        },
{
    asking_is_frugal(out, at, table, call);
    match asking(out, at, table, call) {
        Ok((now, k)) => {
            assert forall|j: int| 0 <= j < out.len() implies #[trigger] now[j] == out[j] by {
                assert(now.subrange(0, out.len() as int)[j] == now[j]);
            }
        },
        Err(_) => {},
    }
}

/// The calls of a number list the groups of its records, and are all that is asked for it.
proof fn lemma_number_lists(
    out: Seq<AskView>,
    at: usize,
    table: Seq<char>,
    rows: ExprView,
    filter: Option<CondView>,
    by: Seq<GroupingView>,
    item: ItemView,
    w: Stored,
)
    requires
        frugal(out),
        by.len() > 0,
        right_rows(rows, filter, item.filter, table, w),
    ensures
        number_by(out, at, table, rows, by, item) matches Ok((now, of)) ==> {
            &&& now.len() >= out.len()
            &&& forall|j: int| 0 <= j < out.len() ==> #[trigger] now[j] == out[j]
            &&& forall|j: int|
                out.len() <= j < now.len() ==> lists(
                    #[trigger] now[j],
                    table,
                    filter,
                    item.filter,
                    by,
                    w,
                )
            &&& item.leaf() is Now ==> now == out && of.read_from().len() == 0
            &&& !(item.leaf() is Now) ==> of.read_from().len() > 0 && of.read_from()[0] < now.len()
                && lists(
                now[of.read_from()[0] as int],
                table,
                filter,
                item.filter,
                by,
                w,
            )
            &&& out.len() == 0 && item.leaf() is Count ==> of == (Of::Group {
                plan: 0,
                absent: Absent::Zero,
            })
        },
{
    match number_by(out, at, table, rows, by, item) {
        Err(_) => {},
        Ok((now, of)) => match item.leaf() {
            ProjView::Count => {
                let call = if by.len() == 1 {
                    group_counts(rows, by[0])
                } else {
                    a_call("GroupByTuple"@, tuple_args(by, rows))
                };
                lemma_asking(out, at, table, call);
                assert(call.args[0] == rows);
                lemma_lists(AskView { table, call }, table, filter, item.filter, by, None, w);
            },
            ProjView::Agg { func, field } => {
                let call = if by.len() == 1 {
                    group_numbers(rows, by[0], func.called(), field)
                } else {
                    a_call(
                        "GroupByTuple"@,
                        tuple_args(by, rows).push(
                            crate::lower::keyed::aggregate_arg(func.called(), field),
                        ),
                    )
                };
                lemma_asking(out, at, table, call);
                assert(call.args[0] == rows);
                lemma_lists(
                    AskView { table, call },
                    table,
                    filter,
                    item.filter,
                    by,
                    Some((func, field)),
                    w,
                );
            },
            ProjView::Avg(field) => {
                let sum = group_numbers(rows, by[0], "Sum"@, field);
                let count = group_counts(rows, by[0]);
                lemma_asking(out, at, table, sum);
                let out2 = asking(out, at, table, sum)->Ok_0.0;
                lemma_asking(out2, at, table, count);
                assert(sum.args[0] == rows);
                assert(count.args[0] == rows);
                assert(crate::ast::Agg::Sum.called() == "Sum"@);
                lemma_lists(
                    AskView { table, call: sum },
                    table,
                    filter,
                    item.filter,
                    by,
                    Some((crate::ast::Agg::Sum, field)),
                    w,
                );
                lemma_lists(
                    AskView { table, call: count },
                    table,
                    filter,
                    item.filter,
                    by,
                    None,
                    w,
                );
                assert(of.read_from()[0] == of->Ratio_plan);
                assert(now[of->Ratio_plan as int] == out2[of->Ratio_plan as int]);
            },
            _ => {},
        },
    }
}

/// One more number keeps the calls those of the numbers.
proof fn lemma_listed_one(
    items: Seq<ItemView>,
    k: int,
    out: Seq<AskView>,
    start: int,
    measures: Measures,
    at: usize,
    table: Seq<char>,
    rows: ExprView,
    filter: Option<CondView>,
    by: Seq<GroupingView>,
    w: Stored,
)
    requires
        frugal(out),
        by.len() > 0,
        0 <= start,
        0 <= k < items.len(),
        kind_of(items[k]) == Kind::Number,
        right_rows(rows, filter, None, table, w),
        listed(items, k, measures, out, start, table, filter, by, w),
    ensures
        number_by(out, at, table, narrowed(rows, items[k]), by, items[k]) matches Ok((now, of))
            ==> listed(
            items,
            k + 1,
            measures.push((measure(items[k]), of)),
            now,
            start,
            table,
            filter,
            by,
            w,
        ),
{
    let item = items[k];
    let mine = narrowed(rows, item);
    lemma_narrowed(rows, item, filter, table, w);
    lemma_number_lists(out, at, table, mine, filter, by, item, w);
    match number_by(out, at, table, mine, by, item) {
        Err(_) => {},
        Ok((now, of)) => {
            let m2 = measures.push((measure(item), of));
            assert(m2.last() == (measure(item), of));
            assert forall|j: int| start <= j < now.len() implies exists|i: int|
                0 <= i < k + 1 && counts(#[trigger] items[i]) && lists(
                    #[trigger] now[j],
                    table,
                    filter,
                    items[i].filter,
                    by,
                    w,
                ) by {
                if j < out.len() {
                    assert(now[j] == out[j]);
                    let i = choose|i: int|
                        0 <= i < k && counts(#[trigger] items[i]) && lists(
                            out[j],
                            table,
                            filter,
                            items[i].filter,
                            by,
                            w,
                        );
                    assert(counts(items[i]) && lists(
                        now[j],
                        table,
                        filter,
                        items[i].filter,
                        by,
                        w,
                    ));
                } else {
                    assert(counts(items[k]));
                }
            }
            assert forall|i: int| 0 <= i < k + 1 && counts(#[trigger] items[i]) implies exists|
                j: int,
            |
                0 <= j < now.len() && lists(
                    #[trigger] now[j],
                    table,
                    filter,
                    items[i].filter,
                    by,
                    w,
                ) by {
                if i < k {
                    let j = choose|j: int|
                        0 <= j < out.len() && lists(
                            #[trigger] out[j],
                            table,
                            filter,
                            items[i].filter,
                            by,
                            w,
                        );
                    assert(now[j] == out[j]);
                } else {
                    assert(lists(
                        now[of.read_from()[0] as int],
                        table,
                        filter,
                        item.filter,
                        by,
                        w,
                    ));
                }
            }
            if asks_nothing(m2) {
                assert(m2[measures.len() as int].1.read_from().len() == 0);
                assert forall|j: int| 0 <= j < measures.len() implies (
                #[trigger] measures[j]).1.read_from().len() == 0 by {
                    assert(m2[j] == measures[j]);
                }
            }
            if forall|i: int| 0 <= i < k + 1 ==> !counts(#[trigger] items[i]) {
                assert(!counts(items[k]));
                assert forall|j: int| 0 <= j < m2.len() implies (
                #[trigger] m2[j]).1.read_from().len() == 0 by {
                    if j < measures.len() {
                        assert(m2[j] == measures[j]);
                    }
                }
            }
            if measures.len() > 0 {
                assert(m2[0] == measures[0]);
            } else {
                assert(asks_nothing(measures));
            }
        },
    }
}

/// The calls of a grouping are those of its numbers.
pub proof fn lemma_listed(
    items: Seq<ItemView>,
    k: int,
    out: Seq<AskView>,
    start: int,
    measures: Measures,
    at: usize,
    table: Seq<char>,
    rows: ExprView,
    filter: Option<CondView>,
    by: Seq<GroupingView>,
    w: Stored,
)
    requires
        frugal(out),
        by.len() > 0,
        0 <= start,
        0 <= k <= items.len(),
        right_rows(rows, filter, None, table, w),
        recorded(items, k, measures, out, table, filter, by, w),
        listed(items, k, measures, out, start, table, filter, by, w),
    ensures
        numbers_by(items, k, out, measures, at, table, rows, by) matches Ok((now, m)) ==> listed(
            items,
            items.len() as int,
            m,
            now,
            start,
            table,
            filter,
            by,
            w,
        ),
    decreases items.len() - k,
{
    if k < items.len() {
        if kind_of(items[k]) != Kind::Number {
            assert(recorded(items, k + 1, measures, out, table, filter, by, w));
            assert(!counts(items[k]));
            assert(listed(items, k + 1, measures, out, start, table, filter, by, w)) by {
                assert forall|j: int| start <= j < out.len() implies exists|i: int|
                    0 <= i < k + 1 && counts(#[trigger] items[i]) && lists(
                        #[trigger] out[j],
                        table,
                        filter,
                        items[i].filter,
                        by,
                        w,
                    ) by {
                    let i = choose|i: int|
                        0 <= i < k && counts(#[trigger] items[i]) && lists(
                            out[j],
                            table,
                            filter,
                            items[i].filter,
                            by,
                            w,
                        );
                    assert(counts(items[i]) && lists(
                        out[j],
                        table,
                        filter,
                        items[i].filter,
                        by,
                        w,
                    ));
                }
            }
            lemma_listed(items, k + 1, out, start, measures, at, table, rows, filter, by, w);
        } else {
            lemma_recorded_one(items, k, out, measures, at, table, rows, filter, by, w);
            lemma_listed_one(items, k, out, start, measures, at, table, rows, filter, by, w);
            match number_by(out, at, table, narrowed(rows, items[k]), by, items[k]) {
                Err(_) => {},
                Ok((now, of)) => {
                    lemma_listed(
                        items,
                        k + 1,
                        now,
                        start,
                        measures.push((measure(items[k]), of)),
                        at,
                        table,
                        rows,
                        filter,
                        by,
                        w,
                    );
                },
            }
        }
    }
}

} // verus!
