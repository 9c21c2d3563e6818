//! The rows of a grouping are its groups, in the order they were asked for.

use vstd::prelude::*;
use crate::ast::{CondView, GroupingView, ItemView, NameView, OrderKeyView, ProjView, SelectView};
use crate::lower::answers::{answers, lemma_answer_names, lemma_grouping_call, lemma_rows, right_rows};
use crate::lower::calls::{asking, frugal, AskView};
use crate::lower::grouped::{by_count, cut_after, cut_of, grouped_calls, order_by, ordering, plan_cut, ranking};
use crate::lower::groups::{counts, lemma_asking, lemma_listed, lemma_lists, lemma_recorded, lemma_recorded_shows, lemma_still_recorded, listed, lists, recorded};
use crate::lower::keeping::{lemma_having, lemma_numbers_rise, lemma_order, measures_what, right_entries, right_measures};
use crate::lower::keyed::{cells_for, column_fault, filtered, group_keys, number_by, numbers_by, numbers_upto, position, tuple_args};
use crate::lower::measure::{aliased, asks_nothing, first_of, found, having_resolved, kind_of, listed_counts, measure, nameable, narrowed, start_of, FrameView, Kind, MeasureView, Measures};
use crate::lower::model::{a_number, allows, among, answer_shows, argument, arranged, asked_of, axes_by, axes_of, by_key, column_axis, comes_to, figure, first, group_comes, group_entry, is_number, keeps, kept, keys_of, listed_rows, number_at, order_figure, over_records, rank_of, wanted_group, whole_name, written_order, written_rows, Axis, Figure, Stored};
use crate::lower::pql::{given_number, over};
use crate::lower::query::lowered_one;
use crate::lower::selecting::lemma_whole;
use crate::lower::shown::{lemma_by_column, lemma_units, shows_entry};
use crate::lower::tuples::{tuple_calls, tuple_order};
use crate::lower::ungrouped::a_call;
use crate::parse::grouping::{grouped_at, upto};
use crate::pql::ExprView;
use crate::shape::{Absent, CellView, Cut, GroupOrder, HavingView, Of, OrderBy, ShapeView};

verus! {

/// The groups of the records a `WHERE` is true of.
pub open spec fn where_groups(select: SelectView, by: Seq<GroupingView>, w: Stored) -> Seq<Seq<int>> {
    let table = whole_name(select.from);
    (w.keys)(table, axes_by(by)).filter(
        |keys: Seq<int>|
            asked_of(w, table, select.filter, None, axes_by(by), keys).len() > 0,
    )
}

/// A condition more leaves no records where there were none.
proof fn lemma_fewer(
    w: Stored,
    table: Seq<char>,
    filter: Option<CondView>,
    narrow: Option<CondView>,
    axes: Seq<Axis>,
    keys: Seq<int>,
)
    requires
        asked_of(w, table, filter, narrow, axes, keys).len() > 0,
    ensures
        asked_of(w, table, filter, None, axes, keys).len() > 0,
{
    let s = (w.records)(table);
    let f = |r: int|
        allows(filter, table, r, w) && allows(narrow, table, r, w) && among(
            table,
            r,
            axes,
            keys,
            w,
        );
    let g = |r: int|
        allows(filter, table, r, w) && allows(None, table, r, w) && among(table, r, axes, keys, w);
    lemma_filter_some(s, f, g);
}

/// Where a filter keeps something, a weaker one does.
proof fn lemma_filter_some(s: Seq<int>, f: spec_fn(int) -> bool, g: spec_fn(int) -> bool)
    requires
        s.filter(f).len() > 0,
        forall|x: int| #[trigger] f(x) ==> g(x),
    ensures
        s.filter(g).len() > 0,
    decreases s.len(),
{
    reveal(Seq::filter);
    if s.len() > 0 {
        if !f(s.last()) {
            lemma_filter_some(s.drop_last(), f, g);
        }
    }
}

/// A filter that keeps everything keeps everything.
pub proof fn lemma_filter_all(s: Seq<Seq<int>>, f: spec_fn(Seq<int>) -> bool)
    requires
        forall|x: Seq<int>| #[trigger] f(x),
    ensures
        s.filter(f) == s,
    decreases s.len(),
{
    reveal(Seq::filter);
    if s.len() > 0 {
        lemma_filter_all(s.drop_last(), f);
        assert(s.drop_last().push(s.last()) =~= s);
    }
}

/// The call that lists the groups of a column, or ranks them, counts them too.
pub proof fn lemma_counting_call(
    ask: AskView,
    filter: Option<CondView>,
    g: GroupingView,
    w: Stored,
)
    requires
        ask.call.args.len() >= 2,
        right_rows(ask.call.args[0], filter, None, ask.table, w),
        ask.call == group_keys(ask.call.args[0], g) || (ask.call.name == "TopN"@ && g.bucket is None
            && ask.call.args[1] == over(g.name) && (ask.call.args.len() == 2
            || ask.call.args.len() == 3 && ask.call.args[2] is Named
            && ask.call.args[2]->Named_name == "n"@)),
    ensures
        axes_of(ask.call) == axes_by(seq![g]),
        forall|keys: Seq<int>|
            #[trigger] over_records(ask, keys, w) == asked_of(
                w,
                ask.table,
                filter,
                None,
                axes_by(seq![g]),
                keys,
            ),
        forall|keys: Seq<int>|
            #[trigger] number_at(ask, keys, w) == Some(
                asked_of(w, ask.table, filter, None, axes_by(seq![g]), keys).len() as int,
            ),
{
    lemma_answer_names();
    let by = seq![g];
    assert(by[0] == g);
    if ask.call == group_keys(ask.call.args[0], g) && g.bucket is Some {
        lemma_grouping_call(ask, filter, None, by, Seq::empty(), None, w);
        assert forall|keys: Seq<int>|
            #[trigger] over_records(ask, keys, w) == asked_of(
                w,
                ask.table,
                filter,
                None,
                axes_by(by),
                keys,
            ) by {
            lemma_grouping_call(ask, filter, None, by, keys, None, w);
        }
        assert forall|keys: Seq<int>|
            #[trigger] number_at(ask, keys, w) == Some(
                asked_of(w, ask.table, filter, None, axes_by(by), keys).len() as int,
            ) by {
            lemma_grouping_call(ask, filter, None, by, keys, None, w);
        }
    } else {
        assert(ask.call.args[1] == over(g.name));
        assert(axes_by(by) =~= seq![column_axis(g.name.column)]);
        lemma_by_column(ask, g.name, filter, None, w);
        reveal_with_fuel(argument, 4);
        assert(argument(ask.call.args, 0, "aggregate"@) is None);
        reveal_strlit("Sum");
        reveal_strlit("Min");
        reveal_strlit("Max");
        reveal_strlit("TopN");
        reveal_strlit("Distinct");
        assert("TopN"@.len() == 4 && "Distinct"@.len() == 8);
        assert("Sum"@.len() == 3 && "Min"@.len() == 3 && "Max"@.len() == 3);
        assert forall|keys: Seq<int>|
            #[trigger] number_at(ask, keys, w) == Some(
                asked_of(w, ask.table, filter, None, axes_by(by), keys).len() as int,
            ) by {
            assert(over_records(ask, keys, w) == asked_of(
                w,
                ask.table,
                filter,
                None,
                axes_by(by),
                keys,
            ));
        }
    }
}

/// Where no number is narrowed, none is.
proof fn lemma_not_filtered(items: Seq<ItemView>, k: int, j: int)
    requires
        0 <= k <= j < items.len(),
        !filtered(items, k),
        counts(items[j]),
    ensures
        items[j].filter is None,
    decreases j - k,
{
    if k < j {
        lemma_not_filtered(items, k + 1, j);
    }
}

/// What the calls of a grouping by one column come to.
spec fn grouped_right(
    select: SelectView,
    calls: Seq<AskView>,
    measures: Measures,
    w: Stored,
) -> bool {
    let table = whole_name(select.from);
    let by = select.group_by;
    let n = select.items.len() as int;
    &&& calls.len() > 0
    &&& recorded(select.items, n, measures, calls, table, select.filter, by, w)
    &&& asks_nothing(measures) ==> answers(
        listed_counts(0),
        calls,
        Seq::empty(),
        ProjView::Count,
        table,
        select.filter,
        None,
        by,
        w,
    )
}

pub proof fn lemma_nothing_recorded(
    items: Seq<ItemView>,
    calls: Seq<AskView>,
    start: int,
    table: Seq<char>,
    filter: Option<CondView>,
    by: Seq<GroupingView>,
    w: Stored,
)
    requires
        start == calls.len(),
    ensures
        recorded(items, 0, Seq::empty(), calls, table, filter, by, w),
        listed(items, 0, Seq::empty(), calls, start, table, filter, by, w),
{
}

/// A counting call at the front counts the groups.
proof fn lemma_counts_first(
    select: SelectView,
    calls: Seq<AskView>,
    w: Stored,
)
    requires
        select.group_by.len() == 1,
        calls.len() > 0,
        calls[0].table == whole_name(select.from),
        calls[0].call.args.len() >= 2,
        right_rows(calls[0].call.args[0], select.filter, None, calls[0].table, w),
        calls[0].call == group_keys(calls[0].call.args[0], select.group_by[0]) || (
        calls[0].call.name == "TopN"@ && select.group_by[0].bucket is None && calls[0].call.args[1]
            == over(select.group_by[0].name) && (calls[0].call.args.len() == 2
            || calls[0].call.args.len() == 3 && calls[0].call.args[2] is Named
            && calls[0].call.args[2]->Named_name == "n"@)),
    ensures
        answers(
            listed_counts(0),
            calls,
            Seq::empty(),
            ProjView::Count,
            whole_name(select.from),
            select.filter,
            None,
            select.group_by,
            w,
        ),
{
    let g = select.group_by[0];
    assert(select.group_by =~= seq![g]);
    let ask = calls[0];
    lemma_counting_call(ask, select.filter, g, w);
    assert forall|keys: Seq<int>| #[trigger] figure(
        listed_counts(0),
        calls,
        Seq::empty(),
        keys,
        w,
    ) == comes_to(
        ProjView::Count,
        whole_name(select.from),
        asked_of(
            w,
            whole_name(select.from),
            select.filter,
            None,
            axes_by(select.group_by),
            keys,
        ),
        w,
    ) by {
        assert(number_at(ask, keys, w) == Some(
            asked_of(w, ask.table, select.filter, None, axes_by(seq![g]), keys).len() as int,
        ));
        assert(over_records(ask, keys, w) == asked_of(
            w,
            ask.table,
            select.filter,
            None,
            axes_by(seq![g]),
            keys,
        ));
    }
}

/// The calls of a grouping, with the one that lists its groups, are right, and list its groups.
#[verifier::rlimit(60)]
#[verifier::spinoff_prover]
proof fn lemma_grouped_calls(select: SelectView, w: Stored)
    requires
        select.group_by.len() == 1,
    ensures
        grouped_calls(select, whole_name(select.from), select.rows()) matches Ok((out, measures))
            ==> {
            &&& grouped_right(select, out, measures, w)
            &&& listed_rows(out, upto(out.len()), w) == where_groups(select, select.group_by, w)
            &&& measures.len() > 0 && measures[0].0 is Count ==> measures[0].1 == (Of::Group {
                plan: 0,
                absent: Absent::Zero,
            })
        },
{
    let table = whole_name(select.from);
    let by = select.group_by;
    let g = by[0];
    let items = select.items;
    let at = start_of(items);
    let rows = select.rows();
    let n = items.len() as int;
    assert(by =~= seq![g]);
    lemma_rows(select, table, w);
    lemma_nothing_recorded(items, Seq::empty(), 0, table, select.filter, by, w);
    lemma_recorded(items, 0, Seq::empty(), Seq::empty(), at, table, rows, select.filter, by, w);
    lemma_listed(items, 0, Seq::empty(), 0, Seq::empty(), at, table, rows, select.filter, by, w);
    match numbers_by(items, 0, Seq::empty(), Seq::empty(), at, table, rows, by) {
        Err(_) => {},
        Ok((out, measures)) => {
            if asks_nothing(measures) || filtered(items, 0) {
                let call = group_keys(rows, g);
                let ask = AskView { table, call };
                lemma_asking(out, at, table, call);
                match asking(out, at, table, call) {
                    Err(_) => {},
                    Ok((now, plan)) => {
                        assert(out =~= now.subrange(0, out.len() as int));
                        lemma_still_recorded(
                            items,
                            n,
                            measures,
                            out,
                            now,
                            table,
                            select.filter,
                            by,
                            w,
                        );
                        assert(call.args[0] == rows);
                        lemma_counting_call(ask, select.filter, g, w);
                        if asks_nothing(measures) {
                            assert(now[0] == ask);
                            lemma_counts_first(select, now, w);
                        }
                        lemma_keys_not_ranked(rows, g);
                        assert(lists(ask, table, select.filter, None, by, w));
                        assert forall|j: int| 0 <= j < now.len() implies lists_some(
                            select,
                            #[trigger] now[j],
                            w,
                        ) by {
                            if j < out.len() {
                                assert(now[j] == out[j]);
                                let i = choose|i: int|
                                    0 <= i < n && counts(#[trigger] items[i]) && lists(
                                        out[j],
                                        table,
                                        select.filter,
                                        items[i].filter,
                                        by,
                                        w,
                                    );
                                assert(lists(
                                    now[j],
                                    table,
                                    select.filter,
                                    items[i].filter,
                                    by,
                                    w,
                                ));
                            } else {
                                assert(lists(now[j], table, select.filter, None, by, w));
                            }
                        }
                        lemma_rows_listed(select, now, plan as int, w);
                    },
                }
            } else {
                let i = choose|i: int| 0 <= i < n && counts(#[trigger] items[i]);
                lemma_not_filtered(items, 0, i);
                let j = choose|j: int|
                    0 <= j < out.len() && lists(
                        #[trigger] out[j],
                        table,
                        select.filter,
                        items[i].filter,
                        by,
                        w,
                    );
                assert forall|j: int| 0 <= j < out.len() implies lists_some(
                    select,
                    #[trigger] out[j],
                    w,
                ) by {
                    let i = choose|i: int|
                        0 <= i < n && counts(#[trigger] items[i]) && lists(
                            out[j],
                            table,
                            select.filter,
                            items[i].filter,
                            by,
                            w,
                        );
                    assert(lists(out[j], table, select.filter, items[i].filter, by, w));
                }
                lemma_rows_listed(select, out, j, w);
            }
        },
    }
}

proof fn lemma_keys_not_ranked(rows: ExprView, g: GroupingView)
    ensures
        group_keys(rows, g).name != "TopN"@,
{
    reveal_strlit("TopN");
    reveal_strlit("GroupBy");
    reveal_strlit("Distinct");
    assert("TopN"@[0] == 'T');
    assert("GroupBy"@[0] == 'G');
    assert("Distinct"@[0] == 'D');
}

/// Whether a call lists groups of the records a `WHERE` is true of.
spec fn lists_some(select: SelectView, ask: AskView, w: Stored) -> bool {
    exists|narrow: Option<CondView>|
        #[trigger] lists(ask, whole_name(select.from), select.filter, narrow, select.group_by, w)
}

/// Calls that each list groups, one of them all of them, list the groups.
proof fn lemma_rows_listed(select: SelectView, calls: Seq<AskView>, whole: int, w: Stored)
    requires
        0 <= whole < calls.len() <= usize::MAX,
        forall|j: int| 0 <= j < calls.len() ==> lists_some(select, #[trigger] calls[j], w),
        lists(
            calls[whole],
            whole_name(select.from),
            select.filter,
            None,
            select.group_by,
            w,
        ),
    ensures
        listed_rows(calls, upto(calls.len()), w) == where_groups(select, select.group_by, w),
{
    let table = whole_name(select.from);
    let by = select.group_by;
    let plans = upto(calls.len());
    let f = |keys: Seq<int>|
        exists|k: int|
            0 <= k < plans.len() && over_records(
                calls[#[trigger] plans[k] as int],
                keys,
                w,
            ).len() > 0;
    let g = |keys: Seq<int>|
        asked_of(w, table, select.filter, None, axes_by(by), keys).len() > 0;
    assert(plans[0] == 0);
    assert(lists_some(select, calls[0], w));
    assert forall|keys: Seq<int>| #[trigger] f(keys) == g(keys) by {
        if f(keys) {
            let k = choose|k: int|
                0 <= k < plans.len() && over_records(
                    calls[#[trigger] plans[k] as int],
                    keys,
                    w,
                ).len() > 0;
            assert(plans[k] == k as usize);
            assert(lists_some(select, calls[k], w));
            let narrow = choose|narrow: Option<CondView>|
                #[trigger] lists(calls[k], table, select.filter, narrow, by, w);
            assert(over_records(calls[k], keys, w) == asked_of(
                w,
                table,
                select.filter,
                narrow,
                axes_by(by),
                keys,
            ));
            lemma_fewer(w, table, select.filter, narrow, axes_by(by), keys);
        }
        if g(keys) {
            assert(plans[whole] == whole as usize);
            assert(over_records(calls[whole], keys, w) == asked_of(
                w,
                table,
                select.filter,
                None,
                axes_by(by),
                keys,
            ));
        }
    }
    assert(f =~= g);
}

/// What an answer's order ranks a row by, given what its numbers are in each row.
pub open spec fn ranks(
    order: Option<GroupOrder>,
    keys: Seq<int>,
    shows: spec_fn(Seq<int>, Of) -> Figure,
) -> Figure {
    rank_of(order, keys, |of: Of| shows(keys, of))
}

/// Whether the order of an answer is the one that was written.
pub open spec fn right_order(
    select: SelectView,
    order: Option<GroupOrder>,
    shows: spec_fn(Seq<int>, Of) -> Figure,
    comes: spec_fn(Seq<int>, ProjView) -> Figure,
    entry: spec_fn(Seq<int>, int) -> Figure,
) -> bool {
    match select.order_by {
        None => order is None,
        Some(o) => if by_key(o.key, select.items) && !o.desc {
            order is None
        } else {
            &&& order is Some
            &&& order->0.desc == o.desc
            &&& forall|keys: Seq<int>|
                #[trigger] ranks(order, keys, shows) == order_figure(
                    o.key,
                    select.items,
                    keys,
                    |p: ProjView| comes(keys, p),
                    |k: int| entry(keys, k),
                )
        },
    }
}

/// Whether the condition of an answer is the one that was written.
pub open spec fn right_having(
    select: SelectView,
    having: Option<HavingView>,
    shows: spec_fn(Seq<int>, Of) -> Figure,
    comes: spec_fn(Seq<int>, ProjView) -> Figure,
    home: spec_fn(NameView) -> Seq<char>,
    w: Stored,
) -> bool {
    having is Some == select.having is Some && forall|keys: Seq<int>|
        #[trigger] having_keeps(having, keys, shows, w) == (match select.having {
            Some(h) => wanted_group(h, |p: ProjView| comes(keys, p), home, w),
            None => true,
        })
}

/// Whether the condition of an answer keeps a row.
pub open spec fn having_keeps(
    having: Option<HavingView>,
    keys: Seq<int>,
    shows: spec_fn(Seq<int>, Of) -> Figure,
    w: Stored,
) -> bool {
    match having {
        Some(h) => keeps(h, |of: Of| shows(keys, of), w),
        None => true,
    }
}

/// Whether the part of an answer that is kept is the one that was written.
pub open spec fn right_cut(select: SelectView, cut: Cut) -> bool {
    &&& cut.ties == select.with_ties
    &&& match (cut.limit, select.limit) {
        (Some(a), Some(b)) => a == b,
        (None, None) => true,
        _ => false,
    }
    &&& match (cut.offset, select.offset) {
        (Some(a), Some(b)) => a == b,
        (None, None) => true,
        _ => false,
    }
}

/// Rows that are arranged as they were written are the rows that were written.
pub proof fn lemma_arranged(
    rows: Seq<Seq<int>>,
    select: SelectView,
    order: Option<GroupOrder>,
    having: Option<HavingView>,
    cut: Cut,
    shows: spec_fn(Seq<int>, Of) -> Figure,
    comes: spec_fn(Seq<int>, ProjView) -> Figure,
    entry: spec_fn(Seq<int>, int) -> Figure,
    home: spec_fn(NameView) -> Seq<char>,
    w: Stored,
)
    requires
        right_order(select, order, shows, comes, entry),
        right_having(select, having, shows, comes, home, w),
        right_cut(select, cut),
    ensures
        arranged(rows, order, having, cut, shows, w) == written_rows(
            rows,
            select,
            comes,
            entry,
            home,
            w,
        ),
{
    let rank = |keys: Seq<int>| rank_of(order, keys, |of: Of| shows(keys, of));
    let wrank = |keys: Seq<int>|
        match select.order_by {
            Some(o) => order_figure(
                o.key,
                select.items,
                keys,
                |p: ProjView| comes(keys, p),
                |k: int| entry(keys, k),
            ),
            None => Figure::Keys(keys),
        };
    assert forall|keys: Seq<int>| #[trigger] rank(keys) == wrank(keys) by {
        assert(ranks(order, keys, shows) == wrank(keys));
    }
    assert(rank =~= wrank);
    let sorted = match order {
        None => rows,
        Some(o) => (w.sorted)(rows, rank, o.desc),
    };
    if select.order_by is Some {
        let o = select.order_by->0;
        let srank = |keys: Seq<int>|
            order_figure(
                o.key,
                select.items,
                keys,
                |p: ProjView| comes(keys, p),
                |k: int| entry(keys, k),
            );
        assert(rank =~= srank);
    }
    assert(sorted == written_order(rows, select.order_by, select.items, comes, entry, w));
    let f = |keys: Seq<int>|
        match having {
            Some(h) => keeps(h, |of: Of| shows(keys, of), w),
            None => true,
        };
    let g = |keys: Seq<int>|
        match select.having {
            Some(h) => wanted_group(h, |p: ProjView| comes(keys, p), home, w),
            None => true,
        };
    assert forall|keys: Seq<int>| #[trigger] f(keys) == g(keys) by {
        assert(having_keeps(having, keys, shows, w) == f(keys));
    }
    assert(f =~= g);
}

/// A number no call is read for shows the same whatever is asked.
proof fn lemma_free_figure(of: Of, a: Seq<AskView>, b: Seq<AskView>, keys: Seq<int>, w: Stored)
    requires
        of.read_from().len() == 0,
        of.fits(0, 0),
    ensures
        figure(of, a, Seq::empty(), keys, w) == figure(of, b, Seq::empty(), keys, w),
{
    match of {
        Of::Value { plan } => {
            assert(of.read_from().len() == 1);
        },
        Of::Probe { probe } => {},
        _ => {},
    }
}

/// The calls of a ranking answer what the calls it stands for did.
proof fn lemma_ranking_right(
    select: SelectView,
    out: Seq<AskView>,
    measures: Measures,
    stop: Option<usize>,
    w: Stored,
)
    requires
        select.group_by.len() == 1,
        select.group_by[0].bucket is None,
        grouped_right(select, out, measures, w),
        measures.len() > 0 && measures[0].0 is Count ==> measures[0].1 == (Of::Group {
            plan: 0,
            absent: Absent::Zero,
        }),
        nameable(measures, listed_counts(0)).len() <= 1,
        nameable(measures, listed_counts(0)).len() == 1 ==> nameable(
            measures,
            listed_counts(0),
        )[0].0 is Count,
    ensures
        grouped_right(
            select,
            ranking(whole_name(select.from), select.rows(), select, stop),
            measures,
            w,
        ),
{
    let table = whole_name(select.from);
    let by = select.group_by;
    let items = select.items;
    let calls = ranking(table, select.rows(), select, stop);
    let n = items.len() as int;
    lemma_rows(select, table, w);
    assert(calls[0].call.args[0] == select.rows());
    assert(calls[0].call.args[1] == over(by[0].name));
    if stop is Some {
        assert(calls[0].call.args[2] == given_number("n"@, stop->0 as u64));
    }
    lemma_counts_first(select, calls, w);
    if asks_nothing(measures) {
        assert forall|k: int, keys: Seq<int>| 0 <= k < measures.len() implies #[trigger] figure(
            measures[k].1,
            calls,
            Seq::empty(),
            keys,
            w,
        ) == figure(measures[k].1, out, Seq::empty(), keys, w) && measures[k].1.fits(
            calls.len() as int,
            0,
        ) by {
            assert(measures[k].1.read_from().len() == 0);
            assert(measures[k].1.fits(out.len() as int, 0));
            lemma_free_figure(measures[k].1, calls, out, keys, w);
        }
        assert forall|k: int| 0 <= k < measures.len() implies (#[trigger] measures[k]).1.fits(
            calls.len() as int,
            0,
        ) by {
            assert(measures[k].1.read_from().len() == 0);
            assert(measures[k].1.fits(out.len() as int, 0));
        }
        assert forall|k: int| 0 <= k < n && kind_of(#[trigger] items[k]) == Kind::Number implies {
            let m = measures[numbers_upto(items, k) as int];
            &&& !(items[k].leaf() is Scalar)
            &&& m.0 == measure(items[k])
            &&& answers(
                m.1,
                calls,
                Seq::empty(),
                items[k].leaf(),
                table,
                select.filter,
                items[k].filter,
                by,
                w,
            )
        } by {
            lemma_numbers_rise(items, k, n);
            let i = numbers_upto(items, k) as int;
            assert forall|keys: Seq<int>| #[trigger] figure(
                measures[i].1,
                calls,
                Seq::empty(),
                keys,
                w,
            ) == comes_to(
                items[k].leaf(),
                table,
                asked_of(w, table, select.filter, items[k].filter, axes_by(by), keys),
                w,
            ) by {
                assert(figure(measures[i].1, out, Seq::empty(), keys, w) == comes_to(
                    items[k].leaf(),
                    table,
                    asked_of(w, table, select.filter, items[k].filter, axes_by(by), keys),
                    w,
                ));
            }
        }
        assert forall|k: int|
            0 <= k < measures.len() && !((#[trigger] measures[k]).0 is Other) implies answers(
            measures[k].1,
            calls,
            Seq::empty(),
            measures_what(measures[k].0),
            table,
            select.filter,
            None,
            by,
            w,
        ) by {
            assert forall|keys: Seq<int>| #[trigger] figure(
                measures[k].1,
                calls,
                Seq::empty(),
                keys,
                w,
            ) == comes_to(
                measures_what(measures[k].0),
                table,
                asked_of(w, table, select.filter, None, axes_by(by), keys),
                w,
            ) by {
                assert(figure(measures[k].1, out, Seq::empty(), keys, w) == comes_to(
                    measures_what(measures[k].0),
                    table,
                    asked_of(w, table, select.filter, None, axes_by(by), keys),
                    w,
                ));
            }
        }
    } else {
        assert(measures.len() == 1 && measures[0].0 is Count);
        assert(measures[0].1 == listed_counts(0));
        assert(listed_counts(0).fits(calls.len() as int, 0)) by {
            assert(listed_counts(0).read_from() =~= seq![0usize]);
        }
        assert forall|k: int| 0 <= k < n && kind_of(#[trigger] items[k]) == Kind::Number implies {
            let m = measures[numbers_upto(items, k) as int];
            &&& !(items[k].leaf() is Scalar)
            &&& m.0 == measure(items[k])
            &&& answers(
                m.1,
                calls,
                Seq::empty(),
                items[k].leaf(),
                table,
                select.filter,
                items[k].filter,
                by,
                w,
            )
        } by {
            lemma_numbers_rise(items, k, n);
            assert(numbers_upto(items, k) == 0);
        }
    }
}

/// The measures a `HAVING` or an `ORDER BY` of a grouping may name are right.
proof fn lemma_nameable(
    select: SelectView,
    calls: Seq<AskView>,
    measures: Measures,
    keys: Seq<int>,
    w: Stored,
)
    requires
        grouped_right(select, calls, measures, w),
    ensures
        right_measures(
            nameable(measures, listed_counts(0)),
            |of: Of| answer_shows(calls, Seq::empty(), w)(keys, of),
            |p: ProjView| group_comes(select, select.group_by, w)(keys, p),
        ),
{
    lemma_recorded_shows(select, measures, calls, select.group_by, keys, w);
    if asks_nothing(measures) {
        assert(figure(listed_counts(0), calls, Seq::empty(), keys, w) == comes_to(
            ProjView::Count,
            whole_name(select.from),
            asked_of(
                w,
                whole_name(select.from),
                select.filter,
                None,
                axes_by(select.group_by),
                keys,
            ),
            w,
        ));
    }
}

/// The `HAVING` of a grouping is the one that was written.
proof fn lemma_right_having(
    select: SelectView,
    calls: Seq<AskView>,
    measures: Measures,
    home: spec_fn(NameView) -> Seq<char>,
    w: Stored,
)
    requires
        grouped_right(select, calls, measures, w),
        forall|n: NameView| #[trigger] home(n) == whole_name(select.from),
    ensures
        having_resolved(
            select.having,
            FrameView::One(whole_name(select.from)),
            nameable(measures, listed_counts(0)),
        ) matches Ok(having) ==> right_having(
            select,
            having,
            answer_shows(calls, Seq::empty(), w),
            group_comes(select, select.group_by, w),
            home,
            w,
        ),
{
    let frame = FrameView::One(whole_name(select.from));
    let shows = answer_shows(calls, Seq::empty(), w);
    let comes = group_comes(select, select.group_by, w);
    match having_resolved(select.having, frame, nameable(measures, listed_counts(0))) {
        Err(_) => {},
        Ok(having) => {
            assert forall|keys: Seq<int>| #[trigger] having_keeps(having, keys, shows, w) == (
            match select.having {
                Some(h) => wanted_group(h, |p: ProjView| comes(keys, p), home, w),
                None => true,
            }) by {
                lemma_nameable(select, calls, measures, keys, w);
                lemma_having(
                    select.having,
                    frame,
                    nameable(measures, listed_counts(0)),
                    |of: Of| shows(keys, of),
                    |p: ProjView| comes(keys, p),
                    home,
                    w,
                );
            }
            lemma_nameable(select, calls, measures, Seq::empty(), w);
            lemma_having(
                select.having,
                frame,
                nameable(measures, listed_counts(0)),
                |of: Of| shows(Seq::empty(), of),
                |p: ProjView| comes(Seq::empty(), p),
                home,
                w,
            );
        },
    }
}

/// What an `ORDER BY` of a grouping is by is what was written.
proof fn lemma_ordered_by(
    select: SelectView,
    calls: Seq<AskView>,
    measures: Measures,
    by: OrderBy,
    keys: Seq<int>,
    w: Stored,
)
    requires
        grouped_right(select, calls, measures, w),
        select.order_by is Some,
        order_by(
            select.order_by->0,
            select.items,
            select.group_by[0].name.column,
            measures,
        ) == Ok::<OrderBy, crate::error::SqlErrorView>(by),
    ensures
        (by is Key) == by_key(select.order_by->0.key, select.items),
        rank_of(
            Some(GroupOrder { by, desc: select.order_by->0.desc }),
            keys,
            |of: Of| answer_shows(calls, Seq::empty(), w)(keys, of),
        ) == order_figure(
            select.order_by->0.key,
            select.items,
            keys,
            |p: ProjView| group_comes(select, select.group_by, w)(keys, p),
            |k: int| group_entry(select, select.group_by, w)(keys, k),
        ),
{
    let key = select.order_by->0.key;
    let shows = |of: Of| answer_shows(calls, Seq::empty(), w)(keys, of);
    let comes = |p: ProjView| group_comes(select, select.group_by, w)(keys, p);
    let entry = |k: int| group_entry(select, select.group_by, w)(keys, k);
    lemma_nameable(select, calls, measures, keys, w);
    lemma_recorded_shows(select, measures, calls, select.group_by, keys, w);
    lemma_order(
        key,
        select.items,
        if key is Name {
            measures
        } else {
            nameable(measures, listed_counts(0))
        },
        shows,
        comes,
        entry,
        keys,
    );
}

/// A ranking that stops where the rest is cut off leaves what the whole ranking would.
proof fn lemma_stopped(
    s: Seq<Seq<int>>,
    cut: Cut,
    rank: spec_fn(Seq<int>) -> Figure,
    other: spec_fn(Seq<int>) -> Figure,
    limit: Option<u64>,
    offset: Option<u64>,
)
    requires
        !cut.ties,
        match (cut.limit, limit) {
            (Some(a), Some(b)) => a == b,
            (None, None) => true,
            _ => false,
        },
        match (cut.offset, offset) {
            (Some(a), Some(b)) => a == b,
            (None, None) => true,
            _ => false,
        },
    ensures
        ({
            let stop = plan_cut(true, false, cut);
            let after = cut_after(cut, stop);
            kept(
                first(
                    s,
                    match stop {
                        Some(n) => Some(n as u64),
                        None => None,
                    },
                ),
                rank,
                match after.limit {
                    Some(n) => Some(n as int),
                    None => None,
                },
                match after.offset {
                    Some(n) => Some(n as int),
                    None => None,
                },
                after.ties,
            ) == kept(
                s,
                other,
                match limit {
                    Some(n) => Some(n as int),
                    None => None,
                },
                match offset {
                    Some(n) => Some(n as int),
                    None => None,
                },
                false,
            )
        }),
{
    let stop = plan_cut(true, false, cut);
    match (cut.limit, cut.offset) {
        (Some(l), Some(o)) => {
            if l + o <= usize::MAX {
                assert(stop == Some((l + o) as usize));
                if (l + o) <= s.len() {
                    let t = s.take((l + o) as int);
                    assert(t.skip(o as int) =~= s.skip(o as int).take(l as int));
                    assert(s.skip(o as int).take(l as int) =~= s.skip(o as int) || l
                        < s.skip(o as int).len());
                }
            }
        },
        (Some(l), None) => {
            if l <= s.len() {
                assert(s.take(l as int) =~= s || l < s.len());
            }
        },
        _ => {},
    }
}

/// Whether a grouping's limits fit a length.
pub open spec fn limits_fit(select: SelectView) -> bool {
    &&& select.limit matches Some(n) ==> n <= usize::MAX
    &&& select.offset matches Some(n) ==> n <= usize::MAX
}

/// Whether the cells of a row show the entries of a select list: a grouped column its key, and a
/// number what it comes to in the group.
pub open spec fn right_cells(
    select: SelectView,
    cells: Seq<CellView>,
    by: Seq<GroupingView>,
    calls: Seq<AskView>,
    keys: Seq<int>,
    home: spec_fn(NameView) -> Seq<char>,
    w: Stored,
) -> bool {
    &&& cells.len() == select.items.len()
    &&& forall|k: int|
        0 <= k < cells.len() && is_number(select.items[k]) ==> shows_entry(
            #[trigger] cells[k],
            select.items[k],
            figure(cells[k].of, calls, Seq::empty(), keys, w),
            group_entry(select, by, w)(keys, k),
            home,
        )
    &&& forall|k: int|
        0 <= k < cells.len() && select.items[k].leaf() is Column ==> {
            &&& (#[trigger] cells[k]).column == select.items[k].column()
            &&& exists|a: int|
                0 <= a < by.len() && (#[trigger] by[a]).name.column
                    == select.items[k].leaf()->Column_0.column && figure(
                    cells[k].of,
                    calls,
                    Seq::empty(),
                    keys,
                    w,
                ) == Figure::Key(keys[a]) && cells[k].apply == (if by[a].bucket is Some {
                    None
                } else {
                    select.items[k].apply()
                })
        }
}

/// A grouped column is one of those grouped by.
pub proof fn lemma_grouped_at(by: Seq<GroupingView>, column: Seq<char>)
    ensures
        grouped_at(by, column) matches Some(k) ==> 0 <= k < by.len() && by[k].name.column == column,
    decreases by.len(),
{
    if by.len() > 0 {
        lemma_grouped_at(by.drop_last(), column);
    }
}

/// Where no column is at fault, each is grouped by.
pub proof fn lemma_columns_grouped(items: Seq<ItemView>, by: Seq<GroupingView>, k: int, j: int)
    requires
        column_fault(items, by, k) is None,
        0 <= k <= j < items.len(),
        items[j].leaf() is Column,
    ensures
        grouped_at(by, items[j].leaf()->Column_0.column) is Some,
    decreases j - k,
{
    if k < j {
        lemma_columns_grouped(items, by, k + 1, j);
    }
}

/// The cells of a grouping by one column.
proof fn lemma_group_cells(
    select: SelectView,
    measures: Measures,
    calls: Seq<AskView>,
    keys: Seq<int>,
    home: spec_fn(NameView) -> Seq<char>,
    w: Stored,
)
    requires
        select.group_by.len() == 1,
        column_fault(select.items, select.group_by, 0) is None,
        recorded(
            select.items,
            select.items.len() as int,
            measures,
            calls,
            whole_name(select.from),
            select.filter,
            select.group_by,
            w,
        ),
        forall|n: NameView| #[trigger] home(n) == whole_name(select.from),
    ensures
        right_cells(
            select,
            cells_for(
                select.items,
                whole_name(select.from),
                select.group_by,
                seq![0],
                measures,
            ),
            select.group_by,
            calls,
            keys,
            home,
            w,
        ),
{
    let items = select.items;
    let table = whole_name(select.from);
    let by = select.group_by;
    let set = seq![0usize];
    let cells = cells_for(items, table, by, set, measures);
    lemma_recorded_shows(select, measures, calls, by, keys, w);
    assert forall|k: int| 0 <= k < cells.len() && is_number(items[k]) implies shows_entry(
        #[trigger] cells[k],
        items[k],
        figure(cells[k].of, calls, Seq::empty(), keys, w),
        group_entry(select, by, w)(keys, k),
        home,
    ) by {
        lemma_numbers_rise(items, k, items.len() as int);
        lemma_units(table, items[k], home);
        assert(kind_of(items[k]) == Kind::Number);
    }
    assert forall|k: int| 0 <= k < cells.len() && items[k].leaf() is Column implies {
        &&& (#[trigger] cells[k]).column == items[k].column()
        &&& exists|a: int|
            0 <= a < by.len() && (#[trigger] by[a]).name.column
                == items[k].leaf()->Column_0.column && figure(
                cells[k].of,
                calls,
                Seq::empty(),
                keys,
                w,
            ) == Figure::Key(keys[a]) && cells[k].apply == (if by[a].bucket is Some {
                None
            } else {
                items[k].apply()
            })
    } by {
        let column = items[k].leaf()->Column_0.column;
        lemma_columns_grouped(items, by, 0, k);
        lemma_grouped_at(by, column);
        assert(grouped_at(by, column) == Some(0int));
        assert(set[0] == 0);
        assert(by[0].name.column == column);
    }
}

/// The ranking of a grouping is its groups, most frequent first.
proof fn lemma_ranked_rows(
    select: SelectView,
    out: Seq<AskView>,
    measures: Measures,
    by: OrderBy,
    having: Option<HavingView>,
    home: spec_fn(NameView) -> Seq<char>,
    w: Stored,
)
    requires
        select.group_by.len() == 1,
        limits_fit(select),
        forall|n: NameView| #[trigger] home(n) == whole_name(select.from),
        grouped_right(select, out, measures, w),
        measures.len() > 0 && measures[0].0 is Count ==> measures[0].1 == (Of::Group {
            plan: 0,
            absent: Absent::Zero,
        }),
        select.order_by is Some,
        select.order_by->0.desc,
        order_by(
            select.order_by->0,
            select.items,
            select.group_by[0].name.column,
            measures,
        ) == Ok::<OrderBy, crate::error::SqlErrorView>(by),
        by_count(
            by,
            select.group_by[0],
            nameable(measures, listed_counts(0)),
            select.with_ties,
        ),
        having_resolved(
            select.having,
            FrameView::One(whole_name(select.from)),
            nameable(measures, listed_counts(0)),
        ) == Ok::<Option<HavingView>, crate::error::SqlErrorView>(having),
    ensures
        ({
            let stop = plan_cut(true, having is Some, cut_of(select));
            let calls = ranking(whole_name(select.from), select.rows(), select, stop);
            &&& grouped_right(select, calls, measures, w)
            &&& arranged(
                listed_rows(calls, upto(calls.len()), w),
                None,
                having,
                cut_after(cut_of(select), stop),
                answer_shows(calls, Seq::empty(), w),
                w,
            ) == written_rows(
                where_groups(select, select.group_by, w),
                select,
                group_comes(select, select.group_by, w),
                group_entry(select, select.group_by, w),
                home,
                w,
            )
        }),
{
    let table = whole_name(select.from);
    let g = select.group_by[0];
    let o = select.order_by->0;
    let stop = plan_cut(true, having is Some, cut_of(select));
    let calls = ranking(table, select.rows(), select, stop);
    let ask = calls[0];
    let axes = axes_by(select.group_by);
    assert(select.group_by =~= seq![g]);
    lemma_ranking_right(select, out, measures, stop, w);
    lemma_rows(select, table, w);
    assert(ask.call.args[0] == select.rows());
    assert(ask.call.args[1] == over(g.name));
    if stop is Some {
        assert(ask.call.args[2] == given_number("n"@, stop->0 as u64));
    }
    lemma_counting_call(ask, select.filter, g, w);
    // The keys are the groups.
    let f = |keys: Seq<int>| over_records(ask, keys, w).len() > 0;
    let h = |keys: Seq<int>| asked_of(w, table, select.filter, None, axes, keys).len() > 0;
    assert(f =~= h);
    assert(keys_of(ask, w) == where_groups(select, select.group_by, w));
    // The ranking is by the number that was written.
    let comes = group_comes(select, select.group_by, w);
    let entry = group_entry(select, select.group_by, w);
    let shows = answer_shows(calls, Seq::empty(), w);
    let a = |keys: Seq<int>| Figure::Number(Some(over_records(ask, keys, w).len() as int));
    let b = |keys: Seq<int>|
        order_figure(
            o.key,
            select.items,
            keys,
            |p: ProjView| comes(keys, p),
            |k: int| entry(keys, k),
        );
    assert forall|keys: Seq<int>| #[trigger] a(keys) == b(keys) by {
        lemma_ordered_by(select, calls, measures, by, keys, w);
        lemma_counted(select, measures, by);
        assert(by == OrderBy::Value { of: listed_counts(0) });
        assert(figure(listed_counts(0), calls, Seq::empty(), keys, w) == b(keys));
        assert(number_at(ask, keys, w) == Some(
            asked_of(w, ask.table, select.filter, None, axes, keys).len() as int,
        ));
        assert(over_records(ask, keys, w) == asked_of(
            w,
            ask.table,
            select.filter,
            None,
            axes,
            keys,
        ));
    }
    assert(a =~= b);
    lemma_ordered_by(select, calls, measures, by, Seq::empty(), w);
    let groups = where_groups(select, select.group_by, w);
    let sorted = (w.sorted)(groups, a, true);
    assert(sorted == written_order(
        groups,
        select.order_by,
        select.items,
        comes,
        entry,
        w,
    ));
    reveal_with_fuel(argument, 4);
    lemma_answer_names();
    assert(a_number(argument(ask.call.args, 0, "n"@)) == match stop {
        Some(n) => Some(n as u64),
        None => None,
    });
    let rows = listed_rows(calls, upto(calls.len()), w);
    assert(upto(calls.len())[0] == 0);
    assert(rows == first(
        sorted,
        match stop {
            Some(n) => Some(n as u64),
            None => None,
        },
    ));
    // The rows that are kept.
    lemma_right_having(select, calls, measures, home, w);
    let fh = |keys: Seq<int>|
        match having {
            Some(h) => keeps(h, |of: Of| shows(keys, of), w),
            None => true,
        };
    let gh = |keys: Seq<int>|
        match select.having {
            Some(h) => wanted_group(h, |p: ProjView| comes(keys, p), home, w),
            None => true,
        };
    assert forall|keys: Seq<int>| #[trigger] fh(keys) == gh(keys) by {
        assert(having_keeps(having, keys, shows, w) == fh(keys));
    }
    assert(fh =~= gh);
    let rank = |keys: Seq<int>| rank_of(None, keys, |of: Of| shows(keys, of));
    let wrank = |keys: Seq<int>|
        match select.order_by {
            Some(o) => order_figure(
                o.key,
                select.items,
                keys,
                |p: ProjView| comes(keys, p),
                |k: int| entry(keys, k),
            ),
            None => Figure::Keys(keys),
        };
    let cut = cut_of(select);
    if having is None {
        lemma_filter_all(rows, fh);
        lemma_filter_all(sorted, gh);
        lemma_stopped(sorted, cut, rank, wrank, select.limit, select.offset);
    } else {
        assert(stop is None);
        assert(rows == sorted);
    }
}

/// A ranking by count is by the count that the groups are listed with.
proof fn lemma_counted(select: SelectView, measures: Measures, by: OrderBy)
    requires
        select.order_by is Some,
        measures.len() > 0 && measures[0].0 is Count ==> measures[0].1 == (Of::Group {
            plan: 0,
            absent: Absent::Zero,
        }),
        order_by(
            select.order_by->0,
            select.items,
            select.group_by[0].name.column,
            measures,
        ) == Ok::<OrderBy, crate::error::SqlErrorView>(by),
        by_count(
            by,
            select.group_by[0],
            nameable(measures, listed_counts(0)),
            select.with_ties,
        ),
    ensures
        by == (OrderBy::Value { of: listed_counts(0) }),
{
    let named = nameable(measures, listed_counts(0));
    let key = select.order_by->0.key;
    match key {
        OrderKeyView::Name(n) => {
            lemma_aliased_in(select.items, measures, n.column, 0, 0);
            if asks_nothing(measures) {
                let of = by->Value_of;
                assert(of.read_from().len() == 0) by {
                    let i = choose|i: int| 0 <= i < measures.len() && (#[trigger] measures[i]).1 == of;
                    assert(measures[i].1.read_from().len() == 0);
                }
                assert(of.read_from().len() == 1);
            }
        },
        OrderKeyView::Count => {
            lemma_found_in(MeasureView::Count, named, 0);
        },
        OrderKeyView::Agg { func, field } => {
            lemma_found_in(MeasureView::Agg { func, field }, named, 0);
        },
        OrderKeyView::Avg(field) => {
            lemma_found_in(MeasureView::Avg(field), named, 0);
        },
    }
}

proof fn lemma_found_in(want: MeasureView, measures: Measures, k: int)
    requires
        0 <= k,
    ensures
        found(want, measures, k) matches Some(of) ==> exists|i: int|
            0 <= i < measures.len() && (#[trigger] measures[i]).1 == of && measures[i].0 == want,
    decreases measures.len() - k,
{
    if k < measures.len() && measures[k].0 != want {
        lemma_found_in(want, measures, k + 1);
    }
}

proof fn lemma_aliased_in(
    items: Seq<ItemView>,
    measures: Measures,
    name: Seq<char>,
    k: int,
    n: int,
)
    ensures
        aliased(items, measures, name, k, n) matches Some(of) ==> exists|i: int|
            0 <= i < measures.len() && (#[trigger] measures[i]).1 == of,
    decreases items.len() - k,
{
    if 0 <= k < items.len() {
        lemma_aliased_in(items, measures, name, k + 1, n);
        lemma_aliased_in(items, measures, name, k + 1, n + 1);
    }
}

/// A grouping answers with the groups of the records its `WHERE` is true of, in the order of the
/// number or the key its `ORDER BY` names, in the direction it names, of those its `HAVING` is true
/// of, from its `OFFSET` on and as many as its `LIMIT` says, whatever the tables hold. A call that
/// ranks and stops stands for a sort and a cut only where it leaves the same rows. In each row a
/// grouped column shows the key, and a number what its entry comes to over the records of the
/// group that its own `FILTER` is true of.
pub proof fn a_grouping_shows_its_groups_in_order(select: SelectView, w: Stored)
    requires
        select.joins.len() == 0,
        select.grouping_sets is None,
        select.group_by.len() == 1,
        limits_fit(select),
    ensures
        lowered_one(select) matches Ok(s) ==> {
            let home = |n: NameView| whole_name(select.from);
            &&& s.answer.format == select.format
            &&& s.answer.shape matches ShapeView::Groups { keys, cells, having, order, cut } && {
                &&& arranged(
                    listed_rows(s.calls, keys, w),
                    order,
                    having,
                    cut,
                    answer_shows(s.calls, Seq::empty(), w),
                    w,
                ) == written_rows(
                    where_groups(select, select.group_by, w),
                    select,
                    group_comes(select, select.group_by, w),
                    group_entry(select, select.group_by, w),
                    home,
                    w,
                )
                &&& forall|row: Seq<int>|
                    #[trigger] right_cells(
                        select,
                        cells,
                        select.group_by,
                        s.calls,
                        row,
                        home,
                        w,
                    )
            }
        },
{
    let table = whole_name(select.from);
    lemma_whole(select.from);
    match lowered_one(select) {
        Err(_) => {},
        Ok(s) => {
            lemma_grouped_calls(select, w);
            let home = |n: NameView| whole_name(select.from);
            let (out, measures) = grouped_calls(select, table, select.rows())->Ok_0;
            let named = nameable(measures, listed_counts(0));
            let having = having_resolved(select.having, FrameView::One(table), named)->Ok_0;
            let (ranked, order) = ordering(select, select.group_by[0], measures)->Ok_0;
            let comes = group_comes(select, select.group_by, w);
            let entry = group_entry(select, select.group_by, w);
            let stop = plan_cut(ranked, having is Some, cut_of(select));
            if ranked {
                let by = order_by(
                    select.order_by->0,
                    select.items,
                    select.group_by[0].name.column,
                    measures,
                )->Ok_0;
                lemma_ranked_rows(select, out, measures, by, having, home, w);
            } else {
                let shows = answer_shows(out, Seq::empty(), w);
                lemma_right_having(select, out, measures, home, w);
                assert(stop is None);
                assert(right_order(select, order, shows, comes, entry)) by {
                    if select.order_by is Some {
                        let o = select.order_by->0;
                        let by = order_by(
                            o,
                            select.items,
                            select.group_by[0].name.column,
                            measures,
                        )->Ok_0;
                        assert forall|keys: Seq<int>| #[trigger] ranks(
                            Some(GroupOrder { by, desc: o.desc }),
                            keys,
                            shows,
                        ) == order_figure(
                            o.key,
                            select.items,
                            keys,
                            |p: ProjView| comes(keys, p),
                            |k: int| entry(keys, k),
                        ) by {
                            lemma_ordered_by(select, out, measures, by, keys, w);
                        }
                        lemma_ordered_by(select, out, measures, by, Seq::empty(), w);
                    }
                }
                lemma_arranged(
                    where_groups(select, select.group_by, w),
                    select,
                    order,
                    having,
                    cut_of(select),
                    shows,
                    comes,
                    entry,
                    home,
                    w,
                );
            }
            let cells = cells_for(select.items, table, select.group_by, seq![0], measures);
            assert forall|row: Seq<int>|
                #[trigger] right_cells(
                    select,
                    cells,
                    select.group_by,
                    s.calls,
                    row,
                    home,
                    w,
                ) by {
                lemma_group_cells(select, measures, s.calls, row, home, w);
            }
        },
    }
}

/// The groups of a grouping by several columns: those of the records the `WHERE` is true of that
/// some number of the select list counts, and all of them where it has no numbers.
pub open spec fn combination_groups(
    select: SelectView,
    by: Seq<GroupingView>,
    w: Stored,
) -> Seq<Seq<int>> {
    let table = whole_name(select.from);
    (w.keys)(table, axes_by(by)).filter(
        |keys: Seq<int>|
            if forall|k: int| 0 <= k < select.items.len() ==> !is_number(#[trigger] select.items[k]) {
                asked_of(w, table, select.filter, None, axes_by(by), keys).len() > 0
            } else {
                exists|k: int|
                    0 <= k < select.items.len() && is_number(#[trigger] select.items[k])
                        && asked_of(
                        w,
                        table,
                        select.filter,
                        select.items[k].filter,
                        axes_by(by),
                        keys,
                    ).len() > 0
            },
    )
}

/// Whether the cells of a row over a set of the grouped columns show the entries of a select list:
/// a column of the set its key, another nothing, and a number what it comes to in the group.
pub open spec fn right_set_cells(
    select: SelectView,
    set: Seq<usize>,
    cells: Seq<CellView>,
    by: Seq<GroupingView>,
    calls: Seq<AskView>,
    keys: Seq<int>,
    home: spec_fn(NameView) -> Seq<char>,
    w: Stored,
) -> bool {
    &&& cells.len() == select.items.len()
    &&& forall|k: int|
        0 <= k < cells.len() && is_number(select.items[k]) ==> shows_entry(
            #[trigger] cells[k],
            select.items[k],
            figure(cells[k].of, calls, Seq::empty(), keys, w),
            group_entry(select, by, w)(keys, k),
            home,
        )
    &&& forall|k: int|
        0 <= k < cells.len() && select.items[k].leaf() is Column ==> {
            &&& (#[trigger] cells[k]).column == select.items[k].column()
            &&& shows_key(select, set, cells[k], k, calls, keys, w)
        }
}

/// Whether a cell shows the key of the grouped column an entry names, or nothing where the set
/// leaves that column out.
pub open spec fn shows_key(
    select: SelectView,
    set: Seq<usize>,
    cell: CellView,
    k: int,
    calls: Seq<AskView>,
    keys: Seq<int>,
    w: Stored,
) -> bool {
    exists|t: int|
        0 <= t < select.group_by.len() && (#[trigger] select.group_by[t]).name.column
            == select.items[k].leaf()->Column_0.column && if set.contains(t as usize) {
            &&& cell.apply == (if select.group_by[t].bucket is Some {
                None
            } else {
                select.items[k].apply()
            })
            &&& exists|a: int|
                0 <= a < set.len() && #[trigger] set[a] == t && figure(
                    cell.of,
                    calls,
                    Seq::empty(),
                    keys,
                    w,
                ) == Figure::Key(keys[a])
        } else {
            cell.apply is None && figure(cell.of, calls, Seq::empty(), keys, w) == Figure::Blank
        }
}

proof fn lemma_position(set: Seq<usize>, x: usize, k: int)
    requires
        0 <= k <= set.len(),
        forall|j: int| 0 <= j < k ==> set[j] != x,
    ensures
        position(set, x, k) matches Some(a) ==> k <= a < set.len() && set[a] == x,
        position(set, x, k) is Some == set.contains(x),
    decreases set.len() - k,
{
    if k < set.len() && set[k] != x {
        lemma_position(set, x, k + 1);
    }
}

/// The cells of a row over a set of the grouped columns.
pub proof fn lemma_set_cells(
    select: SelectView,
    set: Seq<usize>,
    by: Seq<GroupingView>,
    measures: Measures,
    calls: Seq<AskView>,
    keys: Seq<int>,
    home: spec_fn(NameView) -> Seq<char>,
    w: Stored,
)
    requires
        select.group_by.len() <= usize::MAX,
        set.len() <= 255,
        column_fault(select.items, select.group_by, 0) is None,
        recorded(
            select.items,
            select.items.len() as int,
            measures,
            calls,
            whole_name(select.from),
            select.filter,
            by,
            w,
        ),
        forall|n: NameView| #[trigger] home(n) == whole_name(select.from),
    ensures
        right_set_cells(
            select,
            set,
            cells_for(select.items, whole_name(select.from), select.group_by, set, measures),
            by,
            calls,
            keys,
            home,
            w,
        ),
{
    let items = select.items;
    let table = whole_name(select.from);
    let cells = cells_for(items, table, select.group_by, set, measures);
    lemma_recorded_shows(select, measures, calls, by, keys, w);
    assert forall|k: int| 0 <= k < cells.len() && is_number(items[k]) implies shows_entry(
        #[trigger] cells[k],
        items[k],
        figure(cells[k].of, calls, Seq::empty(), keys, w),
        group_entry(select, by, w)(keys, k),
        home,
    ) by {
        lemma_numbers_rise(items, k, items.len() as int);
        lemma_units(table, items[k], home);
        assert(kind_of(items[k]) == Kind::Number);
    }
    assert forall|k: int| 0 <= k < cells.len() && items[k].leaf() is Column implies {
        &&& (#[trigger] cells[k]).column == items[k].column()
        &&& shows_key(select, set, cells[k], k, calls, keys, w)
    } by {
        let column = items[k].leaf()->Column_0.column;
        lemma_columns_grouped(items, select.group_by, 0, k);
        lemma_grouped_at(select.group_by, column);
        let t = grouped_at(select.group_by, column)->0;
        lemma_position(set, t as usize, 0);
        assert(select.group_by[t].name.column == column);
        match position(set, t as usize, 0) {
            Some(a) => {
                assert(set[a] == t);
                assert(figure(cells[k].of, calls, Seq::empty(), keys, w) == Figure::Key(keys[a]));
            },
            None => {},
        }
    }
}

/// The calls of a grouping by several columns are right, and list its groups.
#[verifier::rlimit(60)]
#[verifier::spinoff_prover]
proof fn lemma_tuple_calls(select: SelectView, w: Stored)
    requires
        select.group_by.len() > 1,
        first_of(select.items, Kind::Star, 0) is None,
    ensures
        tuple_calls(select, whole_name(select.from), select.rows()) matches Ok((out, measures))
            ==> {
            &&& recorded(
                select.items,
                select.items.len() as int,
                measures,
                out,
                whole_name(select.from),
                select.filter,
                select.group_by,
                w,
            )
            &&& measures.len() == 0 ==> answers(
                listed_counts(0),
                out,
                Seq::empty(),
                ProjView::Count,
                whole_name(select.from),
                select.filter,
                None,
                select.group_by,
                w,
            )
            &&& listed_rows(out, upto(out.len()), w) == combination_groups(
                select,
                select.group_by,
                w,
            )
        },
{
    let table = whole_name(select.from);
    let by = select.group_by;
    let items = select.items;
    let at = start_of(items);
    let rows = select.rows();
    let n = items.len() as int;
    lemma_rows(select, table, w);
    lemma_nothing_recorded(items, Seq::empty(), 0, table, select.filter, by, w);
    lemma_recorded(items, 0, Seq::empty(), Seq::empty(), at, table, rows, select.filter, by, w);
    lemma_listed(items, 0, Seq::empty(), 0, Seq::empty(), at, table, rows, select.filter, by, w);
    match numbers_by(items, 0, Seq::empty(), Seq::empty(), at, table, rows, by) {
        Err(_) => {},
        Ok((out, measures)) => {
            if measures.len() == 0 {
                assert(asks_nothing(measures));
                assert forall|k: int| 0 <= k < n implies !is_number(#[trigger] items[k]) by {
                    lemma_numbers_rise(items, k, n);
                    assert(is_number(items[k]) == (kind_of(items[k]) == Kind::Number));
                }
                let call = a_call("GroupByTuple"@, tuple_args(by, rows));
                let ask = AskView { table, call };
                lemma_asking(out, at, table, call);
                match asking(out, at, table, call) {
                    Err(_) => {},
                    Ok((now, plan)) => {
                        assert(out =~= now.subrange(0, out.len() as int));
                        lemma_still_recorded(
                            items,
                            n,
                            measures,
                            out,
                            now,
                            table,
                            select.filter,
                            by,
                            w,
                        );
                        assert(call.args[0] == rows);
                        assert(now[0] == ask);
                        assert(now.len() == 1);
                        lemma_lists(ask, table, select.filter, None, by, None, w);
                        assert forall|keys: Seq<int>| #[trigger] figure(
                            listed_counts(0),
                            now,
                            Seq::empty(),
                            keys,
                            w,
                        ) == comes_to(
                            ProjView::Count,
                            table,
                            asked_of(w, table, select.filter, None, axes_by(by), keys),
                            w,
                        ) by {
                            lemma_grouping_call(ask, select.filter, None, by, keys, None, w);
                        }
                        let f = |keys: Seq<int>|
                            exists|k: int|
                                0 <= k < upto(now.len()).len() && over_records(
                                    now[#[trigger] upto(now.len())[k] as int],
                                    keys,
                                    w,
                                ).len() > 0;
                        let g = |keys: Seq<int>|
                            if forall|k: int|
                                0 <= k < items.len() ==> !is_number(#[trigger] items[k]) {
                                asked_of(w, table, select.filter, None, axes_by(by), keys).len() > 0
                            } else {
                                exists|k: int|
                                    0 <= k < items.len() && is_number(#[trigger] items[k])
                                        && asked_of(
                                        w,
                                        table,
                                        select.filter,
                                        items[k].filter,
                                        axes_by(by),
                                        keys,
                                    ).len() > 0
                            };
                        assert(upto(now.len())[0] == 0);
                        assert forall|keys: Seq<int>| #[trigger] f(keys) == g(keys) by {
                            assert(over_records(now[0], keys, w) == asked_of(
                                w,
                                table,
                                select.filter,
                                None,
                                axes_by(by),
                                keys,
                            ));
                        }
                        assert(f =~= g);
                    },
                }
            } else {
                assert forall|j: int| 0 <= j < out.len() implies lists_entry(
                    select,
                    #[trigger] out[j],
                    w,
                ) by {}
                assert forall|k: int|
                    0 <= k < items.len() && counts(#[trigger] items[k]) implies entry_listed(
                    select,
                    out,
                    k,
                    w,
                ) by {}
                lemma_combinations(select, out, measures, w);
            }
        },
    }
}

/// No entry is a moment in a grouping by several columns.
proof fn lemma_no_moments(
    items: Seq<ItemView>,
    k: int,
    out: Seq<AskView>,
    measures: Measures,
    at: usize,
    table: Seq<char>,
    rows: ExprView,
    by: Seq<GroupingView>,
    j: int,
)
    requires
        by.len() > 1,
        0 <= k <= j < items.len(),
        numbers_by(items, k, out, measures, at, table, rows, by) is Ok,
        kind_of(items[j]) == Kind::Number,
    ensures
        counts(items[j]),
    decreases items.len() - k,
{
    if kind_of(items[k]) != Kind::Number {
        lemma_no_moments(items, k + 1, out, measures, at, table, rows, by, j);
    } else {
        let one = number_by(out, at, table, narrowed(rows, items[k]), by, items[k]);
        assert(one is Ok);
        if k < j {
            let (now, of) = one->Ok_0;
            lemma_no_moments(
                items,
                k + 1,
                now,
                measures.push((measure(items[k]), of)),
                at,
                table,
                rows,
                by,
                j,
            );
        }
    }
}

/// Whether some number of a select list counts a combination.
spec fn some_counts(select: SelectView, keys: Seq<int>, w: Stored) -> bool {
    exists|k: int|
        0 <= k < select.items.len() && is_number(#[trigger] select.items[k]) && asked_of(
            w,
            whole_name(select.from),
            select.filter,
            select.items[k].filter,
            axes_by(select.group_by),
            keys,
        ).len() > 0
}

/// A call that has a combination is that of a number that counts it.
proof fn lemma_combination_counted(select: SelectView, ask: AskView, keys: Seq<int>, w: Stored)
    requires
        lists_entry(select, ask, w),
        over_records(ask, keys, w).len() > 0,
    ensures
        some_counts(select, keys, w),
{
    let table = whole_name(select.from);
    let e = choose|e: int|
        0 <= e < select.items.len() && counts(#[trigger] select.items[e]) && lists(
            ask,
            table,
            select.filter,
            select.items[e].filter,
            select.group_by,
            w,
        );
    assert(over_records(ask, keys, w) == asked_of(
        w,
        table,
        select.filter,
        select.items[e].filter,
        axes_by(select.group_by),
        keys,
    ));
    assert(is_number(select.items[e]));
}

/// Whether a call lists the groups of an entry.
spec fn lists_entry(select: SelectView, ask: AskView, w: Stored) -> bool {
    exists|e: int|
        0 <= e < select.items.len() && counts(#[trigger] select.items[e]) && lists(
            ask,
            whole_name(select.from),
            select.filter,
            select.items[e].filter,
            select.group_by,
            w,
        )
}

/// Calls that list the groups of entries, and every entry's, list the groups that one counts.
proof fn lemma_all_combinations(select: SelectView, out: Seq<AskView>, keys: Seq<int>, w: Stored)
    requires
        out.len() <= usize::MAX,
        forall|j: int| 0 <= j < out.len() ==> lists_entry(select, #[trigger] out[j], w),
        forall|k: int|
            0 <= k < select.items.len() && is_number(#[trigger] select.items[k]) ==> entry_listed(
                select,
                out,
                k,
                w,
            ),
    ensures
        (exists|k: int|
            0 <= k < upto(out.len()).len() && over_records(
                out[#[trigger] upto(out.len())[k] as int],
                keys,
                w,
            ).len() > 0) == some_counts(select, keys, w),
{
    let plans = upto(out.len());
    if exists|k: int|
        0 <= k < plans.len() && over_records(out[#[trigger] plans[k] as int], keys, w).len() > 0 {
        let k = choose|k: int|
            0 <= k < plans.len() && over_records(out[#[trigger] plans[k] as int], keys, w).len() > 0;
        assert(plans[k] == k as usize);
        assert(lists_entry(select, out[k], w));
        lemma_combination_counted(select, out[k], keys, w);
    }
    if some_counts(select, keys, w) {
        let e = choose|e: int|
            0 <= e < select.items.len() && is_number(#[trigger] select.items[e]) && asked_of(
                w,
                whole_name(select.from),
                select.filter,
                select.items[e].filter,
                axes_by(select.group_by),
                keys,
            ).len() > 0;
        assert(entry_listed(select, out, e, w));
        let j = choose|j: int|
            0 <= j < out.len() && lists(
                #[trigger] out[j],
                whole_name(select.from),
                select.filter,
                select.items[e].filter,
                select.group_by,
                w,
            );
        assert(over_records(out[j], keys, w) == asked_of(
            w,
            whole_name(select.from),
            select.filter,
            select.items[e].filter,
            axes_by(select.group_by),
            keys,
        ));
        assert(plans[j] == j as usize);
    }
}

/// Whether some call lists the groups of an entry.
spec fn entry_listed(select: SelectView, out: Seq<AskView>, k: int, w: Stored) -> bool {
    exists|j: int|
        0 <= j < out.len() && lists(
            #[trigger] out[j],
            whole_name(select.from),
            select.filter,
            select.items[k].filter,
            select.group_by,
            w,
        )
}

/// The calls of the numbers of a grouping by several columns list the groups that one counts.
proof fn lemma_combinations(select: SelectView, out: Seq<AskView>, measures: Measures, w: Stored)
    requires
        select.group_by.len() > 1,
        measures.len() > 0,
        frugal(out),
        numbers_by(
            select.items,
            0,
            Seq::empty(),
            Seq::empty(),
            start_of(select.items),
            whole_name(select.from),
            select.rows(),
            select.group_by,
        ) == Ok::<(Seq<AskView>, Measures), crate::error::SqlErrorView>((out, measures)),
        measures.len() == numbers_upto(select.items, select.items.len() as int),
        forall|j: int| 0 <= j < out.len() ==> lists_entry(select, #[trigger] out[j], w),
        forall|k: int|
            0 <= k < select.items.len() && counts(#[trigger] select.items[k]) ==> entry_listed(
                select,
                out,
                k,
                w,
            ),
    ensures
        listed_rows(out, upto(out.len()), w) == combination_groups(select, select.group_by, w),
{
    let items = select.items;
    let n = items.len() as int;
    let i = lemma_some_number(items, n);
    assert forall|k: int| 0 <= k < n && is_number(#[trigger] items[k]) implies entry_listed(
        select,
        out,
        k,
        w,
    ) by {
        assert(kind_of(items[k]) == Kind::Number);
        lemma_no_moments(
            items,
            0,
            Seq::empty(),
            Seq::empty(),
            start_of(items),
            whole_name(select.from),
            select.rows(),
            select.group_by,
            k,
        );
        assert(counts(items[k]));
    }
    assert(is_number(items[i]));
    assert(entry_listed(select, out, i, w));
    assert(lists_entry(select, out[0], w));
    lemma_combinations_listed(select, out, i, w);
}

proof fn lemma_combinations_listed(select: SelectView, out: Seq<AskView>, i: int, w: Stored)
    requires
        0 < out.len() <= usize::MAX,
        0 <= i < select.items.len(),
        is_number(select.items[i]),
        forall|j: int| 0 <= j < out.len() ==> lists_entry(select, #[trigger] out[j], w),
        forall|k: int|
            0 <= k < select.items.len() && is_number(#[trigger] select.items[k]) ==> entry_listed(
                select,
                out,
                k,
                w,
            ),
    ensures
        listed_rows(out, upto(out.len()), w) == combination_groups(select, select.group_by, w),
{
    let plans = upto(out.len());
    assert(plans[0] == 0);
    assert(lists_entry(select, out[0], w));
    let f = |keys: Seq<int>|
        exists|k: int|
            0 <= k < plans.len() && over_records(
                out[#[trigger] plans[k] as int],
                keys,
                w,
            ).len() > 0;
    let g = |keys: Seq<int>|
        if forall|k: int| 0 <= k < select.items.len() ==> !is_number(#[trigger] select.items[k]) {
            asked_of(
                w,
                whole_name(select.from),
                select.filter,
                None,
                axes_by(select.group_by),
                keys,
            ).len() > 0
        } else {
            exists|k: int|
                0 <= k < select.items.len() && is_number(#[trigger] select.items[k]) && asked_of(
                    w,
                    whole_name(select.from),
                    select.filter,
                    select.items[k].filter,
                    axes_by(select.group_by),
                    keys,
                ).len() > 0
        };
    assert forall|keys: Seq<int>| #[trigger] f(keys) == g(keys) by {
        lemma_all_combinations(select, out, keys, w);
        assert(g(keys) == some_counts(select, keys, w));
    }
    assert(f =~= g);
}

/// Where there are numbers, some entry is one.
proof fn lemma_some_number(items: Seq<ItemView>, n: int) -> (k: int)
    requires
        0 <= n <= items.len(),
        numbers_upto(items, n) > 0,
    ensures
        0 <= k < n,
        kind_of(items[k]) == Kind::Number,
    decreases n,
{
    if kind_of(items[n - 1]) == Kind::Number {
        n - 1
    } else {
        lemma_some_number(items, n - 1)
    }
}

/// The measures of a grouping by several columns.
proof fn lemma_tuple_measures(
    select: SelectView,
    calls: Seq<AskView>,
    measures: Measures,
    keys: Seq<int>,
    w: Stored,
)
    requires
        recorded(
            select.items,
            select.items.len() as int,
            measures,
            calls,
            whole_name(select.from),
            select.filter,
            select.group_by,
            w,
        ),
        measures.len() == 0 ==> answers(
            listed_counts(0),
            calls,
            Seq::empty(),
            ProjView::Count,
            whole_name(select.from),
            select.filter,
            None,
            select.group_by,
            w,
        ),
    ensures
        right_measures(
            measures,
            |of: Of| answer_shows(calls, Seq::empty(), w)(keys, of),
            |p: ProjView| group_comes(select, select.group_by, w)(keys, p),
        ),
        right_entries(
            select.items,
            select.items.len() as int,
            measures,
            |of: Of| answer_shows(calls, Seq::empty(), w)(keys, of),
            |k: int| group_entry(select, select.group_by, w)(keys, k),
        ),
{
    lemma_recorded_shows(select, measures, calls, select.group_by, keys, w);
    if measures.len() == 0 {
        assert(figure(listed_counts(0), calls, Seq::empty(), keys, w) == comes_to(
            ProjView::Count,
            whole_name(select.from),
            asked_of(
                w,
                whole_name(select.from),
                select.filter,
                None,
                axes_by(select.group_by),
                keys,
            ),
            w,
        ));
    }
}

/// A grouping by several columns answers with the combinations of their keys that the records its
/// `WHERE` is true of have, in the order that was written, of those its `HAVING` is true of, cut as
/// its `LIMIT` and its `OFFSET` say. In each row a grouped column shows its own key, and a number
/// what its entry comes to over the records of the combination.
pub proof fn a_grouping_by_several_shows_its_combinations(select: SelectView, w: Stored)
    requires
        select.joins.len() == 0,
        select.grouping_sets is None,
        1 < select.group_by.len() <= 255,
        limits_fit(select),
    ensures
        lowered_one(select) matches Ok(s) ==> {
            let home = |n: NameView| whole_name(select.from);
            &&& s.answer.format == select.format
            &&& s.answer.shape matches ShapeView::Tuples { axes, keys, cells, having, order, cut }
                && {
                &&& axes == select.group_by.len()
                &&& arranged(
                    listed_rows(s.calls, keys, w),
                    order,
                    having,
                    cut,
                    answer_shows(s.calls, Seq::empty(), w),
                    w,
                ) == written_rows(
                    combination_groups(select, select.group_by, w),
                    select,
                    group_comes(select, select.group_by, w),
                    group_entry(select, select.group_by, w),
                    home,
                    w,
                )
                &&& forall|row: Seq<int>|
                    #[trigger] right_set_cells(
                        select,
                        upto(select.group_by.len()),
                        cells,
                        select.group_by,
                        s.calls,
                        row,
                        home,
                        w,
                    )
            }
        },
{
    let table = whole_name(select.from);
    lemma_whole(select.from);
    match lowered_one(select) {
        Err(_) => {},
        Ok(s) => {
            lemma_tuple_calls(select, w);
            let home = |n: NameView| whole_name(select.from);
            let (calls, measures) = tuple_calls(select, table, select.rows())->Ok_0;
            let frame = FrameView::One(table);
            let having = having_resolved(select.having, frame, measures)->Ok_0;
            let order = tuple_order(select, measures)->Ok_0;
            let comes = group_comes(select, select.group_by, w);
            let entry = group_entry(select, select.group_by, w);
            let shows = answer_shows(calls, Seq::empty(), w);
            assert(right_having(select, having, shows, comes, home, w)) by {
                assert forall|keys: Seq<int>| #[trigger] having_keeps(having, keys, shows, w) == (
                match select.having {
                    Some(h) => wanted_group(h, |p: ProjView| comes(keys, p), home, w),
                    None => true,
                }) by {
                    lemma_tuple_measures(select, calls, measures, keys, w);
                    lemma_having(
                        select.having,
                        frame,
                        measures,
                        |of: Of| shows(keys, of),
                        |p: ProjView| comes(keys, p),
                        home,
                        w,
                    );
                }
                lemma_tuple_measures(select, calls, measures, Seq::empty(), w);
                lemma_having(
                    select.having,
                    frame,
                    measures,
                    |of: Of| shows(Seq::empty(), of),
                    |p: ProjView| comes(Seq::empty(), p),
                    home,
                    w,
                );
            }
            assert(right_order(select, order, shows, comes, entry)) by {
                if let Some(o) = select.order_by {
                    assert forall|keys: Seq<int>| order is Some implies #[trigger] ranks(
                        order,
                        keys,
                        shows,
                    ) == order_figure(
                        o.key,
                        select.items,
                        keys,
                        |p: ProjView| comes(keys, p),
                        |k: int| entry(keys, k),
                    ) by {
                        lemma_tuple_measures(select, calls, measures, keys, w);
                        lemma_order(
                            o.key,
                            select.items,
                            measures,
                            |of: Of| shows(keys, of),
                            |p: ProjView| comes(keys, p),
                            |k: int| entry(keys, k),
                            keys,
                        );
                    }
                    let none = Seq::<int>::empty();
                    lemma_tuple_measures(select, calls, measures, none, w);
                    lemma_order(
                        o.key,
                        select.items,
                        measures,
                        |of: Of| shows(none, of),
                        |p: ProjView| comes(none, p),
                        |k: int| entry(none, k),
                        none,
                    );
                }
            }
            lemma_arranged(
                combination_groups(select, select.group_by, w),
                select,
                order,
                having,
                cut_of(select),
                shows,
                comes,
                entry,
                home,
                w,
            );
            assert forall|row: Seq<int>|
                #[trigger] right_set_cells(
                    select,
                    upto(select.group_by.len()),
                    cells_for(
                        select.items,
                        table,
                        select.group_by,
                        upto(select.group_by.len()),
                        measures,
                    ),
                    select.group_by,
                    s.calls,
                    row,
                    home,
                    w,
                ) by {
                lemma_set_cells(
                    select,
                    upto(select.group_by.len()),
                    select.group_by,
                    measures,
                    calls,
                    row,
                    home,
                    w,
                );
            }
        },
    }
}

} // verus!
