//! Each grouping set of a statement shows its own groups.

use vstd::prelude::*;
use crate::ast::{GroupingView, NameView, ProjView, SelectView};
use crate::lower::answers::{answers, lemma_grouping_call, lemma_rows};
use crate::lower::calls::{asking, frugal, AskView};
use crate::lower::groups::{lemma_asking, lemma_recorded, lemma_recorded_shows, lemma_still_recorded, recorded};
use crate::lower::keeping::{lemma_having, right_measures};
use crate::lower::keyed::{cells_for, column_fault, numbers_by};
use crate::lower::measure::{asks_nothing, having_resolved, listed_counts, start_of, FrameView, Measures};
use crate::lower::model::{answer_shows, asked_of, axes_by, comes_to, figure, group_comes, is_number, number_at, over_records, whole_name, wanted_group, Stored};
use crate::lower::query::lowered_one;
use crate::lower::ranking::{having_keeps, lemma_counting_call, lemma_nothing_recorded, lemma_set_cells, right_having, right_set_cells};
use crate::lower::selecting::lemma_whole;
use crate::lower::sets::{held, listing, named_in_set, set_branch, set_branches};
use crate::shape::{no_cut, CellView, HavingView, Of, ShapeView};

verus! {

/// Whether a select list has a number.
pub open spec fn has_number(select: SelectView) -> bool {
    exists|k: int| 0 <= k < select.items.len() && is_number(#[trigger] select.items[k])
}

/// The cells and the condition of one grouping set, where its shape is the one that a set of so
/// many columns has: one row, a row for each key, or a row for each combination of keys.
pub open spec fn set_parts(set: Seq<usize>, shape: ShapeView) -> Option<
    (Seq<CellView>, Option<HavingView>),
> {
    match shape {
        ShapeView::Row { cells, having } => if set.len() == 0 {
            Some((cells, having))
        } else {
            None
        },
        ShapeView::Groups { cells, having, order, cut, .. } => if set.len() == 1 && order is None
            && cut == no_cut() {
            Some((cells, having))
        } else {
            None
        },
        ShapeView::Tuples { axes, cells, having, order, cut, .. } => if set.len() > 1 && axes
            == set.len() && order is None && cut == no_cut() {
            Some((cells, having))
        } else {
            None
        },
        _ => None,
    }
}

/// Whether the shape of a grouping set shows the keys of the columns in it, nothing for the
/// others, every number over its own groups, and keeps the rows the `HAVING` is true of.
pub open spec fn branch_right(
    select: SelectView,
    set: Seq<usize>,
    shape: ShapeView,
    calls: Seq<AskView>,
    w: Stored,
) -> bool {
    let by = held(select.group_by, set);
    let home = |n: NameView| whole_name(select.from);
    set_parts(set, shape) matches Some((cells, having)) && {
        &&& forall|row: Seq<int>|
            #[trigger] right_set_cells(select, set, cells, by, calls, row, home, w)
        &&& set.len() > 0 || has_number(select) ==> right_having(
            select,
            having,
            answer_shows(calls, Seq::empty(), w),
            group_comes(select, by, w),
            home,
            w,
        )
    }
}

/// The call that lists the groups of a set counts them.
proof fn lemma_listing_counts(
    select: SelectView,
    set: Seq<usize>,
    calls: Seq<AskView>,
    measures: Measures,
    plan: usize,
    w: Stored,
)
    requires
        plan < calls.len(),
        listing(select, select.rows(), held(select.group_by, set), measures) == Some(
            calls[plan as int].call,
        ),
        calls[plan as int].table == whole_name(select.from),
    ensures
        answers(
            listed_counts(plan),
            calls,
            Seq::empty(),
            ProjView::Count,
            whole_name(select.from),
            select.filter,
            None,
            held(select.group_by, set),
            w,
        ),
{
    let table = whole_name(select.from);
    let by = held(select.group_by, set);
    let ask = calls[plan as int];
    let rows = select.rows();
    lemma_rows(select, table, w);
    assert(ask.call.args[0] == rows);
    assert forall|keys: Seq<int>| #[trigger] figure(
        listed_counts(plan),
        calls,
        Seq::empty(),
        keys,
        w,
    ) == comes_to(
        ProjView::Count,
        table,
        asked_of(w, table, select.filter, None, axes_by(by), keys),
        w,
    ) by {
        if by.len() == 1 {
            let g = by[0];
            assert(by =~= seq![g]);
            lemma_counting_call(ask, select.filter, g, w);
            assert(number_at(ask, keys, w) == Some(
                asked_of(w, table, select.filter, None, axes_by(seq![g]), keys).len() as int,
            ));
            assert(over_records(ask, keys, w) == asked_of(
                w,
                table,
                select.filter,
                None,
                axes_by(seq![g]),
                keys,
            ));
        } else {
            lemma_grouping_call(ask, select.filter, None, by, keys, None, w);
        }
    }
}

/// The `HAVING` of a set is the one that was written.
proof fn lemma_set_having(
    select: SelectView,
    set: Seq<usize>,
    listed: Seq<usize>,
    measures: Measures,
    calls: Seq<AskView>,
    having: Option<HavingView>,
    home: spec_fn(NameView) -> Seq<char>,
    w: Stored,
)
    requires
        forall|n: NameView| #[trigger] home(n) == whole_name(select.from),
        recorded(
            select.items,
            select.items.len() as int,
            measures,
            calls,
            whole_name(select.from),
            select.filter,
            held(select.group_by, set),
            w,
        ),
        listed.len() <= 1,
        listed.len() == 1 ==> answers(
            listed_counts(listed[0]),
            calls,
            Seq::empty(),
            ProjView::Count,
            whole_name(select.from),
            select.filter,
            None,
            held(select.group_by, set),
            w,
        ),
        measures.len() == 0 ==> listed.len() == 1,
        having_resolved(
            select.having,
            FrameView::One(whole_name(select.from)),
            named_in_set(listed, measures),
        ) == Ok::<Option<HavingView>, crate::error::SqlErrorView>(having),
    ensures
        right_having(
            select,
            having,
            answer_shows(calls, Seq::empty(), w),
            group_comes(select, held(select.group_by, set), w),
            home,
            w,
        ),
{
    let by = held(select.group_by, set);
    let named = named_in_set(listed, measures);
    let shows = answer_shows(calls, Seq::empty(), w);
    let comes = group_comes(select, by, w);
    let frame = FrameView::One(whole_name(select.from));
    assert forall|keys: Seq<int>| #[trigger] having_keeps(having, keys, shows, w) == (
    match select.having {
        Some(h) => wanted_group(h, |p: ProjView| comes(keys, p), home, w),
        None => true,
    }) by {
        lemma_named_right(select, by, listed, measures, calls, keys, w);
        lemma_having(
            select.having,
            frame,
            named,
            |of: Of| shows(keys, of),
            |p: ProjView| comes(keys, p),
            home,
            w,
        );
    }
    let none = Seq::<int>::empty();
    lemma_named_right(select, by, listed, measures, calls, none, w);
    lemma_having(
        select.having,
        frame,
        named,
        |of: Of| shows(none, of),
        |p: ProjView| comes(none, p),
        home,
        w,
    );
}

proof fn lemma_named_right(
    select: SelectView,
    by: Seq<GroupingView>,
    listed: Seq<usize>,
    measures: Measures,
    calls: Seq<AskView>,
    keys: Seq<int>,
    w: Stored,
)
    requires
        recorded(
            select.items,
            select.items.len() as int,
            measures,
            calls,
            whole_name(select.from),
            select.filter,
            by,
            w,
        ),
        listed.len() == 1 ==> answers(
            listed_counts(listed[0]),
            calls,
            Seq::empty(),
            ProjView::Count,
            whole_name(select.from),
            select.filter,
            None,
            by,
            w,
        ),
        measures.len() == 0 ==> listed.len() == 1,
    ensures
        right_measures(
            named_in_set(listed, measures),
            |of: Of| answer_shows(calls, Seq::empty(), w)(keys, of),
            |p: ProjView| group_comes(select, by, w)(keys, p),
        ),
{
    lemma_recorded_shows(select, measures, calls, by, keys, w);
    if listed.len() == 1 && asks_nothing(measures) {
        assert(figure(listed_counts(listed[0]), calls, Seq::empty(), keys, w) == comes_to(
            ProjView::Count,
            whole_name(select.from),
            asked_of(w, whole_name(select.from), select.filter, None, axes_by(by), keys),
            w,
        ));
    }
}

/// A set shows its groups, also when more is asked after it.
proof fn lemma_branch(
    select: SelectView,
    set: Seq<usize>,
    out: Seq<AskView>,
    calls: Seq<AskView>,
    w: Stored,
)
    requires
        frugal(out),
        select.group_by.len() <= usize::MAX,
        set.len() <= 255,
        column_fault(select.items, select.group_by, 0) is None,
        set_branch(select, whole_name(select.from), select.rows(), set, out) matches Ok((now, _))
            ==> now.is_prefix_of(calls),
    ensures
        set_branch(select, whole_name(select.from), select.rows(), set, out) matches Ok((now, shape))
            ==> {
            &&& frugal(now)
            &&& out.is_prefix_of(now)
            &&& branch_right(select, set, shape, calls, w)
        },
{
    let table = whole_name(select.from);
    let by = held(select.group_by, set);
    let items = select.items;
    let n = items.len() as int;
    let at = start_of(items);
    let rows = select.rows();
    let home = |n: NameView| whole_name(select.from);
    lemma_rows(select, table, w);
    lemma_nothing_recorded(items, out, out.len() as int, table, select.filter, by, w);
    lemma_recorded(items, 0, out, Seq::empty(), at, table, rows, select.filter, by, w);
    match set_branch(select, table, rows, set, out) {
        Err(_) => {},
        Ok((now, shape)) => {
            let (mid, measures) = numbers_by(
                items,
                0,
                out,
                Seq::empty(),
                at,
                table,
                rows,
                by,
            )->Ok_0;
            let call = listing(select, rows, by, measures);
            if let Some(c) = call {
                lemma_asking(mid, at, table, c);
                assert(mid =~= now.subrange(0, mid.len() as int));
            }
            assert(mid.is_prefix_of(now));
            assert(out.is_prefix_of(now)) by {
                assert(out =~= now.subrange(0, out.len() as int)) by {
                    assert forall|k: int| 0 <= k < out.len() implies out[k] == now[k] by {
                        assert(mid.subrange(0, out.len() as int)[k] == mid[k]);
                        assert(now.subrange(0, mid.len() as int)[k] == now[k]);
                    }
                }
            }
            assert(mid.is_prefix_of(calls)) by {
                assert(mid =~= calls.subrange(0, mid.len() as int)) by {
                    assert forall|k: int| 0 <= k < mid.len() implies mid[k] == calls[k] by {
                        assert(now.subrange(0, mid.len() as int)[k] == now[k]);
                        assert(calls.subrange(0, now.len() as int)[k] == calls[k]);
                    }
                }
            }
            lemma_still_recorded(
                items,
                n,
                measures,
                mid,
                calls,
                table,
                select.filter,
                by,
                w,
            );
            let listed = match call {
                Some(c) => seq![asking(mid, at, table, c)->Ok_0.1],
                None => Seq::empty(),
            };
            if let Some(c) = call {
                let plan = listed[0];
                assert(now[plan as int] == (AskView { table, call: c }));
                assert(calls[plan as int] == now[plan as int]) by {
                    assert(calls.subrange(0, now.len() as int)[plan as int]
                        == calls[plan as int]);
                }
                lemma_listing_counts(select, set, calls, measures, plan, w);
            }
            let (cells, having) = set_parts(set, shape)->0;
            assert(cells == cells_for(items, table, select.group_by, set, measures));
            assert forall|row: Seq<int>|
                #[trigger] right_set_cells(select, set, cells, by, calls, row, home, w) by {
                lemma_set_cells(select, set, by, measures, calls, row, home, w);
            }
            if set.len() > 0 || has_number(select) {
                if measures.len() == 0 {
                    if has_number(select) {
                        let k = choose|k: int|
                            0 <= k < items.len() && is_number(#[trigger] items[k]);
                        crate::lower::keeping::lemma_numbers_rise(items, k, n);
                    }
                    assert(asks_nothing(measures));
                    assert(by.len() > 0);
                }
                lemma_set_having(select, set, listed, measures, calls, having, home, w);
            }
        },
    }
}

/// Sets keep the calls before them, and each shows its groups over all the calls.
proof fn lemma_branches(
    select: SelectView,
    of: Seq<Seq<usize>>,
    k: int,
    out: Seq<AskView>,
    before: Seq<ShapeView>,
    w: Stored,
)
    requires
        frugal(out),
        0 <= k <= of.len(),
        before.len() == k,
        select.group_by.len() <= usize::MAX,
        forall|j: int| 0 <= j < of.len() ==> (#[trigger] of[j]).len() <= 255,
        column_fault(select.items, select.group_by, 0) is None,
    ensures
        set_branches(
            select,
            whole_name(select.from),
            select.rows(),
            of,
            k,
            out,
            before,
        ) matches Ok((calls, shapes)) ==> {
            &&& out.is_prefix_of(calls)
            &&& shapes.len() == of.len()
            &&& forall|j: int| 0 <= j < k ==> #[trigger] shapes[j] == before[j]
            &&& forall|j: int|
                k <= j < of.len() ==> branch_right(select, of[j], #[trigger] shapes[j], calls, w)
        },
    decreases of.len() - k,
{
    let table = whole_name(select.from);
    if k < of.len() {
        match set_branch(select, table, select.rows(), of[k], out) {
            Err(_) => {},
            Ok((now, shape)) => {
                lemma_branch(select, of[k], out, now, w);
                let more = before.push(shape);
                lemma_branches(select, of, k + 1, now, more, w);
                match set_branches(select, table, select.rows(), of, k + 1, now, more) {
                    Err(_) => {},
                    Ok((calls, shapes)) => {
                        lemma_branch(select, of[k], out, calls, w);
                        assert(shapes[k] == more[k]);
                        assert(out =~= calls.subrange(0, out.len() as int)) by {
                            assert forall|j: int| 0 <= j < out.len() implies out[j] == calls[j] by {
                                assert(now.subrange(0, out.len() as int)[j] == now[j]);
                                assert(calls.subrange(0, now.len() as int)[j] == calls[j]);
                            }
                        }
                        assert forall|j: int| 0 <= j < k implies #[trigger] shapes[j] == before[j] by {
                            assert(shapes[j] == more[j]);
                        }
                        assert forall|j: int| k <= j < of.len() implies branch_right(
                            select,
                            of[j],
                            #[trigger] shapes[j],
                            calls,
                            w,
                        ) by {}
                    },
                }
            },
        }
    }
}

/// A statement with grouping sets answers with one part for each set, in the order of the sets. In
/// a part the columns of its set show their keys, the other grouped columns show nothing, and a
/// number is what its entry comes to over the records of the group by the columns of that set
/// alone; the `HAVING` is held against those same numbers.
pub proof fn a_grouping_set_shows_its_own_groups(select: SelectView, w: Stored)
    requires
        select.joins.len() == 0,
        select.grouping_sets is Some,
        select.wf(),
    ensures
        lowered_one(select) matches Ok(s) ==> {
            let of = select.grouping_sets->0.of;
            &&& s.answer.format == select.format
            &&& s.answer.shape matches ShapeView::Union { branches } && {
                &&& branches.len() == of.len()
                &&& forall|k: int|
                    0 <= k < of.len() ==> branch_right(
                        select,
                        of[k],
                        #[trigger] branches[k],
                        s.calls,
                        w,
                    )
            }
        },
{
    lemma_whole(select.from);
    match lowered_one(select) {
        Err(_) => {},
        Ok(s) => {
            lemma_branches(
                select,
                select.grouping_sets->0.of,
                0,
                Seq::empty(),
                Seq::empty(),
                w,
            );
        },
    }
}

} // verus!
