//! What a join answers is what was asked of the combinations of its records.

use vstd::prelude::*;
use crate::ast::{JoinKind, JoinView, NameView, OrderKeyView, ProjView, SelectView};
use crate::error::SqlErrorView;
use crate::lower::calls::{asking, asking_is_frugal, frugal, AskView};
use crate::lower::join::{all_full, conds_of, first_full, full_fault, pair_counts, required_upto, sides_of, star, StarView};
use crate::lower::keeping::{lemma_having, lemma_numbers_rise, lemma_order, measures_what, right_entries, right_home, right_measures};
use crate::lower::keyed::numbers_upto;
use crate::lower::laws::measures_fit;
use crate::lower::measure::{asks_nothing, kind_of, measure, measured_field, nameable, side_of, start_of, FrameView, Kind, Measures};
use crate::lower::model::{by_key, entry_units, is_number, keeps, order_figure, rank_of, wanted_group, Figure, Stored};
use crate::lower::pairs::{all_held, all_hold, join_comes, join_figure, lemma_counts_pair_up, lemma_number_pairs_up, lemma_side, lemma_sides, pairs_up, per_key_numbers, plan_of, products, side_groups, side_named, table_at, undated_where, width, Known};
use crate::lower::query::lowered_one;
use crate::lower::ranking::{limits_fit, right_cut};
use crate::lower::shown::shows_entry;
use crate::shape::{CellView, GroupOrder, HavingView, JoinSide, Of, ShapeView};

verus! {

proof fn lemma_same_products(
    plan: int,
    side: int,
    sides: Seq<JoinSide>,
    calls: Seq<AskView>,
    more: Seq<AskView>,
    keys: Seq<int>,
    w: Stored,
)
    requires
        0 <= plan < calls.len(),
        forall|k: int| 0 <= k < sides.len() ==> 0 <= plan_of(#[trigger] sides[k]) < calls.len(),
        calls.len() <= more.len(),
        forall|k: int| 0 <= k < calls.len() ==> #[trigger] calls[k] == more[k],
    ensures
        products(plan, side, sides, calls, keys, w) == products(plan, side, sides, more, keys, w),
        per_key_numbers(plan, calls, keys, w) == per_key_numbers(plan, more, keys, w),
    decreases keys.len(),
{
    if keys.len() > 0 {
        lemma_same_products(plan, side, sides, calls, more, keys.drop_last(), w);
        assert(calls[plan] == more[plan]);
        lemma_same_groups(sides, calls, more, keys.last(), w);
    }
}

proof fn lemma_same_groups(
    sides: Seq<JoinSide>,
    calls: Seq<AskView>,
    more: Seq<AskView>,
    key: int,
    w: Stored,
)
    requires
        forall|k: int| 0 <= k < sides.len() ==> 0 <= plan_of(#[trigger] sides[k]) < calls.len(),
        calls.len() <= more.len(),
        forall|k: int| 0 <= k < calls.len() ==> #[trigger] calls[k] == more[k],
    ensures
        side_groups(sides, calls, key, w) == side_groups(sides, more, key, w),
        all_hold(sides, calls, key, w) == all_hold(sides, more, key, w),
{
    assert forall|k: int| 0 <= k < sides.len() implies calls[plan_of(#[trigger] sides[k])]
        == more[plan_of(sides[k])] by {}
    assert(side_groups(sides, calls, key, w) =~= side_groups(sides, more, key, w));
}

/// A number of a join stays what it is when more is asked.
proof fn lemma_still_pairs_up(
    of: Of,
    known: Known,
    sides: Seq<JoinSide>,
    calls: Seq<AskView>,
    more: Seq<AskView>,
    p: ProjView,
    w: Stored,
)
    requires
        pairs_up(of, known, sides, calls, p, w),
        of.fits(calls.len() as int, 0),
        calls.is_prefix_of(more),
        known.counted(calls),
        known.keys_by(sides),
    ensures
        pairs_up(of, known, sides, more, p, w),
{
    assert forall|k: int| 0 <= k < calls.len() implies #[trigger] calls[k] == more[k] by {
        assert(more.subrange(0, calls.len() as int)[k] == more[k]);
    }
    assert forall|k: int| 0 <= k < sides.len() implies 0 <= plan_of(#[trigger] sides[k])
        < calls.len() by {
        assert(plan_of(sides[k]) == known.plans[k]);
    }
    assert forall|keys: Seq<int>| all_held(sides, more, keys, w) implies #[trigger] join_figure(
        of,
        sides,
        more,
        keys,
        w,
    ) == join_comes(p, known.select, keys, w) by {
        assert(all_held(sides, calls, keys, w)) by {
            assert forall|i: int| 0 <= i < keys.len() implies all_hold(
                sides,
                calls,
                #[trigger] keys[i],
                w,
            ) by {
                assert(all_hold(sides, more, keys[i], w));
                lemma_same_groups(sides, calls, more, keys[i], w);
            }
        }
        assert(join_figure(of, sides, calls, keys, w) == join_comes(p, known.select, keys, w));
        match of {
            Of::Paired { plan, side, how } => {
                assert(of.read_from()[0] == plan);
                lemma_same_products(plan as int, side as int, sides, calls, more, keys, w);
            },
            Of::PairedRatio { top, bottom, side } => {
                assert(of.read_from()[0] == top);
                assert(of.read_from()[1] == bottom);
                lemma_same_products(top as int, side as int, sides, calls, more, keys, w);
                lemma_same_products(bottom as int, side as int, sides, calls, more, keys, w);
            },
            _ => {},
        }
    }
}

/// Whether the numbers of the entries before a position are what was asked of the combinations.
pub open spec fn paired(
    known: Known,
    n: int,
    measures: Measures,
    sides: Seq<JoinSide>,
    calls: Seq<AskView>,
    w: Stored,
) -> bool {
    let items = known.select.items;
    &&& known.counted(calls)
    &&& measures.len() == numbers_upto(items, n)
    &&& measures_fit(measures, calls.len() as int, 0)
    &&& forall|k: int|
        0 <= k < n && kind_of(#[trigger] items[k]) == Kind::Number ==> {
            let m = measures[numbers_upto(items, k) as int];
            &&& items[k].filter is None
            &&& !(items[k].leaf() is Scalar)
            &&& pairs_up(m.1, known, sides, calls, items[k].leaf(), w)
        }
    &&& forall|k: int|
        0 <= k < measures.len() && !((#[trigger] measures[k]).0 is Other) ==> pairs_up(
            measures[k].1,
            known,
            sides,
            calls,
            measures_what(measures[k].0),
            w,
        )
}

proof fn lemma_paired_one(
    known: Known,
    k: int,
    per_key: bool,
    out: Seq<AskView>,
    measures: Measures,
    sides: Seq<JoinSide>,
    at: usize,
    w: Stored,
)
    requires
        known.wf(),
        known.keys_by(sides),
        frugal(out),
        0 <= k < known.select.items.len(),
        kind_of(known.select.items[k]) == Kind::Number,
        paired(known, k, measures, sides, out, w),
    ensures
        known.star().number(known.select.items[k], per_key, known.plans, out, at) matches Ok(
            (now, of),
        ) ==> frugal(now) && paired(
            known,
            k + 1,
            measures.push((measure(known.select.items[k]), of)),
            sides,
            now,
            w,
        ),
{
    let items = known.select.items;
    let item = items[k];
    lemma_number_pairs_up(known, sides, item, per_key, out, at, w);
    match known.star().number(item, per_key, known.plans, out, at) {
        Err(_) => {},
        Ok((now, of)) => {
            let m2 = measures.push((measure(item), of));
            assert forall|j: int| 0 <= j < m2.len() implies (#[trigger] m2[j]).1.fits(
                now.len() as int,
                0,
            ) by {
                if j < measures.len() {
                    assert(m2[j] == measures[j]);
                    assert(measures[j].1.fits(out.len() as int, 0));
                }
            }
            assert forall|j: int|
                0 <= j < k + 1 && kind_of(#[trigger] items[j]) == Kind::Number implies {
                let m = m2[numbers_upto(items, j) as int];
                &&& items[j].filter is None
                &&& !(items[j].leaf() is Scalar)
                &&& pairs_up(m.1, known, sides, now, items[j].leaf(), w)
            } by {
                if j < k {
                    lemma_numbers_rise(items, j, k);
                    let i = numbers_upto(items, j) as int;
                    assert(m2[i] == measures[i]);
                    assert(measures[i].1.fits(out.len() as int, 0));
                    lemma_still_pairs_up(
                        measures[i].1,
                        known,
                        sides,
                        out,
                        now,
                        items[j].leaf(),
                        w,
                    );
                } else {
                    assert(m2[numbers_upto(items, j) as int] == (measure(item), of));
                }
            }
            assert forall|j: int|
                0 <= j < m2.len() && !((#[trigger] m2[j]).0 is Other) implies pairs_up(
                m2[j].1,
                known,
                sides,
                now,
                measures_what(m2[j].0),
                w,
            ) by {
                if j < measures.len() {
                    assert(m2[j] == measures[j]);
                    assert(measures[j].1.fits(out.len() as int, 0));
                    lemma_still_pairs_up(
                        measures[j].1,
                        known,
                        sides,
                        out,
                        now,
                        measures_what(measures[j].0),
                        w,
                    );
                } else {
                    assert(measures_what(m2[j].0) == item.leaf());
                }
            }
            assert(numbers_upto(items, k + 1) == measures.len() + 1);
        },
    }
}

proof fn lemma_paired(
    known: Known,
    k: int,
    per_key: bool,
    out: Seq<AskView>,
    measures: Measures,
    sides: Seq<JoinSide>,
    at: usize,
    w: Stored,
)
    requires
        known.wf(),
        known.keys_by(sides),
        frugal(out),
        0 <= k <= known.select.items.len(),
        paired(known, k, measures, sides, out, w),
    ensures
        known.star().numbers(
            known.select.items,
            k,
            per_key,
            known.plans,
            out,
            measures,
            at,
        ) matches Ok((now, m)) ==> paired(
            known,
            known.select.items.len() as int,
            m,
            sides,
            now,
            w,
        ),
    decreases known.select.items.len() - k,
{
    let items = known.select.items;
    if k < items.len() {
        if kind_of(items[k]) != Kind::Number {
            assert(paired(known, k + 1, measures, sides, out, w));
            lemma_paired(known, k + 1, per_key, out, measures, sides, at, w);
        } else {
            lemma_paired_one(known, k, per_key, out, measures, sides, at, w);
            match known.star().number(items[k], per_key, known.plans, out, at) {
                Ok((now, of)) => lemma_paired(
                    known,
                    k + 1,
                    per_key,
                    now,
                    measures.push((measure(items[k]), of)),
                    sides,
                    at,
                    w,
                ),
                Err(_) => {},
            }
        }
    }
}

/// Each table is counted.
proof fn lemma_counted_from(
    select: SelectView,
    st: StarView,
    k: int,
    out: Seq<AskView>,
    plans: Seq<usize>,
    at: usize,
)
    requires
        st.sides == sides_of(select),
        0 <= k <= width(select),
        plans.len() == k,
        frugal(out),
        forall|j: int|
            0 <= j < k ==> (#[trigger] plans[j]) < out.len() && out[plans[j] as int] == (AskView {
                table: table_at(select, j),
                call: st.counts(j),
            }),
    ensures
        st.counted_from(k, out, plans, at) matches Ok((now, all)) ==> {
            &&& frugal(now)
            &&& all.len() == width(select)
            &&& forall|j: int|
                0 <= j < width(select) ==> (#[trigger] all[j]) < now.len() && now[all[j] as int]
                    == (AskView { table: table_at(select, j), call: st.counts(j) })
        },
    decreases width(select) - k,
{
    lemma_sides(select);
    if k < width(select) {
        assert(st.sides[k].table == table_at(select, k));
        asking_is_frugal(out, at, st.sides[k].table, st.counts(k));
        match asking(out, at, st.sides[k].table, st.counts(k)) {
            Err(_) => {},
            Ok((now, plan)) => {
                let all = plans.push(plan);
                assert forall|j: int| 0 <= j < k + 1 implies (#[trigger] all[j]) < now.len()
                    && now[all[j] as int] == (AskView {
                    table: table_at(select, j),
                    call: st.counts(j),
                }) by {
                    if j < k {
                        assert(all[j] == plans[j]);
                        let p = plans[j] as int;
                        assert(now.subrange(0, out.len() as int)[p] == now[p]);
                    }
                }
                lemma_counted_from(select, st, k + 1, now, all, at);
            },
        }
    }
}

/// The table of each column.
pub open spec fn home_of(select: SelectView) -> spec_fn(NameView) -> Seq<char> {
    |n: NameView| table_at(select, side_named(select, n))
}

/// The cells of a join show its numbers and its key.
proof fn lemma_join_cells(
    select: SelectView,
    st: StarView,
    k: int,
    measures: Measures,
    before: Seq<CellView>,
)
    requires
        st.sides == sides_of(select),
        width(select) <= usize::MAX,
        0 <= k <= select.items.len(),
        before.len() == k,
        measures.len() == numbers_upto(select.items, select.items.len() as int),
        forall|j: int|
            0 <= j < select.items.len() && is_number(#[trigger] select.items[j]) ==> !(
            select.items[j].leaf() is Scalar),
        forall|j: int|
            0 <= j < k ==> cell_right(select, #[trigger] before[j], j, measures),
    ensures
        st.cells(
            select.items,
            k,
            numbers_upto(select.items, k) as int,
            measures,
            before,
        ) matches Ok(cells) ==> cells.len() == select.items.len() && forall|j: int|
            0 <= j < cells.len() ==> cell_right(select, #[trigger] cells[j], j, measures),
    decreases select.items.len() - k,
{
    let items = select.items;
    if k < items.len() {
        match st.units(items[k]) {
            Err(_) => {},
            Ok(units) => {
                let number = kind_of(items[k]) == Kind::Number;
                let n = numbers_upto(items, k) as int;
                let cell = CellView {
                    column: items[k].column(),
                    of: if !number || n < 0 || n >= measures.len() {
                        Of::Key
                    } else {
                        measures[n].1
                    },
                    units,
                    apply: items[k].apply(),
                };
                lemma_numbers_rise(items, k, items.len() as int);
                assert(is_number(items[k]) == number);
                if number {
                    reveal_with_fuel(measured_field, 3);
                    match measured_field(items[k].proj) {
                        Some(field) => {
                            lemma_side(select, field, items[k].at);
                            lemma_sides(select);
                            let s = side_of(st.sides, field, items[k].at)->Ok_0 as int;
                            assert(st.sides[s].table == table_at(select, s));
                        },
                        None => {},
                    }
                }
                assert(cell_right(select, cell, k, measures));
                let now = before.push(cell);
                assert forall|j: int| 0 <= j < k + 1 implies cell_right(
                    select,
                    #[trigger] now[j],
                    j,
                    measures,
                ) by {
                    if j < k {
                        assert(now[j] == before[j]);
                    }
                }
                assert(numbers_upto(items, k + 1) == if number {
                    n + 1
                } else {
                    n
                });
                lemma_join_cells(select, st, k + 1, measures, now);
            },
        }
    }
}

/// Whether a cell is of the number of an entry, or the key, in its units.
spec fn cell_right(select: SelectView, cell: CellView, k: int, measures: Measures) -> bool {
    let item = select.items[k];
    &&& cell.column == item.column()
    &&& cell.apply == item.apply()
    &&& is_number(item) ==> cell.of == measures[numbers_upto(select.items, k) as int].1
        && cell.units == entry_units(item.leaf(), home_of(select))
    &&& !is_number(item) ==> cell.of == Of::Key
}

// Which keys are in a join.

/// Whether a row of keys is in the first `n` joins of a statement, given which tables hold the
/// key: an inner join needs both sides, an outer one the side it keeps, a full one either.
pub open spec fn in_join(joins: Seq<JoinView>, n: int, has: spec_fn(int) -> bool) -> bool
    decreases n,
{
    if n <= 0 {
        has(0)
    } else {
        match joins[n - 1].kind {
            JoinKind::Inner => in_join(joins, n - 1, has) && has(n),
            JoinKind::Left => in_join(joins, n - 1, has),
            JoinKind::Right => has(n),
            JoinKind::Full => in_join(joins, n - 1, has) || has(n),
        }
    }
}

/// Whether a row of keys is in an answer, given which sides hold the key: those that are required
/// do, and some side does.
pub open spec fn kept_key(sides: Seq<JoinSide>, has: spec_fn(int) -> bool) -> bool {
    &&& forall|k: int| 0 <= k < sides.len() && (#[trigger] sides[k]).required ==> has(k)
    &&& exists|k: int| 0 <= k < sides.len() && #[trigger] has(k)
}

proof fn lemma_required_len(joins: Seq<JoinView>, n: int)
    requires
        0 <= n <= joins.len(),
    ensures
        required_upto(joins, n).len() == n + 1,
    decreases n,
{
    if n > 0 {
        lemma_required_len(joins, n - 1);
    }
}

/// Without full joins, some side is required, and a key is in the join where every required side
/// holds it.
proof fn lemma_required(joins: Seq<JoinView>, n: int, has: spec_fn(int) -> bool)
    requires
        0 <= n <= joins.len(),
        forall|k: int| 0 <= k < n ==> !((#[trigger] joins[k]).kind is Full),
    ensures
        in_join(joins, n, has) == (forall|k: int|
            0 <= k <= n && #[trigger] required_upto(joins, n)[k] ==> has(k)),
        exists|k: int| 0 <= k <= n && #[trigger] required_upto(joins, n)[k],
    decreases n,
{
    lemma_required_len(joins, n);
    let now = required_upto(joins, n);
    if n == 0 {
        assert(now[0]);
        if in_join(joins, 0, has) {
            assert forall|k: int| 0 <= k <= n && #[trigger] now[k] implies has(k) by {
                assert(k == 0);
            }
        }
    } else {
        lemma_required_len(joins, n - 1);
        lemma_required(joins, n - 1, has);
        let before = required_upto(joins, n - 1);
        let some = choose|k: int| 0 <= k <= n - 1 && #[trigger] before[k];
        match joins[n - 1].kind {
            JoinKind::Inner => {
                assert(now[n]);
                assert(now[some] == before[some]);
                if in_join(joins, n, has) {
                    assert forall|k: int| 0 <= k <= n && #[trigger] now[k] implies has(k) by {
                        if k < n {
                            assert(before[k]);
                        }
                    }
                }
                if forall|k: int| 0 <= k <= n && #[trigger] now[k] ==> has(k) {
                    assert forall|k: int| 0 <= k <= n - 1 && #[trigger] before[k] implies has(k) by {
                        assert(now[k]);
                    }
                }
            },
            JoinKind::Left => {
                assert(now[some] == before[some]);
                if in_join(joins, n, has) {
                    assert forall|k: int| 0 <= k <= n && #[trigger] now[k] implies has(k) by {
                        assert(k < n);
                        assert(before[k]);
                    }
                }
                if forall|k: int| 0 <= k <= n && #[trigger] now[k] ==> has(k) {
                    assert forall|k: int| 0 <= k <= n - 1 && #[trigger] before[k] implies has(k) by {
                        assert(now[k]);
                    }
                }
            },
            JoinKind::Right => {
                assert(now[n]);
                if in_join(joins, n, has) {
                    assert forall|k: int| 0 <= k <= n && #[trigger] now[k] implies has(k) by {
                        assert(k == n);
                    }
                }
            },
            JoinKind::Full => {
                assert(joins[n - 1].kind is Full);
            },
        }
    }
}

/// Where every join is full, no side is required, and a key is in the join where some side holds
/// it.
proof fn lemma_full(joins: Seq<JoinView>, n: int, has: spec_fn(int) -> bool)
    requires
        0 <= n <= joins.len(),
        forall|k: int| 0 <= k < n ==> (#[trigger] joins[k]).kind is Full,
    ensures
        in_join(joins, n, has) == (exists|k: int| 0 <= k <= n && #[trigger] has(k)),
        n > 0 ==> forall|k: int| 0 <= k <= n ==> !#[trigger] required_upto(joins, n)[k],
    decreases n,
{
    lemma_required_len(joins, n);
    if n > 0 {
        lemma_required_len(joins, n - 1);
        lemma_full(joins, n - 1, has);
        assert(joins[n - 1].kind is Full);
        if exists|k: int| 0 <= k <= n && #[trigger] has(k) {
            let k = choose|k: int| 0 <= k <= n && #[trigger] has(k);
            if k < n {
                assert(has(k));
            }
        }
    }
}

/// Where no join is full, none is.
proof fn lemma_no_full(joins: Seq<JoinView>, k: int, j: int)
    requires
        first_full(joins, k) is None,
        0 <= k <= j < joins.len(),
    ensures
        !(joins[j].kind is Full),
    decreases j - k,
{
    if k < j {
        lemma_no_full(joins, k + 1, j);
    }
}

/// A key is a row of a join where the joins that were written have it.
proof fn lemma_kept_keys(
    select: SelectView,
    sides: Seq<JoinSide>,
    has: spec_fn(int) -> bool,
)
    requires
        full_fault(select.joins) is None,
        select.joins.len() > 0,
        sides.len() == width(select),
        forall|k: int|
            0 <= k < sides.len() ==> (#[trigger] sides[k]).required == required_upto(
                select.joins,
                select.joins.len() as int,
            )[k],
    ensures
        kept_key(sides, has) == in_join(select.joins, select.joins.len() as int, has),
{
    let joins = select.joins;
    let n = joins.len() as int;
    let required = required_upto(joins, n);
    lemma_required_len(joins, n);
    if first_full(joins, 0) is None {
        assert forall|k: int| 0 <= k < n implies !((#[trigger] joins[k]).kind is Full) by {
            lemma_no_full(joins, 0, k);
        }
        lemma_required(joins, n, has);
        if in_join(joins, n, has) {
            let k = choose|k: int| 0 <= k <= n && #[trigger] required[k];
            assert(has(k));
            assert forall|k: int| 0 <= k < sides.len() && (#[trigger] sides[k]).required implies has(
                k,
            ) by {
                assert(required[k]);
            }
        }
        if kept_key(sides, has) {
            assert forall|k: int| 0 <= k <= n && #[trigger] required[k] implies has(k) by {
                assert(sides[k].required);
            }
        }
    } else {
        assert(all_full(joins));
        lemma_full(joins, n, has);
        assert forall|k: int| 0 <= k < sides.len() implies !(#[trigger] sides[k]).required by {
            assert(!required[k]);
        }
    }
}

/// A join answers for the keys that the joins as they were written have: an inner join those that
/// both sides hold, a left or a right one those of the side it keeps, a full one those of either.
/// Over keys that every table holds, each number is its aggregate over the combinations of one
/// record of each table that agree on the key, by every `ON`, and that the `WHERE` is true of, in
/// the units of its column; a count is of the combinations, a sum counts a record once for each of
/// them, and a least or a greatest is over what they hold. With a `GROUP BY` there is a row for
/// each key, kept where the `HAVING` is true of it, in the order of the number or the key that the
/// `ORDER BY` names and in its direction, and cut as the `LIMIT` and the `OFFSET` say.
pub proof fn a_join_answers_over_its_combinations(select: SelectView, w: Stored)
    requires
        select.joins.len() > 0,
        width(select) <= usize::MAX,
        undated_where(select),
        limits_fit(select),
    ensures
        lowered_one(select) matches Ok(s) ==> {
            let home = home_of(select);
            &&& s.answer.format == select.format
            &&& s.answer.shape matches ShapeView::Join {
                axes,
                sides,
                cells,
                per_key,
                having,
                order,
                cut,
            } && {
                &&& axes == 1
                &&& per_key == (select.group_by.len() > 0)
                &&& sides.len() == width(select)
                &&& cells.len() == select.items.len()
                &&& right_cut(select, cut)
                &&& forall|has: spec_fn(int) -> bool|
                    #[trigger] kept_key(sides, has) == in_join(
                        select.joins,
                        select.joins.len() as int,
                        has,
                    )
                &&& forall|k: int, keys: Seq<int>|
                    0 <= k < cells.len() && is_number(select.items[k]) && all_held(
                        sides,
                        s.calls,
                        keys,
                        w,
                    ) ==> shows_entry(
                        cells[k],
                        select.items[k],
                        #[trigger] join_figure(cells[k].of, sides, s.calls, keys, w),
                        join_comes(select.items[k].leaf(), select, keys, w),
                        home,
                    )
                &&& forall|k: int|
                    0 <= k < cells.len() && !is_number(select.items[k]) ==> (#[trigger] cells[k]).of
                        == Of::Key && cells[k].column == select.items[k].column() && cells[k].apply
                        == select.items[k].apply()
                &&& having is Some == select.having is Some
                &&& order is Some == (select.order_by matches Some(o) && !(by_key(
                    o.key,
                    select.items,
                ) && !o.desc))
                &&& order matches Some(o) ==> o.desc == select.order_by->0.desc
                &&& forall|key: int|
                    all_hold(sides, s.calls, key, w) ==> right_row(
                        select,
                        sides,
                        s.calls,
                        having,
                        order,
                        #[trigger] seq![key],
                        w,
                    )
            }
        },
{
    match lowered_one(select) {
        Err(_) => {},
        Ok(s) => {
            let at = start_of(select.items);
            let all = sides_of(select);
            let keys = star(select.joins, all)->Ok_0;
            let conds = conds_of(select, all)->Ok_0;
            let st = StarView { sides: all, keys, rows: crate::lower::join::rows_by_side(conds) };
            lemma_counted_from(select, st, 0, Seq::empty(), Seq::empty(), at);
            let (out, plans) = st.counted_from(0, Seq::empty(), Seq::empty(), at)->Ok_0;
            let known = Known { select, keys, conds, plans };
            assert(known.star() == st);
            assert(known.wf());
            assert(known.counted(out));
            let n = select.joins.len() as int;
            let required = required_upto(select.joins, n);
            lemma_required_len(select.joins, n);
            let sides = st.join_sides(plans, required);
            assert(known.keys_by(sides));
            let per_key = st.per_key(select, at)->Ok_0;
            assert(paired(known, 0, Seq::empty(), sides, out, w));
            lemma_paired(known, 0, per_key, out, Seq::empty(), sides, at, w);
            let (calls, measures) = st.numbers(
                select.items,
                0,
                per_key,
                plans,
                out,
                Seq::empty(),
                at,
            )->Ok_0;
            assert(s.calls == calls);
            let cells = st.cells(select.items, 0, 0, measures, Seq::empty())->Ok_0;
            assert forall|j: int|
                0 <= j < select.items.len() && is_number(#[trigger] select.items[j]) implies !(
            select.items[j].leaf() is Scalar) by {
                assert(kind_of(select.items[j]) == Kind::Number);
            }
            lemma_join_cells(select, st, 0, measures, Seq::empty());
            assert forall|k: int, keys: Seq<int>|
                0 <= k < cells.len() && is_number(select.items[k]) && all_held(
                    sides,
                    calls,
                    keys,
                    w,
                ) implies shows_entry(
                cells[k],
                select.items[k],
                #[trigger] join_figure(cells[k].of, sides, calls, keys, w),
                join_comes(select.items[k].leaf(), select, keys, w),
                home_of(select),
            ) by {
                assert(cell_right(select, cells[k], k, measures));
                assert(kind_of(select.items[k]) == Kind::Number);
            }
            assert forall|has: spec_fn(int) -> bool| #[trigger] kept_key(sides, has) == in_join(
                select.joins,
                n,
                has,
            ) by {
                lemma_kept_keys(select, sides, has);
            }
            lemma_join_rows(known, st, measures, sides, calls, per_key, w);
        },
    }
}

/// Whether a row of a join is kept and ranked as it was written.
pub open spec fn right_row(
    select: SelectView,
    sides: Seq<JoinSide>,
    calls: Seq<AskView>,
    having: Option<HavingView>,
    order: Option<GroupOrder>,
    keys: Seq<int>,
    w: Stored,
) -> bool {
    let shows = |of: Of| join_figure(of, sides, calls, keys, w);
    let comes = |p: ProjView| join_comes(p, select, keys, w);
    let entry = |k: int| join_comes(select.items[k].leaf(), select, keys, w);
    &&& (match having {
        Some(h) => keeps(h, shows, w),
        None => true,
    }) == (match select.having {
        Some(h) => wanted_group(h, comes, home_of(select), w),
        None => true,
    })
    &&& order is Some ==> rank_of(order, keys, shows) == order_figure(
        select.order_by->0.key,
        select.items,
        keys,
        comes,
        entry,
    )
}

/// The rows of a join are kept and ranked as they were written.
proof fn lemma_join_rows(
    known: Known,
    st: StarView,
    measures: Measures,
    sides: Seq<JoinSide>,
    calls: Seq<AskView>,
    per_key: bool,
    w: Stored,
)
    requires
        known.wf(),
        known.keys_by(sides),
        st == known.star(),
        paired(known, known.select.items.len() as int, measures, sides, calls, w),
    ensures
        ({
            let select = known.select;
            let named = nameable(measures, pair_counts(known.plans));
            st.having(select, named, per_key) matches Ok(having) ==> (st.order(
                select,
                measures,
                named,
                per_key,
            ) matches Ok(order) ==> {
                &&& having is Some == select.having is Some
                &&& order is Some == (select.order_by matches Some(o) && !(by_key(
                    o.key,
                    select.items,
                ) && !o.desc))
                &&& order matches Some(o) ==> o.desc == select.order_by->0.desc
                &&& forall|key: int|
                    all_hold(sides, calls, key, w) ==> right_row(
                        select,
                        sides,
                        calls,
                        having,
                        order,
                        #[trigger] seq![key],
                        w,
                    )
            })
        }),
{
    let select = known.select;
    let counts = pair_counts(known.plans);
    let named = nameable(measures, counts);
    let frame = FrameView::Many(sides_of(select));
    let home = home_of(select);
    lemma_counts_pair_up(known, sides, calls, w);
    assert(right_home(frame, home)) by {
        assert forall|n: NameView, at: usize|
            #[trigger] side_of(sides_of(select), n, at) matches Ok(k) ==> home(n) == sides_of(
                select,
            )[k as int].table by {
            lemma_side(select, n, at);
            lemma_sides(select);
        }
    }
    match (st.having(select, named, per_key), st.order(select, measures, named, per_key)) {
        (Ok(having), Ok(order)) => {
            assert forall|key: int| all_hold(sides, calls, key, w) implies right_row(
                select,
                sides,
                calls,
                having,
                order,
                #[trigger] seq![key],
                w,
            ) by {
                lemma_row_right(known, measures, sides, calls, having, order, per_key, key, w);
            }
            if let Some(o) = select.order_by {
                if let OrderKeyView::Name(n) = o.key {
                    let nothing = |of: Of| Figure::Blank;
                    let none = |k: int| Figure::Blank;
                    let never = |p: ProjView| Figure::Blank;
                    assert(right_entries(
                        select.items,
                        select.items.len() as int,
                        measures,
                        nothing,
                        none,
                    ));
                    lemma_order(o.key, select.items, measures, nothing, never, none, seq![0]);
                }
            }
            match select.having {
                Some(h) => {},
                None => {},
            }
        },
        _ => {},
    }
}

proof fn lemma_row_right(
    known: Known,
    measures: Measures,
    sides: Seq<JoinSide>,
    calls: Seq<AskView>,
    having: Option<HavingView>,
    order: Option<GroupOrder>,
    per_key: bool,
    key: int,
    w: Stored,
)
    requires
        known.wf(),
        known.keys_by(sides),
        paired(known, known.select.items.len() as int, measures, sides, calls, w),
        all_hold(sides, calls, key, w),
        known.star().having(
            known.select,
            nameable(measures, pair_counts(known.plans)),
            per_key,
        ) == Ok::<Option<HavingView>, SqlErrorView>(having),
        known.star().order(
            known.select,
            measures,
            nameable(measures, pair_counts(known.plans)),
            per_key,
        ) == Ok::<Option<GroupOrder>, SqlErrorView>(order),
        right_home(FrameView::Many(sides_of(known.select)), home_of(known.select)),
    ensures
        right_row(known.select, sides, calls, having, order, seq![key], w),
{
    let select = known.select;
    let items = select.items;
    let keys = seq![key];
    let counts = pair_counts(known.plans);
    let named = nameable(measures, counts);
    let shows = |of: Of| join_figure(of, sides, calls, keys, w);
    let comes = |p: ProjView| join_comes(p, select, keys, w);
    let entry = |k: int| join_comes(items[k].leaf(), select, keys, w);
    assert(all_held(sides, calls, keys, w)) by {
        assert forall|i: int| 0 <= i < keys.len() implies all_hold(
            sides,
            calls,
            #[trigger] keys[i],
            w,
        ) by {
            assert(keys[i] == key);
        }
    }
    lemma_counts_pair_up(known, sides, calls, w);
    assert(shows(counts) == comes(ProjView::Count)) by {
        assert(join_figure(counts, sides, calls, keys, w) == join_comes(
            ProjView::Count,
            select,
            keys,
            w,
        ));
    }
    assert(right_measures(named, shows, comes)) by {
        assert forall|k: int|
            0 <= k < named.len() && !((#[trigger] named[k]).0 is Other) implies shows(named[k].1)
            == comes(measures_what(named[k].0)) by {
            if !asks_nothing(measures) {
                assert(pairs_up(
                    measures[k].1,
                    known,
                    sides,
                    calls,
                    measures_what(measures[k].0),
                    w,
                ));
                assert(join_figure(measures[k].1, sides, calls, keys, w) == join_comes(
                    measures_what(measures[k].0),
                    select,
                    keys,
                    w,
                ));
            }
        }
        assert(named.len() > 0);
    }
    assert(right_entries(items, items.len() as int, measures, shows, entry)) by {
        assert forall|k: int|
            0 <= k < items.len() && kind_of(#[trigger] items[k]) == Kind::Number implies shows(
            measures[numbers_upto(items, k) as int].1,
        ) == entry(k) by {
            let of = measures[numbers_upto(items, k) as int].1;
            assert(pairs_up(of, known, sides, calls, items[k].leaf(), w));
            assert(join_figure(of, sides, calls, keys, w) == join_comes(
                items[k].leaf(),
                select,
                keys,
                w,
            ));
        }
    }
    lemma_having(
        select.having,
        FrameView::Many(sides_of(select)),
        named,
        shows,
        comes,
        home_of(select),
        w,
    );
    if let Some(o) = select.order_by {
        lemma_order(
            o.key,
            items,
            if o.key is Name {
                measures
            } else {
                named
            },
            shows,
            comes,
            entry,
            keys,
        );
    }
}

} // verus!
