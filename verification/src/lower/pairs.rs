//! A number over a join is the aggregate of the combinations of records that agree on the key.

use vstd::prelude::*;
use crate::ast::{Agg, CondView, GroupingView, ItemView, NameView, ProjView, SelectView, SourceView};
use crate::error::SqlErrorView;
use crate::lower::answers::{lemma_grouping_call, right_rows};
use crate::lower::calls::{asking_is_frugal, frugal, AskView};
use crate::lower::cond::a_condition_is_a_call;
use crate::lower::join::{conds_of, keyed, pair_counts, rows_by_side, sides_of, split, star, star_from, star_step, touches, Conds, Keys, StarView, Touch};
use crate::lower::keyed::group_numbers;
use crate::lower::measure::{labelled, side_of};
use crate::lower::model::{allows, among, asked_of, axes_by, bounds_a_key, bounds_time, column_axis, conjuncts, folded, gives_key, greatest, held, holds, holds_at, least, number_at, or_zero, over_records, picks, some_bounds, total, whole_name, Figure, Stored};
use crate::lower::pql::{every_row, over};
use crate::lower::product::{lemma_extremes_add, lemma_extremes_push, lemma_filter_tuples, lemma_numbers_add, lemma_others_with, lemma_same_extremes, lemma_total_add, lemma_tuples_count, lemma_tuples_numbers, lemma_tuples_reach, lemma_tuples_total, numbers_in, others, tuples};
use crate::lower::ranking::lemma_counting_call;
use crate::lower::selecting::{a_where_picks_the_records_it_is_true_of, lemma_call_names, lemma_whole};

use crate::shape::{JoinSide, Keying, Of, Pairing};

verus! {

// What a join asks.

/// A table of a join: `FROM` first, then each `JOIN`.
pub open spec fn source_at(select: SelectView, k: int) -> SourceView {
    if k == 0 {
        select.from
    } else {
        select.joins[k - 1].source
    }
}

/// How many tables a join has.
pub open spec fn width(select: SelectView) -> nat {
    select.joins.len() + 1
}

/// The name of a table of a join.
pub open spec fn table_at(select: SelectView, k: int) -> Seq<char> {
    whole_name(source_at(select, k))
}

/// The table a column is of, from one on: the first that is called so.
pub open spec fn side_from(select: SelectView, name: NameView, k: int) -> int
    decreases width(select) - k,
{
    if k < 0 || k >= width(select) {
        -1
    } else if name.qualifier == Some(source_at(select, k).label()) {
        k
    } else {
        side_from(select, name, k + 1)
    }
}

/// The table a column is of.
pub open spec fn side_named(select: SelectView, name: NameView) -> int {
    side_from(select, name, 0)
}

/// Whether the record of a combination that a column is of is in the group of a key.
pub open spec fn in_group(select: SelectView, t: Seq<int>, name: NameView, key: int, w: Stored) -> bool {
    let s = side_named(select, name);
    (w.grouped)(table_at(select, s), t[s], column_axis(name.column), key)
}

/// Whether the records of a combination agree on a key, by every `ON`.
pub open spec fn agree(select: SelectView, t: Seq<int>, key: int, w: Stored) -> bool {
    forall|j: int|
        0 <= j < select.joins.len() ==> in_group(
            select,
            t,
            (#[trigger] select.joins[j]).left,
            key,
            w,
        ) && in_group(select, t, select.joins[j].right, key, w)
}

/// The first column a condition names.
pub open spec fn first_column(c: CondView) -> NameView
    decreases c,
{
    match c {
        CondView::And(a, _) => first_column(*a),
        CondView::Or(a, _) => first_column(*a),
        CondView::Not(a) => first_column(*a),
        CondView::Cmp { field, .. } => field,
        CondView::In { field, .. } => field,
        CondView::Between { field, .. } => field,
        CondView::Like { field, .. } => field,
        CondView::Rounded { field, .. } => field,
        CondView::InRecords { field, .. } => field,
        CondView::Segment { .. } => NameView { qualifier: None, column: Seq::empty() },
    }
}

/// Whether a `WHERE` is true of a combination: each of the conditions it joins by `AND` is true of
/// the record of the table it is about.
pub open spec fn pair_holds(c: CondView, select: SelectView, t: Seq<int>, w: Stored) -> bool
    decreases c,
{
    match c {
        CondView::And(a, b) => pair_holds(*a, select, t, w) && pair_holds(*b, select, t, w),
        _ => {
            let s = side_named(select, first_column(c));
            holds(c, table_at(select, s), t[s], w)
        },
    }
}

/// Whether no condition of a conjunction bounds, in time, a column that another gives a key.
pub open spec fn undated(all: Seq<CondView>) -> bool {
    forall|i: int, j: int|
        #![trigger all[i], all[j]]
        0 <= i < all.len() && 0 <= j < all.len() && gives_key(all[i]) is Some ==> !bounds_time(
            all[j],
            (gives_key(all[i])->0).0,
        )
}

/// The records of every table of a join.
pub open spec fn all_records(select: SelectView, w: Stored) -> Seq<Seq<int>> {
    Seq::new(width(select), |k: int| (w.records)(table_at(select, k)))
}

/// The combinations of records of all the tables that agree on a key and that the `WHERE` is true
/// of.
pub open spec fn joined(select: SelectView, key: int, w: Stored) -> Seq<Seq<int>> {
    tuples(all_records(select, w)).filter(
        |t: Seq<int>|
            agree(select, t, key, w) && (match select.filter {
                Some(c) => pair_holds(c, select, t, w),
                None => true,
            }),
    )
}

/// The same, for each of some keys.
pub open spec fn joined_all(select: SelectView, keys: Seq<int>, w: Stored) -> Seq<Seq<int>>
    decreases keys.len(),
{
    if keys.len() == 0 {
        Seq::empty()
    } else {
        joined_all(select, keys.drop_last(), w) + joined(select, keys.last(), w)
    }
}

/// How many of some keys any combination agrees on.
pub open spec fn shared(select: SelectView, keys: Seq<int>, w: Stored) -> int
    decreases keys.len(),
{
    if keys.len() == 0 {
        0
    } else {
        shared(select, keys.drop_last(), w) + if joined(select, keys.last(), w).len() > 0 {
            1int
        } else {
            0
        }
    }
}

/// What an aggregate comes to over the combinations that agree on some keys.
pub open spec fn join_comes(p: ProjView, select: SelectView, keys: Seq<int>, w: Stored) -> Figure {
    let ts = joined_all(select, keys, w);
    match p {
        ProjView::Count => Figure::Number(Some(ts.len() as int)),
        ProjView::Agg { func, field } => {
            let s = side_named(select, field);
            Figure::Number(
                folded(func, numbers_in(w, table_at(select, s), ts, s, field.column)),
            )
        },
        ProjView::Avg(field) => {
            let s = side_named(select, field);
            Figure::Ratio(
                total(numbers_in(w, table_at(select, s), ts, s, field.column)),
                ts.len() as int,
            )
        },
        ProjView::CountDistinct(_) => Figure::Number(Some(shared(select, keys, w))),
        ProjView::Now { unix_seconds } => Figure::Moment(unix_seconds as int),
        _ => Figure::Blank,
    }
}

// What the shape of a join answers.

/// The plan a side of a join is keyed by.
pub open spec fn plan_of(side: JoinSide) -> int {
    match side.keyed {
        Keying::By { plan, .. } => plan as int,
    }
}

/// The records of each side in the group of a key.
pub open spec fn side_groups(sides: Seq<JoinSide>, calls: Seq<AskView>, key: int, w: Stored) -> Seq<Seq<int>> {
    Seq::new(sides.len(), |k: int| over_records(calls[plan_of(sides[k])], seq![key], w))
}

/// A side's number for each key, times the records of the other sides, summed.
pub open spec fn products(
    plan: int,
    side: int,
    sides: Seq<JoinSide>,
    calls: Seq<AskView>,
    keys: Seq<int>,
    w: Stored,
) -> int
    decreases keys.len(),
{
    if keys.len() == 0 {
        0
    } else {
        products(plan, side, sides, calls, keys.drop_last(), w) + or_zero(
            number_at(calls[plan], seq![keys.last()], w),
        ) * others(side_groups(sides, calls, keys.last(), w), side, sides.len() as int)
    }
}

/// A side's number for each key that has one.
pub open spec fn per_key_numbers(plan: int, calls: Seq<AskView>, keys: Seq<int>, w: Stored) -> Seq<int>
    decreases keys.len(),
{
    if keys.len() == 0 {
        Seq::empty()
    } else {
        let before = per_key_numbers(plan, calls, keys.drop_last(), w);
        match number_at(calls[plan], seq![keys.last()], w) {
            Some(v) => before.push(v),
            None => before,
        }
    }
}

/// What a number of a join shows over some keys that every side holds.
pub open spec fn join_figure(
    of: Of,
    sides: Seq<JoinSide>,
    calls: Seq<AskView>,
    keys: Seq<int>,
    w: Stored,
) -> Figure {
    match of {
        Of::Paired { plan, side, how } => Figure::Number(
            match how {
                Pairing::Product => Some(
                    products(plan as int, side as int, sides, calls, keys, w),
                ),
                Pairing::Least => least(per_key_numbers(plan as int, calls, keys, w)),
                Pairing::Greatest => greatest(per_key_numbers(plan as int, calls, keys, w)),
            },
        ),
        Of::PairedRatio { top, bottom, side } => Figure::Ratio(
            products(top as int, side as int, sides, calls, keys, w),
            products(bottom as int, side as int, sides, calls, keys, w),
        ),
        Of::SharedKeys => Figure::Number(Some(keys.len() as int)),
        Of::Now { unix_seconds } => Figure::Moment(unix_seconds as int),
        Of::Key => Figure::Key(keys[0]),
        _ => Figure::Blank,
    }
}

/// Whether every side of a join holds a key.
pub open spec fn all_hold(sides: Seq<JoinSide>, calls: Seq<AskView>, key: int, w: Stored) -> bool {
    forall|k: int|
        0 <= k < sides.len() ==> over_records(
            calls[plan_of(#[trigger] sides[k])],
            seq![key],
            w,
        ).len() > 0
}

/// Whether every side of a join holds each of some keys.
pub open spec fn all_held(sides: Seq<JoinSide>, calls: Seq<AskView>, keys: Seq<int>, w: Stored) -> bool {
    forall|i: int| 0 <= i < keys.len() ==> all_hold(sides, calls, #[trigger] keys[i], w)
}

// The sides of a join are the tables that were written.

pub proof fn lemma_sides(select: SelectView)
    ensures
        sides_of(select).len() == width(select),
        forall|k: int|
            0 <= k < width(select) ==> (#[trigger] sides_of(select)[k]).table == table_at(select, k)
                && sides_of(select)[k].label == source_at(select, k).label(),
{
    assert forall|k: int| 0 <= k < width(select) implies (#[trigger] sides_of(select)[k]).table
        == table_at(select, k) && sides_of(select)[k].label == source_at(select, k).label() by {
        lemma_whole(source_at(select, k));
    }
}

proof fn lemma_labelled(select: SelectView, name: NameView, k: int)
    requires
        name.qualifier is Some,
        0 <= k,
    ensures
        labelled(sides_of(select), name.qualifier->0, k) matches Some(s) ==> s == side_from(
            select,
            name,
            k,
        ) && k <= s < width(select),
    decreases width(select) - k,
{
    lemma_sides(select);
    if k < width(select) {
        assert(sides_of(select)[k].label == source_at(select, k).label());
        if sides_of(select)[k].label != name.qualifier->0 {
            lemma_labelled(select, name, k + 1);
        }
    }
}

/// A column's side is the table it is of.
pub proof fn lemma_side(select: SelectView, name: NameView, at: usize)
    requires
        width(select) <= usize::MAX,
    ensures
        side_of(sides_of(select), name, at) matches Ok(s) ==> s == side_named(select, name) && s
            < width(select),
{
    lemma_sides(select);
    if name.qualifier is Some {
        lemma_labelled(select, name, 0);
    }
}

// The keys of a join are the columns its `ON`s name.

spec fn star_right(select: SelectView, keys: Keys, n: int) -> bool {
    let sides = sides_of(select);
    &&& keys.len() == width(select)
    &&& forall|j: int|
        0 <= j < n ==> {
            let l = side_named(select, (#[trigger] select.joins[j]).left);
            let r = side_named(select, select.joins[j].right);
            &&& 0 <= l < width(select) && 0 <= r < width(select)
            &&& keys[l] is Some && keys[l]->0.column == select.joins[j].left.column
            &&& keys[r] is Some && keys[r]->0.column == select.joins[j].right.column
        }
    &&& forall|k: int|
        0 <= k < width(select) && (#[trigger] keys[k]) is Some ==> exists|j: int|
            0 <= j < n && (side_named(select, (#[trigger] select.joins[j]).left) == k || side_named(
                select,
                select.joins[j].right,
            ) == k)
    &&& n > 0 ==> forall|k: int| 0 <= k <= n ==> (#[trigger] keys[k]) is Some
}

/// A key that is found is kept, and no other is.
proof fn lemma_keyed(keys: Keys, side: usize, name: NameView, at: usize)
    requires
        side < keys.len(),
    ensures
        keyed(keys, side, name, at) matches Ok(now) ==> {
            &&& now.len() == keys.len()
            &&& now[side as int] is Some && now[side as int]->0.column == name.column
            &&& forall|k: int| 0 <= k < keys.len() && k != side ==> #[trigger] now[k] == keys[k]
            &&& forall|k: int| 0 <= k < keys.len() && keys[k] is Some ==> #[trigger] now[k]
                == keys[k]
        },
{
}

#[verifier::rlimit(60)]
#[verifier::spinoff_prover]
proof fn lemma_star_step(select: SelectView, keys: Keys, n: int)
    requires
        star_right(select, keys, n),
        0 <= n < select.joins.len(),
        width(select) <= usize::MAX,
    ensures
        star_step(keys, n, select.joins[n], sides_of(select)) matches Ok(now) ==> star_right(
            select,
            now,
            n + 1,
        ),
{
    let join = select.joins[n];
    let sides = sides_of(select);
    lemma_side(select, join.left, join.at);
    lemma_side(select, join.right, join.at);
    match star_step(keys, n, join, sides) {
        Err(_) => {},
        Ok(now) => {
            let l = side_of(sides, join.left, join.at)->Ok_0;
            let r = side_of(sides, join.right, join.at)->Ok_0;
            let mid = keyed(keys, l, join.left, join.at)->Ok_0;
            lemma_keyed(keys, l, join.left, join.at);
            lemma_keyed(mid, r, join.right, join.at);
            assert(now.len() == keys.len());
            assert forall|k: int| 0 <= k < keys.len() && keys[k] is Some implies #[trigger] now[k]
                == keys[k] by {
                assert(mid[k] == keys[k]);
            }
            assert(now[l as int] == mid[l as int]);
            assert forall|k: int| 0 <= k < now.len() && (#[trigger] now[k]) is Some implies exists|
                j: int,
            |
                0 <= j < n + 1 && (side_named(select, (#[trigger] select.joins[j]).left) == k
                    || side_named(select, select.joins[j].right) == k) by {
                if keys[k] is Some {
                    let j = choose|j: int|
                        0 <= j < n && (side_named(select, (#[trigger] select.joins[j]).left) == k
                            || side_named(select, select.joins[j].right) == k);
                    assert(0 <= j < n + 1);
                } else {
                    assert(k == l || k == r);
                    assert(side_named(select, select.joins[n].left) == k || side_named(
                        select,
                        select.joins[n].right,
                    ) == k);
                }
            }
            assert forall|j: int| 0 <= j < n + 1 implies {
                let l = side_named(select, (#[trigger] select.joins[j]).left);
                let r = side_named(select, select.joins[j].right);
                &&& 0 <= l < width(select) && 0 <= r < width(select)
                &&& now[l] is Some && now[l]->0.column == select.joins[j].left.column
                &&& now[r] is Some && now[r]->0.column == select.joins[j].right.column
            } by {
                if j < n {
                    let a = side_named(select, select.joins[j].left);
                    let b = side_named(select, select.joins[j].right);
                    assert(keys[a] is Some && keys[b] is Some);
                }
            }
            assert forall|k: int| 0 <= k <= n + 1 implies (#[trigger] now[k]) is Some by {
                if n > 0 && k <= n {
                    assert(keys[k] is Some);
                }
            }
        },
    }
}

proof fn lemma_star_from(select: SelectView, keys: Keys, n: int)
    requires
        star_right(select, keys, n),
        0 <= n <= select.joins.len(),
        width(select) <= usize::MAX,
    ensures
        star_from(keys, select.joins, n, sides_of(select)) matches Ok(now) ==> star_right(
            select,
            now,
            select.joins.len() as int,
        ),
    decreases select.joins.len() - n,
{
    if n < select.joins.len() {
        lemma_star_step(select, keys, n);
        match star_step(keys, n, select.joins[n], sides_of(select)) {
            Ok(now) => lemma_star_from(select, now, n + 1),
            Err(_) => {},
        }
    }
}

/// Whether each record of a combination is in the group of a key, by the key of its table.
spec fn keyed_alike(
    select: SelectView,
    keys: Seq<NameView>,
    t: Seq<int>,
    key: int,
    w: Stored,
) -> bool {
    forall|k: int|
        0 <= k < width(select) ==> (w.grouped)(
            table_at(select, k),
            t[k],
            column_axis((#[trigger] keys[k]).column),
            key,
        )
}

/// Records agree on a key by every `ON` where each is in its group by the key of its table.
proof fn lemma_agree(
    select: SelectView,
    keys: Seq<NameView>,
    t: Seq<int>,
    key: int,
    w: Stored,
)
    requires
        star(select.joins, sides_of(select)) == Ok::<Seq<NameView>, SqlErrorView>(keys),
        select.joins.len() > 0,
        width(select) <= usize::MAX,
    ensures
        keys.len() == width(select),
        agree(select, t, key, w) == keyed_alike(select, keys, t, key, w),
{
    let none: Keys = Seq::new(sides_of(select).len(), |k: int| None);
    lemma_sides(select);
    assert(star_right(select, none, 0));
    lemma_star_from(select, none, 0);
    let found = star_from(none, select.joins, 0, sides_of(select))->Ok_0;
    assert forall|k: int| 0 <= k < width(select) implies found[k] is Some && #[trigger] keys[k]
        == found[k]->0 by {
        assert(found[k] is Some);
    }
    if agree(select, t, key, w) {
        assert forall|k: int| 0 <= k < width(select) implies (w.grouped)(
            table_at(select, k),
            t[k],
            column_axis((#[trigger] keys[k]).column),
            key,
        ) by {
            assert(found[k] is Some);
            let j = choose|j: int|
                0 <= j < select.joins.len() && (side_named(select, (#[trigger] select.joins[j]).left)
                    == k || side_named(select, select.joins[j].right) == k);
            assert(in_group(select, t, select.joins[j].left, key, w));
        }
    }
    if keyed_alike(select, keys, t, key, w) {
        assert forall|j: int| 0 <= j < select.joins.len() implies in_group(
            select,
            t,
            (#[trigger] select.joins[j]).left,
            key,
            w,
        ) && in_group(select, t, select.joins[j].right, key, w) by {
            let l = side_named(select, select.joins[j].left);
            let r = side_named(select, select.joins[j].right);
            assert(keys[l] == found[l]->0);
            assert(keys[r] == found[r]->0);
        }
    }
}

// The `WHERE` of a join is the conditions of its tables.

/// Whether each of some conditions is true of a record.
spec fn each_holds(all: Seq<CondView>, table: Seq<char>, r: int, w: Stored) -> bool {
    forall|j: int| 0 <= j < all.len() ==> holds(#[trigger] all[j], table, r, w)
}

/// Where no condition bounds the key of another, a conjunction is true where each of its
/// conditions is.
proof fn lemma_undated_at(
    c: CondView,
    all: Seq<CondView>,
    at: int,
    table: Seq<char>,
    r: int,
    w: Stored,
)
    requires
        undated(all),
        0 <= at,
        at + conjuncts(c).len() <= all.len(),
        forall|k: int| 0 <= k < conjuncts(c).len() ==> #[trigger] conjuncts(c)[k] == all[at + k],
    ensures
        holds_at(c, all, at, table, r, w) == each_holds(conjuncts(c), table, r, w),
    decreases c,
{
    match c {
        CondView::And(a, b) => {
            let x = conjuncts(*a);
            let y = conjuncts(*b);
            let z = conjuncts(c);
            assert forall|k: int| 0 <= k < x.len() implies #[trigger] x[k] == all[at + k] by {
                assert(z[k] == x[k]);
            }
            assert forall|k: int| 0 <= k < y.len() implies #[trigger] y[k] == all[at + x.len()
                + k] by {
                assert(z[x.len() + k] == y[k]);
                assert(z[x.len() + k] == all[at + (x.len() + k)]);
            }
            lemma_undated_at(*a, all, at, table, r, w);
            lemma_undated_at(*b, all, at + x.len(), table, r, w);
            lemma_each_add(x, y, table, r, w);
        },
        _ => {
            assert(conjuncts(c)[0] == all[at + 0]);
            assert(all[at] == c);
            if let Some((field, _)) = gives_key(c) {
                if some_bounds(all, field) {
                    let k = choose|k: int|
                        0 <= k < all.len() && bounds_time(#[trigger] all[k], field);
                    assert(gives_key(all[at]) is Some && bounds_time(all[k], field));
                }
            }
            if bounds_a_key(all, c) {
                let k = choose|k: int|
                    0 <= k < all.len() && gives_key(#[trigger] all[k]) is Some && bounds_time(
                        c,
                        (gives_key(all[k])->0).0,
                    );
                assert(gives_key(all[k]) is Some && bounds_time(
                    all[at],
                    (gives_key(all[k])->0).0,
                ));
            }
            assert(holds_at(c, all, at, table, r, w) == holds(c, table, r, w));
            assert(conjuncts(c) =~= seq![c]);
            if holds(c, table, r, w) {
                assert forall|j: int| 0 <= j < conjuncts(c).len() implies holds(
                    #[trigger] conjuncts(c)[j],
                    table,
                    r,
                    w,
                ) by {
                    assert(conjuncts(c)[j] == c);
                }
            }
        },
    }
}

proof fn lemma_each_add(x: Seq<CondView>, y: Seq<CondView>, table: Seq<char>, r: int, w: Stored)
    ensures
        each_holds(x + y, table, r, w) == (each_holds(x, table, r, w) && each_holds(
            y,
            table,
            r,
            w,
        )),
{
    let z = x + y;
    if each_holds(z, table, r, w) {
        assert forall|j: int| 0 <= j < x.len() implies holds(#[trigger] x[j], table, r, w) by {
            assert(z[j] == x[j]);
        }
        assert forall|j: int| 0 <= j < y.len() implies holds(#[trigger] y[j], table, r, w) by {
            assert(z[x.len() + j] == y[j]);
        }
    }
    if each_holds(x, table, r, w) && each_holds(y, table, r, w) {
        assert forall|j: int| 0 <= j < z.len() implies holds(#[trigger] z[j], table, r, w) by {
            if j < x.len() {
                assert(z[j] == x[j]);
            } else {
                assert(z[j] == y[j - x.len()]);
            }
        }
    }
}

proof fn lemma_undated(c: CondView, table: Seq<char>, r: int, w: Stored)
    requires
        undated(conjuncts(c)),
    ensures
        holds(c, table, r, w) == each_holds(conjuncts(c), table, r, w),
{
    let all = conjuncts(c);
    lemma_undated_at(c, all, 0, table, r, w);
    match c {
        CondView::And(..) => {},
        _ => {
            assert(all =~= seq![c]);
            assert(all[0] == c);
            if each_holds(all, table, r, w) {
                assert(holds(all[0], table, r, w));
            }
            if holds(c, table, r, w) {
                assert forall|j: int| 0 <= j < all.len() implies holds(
                    #[trigger] all[j],
                    table,
                    r,
                    w,
                ) by {
                    assert(all[j] == c);
                }
            }
        },
    }
}

/// The conditions of a condition that may be absent.
spec fn parts_of(c: Option<CondView>) -> Seq<CondView> {
    match c {
        Some(c) => conjuncts(c),
        None => Seq::empty(),
    }
}

/// A condition that is about one table is about the table of its first column.
proof fn lemma_touches(select: SelectView, c: CondView, at: usize)
    requires
        width(select) <= usize::MAX,
    ensures
        touches(c, sides_of(select), at) matches Ok(t) ==> !(t is Nothing) && (t matches Touch::One(
            s,
        ) ==> s == side_named(select, first_column(c)) && s < width(select)),
    decreases c,
{
    match c {
        CondView::And(a, b) => {
            lemma_touches(select, *a, at);
            lemma_touches(select, *b, at);
        },
        CondView::Or(a, b) => {
            lemma_touches(select, *a, at);
            lemma_touches(select, *b, at);
        },
        CondView::Not(a) => lemma_touches(select, *a, at),
        CondView::Segment { .. } => {},
        _ => {
            lemma_side(select, first_column(c), at);
        },
    }
}

/// Whether the conditions of every table are true of the records of a combination.
spec fn sides_hold(select: SelectView, conds: Conds, t: Seq<int>, w: Stored) -> bool {
    forall|k: int|
        0 <= k < width(select) ==> each_holds(
            parts_of(#[trigger] conds[k]),
            table_at(select, k),
            t[k],
            w,
        )
}

/// A `WHERE` is true of a combination where the conditions of each table are true of its record.
proof fn lemma_split(select: SelectView, c: CondView, at: usize, t: Seq<int>, w: Stored)
    requires
        width(select) <= usize::MAX,
    ensures
        split(c, sides_of(select), at) matches Ok(conds) ==> {
            &&& conds.len() == width(select)
            &&& pair_holds(c, select, t, w) == sides_hold(select, conds, t, w)
            &&& forall|k: int, j: int|
                0 <= k < width(select) && 0 <= j < parts_of(conds[k]).len() ==> conjuncts(
                    c,
                ).contains(#[trigger] parts_of(conds[k])[j])
        },
    decreases c,
{
    lemma_sides(select);
    let sides = sides_of(select);
    match c {
        CondView::And(a, b) => {
            lemma_split(select, *a, at, t, w);
            lemma_split(select, *b, at, t, w);
            if split(c, sides, at) is Ok {
                let x = split(*a, sides, at)->Ok_0;
                let y = split(*b, sides, at)->Ok_0;
                let z = split(c, sides, at)->Ok_0;
                assert forall|k: int| 0 <= k < width(select) implies parts_of(#[trigger] z[k])
                    == parts_of(x[k]) + parts_of(y[k]) by {
                    match (x[k], y[k]) {
                        (Some(_), Some(_)) => {},
                        (Some(_), None) => {
                            assert(parts_of(x[k]) + parts_of(y[k]) =~= parts_of(x[k]));
                        },
                        _ => {
                            assert(parts_of(x[k]) + parts_of(y[k]) =~= parts_of(y[k]));
                        },
                    }
                }
                assert forall|k: int| 0 <= k < width(select) implies each_holds(
                    parts_of(#[trigger] z[k]),
                    table_at(select, k),
                    t[k],
                    w,
                ) == (each_holds(parts_of(x[k]), table_at(select, k), t[k], w) && each_holds(
                    parts_of(y[k]),
                    table_at(select, k),
                    t[k],
                    w,
                )) by {
                    lemma_each_add(
                        parts_of(x[k]),
                        parts_of(y[k]),
                        table_at(select, k),
                        t[k],
                        w,
                    );
                }
                if sides_hold(select, z, t, w) {
                    assert forall|k: int| 0 <= k < width(select) implies each_holds(
                        parts_of(#[trigger] x[k]),
                        table_at(select, k),
                        t[k],
                        w,
                    ) by {
                        assert(each_holds(parts_of(z[k]), table_at(select, k), t[k], w));
                    }
                    assert forall|k: int| 0 <= k < width(select) implies each_holds(
                        parts_of(#[trigger] y[k]),
                        table_at(select, k),
                        t[k],
                        w,
                    ) by {
                        assert(each_holds(parts_of(z[k]), table_at(select, k), t[k], w));
                    }
                }
                if sides_hold(select, x, t, w) && sides_hold(select, y, t, w) {
                    assert forall|k: int| 0 <= k < width(select) implies each_holds(
                        parts_of(#[trigger] z[k]),
                        table_at(select, k),
                        t[k],
                        w,
                    ) by {
                        assert(each_holds(parts_of(x[k]), table_at(select, k), t[k], w));
                        assert(each_holds(parts_of(y[k]), table_at(select, k), t[k], w));
                    }
                }
                assert forall|k: int, j: int|
                    0 <= k < width(select) && 0 <= j < parts_of(z[k]).len() implies conjuncts(
                    c,
                ).contains(#[trigger] parts_of(z[k])[j]) by {
                    let p = parts_of(x[k]);
                    let q = parts_of(y[k]);
                    assert(parts_of(z[k]) == p + q);
                    let ca = conjuncts(*a);
                    let cb = conjuncts(*b);
                    if j < p.len() {
                        assert(parts_of(z[k])[j] == p[j]);
                        assert(ca.contains(p[j]));
                        let i = choose|i: int| 0 <= i < ca.len() && ca[i] == p[j];
                        assert(conjuncts(c)[i] == p[j]);
                    } else {
                        assert(parts_of(z[k])[j] == q[j - p.len()]);
                        assert(cb.contains(q[j - p.len()]));
                        let i = choose|i: int| 0 <= i < cb.len() && cb[i] == q[j - p.len()];
                        assert(conjuncts(c)[ca.len() + i] == q[j - p.len()]);
                    }
                }
            }
        },
        _ => {
            lemma_touches(select, c, at);
            if split(c, sides, at) is Ok {
                let conds = split(c, sides, at)->Ok_0;
                let s = touches(c, sides, at)->Ok_0->One_0 as int;
                assert(conds[s] == Some(c));
                assert(conjuncts(c) =~= seq![c]);
                assert(conjuncts(c)[0] == c);
                assert forall|k: int| 0 <= k < width(select) && k != s implies (
                #[trigger] conds[k]) is None by {}
                if sides_hold(select, conds, t, w) {
                    assert(each_holds(parts_of(conds[s]), table_at(select, s), t[s], w));
                    assert(holds(conjuncts(c)[0], table_at(select, s), t[s], w));
                }
                if pair_holds(c, select, t, w) {
                    assert forall|k: int| 0 <= k < width(select) implies each_holds(
                        parts_of(#[trigger] conds[k]),
                        table_at(select, k),
                        t[k],
                        w,
                    ) by {
                        if k == s {
                            assert forall|j: int| 0 <= j < conjuncts(c).len() implies holds(
                                #[trigger] conjuncts(c)[j],
                                table_at(select, s),
                                t[s],
                                w,
                            ) by {
                                assert(conjuncts(c)[j] == c);
                            }
                        }
                    }
                }
            }
        },
    }
}

/// Whether the `WHERE` of a join has no key and bounds that are one question about a time.
pub open spec fn undated_where(select: SelectView) -> bool {
    select.filter matches Some(c) ==> undated(conjuncts(c))
}

/// The `WHERE` of a join, table by table.
proof fn lemma_conds(select: SelectView, conds: Conds, t: Seq<int>, w: Stored)
    requires
        width(select) <= usize::MAX,
        undated_where(select),
        conds_of(select, sides_of(select)) == Ok::<Conds, SqlErrorView>(conds),
    ensures
        conds.len() == width(select),
        (match select.filter {
            Some(c) => pair_holds(c, select, t, w),
            None => true,
        }) == (forall|k: int|
            0 <= k < width(select) ==> allows(
                #[trigger] conds[k],
                table_at(select, k),
                t[k],
                w,
            )),
{
    lemma_sides(select);
    match select.filter {
        None => {},
        Some(c) => {
            lemma_split(select, c, 0, t, w);
            assert forall|k: int| 0 <= k < width(select) implies allows(
                #[trigger] conds[k],
                table_at(select, k),
                t[k],
                w,
            ) == each_holds(parts_of(conds[k]), table_at(select, k), t[k], w) by {
                if let Some(own) = conds[k] {
                    let all = conjuncts(c);
                    let mine = conjuncts(own);
                    assert(parts_of(conds[k]) == mine);
                    assert(undated(mine)) by {
                        assert forall|i: int, j: int|
                            #![trigger mine[i], mine[j]]
                            0 <= i < mine.len() && 0 <= j < mine.len() && gives_key(
                                mine[i],
                            ) is Some implies !bounds_time(
                            mine[j],
                            (gives_key(mine[i])->0).0,
                        ) by {
                            assert(all.contains(parts_of(conds[k])[i]));
                            assert(all.contains(parts_of(conds[k])[j]));
                            let x = choose|x: int| 0 <= x < all.len() && all[x] == mine[i];
                            let y = choose|y: int| 0 <= y < all.len() && all[y] == mine[j];
                            assert(gives_key(all[x]) is Some);
                            assert(!bounds_time(all[y], (gives_key(all[x])->0).0));
                        }
                    }
                    lemma_undated(own, table_at(select, k), t[k], w);
                }
            }
            if sides_hold(select, conds, t, w) {
                assert forall|k: int| 0 <= k < width(select) implies allows(
                    #[trigger] conds[k],
                    table_at(select, k),
                    t[k],
                    w,
                ) by {
                    assert(each_holds(parts_of(conds[k]), table_at(select, k), t[k], w));
                }
            }
            if forall|k: int|
                0 <= k < width(select) ==> allows(
                    #[trigger] conds[k],
                    table_at(select, k),
                    t[k],
                    w,
                ) {
                assert forall|k: int| 0 <= k < width(select) implies each_holds(
                    parts_of(#[trigger] conds[k]),
                    table_at(select, k),
                    t[k],
                    w,
                ) by {
                    assert(allows(conds[k], table_at(select, k), t[k], w));
                }
            }
        },
    }
}

/// The records of each table that its own conditions are true of, in the group of a key.
spec fn own_groups(
    select: SelectView,
    conds: Conds,
    keys: Seq<NameView>,
    key: int,
    w: Stored,
) -> Seq<Seq<int>> {
    Seq::new(
        width(select),
        |k: int|
            asked_of(
                w,
                table_at(select, k),
                conds[k],
                None,
                seq![column_axis(keys[k].column)],
                seq![key],
            ),
    )
}

/// The combinations that agree on a key and that the `WHERE` is true of are the combinations of
/// each table's own records in the group of that key.
proof fn lemma_joined(
    select: SelectView,
    conds: Conds,
    keys: Seq<NameView>,
    key: int,
    w: Stored,
)
    requires
        width(select) <= usize::MAX,
        select.joins.len() > 0,
        undated_where(select),
        star(select.joins, sides_of(select)) == Ok::<Seq<NameView>, SqlErrorView>(keys),
        conds_of(select, sides_of(select)) == Ok::<Conds, SqlErrorView>(conds),
    ensures
        joined(select, key, w) == tuples(own_groups(select, conds, keys, key, w)),
{
    let lists = all_records(select, w);
    let p = |t: Seq<int>|
        agree(select, t, key, w) && (match select.filter {
            Some(c) => pair_holds(c, select, t, w),
            None => true,
        });
    let q = |k: int, r: int|
        allows(conds[k], table_at(select, k), r, w) && (w.grouped)(
            table_at(select, k),
            r,
            column_axis(keys[k].column),
            key,
        );
    assert forall|t: Seq<int>| t.len() == lists.len() implies #[trigger] p(t) == (forall|k: int|
        0 <= k < lists.len() ==> #[trigger] q(k, t[k])) by {
        lemma_agree(select, keys, t, key, w);
        lemma_conds(select, conds, t, w);
        if p(t) {
            assert forall|k: int| 0 <= k < lists.len() implies #[trigger] q(k, t[k]) by {
                assert(allows(conds[k], table_at(select, k), t[k], w));
                assert((w.grouped)(
                    table_at(select, k),
                    t[k],
                    column_axis(keys[k].column),
                    key,
                ));
            }
        }
        if forall|k: int| 0 <= k < lists.len() ==> #[trigger] q(k, t[k]) {
            assert forall|k: int| 0 <= k < width(select) implies allows(
                #[trigger] conds[k],
                table_at(select, k),
                t[k],
                w,
            ) by {
                assert(q(k, t[k]));
            }
            assert forall|k: int| 0 <= k < width(select) implies (w.grouped)(
                table_at(select, k),
                t[k],
                column_axis((#[trigger] keys[k]).column),
                key,
            ) by {
                assert(q(k, t[k]));
            }
        }
    }
    lemma_filter_tuples(lists, p, q);
    let kept = Seq::new(lists.len(), |k: int| lists[k].filter(|r: int| q(k, r)));
    let own = own_groups(select, conds, keys, key, w);
    assert forall|k: int| 0 <= k < lists.len() implies #[trigger] kept[k] == own[k] by {
        let axes = seq![column_axis(keys[k].column)];
        let a = |r: int| q(k, r);
        let b = |r: int|
            allows(conds[k], table_at(select, k), r, w) && allows(
                None,
                table_at(select, k),
                r,
                w,
            ) && among(table_at(select, k), r, axes, seq![key], w);
        assert forall|r: int| #[trigger] a(r) == b(r) by {
            assert(axes[0] == column_axis(keys[k].column));
            if a(r) {
                assert(among(table_at(select, k), r, axes, seq![key], w));
            }
        }
        assert(a =~= b);
    }
    assert(kept =~= own);
}

// The numbers of a join.

/// What is known of a join: its keys, its conditions, and the plan that counts each table.
pub struct Known {
    pub select: SelectView,
    pub keys: Seq<NameView>,
    pub conds: Conds,
    pub plans: Seq<usize>,
}

impl Known {
    /// What the lowering knows of a join.
    pub open spec fn star(self) -> StarView {
        StarView {
            sides: sides_of(self.select),
            keys: self.keys,
            rows: rows_by_side(self.conds),
        }
    }

    /// Whether these are a join's.
    pub open spec fn wf(self) -> bool {
        &&& width(self.select) <= usize::MAX
        &&& self.select.joins.len() > 0
        &&& undated_where(self.select)
        &&& star(self.select.joins, sides_of(self.select)) == Ok::<Seq<NameView>, SqlErrorView>(
            self.keys,
        )
        &&& conds_of(self.select, sides_of(self.select)) == Ok::<Conds, SqlErrorView>(self.conds)
        &&& self.plans.len() == width(self.select)
    }

    /// Whether some calls count each table.
    pub open spec fn counted(self, calls: Seq<AskView>) -> bool {
        forall|k: int|
            0 <= k < width(self.select) ==> (#[trigger] self.plans[k]) < calls.len()
                && calls[self.plans[k] as int] == (AskView {
                table: table_at(self.select, k),
                call: self.star().counts(k),
            })
    }

    /// Whether the sides of a shape are keyed by what counts each table.
    pub open spec fn keys_by(self, sides: Seq<JoinSide>) -> bool {
        &&& sides.len() == width(self.select)
        &&& forall|k: int|
            0 <= k < width(self.select) ==> plan_of(#[trigger] sides[k]) == self.plans[k]
    }
}

/// The grouping of a table of a join.
spec fn by_side(known: Known, k: int) -> Seq<GroupingView> {
    seq![GroupingView { name: known.keys[k], bucket: None, at: 0 }]
}

proof fn lemma_own_rows(known: Known, k: int, w: Stored)
    requires
        known.wf(),
        0 <= k < width(known.select),
    ensures
        known.keys.len() == width(known.select),
        known.conds.len() == width(known.select),
        right_rows(
            known.star().rows[k],
            known.conds[k],
            None,
            table_at(known.select, k),
            w,
        ),
{
    let t = Seq::<int>::empty();
    lemma_agree(known.select, known.keys, t, 0, w);
    lemma_conds(known.select, known.conds, t, w);
    lemma_call_names();
    let rows = known.star().rows[k];
    match known.conds[k] {
        Some(c) => {
            a_condition_is_a_call(c);
            assert forall|r: int| #[trigger] picks(rows, table_at(known.select, k), r, w) == allows(
                known.conds[k],
                table_at(known.select, k),
                r,
                w,
            ) by {
                a_where_picks_the_records_it_is_true_of(c, table_at(known.select, k), r, w);
            }
        },
        None => {
            assert(rows == every_row());
        },
    }
}

/// The call that counts a table answers with its own records of each key.
proof fn lemma_counts(known: Known, k: int, key: int, w: Stored)
    requires
        known.wf(),
        0 <= k < width(known.select),
    ensures
        ({
            let ask = AskView { table: table_at(known.select, k), call: known.star().counts(k) };
            let own = own_groups(known.select, known.conds, known.keys, key, w)[k];
            &&& over_records(ask, seq![key], w) == own
            &&& number_at(ask, seq![key], w) == Some(own.len() as int)
        }),
{
    lemma_own_rows(known, k, w);
    let g = by_side(known, k)[0];
    let ask = AskView { table: table_at(known.select, k), call: known.star().counts(k) };
    assert(ask.call.args[0] == known.star().rows[k]);
    assert(ask.call.args[1] == over(known.keys[k]));
    lemma_counting_call(ask, known.conds[k], g, w);
    assert(axes_by(seq![g]) =~= seq![column_axis(known.keys[k].column)]);
    assert(number_at(ask, seq![key], w) == Some(
        asked_of(
            w,
            ask.table,
            known.conds[k],
            None,
            axes_by(seq![g]),
            seq![key],
        ).len() as int,
    ));
    assert(over_records(ask, seq![key], w) == asked_of(
        w,
        ask.table,
        known.conds[k],
        None,
        axes_by(seq![g]),
        seq![key],
    ));
}

/// The call that aggregates a table answers with the aggregate of its own records of each key.
proof fn lemma_aggregates(known: Known, k: int, func: Agg, field: NameView, key: int, w: Stored)
    requires
        known.wf(),
        0 <= k < width(known.select),
    ensures
        ({
            let ask = AskView {
                table: table_at(known.select, k),
                call: known.star().aggregates(k, func, field),
            };
            let own = own_groups(known.select, known.conds, known.keys, key, w)[k];
            number_at(ask, seq![key], w) == folded(
                func,
                held(w, table_at(known.select, k), own, field.column),
            )
        }),
{
    lemma_own_rows(known, k, w);
    let by = by_side(known, k);
    let g = by[0];
    let ask = AskView {
        table: table_at(known.select, k),
        call: known.star().aggregates(k, func, field),
    };
    assert(ask.call.args[0] == known.star().rows[k]);
    assert(ask.call == group_numbers(ask.call.args[0], g, func.called(), field));
    lemma_grouping_call(
        ask,
        known.conds[k],
        None,
        by,
        seq![key],
        Some((func, field)),
        w,
    );
    assert(axes_by(by) =~= seq![column_axis(known.keys[k].column)]);
}

/// The groups of the sides of a shape are each table's own.
proof fn lemma_side_groups(
    known: Known,
    sides: Seq<JoinSide>,
    calls: Seq<AskView>,
    key: int,
    w: Stored,
)
    requires
        known.wf(),
        known.counted(calls),
        known.keys_by(sides),
    ensures
        side_groups(sides, calls, key, w) == own_groups(
            known.select,
            known.conds,
            known.keys,
            key,
            w,
        ),
        joined(known.select, key, w) == tuples(side_groups(sides, calls, key, w)),
        all_hold(sides, calls, key, w) ==> forall|k: int|
            0 <= k < width(known.select) ==> (#[trigger] side_groups(
                sides,
                calls,
                key,
                w,
            )[k]).len() > 0,
{
    let a = side_groups(sides, calls, key, w);
    let b = own_groups(known.select, known.conds, known.keys, key, w);
    assert forall|k: int| 0 <= k < width(known.select) implies #[trigger] a[k] == b[k] by {
        lemma_counts(known, k, key, w);
        assert(plan_of(sides[k]) == known.plans[k]);
        assert(known.plans[k] < calls.len());
    }
    assert(a =~= b);
    lemma_joined(known.select, known.conds, known.keys, key, w);
    if all_hold(sides, calls, key, w) {
        assert forall|k: int| 0 <= k < width(known.select) implies (#[trigger] a[k]).len() > 0 by {
            assert(over_records(calls[plan_of(sides[k])], seq![key], w).len() > 0);
        }
    }
}

/// Counts times counts are the number of combinations.
proof fn lemma_pair_counts(
    known: Known,
    sides: Seq<JoinSide>,
    calls: Seq<AskView>,
    side: int,
    keys: Seq<int>,
    w: Stored,
)
    requires
        known.wf(),
        known.counted(calls),
        known.keys_by(sides),
        0 <= side < width(known.select),
    ensures
        products(known.plans[side] as int, side, sides, calls, keys, w) == joined_all(
            known.select,
            keys,
            w,
        ).len(),
    decreases keys.len(),
{
    if keys.len() > 0 {
        lemma_pair_counts(known, sides, calls, side, keys.drop_last(), w);
        let key = keys.last();
        lemma_side_groups(known, sides, calls, key, w);
        lemma_counts(known, side, key, w);
        assert(known.plans[side] < calls.len());
        let lists = side_groups(sides, calls, key, w);
        lemma_tuples_count(lists);
        lemma_others_with(lists, side, lists.len() as int);
        assert(number_at(calls[known.plans[side] as int], seq![key], w) == Some(
            lists[side].len() as int,
        ));
    }
}

/// Sums times counts are the sum over the combinations.
proof fn lemma_pair_sums(
    known: Known,
    sides: Seq<JoinSide>,
    calls: Seq<AskView>,
    plan: int,
    side: int,
    field: NameView,
    keys: Seq<int>,
    w: Stored,
)
    requires
        known.wf(),
        known.counted(calls),
        known.keys_by(sides),
        0 <= side < width(known.select),
        0 <= plan < calls.len(),
        calls[plan] == (AskView {
            table: table_at(known.select, side),
            call: known.star().aggregates(side, Agg::Sum, field),
        }),
    ensures
        products(plan, side, sides, calls, keys, w) == total(
            numbers_in(
                w,
                table_at(known.select, side),
                joined_all(known.select, keys, w),
                side,
                field.column,
            ),
        ),
    decreases keys.len(),
{
    if keys.len() > 0 {
        let table = table_at(known.select, side);
        let before = keys.drop_last();
        lemma_pair_sums(known, sides, calls, plan, side, field, before, w);
        let key = keys.last();
        lemma_side_groups(known, sides, calls, key, w);
        lemma_aggregates(known, side, Agg::Sum, field, key, w);
        let lists = side_groups(sides, calls, key, w);
        lemma_tuples_total(w, table, lists, side, field.column);
        let a = joined_all(known.select, before, w);
        let b = joined(known.select, key, w);
        lemma_numbers_add(w, table, a, b, side, field.column);
        lemma_total_add(
            numbers_in(w, table, a, side, field.column),
            numbers_in(w, table, b, side, field.column),
        );
    }
}

/// The least of leasts and the greatest of greatests are those over the combinations.
proof fn lemma_pair_extremes(
    known: Known,
    sides: Seq<JoinSide>,
    calls: Seq<AskView>,
    plan: int,
    side: int,
    func: Agg,
    field: NameView,
    keys: Seq<int>,
    w: Stored,
)
    requires
        known.wf(),
        known.counted(calls),
        known.keys_by(sides),
        0 <= side < width(known.select),
        0 <= plan < calls.len(),
        calls[plan] == (AskView {
            table: table_at(known.select, side),
            call: known.star().aggregates(side, func, field),
        }),
        all_held(sides, calls, keys, w),
    ensures
        ({
            let numbers = numbers_in(
                w,
                table_at(known.select, side),
                joined_all(known.select, keys, w),
                side,
                field.column,
            );
            &&& func is Min ==> least(per_key_numbers(plan, calls, keys, w)) == least(numbers)
            &&& func is Max ==> greatest(per_key_numbers(plan, calls, keys, w)) == greatest(
                numbers,
            )
        }),
    decreases keys.len(),
{
    if keys.len() > 0 {
        let table = table_at(known.select, side);
        let before = keys.drop_last();
        assert(all_held(sides, calls, before, w)) by {
            assert forall|i: int| 0 <= i < before.len() implies all_hold(
                sides,
                calls,
                #[trigger] before[i],
                w,
            ) by {
                assert(keys[i] == before[i]);
            }
        }
        lemma_pair_extremes(known, sides, calls, plan, side, func, field, before, w);
        let key = keys.last();
        assert(all_hold(sides, calls, keys[keys.len() - 1], w));
        lemma_side_groups(known, sides, calls, key, w);
        lemma_aggregates(known, side, func, field, key, w);
        let lists = side_groups(sides, calls, key, w);
        lemma_tuples_numbers(w, table, lists, side, field.column);
        let a = numbers_in(w, table, joined_all(known.select, before, w), side, field.column);
        let b = numbers_in(w, table, joined(known.select, key, w), side, field.column);
        lemma_numbers_add(
            w,
            table,
            joined_all(known.select, before, w),
            joined(known.select, key, w),
            side,
            field.column,
        );
        lemma_same_extremes(b, held(w, table, lists[side], field.column));
        lemma_extremes_add(a, b);
        let p = per_key_numbers(plan, calls, before, w);
        match number_at(calls[plan], seq![key], w) {
            Some(v) => {
                lemma_extremes_push(p, v);
            },
            None => {},
        }
    }
}

/// Every key that each side holds is one that a combination agrees on.
proof fn lemma_shared(
    known: Known,
    sides: Seq<JoinSide>,
    calls: Seq<AskView>,
    keys: Seq<int>,
    w: Stored,
)
    requires
        known.wf(),
        known.counted(calls),
        known.keys_by(sides),
        all_held(sides, calls, keys, w),
    ensures
        shared(known.select, keys, w) == keys.len(),
    decreases keys.len(),
{
    if keys.len() > 0 {
        let before = keys.drop_last();
        assert(all_held(sides, calls, before, w)) by {
            assert forall|i: int| 0 <= i < before.len() implies all_hold(
                sides,
                calls,
                #[trigger] before[i],
                w,
            ) by {
                assert(keys[i] == before[i]);
            }
        }
        lemma_shared(known, sides, calls, before, w);
        let key = keys.last();
        assert(all_hold(sides, calls, keys[keys.len() - 1], w));
        lemma_side_groups(known, sides, calls, key, w);
        lemma_tuples_reach(side_groups(sides, calls, key, w), 0, 0);
    }
}

/// Whether a number of a join is what an aggregate comes to, over any keys that every side holds.
pub open spec fn pairs_up(
    of: Of,
    known: Known,
    sides: Seq<JoinSide>,
    calls: Seq<AskView>,
    p: ProjView,
    w: Stored,
) -> bool {
    forall|keys: Seq<int>|
        all_held(sides, calls, keys, w) ==> #[trigger] join_figure(of, sides, calls, keys, w)
            == join_comes(p, known.select, keys, w)
}

/// The counts of the pairs are the number of combinations.
pub proof fn lemma_counts_pair_up(
    known: Known,
    sides: Seq<JoinSide>,
    calls: Seq<AskView>,
    w: Stored,
)
    requires
        known.wf(),
        known.counted(calls),
        known.keys_by(sides),
    ensures
        pairs_up(pair_counts(known.plans), known, sides, calls, ProjView::Count, w),
{
    assert forall|keys: Seq<int>| all_held(sides, calls, keys, w) implies #[trigger] join_figure(
        pair_counts(known.plans),
        sides,
        calls,
        keys,
        w,
    ) == join_comes(ProjView::Count, known.select, keys, w) by {
        lemma_pair_counts(known, sides, calls, 0, keys, w);
    }
}

/// One number of a join is the aggregate that was asked for.
pub proof fn lemma_number_pairs_up(
    known: Known,
    sides: Seq<JoinSide>,
    item: ItemView,
    per_key: bool,
    out: Seq<AskView>,
    at: usize,
    w: Stored,
)
    requires
        known.wf(),
        known.counted(out),
        known.keys_by(sides),
        frugal(out),
    ensures
        known.star().number(item, per_key, known.plans, out, at) matches Ok((now, of)) ==> {
            &&& frugal(now)
            &&& out.is_prefix_of(now)
            &&& known.counted(now)
            &&& of.fits(now.len() as int, 0)
            &&& item.filter is None
            &&& !(item.leaf() is Scalar)
            &&& pairs_up(of, known, sides, now, item.leaf(), w)
        },
{
    match known.star().number(item, per_key, known.plans, out, at) {
        Err(_) => {},
        Ok((now, of)) => match item.leaf() {
            ProjView::Count => {
                lemma_counts_pair_up(known, sides, out, w);
                assert(known.plans[0] < out.len());
            },
            ProjView::Agg { func, field } => {
                lemma_side(known.select, field, item.at);
                let side = side_of(known.star().sides, field, item.at)->Ok_0;
                lemma_sides(known.select);
                assert(known.star().sides[side as int].table == table_at(
                    known.select,
                    side as int,
                ));
                let call = known.star().aggregates(side as int, func, field);
                let table = table_at(known.select, side as int);
                asking_is_frugal(out, at, table, call);
                lemma_still_counted(known, out, now);
                let plan = of->Paired_plan;
                assert forall|keys: Seq<int>| all_held(
                    sides,
                    now,
                    keys,
                    w,
                ) implies #[trigger] join_figure(of, sides, now, keys, w) == join_comes(
                    item.leaf(),
                    known.select,
                    keys,
                    w,
                ) by {
                    if func is Sum {
                        lemma_pair_sums(
                            known,
                            sides,
                            now,
                            plan as int,
                            side as int,
                            field,
                            keys,
                            w,
                        );
                    } else {
                        lemma_pair_extremes(
                            known,
                            sides,
                            now,
                            plan as int,
                            side as int,
                            func,
                            field,
                            keys,
                            w,
                        );
                    }
                }
            },
            ProjView::Avg(field) => {
                lemma_side(known.select, field, item.at);
                let side = side_of(known.star().sides, field, item.at)->Ok_0;
                lemma_sides(known.select);
                assert(known.star().sides[side as int].table == table_at(
                    known.select,
                    side as int,
                ));
                let call = known.star().aggregates(side as int, Agg::Sum, field);
                let table = table_at(known.select, side as int);
                asking_is_frugal(out, at, table, call);
                lemma_still_counted(known, out, now);
                let top = of->PairedRatio_top;
                assert(known.plans[side as int] < now.len());
                assert forall|keys: Seq<int>| all_held(
                    sides,
                    now,
                    keys,
                    w,
                ) implies #[trigger] join_figure(of, sides, now, keys, w) == join_comes(
                    item.leaf(),
                    known.select,
                    keys,
                    w,
                ) by {
                    lemma_pair_sums(
                        known,
                        sides,
                        now,
                        top as int,
                        side as int,
                        field,
                        keys,
                        w,
                    );
                    lemma_pair_counts(known, sides, now, side as int, keys, w);
                }
            },
            ProjView::CountDistinct(field) => {
                assert forall|keys: Seq<int>| all_held(
                    sides,
                    now,
                    keys,
                    w,
                ) implies #[trigger] join_figure(of, sides, now, keys, w) == join_comes(
                    item.leaf(),
                    known.select,
                    keys,
                    w,
                ) by {
                    lemma_shared(known, sides, now, keys, w);
                }
            },
            _ => {},
        },
    }
}

/// Tables stay counted when more is asked.
pub proof fn lemma_still_counted(known: Known, calls: Seq<AskView>, more: Seq<AskView>)
    requires
        known.counted(calls),
        calls.is_prefix_of(more),
    ensures
        known.counted(more),
{
    assert forall|k: int| 0 <= k < width(known.select) implies (#[trigger] known.plans[k])
        < more.len() && more[known.plans[k] as int] == (AskView {
        table: table_at(known.select, k),
        call: known.star().counts(k),
    }) by {
        let plan = known.plans[k] as int;
        assert(plan < calls.len());
        assert(more.subrange(0, calls.len() as int)[plan] == more[plan]);
    }
}

} // verus!
