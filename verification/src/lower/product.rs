//! Arithmetic over the combinations of records of several tables.

use vstd::prelude::*;
use crate::lower::model::{greatest, held, is_greatest, is_least, least, total, Stored};

verus! {

/// A record more at the end of a combination, each of some records in turn.
pub open spec fn each_after(t: Seq<int>, rs: Seq<int>) -> Seq<Seq<int>>
    decreases rs.len(),
{
    if rs.len() == 0 {
        Seq::empty()
    } else {
        each_after(t, rs.drop_last()).push(t.push(rs.last()))
    }
}

/// A record more at the end of each of some combinations.
pub open spec fn spread(ts: Seq<Seq<int>>, rs: Seq<int>) -> Seq<Seq<int>>
    decreases ts.len(),
{
    if ts.len() == 0 {
        Seq::empty()
    } else {
        spread(ts.drop_last(), rs) + each_after(ts.last(), rs)
    }
}

/// Every combination of one record of each list.
pub open spec fn tuples(lists: Seq<Seq<int>>) -> Seq<Seq<int>>
    decreases lists.len(),
{
    if lists.len() == 0 {
        seq![Seq::empty()]
    } else {
        spread(tuples(lists.drop_last()), lists.last())
    }
}

/// The numbers that one record of each of some combinations holds in a field.
pub open spec fn numbers_in(
    w: Stored,
    table: Seq<char>,
    ts: Seq<Seq<int>>,
    side: int,
    field: Seq<char>,
) -> Seq<int>
    decreases ts.len(),
{
    if ts.len() == 0 {
        Seq::empty()
    } else {
        let before = numbers_in(w, table, ts.drop_last(), side, field);
        match (w.number)(table, ts.last()[side], field) {
            Some(v) => before.push(v),
            None => before,
        }
    }
}

/// How many combinations there are of the first `n` lists but one.
pub open spec fn others(lists: Seq<Seq<int>>, side: int, n: int) -> int
    decreases n,
{
    if n <= 0 {
        1
    } else if n - 1 == side {
        others(lists, side, n - 1)
    } else {
        others(lists, side, n - 1) * lists[n - 1].len()
    }
}

// Sums.

pub proof fn lemma_total_add(a: Seq<int>, b: Seq<int>)
    ensures
        total(a + b) == total(a) + total(b),
    decreases b.len(),
{
    if b.len() == 0 {
        assert(a + b =~= a);
    } else {
        lemma_total_add(a, b.drop_last());
        assert((a + b).drop_last() =~= a + b.drop_last());
        assert((a + b).last() == b.last());
    }
}

pub proof fn lemma_numbers_add(
    w: Stored,
    table: Seq<char>,
    a: Seq<Seq<int>>,
    b: Seq<Seq<int>>,
    side: int,
    field: Seq<char>,
)
    ensures
        numbers_in(w, table, a + b, side, field) == numbers_in(w, table, a, side, field)
            + numbers_in(w, table, b, side, field),
    decreases b.len(),
{
    if b.len() == 0 {
        assert(a + b =~= a);
        assert(numbers_in(w, table, a, side, field) + Seq::<int>::empty() =~= numbers_in(
            w,
            table,
            a,
            side,
            field,
        ));
    } else {
        lemma_numbers_add(w, table, a, b.drop_last(), side, field);
        assert((a + b).drop_last() =~= a + b.drop_last());
        assert((a + b).last() == b.last());
        assert(numbers_in(w, table, a + b, side, field) =~= numbers_in(w, table, a, side, field)
            + numbers_in(w, table, b, side, field));
    }
}

/// The last record of each combination.
proof fn lemma_block_last(
    w: Stored,
    table: Seq<char>,
    t: Seq<int>,
    rs: Seq<int>,
    field: Seq<char>,
)
    ensures
        numbers_in(w, table, each_after(t, rs), t.len() as int, field) == held(w, table, rs, field),
        each_after(t, rs).len() == rs.len(),
    decreases rs.len(),
{
    if rs.len() > 0 {
        lemma_block_last(w, table, t, rs.drop_last(), field);
        let now = each_after(t, rs);
        assert(now.drop_last() =~= each_after(t, rs.drop_last()));
        assert(now.last()[t.len() as int] == rs.last());
    }
}

/// An earlier record of each combination, as often as there are later ones.
proof fn lemma_block_first(
    w: Stored,
    table: Seq<char>,
    t: Seq<int>,
    rs: Seq<int>,
    side: int,
    field: Seq<char>,
)
    requires
        0 <= side < t.len(),
    ensures
        total(numbers_in(w, table, each_after(t, rs), side, field)) == (match (w.number)(
            table,
            t[side],
            field,
        ) {
            Some(v) => v * rs.len(),
            None => 0,
        }),
    decreases rs.len(),
{
    if rs.len() > 0 {
        lemma_block_first(w, table, t, rs.drop_last(), side, field);
        let now = each_after(t, rs);
        assert(now.drop_last() =~= each_after(t, rs.drop_last()));
        assert(now.last()[side] == t[side]);
        if let Some(v) = (w.number)(table, t[side], field) {
            let before = numbers_in(w, table, each_after(t, rs.drop_last()), side, field);
            assert(before.push(v).drop_last() =~= before);
            assert(v * rs.len() == v * (rs.len() - 1) + v) by (nonlinear_arith);
        }
    } else {
        if let Some(v) = (w.number)(table, t[side], field) {
            assert(v * 0 == 0) by (nonlinear_arith);
        }
    }
}

/// Whether every combination has so many records.
pub open spec fn wide(ts: Seq<Seq<int>>, n: nat) -> bool {
    forall|k: int| 0 <= k < ts.len() ==> (#[trigger] ts[k]).len() == n
}

proof fn lemma_each_wide(t: Seq<int>, rs: Seq<int>)
    ensures
        wide(each_after(t, rs), t.len() + 1),
        each_after(t, rs).len() == rs.len(),
    decreases rs.len(),
{
    if rs.len() > 0 {
        lemma_each_wide(t, rs.drop_last());
    }
}

proof fn lemma_spread_wide(ts: Seq<Seq<int>>, rs: Seq<int>, n: nat)
    requires
        wide(ts, n),
    ensures
        wide(spread(ts, rs), n + 1),
        spread(ts, rs).len() == ts.len() * rs.len(),
    decreases ts.len(),
{
    if ts.len() > 0 {
        assert(wide(ts.drop_last(), n));
        lemma_spread_wide(ts.drop_last(), rs, n);
        lemma_each_wide(ts.last(), rs);
        let a = spread(ts.drop_last(), rs);
        let b = each_after(ts.last(), rs);
        assert forall|k: int| 0 <= k < (a + b).len() implies (#[trigger] (a + b)[k]).len() == n
            + 1 by {
            if k < a.len() {
                assert((a + b)[k] == a[k]);
            } else {
                assert((a + b)[k] == b[k - a.len()]);
            }
        }
        assert(ts.len() * rs.len() == (ts.len() - 1) * rs.len() + rs.len()) by (nonlinear_arith);
    } else {
        assert(0 * rs.len() == 0) by (nonlinear_arith);
    }
}

pub proof fn lemma_tuples_wide(lists: Seq<Seq<int>>)
    ensures
        wide(tuples(lists), lists.len()),
    decreases lists.len(),
{
    if lists.len() > 0 {
        lemma_tuples_wide(lists.drop_last());
        lemma_spread_wide(tuples(lists.drop_last()), lists.last(), (lists.len() - 1) as nat);
    }
}

/// There are as many combinations as the product of what there is of each.
pub proof fn lemma_tuples_count(lists: Seq<Seq<int>>)
    ensures
        tuples(lists).len() == others(lists, -1, lists.len() as int),
    decreases lists.len(),
{
    if lists.len() > 0 {
        let before = lists.drop_last();
        lemma_tuples_count(before);
        lemma_tuples_wide(before);
        lemma_spread_wide(tuples(before), lists.last(), before.len());
        lemma_others_same(lists, before, -1, before.len() as int);
    }
}

proof fn lemma_others_same(a: Seq<Seq<int>>, b: Seq<Seq<int>>, side: int, n: int)
    requires
        n <= a.len(),
        n <= b.len(),
        forall|k: int| 0 <= k < n ==> #[trigger] a[k] == b[k],
    ensures
        others(a, side, n) == others(b, side, n),
    decreases n,
{
    if n > 0 {
        lemma_others_same(a, b, side, n - 1);
        assert(a[n - 1] == b[n - 1]);
    }
}

/// What one list adds to the combinations of the others.
pub proof fn lemma_others_with(lists: Seq<Seq<int>>, side: int, n: int)
    requires
        0 <= side < n <= lists.len(),
    ensures
        others(lists, -1, n) == lists[side].len() * others(lists, side, n),
    decreases n,
{
    if n - 1 == side {
        lemma_others_before(lists, side, n - 1);
        let a = others(lists, -1, n - 1);
        let b = lists[n - 1].len() as int;
        assert(a * b == b * a) by (nonlinear_arith);
    } else {
        lemma_others_with(lists, side, n - 1);
        let x = lists[side].len() as int;
        let y = others(lists, side, n - 1);
        let z = lists[n - 1].len() as int;
        assert((x * y) * z == x * (y * z)) by (nonlinear_arith);
    }
}

proof fn lemma_others_before(lists: Seq<Seq<int>>, side: int, n: int)
    requires
        n <= side,
        0 <= side,
    ensures
        others(lists, -1, n) == others(lists, side, n),
    decreases n,
{
    if n > 0 {
        lemma_others_before(lists, side, n - 1);
    }
}

/// The sum of what earlier records hold is scaled by how many follow each.
proof fn lemma_spread_first(
    w: Stored,
    table: Seq<char>,
    ts: Seq<Seq<int>>,
    rs: Seq<int>,
    side: int,
    n: nat,
    field: Seq<char>,
)
    requires
        wide(ts, n),
        0 <= side < n,
    ensures
        total(numbers_in(w, table, spread(ts, rs), side, field)) == total(
            numbers_in(w, table, ts, side, field),
        ) * rs.len(),
    decreases ts.len(),
{
    if ts.len() > 0 {
        let before = ts.drop_last();
        assert(wide(before, n));
        lemma_spread_first(w, table, before, rs, side, n, field);
        assert(ts.last().len() == n);
        lemma_block_first(w, table, ts.last(), rs, side, field);
        let a = spread(before, rs);
        let b = each_after(ts.last(), rs);
        lemma_numbers_add(w, table, a, b, side, field);
        lemma_total_add(
            numbers_in(w, table, a, side, field),
            numbers_in(w, table, b, side, field),
        );
        let x = total(numbers_in(w, table, before, side, field));
        let m = rs.len() as int;
        match (w.number)(table, ts.last()[side], field) {
            Some(v) => {
                let s = numbers_in(w, table, before, side, field);
                assert(s.push(v).drop_last() =~= s);
                assert((x + v) * m == x * m + v * m) by (nonlinear_arith);
            },
            None => {},
        }
    } else {
        assert(0 * rs.len() == 0) by (nonlinear_arith);
    }
}

/// The sum of what the last records hold is taken once for each combination before them.
proof fn lemma_spread_last(
    w: Stored,
    table: Seq<char>,
    ts: Seq<Seq<int>>,
    rs: Seq<int>,
    n: nat,
    field: Seq<char>,
)
    requires
        wide(ts, n),
    ensures
        total(numbers_in(w, table, spread(ts, rs), n as int, field)) == total(
            held(w, table, rs, field),
        ) * ts.len(),
    decreases ts.len(),
{
    let x = total(held(w, table, rs, field));
    if ts.len() > 0 {
        let before = ts.drop_last();
        assert(wide(before, n));
        lemma_spread_last(w, table, before, rs, n, field);
        assert(ts.last().len() == n);
        lemma_block_last(w, table, ts.last(), rs, field);
        let a = spread(before, rs);
        let b = each_after(ts.last(), rs);
        lemma_numbers_add(w, table, a, b, n as int, field);
        lemma_total_add(
            numbers_in(w, table, a, n as int, field),
            numbers_in(w, table, b, n as int, field),
        );
        assert(x * ts.len() == x * (ts.len() - 1) + x) by (nonlinear_arith);
    } else {
        assert(x * 0 == 0) by (nonlinear_arith);
    }
}

/// The sum of a column over all combinations is the sum over its own records, times the number of
/// combinations of the others.
pub proof fn lemma_tuples_total(
    w: Stored,
    table: Seq<char>,
    lists: Seq<Seq<int>>,
    side: int,
    field: Seq<char>,
)
    requires
        0 <= side < lists.len(),
    ensures
        total(numbers_in(w, table, tuples(lists), side, field)) == total(
            held(w, table, lists[side], field),
        ) * others(lists, side, lists.len() as int),
    decreases lists.len(),
{
    let before = lists.drop_last();
    let n = before.len();
    let ts = tuples(before);
    lemma_tuples_wide(before);
    lemma_others_same(lists, before, side, n as int);
    if side == n {
        lemma_spread_last(w, table, ts, lists.last(), n, field);
        lemma_tuples_count(before);
        lemma_others_before(lists, side, n as int);
        lemma_others_same(lists, before, -1, n as int);
    } else {
        lemma_spread_first(w, table, ts, lists.last(), side, n, field);
        lemma_tuples_total(w, table, before, side, field);
        let x = total(held(w, table, lists[side], field));
        let y = others(lists, side, n as int);
        let z = lists.last().len() as int;
        assert((x * y) * z == x * (y * z)) by (nonlinear_arith);
    }
}

// Least and greatest.

/// Whether two lists hold the same numbers, however often.
pub open spec fn same_numbers(a: Seq<int>, b: Seq<int>) -> bool {
    forall|x: int| #[trigger] a.contains(x) == b.contains(x)
}

pub proof fn lemma_least_is(s: Seq<int>)
    requires
        s.len() > 0,
    ensures
        least(s) is Some,
        is_least(least(s)->0, s),
    decreases s.len(),
{
    let before = s.drop_last();
    if before.len() > 0 {
        lemma_least_is(before);
        let x = least(before)->0;
        let i = choose|i: int| 0 <= i < before.len() && before[i] == x;
        assert(s[i] == x);
        if x <= s.last() {
            assert forall|k: int| 0 <= k < s.len() implies x <= #[trigger] s[k] by {
                if k < before.len() {
                    assert(before[k] == s[k]);
                }
            }
            assert(is_least(x, s));
        } else {
            assert forall|k: int| 0 <= k < s.len() implies s.last() <= #[trigger] s[k] by {
                if k < before.len() {
                    assert(before[k] == s[k]);
                }
            }
            assert(s[s.len() - 1] == s.last());
            assert(is_least(s.last(), s));
        }
    } else {
        assert(s[0] == s.last());
        assert(is_least(s.last(), s));
    }
}

pub proof fn lemma_greatest_is(s: Seq<int>)
    requires
        s.len() > 0,
    ensures
        greatest(s) is Some,
        is_greatest(greatest(s)->0, s),
    decreases s.len(),
{
    let before = s.drop_last();
    if before.len() > 0 {
        lemma_greatest_is(before);
        let x = greatest(before)->0;
        let i = choose|i: int| 0 <= i < before.len() && before[i] == x;
        assert(s[i] == x);
        if x >= s.last() {
            assert forall|k: int| 0 <= k < s.len() implies #[trigger] s[k] <= x by {
                if k < before.len() {
                    assert(before[k] == s[k]);
                }
            }
            assert(is_greatest(x, s));
        } else {
            assert forall|k: int| 0 <= k < s.len() implies #[trigger] s[k] <= s.last() by {
                if k < before.len() {
                    assert(before[k] == s[k]);
                }
            }
            assert(s[s.len() - 1] == s.last());
            assert(is_greatest(s.last(), s));
        }
    } else {
        assert(s[0] == s.last());
        assert(is_greatest(s.last(), s));
    }
}

/// The least of some numbers is the only number that is.
pub proof fn lemma_least_only(x: int, s: Seq<int>)
    requires
        is_least(x, s),
    ensures
        least(s) == Some(x),
{
    let i = choose|i: int| 0 <= i < s.len() && s[i] == x;
    lemma_least_is(s);
    let y = least(s)->0;
    let j = choose|j: int| 0 <= j < s.len() && s[j] == y;
    assert(y <= s[i]);
    assert(x <= s[j]);
}

/// The greatest of some numbers is the only number that is.
pub proof fn lemma_greatest_only(x: int, s: Seq<int>)
    requires
        is_greatest(x, s),
    ensures
        greatest(s) == Some(x),
{
    let i = choose|i: int| 0 <= i < s.len() && s[i] == x;
    lemma_greatest_is(s);
    let y = greatest(s)->0;
    let j = choose|j: int| 0 <= j < s.len() && s[j] == y;
    assert(s[i] <= y);
    assert(s[j] <= x);
}

/// Lists of the same numbers have the same least and greatest.
pub proof fn lemma_same_extremes(a: Seq<int>, b: Seq<int>)
    requires
        same_numbers(a, b),
    ensures
        least(a) == least(b),
        greatest(a) == greatest(b),
{
    if a.len() > 0 {
        assert(a.contains(a[0]));
        assert(b.contains(a[0]));
        lemma_least_is(a);
        lemma_greatest_is(a);
        let x = least(a)->0;
        let y = greatest(a)->0;
        assert(b.contains(x) && b.contains(y));
        assert forall|k: int| 0 <= k < b.len() implies x <= #[trigger] b[k] && b[k] <= y by {
            assert(b.contains(b[k]));
            assert(a.contains(b[k]));
        }
        assert(is_least(x, b));
        assert(is_greatest(y, b));
        lemma_least_only(x, b);
        lemma_greatest_only(y, b);
    } else if b.len() > 0 {
        assert(b.contains(b[0]));
        assert(a.contains(b[0]));
    }
}

/// A number is in a list of what combinations hold where one of them holds it.
pub proof fn lemma_numbers_hold(
    w: Stored,
    table: Seq<char>,
    ts: Seq<Seq<int>>,
    side: int,
    field: Seq<char>,
    x: int,
)
    ensures
        numbers_in(w, table, ts, side, field).contains(x) == (exists|k: int|
            0 <= k < ts.len() && (w.number)(table, (#[trigger] ts[k])[side], field) == Some(x)),
    decreases ts.len(),
{
    if ts.len() > 0 {
        let before = ts.drop_last();
        lemma_numbers_hold(w, table, before, side, field, x);
        let s = numbers_in(w, table, before, side, field);
        let now = numbers_in(w, table, ts, side, field);
        if now.contains(x) {
            let i = choose|i: int| 0 <= i < now.len() && now[i] == x;
            if i < s.len() {
                assert(s[i] == x);
                let k = choose|k: int|
                    0 <= k < before.len() && (w.number)(
                        table,
                        (#[trigger] before[k])[side],
                        field,
                    ) == Some(x);
                assert(ts[k] == before[k]);
            } else {
                assert(ts[ts.len() - 1] == ts.last());
            }
        }
        if exists|k: int|
            0 <= k < ts.len() && (w.number)(table, (#[trigger] ts[k])[side], field) == Some(x) {
            let k = choose|k: int|
                0 <= k < ts.len() && (w.number)(table, (#[trigger] ts[k])[side], field) == Some(x);
            if k < before.len() {
                assert(before[k] == ts[k]);
                let i = choose|i: int| 0 <= i < s.len() && s[i] == x;
                assert(now[i] == x);
            } else {
                assert(now[s.len() as int] == x);
            }
        }
    }
}

pub proof fn lemma_held_hold(
    w: Stored,
    table: Seq<char>,
    rs: Seq<int>,
    field: Seq<char>,
    x: int,
)
    ensures
        held(w, table, rs, field).contains(x) == (exists|k: int|
            0 <= k < rs.len() && (w.number)(table, #[trigger] rs[k], field) == Some(x)),
    decreases rs.len(),
{
    if rs.len() > 0 {
        let before = rs.drop_last();
        lemma_held_hold(w, table, before, field, x);
        let s = held(w, table, before, field);
        let now = held(w, table, rs, field);
        if now.contains(x) {
            let i = choose|i: int| 0 <= i < now.len() && now[i] == x;
            if i < s.len() {
                assert(s[i] == x);
                let k = choose|k: int|
                    0 <= k < before.len() && (w.number)(table, #[trigger] before[k], field)
                        == Some(x);
                assert(rs[k] == before[k]);
            } else {
                assert(rs[rs.len() - 1] == rs.last());
            }
        }
        if exists|k: int| 0 <= k < rs.len() && (w.number)(table, #[trigger] rs[k], field) == Some(x) {
            let k = choose|k: int|
                0 <= k < rs.len() && (w.number)(table, #[trigger] rs[k], field) == Some(x);
            if k < before.len() {
                assert(before[k] == rs[k]);
                let i = choose|i: int| 0 <= i < s.len() && s[i] == x;
                assert(now[i] == x);
            } else {
                assert(now[s.len() as int] == x);
            }
        }
    }
}

/// A record is in some combination where it is in its list and no other list is empty.
pub proof fn lemma_tuples_reach(lists: Seq<Seq<int>>, side: int, r: int)
    requires
        0 <= side < lists.len(),
        forall|k: int| 0 <= k < lists.len() ==> (#[trigger] lists[k]).len() > 0,
    ensures
        lists[side].contains(r) == (exists|k: int|
            0 <= k < tuples(lists).len() && (#[trigger] tuples(lists)[k])[side] == r),
        tuples(lists).len() > 0,
    decreases lists.len(),
{
    let before = lists.drop_last();
    let n = before.len();
    let ts = tuples(before);
    let rs = lists.last();
    lemma_tuples_wide(before);
    assert forall|k: int| 0 <= k < before.len() implies (#[trigger] before[k]).len() > 0 by {
        assert(before[k] == lists[k]);
    }
    assert(lists[lists.len() - 1].len() > 0);
    if n > 0 {
        lemma_tuples_reach(before, 0, before[0][0]);
    }
    assert(ts.len() > 0);
    lemma_spread_reach(ts, rs, side, n, r);
    assert(tuples(lists) == spread(ts, rs));
    if side < n {
        lemma_tuples_reach(before, side, r);
        assert(lists[side] == before[side]);
    } else {
        assert(lists[side] == rs);
    }
}

/// What a record more leaves of the records of each combination.
proof fn lemma_spread_reach(ts: Seq<Seq<int>>, rs: Seq<int>, side: int, n: nat, r: int)
    requires
        wide(ts, n),
        0 <= side <= n,
        rs.len() > 0,
        ts.len() > 0,
    ensures
        spread(ts, rs).len() > 0,
        (exists|k: int| 0 <= k < spread(ts, rs).len() && (#[trigger] spread(ts, rs)[k])[side] == r)
            == if side == n {
            rs.contains(r)
        } else {
            exists|k: int| 0 <= k < ts.len() && (#[trigger] ts[k])[side] == r
        },
    decreases ts.len(),
{
    let before = ts.drop_last();
    let a = spread(before, rs);
    let b = each_after(ts.last(), rs);
    let now = spread(ts, rs);
    lemma_each_at(ts.last(), rs);
    assert(ts.last().len() == n);
    assert(now == a + b);
    assert(wide(before, n));
    if before.len() > 0 {
        lemma_spread_reach(before, rs, side, n, r);
    }
    if exists|k: int| 0 <= k < now.len() && (#[trigger] now[k])[side] == r {
        let k = choose|k: int| 0 <= k < now.len() && (#[trigger] now[k])[side] == r;
        if k < a.len() {
            assert(a[k] == now[k]);
            if side < n {
                let i = choose|i: int| 0 <= i < before.len() && (#[trigger] before[i])[side] == r;
                assert(ts[i] == before[i]);
            }
        } else {
            assert(now[k] == b[k - a.len()]);
            if side < n {
                assert(ts[ts.len() - 1][side] == r);
            } else {
                assert(rs[k - a.len()] == r);
            }
        }
    }
    if side == n && rs.contains(r) {
        let i = choose|i: int| 0 <= i < rs.len() && rs[i] == r;
        assert(now[a.len() + i] == b[i]);
    }
    if side < n && exists|k: int| 0 <= k < ts.len() && (#[trigger] ts[k])[side] == r {
        let k = choose|k: int| 0 <= k < ts.len() && (#[trigger] ts[k])[side] == r;
        if k < before.len() {
            assert(before[k] == ts[k]);
            let i = choose|i: int| 0 <= i < a.len() && (#[trigger] a[i])[side] == r;
            assert(now[i] == a[i]);
        } else {
            assert(now[a.len() as int] == b[0]);
        }
    }
    assert(now[a.len() as int] == b[0]);
}

proof fn lemma_each_at(t: Seq<int>, rs: Seq<int>)
    ensures
        each_after(t, rs).len() == rs.len(),
        forall|k: int| 0 <= k < rs.len() ==> #[trigger] each_after(t, rs)[k] == t.push(rs[k]),
    decreases rs.len(),
{
    if rs.len() > 0 {
        lemma_each_at(t, rs.drop_last());
        assert forall|k: int| 0 <= k < rs.len() implies #[trigger] each_after(t, rs)[k] == t.push(
            rs[k],
        ) by {
            if k < rs.len() - 1 {
                assert(each_after(t, rs.drop_last())[k] == t.push(rs.drop_last()[k]));
            }
        }
    }
}

/// A column holds the same numbers over all combinations as over its own records.
pub proof fn lemma_tuples_numbers(
    w: Stored,
    table: Seq<char>,
    lists: Seq<Seq<int>>,
    side: int,
    field: Seq<char>,
)
    requires
        0 <= side < lists.len(),
        forall|k: int| 0 <= k < lists.len() ==> (#[trigger] lists[k]).len() > 0,
    ensures
        same_numbers(
            numbers_in(w, table, tuples(lists), side, field),
            held(w, table, lists[side], field),
        ),
{
    let ts = tuples(lists);
    let rs = lists[side];
    let a = numbers_in(w, table, ts, side, field);
    let b = held(w, table, rs, field);
    assert forall|x: int| #[trigger] a.contains(x) == b.contains(x) by {
        lemma_numbers_hold(w, table, ts, side, field, x);
        lemma_held_hold(w, table, rs, field, x);
        if a.contains(x) {
            let k = choose|k: int|
                0 <= k < ts.len() && (w.number)(table, (#[trigger] ts[k])[side], field) == Some(x);
            lemma_tuples_reach(lists, side, ts[k][side]);
            let i = choose|i: int| 0 <= i < rs.len() && rs[i] == ts[k][side];
            assert((w.number)(table, rs[i], field) == Some(x));
        }
        if b.contains(x) {
            let i = choose|i: int|
                0 <= i < rs.len() && (w.number)(table, #[trigger] rs[i], field) == Some(x);
            lemma_tuples_reach(lists, side, rs[i]);
            assert(rs.contains(rs[i]));
            let k = choose|k: int| 0 <= k < ts.len() && (#[trigger] ts[k])[side] == rs[i];
            assert((w.number)(table, ts[k][side], field) == Some(x));
        }
    }
}

// Filtering.

proof fn lemma_filter_add(a: Seq<Seq<int>>, b: Seq<Seq<int>>, p: spec_fn(Seq<int>) -> bool)
    ensures
        (a + b).filter(p) == a.filter(p) + b.filter(p),
    decreases b.len(),
{
    reveal(Seq::filter);
    if b.len() == 0 {
        assert(a + b =~= a);
        assert(a.filter(p) + b.filter(p) =~= a.filter(p));
    } else {
        lemma_filter_add(a, b.drop_last(), p);
        assert((a + b).drop_last() =~= a + b.drop_last());
        assert((a + b).last() == b.last());
        assert((a + b).filter(p) =~= a.filter(p) + b.filter(p));
    }
}

proof fn lemma_filter_each(
    t: Seq<int>,
    rs: Seq<int>,
    p: spec_fn(Seq<int>) -> bool,
    first: bool,
    q: spec_fn(int) -> bool,
)
    requires
        forall|r: int| #[trigger] p(t.push(r)) == (first && q(r)),
    ensures
        each_after(t, rs).filter(p) == if first {
            each_after(t, rs.filter(q))
        } else {
            Seq::empty()
        },
    decreases rs.len(),
{
    reveal(Seq::filter);
    if rs.len() > 0 {
        lemma_filter_each(t, rs.drop_last(), p, first, q);
        let now = each_after(t, rs);
        assert(now.drop_last() =~= each_after(t, rs.drop_last()));
        assert(now.last() == t.push(rs.last()));
        assert(p(t.push(rs.last())) == (first && q(rs.last())));
        if first && q(rs.last()) {
            let kept = rs.drop_last().filter(q);
            assert(kept.push(rs.last()).drop_last() =~= kept);
        }
    }
}

proof fn lemma_filter_spread(
    ts: Seq<Seq<int>>,
    rs: Seq<int>,
    n: nat,
    p: spec_fn(Seq<int>) -> bool,
    first: spec_fn(Seq<int>) -> bool,
    q: spec_fn(int) -> bool,
)
    requires
        wide(ts, n),
        forall|t: Seq<int>, r: int| t.len() == n ==> #[trigger] p(t.push(r)) == (first(t) && q(r)),
    ensures
        spread(ts, rs).filter(p) == spread(ts.filter(first), rs.filter(q)),
    decreases ts.len(),
{
    reveal(Seq::filter);
    if ts.len() > 0 {
        let before = ts.drop_last();
        assert(wide(before, n));
        lemma_filter_spread(before, rs, n, p, first, q);
        assert(ts.last().len() == n);
        lemma_filter_each(ts.last(), rs, p, first(ts.last()), q);
        lemma_filter_add(spread(before, rs), each_after(ts.last(), rs), p);
        let kept = before.filter(first);
        if first(ts.last()) {
            assert(kept.push(ts.last()).drop_last() =~= kept);
        } else {
            assert(spread(kept, rs.filter(q)) + Seq::<Seq<int>>::empty() =~= spread(
                kept,
                rs.filter(q),
            ));
        }
    }
}

/// The combinations that something is true of, where it is true of a combination if it is of each
/// of its records, are the combinations of the records it is true of.
pub proof fn lemma_filter_tuples(
    lists: Seq<Seq<int>>,
    p: spec_fn(Seq<int>) -> bool,
    q: spec_fn(int, int) -> bool,
)
    requires
        forall|t: Seq<int>|
            t.len() == lists.len() ==> #[trigger] p(t) == (forall|k: int|
                0 <= k < lists.len() ==> #[trigger] q(k, t[k])),
    ensures
        tuples(lists).filter(p) == tuples(
            Seq::new(lists.len(), |k: int| lists[k].filter(|r: int| q(k, r))),
        ),
    decreases lists.len(),
{
    let kept = Seq::new(lists.len(), |k: int| lists[k].filter(|r: int| q(k, r)));
    if lists.len() == 0 {
        reveal(Seq::filter);
        let none = Seq::<int>::empty();
        assert(p(none));
        assert(tuples(lists).drop_last() =~= Seq::<Seq<int>>::empty());
        assert(tuples(lists).last() == none);
        assert(Seq::<Seq<int>>::empty().filter(p) =~= Seq::empty());
        assert(tuples(lists).filter(p) =~= seq![none]);
        assert(tuples(kept) =~= seq![none]);
    } else {
        let before = lists.drop_last();
        let n = before.len();
        let first = |t: Seq<int>| forall|k: int| 0 <= k < n ==> #[trigger] q(k, t[k]);
        let last = |r: int| q(n as int, r);
        lemma_filter_tuples(before, first, q);
        lemma_tuples_wide(before);
        assert forall|t: Seq<int>, r: int| t.len() == n implies #[trigger] p(t.push(r)) == (first(t)
            && last(r)) by {
            let u = t.push(r);
            assert(u[n as int] == r);
            assert forall|k: int| 0 <= k < n implies u[k] == t[k] by {}
            if p(u) {
                assert(q(n as int, u[n as int]));
                assert forall|k: int| 0 <= k < n implies #[trigger] q(k, t[k]) by {
                    assert(q(k, u[k]));
                }
            }
            if first(t) && last(r) {
                assert forall|k: int| 0 <= k < lists.len() implies #[trigger] q(k, u[k]) by {
                    if k < n {
                        assert(q(k, t[k]));
                    }
                }
            }
        }
        lemma_filter_spread(tuples(before), lists.last(), n, p, first, last);
        let fewer = Seq::new(before.len(), |k: int| before[k].filter(|r: int| q(k, r)));
        assert(kept.drop_last() =~= fewer);
        assert((|r: int| q(n as int, r)) =~= last);
        assert(kept.last() == lists.last().filter(last));
    }
}

/// The lesser of two numbers that may be absent.
pub open spec fn lesser(a: Option<int>, b: Option<int>) -> Option<int> {
    match (a, b) {
        (Some(x), Some(y)) => Some(
            if x <= y {
                x
            } else {
                y
            },
        ),
        (None, y) => y,
        (x, None) => x,
    }
}

/// The greater of two numbers that may be absent.
pub open spec fn greater(a: Option<int>, b: Option<int>) -> Option<int> {
    match (a, b) {
        (Some(x), Some(y)) => Some(
            if x >= y {
                x
            } else {
                y
            },
        ),
        (None, y) => y,
        (x, None) => x,
    }
}

/// The least and the greatest of two lists together.
pub proof fn lemma_extremes_add(a: Seq<int>, b: Seq<int>)
    ensures
        least(a + b) == lesser(least(a), least(b)),
        greatest(a + b) == greater(greatest(a), greatest(b)),
{
    let c = a + b;
    if a.len() == 0 {
        assert(c =~= b);
    } else if b.len() == 0 {
        assert(c =~= a);
    } else {
        lemma_least_is(a);
        lemma_least_is(b);
        lemma_greatest_is(a);
        lemma_greatest_is(b);
        let x = lesser(least(a), least(b))->0;
        let y = greater(greatest(a), greatest(b))->0;
        assert forall|k: int| 0 <= k < c.len() implies x <= #[trigger] c[k] && c[k] <= y by {
            if k < a.len() {
                assert(c[k] == a[k]);
            } else {
                assert(c[k] == b[k - a.len()]);
            }
        }
        let i = choose|i: int| 0 <= i < a.len() && a[i] == least(a)->0;
        let j = choose|j: int| 0 <= j < b.len() && b[j] == least(b)->0;
        assert(c[i] == a[i] && c[a.len() + j] == b[j]);
        let m = choose|m: int| 0 <= m < a.len() && a[m] == greatest(a)->0;
        let n = choose|n: int| 0 <= n < b.len() && b[n] == greatest(b)->0;
        assert(c[m] == a[m] && c[a.len() + n] == b[n]);
        lemma_least_only(x, c);
        lemma_greatest_only(y, c);
    }
}

/// One number is the least and the greatest of itself.
pub proof fn lemma_extremes_push(s: Seq<int>, v: int)
    ensures
        least(s.push(v)) == lesser(least(s), Some(v)),
        greatest(s.push(v)) == greater(greatest(s), Some(v)),
{
    let one = seq![v];
    assert(one[0] == v);
    assert(one.contains(v));
    lemma_least_only(v, one);
    lemma_greatest_only(v, one);
    lemma_extremes_add(s, one);
    assert(s + one =~= s.push(v));
}

} // verus!
