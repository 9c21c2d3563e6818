//! `GROUP BY`: its terms, and the sets of them a `ROLLUP`, `CUBE` or `GROUPING SETS` names.

use vstd::prelude::*;
use crate::ast::{Grouping, GroupingSets, GroupingSetsView, GroupingView, Proj};
use crate::civil::Unit;
use crate::error::{Refused, Result, SqlErrorView};
use crate::lex::{Tok, TokView};
use crate::parse::aggregate::{Leaf, LeafView};
use crate::parse::cursor::{expected, goes, moved, offset, refusal, seen, tok_is, word_at, Env, Out, Parser};
use crate::parse::scalar::read_climb;
use crate::pql::{Literal, LiteralView};
use crate::scalar::{Func, Scalar, ScalarView};
use crate::text::{same, views};

verus! {

/// How many columns one `GROUP BY` may name.
pub const MAX_GROUP_COLUMNS: usize = 4;

/// How many grouping sets one statement may name. Every set is a grouping of its own.
pub const MAX_GROUPING_SETS: usize = 8;

/// The boundary a `date_trunc` over a bare column names, when that is what an expression is.
pub open spec fn boundary_of(apply: Option<ScalarView>) -> Option<Unit> {
    match apply {
        Some(ScalarView::Call { func: Func::DateTrunc, args }) => if args.len() == 2 && args[1]
            == ScalarView::Value {
            match args[0] {
                ScalarView::Literal(LiteralView::Str(u)) => Unit::spelled(u),
                _ => None,
            }
        } else {
            None
        },
        _ => None,
    }
}

/// The boundary a `date_trunc` over a bare column names, when that is what it is.
pub fn bucket_of(apply: Option<&Scalar>) -> (r: Option<Unit>)
    ensures
        r == boundary_of(
            match apply {
                Some(x) => Some(x@),
                None => None,
            },
        ),
{
    match apply {
        Some(Scalar::Call { func, args }) => {
            assert(apply->Some_0@->Call_args =~= views(args@));
            if *func != Func::DateTrunc || args.len() != 2 || !args[1].is_identity() {
                return None;
            }
            match &args[0] {
                Scalar::Literal(Literal::Str(u)) => Unit::parse(u.as_str()),
                _ => None,
            }
        },
        _ => None,
    }
}

/// The list of positions below `n`.
pub open spec fn upto(n: nat) -> Seq<usize> {
    Seq::new(n, |i: int| i as usize)
}

/// `ROLLUP(a, b, c)`: every prefix, longest first.
pub open spec fn prefixes(n: nat) -> Seq<Seq<usize>> {
    Seq::new((n + 1) as nat, |k: int| upto((n - k) as nat))
}

/// The views of a list of lists.
pub open spec fn lists(v: Seq<Vec<usize>>) -> Seq<Seq<usize>> {
    v.map_values(|x: Vec<usize>| x@)
}

/// The list of positions below `n`.
pub fn positions(n: usize) -> (r: Vec<usize>)
    ensures
        r@ == upto(n as nat),
{
    let mut out: Vec<usize> = Vec::new();
    let mut i: usize = 0;
    assert(out@ =~= upto(0));
    while i < n
        invariant
            i <= n,
            out@ == upto(i as nat),
        decreases n - i,
    {
        out.push(i);
        i += 1;
        assert(out@ =~= upto(i as nat));
    }
    out
}

/// `ROLLUP(a, b, c)`: every prefix, longest first.
pub fn rollup(n: usize) -> (r: Vec<Vec<usize>>)
    requires
        n < usize::MAX,
    ensures
        lists(r@) == prefixes(n as nat),
{
    let mut out: Vec<Vec<usize>> = Vec::new();
    let mut k: usize = 0;
    while k <= n
        invariant
            k <= n + 1,
            n < usize::MAX,
            out@.len() == k,
            forall|j: int| 0 <= j < k ==> (#[trigger] out@[j])@ == upto((n - j) as nat),
        decreases n + 1 - k,
    {
        let len = n - k;
        let one = positions(len);
        out.push(one);
        k += 1;
    }
    assert(lists(out@) =~= prefixes(n as nat));
    out
}

/// Whether a list comes before another of the same length.
pub open spec fn list_before(a: Seq<usize>, b: Seq<usize>) -> bool
    decreases a.len(),
{
    if b.len() == 0 {
        false
    } else if a.len() == 0 {
        true
    } else if a[0] != b[0] {
        a[0] < b[0]
    } else {
        list_before(a.drop_first(), b.drop_first())
    }
}

/// Whether a set comes before another: longest first, and by position within a length.
pub open spec fn set_before(a: Seq<usize>, b: Seq<usize>) -> bool {
    a.len() > b.len() || (a.len() == b.len() && list_before(a, b))
}

/// A set put where it belongs in an ordered list.
pub open spec fn placed_in(sets: Seq<Seq<usize>>, x: Seq<usize>) -> Seq<Seq<usize>>
    decreases sets.len(),
{
    if sets.len() > 0 && set_before(x, sets.last()) {
        placed_in(sets.drop_last(), x).push(sets.last())
    } else {
        sets.push(x)
    }
}

/// Sets in the order their rows come out in.
pub open spec fn ordered(sets: Seq<Seq<usize>>) -> Seq<Seq<usize>>
    decreases sets.len(),
{
    if sets.len() == 0 {
        Seq::empty()
    } else {
        placed_in(ordered(sets.drop_last()), sets.last())
    }
}

proof fn lemma_list_before(a: Seq<usize>, b: Seq<usize>, c: Seq<usize>)
    ensures
        list_before(a, b) && list_before(b, c) ==> list_before(a, c),
        !list_before(a, a),
        a == b || list_before(a, b) || list_before(b, a),
    decreases a.len(),
{
    if a.len() > 0 {
        if b.len() > 0 {
            lemma_list_before(
                a.drop_first(),
                b.drop_first(),
                if c.len() > 0 {
                    c.drop_first()
                } else {
                    c
                },
            );
            if a[0] == b[0] && a.drop_first() == b.drop_first() {
                assert(a =~= seq![a[0]] + a.drop_first());
                assert(b =~= seq![b[0]] + b.drop_first());
            }
        } else {
            lemma_list_before(a.drop_first(), b, c);
        }
    } else if b.len() == 0 {
        assert(a =~= b);
    }
}

/// Whether no set of a list comes before one that stands earlier.
pub open spec fn in_order(sets: Seq<Seq<usize>>) -> bool {
    forall|i: int, j: int|
        #![trigger sets[i], sets[j]]
        0 <= i < j < sets.len() ==> !set_before(sets[j], sets[i])
}

proof fn lemma_placed_in(sets: Seq<Seq<usize>>, x: Seq<usize>)
    requires
        in_order(sets),
    ensures
        in_order(placed_in(sets, x)),
        placed_in(sets, x).to_multiset() == sets.push(x).to_multiset(),
        placed_in(sets, x).len() == sets.len() + 1,
    decreases sets.len(),
{
    broadcast use vstd::seq_lib::group_to_multiset_ensures;

    if sets.len() > 0 && set_before(x, sets.last()) {
        let rest = sets.drop_last();
        assert forall|i: int, j: int| 0 <= i < j < rest.len() implies !set_before(rest[j], rest[i]) by {
            assert(!set_before(sets[j], sets[i]));
        }
        lemma_placed_in(rest, x);
        let p = placed_in(rest, x);
        let r = p.push(sets.last());
        assert(sets =~= rest.push(sets.last()));
        assert(r.to_multiset() =~= sets.push(x).to_multiset());
        assert forall|i: int, j: int| 0 <= i < j < r.len() implies !set_before(r[j], r[i]) by {
            if j == r.len() - 1 {
                assert(p.contains(p[i]));
                assert(p.to_multiset().count(p[i]) > 0);
                assert(rest.push(x).to_multiset().count(p[i]) > 0);
                assert(rest.push(x).contains(p[i]));
                let k = choose|k: int| 0 <= k < rest.push(x).len() && rest.push(x)[k] == p[i];
                if k < rest.len() {
                    assert(!set_before(sets[sets.len() - 1], sets[k]));
                } else {
                    lemma_list_before(x, sets.last(), x);
                }
            } else {
                assert(!set_before(p[j], p[i]));
            }
        }
    } else {
        let r = sets.push(x);
        assert forall|i: int, j: int| 0 <= i < j < r.len() implies !set_before(r[j], r[i]) by {
            if j == r.len() - 1 {
                if set_before(x, sets[i]) {
                    lemma_list_before(x, sets[i], sets.last());
                    lemma_list_before(x, sets.last(), sets[i]);
                    lemma_list_before(sets[i], sets.last(), x);
                    if i < sets.len() - 1 {
                        assert(!set_before(sets[sets.len() - 1], sets[i]));
                    }
                }
            } else {
                assert(!set_before(sets[j], sets[i]));
            }
        }
    }
}

/// Ordering the sets of an answer loses none and adds none, and puts longer sets first and sets
/// of a length in the order of their positions.
pub proof fn ordered_sets_are_the_same_sets(sets: Seq<Seq<usize>>)
    ensures
        in_order(ordered(sets)),
        ordered(sets).to_multiset() == sets.to_multiset(),
        ordered(sets).len() == sets.len(),
    decreases sets.len(),
{
    broadcast use vstd::seq_lib::group_to_multiset_ensures;

    if sets.len() > 0 {
        ordered_sets_are_the_same_sets(sets.drop_last());
        lemma_placed_in(ordered(sets.drop_last()), sets.last());
        assert(sets =~= sets.drop_last().push(sets.last()));
        let o = ordered(sets.drop_last());
        assert(o.push(sets.last()).to_multiset() =~= o.to_multiset().insert(sets.last()));
        assert(sets.to_multiset() =~= sets.drop_last().to_multiset().insert(sets.last()));
    } else {
        assert(sets =~= Seq::<Seq<usize>>::empty());
    }
}

/// A rollup has one set more than it has columns, and they come in the order of the answer's
/// rows. A cube has a set for every choice of columns.
pub proof fn rollups_and_cubes_are_in_order(n: nat)
    requires
        n < 32,
    ensures
        prefixes(n).len() == n + 1,
        in_order(prefixes(n)),
        subsets(n).len() == 1u32 << (n as u32),
        in_order(subsets(n)),
{
    let all = Seq::new((1u32 << (n as u32)) as nat, |mask: int| members(mask as u32, n));
    ordered_sets_are_the_same_sets(all);
    let p = prefixes(n);
    assert forall|i: int, j: int| 0 <= i < j < p.len() implies !set_before(p[j], p[i]) by {
        assert(p[i].len() == n - i);
        assert(p[j].len() == n - j);
    }
}

/// Whether a list comes before another.
fn list_is_before(a: &Vec<usize>, b: &Vec<usize>) -> (r: bool)
    ensures
        r == list_before(a@, b@),
{
    let mut k: usize = 0;
    assert(a@.skip(0) =~= a@);
    assert(b@.skip(0) =~= b@);
    while k < a.len() && k < b.len()
        invariant
            k <= a@.len(),
            k <= b@.len(),
            list_before(a@, b@) == list_before(a@.skip(k as int), b@.skip(k as int)),
        decreases a.len() - k,
    {
        assert(a@.skip(k as int).drop_first() =~= a@.skip(k + 1));
        assert(b@.skip(k as int).drop_first() =~= b@.skip(k + 1));
        if a[k] != b[k] {
            return a[k] < b[k];
        }
        k += 1;
    }
    k < b.len()
}

/// Puts sets in the order their rows come out in: longest first, and by position within a
/// length.
pub fn sort_sets(of: Vec<Vec<usize>>) -> (r: Vec<Vec<usize>>)
    ensures
        lists(r@) == ordered(lists(of@)),
{
    let mut rest = of;
    let ghost all = lists(rest@);
    let ghost n = rest@.len();
    let mut out: Vec<Vec<usize>> = Vec::new();
    assert(all.take(0) =~= Seq::<Seq<usize>>::empty());
    assert(lists(out@) =~= Seq::<Seq<usize>>::empty());
    while rest.len() > 0
        invariant
            all.len() == n,
            rest@.len() <= n,
            lists(rest@) == all.skip(n - rest@.len()),
            lists(out@) == ordered(all.take(n - rest@.len())),
        decreases rest.len(),
    {
        let ghost done = n - rest@.len();
        let ghost was = lists(rest@);
        let ghost sorted = lists(out@);
        let x = rest.remove(0);
        proof {
            assert(x@ == was[0]);
            assert(was[0] == all[done]);
            assert(lists(rest@) =~= was.drop_first());
            assert(lists(rest@) =~= all.skip(done + 1));
            assert(all.take(done + 1).drop_last() =~= all.take(done));
            assert(all.take(done + 1).last() == x@);
        }
        let mut k: usize = out.len();
        proof {
            assert(sorted.take(k as int) =~= sorted);
            assert(sorted.skip(k as int) =~= Seq::<Seq<usize>>::empty());
            assert(placed_in(sorted, x@) + Seq::<Seq<usize>>::empty() =~= placed_in(sorted, x@));
        }
        while k > 0 && (x.len() > out[k - 1].len() || (x.len() == out[k - 1].len()
            && list_is_before(&x, &out[k - 1])))
            invariant
                k <= out@.len(),
                sorted == lists(out@),
                placed_in(sorted, x@) == placed_in(sorted.take(k as int), x@) + sorted.skip(
                    k as int,
                ),
            decreases k,
        {
            proof {
                let head = sorted.take(k as int);
                assert(head.last() == out@[k - 1]@);
                assert(head.drop_last() =~= sorted.take(k - 1));
                assert(placed_in(head, x@) == placed_in(sorted.take(k - 1), x@).push(head.last()));
                assert(placed_in(sorted.take(k - 1), x@).push(head.last()) + sorted.skip(k as int)
                    =~= placed_in(sorted.take(k - 1), x@) + sorted.skip(k - 1));
            }
            k -= 1;
        }
        proof {
            let head = sorted.take(k as int);
            if k > 0 {
                assert(head.last() == out@[k - 1]@);
            }
            assert(placed_in(head, x@) == head.push(x@));
        }
        let ghost xv = x@;
        out.insert(k, x);
        assert(lists(out@) =~= sorted.take(k as int).push(xv) + sorted.skip(k as int));
    }
    assert(all.take(n as int) =~= all);
    out
}

/// The positions below `n` whose bit is set.
pub open spec fn members(mask: u32, n: nat) -> Seq<usize>
    decreases n,
{
    if n == 0 {
        Seq::empty()
    } else {
        let rest = members(mask, (n - 1) as nat);
        if (mask >> ((n - 1) as u32)) & 1 == 1 {
            rest.push((n - 1) as usize)
        } else {
            rest
        }
    }
}

/// `CUBE(a, b, c)`: every subset, in the order of the answer's rows.
pub open spec fn subsets(n: nat) -> Seq<Seq<usize>> {
    ordered(Seq::new((1u32 << (n as u32)) as nat, |mask: int| members(mask as u32, n)))
}

/// `CUBE(a, b, c)`: every subset.
pub fn cube(n: usize) -> (r: Vec<Vec<usize>>)
    requires
        n < 32,
    ensures
        lists(r@) == subsets(n as nat),
{
    let mut out: Vec<Vec<usize>> = Vec::new();
    let count: u32 = 1u32 << (n as u32);
    let mut mask: u32 = 0;
    while mask < count
        invariant
            n < 32,
            mask <= count,
            out@.len() == mask,
            forall|j: int| 0 <= j < mask ==> (#[trigger] out@[j])@ == members(j as u32, n as nat),
        decreases count - mask,
    {
        let mut one: Vec<usize> = Vec::new();
        let mut i: usize = 0;
        while i < n
            invariant
                i <= n < 32,
                one@ == members(mask, i as nat),
            decreases n - i,
        {
            if (mask >> (i as u32)) & 1 == 1 {
                one.push(i);
            }
            i += 1;
        }
        out.push(one);
        mask += 1;
    }
    let ghost all = Seq::new((1u32 << (n as u32)) as nat, |mask: int| members(mask as u32, n as nat));
    assert(lists(out@) =~= all);
    sort_sets(out)
}

/// Which of some terms first groups by a column.
pub open spec fn grouped_at(by: Seq<GroupingView>, column: Seq<char>) -> Option<int>
    decreases by.len(),
{
    if by.len() == 0 {
        None
    } else {
        match grouped_at(by.drop_last(), column) {
            Some(k) => Some(k),
            None => if by.last().name.column == column {
                Some(by.len() - 1)
            } else {
                None
            },
        }
    }
}

/// Which of some terms first groups by a column.
pub fn find_grouped(by: &Vec<Grouping>, column: &str) -> (r: Option<usize>)
    ensures
        match r {
            Some(k) => grouped_at(views(by@), column@) == Some(k as int) && k < by@.len()
                && views(by@)[k as int].name.column == column@,
            None => grouped_at(views(by@), column@) is None,
        },
{
    let ghost all = views(by@);
    let mut k: usize = 0;
    assert(all.take(0) =~= Seq::<GroupingView>::empty());
    while k < by.len()
        invariant
            k <= by@.len(),
            all == views(by@),
            grouped_at(all.take(k as int), column@) is None,
        decreases by.len() - k,
    {
        assert(all.take(k + 1).drop_last() =~= all.take(k as int));
        assert(all.take(k + 1).last() == by@[k as int]@);
        if same(by[k].name.column.as_str(), column) {
            proof {
                lemma_first_stays(all, column@, k + 1);
            }
            return Some(k);
        }
        k += 1;
    }
    assert(all.take(k as int) =~= all);
    None
}

/// A term found among the first few is the one found among all.
proof fn lemma_first_stays(by: Seq<GroupingView>, column: Seq<char>, k: int)
    requires
        0 <= k <= by.len(),
        grouped_at(by.take(k), column) is Some,
    ensures
        grouped_at(by, column) == grouped_at(by.take(k), column),
    decreases by.len(),
{
    if k == by.len() {
        assert(by.take(k) =~= by);
    } else {
        assert(by.drop_last().take(k) =~= by.take(k));
        lemma_first_stays(by.drop_last(), column, k);
    }
}

/// The term an expression is: a column, or a calendar rounding of one.
pub open spec fn term_of(expr: ScalarView, leaves: Seq<LeafView>, at: usize) -> core::result::Result<
    GroupingView,
    SqlErrorView,
> {
    if leaves.len() == 1 && leaves[0].proj is Column && (expr == ScalarView::Value || boundary_of(
        Some(expr),
    ) is Some) {
        Ok(
            GroupingView {
                name: leaves[0].proj->Column_0,
                bucket: if expr == ScalarView::Value {
                    None
                } else {
                    boundary_of(Some(expr))
                },
                at,
            },
        )
    } else {
        Err(refusal(Refused::GroupExpression, at))
    }
}

/// One `GROUP BY` term.
pub open spec fn read_grouping(e: Env, i: int, d: int) -> Out<GroupingView> {
    if word_at(e, i, "ROLLUP"@) || word_at(e, i, "CUBE"@) || word_at(e, i, "GROUPINGSETS"@) {
        Err(refusal(Refused::GroupExpression, offset(e, i)))
    } else {
        match read_climb(e, i, d, 0, Seq::empty()) {
            Err(x) => Err(x),
            Ok(((expr, leaves), j)) => match term_of(expr, leaves, offset(e, i)) {
                Err(x) => Err(x),
                Ok(g) => Ok((g, j)),
            },
        }
    }
}

/// The terms of a plain `GROUP BY`, after those already read.
pub open spec fn read_groupings(e: Env, i: int, d: int, before: Seq<GroupingView>) -> Out<
    Seq<GroupingView>,
>
    decreases e.t.len() - i,
{
    match moved(e, i, read_grouping(e, i, d)) {
        Err(x) => Err(x),
        Ok((g, j)) => if tok_is(e, j, TokView::Comma) {
            read_groupings(e, j + 1, d, before.push(g))
        } else {
            Ok((before.push(g), j))
        },
    }
}

/// The columns of a clause, and one set of them.
pub type OneSet = (Seq<GroupingView>, Seq<usize>);

/// One term of a set, as a position in the list of columns the clause names so far. A column
/// named before has to be rounded to the same boundary.
pub open spec fn read_interned(e: Env, i: int, d: int, by: Seq<GroupingView>) -> Out<
    (Seq<GroupingView>, usize),
> {
    match read_grouping(e, i, d) {
        Err(x) => Err(x),
        Ok((g, j)) => match grouped_at(by, g.name.column) {
            Some(k) => if by[k].bucket == g.bucket {
                Ok(((by, k as usize), j))
            } else {
                Err(refusal(Refused::Shape, g.at))
            },
            None => Ok(((by.push(g), by.len() as usize), j)),
        },
    }
}

/// The terms of a set in brackets, after those already read, and its closing bracket.
pub open spec fn read_set_terms(
    e: Env,
    i: int,
    d: int,
    by: Seq<GroupingView>,
    set: Seq<usize>,
) -> Out<OneSet>
    decreases e.t.len() - i,
{
    match moved(e, i, read_interned(e, i, d, by)) {
        Err(x) => Err(x),
        Ok(((by2, k), j)) => if tok_is(e, j, TokView::Comma) {
            read_set_terms(e, j + 1, d, by2, set.push(k))
        } else if tok_is(e, j, TokView::RParen) {
            Ok(((by2, set.push(k)), j + 1))
        } else {
            Err(expected(e, j, ") after a grouping set"@))
        },
    }
}

/// One set: `()`, a list of terms in brackets, or a bare term.
pub open spec fn read_set(e: Env, i: int, d: int, by: Seq<GroupingView>) -> Out<OneSet> {
    if tok_is(e, i, TokView::LParen) {
        if tok_is(e, i + 1, TokView::RParen) {
            Ok(((by, Seq::empty()), i + 2))
        } else {
            read_set_terms(e, i + 1, d, by, Seq::empty())
        }
    } else {
        match read_interned(e, i, d, by) {
            Err(x) => Err(x),
            Ok(((by2, k), j)) => Ok(((by2, seq![k]), j)),
        }
    }
}

/// A number put where it belongs in a rising list.
pub open spec fn number_in(s: Seq<usize>, x: usize) -> Seq<usize>
    decreases s.len(),
{
    if s.len() > 0 && x < s.last() {
        number_in(s.drop_last(), x).push(s.last())
    } else {
        s.push(x)
    }
}

/// Numbers in rising order.
pub open spec fn rising(s: Seq<usize>) -> Seq<usize>
    decreases s.len(),
{
    if s.len() == 0 {
        Seq::empty()
    } else {
        number_in(rising(s.drop_last()), s.last())
    }
}

/// The sets of a clause, after those already read. A set holds no column twice, and no set is
/// written twice.
pub open spec fn read_sets(
    e: Env,
    i: int,
    d: int,
    by: Seq<GroupingView>,
    of: Seq<Seq<usize>>,
) -> Out<(Seq<GroupingView>, Seq<Seq<usize>>)>
    decreases e.t.len() - i,
{
    match moved(e, i, read_set(e, i, d, by)) {
        Err(x) => Err(x),
        Ok(((by2, set), j)) => if !set.no_duplicates() || of.contains(rising(set)) {
            Err(refusal(Refused::Shape, offset(e, i)))
        } else if tok_is(e, j, TokView::Comma) {
            read_sets(e, j + 1, d, by2, of.push(rising(set)))
        } else {
            Ok(((by2, of.push(rising(set))), j))
        },
    }
}

/// The columns a clause groups by, and the sets of them it names.
pub type Grouped = (Seq<GroupingView>, Option<GroupingSetsView>);

/// `GROUPING SETS ((a, b), (a), ())`, with `GROUPING` at `i`. `group_at` is where the `GROUP BY`
/// begins.
pub open spec fn read_grouping_sets(e: Env, i: int, d: int, group_at: usize) -> Out<Grouped> {
    if !word_at(e, i, "GROUPING"@) {
        Err(expected(e, i, "GROUPING SETS"@))
    } else if !word_at(e, i + 1, "SETS"@) {
        Err(expected(e, i + 1, "SETS after GROUPING"@))
    } else if !tok_is(e, i + 2, TokView::LParen) {
        Err(expected(e, i + 2, "( after GROUPING SETS"@))
    } else {
        match read_sets(e, i + 3, d, Seq::empty(), Seq::empty()) {
            Err(x) => Err(x),
            Ok(((by, of), j)) => if !tok_is(e, j, TokView::RParen) {
                Err(expected(e, j, ") after GROUPING SETS"@))
            } else if by.len() > MAX_GROUP_COLUMNS {
                Err(refusal(Refused::Shape, group_at))
            } else if of.len() > MAX_GROUPING_SETS {
                Err(refusal(Refused::GroupingSets, offset(e, i)))
            } else {
                Ok(
                    (
                        (by, Some(GroupingSetsView { of: ordered(of), at: offset(e, i) })),
                        j + 1,
                    ),
                )
            },
        }
    }
}

/// `WITH ROLLUP` or `WITH CUBE` after a plain `GROUP BY`.
pub open spec fn read_with(e: Env, i: int, by: Seq<GroupingView>) -> Out<Grouped> {
    if !word_at(e, i, "WITH"@) {
        Ok(((by, None), i))
    } else if word_at(e, i + 1, "ROLLUP"@) || word_at(e, i + 1, "CUBE"@) {
        let of = if word_at(e, i + 1, "ROLLUP"@) {
            prefixes(by.len())
        } else {
            subsets(by.len())
        };
        if of.len() > MAX_GROUPING_SETS {
            Err(refusal(Refused::GroupingSets, offset(e, i + 1)))
        } else {
            Ok(((by, Some(GroupingSetsView { of, at: offset(e, i + 1) })), i + 2))
        }
    } else if word_at(e, i + 1, "TOTALS"@) {
        Err(refusal(Refused::WithTotals, offset(e, i + 1)))
    } else {
        Err(expected(e, i + 1, "ROLLUP, CUBE or TOTALS after WITH"@))
    }
}

/// `GROUP BY`, when it is written.
pub open spec fn read_group_by(e: Env, i: int, d: int) -> Out<Grouped> {
    if !word_at(e, i, "GROUP"@) {
        Ok(((Seq::empty(), None), i))
    } else if !word_at(e, i + 1, "BY"@) {
        Err(expected(e, i + 1, "BY after GROUP"@))
    } else if word_at(e, i + 2, "GROUPING"@) {
        read_grouping_sets(e, i + 2, d, offset(e, i))
    } else {
        match read_groupings(e, i + 2, d, Seq::empty()) {
            Err(x) => Err(x),
            Ok((by, j)) => if by.len() > MAX_GROUP_COLUMNS {
                Err(refusal(Refused::Shape, offset(e, i)))
            } else {
                read_with(e, j, by)
            },
        }
    }
}

/// Numbers in rising order.
pub fn sort_positions(set: &Vec<usize>) -> (r: Vec<usize>)
    ensures
        r@ == rising(set@),
{
    let mut out: Vec<usize> = Vec::new();
    let mut i: usize = 0;
    assert(set@.take(0) =~= Seq::<usize>::empty());
    while i < set.len()
        invariant
            i <= set@.len(),
            out@ == rising(set@.take(i as int)),
        decreases set.len() - i,
    {
        let x: usize = set[i];
        let ghost sorted = out@;
        proof {
            assert(set@.take(i + 1).drop_last() =~= set@.take(i as int));
            assert(sorted.take(sorted.len() as int) =~= sorted);
            assert(number_in(sorted, x) + sorted.skip(sorted.len() as int) =~= number_in(
                sorted,
                x,
            ));
        }
        let mut k: usize = out.len();
        while k > 0 && x < out[k - 1]
            invariant
                k <= out@.len(),
                sorted == out@,
                number_in(sorted, x) == number_in(sorted.take(k as int), x) + sorted.skip(k as int),
            decreases k,
        {
            proof {
                let head = sorted.take(k as int);
                assert(head.drop_last() =~= sorted.take(k - 1));
                assert(number_in(sorted.take(k - 1), x).push(head.last()) + sorted.skip(k as int)
                    =~= number_in(sorted.take(k - 1), x) + sorted.skip(k - 1));
            }
            k -= 1;
        }
        proof {
            let head = sorted.take(k as int);
            assert(number_in(head, x) == head.push(x));
        }
        out.insert(k, x);
        assert(out@ =~= sorted.take(k as int).push(x) + sorted.skip(k as int));
        i += 1;
    }
    assert(set@.take(i as int) =~= set@);
    out
}

/// Whether a list holds nothing twice.
fn all_different(set: &Vec<usize>) -> (r: bool)
    ensures
        r == set@.no_duplicates(),
{
    let mut i: usize = 0;
    while i < set.len()
        invariant
            i <= set@.len(),
            forall|a: int, b: int| 0 <= a < i && 0 <= b < set@.len() && a != b ==> set@[a] != set@[b],
        decreases set.len() - i,
    {
        let mut k: usize = i + 1;
        while k < set.len()
            invariant
                i < k <= set@.len(),
                i < set@.len(),
                forall|b: int| i < b < k ==> set@[i as int] != set@[b],
            decreases set.len() - k,
        {
            if set[i] == set[k] {
                return false;
            }
            k += 1;
        }
        i += 1;
    }
    true
}

/// Whether a list of lists holds one.
fn holds(of: &Vec<Vec<usize>>, set: &Vec<usize>) -> (r: bool)
    ensures
        r == lists(of@).contains(set@),
{
    let mut i: usize = 0;
    while i < of.len()
        invariant
            i <= of@.len(),
            forall|k: int| 0 <= k < i ==> (#[trigger] of@[k])@ != set@,
        decreases of.len() - i,
    {
        if of[i].len() == set.len() {
            let mut k: usize = 0;
            while k < set.len() && of[i][k] == set[k]
                invariant
                    i < of@.len(),
                    k <= set@.len(),
                    of@[i as int]@.len() == set@.len(),
                    forall|j: int| 0 <= j < k ==> of@[i as int]@[j] == set@[j],
                decreases set.len() - k,
            {
                k += 1;
            }
            if k == set.len() {
                assert(of@[i as int]@ =~= set@);
                assert(lists(of@)[i as int] == set@);
                return true;
            }
        }
        i += 1;
    }
    assert forall|k: int| 0 <= k < lists(of@).len() implies lists(of@)[k] != set@ by {
        assert(of@[k]@ != set@);
    }
    false
}

impl<'a> Parser<'a> {
    /// One `GROUP BY` term: a column, or a calendar rounding of one.
    pub(crate) fn grouping(&mut self) -> (r: Result<Grouping>)
        requires
            old(self).wf(),
        ensures
            goes(
                *old(self),
                *final(self),
                seen(r),
                read_grouping(old(self).env(), old(self).i as int, old(self).depth as int),
            ),
            r is Ok ==> final(self).i > old(self).i,
    {
        let at = self.at();
        if self.word_is("ROLLUP") || self.word_is("CUBE") || self.word_is("GROUPINGSETS") {
            return Err(self.refuse_at(Refused::GroupExpression, at));
        }
        let mut leaves: Vec<Leaf> = Vec::new();
        assert(views(leaves@) =~= Seq::<LeafView>::empty());
        let expr = self.expr(&mut leaves)?;
        let ghost lv = views(leaves@);
        if leaves.len() != 1 {
            return Err(self.refuse_at(Refused::GroupExpression, at));
        }
        let leaf = leaves.remove(0);
        assert(lv[0] == leaf@);
        let name = match leaf.proj {
            Proj::Column(name) => name,
            _ => {
                return Err(self.refuse_at(Refused::GroupExpression, at));
            },
        };
        if expr.is_identity() {
            return Ok(Grouping { name, bucket: None, at });
        }
        match bucket_of(Some(&expr)) {
            Some(unit) => Ok(Grouping { name, bucket: Some(unit), at }),
            None => Err(self.refuse_at(Refused::GroupExpression, at)),
        }
    }

    /// The terms of a plain `GROUP BY`.
    fn groupings(&mut self) -> (r: Result<Vec<Grouping>>)
        requires
            old(self).wf(),
        ensures
            goes(
                *old(self),
                *final(self),
                match r {
                    Ok(v) => Ok(views(v@)),
                    Err(e) => Err(e@),
                },
                read_groupings(
                    old(self).env(),
                    old(self).i as int,
                    old(self).depth as int,
                    Seq::empty(),
                ),
            ),
    {
        let mut out: Vec<Grouping> = Vec::new();
        assert(views(out@) =~= Seq::<GroupingView>::empty());
        loop
            invariant
                self.wf(),
                self.env() == old(self).env(),
                self.t == old(self).t,
                self.depth == old(self).depth,
                self.i >= old(self).i,
                read_groupings(
                    old(self).env(),
                    old(self).i as int,
                    old(self).depth as int,
                    Seq::empty(),
                ) == read_groupings(self.env(), self.i as int, self.depth as int, views(out@)),
            decreases self.t@.len() - self.i,
        {
            let ghost before = views(out@);
            let g = self.grouping()?;
            out.push(g);
            assert(views(out@) =~= before.push(g@));
            if !self.eat(&Tok::Comma) {
                return Ok(out);
            }
        }
    }

    /// One term of a grouping set, as a position in the list of columns the clause names.
    fn intern_grouping(&mut self, by: &mut Vec<Grouping>) -> (r: Result<usize>)
        requires
            old(self).wf(),
        ensures
            goes(
                *old(self),
                *final(self),
                match r {
                    Ok(k) => Ok((views(final(by)@), k)),
                    Err(e) => Err(e@),
                },
                read_interned(
                    old(self).env(),
                    old(self).i as int,
                    old(self).depth as int,
                    views(old(by)@),
                ),
            ),
            r is Ok ==> final(self).i > old(self).i,
    {
        let g = self.grouping()?;
        match find_grouped(by, g.name.column.as_str()) {
            Some(k) => {
                if by[k].bucket == g.bucket {
                    Ok(k)
                } else {
                    Err(self.refuse_at(Refused::Shape, g.at))
                }
            },
            None => {
                let ghost before = views(by@);
                let k = by.len();
                by.push(g);
                assert(views(by@) =~= before.push(g@));
                Ok(k)
            },
        }
    }

    /// One set: `()`, a list of terms in brackets, or a bare term.
    fn grouping_set(&mut self, by: &mut Vec<Grouping>) -> (r: Result<Vec<usize>>)
        requires
            old(self).wf(),
        ensures
            goes(
                *old(self),
                *final(self),
                match r {
                    Ok(v) => Ok((views(final(by)@), v@)),
                    Err(e) => Err(e@),
                },
                read_set(
                    old(self).env(),
                    old(self).i as int,
                    old(self).depth as int,
                    views(old(by)@),
                ),
            ),
            r is Ok ==> final(self).i > old(self).i,
    {
        let mut set: Vec<usize> = Vec::new();
        if !self.eat(&Tok::LParen) {
            let k = self.intern_grouping(by)?;
            set.push(k);
            assert(set@ =~= seq![k]);
            return Ok(set);
        }
        if self.eat(&Tok::RParen) {
            assert(set@ =~= Seq::<usize>::empty());
            return Ok(set);
        }
        assert(set@ =~= Seq::<usize>::empty());
        loop
            invariant
                self.wf(),
                self.env() == old(self).env(),
                self.t == old(self).t,
                self.depth == old(self).depth,
                self.i > old(self).i,
                read_set(
                    old(self).env(),
                    old(self).i as int,
                    old(self).depth as int,
                    views(old(by)@),
                ) == read_set_terms(
                    self.env(),
                    self.i as int,
                    self.depth as int,
                    views(by@),
                    set@,
                ),
            decreases self.t@.len() - self.i,
        {
            let k = self.intern_grouping(by)?;
            set.push(k);
            if !self.eat(&Tok::Comma) {
                self.expect(&Tok::RParen, ") after a grouping set")?;
                return Ok(set);
            }
        }
    }

    /// The sets of a clause.
    fn sets_of(&mut self, by: &mut Vec<Grouping>) -> (r: Result<Vec<Vec<usize>>>)
        requires
            old(self).wf(),
        ensures
            goes(
                *old(self),
                *final(self),
                match r {
                    Ok(v) => Ok((views(final(by)@), lists(v@))),
                    Err(e) => Err(e@),
                },
                read_sets(
                    old(self).env(),
                    old(self).i as int,
                    old(self).depth as int,
                    views(old(by)@),
                    Seq::empty(),
                ),
            ),
    {
        let mut of: Vec<Vec<usize>> = Vec::new();
        assert(lists(of@) =~= Seq::<Seq<usize>>::empty());
        loop
            invariant
                self.wf(),
                self.env() == old(self).env(),
                self.t == old(self).t,
                self.depth == old(self).depth,
                self.i >= old(self).i,
                read_sets(
                    old(self).env(),
                    old(self).i as int,
                    old(self).depth as int,
                    views(old(by)@),
                    Seq::empty(),
                ) == read_sets(
                    self.env(),
                    self.i as int,
                    self.depth as int,
                    views(by@),
                    lists(of@),
                ),
            decreases self.t@.len() - self.i,
        {
            let set_at = self.at();
            let set = self.grouping_set(by)?;
            let sorted = sort_positions(&set);
            if !all_different(&set) || holds(&of, &sorted) {
                return Err(self.refuse_at(Refused::Shape, set_at));
            }
            let ghost before = lists(of@);
            of.push(sorted);
            assert(lists(of@) =~= before.push(sorted@));
            if !self.eat(&Tok::Comma) {
                return Ok(of);
            }
        }
    }

    /// `GROUPING SETS ((a, b), (a), ())`: the columns it names, and the sets it names them in.
    fn grouping_sets(&mut self, group_at: usize) -> (r: Result<(Vec<Grouping>, GroupingSets)>)
        requires
            old(self).wf(),
        ensures
            goes(
                *old(self),
                *final(self),
                match r {
                    Ok(p) => Ok((views(p.0@), Some(p.1@))),
                    Err(e) => Err(e@),
                },
                read_grouping_sets(
                    old(self).env(),
                    old(self).i as int,
                    old(self).depth as int,
                    group_at,
                ),
            ),
    {
        let at = self.at();
        self.expect_word("GROUPING", "GROUPING SETS")?;
        self.expect_word("SETS", "SETS after GROUPING")?;
        self.expect(&Tok::LParen, "( after GROUPING SETS")?;
        let mut by: Vec<Grouping> = Vec::new();
        assert(views(by@) =~= Seq::<GroupingView>::empty());
        let of = self.sets_of(&mut by)?;
        self.expect(&Tok::RParen, ") after GROUPING SETS")?;
        if by.len() > MAX_GROUP_COLUMNS {
            return Err(self.refuse_at(Refused::Shape, group_at));
        }
        if of.len() > MAX_GROUPING_SETS {
            return Err(self.refuse_at(Refused::GroupingSets, at));
        }
        Ok((by, GroupingSets { of: sort_sets(of), at }))
    }

    /// `GROUP BY`, when it is written: the columns, and the sets of them it names.
    pub(crate) fn group_by(&mut self) -> (r: Result<(Vec<Grouping>, Option<GroupingSets>)>)
        requires
            old(self).wf(),
        ensures
            goes(
                *old(self),
                *final(self),
                match r {
                    Ok(p) => Ok(
                        (
                            views(p.0@),
                            match p.1 {
                                Some(s) => Some(s@),
                                None => None,
                            },
                        ),
                    ),
                    Err(e) => Err(e@),
                },
                read_group_by(old(self).env(), old(self).i as int, old(self).depth as int),
            ),
    {
        let group_at = self.at();
        if !self.eat_word("GROUP") {
            let none: Vec<Grouping> = Vec::new();
            assert(views(none@) =~= Seq::<GroupingView>::empty());
            return Ok((none, None));
        }
        self.expect_word("BY", "BY after GROUP")?;
        if self.word_is("GROUPING") {
            let (by, sets) = self.grouping_sets(group_at)?;
            return Ok((by, Some(sets)));
        }
        let by = self.groupings()?;
        if by.len() > MAX_GROUP_COLUMNS {
            return Err(self.refuse_at(Refused::Shape, group_at));
        }
        if !self.eat_word("WITH") {
            return Ok((by, None));
        }
        let at = self.at();
        let of = if self.eat_word("ROLLUP") {
            rollup(by.len())
        } else if self.eat_word("CUBE") {
            cube(by.len())
        } else if self.word_is("TOTALS") {
            return Err(self.refuse_at(Refused::WithTotals, at));
        } else {
            return Err(self.syntax("ROLLUP, CUBE or TOTALS after WITH"));
        };
        if of.len() > MAX_GROUPING_SETS {
            assert(lists(of@).len() == of@.len());
            return Err(self.refuse_at(Refused::GroupingSets, at));
        }
        assert(lists(of@).len() == of@.len());
        Ok((by, Some(GroupingSets { of, at })))
    }
}

} // verus!
