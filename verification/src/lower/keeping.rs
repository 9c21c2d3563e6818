//! The rows an answer keeps, and the order it has them in, are the ones that were written.

use vstd::prelude::*;
use crate::ast::{self, HavingAggView, HavingOperandView, ItemView, NameView, OrderKeyView, ProjView};
use crate::lower::keyed::{numbers_upto, order_number};
use crate::lower::measure::{aliased, found, having_resolved, kind_of, listed_counts, number_named, operand, resolved, side_of, wanted, FrameView, Kind, MeasureView, Measures};
use crate::lower::model::{aggregate_of, amount, called_so, is_number, keeps, order_figure, said, wanted_group, Figure, Stored};
use crate::shape::{HavingView, Of};

verus! {

/// The aggregate a number measures.
pub open spec fn measures_what(m: MeasureView) -> ProjView {
    match m {
        MeasureView::Count => ProjView::Count,
        MeasureView::Agg { func, field } => ProjView::Agg { func, field },
        MeasureView::Avg(field) => ProjView::Avg(field),
        MeasureView::Other => ProjView::Star,
    }
}

/// Whether every number that measures an aggregate shows what it comes to.
pub open spec fn right_measures(
    measures: Measures,
    shows: spec_fn(Of) -> Figure,
    comes: spec_fn(ProjView) -> Figure,
) -> bool {
    &&& forall|k: int|
        0 <= k < measures.len() && !((#[trigger] measures[k]).0 is Other) ==> shows(measures[k].1)
            == comes(measures_what(measures[k].0))
    &&& measures.len() == 0 ==> shows(listed_counts(0)) == comes(ProjView::Count)
}

/// Whether columns are looked for in the tables they are of.
pub open spec fn right_home(frame: FrameView, home: spec_fn(NameView) -> Seq<char>) -> bool {
    match frame {
        FrameView::One(table) => forall|n: NameView| #[trigger] home(n) == table,
        FrameView::Many(sides) => forall|n: NameView, at: usize|
            #[trigger] side_of(sides, n, at) matches Ok(k) ==> home(n) == sides[k as int].table,
    }
}

proof fn lemma_found(
    want: MeasureView,
    measures: Measures,
    k: int,
    shows: spec_fn(Of) -> Figure,
    comes: spec_fn(ProjView) -> Figure,
)
    requires
        right_measures(measures, shows, comes),
        !(want is Other),
        0 <= k,
    ensures
        found(want, measures, k) matches Some(of) ==> shows(of) == comes(measures_what(want)),
    decreases measures.len() - k,
{
    if k < measures.len() && measures[k].0 != want {
        lemma_found(want, measures, k + 1, shows, comes);
    }
}

/// The number an aggregate names shows what it comes to.
pub proof fn lemma_named(
    a: HavingAggView,
    measures: Measures,
    shows: spec_fn(Of) -> Figure,
    comes: spec_fn(ProjView) -> Figure,
)
    requires
        right_measures(measures, shows, comes),
    ensures
        number_named(a, measures) matches Some(of) ==> shows(of) == comes(aggregate_of(a)),
{
    lemma_found(wanted(a), measures, 0, shows, comes);
}

proof fn lemma_operand(
    o: HavingOperandView,
    other: HavingOperandView,
    frame: FrameView,
    measures: Measures,
    at: usize,
    shows: spec_fn(Of) -> Figure,
    comes: spec_fn(ProjView) -> Figure,
    home: spec_fn(NameView) -> Seq<char>,
)
    requires
        right_measures(measures, shows, comes),
        right_home(frame, home),
    ensures
        operand(o, other, frame, measures, at) matches Ok(r) ==> amount(r, shows) == said(
            o,
            other,
            comes,
            home,
        ),
{
    match o {
        HavingOperandView::Agg(a) => {
            lemma_named(a, measures, shows, comes);
        },
        _ => {},
    }
}

/// A `HAVING` of an answer keeps the rows it is true of.
pub proof fn lemma_keeps(
    h: ast::HavingView,
    frame: FrameView,
    measures: Measures,
    shows: spec_fn(Of) -> Figure,
    comes: spec_fn(ProjView) -> Figure,
    home: spec_fn(NameView) -> Seq<char>,
    w: Stored,
)
    requires
        right_measures(measures, shows, comes),
        right_home(frame, home),
    ensures
        resolved(h, frame, measures) matches Ok(r) ==> keeps(r, shows, w) == wanted_group(
            h,
            comes,
            home,
            w,
        ),
    decreases h,
{
    match h {
        ast::HavingView::And(a, b) => {
            lemma_keeps(*a, frame, measures, shows, comes, home, w);
            lemma_keeps(*b, frame, measures, shows, comes, home, w);
        },
        ast::HavingView::Or(a, b) => {
            lemma_keeps(*a, frame, measures, shows, comes, home, w);
            lemma_keeps(*b, frame, measures, shows, comes, home, w);
        },
        ast::HavingView::Not(a) => {
            lemma_keeps(*a, frame, measures, shows, comes, home, w);
        },
        ast::HavingView::Cmp { left, op, right, at } => {
            lemma_operand(left, right, frame, measures, at, shows, comes, home);
            lemma_operand(right, left, frame, measures, at, shows, comes, home);
        },
    }
}

/// The same of a `HAVING` that may be absent.
pub proof fn lemma_having(
    h: Option<ast::HavingView>,
    frame: FrameView,
    measures: Measures,
    shows: spec_fn(Of) -> Figure,
    comes: spec_fn(ProjView) -> Figure,
    home: spec_fn(NameView) -> Seq<char>,
    w: Stored,
)
    requires
        right_measures(measures, shows, comes),
        right_home(frame, home),
    ensures
        having_resolved(h, frame, measures) matches Ok(r) ==> (match r {
            Some(r) => keeps(r, shows, w),
            None => true,
        }) == (match h {
            Some(h) => wanted_group(h, comes, home, w),
            None => true,
        }) && r is Some == h is Some,
{
    match h {
        Some(h) => lemma_keeps(h, frame, measures, shows, comes, home, w),
        None => {},
    }
}

/// Whether the entries that are numbers have theirs, in order.
pub open spec fn right_entries(
    items: Seq<ItemView>,
    n: int,
    measures: Measures,
    shows: spec_fn(Of) -> Figure,
    entry: spec_fn(int) -> Figure,
) -> bool {
    &&& measures.len() == numbers_upto(items, n)
    &&& forall|k: int|
        0 <= k < n && kind_of(#[trigger] items[k]) == Kind::Number ==> shows(
            measures[numbers_upto(items, k) as int].1,
        ) == entry(k)
}

/// There are no more numbers before an entry than before a later one.
pub proof fn lemma_numbers_rise(items: Seq<ItemView>, a: int, b: int)
    requires
        0 <= a <= b <= items.len(),
    ensures
        numbers_upto(items, a) <= numbers_upto(items, b),
        a < b && kind_of(items[a]) == Kind::Number ==> numbers_upto(items, a) < numbers_upto(
            items,
            b,
        ),
    decreases b - a,
{
    if a < b {
        lemma_numbers_rise(items, a, b - 1);
        if a == b - 1 {
            reveal_with_fuel(numbers_upto, 2);
        }
    }
}

/// A name is that of the first number that is called so.
proof fn lemma_aliased(items: Seq<ItemView>, measures: Measures, name: Seq<char>, k: int)
    requires
        0 <= k <= items.len(),
        measures.len() == numbers_upto(items, items.len() as int),
    ensures
        aliased(items, measures, name, k, numbers_upto(items, k) as int) == match called_so(
            items,
            name,
            k,
        ) {
            Some(i) => Some(measures[numbers_upto(items, i) as int].1),
            None => None,
        },
        called_so(items, name, k) matches Some(i) ==> k <= i < items.len() && kind_of(items[i])
            == Kind::Number && is_number(items[i]) && items[i].column() == name,
    decreases items.len() - k,
{
    if k < items.len() {
        lemma_aliased(items, measures, name, k + 1);
        lemma_numbers_rise(items, k, items.len() as int);
        reveal_with_fuel(numbers_upto, 2);
        assert(is_number(items[k]) == (kind_of(items[k]) == Kind::Number));
    }
}

/// An order by a number is by the number that was written.
pub proof fn lemma_order(
    key: OrderKeyView,
    items: Seq<ItemView>,
    measures: Measures,
    shows: spec_fn(Of) -> Figure,
    comes: spec_fn(ProjView) -> Figure,
    entry: spec_fn(int) -> Figure,
    keys: Seq<int>,
)
    requires
        key is Name ==> right_entries(items, items.len() as int, measures, shows, entry),
        !(key is Name) ==> right_measures(measures, shows, comes),
    ensures
        order_number(key, items, measures) matches Some(of) ==> shows(of) == order_figure(
            key,
            items,
            keys,
            comes,
            entry,
        ),
        key matches OrderKeyView::Name(n) ==> (order_number(key, items, measures) is None
            == called_so(items, n.column, 0) is None),
{
    match key {
        OrderKeyView::Count => lemma_named(HavingAggView::Count, measures, shows, comes),
        OrderKeyView::Agg { func, field } => lemma_named(
            HavingAggView::Agg { func, field },
            measures,
            shows,
            comes,
        ),
        OrderKeyView::Avg(field) => lemma_named(HavingAggView::Avg(field), measures, shows, comes),
        OrderKeyView::Name(n) => {
            lemma_aliased(items, measures, n.column, 0);
        },
    }
}

} // verus!
