//! `ROLLUP`, `CUBE` and `GROUPING SETS`: one grouping per set, stacked.

use vstd::prelude::*;
use crate::ast::{Grouping, GroupingView, Select, SelectView};
use crate::error::{Refused, Result, SqlError, SqlErrorView};
use crate::lower::calls::{no_names, asking, AskView, Calls, Probe, ProbeView, Statement, StatementView, MAX_CALLS};
use crate::lower::keyed::{any_filtered, cells_for, cells_of, check_columns, check_numbers, column_fault, filtered, group_keys, keys_call, measures_of, number_fault, numbers_by, repeated, repeats, tuple_args, tuple_arguments};
use crate::lower::measure::{asks_nothing, find_first, first_of, having_of, having_resolved, listed_counts, measured, nameable, nothing_asked, only_counts, start, start_of, Frame, FrameView, Kind, Measure, Measures};
use crate::lower::pql::call_of;
use crate::lower::ungrouped::{a_call, lowered_to};
use crate::parse::cursor::refusal;
use crate::parse::grouping::{lists, rising, sort_positions};
use crate::pql::{Expr, ExprView};
use crate::shape::{no_cut, Absent, Answer, AnswerView, Cell, CellView, Cut, Having, HavingView, Of, Shape, ShapeView};
use crate::text::views;

verus! {

/// What no grouping set can hold. A column is held against the whole list and not against each
/// set: a set that leaves it out shows nothing for it, which is what a subtotal is.
pub open spec fn sets_fault(select: SelectView) -> Option<SqlErrorView> {
    match first_of(select.items, Kind::Star, 0) {
        Some(k) => Some(refusal(Refused::Shape, select.items[k].at)),
        None => if repeated(select.group_by) {
            Some(refusal(Refused::Shape, select.group_by[0].at))
        } else {
            match column_fault(select.items, select.group_by, 0) {
                Some(x) => Some(x),
                None => match number_fault(select.items, 0) {
                    Some(x) => Some(x),
                    None => if select.order_by is Some {
                        Some(refusal(Refused::RollupOrder, select.order_by->0.at))
                    } else if select.limit is Some || select.offset is Some || select.with_ties {
                        Some(refusal(Refused::RollupOrder, start_of(select.items)))
                    } else {
                        None
                    },
                },
            }
        },
    }
}

/// The grouped columns a set names.
pub open spec fn held(by: Seq<GroupingView>, set: Seq<usize>) -> Seq<GroupingView> {
    Seq::new(set.len(), |k: int| by[set[k] as int])
}

/// The call that lists the groups of a set, where nothing else does.
pub open spec fn listing(
    select: SelectView,
    rows: ExprView,
    by: Seq<GroupingView>,
    measures: Measures,
) -> Option<crate::pql::CallView> {
    if by.len() == 1 && (asks_nothing(measures) || filtered(select.items, 0)) {
        Some(group_keys(rows, by[0]))
    } else if by.len() > 1 && asks_nothing(measures) {
        Some(a_call("GroupByTuple"@, tuple_args(by, rows)))
    } else {
        None
    }
}

/// Some plans with others that are not among them yet.
pub open spec fn with_plans(keys: Seq<usize>, plans: Seq<usize>) -> Seq<usize>
    decreases plans.len(),
{
    if plans.len() == 0 {
        keys
    } else {
        let before = with_plans(keys, plans.drop_last());
        if before.contains(plans.last()) {
            before
        } else {
            before.push(plans.last())
        }
    }
}

/// The plans of the first `n` numbers, with some that were there before.
pub open spec fn plans_upto(keys: Seq<usize>, measures: Measures, n: int) -> Seq<usize>
    decreases n,
{
    if n <= 0 {
        keys
    } else {
        with_plans(plans_upto(keys, measures, n - 1), measures[n - 1].1.read_from())
    }
}

/// What one set comes to: the calls, and the shape that answers it.
pub type Branch = core::result::Result<(Seq<AskView>, ShapeView), SqlErrorView>;

/// The shape of one set. How many columns it names decides which of three it is.
pub open spec fn set_shape(
    axes: nat,
    keys: Seq<usize>,
    cells: Seq<CellView>,
    having: Option<HavingView>,
) -> ShapeView {
    if axes == 0 {
        ShapeView::Row { cells, having }
    } else if axes == 1 {
        ShapeView::Groups { keys, cells, having, order: None, cut: no_cut() }
    } else {
        ShapeView::Tuples { axes: axes as u8, keys, cells, having, order: None, cut: no_cut() }
    }
}

/// The numbers the `HAVING` of a set may name, given the call that lists its groups.
pub open spec fn named_in_set(listed: Seq<usize>, measures: Measures) -> Measures {
    if listed.len() == 1 {
        nameable(measures, listed_counts(listed[0]))
    } else {
        measures
    }
}

/// One set, after the call that lists its groups was asked or not.
pub open spec fn set_answer(
    select: SelectView,
    table: Seq<char>,
    set: Seq<usize>,
    out: Seq<AskView>,
    listed: Seq<usize>,
    measures: Measures,
) -> Branch {
    match having_resolved(
        select.having,
        FrameView::One(table),
        named_in_set(listed, measures),
    ) {
        Err(x) => Err(x),
        Ok(having) => Ok(
            (
                out,
                set_shape(
                    set.len(),
                    rising(plans_upto(listed, measures, measures.len() as int)),
                    cells_for(select.items, table, select.group_by, set, measures),
                    having,
                ),
            ),
        ),
    }
}

/// One set, as the shape that answers it.
pub open spec fn set_branch(
    select: SelectView,
    table: Seq<char>,
    rows: ExprView,
    set: Seq<usize>,
    out: Seq<AskView>,
) -> Branch {
    let at = start_of(select.items);
    let by = held(select.group_by, set);
    match numbers_by(select.items, 0, out, Seq::empty(), at, table, rows, by) {
        Err(x) => Err(x),
        Ok((out2, measures)) => match listing(select, rows, by, measures) {
            None => set_answer(select, table, set, out2, Seq::empty(), measures),
            Some(call) => match asking(out2, at, table, call) {
                Err(x) => Err(x),
                Ok((out3, plan)) => set_answer(select, table, set, out3, seq![plan], measures),
            },
        },
    }
}

/// Every set from a position on.
pub open spec fn set_branches(
    select: SelectView,
    table: Seq<char>,
    rows: ExprView,
    of: Seq<Seq<usize>>,
    k: int,
    out: Seq<AskView>,
    before: Seq<ShapeView>,
) -> core::result::Result<(Seq<AskView>, Seq<ShapeView>), SqlErrorView>
    decreases of.len() - k,
{
    if k < 0 || k >= of.len() {
        Ok((out, before))
    } else {
        match set_branch(select, table, rows, of[k], out) {
            Err(x) => Err(x),
            Ok((out2, shape)) => set_branches(
                select,
                table,
                rows,
                of,
                k + 1,
                out2,
                before.push(shape),
            ),
        }
    }
}

/// A statement with grouping sets.
pub open spec fn lowered_sets(
    select: SelectView,
    table: Seq<char>,
    rows: ExprView,
    of: Seq<Seq<usize>>,
) -> core::result::Result<StatementView, SqlErrorView> {
    match sets_fault(select) {
        Some(x) => Err(x),
        None => match set_branches(select, table, rows, of, 0, Seq::empty(), Seq::empty()) {
            Err(x) => Err(x),
            Ok((calls, branches)) => Ok(
                StatementView {
                    calls,
                    probes: Seq::empty(),
                    reads: Seq::empty(),
                    answer: AnswerView {
                        shape: ShapeView::Union { branches },
                        format: select.format,
                        calls: 0,
                    },
                },
            ),
        },
    }
}

/// Whether every set names columns that are there.
pub open spec fn sets_wf(of: Seq<Seq<usize>>, n: nat) -> bool {
    forall|i: int, j: int|
        #![trigger of[i][j]]
        0 <= i < of.len() && 0 <= j < of[i].len() ==> of[i][j] < n
}

/// Whether some set of a list names a column.
pub open spec fn names_some(of: Seq<Seq<usize>>) -> bool {
    exists|k: int| 0 <= k < of.len() && (#[trigger] of[k]).len() > 0
}

impl SelectView {
    /// Where a statement with grouping sets groups by anything, some set of them does.
    pub open spec fn uses_its_columns(self) -> bool {
        self.grouping_sets matches Some(sets) ==> (self.group_by.len() > 0 ==> names_some(sets.of))
    }
}

/// Refuses what no grouping set can hold.
fn refuse_what_no_set_can_hold(select: &Select) -> (r: Result<()>)
    ensures
        match r {
            Ok(_) => sets_fault(select@) is None,
            Err(e) => sets_fault(select@) == Some(e@),
        },
{
    if let Some(k) = find_first(&select.items, Kind::Star, 0) {
        assert(select@.items[k as int] == select.items@[k as int]@);
        return Err(SqlError::Refused { what: Refused::Shape, at: select.items[k].at });
    }
    if repeats(&select.group_by) {
        assert(select.group_by@.len() > 0);
        assert(select@.group_by[0] == select.group_by@[0]@);
        return Err(SqlError::Refused { what: Refused::Shape, at: select.group_by[0].at });
    }
    check_columns(&select.items, &select.group_by)?;
    check_numbers(&select.items)?;
    if let Some(order) = &select.order_by {
        return Err(SqlError::Refused { what: Refused::RollupOrder, at: order.at });
    }
    if select.limit.is_some() || select.offset.is_some() || select.with_ties {
        return Err(SqlError::Refused { what: Refused::RollupOrder, at: start(&select.items) });
    }
    Ok(())
}

/// The grouped columns a set names.
fn columns_of(by: &Vec<Grouping>, set: &Vec<usize>) -> (r: Vec<Grouping>)
    requires
        forall|k: int| 0 <= k < set@.len() ==> #[trigger] set@[k] < by@.len(),
    ensures
        views(r@) == held(views(by@), set@),
{
    let mut out: Vec<Grouping> = Vec::new();
    let mut k: usize = 0;
    assert(views(out@) =~= held(views(by@), set@).take(0));
    while k < set.len()
        invariant
            k <= set@.len(),
            forall|k: int| 0 <= k < set@.len() ==> #[trigger] set@[k] < by@.len(),
            views(out@) == held(views(by@), set@).take(k as int),
        decreases set.len() - k,
    {
        let ghost before = views(out@);
        let g = by[set[k]].copied();
        out.push(g);
        assert(views(out@) =~= before.push(g@));
        k += 1;
        assert(views(out@) =~= held(views(by@), set@).take(k as int));
    }
    assert(held(views(by@), set@).take(k as int) =~= held(views(by@), set@));
    out
}

/// Whether a list of plans holds one.
fn holds_plan(keys: &Vec<usize>, plan: usize) -> (r: bool)
    ensures
        r == keys@.contains(plan),
{
    let mut k: usize = 0;
    while k < keys.len()
        invariant
            k <= keys@.len(),
            forall|j: int| 0 <= j < k ==> keys@[j] != plan,
        decreases keys.len() - k,
    {
        if keys[k] == plan {
            return true;
        }
        k += 1;
    }
    false
}

/// The plans of some numbers, with those that were there before, in order.
fn plans_of(listed: Vec<usize>, measures: &Vec<(Measure, Of)>) -> (r: Vec<usize>)
    ensures
        r@ == rising(plans_upto(listed@, measured(measures@), measures@.len() as int)),
{
    let mut keys = listed;
    let mut k: usize = 0;
    while k < measures.len()
        invariant
            k <= measures@.len(),
            keys@ == plans_upto(listed@, measured(measures@), k as int),
        decreases measures.len() - k,
    {
        let plans = measures[k].1.plans();
        let ghost before = keys@;
        let mut j: usize = 0;
        assert(plans@.take(0) =~= Seq::<usize>::empty());
        while j < plans.len()
            invariant
                j <= plans@.len(),
                keys@ == with_plans(before, plans@.take(j as int)),
            decreases plans.len() - j,
        {
            assert(plans@.take(j + 1).drop_last() =~= plans@.take(j as int));
            if !holds_plan(&keys, plans[j]) {
                keys.push(plans[j]);
            }
            j += 1;
        }
        assert(plans@.take(j as int) =~= plans@);
        k += 1;
    }
    sort_positions(&keys)
}

/// The call that lists the groups of a set, where nothing else does.
fn list_groups(select: &Select, rows: &Expr, by: &Vec<Grouping>, measures: &Vec<(Measure, Of)>) -> (r: Option<
    crate::pql::Call,
>)
    ensures
        match r {
            Some(c) => listing(select@, rows@, views(by@), measured(measures@)) == Some(c@),
            None => listing(select@, rows@, views(by@), measured(measures@)) is None,
        },
{
    assert(measured(measures@).len() == measures@.len());
    if by.len() == 1 && (nothing_asked(measures) || any_filtered(&select.items)) {
        assert(views(by@)[0] == by@[0]@);
        Some(keys_call(rows.copied(), &by[0]))
    } else if by.len() > 1 && nothing_asked(measures) {
        let args = tuple_arguments(by, rows.copied());
        Some(call_of("GroupByTuple", args))
    } else {
        None
    }
}

/// The shape of one set.
fn shape_of(axes: usize, keys: Vec<usize>, cells: Vec<Cell>, having: Option<Having>) -> (r: Shape)
    requires
        axes <= 255,
    ensures
        r@ == set_shape(
            axes as nat,
            keys@,
            views(cells@),
            match having {
                Some(h) => Some(h@),
                None => None,
            },
        ),
{
    if axes == 0 {
        Shape::Row { cells, having }
    } else if axes == 1 {
        Shape::Groups { keys, cells, having, order: None, cut: Cut::default() }
    } else {
        Shape::Tuples { axes: axes as u8, keys, cells, having, order: None, cut: Cut::default() }
    }
}

/// One set, as the shape that answers it.
fn branch(select: &Select, table: &str, rows: &Expr, set: &Vec<usize>, calls: &mut Calls) -> (r: Result<
    Shape,
>)
    requires
        old(calls).out@.len() <= MAX_CALLS,
        old(calls).at == start_of(select@.items),
        set@.len() <= 255,
        forall|k: int| 0 <= k < set@.len() ==> #[trigger] set@[k] < select.group_by@.len(),
    ensures
        final(calls).at == old(calls).at,
        final(calls).out@.len() <= MAX_CALLS,
        set_branch(select@, table@, rows@, set@, views(old(calls).out@)) == (match r {
            Ok(s) => Ok::<_, SqlErrorView>((views(final(calls).out@), s@)),
            Err(e) => Err(e@),
        }),
{
    let by = columns_of(&select.group_by, set);
    let measures = measures_of(table, rows, &by, &select.items, calls)?;
    let mut listed: Vec<usize> = Vec::new();
    let mut counts: Vec<(Measure, Of)> = Vec::new();
    let mut counted = false;
    if let Some(call) = list_groups(select, rows, &by, &measures) {
        let plan = calls.push(table, call)?;
        listed.push(plan);
        assert(listed@ =~= seq![plan]);
        counts = only_counts(Of::Group { plan, absent: Absent::Zero });
        counted = nothing_asked(&measures);
    } else {
        assert(listed@ =~= Seq::<usize>::empty());
    }
    let named = if counted {
        &counts
    } else {
        &measures
    };
    assert(measured(named@) == named_in_set(listed@, measured(measures@)));
    assert(measured(measures@).len() == measures@.len());
    let keys = plans_of(listed, &measures);
    let cells = cells_of(&select.items, table, &select.group_by, set, &measures);
    let having = having_of(&select.having, Frame::One(table), named)?;
    Ok(shape_of(set.len(), keys, cells, having))
}

/// Every set, and the calls they make.
fn branches_of(select: &Select, table: &str, rows: &Expr, of: &Vec<Vec<usize>>) -> (r: Result<
    (Vec<crate::lower::calls::Ask>, Vec<Shape>),
>)
    requires
        forall|k: int| 0 <= k < of@.len() ==> (#[trigger] of@[k])@.len() <= 255,
        sets_wf(lists(of@), select.group_by@.len()),
    ensures
        set_branches(select@, table@, rows@, lists(of@), 0, Seq::empty(), Seq::empty()) == (match r {
            Ok(p) => Ok::<_, SqlErrorView>((views(p.0@), views(p.1@))),
            Err(e) => Err(e@),
        }),
{
    let mut calls = Calls::new(start(&select.items));
    let mut out: Vec<Shape> = Vec::new();
    let mut k: usize = 0;
    assert(views(out@) =~= Seq::<ShapeView>::empty());
    while k < of.len()
        invariant
            k <= of@.len(),
            calls.out@.len() <= MAX_CALLS,
            calls.at == start_of(select@.items),
            forall|k: int| 0 <= k < of@.len() ==> (#[trigger] of@[k])@.len() <= 255,
            sets_wf(lists(of@), select.group_by@.len()),
            set_branches(select@, table@, rows@, lists(of@), 0, Seq::empty(), Seq::empty())
                == set_branches(
                select@,
                table@,
                rows@,
                lists(of@),
                k as int,
                views(calls.out@),
                views(out@),
            ),
        decreases of.len() - k,
    {
        let ghost before = views(out@);
        assert(lists(of@)[k as int] == of@[k as int]@);
        assert forall|j: int| 0 <= j < of@[k as int]@.len() implies #[trigger] of@[k as int]@[j]
            < select.group_by@.len() by {
            assert(lists(of@)[k as int][j] < select.group_by@.len());
        }
        let shape = branch(select, table, rows, &of[k], &mut calls)?;
        out.push(shape);
        assert(views(out@) =~= before.push(shape@));
        k += 1;
    }
    Ok((calls.out, out))
}

/// One grouping per set of the grouped columns.
pub fn sets(select: &Select, table: &str, rows: &Expr, of: &Vec<Vec<usize>>) -> (r: Result<
    Statement,
>)
    requires
        forall|k: int| 0 <= k < of@.len() ==> (#[trigger] of@[k])@.len() <= 255,
        sets_wf(lists(of@), select.group_by@.len()),
    ensures
        lowered_to(r) == lowered_sets(select@, table@, rows@, lists(of@)),
{
    refuse_what_no_set_can_hold(select)?;
    let (calls, branches) = branches_of(select, table, rows, of)?;
    let probes: Vec<Probe> = Vec::new();
    assert(views(probes@) =~= Seq::<ProbeView>::empty());
    let shape = Shape::Union { branches };
    assert(shape@->Union_branches =~= views(branches@));
    Ok(
        Statement {
            calls,
            probes,
            reads: no_names(),
            answer: Answer { shape, format: select.format, calls: 0 },
        },
    )
}

} // verus!
