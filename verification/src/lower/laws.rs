//! What holds of every statement that is lowered.

use vstd::prelude::*;
use crate::ast::{self, Agg, GroupingView, HavingAggView, ItemView, NameView, OrderKeyView, ProjView, QueryView, SelectView};
use crate::lower::calls::{asking, asking_is_frugal, frugal, AskView, StatementView, MAX_CALLS};
use crate::lower::grouped::{grouped_calls, lowered_grouped, ordering};
use crate::lower::join::{conds_of, lowered_join, pair_counts, required_upto, rows_by_side, sides_of, star, StarView};
use crate::lower::keyed::{cells_for, column_fault, group_keys, number_by, numbers_by, order_number, tuple_args};
use crate::lower::measure::{aliased, asks_nothing, first_of, found, having_resolved, kind_of, labelled, listed_counts, measure, nameable, narrowed, number_named, operand, resolved, side_of, start_of, wanted, FrameView, Kind, MeasureView, Measures, SideView};
use crate::lower::query::{lowered, lowered_one, no_branches, stacked, stacked_from, StackView};
use crate::lower::sets::{held, listing, lowered_sets, named_in_set, names_some, plans_upto, set_answer, set_branch, set_branches, with_plans};
use crate::lower::tuples::{lowered_tuples, tuple_calls};
use crate::lower::ungrouped::{a_call, any_number, gathered, gathered_from, lowered_ungrouped, nothing, one_average, GatheredView};
use crate::parse::grouping::{number_in, rising, upto};
use crate::pql::{CallView, ExprView};
use crate::shape::{cells_moved, having_moved, keys_moved, order_moved, sides_moved, CellView, GroupOrder, HavingView, JoinSide, Keying, Of, OperandView, OrderBy, ShapeView};

verus! {

impl Of {
    /// Whether the plans and the searches a number names are there.
    pub open spec fn fits(self, calls: int, probes: int) -> bool {
        match self {
            Of::Probe { probe } => probe < probes,
            _ => forall|k: int|
                0 <= k < self.read_from().len() ==> (#[trigger] self.read_from()[k]) < calls,
        }
    }
}

/// Whether the numbers of some measures are there.
pub open spec fn measures_fit(measures: Measures, calls: int, probes: int) -> bool {
    forall|k: int| 0 <= k < measures.len() ==> (#[trigger] measures[k]).1.fits(calls, probes)
}

/// Whether the numbers of some cells are there.
pub open spec fn cells_fit(cells: Seq<CellView>, calls: int, probes: int) -> bool {
    forall|k: int| 0 <= k < cells.len() ==> (#[trigger] cells[k]).of.fits(calls, probes)
}

/// Whether the plans of some positions are there.
pub open spec fn keys_fit(keys: Seq<usize>, calls: int) -> bool {
    forall|k: int| 0 <= k < keys.len() ==> (#[trigger] keys[k]) < calls
}

impl OperandView {
    /// Whether the number an operand names is there.
    pub open spec fn fits(self, calls: int, probes: int) -> bool {
        match self {
            OperandView::Of { of, .. } => of.fits(calls, probes),
            _ => true,
        }
    }
}

impl HavingView {
    /// Whether the numbers a condition names are there.
    pub open spec fn fits(self, calls: int, probes: int) -> bool
        decreases self,
    {
        match self {
            HavingView::And(a, b) => a.fits(calls, probes) && b.fits(calls, probes),
            HavingView::Or(a, b) => a.fits(calls, probes) && b.fits(calls, probes),
            HavingView::Not(a) => a.fits(calls, probes),
            HavingView::Cmp { left, right, .. } => left.fits(calls, probes) && right.fits(
                calls,
                probes,
            ),
        }
    }
}

/// Whether the numbers a condition names are there, when there is one.
pub open spec fn having_fits(h: Option<HavingView>, calls: int, probes: int) -> bool {
    match h {
        Some(h) => h.fits(calls, probes),
        None => true,
    }
}

/// Whether the number an order is by is there, when there is one.
pub open spec fn order_fits(o: Option<GroupOrder>, calls: int, probes: int) -> bool {
    match o {
        Some(GroupOrder { by: OrderBy::Value { of }, .. }) => of.fits(calls, probes),
        _ => true,
    }
}

/// Whether the plans the sides of a join are keyed by are there.
pub open spec fn sides_fit(sides: Seq<JoinSide>, calls: int) -> bool {
    forall|k: int|
        0 <= k < sides.len() ==> match (#[trigger] sides[k]).keyed {
            Keying::By { plan, .. } => plan < calls,
        }
}

impl ShapeView {
    /// Whether every plan and every search a shape names is there.
    pub open spec fn fits(self, calls: int, probes: int) -> bool
        decreases self,
    {
        match self {
            ShapeView::Row { cells, having } => cells_fit(cells, calls, probes) && having_fits(
                having,
                calls,
                probes,
            ),
            ShapeView::Records { .. } => true,
            ShapeView::Table { .. } => true,
            ShapeView::Union { branches } => forall|k: int|
                0 <= k < branches.len() ==> (#[trigger] branches[k]).fits(calls, probes),
            ShapeView::Pairs { keys, cells, having, order, .. } => keys_fit(keys, calls)
                && cells_fit(cells, calls, probes) && having_fits(having, calls, probes)
                && order_fits(order, calls, probes),
            ShapeView::Tuples { keys, cells, having, order, .. } => keys_fit(keys, calls)
                && cells_fit(cells, calls, probes) && having_fits(having, calls, probes)
                && order_fits(order, calls, probes),
            ShapeView::Join { sides, cells, having, order, .. } => sides_fit(sides, calls)
                && cells_fit(cells, calls, probes) && having_fits(having, calls, probes)
                && order_fits(order, calls, probes),
            ShapeView::Groups { keys, cells, having, order, .. } => keys_fit(keys, calls)
                && cells_fit(cells, calls, probes) && having_fits(having, calls, probes)
                && order_fits(order, calls, probes),
        }
    }
}

proof fn lemma_of_more(of: Of, calls: int, probes: int, c2: int, p2: int)
    requires
        of.fits(calls, probes),
        calls <= c2,
        probes <= p2,
    ensures
        of.fits(c2, p2),
{
}

proof fn lemma_measures_more(m: Measures, calls: int, probes: int, c2: int, p2: int)
    requires
        measures_fit(m, calls, probes),
        calls <= c2,
        probes <= p2,
    ensures
        measures_fit(m, c2, p2),
{
    assert forall|k: int| 0 <= k < m.len() implies (#[trigger] m[k]).1.fits(c2, p2) by {
        lemma_of_more(m[k].1, calls, probes, c2, p2);
    }
}

proof fn lemma_average(out: Seq<AskView>, at: usize, table: Seq<char>, sum: CallView, count: CallView)
    requires
        frugal(out),
    ensures
        one_average(out, at, table, sum, count) matches Ok((out2, of)) ==> frugal(out2)
            && out.is_prefix_of(out2) && of.fits(out2.len() as int, 0),
{
    asking_is_frugal(out, at, table, sum);
    match asking(out, at, table, sum) {
        Ok((out2, _)) => {
            asking_is_frugal(out2, at, table, count);
        },
        Err(_) => {},
    }
}

/// A number of one entry is one the calls hold.
proof fn lemma_number(
    out: Seq<AskView>,
    at: usize,
    table: Seq<char>,
    rows: ExprView,
    by: Seq<GroupingView>,
    item: ItemView,
)
    requires
        frugal(out),
    ensures
        number_by(out, at, table, rows, by, item) matches Ok((out2, of)) ==> frugal(out2)
            && out.is_prefix_of(out2) && of.fits(out2.len() as int, 0),
        any_number(out, at, table, rows, item) matches Ok((out2, of)) ==> frugal(out2)
            && out.is_prefix_of(out2) && of.fits(out2.len() as int, 0),
{
    assert forall|call: CallView|
        #[trigger] asking(out, at, table, call) matches Ok((out2, k)) ==> frugal(out2) && out.is_prefix_of(out2)
            && k < out2.len() by {
        asking_is_frugal(out, at, table, call);
    }
    assert forall|sum: CallView, count: CallView|
        #[trigger] one_average(out, at, table, sum, count) matches Ok((out2, of)) ==> frugal(out2)
            && out.is_prefix_of(out2) && of.fits(out2.len() as int, 0) by {
        lemma_average(out, at, table, sum, count);
    }
}

proof fn lemma_numbers(
    items: Seq<ItemView>,
    k: int,
    out: Seq<AskView>,
    measures: Measures,
    at: usize,
    table: Seq<char>,
    rows: ExprView,
    by: Seq<GroupingView>,
)
    requires
        frugal(out),
        measures_fit(measures, out.len() as int, 0),
    ensures
        numbers_by(items, k, out, measures, at, table, rows, by) matches Ok((out2, m)) ==> frugal(
            out2,
        ) && out.is_prefix_of(out2) && measures_fit(m, out2.len() as int, 0) && measures.is_prefix_of(m),
    decreases items.len() - k,
{
    if 0 <= k < items.len() {
        if kind_of(items[k]) != Kind::Number {
            lemma_numbers(items, k + 1, out, measures, at, table, rows, by);
        } else {
            let mine = narrowed(rows, items[k]);
            lemma_number(out, at, table, mine, by, items[k]);
            match number_by(out, at, table, mine, by, items[k]) {
                Ok((out2, of)) => {
                    lemma_measures_more(measures, out.len() as int, 0, out2.len() as int, 0);
                    lemma_numbers(
                        items,
                        k + 1,
                        out2,
                        measures.push((measure(items[k]), of)),
                        at,
                        table,
                        rows,
                        by,
                    );
                },
                Err(_) => {},
            }
        }
    }
}

proof fn lemma_found(want: MeasureView, m: Measures, k: int, calls: int, probes: int)
    requires
        measures_fit(m, calls, probes),
    ensures
        found(want, m, k) matches Some(of) ==> of.fits(calls, probes),
    decreases m.len() - k,
{
    if 0 <= k < m.len() && m[k].0 != want {
        lemma_found(want, m, k + 1, calls, probes);
    }
}

proof fn lemma_named(a: HavingAggView, m: Measures, calls: int, probes: int)
    requires
        measures_fit(m, calls, probes),
        m.len() == 0 ==> calls > 0,
    ensures
        number_named(a, m) matches Some(of) ==> of.fits(calls, probes),
{
    lemma_found(wanted(a), m, 0, calls, probes);
}

proof fn lemma_aliased(
    items: Seq<ItemView>,
    m: Measures,
    name: Seq<char>,
    k: int,
    n: int,
    calls: int,
    probes: int,
)
    requires
        measures_fit(m, calls, probes),
    ensures
        aliased(items, m, name, k, n) matches Some(of) ==> of.fits(calls, probes),
    decreases items.len() - k,
{
    if 0 <= k < items.len() {
        lemma_aliased(items, m, name, k + 1, n, calls, probes);
        lemma_aliased(items, m, name, k + 1, n + 1, calls, probes);
    }
}

proof fn lemma_order_number(
    key: OrderKeyView,
    items: Seq<ItemView>,
    m: Measures,
    calls: int,
    probes: int,
)
    requires
        measures_fit(m, calls, probes),
        m.len() == 0 ==> calls > 0,
    ensures
        order_number(key, items, m) matches Some(of) ==> of.fits(calls, probes),
{
    match key {
        OrderKeyView::Count => lemma_named(HavingAggView::Count, m, calls, probes),
        OrderKeyView::Agg { func, field } => lemma_named(
            HavingAggView::Agg { func, field },
            m,
            calls,
            probes,
        ),
        OrderKeyView::Avg(field) => lemma_named(HavingAggView::Avg(field), m, calls, probes),
        OrderKeyView::Name(n) => lemma_aliased(items, m, n.column, 0, 0, calls, probes),
    }
}

proof fn lemma_resolved(
    h: ast::HavingView,
    frame: FrameView,
    m: Measures,
    calls: int,
    probes: int,
)
    requires
        measures_fit(m, calls, probes),
        m.len() == 0 ==> calls > 0,
    ensures
        resolved(h, frame, m) matches Ok(r) ==> r.fits(calls, probes),
    decreases h,
{
    match h {
        ast::HavingView::And(a, b) => {
            lemma_resolved(*a, frame, m, calls, probes);
            lemma_resolved(*b, frame, m, calls, probes);
        },
        ast::HavingView::Or(a, b) => {
            lemma_resolved(*a, frame, m, calls, probes);
            lemma_resolved(*b, frame, m, calls, probes);
        },
        ast::HavingView::Not(a) => {
            lemma_resolved(*a, frame, m, calls, probes);
        },
        ast::HavingView::Cmp { left, op, right, at } => {
            lemma_operand(left, right, frame, m, at, calls, probes);
            lemma_operand(right, left, frame, m, at, calls, probes);
        },
    }
}

proof fn lemma_operand(
    o: ast::HavingOperandView,
    other: ast::HavingOperandView,
    frame: FrameView,
    m: Measures,
    at: usize,
    calls: int,
    probes: int,
)
    requires
        measures_fit(m, calls, probes),
        m.len() == 0 ==> calls > 0,
    ensures
        operand(o, other, frame, m, at) matches Ok(r) ==> r.fits(calls, probes),
{
    match o {
        ast::HavingOperandView::Agg(a) => lemma_named(a, m, calls, probes),
        _ => {},
    }
}

proof fn lemma_having(
    h: Option<ast::HavingView>,
    frame: FrameView,
    m: Measures,
    calls: int,
    probes: int,
)
    requires
        measures_fit(m, calls, probes),
        h is Some && m.len() == 0 ==> calls > 0,
    ensures
        having_resolved(h, frame, m) matches Ok(r) ==> having_fits(r, calls, probes),
{
    match h {
        Some(h) => lemma_resolved(h, frame, m, calls, probes),
        None => {},
    }
}

proof fn lemma_cells(
    items: Seq<ItemView>,
    table: Seq<char>,
    by: Seq<GroupingView>,
    set: Seq<usize>,
    m: Measures,
    calls: int,
    probes: int,
)
    requires
        measures_fit(m, calls, probes),
    ensures
        cells_fit(cells_for(items, table, by, set, m), calls, probes),
{
    let cells = cells_for(items, table, by, set, m);
    assert forall|k: int| 0 <= k < cells.len() implies (#[trigger] cells[k]).of.fits(calls, probes) by {
        let n = crate::lower::keyed::numbers_upto(items, k) as int;
        if 0 <= n < m.len() {
            assert(m[n].1.fits(calls, probes));
        }
    }
}

/// A statement asks no more than it may, and its shape names only what it asks.
pub open spec fn sound(s: StatementView) -> bool {
    &&& s.calls.len() <= MAX_CALLS
    &&& s.answer.shape.fits(s.calls.len() as int, s.probes.len() as int)
}

proof fn lemma_gathered(
    items: Seq<ItemView>,
    k: int,
    g: GatheredView,
    at: usize,
    table: Seq<char>,
    rows: ExprView,
)
    requires
        0 <= k,
        frugal(g.calls),
        measures_fit(g.measures, g.calls.len() as int, g.probes.len() as int),
        cells_fit(g.cells, g.calls.len() as int, g.probes.len() as int),
        g.probes.len() <= k,
        items.len() <= usize::MAX,
        g.measures.len() == k,
    ensures
        gathered_from(items, k, g, at, table, rows) matches Ok(r) ==> {
            &&& frugal(r.calls)
            &&& measures_fit(r.measures, r.calls.len() as int, r.probes.len() as int)
            &&& cells_fit(r.cells, r.calls.len() as int, r.probes.len() as int)
            &&& k <= items.len() ==> r.measures.len() == items.len()
        },
    decreases items.len() - k,
{
    if k < items.len() {
        let mine = narrowed(rows, items[k]);
        lemma_number(g.calls, at, table, mine, Seq::empty(), items[k]);
        match gathered(g, at, table, rows, items[k]) {
            Ok(g2) => {
                lemma_measures_more(
                    g.measures,
                    g.calls.len() as int,
                    g.probes.len() as int,
                    g2.calls.len() as int,
                    g2.probes.len() as int,
                );
                assert forall|j: int| 0 <= j < g.cells.len() implies (#[trigger] g.cells[j]).of.fits(
                    g2.calls.len() as int,
                    g2.probes.len() as int,
                ) by {
                    lemma_of_more(
                        g.cells[j].of,
                        g.calls.len() as int,
                        g.probes.len() as int,
                        g2.calls.len() as int,
                        g2.probes.len() as int,
                    );
                }
                assert(g2.cells.last().of.fits(g2.calls.len() as int, g2.probes.len() as int));
                lemma_gathered(items, k + 1, g2, at, table, rows);
            },
            Err(_) => {},
        }
    }
}

proof fn lemma_ungrouped(select: SelectView, table: Seq<char>, rows: ExprView)
    requires
        select.items.len() <= usize::MAX,
        select.items.len() > 0,
    ensures
        lowered_ungrouped(select, table, rows) matches Ok(s) ==> sound(s),
{
    let at = match first_of(select.items, Kind::Number, 0) {
        Some(k) => select.items[k].at,
        None => 0,
    };
    lemma_gathered(select.items, 0, nothing(), at, table, rows);
    match gathered_from(select.items, 0, nothing(), at, table, rows) {
        Ok(g) => {
            lemma_having(
                select.having,
                FrameView::One(table),
                g.measures,
                g.calls.len() as int,
                g.probes.len() as int,
            );
        },
        Err(_) => {},
    }
}

proof fn lemma_listed(
    out: Seq<AskView>,
    at: usize,
    table: Seq<char>,
    call: CallView,
    m: Measures,
)
    requires
        frugal(out),
        measures_fit(m, out.len() as int, 0),
    ensures
        asking(out, at, table, call) matches Ok((out2, plan)) ==> frugal(out2) && measures_fit(
            m,
            out2.len() as int,
            0,
        ) && plan < out2.len() as int,
{
    asking_is_frugal(out, at, table, call);
    match asking(out, at, table, call) {
        Ok((out2, _)) => lemma_measures_more(m, out.len() as int, 0, out2.len() as int, 0),
        Err(_) => {},
    }
}

/// A number that comes from a call comes from one that is there.
proof fn lemma_some_call(m: Measures, calls: int)
    requires
        measures_fit(m, calls, 0),
        !asks_nothing(m),
    ensures
        calls > 0,
{
    let k = choose|k: int|
        0 <= k < m.len() && (#[trigger] m[k]).1.read_from().len() != 0;
    assert(m[k].1.fits(calls, 0));
    assert(m[k].1.read_from()[0] < calls);
}

/// Numbers that come from no call are there whatever is asked.
proof fn lemma_asks_nothing_fits(m: Measures, calls: int, c2: int)
    requires
        asks_nothing(m),
        measures_fit(m, calls, 0),
    ensures
        measures_fit(m, c2, 0),
{
    assert forall|k: int| 0 <= k < m.len() implies (#[trigger] m[k]).1.fits(c2, 0) by {
        assert(m[k].1.read_from().len() == 0);
        assert(m[k].1.fits(calls, 0));
    }
}

/// A grouping by one column always asks for its groups, whatever its list holds beside them.
pub proof fn a_grouping_asks_for_its_groups(select: SelectView, table: Seq<char>, rows: ExprView)
    requires
        select.group_by.len() == 1,
    ensures
        lowered_grouped(select, table, rows) matches Ok(s) ==> {
            &&& s.calls.len() > 0
            &&& s.answer.shape matches ShapeView::Groups { keys, .. } && keys.len() > 0
        },
{
    let at = start_of(select.items);
    let none = Seq::<AskView>::empty();
    lemma_numbers(select.items, 0, none, Seq::empty(), at, table, rows, select.group_by);
    match numbers_by(select.items, 0, none, Seq::empty(), at, table, rows, select.group_by) {
        Ok((out, m)) => {
            lemma_listed(out, at, table, group_keys(rows, select.group_by[0]), m);
            if !asks_nothing(m) {
                lemma_some_call(m, out.len() as int);
            }
        },
        Err(_) => {},
    }
}

proof fn lemma_grouped(select: SelectView, table: Seq<char>, rows: ExprView)
    requires
        select.group_by.len() == 1,
    ensures
        lowered_grouped(select, table, rows) matches Ok(s) ==> sound(s),
{
    let at = start_of(select.items);
    lemma_numbers(
        select.items,
        0,
        Seq::empty(),
        Seq::empty(),
        at,
        table,
        rows,
        select.group_by,
    );
    match numbers_by(
        select.items,
        0,
        Seq::empty(),
        Seq::empty(),
        at,
        table,
        rows,
        select.group_by,
    ) {
        Ok((out, m)) => {
            lemma_listed(out, at, table, group_keys(rows, select.group_by[0]), m);
        },
        Err(_) => {},
    }
    match grouped_calls(select, table, rows) {
        Ok((out, m)) => {
            let c = out.len() as int;
            if !asks_nothing(m) {
                lemma_some_call(m, c);
            }
            let named = nameable(m, listed_counts(0));
            assert(measures_fit(named, c, 0));
            lemma_having(select.having, FrameView::One(table), named, c, 0);
            lemma_cells(select.items, table, select.group_by, seq![0], m, c, 0);
            if select.order_by is Some {
                lemma_order_number(select.order_by->0.key, select.items, m, c, 0);
                lemma_order_number(select.order_by->0.key, select.items, named, c, 0);
            }
            match ordering(select, select.group_by[0], m) {
                Ok((true, _)) => {
                    lemma_first(select.items, 0, at, table, rows, select.group_by);
                    if asks_nothing(m) {
                        lemma_asks_nothing_fits(m, c, 1);
                    }
                    assert(measures_fit(m, 1, 0));
                    assert(measures_fit(named, 1, 0));
                    lemma_having(select.having, FrameView::One(table), named, 1, 0);
                    lemma_cells(select.items, table, select.group_by, seq![0], m, 1, 0);
                },
                _ => {},
            }
        },
        Err(_) => {},
    }
}

/// The first number of a grouping, when it is a count, is the first call's.
proof fn lemma_first(
    items: Seq<ItemView>,
    k: int,
    at: usize,
    table: Seq<char>,
    rows: ExprView,
    by: Seq<GroupingView>,
)
    requires
        by.len() == 1,
    ensures
        numbers_by(items, k, Seq::empty(), Seq::empty(), at, table, rows, by) matches Ok((_, m)) ==> m.len()
            > 0 && m[0].0 is Count ==> m[0].1.fits(1, 0),
    decreases items.len() - k,
{
    if 0 <= k < items.len() {
        if kind_of(items[k]) != Kind::Number {
            lemma_first(items, k + 1, at, table, rows, by);
        } else {
            let none = Seq::<AskView>::empty();
            let mine = narrowed(rows, items[k]);
            lemma_number(none, at, table, mine, by, items[k]);
            match number_by(none, at, table, mine, by, items[k]) {
                Ok((out, of)) => {
                    let m = Seq::<(MeasureView, Of)>::empty().push((measure(items[k]), of));
                    lemma_numbers(items, k + 1, out, m, at, table, rows, by);
                    match numbers_by(items, k + 1, out, m, at, table, rows, by) {
                        Ok((_, all)) => {
                            assert(all.subrange(0, 1)[0] == all[0]);
                            assert(all[0] == m[0]);
                        },
                        Err(_) => {},
                    }
                    if measure(items[k]) is Count {
                        assert(items[k].leaf() is Count);
                        assert(of == (Of::Group { plan: 0, absent: crate::shape::Absent::Zero }));
                    }
                },
                Err(_) => {},
            }
        }
    }
}

proof fn lemma_tuples(select: SelectView, table: Seq<char>, rows: ExprView)
    ensures
        lowered_tuples(select, table, rows) matches Ok(s) ==> sound(s),
{
    let at = start_of(select.items);
    let none = Seq::<AskView>::empty();
    lemma_numbers(select.items, 0, none, Seq::empty(), at, table, rows, select.group_by);
    match numbers_by(select.items, 0, none, Seq::empty(), at, table, rows, select.group_by) {
        Ok((out, m)) => {
            let call = a_call("GroupByTuple"@, tuple_args(select.group_by, rows));
            lemma_listed(out, at, table, call, m);
        },
        Err(_) => {},
    }
    match tuple_calls(select, table, rows) {
        Ok((out, m)) => {
            assert(m.len() == 0 ==> out.len() > 0);
            lemma_having(select.having, FrameView::One(table), m, out.len() as int, 0);
            lemma_cells(
                select.items,
                table,
                select.group_by,
                upto(select.group_by.len()),
                m,
                out.len() as int,
                0,
            );
            if select.order_by is Some {
                lemma_order_number(select.order_by->0.key, select.items, m, out.len() as int, 0);
            }
        },
        Err(_) => {},
    }
}

proof fn lemma_having_more(h: HavingView, calls: int, probes: int, c2: int, p2: int)
    requires
        h.fits(calls, probes),
        calls <= c2,
        probes <= p2,
    ensures
        h.fits(c2, p2),
    decreases h,
{
    match h {
        HavingView::And(a, b) => {
            lemma_having_more(*a, calls, probes, c2, p2);
            lemma_having_more(*b, calls, probes, c2, p2);
        },
        HavingView::Or(a, b) => {
            lemma_having_more(*a, calls, probes, c2, p2);
            lemma_having_more(*b, calls, probes, c2, p2);
        },
        HavingView::Not(a) => lemma_having_more(*a, calls, probes, c2, p2),
        HavingView::Cmp { .. } => {},
    }
}

/// What is there stays there when there is more.
proof fn lemma_shape_more(shape: ShapeView, calls: int, probes: int, c2: int, p2: int)
    requires
        shape.fits(calls, probes),
        calls <= c2,
        probes <= p2,
    ensures
        shape.fits(c2, p2),
    decreases shape,
{
    match shape {
        ShapeView::Row { having, .. } => {
            if having is Some {
                lemma_having_more(having->0, calls, probes, c2, p2);
            }
        },
        ShapeView::Records { .. } => {},
        ShapeView::Table { .. } => {},
        ShapeView::Union { branches } => {
            assert forall|k: int| 0 <= k < branches.len() implies (#[trigger] branches[k]).fits(c2, p2) by {
                lemma_shape_more(branches[k], calls, probes, c2, p2);
            }
        },
        ShapeView::Pairs { having, .. } => {
            if having is Some {
                lemma_having_more(having->0, calls, probes, c2, p2);
            }
        },
        ShapeView::Tuples { having, .. } => {
            if having is Some {
                lemma_having_more(having->0, calls, probes, c2, p2);
            }
        },
        ShapeView::Join { having, .. } => {
            if having is Some {
                lemma_having_more(having->0, calls, probes, c2, p2);
            }
        },
        ShapeView::Groups { having, .. } => {
            if having is Some {
                lemma_having_more(having->0, calls, probes, c2, p2);
            }
        },
    }
}

/// Whether a condition over groups may count on a call that lists them: there is one, and no
/// number for it to name.
pub open spec fn counts_on_one(select: SelectView) -> bool {
    select.having is Some && first_of(select.items, Kind::Number, 0) is None
}

/// How many calls a shape may count on.
pub open spec fn at_least(calls: int, one: bool) -> int {
    if one && calls == 0 {
        1
    } else {
        calls
    }
}

/// There is something measured exactly where there is a number.
proof fn lemma_measured(
    items: Seq<ItemView>,
    k: int,
    out: Seq<AskView>,
    measures: Measures,
    at: usize,
    table: Seq<char>,
    rows: ExprView,
    by: Seq<GroupingView>,
)
    ensures
        numbers_by(items, k, out, measures, at, table, rows, by) matches Ok((_, m)) ==> measures.len()
            <= m.len() && (first_of(items, Kind::Number, k) is Some <==> measures.len() < m.len()),
    decreases items.len() - k,
{
    if 0 <= k < items.len() {
        if kind_of(items[k]) != Kind::Number {
            lemma_measured(items, k + 1, out, measures, at, table, rows, by);
        } else {
            match number_by(out, at, table, narrowed(rows, items[k]), by, items[k]) {
                Ok((out2, of)) => {
                    let m = measures.push((measure(items[k]), of));
                    lemma_measured(items, k + 1, out2, m, at, table, rows, by);
                },
                Err(_) => {},
            }
        }
    }
}

proof fn lemma_with_plans(keys: Seq<usize>, plans: Seq<usize>, calls: int)
    requires
        keys_fit(keys, calls),
        keys_fit(plans, calls),
    ensures
        keys_fit(with_plans(keys, plans), calls),
    decreases plans.len() as int,
{
    if plans.len() > 0 {
        assert(keys_fit(plans.drop_last(), calls)) by {
            assert forall|k: int| 0 <= k < plans.drop_last().len() implies (#[trigger] plans.drop_last()[k])
                < calls by {
                assert(plans[k] < calls);
            }
        }
        assert(plans[plans.len() - 1] < calls);
        lemma_with_plans(keys, plans.drop_last(), calls);
    }
}

proof fn lemma_plans_upto(keys: Seq<usize>, m: Measures, n: int, calls: int)
    requires
        keys_fit(keys, calls),
        measures_fit(m, calls, 0),
        n <= m.len() as int,
    ensures
        keys_fit(plans_upto(keys, m, n), calls),
    decreases n,
{
    if n > 0 {
        lemma_plans_upto(keys, m, n - 1, calls);
        assert(m[n - 1].1.fits(calls, 0));
        lemma_with_plans(plans_upto(keys, m, n - 1), m[n - 1].1.read_from(), calls);
    }
}

proof fn lemma_plans_kept(keys: Seq<usize>, plans: Seq<usize>)
    requires
        keys.len() > 0 || plans.len() > 0,
    ensures
        with_plans(keys, plans).len() > 0,
    decreases plans.len() as int,
{
    if plans.len() > 0 {
        let before = with_plans(keys, plans.drop_last());
        assert(before.contains(plans.last()) ==> before.len() > 0);
    }
}

proof fn lemma_plans_some(keys: Seq<usize>, m: Measures, n: int, k: int)
    requires
        0 <= n <= m.len(),
        keys.len() > 0 || (0 <= k < n && m[k].1.read_from().len() > 0),
    ensures
        plans_upto(keys, m, n).len() > 0,
    decreases n,
{
    if n > 0 {
        if keys.len() > 0 || k < n - 1 {
            lemma_plans_some(keys, m, n - 1, k);
        }
        lemma_plans_kept(plans_upto(keys, m, n - 1), m[n - 1].1.read_from());
    }
}

proof fn lemma_rising_len(s: Seq<usize>)
    ensures
        rising(s).len() == s.len(),
    decreases s.len() as int,
{
    if s.len() > 0 {
        lemma_rising_len(s.drop_last());
        lemma_number_in_len(rising(s.drop_last()), s.last());
    }
}

proof fn lemma_number_in_len(s: Seq<usize>, x: usize)
    ensures
        number_in(s, x).len() == s.len() + 1,
    decreases s.len() as int,
{
    if s.len() > 0 && x < s.last() {
        lemma_number_in_len(s.drop_last(), x);
    }
}

/// A grouping set that names a column always asks for its groups, whatever the list holds beside
/// them.
pub proof fn a_set_asks_for_its_groups(
    select: SelectView,
    table: Seq<char>,
    rows: ExprView,
    set: Seq<usize>,
    out: Seq<AskView>,
)
    requires
        set.len() > 0,
    ensures
        set_branch(select, table, rows, set, out) matches Ok((_, shape)) ==> match shape {
            ShapeView::Groups { keys, .. } => keys.len() > 0,
            ShapeView::Tuples { keys, .. } => keys.len() > 0,
            _ => false,
        },
{
    let at = start_of(select.items);
    let by = held(select.group_by, set);
    match numbers_by(select.items, 0, out, Seq::empty(), at, table, rows, by) {
        Ok((out2, m)) => {
            let k = choose|k: int|
                0 <= k < m.len() && (#[trigger] m[k]).1.read_from().len() != 0;
            match listing(select, rows, by, m) {
                None => {
                    lemma_plans_some(Seq::empty(), m, m.len() as int, k);
                    lemma_rising_len(plans_upto(Seq::empty(), m, m.len() as int));
                },
                Some(call) => match asking(out2, at, table, call) {
                    Ok((out3, plan)) => {
                        lemma_plans_some(seq![plan], m, m.len() as int, k);
                        lemma_rising_len(plans_upto(seq![plan], m, m.len() as int));
                    },
                    Err(_) => {},
                },
            }
        },
        Err(_) => {},
    }
}

proof fn lemma_number_in(s: Seq<usize>, x: usize, calls: int)
    requires
        keys_fit(s, calls),
        x < calls,
    ensures
        keys_fit(number_in(s, x), calls),
    decreases s.len() as int,
{
    if s.len() > 0 && x < s.last() {
        assert(keys_fit(s.drop_last(), calls)) by {
            assert forall|k: int| 0 <= k < s.drop_last().len() implies (#[trigger] s.drop_last()[k])
                < calls by {
                assert(s[k] < calls);
            }
        }
        assert(s[s.len() - 1] < calls);
        lemma_number_in(s.drop_last(), x, calls);
    }
}

proof fn lemma_rising(s: Seq<usize>, calls: int)
    requires
        keys_fit(s, calls),
    ensures
        keys_fit(rising(s), calls),
    decreases s.len() as int,
{
    if s.len() > 0 {
        assert(keys_fit(s.drop_last(), calls)) by {
            assert forall|k: int| 0 <= k < s.drop_last().len() implies (#[trigger] s.drop_last()[k])
                < calls by {
                assert(s[k] < calls);
            }
        }
        assert(s[s.len() - 1] < calls);
        lemma_rising(s.drop_last(), calls);
        lemma_number_in(rising(s.drop_last()), s.last(), calls);
    }
}

proof fn lemma_set_answer(
    select: SelectView,
    table: Seq<char>,
    set: Seq<usize>,
    out: Seq<AskView>,
    listed: Seq<usize>,
    m: Measures,
)
    requires
        measures_fit(m, out.len() as int, 0),
        keys_fit(listed, out.len() as int),
        m.len() == 0 ==> first_of(select.items, Kind::Number, 0) is None,
    ensures
        set_answer(select, table, set, out, listed, m) matches Ok((out2, shape)) ==> out2 == out
            && shape.fits(at_least(out.len() as int, counts_on_one(select)), 0),
{
    let c = at_least(out.len() as int, counts_on_one(select));
    lemma_measures_more(m, out.len() as int, 0, c, 0);
    let named = named_in_set(listed, m);
    if listed.len() == 1 {
        assert(listed[0] < out.len() as int);
    }
    assert(measures_fit(named, c, 0));
    lemma_having(select.having, FrameView::One(table), named, c, 0);
    lemma_cells(select.items, table, select.group_by, set, m, c, 0);
    lemma_plans_upto(listed, m, m.len() as int, out.len() as int);
    lemma_rising(plans_upto(listed, m, m.len() as int), out.len() as int);
    let keys = rising(plans_upto(listed, m, m.len() as int));
    assert(keys_fit(keys, c)) by {
        assert forall|k: int| 0 <= k < keys.len() implies (#[trigger] keys[k]) < c by {
            assert(keys[k] < out.len() as int);
        }
    }
}

proof fn lemma_set_branch(
    select: SelectView,
    table: Seq<char>,
    rows: ExprView,
    set: Seq<usize>,
    out: Seq<AskView>,
)
    requires
        frugal(out),
    ensures
        set_branch(select, table, rows, set, out) matches Ok((out2, shape)) ==> frugal(out2)
            && out.len() <= out2.len() && shape.fits(
            at_least(out2.len() as int, counts_on_one(select)),
            0,
        ) && (set.len() > 0 && counts_on_one(select) ==> out2.len() > 0),
{
    let at = start_of(select.items);
    let by = held(select.group_by, set);
    lemma_numbers(select.items, 0, out, Seq::empty(), at, table, rows, by);
    lemma_measured(select.items, 0, out, Seq::empty(), at, table, rows, by);
    match numbers_by(select.items, 0, out, Seq::empty(), at, table, rows, by) {
        Ok((out2, m)) => match listing(select, rows, by, m) {
            None => lemma_set_answer(select, table, set, out2, Seq::empty(), m),
            Some(call) => {
                asking_is_frugal(out2, at, table, call);
                lemma_listed(out2, at, table, call, m);
                match asking(out2, at, table, call) {
                    Ok((out3, plan)) => {
                        lemma_set_answer(select, table, set, out3, seq![plan], m);
                    },
                    Err(_) => {},
                }
            },
        },
        Err(_) => {},
    }
}

/// Whether every shape of a list names only what is there.
pub open spec fn shapes_fit(shapes: Seq<ShapeView>, calls: int, probes: int) -> bool {
    forall|k: int| 0 <= k < shapes.len() ==> (#[trigger] shapes[k]).fits(calls, probes)
}

proof fn lemma_shapes_more(shapes: Seq<ShapeView>, calls: int, probes: int, c2: int, p2: int)
    requires
        shapes_fit(shapes, calls, probes),
        calls <= c2,
        probes <= p2,
    ensures
        shapes_fit(shapes, c2, p2),
{
    assert forall|k: int| 0 <= k < shapes.len() implies (#[trigger] shapes[k]).fits(c2, p2) by {
        lemma_shape_more(shapes[k], calls, probes, c2, p2);
    }
}

proof fn lemma_set_branches(
    select: SelectView,
    table: Seq<char>,
    rows: ExprView,
    of: Seq<Seq<usize>>,
    k: int,
    out: Seq<AskView>,
    before: Seq<ShapeView>,
)
    requires
        frugal(out),
        shapes_fit(before, at_least(out.len() as int, counts_on_one(select)), 0),
        0 <= k,
    ensures
        set_branches(select, table, rows, of, k, out, before) matches Ok((out2, shapes)) ==> frugal(
            out2,
        ) && shapes_fit(shapes, at_least(out2.len() as int, counts_on_one(select)), 0) && out.len()
            <= out2.len() && (counts_on_one(select) ==> forall|j: int|
            k <= j < of.len() && (#[trigger] of[j]).len() > 0 ==> out2.len() > 0),
    decreases of.len() - k,
{
    if 0 <= k < of.len() {
        lemma_set_branch(select, table, rows, of[k], out);
        match set_branch(select, table, rows, of[k], out) {
            Ok((out2, shape)) => {
                lemma_shapes_more(
                    before,
                    at_least(out.len() as int, counts_on_one(select)),
                    0,
                    at_least(out2.len() as int, counts_on_one(select)),
                    0,
                );
                lemma_set_branches(select, table, rows, of, k + 1, out2, before.push(shape));
            },
            Err(_) => {},
        }
    }
}

proof fn lemma_lowered_sets(
    select: SelectView,
    table: Seq<char>,
    rows: ExprView,
    of: Seq<Seq<usize>>,
)
    requires
        select.items.len() > 0,
        select.group_by.len() > 0 ==> names_some(of),
    ensures
        lowered_sets(select, table, rows, of) matches Ok(s) ==> sound(s),
{
    lemma_set_branches(select, table, rows, of, 0, Seq::empty(), Seq::empty());
    if lowered_sets(select, table, rows, of) is Ok && counts_on_one(select) {
        assert(kind_of(select.items[0]) == Kind::Column);
        assert(select.items[0].leaf() is Column);
        assert(column_fault(select.items, select.group_by, 0) is None);
        assert(select.group_by.len() > 0);
        let j = choose|j: int| 0 <= j < of.len() && (#[trigger] of[j]).len() > 0;
        assert(of[j].len() > 0);
    }
}

proof fn lemma_labelled(sides: Seq<SideView>, label: Seq<char>, k: int)
    requires
        0 <= k,
    ensures
        labelled(sides, label, k) matches Some(i) ==> k <= i < sides.len() as int,
    decreases sides.len() - k,
{
    if k < sides.len() && sides[k].label != label {
        lemma_labelled(sides, label, k + 1);
    }
}

/// A column's side is one of the sides.
proof fn lemma_side(sides: Seq<SideView>, name: NameView, at: usize)
    requires
        sides.len() <= usize::MAX,
    ensures
        side_of(sides, name, at) matches Ok(k) ==> k < sides.len() as int,
{
    if name.qualifier is Some {
        lemma_labelled(sides, name.qualifier->0, 0);
    }
}

proof fn lemma_counted(star: StarView, k: int, out: Seq<AskView>, plans: Seq<usize>, at: usize)
    requires
        0 <= k <= star.sides.len() as int,
        plans.len() == k,
        frugal(out),
        keys_fit(plans, out.len() as int),
        k > 0 ==> out.len() > 0,
    ensures
        star.counted_from(k, out, plans, at) matches Ok((out2, plans2)) ==> frugal(out2)
            && keys_fit(plans2, out2.len() as int) && plans2.len() == star.sides.len() && (
        star.sides.len() > 0 ==> out2.len() > 0),
    decreases star.sides.len() - k,
{
    if k < star.sides.len() {
        asking_is_frugal(out, at, star.sides[k].table, star.counts(k));
        match asking(out, at, star.sides[k].table, star.counts(k)) {
            Ok((out2, plan)) => {
                let more = plans.push(plan);
                assert forall|j: int| 0 <= j < more.len() implies (#[trigger] more[j]) < out2.len() by {
                    if j < plans.len() {
                        assert(plans[j] < out.len() as int);
                    }
                }
                lemma_counted(star, k + 1, out2, more, at);
            },
            Err(_) => {},
        }
    }
}

proof fn lemma_join_number(
    star: StarView,
    item: ItemView,
    per_key: bool,
    plans: Seq<usize>,
    out: Seq<AskView>,
    at: usize,
)
    requires
        frugal(out),
        keys_fit(plans, out.len() as int),
        plans.len() == star.sides.len() as int,
        0 < star.sides.len() <= usize::MAX,
    ensures
        star.number(item, per_key, plans, out, at) matches Ok((out2, of)) ==> frugal(out2)
            && out.is_prefix_of(out2) && of.fits(out2.len() as int, 0),
{
    match item.leaf() {
        ProjView::Count => {
            assert(plans[0] < out.len() as int);
        },
        ProjView::Agg { func, field } => {
            lemma_side(star.sides, field, item.at);
            match side_of(star.sides, field, item.at) {
                Ok(side) => {
                    asking_is_frugal(
                        out,
                        at,
                        star.sides[side as int].table,
                        star.aggregates(side as int, func, field),
                    );
                },
                Err(_) => {},
            }
        },
        ProjView::Avg(field) => {
            lemma_side(star.sides, field, item.at);
            match side_of(star.sides, field, item.at) {
                Ok(side) => {
                    asking_is_frugal(
                        out,
                        at,
                        star.sides[side as int].table,
                        star.aggregates(side as int, Agg::Sum, field),
                    );
                    assert(plans[side as int] < out.len() as int);
                },
                Err(_) => {},
            }
        },
        _ => {},
    }
}

proof fn lemma_keys_more(keys: Seq<usize>, calls: int, c2: int)
    requires
        keys_fit(keys, calls),
        calls <= c2,
    ensures
        keys_fit(keys, c2),
{
    assert forall|k: int| 0 <= k < keys.len() implies (#[trigger] keys[k]) < c2 by {
        assert(keys[k] < calls);
    }
}

proof fn lemma_join_numbers(
    star: StarView,
    items: Seq<ItemView>,
    k: int,
    per_key: bool,
    plans: Seq<usize>,
    out: Seq<AskView>,
    m: Measures,
    at: usize,
)
    requires
        frugal(out),
        keys_fit(plans, out.len() as int),
        plans.len() == star.sides.len() as int,
        0 < star.sides.len() <= usize::MAX,
        measures_fit(m, out.len() as int, 0),
    ensures
        star.numbers(items, k, per_key, plans, out, m, at) matches Ok((out2, m2)) ==> frugal(out2)
            && out.len() <= out2.len() && measures_fit(m2, out2.len() as int, 0),
    decreases items.len() - k,
{
    if 0 <= k < items.len() {
        if kind_of(items[k]) != Kind::Number {
            lemma_join_numbers(star, items, k + 1, per_key, plans, out, m, at);
        } else {
            lemma_join_number(star, items[k], per_key, plans, out, at);
            match star.number(items[k], per_key, plans, out, at) {
                Ok((out2, of)) => {
                    lemma_measures_more(m, out.len() as int, 0, out2.len() as int, 0);
                    lemma_keys_more(plans, out.len() as int, out2.len() as int);
                    lemma_join_numbers(
                        star,
                        items,
                        k + 1,
                        per_key,
                        plans,
                        out2,
                        m.push((measure(items[k]), of)),
                        at,
                    );
                },
                Err(_) => {},
            }
        }
    }
}

proof fn lemma_join_cells(
    star: StarView,
    items: Seq<ItemView>,
    k: int,
    n: int,
    m: Measures,
    before: Seq<CellView>,
    calls: int,
)
    requires
        measures_fit(m, calls, 0),
        cells_fit(before, calls, 0),
    ensures
        star.cells(items, k, n, m, before) matches Ok(cells) ==> cells_fit(cells, calls, 0),
    decreases items.len() - k,
{
    if 0 <= k < items.len() {
        match star.units(items[k]) {
            Ok(units) => {
                let number = kind_of(items[k]) == Kind::Number;
                let cell = CellView {
                    column: items[k].column(),
                    of: if !number || n < 0 || n >= m.len() {
                        Of::Key
                    } else {
                        m[n].1
                    },
                    units,
                    apply: items[k].apply(),
                };
                assert(cell.of.fits(calls, 0));
                lemma_join_cells(
                    star,
                    items,
                    k + 1,
                    if number {
                        n + 1
                    } else {
                        n
                    },
                    m,
                    before.push(cell),
                    calls,
                );
            },
            Err(_) => {},
        }
    }
}

proof fn lemma_join_answer(
    star: StarView,
    select: SelectView,
    per_key: bool,
    plans: Seq<usize>,
    calls: Seq<AskView>,
    m: Measures,
    at: usize,
)
    requires
        calls.len() > 0,
        frugal(calls),
        plans.len() > 0,
        keys_fit(plans, calls.len() as int),
        measures_fit(m, calls.len() as int, 0),
    ensures
        star.answer(select, per_key, plans, calls, m, at) matches Ok(s) ==> sound(s),
{
    let c = calls.len() as int;
    lemma_join_cells(star, select.items, 0, 0, m, Seq::empty(), c);
    let named = nameable(m, pair_counts(plans));
    assert(plans[0] < c);
    assert(measures_fit(named, c, 0));
    lemma_having(select.having, FrameView::Many(star.sides), named, c, 0);
    if select.order_by is Some {
        lemma_order_number(select.order_by->0.key, select.items, m, c, 0);
        lemma_order_number(select.order_by->0.key, select.items, named, c, 0);
    }
    let required = required_upto(select.joins, select.joins.len() as int);
    let sides = star.join_sides(plans, required);
    assert(sides_fit(sides, c)) by {
        assert forall|k: int| 0 <= k < sides.len() implies match (#[trigger] sides[k]).keyed {
            Keying::By { plan, .. } => plan < c,
        } by {
            assert(plans[k] < c);
        }
    }
}

proof fn lemma_join(select: SelectView)
    ensures
        lowered_join(select) matches Ok(s) ==> sound(s),
{
    let sides = sides_of(select);
    let at = start_of(select.items);
    if lowered_join(select) is Ok {
        let keys = star(select.joins, sides)->Ok_0;
        let conds = conds_of(select, sides)->Ok_0;
        let st = StarView { sides, keys, rows: rows_by_side(conds) };
        lemma_counted(st, 0, Seq::empty(), Seq::empty(), at);
        let (out, plans) = st.counted_from(0, Seq::empty(), Seq::empty(), at)->Ok_0;
        let per_key = st.per_key(select, at)->Ok_0;
        lemma_join_numbers(st, select.items, 0, per_key, plans, out, Seq::empty(), at);
        let (calls, m) = st.numbers(select.items, 0, per_key, plans, out, Seq::empty(), at)->Ok_0;
        lemma_keys_more(plans, out.len() as int, calls.len() as int);
        lemma_join_answer(st, select, per_key, plans, calls, m, at);
    }
}

impl SelectView {
    /// Whether a `SELECT` lists something, and some of its grouping sets names a column where it
    /// groups by any.
    pub open spec fn asks(self) -> bool {
        0 < self.items.len() <= usize::MAX && self.uses_its_columns()
    }
}

impl QueryView {
    /// Whether every `SELECT` of a query does.
    pub open spec fn asks(self) -> bool {
        forall|k: int| 0 <= k < self.branches.len() ==> (#[trigger] self.branches[k]).asks()
    }
}

proof fn lemma_one(select: SelectView)
    requires
        select.asks(),
    ensures
        lowered_one(select) matches Ok(s) ==> sound(s),
{
    let table = select.from.qualified();
    if select.joins.len() > 0 {
        lemma_join(select);
    } else if select.grouping_sets is Some {
        lemma_lowered_sets(select, table, select.rows(), select.grouping_sets->0.of);
    } else if select.group_by.len() == 0 {
        lemma_ungrouped(select, table, select.rows());
    } else if select.group_by.len() == 1 {
        lemma_grouped(select, table, select.rows());
    } else {
        lemma_tuples(select, table, select.rows());
    }
}

proof fn lemma_of_moved(of: Of, n: usize, m: usize, calls: int, probes: int)
    requires
        of.fits(calls, probes),
        calls + n <= usize::MAX,
        probes + m <= usize::MAX,
    ensures
        of.moved(n, m).fits(calls + n, probes + m),
{
    let r = of.moved(n, m);
    if !(of is Probe) {
        assert(r.read_from().len() == of.read_from().len());
        assert forall|k: int| 0 <= k < r.read_from().len() implies (#[trigger] r.read_from()[k]) < calls
            + n by {
            assert(of.read_from()[k] < calls);
        }
    }
}

proof fn lemma_cells_moved(cells: Seq<CellView>, n: usize, m: usize, calls: int, probes: int)
    requires
        cells_fit(cells, calls, probes),
        calls + n <= usize::MAX,
        probes + m <= usize::MAX,
    ensures
        cells_fit(cells_moved(cells, n, m), calls + n, probes + m),
{
    let r = cells_moved(cells, n, m);
    assert forall|k: int| 0 <= k < r.len() implies (#[trigger] r[k]).of.fits(calls + n, probes + m) by {
        assert(cells[k].of.fits(calls, probes));
        lemma_of_moved(cells[k].of, n, m, calls, probes);
    }
}

proof fn lemma_having_moved(h: HavingView, n: usize, m: usize, calls: int, probes: int)
    requires
        h.fits(calls, probes),
        calls + n <= usize::MAX,
        probes + m <= usize::MAX,
    ensures
        h.moved(n, m).fits(calls + n, probes + m),
    decreases h,
{
    match h {
        HavingView::And(a, b) => {
            lemma_having_moved(*a, n, m, calls, probes);
            lemma_having_moved(*b, n, m, calls, probes);
        },
        HavingView::Or(a, b) => {
            lemma_having_moved(*a, n, m, calls, probes);
            lemma_having_moved(*b, n, m, calls, probes);
        },
        HavingView::Not(a) => lemma_having_moved(*a, n, m, calls, probes),
        HavingView::Cmp { left, right, .. } => {
            if left is Of {
                lemma_of_moved(left->Of_of, n, m, calls, probes);
            }
            if right is Of {
                lemma_of_moved(right->Of_of, n, m, calls, probes);
            }
        },
    }
}

proof fn lemma_rest_moved(
    h: Option<HavingView>,
    o: Option<GroupOrder>,
    n: usize,
    m: usize,
    calls: int,
    probes: int,
)
    requires
        having_fits(h, calls, probes),
        order_fits(o, calls, probes),
        calls + n <= usize::MAX,
        probes + m <= usize::MAX,
    ensures
        having_fits(having_moved(h, n, m), calls + n, probes + m),
        order_fits(order_moved(o, n, m), calls + n, probes + m),
{
    if h is Some {
        lemma_having_moved(h->0, n, m, calls, probes);
    }
    match o {
        Some(GroupOrder { by: OrderBy::Value { of }, .. }) => {
            lemma_of_moved(of, n, m, calls, probes);
        },
        _ => {},
    }
}

proof fn lemma_keys_moved(keys: Seq<usize>, n: usize, calls: int)
    requires
        keys_fit(keys, calls),
        calls + n <= usize::MAX,
    ensures
        keys_fit(keys_moved(keys, n), calls + n),
{
    let r = keys_moved(keys, n);
    assert forall|k: int| 0 <= k < r.len() implies (#[trigger] r[k]) < calls + n by {
        assert(keys[k] < calls);
    }
}

/// A shape moved up by what comes before it names what is there.
proof fn lemma_shape_moved(shape: ShapeView, n: usize, m: usize, calls: int, probes: int)
    requires
        shape.fits(calls, probes),
        calls + n <= usize::MAX,
        probes + m <= usize::MAX,
    ensures
        shape.moved(n, m).fits(calls + n, probes + m),
    decreases shape,
{
    match shape {
        ShapeView::Row { cells, having } => {
            lemma_cells_moved(cells, n, m, calls, probes);
            lemma_rest_moved(having, None, n, m, calls, probes);
        },
        ShapeView::Records { .. } => {},
        ShapeView::Table { .. } => {},
        ShapeView::Union { branches } => {
            let r = shape.moved(n, m)->Union_branches;
            assert forall|k: int| 0 <= k < r.len() implies (#[trigger] r[k]).fits(calls + n, probes + m) by {
                assert(branches[k].fits(calls, probes));
                lemma_shape_moved(branches[k], n, m, calls, probes);
            }
        },
        ShapeView::Pairs { keys, cells, having, order, .. } => {
            lemma_keys_moved(keys, n, calls);
            lemma_cells_moved(cells, n, m, calls, probes);
            lemma_rest_moved(having, order, n, m, calls, probes);
        },
        ShapeView::Tuples { keys, cells, having, order, .. } => {
            lemma_keys_moved(keys, n, calls);
            lemma_cells_moved(cells, n, m, calls, probes);
            lemma_rest_moved(having, order, n, m, calls, probes);
        },
        ShapeView::Join { sides, cells, having, order, .. } => {
            let r = sides_moved(sides, n);
            assert(sides_fit(r, calls + n)) by {
                assert forall|k: int| 0 <= k < r.len() implies match (#[trigger] r[k]).keyed {
                    Keying::By { plan, .. } => plan < calls + n,
                } by {
                    assert(match sides[k].keyed {
                        Keying::By { plan, .. } => plan < calls,
                    });
                }
            }
            lemma_cells_moved(cells, n, m, calls, probes);
            lemma_rest_moved(having, order, n, m, calls, probes);
        },
        ShapeView::Groups { keys, cells, having, order, .. } => {
            lemma_keys_moved(keys, n, calls);
            lemma_cells_moved(cells, n, m, calls, probes);
            lemma_rest_moved(having, order, n, m, calls, probes);
        },
    }
}

#[verifier::rlimit(30)]
proof fn lemma_stacked(branches: Seq<SelectView>, k: int, s: StackView, at: usize)
    requires
        0 <= k,
        s.calls.len() <= MAX_CALLS,
        shapes_fit(s.shapes, s.calls.len() as int, s.probes.len() as int),
        forall|j: int| 0 <= j < branches.len() ==> (#[trigger] branches[j]).asks(),
    ensures
        stacked_from(branches, k, s, at) matches Ok(r) ==> s.probes.len() <= r.probes.len()
            && r.calls.len() <= MAX_CALLS && (r.probes.len() <= usize::MAX ==> shapes_fit(
            r.shapes,
            r.calls.len() as int,
            r.probes.len() as int,
        )),
    decreases branches.len() - k,
{
    if k < branches.len() {
        lemma_one(branches[k]);
        match stacked(s, branches[k], at) {
            Ok(s2) => {
                let one = lowered_one(branches[k])->Ok_0;
                if s2.probes.len() <= usize::MAX {
                    let shape = one.answer.shape;
                    let up = shape.moved(s.calls.len() as usize, 0);
                    lemma_shape_moved(
                        shape,
                        s.calls.len() as usize,
                        0,
                        one.calls.len() as int,
                        one.probes.len() as int,
                    );
                    lemma_shape_moved(
                        up,
                        0,
                        s.probes.len() as usize,
                        s2.calls.len() as int,
                        one.probes.len() as int,
                    );
                    lemma_shapes_more(
                        s.shapes,
                        s.calls.len() as int,
                        s.probes.len() as int,
                        s2.calls.len() as int,
                        s2.probes.len() as int,
                    );
                    lemma_stacked(branches, k + 1, s2, at);
                } else {
                    lemma_probes_grow(branches, k + 1, s2, at);
                }
            },
            Err(_) => {},
        }
    }
}

proof fn lemma_probes_grow(branches: Seq<SelectView>, k: int, s: StackView, at: usize)
    requires
        s.calls.len() <= MAX_CALLS,
    ensures
        stacked_from(branches, k, s, at) matches Ok(r) ==> s.probes.len() <= r.probes.len()
            && r.calls.len() <= MAX_CALLS,
    decreases branches.len() - k,
{
    if 0 <= k < branches.len() {
        match stacked(s, branches[k], at) {
            Ok(s2) => lemma_probes_grow(branches, k + 1, s2, at),
            Err(_) => {},
        }
    }
}

/// A lowered query makes no more calls than a statement may, says how many it makes, and its
/// shape names no plan and no search that is not there.
///
/// Every `SELECT` in it lists something, and names a column in some grouping set where it groups
/// by any, as every query that is read does.
pub proof fn a_shape_names_what_is_asked(query: QueryView)
    requires
        query.asks(),
    ensures
        lowered(query) matches Ok(s) ==> s.probes.len() <= usize::MAX ==> sound(s)
            && s.answer.calls == s.calls.len() as int,
{
    if query.branches.len() == 1 {
        lemma_one(query.branches[0]);
    } else {
        let at = if query.branches.len() > 0 {
            start_of(query.branches[0].items)
        } else {
            0
        };
        lemma_stacked(query.branches, 0, no_branches(), at);
    }
}

} // verus!
