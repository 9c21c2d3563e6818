//! `FROM a JOIN b ON a.k = b.k`, as arithmetic over what each side already answers.
//!
//! For each key every side holds, the join is the Cartesian product of the records holding it,
//! so every aggregate over it is a product of per-key numbers. The calls are ordinary groupings,
//! one per table; the join itself is a shape applied to the merged answers.

use vstd::prelude::*;
use crate::ast::{Agg, Cond, CondView, Item, ItemView, Join, JoinKind, JoinView, Name, NameView, Order, OrderKey, OrderKeyView, Proj, ProjView, Select, SelectView, SourceView};
use crate::error::{Refused, Result, SqlError, SqlErrorView};
use crate::lower::calls::{no_names, asking, AskView, Calls, Probe, ProbeView, Statement, StatementView, MAX_CALLS};
use crate::lower::cond::{rows, selected};
use crate::lower::grouped::{cut, cut_of};
use crate::lower::keyed::{aggregate_arg, order_number, ordered_number};
use crate::lower::measure::{field_measured, find_first, first_of, having_of, having_resolved, kind, kind_of, measure, measure_of, measured, measured_field, nameable, nothing_asked, only_counts, opt_view, side_of, start, start_of, Frame, FrameView, Kind, Measure, MeasureView, Measures, Scope, SideView};
use crate::lower::pql::{all_rows, as_expr, call1, call2, call3, every_row, field_arg, named, over};
use crate::lower::ungrouped::{a_call, apply_of, counted, lowered_to, Counted};
use crate::parse::cursor::refusal;
use crate::parse::select::both;
use crate::pql::{Call, CallView, Expr, ExprView};
use crate::shape::{Answer, AnswerView, Cell, CellView, GroupOrder, Having, HavingView, JoinSide, Keying, Of, OrderBy, Pairing, Shape, ShapeView, Units, UnitsView};
use crate::text::{same, views};

verus! {

/// A table under the name the statement calls it by.
pub open spec fn side(source: SourceView) -> SideView {
    SideView { label: source.label(), table: source.qualified() }
}

/// The tables of a join: `FROM` first, then each `JOIN` in the order written.
pub open spec fn sides_of(select: SelectView) -> Seq<SideView> {
    seq![side(select.from)] + Seq::new(select.joins.len(), |k: int| side(select.joins[k].source))
}

/// The first table, from a position on, that is in scope under a name another has.
pub open spec fn label_fault(sides: Seq<SideView>, k: int) -> Option<int>
    decreases sides.len() - k,
{
    if k < 0 || k >= sides.len() {
        None
    } else if exists|j: int| 0 <= j < k && (#[trigger] sides[j]).label == sides[k].label {
        Some(k)
    } else {
        label_fault(sides, k + 1)
    }
}

/// The keys found so far, one per table.
pub type Keys = Seq<Option<NameView>>;

/// What comes of looking at one more join.
pub type Keyed = core::result::Result<Keys, SqlErrorView>;

/// One table's key. A table named twice has to be named on the same column both times.
pub open spec fn keyed(keys: Keys, side: usize, name: NameView, at: usize) -> Keyed {
    match keys[side as int] {
        None => Ok(keys.update(side as int, Some(name))),
        Some(k) => if k.column == name.column {
            Ok(keys)
        } else {
            Err(refusal(Refused::Joins, at))
        },
    }
}

/// One join: the table it brings in on one side of its `ON`, and a table already there on the
/// other.
pub open spec fn star_step(keys: Keys, n: int, join: JoinView, sides: Seq<SideView>) -> Keyed {
    match side_of(sides, join.left, join.at) {
        Err(x) => Err(x),
        Ok(l) => match side_of(sides, join.right, join.at) {
            Err(x) => Err(x),
            Ok(r) => if (l == n + 1) == (r == n + 1) || l > n + 1 || r > n + 1 {
                Err(refusal(Refused::JoinOn, join.at))
            } else {
                match keyed(keys, l, join.left, join.at) {
                    Err(x) => Err(x),
                    Ok(keys2) => keyed(keys2, r, join.right, join.at),
                }
            },
        },
    }
}

/// Every join from a position on.
pub open spec fn star_from(keys: Keys, joins: Seq<JoinView>, n: int, sides: Seq<SideView>) -> Keyed
    decreases joins.len() - n,
{
    if n < 0 || n >= joins.len() {
        Ok(keys)
    } else {
        match star_step(keys, n, joins[n], sides) {
            Err(x) => Err(x),
            Ok(keys2) => star_from(keys2, joins, n + 1, sides),
        }
    }
}

/// One key column per table, which is what makes several joins a star.
pub open spec fn star(joins: Seq<JoinView>, sides: Seq<SideView>) -> core::result::Result<
    Seq<NameView>,
    SqlErrorView,
> {
    match star_from(Seq::new(sides.len(), |k: int| None), joins, 0, sides) {
        Err(x) => Err(x),
        Ok(keys) => Ok(Seq::new(keys.len(), |k: int| keys[k]->0)),
    }
}

/// Which tables have to hold a key for it to be a row, after the first `n` joins.
pub open spec fn required_upto(joins: Seq<JoinView>, n: int) -> Seq<bool>
    decreases n,
{
    if n <= 0 {
        seq![true]
    } else {
        let before = required_upto(joins, n - 1);
        match joins[n - 1].kind {
            JoinKind::Inner => before.push(true),
            JoinKind::Left => before.push(false),
            JoinKind::Right => Seq::new(before.len(), |k: int| false).push(true),
            JoinKind::Full => Seq::new(before.len(), |k: int| false).push(false),
        }
    }
}

/// The first full join, from a position on.
pub open spec fn first_full(joins: Seq<JoinView>, k: int) -> Option<int>
    decreases joins.len() - k,
{
    if k < 0 || k >= joins.len() {
        None
    } else if joins[k].kind is Full {
        Some(k)
    } else {
        first_full(joins, k + 1)
    }
}

/// Whether every join is a full one.
pub open spec fn all_full(joins: Seq<JoinView>) -> bool {
    forall|k: int| 0 <= k < joins.len() ==> (#[trigger] joins[k]).kind is Full
}

/// A full join is answered only where every join is one.
pub open spec fn full_fault(joins: Seq<JoinView>) -> Option<SqlErrorView> {
    match first_full(joins, 0) {
        Some(k) => if all_full(joins) {
            None
        } else {
            Some(refusal(Refused::OuterJoin, joins[k].at))
        },
        None => None,
    }
}

/// Which of a join's tables a condition mentions.
#[derive(Clone, Copy, PartialEq, Eq, Debug, Structural)]
pub enum Touch {
    Nothing,
    One(usize),
    Several,
}

/// Both of two mentions.
pub open spec fn touching_both(a: Touch, b: Touch) -> Touch {
    match (a, b) {
        (Touch::Nothing, x) => x,
        (x, Touch::Nothing) => x,
        (Touch::One(x), Touch::One(y)) => if x == y {
            a
        } else {
            Touch::Several
        },
        _ => Touch::Several,
    }
}

/// What comes of asking which tables a condition mentions.
pub type Touched = core::result::Result<Touch, SqlErrorView>;

/// The table of one column.
pub open spec fn touching(name: NameView, sides: Seq<SideView>, at: usize) -> Touched {
    match side_of(sides, name, at) {
        Ok(k) => Ok(Touch::One(k)),
        Err(x) => Err(x),
    }
}

/// Which of a join's tables a condition mentions.
pub open spec fn touches(c: CondView, sides: Seq<SideView>, at: usize) -> Touched
    decreases c,
{
    match c {
        CondView::And(a, b) => match touches(*a, sides, at) {
            Err(x) => Err(x),
            Ok(x) => match touches(*b, sides, at) {
                Err(e) => Err(e),
                Ok(y) => Ok(touching_both(x, y)),
            },
        },
        CondView::Or(a, b) => match touches(*a, sides, at) {
            Err(x) => Err(x),
            Ok(x) => match touches(*b, sides, at) {
                Err(e) => Err(e),
                Ok(y) => Ok(touching_both(x, y)),
            },
        },
        CondView::Not(inner) => touches(*inner, sides, at),
        CondView::Cmp { field, .. } => touching(field, sides, at),
        CondView::In { field, .. } => touching(field, sides, at),
        CondView::Between { field, .. } => touching(field, sides, at),
        CondView::Like { field, .. } => touching(field, sides, at),
        CondView::Rounded { field, .. } => touching(field, sides, at),
        CondView::InRecords { field, .. } => touching(field, sides, at),
        CondView::Segment { at, .. } => Err(refusal(Refused::Segment, at)),
    }
}

/// One condition per table, where the table has one.
pub type Conds = Seq<Option<CondView>>;

/// A `WHERE` split into each table's own conditions. Only an `AND` can be split: a pair matched
/// by either side of an `OR` is not one side's to select.
pub open spec fn split(c: CondView, sides: Seq<SideView>, at: usize) -> core::result::Result<
    Conds,
    SqlErrorView,
>
    decreases c,
{
    match c {
        CondView::And(a, b) => match split(*a, sides, at) {
            Err(x) => Err(x),
            Ok(x) => match split(*b, sides, at) {
                Err(e) => Err(e),
                Ok(y) => Ok(Seq::new(sides.len(), |k: int| both(x[k], y[k]))),
            },
        },
        _ => match touches(c, sides, at) {
            Err(x) => Err(x),
            Ok(Touch::One(side)) => Ok(
                Seq::new(sides.len(), |k: int| if k == side { Some(c) } else { None }),
            ),
            Ok(_) => Err(refusal(Refused::JoinFilter, at)),
        },
    }
}

/// Each table's own conditions, when there are any.
pub open spec fn conds_of(select: SelectView, sides: Seq<SideView>) -> core::result::Result<
    Conds,
    SqlErrorView,
> {
    match select.filter {
        None => Ok(Seq::new(sides.len(), |k: int| None)),
        Some(c) => split(c, sides, 0),
    }
}

/// The records each table's own conditions leave.
pub open spec fn rows_by_side(conds: Conds) -> Seq<ExprView> {
    Seq::new(
        conds.len(),
        |k: int|
            match conds[k] {
                Some(c) => selected(c),
                None => every_row(),
            },
    )
}

/// What a join knows of each side: its table, its key and its records.
#[verifier::ext_equal]
pub struct StarView {
    pub sides: Seq<SideView>,
    pub keys: Seq<NameView>,
    pub rows: Seq<ExprView>,
}

impl StarView {
    /// One side's per-key record count, which is the plan a join is built out of.
    pub open spec fn counts(self, k: int) -> CallView {
        a_call("Distinct"@, seq![self.rows[k], over(self.keys[k])])
    }

    /// One side's per-key aggregate of one of its own columns.
    pub open spec fn aggregates(self, k: int, func: Agg, field: NameView) -> CallView {
        a_call(
            "GroupBy"@,
            seq![self.rows[k], over(self.keys[k]), aggregate_arg(func.called(), field)],
        )
    }

    /// The plan of each side's counts, from a side on.
    pub open spec fn counted_from(
        self,
        k: int,
        out: Seq<AskView>,
        plans: Seq<usize>,
        at: usize,
    ) -> core::result::Result<(Seq<AskView>, Seq<usize>), SqlErrorView>
        decreases self.sides.len() - k,
    {
        if k < 0 || k >= self.sides.len() {
            Ok((out, plans))
        } else {
            match asking(out, at, self.sides[k].table, self.counts(k)) {
                Err(x) => Err(x),
                Ok((out2, plan)) => self.counted_from(k + 1, out2, plans.push(plan), at),
            }
        }
    }

    /// Whether the answer is one row per key. The key is the only column every side agrees on, so
    /// it is the only one a join groups by.
    pub open spec fn per_key(self, select: SelectView, at: usize) -> core::result::Result<
        bool,
        SqlErrorView,
    > {
        if select.group_by.len() == 0 {
            Ok(false)
        } else if select.group_by.len() > 1 || select.group_by[0].bucket is Some {
            Err(refusal(Refused::JoinShape, at))
        } else {
            let name = select.group_by[0].name;
            match side_of(self.sides, name, at) {
                Err(x) => Err(x),
                Ok(k) => if name.column == self.keys[k as int].column {
                    Ok(true)
                } else {
                    Err(refusal(Refused::JoinShape, at))
                },
            }
        }
    }

    /// The first column, from a position on, that is not the key of a row.
    pub open spec fn column_fault(self, items: Seq<ItemView>, k: int, per_key: bool) -> Option<
        SqlErrorView,
    >
        decreases items.len() - k,
    {
        if k < 0 || k >= items.len() {
            None
        } else {
            match items[k].leaf() {
                ProjView::Column(name) => match side_of(self.sides, name, items[k].at) {
                    Err(x) => Some(x),
                    Ok(s) => if !per_key || name.column != self.keys[s as int].column {
                        Some(refusal(Refused::JoinShape, items[k].at))
                    } else {
                        self.column_fault(items, k + 1, per_key)
                    },
                },
                _ => self.column_fault(items, k + 1, per_key),
            }
        }
    }

    /// One number over the join, as the per-key numbers it is arithmetic over.
    pub open spec fn number(
        self,
        item: ItemView,
        per_key: bool,
        plans: Seq<usize>,
        out: Seq<AskView>,
        at: usize,
    ) -> Counted {
        if item.filter is Some {
            Err(refusal(Refused::JoinShape, item.at))
        } else {
            match item.leaf() {
                ProjView::Now { unix_seconds } => Ok((out, Of::Now { unix_seconds })),
                ProjView::Count => Ok((out, pair_counts(plans))),
                ProjView::Agg { func, field } => match side_of(self.sides, field, item.at) {
                    Err(x) => Err(x),
                    Ok(side) => match asking(
                        out,
                        at,
                        self.sides[side as int].table,
                        self.aggregates(side as int, func, field),
                    ) {
                        Err(x) => Err(x),
                        Ok((out2, plan)) => Ok((out2, Of::Paired { plan, side, how: pairing(func) })),
                    },
                },
                ProjView::CountDistinct(field) => match side_of(self.sides, field, item.at) {
                    Err(x) => Err(x),
                    Ok(side) => if field.column != self.keys[side as int].column || per_key {
                        Err(refusal(Refused::JoinShape, item.at))
                    } else {
                        Ok((out, Of::SharedKeys))
                    },
                },
                ProjView::Avg(field) => match side_of(self.sides, field, item.at) {
                    Err(x) => Err(x),
                    Ok(side) => match asking(
                        out,
                        at,
                        self.sides[side as int].table,
                        self.aggregates(side as int, Agg::Sum, field),
                    ) {
                        Err(x) => Err(x),
                        Ok((out2, top)) => Ok(
                            (
                                out2,
                                Of::PairedRatio { top, bottom: plans[side as int], side },
                            ),
                        ),
                    },
                },
                _ => Err(refusal(Refused::JoinShape, item.at)),
            }
        }
    }

    /// The numbers of every entry that is one, from a position on.
    pub open spec fn numbers(
        self,
        items: Seq<ItemView>,
        k: int,
        per_key: bool,
        plans: Seq<usize>,
        out: Seq<AskView>,
        measures: Measures,
        at: usize,
    ) -> core::result::Result<(Seq<AskView>, Measures), SqlErrorView>
        decreases items.len() - k,
    {
        if k < 0 || k >= items.len() {
            Ok((out, measures))
        } else if kind_of(items[k]) != Kind::Number {
            self.numbers(items, k + 1, per_key, plans, out, measures, at)
        } else {
            match self.number(items[k], per_key, plans, out, at) {
                Err(x) => Err(x),
                Ok((out2, of)) => self.numbers(
                    items,
                    k + 1,
                    per_key,
                    plans,
                    out2,
                    measures.push((measure(items[k]), of)),
                    at,
                ),
            }
        }
    }

    /// What one entry is measured in: the units of the field it was read from, seconds for an
    /// instant, and nothing for a count.
    pub open spec fn units(self, item: ItemView) -> core::result::Result<UnitsView, SqlErrorView> {
        match measured_field(item.proj) {
            None => if item.leaf() is Now {
                Ok(UnitsView::Seconds)
            } else {
                Ok(UnitsView::Digits(0))
            },
            Some(field) => match side_of(self.sides, field, item.at) {
                Err(x) => Err(x),
                Ok(k) => Ok(
                    UnitsView::Written {
                        table: self.sides[k as int].table,
                        field: field.column,
                    },
                ),
            },
        }
    }

    /// The cells of a row, from an entry on. `n` is how many numbers the entries before it have.
    pub open spec fn cells(
        self,
        items: Seq<ItemView>,
        k: int,
        n: int,
        measures: Measures,
        before: Seq<CellView>,
    ) -> core::result::Result<Seq<CellView>, SqlErrorView>
        decreases items.len() - k,
    {
        if k < 0 || k >= items.len() {
            Ok(before)
        } else {
            match self.units(items[k]) {
                Err(x) => Err(x),
                Ok(units) => {
                    let number = kind_of(items[k]) == Kind::Number;
                    let cell = CellView {
                        column: items[k].column(),
                        of: if !number || n < 0 || n >= measures.len() {
                            Of::Key
                        } else {
                            measures[n].1
                        },
                        units,
                        apply: items[k].apply(),
                    };
                    self.cells(
                        items,
                        k + 1,
                        if number {
                            n + 1
                        } else {
                            n
                        },
                        measures,
                        before.push(cell),
                    )
                },
            }
        }
    }

    /// The order of a join, which orders the keys in it.
    pub open spec fn order(
        self,
        select: SelectView,
        measures: Measures,
        named: Measures,
        per_key: bool,
    ) -> core::result::Result<Option<GroupOrder>, SqlErrorView> {
        match select.order_by {
            None => Ok(None),
            Some(order) => if !per_key {
                Err(refusal(Refused::Order, order.at))
            } else {
                match order_number(
                    order.key,
                    select.items,
                    if order.key is Name {
                        measures
                    } else {
                        named
                    },
                ) {
                    Some(of) => Ok(
                        Some(GroupOrder { by: OrderBy::Value { of }, desc: order.desc }),
                    ),
                    None => match order.key {
                        OrderKeyView::Name(n) => if exists|k: int|
                            0 <= k < self.keys.len() && (#[trigger] self.keys[k]).column
                                == n.column {
                            if order.desc {
                                Ok(Some(GroupOrder { by: OrderBy::Key, desc: true }))
                            } else {
                                Ok(None)
                            }
                        } else {
                            Err(refusal(Refused::Order, order.at))
                        },
                        _ => Err(refusal(Refused::Order, order.at)),
                    },
                }
            },
        }
    }

    /// The `HAVING` of a join, which it has only where it has groups to keep or drop.
    pub open spec fn having(self, select: SelectView, measures: Measures, per_key: bool) -> core::result::Result<
        Option<HavingView>,
        SqlErrorView,
    > {
        if select.having is Some && !per_key {
            Err(refusal(Refused::Having, select.having->0.at()))
        } else {
            having_resolved(select.having, FrameView::Many(self.sides), measures)
        }
    }

    /// The sides of the shape.
    pub open spec fn join_sides(self, plans: Seq<usize>, required: Seq<bool>) -> Seq<JoinSide> {
        Seq::new(
            plans.len(),
            |k: int|
                JoinSide {
                    keyed: Keying::By { plan: plans[k], axis: 0 },
                    required: required[k],
                },
        )
    }

    /// The answer, given what its numbers measure.
    pub open spec fn answer(
        self,
        select: SelectView,
        per_key: bool,
        plans: Seq<usize>,
        calls: Seq<AskView>,
        measures: Measures,
        at: usize,
    ) -> core::result::Result<StatementView, SqlErrorView> {
        match self.cells(select.items, 0, 0, measures, Seq::empty()) {
            Err(x) => Err(x),
            Ok(cells) => match self.having(
                select,
                nameable(measures, pair_counts(plans)),
                per_key,
            ) {
                Err(x) => Err(x),
                Ok(having) => match self.order(
                    select,
                    measures,
                    nameable(measures, pair_counts(plans)),
                    per_key,
                ) {
                    Err(x) => Err(x),
                    Ok(order) => if !per_key && (select.limit is Some || select.offset is Some) {
                        Err(refusal(Refused::Shape, at))
                    } else {
                        Ok(
                            StatementView {
                                calls,
                                probes: Seq::empty(),
                                reads: Seq::empty(),
                                answer: AnswerView {
                                    shape: ShapeView::Join {
                                        axes: 1,
                                        sides: self.join_sides(
                                            plans,
                                            required_upto(
                                                select.joins,
                                                select.joins.len() as int,
                                            ),
                                        ),
                                        cells,
                                        per_key,
                                        having,
                                        order,
                                        cut: cut_of(select),
                                    },
                                    format: select.format,
                                    calls: 0,
                                },
                            },
                        )
                    },
                },
            },
        }
    }

    /// A joined statement, once its sides are known.
    pub open spec fn lowered(self, select: SelectView, at: usize) -> core::result::Result<
        StatementView,
        SqlErrorView,
    > {
        match self.counted_from(0, Seq::empty(), Seq::empty(), at) {
            Err(x) => Err(x),
            Ok((out, plans)) => match self.per_key(select, at) {
                Err(x) => Err(x),
                Ok(per_key) => match self.column_fault(select.items, 0, per_key) {
                    Some(x) => Err(x),
                    None => match self.numbers(
                        select.items,
                        0,
                        per_key,
                        plans,
                        out,
                        Seq::empty(),
                        at,
                    ) {
                        Err(x) => Err(x),
                        Ok((calls, measures)) => self.answer(
                            select,
                            per_key,
                            plans,
                            calls,
                            measures,
                            at,
                        ),
                    },
                },
            },
        }
    }
}

/// How many records pair under each key: the first side's, times those of every other.
pub open spec fn pair_counts(plans: Seq<usize>) -> Of {
    Of::Paired { plan: plans[0], side: 0, how: Pairing::Product }
}

/// How a per-key aggregate of one side combines with the counts of the others.
pub open spec fn pairing(func: Agg) -> Pairing {
    match func {
        Agg::Sum => Pairing::Product,
        Agg::Min => Pairing::Least,
        Agg::Max => Pairing::Greatest,
    }
}

/// What a join cannot hold, before its key is looked for.
pub open spec fn join_fault(select: SelectView) -> Option<SqlErrorView> {
    let sides = sides_of(select);
    let at = start_of(select.items);
    match label_fault(sides, 0) {
        Some(k) => Some(refusal(Refused::Ambiguous, select.joins[k - 1].at)),
        None => match first_of(select.items, Kind::Star, 0) {
            Some(k) => Some(refusal(Refused::JoinShape, select.items[k].at)),
            None => if select.grouping_sets is Some {
                Some(refusal(Refused::JoinShape, at))
            } else if sides.len() > MAX_CALLS {
                Some(refusal(Refused::TooManyCalls, at))
            } else {
                None
            },
        },
    }
}

/// A statement with a join.
pub open spec fn lowered_join(select: SelectView) -> core::result::Result<
    StatementView,
    SqlErrorView,
> {
    let sides = sides_of(select);
    match join_fault(select) {
        Some(x) => Err(x),
        None => match star(select.joins, sides) {
            Err(x) => Err(x),
            Ok(keys) => match full_fault(select.joins) {
                Some(x) => Err(x),
                None => match conds_of(select, sides) {
                    Err(x) => Err(x),
                    Ok(conds) => (StarView { sides, keys, rows: rows_by_side(conds) }).lowered(
                        select,
                        start_of(select.items),
                    ),
                },
            },
        },
    }
}

/// The tables of a join, under the names the statement calls them by.
fn scope_of(select: &Select) -> (r: Scope)
    ensures
        r.wf(),
        r@ == sides_of(select@),
        r.labels@.len() == select.joins@.len() + 1,
{
    let mut labels: Vec<String> = Vec::new();
    let mut tables: Vec<String> = Vec::new();
    labels.push(str::to_owned(select.from.label()));
    tables.push(select.from.qualified());
    let mut k: usize = 0;
    while k < select.joins.len()
        invariant
            k <= select.joins@.len(),
            labels@.len() == k + 1,
            tables@.len() == k + 1,
            forall|j: int| 0 <= j < k + 1 ==> (#[trigger] labels@[j])@ == sides_of(select@)[j].label,
            forall|j: int| 0 <= j < k + 1 ==> (#[trigger] tables@[j])@ == sides_of(select@)[j].table,
        decreases select.joins.len() - k,
    {
        assert(select@.joins[k as int] == select.joins@[k as int]@);
        labels.push(str::to_owned(select.joins[k].source.label()));
        tables.push(select.joins[k].source.qualified());
        k += 1;
    }
    let r = Scope { labels, tables };
    assert(r@ =~= sides_of(select@));
    r
}

/// The first table that is in scope under a name another has.
fn find_repeat(scope: &Scope) -> (r: Option<usize>)
    requires
        scope.wf(),
    ensures
        match r {
            Some(k) => label_fault(scope@, 0) == Some(k as int) && 0 < k < scope.labels@.len(),
            None => label_fault(scope@, 0) is None,
        },
{
    let mut k: usize = 0;
    while k < scope.labels.len()
        invariant
            k <= scope.labels@.len(),
            scope.wf(),
            label_fault(scope@, 0) == label_fault(scope@, k as int),
        decreases scope.labels.len() - k,
    {
        let mut j: usize = 0;
        while j < k
            invariant
                j <= k < scope.labels@.len(),
                scope.wf(),
                label_fault(scope@, 0) == label_fault(scope@, k as int),
                forall|i: int| 0 <= i < j ==> (#[trigger] scope@[i]).label != scope@[k as int].label,
            decreases k - j,
        {
            assert(scope@[j as int].label == scope.labels@[j as int]@);
            if same(scope.labels[j].as_str(), scope.labels[k].as_str()) {
                assert(scope@[j as int].label == scope@[k as int].label);
                return Some(k);
            }
            j += 1;
        }
        k += 1;
    }
    None
}

/// The views of the keys found so far.
pub open spec fn keys_seen(keys: Seq<Option<&Name>>) -> Keys {
    keys.map_values(
        |k: Option<&Name>|
            match k {
                Some(n) => Some(n@),
                None => None,
            },
    )
}

/// One table's key.
fn set_key<'a>(keys: &mut Vec<Option<&'a Name>>, side: usize, name: &'a Name, at: usize) -> (r: Result<
    (),
>)
    requires
        side < old(keys)@.len(),
    ensures
        final(keys)@.len() == old(keys)@.len(),
        keyed(keys_seen(old(keys)@), side, name@, at) == (match r {
            Ok(_) => Ok::<_, SqlErrorView>(keys_seen(final(keys)@)),
            Err(e) => Err(e@),
        }),
        r is Ok ==> final(keys)@[side as int] is Some && forall|j: int|
            0 <= j < old(keys)@.len() && old(keys)@[j] is Some ==> final(keys)@[j] is Some,
{
    match keys[side] {
        Some(k) => {
            if same(k.column.as_str(), name.column.as_str()) {
                Ok(())
            } else {
                Err(SqlError::Refused { what: Refused::Joins, at })
            }
        },
        None => {
            let ghost before = keys_seen(keys@);
            keys.set(side, Some(name));
            assert(keys_seen(keys@) =~= before.update(side as int, Some(name@)));
            Ok(())
        },
    }
}

/// One join's two keys.
fn join_keys<'a>(keys: &mut Vec<Option<&'a Name>>, n: usize, join: &'a Join, scope: &Scope) -> (r: Result<
    (),
>)
    requires
        scope.wf(),
        old(keys)@.len() == scope.labels@.len(),
        n + 1 < scope.labels@.len(),
    ensures
        final(keys)@.len() == old(keys)@.len(),
        star_step(keys_seen(old(keys)@), n as int, join@, scope@) == (match r {
            Ok(_) => Ok::<_, SqlErrorView>(keys_seen(final(keys)@)),
            Err(e) => Err(e@),
        }),
        r is Ok ==> final(keys)@[n + 1] is Some && (n == 0 ==> final(keys)@[0] is Some) && forall|
            j: int,
        |
            0 <= j < old(keys)@.len() && old(keys)@[j] is Some ==> final(keys)@[j] is Some,
{
    assert(n + 1 < scope.labels.len());
    let l = scope.side(&join.left, join.at)?;
    let r = scope.side(&join.right, join.at)?;
    let new = n + 1;
    if (l == new) == (r == new) || l > new || r > new {
        return Err(SqlError::Refused { what: Refused::JoinOn, at: join.at });
    }
    set_key(keys, l, &join.left, join.at)?;
    set_key(keys, r, &join.right, join.at)
}

/// No keys yet.
fn no_keys<'a>(n: usize) -> (r: Vec<Option<&'a Name>>)
    ensures
        r@.len() == n,
        keys_seen(r@) == Seq::new(n as nat, |k: int| None::<NameView>),
{
    let mut out: Vec<Option<&'a Name>> = Vec::new();
    while out.len() < n
        invariant
            out@.len() <= n,
            forall|k: int| 0 <= k < out@.len() ==> #[trigger] out@[k] is None,
        decreases n - out.len(),
    {
        out.push(None);
    }
    assert(keys_seen(out@) =~= Seq::new(n as nat, |k: int| None::<NameView>));
    out
}

/// What some names hold.
pub open spec fn names_seen(keys: Seq<&Name>) -> Seq<NameView> {
    keys.map_values(|n: &Name| n@)
}

/// One key column per table.
fn star_keys<'a>(joins: &'a Vec<Join>, scope: &Scope) -> (r: Result<Vec<&'a Name>>)
    requires
        scope.wf(),
        joins@.len() > 0,
        scope.labels@.len() == joins@.len() + 1,
    ensures
        star(views(joins@), scope@) == (match r {
            Ok(v) => Ok::<_, SqlErrorView>(names_seen(v@)),
            Err(e) => Err(e@),
        }),
        r matches Ok(v) ==> v@.len() == scope.labels@.len(),
{
    let mut keys = no_keys(scope.labels.len());
    let ghost none = Seq::new(scope@.len(), |k: int| None::<NameView>);
    assert(none =~= keys_seen(keys@));
    let mut n: usize = 0;
    while n < joins.len()
        invariant
            n <= joins@.len(),
            scope.wf(),
            scope.labels@.len() == joins@.len() + 1,
            keys@.len() == scope.labels@.len(),
            none == Seq::new(scope@.len(), |k: int| None::<NameView>),
            star_from(none, views(joins@), 0, scope@) == star_from(
                keys_seen(keys@),
                views(joins@),
                n as int,
                scope@,
            ),
            n > 0 ==> forall|j: int| 0 <= j <= n ==> #[trigger] keys@[j] is Some,
        decreases joins.len() - n,
    {
        assert(views(joins@)[n as int] == joins@[n as int]@);
        join_keys(&mut keys, n, &joins[n], scope)?;
        n += 1;
    }
    let mut out: Vec<&'a Name> = Vec::new();
    let mut k: usize = 0;
    while k < keys.len()
        invariant
            k <= keys@.len(),
            out@.len() == k,
            forall|j: int| 0 <= j < keys@.len() ==> #[trigger] keys@[j] is Some,
            forall|j: int| 0 <= j < k ==> (#[trigger] out@[j])@ == (keys_seen(keys@)[j])->0,
        decreases keys.len() - k,
    {
        if let Some(name) = keys[k] {
            out.push(name);
        }
        k += 1;
    }
    assert(names_seen(out@) =~= Seq::new(keys@.len(), |k: int| keys_seen(keys@)[k]->0));
    Ok(out)
}

/// Which tables have to hold a key for it to be a row.
fn required_sides(joins: &Vec<Join>) -> (r: Vec<bool>)
    ensures
        r@ == required_upto(views(joins@), joins@.len() as int),
        r@.len() == joins@.len() + 1,
{
    let mut out: Vec<bool> = Vec::new();
    out.push(true);
    assert(out@ =~= seq![true]);
    let mut n: usize = 0;
    while n < joins.len()
        invariant
            n <= joins@.len(),
            out@.len() == n + 1,
            out@ == required_upto(views(joins@), n as int),
        decreases joins.len() - n,
    {
        assert(views(joins@)[n as int] == joins@[n as int]@);
        let kind = joins[n].kind;
        let ghost before = out@;
        let (keep, new) = match kind {
            JoinKind::Inner => (true, true),
            JoinKind::Left => (true, false),
            JoinKind::Right => (false, true),
            JoinKind::Full => (false, false),
        };
        if !keep {
            let mut cleared: Vec<bool> = Vec::new();
            while cleared.len() < out.len()
                invariant
                    cleared@.len() <= out@.len(),
                    forall|j: int| 0 <= j < cleared@.len() ==> !#[trigger] cleared@[j],
                decreases out.len() - cleared.len(),
            {
                cleared.push(false);
            }
            assert(cleared@ =~= Seq::new(before.len(), |k: int| false));
            out = cleared;
        }
        out.push(new);
        n += 1;
    }
    out
}

/// Refuses a full join beside another kind.
fn check_full(joins: &Vec<Join>) -> (r: Result<()>)
    ensures
        match r {
            Ok(_) => full_fault(views(joins@)) is None,
            Err(e) => full_fault(views(joins@)) == Some(e@),
        },
{
    let mut first: Option<usize> = None;
    let mut all = true;
    let mut k: usize = 0;
    while k < joins.len()
        invariant
            k <= joins@.len(),
            all == (forall|j: int| 0 <= j < k ==> (#[trigger] views(joins@)[j]).kind is Full),
            match first {
                Some(j) => first_full(views(joins@), 0) == Some(j as int) && j < k,
                None => first_full(views(joins@), 0) == first_full(views(joins@), k as int),
            },
        decreases joins.len() - k,
    {
        assert(views(joins@)[k as int] == joins@[k as int]@);
        let full = match joins[k].kind {
            JoinKind::Full => true,
            _ => false,
        };
        if full {
            if first.is_none() {
                first = Some(k);
            }
        } else {
            all = false;
        }
        k += 1;
    }
    match first {
        Some(j) => {
            assert(views(joins@)[j as int] == joins@[j as int]@);
            if all {
                Ok(())
            } else {
                Err(SqlError::Refused { what: Refused::OuterJoin, at: joins[j].at })
            }
        },
        None => Ok(()),
    }
}

/// Both of two mentions.
fn touch_both(a: Touch, b: Touch) -> (r: Touch)
    ensures
        r == touching_both(a, b),
{
    match (a, b) {
        (Touch::Nothing, x) => x,
        (x, Touch::Nothing) => x,
        (Touch::One(x), Touch::One(y)) => {
            if x == y {
                a
            } else {
                Touch::Several
            }
        },
        _ => Touch::Several,
    }
}

/// The table of one column.
fn touch_field(name: &Name, scope: &Scope, at: usize) -> (r: Result<Touch>)
    requires
        scope.wf(),
    ensures
        touching(name@, scope@, at) == (match r {
            Ok(t) => Ok::<_, SqlErrorView>(t),
            Err(e) => Err(e@),
        }),
        r matches Ok(Touch::One(k)) ==> k < scope.labels@.len(),
{
    Ok(Touch::One(scope.side(name, at)?))
}

/// Which of a join's tables a condition mentions.
fn touched(cond: &Cond, scope: &Scope, at: usize) -> (r: Result<Touch>)
    requires
        scope.wf(),
    ensures
        touches(cond@, scope@, at) == (match r {
            Ok(t) => Ok::<_, SqlErrorView>(t),
            Err(e) => Err(e@),
        }),
        r matches Ok(Touch::One(k)) ==> k < scope.labels@.len(),
    decreases cond,
{
    match cond {
        Cond::And(a, b) => {
            let x = touched(&**a, scope, at)?;
            let y = touched(&**b, scope, at)?;
            Ok(touch_both(x, y))
        },
        Cond::Or(a, b) => {
            let x = touched(&**a, scope, at)?;
            let y = touched(&**b, scope, at)?;
            Ok(touch_both(x, y))
        },
        Cond::Not(inner) => touched(&**inner, scope, at),
        Cond::Cmp { field, .. } => touch_field(field, scope, at),
        Cond::In { field, .. } => touch_field(field, scope, at),
        Cond::Between { field, .. } => touch_field(field, scope, at),
        Cond::Like { field, .. } => touch_field(field, scope, at),
        Cond::Rounded { field, .. } => touch_field(field, scope, at),
        Cond::InRecords { field, .. } => touch_field(field, scope, at),
        Cond::Segment { at, .. } => Err(SqlError::Refused { what: Refused::Segment, at: *at }),
    }
}

/// The views of each table's conditions.
pub open spec fn conds_seen(conds: Seq<Option<Cond>>) -> Conds {
    conds.map_values(|c: Option<Cond>| opt_view(c))
}

/// Two halves of a conjunction, when there are two.
fn both_of(a: Option<Cond>, b: Option<Cond>) -> (r: Option<Cond>)
    ensures
        opt_view(r) == both(opt_view(a), opt_view(b)),
{
    match (a, b) {
        (Some(a), Some(b)) => Some(Cond::And(Box::new(a), Box::new(b))),
        (Some(one), None) => Some(one),
        (None, other) => other,
    }
}

/// Each table's two halves, put together.
fn zip_conds(a: Vec<Option<Cond>>, b: Vec<Option<Cond>>) -> (r: Vec<Option<Cond>>)
    requires
        a@.len() == b@.len(),
    ensures
        conds_seen(r@) == Seq::new(
            a@.len(),
            |k: int| both(conds_seen(a@)[k], conds_seen(b@)[k]),
        ),
        r@.len() == a@.len(),
{
    let ghost x = conds_seen(a@);
    let ghost y = conds_seen(b@);
    let mut a = a;
    let mut b = b;
    let ghost n = a@.len();
    let mut out: Vec<Option<Cond>> = Vec::new();
    while a.len() > 0
        invariant
            a@.len() == b@.len(),
            out@.len() + a@.len() == n,
            x.len() == n,
            y.len() == n,
            conds_seen(a@) == x.skip(out@.len() as int),
            conds_seen(b@) == y.skip(out@.len() as int),
            forall|k: int| 0 <= k < out@.len() ==> opt_view(#[trigger] out@[k]) == both(x[k], y[k]),
        decreases a.len(),
    {
        let ghost i = out@.len() as int;
        let ghost was_a = conds_seen(a@);
        let ghost was_b = conds_seen(b@);
        let one = a.remove(0);
        let other = b.remove(0);
        assert(was_a[0] == opt_view(one));
        assert(was_b[0] == opt_view(other));
        assert(was_a[0] == x[i]);
        assert(was_b[0] == y[i]);
        assert(conds_seen(a@) =~= was_a.drop_first());
        assert(conds_seen(b@) =~= was_b.drop_first());
        assert(x.skip(i).drop_first() =~= x.skip(i + 1));
        assert(y.skip(i).drop_first() =~= y.skip(i + 1));
        out.push(both_of(one, other));
    }
    assert(conds_seen(out@) =~= Seq::new(n, |k: int| both(x[k], y[k])));
    out
}

/// One table's condition, and none for the others.
fn only(cond: Cond, side: usize, n: usize) -> (r: Vec<Option<Cond>>)
    requires
        side < n,
    ensures
        conds_seen(r@) == Seq::new(
            n as nat,
            |k: int|
                if k == side {
                    Some(cond@)
                } else {
                    None
                },
        ),
        r@.len() == n,
{
    let mut out = no_conds(n);
    out.set(side, Some(cond));
    assert(conds_seen(out@) =~= Seq::new(
        n as nat,
        |k: int|
            if k == side {
                Some(cond@)
            } else {
                None
            },
    ));
    out
}

/// No conditions.
fn no_conds(n: usize) -> (r: Vec<Option<Cond>>)
    ensures
        conds_seen(r@) == Seq::new(n as nat, |k: int| None::<CondView>),
        r@.len() == n,
        forall|k: int| 0 <= k < n ==> #[trigger] r@[k] is None,
{
    let mut out: Vec<Option<Cond>> = Vec::new();
    while out.len() < n
        invariant
            out@.len() <= n,
            forall|k: int| 0 <= k < out@.len() ==> #[trigger] out@[k] is None,
        decreases n - out.len(),
    {
        out.push(None);
    }
    assert(conds_seen(out@) =~= Seq::new(n as nat, |k: int| None::<CondView>));
    out
}

/// A `WHERE` split into each table's own conditions.
fn split_cond(cond: &Cond, scope: &Scope, at: usize) -> (r: Result<Vec<Option<Cond>>>)
    requires
        scope.wf(),
    ensures
        split(cond@, scope@, at) == (match r {
            Ok(v) => Ok::<_, SqlErrorView>(conds_seen(v@)),
            Err(e) => Err(e@),
        }),
        r matches Ok(v) ==> v@.len() == scope.labels@.len(),
    decreases cond,
{
    match cond {
        Cond::And(a, b) => {
            let x = split_cond(&**a, scope, at)?;
            let y = split_cond(&**b, scope, at)?;
            let out = zip_conds(x, y);
            assert(conds_seen(out@) =~= split(cond@, scope@, at)->Ok_0);
            Ok(out)
        },
        _ => match touched(cond, scope, at)? {
            Touch::One(side) => {
                let out = only(cond.copied(), side, scope.labels.len());
                assert(conds_seen(out@) =~= split(cond@, scope@, at)->Ok_0);
                Ok(out)
            },
            _ => Err(SqlError::Refused { what: Refused::JoinFilter, at }),
        },
    }
}

/// The records each table's own conditions leave.
fn side_rows(conds: &Vec<Option<Cond>>) -> (r: Vec<Expr>)
    ensures
        views(r@) == rows_by_side(conds_seen(conds@)),
        r@.len() == conds@.len(),
{
    let mut out: Vec<Expr> = Vec::new();
    let mut k: usize = 0;
    while k < conds.len()
        invariant
            k <= conds@.len(),
            out@.len() == k,
            forall|j: int| 0 <= j < k ==> (#[trigger] out@[j])@ == rows_by_side(conds_seen(conds@))[j],
        decreases conds.len() - k,
    {
        let e = match &conds[k] {
            Some(c) => rows(c),
            None => all_rows(),
        };
        out.push(e);
        k += 1;
    }
    assert(views(out@) =~= rows_by_side(conds_seen(conds@)));
    out
}

/// What a join knows of each side: its table, its key and its records.
struct Star<'a> {
    scope: &'a Scope,
    keys: Vec<&'a Name>,
    rows: Vec<Expr>,
}

impl<'a> Star<'a> {
    spec fn seen(&self) -> StarView {
        StarView {
            sides: self.scope@,
            keys: names_seen(self.keys@),
            rows: views(self.rows@),
        }
    }

    spec fn wf(&self) -> bool {
        &&& self.scope.wf()
        &&& self.keys@.len() == self.scope.labels@.len()
        &&& self.rows@.len() == self.scope.labels@.len()
        &&& self.scope.labels@.len() > 0
    }

    /// One side's per-key record count.
    fn grouped_count(&self, k: usize) -> (r: Call)
        requires
            self.wf(),
            k < self.keys@.len(),
        ensures
            r@ == self.seen().counts(k as int),
    {
        call2("Distinct", self.rows[k].copied(), field_arg(self.keys[k]))
    }

    /// One side's per-key aggregate of one of its own columns.
    fn grouped_aggregate(&self, k: usize, func: Agg, field: &Name) -> (r: Call)
        requires
            self.wf(),
            k < self.keys@.len(),
        ensures
            r@ == self.seen().aggregates(k as int, func, field@),
    {
        call3(
            "GroupBy",
            self.rows[k].copied(),
            field_arg(self.keys[k]),
            named("aggregate", as_expr(call1(func.call(), field_arg(field)))),
        )
    }

    /// The plan of each side's counts.
    fn count_sides(&self, calls: &mut Calls) -> (r: Result<Vec<usize>>)
        requires
            self.wf(),
            old(calls).out@.len() <= MAX_CALLS,
        ensures
            final(calls).at == old(calls).at,
            final(calls).out@.len() <= MAX_CALLS,
            self.seen().counted_from(0, views(old(calls).out@), Seq::empty(), old(calls).at) == (
            match r {
                Ok(v) => Ok::<_, SqlErrorView>((views(final(calls).out@), v@)),
                Err(e) => Err(e@),
            }),
            r matches Ok(v) ==> v@.len() == self.keys@.len(),
    {
        let mut plans: Vec<usize> = Vec::new();
        let mut k: usize = 0;
        while k < self.keys.len()
            invariant
                self.wf(),
                k <= self.keys@.len(),
                plans@.len() == k,
                calls.at == old(calls).at,
                calls.out@.len() <= MAX_CALLS,
                self.seen().counted_from(0, views(old(calls).out@), Seq::empty(), old(calls).at)
                    == self.seen().counted_from(
                    k as int,
                    views(calls.out@),
                    plans@,
                    calls.at,
                ),
            decreases self.keys.len() - k,
        {
            let plan = calls.push(self.scope.table(k), self.grouped_count(k))?;
            plans.push(plan);
            k += 1;
        }
        Ok(plans)
    }

    /// Whether the answer is one row per key.
    fn grouping(&self, select: &Select, at: usize) -> (r: Result<bool>)
        requires
            self.wf(),
        ensures
            self.seen().per_key(select@, at) == (match r {
                Ok(v) => Ok::<_, SqlErrorView>(v),
                Err(e) => Err(e@),
            }),
    {
        if select.group_by.len() == 0 {
            return Ok(false);
        }
        assert(select@.group_by[0] == select.group_by@[0]@);
        if select.group_by.len() > 1 || select.group_by[0].bucket.is_some() {
            return Err(SqlError::Refused { what: Refused::JoinShape, at });
        }
        let name = &select.group_by[0].name;
        let k = self.scope.side(name, at)?;
        if same(name.column.as_str(), self.keys[k].column.as_str()) {
            Ok(true)
        } else {
            Err(SqlError::Refused { what: Refused::JoinShape, at })
        }
    }

    /// Refuses a column that is not the key of a row.
    fn check_columns(&self, items: &Vec<Item>, per_key: bool) -> (r: Result<()>)
        requires
            self.wf(),
        ensures
            match r {
                Ok(_) => self.seen().column_fault(views(items@), 0, per_key) is None,
                Err(e) => self.seen().column_fault(views(items@), 0, per_key) == Some(e@),
            },
    {
        let mut k: usize = 0;
        while k < items.len()
            invariant
                self.wf(),
                k <= items@.len(),
                self.seen().column_fault(views(items@), 0, per_key) == self.seen().column_fault(
                    views(items@),
                    k as int,
                    per_key,
                ),
            decreases items.len() - k,
        {
            let item = &items[k];
            assert(views(items@)[k as int] == item@);
            if let Proj::Column(name) = item.leaf() {
                let s = self.scope.side(name, item.at)?;
                if !per_key || !same(name.column.as_str(), self.keys[s].column.as_str()) {
                    return Err(SqlError::Refused { what: Refused::JoinShape, at: item.at });
                }
            }
            k += 1;
        }
        Ok(())
    }

    /// One number over the join, as the per-key numbers it is arithmetic over.
    fn cell(&self, item: &Item, per_key: bool, plans: &Vec<usize>, calls: &mut Calls) -> (r: Result<
        Of,
    >)
        requires
            self.wf(),
            plans@.len() == self.keys@.len(),
            old(calls).out@.len() <= MAX_CALLS,
        ensures
            final(calls).at == old(calls).at,
            final(calls).out@.len() <= MAX_CALLS,
            counted(r, *final(calls)) == self.seen().number(
                item@,
                per_key,
                plans@,
                views(old(calls).out@),
                old(calls).at,
            ),
    {
        if item.filter.is_some() {
            return Err(SqlError::Refused { what: Refused::JoinShape, at: item.at });
        }
        match item.leaf() {
            Proj::Now { unix_seconds } => Ok(Of::Now { unix_seconds: *unix_seconds }),
            Proj::Count => Ok(Of::Paired { plan: plans[0], side: 0, how: Pairing::Product }),
            Proj::Agg { func, field } => {
                let side = self.scope.side(field, item.at)?;
                let plan = calls.push(
                    self.scope.table(side),
                    self.grouped_aggregate(side, *func, field),
                )?;
                let how = match func {
                    Agg::Sum => Pairing::Product,
                    Agg::Min => Pairing::Least,
                    Agg::Max => Pairing::Greatest,
                };
                Ok(Of::Paired { plan, side, how })
            },
            Proj::CountDistinct(field) => {
                let side = self.scope.side(field, item.at)?;
                if !same(field.column.as_str(), self.keys[side].column.as_str()) || per_key {
                    return Err(SqlError::Refused { what: Refused::JoinShape, at: item.at });
                }
                Ok(Of::SharedKeys)
            },
            Proj::Avg(field) => {
                let side = self.scope.side(field, item.at)?;
                let top = calls.push(
                    self.scope.table(side),
                    self.grouped_aggregate(side, Agg::Sum, field),
                )?;
                Ok(Of::PairedRatio { top, bottom: plans[side], side })
            },
            _ => Err(SqlError::Refused { what: Refused::JoinShape, at: item.at }),
        }
    }

    /// The numbers of every entry that is one.
    fn measures(&self, items: &Vec<Item>, per_key: bool, plans: &Vec<usize>, calls: &mut Calls) -> (r: Result<
        Vec<(Measure, Of)>,
    >)
        requires
            self.wf(),
            plans@.len() == self.keys@.len(),
            old(calls).out@.len() <= MAX_CALLS,
        ensures
            final(calls).at == old(calls).at,
            final(calls).out@.len() <= MAX_CALLS,
            self.seen().numbers(
                views(items@),
                0,
                per_key,
                plans@,
                views(old(calls).out@),
                Seq::empty(),
                old(calls).at,
            ) == (match r {
                Ok(m) => Ok::<_, SqlErrorView>((views(final(calls).out@), measured(m@))),
                Err(e) => Err(e@),
            }),
    {
        let mut out: Vec<(Measure, Of)> = Vec::new();
        let mut k: usize = 0;
        assert(measured(out@) =~= Seq::<(MeasureView, Of)>::empty());
        while k < items.len()
            invariant
                self.wf(),
                k <= items@.len(),
                plans@.len() == self.keys@.len(),
                calls.at == old(calls).at,
                calls.out@.len() <= MAX_CALLS,
                self.seen().numbers(
                    views(items@),
                    0,
                    per_key,
                    plans@,
                    views(old(calls).out@),
                    Seq::empty(),
                    old(calls).at,
                ) == self.seen().numbers(
                    views(items@),
                    k as int,
                    per_key,
                    plans@,
                    views(calls.out@),
                    measured(out@),
                    calls.at,
                ),
            decreases items.len() - k,
        {
            assert(views(items@)[k as int] == items@[k as int]@);
            if kind(&items[k]) == Kind::Number {
                let ghost before = measured(out@);
                let of = self.cell(&items[k], per_key, plans, calls)?;
                let m = (measure_of(&items[k]), of);
                out.push(m);
                assert(measured(out@) =~= before.push((m.0@, of)));
            }
            k += 1;
        }
        Ok(out)
    }

    /// What one entry is measured in.
    fn units_of(&self, item: &Item) -> (r: Result<Units>)
        requires
            self.wf(),
        ensures
            self.seen().units(item@) == (match r {
                Ok(u) => Ok::<_, SqlErrorView>(u@),
                Err(e) => Err(e@),
            }),
    {
        match field_measured(&item.proj) {
            None => match item.leaf() {
                Proj::Now { .. } => Ok(Units::Seconds),
                _ => Ok(Units::Digits(0)),
            },
            Some(field) => {
                let k = self.scope.side(field, item.at)?;
                Ok(
                    Units::Written {
                        table: str::to_owned(self.scope.table(k)),
                        field: field.column.clone(),
                    },
                )
            },
        }
    }

    /// The cells of a row.
    fn cells_of(&self, items: &Vec<Item>, measures: &Vec<(Measure, Of)>) -> (r: Result<Vec<Cell>>)
        requires
            self.wf(),
        ensures
            self.seen().cells(views(items@), 0, 0, measured(measures@), Seq::empty()) == (match r {
                Ok(v) => Ok::<_, SqlErrorView>(views(v@)),
                Err(e) => Err(e@),
            }),
    {
        let mut out: Vec<Cell> = Vec::new();
        let mut k: usize = 0;
        let mut n: usize = 0;
        assert(views(out@) =~= Seq::<CellView>::empty());
        while k < items.len()
            invariant
                self.wf(),
                n <= k <= items@.len(),
                self.seen().cells(views(items@), 0, 0, measured(measures@), Seq::empty())
                    == self.seen().cells(
                    views(items@),
                    k as int,
                    n as int,
                    measured(measures@),
                    views(out@),
                ),
            decreases items.len() - k,
        {
            let ghost before = views(out@);
            let item = &items[k];
            assert(views(items@)[k as int] == item@);
            let units = self.units_of(item)?;
            let number = kind(item) == Kind::Number;
            let of = if !number || n >= measures.len() {
                Of::Key
            } else {
                measures[n].1
            };
            let cell = Cell { column: item.column(), of, units, apply: apply_of(item) };
            out.push(cell);
            assert(views(out@) =~= before.push(cell@));
            if number {
                n += 1;
            }
            k += 1;
        }
        Ok(out)
    }

    /// Whether a column is a side's key.
    fn is_key(&self, column: &str) -> (r: bool)
        ensures
            r == (exists|k: int|
                0 <= k < self.seen().keys.len() && (#[trigger] self.seen().keys[k]).column
                    == column@),
    {
        let mut k: usize = 0;
        while k < self.keys.len()
            invariant
                k <= self.keys@.len(),
                forall|j: int| 0 <= j < k ==> (#[trigger] self.seen().keys[j]).column != column@,
            decreases self.keys.len() - k,
        {
            assert(self.seen().keys[k as int] == self.keys@[k as int]@);
            if same(self.keys[k].column.as_str(), column) {
                return true;
            }
            k += 1;
        }
        false
    }

    /// The order of a join.
    fn join_ordering(
        &self,
        select: &Select,
        measures: &Vec<(Measure, Of)>,
        named: &Vec<(Measure, Of)>,
        per_key: bool,
    ) -> (r: Result<Option<GroupOrder>>)
        ensures
            self.seen().order(select@, measured(measures@), measured(named@), per_key) == (match r {
                Ok(o) => Ok::<_, SqlErrorView>(o),
                Err(e) => Err(e@),
            }),
    {
        let order = match &select.order_by {
            None => {
                return Ok(None);
            },
            Some(order) => order,
        };
        if !per_key {
            return Err(SqlError::Refused { what: Refused::Order, at: order.at });
        }
        let numbers = match &order.key {
            OrderKey::Name(_) => measures,
            _ => named,
        };
        match ordered_number(&order.key, &select.items, numbers) {
            Some(of) => Ok(Some(GroupOrder { by: OrderBy::Value { of }, desc: order.desc })),
            None => match &order.key {
                OrderKey::Name(n) => {
                    if !self.is_key(n.column.as_str()) {
                        Err(SqlError::Refused { what: Refused::Order, at: order.at })
                    } else if order.desc {
                        Ok(Some(GroupOrder { by: OrderBy::Key, desc: true }))
                    } else {
                        Ok(None)
                    }
                },
                _ => Err(SqlError::Refused { what: Refused::Order, at: order.at }),
            },
        }
    }

    /// The `HAVING` of a join.
    fn join_having(&self, select: &Select, measures: &Vec<(Measure, Of)>, per_key: bool) -> (r: Result<
        Option<Having>,
    >)
        requires
            self.wf(),
        ensures
            self.seen().having(select@, measured(measures@), per_key) == (match r {
                Ok(h) => Ok::<_, SqlErrorView>(opt_view(h)),
                Err(e) => Err(e@),
            }),
    {
        if let Some(h) = &select.having {
            if !per_key {
                return Err(SqlError::Refused { what: Refused::Having, at: h.at() });
            }
        }
        having_of(&select.having, Frame::Many(self.scope), measures)
    }

    /// The answer, given what its numbers measure.
    fn answer(
        &self,
        select: &Select,
        per_key: bool,
        plans: &Vec<usize>,
        calls: Calls,
        measures: &Vec<(Measure, Of)>,
    ) -> (r: Result<Statement>)
        requires
            self.wf(),
            plans@.len() == select.joins@.len() + 1,
        ensures
            lowered_to(r) == self.seen().answer(
                select@,
                per_key,
                plans@,
                views(calls.out@),
                measured(measures@),
                calls.at,
            ),
    {
        let cells = self.cells_of(&select.items, measures)?;
        let counts = only_counts(
            Of::Paired { plan: plans[0], side: 0, how: Pairing::Product },
        );
        let named = if nothing_asked(measures) {
            &counts
        } else {
            measures
        };
        let having = self.join_having(select, named, per_key)?;
        let order = self.join_ordering(select, measures, named, per_key)?;
        if !per_key && (select.limit.is_some() || select.offset.is_some()) {
            return Err(SqlError::Refused { what: Refused::Shape, at: calls.at });
        }
        let required = required_sides(&select.joins);
        let mut sides: Vec<JoinSide> = Vec::new();
        let mut k: usize = 0;
        while k < plans.len()
            invariant
                k <= plans@.len(),
                sides@.len() == k,
                required@.len() == plans@.len(),
                forall|j: int|
                    0 <= j < k ==> #[trigger] sides@[j] == self.seen().join_sides(
                        plans@,
                        required@,
                    )[j],
            decreases plans.len() - k,
        {
            sides.push(
                JoinSide {
                    keyed: Keying::By { plan: plans[k], axis: 0 },
                    required: required[k],
                },
            );
            k += 1;
        }
        assert(sides@ =~= self.seen().join_sides(plans@, required@));
        let probes: Vec<Probe> = Vec::new();
        assert(views(probes@) =~= Seq::<ProbeView>::empty());
        Ok(
            Statement {
                calls: calls.out,
                probes,
                reads: no_names(),
                answer: Answer {
                    shape: Shape::Join {
                        axes: 1,
                        sides,
                        cells,
                        per_key,
                        having,
                        order,
                        cut: cut(select),
                    },
                    format: select.format,
                    calls: 0,
                },
            },
        )
    }

    /// A joined statement, once its sides are known.
    fn lower(&self, select: &Select, at: usize) -> (r: Result<Statement>)
        requires
            self.wf(),
            self.keys@.len() == select.joins@.len() + 1,
        ensures
            lowered_to(r) == self.seen().lowered(select@, at),
    {
        let mut calls = Calls::new(at);
        let plans = self.count_sides(&mut calls)?;
        let per_key = self.grouping(select, at)?;
        self.check_columns(&select.items, per_key)?;
        let measures = self.measures(&select.items, per_key, &plans, &mut calls)?;
        self.answer(select, per_key, &plans, calls, &measures)
    }
}

/// Refuses what a join cannot hold.
fn check(select: &Select, scope: &Scope) -> (r: Result<()>)
    requires
        scope.wf(),
        scope@ == sides_of(select@),
        scope.labels@.len() == select.joins@.len() + 1,
    ensures
        match r {
            Ok(_) => join_fault(select@) is None,
            Err(e) => join_fault(select@) == Some(e@),
        },
{
    if let Some(k) = find_repeat(scope) {
        assert(select@.joins[k - 1] == select.joins@[k - 1]@);
        return Err(SqlError::Refused { what: Refused::Ambiguous, at: select.joins[k - 1].at });
    }
    if let Some(k) = find_first(&select.items, Kind::Star, 0) {
        assert(select@.items[k as int] == select.items@[k as int]@);
        return Err(SqlError::Refused { what: Refused::JoinShape, at: select.items[k].at });
    }
    let at = start(&select.items);
    if select.grouping_sets.is_some() {
        return Err(SqlError::Refused { what: Refused::JoinShape, at });
    }
    if scope.labels.len() > MAX_CALLS {
        return Err(SqlError::Refused { what: Refused::TooManyCalls, at });
    }
    Ok(())
}

/// A statement over several tables that share a key.
pub fn joined(select: &Select) -> (r: Result<Statement>)
    requires
        select.joins@.len() > 0,
    ensures
        lowered_to(r) == lowered_join(select@),
{
    let scope = scope_of(select);
    check(select, &scope)?;
    let keys = star_keys(&select.joins, &scope)?;
    check_full(&select.joins)?;
    let conds = match &select.filter {
        None => no_conds(scope.labels.len()),
        Some(c) => split_cond(c, &scope, 0)?,
    };
    assert(conds_of(select@, scope@) == Ok::<Conds, SqlErrorView>(conds_seen(conds@))) by {
        assert(scope@.len() == scope.labels@.len());
    }
    let star = Star { scope: &scope, keys, rows: side_rows(&conds) };
    star.lower(select, start(&select.items))
}

} // verus!
