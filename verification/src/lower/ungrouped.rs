//! Statements without a `GROUP BY`: record ids, a projection, or one row of numbers.

use vstd::prelude::*;
use crate::ast::{Item, ItemView, Proj, ProjView, Select, SelectView};
use crate::error::{Refused, Result, SqlError, SqlErrorView};
use crate::lower::calls::{no_names, asking, Ask, AskView, Asked, Calls, Probe, ProbeView, Statement, StatementView, MAX_CALLS};
use crate::lower::measure::{find_first, first_of, having_of, having_resolved, measure, measure_of, measured, measured_in, narrowed, opt_view, rows_of, units_of, Frame, FrameView, Kind, Measure, Measures};
use crate::lower::pql::{as_call, call1, call2, call3, call_of, field_arg, given_bound, given_number, named_number, over, the_call};
use crate::parse::cursor::refusal;
use crate::pql::{Call, CallView, Expr, ExprView};
use crate::scalar::Scalar;
use crate::shape::{Answer, AnswerView, Cell, CellView, Columns, ColumnsView, Of, Selected, SelectedView, Shape, ShapeView, Units, UnitsView};
use crate::text::views;

verus! {

/// A call by its name and its arguments.
pub open spec fn a_call(name: Seq<char>, args: Seq<ExprView>) -> CallView {
    CallView { name, args }
}

/// What comes of asking for a number: the calls, and where the number comes from.
pub type Counted = core::result::Result<(Seq<AskView>, Of), SqlErrorView>;

/// The number a single call answers.
pub open spec fn one_value(asked: Asked) -> Counted {
    match asked {
        Ok((out, plan)) => Ok((out, Of::Value { plan })),
        Err(x) => Err(x),
    }
}

/// A sum over a count, of the same records.
pub open spec fn one_average(
    out: Seq<AskView>,
    at: usize,
    table: Seq<char>,
    sum: CallView,
    count: CallView,
) -> Counted {
    match asking(out, at, table, sum) {
        Err(x) => Err(x),
        Ok((out2, plan)) => match asking(out2, at, table, count) {
            Err(x) => Err(x),
            Ok((out3, over)) => Ok((out3, Of::Ratio { plan, over })),
        },
    }
}

/// The number of one entry over a whole set of records.
pub open spec fn whole_number(
    out: Seq<AskView>,
    at: usize,
    table: Seq<char>,
    rows: ExprView,
    item: ItemView,
) -> Counted {
    match item.leaf() {
        ProjView::Count => one_value(asking(out, at, table, a_call("Count"@, seq![rows]))),
        ProjView::Agg { func, field } => one_value(
            asking(out, at, table, a_call(func.called(), seq![rows, over(field)])),
        ),
        ProjView::Avg(field) => one_average(
            out,
            at,
            table,
            a_call("Sum"@, seq![rows, over(field)]),
            a_call("Count"@, seq![rows]),
        ),
        ProjView::Now { unix_seconds } => Ok((out, Of::Now { unix_seconds })),
        ProjView::Window(_) => Err(refusal(Refused::Window, item.at)),
        _ => Err(refusal(Refused::Shape, item.at)),
    }
}

/// The number, the count of keys, or the keys of one entry over a whole set of records.
pub open spec fn any_number(
    out: Seq<AskView>,
    at: usize,
    table: Seq<char>,
    rows: ExprView,
    item: ItemView,
) -> Counted {
    match item.leaf() {
        ProjView::CountDistinct(field) => match asking(
            out,
            at,
            table,
            a_call("Distinct"@, seq![rows, over(field)]),
        ) {
            Ok((out2, plan)) => Ok((out2, Of::Groups { plan })),
            Err(x) => Err(x),
        },
        ProjView::TopKeys { n, field } => match asking(
            out,
            at,
            table,
            a_call("TopN"@, seq![rows, over(field), given_number("n"@, n)]),
        ) {
            Ok((out2, plan)) => Ok((out2, Of::Keys { plan })),
            Err(x) => Err(x),
        },
        _ => whole_number(out, at, table, rows, item),
    }
}

/// What a row of numbers is gathered from.
#[verifier::ext_equal]
pub struct GatheredView {
    pub calls: Seq<AskView>,
    pub probes: Seq<ProbeView>,
    pub measures: Measures,
    pub cells: Seq<CellView>,
}

/// One more entry. A quantile is a search, run after every call has been answered.
pub open spec fn gathered(
    g: GatheredView,
    at: usize,
    table: Seq<char>,
    rows: ExprView,
    item: ItemView,
) -> core::result::Result<GatheredView, SqlErrorView> {
    let mine = narrowed(rows, item);
    match (match item.leaf() {
        ProjView::Quantile { per_mille, field } => Ok(
            (
                g.calls,
                g.probes.push(
                    ProbeView { table, rows: the_call(mine), field: field.column, per_mille },
                ),
                Of::Probe { probe: g.probes.len() as usize },
            ),
        ),
        _ => match any_number(g.calls, at, table, mine, item) {
            Ok((calls, of)) => Ok((calls, g.probes, of)),
            Err(x) => Err(x),
        },
    }) {
        Err(x) => Err(x),
        Ok((calls, probes, of)) => Ok(
            GatheredView {
                calls,
                probes,
                measures: g.measures.push((measure(item), of)),
                cells: g.cells.push(
                    CellView {
                        column: item.column(),
                        of,
                        units: measured_in(table, item.proj),
                        apply: item.apply(),
                    },
                ),
            },
        ),
    }
}

/// Every entry from a position on.
pub open spec fn gathered_from(
    items: Seq<ItemView>,
    k: int,
    g: GatheredView,
    at: usize,
    table: Seq<char>,
    rows: ExprView,
) -> core::result::Result<GatheredView, SqlErrorView>
    decreases items.len() - k,
{
    if k < 0 || k >= items.len() {
        Ok(g)
    } else {
        match gathered(g, at, table, rows, items[k]) {
            Err(x) => Err(x),
            Ok(g2) => gathered_from(items, k + 1, g2, at, table, rows),
        }
    }
}

/// Nothing gathered yet.
pub open spec fn nothing() -> GatheredView {
    GatheredView {
        calls: Seq::empty(),
        probes: Seq::empty(),
        measures: Seq::empty(),
        cells: Seq::empty(),
    }
}

/// A statement that makes one call.
pub open spec fn one_call(
    select: SelectView,
    table: Seq<char>,
    call: CallView,
    columns: ColumnsView,
) -> StatementView {
    StatementView {
        calls: seq![AskView { table, call }],
        probes: Seq::empty(),
        reads: Seq::empty(),
        answer: AnswerView {
            shape: ShapeView::Table { columns, order: None, cut: None },
            format: select.format,
            calls: 0,
        },
    }
}

/// The columns of a projection, as arguments.
pub open spec fn each_over(items: Seq<ItemView>) -> Seq<ExprView> {
    Seq::new(items.len(), |k: int| over(items[k].leaf()->Column_0))
}

/// The columns of a projection, as the answer shows them.
pub open spec fn each_selected(items: Seq<ItemView>, table: Seq<char>) -> Seq<SelectedView> {
    Seq::new(
        items.len(),
        |k: int|
            SelectedView {
                column: items[k].column(),
                units: UnitsView::Written { table, field: items[k].leaf()->Column_0.column },
                apply: items[k].apply(),
            },
    )
}

/// A projection: the stored values of some columns, for the records the `WHERE` selects.
pub open spec fn projection(select: SelectView, table: Seq<char>, rows: ExprView, first: int) -> core::result::Result<
    StatementView,
    SqlErrorView,
> {
    if first_of(select.items, Kind::Number, 0) is Some || first_of(select.items, Kind::Star, 0) is Some {
        Err(refusal(Refused::Shape, select.items[first].at))
    } else if select.order_by is Some {
        Err(refusal(Refused::Order, select.order_by->0.at))
    } else if select.offset is Some {
        Err(refusal(Refused::Offset, select.items[first].at))
    } else {
        Ok(
            one_call(
                select,
                table,
                a_call(
                    "Project"@,
                    seq![rows] + each_over(select.items) + given_bound("n"@, select.limit),
                ),
                ColumnsView::Named(each_selected(select.items, table)),
            ),
        )
    }
}

/// A limit as a length.
pub open spec fn as_length(limit: Option<u64>) -> Option<usize> {
    match limit {
        Some(n) => Some(n as usize),
        None => None,
    }
}

/// `SELECT *`: every column of the records the `WHERE` selects.
pub open spec fn everything(select: SelectView, table: Seq<char>, rows: ExprView, first: int) -> core::result::Result<
    StatementView,
    SqlErrorView,
> {
    if first_of(select.items, Kind::Number, 0) is Some || first_of(
        select.items,
        Kind::Star,
        first + 1,
    ) is Some {
        Err(refusal(Refused::Shape, select.items[first].at))
    } else if select.offset is Some {
        Err(refusal(Refused::Offset, select.items[first].at))
    } else if select.order_by is Some {
        Err(refusal(Refused::Order, select.order_by->0.at))
    } else {
        Ok(
            one_call(
                select,
                table,
                a_call("Project"@, seq![rows] + given_bound("n"@, select.limit)),
                ColumnsView::All { table, limit: as_length(select.limit) },
            ),
        )
    }
}

/// One row of numbers over the records the `WHERE` selects.
pub open spec fn totals(select: SelectView, table: Seq<char>, rows: ExprView) -> core::result::Result<
    StatementView,
    SqlErrorView,
> {
    let at = match first_of(select.items, Kind::Number, 0) {
        Some(k) => select.items[k].at,
        None => 0,
    };
    if select.order_by is Some {
        Err(refusal(Refused::Order, select.order_by->0.at))
    } else if select.limit is Some || select.offset is Some {
        Err(refusal(Refused::Shape, at))
    } else {
        match gathered_from(select.items, 0, nothing(), at, table, rows) {
            Err(x) => Err(x),
            Ok(g) => match having_resolved(select.having, FrameView::One(table), g.measures) {
                Err(x) => Err(x),
                Ok(having) => Ok(
                    StatementView {
                        calls: g.calls,
                        probes: g.probes,
                        reads: Seq::empty(),
                        answer: AnswerView {
                            shape: ShapeView::Row { cells: g.cells, having },
                            format: select.format,
                            calls: 0,
                        },
                    },
                ),
            },
        }
    }
}

/// A statement without a `GROUP BY`.
pub open spec fn lowered_ungrouped(select: SelectView, table: Seq<char>, rows: ExprView) -> core::result::Result<
    StatementView,
    SqlErrorView,
> {
    let column = first_of(select.items, Kind::Column, 0);
    let star = first_of(select.items, Kind::Star, 0);
    if select.having is Some && (column is Some || star is Some) {
        Err(refusal(Refused::Having, select.having->0.at()))
    } else if column is Some {
        projection(select, table, rows, column->0)
    } else if star is Some {
        everything(select, table, rows, star->0)
    } else {
        totals(select, table, rows)
    }
}

/// What came of a lowering, as its view.
pub open spec fn lowered_to(r: Result<Statement>) -> core::result::Result<
    StatementView,
    SqlErrorView,
> {
    match r {
        Ok(s) => Ok(s@),
        Err(e) => Err(e@),
    }
}

/// What came of asking for a number, as its view.
pub open spec fn counted(r: Result<Of>, calls: Calls) -> Counted {
    match r {
        Ok(of) => Ok((views(calls.out@), of)),
        Err(e) => Err(e@),
    }
}

/// The expression around an entry.
pub fn apply_of(item: &Item) -> (r: Option<Scalar>)
    ensures
        opt_view(r) == item@.apply(),
{
    match item.apply() {
        Some(x) => Some(x.copied()),
        None => None,
    }
}

/// The number of one entry over a whole set of records.
pub fn whole(table: &str, rows: Expr, item: &Item, calls: &mut Calls) -> (r: Result<Of>)
    requires
        old(calls).out@.len() <= MAX_CALLS,
    ensures
        final(calls).at == old(calls).at,
        final(calls).out@.len() <= MAX_CALLS,
        counted(r, *final(calls)) == whole_number(
            views(old(calls).out@),
            old(calls).at,
            table@,
            rows@,
            item@,
        ),
{
    match item.leaf() {
        Proj::Count => {
            let plan = calls.push(table, call1("Count", rows))?;
            Ok(Of::Value { plan })
        },
        Proj::Agg { func, field } => {
            let plan = calls.push(table, call2((*func).call(), rows, field_arg(field)))?;
            Ok(Of::Value { plan })
        },
        Proj::Avg(field) => {
            let plan = calls.push(table, call2("Sum", rows.copied(), field_arg(field)))?;
            let over = calls.push(table, call1("Count", rows))?;
            Ok(Of::Ratio { plan, over })
        },
        Proj::Now { unix_seconds } => Ok(Of::Now { unix_seconds: *unix_seconds }),
        Proj::Window(_) => Err(SqlError::Refused { what: Refused::Window, at: item.at }),
        _ => Err(SqlError::Refused { what: Refused::Shape, at: item.at }),
    }
}

/// The number, the count of keys, or the keys of one entry over a whole set of records.
fn number(table: &str, rows: Expr, item: &Item, calls: &mut Calls) -> (r: Result<Of>)
    requires
        old(calls).out@.len() <= MAX_CALLS,
    ensures
        final(calls).at == old(calls).at,
        final(calls).out@.len() <= MAX_CALLS,
        counted(r, *final(calls)) == any_number(
            views(old(calls).out@),
            old(calls).at,
            table@,
            rows@,
            item@,
        ),
{
    match item.leaf() {
        Proj::CountDistinct(field) => {
            let plan = calls.push(table, call2("Distinct", rows, field_arg(field)))?;
            Ok(Of::Groups { plan })
        },
        Proj::TopKeys { n, field } => {
            let plan = calls.push(
                table,
                call3("TopN", rows, field_arg(field), named_number("n", *n)),
            )?;
            Ok(Of::Keys { plan })
        },
        _ => whole(table, rows, item, calls),
    }
}

/// What a row of numbers is gathered from.
struct Gathered {
    calls: Calls,
    probes: Vec<Probe>,
    measures: Vec<(Measure, Of)>,
    cells: Vec<Cell>,
}

impl Gathered {
    spec fn seen(&self) -> GatheredView {
        GatheredView {
            calls: views(self.calls.out@),
            probes: views(self.probes@),
            measures: measured(self.measures@),
            cells: views(self.cells@),
        }
    }

    /// One more entry.
    fn add(&mut self, table: &str, rows: &Expr, item: &Item) -> (r: Result<()>)
        requires
            old(self).calls.out@.len() <= MAX_CALLS,
            rows@ is Call,
        ensures
            final(self).calls.at == old(self).calls.at,
            final(self).calls.out@.len() <= MAX_CALLS,
            gathered(old(self).seen(), old(self).calls.at, table@, rows@, item@) == (match r {
                Ok(_) => Ok::<_, SqlErrorView>(final(self).seen()),
                Err(e) => Err(e@),
            }),
    {
        let ghost was = self.seen();
        let mine = rows_of(rows, item);
        let of = match item.leaf() {
            Proj::Quantile { per_mille, field } => {
                let probe = self.probes.len();
                let p = Probe {
                    table: str::to_owned(table),
                    rows: as_call(mine),
                    field: field.column.clone(),
                    per_mille: *per_mille,
                };
                self.probes.push(p);
                assert(views(self.probes@) =~= was.probes.push(p@));
                Of::Probe { probe }
            },
            _ => number(table, mine, item, &mut self.calls)?,
        };
        let m = (measure_of(item), of);
        self.measures.push(m);
        assert(measured(self.measures@) =~= was.measures.push((m.0@, of)));
        let cell = Cell {
            column: item.column(),
            of,
            units: units_of(table, &item.proj),
            apply: apply_of(item),
        };
        self.cells.push(cell);
        assert(views(self.cells@) =~= was.cells.push(cell@));
        Ok(())
    }
}

/// One call, as a statement that shows a table.
fn one(select: &Select, table: &str, call: Call, columns: Columns) -> (r: Statement)
    ensures
        r@ == one_call(select@, table@, call@, columns@),
{
    let mut calls: Vec<Ask> = Vec::new();
    calls.push(Ask { table: str::to_owned(table), call });
    let probes: Vec<Probe> = Vec::new();
    let r = Statement {
        calls,
        probes,
        reads: no_names(),
        answer: Answer {
            shape: Shape::Table { columns, order: None, cut: None },
            format: select.format,
            calls: 0,
        },
    };
    assert(r@.calls =~= seq![AskView { table: table@, call: call@ }]);
    assert(r@.probes =~= Seq::<ProbeView>::empty());
    r
}

/// Nothing of another kind means that every entry is a column.
proof fn lemma_all_columns(items: Seq<ItemView>, k: int)
    requires
        0 <= k,
        first_of(items, Kind::Number, k) is None,
        first_of(items, Kind::Star, k) is None,
    ensures
        forall|j: int| k <= j < items.len() ==> (#[trigger] items[j]).leaf() is Column,
    decreases items.len() - k,
{
    if k < items.len() {
        lemma_all_columns(items, k + 1);
    }
}

/// A projection.
fn project(select: &Select, table: &str, rows: &Expr, first: usize) -> (r: Result<Statement>)
    requires
        first < select.items@.len(),
    ensures
        lowered_to(r) == projection(select@, table@, rows@, first as int),
{
    assert(select@.items[first as int] == select.items@[first as int]@);
    if find_first(&select.items, Kind::Number, 0).is_some() || find_first(
        &select.items,
        Kind::Star,
        0,
    ).is_some() {
        return Err(SqlError::Refused { what: Refused::Shape, at: select.items[first].at });
    }
    if let Some(order) = &select.order_by {
        return Err(SqlError::Refused { what: Refused::Order, at: order.at });
    }
    if select.offset.is_some() {
        return Err(SqlError::Refused { what: Refused::Offset, at: select.items[first].at });
    }
    proof {
        lemma_all_columns(select@.items, 0);
    }
    let mut args: Vec<Expr> = Vec::new();
    args.push(rows.copied());
    let mut columns: Vec<Selected> = Vec::new();
    let mut k: usize = 0;
    assert(views(args@) =~= seq![rows@] + each_over(select@.items).take(0));
    assert(views(columns@) =~= each_selected(select@.items, table@).take(0));
    while k < select.items.len()
        invariant
            k <= select.items@.len(),
            forall|j: int| 0 <= j < select@.items.len() ==> (#[trigger] select@.items[j]).leaf() is Column,
            views(args@) == seq![rows@] + each_over(select@.items).take(k as int),
            views(columns@) == each_selected(select@.items, table@).take(k as int),
        decreases select.items.len() - k,
    {
        let ghost before = views(args@);
        let ghost shown = views(columns@);
        let item = &select.items[k];
        assert(select@.items[k as int] == item@);
        if let Proj::Column(name) = item.leaf() {
            let arg = field_arg(name);
            args.push(arg);
            assert(views(args@) =~= before.push(arg@));
            let one = Selected {
                column: item.column(),
                units: Units::Written {
                    table: str::to_owned(table),
                    field: name.column.clone(),
                },
                apply: apply_of(item),
            };
            columns.push(one);
            assert(views(columns@) =~= shown.push(one@));
        }
        k += 1;
        assert(views(args@) =~= seq![rows@] + each_over(select@.items).take(k as int));
        assert(views(columns@) =~= each_selected(select@.items, table@).take(k as int));
    }
    assert(each_over(select@.items).take(k as int) =~= each_over(select@.items));
    assert(each_selected(select@.items, table@).take(k as int) =~= each_selected(
        select@.items,
        table@,
    ));
    let ghost before = views(args@);
    if let Some(n) = select.limit {
        let arg = named_number("n", n);
        args.push(arg);
        assert(views(args@) =~= before.push(arg@));
    }
    assert(views(args@) =~= seq![rows@] + each_over(select@.items) + given_bound(
        "n"@,
        select.limit,
    ));
    Ok(one(select, table, call_of("Project", args), Columns::Named(columns)))
}

/// A limit as a length.
pub fn length(limit: Option<u64>) -> (r: Option<usize>)
    ensures
        r == as_length(limit),
{
    match limit {
        Some(n) => Some(
            #[verifier::truncate]
            (n as usize),
        ),
        None => None,
    }
}

/// `SELECT *`.
fn show_all(select: &Select, table: &str, rows: &Expr, first: usize) -> (r: Result<Statement>)
    requires
        first < select.items@.len(),
    ensures
        lowered_to(r) == everything(select@, table@, rows@, first as int),
{
    assert(first < select.items.len());
    assert(select@.items[first as int] == select.items@[first as int]@);
    if find_first(&select.items, Kind::Number, 0).is_some() || find_first(
        &select.items,
        Kind::Star,
        first + 1,
    ).is_some() {
        return Err(SqlError::Refused { what: Refused::Shape, at: select.items[first].at });
    }
    if select.offset.is_some() {
        return Err(SqlError::Refused { what: Refused::Offset, at: select.items[first].at });
    }
    if let Some(order) = &select.order_by {
        return Err(SqlError::Refused { what: Refused::Order, at: order.at });
    }
    let mut args: Vec<Expr> = Vec::new();
    args.push(rows.copied());
    if let Some(n) = select.limit {
        args.push(named_number("n", n));
    }
    assert(views(args@) =~= seq![rows@] + given_bound("n"@, select.limit));
    let columns = Columns::All { table: str::to_owned(table), limit: length(select.limit) };
    Ok(one(select, table, call_of("Project", args), columns))
}

/// Every entry of a select list.
fn gather(items: &Vec<Item>, at: usize, table: &str, rows: &Expr) -> (r: Result<Gathered>)
    requires
        rows@ is Call,
    ensures
        gathered_from(views(items@), 0, nothing(), at, table@, rows@) == (match r {
            Ok(g) => Ok::<_, SqlErrorView>(g.seen()),
            Err(e) => Err(e@),
        }),
{
    let mut g = Gathered {
        calls: Calls::new(at),
        probes: Vec::new(),
        measures: Vec::new(),
        cells: Vec::new(),
    };
    assert(g.seen() =~= nothing());
    let mut k: usize = 0;
    while k < items.len()
        invariant
            k <= items@.len(),
            rows@ is Call,
            g.calls.at == at,
            g.calls.out@.len() <= MAX_CALLS,
            gathered_from(views(items@), 0, nothing(), at, table@, rows@) == gathered_from(
                views(items@),
                k as int,
                g.seen(),
                at,
                table@,
                rows@,
            ),
        decreases items.len() - k,
    {
        assert(views(items@)[k as int] == items@[k as int]@);
        g.add(table, rows, &items[k])?;
        k += 1;
    }
    Ok(g)
}

/// One row of numbers.
fn count_all(select: &Select, table: &str, rows: &Expr) -> (r: Result<Statement>)
    requires
        rows@ is Call,
    ensures
        lowered_to(r) == totals(select@, table@, rows@),
{
    let at = match find_first(&select.items, Kind::Number, 0) {
        Some(k) => {
            assert(select@.items[k as int] == select.items@[k as int]@);
            select.items[k].at
        },
        None => 0,
    };
    if let Some(order) = &select.order_by {
        return Err(SqlError::Refused { what: Refused::Order, at: order.at });
    }
    if select.limit.is_some() || select.offset.is_some() {
        return Err(SqlError::Refused { what: Refused::Shape, at });
    }
    let g = gather(&select.items, at, table, rows)?;
    let having = having_of(&select.having, Frame::One(table), &g.measures)?;
    Ok(
        Statement {
            calls: g.calls.out,
            probes: g.probes,
            reads: no_names(),
            answer: Answer {
                shape: Shape::Row { cells: g.cells, having },
                format: select.format,
                calls: 0,
            },
        },
    )
}

/// `SELECT *`, a projection, or aggregates over the whole filtered set.
pub fn ungrouped(select: &Select, table: &str, rows: &Expr) -> (r: Result<Statement>)
    requires
        rows@ is Call,
    ensures
        lowered_to(r) == lowered_ungrouped(select@, table@, rows@),
{
    let column = find_first(&select.items, Kind::Column, 0);
    let star = find_first(&select.items, Kind::Star, 0);
    if let Some(h) = &select.having {
        if column.is_some() || star.is_some() {
            return Err(SqlError::Refused { what: Refused::Having, at: h.at() });
        }
    }
    if let Some(k) = column {
        return project(select, table, rows, k);
    }
    if let Some(k) = star {
        return show_all(select, table, rows, k);
    }
    count_all(select, table, rows)
}

} // verus!
