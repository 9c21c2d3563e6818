//! What every grouping shares: the calls its numbers come from, and the cells its rows have.

use vstd::prelude::*;
use crate::ast::{Agg, Grouping, GroupingView, HavingAgg, HavingAggView, Item, ItemView, Name, NameView, OrderKey, OrderKeyView, Proj, ProjView};
use crate::civil::Unit;
use crate::error::{Refused, Result, SqlError, SqlErrorView};
use crate::lower::calls::{asking, AskView, Calls, MAX_BUCKETS, MAX_CALLS, MAX_PASSES};
use crate::lower::measure::{absent, absent_of, aliased, find_alias, kind, kind_of, measure, measure_of, measured, measured_in, names, narrowed, number_named, rows_of, units_of, Kind, Measure, MeasureView, Measures};
use crate::lower::pql::{as_expr, call1, call3, call_of, called, field_arg, given, given_number, given_text, named, named_number, named_text, over};
use crate::lower::ungrouped::{a_call, apply_of, counted, one_average, whole, whole_number, Counted};
use crate::parse::cursor::refusal;
use crate::parse::grouping::{boundary_of, bucket_of, find_grouped, grouped_at};
use crate::pql::{Call, CallView, Expr, ExprView};
use crate::shape::{Absent, Cell, CellView, Of};
use crate::text::{same, views};

verus! {

/// `Bucket(field=<column>, unit="<unit>", n=<most>)`.
pub open spec fn bucket(name: NameView, unit: Unit) -> ExprView {
    called(
        "Bucket"@,
        seq![over(name), given_text("unit"@, unit.word()), given_number("n"@, MAX_BUCKETS)],
    )
}

/// What a grouping by one column is by.
pub open spec fn by_arg(g: GroupingView) -> ExprView {
    match g.bucket {
        None => over(g.name),
        Some(unit) => given("by"@, bucket(g.name, unit)),
    }
}

/// `aggregate=<call>`.
pub open spec fn aggregate_arg(func: Seq<char>, field: NameView) -> ExprView {
    given("aggregate"@, called(func, seq![over(field)]))
}

/// `GroupBy(<rows>, <by>)`: the counts of each group.
pub open spec fn group_counts(rows: ExprView, g: GroupingView) -> CallView {
    a_call("GroupBy"@, seq![rows, by_arg(g)])
}

/// `GroupBy(<rows>, <by>, aggregate=<call>)`: a number of each group.
pub open spec fn group_numbers(
    rows: ExprView,
    g: GroupingView,
    func: Seq<char>,
    field: NameView,
) -> CallView {
    a_call("GroupBy"@, seq![rows, by_arg(g), aggregate_arg(func, field)])
}

/// The call that lists the groups there are.
pub open spec fn group_keys(rows: ExprView, g: GroupingView) -> CallView {
    match g.bucket {
        None => a_call("Distinct"@, seq![rows, over(g.name)]),
        Some(_) => group_counts(rows, g),
    }
}

/// The number of one entry in each group of one column.
pub open spec fn grouped_number(
    out: Seq<AskView>,
    at: usize,
    table: Seq<char>,
    rows: ExprView,
    g: GroupingView,
    item: ItemView,
) -> Counted {
    match item.leaf() {
        ProjView::Now { unix_seconds } => Ok((out, Of::Now { unix_seconds })),
        ProjView::Count => match asking(out, at, table, group_counts(rows, g)) {
            Ok((out2, plan)) => Ok((out2, Of::Group { plan, absent: Absent::Zero })),
            Err(x) => Err(x),
        },
        ProjView::Agg { func, field } => match asking(
            out,
            at,
            table,
            group_numbers(rows, g, func.called(), field),
        ) {
            Ok((out2, plan)) => Ok((out2, Of::Group { plan, absent: absent_of(func) })),
            Err(x) => Err(x),
        },
        ProjView::Avg(field) => one_average(
            out,
            at,
            table,
            group_numbers(rows, g, "Sum"@, field),
            group_counts(rows, g),
        ),
        ProjView::Window(_) => Err(refusal(Refused::Window, item.at)),
        _ => Err(refusal(Refused::Shape, item.at)),
    }
}

/// One level of a grouping by several columns.
pub open spec fn level(g: GroupingView) -> ExprView {
    given(
        "by"@,
        match g.bucket {
            None => ExprView::Ident(g.name.column),
            Some(unit) => bucket(g.name, unit),
        },
    )
}

/// The records, the levels and the budget of a grouping by several columns.
pub open spec fn tuple_args(by: Seq<GroupingView>, rows: ExprView) -> Seq<ExprView> {
    seq![rows] + Seq::new(by.len(), |k: int| level(by[k])) + seq![given_number("n"@, MAX_PASSES)]
}

/// The number of one entry in each combination of several columns.
pub open spec fn tuple_number(
    out: Seq<AskView>,
    at: usize,
    table: Seq<char>,
    rows: ExprView,
    by: Seq<GroupingView>,
    item: ItemView,
) -> Counted {
    match item.leaf() {
        ProjView::Count => match asking(
            out,
            at,
            table,
            a_call("GroupByTuple"@, tuple_args(by, rows)),
        ) {
            Ok((out2, plan)) => Ok((out2, Of::Group { plan, absent: Absent::Zero })),
            Err(x) => Err(x),
        },
        ProjView::Agg { func, field } => match asking(
            out,
            at,
            table,
            a_call(
                "GroupByTuple"@,
                tuple_args(by, rows).push(aggregate_arg(func.called(), field)),
            ),
        ) {
            Ok((out2, plan)) => Ok((out2, Of::Group { plan, absent: absent_of(func) })),
            Err(x) => Err(x),
        },
        _ => Err(refusal(Refused::Shape, item.at)),
    }
}

/// The number of one entry, over whatever the records are grouped by: nothing, one column, or
/// several.
pub open spec fn number_by(
    out: Seq<AskView>,
    at: usize,
    table: Seq<char>,
    rows: ExprView,
    by: Seq<GroupingView>,
    item: ItemView,
) -> Counted {
    if by.len() == 0 {
        whole_number(out, at, table, rows, item)
    } else if by.len() == 1 {
        grouped_number(out, at, table, rows, by[0], item)
    } else {
        tuple_number(out, at, table, rows, by, item)
    }
}

/// The calls some numbers come from, and what they measure.
pub type Numbered = core::result::Result<(Seq<AskView>, Measures), SqlErrorView>;

/// The numbers of every entry that is one, from a position on.
pub open spec fn numbers_by(
    items: Seq<ItemView>,
    k: int,
    out: Seq<AskView>,
    measures: Measures,
    at: usize,
    table: Seq<char>,
    rows: ExprView,
    by: Seq<GroupingView>,
) -> Numbered
    decreases items.len() - k,
{
    if k < 0 || k >= items.len() {
        Ok((out, measures))
    } else if kind_of(items[k]) != Kind::Number {
        numbers_by(items, k + 1, out, measures, at, table, rows, by)
    } else {
        match number_by(out, at, table, narrowed(rows, items[k]), by, items[k]) {
            Err(x) => Err(x),
            Ok((out2, of)) => numbers_by(
                items,
                k + 1,
                out2,
                measures.push((measure(items[k]), of)),
                at,
                table,
                rows,
                by,
            ),
        }
    }
}

/// Whether an entry shows the grouped column as it is grouped.
pub open spec fn agreeing(item: ItemView, g: GroupingView) -> bool {
    g.bucket is None || boundary_of(item.apply()) == g.bucket
}

/// The first column, from a position on, that is not grouped by as it is shown.
pub open spec fn column_fault(items: Seq<ItemView>, by: Seq<GroupingView>, k: int) -> Option<
    SqlErrorView,
>
    decreases items.len() - k,
{
    if k < 0 || k >= items.len() {
        None
    } else {
        match items[k].leaf() {
            ProjView::Column(name) => match grouped_at(by, name.column) {
                Some(g) => if agreeing(items[k], by[g]) {
                    column_fault(items, by, k + 1)
                } else {
                    Some(refusal(Refused::Shape, items[k].at))
                },
                None => Some(refusal(Refused::Shape, items[k].at)),
            },
            _ => column_fault(items, by, k + 1),
        }
    }
}

/// The first number, from a position on, that a group cannot hold.
pub open spec fn number_fault(items: Seq<ItemView>, k: int) -> Option<SqlErrorView>
    decreases items.len() - k,
{
    if k < 0 || k >= items.len() {
        None
    } else {
        match items[k].leaf() {
            ProjView::CountDistinct(_) => Some(refusal(Refused::MultiDistinct, items[k].at)),
            ProjView::TopKeys { .. } => Some(refusal(Refused::Shape, items[k].at)),
            ProjView::Quantile { .. } => Some(refusal(Refused::Shape, items[k].at)),
            _ => number_fault(items, k + 1),
        }
    }
}

/// Whether some number is narrowed by a `FILTER`. Then a group may have nothing left to count,
/// and is still a group.
pub open spec fn filtered(items: Seq<ItemView>, k: int) -> bool
    decreases items.len() - k,
{
    if k < 0 || k >= items.len() {
        false
    } else {
        (kind_of(items[k]) == Kind::Number && items[k].filter is Some) || filtered(items, k + 1)
    }
}

/// Whether a column is grouped by twice.
pub open spec fn repeated(by: Seq<GroupingView>) -> bool {
    exists|i: int, j: int|
        #![trigger by[i], by[j]]
        0 <= j < i < by.len() && by[j].name.column == by[i].name.column
}

/// Where a value is in a list, from a position on.
pub open spec fn position(set: Seq<usize>, x: usize, k: int) -> Option<int>
    decreases set.len() - k,
{
    if k < 0 || k >= set.len() {
        None
    } else if set[k] == x {
        Some(k)
    } else {
        position(set, x, k + 1)
    }
}

/// One cell of a row over a set of the grouped columns: the key of a column in the set, nothing
/// for a grouped column outside it, and the next number for anything else.
pub open spec fn cell_for(
    item: ItemView,
    n: int,
    table: Seq<char>,
    by: Seq<GroupingView>,
    set: Seq<usize>,
    measures: Measures,
) -> CellView {
    let term = match item.leaf() {
        ProjView::Column(name) => grouped_at(by, name.column),
        _ => None,
    };
    let axis = match term {
        Some(t) => position(set, t as usize, 0),
        None => None,
    };
    CellView {
        column: item.column(),
        of: if term is Some {
            if axis is None {
                Of::Const { value: None }
            } else if set.len() == 1 {
                Of::Key
            } else {
                Of::KeyAt { axis: axis->0 as u8 }
            }
        } else if 0 <= n < measures.len() {
            measures[n].1
        } else {
            Of::Const { value: None }
        },
        units: measured_in(table, item.proj),
        apply: if term is Some && (axis is None || by[term->0].bucket is Some) {
            None
        } else {
            item.apply()
        },
    }
}

/// How many of the first entries are numbers.
pub open spec fn numbers_upto(items: Seq<ItemView>, k: int) -> nat
    decreases k,
{
    if k <= 0 {
        0
    } else if kind_of(items[k - 1]) == Kind::Number {
        numbers_upto(items, k - 1) + 1
    } else {
        numbers_upto(items, k - 1)
    }
}

/// The cells of a row over a set of the grouped columns, in the order of the select list.
pub open spec fn cells_for(
    items: Seq<ItemView>,
    table: Seq<char>,
    by: Seq<GroupingView>,
    set: Seq<usize>,
    measures: Measures,
) -> Seq<CellView> {
    Seq::new(
        items.len(),
        |k: int| cell_for(items[k], numbers_upto(items, k) as int, table, by, set, measures),
    )
}

/// The number an `ORDER BY` names: an aggregate written out, or an entry's name.
pub open spec fn order_number(
    key: OrderKeyView,
    items: Seq<ItemView>,
    measures: Measures,
) -> Option<Of> {
    match key {
        OrderKeyView::Count => number_named(HavingAggView::Count, measures),
        OrderKeyView::Agg { func, field } => number_named(
            HavingAggView::Agg { func, field },
            measures,
        ),
        OrderKeyView::Avg(field) => number_named(HavingAggView::Avg(field), measures),
        OrderKeyView::Name(n) => aliased(items, measures, n.column, 0, 0),
    }
}

/// The number an `ORDER BY` names.
pub fn ordered_number(key: &OrderKey, items: &Vec<Item>, measures: &Vec<(Measure, Of)>) -> (r: Option<
    Of,
>)
    ensures
        r == order_number(key@, views(items@), measured(measures@)),
{
    match key {
        OrderKey::Count => names(&HavingAgg::Count, measures),
        OrderKey::Agg { func, field } => names(
            &HavingAgg::Agg { func: *func, field: field.copied() },
            measures,
        ),
        OrderKey::Avg(field) => names(&HavingAgg::Avg(field.copied()), measures),
        OrderKey::Name(n) => find_alias(items, measures, n.column.as_str()),
    }
}

/// `Bucket(field=<column>, unit="<unit>", n=<most>)`.
fn bucket_call(name: &Name, unit: Unit) -> (r: Expr)
    ensures
        r@ == bucket(name@, unit),
{
    as_expr(
        call3(
            "Bucket",
            field_arg(name),
            named_text("unit", unit.name()),
            named_number("n", MAX_BUCKETS),
        ),
    )
}

/// What a grouping by one column is by.
fn by_column(g: &Grouping) -> (r: Expr)
    ensures
        r@ == by_arg(g@),
{
    match g.bucket {
        None => field_arg(&g.name),
        Some(unit) => named("by", bucket_call(&g.name, unit)),
    }
}

/// `aggregate=<call>`.
fn aggregate_of(func: &str, field: &Name) -> (r: Expr)
    ensures
        r@ == aggregate_arg(func@, field@),
{
    named("aggregate", as_expr(call1(func, field_arg(field))))
}

/// The counts of each group.
pub fn group_call(rows: Expr, g: &Grouping) -> (r: Call)
    ensures
        r@ == group_counts(rows@, g@),
{
    let by = by_column(g);
    crate::lower::pql::call2("GroupBy", rows, by)
}

/// A number of each group.
fn aggregate_call(rows: Expr, g: &Grouping, func: &str, field: &Name) -> (r: Call)
    ensures
        r@ == group_numbers(rows@, g@, func@, field@),
{
    call3("GroupBy", rows, by_column(g), aggregate_of(func, field))
}

/// The call that lists the groups there are.
pub fn keys_call(rows: Expr, g: &Grouping) -> (r: Call)
    ensures
        r@ == group_keys(rows@, g@),
{
    match g.bucket {
        None => crate::lower::pql::call2("Distinct", rows, field_arg(&g.name)),
        Some(_) => group_call(rows, g),
    }
}

/// The number of one entry in each group of one column.
fn number_in_group(table: &str, rows: Expr, g: &Grouping, item: &Item, calls: &mut Calls) -> (r: Result<
    Of,
>)
    requires
        old(calls).out@.len() <= MAX_CALLS,
    ensures
        final(calls).at == old(calls).at,
        final(calls).out@.len() <= MAX_CALLS,
        counted(r, *final(calls)) == grouped_number(
            views(old(calls).out@),
            old(calls).at,
            table@,
            rows@,
            g@,
            item@,
        ),
{
    match item.leaf() {
        Proj::Now { unix_seconds } => Ok(Of::Now { unix_seconds: *unix_seconds }),
        Proj::Count => {
            let plan = calls.push(table, group_call(rows, g))?;
            Ok(Of::Group { plan, absent: Absent::Zero })
        },
        Proj::Agg { func, field } => {
            let plan = calls.push(table, aggregate_call(rows, g, (*func).call(), field))?;
            Ok(Of::Group { plan, absent: absent(*func) })
        },
        Proj::Avg(field) => {
            let plan = calls.push(table, aggregate_call(rows.copied(), g, "Sum", field))?;
            let over = calls.push(table, group_call(rows, g))?;
            Ok(Of::Ratio { plan, over })
        },
        Proj::Window(_) => Err(SqlError::Refused { what: Refused::Window, at: item.at }),
        _ => Err(SqlError::Refused { what: Refused::Shape, at: item.at }),
    }
}

/// The records, the levels and the budget of a grouping by several columns.
pub fn tuple_arguments(by: &Vec<Grouping>, rows: Expr) -> (r: Vec<Expr>)
    ensures
        views(r@) == tuple_args(views(by@), rows@),
{
    let mut args: Vec<Expr> = Vec::new();
    args.push(rows);
    let mut k: usize = 0;
    let ghost levels = Seq::new(by@.len(), |k: int| level(views(by@)[k]));
    assert(views(args@) =~= seq![rows@] + levels.take(0));
    while k < by.len()
        invariant
            k <= by@.len(),
            levels == Seq::new(by@.len(), |k: int| level(views(by@)[k])),
            views(args@) == seq![rows@] + levels.take(k as int),
        decreases by.len() - k,
    {
        let ghost before = views(args@);
        assert(views(by@)[k as int] == by@[k as int]@);
        let g = &by[k];
        let what = match g.bucket {
            None => Expr::Ident(g.name.column.clone()),
            Some(unit) => bucket_call(&g.name, unit),
        };
        let arg = named("by", what);
        args.push(arg);
        assert(views(args@) =~= before.push(arg@));
        k += 1;
        assert(views(args@) =~= seq![rows@] + levels.take(k as int));
    }
    assert(levels.take(k as int) =~= levels);
    let ghost before = views(args@);
    let most = named_number("n", MAX_PASSES);
    args.push(most);
    assert(views(args@) =~= before.push(most@));
    assert(views(args@) =~= tuple_args(views(by@), rows@));
    args
}

/// The number of one entry in each combination of several columns.
fn number_in_tuple(
    table: &str,
    rows: Expr,
    by: &Vec<Grouping>,
    item: &Item,
    calls: &mut Calls,
) -> (r: Result<Of>)
    requires
        old(calls).out@.len() <= MAX_CALLS,
    ensures
        final(calls).at == old(calls).at,
        final(calls).out@.len() <= MAX_CALLS,
        counted(r, *final(calls)) == tuple_number(
            views(old(calls).out@),
            old(calls).at,
            table@,
            rows@,
            views(by@),
            item@,
        ),
{
    match item.leaf() {
        Proj::Count => {
            let args = tuple_arguments(by, rows);
            let plan = calls.push(table, call_of("GroupByTuple", args))?;
            Ok(Of::Group { plan, absent: Absent::Zero })
        },
        Proj::Agg { func, field } => {
            let mut args = tuple_arguments(by, rows);
            let ghost before = views(args@);
            let arg = aggregate_of((*func).call(), field);
            args.push(arg);
            assert(views(args@) =~= before.push(arg@));
            let plan = calls.push(table, call_of("GroupByTuple", args))?;
            Ok(Of::Group { plan, absent: absent(*func) })
        },
        _ => Err(SqlError::Refused { what: Refused::Shape, at: item.at }),
    }
}

/// The number of one entry, over whatever the records are grouped by.
fn number_over(table: &str, rows: Expr, by: &Vec<Grouping>, item: &Item, calls: &mut Calls) -> (r: Result<
    Of,
>)
    requires
        old(calls).out@.len() <= MAX_CALLS,
    ensures
        final(calls).at == old(calls).at,
        final(calls).out@.len() <= MAX_CALLS,
        counted(r, *final(calls)) == number_by(
            views(old(calls).out@),
            old(calls).at,
            table@,
            rows@,
            views(by@),
            item@,
        ),
{
    if by.len() == 0 {
        whole(table, rows, item, calls)
    } else if by.len() == 1 {
        assert(views(by@)[0] == by@[0]@);
        number_in_group(table, rows, &by[0], item, calls)
    } else {
        number_in_tuple(table, rows, by, item, calls)
    }
}

/// What each number in the select list measures, and which plan answers it.
pub fn measures_of(
    table: &str,
    rows: &Expr,
    by: &Vec<Grouping>,
    items: &Vec<Item>,
    calls: &mut Calls,
) -> (r: Result<Vec<(Measure, Of)>>)
    requires
        old(calls).out@.len() <= MAX_CALLS,
    ensures
        final(calls).at == old(calls).at,
        final(calls).out@.len() <= MAX_CALLS,
        numbers_by(
            views(items@),
            0,
            views(old(calls).out@),
            Seq::empty(),
            old(calls).at,
            table@,
            rows@,
            views(by@),
        ) == (match r {
            Ok(m) => Ok::<_, SqlErrorView>((views(final(calls).out@), measured(m@))),
            Err(e) => Err(e@),
        }),
{
    let mut out: Vec<(Measure, Of)> = Vec::new();
    let mut k: usize = 0;
    assert(measured(out@) =~= Seq::<(MeasureView, Of)>::empty());
    while k < items.len()
        invariant
            k <= items@.len(),
            calls.at == old(calls).at,
            calls.out@.len() <= MAX_CALLS,
            numbers_by(
                views(items@),
                0,
                views(old(calls).out@),
                Seq::empty(),
                old(calls).at,
                table@,
                rows@,
                views(by@),
            ) == numbers_by(
                views(items@),
                k as int,
                views(calls.out@),
                measured(out@),
                calls.at,
                table@,
                rows@,
                views(by@),
            ),
        decreases items.len() - k,
    {
        assert(views(items@)[k as int] == items@[k as int]@);
        if kind(&items[k]) == Kind::Number {
            let ghost before = measured(out@);
            let mine = rows_of(rows, &items[k]);
            let of = number_over(table, mine, by, &items[k], calls)?;
            let m = (measure_of(&items[k]), of);
            out.push(m);
            assert(measured(out@) =~= before.push((m.0@, of)));
        }
        k += 1;
    }
    Ok(out)
}

/// Whether an entry shows the grouped column as it is grouped.
fn agrees(item: &Item, g: &Grouping) -> (r: bool)
    ensures
        r == agreeing(item@, g@),
{
    match g.bucket {
        None => true,
        Some(unit) => match bucket_of(item.apply()) {
            Some(u) => u == unit,
            None => false,
        },
    }
}

/// Refuses a column that is not grouped by as it is shown.
pub fn check_columns(items: &Vec<Item>, by: &Vec<Grouping>) -> (r: Result<()>)
    ensures
        match r {
            Ok(_) => column_fault(views(items@), views(by@), 0) is None,
            Err(e) => column_fault(views(items@), views(by@), 0) == Some(e@),
        },
{
    let mut k: usize = 0;
    while k < items.len()
        invariant
            k <= items@.len(),
            column_fault(views(items@), views(by@), 0) == column_fault(
                views(items@),
                views(by@),
                k as int,
            ),
        decreases items.len() - k,
    {
        let item = &items[k];
        assert(views(items@)[k as int] == item@);
        if let Proj::Column(name) = item.leaf() {
            match find_grouped(by, name.column.as_str()) {
                Some(g) => {
                    assert(views(by@)[g as int] == by@[g as int]@);
                    if !agrees(item, &by[g]) {
                        return Err(SqlError::Refused { what: Refused::Shape, at: item.at });
                    }
                },
                None => {
                    return Err(SqlError::Refused { what: Refused::Shape, at: item.at });
                },
            }
        }
        k += 1;
    }
    Ok(())
}

/// Refuses a number a group cannot hold.
pub fn check_numbers(items: &Vec<Item>) -> (r: Result<()>)
    ensures
        match r {
            Ok(_) => number_fault(views(items@), 0) is None,
            Err(e) => number_fault(views(items@), 0) == Some(e@),
        },
{
    let mut k: usize = 0;
    while k < items.len()
        invariant
            k <= items@.len(),
            number_fault(views(items@), 0) == number_fault(views(items@), k as int),
        decreases items.len() - k,
    {
        let item = &items[k];
        assert(views(items@)[k as int] == item@);
        match item.leaf() {
            Proj::CountDistinct(_) => {
                return Err(SqlError::Refused { what: Refused::MultiDistinct, at: item.at });
            },
            Proj::TopKeys { .. } => {
                return Err(SqlError::Refused { what: Refused::Shape, at: item.at });
            },
            Proj::Quantile { .. } => {
                return Err(SqlError::Refused { what: Refused::Shape, at: item.at });
            },
            _ => {},
        }
        k += 1;
    }
    Ok(())
}

/// Whether some number is narrowed by a `FILTER`.
pub fn any_filtered(items: &Vec<Item>) -> (r: bool)
    ensures
        r == filtered(views(items@), 0),
{
    let mut k: usize = 0;
    while k < items.len()
        invariant
            k <= items@.len(),
            filtered(views(items@), 0) == filtered(views(items@), k as int),
        decreases items.len() - k,
    {
        assert(views(items@)[k as int] == items@[k as int]@);
        if kind(&items[k]) == Kind::Number && items[k].filter.is_some() {
            return true;
        }
        k += 1;
    }
    false
}

/// Whether a column is grouped by twice.
pub fn repeats(by: &Vec<Grouping>) -> (r: bool)
    ensures
        r == repeated(views(by@)),
{
    let mut i: usize = 0;
    while i < by.len()
        invariant
            i <= by@.len(),
            forall|a: int, b: int|
                #![trigger views(by@)[a], views(by@)[b]]
                0 <= b < a < i ==> views(by@)[b].name.column != views(by@)[a].name.column,
        decreases by.len() - i,
    {
        let mut j: usize = 0;
        while j < i
            invariant
                j <= i < by@.len(),
                forall|b: int|
                    0 <= b < j ==> (#[trigger] views(by@)[b]).name.column
                        != views(by@)[i as int].name.column,
            decreases i - j,
        {
            assert(views(by@)[i as int] == by@[i as int]@);
            assert(views(by@)[j as int] == by@[j as int]@);
            if same(by[j].name.column.as_str(), by[i].name.column.as_str()) {
                return true;
            }
            j += 1;
        }
        i += 1;
    }
    false
}

/// Where a value is in a list.
pub fn find_position(set: &Vec<usize>, x: usize) -> (r: Option<usize>)
    ensures
        match r {
            Some(k) => position(set@, x, 0) == Some(k as int) && k < set@.len(),
            None => position(set@, x, 0) is None,
        },
{
    let mut k: usize = 0;
    while k < set.len()
        invariant
            k <= set@.len(),
            position(set@, x, 0) == position(set@, x, k as int),
        decreases set.len() - k,
    {
        if set[k] == x {
            return Some(k);
        }
        k += 1;
    }
    None
}

/// One cell of a row over a set of the grouped columns.
fn cell(
    item: &Item,
    n: usize,
    table: &str,
    by: &Vec<Grouping>,
    set: &Vec<usize>,
    measures: &Vec<(Measure, Of)>,
) -> (r: Cell)
    requires
        set@.len() <= 255,
    ensures
        r@ == cell_for(item@, n as int, table@, views(by@), set@, measured(measures@)),
{
    let term = match item.leaf() {
        Proj::Column(name) => find_grouped(by, name.column.as_str()),
        _ => None,
    };
    let column = item.column();
    let units = units_of(table, &item.proj);
    match term {
        Some(t) => {
            assert(views(by@)[t as int] == by@[t as int]@);
            match find_position(set, t) {
                None => Cell { column, of: Of::Const { value: None }, units, apply: None },
                Some(axis) => {
                    let of = if set.len() == 1 {
                        Of::Key
                    } else {
                        Of::KeyAt { axis: axis as u8 }
                    };
                    let apply = if by[t].bucket.is_some() {
                        None
                    } else {
                        apply_of(item)
                    };
                    Cell { column, of, units, apply }
                },
            }
        },
        None => {
            let of = if n < measures.len() {
                measures[n].1
            } else {
                Of::Const { value: None }
            };
            Cell { column, of, units, apply: apply_of(item) }
        },
    }
}

/// The cells of a row over a set of the grouped columns, in the order of the select list.
pub fn cells_of(
    items: &Vec<Item>,
    table: &str,
    by: &Vec<Grouping>,
    set: &Vec<usize>,
    measures: &Vec<(Measure, Of)>,
) -> (r: Vec<Cell>)
    requires
        set@.len() <= 255,
    ensures
        views(r@) == cells_for(views(items@), table@, views(by@), set@, measured(measures@)),
{
    let ghost all = cells_for(views(items@), table@, views(by@), set@, measured(measures@));
    let mut out: Vec<Cell> = Vec::new();
    let mut k: usize = 0;
    let mut n: usize = 0;
    assert(views(out@) =~= all.take(0));
    while k < items.len()
        invariant
            set@.len() <= 255,
            n <= k <= items@.len(),
            n == numbers_upto(views(items@), k as int),
            all == cells_for(views(items@), table@, views(by@), set@, measured(measures@)),
            views(out@) == all.take(k as int),
        decreases items.len() - k,
    {
        let ghost before = views(out@);
        assert(views(items@)[k as int] == items@[k as int]@);
        let c = cell(&items[k], n, table, by, set, measures);
        out.push(c);
        assert(views(out@) =~= before.push(c@));
        if kind(&items[k]) == Kind::Number {
            n += 1;
        }
        k += 1;
        assert(views(out@) =~= all.take(k as int));
    }
    assert(all.take(k as int) =~= all);
    out
}

} // verus!
