//! What an answer shows is what the statement asked for.

use vstd::prelude::*;
use crate::ast::{CondView, GroupingView, ItemView, NameView, ProjView, SelectView};
use crate::lower::answers::{lemma_all_axes, lemma_answer_names, lemma_narrowed, lemma_number_answers, lemma_over, lemma_rows, lemma_same_figure, lemma_skip, right_rows};
use crate::lower::calls::{asking_is_frugal, frugal, AskView, ProbeView};
use crate::lower::keeping::{lemma_having, measures_what, right_measures};
use crate::lower::keyed::number_by;
use crate::lower::measure::{first_of, measure, measured_field, measured_in, narrowed, FrameView, Kind};
use crate::lower::model::{a_number, allows, among, argument, asked_of, axes_by, axes_of, axes_upto, axis_in, column_axis, comes_to, count_of, entry_units, figure, first, group_comes, group_entry, is_number, keeps, keys_among, keys_of, most_frequent, over_records, picks, ranked_keys, wanted_group, whole_name, Axis, Figure, Stored};
use crate::lower::pql::{given_bound, given_number, over, the_call};
use crate::lower::query::lowered_one;
use crate::lower::selecting::lemma_whole;
use crate::lower::ungrouped::{a_call, any_number, each_over, gathered, gathered_from, nothing, GatheredView};
use crate::pql::ExprView;
use crate::shape::{CellView, ColumnsView, Of, ShapeView, UnitsView};

verus! {

/// Filtering twice is filtering by both.
pub proof fn lemma_filter_twice(s: Seq<int>, f: spec_fn(int) -> bool, g: spec_fn(int) -> bool)
    ensures
        s.filter(f).filter(g) == s.filter(|x: int| f(x) && g(x)),
    decreases s.len(),
{
    reveal(Seq::filter);
    let both = |x: int| f(x) && g(x);
    if s.len() > 0 {
        lemma_filter_twice(s.drop_last(), f, g);
        let before = s.drop_last().filter(f);
        if f(s.last()) {
            assert(before.push(s.last()).drop_last() =~= before);
        }
    }
}

/// The records of a whole table that are in the group of some keys.
proof fn lemma_grouped_again(
    w: Stored,
    table: Seq<char>,
    filter: Option<CondView>,
    narrow: Option<CondView>,
    axes: Seq<Axis>,
    keys: Seq<int>,
)
    ensures
        asked_of(w, table, filter, narrow, Seq::empty(), Seq::empty()).filter(
            |r: int| among(table, r, axes, keys, w),
        ) == asked_of(w, table, filter, narrow, axes, keys),
{
    let f = |r: int|
        allows(filter, table, r, w) && allows(narrow, table, r, w) && among(
            table,
            r,
            Seq::empty(),
            Seq::empty(),
            w,
        );
    let g = |r: int| among(table, r, axes, keys, w);
    lemma_filter_twice((w.records)(table), f, g);
    let h = |r: int|
        allows(filter, table, r, w) && allows(narrow, table, r, w) && among(
            table,
            r,
            axes,
            keys,
            w,
        );
    assert((|x: int| f(x) && g(x)) =~= h);
}

/// A call that groups by one column.
pub proof fn lemma_by_column(
    ask: AskView,
    field: NameView,
    filter: Option<CondView>,
    narrow: Option<CondView>,
    w: Stored,
)
    requires
        ask.call.name == "Distinct"@ || ask.call.name == "TopN"@,
        ask.call.args.len() >= 2,
        right_rows(ask.call.args[0], filter, narrow, ask.table, w),
        ask.call.args[1] == over(field),
        ask.call.args.len() == 2 || (ask.call.args.len() == 3 && ask.call.args[2] is Named
            && ask.call.args[2]->Named_name == "n"@),
    ensures
        axes_of(ask.call) == seq![column_axis(field.column)],
        forall|keys: Seq<int>|
            #[trigger] over_records(ask, keys, w) == asked_of(
                w,
                ask.table,
                filter,
                narrow,
                seq![column_axis(field.column)],
                keys,
            ),
{
    lemma_answer_names();
    reveal_with_fuel(axes_upto, 4);
    assert(axis_in(ask.call.args[0]) is None);
    assert(axis_in(ask.call.args[1]) == Some(column_axis(field.column)));
    assert(axes_of(ask.call) =~= seq![column_axis(field.column)]);
    assert forall|keys: Seq<int>|
        #[trigger] over_records(ask, keys, w) == asked_of(
            w,
            ask.table,
            filter,
            narrow,
            seq![column_axis(field.column)],
            keys,
        ) by {
        lemma_over(ask, filter, narrow, seq![column_axis(field.column)], keys, w);
    }
}

/// The keys of a column, and their ranking.
proof fn lemma_column_keys(
    ask: AskView,
    field: NameView,
    filter: Option<CondView>,
    narrow: Option<CondView>,
    w: Stored,
)
    requires
        axes_of(ask.call) == seq![column_axis(field.column)],
        forall|keys: Seq<int>|
            #[trigger] over_records(ask, keys, w) == asked_of(
                w,
                ask.table,
                filter,
                narrow,
                seq![column_axis(field.column)],
                keys,
            ),
    ensures
        ({
            let rs = asked_of(w, ask.table, filter, narrow, Seq::empty(), Seq::empty());
            let axes = seq![column_axis(field.column)];
            &&& keys_of(ask, w) == keys_among(w, ask.table, rs, axes)
            &&& ranked_keys(ask, w) == first(
                most_frequent(w, ask.table, rs, axes),
                a_number(argument(ask.call.args, 0, "n"@)),
            )
        }),
{
    let rs = asked_of(w, ask.table, filter, narrow, Seq::empty(), Seq::empty());
    let axes = seq![column_axis(field.column)];
    let f = |keys: Seq<int>| over_records(ask, keys, w).len() > 0;
    let g = |keys: Seq<int>| count_of(w, ask.table, rs, axes, keys) > 0;
    assert forall|keys: Seq<int>| #[trigger] over_records(ask, keys, w).len() == count_of(
        w,
        ask.table,
        rs,
        axes,
        keys,
    ) by {
        lemma_grouped_again(w, ask.table, filter, narrow, axes, keys);
    }
    assert(f =~= g);
    let a = |keys: Seq<int>| Figure::Number(Some(over_records(ask, keys, w).len() as int));
    let b = |keys: Seq<int>| Figure::Number(
        Some(count_of(w, ask.table, rs, axes, keys) as int),
    );
    assert(a =~= b);
}

/// A number over a whole set of records is the aggregate that was asked for.
proof fn lemma_any_answers(
    out: Seq<AskView>,
    at: usize,
    table: Seq<char>,
    rows: ExprView,
    filter: Option<CondView>,
    item: ItemView,
    w: Stored,
)
    requires
        frugal(out),
        right_rows(rows, filter, item.filter, table, w),
    ensures
        any_number(out, at, table, rows, item) matches Ok((now, of)) ==> {
            &&& frugal(now)
            &&& out.is_prefix_of(now)
            &&& of.fits(now.len() as int, 0)
            &&& figure(of, now, Seq::empty(), Seq::empty(), w) == comes_to(
                item.leaf(),
                table,
                asked_of(w, table, filter, item.filter, Seq::empty(), Seq::empty()),
                w,
            )
        },
{
    lemma_answer_names();
    match item.leaf() {
        ProjView::CountDistinct(field) => {
            let call = a_call("Distinct"@, seq![rows, over(field)]);
            let ask = AskView { table, call };
            asking_is_frugal(out, at, table, call);
            assert(call.args[0] == rows);
            assert(call.args[1] == over(field));
            lemma_by_column(ask, field, filter, item.filter, w);
            lemma_column_keys(ask, field, filter, item.filter, w);
        },
        ProjView::TopKeys { n, field } => {
            let call = a_call("TopN"@, seq![rows, over(field), given_number("n"@, n)]);
            let ask = AskView { table, call };
            asking_is_frugal(out, at, table, call);
            assert(call.args[0] == rows);
            assert(call.args[1] == over(field));
            assert(call.args[2] == given_number("n"@, n));
            lemma_by_column(ask, field, filter, item.filter, w);
            lemma_column_keys(ask, field, filter, item.filter, w);
            reveal_with_fuel(argument, 4);
            assert(a_number(argument(call.args, 0, "n"@)) == Some(n));
        },
        _ => {
            let by = Seq::<GroupingView>::empty();
            lemma_number_answers(out, at, table, rows, filter, item.filter, by, item, w);
            assert(axes_by(by) =~= Seq::<Axis>::empty());
            match number_by(out, at, table, rows, by, item) {
                Ok((now, of)) => {
                    assert(figure(of, now, Seq::empty(), Seq::empty(), w) == comes_to(
                        item.leaf(),
                        table,
                        asked_of(w, table, filter, item.filter, axes_by(by), Seq::empty()),
                        w,
                    ));
                },
                Err(_) => {},
            }
        },
    }
}

/// Whether a cell shows an entry of a select list.
pub open spec fn shows_entry(
    cell: CellView,
    item: ItemView,
    shown: Figure,
    asked: Figure,
    home: spec_fn(NameView) -> Seq<char>,
) -> bool {
    &&& cell.column == item.column()
    &&& cell.apply == item.apply()
    &&& cell.units == entry_units(item.leaf(), home)
    &&& shown == asked
}

/// What a number is measured in.
pub proof fn lemma_units(table: Seq<char>, item: ItemView, home: spec_fn(NameView) -> Seq<char>)
    requires
        !(item.leaf() is Scalar),
        forall|n: NameView| #[trigger] home(n) == table,
    ensures
        measured_in(table, item.proj) == entry_units(item.leaf(), home),
{
    reveal_with_fuel(measured_in, 3);
    reveal_with_fuel(measured_field, 3);
}

/// Whether what was gathered shows the entries before a position.
spec fn gathered_right(
    g: GatheredView,
    items: Seq<ItemView>,
    k: int,
    table: Seq<char>,
    filter: Option<CondView>,
    w: Stored,
) -> bool {
    &&& frugal(g.calls)
    &&& g.cells.len() == k
    &&& g.measures.len() == k
    &&& g.probes.len() <= k
    &&& forall|j: int|
        0 <= j < k ==> {
            let of = (#[trigger] g.cells[j]).of;
            &&& of.fits(g.calls.len() as int, g.probes.len() as int)
            &&& g.measures[j] == (measure(items[j]), of)
            &&& !(items[j].leaf() is Scalar)
            &&& g.cells[j].column == items[j].column()
            &&& g.cells[j].apply == items[j].apply()
            &&& g.cells[j].units == measured_in(table, items[j].proj)
            &&& figure(of, g.calls, g.probes, Seq::empty(), w) == comes_to(
                items[j].leaf(),
                table,
                asked_of(w, table, filter, items[j].filter, Seq::empty(), Seq::empty()),
                w,
            )
        }
}

/// One more entry shows what it should.
proof fn lemma_gathered_one(
    g: GatheredView,
    items: Seq<ItemView>,
    k: int,
    at: usize,
    table: Seq<char>,
    rows: ExprView,
    filter: Option<CondView>,
    w: Stored,
)
    requires
        gathered_right(g, items, k, table, filter, w),
        0 <= k < items.len() <= usize::MAX,
        right_rows(rows, filter, None, table, w),
    ensures
        gathered(g, at, table, rows, items[k]) matches Ok(now) ==> gathered_right(
            now,
            items,
            k + 1,
            table,
            filter,
            w,
        ),
{
    let item = items[k];
    let mine = narrowed(rows, item);
    lemma_narrowed(rows, item, filter, table, w);
    lemma_any_answers(g.calls, at, table, mine, filter, item, w);
    match gathered(g, at, table, rows, item) {
        Err(_) => {},
        Ok(now) => {
            let of = now.cells[k].of;
            let none = Seq::<ProbeView>::empty();
            match item.leaf() {
                ProjView::Quantile { per_mille, field } => {
                    let p = ProbeView { table, rows: the_call(mine), field: field.column, per_mille };
                    assert(now.probes[g.probes.len() as int] == p);
                    assert(ExprView::Call(p.rows) == mine);
                    let f = |r: int| picks(ExprView::Call(p.rows), p.table, r, w);
                    let h = |r: int|
                        allows(filter, table, r, w) && allows(item.filter, table, r, w) && among(
                            table,
                            r,
                            Seq::empty(),
                            Seq::empty(),
                            w,
                        );
                    assert(f =~= h);
                },
                _ => {
                    lemma_same_figure(
                        of,
                        now.calls,
                        now.calls,
                        none,
                        now.probes,
                        Seq::empty(),
                        w,
                    );
                },
            }
            assert(g.probes.is_prefix_of(now.probes));
            assert(g.calls.is_prefix_of(now.calls));
            assert forall|j: int| 0 <= j < k + 1 implies {
                let of = (#[trigger] now.cells[j]).of;
                &&& of.fits(now.calls.len() as int, now.probes.len() as int)
                &&& now.measures[j] == (measure(items[j]), of)
                &&& !(items[j].leaf() is Scalar)
                &&& now.cells[j].column == items[j].column()
                &&& now.cells[j].apply == items[j].apply()
                &&& now.cells[j].units == measured_in(table, items[j].proj)
                &&& figure(of, now.calls, now.probes, Seq::empty(), w) == comes_to(
                    items[j].leaf(),
                    table,
                    asked_of(w, table, filter, items[j].filter, Seq::empty(), Seq::empty()),
                    w,
                )
            } by {
                if j < k {
                    assert(now.cells[j] == g.cells[j]);
                    lemma_same_figure(
                        g.cells[j].of,
                        g.calls,
                        now.calls,
                        g.probes,
                        now.probes,
                        Seq::empty(),
                        w,
                    );
                }
            }
        },
    }
}

proof fn lemma_gathered(
    items: Seq<ItemView>,
    k: int,
    g: GatheredView,
    at: usize,
    table: Seq<char>,
    rows: ExprView,
    filter: Option<CondView>,
    w: Stored,
)
    requires
        gathered_right(g, items, k, table, filter, w),
        0 <= k <= items.len() <= usize::MAX,
        right_rows(rows, filter, None, table, w),
    ensures
        gathered_from(items, k, g, at, table, rows) matches Ok(now) ==> gathered_right(
            now,
            items,
            items.len() as int,
            table,
            filter,
            w,
        ),
    decreases items.len() - k,
{
    if k < items.len() {
        lemma_gathered_one(g, items, k, at, table, rows, filter, w);
        match gathered(g, at, table, rows, items[k]) {
            Ok(now) => lemma_gathered(items, k + 1, now, at, table, rows, filter, w),
            Err(_) => {},
        }
    }
}

/// No entry of a kind, where every one is a number.
proof fn lemma_all_numbers(items: Seq<ItemView>, kind: Kind, k: int)
    requires
        0 <= k,
        kind != Kind::Number,
        forall|j: int| 0 <= j < items.len() ==> is_number(#[trigger] items[j]),
    ensures
        first_of(items, kind, k) is None,
    decreases items.len() - k,
{
    if k < items.len() {
        assert(is_number(items[k]));
        lemma_all_numbers(items, kind, k + 1);
    }
}

/// A statement without a `GROUP BY` answers with one row: in each column the aggregate of its
/// entry, over the records that the `WHERE` and the entry's own `FILTER` are true of, in the units
/// of the column it is of. An average is the sum over the count. The row is kept where the
/// `HAVING` is true of the whole.
pub proof fn a_row_shows_the_aggregates_of_the_records(select: SelectView, w: Stored)
    requires
        select.joins.len() == 0,
        select.grouping_sets is None,
        select.group_by.len() == 0,
        0 < select.items.len() <= usize::MAX,
        forall|k: int| 0 <= k < select.items.len() ==> is_number(#[trigger] select.items[k]),
    ensures
        lowered_one(select) matches Ok(s) ==> {
            let none = Seq::<GroupingView>::empty();
            let home = |n: NameView| whole_name(select.from);
            let shows = |of: Of| figure(of, s.calls, s.probes, Seq::empty(), w);
            &&& s.answer.format == select.format
            &&& s.answer.shape matches ShapeView::Row { cells, having } && {
                &&& cells.len() == select.items.len()
                &&& forall|k: int|
                    0 <= k < cells.len() ==> shows_entry(
                        #[trigger] cells[k],
                        select.items[k],
                        shows(cells[k].of),
                        group_entry(select, none, w)(Seq::empty(), k),
                        home,
                    )
                &&& (match having {
                    Some(h) => keeps(h, shows, w),
                    None => true,
                }) == (match select.having {
                    Some(h) => wanted_group(
                        h,
                        |p: ProjView| group_comes(select, none, w)(Seq::empty(), p),
                        home,
                        w,
                    ),
                    None => true,
                })
            }
        },
{
    let table = select.from.qualified();
    let none = Seq::<GroupingView>::empty();
    lemma_whole(select.from);
    lemma_rows(select, table, w);
    lemma_all_numbers(select.items, Kind::Column, 0);
    lemma_all_numbers(select.items, Kind::Star, 0);
    match lowered_one(select) {
        Err(_) => {},
        Ok(s) => {
            let at = match first_of(select.items, Kind::Number, 0) {
                Some(k) => select.items[k].at,
                None => 0,
            };
            assert(gathered_right(nothing(), select.items, 0, table, select.filter, w));
            lemma_gathered(
                select.items,
                0,
                nothing(),
                at,
                table,
                select.rows(),
                select.filter,
                w,
            );
            let g = gathered_from(select.items, 0, nothing(), at, table, select.rows())->Ok_0;
            let home = |n: NameView| whole_name(select.from);
            let shows = |of: Of| figure(of, s.calls, s.probes, Seq::empty(), w);
            let comes = |p: ProjView| group_comes(select, none, w)(Seq::empty(), p);
            assert(axes_by(none) =~= Seq::<Axis>::empty());
            assert(s.calls == g.calls && s.probes == g.probes);
            assert forall|k: int| 0 <= k < g.cells.len() implies shows_entry(
                #[trigger] g.cells[k],
                select.items[k],
                shows(g.cells[k].of),
                group_entry(select, none, w)(Seq::empty(), k),
                home,
            ) by {
                lemma_units(table, select.items[k], home);
            }
            assert(right_measures(g.measures, shows, comes)) by {
                assert forall|k: int|
                    0 <= k < g.measures.len() && !((#[trigger] g.measures[k]).0 is Other) implies shows(
                    g.measures[k].1,
                ) == comes(measures_what(g.measures[k].0)) by {
                    assert(g.measures[k] == (measure(select.items[k]), g.cells[k].of));
                }
            }
            lemma_having(
                select.having,
                FrameView::One(table),
                g.measures,
                shows,
                comes,
                home,
                w,
            );
        },
    }
}

/// A projection asks for the columns it names, in order, of the records its `WHERE` is true of and
/// no more of them than its `LIMIT` says, and shows each under its own name and in its own units.
pub proof fn a_projection_shows_its_columns(select: SelectView, w: Stored)
    requires
        select.joins.len() == 0,
        select.grouping_sets is None,
        select.group_by.len() == 0,
        select.items.len() > 0,
        forall|k: int| 0 <= k < select.items.len() ==> (#[trigger] select.items[k]).leaf() is Column,
    ensures
        lowered_one(select) matches Ok(s) ==> {
            let table = whole_name(select.from);
            let args = s.calls[0].call.args;
            &&& s.calls.len() == 1
            &&& s.calls[0].table == table
            &&& s.calls[0].call.name == "Project"@
            &&& forall|r: int|
                #[trigger] picks(args[0], table, r, w) == allows(select.filter, table, r, w)
            &&& axes_upto(args, args.len() as int) == Seq::new(
                select.items.len(),
                |k: int| column_axis(select.items[k].leaf()->Column_0.column),
            )
            &&& a_number(argument(args, 0, "n"@)) == select.limit
            &&& s.answer.format == select.format
            &&& s.answer.shape matches ShapeView::Table {
                columns: ColumnsView::Named(shown),
                order: None,
                cut: None,
            } && {
                &&& shown.len() == select.items.len()
                &&& forall|k: int|
                    0 <= k < shown.len() ==> (#[trigger] shown[k]).column
                        == select.items[k].column() && shown[k].apply == select.items[k].apply()
                        && shown[k].units == (UnitsView::Written {
                        table,
                        field: select.items[k].leaf()->Column_0.column,
                    })
            }
            &&& select.order_by is None && select.offset is None && select.having is None
        },
{
    let table = select.from.qualified();
    let items = select.items;
    lemma_whole(select.from);
    lemma_rows(select, table, w);
    lemma_answer_names();
    assert(items[0].leaf() is Column);
    match lowered_one(select) {
        Err(_) => {},
        Ok(s) => {
            let rows = select.rows();
            let bound = given_bound("n"@, select.limit);
            let args = seq![rows] + each_over(items) + bound;
            let by = Seq::new(
                items.len(),
                |k: int| GroupingView { name: items[k].leaf()->Column_0, bucket: None, at: 0 },
            );
            assert(s.calls[0].call.args == args);
            assert(args[0] == rows);
            assert forall|k: int| 0 <= k < by.len() implies axis_in(#[trigger] args[k + 1]) == Some(
                crate::lower::model::axis_of(by[k]),
            ) && args[k + 1] is Named && args[k + 1]->Named_name == "field"@ by {
                assert(args[k + 1] == over(items[k].leaf()->Column_0));
            }
            assert forall|k: int| by.len() < k < args.len() implies axis_in(#[trigger] args[k]) is None by {
                assert(args[k] == bound[0]);
            }
            lemma_all_axes(args, by);
            assert(axes_by(by) =~= Seq::new(
                items.len(),
                |k: int| column_axis(items[k].leaf()->Column_0.column),
            ));
            assert forall|k: int| 0 <= k < by.len() + 1 implies !((#[trigger] args[k]) is Named
                && args[k]->Named_name == "n"@) by {
                if k > 0 {
                    assert(args[(k - 1) + 1] is Named);
                }
            }
            lemma_skip(args, 0, by.len() as int + 1, "n"@);
            reveal_with_fuel(argument, 2);
            if select.limit is Some {
                assert(args[by.len() as int + 1] == bound[0]);
            } else {
                assert(args.len() == by.len() + 1);
            }
        },
    }
}

/// `*` asks for every column of the records its `WHERE` is true of, and no more of them than its
/// `LIMIT` says.
pub proof fn a_star_shows_the_records(select: SelectView, w: Stored)
    requires
        select.joins.len() == 0,
        select.grouping_sets is None,
        select.group_by.len() == 0,
        select.items.len() == 1,
        select.items[0].leaf() is Star,
        select.limit matches Some(n) ==> n <= usize::MAX,
    ensures
        lowered_one(select) matches Ok(s) ==> {
            let table = whole_name(select.from);
            let args = s.calls[0].call.args;
            &&& s.calls.len() == 1
            &&& s.calls[0].table == table
            &&& s.calls[0].call.name == "Project"@
            &&& forall|r: int|
                #[trigger] picks(args[0], table, r, w) == allows(select.filter, table, r, w)
            &&& axes_upto(args, args.len() as int).len() == 0
            &&& a_number(argument(args, 0, "n"@)) == select.limit
            &&& s.answer.format == select.format
            &&& s.answer.shape matches ShapeView::Table {
                columns: ColumnsView::All { table: of, limit },
                order: None,
                cut: None,
            } && of == table && (match (limit, select.limit) {
                (Some(a), Some(b)) => a == b,
                (None, None) => true,
                _ => false,
            })
            &&& select.order_by is None && select.offset is None && select.having is None
        },
{
    let table = select.from.qualified();
    lemma_whole(select.from);
    lemma_rows(select, table, w);
    lemma_answer_names();
    reveal_with_fuel(first_of, 3);
    match lowered_one(select) {
        Err(_) => {},
        Ok(s) => {
            let args = seq![select.rows()] + given_bound("n"@, select.limit);
            assert(s.calls[0].call.args == args);
            assert(args[0] == select.rows());
            reveal_with_fuel(argument, 3);
            reveal_with_fuel(axes_upto, 3);
            if select.limit is Some {
                assert(args[1] == given_number("n"@, select.limit->0));
                assert(args.len() == 2);
            } else {
                assert(args.len() == 1);
            }
        },
    }
}

} // verus!
