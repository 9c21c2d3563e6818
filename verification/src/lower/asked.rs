//! What a lowered statement asks, and of which tables.

use vstd::prelude::*;
use crate::ast::{CondView, GroupingView, ItemView, NameView, QueryView, SelectView, SourceView};
use crate::lower::calls::{asking, asking_is_frugal, frugal, named_in, AskView, ProbeView, StatementView};
use crate::lower::delete::{filter_reads, reads_of};
use crate::lower::grouped::{grouped_calls, lowered_grouped};
use crate::lower::join::{conds_of, lowered_join, rows_by_side, sides_of, star, StarView};
use crate::lower::keyed::{number_by, numbers_by};
use crate::lower::measure::{kind_of, labelled, measure, narrowed, side_of, start_of, Kind, Measures, SideView};
use crate::lower::query::{items_read, lowered, lowered_one, no_branches, stacked, stacked_from, StackView};
use crate::lower::sets::{listing, set_branch, set_branches};
use crate::lower::tuples::lowered_tuples;
use crate::lower::ungrouped::{any_number, gathered, gathered_from, lowered_ungrouped, nothing, GatheredView};
use crate::pql::{CallView, ExprView};
use crate::shape::ShapeView;

verus! {

/// The calls the query language has that answer a question.
pub open spec fn is_question(name: Seq<char>) -> bool {
    ||| name == "Count"@
    ||| name == "Sum"@
    ||| name == "Min"@
    ||| name == "Max"@
    ||| name == "Distinct"@
    ||| name == "TopN"@
    ||| name == "GroupBy"@
    ||| name == "GroupByTuple"@
    ||| name == "Project"@
}

/// Whether some calls are questions about some tables.
pub open spec fn questions(out: Seq<AskView>, tables: Set<Seq<char>>) -> bool {
    forall|k: int|
        0 <= k < out.len() ==> is_question((#[trigger] out[k]).call.name) && tables.contains(
            out[k].table,
        )
}

/// Whether some searches are about some tables.
pub open spec fn searches(probes: Seq<ProbeView>, tables: Set<Seq<char>>) -> bool {
    forall|k: int| 0 <= k < probes.len() ==> tables.contains((#[trigger] probes[k]).table)
}

proof fn lemma_asking(
    out: Seq<AskView>,
    at: usize,
    table: Seq<char>,
    call: CallView,
    tables: Set<Seq<char>>,
)
    requires
        questions(out, tables),
        is_question(call.name),
        tables.contains(table),
    ensures
        asking(out, at, table, call) matches Ok((out2, _)) ==> questions(out2, tables),
{
    match asking(out, at, table, call) {
        Ok((out2, _)) => {
            assert forall|k: int| 0 <= k < out2.len() implies is_question(
                (#[trigger] out2[k]).call.name,
            ) && tables.contains(out2[k].table) by {
                if k < out.len() {
                    assert(out2[k] == out[k]);
                }
            }
        },
        Err(_) => {},
    }
}

proof fn lemma_number(
    out: Seq<AskView>,
    at: usize,
    table: Seq<char>,
    rows: ExprView,
    by: Seq<GroupingView>,
    item: ItemView,
    tables: Set<Seq<char>>,
)
    requires
        questions(out, tables),
        tables.contains(table),
    ensures
        number_by(out, at, table, rows, by, item) matches Ok((out2, _)) ==> questions(out2, tables),
        any_number(out, at, table, rows, item) matches Ok((out2, _)) ==> questions(out2, tables),
{
    assert forall|o: Seq<AskView>, call: CallView|
        questions(o, tables) && is_question(call.name) implies (#[trigger] asking(
        o,
        at,
        table,
        call,
    ) matches Ok((out2, _)) ==> questions(out2, tables)) by {
        lemma_asking(o, at, table, call, tables);
    }
}

proof fn lemma_numbers(
    items: Seq<ItemView>,
    k: int,
    out: Seq<AskView>,
    measures: Measures,
    at: usize,
    table: Seq<char>,
    rows: ExprView,
    by: Seq<GroupingView>,
    tables: Set<Seq<char>>,
)
    requires
        questions(out, tables),
        tables.contains(table),
    ensures
        numbers_by(items, k, out, measures, at, table, rows, by) matches Ok((out2, _))
            ==> questions(out2, tables),
    decreases items.len() - k,
{
    if 0 <= k < items.len() {
        if kind_of(items[k]) != Kind::Number {
            lemma_numbers(items, k + 1, out, measures, at, table, rows, by, tables);
        } else {
            let mine = narrowed(rows, items[k]);
            lemma_number(out, at, table, mine, by, items[k], tables);
            match number_by(out, at, table, mine, by, items[k]) {
                Ok((out2, of)) => lemma_numbers(
                    items,
                    k + 1,
                    out2,
                    measures.push((measure(items[k]), of)),
                    at,
                    table,
                    rows,
                    by,
                    tables,
                ),
                Err(_) => {},
            }
        }
    }
}

proof fn lemma_gathered(
    items: Seq<ItemView>,
    k: int,
    g: GatheredView,
    at: usize,
    table: Seq<char>,
    rows: ExprView,
    tables: Set<Seq<char>>,
)
    requires
        questions(g.calls, tables),
        searches(g.probes, tables),
        tables.contains(table),
    ensures
        gathered_from(items, k, g, at, table, rows) matches Ok(r) ==> questions(r.calls, tables)
            && searches(r.probes, tables),
    decreases items.len() - k,
{
    if 0 <= k < items.len() {
        lemma_number(
            g.calls,
            at,
            table,
            narrowed(rows, items[k]),
            Seq::empty(),
            items[k],
            tables,
        );
        match gathered(g, at, table, rows, items[k]) {
            Ok(g2) => {
                assert forall|j: int| 0 <= j < g2.probes.len() implies tables.contains(
                    (#[trigger] g2.probes[j]).table,
                ) by {
                    if j < g.probes.len() {
                        assert(g2.probes[j] == g.probes[j]);
                    }
                }
                lemma_gathered(items, k + 1, g2, at, table, rows, tables);
            },
            Err(_) => {},
        }
    }
}

/// Whether a statement asks questions about some tables, and searches in them.
pub open spec fn asks_of(s: StatementView, tables: Set<Seq<char>>) -> bool {
    questions(s.calls, tables) && searches(s.probes, tables)
}

proof fn lemma_ungrouped(select: SelectView, table: Seq<char>, rows: ExprView, tables: Set<Seq<char>>)
    requires
        tables.contains(table),
    ensures
        lowered_ungrouped(select, table, rows) matches Ok(s) ==> asks_of(s, tables),
{
    let at = match crate::lower::measure::first_of(select.items, Kind::Number, 0) {
        Some(k) => select.items[k].at,
        None => 0,
    };
    lemma_gathered(select.items, 0, nothing(), at, table, rows, tables);
}

proof fn lemma_grouped(select: SelectView, table: Seq<char>, rows: ExprView, tables: Set<Seq<char>>)
    requires
        tables.contains(table),
    ensures
        lowered_grouped(select, table, rows) matches Ok(s) ==> asks_of(s, tables),
{
    let at = start_of(select.items);
    let by = select.group_by;
    lemma_numbers(select.items, 0, Seq::empty(), Seq::empty(), at, table, rows, by, tables);
    match numbers_by(select.items, 0, Seq::empty(), Seq::empty(), at, table, rows, by) {
        Ok((out, _)) => {
            lemma_asking(
                out,
                at,
                table,
                crate::lower::keyed::group_keys(rows, by[0]),
                tables,
            );
        },
        Err(_) => {},
    }
    assert(grouped_calls(select, table, rows) matches Ok((out, _)) ==> questions(out, tables));
}

proof fn lemma_tuples(select: SelectView, table: Seq<char>, rows: ExprView, tables: Set<Seq<char>>)
    requires
        tables.contains(table),
    ensures
        lowered_tuples(select, table, rows) matches Ok(s) ==> asks_of(s, tables),
{
    let at = start_of(select.items);
    let by = select.group_by;
    lemma_numbers(select.items, 0, Seq::empty(), Seq::empty(), at, table, rows, by, tables);
    match numbers_by(select.items, 0, Seq::empty(), Seq::empty(), at, table, rows, by) {
        Ok((out, _)) => {
            lemma_asking(
                out,
                at,
                table,
                crate::lower::ungrouped::a_call(
                    "GroupByTuple"@,
                    crate::lower::keyed::tuple_args(by, rows),
                ),
                tables,
            );
        },
        Err(_) => {},
    }
}

proof fn lemma_set_branches(
    select: SelectView,
    table: Seq<char>,
    rows: ExprView,
    of: Seq<Seq<usize>>,
    k: int,
    out: Seq<AskView>,
    before: Seq<ShapeView>,
    tables: Set<Seq<char>>,
)
    requires
        questions(out, tables),
        tables.contains(table),
    ensures
        set_branches(select, table, rows, of, k, out, before) matches Ok((out2, _)) ==> questions(
            out2,
            tables,
        ),
    decreases of.len() - k,
{
    if 0 <= k < of.len() {
        let at = start_of(select.items);
        let by = crate::lower::sets::held(select.group_by, of[k]);
        lemma_numbers(select.items, 0, out, Seq::empty(), at, table, rows, by, tables);
        match numbers_by(select.items, 0, out, Seq::empty(), at, table, rows, by) {
            Ok((out2, measures)) => {
                if let Some(call) = listing(select, rows, by, measures) {
                    lemma_asking(out2, at, table, call, tables);
                }
            },
            Err(_) => {},
        }
        match set_branch(select, table, rows, of[k], out) {
            Ok((out2, shape)) => {
                assert(questions(out2, tables));
                lemma_set_branches(
                    select,
                    table,
                    rows,
                    of,
                    k + 1,
                    out2,
                    before.push(shape),
                    tables,
                );
            },
            Err(_) => {},
        }
    }
}

/// The tables a `SELECT` is over.
pub open spec fn tables_of(select: SelectView) -> Set<Seq<char>> {
    Set::new(
        |t: Seq<char>|
            t == select.from.qualified() || exists|k: int|
                0 <= k < select.joins.len() && (#[trigger] select.joins[k]).source.qualified() == t,
    )
}

proof fn lemma_counted(
    st: StarView,
    k: int,
    out: Seq<AskView>,
    plans: Seq<usize>,
    at: usize,
    tables: Set<Seq<char>>,
)
    requires
        0 <= k,
        frugal(out),
        questions(out, tables),
        forall|j: int| 0 <= j < st.sides.len() ==> tables.contains((#[trigger] st.sides[j]).table),
    ensures
        st.counted_from(k, out, plans, at) matches Ok((out2, _)) ==> frugal(out2)
            && questions(out2, tables) && out.is_prefix_of(out2) && forall|j: int|
            k <= j < st.sides.len() ==> exists|i: int|
                0 <= i < out2.len() && (#[trigger] out2[i]).table == (#[trigger] st.sides[j]).table,
    decreases st.sides.len() - k,
{
    if k < st.sides.len() {
        let table = st.sides[k].table;
        lemma_asking(out, at, table, st.counts(k), tables);
        asking_is_frugal(out, at, table, st.counts(k));
        match asking(out, at, table, st.counts(k)) {
            Ok((out2, plan)) => {
                lemma_counted(st, k + 1, out2, plans.push(plan), at, tables);
                match st.counted_from(k + 1, out2, plans.push(plan), at) {
                    Ok((out3, _)) => {
                        assert(out3[plan as int] == out2[plan as int]);
                        assert(out.is_prefix_of(out3));
                        assert forall|j: int| k <= j < st.sides.len() implies exists|i: int|
                            0 <= i < out3.len() && (#[trigger] out3[i]).table
                                == (#[trigger] st.sides[j]).table by {
                            if j == k {
                                assert(out3[plan as int].table == st.sides[j].table);
                            }
                        }
                    },
                    Err(_) => {},
                }
            },
            Err(_) => {},
        }
    }
}

proof fn lemma_join_numbers(
    st: StarView,
    items: Seq<ItemView>,
    k: int,
    per_key: bool,
    plans: Seq<usize>,
    out: Seq<AskView>,
    measures: Measures,
    at: usize,
    tables: Set<Seq<char>>,
)
    requires
        frugal(out),
        questions(out, tables),
        forall|j: int| 0 <= j < st.sides.len() ==> tables.contains((#[trigger] st.sides[j]).table),
    ensures
        st.numbers(items, k, per_key, plans, out, measures, at) matches Ok((out2, _)) ==> questions(
            out2,
            tables,
        ) && out.is_prefix_of(out2),
    decreases items.len() - k,
{
    if 0 <= k < items.len() {
        if kind_of(items[k]) != Kind::Number {
            lemma_join_numbers(st, items, k + 1, per_key, plans, out, measures, at, tables);
        } else {
            lemma_join_number(st, items[k], per_key, plans, out, at, tables);
            match st.number(items[k], per_key, plans, out, at) {
                Ok((out2, of)) => lemma_join_numbers(
                    st,
                    items,
                    k + 1,
                    per_key,
                    plans,
                    out2,
                    measures.push((measure(items[k]), of)),
                    at,
                    tables,
                ),
                Err(_) => {},
            }
        }
    }
}

proof fn lemma_join_number(
    st: StarView,
    item: ItemView,
    per_key: bool,
    plans: Seq<usize>,
    out: Seq<AskView>,
    at: usize,
    tables: Set<Seq<char>>,
)
    requires
        frugal(out),
        questions(out, tables),
        forall|j: int| 0 <= j < st.sides.len() ==> tables.contains((#[trigger] st.sides[j]).table),
    ensures
        st.number(item, per_key, plans, out, at) matches Ok((out2, _)) ==> frugal(out2)
            && questions(out2, tables) && out.is_prefix_of(out2),
{
    assert forall|name: NameView|
        side_of(st.sides, name, item.at) matches Ok(k) ==> tables.contains(
            (#[trigger] st.sides[side_of(st.sides, name, item.at)->Ok_0 as int]).table,
        ) by {
        lemma_labelled(st.sides, name.qualifier->0, 0);
    }
    assert forall|table: Seq<char>, call: CallView|
        tables.contains(table) && is_question(call.name) implies (#[trigger] asking(
        out,
        at,
        table,
        call,
    ) matches Ok((out2, _)) ==> frugal(out2) && questions(out2, tables) && out.is_prefix_of(out2)) by {
        lemma_asking(out, at, table, call, tables);
        asking_is_frugal(out, at, table, call);
    }
}

proof fn lemma_labelled(sides: Seq<SideView>, label: Seq<char>, k: int)
    requires
        0 <= k,
    ensures
        labelled(sides, label, k) matches Some(i) ==> k <= i < sides.len(),
    decreases sides.len() - k,
{
    if k < sides.len() {
        lemma_labelled(sides, label, k + 1);
    }
}

/// Whether every joined table is asked something.
pub open spec fn asks_every_side(select: SelectView, s: StatementView) -> bool {
    &&& exists|i: int|
        0 <= i < s.calls.len() && (#[trigger] s.calls[i]).table == select.from.qualified()
    &&& forall|j: int|
        0 <= j < select.joins.len() ==> exists|i: int|
            0 <= i < s.calls.len() && (#[trigger] s.calls[i]).table == (
            #[trigger] select.joins[j]).source.qualified()
}

proof fn lemma_join(select: SelectView)
    ensures
        lowered_join(select) matches Ok(s) ==> asks_of(s, tables_of(select)) && asks_every_side(
            select,
            s,
        ),
{
    let sides = sides_of(select);
    let at = start_of(select.items);
    let tables = tables_of(select);
    if lowered_join(select) is Ok {
        let s = lowered_join(select)->Ok_0;
        let keys = star(select.joins, sides)->Ok_0;
        let conds = conds_of(select, sides)->Ok_0;
        let st = StarView { sides, keys, rows: rows_by_side(conds) };
        assert forall|j: int| 0 <= j < sides.len() implies tables.contains(
            (#[trigger] sides[j]).table,
        ) by {
            if j > 0 {
                assert(sides[j].table == select.joins[j - 1].source.qualified());
            }
        }
        lemma_counted(st, 0, Seq::empty(), Seq::empty(), at, tables);
        let (out, plans) = st.counted_from(0, Seq::empty(), Seq::empty(), at)->Ok_0;
        let per_key = st.per_key(select, at)->Ok_0;
        lemma_join_numbers(st, select.items, 0, per_key, plans, out, Seq::empty(), at, tables);
        let (calls, m) = st.numbers(select.items, 0, per_key, plans, out, Seq::empty(), at)->Ok_0;
        assert(s.calls == calls);
        assert forall|j: int| 0 <= j < sides.len() implies exists|i: int|
            0 <= i < calls.len() && (#[trigger] calls[i]).table == (#[trigger] sides[j]).table by {
            let i = choose|i: int|
                0 <= i < out.len() && (#[trigger] out[i]).table == sides[j].table;
            assert(calls[i] == out[i]);
        }
        assert(sides[0].table == select.from.qualified());
        assert forall|j: int| 0 <= j < select.joins.len() implies exists|i: int|
            0 <= i < s.calls.len() && (#[trigger] s.calls[i]).table == (
            #[trigger] select.joins[j]).source.qualified() by {
            assert(sides[j + 1].table == select.joins[j].source.qualified());
        }
    }
}

/// A lowered `SELECT` asks questions of the query language, each about a table it is over, and a
/// join asks something of every table it joins.
pub proof fn a_select_asks_of_its_tables(select: SelectView)
    ensures
        lowered_one(select) matches Ok(s) ==> asks_of(s, tables_of(select)) && (select.joins.len()
            > 0 ==> asks_every_side(select, s)),
{
    let table = select.from.qualified();
    let tables = tables_of(select);
    assert(tables.contains(table));
    if select.joins.len() > 0 {
        lemma_join(select);
    } else if select.grouping_sets is Some {
        lemma_set_branches(
            select,
            table,
            select.rows(),
            select.grouping_sets->0.of,
            0,
            Seq::empty(),
            Seq::empty(),
            tables,
        );
    } else if select.group_by.len() == 0 {
        lemma_ungrouped(select, table, select.rows(), tables);
    } else if select.group_by.len() == 1 {
        lemma_grouped(select, table, select.rows(), tables);
    } else {
        lemma_tuples(select, table, select.rows(), tables);
    }
}

/// Whether a `SELECT` has anything to ask. The current instant is the one answer that needs no
/// table.
pub open spec fn asks_anything(select: SelectView) -> bool {
    lowered_one(select) matches Ok(s) && s.calls.len() + s.probes.len() > 0
}

/// Whether everything a branch asks and reads is kept in what they are stacked into.
pub open spec fn keeps(
    one: StatementView,
    calls: Seq<AskView>,
    probes: Seq<ProbeView>,
    reads: Seq<Seq<char>>,
) -> bool {
    &&& forall|k: int| 0 <= k < one.calls.len() ==> calls.contains(#[trigger] one.calls[k])
    &&& forall|k: int| 0 <= k < one.probes.len() ==> probes.contains(#[trigger] one.probes[k])
    &&& forall|k: int| 0 <= k < one.reads.len() ==> named_in(reads, #[trigger] one.reads[k])
}

/// A list that goes on from two others holds the first where it was, and all of the second.
proof fn lemma_goes_on<A>(a: Seq<A>, b: Seq<A>, c: Seq<A>)
    requires
        (a + b).is_prefix_of(c),
    ensures
        a.is_prefix_of(c),
        forall|j: int| 0 <= j < b.len() ==> c.contains(#[trigger] b[j]),
{
    let both = a + b;
    assert(both == c.subrange(0, both.len() as int));
    assert(c.subrange(0, a.len() as int) =~= a) by {
        assert forall|k: int| 0 <= k < a.len() implies #[trigger] c[k] == a[k] by {
            assert(both[k] == a[k]);
        }
    }
    assert forall|j: int| 0 <= j < b.len() implies c.contains(#[trigger] b[j]) by {
        assert(both[a.len() + j] == b[j]);
        assert(c[a.len() + j] == b[j]);
    }
}

/// One branch, and whatever is stacked on it.
proof fn lemma_stacked_on(s: StackView, one: StatementView, r: StackView)
    requires
        (s.calls + one.calls).is_prefix_of(r.calls),
        (s.probes + one.probes).is_prefix_of(r.probes),
        (s.reads + one.reads).is_prefix_of(r.reads),
    ensures
        s.calls.is_prefix_of(r.calls),
        s.probes.is_prefix_of(r.probes),
        s.reads.is_prefix_of(r.reads),
        keeps(one, r.calls, r.probes, r.reads),
{
    lemma_goes_on(s.calls, one.calls, r.calls);
    lemma_goes_on(s.probes, one.probes, r.probes);
    lemma_goes_on(s.reads, one.reads, r.reads);
    assert forall|j: int| 0 <= j < one.reads.len() implies named_in(r.reads, #[trigger] one.reads[j]) by {
        assert(r.reads.contains(one.reads[j]));
        let k = choose|k: int| 0 <= k < r.reads.len() && r.reads[k] == one.reads[j];
        assert(r.reads[k] == one.reads[j]);
    }
}

proof fn lemma_stacked(branches: Seq<SelectView>, k: int, s: StackView, at: usize)
    requires
        0 <= k,
    ensures
        stacked_from(branches, k, s, at) matches Ok(r) ==> s.calls.is_prefix_of(r.calls)
            && s.probes.is_prefix_of(r.probes) && s.reads.is_prefix_of(r.reads) && forall|j: int|
            k <= j < branches.len() ==> (lowered_one(#[trigger] branches[j]) matches Ok(one) && keeps(
                one,
                r.calls,
                r.probes,
                r.reads,
            )),
    decreases branches.len() - k,
{
    if k < branches.len() {
        match stacked(s, branches[k], at) {
            Ok(s2) => {
                lemma_stacked(branches, k + 1, s2, at);
                match stacked_from(branches, k + 1, s2, at) {
                    Ok(r) => lemma_stacked_on(s, lowered_one(branches[k])->Ok_0, r),
                    Err(_) => {},
                }
            },
            Err(_) => {},
        }
    } else {
        assert(s.calls.subrange(0, s.calls.len() as int) =~= s.calls);
        assert(s.probes.subrange(0, s.probes.len() as int) =~= s.probes);
        assert(s.reads.subrange(0, s.reads.len() as int) =~= s.reads);
    }
}

/// Whatever a branch asks or reads, the query it is in asks or reads.
pub proof fn a_query_asks_what_its_branches_ask(query: QueryView, k: int)
    requires
        0 <= k < query.branches.len(),
    ensures
        lowered(query) matches Ok(s) ==> (lowered_one(query.branches[k]) matches Ok(one) && keeps(
            one,
            s.calls,
            s.probes,
            s.reads,
        )),
{
    if query.branches.len() == 1 {
        match lowered_one(query.branches[0]) {
            Ok(one) => {
                assert forall|j: int| 0 <= j < one.calls.len() implies one.calls.contains(
                    #[trigger] one.calls[j],
                ) by {}
                assert forall|j: int| 0 <= j < one.probes.len() implies one.probes.contains(
                    #[trigger] one.probes[j],
                ) by {}
                assert(keeps(one, one.calls, one.probes, one.reads));
            },
            Err(_) => {},
        }
    } else {
        lemma_stacked(query.branches, 0, no_branches(), start_of(query.branches[0].items));
    }
}

/// Whether a condition looks into a table.
pub open spec fn looks_into(c: CondView, source: SourceView) -> bool
    decreases c,
{
    match c {
        CondView::And(a, b) => looks_into(*a, source) || looks_into(*b, source),
        CondView::Or(a, b) => looks_into(*a, source) || looks_into(*b, source),
        CondView::Not(a) => looks_into(*a, source),
        CondView::InRecords { table, filter, .. } => table == source || (filter matches Some(f)
            && looks_into(*f, source)),
        _ => false,
    }
}

/// Whether a condition looks into a table, when there is one.
pub open spec fn filter_looks_into(c: Option<CondView>, source: SourceView) -> bool {
    c matches Some(c) && looks_into(c, source)
}

/// Whether a condition of a `SELECT` looks into a table.
pub open spec fn select_looks_into(select: SelectView, source: SourceView) -> bool {
    filter_looks_into(select.filter, source) || exists|k: int|
        0 <= k < select.items.len() && filter_looks_into((#[trigger] select.items[k]).filter, source)
}

proof fn lemma_reads(c: CondView, before: Seq<Seq<char>>, source: SourceView)
    ensures
        before.is_prefix_of(reads_of(c, before)),
        looks_into(c, source) ==> named_in(reads_of(c, before), source.qualified()),
    decreases c,
{
    match c {
        CondView::And(a, b) => {
            lemma_reads(*a, before, source);
            lemma_reads(*b, reads_of(*a, before), source);
            lemma_prefix(
                before,
                reads_of(*a, before),
                reads_of(c, before),
                source.qualified(),
            );
        },
        CondView::Or(a, b) => {
            lemma_reads(*a, before, source);
            lemma_reads(*b, reads_of(*a, before), source);
            lemma_prefix(
                before,
                reads_of(*a, before),
                reads_of(c, before),
                source.qualified(),
            );
        },
        CondView::Not(a) => lemma_reads(*a, before, source),
        CondView::InRecords { table, filter, .. } => {
            let name = table.qualified();
            let with = if named_in(before, name) {
                before
            } else {
                before.push(name)
            };
            if !named_in(before, name) {
                assert(with[before.len() as int] == name);
            }
            assert(named_in(with, name));
            assert(before.is_prefix_of(with)) by {
                assert(with.subrange(0, before.len() as int) =~= before);
            }
            if let Some(f) = filter {
                lemma_reads(*f, with, source);
                lemma_prefix(before, with, reads_of(c, before), name);
            }
        },
        _ => {},
    }
}

/// A longer list holds what a shorter one does.
proof fn lemma_prefix(a: Seq<Seq<char>>, b: Seq<Seq<char>>, c: Seq<Seq<char>>, name: Seq<char>)
    requires
        a.is_prefix_of(b),
        b.is_prefix_of(c),
    ensures
        a.is_prefix_of(c),
        named_in(b, name) ==> named_in(c, name),
{
    assert(b == c.subrange(0, b.len() as int));
    assert(a == b.subrange(0, a.len() as int));
    assert(c.subrange(0, a.len() as int) =~= a);
    if named_in(b, name) {
        let k = choose|k: int| 0 <= k < b.len() && #[trigger] b[k] == name;
        assert(c[k] == b[k]);
    }
}

proof fn lemma_items_read(items: Seq<ItemView>, k: int, before: Seq<Seq<char>>, source: SourceView)
    requires
        0 <= k,
    ensures
        before.is_prefix_of(items_read(items, k, before)),
        forall|j: int|
            k <= j < items.len() && filter_looks_into((#[trigger] items[j]).filter, source)
                ==> named_in(items_read(items, k, before), source.qualified()),
    decreases items.len() - k,
{
    if k < items.len() {
        let with = filter_reads(items[k].filter, before);
        if let Some(c) = items[k].filter {
            lemma_reads(c, before, source);
        } else {
            assert(before.subrange(0, before.len() as int) =~= before);
        }
        lemma_items_read(items, k + 1, with, source);
        lemma_prefix(before, with, items_read(items, k, before), source.qualified());
    } else {
        assert(before.subrange(0, before.len() as int) =~= before);
    }
}

/// The tables a condition reads are those it looks into.
pub proof fn a_filter_is_read(filter: CondView, source: SourceView)
    ensures
        looks_into(filter, source) ==> named_in(reads_of(filter, Seq::empty()), source.qualified()),
{
    lemma_reads(filter, Seq::empty(), source);
}

/// The tables a `SELECT` reads hold every table its conditions look into.
pub proof fn a_read_is_a_read(select: SelectView, source: SourceView)
    ensures
        select_looks_into(select, source) ==> named_in(select.reads(), source.qualified()),
{
    let first = filter_reads(select.filter, Seq::empty());
    lemma_items_read(select.items, 0, first, source);
    if let Some(c) = select.filter {
        lemma_reads(c, Seq::empty(), source);
        assert(first.subrange(0, first.len() as int) =~= first);
        lemma_prefix(first, first, select.reads(), source.qualified());
    }
}

} // verus!
