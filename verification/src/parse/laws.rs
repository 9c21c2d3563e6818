//! What holds of every statement that is read.

use vstd::prelude::*;
use crate::ast::{GroupingView, ItemView, QueryView, SelectView};
use crate::insert::SourceView;
use crate::lex::{tokens_are_in_order, tokens_from, TokView, TokenView};
use crate::lower::sets::{names_some, sets_wf};
use crate::parse::cursor::{moved, past_word, read_ident, read_literal, read_table, tok_is, word_at, Env};
use crate::parse::from::{read_joins, read_source};
use crate::parse::grouping::{grouped_at, members, number_in, ordered, ordered_sets_are_the_same_sets, prefixes, read_group_by, read_grouping, read_groupings, read_interned, read_set, read_set_terms, read_sets, rising, upto, MAX_GROUP_COLUMNS};
use crate::parse::insert::{id_position, read_insert, read_insert_columns, read_row, read_rows, read_tuple};
use crate::parse::item::{read_item, read_items};
use crate::parse::select::{grouped_by, read_select, read_where};
use crate::parse::delete::{read_delete, read_update};
use crate::parse::settings::read_settings;
use crate::parse::statement::{bounded, read_bindings, read_branch, read_definition, read_query, read_statement, read_union, read_with_query, read_write, said, ParsedView};
use crate::pql::LiteralView;
use crate::settings::{no_settings, Settings};
use crate::text::bytes;

verus! {

/// Every position of a set lies below a bound.
pub open spec fn below(set: Seq<usize>, n: nat) -> bool {
    forall|k: int| 0 <= k < set.len() ==> #[trigger] set[k] < n
}

/// The set of the first column alone is not empty.
proof fn lemma_first_member(n: nat)
    requires
        0 < n <= 32,
    ensures
        members(1u32, n).len() > 0,
    decreases n,
{
    if n > 1 {
        lemma_first_member((n - 1) as nat);
    } else {
        assert((1u32 >> 0u32) & 1u32 == 1u32) by (bit_vector);
    }
}

/// Putting sets in order leaves those that name a column.
proof fn lemma_ordered_names(sets: Seq<Seq<usize>>)
    requires
        names_some(sets),
    ensures
        names_some(ordered(sets)),
{
    broadcast use vstd::seq_lib::group_to_multiset_ensures;

    ordered_sets_are_the_same_sets(sets);
    let k = choose|k: int| 0 <= k < sets.len() && (#[trigger] sets[k]).len() > 0;
    let x = sets[k];
    assert(sets.contains(x));
    assert(sets.to_multiset().count(x) > 0);
    assert(ordered(sets).to_multiset().count(x) > 0);
    assert(ordered(sets).contains(x));
    let j = choose|j: int| 0 <= j < ordered(sets).len() && ordered(sets)[j] == x;
    assert(ordered(sets)[j].len() > 0);
}

proof fn lemma_members(mask: u32, n: nat)
    requires
        n <= 32,
    ensures
        below(members(mask, n), n),
        members(mask, n).len() <= n,
    decreases n,
{
    if n > 0 {
        lemma_members(mask, (n - 1) as nat);
    }
}

/// What holds of every set of a list holds of every set of the ordered list.
proof fn lemma_ordered_below(sets: Seq<Seq<usize>>, n: nat, most: nat)
    requires
        forall|k: int| 0 <= k < sets.len() ==> below(#[trigger] sets[k], n) && sets[k].len() <= most,
    ensures
        forall|k: int|
            0 <= k < ordered(sets).len() ==> below(#[trigger] ordered(sets)[k], n) && ordered(
                sets,
            )[k].len() <= most,
{
    broadcast use vstd::seq_lib::group_to_multiset_ensures;

    ordered_sets_are_the_same_sets(sets);
    assert forall|k: int| 0 <= k < ordered(sets).len() implies below(#[trigger] ordered(sets)[k], n)
        && ordered(sets)[k].len() <= most by {
        let x = ordered(sets)[k];
        assert(ordered(sets).contains(x));
        assert(ordered(sets).to_multiset().count(x) > 0);
        assert(sets.to_multiset().count(x) > 0);
        assert(sets.contains(x));
        let j = choose|j: int| 0 <= j < sets.len() && sets[j] == x;
        assert(below(sets[j], n));
    }
}

proof fn lemma_number_in(s: Seq<usize>, x: usize, n: nat)
    requires
        below(s, n),
        x < n,
    ensures
        below(number_in(s, x), n),
        number_in(s, x).len() == s.len() + 1,
    decreases s.len(),
{
    if s.len() > 0 && x < s.last() {
        assert(below(s.drop_last(), n)) by {
            assert forall|k: int| 0 <= k < s.drop_last().len() implies #[trigger] s.drop_last()[k]
                < n by {
                assert(s[k] < n);
            }
        }
        assert(s[s.len() - 1] < n);
        lemma_number_in(s.drop_last(), x, n);
    }
}

proof fn lemma_rising(s: Seq<usize>, n: nat)
    requires
        below(s, n),
    ensures
        below(rising(s), n),
        rising(s).len() == s.len(),
    decreases s.len(),
{
    if s.len() > 0 {
        assert(below(s.drop_last(), n)) by {
            assert forall|k: int| 0 <= k < s.drop_last().len() implies #[trigger] s.drop_last()[k]
                < n by {
                assert(s[k] < n);
            }
        }
        assert(s[s.len() - 1] < n);
        lemma_rising(s.drop_last(), n);
        lemma_number_in(rising(s.drop_last()), s.last(), n);
    }
}

/// A list of different positions below a bound is no longer than the bound.
proof fn lemma_few(s: Seq<usize>, n: nat)
    requires
        below(s, n),
        s.no_duplicates(),
    ensures
        s.len() <= n,
{
    let t = s.map_values(|x: usize| x as int);
    assert(t.no_duplicates());
    t.unique_seq_to_set();
    vstd::set_lib::lemma_int_range(0, n as int);
    let range = vstd::set_lib::set_int_range(0, n as int);
    assert(t.to_set().subset_of(range)) by {
        assert forall|x: int| t.to_set().contains(x) implies range.contains(x) by {
            let k = choose|k: int| 0 <= k < t.len() && t[k] == x;
            assert(s[k] < n);
        }
    }
    vstd::set_lib::lemma_len_subset(t.to_set(), range);
}

proof fn lemma_grouped_at(by: Seq<GroupingView>, column: Seq<char>)
    ensures
        grouped_at(by, column) matches Some(k) ==> 0 <= k < by.len(),
    decreases by.len(),
{
    if by.len() > 0 {
        lemma_grouped_at(by.drop_last(), column);
    }
}

proof fn lemma_interned(e: Env, i: int, d: int, by: Seq<GroupingView>)
    requires
        by.len() < usize::MAX,
    ensures
        read_interned(e, i, d, by) matches Ok(((by2, k), _)) ==> k < by2.len() && by.len()
            <= by2.len() <= by.len() + 1,
{
    match read_grouping(e, i, d) {
        Ok((g, _)) => {
            lemma_grouped_at(by, g.name.column);
        },
        Err(_) => {},
    }
}

proof fn lemma_below_more(s: Seq<usize>, n: nat, m: nat)
    requires
        below(s, n),
        n <= m,
    ensures
        below(s, m),
{
}

proof fn lemma_set_terms(e: Env, i: int, d: int, by: Seq<GroupingView>, set: Seq<usize>)
    requires
        below(set, by.len()),
        0 <= i,
        by.len() + 1 <= i,
        e.t.len() <= usize::MAX,
    ensures
        read_set_terms(e, i, d, by, set) matches Ok(((by2, set2), j)) ==> i < j && below(set2, by2.len())
            && by.len() <= by2.len() && by2.len() + 1 <= j && set2.len() > 0,
    decreases e.t.len() - i,
{
    let r = moved(e, i, read_interned(e, i, d, by));
    match r {
        Ok(((by2, k), j)) => {
            assert(i < j <= e.t.len());
            lemma_interned(e, i, d, by);
            lemma_below_more(set, by.len(), by2.len());
            assert(below(set.push(k), by2.len()));
            if tok_is(e, j, TokView::Comma) {
                lemma_set_terms(e, j + 1, d, by2, set.push(k));
            }
        },
        Err(_) => {},
    }
}

proof fn lemma_set(e: Env, i: int, d: int, by: Seq<GroupingView>)
    requires
        0 <= i,
        by.len() + 1 <= i,
        e.t.len() <= usize::MAX,
        i < e.t.len(),
    ensures
        read_set(e, i, d, by) matches Ok(((by2, set), j)) ==> i < j <= e.t.len() ==> below(
            set,
            by2.len(),
        ) && by.len() <= by2.len() && by2.len() + 1 <= j && (set.len() == 0 ==> by2.len()
            == by.len()),
{
    if tok_is(e, i, TokView::LParen) {
        if !tok_is(e, i + 1, TokView::RParen) {
            lemma_set_terms(e, i + 1, d, by, Seq::empty());
        }
    } else {
        match read_set(e, i, d, by) {
            Ok((_, j)) => {
                if i < j <= e.t.len() {
                    lemma_interned(e, i, d, by);
                }
            },
            Err(_) => {},
        }
    }
}

proof fn lemma_sets(e: Env, i: int, d: int, by: Seq<GroupingView>, of: Seq<Seq<usize>>)
    requires
        0 <= i,
        by.len() + 1 <= i,
        e.t.len() <= usize::MAX,
        forall|k: int|
            0 <= k < of.len() ==> below(#[trigger] of[k], by.len()) && of[k].len() <= by.len(),
        by.len() > 0 ==> names_some(of),
    ensures
        read_sets(e, i, d, by, of) matches Ok(((by2, of2), j)) ==> (by2.len() > 0 ==> names_some(of2))
            && forall|k: int|
            0 <= k < of2.len() ==> below(#[trigger] of2[k], by2.len()) && of2[k].len()
                <= by2.len(),
    decreases e.t.len() - i,
{
    match moved(e, i, read_set(e, i, d, by)) {
        Ok(((by2, set), j)) => {
            assert(i < j <= e.t.len());
            lemma_set(e, i, d, by);
            if set.no_duplicates() && !of.contains(rising(set)) {
                lemma_few(set, by2.len());
                lemma_rising(set, by2.len());
                let of2 = of.push(rising(set));
                assert forall|k: int| 0 <= k < of2.len() implies below(#[trigger] of2[k], by2.len())
                    && of2[k].len() <= by2.len() by {
                    if k < of.len() {
                        assert(below(of[k], by.len()));
                        lemma_below_more(of[k], by.len(), by2.len());
                    }
                }
                assert(by2.len() > 0 ==> names_some(of2)) by {
                    if set.len() > 0 {
                        assert(of2[of.len() as int].len() > 0);
                    } else if by2.len() > 0 {
                        let k = choose|k: int| 0 <= k < of.len() && (#[trigger] of[k]).len() > 0;
                        assert(of2[k] == of[k]);
                    }
                }
                if tok_is(e, j, TokView::Comma) {
                    lemma_sets(e, j + 1, d, by2, of2);
                }
            }
        },
        Err(_) => {},
    }
}

/// A `GROUP BY` names few columns, and its sets name only columns it names. Where it names any,
/// some set does.
pub proof fn a_grouping_names_its_own_columns(e: Env, i: int, d: int)
    requires
        e.t.len() <= usize::MAX,
    ensures
        read_group_by(e, i, d) matches Ok(((by, sets), _)) ==> {
            &&& by.len() <= MAX_GROUP_COLUMNS
            &&& sets matches Some(s) ==> forall|k: int|
                0 <= k < s.of.len() ==> below(#[trigger] s.of[k], by.len()) && s.of[k].len()
                    <= by.len()
            &&& sets matches Some(s) ==> (by.len() > 0 ==> names_some(s.of))
        },
{
    if word_at(e, i, "GROUP"@) {
        if word_at(e, i + 2, "GROUPING"@) {
            match read_sets(e, i + 5, d, Seq::empty(), Seq::empty()) {
                Ok(((by, of), j)) => {
                    lemma_sets(e, i + 5, d, Seq::empty(), Seq::empty());
                    lemma_ordered_below(of, by.len(), by.len());
                    if by.len() > 0 {
                        lemma_ordered_names(of);
                    }
                },
                Err(_) => {},
            }
        } else {
            match read_groupings(e, i + 2, d, Seq::empty()) {
                Ok((by, j)) => {
                    if by.len() <= MAX_GROUP_COLUMNS {
                        let n = by.len();
                        let p = prefixes(n);
                        assert forall|k: int| 0 <= k < p.len() implies below(#[trigger] p[k], n)
                            && p[k].len() <= n by {
                            assert(p[k] == upto((n - k) as nat));
                        }
                        let all = Seq::new(
                            (1u32 << (n as u32)) as nat,
                            |mask: int| members(mask as u32, n),
                        );
                        assert forall|k: int| 0 <= k < all.len() implies below(#[trigger] all[k], n)
                            && all[k].len() <= n by {
                            lemma_members(k as u32, n);
                        }
                        lemma_ordered_below(all, n, n);
                        if n > 0 {
                            assert(p[0].len() > 0);
                            lemma_first_member(n);
                            lemma_two_masks(n);
                            assert(all[1].len() > 0);
                            lemma_ordered_names(all);
                        }
                    }
                },
                Err(_) => {},
            }
        }
    }
}

/// A list of groupings and its sets are ones a lowering takes.
proof fn lemma_grouped_wf(by: Seq<GroupingView>, of: Seq<Seq<usize>>, more: Seq<GroupingView>)
    requires
        by.len() <= more.len() <= MAX_GROUP_COLUMNS,
        forall|k: int|
            0 <= k < of.len() ==> below(#[trigger] of[k], by.len()) && of[k].len() <= by.len(),
    ensures
        sets_wf(of, more.len()),
        forall|k: int| 0 <= k < of.len() ==> (#[trigger] of[k]).len() <= 255,
{
    assert forall|i: int, j: int|
        #![trigger of[i][j]]
        0 <= i < of.len() && 0 <= j < of[i].len() implies of[i][j] < more.len() by {
        assert(below(of[i], by.len()));
    }
}

proof fn lemma_two_masks(n: nat)
    requires
        0 < n < 32,
    ensures
        (1u32 << (n as u32)) >= 2,
{
    let m = n as u32;
    assert(0 < m < 32 ==> (1u32 << m) >= 2) by (bit_vector);
}

/// A `SELECT` that is read can be lowered: it lists something, it groups by few columns, and its
/// grouping sets name columns it groups by, and some where there are any.
pub proof fn a_select_is_regular(e: Env, i: int, d: int)
    requires
        0 <= i,
        e.t.len() <= usize::MAX,
    ensures
        read_select(e, i, d) matches Ok((select, _)) ==> select.wf() && select.asks(),
{
    lemma_items_read(e, past_word(e, i, "DISTINCT"@), d, Seq::empty());
    match read_items(e, past_word(e, i, "DISTINCT"@), d, Seq::empty()) {
        Err(_) => {},
        Ok((items, j)) => match read_source(e, j + 1, "a table name"@) {
            Err(_) => {},
            Ok((from, k)) => match read_joins(e, k, Seq::empty()) {
                Err(_) => {},
                Ok((joins, l)) => match read_where(e, l, d) {
                    Err(_) => {},
                    Ok((filter, m)) => {
                        a_grouping_names_its_own_columns(e, m, d);
                        match read_group_by(e, m, d) {
                            Err(_) => {},
                            Ok(((by, sets), n)) => match grouped_by(
                                word_at(e, i, "DISTINCT"@),
                                crate::parse::cursor::offset(e, i),
                                items,
                                by,
                                sets,
                            ) {
                                Err(_) => {},
                                Ok(group_by) => {
                                    if sets is Some {
                                        lemma_grouped_wf(by, sets->0.of, group_by);
                                    }
                                },
                            },
                        }
                    },
                },
            },
        },
    }
}

/// A select list is never empty, nor longer than what it is read from.
proof fn lemma_items_read(e: Env, i: int, d: int, before: Seq<ItemView>)
    requires
        before.len() <= i,
    ensures
        read_items(e, i, d, before) matches Ok((items, _)) ==> 0 < items.len() <= e.t.len(),
    decreases e.t.len() - i,
{
    match moved(e, i, read_item(e, i, d)) {
        Ok((item, j)) => {
            if tok_is(e, j, TokView::Comma) {
                lemma_items_read(e, j + 1, d, before.push(item));
            }
        },
        Err(_) => {},
    }
}

/// A statement under limits is as regular as the statement.
proof fn lemma_bounded(settings: Settings, v: ParsedView)
    requires
        v.wf(),
        v.asks(),
        !(v is Explain),
    ensures
        bounded(settings, v).wf(),
        bounded(settings, v).asks(),
        !(bounded(settings, v) is Explain),
{
    reveal_with_fuel(ParsedView::wf, 2);
    reveal_with_fuel(ParsedView::asks, 2);
}

proof fn lemma_branch(e: Env, i: int, d: int)
    requires
        e.t.len() <= usize::MAX,
    ensures
        read_branch(e, i, d) matches Ok((select, _)) ==> select.wf() && select.asks(),
{
    if word_at(e, i, "ALL"@) {
        a_select_is_regular(e, i + 2, d);
    }
}

/// Every branch of a `UNION ALL` can be lowered.
proof fn lemma_union(e: Env, i: int, d: int, before: Seq<SelectView>)
    requires
        e.t.len() <= usize::MAX,
        forall|k: int| 0 <= k < before.len() ==> (#[trigger] before[k]).wf() && before[k].asks(),
    ensures
        read_union(e, i, d, before) matches Ok((v, _)) ==> v.wf() && v.asks() && !(v is Explain),
    decreases e.t.len() - i,
{
    if word_at(e, i, "UNION"@) {
        match moved(e, i + 1, read_branch(e, i + 1, d)) {
            Ok((select, j)) => {
                lemma_branch(e, i + 1, d);
                lemma_union(e, j, d, before.push(select));
            },
            Err(_) => {},
        }
    } else {
        let v = ParsedView::Query(QueryView { branches: before });
        assert(v.wf() && v.asks());
        match read_settings(e, i) {
            Ok((settings, j)) => {
                lemma_bounded(settings, v);
            },
            Err(_) => {},
        }
    }
}

proof fn lemma_query(e: Env, i: int, d: int)
    requires
        0 <= i,
        e.t.len() <= usize::MAX,
    ensures
        read_query(e, i, d) matches Ok((v, _)) ==> v.wf() && v.asks() && !(v is Explain),
{
    match read_select(e, i, d) {
        Ok((select, j)) => {
            a_select_is_regular(e, i, d);
            lemma_union(e, j, d, seq![select]);
        },
        Err(_) => {},
    }
}

/// A row that is read is as wide as it is long, with whole numbers where the id is.
proof fn lemma_row(e: Env, i: int, id_at: Option<usize>, before: Seq<LiteralView>)
    requires
        e.t.len() <= usize::MAX,
        before.len() <= i,
        id_at matches Some(k) ==> k < before.len() ==> before[k as int] is Int,
    ensures
        read_row(e, i, id_at, before) matches Ok((row, _)) ==> (id_at matches Some(k) ==> k < row.len()
            ==> row[k as int] is Int),
    decreases e.t.len() - i,
{
    match moved(e, i, read_literal(e, i, "a value"@)) {
        Ok((value, j)) => {
            let more = before.push(value);
            if !(id_at == Some(before.len() as usize) && !(value is Int)) {
                assert(id_at matches Some(k) ==> k < more.len() ==> more[k as int] is Int);
                if tok_is(e, j, TokView::Comma) {
                    lemma_row(e, j + 1, id_at, more);
                }
            }
        },
        Err(_) => {},
    }
}

/// Every row is as wide as the column list.
pub open spec fn rows_wf(rows: Seq<Seq<LiteralView>>, width: usize, id_at: Option<usize>) -> bool {
    forall|k: int|
        0 <= k < rows.len() ==> (#[trigger] rows[k]).len() == width && (id_at matches Some(i) ==> i
            < width ==> rows[k][i as int] is Int)
}

proof fn lemma_rows(
    e: Env,
    i: int,
    width: usize,
    id_at: Option<usize>,
    before: Seq<Seq<LiteralView>>,
)
    requires
        e.t.len() <= usize::MAX,
        rows_wf(before, width, id_at),
    ensures
        read_rows(e, i, width, id_at, before) matches Ok((rows, _)) ==> rows_wf(
            rows,
            width,
            id_at,
        ),
    decreases e.t.len() - i,
{
    match moved(e, i, read_tuple(e, i, width, id_at)) {
        Ok((row, j)) => {
            assert(i >= 0);
            lemma_row(e, i + 1, id_at, Seq::empty());
            let more = before.push(row);
            assert(rows_wf(more, width, id_at)) by {
                assert forall|k: int| 0 <= k < more.len() implies (#[trigger] more[k]).len() == width
                    && (id_at matches Some(i) ==> i < width ==> more[k][i as int] is Int) by {
                    if k < before.len() {
                        assert(before[k].len() == width);
                    }
                }
            }
            if tok_is(e, j, TokView::Comma) {
                lemma_rows(e, j + 1, width, id_at, more);
            }
        },
        Err(_) => {},
    }
}

proof fn lemma_id_position(columns: Seq<Seq<char>>, k: int)
    requires
        0 <= k,
        columns.len() <= usize::MAX,
    ensures
        id_position(columns, k) matches Some(i) ==> i < columns.len(),
    decreases columns.len() - k,
{
    if k < columns.len() {
        lemma_id_position(columns, k + 1);
    }
}

proof fn lemma_insert_columns(e: Env, i: int, before: Seq<Seq<char>>)
    requires
        e.t.len() <= usize::MAX,
        before.len() <= i,
    ensures
        read_insert_columns(e, i, before) matches Ok((columns, _)) ==> columns.len() <= usize::MAX,
    decreases e.t.len() - i,
{
    match moved(e, i, read_ident(e, i, "a column name"@)) {
        Ok((name, j)) => {
            if tok_is(e, j, TokView::Comma) {
                lemma_insert_columns(e, j + 1, before.push(name));
            }
        },
        Err(_) => {},
    }
}

/// An `INSERT` that is read is regular: every row is as wide as the column list, a written record
/// id is a whole number, and a query it reads from can be lowered.
pub proof fn an_insert_is_regular(e: Env, i: int, d: int)
    requires
        0 <= i,
        e.t.len() <= usize::MAX,
    ensures
        read_insert(e, i, d) matches Ok((insert, _)) ==> insert.wf() && (insert.source matches SourceView::Select(
            select,
        ) ==> select.wf() && select.asks()),
{
    match read_table(e, past_word(e, i, "INTO"@), "a table name"@) {
        Ok(((database, table), j)) => {
            match read_insert_columns(e, j + 1, Seq::empty()) {
                Ok((columns, k)) => {
                    lemma_insert_columns(e, j + 1, Seq::empty());
                    lemma_id_position(columns, 0);
                    let id_at = id_position(columns, 0);
                    if word_at(e, k, "SELECT"@) {
                        a_select_is_regular(e, k + 1, d);
                    } else {
                        lemma_rows(e, k + 1, columns.len() as usize, id_at, Seq::empty());
                        match read_insert(e, i, d) {
                            Ok((insert, _)) => {
                                match insert.source {
                                    SourceView::Values(rows) => {
                                        assert forall|n: int| 0 <= n < rows.len() implies insert.row_wf(
                                            #[trigger] rows[n],
                                        ) by {
                                            assert(rows[n].len() == columns.len());
                                        }
                                    },
                                    SourceView::Select(_) => {},
                                }
                            },
                            Err(_) => {},
                        }
                    }
                },
                Err(_) => {},
            }
        },
        Err(_) => {},
    }
}

impl ParsedView {
    /// A statement every step after reading takes: its queries can be lowered, its rows are as
    /// wide as its columns, what is explained is not itself an explanation, and the limits
    /// written on it are never nothing.
    pub open spec fn wf(self) -> bool
        decreases self,
    {
        match self {
            ParsedView::Query(q) => q.wf(),
            ParsedView::Insert(i) => i.wf() && (i.source matches SourceView::Select(s) ==> s.wf()),
            ParsedView::Explain { inner, .. } => !(*inner is Explain) && inner.wf(),
            ParsedView::Settings { settings, inner } => settings != no_settings() && !(
            *inner is Explain) && inner.wf(),
            _ => true,
        }
    }

    /// Whether every `SELECT` in a statement lists something and uses what it groups by.
    pub open spec fn asks(self) -> bool
        decreases self,
    {
        match self {
            ParsedView::Query(q) => q.asks(),
            ParsedView::Insert(i) => i.source matches SourceView::Select(s) ==> s.asks(),
            ParsedView::Explain { inner, .. } => inner.asks(),
            ParsedView::Settings { inner, .. } => inner.asks(),
            _ => true,
        }
    }
}

/// Every statement that is read is regular, and asks for something where it reads.
pub proof fn a_statement_is_regular(text: Seq<char>, now: i64)
    requires
        bytes(text).len() <= usize::MAX,
    ensures
        said(text, now) matches Ok(v) ==> v.wf() && v.asks(),
{
    match tokens_from(bytes(text), 0) {
        Ok(t) => {
            vstd::utf8::encode_utf8_valid_utf8(text);
            lemma_few_tokens(bytes(text));
            let e = Env { t, src: bytes(text), bound: Map::empty(), now };
            lemma_statement(e, 0, 0);
            lemma_statement(e, 1, 0);
            lemma_statement(e, 2, 0);
        },
        Err(_) => {},
    }
}

/// There are no more tokens than bytes.
proof fn lemma_few_tokens(s: Seq<u8>)
    requires
        vstd::utf8::valid_utf8(s),
        s.len() <= usize::MAX,
    ensures
        tokens_from(s, 0) matches Ok(t) ==> t.len() <= s.len(),
{
    tokens_are_in_order(s, 0);
    match tokens_from(s, 0) {
        Ok(t) => {
            lemma_spread(t, t.len() as int - 1);
        },
        Err(_) => {},
    }
}

proof fn lemma_spread(t: Seq<TokenView>, k: int)
    requires
        -1 <= k < t.len(),
        forall|i: int, j: int|
            #![trigger t[i], t[j]]
            0 <= i < j < t.len() ==> t[i].at < t[j].at,
    ensures
        k >= 0 ==> k <= t[k].at,
    decreases k + 1,
{
    if k > 0 {
        lemma_spread(t, k - 1);
        assert(t[k - 1].at < t[k].at);
    }
}

proof fn lemma_statement(e: Env, i: int, d: int)
    requires
        0 <= i,
        e.t.len() <= usize::MAX,
    ensures
        read_statement(e, i, d) matches Ok((v, _)) ==> v.wf() && v.asks() && !(v is Explain),
{
    reveal(read_statement);
    lemma_query(e, i + 1, d);
    lemma_with_query(e, i + 1, d);
    lemma_write(e, i, d);
    lemma_definition(e, i, d);
}

proof fn lemma_with_query(e: Env, i: int, d: int)
    requires
        e.t.len() <= usize::MAX,
    ensures
        read_with_query(e, i, d) matches Ok((v, _)) ==> v.wf() && v.asks() && !(v is Explain),
{
    match read_bindings(e, i) {
        Ok((bound, j)) => {
            if word_at(e, j, "SELECT"@) {
                lemma_query(Env { bound, ..e }, j + 1, d);
            }
        },
        Err(_) => {},
    }
}

proof fn lemma_write(e: Env, i: int, d: int)
    requires
        0 <= i,
        e.t.len() <= usize::MAX,
    ensures
        read_write(e, i, d) matches Ok((v, _)) ==> v.wf() && v.asks() && !(v is Explain),
{
    if word_at(e, i, "INSERT"@) {
        an_insert_is_regular(e, i + 1, d);
    } else if word_at(e, i, "DELETE"@) {
        match read_delete(e, i + 1, d) {
            Ok(((v, settings), _)) => {
                lemma_bounded(settings, ParsedView::Delete(v));
            },
            Err(_) => {},
        }
    } else if word_at(e, i, "UPDATE"@) {
        match read_update(e, i + 1, d) {
            Ok(((v, settings), _)) => {
                lemma_bounded(settings, ParsedView::Update(v));
            },
            Err(_) => {},
        }
    }
}

proof fn lemma_definition(e: Env, i: int, d: int)
    ensures
        read_definition(e, i, d) matches Ok((v, _)) ==> v is Acl || v is Ddl,
{
}

} // verus!
