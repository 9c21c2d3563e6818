//! `SELECT DISTINCT a, b` is `SELECT a, b ... GROUP BY a, b`.

use vstd::prelude::*;
use crate::ast::{filter_unplaced, CondView, GroupingSetsView, GroupingView, HavingView, ItemView, JoinView, NameView, OrderView, ProjView, SelectView};
use crate::error::{Refused, SqlErrorView};
use crate::lex::TokView;
use crate::parse::aggregate::{read_aggregate, LeafView};
use crate::parse::cursor::{at_end, offset, peek_at, read_name, refusal, tok_is, word_at, Env};
use crate::parse::from::{clause_at, read_join, read_joins, read_source};
use crate::parse::grouping::{read_group_by, read_grouping, read_groupings, term_of, MAX_GROUP_COLUMNS};
use crate::parse::item::{all_alike, entry_of, read_entry, read_item, read_items, written};
use crate::parse::scalar::{column_leaf, infix_at, more_infix, read_climb, read_primary, read_unary};
use crate::parse::select::{distinct_term, distinct_terms, grouped_by, read_filter, read_head, read_limit, read_select, read_tail, read_where};
use crate::readback::lemma_unlike;
use crate::scalar::ScalarView;
use crate::text::{fold, same_word};

verus! {

/// What `DISTINCT` changes of the statement behind it: nothing but what it is grouped by, which is
/// its own list. Beside a `GROUP BY` of any kind it is refused, where it is written.
pub proof fn distinct_is_only_a_grouping(e: Env, i: int, d: int)
    requires
        word_at(e, i, "DISTINCT"@),
        !word_at(e, i + 1, "DISTINCT"@),
    ensures
        match read_select(e, i + 1, d) {
            Ok((plain, j)) => {
                let written = plain.group_by.len() > 0 || plain.grouping_sets is Some;
                &&& written ==> read_select(e, i, d) == Err::<(SelectView, int), _>(
                    refusal(Refused::Shape, offset(e, i)),
                )
                &&& !written ==> match distinct_terms(plain.items, 0, Seq::empty()) {
                    Err(x) => read_select(e, i, d) == Err::<(SelectView, int), _>(x),
                    Ok(terms) => if terms.len() <= MAX_GROUP_COLUMNS {
                        read_select(e, i, d) == Ok::<_, SqlErrorView>(
                            (SelectView { group_by: terms, ..plain }, j),
                        )
                    } else {
                        read_select(e, i, d) == Err::<(SelectView, int), _>(
                            refusal(
                                Refused::MultiDistinct,
                                plain.items[MAX_GROUP_COLUMNS as int].at,
                            ),
                        )
                    },
                }
            },
            Err(_) => read_select(e, i, d) is Err,
        },
{
    lemma_heads(e, i, d);
    match read_head(e, i + 1, d) {
        Ok((plain, j)) => {
            let group_by = match grouped_by(
                true,
                offset(e, i),
                plain.items,
                plain.group_by,
                plain.grouping_sets,
            ) {
                Ok(g) => g,
                Err(_) => plain.group_by,
            };
            lemma_tails(e, j, d, plain, SelectView { group_by, ..plain });
        },
        Err(_) => {},
    }
}

/// What comes before `HAVING`, with `DISTINCT` and without.
proof fn lemma_heads(e: Env, i: int, d: int)
    requires
        word_at(e, i, "DISTINCT"@),
        !word_at(e, i + 1, "DISTINCT"@),
    ensures
        match read_head(e, i + 1, d) {
            Err(_) => read_head(e, i, d) is Err,
            Ok((plain, j)) => match grouped_by(
                true,
                offset(e, i),
                plain.items,
                plain.group_by,
                plain.grouping_sets,
            ) {
                Err(x) => read_head(e, i, d) == Err::<(SelectView, int), _>(x),
                Ok(group_by) => read_head(e, i, d) == Ok::<_, SqlErrorView>(
                    (SelectView { group_by, ..plain }, j),
                ),
            },
        },
{
}

/// The clauses from `HAVING` on do not depend on those before it.
proof fn lemma_tails(e: Env, i: int, d: int, a: SelectView, b: SelectView)
    requires
        b == (SelectView { group_by: b.group_by, ..a }),
    ensures
        match read_tail(e, i, d, a) {
            Err(x) => read_tail(e, i, d, b) == Err::<(SelectView, int), _>(x),
            Ok((s, j)) => read_tail(e, i, d, b) == Ok::<_, SqlErrorView>(
                (SelectView { group_by: b.group_by, ..s }, j),
            ) && s.group_by == a.group_by && s.items == a.items && s.grouping_sets
                == a.grouping_sets,
        },
{
}

/// An entry that mentions one column groups as the same expression does in a `GROUP BY`: by the
/// same column and to the same boundary, or not at all.
pub proof fn an_entry_groups_as_a_term(
    expr: ScalarView,
    leaf: LeafView,
    text: Seq<char>,
    at: usize,
    place: usize,
)
    requires
        leaf.filter is None,
        !(leaf.proj is Scalar),
    ensures
        entry_of(expr, seq![leaf], text, at) matches Ok(one) && ({
            let item = ItemView { proj: one.proj, filter: one.filter, alias: None, at };
            match (distinct_term(item), term_of(expr, seq![leaf], place)) {
                (Ok(g), Ok(h)) => g == (GroupingView { at, ..h }),
                (Err(_), Err(_)) => true,
                _ => false,
            }
        }),
{
    let leaves = seq![leaf];
    assert(leaves[0] == leaf);
    assert(all_alike(leaves));
}

/// A word that stands for something else than a column, in a list or in a `GROUP BY`.
pub open spec fn is_taken(w: Seq<char>) -> bool {
    ||| same_word(w, "DISTINCT"@)
    ||| same_word(w, "NOT"@)
    ||| same_word(w, "CASE"@)
    ||| same_word(w, "CAST"@)
    ||| same_word(w, "NULL"@)
    ||| same_word(w, "TRUE"@)
    ||| same_word(w, "FALSE"@)
    ||| same_word(w, "GROUPING"@)
    ||| same_word(w, "GROUPINGSETS"@)
    ||| same_word(w, "ROLLUP"@)
    ||| same_word(w, "CUBE"@)
}

/// Whether a token names a column by itself.
pub open spec fn is_column(tok: TokView) -> bool {
    match tok {
        TokView::Word(w) => !is_taken(w),
        TokView::Quoted(_) => true,
        _ => false,
    }
}

/// The name a token is.
pub open spec fn named_by(tok: TokView) -> NameView {
    NameView {
        qualifier: None,
        column: match tok {
            TokView::Word(w) => w,
            TokView::Quoted(w) => w,
            _ => Seq::empty(),
        },
    }
}

/// Whether some columns stand at a position, with a comma between each two.
pub open spec fn columns_stand(e: Env, i: int, columns: Seq<TokView>) -> bool {
    &&& 0 <= i
    &&& forall|k: int|
        0 <= k < columns.len() ==> is_column(#[trigger] columns[k]) && peek_at(e, i + 2 * k) == Some(
            columns[k],
        ) && (k + 1 < columns.len() ==> tok_is(e, i + 2 * k + 1, TokView::Comma))
}

/// Whether what stands at a position leaves an expression at its end.
pub open spec fn ends_entry(e: Env, i: int) -> bool {
    at_end(e, i) || tok_is(e, i, TokView::Comma) || word_at(e, i, "FROM"@)
}

/// Two different words are not the same word in some case.
proof fn lemma_words_differ(w: Seq<char>, a: Seq<char>, b: Seq<char>)
    requires
        same_word(w, a),
        a.len() != b.len() || (a.len() > 0 && crate::text::lower_char(a[0]) != crate::text::lower_char(
            b[0],
        )) || (a.len() > 1 && crate::text::lower_char(a[1]) != crate::text::lower_char(b[1])),
    ensures
        !same_word(w, b),
{
    if same_word(w, b) {
        assert(fold(a) == fold(b));
        lemma_unlike(a, b);
    }
}

proof fn lemma_from(w: Seq<char>)
    requires
        same_word(w, "FROM"@),
    ensures
        !same_word(w, "AND"@),
        !same_word(w, "OR"@),
        !same_word(w, "OVER"@),
        !same_word(w, "FILTER"@),
        !same_word(w, "AS"@),
{
    reveal_strlit("FROM");
    reveal_strlit("AND");
    reveal_strlit("OR");
    reveal_strlit("OVER");
    reveal_strlit("FILTER");
    reveal_strlit("AS");
    lemma_words_differ(w, "FROM"@, "AND"@);
    lemma_words_differ(w, "FROM"@, "OR"@);
    lemma_words_differ(w, "FROM"@, "OVER"@);
    lemma_words_differ(w, "FROM"@, "FILTER"@);
    lemma_words_differ(w, "FROM"@, "AS"@);
}

/// A column is read as itself.
proof fn lemma_column(e: Env, i: int, d: int, tok: TokView)
    requires
        is_column(tok),
        peek_at(e, i) == Some(tok),
        ends_entry(e, i + 1),
    ensures
        read_climb(e, i, d, 0, Seq::empty()) == Ok::<_, SqlErrorView>(
            ((ScalarView::Value, seq![column_leaf(named_by(tok))]), i + 1),
        ),
{
    if word_at(e, i + 1, "FROM"@) {
        lemma_from(peek_at(e, i + 1)->0->Word_0);
    }
    let none = Seq::<LeafView>::empty();
    let leaf = column_leaf(named_by(tok));
    let got = Ok::<_, SqlErrorView>(((ScalarView::Value, none.push(leaf)), i + 1));
    assert(none.push(leaf) =~= seq![leaf]);
    assert(read_name(e, i, "a column, a value or a function"@) == Ok::<_, SqlErrorView>(
        (named_by(tok), i + 1),
    ));
    assert(read_aggregate(e, i + 1, d, named_by(tok).column) == Ok::<_, SqlErrorView>(
        (None::<LeafView>, i + 1),
    ));
    assert(read_primary(e, i, d, none) == got);
    assert(read_unary(e, i, d, none) == got);
    assert(infix_at(e, i + 1) is None);
    assert(more_infix(e, i + 1, d, 0, ScalarView::Value, none.push(leaf)) == got);
}

/// The entry a column is.
pub open spec fn entry_for(tok: TokView, at: usize) -> ItemView {
    ItemView { proj: ProjView::Column(named_by(tok)), filter: None, alias: None, at }
}

/// The grouping a column is.
pub open spec fn term_for(tok: TokView, at: usize) -> GroupingView {
    GroupingView { name: named_by(tok), bucket: None, at }
}

proof fn lemma_entry(e: Env, i: int, d: int, tok: TokView)
    requires
        is_column(tok),
        peek_at(e, i) == Some(tok),
        ends_entry(e, i + 1),
    ensures
        read_item(e, i, d) == Ok::<_, SqlErrorView>((entry_for(tok, offset(e, i)), i + 1)),
        read_grouping(e, i, d) == Ok::<_, SqlErrorView>((term_for(tok, offset(e, i)), i + 1)),
{
    lemma_column(e, i, d, tok);
    if word_at(e, i + 1, "FROM"@) {
        lemma_from(peek_at(e, i + 1)->0->Word_0);
    }
    an_entry_groups_as_a_term(
        ScalarView::Value,
        column_leaf(named_by(tok)),
        written(e, i, i + 1),
        offset(e, i),
        offset(e, i),
    );
    let leaves = seq![column_leaf(named_by(tok))];
    assert(leaves[0] == column_leaf(named_by(tok)));
    assert(all_alike(leaves));
    assert(read_entry(e, i, d) == Ok::<_, SqlErrorView>((column_leaf(named_by(tok)), i + 1)));
}

/// The entries some columns are.
pub open spec fn entries_for(e: Env, i: int, columns: Seq<TokView>, n: int) -> Seq<ItemView> {
    Seq::new(n as nat, |k: int| entry_for(columns[k], offset(e, i + 2 * k)))
}

/// The groupings some columns are.
pub open spec fn terms_for(e: Env, i: int, columns: Seq<TokView>, n: int) -> Seq<GroupingView> {
    Seq::new(n as nat, |k: int| term_for(columns[k], offset(e, i + 2 * k)))
}

proof fn lemma_entries(e: Env, i: int, d: int, columns: Seq<TokView>, k: int)
    requires
        columns_stand(e, i, columns),
        0 <= k < columns.len(),
        ends_entry(e, i + 2 * columns.len() - 1),
        !tok_is(e, i + 2 * columns.len() - 1, TokView::Comma),
    ensures
        read_items(e, i + 2 * k, d, entries_for(e, i, columns, k)) == Ok::<_, SqlErrorView>(
            (
                entries_for(e, i, columns, columns.len() as int),
                i + 2 * columns.len() - 1,
            ),
        ),
        read_groupings(e, i + 2 * k, d, terms_for(e, i, columns, k)) == Ok::<_, SqlErrorView>(
            (terms_for(e, i, columns, columns.len() as int), i + 2 * columns.len() - 1),
        ),
    decreases columns.len() - k,
{
    let tok = columns[k];
    lemma_entry(e, i + 2 * k, d, tok);
    assert(entries_for(e, i, columns, k).push(entry_for(tok, offset(e, i + 2 * k)))
        =~= entries_for(e, i, columns, k + 1));
    assert(terms_for(e, i, columns, k).push(term_for(tok, offset(e, i + 2 * k))) =~= terms_for(
        e,
        i,
        columns,
        k + 1,
    ));
    if k + 1 < columns.len() {
        lemma_entries(e, i, d, columns, k + 1);
    }
}

/// The list of columns, as a select list and as a `GROUP BY`.
proof fn lemma_listed(e: Env, i: int, d: int, columns: Seq<TokView>)
    requires
        columns_stand(e, i, columns),
        0 < columns.len(),
        ends_entry(e, i + 2 * columns.len() - 1),
        !tok_is(e, i + 2 * columns.len() - 1, TokView::Comma),
    ensures
        read_items(e, i, d, Seq::empty()) == Ok::<_, SqlErrorView>(
            (
                entries_for(e, i, columns, columns.len() as int),
                i + 2 * columns.len() - 1,
            ),
        ),
        read_groupings(e, i, d, Seq::empty()) == Ok::<_, SqlErrorView>(
            (terms_for(e, i, columns, columns.len() as int), i + 2 * columns.len() - 1),
        ),
{
    assert(entries_for(e, i, columns, 0) =~= Seq::<ItemView>::empty());
    assert(terms_for(e, i, columns, 0) =~= Seq::<GroupingView>::empty());
    lemma_entries(e, i, d, columns, 0);
}

proof fn lemma_distinct_terms(e: Env, i: int, columns: Seq<TokView>, k: int)
    requires
        0 <= k <= columns.len(),
    ensures
        distinct_terms(
            entries_for(e, i, columns, columns.len() as int),
            k,
            terms_for(e, i, columns, k),
        ) == Ok::<_, SqlErrorView>(terms_for(e, i, columns, columns.len() as int)),
    decreases columns.len() - k,
{
    if k < columns.len() {
        lemma_distinct_terms(e, i, columns, k + 1);
        assert(terms_for(e, i, columns, k).push(term_for(columns[k], offset(e, i + 2 * k)))
            =~= terms_for(e, i, columns, k + 1));
    }
}

proof fn lemma_group(w: Seq<char>)
    requires
        same_word(w, "GROUP"@),
    ensures
        !same_word(w, "AS"@),
        !same_word(w, "CROSS"@),
        !same_word(w, "NATURAL"@),
        !same_word(w, "LEFT"@),
        !same_word(w, "RIGHT"@),
        !same_word(w, "FULL"@),
        !same_word(w, "INNER"@),
        !same_word(w, "JOIN"@),
        !same_word(w, "PREWHERE"@),
        !same_word(w, "WHERE"@),
{
    reveal_strlit("GROUP");
    reveal_strlit("AS");
    reveal_strlit("CROSS");
    reveal_strlit("NATURAL");
    reveal_strlit("LEFT");
    reveal_strlit("RIGHT");
    reveal_strlit("FULL");
    reveal_strlit("INNER");
    reveal_strlit("JOIN");
    reveal_strlit("PREWHERE");
    reveal_strlit("WHERE");
    lemma_words_differ(w, "GROUP"@, "AS"@);
    lemma_words_differ(w, "GROUP"@, "CROSS"@);
    lemma_words_differ(w, "GROUP"@, "NATURAL"@);
    lemma_words_differ(w, "GROUP"@, "LEFT"@);
    lemma_words_differ(w, "GROUP"@, "RIGHT"@);
    lemma_words_differ(w, "GROUP"@, "FULL"@);
    lemma_words_differ(w, "GROUP"@, "INNER"@);
    lemma_words_differ(w, "GROUP"@, "JOIN"@);
    lemma_words_differ(w, "GROUP"@, "PREWHERE"@);
    lemma_words_differ(w, "GROUP"@, "WHERE"@);
}

/// A table and nothing between it and the `GROUP BY` or the end.
proof fn lemma_source(e: Env, i: int, d: int, table: TokView)
    requires
        0 <= i,
        table is Word || table is Quoted,
        peek_at(e, i) == Some(table),
        at_end(e, i + 1) || word_at(e, i + 1, "GROUP"@),
    ensures
        read_source(e, i, "a table name"@) == Ok::<_, SqlErrorView>(
            (
                crate::ast::SourceView {
                    database: None,
                    table: named_by(table).column,
                    alias: None,
                },
                i + 1,
            ),
        ),
        read_joins(e, i + 1, Seq::empty()) == Ok::<_, SqlErrorView>(
            (Seq::<JoinView>::empty(), i + 1),
        ),
        read_where(e, i + 1, d) == Ok::<_, SqlErrorView>((None::<CondView>, i + 1)),
{
    if word_at(e, i + 1, "GROUP"@) {
        lemma_group(peek_at(e, i + 1)->0->Word_0);
        assert(clause_at(e, i + 1));
    }
    assert(read_join(e, i + 1) == Ok::<_, SqlErrorView>((None::<JoinView>, i + 1)));
}

/// A `HAVING` without its byte offsets.
pub open spec fn having_unplaced(h: HavingView) -> HavingView
    decreases h,
{
    match h {
        HavingView::And(a, b) => HavingView::And(
            Box::new(having_unplaced(*a)),
            Box::new(having_unplaced(*b)),
        ),
        HavingView::Or(a, b) => HavingView::Or(
            Box::new(having_unplaced(*a)),
            Box::new(having_unplaced(*b)),
        ),
        HavingView::Not(a) => HavingView::Not(Box::new(having_unplaced(*a))),
        HavingView::Cmp { left, op, right, .. } => HavingView::Cmp { left, op, right, at: 0 },
    }
}

/// A statement without its byte offsets.
pub open spec fn unplaced(s: SelectView) -> SelectView {
    SelectView {
        items: s.items.map_values(
            |x: ItemView| ItemView { filter: filter_unplaced(x.filter), at: 0, ..x },
        ),
        joins: s.joins.map_values(|x: JoinView| JoinView { at: 0, ..x }),
        filter: filter_unplaced(s.filter),
        group_by: s.group_by.map_values(|x: GroupingView| GroupingView { at: 0, ..x }),
        grouping_sets: match s.grouping_sets {
            Some(x) => Some(GroupingSetsView { at: 0, ..x }),
            None => None,
        },
        having: match s.having {
            Some(h) => Some(having_unplaced(h)),
            None => None,
        },
        order_by: match s.order_by {
            Some(x) => Some(OrderView { at: 0, ..x }),
            None => None,
        },
        ..s
    }
}

/// The statement that lists some columns of a table, grouped by some columns.
pub open spec fn listing_of(
    items: Seq<ItemView>,
    table: TokView,
    group_by: Seq<GroupingView>,
) -> SelectView {
    SelectView {
        items,
        from: crate::ast::SourceView {
            database: None,
            table: named_by(table).column,
            alias: None,
        },
        joins: Seq::empty(),
        sample: None,
        filter: None,
        group_by,
        grouping_sets: None,
        having: None,
        order_by: None,
        limit: None,
        with_ties: false,
        offset: None,
        format: crate::shape::Format::Json,
    }
}

/// Nothing is left to read after the list and its grouping.
proof fn lemma_no_tail(e: Env, i: int, d: int, items: Seq<ItemView>, table: TokView, by: Seq<GroupingView>)
    requires
        0 <= i,
        at_end(e, i),
    ensures
        read_tail(e, i, d, listing_of(items, table, by)) == Ok::<_, SqlErrorView>(
            (listing_of(items, table, by), i),
        ),
{
}

/// `DISTINCT a, b FROM t` and `a, b FROM t GROUP BY a, b` are both read, and as the same statement
/// but for byte offsets: its list is the columns, and so is what it is grouped by.
///
/// The columns are names that stand for nothing else, and at most as many as a statement may be
/// grouped by.
pub proof fn distinct_is_the_grouping_written_out(
    e: Env,
    i: int,
    d: int,
    e2: Env,
    i2: int,
    d2: int,
    columns: Seq<TokView>,
    table: TokView,
)
    requires
        0 < columns.len() <= MAX_GROUP_COLUMNS,
        table is Word || table is Quoted,
        word_at(e, i, "DISTINCT"@),
        columns_stand(e, i + 1, columns),
        word_at(e, i + 2 * columns.len(), "FROM"@),
        peek_at(e, i + 2 * columns.len() + 1) == Some(table),
        at_end(e, i + 2 * columns.len() + 2),
        columns_stand(e2, i2, columns),
        word_at(e2, i2 + 2 * columns.len() - 1, "FROM"@),
        peek_at(e2, i2 + 2 * columns.len()) == Some(table),
        word_at(e2, i2 + 2 * columns.len() + 1, "GROUP"@),
        word_at(e2, i2 + 2 * columns.len() + 2, "BY"@),
        columns_stand(e2, i2 + 2 * columns.len() + 3, columns),
        at_end(e2, i2 + 4 * columns.len() + 2),
    ensures
        match (read_select(e, i, d), read_select(e2, i2, d2)) {
            (Ok((a, _)), Ok((b, _))) => {
                &&& unplaced(a) == unplaced(b)
                &&& a.grouping_sets is None
                &&& a.group_by.len() == columns.len()
                &&& forall|k: int|
                    0 <= k < columns.len() ==> (#[trigger] a.group_by[k]).name == named_by(columns[k])
                        && a.group_by[k].bucket is None
            },
            _ => false,
        },
{
    let n = columns.len() as int;
    lemma_distinct_side(e, i, d, columns, table);
    lemma_written_side(e2, i2, d2, columns, table);
    let a = listing_of(entries_for(e, i + 1, columns, n), table, terms_for(e, i + 1, columns, n));
    let b = listing_of(
        entries_for(e2, i2, columns, n),
        table,
        terms_for(e2, i2 + 2 * n + 3, columns, n),
    );
    assert(unplaced(a).items =~= unplaced(b).items);
    assert(unplaced(a).joins =~= unplaced(b).joins);
    assert(unplaced(a).group_by =~= unplaced(b).group_by);
}

/// `DISTINCT a, b FROM t`.
proof fn lemma_distinct_side(e: Env, i: int, d: int, columns: Seq<TokView>, table: TokView)
    requires
        0 < columns.len() <= MAX_GROUP_COLUMNS,
        table is Word || table is Quoted,
        word_at(e, i, "DISTINCT"@),
        columns_stand(e, i + 1, columns),
        word_at(e, i + 2 * columns.len(), "FROM"@),
        peek_at(e, i + 2 * columns.len() + 1) == Some(table),
        at_end(e, i + 2 * columns.len() + 2),
    ensures
        read_select(e, i, d) == Ok::<_, SqlErrorView>(
            (
                listing_of(
                    entries_for(e, i + 1, columns, columns.len() as int),
                    table,
                    terms_for(e, i + 1, columns, columns.len() as int),
                ),
                i + 2 * columns.len() + 2,
            ),
        ),
{
    let n = columns.len() as int;
    let f = i + 2 * n;
    lemma_from_word(e, f);
    lemma_listed(e, i + 1, d, columns);
    lemma_source(e, f + 1, d, table);
    let items = entries_for(e, i + 1, columns, n);
    let terms = terms_for(e, i + 1, columns, n);
    assert(terms_for(e, i + 1, columns, 0) =~= Seq::<GroupingView>::empty());
    lemma_distinct_terms(e, i + 1, columns, 0);
    assert(read_group_by(e, f + 2, d) == Ok::<_, SqlErrorView>(
        ((Seq::<GroupingView>::empty(), None::<GroupingSetsView>), f + 2),
    ));
    assert(grouped_by(true, offset(e, i), items, Seq::empty(), None) == Ok::<_, SqlErrorView>(terms));
    assert(read_head(e, i, d) == Ok::<_, SqlErrorView>((listing_of(items, table, terms), f + 2)));
    lemma_no_tail(e, f + 2, d, items, table, terms);
}

/// `a, b FROM t GROUP BY a, b`.
proof fn lemma_written_side(e: Env, i: int, d: int, columns: Seq<TokView>, table: TokView)
    requires
        0 < columns.len() <= MAX_GROUP_COLUMNS,
        table is Word || table is Quoted,
        columns_stand(e, i, columns),
        word_at(e, i + 2 * columns.len() - 1, "FROM"@),
        peek_at(e, i + 2 * columns.len()) == Some(table),
        word_at(e, i + 2 * columns.len() + 1, "GROUP"@),
        word_at(e, i + 2 * columns.len() + 2, "BY"@),
        columns_stand(e, i + 2 * columns.len() + 3, columns),
        at_end(e, i + 4 * columns.len() + 2),
    ensures
        read_select(e, i, d) == Ok::<_, SqlErrorView>(
            (
                listing_of(
                    entries_for(e, i, columns, columns.len() as int),
                    table,
                    terms_for(e, i + 2 * columns.len() + 3, columns, columns.len() as int),
                ),
                i + 4 * columns.len() + 2,
            ),
        ),
{
    let n = columns.len() as int;
    let f = i + 2 * n - 1;
    let g = f + 4;
    let end = i + 4 * n + 2;
    lemma_from_word(e, f);
    lemma_listed(e, i, d, columns);
    lemma_source(e, f + 1, d, table);
    assert(end == g + 2 * n - 1);
    lemma_listed(e, g, d, columns);
    let items = entries_for(e, i, columns, n);
    let terms = terms_for(e, g, columns, n);
    assert(is_column(columns[0]));
    assert(peek_at(e, i + 2 * 0) == Some(columns[0]));
    assert(peek_at(e, g + 2 * 0) == Some(columns[0]));
    assert(read_group_by(e, f + 2, d) == Ok::<_, SqlErrorView>(
        ((terms, None::<GroupingSetsView>), end),
    ));
    assert(!word_at(e, i, "DISTINCT"@));
    assert(read_head(e, i, d) == Ok::<_, SqlErrorView>((listing_of(items, table, terms), end)));
    lemma_no_tail(e, end, d, items, table, terms);
}

/// `FROM` is no comma.
proof fn lemma_from_word(e: Env, i: int)
    requires
        word_at(e, i, "FROM"@),
    ensures
        ends_entry(e, i),
        !tok_is(e, i, TokView::Comma),
{
}

/// `PREWHERE x WHERE y` is the one condition `x AND y`.
pub proof fn prewhere_and_where_are_one_condition(
    e: Env,
    i: int,
    d: int,
    x: CondView,
    j: int,
    y: CondView,
    k: int,
)
    requires
        read_filter(e, i, d, "PREWHERE"@) == Ok::<_, SqlErrorView>((Some(x), j)),
        read_filter(e, j, d, "WHERE"@) == Ok::<_, SqlErrorView>((Some(y), k)),
    ensures
        read_where(e, i, d) == Ok::<_, SqlErrorView>(
            (Some(CondView::And(Box::new(x), Box::new(y))), k),
        ),
{
}

/// Without an `ORDER BY` there is nothing to tie on: `LIMIT n WITH TIES` is refused.
pub proof fn ties_are_ties_of_an_order(e: Env, i: int, in_order: bool)
    requires
        word_at(e, i, "LIMIT"@),
        crate::parse::cursor::read_number(e, i + 1, "a whole number after LIMIT"@) is Ok,
        word_at(e, i + 2, "WITH"@),
        word_at(e, i + 3, "TIES"@),
    ensures
        match read_limit(e, i, in_order) {
            Ok(((limit, ties), _)) => in_order && limit is Some && ties,
            Err(x) => !in_order && x == refusal(Refused::Order, offset(e, i + 4)),
        },
{
}

} // verus!
