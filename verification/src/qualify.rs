//! The database of every name a statement does not qualify itself.

use vstd::prelude::*;
use crate::ast::{self, Cond, CondView, Item, ItemView, JoinView, QueryView, Select, SelectView, SourceView};
use crate::insert::{self, InsertView};
use crate::parse::statement::{Parsed, ParsedView};
use crate::show::ShowView;
use crate::text::{fill, filled, same, views};
use crate::DEFAULT_DATABASE;

verus! {

/// A table with a database name put where none was written.
pub open spec fn source_filled(source: SourceView, database: Seq<char>) -> SourceView {
    SourceView { database: filled(source.database, database), ..source }
}

/// A condition with a database name put where none was written.
pub open spec fn cond_filled(c: CondView, database: Seq<char>) -> CondView
    decreases c,
{
    match c {
        CondView::And(a, b) => CondView::And(
            Box::new(cond_filled(*a, database)),
            Box::new(cond_filled(*b, database)),
        ),
        CondView::Or(a, b) => CondView::Or(
            Box::new(cond_filled(*a, database)),
            Box::new(cond_filled(*b, database)),
        ),
        CondView::Not(a) => CondView::Not(Box::new(cond_filled(*a, database))),
        CondView::Segment { view, at } => CondView::Segment {
            view: source_filled(view, database),
            at,
        },
        CondView::InRecords { field, table, filter, at } => CondView::InRecords {
            field,
            table: source_filled(table, database),
            filter: match filter {
                Some(f) => Some(Box::new(cond_filled(*f, database))),
                None => None,
            },
            at,
        },
        _ => c,
    }
}

/// A condition, when there is one, with a database name put where none was written.
pub open spec fn filter_filled(c: Option<CondView>, database: Seq<char>) -> Option<CondView> {
    match c {
        Some(c) => Some(cond_filled(c, database)),
        None => None,
    }
}

/// An entry of a select list with a database name put where none was written.
pub open spec fn item_filled(item: ItemView, database: Seq<char>) -> ItemView {
    ItemView { filter: filter_filled(item.filter, database), ..item }
}

/// A join with a database name put where none was written.
pub open spec fn join_filled(join: JoinView, database: Seq<char>) -> JoinView {
    JoinView { source: source_filled(join.source, database), ..join }
}

/// A `SELECT` with a database name put where none was written.
pub open spec fn select_filled(select: SelectView, database: Seq<char>) -> SelectView {
    SelectView {
        items: Seq::new(select.items.len(), |k: int| item_filled(select.items[k], database)),
        from: source_filled(select.from, database),
        joins: Seq::new(select.joins.len(), |k: int| join_filled(select.joins[k], database)),
        filter: filter_filled(select.filter, database),
        ..select
    }
}

/// An insert with a database name put where none was written, in what it reads too.
pub open spec fn insert_filled(i: InsertView, database: Seq<char>) -> InsertView {
    InsertView {
        database: filled(i.database, database),
        source: match i.source {
            insert::SourceView::Values(rows) => insert::SourceView::Values(rows),
            insert::SourceView::Select(s) => insert::SourceView::Select(
                Box::new(select_filled(*s, database)),
            ),
        },
        ..i
    }
}

/// A statement with a database name put where none was written.
pub open spec fn statement_filled(v: ParsedView, database: Seq<char>) -> ParsedView
    decreases v,
{
    match v {
        ParsedView::Query(q) => ParsedView::Query(
            QueryView {
                branches: Seq::new(
                    q.branches.len(),
                    |k: int| select_filled(q.branches[k], database),
                ),
            },
        ),
        ParsedView::Insert(i) => ParsedView::Insert(insert_filled(i, database)),
        ParsedView::Show(s) => ParsedView::Show(ShowView { what: s.what.filled(database), ..s }),
        ParsedView::Ddl(d) => ParsedView::Ddl(d.filled(database)),
        ParsedView::Delete(d) => ParsedView::Delete(
            ast::DeleteView {
                database: filled(d.database, database),
                filter: cond_filled(d.filter, database),
                ..d
            },
        ),
        ParsedView::Update(u) => ParsedView::Update(
            ast::UpdateView {
                database: filled(u.database, database),
                filter: cond_filled(u.filter, database),
                ..u
            },
        ),
        ParsedView::Kill(id) => ParsedView::Kill(id),
        ParsedView::Acl(a) => ParsedView::Acl(a.filled(database)),
        ParsedView::Explain { mode, inner } => ParsedView::Explain {
            mode,
            inner: Box::new(statement_filled(*inner, database)),
        },
        ParsedView::Settings { settings, inner } => ParsedView::Settings {
            settings,
            inner: Box::new(statement_filled(*inner, database)),
        },
    }
}

/// A statement against a database. A request against the default one is left as it is written:
/// an unqualified name already means that.
pub open spec fn in_database(v: ParsedView, database: Seq<char>) -> ParsedView {
    if database == DEFAULT_DATABASE@ {
        v
    } else {
        statement_filled(v, database)
    }
}

/// Filling in a database keeps a statement regular, and keeps what kind it is.
pub proof fn lemma_filled_wf(v: ParsedView, database: Seq<char>)
    requires
        v.wf(),
    ensures
        statement_filled(v, database).wf(),
        statement_filled(v, database) is Explain <==> v is Explain,
    decreases v,
{
    match v {
        ParsedView::Explain { inner, .. } => lemma_filled_wf(*inner, database),
        ParsedView::Settings { inner, .. } => lemma_filled_wf(*inner, database),
        ParsedView::Query(q) => {
            let r = statement_filled(v, database)->Query_0;
            assert forall|k: int| 0 <= k < r.branches.len() implies (#[trigger] r.branches[k]).wf() by {
                assert(q.branches[k].wf());
            }
        },
        ParsedView::Insert(i) => {
            let r = statement_filled(v, database)->Insert_0;
            match i.source {
                insert::SourceView::Values(rows) => {
                    assert forall|k: int| 0 <= k < rows.len() implies r.row_wf(#[trigger] rows[k]) by {
                        assert(i.row_wf(rows[k]));
                    }
                },
                insert::SourceView::Select(_) => {},
            }
        },
        _ => {},
    }
}

/// Filling in a database leaves what a statement asks for.
pub proof fn lemma_filled_asks(v: ParsedView, database: Seq<char>)
    requires
        v.asks(),
    ensures
        statement_filled(v, database).asks(),
    decreases v,
{
    match v {
        ParsedView::Explain { inner, .. } => lemma_filled_asks(*inner, database),
        ParsedView::Settings { inner, .. } => lemma_filled_asks(*inner, database),
        ParsedView::Query(q) => {
            let r = statement_filled(v, database)->Query_0;
            assert forall|k: int| 0 <= k < r.branches.len() implies (#[trigger] r.branches[k]).asks() by {
                assert(q.branches[k].asks());
            }
        },
        _ => {},
    }
}

/// Whether every table a condition names carries its database.
pub open spec fn cond_named(c: CondView) -> bool
    decreases c,
{
    match c {
        CondView::And(a, b) => cond_named(*a) && cond_named(*b),
        CondView::Or(a, b) => cond_named(*a) && cond_named(*b),
        CondView::Not(a) => cond_named(*a),
        CondView::Segment { view, .. } => view.database is Some,
        CondView::InRecords { table, filter, .. } => table.database is Some && (filter matches Some(
            f,
        ) ==> cond_named(*f)),
        _ => true,
    }
}

/// Whether every table a `SELECT` names carries its database.
pub open spec fn select_named(s: SelectView) -> bool {
    &&& s.from.database is Some
    &&& forall|k: int| 0 <= k < s.joins.len() ==> (#[trigger] s.joins[k]).source.database is Some
    &&& s.filter matches Some(c) ==> cond_named(c)
    &&& forall|k: int|
        0 <= k < s.items.len() ==> ((#[trigger] s.items[k]).filter matches Some(c) ==> cond_named(c))
}

/// Whether every table a query, an insert, a delete or an update names carries its database.
pub open spec fn statement_named(v: ParsedView) -> bool
    decreases v,
{
    match v {
        ParsedView::Query(q) => forall|k: int|
            0 <= k < q.branches.len() ==> select_named(#[trigger] q.branches[k]),
        ParsedView::Insert(i) => i.database is Some && (i.source matches insert::SourceView::Select(s)
            ==> select_named(*s)),
        ParsedView::Delete(d) => d.database is Some && cond_named(d.filter),
        ParsedView::Update(u) => u.database is Some && cond_named(u.filter),
        ParsedView::Explain { inner, .. } => statement_named(*inner),
        ParsedView::Settings { inner, .. } => statement_named(*inner),
        _ => true,
    }
}

proof fn lemma_cond_named(c: CondView, database: Seq<char>)
    ensures
        cond_named(cond_filled(c, database)),
    decreases c,
{
    match c {
        CondView::And(a, b) => {
            lemma_cond_named(*a, database);
            lemma_cond_named(*b, database);
        },
        CondView::Or(a, b) => {
            lemma_cond_named(*a, database);
            lemma_cond_named(*b, database);
        },
        CondView::Not(a) => lemma_cond_named(*a, database),
        CondView::InRecords { filter, .. } => {
            if let Some(f) = filter {
                lemma_cond_named(*f, database);
            }
        },
        _ => {},
    }
}

proof fn lemma_select_named(s: SelectView, database: Seq<char>)
    ensures
        select_named(select_filled(s, database)),
{
    let r = select_filled(s, database);
    if let Some(c) = s.filter {
        lemma_cond_named(c, database);
    }
    assert forall|k: int| 0 <= k < r.items.len() implies ((#[trigger] r.items[k]).filter matches Some(
        c,
    ) ==> cond_named(c)) by {
        if let Some(c) = s.items[k].filter {
            lemma_cond_named(c, database);
        }
    }
}

/// Every table a statement names has a database once one was filled in: those it reads from, those
/// it joins, those an insert takes its rows from, and those its conditions look into.
pub proof fn every_name_is_filled(v: ParsedView, database: Seq<char>)
    ensures
        statement_named(statement_filled(v, database)),
    decreases v,
{
    match v {
        ParsedView::Query(q) => {
            let r = statement_filled(v, database)->Query_0;
            assert forall|k: int| 0 <= k < r.branches.len() implies select_named(
                #[trigger] r.branches[k],
            ) by {
                lemma_select_named(q.branches[k], database);
            }
        },
        ParsedView::Insert(i) => {
            if let insert::SourceView::Select(s) = i.source {
                lemma_select_named(*s, database);
            }
        },
        ParsedView::Delete(d) => lemma_cond_named(d.filter, database),
        ParsedView::Update(u) => lemma_cond_named(u.filter, database),
        ParsedView::Explain { inner, .. } => every_name_is_filled(*inner, database),
        ParsedView::Settings { inner, .. } => every_name_is_filled(*inner, database),
        _ => {},
    }
}

proof fn lemma_cond_stays(c: CondView, database: Seq<char>)
    requires
        cond_named(c),
    ensures
        cond_filled(c, database) == c,
    decreases c,
{
    match c {
        CondView::And(a, b) => {
            lemma_cond_stays(*a, database);
            lemma_cond_stays(*b, database);
        },
        CondView::Or(a, b) => {
            lemma_cond_stays(*a, database);
            lemma_cond_stays(*b, database);
        },
        CondView::Not(a) => lemma_cond_stays(*a, database),
        CondView::InRecords { filter, .. } => {
            if let Some(f) = filter {
                lemma_cond_stays(*f, database);
            }
        },
        _ => {},
    }
}

proof fn lemma_select_stays(s: SelectView, database: Seq<char>)
    requires
        select_named(s),
    ensures
        select_filled(s, database) == s,
{
    let r = select_filled(s, database);
    if let Some(c) = s.filter {
        lemma_cond_stays(c, database);
    }
    assert forall|k: int| 0 <= k < s.items.len() implies #[trigger] r.items[k] == s.items[k] by {
        if let Some(c) = s.items[k].filter {
            lemma_cond_stays(c, database);
        }
    }
    assert(r.items =~= s.items);
    assert(r.joins =~= s.joins);
}

/// A name the statement qualified itself is untouched, and a request against the default
/// database changes nothing at all.
pub proof fn written_databases_stay(v: ParsedView, select: SelectView, database: Seq<char>)
    ensures
        in_database(v, DEFAULT_DATABASE@) == v,
        select_named(select) ==> select_filled(select, database) == select,
        select.from.database is Some ==> select_filled(select, database).from == select.from,
        forall|k: int|
            0 <= k < select.joins.len() && (#[trigger] select.joins[k]).source.database is Some
                ==> select_filled(select, database).joins[k] == select.joins[k],
{
    if select_named(select) {
        lemma_select_stays(select, database);
    }
}

/// Once a database is filled in, filling in another changes nothing.
pub proof fn a_statement_is_filled_once(v: ParsedView, a: Seq<char>, b: Seq<char>)
    ensures
        statement_filled(statement_filled(v, a), b) == statement_filled(v, a),
    decreases v,
{
    every_name_is_filled(v, a);
    match v {
        ParsedView::Explain { inner, .. } => a_statement_is_filled_once(*inner, a, b),
        ParsedView::Settings { inner, .. } => a_statement_is_filled_once(*inner, a, b),
        ParsedView::Query(q) => {
            let x = statement_filled(v, a)->Query_0;
            let y = statement_filled(statement_filled(v, a), b)->Query_0;
            assert forall|k: int| 0 <= k < q.branches.len() implies #[trigger] y.branches[k]
                == x.branches[k] by {
                lemma_select_stays(x.branches[k], b);
            }
            assert(x.branches =~= y.branches);
        },
        ParsedView::Insert(i) => {
            if let insert::SourceView::Select(s) = i.source {
                lemma_select_stays(select_filled(*s, a), b);
            }
        },
        ParsedView::Delete(d) => lemma_cond_stays(cond_filled(d.filter, a), b),
        ParsedView::Update(u) => lemma_cond_stays(cond_filled(u.filter, a), b),
        _ => {},
    }
}

/// Fills in the database every table a condition names did not carry.
fn fill_cond(c: &mut Cond, database: &str)
    ensures
        final(c)@ == cond_filled(old(c)@, database@),
    decreases *old(c),
{
    match c {
        Cond::And(a, b) => {
            fill_cond(&mut **a, database);
            fill_cond(&mut **b, database);
        },
        Cond::Or(a, b) => {
            fill_cond(&mut **a, database);
            fill_cond(&mut **b, database);
        },
        Cond::Not(a) => fill_cond(&mut **a, database),
        Cond::Segment { view, .. } => fill(&mut view.database, database),
        Cond::InRecords { table, filter, .. } => {
            fill(&mut table.database, database);
            if let Some(f) = filter {
                fill_cond(&mut **f, database);
            }
        },
        _ => {},
    }
}

/// Fills in the database every table an entry's `FILTER` names did not carry.
fn fill_item(item: &mut Item, database: &str)
    ensures
        final(item)@ == item_filled(old(item)@, database@),
{
    if let Some(c) = &mut item.filter {
        fill_cond(c, database);
    }
}

/// Fills in the database every entry of a select list did not carry.
fn fill_items(items: &mut Vec<Item>, database: &str)
    ensures
        views(final(items)@) == Seq::new(
            views(old(items)@).len(),
            |k: int| item_filled(views(old(items)@)[k], database@),
        ),
{
    let ghost was = views(items@);
    let mut k: usize = 0;
    while k < items.len()
        invariant
            k <= items@.len(),
            items@.len() == was.len(),
            forall|j: int| 0 <= j < k ==> (#[trigger] items@[j])@ == item_filled(was[j], database@),
            forall|j: int| k <= j < was.len() ==> (#[trigger] items@[j])@ == was[j],
        decreases items.len() - k,
    {
        fill_item(&mut items[k], database);
        k += 1;
    }
    assert(views(items@) =~= Seq::new(was.len(), |k: int| item_filled(was[k], database@)));
}

/// Fills in the database every joined table did not carry.
fn fill_joins(joins: &mut Vec<ast::Join>, database: &str)
    ensures
        views(final(joins)@) == Seq::new(
            views(old(joins)@).len(),
            |k: int| join_filled(views(old(joins)@)[k], database@),
        ),
{
    let ghost was = views(joins@);
    let mut k: usize = 0;
    while k < joins.len()
        invariant
            k <= joins@.len(),
            joins@.len() == was.len(),
            forall|j: int| 0 <= j < k ==> (#[trigger] joins@[j])@ == join_filled(was[j], database@),
            forall|j: int| k <= j < was.len() ==> (#[trigger] joins@[j])@ == was[j],
        decreases joins.len() - k,
    {
        fill(&mut joins[k].source.database, database);
        k += 1;
    }
    assert(views(joins@) =~= Seq::new(was.len(), |k: int| join_filled(was[k], database@)));
}

/// Fills in the database one `SELECT` did not carry.
fn fill_select(select: &mut Select, database: &str)
    ensures
        final(select)@ == select_filled(old(select)@, database@),
{
    fill_items(&mut select.items, database);
    fill(&mut select.from.database, database);
    fill_joins(&mut select.joins, database);
    if let Some(c) = &mut select.filter {
        fill_cond(c, database);
    }
}

/// Fills in the database every branch of a query did not carry.
fn fill_branches(branches: &mut Vec<Select>, database: &str)
    ensures
        views(final(branches)@) == Seq::new(
            views(old(branches)@).len(),
            |k: int| select_filled(views(old(branches)@)[k], database@),
        ),
{
    let ghost was = views(branches@);
    let mut k: usize = 0;
    while k < branches.len()
        invariant
            k <= branches@.len(),
            branches@.len() == was.len(),
            forall|j: int|
                0 <= j < k ==> (#[trigger] branches@[j])@ == select_filled(was[j], database@),
            forall|j: int| k <= j < was.len() ==> (#[trigger] branches@[j])@ == was[j],
        decreases branches.len() - k,
    {
        fill_select(&mut branches[k], database);
        k += 1;
    }
    assert(views(branches@) =~= Seq::new(was.len(), |k: int| select_filled(was[k], database@)));
}

/// Fills in the database an insert did not carry.
fn fill_insert(i: &mut insert::Insert, database: &str)
    ensures
        final(i)@ == insert_filled(old(i)@, database@),
{
    fill(&mut i.database, database);
    match &mut i.source {
        insert::Source::Values(_) => {},
        insert::Source::Select(s) => fill_select(&mut **s, database),
    }
}

/// Fills in the database of every name that carries none.
fn fill_statement(parsed: &mut Parsed, database: &str)
    ensures
        final(parsed)@ == statement_filled(old(parsed)@, database@),
    decreases *old(parsed),
{
    match parsed {
        Parsed::Query(q) => fill_branches(&mut q.branches, database),
        Parsed::Insert(i) => fill_insert(i, database),
        Parsed::Show(s) => s.what.fill_database(database),
        Parsed::Ddl(d) => d.fill_database(database),
        Parsed::Delete(d) => {
            fill(&mut d.database, database);
            fill_cond(&mut d.filter, database);
        },
        Parsed::Update(u) => {
            fill(&mut u.database, database);
            fill_cond(&mut u.filter, database);
        },
        Parsed::Kill(_) => {},
        Parsed::Acl(a) => a.fill_database(database),
        Parsed::Explain { inner, .. } => fill_statement(&mut **inner, database),
        Parsed::Settings { inner, .. } => fill_statement(&mut **inner, database),
    }
}

/// Fills in the database every name in a parse tree did not carry.
pub fn qualify(parsed: &mut Parsed, database: &str)
    ensures
        final(parsed)@ == in_database(old(parsed)@, database@),
{
    if same(database, DEFAULT_DATABASE) {
        return;
    }
    fill_statement(parsed, database);
}

} // verus!
