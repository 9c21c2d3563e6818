//! One statement, translated, and what it demands of whoever sends it.

use vstd::prelude::*;
use crate::acl::{Acl, AclView};
use crate::ast::{self, Cond, CondView, ExplainMode, Item, ItemView, JoinView, QueryView, Select, SelectView, SourceView};
use crate::ddl::{Ddl, DdlView};
use crate::delete::{Delete, DeleteView};
use crate::error::{Refused, Result, SqlError, SqlErrorView};
use crate::insert::{self, Insert, InsertView};
use crate::lower::calls::{named_in, tables_are_those_asked, texts, Statement, StatementView};
use crate::lower::asked::{a_filter_is_read, a_query_asks_what_its_branches_ask, a_read_is_a_read, a_select_asks_of_its_tables, asks_anything, filter_looks_into, looks_into, select_looks_into};
use crate::lower::delete::{lowered_delete, lowered_update, segment, segment_in};
use crate::lower::measure::{start, start_of};
use crate::lower::query::{lower, lowered, lowered_one};
use crate::lower::laws::{a_shape_names_what_is_asked, sound};
use crate::parse::cursor::{refusal, seen};
use crate::parse::laws::a_statement_is_regular;
use crate::parse::statement::{parse_at, said, unix_now, Parsed, ParsedView};
use crate::qualify::{in_database, lemma_filled_asks, lemma_filled_wf, qualify};
use crate::rbac::{Demand, DemandView, ObjectRef, ObjectView, Privilege};
use crate::settings::Settings;
use crate::show::{Show, ShowView, Shown, ShownView};
use crate::text::{bytes, filled, opt_text, same, views};
use crate::update::{Update, UpdateView};
use crate::DEFAULT_DATABASE;

verus! {

/// One statement, translated.
#[derive(PartialEq, Eq, Debug)]
pub enum Sql {
    /// Calls a planner resolves and a coordinator fans out.
    Query(Statement),
    /// Literals for the layer that holds a schema to turn into facts.
    Insert(Insert),
    /// A question the catalog already holds the answer to.
    Show(Show),
    /// A change decided at one node and applied everywhere.
    Ddl(Ddl),
    /// A change to who may do what.
    Acl(Acl),
    /// The records a condition selects, cleared from every field.
    Delete(Delete),
    /// A new fact written where an old one was.
    Update(Update),
    /// One running query, named and stopped.
    Kill(String),
    /// What the statement inside would do, having done none of it.
    Explain { mode: ExplainMode, inner: Box<Sql> },
    /// The statement inside, with what it may spend.
    Settings { settings: Settings, inner: Box<Sql> },
}

/// What a [`Sql`] holds.
#[verifier::ext_equal]
pub enum SqlView {
    Query(StatementView),
    Insert(InsertView),
    Show(ShowView),
    Ddl(DdlView),
    Acl(AclView),
    Delete(DeleteView),
    Update(UpdateView),
    Kill(Seq<char>),
    Explain { mode: ExplainMode, inner: Box<SqlView> },
    Settings { settings: Settings, inner: Box<SqlView> },
}

impl View for Sql {
    type V = SqlView;

    open spec fn view(&self) -> SqlView
        decreases self,
    {
        match *self {
            Sql::Query(a) => SqlView::Query(a@),
            Sql::Insert(a) => SqlView::Insert(a@),
            Sql::Show(a) => SqlView::Show(a@),
            Sql::Ddl(a) => SqlView::Ddl(a@),
            Sql::Acl(a) => SqlView::Acl(a@),
            Sql::Delete(a) => SqlView::Delete(a@),
            Sql::Update(a) => SqlView::Update(a@),
            Sql::Kill(a) => SqlView::Kill(a@),
            Sql::Explain { mode, inner } => SqlView::Explain { mode, inner: Box::new((*inner)@) },
            Sql::Settings { settings, inner } => SqlView::Settings {
                settings,
                inner: Box::new((*inner)@),
            },
        }
    }
}

impl Clone for Sql {
    fn clone(&self) -> (r: Sql)
        ensures
            r@ == self@,
        decreases self,
    {
        match self {
            Sql::Query(a) => Sql::Query(a.clone()),
            Sql::Insert(a) => Sql::Insert(a.clone()),
            Sql::Show(a) => Sql::Show(a.clone()),
            Sql::Ddl(a) => Sql::Ddl(a.clone()),
            Sql::Acl(a) => Sql::Acl(a.clone()),
            Sql::Delete(a) => Sql::Delete(a.clone()),
            Sql::Update(a) => Sql::Update(a.clone()),
            Sql::Kill(a) => Sql::Kill(a.clone()),
            Sql::Explain { mode, inner } => Sql::Explain {
                mode: *mode,
                inner: Box::new((**inner).clone()),
            },
            Sql::Settings { settings, inner } => Sql::Settings {
                settings: *settings,
                inner: Box::new((**inner).clone()),
            },
        }
    }
}

/// A privilege on an object.
pub open spec fn need(privilege: Privilege, on: ObjectView) -> DemandView {
    DemandView { privilege, on }
}

/// Where the first dot of a name is, from a position on.
pub open spec fn dot_at(s: Seq<char>, k: int) -> Option<int>
    decreases s.len() - k,
{
    if k < 0 || k >= s.len() {
        None
    } else if s[k] == '.' {
        Some(k)
    } else {
        dot_at(s, k + 1)
    }
}

/// The table a `db.table` or a bare `table` names.
pub open spec fn table_named(name: Seq<char>) -> ObjectView {
    match dot_at(name, 0) {
        Some(k) => ObjectView::Table {
            database: name.subrange(0, k),
            table: name.subrange(k + 1, name.len() as int),
        },
        None => ObjectView::Table { database: DEFAULT_DATABASE@, table: name },
    }
}

/// A table whose database may not have been written.
pub open spec fn table_in(database: Option<Seq<char>>, table: Seq<char>) -> ObjectView {
    ObjectView::Table { database: filled(database, DEFAULT_DATABASE@)->0, table }
}

/// A database that may not have been written.
pub open spec fn whole_database(database: Option<Seq<char>>) -> ObjectView {
    ObjectView::Database(filled(database, DEFAULT_DATABASE@)->0)
}

/// A read of each of some tables.
pub open spec fn reading(tables: Seq<Seq<char>>) -> Seq<DemandView> {
    Seq::new(tables.len(), |k: int| need(Privilege::Select, table_named(tables[k])))
}

/// What a schema change demands.
pub open spec fn ddl_demand(ddl: DdlView) -> DemandView {
    match ddl {
        DdlView::CreateDatabase { .. } => need(Privilege::Create, ObjectView::Server),
        DdlView::DropDatabase { .. } => need(Privilege::Drop, ObjectView::Server),
        DdlView::CreateTable { database, .. } => need(
            Privilege::Create,
            whole_database(database),
        ),
        DdlView::CreateView { database, .. } => need(Privilege::Create, whole_database(database)),
        DdlView::AlterTable { database, table, .. } => need(
            Privilege::Alter,
            table_in(database, table),
        ),
        DdlView::DropTable { database, table, .. } => need(
            Privilege::Drop,
            table_in(database, table),
        ),
        DdlView::TruncateTable { database, table, .. } => need(
            Privilege::Drop,
            table_in(database, table),
        ),
        DdlView::DropView { database, name, .. } => need(
            Privilege::Drop,
            table_in(database, name),
        ),
    }
}

/// What a question about the catalog demands. A listing demands nothing.
pub open spec fn show_demands(what: ShownView) -> Seq<DemandView> {
    match what {
        ShownView::Columns { database, table } => seq![
            need(Privilege::Select, table_in(database, table)),
        ],
        ShownView::Create { database, table, .. } => seq![
            need(Privilege::Select, table_in(database, table)),
        ],
        ShownView::Grants { role: Some(_) } => seq![need(Privilege::Roles, ObjectView::Server)],
        ShownView::Roles => seq![need(Privilege::Roles, ObjectView::Server)],
        ShownView::Processlist => seq![need(Privilege::Operate, ObjectView::Server)],
        _ => Seq::empty(),
    }
}

/// What a source of an insert demands.
pub open spec fn source_demand(source: SourceView) -> DemandView {
    need(Privilege::Select, table_in(source.database, source.table))
}

/// What a condition demands: a read of every table it looks into.
pub open spec fn cond_demands(c: CondView) -> Seq<DemandView>
    decreases c,
{
    match c {
        CondView::And(a, b) => cond_demands(*a) + cond_demands(*b),
        CondView::Or(a, b) => cond_demands(*a) + cond_demands(*b),
        CondView::Not(a) => cond_demands(*a),
        CondView::InRecords { table, filter, .. } => seq![source_demand(table)] + match filter {
            Some(f) => cond_demands(*f),
            None => Seq::empty(),
        },
        _ => Seq::empty(),
    }
}

/// What a condition demands, when there is one.
pub open spec fn filter_demands(c: Option<CondView>) -> Seq<DemandView> {
    match c {
        Some(c) => cond_demands(c),
        None => Seq::empty(),
    }
}

/// What the `FILTER`s of the first `n` entries of a select list demand.
pub open spec fn items_demands(items: Seq<ItemView>, n: int) -> Seq<DemandView>
    decreases n,
{
    if n <= 0 {
        Seq::empty()
    } else {
        items_demands(items, n - 1) + filter_demands(items[n - 1].filter)
    }
}

/// What an insert demands: a write, and a read of every table its values come from or its
/// conditions look into.
pub open spec fn insert_demands(insert: InsertView) -> Seq<DemandView> {
    seq![need(Privilege::Insert, table_in(insert.database, insert.table))]
        + match insert.source {
        insert::SourceView::Values(_) => Seq::empty(),
        insert::SourceView::Select(select) => seq![source_demand(select.from)] + Seq::new(
            select.joins.len(),
            |k: int| source_demand(select.joins[k].source),
        ) + filter_demands(select.filter) + items_demands(select.items, select.items.len() as int),
    }
}

/// Whether a source is the table an insert writes, whichever way each was qualified.
pub open spec fn is_target(insert: InsertView, source: SourceView) -> bool {
    table_in(source.database, source.table) == table_in(insert.database, insert.table)
}

/// Where the table an insert writes is joined in, from a join on.
pub open spec fn target_joined(insert: InsertView, joins: Seq<JoinView>, k: int) -> Option<usize>
    decreases joins.len() - k,
{
    if k < 0 || k >= joins.len() {
        None
    } else if is_target(insert, joins[k].source) {
        Some(joins[k].at)
    } else {
        target_joined(insert, joins, k + 1)
    }
}

/// Where an insert takes its values from the table it writes, if it does.
pub open spec fn self_read(insert: InsertView) -> Option<usize> {
    match insert.source {
        insert::SourceView::Values(_) => None,
        insert::SourceView::Select(select) => if is_target(insert, select.from) {
            Some(start_of(select.items))
        } else {
            target_joined(insert, select.joins, 0)
        },
    }
}

/// Everything a statement demands, in order. What a statement is wrapped in demands nothing of
/// its own.
pub open spec fn demanded(sql: SqlView) -> Seq<DemandView>
    decreases sql,
{
    match sql {
        SqlView::Query(statement) => reading(statement.tables()),
        SqlView::Insert(insert) => insert_demands(insert),
        SqlView::Show(show) => show_demands(show.what),
        SqlView::Ddl(ddl) => seq![ddl_demand(ddl)],
        SqlView::Kill(_) => seq![need(Privilege::Operate, ObjectView::Server)],
        SqlView::Update(update) => {
            let on = table_in(update.database, update.table);
            seq![need(Privilege::Insert, on), need(Privilege::Delete, on)] + reading(update.reads)
        },
        SqlView::Delete(delete) => seq![
            need(Privilege::Delete, table_in(delete.database, delete.table)),
        ] + reading(delete.reads),
        SqlView::Acl(_) => seq![need(Privilege::Roles, ObjectView::Server)],
        SqlView::Explain { inner, .. } => demanded(*inner),
        SqlView::Settings { inner, .. } => demanded(*inner),
    }
}

/// A list with the first of everything in it, in order, and nothing twice.
pub open spec fn without_repeats(s: Seq<DemandView>) -> Seq<DemandView>
    decreases s.len(),
{
    if s.len() == 0 {
        s
    } else {
        let before = without_repeats(s.drop_last());
        if s.drop_last().contains(s.last()) {
            before
        } else {
            before.push(s.last())
        }
    }
}

/// What a statement is wrapped in changes nothing of what it demands.
pub proof fn a_wrapper_demands_what_it_wraps(
    inner: SqlView,
    mode: ExplainMode,
    settings: Settings,
)
    ensures
        demanded(SqlView::Explain { mode, inner: Box::new(inner) }) == demanded(inner),
        demanded(SqlView::Settings { settings, inner: Box::new(inner) }) == demanded(inner),
{
}

proof fn lemma_without_repeats(s: Seq<DemandView>)
    ensures
        forall|d: DemandView| #[trigger] s.contains(d) <==> without_repeats(s).contains(d),
        without_repeats(s).no_duplicates(),
    decreases s.len(),
{
    if s.len() > 0 {
        let init = s.drop_last();
        lemma_without_repeats(init);
        let before = without_repeats(init);
        let now = without_repeats(s);
        assert forall|d: DemandView| #[trigger] s.contains(d) <==> now.contains(d) by {
            if s.contains(d) {
                let k = choose|k: int| 0 <= k < s.len() && s[k] == d;
                if init.contains(d) {
                    let j = choose|j: int| 0 <= j < before.len() && before[j] == d;
                    assert(now[j] == d);
                } else {
                    if k < s.len() - 1 {
                        assert(init[k] == d);
                    }
                    assert(now[before.len() as int] == d);
                }
            }
            if now.contains(d) {
                let k = choose|k: int| 0 <= k < now.len() && now[k] == d;
                if k < before.len() {
                    assert(before.contains(before[k]));
                    assert(init.contains(d));
                    let j = choose|j: int| 0 <= j < init.len() && init[j] == d;
                    assert(s[j] == d);
                } else {
                    assert(s[s.len() - 1] == d);
                }
            }
        }
        assert forall|i: int, j: int| 0 <= i < now.len() && 0 <= j < now.len() && i != j implies now[i]
            != now[j] by {
            if now.len() > before.len() {
                assert(!before.contains(s.last()));
                if i < before.len() {
                    assert(before.contains(before[i]));
                }
                if j < before.len() {
                    assert(before.contains(before[j]));
                }
            }
        }
    } else {
        assert(without_repeats(s) =~= s);
    }
}

/// The same thing demanded twice is one demand: leaving out repeats loses none and makes up none,
/// and none is left twice.
pub proof fn no_demand_is_lost(sql: SqlView)
    ensures
        demanded(sql).to_set() == without_repeats(demanded(sql)).to_set(),
        without_repeats(demanded(sql)).no_duplicates(),
{
    let s = demanded(sql);
    lemma_without_repeats(s);
    let t = without_repeats(s);
    assert forall|d: DemandView| s.to_set().contains(d) <==> t.to_set().contains(d) by {
        assert(s.contains(d) <==> t.contains(d));
    }
    assert(s.to_set() =~= t.to_set());
}

/// Whether some demands hold one.
fn holds_demand(all: &Vec<Demand<'_>>, d: Demand<'_>) -> (r: bool)
    ensures
        r == views(all@).contains(d@),
{
    let mut k: usize = 0;
    while k < all.len()
        invariant
            k <= all@.len(),
            forall|j: int| 0 <= j < k ==> #[trigger] views(all@)[j] != d@,
        decreases all.len() - k,
    {
        if all[k].is(d) {
            assert(views(all@)[k as int] == d@);
            return true;
        }
        k += 1;
    }
    false
}

/// The table a `db.table` or a bare `table` names.
fn object_of(qualified: &str) -> (r: ObjectRef<'_>)
    ensures
        r@ == table_named(qualified@),
{
    let n = qualified.unicode_len();
    let mut k: usize = 0;
    while k < n
        invariant
            n == qualified@.len(),
            k <= n,
            dot_at(qualified@, 0) == dot_at(qualified@, k as int),
        decreases n - k,
    {
        if qualified.get_char(k) == '.' {
            return ObjectRef::Table {
                database: qualified.substring_char(0, k),
                table: qualified.substring_char(k + 1, n),
            };
        }
        k += 1;
    }
    ObjectRef::Table { database: DEFAULT_DATABASE, table: qualified }
}

/// A database name, or the default one.
fn or_default<'a>(database: &'a Option<String>) -> (r: &'a str)
    ensures
        r@ == filled(opt_text(*database), DEFAULT_DATABASE@)->0,
{
    match database {
        Some(d) => d.as_str(),
        None => DEFAULT_DATABASE,
    }
}

/// A table whose database may not have been filled in.
fn table_ref<'a>(database: &'a Option<String>, table: &'a str) -> (r: ObjectRef<'a>)
    ensures
        r@ == table_in(opt_text(*database), table@),
{
    ObjectRef::Table { database: or_default(database), table }
}

/// A whole database, whose name may not have been filled in.
fn database_ref<'a>(database: &'a Option<String>) -> (r: ObjectRef<'a>)
    ensures
        r@ == whole_database(opt_text(*database)),
{
    ObjectRef::Database(or_default(database))
}

/// Whether a source is the table an insert writes.
fn targets(insert: &Insert, source: &ast::Source) -> (r: bool)
    ensures
        r == is_target(insert@, source@),
{
    same(source.table.as_str(), insert.table.as_str()) && same(
        or_default(&source.database),
        or_default(&insert.database),
    )
}

/// Where an insert takes its values from the table it writes, if it does.
fn find_self_read(insert: &Insert) -> (r: Option<usize>)
    ensures
        r == self_read(insert@),
{
    let select = match &insert.source {
        insert::Source::Values(_) => {
            return None;
        },
        insert::Source::Select(select) => select,
    };
    if targets(insert, &select.from) {
        return Some(start(&select.items));
    }
    let ghost joins = views(select.joins@);
    let mut k: usize = 0;
    while k < select.joins.len()
        invariant
            k <= select.joins@.len(),
            joins == views(select.joins@),
            self_read(insert@) == target_joined(insert@, joins, k as int),
        decreases select.joins.len() - k,
    {
        assert(joins[k as int] == select.joins@[k as int]@);
        if targets(insert, &select.joins[k].source) {
            return Some(select.joins[k].at);
        }
        k += 1;
    }
    None
}

/// The object a schema change is about, and the privilege it needs over it.
fn ddl_need(ddl: &Ddl) -> (r: Demand<'_>)
    ensures
        r@ == ddl_demand(ddl@),
{
    match ddl {
        Ddl::CreateDatabase { .. } => Demand::server(Privilege::Create),
        Ddl::DropDatabase { .. } => Demand::server(Privilege::Drop),
        Ddl::CreateTable { database, .. } => Demand::new(
            Privilege::Create,
            database_ref(database),
        ),
        Ddl::CreateView { database, .. } => Demand::new(Privilege::Create, database_ref(database)),
        Ddl::AlterTable { database, table, .. } => Demand::new(
            Privilege::Alter,
            table_ref(database, table.as_str()),
        ),
        Ddl::DropTable { database, table, .. } => Demand::new(
            Privilege::Drop,
            table_ref(database, table.as_str()),
        ),
        Ddl::TruncateTable { database, table, .. } => Demand::new(
            Privilege::Drop,
            table_ref(database, table.as_str()),
        ),
        Ddl::DropView { database, name, .. } => Demand::new(
            Privilege::Drop,
            table_ref(database, name.as_str()),
        ),
    }
}

/// A read of each of some tables.
fn read_all<'a>(tables: &'a Vec<String>, out: &mut Vec<Demand<'a>>)
    ensures
        views(final(out)@) == views(old(out)@) + reading(views(tables@)),
{
    let ghost was = views(out@);
    let mut k: usize = 0;
    assert(was + reading(views(tables@)).take(0) =~= was);
    while k < tables.len()
        invariant
            k <= tables@.len(),
            views(out@) == was + reading(views(tables@)).take(k as int),
        decreases tables.len() - k,
    {
        let ghost before = views(out@);
        let d = Demand::new(Privilege::Select, object_of(tables[k].as_str()));
        out.push(d);
        assert(views(out@) =~= before.push(d@));
        k += 1;
        assert(views(out@) =~= was + reading(views(tables@)).take(k as int));
    }
    assert(reading(views(tables@)).take(k as int) =~= reading(views(tables@)));
}

/// What a query demands.
fn query_needs<'a>(statement: &'a Statement, out: &mut Vec<Demand<'a>>)
    ensures
        views(final(out)@) == views(old(out)@) + reading(statement@.tables()),
{
    let tables = statement.tables();
    let ghost was = views(out@);
    let ghost all = reading(statement@.tables());
    let mut k: usize = 0;
    assert(was + all.take(0) =~= was);
    while k < tables.len()
        invariant
            k <= tables@.len(),
            texts(tables@) == statement@.tables(),
            all == reading(statement@.tables()),
            views(out@) == was + all.take(k as int),
        decreases tables.len() - k,
    {
        let ghost before = views(out@);
        assert(texts(tables@)[k as int] == tables@[k as int]@);
        let d = Demand::new(Privilege::Select, object_of(tables[k]));
        out.push(d);
        assert(views(out@) =~= before.push(d@));
        k += 1;
        assert(views(out@) =~= was + all.take(k as int));
    }
    assert(all.take(k as int) =~= all);
}

/// What a condition demands.
fn cond_needs<'a>(c: &'a Cond, out: &mut Vec<Demand<'a>>)
    ensures
        views(final(out)@) == views(old(out)@) + cond_demands(c@),
    decreases c,
{
    let ghost was = views(out@);
    match c {
        Cond::And(a, b) => {
            cond_needs(&**a, out);
            cond_needs(&**b, out);
        },
        Cond::Or(a, b) => {
            cond_needs(&**a, out);
            cond_needs(&**b, out);
        },
        Cond::Not(a) => cond_needs(&**a, out),
        Cond::InRecords { table, filter, .. } => {
            let d = Demand::new(
                Privilege::Select,
                table_ref(&table.database, table.table.as_str()),
            );
            out.push(d);
            assert(views(out@) =~= was.push(d@));
            if let Some(f) = filter {
                cond_needs(&**f, out);
            }
        },
        _ => {},
    }
    assert(views(out@) =~= was + cond_demands(c@));
}

/// What the `FILTER`s of a select list demand.
fn items_needs<'a>(items: &'a Vec<Item>, out: &mut Vec<Demand<'a>>)
    ensures
        views(final(out)@) == views(old(out)@) + items_demands(views(items@), items@.len() as int),
{
    let ghost was = views(out@);
    let mut k: usize = 0;
    assert(was + items_demands(views(items@), 0) =~= was);
    while k < items.len()
        invariant
            k <= items@.len(),
            views(out@) == was + items_demands(views(items@), k as int),
        decreases items.len() - k,
    {
        let ghost before = views(out@);
        assert(views(items@)[k as int] == items@[k as int]@);
        if let Some(c) = &items[k].filter {
            cond_needs(c, out);
        }
        k += 1;
        assert(views(out@) =~= was + items_demands(views(items@), k as int));
    }
}

/// What an insert demands.
fn insert_needs<'a>(insert: &'a Insert, out: &mut Vec<Demand<'a>>)
    ensures
        views(final(out)@) == views(old(out)@) + insert_demands(insert@),
{
    let ghost was = views(out@);
    let write = Demand::new(
        Privilege::Insert,
        table_ref(&insert.database, insert.table.as_str()),
    );
    out.push(write);
    assert(views(out@) =~= was.push(write@));
    if let insert::Source::Select(select) = &insert.source {
        let read = Demand::new(
            Privilege::Select,
            table_ref(&select.from.database, select.from.table.as_str()),
        );
        out.push(read);
        let ghost first = was.push(write@).push(read@);
        assert(views(out@) =~= first);
        let ghost all = Seq::new(
            select@.joins.len(),
            |k: int| source_demand(select@.joins[k].source),
        );
        let mut k: usize = 0;
        assert(first + all.take(0) =~= first);
        while k < select.joins.len()
            invariant
                k <= select.joins@.len(),
                all == Seq::new(
                    select@.joins.len(),
                    |k: int| source_demand(select@.joins[k].source),
                ),
                views(out@) == first + all.take(k as int),
            decreases select.joins.len() - k,
        {
            let ghost before = views(out@);
            assert(select@.joins[k as int] == select.joins@[k as int]@);
            let source = &select.joins[k].source;
            let d = Demand::new(
                Privilege::Select,
                table_ref(&source.database, source.table.as_str()),
            );
            out.push(d);
            assert(views(out@) =~= before.push(d@));
            k += 1;
            assert(views(out@) =~= first + all.take(k as int));
        }
        assert(all.take(k as int) =~= all);
        if let Some(c) = &select.filter {
            cond_needs(c, out);
        }
        assert(views(out@) =~= first + all + filter_demands(select@.filter));
        items_needs(&select.items, out);
        assert(views(out@) =~= was + insert_demands(insert@));
    } else {
        assert(views(out@) =~= was + insert_demands(insert@));
    }
}

impl Sql {
    /// Every privilege this statement needs, on every object it needs one for, and none twice.
    /// All of them have to be held.
    pub fn demands(&self) -> (r: Vec<Demand<'_>>)
        ensures
            views(r@) == without_repeats(demanded(self@)),
            views(r@).no_duplicates(),
            views(r@).to_set() == demanded(self@).to_set(),
    {
        let mut all: Vec<Demand> = Vec::new();
        assert(views(all@) =~= Seq::<DemandView>::empty());
        self.collect_demands(&mut all);
        let ghost s = demanded(self@);
        assert(views(all@) =~= s);
        let mut out: Vec<Demand> = Vec::new();
        let mut k: usize = 0;
        assert(s.take(0) =~= Seq::<DemandView>::empty());
        assert(views(out@) =~= Seq::<DemandView>::empty());
        while k < all.len()
            invariant
                k <= all@.len(),
                views(all@) == s,
                views(out@) == without_repeats(s.take(k as int)),
            decreases all.len() - k,
        {
            let ghost before = views(out@);
            let d = all[k];
            proof {
                assert(s[k as int] == d@);
                assert(s.take(k + 1).drop_last() =~= s.take(k as int));
                lemma_without_repeats(s.take(k as int));
                assert(s.take(k as int).contains(d@) <==> before.contains(d@));
            }
            if !holds_demand(&out, d) {
                out.push(d);
                assert(views(out@) =~= before.push(d@));
            }
            k += 1;
        }
        assert(s.take(k as int) =~= s);
        proof {
            no_demand_is_lost(self@);
        }
        out
    }

    fn collect_demands<'a>(&'a self, out: &mut Vec<Demand<'a>>)
        ensures
            views(final(out)@) == views(old(out)@) + demanded(self@),
        decreases self,
    {
        let ghost was = views(out@);
        match self {
            Sql::Query(statement) => query_needs(statement, out),
            Sql::Insert(insert) => insert_needs(insert, out),
            Sql::Show(show) => match &show.what {
                Shown::Columns { database, table } => out.push(
                    Demand::new(Privilege::Select, table_ref(database, table.as_str())),
                ),
                Shown::Create { database, table, .. } => out.push(
                    Demand::new(Privilege::Select, table_ref(database, table.as_str())),
                ),
                Shown::Grants { role: Some(_) } => out.push(Demand::server(Privilege::Roles)),
                Shown::Roles => out.push(Demand::server(Privilege::Roles)),
                Shown::Processlist => out.push(Demand::server(Privilege::Operate)),
                _ => {},
            },
            Sql::Ddl(ddl) => out.push(ddl_need(ddl)),
            Sql::Kill(_) => out.push(Demand::server(Privilege::Operate)),
            Sql::Update(update) => {
                let on = table_ref(&update.database, update.table.as_str());
                out.push(Demand::new(Privilege::Insert, on));
                out.push(Demand::new(Privilege::Delete, on));
                read_all(&update.reads, out);
            },
            Sql::Delete(delete) => {
                out.push(
                    Demand::new(
                        Privilege::Delete,
                        table_ref(&delete.database, delete.table.as_str()),
                    ),
                );
                read_all(&delete.reads, out);
            },
            Sql::Acl(_) => out.push(Demand::server(Privilege::Roles)),
            Sql::Explain { inner, .. } => (**inner).collect_demands(out),
            Sql::Settings { inner, .. } => (**inner).collect_demands(out),
        }
        assert(views(out@) =~= was + demanded(self@));
    }
}

/// A limit on what a delete may clear is only ever on a delete.
pub proof fn a_delete_limit_is_on_a_delete(v: ParsedView)
    ensures
        finished(v) matches Ok(SqlView::Settings { settings, inner }) ==> settings.max_delete_records is Some
            ==> *inner is Delete,
{
}

/// A statement whose names are already whatever they are going to be, translated. Only a query,
/// a delete and an update have anything to be turned into, and each is refused while a segment is
/// still written out in it. A limit on a delete is refused on anything else.
pub open spec fn finished(v: ParsedView) -> core::result::Result<SqlView, SqlErrorView>
    decreases v,
{
    match v {
        ParsedView::Query(q) => match lowered(q) {
            Ok(s) => Ok(SqlView::Query(s)),
            Err(x) => Err(x),
        },
        ParsedView::Insert(i) => match self_read(i) {
            Some(at) => Err(refusal(Refused::InsertSelfRead, at)),
            None => Ok(SqlView::Insert(i)),
        },
        ParsedView::Show(s) => Ok(SqlView::Show(s)),
        ParsedView::Ddl(d) => Ok(SqlView::Ddl(d)),
        ParsedView::Delete(d) => match segment_in(d.filter) {
            Some(at) => Err(refusal(Refused::Segment, at)),
            None => Ok(SqlView::Delete(lowered_delete(d))),
        },
        ParsedView::Update(u) => match segment_in(u.filter) {
            Some(at) => Err(refusal(Refused::Segment, at)),
            None => Ok(SqlView::Update(lowered_update(u))),
        },
        ParsedView::Kill(id) => Ok(SqlView::Kill(id)),
        ParsedView::Acl(a) => Ok(SqlView::Acl(a)),
        ParsedView::Explain { mode, inner } => match finished(*inner) {
            Ok(s) => Ok(SqlView::Explain { mode, inner: Box::new(s) }),
            Err(x) => Err(x),
        },
        ParsedView::Settings { settings, inner } => match finished(*inner) {
            Err(x) => Err(x),
            Ok(s) => if settings.max_delete_records is Some && !(s is Delete) {
                Err(refusal(Refused::Setting, 0))
            } else {
                Ok(SqlView::Settings { settings, inner: Box::new(s) })
            },
        },
    }
}

/// Lowers a parse tree whose names are already whatever they are going to be. An insert is held
/// against the tables it reads here, where both are known by the tables they mean.
pub fn finish(parsed: Parsed) -> (r: Result<Sql>)
    requires
        parsed@.wf(),
    ensures
        seen(r) == finished(parsed@),
    decreases parsed,
{
    match parsed {
        Parsed::Query(q) => Ok(Sql::Query(lower(&q)?)),
        Parsed::Insert(i) => match find_self_read(&i) {
            Some(at) => Err(SqlError::Refused { what: Refused::InsertSelfRead, at }),
            None => Ok(Sql::Insert(i)),
        },
        Parsed::Show(s) => Ok(Sql::Show(s)),
        Parsed::Ddl(d) => Ok(Sql::Ddl(d)),
        Parsed::Delete(d) => match segment(&d.filter) {
            Some(at) => Err(SqlError::Refused { what: Refused::Segment, at }),
            None => Ok(Sql::Delete(crate::lower::delete::lower(&d))),
        },
        Parsed::Update(u) => match segment(&u.filter) {
            Some(at) => Err(SqlError::Refused { what: Refused::Segment, at }),
            None => Ok(Sql::Update(crate::lower::delete::update(&u))),
        },
        Parsed::Kill(id) => Ok(Sql::Kill(id)),
        Parsed::Acl(a) => Ok(Sql::Acl(a)),
        Parsed::Explain { mode, inner } => {
            let inner = finish(*inner)?;
            Ok(Sql::Explain { mode, inner: Box::new(inner) })
        },
        Parsed::Settings { settings, inner } => {
            let inner = finish(*inner)?;
            let deletes = match &inner {
                Sql::Delete(_) => true,
                _ => false,
            };
            if settings.max_delete_records.is_some() && !deletes {
                return Err(SqlError::Refused { what: Refused::Setting, at: 0 });
            }
            Ok(Sql::Settings { settings, inner: Box::new(inner) })
        },
    }
}

/// What a text means, against a database and at an instant.
pub open spec fn translated(text: Seq<char>, database: Seq<char>, now: i64) -> core::result::Result<
    SqlView,
    SqlErrorView,
> {
    match said(text, now) {
        Err(x) => Err(x),
        Ok(v) => finished(in_database(v, database)),
    }
}

/// Parses one statement and translates it, against the database an unqualified name means and as
/// of an instant in seconds since the epoch.
pub fn translate_at(text: &str, database: &str, now: i64) -> (r: Result<Sql>)
    ensures
        seen(r) == translated(text@, database@, now),
{
    let length = text.as_bytes().len();
    let mut parsed = parse_at(text, now)?;
    proof {
        assert(bytes(text@).len() == length);
        a_statement_is_regular(text@, now);
        lemma_filled_wf(parsed@, database@);
    }
    qualify(&mut parsed, database);
    finish(parsed)
}

/// The same, as of now.
pub fn translate_in(text: &str, database: &str) -> (r: Result<Sql>)
    ensures
        exists|now: i64| seen(r) == translated(text@, database@, now),
{
    let now = unix_now();
    translate_at(text, database, now)
}

/// Parses one statement and translates it, against the default database.
pub fn translate(text: &str) -> (r: Result<Sql>)
    ensures
        exists|now: i64| seen(r) == translated(text@, DEFAULT_DATABASE@, now),
{
    translate_in(text, DEFAULT_DATABASE)
}

impl SqlView {
    /// Whether every answer in a statement is one its calls and searches give: no more calls than
    /// a statement may make, as many as it says, and a shape that names only what is there.
    pub open spec fn answers(self) -> bool
        decreases self,
    {
        match self {
            SqlView::Query(s) => s.probes.len() <= usize::MAX ==> sound(s) && s.answer.calls
                == s.calls.len(),
            SqlView::Explain { inner, .. } => inner.answers(),
            SqlView::Settings { inner, .. } => inner.answers(),
            _ => true,
        }
    }
}

proof fn lemma_answers(v: ParsedView)
    requires
        v.asks(),
    ensures
        finished(v) matches Ok(s) ==> s.answers(),
    decreases v,
{
    match v {
        ParsedView::Query(q) => a_shape_names_what_is_asked(q),
        ParsedView::Explain { inner, .. } => lemma_answers(*inner),
        ParsedView::Settings { inner, .. } => lemma_answers(*inner),
        _ => {},
    }
}

/// Whatever text is translated, its answer names only plans and searches that the statement asks
/// for.
pub proof fn a_translation_answers_from_what_it_asks(
    text: Seq<char>,
    database: Seq<char>,
    now: i64,
)
    requires
        bytes(text).len() <= usize::MAX,
    ensures
        translated(text, database, now) matches Ok(v) ==> v.answers(),
{
    a_statement_is_regular(text, now);
    match said(text, now) {
        Ok(v) => {
            lemma_filled_asks(v, database);
            lemma_answers(in_database(v, database));
        },
        Err(_) => {},
    }
}

/// A delete and an update clear and write exactly the records that a `SELECT` with the same
/// condition reads.
pub proof fn a_delete_selects_as_a_select_does(
    delete: ast::DeleteView,
    update: ast::UpdateView,
    select: SelectView,
)
    requires
        select.filter == Some(delete.filter),
        update.filter == delete.filter,
    ensures
        crate::pql::ExprView::Call(lowered_delete(delete).rows) == select.rows(),
        lowered_update(update).rows == lowered_delete(delete).rows,
        lowered_update(update).reads == lowered_delete(delete).reads,
{
    crate::lower::cond::a_condition_is_a_call(delete.filter);
}

/// Whether a statement reads a table: joins it, takes rows from it, or looks into it with a
/// condition.
pub open spec fn reads_from(v: ParsedView, source: SourceView) -> bool
    decreases v,
{
    match v {
        ParsedView::Query(q) => exists|k: int|
            0 <= k < q.branches.len() && (select_looks_into(#[trigger] q.branches[k], source) || (
            asks_anything(q.branches[k]) && is_over(q.branches[k], source))),
        ParsedView::Insert(i) => i.source matches insert::SourceView::Select(s) && (is_over(
            *s,
            source,
        ) || select_looks_into(*s, source)),
        ParsedView::Delete(d) => looks_into(d.filter, source),
        ParsedView::Update(u) => looks_into(u.filter, source),
        ParsedView::Explain { inner, .. } => reads_from(*inner, source),
        ParsedView::Settings { inner, .. } => reads_from(*inner, source),
        _ => false,
    }
}

/// Whether a `SELECT` is over a table.
pub open spec fn is_over(select: SelectView, source: SourceView) -> bool {
    select.from == source || exists|k: int|
        0 <= k < select.joins.len() && (#[trigger] select.joins[k]).source == source
}

proof fn lemma_target_joined(insert: InsertView, joins: Seq<JoinView>, k: int)
    requires
        0 <= k,
    ensures
        target_joined(insert, joins, k) is None <==> forall|j: int|
            k <= j < joins.len() ==> !is_target(insert, (#[trigger] joins[j]).source),
    decreases joins.len() - k,
{
    if k < joins.len() {
        lemma_target_joined(insert, joins, k + 1);
        if !is_target(insert, joins[k].source) && target_joined(insert, joins, k + 1) is None {
            assert forall|j: int| k <= j < joins.len() implies !is_target(
                insert,
                (#[trigger] joins[j]).source,
            ) by {
                if j > k {
                    assert(k + 1 <= j);
                }
            }
        }
    }
}

/// An insert from a query is refused exactly where the query is over the table the insert writes,
/// whichever way either was qualified.
pub proof fn an_insert_is_refused_its_own_table(insert: InsertView, select: SelectView)
    requires
        insert.source == insert::SourceView::Select(Box::new(select)),
    ensures
        (exists|source: SourceView| is_over(select, source) && is_target(insert, source))
            <==> finished(ParsedView::Insert(insert)) is Err,
        finished(ParsedView::Insert(insert)) matches Err(x) ==> x is Refused
            && x->what == Refused::InsertSelfRead,
{
    lemma_target_joined(insert, select.joins, 0);
    if is_target(insert, select.from) {
        assert(is_over(select, select.from));
    }
    if exists|j: int|
        0 <= j < select.joins.len() && is_target(insert, (#[trigger] select.joins[j]).source) {
        let j = choose|j: int|
            0 <= j < select.joins.len() && is_target(insert, (#[trigger] select.joins[j]).source);
        assert(is_over(select, select.joins[j].source));
    }
}

impl SqlView {
    /// Whether an insert in a statement takes its values from other tables than it writes.
    pub open spec fn writes_elsewhere(self) -> bool
        decreases self,
    {
        match self {
            SqlView::Insert(i) => i.source matches insert::SourceView::Select(s) ==> forall|
                source: SourceView,
            | #[trigger]
                is_over(*s, source) ==> !is_target(i, source),
            SqlView::Explain { inner, .. } => inner.writes_elsewhere(),
            SqlView::Settings { inner, .. } => inner.writes_elsewhere(),
            _ => true,
        }
    }
}

/// No statement that is finished takes values from the table it writes them to.
pub proof fn no_insert_feeds_itself(v: ParsedView)
    ensures
        finished(v) matches Ok(s) ==> s.writes_elsewhere(),
    decreases v,
{
    match v {
        ParsedView::Insert(i) => {
            if let insert::SourceView::Select(s) = i.source {
                an_insert_is_refused_its_own_table(i, *s);
            }
        },
        ParsedView::Explain { inner, .. } => no_insert_feeds_itself(*inner),
        ParsedView::Settings { inner, .. } => no_insert_feeds_itself(*inner),
        _ => {},
    }
}

/// The same of every text, against whatever database: an unqualified name and a qualified one are
/// told apart by the table they mean.
pub proof fn no_translated_insert_feeds_itself(text: Seq<char>, database: Seq<char>, now: i64)
    ensures
        translated(text, database, now) matches Ok(s) ==> s.writes_elsewhere(),
{
    match said(text, now) {
        Ok(v) => no_insert_feeds_itself(in_database(v, database)),
        Err(_) => {},
    }
}

/// Whether some demands hold the read of a table, as an insert demands it or as any other
/// statement does.
pub open spec fn demands_read(all: Seq<DemandView>, source: SourceView) -> bool {
    all.contains(source_demand(source)) || all.contains(
        need(Privilege::Select, table_named(source.qualified())),
    )
}

proof fn lemma_reading(names: Seq<Seq<char>>, source: SourceView)
    requires
        named_in(names, source.qualified()),
    ensures
        demands_read(reading(names), source),
{
    let k = choose|k: int| 0 <= k < names.len() && #[trigger] names[k] == source.qualified();
    assert(reading(names)[k] == need(Privilege::Select, table_named(source.qualified())));
}

proof fn lemma_part(a: Seq<DemandView>, b: Seq<DemandView>, source: SourceView)
    requires
        demands_read(a, source) || demands_read(b, source),
    ensures
        demands_read(a + b, source),
{
    assert forall|d: DemandView| a.contains(d) || b.contains(d) implies #[trigger] (a + b).contains(
        d,
    ) by {
        if a.contains(d) {
            let k = choose|k: int| 0 <= k < a.len() && a[k] == d;
            assert((a + b)[k] == d);
        } else {
            let k = choose|k: int| 0 <= k < b.len() && b[k] == d;
            assert((a + b)[a.len() + k] == d);
        }
    }
}

proof fn lemma_cond_demands(c: CondView, source: SourceView)
    requires
        looks_into(c, source),
    ensures
        demands_read(cond_demands(c), source),
    decreases c,
{
    match c {
        CondView::And(a, b) => {
            if looks_into(*a, source) {
                lemma_cond_demands(*a, source);
            } else {
                lemma_cond_demands(*b, source);
            }
            lemma_part(cond_demands(*a), cond_demands(*b), source);
        },
        CondView::Or(a, b) => {
            if looks_into(*a, source) {
                lemma_cond_demands(*a, source);
            } else {
                lemma_cond_demands(*b, source);
            }
            lemma_part(cond_demands(*a), cond_demands(*b), source);
        },
        CondView::Not(a) => lemma_cond_demands(*a, source),
        CondView::InRecords { table, filter, .. } => {
            let one = seq![source_demand(table)];
            assert(one[0] == source_demand(table));
            match filter {
                Some(f) => {
                    if table != source {
                        lemma_cond_demands(*f, source);
                    }
                    lemma_part(one, cond_demands(*f), source);
                },
                None => lemma_part(one, Seq::empty(), source),
            }
        },
        _ => {},
    }
}

proof fn lemma_items_demands(items: Seq<ItemView>, n: int, k: int, source: SourceView)
    requires
        0 <= k < n <= items.len(),
        filter_looks_into(items[k].filter, source),
    ensures
        demands_read(items_demands(items, n), source),
    decreases n,
{
    if k < n - 1 {
        lemma_items_demands(items, n - 1, k, source);
    } else {
        lemma_cond_demands(items[k].filter->0, source);
    }
    lemma_part(items_demands(items, n - 1), filter_demands(items[n - 1].filter), source);
}

proof fn lemma_insert_demands(i: InsertView, source: SourceView)
    requires
        reads_from(ParsedView::Insert(i), source),
    ensures
        demands_read(insert_demands(i), source),
{
    let select = *i.source->Select_0;
    let write = seq![need(Privilege::Insert, table_in(i.database, i.table))];
    let from = seq![source_demand(select.from)];
    let joins = Seq::new(select.joins.len(), |k: int| source_demand(select.joins[k].source));
    let filter = filter_demands(select.filter);
    let items = items_demands(select.items, select.items.len() as int);
    assert(insert_demands(i) =~= write + (from + joins + filter + items));
    if select.from == source {
        assert(from[0] == source_demand(source));
        lemma_part(from, joins, source);
        lemma_part(from + joins, filter, source);
        lemma_part(from + joins + filter, items, source);
    } else if is_over(select, source) {
        let k = choose|k: int|
            0 <= k < select.joins.len() && (#[trigger] select.joins[k]).source == source;
        assert(joins[k] == source_demand(source));
        lemma_part(from, joins, source);
        lemma_part(from + joins, filter, source);
        lemma_part(from + joins + filter, items, source);
    } else if filter_looks_into(select.filter, source) {
        lemma_cond_demands(select.filter->0, source);
        lemma_part(from + joins, filter, source);
        lemma_part(from + joins + filter, items, source);
    } else {
        let k = choose|k: int|
            0 <= k < select.items.len() && filter_looks_into(
                (#[trigger] select.items[k]).filter,
                source,
            );
        lemma_items_demands(select.items, select.items.len() as int, k, source);
        lemma_part(from + joins + filter, items, source);
    }
    lemma_part(write, from + joins + filter + items, source);
}

proof fn lemma_query_demands(q: QueryView, s: StatementView, source: SourceView)
    requires
        reads_from(ParsedView::Query(q), source),
        lowered(q) == Ok::<_, SqlErrorView>(s),
    ensures
        demands_read(reading(s.tables()), source),
{
    let k = choose|k: int|
        0 <= k < q.branches.len() && (select_looks_into(#[trigger] q.branches[k], source) || (
        asks_anything(q.branches[k]) && is_over(q.branches[k], source)));
    let select = q.branches[k];
    a_query_asks_what_its_branches_ask(q, k);
    tables_are_those_asked(s);
    let one = lowered_one(select)->Ok_0;
    if select_looks_into(select, source) {
        a_read_is_a_read(select, source);
        let j = choose|j: int|
            0 <= j < one.reads.len() && #[trigger] one.reads[j] == source.qualified();
        assert(named_in(s.reads, one.reads[j]));
        let i = choose|i: int| 0 <= i < s.reads.len() && #[trigger] s.reads[i] == one.reads[j];
        assert(named_in(s.tables(), s.reads[i]));
    } else {
        a_select_asks_of_its_tables(select);
        if select.joins.len() == 0 && one.calls.len() == 0 {
            assert(one.probes[0].table == source.qualified());
            assert(s.probes.contains(one.probes[0]));
            let m = choose|m: int| 0 <= m < s.probes.len() && s.probes[m] == one.probes[0];
            assert(named_in(s.tables(), s.probes[m].table));
        } else {
            if select.joins.len() == 0 {
                assert(one.calls[0].table == source.qualified());
            } else if select.from != source {
                let j = choose|j: int|
                    0 <= j < select.joins.len() && (#[trigger] select.joins[j]).source == source;
                assert(select.joins[j].source.qualified() == source.qualified());
            }
            let i = choose|i: int|
                0 <= i < one.calls.len() && (#[trigger] one.calls[i]).table == source.qualified();
            assert(s.calls.contains(one.calls[i]));
            let m = choose|m: int| 0 <= m < s.calls.len() && s.calls[m] == one.calls[i];
            assert(named_in(s.tables(), s.calls[m].table));
        }
    }
    lemma_reading(s.tables(), source);
}

/// A read is a read, wherever it appears: every table a statement joins, takes rows from, or looks
/// into with a condition is one its sender has to be allowed to read.
pub proof fn every_read_is_demanded(v: ParsedView, source: SourceView)
    requires
        reads_from(v, source),
    ensures
        finished(v) matches Ok(sql) ==> demands_read(demanded(sql), source),
    decreases v,
{
    match v {
        ParsedView::Query(q) => {
            if let Ok(s) = lowered(q) {
                lemma_query_demands(q, s, source);
            }
        },
        ParsedView::Insert(i) => lemma_insert_demands(i, source),
        ParsedView::Delete(d) => {
            let reads = lowered_delete(d).reads;
            a_filter_is_read(d.filter, source);
            lemma_reading(reads, source);
            lemma_part(
                seq![need(Privilege::Delete, table_in(d.database, d.table))],
                reading(reads),
                source,
            );
        },
        ParsedView::Update(u) => {
            let reads = lowered_update(u).reads;
            let on = table_in(u.database, u.table);
            a_filter_is_read(u.filter, source);
            lemma_reading(reads, source);
            lemma_part(
                seq![need(Privilege::Insert, on), need(Privilege::Delete, on)],
                reading(reads),
                source,
            );
        },
        ParsedView::Explain { inner, .. } => every_read_is_demanded(*inner, source),
        ParsedView::Settings { inner, .. } => every_read_is_demanded(*inner, source),
        _ => {},
    }
}

} // verus!
