//! Schema changes.

use vstd::prelude::*;
use crate::text::{copy_all, copy_opt, fill, filled, opt_text, views};

verus! {

/// How deep a view may be nested inside another before the expansion is refused.
pub const MAX_VIEW_DEPTH: usize = 8;

/// A schema change.
#[derive(PartialEq, Eq, Debug)]
pub enum Ddl {
    CreateDatabase { name: String, if_not_exists: bool },
    DropDatabase { name: String, if_exists: bool, cascade: bool },
    CreateTable { database: Option<String>, table: String, engine: Option<String>, columns: Vec<Column>, if_not_exists: bool },
    AlterTable { database: Option<String>, table: String, changes: Vec<Alter> },
    DropTable { database: Option<String>, table: String, if_exists: bool },
    TruncateTable { database: Option<String>, table: String, if_exists: bool },
    CreateView { database: Option<String>, name: String, body: String, or_replace: bool, if_not_exists: bool },
    DropView { database: Option<String>, name: String, if_exists: bool },
}

/// What a [`Ddl`] holds.
#[verifier::ext_equal]
pub enum DdlView {
    CreateDatabase { name: Seq<char>, if_not_exists: bool },
    DropDatabase { name: Seq<char>, if_exists: bool, cascade: bool },
    CreateTable { database: Option<Seq<char>>, table: Seq<char>, engine: Option<Seq<char>>, columns: Seq<ColumnView>, if_not_exists: bool },
    AlterTable { database: Option<Seq<char>>, table: Seq<char>, changes: Seq<AlterView> },
    DropTable { database: Option<Seq<char>>, table: Seq<char>, if_exists: bool },
    TruncateTable { database: Option<Seq<char>>, table: Seq<char>, if_exists: bool },
    CreateView { database: Option<Seq<char>>, name: Seq<char>, body: Seq<char>, or_replace: bool, if_not_exists: bool },
    DropView { database: Option<Seq<char>>, name: Seq<char>, if_exists: bool },
}

impl View for Ddl {
    type V = DdlView;

    open spec fn view(&self) -> DdlView {
        match *self {
            Ddl::CreateDatabase { name, if_not_exists } => DdlView::CreateDatabase { name: name@, if_not_exists },
            Ddl::DropDatabase { name, if_exists, cascade } => DdlView::DropDatabase { name: name@, if_exists, cascade },
            Ddl::CreateTable { database, table, engine, columns, if_not_exists } => DdlView::CreateTable { database: opt_text(database), table: table@, engine: opt_text(engine), columns: views(columns@), if_not_exists },
            Ddl::AlterTable { database, table, changes } => DdlView::AlterTable { database: opt_text(database), table: table@, changes: views(changes@) },
            Ddl::DropTable { database, table, if_exists } => DdlView::DropTable { database: opt_text(database), table: table@, if_exists },
            Ddl::TruncateTable { database, table, if_exists } => DdlView::TruncateTable { database: opt_text(database), table: table@, if_exists },
            Ddl::CreateView { database, name, body, or_replace, if_not_exists } => DdlView::CreateView { database: opt_text(database), name: name@, body: body@, or_replace, if_not_exists },
            Ddl::DropView { database, name, if_exists } => DdlView::DropView { database: opt_text(database), name: name@, if_exists },
        }
    }
}

impl Clone for Ddl {
    fn clone(&self) -> (r: Ddl)
        ensures
            r@ == self@,
    {
        match self {
            Ddl::CreateDatabase { name, if_not_exists } => Ddl::CreateDatabase {
                name: name.clone(),
                if_not_exists: *if_not_exists,
            },
            Ddl::DropDatabase { name, if_exists, cascade } => Ddl::DropDatabase {
                name: name.clone(),
                if_exists: *if_exists,
                cascade: *cascade,
            },
            Ddl::CreateTable { database, table, engine, columns, if_not_exists } => Ddl::CreateTable {
                database: copy_opt(database),
                table: table.clone(),
                engine: copy_opt(engine),
                columns: copy_all(columns),
                if_not_exists: *if_not_exists,
            },
            Ddl::AlterTable { database, table, changes } => Ddl::AlterTable {
                database: copy_opt(database),
                table: table.clone(),
                changes: copy_all(changes),
            },
            Ddl::DropTable { database, table, if_exists } => Ddl::DropTable {
                database: copy_opt(database),
                table: table.clone(),
                if_exists: *if_exists,
            },
            Ddl::TruncateTable { database, table, if_exists } => Ddl::TruncateTable {
                database: copy_opt(database),
                table: table.clone(),
                if_exists: *if_exists,
            },
            Ddl::CreateView { database, name, body, or_replace, if_not_exists } => Ddl::CreateView {
                database: copy_opt(database),
                name: name.clone(),
                body: body.clone(),
                or_replace: *or_replace,
                if_not_exists: *if_not_exists,
            },
            Ddl::DropView { database, name, if_exists } => Ddl::DropView {
                database: copy_opt(database),
                name: name.clone(),
                if_exists: *if_exists,
            },
        }
    }
}

/// One change to a table.
#[derive(PartialEq, Eq, Debug)]
pub enum Alter {
    /// `ADD COLUMN`.
    Add(Column),
    /// `DROP COLUMN`.
    Drop(String),
    /// `DROP DAYS BEFORE '<date>' ON <column>`.
    DropDaysBefore { column: String, before: String },
}

/// What a [`Alter`] holds.
#[verifier::ext_equal]
pub enum AlterView {
    Add(ColumnView),
    Drop(Seq<char>),
    DropDaysBefore { column: Seq<char>, before: Seq<char> },
}

impl View for Alter {
    type V = AlterView;

    open spec fn view(&self) -> AlterView {
        match *self {
            Alter::Add(a) => AlterView::Add(a@),
            Alter::Drop(a) => AlterView::Drop(a@),
            Alter::DropDaysBefore { column, before } => AlterView::DropDaysBefore { column: column@, before: before@ },
        }
    }
}

impl Clone for Alter {
    fn clone(&self) -> (r: Alter)
        ensures
            r@ == self@,
    {
        match self {
            Alter::Add(a) => Alter::Add(a.clone()),
            Alter::Drop(a) => Alter::Drop(a.clone()),
            Alter::DropDaysBefore { column, before } => Alter::DropDaysBefore {
                column: column.clone(),
                before: before.clone(),
            },
        }
    }
}

/// One declared column.
#[derive(PartialEq, Eq, Debug)]
pub struct Column {
    /// Its name.
    pub name: String,
    /// What it stores.
    pub kind: ColumnKind,
    /// How many bit planes.
    pub bit_depth: u32,
    /// Digits after the point, for a decimal.
    pub scale: Option<i8>,
}

/// What a [`Column`] holds.
#[verifier::ext_equal]
pub struct ColumnView {
    pub name: Seq<char>,
    pub kind: ColumnKind,
    pub bit_depth: u32,
    pub scale: Option<i8>,
}

impl View for Column {
    type V = ColumnView;

    open spec fn view(&self) -> ColumnView {
        ColumnView {
            name: self.name@,
            kind: self.kind,
            bit_depth: self.bit_depth,
            scale: self.scale,
        }
    }
}

impl Clone for Column {
    fn clone(&self) -> (r: Column)
        ensures
            r@ == self@,
    {
        Column {
            name: self.name.clone(),
            kind: self.kind,
            bit_depth: self.bit_depth,
            scale: self.scale,
        }
    }
}

/// What a column stores.
#[derive(Clone, Copy, PartialEq, Eq, Debug, Structural)]
pub enum ColumnKind {
    /// Any number of keys per record, spelled `SET`.
    Keyed,
    Mutex,
    Bool,
    Int,
    Signed,
    Decimal,
    TimeQuantum,
    Float32,
    Float64,
    Date,
    DateTime,
}

impl DdlView {
    /// The change, with a database name put where none was written. A database is in no other.
    pub open spec fn filled(self, database: Seq<char>) -> DdlView {
        match self {
            DdlView::CreateTable { database: d, table, engine, columns, if_not_exists } => {
                DdlView::CreateTable {
                    database: filled(d, database),
                    table,
                    engine,
                    columns,
                    if_not_exists,
                }
            },
            DdlView::AlterTable { database: d, table, changes } => DdlView::AlterTable {
                database: filled(d, database),
                table,
                changes,
            },
            DdlView::DropTable { database: d, table, if_exists } => DdlView::DropTable {
                database: filled(d, database),
                table,
                if_exists,
            },
            DdlView::TruncateTable { database: d, table, if_exists } => DdlView::TruncateTable {
                database: filled(d, database),
                table,
                if_exists,
            },
            DdlView::CreateView { database: d, name, body, or_replace, if_not_exists } => {
                DdlView::CreateView {
                    database: filled(d, database),
                    name,
                    body,
                    or_replace,
                    if_not_exists,
                }
            },
            DdlView::DropView { database: d, name, if_exists } => DdlView::DropView {
                database: filled(d, database),
                name,
                if_exists,
            },
            other => other,
        }
    }
}

impl Ddl {
    /// Fills in the database a change did not name.
    pub fn fill_database(&mut self, database: &str)
        ensures
            final(self)@ == old(self)@.filled(database@),
    {
        match self {
            Ddl::CreateTable { database: d, .. } => fill(d, database),
            Ddl::AlterTable { database: d, .. } => fill(d, database),
            Ddl::DropTable { database: d, .. } => fill(d, database),
            Ddl::TruncateTable { database: d, .. } => fill(d, database),
            Ddl::CreateView { database: d, .. } => fill(d, database),
            Ddl::DropView { database: d, .. } => fill(d, database),
            _ => {},
        }
    }
}

impl ColumnKind {
    /// The name a kind has where fields are made.
    pub open spec fn spelled(self) -> Seq<char> {
        match self {
            ColumnKind::Keyed => "set"@,
            ColumnKind::Mutex => "mutex"@,
            ColumnKind::Bool => "bool"@,
            ColumnKind::Int => "int"@,
            ColumnKind::Signed => "signed"@,
            ColumnKind::Decimal => "decimal"@,
            ColumnKind::TimeQuantum => "timequantum"@,
            ColumnKind::Float32 => "float32"@,
            ColumnKind::Float64 => "float64"@,
            ColumnKind::Date => "date"@,
            ColumnKind::DateTime => "datetime"@,
        }
    }

    /// The name a kind has where fields are made.
    pub fn as_str(self) -> (r: &'static str)
        ensures
            r@ == self.spelled(),
    {
        match self {
            ColumnKind::Keyed => "set",
            ColumnKind::Mutex => "mutex",
            ColumnKind::Bool => "bool",
            ColumnKind::Int => "int",
            ColumnKind::Signed => "signed",
            ColumnKind::Decimal => "decimal",
            ColumnKind::TimeQuantum => "timequantum",
            ColumnKind::Float32 => "float32",
            ColumnKind::Float64 => "float64",
            ColumnKind::Date => "date",
            ColumnKind::DateTime => "datetime",
        }
    }
}

} // verus!
