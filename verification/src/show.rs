//! Questions about the catalog.

use vstd::prelude::*;
use crate::shape::Format;
use crate::text::{copy_all, copy_opt, fill, filled, opt_text, same_word, views};

verus! {

/// The database the views of the catalog are under.
pub const SYSTEM_DATABASE: &'static str = "system";

/// How many numbers one `numbers(n)` may ask for.
pub const MAX_NUMBERS: u64 = 1_000_000;

/// A question about the catalog, and how its answer is written.
#[derive(PartialEq, Eq, Debug)]
pub struct Show {
    pub what: Shown,
    pub format: Format,
}

/// What a [`Show`] holds.
#[verifier::ext_equal]
pub struct ShowView {
    pub what: ShownView,
    pub format: Format,
}

impl View for Show {
    type V = ShowView;

    open spec fn view(&self) -> ShowView {
        ShowView {
            what: self.what@,
            format: self.format,
        }
    }
}

impl Clone for Show {
    fn clone(&self) -> (r: Show)
        ensures
            r@ == self@,
    {
        Show {
            what: self.what.clone(),
            format: self.format,
        }
    }
}

/// What is asked about.
#[allow(inconsistent_fields)]
#[derive(PartialEq, Eq, Debug)]
pub enum Shown {
    /// `DESCRIBE t`.
    Columns { database: Option<String>, table: String },
    /// `SHOW TABLES`.
    Tables { database: Option<String> },
    /// `SHOW VIEWS`.
    Views { database: Option<String> },
    /// `SHOW DATABASES`.
    Databases,
    /// `SHOW CREATE TABLE t`.
    Create { database: Option<String>, table: String, view: bool },
    /// `SHOW GRANTS [FOR role]`.
    Grants { role: Option<String> },
    /// `SHOW ROLES`.
    Roles,
    /// `SELECT ... FROM system.<view>`.
    System { view: SystemView, database: Option<String>, table: Option<String>, columns: Option<Vec<String>> },
    /// `SELECT * FROM numbers(n)`.
    Numbers { n: u64 },
    /// `SHOW PROCESSLIST`.
    Processlist,
}

/// What a [`Shown`] holds.
#[allow(inconsistent_fields)]
#[verifier::ext_equal]
pub enum ShownView {
    Columns { database: Option<Seq<char>>, table: Seq<char> },
    Tables { database: Option<Seq<char>> },
    Views { database: Option<Seq<char>> },
    Databases,
    Create { database: Option<Seq<char>>, table: Seq<char>, view: bool },
    Grants { role: Option<Seq<char>> },
    Roles,
    System { view: SystemView, database: Option<Seq<char>>, table: Option<Seq<char>>, columns: Option<Seq<Seq<char>>> },
    Numbers { n: u64 },
    Processlist,
}

impl View for Shown {
    type V = ShownView;

    open spec fn view(&self) -> ShownView {
        match *self {
            Shown::Columns { database, table } => ShownView::Columns { database: opt_text(database), table: table@ },
            Shown::Tables { database } => ShownView::Tables { database: opt_text(database) },
            Shown::Views { database } => ShownView::Views { database: opt_text(database) },
            Shown::Databases => ShownView::Databases,
            Shown::Create { database, table, view } => ShownView::Create { database: opt_text(database), table: table@, view },
            Shown::Grants { role } => ShownView::Grants { role: opt_text(role) },
            Shown::Roles => ShownView::Roles,
            Shown::System { view, database, table, columns } => ShownView::System { view, database: opt_text(database), table: opt_text(table), columns: match columns { Some(v) => Some(views(v@)), None => None } },
            Shown::Numbers { n } => ShownView::Numbers { n },
            Shown::Processlist => ShownView::Processlist,
        }
    }
}

impl Clone for Shown {
    fn clone(&self) -> (r: Shown)
        ensures
            r@ == self@,
    {
        match self {
            Shown::Columns { database, table } => Shown::Columns {
                database: copy_opt(database),
                table: table.clone(),
            },
            Shown::Tables { database } => Shown::Tables {
                database: copy_opt(database),
            },
            Shown::Views { database } => Shown::Views {
                database: copy_opt(database),
            },
            Shown::Databases => Shown::Databases,
            Shown::Create { database, table, view } => Shown::Create {
                database: copy_opt(database),
                table: table.clone(),
                view: *view,
            },
            Shown::Grants { role } => Shown::Grants {
                role: copy_opt(role),
            },
            Shown::Roles => Shown::Roles,
            Shown::System { view, database, table, columns } => Shown::System {
                view: *view,
                database: copy_opt(database),
                table: copy_opt(table),
                columns: match columns {
                    Some(v) => Some(copy_all(v)),
                    None => None,
                },
            },
            Shown::Numbers { n } => Shown::Numbers {
                n: *n,
            },
            Shown::Processlist => Shown::Processlist,
        }
    }
}

/// The views under `system.`.
#[derive(Clone, Copy, PartialEq, Eq, Debug, Structural)]
pub enum SystemView {
    Tables,
    Columns,
    Databases,
    Parts,
}

impl SystemView {
    /// The view a name spells, in any case.
    pub open spec fn spelled(name: Seq<char>) -> Option<SystemView> {
        if same_word(name, "tables"@) {
            Some(SystemView::Tables)
        } else if same_word(name, "columns"@) {
            Some(SystemView::Columns)
        } else if same_word(name, "databases"@) {
            Some(SystemView::Databases)
        } else if same_word(name, "parts"@) {
            Some(SystemView::Parts)
        } else {
            None
        }
    }

    /// The view a name spells, in any case.
    pub fn of(name: &str) -> (r: Option<SystemView>)
        ensures
            r == SystemView::spelled(name@),
    {
        if name.eq_ignore_ascii_case("tables") {
            Some(SystemView::Tables)
        } else if name.eq_ignore_ascii_case("columns") {
            Some(SystemView::Columns)
        } else if name.eq_ignore_ascii_case("databases") {
            Some(SystemView::Databases)
        } else if name.eq_ignore_ascii_case("parts") {
            Some(SystemView::Parts)
        } else {
            None
        }
    }
}

impl ShownView {
    /// The question, with a database name put where none was written. A view of the catalog is
    /// under `system` whatever the request's database is.
    pub open spec fn filled(self, database: Seq<char>) -> ShownView {
        match self {
            ShownView::Columns { database: d, table } => ShownView::Columns {
                database: filled(d, database),
                table,
            },
            ShownView::Tables { database: d } => ShownView::Tables {
                database: filled(d, database),
            },
            ShownView::Views { database: d } => ShownView::Views { database: filled(d, database) },
            ShownView::Create { database: d, table, view } => ShownView::Create {
                database: filled(d, database),
                table,
                view,
            },
            other => other,
        }
    }
}

impl Shown {
    /// Fills in the database a question did not name.
    pub fn fill_database(&mut self, database: &str)
        ensures
            final(self)@ == old(self)@.filled(database@),
    {
        match self {
            Shown::Columns { database: d, .. } => fill(d, database),
            Shown::Tables { database: d } => fill(d, database),
            Shown::Views { database: d } => fill(d, database),
            Shown::Create { database: d, .. } => fill(d, database),
            _ => {},
        }
    }
}

} // verus!
