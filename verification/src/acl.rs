//! Statements about who may do what.

use vstd::prelude::*;
use crate::rbac::{Object, ObjectView, Privileges};
use crate::text::{copy_opt, fill, filled, opt_text, qualified, qualify};
use crate::DEFAULT_DATABASE;

verus! {

/// `GRANT`, `REVOKE`, and the two role statements.
#[derive(PartialEq, Eq, Debug)]
pub enum Acl {
    /// `CREATE ROLE`.
    CreateRole { name: String, if_not_exists: bool },
    /// `DROP ROLE`.
    DropRole { name: String, if_exists: bool },
    /// `GRANT`.
    Grant { privileges: Privileges, on: AclObject, role: String },
    /// `REVOKE`.
    Revoke { privileges: Privileges, on: AclObject, role: String },
}

/// What a [`Acl`] holds.
#[verifier::ext_equal]
pub enum AclView {
    CreateRole { name: Seq<char>, if_not_exists: bool },
    DropRole { name: Seq<char>, if_exists: bool },
    Grant { privileges: Privileges, on: AclObjectView, role: Seq<char> },
    Revoke { privileges: Privileges, on: AclObjectView, role: Seq<char> },
}

impl View for Acl {
    type V = AclView;

    open spec fn view(&self) -> AclView {
        match *self {
            Acl::CreateRole { name, if_not_exists } => AclView::CreateRole { name: name@, if_not_exists },
            Acl::DropRole { name, if_exists } => AclView::DropRole { name: name@, if_exists },
            Acl::Grant { privileges, on, role } => AclView::Grant { privileges, on: on@, role: role@ },
            Acl::Revoke { privileges, on, role } => AclView::Revoke { privileges, on: on@, role: role@ },
        }
    }
}

impl Clone for Acl {
    fn clone(&self) -> (r: Acl)
        ensures
            r@ == self@,
    {
        match self {
            Acl::CreateRole { name, if_not_exists } => Acl::CreateRole {
                name: name.clone(),
                if_not_exists: *if_not_exists,
            },
            Acl::DropRole { name, if_exists } => Acl::DropRole {
                name: name.clone(),
                if_exists: *if_exists,
            },
            Acl::Grant { privileges, on, role } => Acl::Grant {
                privileges: *privileges,
                on: on.clone(),
                role: role.clone(),
            },
            Acl::Revoke { privileges, on, role } => Acl::Revoke {
                privileges: *privileges,
                on: on.clone(),
                role: role.clone(),
            },
        }
    }
}

/// What a grant is written against.
#[derive(PartialEq, Eq, Debug)]
pub enum AclObject {
    /// `*.*`
    Server,
    /// `db.*`, or `*` for the request's own database.
    Database(Option<String>),
    /// `db.tbl`, or `tbl`.
    Table { database: Option<String>, table: String },
}

/// What a [`AclObject`] holds.
#[verifier::ext_equal]
pub enum AclObjectView {
    Server,
    Database(Option<Seq<char>>),
    Table { database: Option<Seq<char>>, table: Seq<char> },
}

impl View for AclObject {
    type V = AclObjectView;

    open spec fn view(&self) -> AclObjectView {
        match *self {
            AclObject::Server => AclObjectView::Server,
            AclObject::Database(a) => AclObjectView::Database(opt_text(a)),
            AclObject::Table { database, table } => AclObjectView::Table { database: opt_text(database), table: table@ },
        }
    }
}

impl Clone for AclObject {
    fn clone(&self) -> (r: AclObject)
        ensures
            r@ == self@,
    {
        match self {
            AclObject::Server => AclObject::Server,
            AclObject::Database(a) => AclObject::Database(copy_opt(a)),
            AclObject::Table { database, table } => AclObject::Table {
                database: copy_opt(database),
                table: table.clone(),
            },
        }
    }
}

impl AclObjectView {
    /// The object, with a database name put where none was written.
    pub open spec fn filled(self, database: Seq<char>) -> AclObjectView {
        match self {
            AclObjectView::Server => AclObjectView::Server,
            AclObjectView::Database(d) => AclObjectView::Database(filled(d, database)),
            AclObjectView::Table { database: d, table } => AclObjectView::Table {
                database: filled(d, database),
                table,
            },
        }
    }

    /// The object a grant is recorded against. A name without a database is in the default one.
    pub open spec fn resolved(self) -> ObjectView {
        match self.filled(DEFAULT_DATABASE@) {
            AclObjectView::Server => ObjectView::Server,
            AclObjectView::Database(d) => ObjectView::Database(d->0),
            AclObjectView::Table { database, table } => ObjectView::Table {
                database: database->0,
                table,
            },
        }
    }

    /// How the object was written: `*.*`, `*` or `d.*`, `t` or `d.t`.
    pub open spec fn written(self) -> Seq<char> {
        match self {
            AclObjectView::Server => "*.*"@,
            AclObjectView::Database(None) => "*"@,
            AclObjectView::Database(Some(d)) => d + ".*"@,
            AclObjectView::Table { database, table } => qualified(database, table),
        }
    }
}

/// A database name, or the default one.
fn or_default(d: &Option<String>) -> (r: String)
    ensures
        r@ == filled(opt_text(*d), DEFAULT_DATABASE@)->0,
{
    match d {
        Some(d) => d.clone(),
        None => str::to_owned(DEFAULT_DATABASE),
    }
}

impl AclObject {
    /// Fills in the database this object did not name.
    pub fn fill_database(&mut self, database: &str)
        ensures
            final(self)@ == old(self)@.filled(database@),
    {
        match self {
            AclObject::Database(d) => fill(d, database),
            AclObject::Table { database: d, .. } => fill(d, database),
            AclObject::Server => {},
        }
    }

    /// The object a grant is recorded against.
    pub fn resolved(&self) -> (r: Object)
        ensures
            r@ == self@.resolved(),
    {
        match self {
            AclObject::Server => Object::Server,
            AclObject::Database(d) => Object::Database(or_default(d)),
            AclObject::Table { database, table } => Object::Table {
                database: or_default(database),
                table: table.clone(),
            },
        }
    }

    /// How it was written, for an `EXPLAIN` and for the sentence in a refusal.
    pub fn written(&self) -> (r: String)
        ensures
            r@ == self@.written(),
    {
        match self {
            AclObject::Server => str::to_owned("*.*"),
            AclObject::Database(None) => str::to_owned("*"),
            AclObject::Database(Some(d)) => {
                let mut out = d.clone();
                out.append(".*");
                out
            },
            AclObject::Table { database, table } => qualify(database, table.as_str()),
        }
    }
}

impl AclView {
    /// The statement, with a database name put where none was written. A role is in no database.
    pub open spec fn filled(self, database: Seq<char>) -> AclView {
        match self {
            AclView::Grant { privileges, on, role } => AclView::Grant {
                privileges,
                on: on.filled(database),
                role,
            },
            AclView::Revoke { privileges, on, role } => AclView::Revoke {
                privileges,
                on: on.filled(database),
                role,
            },
            other => other,
        }
    }

    /// The role the statement is about.
    pub open spec fn role(self) -> Seq<char> {
        match self {
            AclView::CreateRole { name, .. } => name,
            AclView::DropRole { name, .. } => name,
            AclView::Grant { role, .. } => role,
            AclView::Revoke { role, .. } => role,
        }
    }
}

impl Acl {
    /// Fills in the database a `GRANT` did not name.
    pub fn fill_database(&mut self, database: &str)
        ensures
            final(self)@ == old(self)@.filled(database@),
    {
        match self {
            Acl::Grant { on, .. } => on.fill_database(database),
            Acl::Revoke { on, .. } => on.fill_database(database),
            _ => {},
        }
    }

    /// The role this statement is about, which is the one name every form of it carries.
    pub fn role(&self) -> (r: &str)
        ensures
            r@ == self@.role(),
    {
        match self {
            Acl::CreateRole { name, .. } => name.as_str(),
            Acl::DropRole { name, .. } => name.as_str(),
            Acl::Grant { role, .. } => role.as_str(),
            Acl::Revoke { role, .. } => role.as_str(),
        }
    }
}

/// Filling in a database a second time changes nothing, whichever database it is.
pub proof fn an_object_is_filled_once(on: AclObjectView, a: Seq<char>, b: Seq<char>)
    ensures
        on.filled(a).filled(b) == on.filled(a),
{
}

} // verus!
