//! SQL for a bitmap engine: a translation into the query language the engine already has.
//!
//! [`translate`] turns one statement into calls of the query language ([`pql::Call`]) and a
//! [`Shape`] saying how their answers become columns and rows. What a statement may say is
//! bounded by what those calls can ask: everything else is refused by name, before anything
//! runs, with a sentence saying what exists instead ([`Refused`]).
//!
//! The steps are [`lex`](lex::lex), [`parse`], [`qualify`] and [`finish`], and each has a
//! contract that says what comes out for every input. A rule of the grammar is a specification
//! function over tokens (`read_...` in [`parse`](mod@parse)); the lowering of a statement is one
//! over the statement (`lowered_...` in [`lower`](mod@lower)). What a statement demands of its
//! sender is [`Sql::demands`], and who holds which privilege is [`rbac`]'s to say.

use vstd::prelude::*;

pub mod acl;
pub mod ast;
pub mod civil;
pub mod ddl;
pub mod delete;
pub mod endings;
pub mod error;
pub mod explain;
pub mod insert;
pub mod lex;
pub mod lower;
pub mod parse;
pub mod pql;
pub mod print;
pub mod qualify;
pub mod rbac;
pub mod readback;
pub mod render;
pub mod rounding;
pub mod scalar;
pub mod settings;
pub mod shape;
pub mod show;
pub mod sorted;
pub mod sql;
pub mod text;
pub mod update;

pub use crate::acl::{Acl, AclObject};
pub use crate::ast::{ExplainMode, Query, Select};
pub use crate::ddl::{Alter, Column, ColumnKind, Ddl, MAX_VIEW_DEPTH};
pub use crate::delete::Delete;
pub use crate::error::{Refused, Result, SqlError};
pub use crate::insert::{Insert, MAX_INSERT_ROWS, RECORD_COLUMN};
pub use crate::lower::{lower, Ask, Probe, Statement, MAX_CALLS};
pub use crate::parse::{parse, parse_at, Parsed};
pub use crate::rbac::{Demand, Object, ObjectRef, Privilege, Privileges};
pub use crate::qualify::qualify;
pub use crate::scalar::{BinOp, Func, Scalar, UnOp};
pub use crate::settings::Settings;
pub use crate::shape::{Absent, Answer, Cell, Columns, Cut, Format, GroupOrder, Having, JoinSide, Keying, Of, Operand, OrderBy, Pairing, Selected, Shape, Threshold, Units};
pub use crate::show::{Show, Shown, SystemView};
pub use crate::sql::{finish, translate, translate_at, translate_in, Sql};
pub use crate::update::Update;

verus! {

/// The database an unqualified name means when the request did not say.
pub const DEFAULT_DATABASE: &'static str = "default";

} // verus!
