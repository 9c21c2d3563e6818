//! Statements to calls of the query language.

pub mod answers;
pub mod asked;
pub mod calls;
pub mod cond;
pub mod delete;
pub mod grouped;
pub mod groups;
pub mod join;
pub mod joins;
pub mod keeping;
pub mod keyed;
pub mod laws;
pub mod meaning;
pub mod measure;
pub mod model;
pub mod pairs;
pub mod pql;
pub mod product;
pub mod query;
pub mod ranking;
pub mod selecting;
pub mod sets;
pub mod shown;
pub mod subtotals;
pub mod tuples;
pub mod ungrouped;
pub mod writes;

pub use self::calls::{Ask, Probe, Statement, MAX_CALLS};
pub use self::query::lower;
