//! Tokens to statements. Recursive descent, with the refusals placed where the construct is.

pub mod acl;
pub mod aggregate;
pub mod alter;
pub mod clauses;
pub mod cond;
pub mod create;
pub mod cursor;
pub mod delete;
pub mod distinct;
pub mod from;
pub mod grouping;
pub mod having;
pub mod insert;
pub mod item;
pub mod kill;
pub mod laws;
pub mod operators;
pub mod rounded;
pub mod scalar;
pub mod select;
pub mod settings;
pub mod show;
pub mod statement;
pub mod system;
pub mod tablefn;
pub mod writing;

pub use self::create::decimal_bits;
pub use self::statement::{parse, parse_at, Parsed, ParsedView};
