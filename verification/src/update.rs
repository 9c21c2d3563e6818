//! An update, as the call that selects what it writes.

use vstd::prelude::*;
use crate::ast::copy_assignments;
use crate::pql::{Call, CallView, Literal, LiteralView};
use crate::text::{copy_all, copy_opt, opt_text, views};

verus! {

/// New values for the records a condition selects.
#[derive(PartialEq, Eq, Debug)]
pub struct Update {
    pub database: Option<String>,
    pub table: String,
    /// Each column and its new value.
    pub assignments: Vec<(String, Literal)>,
    /// The records it writes.
    pub rows: Call,
    /// The other tables its condition reads.
    pub reads: Vec<String>,
}

/// What a [`Update`] holds.
#[verifier::ext_equal]
pub struct UpdateView {
    pub database: Option<Seq<char>>,
    pub table: Seq<char>,
    pub assignments: Seq<(Seq<char>, LiteralView)>,
    pub rows: CallView,
    pub reads: Seq<Seq<char>>,
}

impl View for Update {
    type V = UpdateView;

    open spec fn view(&self) -> UpdateView {
        UpdateView {
            database: opt_text(self.database),
            table: self.table@,
            assignments: self.assignments@.map_values(|v: (String, Literal)| (v.0@, v.1@)),
            rows: self.rows@,
            reads: views(self.reads@),
        }
    }
}

impl Clone for Update {
    fn clone(&self) -> (r: Update)
        ensures
            r@ == self@,
    {
        Update {
            database: copy_opt(&self.database),
            table: self.table.clone(),
            assignments: copy_assignments(&self.assignments),
            rows: self.rows.clone(),
            reads: copy_all(&self.reads),
        }
    }
}

} // verus!
