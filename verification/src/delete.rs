//! A delete, as the call that selects what it clears.

use vstd::prelude::*;
use crate::pql::{Call, CallView};
use crate::text::{copy_all, copy_opt, opt_text, qualified, qualify, views};

verus! {

/// The records a condition selects, cleared from every field.
#[derive(PartialEq, Eq, Debug)]
pub struct Delete {
    pub database: Option<String>,
    pub table: String,
    /// The records it clears.
    pub rows: Call,
    /// The other tables its condition reads.
    pub reads: Vec<String>,
}

/// What a [`Delete`] holds.
#[verifier::ext_equal]
pub struct DeleteView {
    pub database: Option<Seq<char>>,
    pub table: Seq<char>,
    pub rows: CallView,
    pub reads: Seq<Seq<char>>,
}

impl View for Delete {
    type V = DeleteView;

    open spec fn view(&self) -> DeleteView {
        DeleteView {
            database: opt_text(self.database),
            table: self.table@,
            rows: self.rows@,
            reads: views(self.reads@),
        }
    }
}

impl Clone for Delete {
    fn clone(&self) -> (r: Delete)
        ensures
            r@ == self@,
    {
        Delete {
            database: copy_opt(&self.database),
            table: self.table.clone(),
            rows: self.rows.clone(),
            reads: copy_all(&self.reads),
        }
    }
}

impl Delete {
    /// The table this reads and writes, qualified.
    pub fn qualified(&self) -> (r: String)
        ensures
            r@ == qualified(self@.database, self@.table),
    {
        qualify(&self.database, self.table.as_str())
    }
}

} // verus!
