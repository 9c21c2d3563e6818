//! A delete and an update do what was written.

use vstd::prelude::*;
use crate::ast;
use crate::lower::cond::a_condition_is_a_call;
use crate::lower::delete::{lowered_delete, lowered_update, segment_in};
use crate::lower::model::{holds, picks, Stored};
use crate::lower::selecting::a_where_picks_the_records_it_is_true_of;
use crate::parse::ParsedView;
use crate::pql::ExprView;
use crate::qualify::in_database;
use crate::sql::{finished, SqlView};

verus! {

/// The database a statement means: the one it was written with, or the one it is run against.
pub open spec fn meant(written: Option<Seq<char>>, database: Seq<char>) -> Option<Seq<char>> {
    match written {
        Some(d) => Some(d),
        None => if database == crate::DEFAULT_DATABASE@ {
            None
        } else {
            Some(database)
        },
    }
}

/// A translated update writes the columns that were assigned, each with its own value and in the
/// order they were written, in the table that was named, to exactly the records its condition is
/// true of. It is refused only for a segment that is still written out.
pub proof fn an_update_writes_what_was_assigned(
    u: ast::UpdateView,
    database: Seq<char>,
    name: Seq<char>,
    w: Stored,
)
    ensures
        ({
            let meaning = in_database(ParsedView::Update(u), database);
            &&& meaning is Update
            &&& finished(meaning) matches Ok(s) ==> {
                &&& s matches SqlView::Update(t) && {
                    &&& t.assignments == u.assignments
                    &&& t.table == u.table
                    &&& t.database == meant(u.database, database)
                    &&& forall|r: int|
                        #[trigger] picks(ExprView::Call(t.rows), name, r, w) == holds(
                            meaning->Update_0.filter,
                            name,
                            r,
                            w,
                        )
                }
            }
            &&& finished(meaning) is Ok == segment_in(meaning->Update_0.filter) is None
        }),
{
    let meaning = in_database(ParsedView::Update(u), database);
    let filter = meaning->Update_0.filter;
    a_condition_is_a_call(filter);
    assert forall|r: int|
        #[trigger] picks(
            ExprView::Call(lowered_update(meaning->Update_0).rows),
            name,
            r,
            w,
        ) == holds(filter, name, r, w) by {
        a_where_picks_the_records_it_is_true_of(filter, name, r, w);
    }
}

/// A translated delete clears exactly the records its condition is true of, in the table that was
/// named.
pub proof fn a_delete_clears_what_it_says(
    v: ast::DeleteView,
    database: Seq<char>,
    name: Seq<char>,
    w: Stored,
)
    ensures
        ({
            let meaning = in_database(ParsedView::Delete(v), database);
            &&& meaning is Delete
            &&& finished(meaning) matches Ok(s) ==> {
                &&& s matches SqlView::Delete(t) && {
                    &&& t.table == v.table
                    &&& t.database == meant(v.database, database)
                    &&& forall|r: int|
                        #[trigger] picks(ExprView::Call(t.rows), name, r, w) == holds(
                            meaning->Delete_0.filter,
                            name,
                            r,
                            w,
                        )
                }
            }
            &&& finished(meaning) is Ok == segment_in(meaning->Delete_0.filter) is None
        }),
{
    let meaning = in_database(ParsedView::Delete(v), database);
    let filter = meaning->Delete_0.filter;
    a_condition_is_a_call(filter);
    assert forall|r: int|
        #[trigger] picks(
            ExprView::Call(lowered_delete(meaning->Delete_0).rows),
            name,
            r,
            w,
        ) == holds(filter, name, r, w) by {
        a_where_picks_the_records_it_is_true_of(filter, name, r, w);
    }
}

} // verus!
