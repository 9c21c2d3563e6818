//! A delete and an update, as the call that selects their records.

use vstd::prelude::*;
use crate::ast::{self, copy_assignments, Cond, CondView};
use crate::delete::{Delete, DeleteView};
use crate::lower::calls::named_in;
use crate::lower::cond::{a_condition_is_a_call, rows, selected};
use crate::lower::pql::{as_call, the_call};
use crate::text::{copy_opt, same, views};
use crate::update::{Update, UpdateView};

verus! {

/// The other tables a condition reads, after some already found: in the order they are written
/// and without repeats.
pub open spec fn reads_of(c: CondView, before: Seq<Seq<char>>) -> Seq<Seq<char>>
    decreases c,
{
    match c {
        CondView::InRecords { table, filter, .. } => {
            let with = if named_in(before, table.qualified()) {
                before
            } else {
                before.push(table.qualified())
            };
            match filter {
                Some(f) => reads_of(*f, with),
                None => with,
            }
        },
        CondView::And(a, b) => reads_of(*b, reads_of(*a, before)),
        CondView::Or(a, b) => reads_of(*b, reads_of(*a, before)),
        CondView::Not(inner) => reads_of(*inner, before),
        _ => before,
    }
}

/// The other tables a condition reads, when there is one.
pub open spec fn filter_reads(c: Option<CondView>, before: Seq<Seq<char>>) -> Seq<Seq<char>> {
    match c {
        Some(c) => reads_of(c, before),
        None => before,
    }
}

/// The first `SEGMENT(...)` of a condition.
pub open spec fn segment_in(c: CondView) -> Option<usize>
    decreases c,
{
    match c {
        CondView::Segment { at, .. } => Some(at),
        CondView::And(a, b) => match segment_in(*a) {
            Some(at) => Some(at),
            None => segment_in(*b),
        },
        CondView::Or(a, b) => match segment_in(*a) {
            Some(at) => Some(at),
            None => segment_in(*b),
        },
        CondView::Not(a) => segment_in(*a),
        CondView::InRecords { filter: Some(f), .. } => segment_in(*f),
        _ => None,
    }
}

/// The first `SEGMENT(...)` of a condition, when there is one.
pub open spec fn segment_in_filter(c: Option<CondView>) -> Option<usize> {
    match c {
        Some(c) => segment_in(c),
        None => None,
    }
}

/// A delete selects its records as a `SELECT` with the same condition does.
pub open spec fn lowered_delete(written: ast::DeleteView) -> DeleteView {
    DeleteView {
        database: written.database,
        table: written.table,
        rows: the_call(selected(written.filter)),
        reads: reads_of(written.filter, Seq::empty()),
    }
}

/// An update selects its records as a `SELECT` with the same condition does.
pub open spec fn lowered_update(written: ast::UpdateView) -> UpdateView {
    UpdateView {
        database: written.database,
        table: written.table,
        assignments: written.assignments,
        rows: the_call(selected(written.filter)),
        reads: reads_of(written.filter, Seq::empty()),
    }
}

/// Whether a list of names holds one.
fn holds_name(names: &Vec<String>, name: &str) -> (r: bool)
    ensures
        r == named_in(views(names@), name@),
{
    let mut k: usize = 0;
    while k < names.len()
        invariant
            k <= names@.len(),
            forall|j: int| 0 <= j < k ==> #[trigger] views(names@)[j] != name@,
        decreases names.len() - k,
    {
        if same(names[k].as_str(), name) {
            assert(views(names@)[k as int] == name@);
            return true;
        }
        k += 1;
    }
    false
}

/// The first `SEGMENT(...)` of a condition.
pub fn segment(cond: &Cond) -> (r: Option<usize>)
    ensures
        r == segment_in(cond@),
    decreases cond,
{
    match cond {
        Cond::Segment { at, .. } => Some(*at),
        Cond::And(a, b) => match segment(&**a) {
            Some(at) => Some(at),
            None => segment(&**b),
        },
        Cond::Or(a, b) => match segment(&**a) {
            Some(at) => Some(at),
            None => segment(&**b),
        },
        Cond::Not(a) => segment(&**a),
        Cond::InRecords { filter: Some(f), .. } => segment(&**f),
        _ => None,
    }
}

/// The other tables a condition reads, added to a list.
pub fn walk(cond: &Cond, out: &mut Vec<String>)
    ensures
        views(final(out)@) == reads_of(cond@, views(old(out)@)),
    decreases cond,
{
    match cond {
        Cond::InRecords { table, filter, .. } => {
            let name = table.qualified();
            if !holds_name(out, name.as_str()) {
                let ghost before = views(out@);
                out.push(name);
                assert(views(out@) =~= before.push(name@));
            }
            if let Some(f) = filter {
                walk(&**f, out);
            }
        },
        Cond::And(a, b) => {
            walk(&**a, out);
            walk(&**b, out);
        },
        Cond::Or(a, b) => {
            walk(&**a, out);
            walk(&**b, out);
        },
        Cond::Not(inner) => walk(&**inner, out),
        _ => {},
    }
}

/// The other tables a filter reads, in the order they are written and without repeats.
fn reads(cond: &Cond) -> (r: Vec<String>)
    ensures
        views(r@) == reads_of(cond@, Seq::empty()),
{
    let mut out: Vec<String> = Vec::new();
    assert(views(out@) =~= Seq::<Seq<char>>::empty());
    walk(cond, &mut out);
    out
}

/// The statement, as the call that selects what it clears.
pub fn lower(written: &ast::Delete) -> (r: Delete)
    ensures
        r@ == lowered_delete(written@),
{
    proof {
        a_condition_is_a_call(written.filter@);
    }
    Delete {
        database: copy_opt(&written.database),
        table: written.table.clone(),
        rows: as_call(rows(&written.filter)),
        reads: reads(&written.filter),
    }
}

/// The statement, as the call that selects what it writes.
pub fn update(written: &ast::Update) -> (r: Update)
    ensures
        r@ == lowered_update(written@),
{
    proof {
        a_condition_is_a_call(written.filter@);
    }
    Update {
        database: copy_opt(&written.database),
        table: written.table.clone(),
        assignments: copy_assignments(&written.assignments),
        rows: as_call(rows(&written.filter)),
        reads: reads(&written.filter),
    }
}

} // verus!
