//! A write of values.

use vstd::prelude::*;
use crate::ast::{Select, SelectView};
use crate::pql::{Literal, LiteralView};
use crate::text::{copy_all, copy_opt, opt_text, views};

verus! {

/// How many rows one `INSERT` may carry.
pub const MAX_INSERT_ROWS: usize = 10_000;

/// The column that names the record id.
pub const RECORD_COLUMN: &'static str = "_record_id";

/// Values for the columns of one table.
#[derive(PartialEq, Eq, Debug)]
pub struct Insert {
    pub database: Option<String>,
    pub table: String,
    /// In the order written.
    pub columns: Vec<String>,
    /// Which of them is the record id, if one is.
    pub id_at: Option<usize>,
    /// Where the values come from.
    pub source: Source,
}

/// What a [`Insert`] holds.
#[verifier::ext_equal]
pub struct InsertView {
    pub database: Option<Seq<char>>,
    pub table: Seq<char>,
    pub columns: Seq<Seq<char>>,
    pub id_at: Option<usize>,
    pub source: SourceView,
}

impl View for Insert {
    type V = InsertView;

    open spec fn view(&self) -> InsertView {
        InsertView {
            database: opt_text(self.database),
            table: self.table@,
            columns: views(self.columns@),
            id_at: self.id_at,
            source: self.source@,
        }
    }
}

impl Clone for Insert {
    fn clone(&self) -> (r: Insert)
        ensures
            r@ == self@,
    {
        Insert {
            database: copy_opt(&self.database),
            table: self.table.clone(),
            columns: copy_all(&self.columns),
            id_at: self.id_at,
            source: self.source.clone(),
        }
    }
}

/// Where the values of an insert come from.
#[derive(PartialEq, Eq, Debug)]
pub enum Source {
    /// Rows written out.
    Values(Vec<Vec<Literal>>),
    /// A query.
    Select(Box<Select>),
}

/// What a [`Source`] holds.
#[verifier::ext_equal]
pub enum SourceView {
    Values(Seq<Seq<LiteralView>>),
    Select(Box<SelectView>),
}

impl View for Source {
    type V = SourceView;

    open spec fn view(&self) -> SourceView {
        match *self {
            Source::Values(a) => SourceView::Values(a@.map_values(|v: Vec<Literal>| views(v@))),
            Source::Select(a) => SourceView::Select(Box::new((*a)@)),
        }
    }
}

/// What some rows hold.
pub open spec fn listed_rows(v: Seq<Vec<Literal>>) -> Seq<Seq<LiteralView>> {
    v.map_values(|v: Vec<Literal>| views(v@))
}

/// A copy of some rows.
fn copy_rows(v: &Vec<Vec<Literal>>) -> (r: Vec<Vec<Literal>>)
    ensures
        listed_rows(r@) == listed_rows(v@),
{
    let mut out: Vec<Vec<Literal>> = Vec::new();
    let mut k: usize = 0;
    while k < v.len()
        invariant
            k <= v@.len(),
            out@.len() == k,
            forall|j: int| 0 <= j < k ==> views((#[trigger] out@[j])@) == views(v@[j]@),
        decreases v.len() - k,
    {
        out.push(copy_all(&v[k]));
        k += 1;
    }
    assert(listed_rows(out@) =~= listed_rows(v@));
    out
}

impl Clone for Source {
    fn clone(&self) -> (r: Source)
        ensures
            r@ == self@,
    {
        match self {
            Source::Values(a) => Source::Values(copy_rows(a)),
            Source::Select(a) => Source::Select(Box::new((**a).clone())),
        }
    }
}

impl InsertView {
    /// Every row is as wide as the column list, and a written record id is a whole number.
    pub open spec fn wf(self) -> bool {
        &&& self.id_at is Some ==> self.id_at->0 < self.columns.len()
        &&& self.source matches SourceView::Values(rows) ==> forall|k: int|
            0 <= k < rows.len() ==> self.row_wf(#[trigger] rows[k])
    }

    /// A row as wide as the column list, with a whole number where the record id is.
    pub open spec fn row_wf(self, row: Seq<LiteralView>) -> bool {
        &&& row.len() == self.columns.len()
        &&& self.id_at is Some && self.id_at->0 < row.len() ==> row[self.id_at->0 as int] is Int
    }

    /// How many of the columns are fields: all of them but the record id.
    pub open spec fn fields(self) -> int {
        if self.id_at is Some {
            self.columns.len() - 1
        } else {
            self.columns.len() as int
        }
    }

    /// The fields of a row and their values, among the first `n` columns.
    pub open spec fn facts(self, row: Seq<LiteralView>, n: int) -> Seq<(Seq<char>, LiteralView)>
        decreases n,
    {
        if n <= 0 {
            Seq::empty()
        } else if self.id_at == Some((n - 1) as usize) {
            self.facts(row, n - 1)
        } else {
            self.facts(row, n - 1).push((self.columns[n - 1], row[n - 1]))
        }
    }

    /// How many rows are written out.
    pub open spec fn row_count(self) -> nat {
        match self.source {
            SourceView::Values(rows) => rows.len(),
            SourceView::Select(_) => 0,
        }
    }
}

/// A row has one fact for every field.
pub proof fn a_row_has_a_fact_per_field(insert: InsertView, row: Seq<LiteralView>)
    requires
        insert.wf(),
        insert.columns.len() <= usize::MAX,
    ensures
        insert.facts(row, insert.columns.len() as int).len() == insert.fields(),
{
    lemma_facts_len(insert, row, insert.columns.len() as int);
}

proof fn lemma_facts_len(insert: InsertView, row: Seq<LiteralView>, n: int)
    requires
        0 <= n <= usize::MAX,
    ensures
        insert.facts(row, n).len() == if insert.id_at is Some && insert.id_at->0 < n {
            n - 1
        } else {
            n
        },
    decreases n,
{
    if n > 0 {
        lemma_facts_len(insert, row, n - 1);
    }
}

impl Insert {
    /// The record one row is about, or `None` when the statement left that to the server.
    pub fn record(&self, row: &[Literal]) -> (r: Option<u64>)
        requires
            self.id_at matches Some(k) ==> k < row@.len() && views(row@)[k as int] is Int,
        ensures
            match self.id_at {
                Some(k) => r is Some && views(row@)[k as int] == LiteralView::Int(r->0),
                None => r is None,
            },
    {
        match self.id_at {
            None => None,
            Some(k) => {
                assert(views(row@)[k as int] == row@[k as int]@);
                match &row[k] {
                    Literal::Int(n) => Some(*n),
                    _ => None,
                }
            },
        }
    }

    /// The columns of one row that are fields, with their values: everything but the id. A row
    /// shorter than the column list has no value for the rest.
    pub fn facts<'a>(&'a self, row: &'a [Literal]) -> (r: Vec<(&'a str, &'a Literal)>)
        ensures
            r@.map_values(|p: (&'a str, &'a Literal)| (p.0@, p.1@)) == self@.facts(
                views(row@),
                if row@.len() < self@.columns.len() {
                    row@.len() as int
                } else {
                    self@.columns.len() as int
                },
            ),
    {
        let mut out: Vec<(&'a str, &'a Literal)> = Vec::new();
        let mut k: usize = 0;
        assert(out@.map_values(|p: (&'a str, &'a Literal)| (p.0@, p.1@)) =~= Seq::empty());
        while k < self.columns.len() && k < row.len()
            invariant
                k <= self.columns@.len(),
                k <= row@.len(),
                out@.map_values(|p: (&'a str, &'a Literal)| (p.0@, p.1@)) == self@.facts(
                    views(row@),
                    k as int,
                ),
            decreases self.columns.len() - k,
        {
            let ghost before = out@.map_values(|p: (&'a str, &'a Literal)| (p.0@, p.1@));
            if self.id_at != Some(k) {
                out.push((self.columns[k].as_str(), &row[k]));
                assert(out@.map_values(|p: (&'a str, &'a Literal)| (p.0@, p.1@)) =~= before.push(
                    (self@.columns[k as int], views(row@)[k as int]),
                ));
            }
            k += 1;
        }
        out
    }

    /// How many facts the rows written out come to, which is what they cost.
    pub fn fact_count(&self) -> (r: usize)
        requires
            self.id_at is Some ==> self.columns@.len() > 0,
            self@.row_count() * self@.fields() <= usize::MAX,
        ensures
            r == self@.row_count() * self@.fields(),
    {
        let fields = self.field_count();
        match &self.source {
            Source::Values(rows) => rows.len() * fields,
            Source::Select(_) => {
                assert(self@.row_count() * self@.fields() == 0) by (nonlinear_arith)
                    requires
                        self@.row_count() == 0,
                ;
                0
            },
        }
    }

    /// How many of the columns are fields, which is all of them but the id.
    pub fn field_count(&self) -> (r: usize)
        requires
            self.id_at is Some ==> self.columns@.len() > 0,
        ensures
            r == self@.fields(),
    {
        if self.id_at.is_some() {
            self.columns.len() - 1
        } else {
            self.columns.len()
        }
    }
}

} // verus!
