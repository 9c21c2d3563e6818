//! `INSERT INTO t (...) VALUES (...)`, and `INSERT INTO t (...) SELECT ...`.

use vstd::prelude::*;
use crate::ast::{Item, ItemView, Proj, SelectView};
use crate::error::{Refused, Result};
use crate::insert::{Insert, InsertView, Source, SourceView, MAX_INSERT_ROWS, RECORD_COLUMN};
use crate::lex::{Tok, TokView};
use crate::parse::cursor::{ended, expected, goes, moved, past_word, read_ident, read_literal, read_table, refused, seen, seen_all, tok_is, word_at, Env, Out, Parser};
use crate::parse::select::read_select;
use crate::pql::{Literal, LiteralView};
use crate::text::{opt_text, same, same_opt, same_word, views};

verus! {

/// The columns named, after those already read, and the closing bracket.
pub open spec fn read_insert_columns(e: Env, i: int, before: Seq<Seq<char>>) -> Out<Seq<Seq<char>>>
    decreases e.t.len() - i,
{
    match moved(e, i, read_ident(e, i, "a column name"@)) {
        Err(x) => Err(x),
        Ok((name, j)) => if tok_is(e, j, TokView::Comma) {
            read_insert_columns(e, j + 1, before.push(name))
        } else if tok_is(e, j, TokView::RParen) {
            Ok((before.push(name), j + 1))
        } else {
            Err(expected(e, j, ", or ) after the columns"@))
        },
    }
}

/// Which column is the record id, from a position on.
pub open spec fn id_position(columns: Seq<Seq<char>>, k: int) -> Option<usize>
    decreases columns.len() - k,
{
    if k < 0 || k >= columns.len() {
        None
    } else if same_word(columns[k], RECORD_COLUMN@) {
        Some(k as usize)
    } else {
        id_position(columns, k + 1)
    }
}

/// The values of a row, after those already read, and the closing bracket. The value of a record
/// id is a whole number.
pub open spec fn read_row(e: Env, i: int, id_at: Option<usize>, before: Seq<LiteralView>) -> Out<
    Seq<LiteralView>,
>
    decreases e.t.len() - i,
{
    match moved(e, i, read_literal(e, i, "a value"@)) {
        Err(x) => Err(x),
        Ok((value, j)) => if id_at == Some(before.len() as usize) && !(value is Int) {
            Err(refused(e, i, Refused::InsertId))
        } else if tok_is(e, j, TokView::Comma) {
            read_row(e, j + 1, id_at, before.push(value))
        } else if tok_is(e, j, TokView::RParen) {
            Ok((before.push(value), j + 1))
        } else {
            Err(expected(e, j, ", or ) after the values"@))
        },
    }
}

/// One `( <literal>, ... )`, as wide as the column list.
pub open spec fn read_tuple(e: Env, i: int, width: usize, id_at: Option<usize>) -> Out<
    Seq<LiteralView>,
> {
    if !tok_is(e, i, TokView::LParen) {
        Err(expected(e, i, "( and the values for a row"@))
    } else {
        match read_row(e, i + 1, id_at, Seq::empty()) {
            Err(x) => Err(x),
            Ok((values, j)) => if values.len() == width {
                Ok((values, j))
            } else {
                Err(expected(e, j, "one value per column"@))
            },
        }
    }
}

/// The rows, after those already read.
pub open spec fn read_rows(
    e: Env,
    i: int,
    width: usize,
    id_at: Option<usize>,
    before: Seq<Seq<LiteralView>>,
) -> Out<Seq<Seq<LiteralView>>>
    decreases e.t.len() - i,
{
    match moved(e, i, read_tuple(e, i, width, id_at)) {
        Err(x) => Err(x),
        Ok((row, j)) => if tok_is(e, j, TokView::Comma) {
            read_rows(e, j + 1, width, id_at, before.push(row))
        } else {
            Ok((before.push(row), j))
        },
    }
}

/// Whether a select list holds `*`, under an expression or not.
pub open spec fn has_star(items: Seq<ItemView>) -> bool {
    exists|k: int| 0 <= k < items.len() && (#[trigger] items[k]).leaf() is Star
}

/// The query an insert reads its values from, with `SELECT` at `i`. It answers with values and
/// not with record ids, over another table, as wide as the column list.
pub open spec fn read_insert_select(
    e: Env,
    i: int,
    d: int,
    database: Option<Seq<char>>,
    table: Seq<char>,
    width: usize,
    id_at: Option<usize>,
) -> Out<SelectView> {
    match read_select(e, i + 1, d) {
        Err(x) => Err(x),
        Ok((select, j)) => if has_star(select.items) || select.items.len() == 0 {
            Err(refused(e, i, Refused::InsertSelect))
        } else if select.from.table == table && select.from.database == database {
            Err(refused(e, i, Refused::InsertSelfRead))
        } else if id_at is Some {
            Err(refused(e, i, Refused::InsertSelect))
        } else if select.items.len() != width {
            Err(expected(e, j, "as many selected columns as the INSERT names"@))
        } else {
            Ok((select, j))
        },
    }
}

/// Where the values come from, to the end of the statement.
pub open spec fn read_insert_source(
    e: Env,
    i: int,
    d: int,
    database: Option<Seq<char>>,
    table: Seq<char>,
    width: usize,
    id_at: Option<usize>,
) -> Out<SourceView> {
    if word_at(e, i, "SELECT"@) {
        match read_insert_select(e, i, d, database, table, width, id_at) {
            Err(x) => Err(x),
            Ok((select, j)) => ended(e, j, SourceView::Select(Box::new(select))),
        }
    } else if word_at(e, i, "VALUES"@) || word_at(e, i, "VALUE"@) {
        match read_rows(e, i + 1, width, id_at, Seq::empty()) {
            Err(x) => Err(x),
            Ok((rows, j)) => if rows.len() > MAX_INSERT_ROWS {
                Err(refused(e, j, Refused::InsertSize))
            } else {
                ended(e, j, SourceView::Values(rows))
            },
        }
    } else {
        Err(expected(e, i, "VALUES or SELECT"@))
    }
}

/// `[INTO] <table> ( <column>, ... ) ...`, after `INSERT`.
pub open spec fn read_insert(e: Env, i: int, d: int) -> Out<InsertView> {
    if word_at(e, i, "OVERWRITE"@) {
        Err(refused(e, i, Refused::Overwrite))
    } else {
        match read_table(e, past_word(e, i, "INTO"@), "a table name"@) {
            Err(x) => Err(x),
            Ok(((database, table), j)) => if word_at(e, j, "SELECT"@) || word_at(e, j, "WITH"@)
                || !tok_is(e, j, TokView::LParen) {
                Err(refused(e, j, Refused::InsertColumns))
            } else {
                match read_insert_columns(e, j + 1, Seq::empty()) {
                    Err(x) => Err(x),
                    Ok((columns, k)) => {
                        let id_at = id_position(columns, 0);
                        match read_insert_source(
                            e,
                            k,
                            d,
                            database,
                            table,
                            columns.len() as usize,
                            id_at,
                        ) {
                            Err(x) => Err(x),
                            Ok((source, l)) => Ok(
                                (InsertView { database, table, columns, id_at, source }, l),
                            ),
                        }
                    },
                }
            },
        }
    }
}

/// What some rows hold.
pub open spec fn rows_of(v: Seq<Vec<Literal>>) -> Seq<Seq<LiteralView>> {
    v.map_values(|v: Vec<Literal>| views(v@))
}

/// Which column is the record id.
fn find_id(columns: &Vec<String>) -> (r: Option<usize>)
    ensures
        r == id_position(views(columns@), 0),
{
    let mut k: usize = 0;
    while k < columns.len()
        invariant
            k <= columns@.len(),
            id_position(views(columns@), 0) == id_position(views(columns@), k as int),
        decreases columns.len() - k,
    {
        if columns[k].as_str().eq_ignore_ascii_case(RECORD_COLUMN) {
            return Some(k);
        }
        k += 1;
    }
    None
}

/// Whether a select list holds `*`.
fn lists_star(items: &Vec<Item>) -> (r: bool)
    ensures
        r == has_star(views(items@)),
{
    let mut k: usize = 0;
    while k < items.len()
        invariant
            k <= items@.len(),
            forall|n: int| 0 <= n < k ==> !((#[trigger] views(items@)[n]).leaf() is Star),
        decreases items.len() - k,
    {
        if let Proj::Star = items[k].leaf() {
            assert(views(items@)[k as int].leaf() is Star);
            return true;
        }
        k += 1;
    }
    false
}

impl<'a> Parser<'a> {
    /// The columns named, and the closing bracket.
    fn insert_columns(&mut self) -> (r: Result<Vec<String>>)
        requires
            old(self).wf(),
        ensures
            goes(
                *old(self),
                *final(self),
                seen_all(r),
                read_insert_columns(old(self).env(), old(self).i as int, Seq::empty()),
            ),
    {
        let mut out: Vec<String> = Vec::new();
        assert(views(out@) =~= Seq::<Seq<char>>::empty());
        loop
            invariant
                self.wf(),
                self.env() == old(self).env(),
                self.t == old(self).t,
                self.depth == old(self).depth,
                self.i >= old(self).i,
                read_insert_columns(old(self).env(), old(self).i as int, Seq::empty()) == read_insert_columns(self.env(), self.i as int, views(out@)),
            decreases self.t@.len() - self.i,
        {
            let ghost before = views(out@);
            let name = self.bare_ident("a column name")?;
            out.push(name);
            assert(views(out@) =~= before.push(name@));
            if !self.eat(&Tok::Comma) {
                self.expect(&Tok::RParen, ", or ) after the columns")?;
                return Ok(out);
            }
        }
    }

    /// The values of a row, and the closing bracket.
    fn row(&mut self, id_at: Option<usize>) -> (r: Result<Vec<Literal>>)
        requires
            old(self).wf(),
        ensures
            goes(
                *old(self),
                *final(self),
                seen_all(r),
                read_row(old(self).env(), old(self).i as int, id_at, Seq::empty()),
            ),
    {
        let mut out: Vec<Literal> = Vec::new();
        assert(views(out@) =~= Seq::<LiteralView>::empty());
        loop
            invariant
                self.wf(),
                self.env() == old(self).env(),
                self.t == old(self).t,
                self.depth == old(self).depth,
                self.i >= old(self).i,
                read_row(old(self).env(), old(self).i as int, id_at, Seq::empty()) == read_row(self.env(), self.i as int, id_at, views(out@)),
            decreases self.t@.len() - self.i,
        {
            let ghost before = views(out@);
            let at = self.at();
            let value = self.literal("a value")?;
            let whole = match &value {
                Literal::Int(_) => true,
                _ => false,
            };
            if id_at == Some(out.len()) && !whole {
                return Err(self.refuse_at(Refused::InsertId, at));
            }
            out.push(value);
            assert(views(out@) =~= before.push(value@));
            if !self.eat(&Tok::Comma) {
                self.expect(&Tok::RParen, ", or ) after the values")?;
                return Ok(out);
            }
        }
    }

    /// One `( <literal>, ... )`, as wide as the column list.
    fn tuple(&mut self, width: usize, id_at: Option<usize>) -> (r: Result<Vec<Literal>>)
        requires
            old(self).wf(),
        ensures
            goes(
                *old(self),
                *final(self),
                seen_all(r),
                read_tuple(old(self).env(), old(self).i as int, width, id_at),
            ),
            r is Ok ==> final(self).i > old(self).i,
    {
        self.expect(&Tok::LParen, "( and the values for a row")?;
        let values = self.row(id_at)?;
        if values.len() != width {
            return Err(self.syntax("one value per column"));
        }
        Ok(values)
    }

    /// The rows.
    fn rows(&mut self, width: usize, id_at: Option<usize>) -> (r: Result<Vec<Vec<Literal>>>)
        requires
            old(self).wf(),
        ensures
            goes(
                *old(self),
                *final(self),
                match r {
                    Ok(v) => Ok(rows_of(v@)),
                    Err(e) => Err(e@),
                },
                read_rows(old(self).env(), old(self).i as int, width, id_at, Seq::empty()),
            ),
    {
        let mut out: Vec<Vec<Literal>> = Vec::new();
        assert(rows_of(out@) =~= Seq::<Seq<LiteralView>>::empty());
        loop
            invariant
                self.wf(),
                self.env() == old(self).env(),
                self.t == old(self).t,
                self.depth == old(self).depth,
                self.i >= old(self).i,
                read_rows(old(self).env(), old(self).i as int, width, id_at, Seq::empty()) == read_rows(self.env(), self.i as int, width, id_at, rows_of(out@)),
            decreases self.t@.len() - self.i,
        {
            let ghost before = rows_of(out@);
            let row = self.tuple(width, id_at)?;
            let ghost seen_row = views(row@);
            out.push(row);
            assert(rows_of(out@) =~= before.push(seen_row));
            if !self.eat(&Tok::Comma) {
                return Ok(out);
            }
        }
    }

    /// The query an insert reads its values from, with `SELECT` still ahead.
    fn insert_select(&mut self, database: &Option<String>, table: &str, columns: usize, id_at: Option<usize>) -> (r: Result<Source>)
        requires
            old(self).wf(),
        ensures
            goes(
                *old(self),
                *final(self),
                seen(r),
                (if word_at(old(self).env(), old(self).i as int, "SELECT"@) {
                    match read_insert_select(
                        old(self).env(),
                        old(self).i as int,
                        old(self).depth as int,
                        opt_text(*database),
                        table@,
                        columns,
                        id_at,
                    ) {
                        Err(x) => Err(x),
                        Ok((select, j)) => Ok((SourceView::Select(Box::new(select)), j)),
                    }
                } else {
                    Err(expected(old(self).env(), old(self).i as int, "SELECT"@))
                }),
            ),
    {
        let at = self.at();
        self.expect_word("SELECT", "SELECT")?;
        let select = self.select()?;
        if lists_star(&select.items) || select.items.len() == 0 {
            return Err(self.refuse_at(Refused::InsertSelect, at));
        }
        if same(select.from.table.as_str(), table) && same_opt(&select.from.database, database) {
            return Err(self.refuse_at(Refused::InsertSelfRead, at));
        }
        if id_at.is_some() {
            return Err(self.refuse_at(Refused::InsertSelect, at));
        }
        if select.items.len() != columns {
            return Err(self.syntax("as many selected columns as the INSERT names"));
        }
        Ok(Source::Select(Box::new(select)))
    }

    /// Where the values come from, to the end of the statement.
    fn insert_source(&mut self, database: &Option<String>, table: &str, columns: usize, id_at: Option<usize>) -> (r: Result<Source>)
        requires
            old(self).wf(),
        ensures
            goes(
                *old(self),
                *final(self),
                seen(r),
                read_insert_source(
                    old(self).env(),
                    old(self).i as int,
                    old(self).depth as int,
                    opt_text(*database),
                    table@,
                    columns,
                    id_at,
                ),
            ),
    {
        if self.word_is("SELECT") {
            let source = self.insert_select(database, table, columns, id_at)?;
            self.end_of_statement()?;
            return Ok(source);
        }
        if !self.eat_word("VALUES") && !self.eat_word("VALUE") {
            return Err(self.syntax("VALUES or SELECT"));
        }
        let rows = self.rows(columns, id_at)?;
        if rows.len() > MAX_INSERT_ROWS {
            return Err(self.refuse(Refused::InsertSize));
        }
        self.end_of_statement()?;
        Ok(Source::Values(rows))
    }

    /// `INSERT [INTO] <table> ( <column>, ... ) ...`, with `INSERT` consumed.
    pub(crate) fn insert(&mut self) -> (r: Result<Insert>)
        requires
            old(self).wf(),
        ensures
            goes(
                *old(self),
                *final(self),
                seen(r),
                read_insert(old(self).env(), old(self).i as int, old(self).depth as int),
            ),
    {
        if self.word_is("OVERWRITE") {
            return Err(self.refuse(Refused::Overwrite));
        }
        self.eat_word("INTO");
        let (database, table) = self.table_ref("a table name")?;
        if self.word_is("SELECT") || self.word_is("WITH") {
            return Err(self.refuse(Refused::InsertColumns));
        }
        if !self.eat(&Tok::LParen) {
            return Err(self.refuse(Refused::InsertColumns));
        }
        let columns = self.insert_columns()?;
        let id_at = find_id(&columns);
        let source = self.insert_source(&database, table.as_str(), columns.len(), id_at)?;
        Ok(Insert { database, table, columns, id_at, source })
    }
}

} // verus!
