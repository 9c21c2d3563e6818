//! `SELECT * FROM system.tables`: the catalog, asked about the way everything else is.
//!
//! Over a table `*` is the record id; over a system view it is every column. So the `FROM` is
//! looked at before the select list is read.

use vstd::prelude::*;
use crate::error::{Refused, Result};
use crate::lex::{Tok, TokView};
use crate::parse::cursor::{at_end, expected, goes, moved, read_ident, read_text, refused, seen, seen_plain, tok_is, word_at, Env, Out, Parser};
use crate::parse::select::read_format;
use crate::show::{Show, ShowView, Shown, ShownView, SystemView, SYSTEM_DATABASE};
use crate::text::{opt_text, same_word, views};

verus! {

/// Where the first `FROM` is, from a position on.
pub open spec fn first_from(e: Env, i: int) -> Option<int>
    decreases e.t.len() - i,
{
    if i < 0 || i >= e.t.len() {
        None
    } else if word_at(e, i, "FROM"@) {
        Some(i)
    } else {
        first_from(e, i + 1)
    }
}

/// Whether the statement's `FROM` is followed by a given word and a given token.
pub open spec fn from_names(e: Env, i: int, word: Seq<char>, tok: TokView) -> bool {
    match first_from(e, i) {
        Some(j) => word_at(e, j + 1, word) && tok_is(e, j + 2, tok),
        None => false,
    }
}

/// One bare column name.
pub open spec fn read_system_column(e: Env, i: int) -> Out<Seq<char>> {
    match read_ident(e, i, "a column name, or `*`"@) {
        Err(x) => Err(x),
        Ok((name, j)) => if tok_is(e, j, TokView::LParen) || tok_is(e, j, TokView::Dot) || word_at(
            e,
            j,
            "AS"@,
        ) {
            Err(refused(e, i, Refused::SystemClause))
        } else {
            Ok((name, j))
        },
    }
}

/// The columns to keep, after those already read.
pub open spec fn more_columns(e: Env, i: int, before: Seq<Seq<char>>) -> Out<Seq<Seq<char>>>
    decreases e.t.len() - i,
{
    match moved(e, i, read_system_column(e, i)) {
        Err(x) => Err(x),
        Ok((name, j)) => if tok_is(e, j, TokView::Comma) {
            more_columns(e, j + 1, before.push(name))
        } else {
            Ok((before.push(name), j))
        },
    }
}

/// The select list: `*`, or the columns to keep.
pub open spec fn read_system_columns(e: Env, i: int) -> Out<Option<Seq<Seq<char>>>> {
    if tok_is(e, i, TokView::Star) {
        Ok((None, i + 1))
    } else {
        match more_columns(e, i, Seq::empty()) {
            Err(x) => Err(x),
            Ok((columns, j)) => Ok((Some(columns), j)),
        }
    }
}

/// The database and the table a view is narrowed to.
pub type Narrowed = (Option<Seq<char>>, Option<Seq<char>>);

/// One equality of the `WHERE`, over what the ones before it said.
pub open spec fn read_equality(e: Env, i: int, view: SystemView, to: Narrowed) -> Out<Narrowed> {
    match read_ident(e, i, "`database` or `table`"@) {
        Err(x) => Err(x),
        Ok((column, j)) => if !tok_is(e, j, TokView::Op("="@)) {
            Err(refused(e, i, Refused::SystemClause))
        } else {
            match read_text(e, j + 1, refused(e, i, Refused::SystemClause)) {
                Err(x) => Err(x),
                Ok((value, k)) => if same_word(column, "database"@) {
                    Ok(((Some(value), to.1), k))
                } else if same_word(column, "table"@) && (view is Columns || view is Parts) {
                    Ok(((to.0, Some(value)), k))
                } else {
                    Err(refused(e, i, Refused::SystemClause))
                },
            }
        },
    }
}

/// The equalities of the `WHERE`.
pub open spec fn more_equalities(e: Env, i: int, view: SystemView, to: Narrowed) -> Out<Narrowed>
    decreases e.t.len() - i,
{
    match moved(e, i, read_equality(e, i, view, to)) {
        Err(x) => Err(x),
        Ok((to2, j)) => if word_at(e, j, "AND"@) {
            more_equalities(e, j + 1, view, to2)
        } else {
            Ok((to2, j))
        },
    }
}

/// The one `WHERE` a system view takes: `database = '...'`, and `table = '...'` on the views that
/// have tables to tell apart.
pub open spec fn read_system_filter(e: Env, i: int, view: SystemView) -> Out<Narrowed> {
    if word_at(e, i, "WHERE"@) {
        more_equalities(e, i + 1, view, (None, None))
    } else {
        Ok(((None, None), i))
    }
}

/// `FROM system.<view>`.
pub open spec fn read_system_view(e: Env, i: int) -> Out<SystemView> {
    if !word_at(e, i, "FROM"@) {
        Err(expected(e, i, "FROM after the select list"@))
    } else if !word_at(e, i + 1, SYSTEM_DATABASE@) || !tok_is(e, i + 2, TokView::Dot) {
        Err(expected(e, i + 1, "a view of the `system` database"@))
    } else {
        match read_ident(e, i + 3, "a view name after `system.`"@) {
            Err(x) => Err(x),
            Ok((name, j)) => match SystemView::spelled(name) {
                Some(view) => Ok((view, j)),
                None => Err(refused(e, i + 3, Refused::SystemTable)),
            },
        }
    }
}

/// `SELECT <list> FROM system.<view> [WHERE ...] [FORMAT f]`, after `SELECT`. Every other clause
/// is refused at the word that names it.
pub open spec fn read_system_select(e: Env, i: int) -> Out<ShowView> {
    match read_system_columns(e, i) {
        Err(x) => Err(x),
        Ok((columns, j)) => match read_system_view(e, j) {
            Err(x) => Err(x),
            Ok((view, k)) => match read_system_filter(e, k, view) {
                Err(x) => Err(x),
                Ok(((database, table), l)) => match read_format(e, l) {
                    Err(x) => Err(x),
                    Ok((format, m)) => if at_end(e, m) {
                        Ok(
                            (
                                ShowView {
                                    what: ShownView::System { view, database, table, columns },
                                    format,
                                },
                                m,
                            ),
                        )
                    } else {
                        Err(refused(e, m, Refused::SystemClause))
                    },
                },
            },
        },
    }
}

impl<'a> Parser<'a> {
    /// Whether the statement's `FROM` is followed by a given word and a given token.
    fn from_is(&self, word: &str, tok: &Tok) -> (r: bool)
        requires
            self.wf(),
        ensures
            r == from_names(self.env(), self.i as int, word@, tok@),
    {
        let mut n: usize = 0;
        while n < self.t.len() - self.i
            invariant
                self.wf(),
                n <= self.t@.len() - self.i,
                first_from(self.env(), self.i as int) == first_from(self.env(), self.i + n),
            decreases self.t@.len() - self.i - n,
        {
            if self.word_at_is(n, "FROM") {
                return self.word_at_is(n + 1, word) && self.tok_at_is(
                    n + 2,
                    tok,
                );
            }
            n += 1;
        }
        false
    }

    /// Whether this statement's `FROM` names the `system` database.
    pub(crate) fn names_system(&self) -> (r: bool)
        requires
            self.wf(),
        ensures
            r == from_names(self.env(), self.i as int, SYSTEM_DATABASE@, TokView::Dot),
    {
        self.from_is(SYSTEM_DATABASE, &Tok::Dot)
    }

    /// Whether this statement's `FROM` names `numbers(`. Without the bracket it is a table
    /// somebody called `numbers`.
    pub(crate) fn names_numbers(&self) -> (r: bool)
        requires
            self.wf(),
        ensures
            r == from_names(self.env(), self.i as int, "numbers"@, TokView::LParen),
    {
        self.from_is("numbers", &Tok::LParen)
    }

    /// One bare column name.
    fn system_column(&mut self) -> (r: Result<String>)
        requires
            old(self).wf(),
        ensures
            goes(
                *old(self),
                *final(self),
                seen(r),
                read_system_column(old(self).env(), old(self).i as int),
            ),
            r is Ok ==> final(self).i > old(self).i,
    {
        let at = self.at();
        let name = self.bare_ident("a column name, or `*`")?;
        if self.is_tok(&Tok::LParen) || self.is_tok(&Tok::Dot) || self.word_is("AS") {
            return Err(self.refuse_at(Refused::SystemClause, at));
        }
        Ok(name)
    }

    /// The columns to keep.
    fn column_names(&mut self) -> (r: Result<Vec<String>>)
        requires
            old(self).wf(),
        ensures
            goes(
                *old(self),
                *final(self),
                match r {
                    Ok(v) => Ok(views(v@)),
                    Err(e) => Err(e@),
                },
                more_columns(old(self).env(), old(self).i as int, Seq::empty()),
            ),
    {
        let mut out: Vec<String> = Vec::new();
        assert(views(out@) =~= Seq::<Seq<char>>::empty());
        loop
            invariant
                self.wf(),
                self.env() == old(self).env(),
                self.t == old(self).t,
                self.depth == old(self).depth,
                self.i >= old(self).i,
                more_columns(old(self).env(), old(self).i as int, Seq::empty()) == more_columns(self.env(), self.i as int, views(out@)),
            decreases self.t@.len() - self.i,
        {
            let ghost before = views(out@);
            let name = self.system_column()?;
            out.push(name);
            assert(views(out@) =~= before.push(name@));
            if !self.eat(&Tok::Comma) {
                return Ok(out);
            }
        }
    }

    /// The select list: `*`, or the columns to keep.
    fn system_columns(&mut self) -> (r: Result<Option<Vec<String>>>)
        requires
            old(self).wf(),
        ensures
            goes(
                *old(self),
                *final(self),
                match r {
                    Ok(Some(v)) => Ok(Some(views(v@))),
                    Ok(None) => Ok(None),
                    Err(e) => Err(e@),
                },
                read_system_columns(old(self).env(), old(self).i as int),
            ),
    {
        if self.eat(&Tok::Star) {
            Ok(None)
        } else {
            Ok(Some(self.column_names()?))
        }
    }

    /// One equality of the `WHERE`.
    fn system_equality(&mut self, view: SystemView, database: Option<String>, table: Option<String>) -> (r: Result<(Option<String>, Option<String>)>)
        requires
            old(self).wf(),
        ensures
            goes(
                *old(self),
                *final(self),
                match r {
                    Ok(p) => Ok((opt_text(p.0), opt_text(p.1))),
                    Err(e) => Err(e@),
                },
                read_equality(old(self).env(), old(self).i as int, view, (opt_text(database), opt_text(table))),
            ),
            r is Ok ==> final(self).i > old(self).i,
    {
        let at = self.at();
        let column = self.bare_ident("`database` or `table`")?;
        if !self.eat(&Tok::Op("=")) {
            return Err(self.refuse_at(Refused::SystemClause, at));
        }
        let value = match self.quoted() {
            Some(value) => value,
            None => {
                return Err(self.refuse_at(Refused::SystemClause, at));
            },
        };
        let tabled = match view {
            SystemView::Columns => true,
            SystemView::Parts => true,
            _ => false,
        };
        if column.as_str().eq_ignore_ascii_case("database") {
            Ok((Some(value), table))
        } else if column.as_str().eq_ignore_ascii_case("table") && tabled {
            Ok((database, Some(value)))
        } else {
            Err(self.refuse_at(Refused::SystemClause, at))
        }
    }

    /// The one `WHERE` a system view takes.
    fn system_filter(&mut self, view: SystemView) -> (r: Result<(Option<String>, Option<String>)>)
        requires
            old(self).wf(),
        ensures
            goes(
                *old(self),
                *final(self),
                match r {
                    Ok(p) => Ok((opt_text(p.0), opt_text(p.1))),
                    Err(e) => Err(e@),
                },
                read_system_filter(old(self).env(), old(self).i as int, view),
            ),
    {
        let mut database: Option<String> = None;
        let mut table: Option<String> = None;
        if !self.eat_word("WHERE") {
            return Ok((database, table));
        }
        loop
            invariant
                self.wf(),
                self.env() == old(self).env(),
                self.t == old(self).t,
                self.depth == old(self).depth,
                self.i >= old(self).i,
                read_system_filter(old(self).env(), old(self).i as int, view) == more_equalities(self.env(), self.i as int, view, (opt_text(database), opt_text(table))),
            decreases self.t@.len() - self.i,
        {
            let (d, t) = self.system_equality(view, database, table)?;
            database = d;
            table = t;
            if !self.eat_word("AND") {
                return Ok((database, table));
            }
        }
    }

    /// `FROM system.<view>`.
    fn system_view(&mut self) -> (r: Result<SystemView>)
        requires
            old(self).wf(),
        ensures
            goes(
                *old(self),
                *final(self),
                seen_plain(r),
                read_system_view(old(self).env(), old(self).i as int),
            ),
    {
        self.expect_word("FROM", "FROM after the select list")?;
        if !self.word_is(SYSTEM_DATABASE) || !self.tok_at_is(1, &Tok::Dot) {
            return Err(self.syntax("a view of the `system` database"));
        }
        self.skip(2);
        let at = self.at();
        let name = self.bare_ident("a view name after `system.`")?;
        match SystemView::of(name.as_str()) {
            Some(view) => Ok(view),
            None => Err(self.refuse_at(Refused::SystemTable, at)),
        }
    }

    /// `SELECT <list> FROM system.<view> ...`, with `SELECT` already consumed.
    pub(crate) fn system_select(&mut self) -> (r: Result<Show>)
        requires
            old(self).wf(),
        ensures
            goes(
                *old(self),
                *final(self),
                seen(r),
                read_system_select(old(self).env(), old(self).i as int),
            ),
    {
        let columns = self.system_columns()?;
        let view = self.system_view()?;
        let (database, table) = self.system_filter(view)?;
        let format = self.format()?;
        if !self.done() {
            return Err(self.refuse(Refused::SystemClause));
        }
        Ok(Show { what: Shown::System { view, database, table, columns }, format })
    }
}

} // verus!
