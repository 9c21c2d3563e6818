//! `DELETE FROM t WHERE ...` and `UPDATE t SET c = v WHERE ...`.

use vstd::prelude::*;
use crate::ast::{CondView, Cond, Delete, DeleteView, Update, UpdateView};
use crate::error::{Refused, Result};
use crate::insert::RECORD_COLUMN;
use crate::lex::{Tok, TokView};
use crate::parse::cond::read_cond;
use crate::parse::cursor::{a_word, ended, expected, goes, moved, offset, peek_at, read_ident, read_literal, read_table, refusal, refused, tok_is, word_at, Env, Out, Parser};
use crate::parse::settings::read_settings;
use crate::pql::{Literal, LiteralView};
use crate::settings::Settings;
use crate::text::same;

verus! {

/// `WHERE <cond> [SETTINGS ...]` to the end of the statement. A statement that names every record
/// is refused at `at`, and so is one that names some of them by an order.
pub open spec fn read_narrowing(e: Env, i: int, d: int, at: usize) -> Out<(CondView, Settings)> {
    if !word_at(e, i, "WHERE"@) {
        Err(refusal(Refused::DeleteAll, at))
    } else {
        match read_cond(e, i + 1, d) {
            Err(x) => Err(x),
            Ok((filter, j)) => if word_at(e, j, "ORDER"@) || word_at(e, j, "LIMIT"@) {
                Err(refused(e, j, Refused::DeleteAll))
            } else {
                match read_settings(e, j) {
                    Err(x) => Err(x),
                    Ok((settings, k)) => ended(e, k, (filter, settings)),
                }
            },
        }
    }
}

/// `FROM <table> WHERE <cond> [SETTINGS ...]`, after `DELETE`.
pub open spec fn read_delete(e: Env, i: int, d: int) -> Out<(DeleteView, Settings)> {
    if !word_at(e, i, "FROM"@) {
        Err(expected(e, i, "FROM after DELETE"@))
    } else {
        match read_table(e, i + 1, "a table name"@) {
            Err(x) => Err(x),
            Ok(((database, table), j)) => if word_at(e, j, "USING"@) || tok_is(
                e,
                j,
                TokView::Comma,
            ) {
                Err(refused(e, j, Refused::Joins))
            } else {
                match read_narrowing(e, j, d, offset(e, i + 1)) {
                    Err(x) => Err(x),
                    Ok(((filter, settings), k)) => Ok(
                        (
                            (
                                DeleteView { database, table, filter, at: offset(e, i + 1) },
                                settings,
                            ),
                            k,
                        ),
                    ),
                }
            },
        }
    }
}

/// One `<column> = <value>`. A record id is where a fact is written and not something stored in
/// one, and a value that is not a constant is a read of every record.
pub open spec fn read_assignment(e: Env, i: int) -> Out<(Seq<char>, LiteralView)> {
    match read_ident(e, i, "a column name"@) {
        Err(x) => Err(x),
        Ok((column, j)) => if column == RECORD_COLUMN@ {
            Err(refused(e, i, Refused::IdColumn))
        } else if !tok_is(e, j, TokView::Op("="@)) {
            Err(expected(e, j, "= after the column name"@))
        } else {
            match read_literal(e, j + 1, "a value"@) {
                Err(x) => if a_word(e, j + 1) {
                    Err(refused(e, j + 1, Refused::Expression))
                } else {
                    Err(x)
                },
                Ok((value, k)) => if peek_at(e, k) is Some && peek_at(e, k)->0 is Arith {
                    Err(refused(e, k, Refused::Expression))
                } else {
                    Ok(((column, value), k))
                },
            }
        },
    }
}

/// The assignments, after those already read.
pub open spec fn read_assignments(
    e: Env,
    i: int,
    before: Seq<(Seq<char>, LiteralView)>,
) -> Out<Seq<(Seq<char>, LiteralView)>>
    decreases e.t.len() - i,
{
    match moved(e, i, read_assignment(e, i)) {
        Err(x) => Err(x),
        Ok((one, j)) => if tok_is(e, j, TokView::Comma) {
            read_assignments(e, j + 1, before.push(one))
        } else {
            Ok((before.push(one), j))
        },
    }
}

/// `<table> SET <column> = <value> [, ...] WHERE <cond> [SETTINGS ...]`, after `UPDATE`.
pub open spec fn read_update(e: Env, i: int, d: int) -> Out<(UpdateView, Settings)> {
    match read_table(e, i, "a table name"@) {
        Err(x) => Err(x),
        Ok(((database, table), j)) => if !word_at(e, j, "SET"@) {
            Err(expected(e, j, "SET after the table name"@))
        } else {
            match read_assignments(e, j + 1, Seq::empty()) {
                Err(x) => Err(x),
                Ok((assignments, k)) => match read_narrowing(e, k, d, offset(e, i)) {
                    Err(x) => Err(x),
                    Ok(((filter, settings), l)) => Ok(
                        (
                            (
                                UpdateView {
                                    database,
                                    table,
                                    assignments,
                                    filter,
                                    at: offset(e, i),
                                },
                                settings,
                            ),
                            l,
                        ),
                    ),
                },
            }
        },
    }
}

/// What some assignments hold.
pub open spec fn assigned(v: Seq<(String, Literal)>) -> Seq<(Seq<char>, LiteralView)> {
    v.map_values(|v: (String, Literal)| (v.0@, v.1@))
}

impl<'a> Parser<'a> {
    /// `WHERE <cond> [SETTINGS ...]` to the end of the statement.
    fn narrowing(&mut self, at: usize) -> (r: Result<(Cond, Settings)>)
        requires
            old(self).wf(),
        ensures
            goes(
                *old(self),
                *final(self),
                match r {
                    Ok(p) => Ok((p.0@, p.1)),
                    Err(e) => Err(e@),
                },
                read_narrowing(old(self).env(), old(self).i as int, old(self).depth as int, at),
            ),
    {
        if !self.eat_word("WHERE") {
            return Err(self.refuse_at(Refused::DeleteAll, at));
        }
        let filter = self.cond()?;
        if self.word_is("ORDER") || self.word_is("LIMIT") {
            return Err(self.refuse(Refused::DeleteAll));
        }
        let settings = self.settings()?;
        self.end_of_statement()?;
        Ok((filter, settings))
    }

    /// `DELETE FROM <table> WHERE <cond>`, with `DELETE` already consumed.
    pub(crate) fn delete(&mut self) -> (r: Result<(Delete, Settings)>)
        requires
            old(self).wf(),
        ensures
            goes(
                *old(self),
                *final(self),
                match r {
                    Ok(p) => Ok((p.0@, p.1)),
                    Err(e) => Err(e@),
                },
                read_delete(old(self).env(), old(self).i as int, old(self).depth as int),
            ),
    {
        self.expect_word("FROM", "FROM after DELETE")?;
        let at = self.at();
        let (database, table) = self.table_ref("a table name")?;
        if self.word_is("USING") || self.is_tok(&Tok::Comma) {
            return Err(self.refuse(Refused::Joins));
        }
        let (filter, settings) = self.narrowing(at)?;
        Ok((Delete { database, table, filter, at }, settings))
    }

    /// One `<column> = <value>`.
    fn assignment(&mut self) -> (r: Result<(String, Literal)>)
        requires
            old(self).wf(),
        ensures
            goes(
                *old(self),
                *final(self),
                match r {
                    Ok(p) => Ok((p.0@, p.1@)),
                    Err(e) => Err(e@),
                },
                read_assignment(old(self).env(), old(self).i as int),
            ),
            r is Ok ==> final(self).i > old(self).i,
    {
        let at = self.at();
        let column = self.bare_ident("a column name")?;
        if same(column.as_str(), RECORD_COLUMN) {
            return Err(self.refuse_at(Refused::IdColumn, at));
        }
        self.expect(&Tok::Op("="), "= after the column name")?;
        let worded = self.word().is_some();
        let value = match self.literal("a value") {
            Ok(v) => v,
            Err(x) => {
                if worded {
                    return Err(self.refuse(Refused::Expression));
                }
                return Err(x);
            },
        };
        if let Some(Tok::Arith(_)) = self.peek() {
            return Err(self.refuse(Refused::Expression));
        }
        Ok((column, value))
    }

    /// The assignments.
    fn assignments(&mut self) -> (r: Result<Vec<(String, Literal)>>)
        requires
            old(self).wf(),
        ensures
            goes(
                *old(self),
                *final(self),
                match r {
                    Ok(v) => Ok(assigned(v@)),
                    Err(e) => Err(e@),
                },
                read_assignments(old(self).env(), old(self).i as int, Seq::empty()),
            ),
    {
        let mut out: Vec<(String, Literal)> = Vec::new();
        assert(assigned(out@) =~= Seq::<(Seq<char>, LiteralView)>::empty());
        loop
            invariant
                self.wf(),
                self.env() == old(self).env(),
                self.t == old(self).t,
                self.depth == old(self).depth,
                self.i >= old(self).i,
                read_assignments(old(self).env(), old(self).i as int, Seq::empty()) == read_assignments(self.env(), self.i as int, assigned(out@)),
            decreases self.t@.len() - self.i,
        {
            let ghost before = assigned(out@);
            let one = self.assignment()?;
            out.push(one);
            assert(assigned(out@) =~= before.push((one.0@, one.1@)));
            if !self.eat(&Tok::Comma) {
                return Ok(out);
            }
        }
    }

    /// `UPDATE <table> SET ... WHERE <cond>`, with `UPDATE` consumed.
    pub(crate) fn update(&mut self) -> (r: Result<(Update, Settings)>)
        requires
            old(self).wf(),
        ensures
            goes(
                *old(self),
                *final(self),
                match r {
                    Ok(p) => Ok((p.0@, p.1)),
                    Err(e) => Err(e@),
                },
                read_update(old(self).env(), old(self).i as int, old(self).depth as int),
            ),
    {
        let at = self.at();
        let (database, table) = self.table_ref("a table name")?;
        self.expect_word("SET", "SET after the table name")?;
        let assignments = self.assignments()?;
        let (filter, settings) = self.narrowing(at)?;
        Ok((Update { database, table, assignments, filter, at }, settings))
    }
}

} // verus!
