//! `ALTER TABLE`, `DROP` and `TRUNCATE`: the schema changes that are not a creation.

use vstd::prelude::*;
use crate::ddl::{Alter, AlterView, Ddl, DdlView};
use crate::error::{Refused, Result};
use crate::insert::RECORD_COLUMN;
use crate::lex::{Tok, TokView};
use crate::parse::acl::read_if_exists;
use crate::parse::create::{constraint_at, read_column_type};
use crate::parse::cursor::{ended, expected, goes, moved, past_word, read_ident, read_table, read_text, refused, seen, seen_all, tok_is, word_at, Env, Out, Parser};
use crate::show::SYSTEM_DATABASE;
use crate::text::{same_word, views};

verus! {

/// `DAYS BEFORE '<date>' ON <column>`, with `DROP` at `i`.
pub open spec fn read_drop_days(e: Env, i: int) -> Out<AlterView> {
    if !word_at(e, i + 2, "BEFORE"@) {
        Err(expected(e, i + 2, "BEFORE after DAYS"@))
    } else {
        match read_text(e, i + 3, expected(e, i + 3, "a date in quotes after BEFORE"@)) {
            Err(x) => Err(x),
            Ok((before, j)) => if !word_at(e, j, "ON"@) {
                Err(expected(e, j, "ON and the column name"@))
            } else {
                match read_ident(e, j + 1, "a column name"@) {
                    Err(x) => Err(x),
                    Ok((column, k)) => Ok((AlterView::DropDaysBefore { column, before }, k)),
                }
            },
        }
    }
}

/// Whether what an `ADD` or a `DROP` names is a constraint and not a column.
pub open spec fn constrained(e: Env, i: int) -> bool {
    constraint_at(e, i) || word_at(e, i, "CONSTRAINT"@) || word_at(e, i, "INDEX"@)
}

/// `[COLUMN] <name> <type>`, after `ADD`.
pub open spec fn read_add(e: Env, i: int) -> Out<AlterView> {
    if constrained(e, i) {
        Err(refused(e, i, Refused::Constraint))
    } else {
        let j = past_word(e, i, "COLUMN"@);
        match read_ident(e, j, "a column name"@) {
            Err(x) => Err(x),
            Ok((name, k)) => if same_word(name, RECORD_COLUMN@) {
                Err(refused(e, j, Refused::IdColumn))
            } else {
                match read_column_type(e, k, name) {
                    Err(x) => Err(x),
                    Ok((column, l)) => Ok((AlterView::Add(column), l)),
                }
            },
        }
    }
}

/// `[COLUMN] <name>`, after `DROP`.
pub open spec fn read_dropped(e: Env, i: int) -> Out<AlterView> {
    if constrained(e, i) {
        Err(refused(e, i, Refused::Constraint))
    } else {
        match read_ident(e, past_word(e, i, "COLUMN"@), "a column name"@) {
            Err(x) => Err(x),
            Ok((name, j)) => Ok((AlterView::Drop(name), j)),
        }
    }
}

/// One clause of an `ALTER TABLE`.
pub open spec fn read_change(e: Env, i: int) -> Out<AlterView> {
    if (word_at(e, i, "MODIFY"@) || word_at(e, i, "SET"@)) && word_at(e, i + 1, "TTL"@) {
        Err(refused(e, i, Refused::DeclarativeTtl))
    } else if word_at(e, i, "MODIFY"@) || word_at(e, i, "CHANGE"@) {
        Err(refused(e, i, Refused::AlterKind))
    } else if word_at(e, i, "RENAME"@) {
        Err(refused(e, i, Refused::Rename))
    } else if word_at(e, i, "ENGINE"@) {
        Err(refused(e, i, Refused::AlterEngine))
    } else if word_at(e, i, "DROP"@) && word_at(e, i + 1, "DAYS"@) {
        read_drop_days(e, i)
    } else if word_at(e, i, "ADD"@) {
        read_add(e, i + 1)
    } else if word_at(e, i, "DROP"@) {
        read_dropped(e, i + 1)
    } else if word_at(e, i, "ALTER"@) {
        Err(refused(e, i, Refused::AlterKind))
    } else {
        Err(expected(e, i, "ADD or DROP"@))
    }
}

/// The changes, after those already read.
pub open spec fn read_changes(e: Env, i: int, before: Seq<AlterView>) -> Out<Seq<AlterView>>
    decreases e.t.len() - i,
{
    match moved(e, i, read_change(e, i)) {
        Err(x) => Err(x),
        Ok((change, j)) => if tok_is(e, j, TokView::Comma) {
            read_changes(e, j + 1, before.push(change))
        } else {
            Ok((before.push(change), j))
        },
    }
}

/// `TABLE <name> <change> [, <change>]*`, after `ALTER`.
pub open spec fn read_alter(e: Env, i: int) -> Out<DdlView> {
    if !word_at(e, i, "TABLE"@) {
        if word_at(e, i, "MATERIALIZED"@) {
            Err(refused(e, i, Refused::MaterializedView))
        } else {
            Err(refused(e, i, Refused::Write))
        }
    } else {
        match read_table(e, i + 1, "a table name"@) {
            Err(x) => Err(x),
            Ok(((database, table), j)) => match read_changes(e, j, Seq::empty()) {
                Err(x) => Err(x),
                Ok((changes, k)) => ended(e, k, DdlView::AlterTable { database, table, changes }),
            },
        }
    }
}

/// `[IF EXISTS] <name> [CASCADE|RESTRICT]`, after `DROP DATABASE`.
pub open spec fn read_drop_database(e: Env, i: int) -> Out<DdlView> {
    match read_if_exists(e, i, false) {
        Err(x) => Err(x),
        Ok((if_exists, j)) => match read_ident(e, j, "a database name"@) {
            Err(x) => Err(x),
            Ok((name, k)) => {
                let cascade = word_at(e, k, "CASCADE"@);
                let l = if cascade {
                    k + 1
                } else {
                    past_word(e, k, "RESTRICT"@)
                };
                match ended(e, l, DdlView::DropDatabase { name, if_exists, cascade }) {
                    Err(x) => Err(x),
                    Ok(v) => if same_word(name, SYSTEM_DATABASE@) {
                        Err(refused(e, l, Refused::SystemTable))
                    } else {
                        Ok(v)
                    },
                }
            },
        },
    }
}

/// `[IF EXISTS] <name>`, after `DROP VIEW`.
pub open spec fn read_drop_view(e: Env, i: int) -> Out<DdlView> {
    match read_if_exists(e, i, false) {
        Err(x) => Err(x),
        Ok((if_exists, j)) => match read_table(e, j, "a view name"@) {
            Err(x) => Err(x),
            Ok(((database, name), k)) => ended(
                e,
                k,
                DdlView::DropView { database, name, if_exists },
            ),
        },
    }
}

/// `[IF EXISTS] <name>`, after `DROP TABLE`.
pub open spec fn read_drop_table(e: Env, i: int) -> Out<DdlView> {
    match read_if_exists(e, i, false) {
        Err(x) => Err(x),
        Ok((if_exists, j)) => match read_table(e, j, "a table name"@) {
            Err(x) => Err(x),
            Ok(((database, table), k)) => ended(
                e,
                k,
                DdlView::DropTable { database, table, if_exists },
            ),
        },
    }
}

/// A `DROP`, after the word.
pub open spec fn read_drop(e: Env, i: int) -> Out<DdlView> {
    if word_at(e, i, "DATABASE"@) || word_at(e, i, "SCHEMA"@) || word_at(e, i, "DATASET"@) {
        read_drop_database(e, i + 1)
    } else if word_at(e, i, "MATERIALIZED"@) {
        Err(refused(e, i, Refused::MaterializedView))
    } else if word_at(e, i, "VIEW"@) {
        read_drop_view(e, i + 1)
    } else if word_at(e, i, "TABLE"@) {
        read_drop_table(e, i + 1)
    } else {
        Err(refused(e, i, Refused::Write))
    }
}

/// `[TABLE] [IF EXISTS] <name>`, after `TRUNCATE`.
pub open spec fn read_truncate(e: Env, i: int) -> Out<DdlView> {
    if word_at(e, i, "DATABASE"@) || word_at(e, i, "SCHEMA"@) || word_at(e, i, "VIEW"@) {
        Err(refused(e, i, Refused::Write))
    } else {
        match read_if_exists(e, past_word(e, i, "TABLE"@), false) {
            Err(x) => Err(x),
            Ok((if_exists, j)) => match read_table(e, j, "a table name"@) {
                Err(x) => Err(x),
                Ok(((database, table), k)) => ended(
                    e,
                    k,
                    DdlView::TruncateTable { database, table, if_exists },
                ),
            },
        }
    }
}

impl<'a> Parser<'a> {
    /// `DAYS BEFORE ...`, with `DROP` at hand.
    fn drop_days(&mut self) -> (r: Result<Alter>)
        requires
            old(self).wf(),
        ensures
            goes(
                *old(self),
                *final(self),
                seen(r),
                (if word_at(old(self).env(), old(self).i as int, "DROP"@) && word_at(old(self).env(), old(self).i + 1, "DAYS"@) {
                    read_drop_days(old(self).env(), old(self).i as int)
                } else {
                    Err(expected(old(self).env(), old(self).i as int, "DROP DAYS"@))
                }),
            ),
            r is Ok ==> final(self).i > old(self).i,
    {
        if !self.word_is("DROP") || !self.word_at_is(1, "DAYS") {
            return Err(self.syntax("DROP DAYS"));
        }
        self.skip(2);
        self.expect_word("BEFORE", "BEFORE after DAYS")?;
        let before = match self.quoted() {
            Some(s) => s,
            None => {
                return Err(self.syntax("a date in quotes after BEFORE"));
            },
        };
        self.expect_word("ON", "ON and the column name")?;
        let column = self.bare_ident("a column name")?;
        Ok(Alter::DropDaysBefore { column, before })
    }

    /// Whether what an `ADD` or a `DROP` names is a constraint and not a column.
    fn at_named_constraint(&self) -> (r: bool)
        requires
            self.wf(),
        ensures
            r == constrained(self.env(), self.i as int),
    {
        self.at_constraint() || self.word_is("CONSTRAINT") || self.word_is("INDEX")
    }

    /// `[COLUMN] <name> <type>`, after `ADD`.
    fn add_column(&mut self) -> (r: Result<Alter>)
        requires
            old(self).wf(),
        ensures
            goes(
                *old(self),
                *final(self),
                seen(r),
                read_add(old(self).env(), old(self).i as int),
            ),
    {
        if self.at_named_constraint() {
            return Err(self.refuse(Refused::Constraint));
        }
        self.eat_word("COLUMN");
        let at = self.at();
        let name = self.bare_ident("a column name")?;
        if name.as_str().eq_ignore_ascii_case(RECORD_COLUMN) {
            return Err(self.refuse_at(Refused::IdColumn, at));
        }
        Ok(Alter::Add(self.column_type(name)?))
    }

    /// `[COLUMN] <name>`, after `DROP`.
    fn drop_column(&mut self) -> (r: Result<Alter>)
        requires
            old(self).wf(),
        ensures
            goes(
                *old(self),
                *final(self),
                seen(r),
                read_dropped(old(self).env(), old(self).i as int),
            ),
    {
        if self.at_named_constraint() {
            return Err(self.refuse(Refused::Constraint));
        }
        self.eat_word("COLUMN");
        Ok(Alter::Drop(self.bare_ident("a column name")?))
    }

    /// One clause of an `ALTER TABLE`.
    fn alter_change(&mut self) -> (r: Result<Alter>)
        requires
            old(self).wf(),
        ensures
            goes(
                *old(self),
                *final(self),
                seen(r),
                read_change(old(self).env(), old(self).i as int),
            ),
            r is Ok ==> final(self).i > old(self).i,
    {
        if (self.word_is("MODIFY") || self.word_is("SET")) && self.word_at_is(1, "TTL") {
            return Err(self.refuse(Refused::DeclarativeTtl));
        }
        if self.word_is("MODIFY") || self.word_is("CHANGE") {
            return Err(self.refuse(Refused::AlterKind));
        }
        if self.word_is("RENAME") {
            return Err(self.refuse(Refused::Rename));
        }
        if self.word_is("ENGINE") {
            return Err(self.refuse(Refused::AlterEngine));
        }
        if self.word_is("DROP") && self.word_at_is(1, "DAYS") {
            return self.drop_days();
        }
        if self.eat_word("ADD") {
            return self.add_column();
        }
        if self.eat_word("DROP") {
            return self.drop_column();
        }
        if self.word_is("ALTER") {
            return Err(self.refuse(Refused::AlterKind));
        }
        Err(self.syntax("ADD or DROP"))
    }

    /// The changes.
    fn alter_changes(&mut self) -> (r: Result<Vec<Alter>>)
        requires
            old(self).wf(),
        ensures
            goes(
                *old(self),
                *final(self),
                seen_all(r),
                read_changes(old(self).env(), old(self).i as int, Seq::empty()),
            ),
    {
        let mut out: Vec<Alter> = Vec::new();
        assert(views(out@) =~= Seq::<AlterView>::empty());
        loop
            invariant
                self.wf(),
                self.env() == old(self).env(),
                self.t == old(self).t,
                self.depth == old(self).depth,
                self.i >= old(self).i,
                read_changes(old(self).env(), old(self).i as int, Seq::empty()) == read_changes(self.env(), self.i as int, views(out@)),
            decreases self.t@.len() - self.i,
        {
            let ghost before = views(out@);
            let change = self.alter_change()?;
            out.push(change);
            assert(views(out@) =~= before.push(change@));
            if !self.eat(&Tok::Comma) {
                return Ok(out);
            }
        }
    }

    /// `ALTER TABLE <name> <change> [, <change>]*`, with `ALTER` already consumed.
    pub(crate) fn alter_table(&mut self) -> (r: Result<Ddl>)
        requires
            old(self).wf(),
        ensures
            goes(
                *old(self),
                *final(self),
                seen(r),
                read_alter(old(self).env(), old(self).i as int),
            ),
    {
        if !self.word_is("TABLE") {
            if self.word_is("MATERIALIZED") {
                return Err(self.refuse(Refused::MaterializedView));
            }
            return Err(self.refuse(Refused::Write));
        }
        self.skip(1);
        let (database, table) = self.table_ref("a table name")?;
        let changes = self.alter_changes()?;
        self.end_of_statement()?;
        Ok(Ddl::AlterTable { database, table, changes })
    }

    /// `[IF EXISTS] <name> [CASCADE|RESTRICT]`, after `DROP DATABASE`.
    fn drop_database(&mut self) -> (r: Result<Ddl>)
        requires
            old(self).wf(),
        ensures
            goes(
                *old(self),
                *final(self),
                seen(r),
                read_drop_database(old(self).env(), old(self).i as int),
            ),
    {
        let if_exists = self.if_exists(false)?;
        let name = self.bare_ident("a database name")?;
        let cascade = self.eat_word("CASCADE");
        if !cascade {
            self.eat_word("RESTRICT");
        }
        self.end_of_statement()?;
        if name.as_str().eq_ignore_ascii_case(SYSTEM_DATABASE) {
            return Err(self.refuse(Refused::SystemTable));
        }
        Ok(Ddl::DropDatabase { name, if_exists, cascade })
    }

    /// A `DROP`, with the word consumed.
    pub(crate) fn drop_table(&mut self) -> (r: Result<Ddl>)
        requires
            old(self).wf(),
        ensures
            goes(
                *old(self),
                *final(self),
                seen(r),
                read_drop(old(self).env(), old(self).i as int),
            ),
    {
        if self.word_is("DATABASE") || self.word_is("SCHEMA") || self.word_is("DATASET") {
            self.skip(1);
            return self.drop_database();
        }
        if self.word_is("MATERIALIZED") {
            return Err(self.refuse(Refused::MaterializedView));
        }
        if self.eat_word("VIEW") {
            let if_exists = self.if_exists(false)?;
            let (database, name) = self.table_ref("a view name")?;
            self.end_of_statement()?;
            return Ok(Ddl::DropView { database, name, if_exists });
        }
        if !self.eat_word("TABLE") {
            return Err(self.refuse(Refused::Write));
        }
        let if_exists = self.if_exists(false)?;
        let (database, table) = self.table_ref("a table name")?;
        self.end_of_statement()?;
        Ok(Ddl::DropTable { database, table, if_exists })
    }

    /// `TRUNCATE [TABLE] [IF EXISTS] <name>`, with `TRUNCATE` already consumed.
    pub(crate) fn truncate_table(&mut self) -> (r: Result<Ddl>)
        requires
            old(self).wf(),
        ensures
            goes(
                *old(self),
                *final(self),
                seen(r),
                read_truncate(old(self).env(), old(self).i as int),
            ),
    {
        if self.word_is("DATABASE") || self.word_is("SCHEMA") || self.word_is("VIEW") {
            return Err(self.refuse(Refused::Write));
        }
        self.eat_word("TABLE");
        let if_exists = self.if_exists(false)?;
        let (database, table) = self.table_ref("a table name")?;
        self.end_of_statement()?;
        Ok(Ddl::TruncateTable { database, table, if_exists })
    }
}

} // verus!
