//! `DESCRIBE` and `SHOW`: the catalog, asked about in SQL.

use vstd::prelude::*;
use crate::error::Result;
use crate::parse::cursor::{ended, expected, goes, past_word, read_ident, read_table, seen, word_at, Env, Out, Parser};
use crate::parse::select::read_format;
use crate::show::{Show, ShowView, Shown, ShownView};

verus! {

/// `[FROM|IN <database>]`.
pub open spec fn read_in_database(e: Env, i: int) -> Out<Option<Seq<char>>> {
    if word_at(e, i, "FROM"@) || word_at(e, i, "IN"@) {
        match read_ident(e, i + 1, "a database name"@) {
            Err(x) => Err(x),
            Ok((d, j)) => Ok((Some(d), j)),
        }
    } else {
        Ok((None, i))
    }
}

/// A table whose columns are asked for.
pub open spec fn read_described(e: Env, i: int) -> Out<ShownView> {
    match read_table(e, i, "a table name"@) {
        Err(x) => Err(x),
        Ok(((database, table), j)) => Ok((ShownView::Columns { database, table }, j)),
    }
}

/// What follows `SHOW CREATE`.
pub open spec fn read_show_create(e: Env, i: int) -> Out<ShownView> {
    let view = word_at(e, i, "VIEW"@);
    let j = if view {
        i + 1
    } else {
        past_word(e, i, "TABLE"@)
    };
    match read_table(e, j, "a table name"@) {
        Err(x) => Err(x),
        Ok(((database, table), k)) => Ok((ShownView::Create { database, table, view }, k)),
    }
}

/// What follows `SHOW`.
pub open spec fn read_shown(e: Env, i: int) -> Out<ShownView> {
    if word_at(e, i, "TABLES"@) {
        match read_in_database(e, i + 1) {
            Err(x) => Err(x),
            Ok((database, j)) => Ok((ShownView::Tables { database }, j)),
        }
    } else if word_at(e, i, "VIEWS"@) {
        match read_in_database(e, i + 1) {
            Err(x) => Err(x),
            Ok((database, j)) => Ok((ShownView::Views { database }, j)),
        }
    } else if word_at(e, i, "COLUMNS"@) || word_at(e, i, "FIELDS"@) {
        if word_at(e, i + 1, "FROM"@) {
            read_described(e, i + 2)
        } else {
            Err(expected(e, i + 1, "FROM and a table name"@))
        }
    } else if word_at(e, i, "CREATE"@) {
        read_show_create(e, i + 1)
    } else if word_at(e, i, "DATABASES"@) || word_at(e, i, "SCHEMAS"@) {
        Ok((ShownView::Databases, i + 1))
    } else if word_at(e, i, "ROLES"@) {
        Ok((ShownView::Roles, i + 1))
    } else if word_at(e, i, "PROCESSLIST"@) {
        Ok((ShownView::Processlist, i + 1))
    } else if word_at(e, i, "GRANTS"@) {
        if word_at(e, i + 1, "FOR"@) {
            match read_ident(e, i + 2, "a role name"@) {
                Err(x) => Err(x),
                Ok((role, j)) => Ok((ShownView::Grants { role: Some(role) }, j)),
            }
        } else {
            Ok((ShownView::Grants { role: None }, i + 1))
        }
    } else {
        Err(expected(e, i, "TABLES, COLUMNS FROM a table, or CREATE TABLE"@))
    }
}

/// The question, before its `FORMAT`.
pub open spec fn read_question(e: Env, i: int) -> Out<ShownView> {
    if word_at(e, i, "DESCRIBE"@) || word_at(e, i, "DESC"@) {
        read_described(e, past_word(e, i + 1, "TABLE"@))
    } else if word_at(e, i, "SHOW"@) {
        read_shown(e, i + 1)
    } else {
        Err(expected(e, i, "SHOW"@))
    }
}

/// `DESCRIBE`/`DESC`/`SHOW ...`, whole.
pub open spec fn read_show(e: Env, i: int) -> Out<ShowView> {
    match read_question(e, i) {
        Err(x) => Err(x),
        Ok((what, j)) => match read_format(e, j) {
            Err(x) => Err(x),
            Ok((format, k)) => ended(e, k, ShowView { what, format }),
        },
    }
}

impl<'a> Parser<'a> {
    /// `[FROM|IN <database>]`.
    fn in_database(&mut self) -> (r: Result<Option<String>>)
        requires
            old(self).wf(),
        ensures
            goes(
                *old(self),
                *final(self),
                match r {
                    Ok(d) => Ok(crate::text::opt_text(d)),
                    Err(e) => Err(e@),
                },
                read_in_database(old(self).env(), old(self).i as int),
            ),
    {
        if self.eat_word("FROM") || self.eat_word("IN") {
            Ok(Some(self.bare_ident("a database name")?))
        } else {
            Ok(None)
        }
    }

    /// What follows `SHOW`.
    fn show_what(&mut self) -> (r: Result<Shown>)
        requires
            old(self).wf(),
        ensures
            goes(
                *old(self),
                *final(self),
                seen(r),
                read_shown(old(self).env(), old(self).i as int),
            ),
    {
        if self.eat_word("TABLES") {
            let database = self.in_database()?;
            Ok(Shown::Tables { database })
        } else if self.eat_word("VIEWS") {
            let database = self.in_database()?;
            Ok(Shown::Views { database })
        } else if self.eat_word("COLUMNS") || self.eat_word("FIELDS") {
            self.expect_word("FROM", "FROM and a table name")?;
            let (database, table) = self.table_ref("a table name")?;
            Ok(Shown::Columns { database, table })
        } else if self.eat_word("CREATE") {
            let view = self.eat_word("VIEW");
            if !view {
                self.eat_word("TABLE");
            }
            let (database, table) = self.table_ref("a table name")?;
            Ok(Shown::Create { database, table, view })
        } else if self.eat_word("DATABASES") || self.eat_word("SCHEMAS") {
            Ok(Shown::Databases)
        } else if self.eat_word("ROLES") {
            Ok(Shown::Roles)
        } else if self.eat_word("PROCESSLIST") {
            Ok(Shown::Processlist)
        } else if self.eat_word("GRANTS") {
            if self.eat_word("FOR") {
                Ok(Shown::Grants { role: Some(self.bare_ident("a role name")?) })
            } else {
                Ok(Shown::Grants { role: None })
            }
        } else {
            Err(self.syntax("TABLES, COLUMNS FROM a table, or CREATE TABLE"))
        }
    }

    /// `DESCRIBE`/`DESC`/`SHOW ...`, with nothing consumed yet.
    pub(crate) fn show(&mut self) -> (r: Result<Show>)
        requires
            old(self).wf(),
        ensures
            goes(
                *old(self),
                *final(self),
                seen(r),
                read_show(old(self).env(), old(self).i as int),
            ),
    {
        let what = if self.eat_word("DESCRIBE") || self.eat_word("DESC") {
            self.eat_word("TABLE");
            let (database, table) = self.table_ref("a table name")?;
            Shown::Columns { database, table }
        } else {
            self.expect_word("SHOW", "SHOW")?;
            self.show_what()?
        };
        let format = self.format()?;
        self.end_of_statement()?;
        Ok(Show { what, format })
    }
}

} // verus!
