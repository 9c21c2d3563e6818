//! `FROM` and `JOIN`: the tables a statement reads, and the names it calls them by.

use vstd::prelude::*;
use crate::ast::{Join, JoinKind, JoinView, Source, SourceView};
use crate::error::{Refused, Result};
use crate::lex::{Tok, TokView};
use crate::parse::cursor::{a_word, expected, goes, offset, past_word, read_ident, read_name, read_table, refusal, refused, seen, tok_is, word_at, Env, Out, Parser};
use crate::text::{same_word, views};

verus! {

/// Whether the word at a position begins a clause rather than being an alias.
pub open spec fn clause_at(e: Env, i: int) -> bool {
    word_at(e, i, "JOIN"@)
        || word_at(e, i, "INNER"@)
        || word_at(e, i, "LEFT"@)
        || word_at(e, i, "RIGHT"@)
        || word_at(e, i, "FULL"@)
        || word_at(e, i, "CROSS"@)
        || word_at(e, i, "NATURAL"@)
        || word_at(e, i, "ON"@)
        || word_at(e, i, "USING"@)
        || word_at(e, i, "PREWHERE"@)
        || word_at(e, i, "WHERE"@)
        || word_at(e, i, "GROUP"@)
        || word_at(e, i, "HAVING"@)
        || word_at(e, i, "ORDER"@)
        || word_at(e, i, "LIMIT"@)
        || word_at(e, i, "OFFSET"@)
        || word_at(e, i, "UNION"@)
        || word_at(e, i, "INTERSECT"@)
        || word_at(e, i, "EXCEPT"@)
        || word_at(e, i, "FORMAT"@)
        || word_at(e, i, "SETTINGS"@)
}

/// A function that reads something from outside this process, where a table was wanted.
pub open spec fn outside_table(name: Seq<char>) -> bool {
    same_word(name, "s3"@) || same_word(name, "url"@) || same_word(name, "file"@) || same_word(
        name,
        "generateRandom"@,
    )
}

/// One table, with the alias the rest of the statement calls it by.
pub open spec fn read_source(e: Env, i: int, want: Seq<char>) -> Out<SourceView> {
    match read_table(e, i, want) {
        Err(x) => Err(x),
        Ok(((database, table), j)) => if database is None && tok_is(e, j, TokView::LParen)
            && outside_table(table) {
            Err(refusal(Refused::TableFunction, offset(e, i)))
        } else if word_at(e, j, "AS"@) {
            match read_ident(e, j + 1, "a name after AS"@) {
                Err(x) => Err(x),
                Ok((alias, k)) => Ok((SourceView { database, table, alias: Some(alias) }, k)),
            }
        } else if a_word(e, j) && !clause_at(e, j) {
            match read_ident(e, j, "an alias"@) {
                Err(x) => Err(x),
                Ok((alias, k)) => Ok((SourceView { database, table, alias: Some(alias) }, k)),
            }
        } else {
            Ok((SourceView { database, table, alias: None }, j))
        },
    }
}

/// Which kind of join the words at a position begin, and where they leave off.
pub open spec fn join_kind(e: Env, i: int) -> (JoinKind, int) {
    if word_at(e, i, "LEFT"@) {
        (JoinKind::Left, past_word(e, i + 1, "OUTER"@))
    } else if word_at(e, i, "RIGHT"@) {
        (JoinKind::Right, past_word(e, i + 1, "OUTER"@))
    } else if word_at(e, i, "FULL"@) {
        (JoinKind::Full, past_word(e, i + 1, "OUTER"@))
    } else {
        (JoinKind::Inner, past_word(e, i, "INNER"@))
    }
}

/// `<source> ON <name> = <name>`, with the kind of join and `JOIN` read.
pub open spec fn read_join_body(e: Env, i: int, kind: JoinKind, at: usize) -> Out<Option<JoinView>> {
    match read_source(e, i, "a table name after JOIN"@) {
        Err(x) => Err(x),
        Ok((source, j)) => if word_at(e, j, "USING"@) {
            Err(refused(e, j, Refused::JoinOn))
        } else if !word_at(e, j, "ON"@) {
            Err(expected(e, j, "ON after the joined table"@))
        } else {
            match read_name(e, j + 1, "a column on one side of the join"@) {
                Err(x) => Err(x),
                Ok((left, k)) => if !tok_is(e, k, TokView::Op("="@)) {
                    Err(refused(e, k, Refused::JoinOn))
                } else {
                    match read_name(e, k + 1, "a column on the other side of the join"@) {
                        Err(x) => Err(x),
                        Ok((right, m)) => if word_at(e, m, "AND"@) || word_at(e, m, "OR"@) {
                            Err(refused(e, m, Refused::JoinOn))
                        } else {
                            Ok((Some(JoinView { kind, source, left, right, at }), m))
                        },
                    }
                },
            }
        },
    }
}

/// One `JOIN`, or nothing when the next word does not begin one.
pub open spec fn read_join(e: Env, i: int) -> Out<Option<JoinView>> {
    if word_at(e, i, "CROSS"@) || word_at(e, i, "NATURAL"@) {
        Err(refused(e, i, Refused::Joins))
    } else {
        let (kind, j) = join_kind(e, i);
        if word_at(e, j, "JOIN"@) {
            read_join_body(e, j + 1, kind, offset(e, i))
        } else if kind == JoinKind::Inner {
            Ok((None, j))
        } else {
            Err(expected(e, j, "JOIN after the kind of join"@))
        }
    }
}

/// Every `JOIN`, in the order written, after those already read.
pub open spec fn read_joins(e: Env, i: int, before: Seq<JoinView>) -> Out<Seq<JoinView>>
    decreases e.t.len() - i,
{
    match read_join(e, i) {
        Err(x) => Err(x),
        Ok((None, j)) => Ok((before, j)),
        Ok((Some(join), j)) => if i < j <= e.t.len() {
            read_joins(e, j, before.push(join))
        } else {
            Ok((before, j))
        },
    }
}

impl<'a> Parser<'a> {
    /// Whether the current word begins a clause rather than being an alias.
    pub(crate) fn at_clause_keyword(&self) -> (r: bool)
        requires
            self.wf(),
        ensures
            r == clause_at(self.env(), self.i as int),
    {
        self.word_is("JOIN")
            || self.word_is("INNER")
            || self.word_is("LEFT")
            || self.word_is("RIGHT")
            || self.word_is("FULL")
            || self.word_is("CROSS")
            || self.word_is("NATURAL")
            || self.word_is("ON")
            || self.word_is("USING")
            || self.word_is("PREWHERE")
            || self.word_is("WHERE")
            || self.word_is("GROUP")
            || self.word_is("HAVING")
            || self.word_is("ORDER")
            || self.word_is("LIMIT")
            || self.word_is("OFFSET")
            || self.word_is("UNION")
            || self.word_is("INTERSECT")
            || self.word_is("EXCEPT")
            || self.word_is("FORMAT")
            || self.word_is("SETTINGS")
    }

    /// One table in `FROM`, with the alias the rest of the statement calls it by.
    pub(crate) fn source(&mut self, want: &'static str) -> (r: Result<Source>)
        requires
            old(self).wf(),
        ensures
            goes(
                *old(self),
                *final(self),
                seen(r),
                read_source(old(self).env(), old(self).i as int, want@),
            ),
            r is Ok ==> final(self).i > old(self).i,
    {
        let at = self.at();
        let (database, table) = self.table_ref(want)?;
        if database.is_none() && self.is_tok(&Tok::LParen) && (table.as_str().eq_ignore_ascii_case(
            "s3",
        ) || table.as_str().eq_ignore_ascii_case("url") || table.as_str().eq_ignore_ascii_case(
            "file",
        ) || table.as_str().eq_ignore_ascii_case("generateRandom")) {
            return Err(self.refuse_at(Refused::TableFunction, at));
        }
        let alias = if self.eat_word("AS") {
            Some(self.bare_ident("a name after AS")?)
        } else if self.word().is_some() && !self.at_clause_keyword() {
            Some(self.bare_ident("an alias")?)
        } else {
            None
        };
        Ok(Source { database, table, alias })
    }

    /// One `JOIN`, or nothing when the next word does not begin one.
    pub(crate) fn join(&mut self) -> (r: Result<Option<Join>>)
        requires
            old(self).wf(),
        ensures
            goes(
                *old(self),
                *final(self),
                match r {
                    Ok(Some(j)) => Ok(Some(j@)),
                    Ok(None) => Ok(None),
                    Err(e) => Err(e@),
                },
                read_join(old(self).env(), old(self).i as int),
            ),
            r matches Ok(Some(_)) ==> final(self).i > old(self).i,
    {
        let at = self.at();
        if self.word_is("CROSS") || self.word_is("NATURAL") {
            return Err(self.refuse(Refused::Joins));
        }
        let kind = if self.eat_word("LEFT") {
            self.eat_word("OUTER");
            JoinKind::Left
        } else if self.eat_word("RIGHT") {
            self.eat_word("OUTER");
            JoinKind::Right
        } else if self.eat_word("FULL") {
            self.eat_word("OUTER");
            JoinKind::Full
        } else {
            self.eat_word("INNER");
            JoinKind::Inner
        };
        if kind == JoinKind::Inner {
            if !self.eat_word("JOIN") {
                return Ok(None);
            }
        } else {
            self.expect_word("JOIN", "JOIN after the kind of join")?;
        }
        let source = self.source("a table name after JOIN")?;
        if self.word_is("USING") {
            return Err(self.refuse(Refused::JoinOn));
        }
        self.expect_word("ON", "ON after the joined table")?;
        let left = self.name("a column on one side of the join")?;
        if !self.eat(&Tok::Op("=")) {
            return Err(self.refuse(Refused::JoinOn));
        }
        let right = self.name("a column on the other side of the join")?;
        if self.word_is("AND") || self.word_is("OR") {
            return Err(self.refuse(Refused::JoinOn));
        }
        Ok(Some(Join { kind, source, left, right, at }))
    }

    /// `[INNER] JOIN <source> ON <name> = <name>`, as many times as they are written.
    pub(crate) fn joins(&mut self) -> (r: Result<Vec<Join>>)
        requires
            old(self).wf(),
        ensures
            goes(
                *old(self),
                *final(self),
                match r {
                    Ok(v) => Ok(views(v@)),
                    Err(e) => Err(e@),
                },
                read_joins(old(self).env(), old(self).i as int, Seq::empty()),
            ),
    {
        let mut out: Vec<Join> = Vec::new();
        assert(views(out@) =~= Seq::<JoinView>::empty());
        loop
            invariant
                self.wf(),
                self.env() == old(self).env(),
                self.t == old(self).t,
                self.depth == old(self).depth,
                old(self).i <= self.i,
                read_joins(old(self).env(), old(self).i as int, Seq::empty()) == read_joins(
                    self.env(),
                    self.i as int,
                    views(out@),
                ),
            decreases self.t@.len() - self.i,
        {
            match self.join()? {
                None => {
                    return Ok(out);
                },
                Some(join) => {
                    let ghost before = views(out@);
                    out.push(join);
                    assert(views(out@) =~= before.push(join@));
                },
            }
        }
    }
}

} // verus!
