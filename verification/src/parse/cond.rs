//! The `WHERE` grammar, and the depth bound that keeps a recursive descent off the stack's end.

use vstd::prelude::*;
use crate::ast::{Cond, CondView, Name, NameView};
use crate::error::{Refused, Result, SqlError, SqlErrorView};
use crate::lex::{Tok, TokView};
use crate::parse::cursor::{a_word, expected, goes, moved, offset, peek_at, read_literal, read_name, refusal, refused, seen, tok_is, word_at, Env, Out, Parser, MAX_DEPTH};
use crate::parse::from::read_source;
use crate::parse::rounded::{read_rounded, Round};
use crate::pql::{Literal, LiteralView};
use crate::scalar::Func;
use crate::text::{same, same_word, views};

verus! {

/// The condition nests deeper than it may.
pub open spec fn too_deep(e: Env, i: int) -> SqlErrorView {
    SqlErrorView::TooDeep { at: offset(e, i) as nat, limit: MAX_DEPTH as nat }
}

/// Whether a position closes the term being read rather than continuing it.
pub open spec fn term_ends(e: Env, i: int) -> bool {
    match peek_at(e, i) {
        None => true,
        Some(TokView::RParen) => true,
        Some(TokView::Comma) => true,
        Some(TokView::Word(_)) => word_at(e, i, "AND"@) || word_at(e, i, "OR"@) || word_at(
            e,
            i,
            "GROUP"@,
        ) || word_at(e, i, "HAVING"@) || word_at(e, i, "ORDER"@) || word_at(e, i, "LIMIT"@)
            || word_at(e, i, "OFFSET"@) || word_at(e, i, "FORMAT"@),
        _ => false,
    }
}

/// A condition: terms joined by `OR`, each of them terms joined by `AND`. `d` is how deep it is
/// nested.
pub open spec fn read_cond(e: Env, i: int, d: int) -> Out<CondView>
    decreases e.t.len() - i, 6int,
{
    if d >= MAX_DEPTH {
        Err(too_deep(e, i))
    } else {
        match moved(e, i, read_conj(e, i, d + 1)) {
            Err(x) => Err(x),
            Ok((left, j)) => more_or(e, j, d + 1, left),
        }
    }
}

/// The terms after the first `OR`.
pub open spec fn more_or(e: Env, i: int, d: int, left: CondView) -> Out<CondView>
    decreases e.t.len() - i, 6int,
{
    if word_at(e, i, "OR"@) {
        match moved(e, i + 1, read_conj(e, i + 1, d)) {
            Err(x) => Err(x),
            Ok((right, j)) => more_or(e, j, d, CondView::Or(Box::new(left), Box::new(right))),
        }
    } else {
        Ok((left, i))
    }
}

/// Terms joined by `AND`.
pub open spec fn read_conj(e: Env, i: int, d: int) -> Out<CondView>
    decreases e.t.len() - i, 5int,
{
    if d >= MAX_DEPTH {
        Err(too_deep(e, i))
    } else {
        match moved(e, i, read_neg(e, i, d + 1)) {
            Err(x) => Err(x),
            Ok((left, j)) => more_and(e, j, d + 1, left),
        }
    }
}

/// The terms after the first `AND`.
pub open spec fn more_and(e: Env, i: int, d: int, left: CondView) -> Out<CondView>
    decreases e.t.len() - i, 5int,
{
    if word_at(e, i, "AND"@) {
        match moved(e, i + 1, read_neg(e, i + 1, d)) {
            Err(x) => Err(x),
            Ok((right, j)) => more_and(e, j, d, CondView::And(Box::new(left), Box::new(right))),
        }
    } else {
        Ok((left, i))
    }
}

/// A term: negated, in brackets, or a predicate.
pub open spec fn read_neg(e: Env, i: int, d: int) -> Out<CondView>
    decreases e.t.len() - i, 4int,
{
    if d >= MAX_DEPTH {
        Err(too_deep(e, i))
    } else if word_at(e, i, "NOT"@) {
        match read_neg(e, i + 1, d + 1) {
            Err(x) => Err(x),
            Ok((inner, j)) => Ok((CondView::Not(Box::new(inner)), j)),
        }
    } else if tok_is(e, i, TokView::LParen) {
        if word_at(e, i + 1, "SELECT"@) {
            Err(refused(e, i, Refused::Subquery))
        } else {
            match read_cond(e, i + 1, d + 1) {
                Err(x) => Err(x),
                Ok((inner, j)) => if tok_is(e, j, TokView::RParen) {
                    Ok((inner, j + 1))
                } else {
                    Err(expected(e, j, ") to close the condition"@))
                },
            }
        }
    } else {
        read_predicate(e, i, d + 1)
    }
}

/// One comparison, or one of the other tests of a column.
pub open spec fn read_predicate(e: Env, i: int, d: int) -> Out<CondView>
    decreases e.t.len() - i, 3int,
{
    if word_at(e, i, "SEGMENT"@) && tok_is(e, i + 1, TokView::LParen) {
        match read_source(e, i + 2, "a view name inside SEGMENT"@) {
            Err(x) => Err(x),
            Ok((view, j)) => if tok_is(e, j, TokView::RParen) {
                Ok((CondView::Segment { view, at: offset(e, i) }, j + 1))
            } else {
                Err(expected(e, j, ") to close SEGMENT"@))
            },
        }
    } else {
        match read_name(e, i, "a column name"@) {
            Err(x) => Err(x),
            Ok((field, j)) => {
                let call = tok_is(e, j, TokView::LParen) && field.qualifier is None && !same_word(
                    field.column,
                    "now"@,
                );
                if call && Round::spelled(field.column) is Some {
                    read_rounded(e, j + 1, Round::spelled(field.column)->0, offset(e, i))
                } else if call && (Func::spelled(field.column) is Some || same_word(
                    field.column,
                    "toStartOfInterval"@,
                )) {
                    Err(refusal(Refused::ScalarFilter, offset(e, i)))
                } else if word_at(e, j, "IS"@) {
                    Err(refused(e, j, Refused::Null))
                } else {
                    let negated = word_at(e, j, "NOT"@) && (word_at(e, j + 1, "IN"@) || word_at(
                        e,
                        j + 1,
                        "BETWEEN"@,
                    ) || word_at(e, j + 1, "LIKE"@) || word_at(e, j + 1, "ILIKE"@));
                    let k = if negated {
                        j + 1
                    } else {
                        j
                    };
                    if word_at(e, k, "IN"@) && tok_is(e, k + 1, TokView::LParen) && word_at(
                        e,
                        k + 2,
                        "SELECT"@,
                    ) {
                        under(negated, read_in_records(e, k + 3, d, field, offset(e, i)))
                    } else {
                        under(negated, read_test(e, k, field))
                    }
                }
            },
        }
    }
}

/// A term under a `NOT`, when there is one.
pub open spec fn under(negated: bool, r: Out<CondView>) -> Out<CondView> {
    match r {
        Ok((c, j)) => if negated {
            Ok((CondView::Not(Box::new(c)), j))
        } else {
            Ok((c, j))
        },
        Err(x) => Err(x),
    }
}

/// The values of a list, after those already read, and its closing bracket.
pub open spec fn read_values(e: Env, i: int, before: Seq<LiteralView>) -> Out<Seq<LiteralView>>
    decreases e.t.len() - i,
{
    match read_literal(e, i, "a value inside IN"@) {
        Err(x) => Err(x),
        Ok((v, j)) => if tok_is(e, j, TokView::Comma) {
            read_values(e, j + 1, before.push(v))
        } else if tok_is(e, j, TokView::RParen) {
            Ok((before.push(v), j + 1))
        } else {
            Err(expected(e, j, ") to close IN"@))
        },
    }
}

/// `LIKE` or `ILIKE`, from the pattern on.
pub open spec fn read_like(e: Env, i: int, field: NameView, fold: bool) -> Out<CondView> {
    match read_literal(e, i, "a quoted pattern after LIKE"@) {
        Err(x) => Err(x),
        Ok((LiteralView::Str(pattern), j)) => Ok((CondView::Like { field, pattern, fold }, j)),
        Ok((_, j)) => Err(expected(e, j, "a quoted pattern after LIKE"@)),
    }
}

/// `BETWEEN`, from the lower bound on.
pub open spec fn read_between(e: Env, i: int, field: NameView) -> Out<CondView> {
    match read_literal(e, i, "a lower bound"@) {
        Err(x) => Err(x),
        Ok((low, j)) => if !word_at(e, j, "AND"@) {
            Err(expected(e, j, "AND between the two bounds"@))
        } else {
            match read_literal(e, j + 1, "an upper bound"@) {
                Err(x) => Err(x),
                Ok((high, k)) => Ok((CondView::Between { field, low, high }, k)),
            }
        },
    }
}

/// What follows a column: a list, a pattern, a range, a comparison, or nothing, which tests the
/// column for truth.
pub open spec fn read_test(e: Env, i: int, field: NameView) -> Out<CondView> {
    if word_at(e, i, "IN"@) {
        if tok_is(e, i + 1, TokView::LParen) {
            match read_values(e, i + 2, Seq::empty()) {
                Err(x) => Err(x),
                Ok((values, j)) => Ok((CondView::In { field, values }, j)),
            }
        } else {
            Err(expected(e, i + 1, "( after IN"@))
        }
    } else if word_at(e, i, "LIKE"@) {
        read_like(e, i + 1, field, false)
    } else if word_at(e, i, "ILIKE"@) {
        read_like(e, i + 1, field, true)
    } else if word_at(e, i, "BETWEEN"@) {
        read_between(e, i + 1, field)
    } else if peek_at(e, i) is Some && peek_at(e, i)->0 is Op {
        match read_literal(e, i + 1, "a value to compare against"@) {
            Err(x) => Err(x),
            Ok((value, j)) => Ok((CondView::Cmp { field, op: peek_at(e, i)->0->Op_0, value }, j)),
        }
    } else if term_ends(e, i) {
        Ok((CondView::Cmp { field, op: "="@, value: LiteralView::Bool(true) }, i))
    } else if a_word(e, i) {
        Err(refused(e, i, Refused::Predicate))
    } else {
        Err(expected(e, i, "a comparison after the column"@))
    }
}

/// `_record_id FROM <table> [WHERE ...])`, with `IN (SELECT` read.
pub open spec fn read_in_records(e: Env, i: int, d: int, field: NameView, at: usize) -> Out<CondView>
    decreases e.t.len() - i, 7int,
{
    match read_name(e, i, "_record_id inside IN"@) {
        Err(_) => Err(refused(e, i, Refused::Subquery)),
        Ok((name, j)) => if name.column != "_record_id"@ || name.qualifier is Some {
            Err(refused(e, i, Refused::Subquery))
        } else if !word_at(e, j, "FROM"@) {
            Err(expected(e, j, "FROM inside IN"@))
        } else {
            match moved(e, j + 1, read_source(e, j + 1, "a table name inside IN"@)) {
                Err(x) => Err(x),
                Ok((table, k)) => if word_at(e, k, "WHERE"@) {
                    match read_cond(e, k + 1, d) {
                        Err(x) => Err(x),
                        Ok((filter, m)) => close_in_records(
                            e,
                            m,
                            CondView::InRecords { field, table, filter: Some(Box::new(filter)), at },
                        ),
                    }
                } else {
                    close_in_records(e, k, CondView::InRecords { field, table, filter: None, at })
                },
            }
        },
    }
}

/// The bracket that closes an inner set. A clause it could not mean is refused there.
pub open spec fn close_in_records(e: Env, i: int, c: CondView) -> Out<CondView> {
    if tok_is(e, i, TokView::RParen) {
        Ok((c, i + 1))
    } else {
        Err(refused(e, i, Refused::Subquery))
    }
}

impl<'a> Parser<'a> {
    /// One level deeper.
    pub(crate) fn enter(&mut self) -> (r: Result<()>)
        requires
            old(self).wf(),
        ensures
            final(self).wf(),
            final(self).env() == old(self).env(),
            final(self).t == old(self).t,
            final(self).i == old(self).i,
            match r {
                Ok(_) => old(self).depth < MAX_DEPTH && final(self).depth == old(self).depth + 1,
                Err(e) => old(self).depth >= MAX_DEPTH && e@ == too_deep(
                    old(self).env(),
                    old(self).i as int,
                ),
            },
    {
        if self.depth >= MAX_DEPTH {
            return Err(SqlError::TooDeep { at: self.at(), limit: MAX_DEPTH });
        }
        self.depth = self.depth + 1;
        Ok(())
    }

    /// One level back up.
    pub(crate) fn leave(&mut self)
        requires
            old(self).wf(),
            old(self).depth > 0,
        ensures
            final(self).wf(),
            final(self).env() == old(self).env(),
            final(self).t == old(self).t,
            final(self).i == old(self).i,
            final(self).depth == old(self).depth - 1,
    {
        self.depth = self.depth - 1;
    }

    /// A condition.
    pub(crate) fn cond(&mut self) -> (r: Result<Cond>)
        requires
            old(self).wf(),
        ensures
            goes(
                *old(self),
                *final(self),
                seen(r),
                read_cond(old(self).env(), old(self).i as int, old(self).depth as int),
            ),
            r is Ok ==> final(self).i > old(self).i,
        decreases old(self).t@.len() - old(self).i, 6int,
    {
        self.enter()?;
        let mut left = self.conj()?;
        while self.eat_word("OR")
            invariant
                self.wf(),
                self.env() == old(self).env(),
                self.t == old(self).t,
                self.depth == old(self).depth + 1,
                self.i > old(self).i,
                read_cond(old(self).env(), old(self).i as int, old(self).depth as int) == more_or(
                    self.env(),
                    self.i as int,
                    self.depth as int,
                    left@,
                ),
            decreases self.t@.len() - self.i,
        {
            let right = self.conj()?;
            left = Cond::Or(Box::new(left), Box::new(right));
        }
        self.leave();
        Ok(left)
    }

    /// Terms joined by `AND`.
    pub(crate) fn conj(&mut self) -> (r: Result<Cond>)
        requires
            old(self).wf(),
        ensures
            goes(
                *old(self),
                *final(self),
                seen(r),
                read_conj(old(self).env(), old(self).i as int, old(self).depth as int),
            ),
            r is Ok ==> final(self).i > old(self).i,
        decreases old(self).t@.len() - old(self).i, 5int,
    {
        self.enter()?;
        let mut left = self.neg()?;
        while self.eat_word("AND")
            invariant
                self.wf(),
                self.env() == old(self).env(),
                self.t == old(self).t,
                self.depth == old(self).depth + 1,
                self.i > old(self).i,
                read_conj(old(self).env(), old(self).i as int, old(self).depth as int) == more_and(
                    self.env(),
                    self.i as int,
                    self.depth as int,
                    left@,
                ),
            decreases self.t@.len() - self.i,
        {
            let right = self.neg()?;
            left = Cond::And(Box::new(left), Box::new(right));
        }
        self.leave();
        Ok(left)
    }

    /// A term: negated, in brackets, or a predicate.
    pub(crate) fn neg(&mut self) -> (r: Result<Cond>)
        requires
            old(self).wf(),
        ensures
            goes(
                *old(self),
                *final(self),
                seen(r),
                read_neg(old(self).env(), old(self).i as int, old(self).depth as int),
            ),
            r is Ok ==> final(self).i > old(self).i,
        decreases old(self).t@.len() - old(self).i, 4int,
    {
        self.enter()?;
        let out = if self.eat_word("NOT") {
            Cond::Not(Box::new(self.neg()?))
        } else if self.is_tok(&Tok::LParen) {
            if self.word_at_is(1, "SELECT") {
                return Err(self.refuse(Refused::Subquery));
            }
            self.skip(1);
            let inner = self.cond()?;
            self.expect(&Tok::RParen, ") to close the condition")?;
            inner
        } else {
            self.predicate()?
        };
        self.leave();
        Ok(out)
    }

    /// Whether the current token closes the term being parsed rather than continuing it.
    fn ends_a_term(&self) -> (r: bool)
        requires
            self.wf(),
        ensures
            r == term_ends(self.env(), self.i as int),
    {
        match self.peek() {
            None => true,
            Some(Tok::RParen) => true,
            Some(Tok::Comma) => true,
            Some(Tok::Word(_)) => self.word_is("AND") || self.word_is("OR") || self.word_is("GROUP")
                || self.word_is("HAVING") || self.word_is("ORDER") || self.word_is("LIMIT")
                || self.word_is("OFFSET") || self.word_is("FORMAT"),
            _ => false,
        }
    }

    /// One comparison, or one of the other tests of a column.
    pub(crate) fn predicate(&mut self) -> (r: Result<Cond>)
        requires
            old(self).wf(),
        ensures
            goes(
                *old(self),
                *final(self),
                seen(r),
                read_predicate(old(self).env(), old(self).i as int, old(self).depth as int),
            ),
            r is Ok ==> final(self).i > old(self).i,
        decreases old(self).t@.len() - old(self).i, 3int,
    {
        let at = self.at();
        if self.word_is("SEGMENT") && self.tok_at_is(1, &Tok::LParen) {
            self.skip(2);
            let view = self.source("a view name inside SEGMENT")?;
            self.expect(&Tok::RParen, ") to close SEGMENT")?;
            return Ok(Cond::Segment { view, at });
        }
        let field = self.name("a column name")?;
        if self.is_tok(&Tok::LParen) && field.qualifier.is_none()
            && !field.column.as_str().eq_ignore_ascii_case("now") {
            match self.rounded(&field, at)? {
                Some(c) => {
                    return Ok(c);
                },
                None => {},
            }
            if Func::of(field.column.as_str()).is_some()
                || field.column.as_str().eq_ignore_ascii_case("toStartOfInterval") {
                return Err(self.refuse_at(Refused::ScalarFilter, at));
            }
        }
        if self.word_is("IS") {
            return Err(self.refuse(Refused::Null));
        }
        let negated = self.word_is("NOT") && (self.word_at_is(1, "IN") || self.word_at_is(
            1,
            "BETWEEN",
        ) || self.word_at_is(1, "LIKE") || self.word_at_is(1, "ILIKE"));
        if negated {
            self.skip(1);
        }
        let inner = if self.word_is("IN") && self.tok_at_is(1, &Tok::LParen) && self.word_at_is(
            2,
            "SELECT",
        ) {
            self.skip(3);
            self.in_records(field, at)?
        } else {
            self.test(field)?
        };
        Ok(
            if negated {
                Cond::Not(Box::new(inner))
            } else {
                inner
            },
        )
    }

    /// The values of a list and its closing bracket.
    fn values(&mut self) -> (r: Result<Vec<Literal>>)
        requires
            old(self).wf(),
        ensures
            goes(
                *old(self),
                *final(self),
                match r {
                    Ok(v) => Ok(views(v@)),
                    Err(e) => Err(e@),
                },
                read_values(old(self).env(), old(self).i as int, Seq::empty()),
            ),
    {
        let mut out: Vec<Literal> = Vec::new();
        assert(views(out@) =~= Seq::<LiteralView>::empty());
        loop
            invariant
                self.wf(),
                self.env() == old(self).env(),
                self.t == old(self).t,
                self.depth == old(self).depth,
                old(self).i <= self.i,
                read_values(old(self).env(), old(self).i as int, Seq::empty()) == read_values(
                    self.env(),
                    self.i as int,
                    views(out@),
                ),
            decreases self.t@.len() - self.i,
        {
            let ghost before = views(out@);
            let v = self.literal("a value inside IN")?;
            out.push(v);
            assert(views(out@) =~= before.push(v@));
            if !self.eat(&Tok::Comma) {
                self.expect(&Tok::RParen, ") to close IN")?;
                return Ok(out);
            }
        }
    }

    /// What follows a column.
    fn test(&mut self, field: Name) -> (r: Result<Cond>)
        requires
            old(self).wf(),
        ensures
            goes(
                *old(self),
                *final(self),
                seen(r),
                read_test(old(self).env(), old(self).i as int, field@),
            ),
    {
        if self.eat_word("IN") {
            self.expect(&Tok::LParen, "( after IN")?;
            let values = self.values()?;
            Ok(Cond::In { field, values })
        } else if self.word_is("LIKE") || self.word_is("ILIKE") {
            let fold = !self.word_is("LIKE");
            self.skip(1);
            match self.literal("a quoted pattern after LIKE")? {
                Literal::Str(pattern) => Ok(Cond::Like { field, pattern, fold }),
                _ => Err(self.syntax("a quoted pattern after LIKE")),
            }
        } else if self.eat_word("BETWEEN") {
            let low = self.literal("a lower bound")?;
            self.expect_word("AND", "AND between the two bounds")?;
            let high = self.literal("an upper bound")?;
            Ok(Cond::Between { field, low, high })
        } else if let Some(op) = self.op() {
            self.skip(1);
            let value = self.literal("a value to compare against")?;
            Ok(Cond::Cmp { field, op, value })
        } else if self.ends_a_term() {
            Ok(Cond::Cmp { field, op: "=", value: Literal::Bool(true) })
        } else if self.word().is_some() {
            Err(self.refuse(Refused::Predicate))
        } else {
            Err(self.syntax("a comparison after the column"))
        }
    }

    /// `_record_id FROM <table> [WHERE ...])`, with `IN (SELECT` read. A record id is the only
    /// thing an inner set may name.
    fn in_records(&mut self, field: Name, at: usize) -> (r: Result<Cond>)
        requires
            old(self).wf(),
        ensures
            goes(
                *old(self),
                *final(self),
                seen(r),
                read_in_records(
                    old(self).env(),
                    old(self).i as int,
                    old(self).depth as int,
                    field@,
                    at,
                ),
            ),
            r is Ok ==> final(self).i > old(self).i,
        decreases old(self).t@.len() - old(self).i, 7int,
    {
        let id_at = self.at();
        match self.name("_record_id inside IN") {
            Ok(name) => {
                if !same(name.column.as_str(), "_record_id") || name.qualifier.is_some() {
                    return Err(self.refuse_at(Refused::Subquery, id_at));
                }
            },
            Err(_) => {
                return Err(self.refuse_at(Refused::Subquery, id_at));
            },
        }
        self.expect_word("FROM", "FROM inside IN")?;
        let table = self.source("a table name inside IN")?;
        let filter = if self.eat_word("WHERE") {
            Some(Box::new(self.cond()?))
        } else {
            None
        };
        if !self.is_tok(&Tok::RParen) {
            return Err(self.refuse(Refused::Subquery));
        }
        self.skip(1);
        Ok(Cond::InRecords { field, table, filter, at })
    }
}

} // verus!
