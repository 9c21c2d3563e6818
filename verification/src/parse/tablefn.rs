//! `SELECT * FROM numbers(10)`: a `FROM` that names no table.

use vstd::prelude::*;
use crate::error::{Refused, Result};
use crate::lex::{Tok, TokView};
use crate::parse::cursor::{at_end, expected, goes, read_ident, read_number, refused, seen, seen_plain, tok_is, word_at, Env, Out, Parser};
use crate::parse::select::read_format;
use crate::show::{Show, ShowView, Shown, ShownView, MAX_NUMBERS};
use crate::text::same_word;

verus! {

/// `*`, or the one column there is, named.
pub open spec fn read_numbers_columns(e: Env, i: int) -> Out<()> {
    if tok_is(e, i, TokView::Star) {
        Ok(((), i + 1))
    } else {
        match read_ident(e, i, "a column name, or `*`"@) {
            Err(x) => Err(x),
            Ok((name, j)) => if !same_word(name, "number"@) || tok_is(e, j, TokView::LParen)
                || tok_is(e, j, TokView::Dot) || word_at(e, j, "AS"@) {
                Err(refused(e, i, Refused::SystemClause))
            } else {
                Ok(((), j))
            },
        }
    }
}

/// `FROM numbers(<n>)`.
pub open spec fn read_numbers_call(e: Env, i: int) -> Out<u64> {
    if !word_at(e, i, "FROM"@) {
        Err(expected(e, i, "FROM after the select list"@))
    } else if !word_at(e, i + 1, "numbers"@) || !tok_is(e, i + 2, TokView::LParen) {
        Err(expected(e, i + 1, "`numbers(` after FROM"@))
    } else {
        match read_number(e, i + 3, "how many numbers"@) {
            Err(x) => Err(x),
            Ok((n, j)) => if !tok_is(e, j, TokView::RParen) {
                Err(expected(e, j, "`)` after the count"@))
            } else if n > MAX_NUMBERS {
                Err(refused(e, i + 2, Refused::NumbersTooLarge))
            } else {
                Ok((n, j + 1))
            },
        }
    }
}

/// `SELECT <list> FROM numbers(<n>) [FORMAT f]`, after `SELECT`. Every other clause is refused at
/// the word that names it.
pub open spec fn read_numbers_select(e: Env, i: int) -> Out<ShowView> {
    match read_numbers_columns(e, i) {
        Err(x) => Err(x),
        Ok((_, j)) => match read_numbers_call(e, j) {
            Err(x) => Err(x),
            Ok((n, k)) => match read_format(e, k) {
                Err(x) => Err(x),
                Ok((format, l)) => if at_end(e, l) {
                    Ok((ShowView { what: ShownView::Numbers { n }, format }, l))
                } else {
                    Err(refused(e, l, Refused::SystemClause))
                },
            },
        },
    }
}

impl<'a> Parser<'a> {
    /// `*`, or the one column there is, named.
    fn numbers_columns(&mut self) -> (r: Result<()>)
        requires
            old(self).wf(),
        ensures
            goes(
                *old(self),
                *final(self),
                seen_plain(r),
                read_numbers_columns(old(self).env(), old(self).i as int),
            ),
    {
        if self.eat(&Tok::Star) {
            return Ok(());
        }
        let at = self.at();
        let name = self.bare_ident("a column name, or `*`")?;
        if !name.as_str().eq_ignore_ascii_case("number") || self.is_tok(&Tok::LParen) || self.is_tok(
            &Tok::Dot,
        ) || self.word_is("AS") {
            return Err(self.refuse_at(Refused::SystemClause, at));
        }
        Ok(())
    }

    /// `FROM numbers(<n>)`.
    fn numbers_call(&mut self) -> (r: Result<u64>)
        requires
            old(self).wf(),
        ensures
            goes(
                *old(self),
                *final(self),
                seen_plain(r),
                read_numbers_call(old(self).env(), old(self).i as int),
            ),
    {
        self.expect_word("FROM", "FROM after the select list")?;
        if !self.word_is("numbers") || !self.tok_at_is(1, &Tok::LParen) {
            return Err(self.syntax("`numbers(` after FROM"));
        }
        self.skip(1);
        let at = self.at();
        self.skip(1);
        let n = self.small_number("how many numbers")?;
        self.expect(&Tok::RParen, "`)` after the count")?;
        if n > MAX_NUMBERS {
            return Err(self.refuse_at(Refused::NumbersTooLarge, at));
        }
        Ok(n)
    }

    /// `SELECT <list> FROM numbers(<n>) [FORMAT f]`, with `SELECT` already consumed.
    pub(crate) fn numbers_select(&mut self) -> (r: Result<Show>)
        requires
            old(self).wf(),
        ensures
            goes(
                *old(self),
                *final(self),
                seen(r),
                read_numbers_select(old(self).env(), old(self).i as int),
            ),
    {
        self.numbers_columns()?;
        let n = self.numbers_call()?;
        let format = self.format()?;
        if !self.done() {
            return Err(self.refuse(Refused::SystemClause));
        }
        Ok(Show { what: Shown::Numbers { n }, format })
    }
}

} // verus!
