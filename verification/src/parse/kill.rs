//! `KILL QUERY '<id>'`: one running query, named and stopped.

use vstd::prelude::*;
use crate::error::{Refused, Result};
use crate::lex::{Tok, TokView};
use crate::parse::cursor::{at_end, goes, past_word, read_ident, read_text, refused, seen, tok_is, word_at, Env, Out, Parser};
use crate::text::same_word;

verus! {

/// The id, and the end of the statement.
pub open spec fn read_id(e: Env, i: int) -> Out<Seq<char>> {
    match read_text(e, i, refused(e, i, Refused::KillTarget)) {
        Err(x) => Err(x),
        Ok((id, j)) => if at_end(e, j) {
            Ok((id, j))
        } else {
            Err(refused(e, j, Refused::KillTarget))
        },
    }
}

/// `[QUERY] '<id>'` and `[QUERY] WHERE query_id = '<id>'`, after `KILL`.
pub open spec fn read_kill(e: Env, i: int) -> Out<Seq<char>> {
    if word_at(e, i, "MUTATION"@) || word_at(e, i, "CONNECTION"@) {
        Err(refused(e, i, Refused::KillTarget))
    } else {
        let j = past_word(e, i, "QUERY"@);
        if !word_at(e, j, "WHERE"@) {
            read_id(e, j)
        } else {
            match read_ident(e, j + 1, "query_id"@) {
                Err(x) => Err(x),
                Ok((column, k)) => if same_word(column, "query_id"@) && tok_is(
                    e,
                    k,
                    TokView::Op("="@),
                ) {
                    read_id(e, k + 1)
                } else {
                    Err(refused(e, j + 1, Refused::KillTarget))
                },
            }
        }
    }
}

impl<'a> Parser<'a> {
    /// The id, which is a text because it carries a node name and a slash.
    fn quoted_id(&mut self) -> (r: Result<String>)
        requires
            old(self).wf(),
        ensures
            goes(
                *old(self),
                *final(self),
                seen(r),
                read_id(old(self).env(), old(self).i as int),
            ),
    {
        let id = match self.quoted() {
            Some(id) => id,
            None => {
                return Err(self.refuse(Refused::KillTarget));
            },
        };
        if !self.done() {
            return Err(self.refuse(Refused::KillTarget));
        }
        Ok(id)
    }

    /// `KILL [QUERY] ...`, with `KILL` consumed.
    pub(crate) fn kill(&mut self) -> (r: Result<String>)
        requires
            old(self).wf(),
        ensures
            goes(
                *old(self),
                *final(self),
                seen(r),
                read_kill(old(self).env(), old(self).i as int),
            ),
    {
        if self.word_is("MUTATION") || self.word_is("CONNECTION") {
            return Err(self.refuse(Refused::KillTarget));
        }
        self.eat_word("QUERY");
        if self.eat_word("WHERE") {
            let at = self.at();
            let column = self.bare_ident("query_id")?;
            if !column.as_str().eq_ignore_ascii_case("query_id") || !self.eat(&Tok::Op("=")) {
                return Err(self.refuse_at(Refused::KillTarget, at));
            }
        }
        self.quoted_id()
    }
}

} // verus!
