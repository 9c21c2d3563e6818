//! The parser's hold on the tokens: looking, taking, and saying what was wrong.

use vstd::prelude::*;
use vstd::utf8::is_char_boundary;
use crate::ast::{Name, NameView};
use crate::error::{Refused, Result, SqlError, SqlErrorView};
use crate::lex::{Tok, TokView, Token, TokenView};
use crate::pql::{Literal, LiteralView};
use crate::sorted::Sorted;
use crate::text::{bytes, opt_text, same_word, views, wrapped};

verus! {

/// How deep a `WHERE` clause may nest before it is refused. A bound on the stack: the parser is
/// a recursive descent, and nesting is call depth.
pub const MAX_DEPTH: usize = 128;

/// What a grammar rule reads from: the tokens, the text they came from, the constants a `WITH`
/// bound, and the instant `now()` stands for.
#[verifier::ext_equal]
pub struct Env {
    pub t: Seq<TokenView>,
    pub src: Seq<u8>,
    pub bound: Map<Seq<char>, LiteralView>,
    pub now: i64,
}

/// What a grammar rule gives: a value and the position after it, or what was wrong.
pub type Out<T> = core::result::Result<(T, int), SqlErrorView>;

/// A result by value.
pub open spec fn seen<T: View>(r: Result<T>) -> core::result::Result<T::V, SqlErrorView> {
    match r {
        Ok(v) => Ok(v@),
        Err(e) => Err(e@),
    }
}

/// What came of reading a list, as its view.
pub open spec fn seen_all<T: View>(r: Result<Vec<T>>) -> core::result::Result<
    Seq<T::V>,
    SqlErrorView,
> {
    match r {
        Ok(v) => Ok(views(v@)),
        Err(e) => Err(e@),
    }
}

/// What came of reading a clause that may be absent, as its view.
pub open spec fn seen_opt<T: View>(r: Result<Option<T>>) -> core::result::Result<
    Option<T::V>,
    SqlErrorView,
> {
    match r {
        Ok(Some(v)) => Ok(Some(v@)),
        Ok(None) => Ok(None),
        Err(e) => Err(e@),
    }
}

/// What came of reading a value that is its own view.
pub open spec fn seen_plain<T>(r: Result<T>) -> core::result::Result<T, SqlErrorView> {
    match r {
        Ok(v) => Ok(v),
        Err(e) => Err(e@),
    }
}

/// The token at a position, if there is one.
pub open spec fn peek_at(e: Env, i: int) -> Option<TokView> {
    if 0 <= i < e.t.len() {
        Some(e.t[i].tok)
    } else {
        None
    }
}

/// Whether a given token is at a position.
pub open spec fn tok_is(e: Env, i: int, tok: TokView) -> bool {
    peek_at(e, i) == Some(tok)
}

/// The byte offset of the token at a position, or the end of the text.
pub open spec fn offset(e: Env, i: int) -> usize {
    if 0 <= i < e.t.len() {
        e.t[i].at
    } else {
        e.src.len() as usize
    }
}

/// How the token at a position is quoted in an error.
pub open spec fn shown(e: Env, i: int) -> Seq<char> {
    match peek_at(e, i) {
        None => "the end of the statement"@,
        Some(TokView::Word(w)) => w,
        Some(TokView::Quoted(w)) => "\""@ + w + "\""@,
        Some(TokView::Str(s)) => "'"@ + s + "'"@,
        Some(TokView::Num(_)) => "a number"@,
        Some(TokView::Op(o)) => o,
        Some(TokView::Arith(o)) => o,
        Some(TokView::LParen) => "("@,
        Some(TokView::RParen) => ")"@,
        Some(TokView::Comma) => ","@,
        Some(TokView::Star) => "*"@,
        Some(TokView::Dot) => "."@,
    }
}

/// A refusal pointed at a byte.
pub open spec fn refusal(what: Refused, at: usize) -> SqlErrorView {
    SqlErrorView::Refused { what, at: at as nat }
}

/// A refusal pointed at a token.
pub open spec fn refused(e: Env, i: int, what: Refused) -> SqlErrorView {
    refusal(what, offset(e, i))
}

/// Something else was wanted here.
pub open spec fn expected(e: Env, i: int, want: Seq<char>) -> SqlErrorView {
    SqlErrorView::Syntax { at: offset(e, i) as nat, found: shown(e, i), want }
}

/// Whether a bare word is at a position.
pub open spec fn a_word(e: Env, i: int) -> bool {
    peek_at(e, i) is Some && peek_at(e, i)->0 is Word
}

/// Whether a given keyword is at a position, in any case.
pub open spec fn word_at(e: Env, i: int, kw: Seq<char>) -> bool {
    match peek_at(e, i) {
        Some(TokView::Word(w)) => same_word(w, kw),
        _ => false,
    }
}

/// Where a keyword leaves off, if it is there.
pub open spec fn past_word(e: Env, i: int, kw: Seq<char>) -> int {
    if word_at(e, i, kw) {
        i + 1
    } else {
        i
    }
}

/// Whether nothing is left.
pub open spec fn at_end(e: Env, i: int) -> bool {
    peek_at(e, i) is None
}

/// A value, given that the statement ends where it was read.
pub open spec fn ended<T>(e: Env, i: int, v: T) -> Out<T> {
    if at_end(e, i) {
        Ok((v, i))
    } else {
        Err(expected(e, i, "the end of the statement"@))
    }
}

/// An identifier, bare or quoted.
pub open spec fn read_ident(e: Env, i: int, want: Seq<char>) -> Out<Seq<char>> {
    match peek_at(e, i) {
        Some(TokView::Word(w)) => Ok((w, i + 1)),
        Some(TokView::Quoted(w)) => Ok((w, i + 1)),
        _ => Err(expected(e, i, want)),
    }
}

/// A column name, with the table qualifier it was written with.
pub open spec fn read_name(e: Env, i: int, want: Seq<char>) -> Out<NameView> {
    match read_ident(e, i, want) {
        Err(x) => Err(x),
        Ok((first, j)) => if tok_is(e, j, TokView::Dot) {
            match read_ident(e, j + 1, "a column name after the qualifier"@) {
                Err(x) => Err(x),
                Ok((column, k)) => if tok_is(e, k, TokView::Dot) {
                    Err(refused(e, k, Refused::ThreePartName))
                } else {
                    Ok((NameView { qualifier: Some(first), column }, k))
                },
            }
        } else {
            Ok((NameView { qualifier: None, column: first }, j))
        },
    }
}

/// A table, with the database it was written in.
pub open spec fn read_table(e: Env, i: int, want: Seq<char>) -> Out<(Option<Seq<char>>, Seq<char>)> {
    match read_ident(e, i, want) {
        Err(x) => Err(x),
        Ok((first, j)) => if tok_is(e, j, TokView::Dot) {
            match read_ident(e, j + 1, "a table name after the database"@) {
                Err(x) => Err(x),
                Ok((table, k)) => if tok_is(e, k, TokView::Dot) {
                    Err(refused(e, k, Refused::ThreePartName))
                } else {
                    Ok(((Some(first), table), k))
                },
            }
        } else {
            Ok(((None, first), j))
        },
    }
}

/// A non-negative whole number written literally.
pub open spec fn read_number(e: Env, i: int, want: Seq<char>) -> Out<u64> {
    match peek_at(e, i) {
        Some(TokView::Num(LiteralView::Int(n))) => Ok((n, i + 1)),
        _ => Err(expected(e, i, want)),
    }
}

/// A quoted text.
pub open spec fn read_text(e: Env, i: int, otherwise: SqlErrorView) -> Out<Seq<char>> {
    match peek_at(e, i) {
        Some(TokView::Str(s)) => Ok((s, i + 1)),
        _ => Err(otherwise),
    }
}

/// A value, or a name a `WITH` bound one to.
pub open spec fn read_literal(e: Env, i: int, want: Seq<char>) -> Out<LiteralView> {
    match peek_at(e, i) {
        Some(TokView::Word(w)) => if e.bound.dom().contains(w) {
            Ok((e.bound[w], i + 1))
        } else if same_word(w, "NULL"@) {
            Err(refused(e, i, Refused::Null))
        } else if same_word(w, "TRUE"@) {
            Ok((LiteralView::Bool(true), i + 1))
        } else if same_word(w, "FALSE"@) {
            Ok((LiteralView::Bool(false), i + 1))
        } else {
            Err(expected(e, i, want))
        },
        Some(TokView::Num(n)) => Ok((n, i + 1)),
        Some(TokView::Str(s)) => Ok((LiteralView::Str(s), i + 1)),
        _ => Err(expected(e, i, want)),
    }
}

/// A rule's outcome, given that it read at least one token. Every rule that another one goes on
/// after does.
pub open spec fn moved<T>(e: Env, i: int, r: Out<T>) -> Out<T> {
    match r {
        Ok((v, j)) => if i < j <= e.t.len() {
            Ok((v, j))
        } else {
            Err(expected(e, i, "at least one token"@))
        },
        Err(x) => Err(x),
    }
}

/// A reader of one statement.
pub(crate) struct Parser<'a> {
    pub(crate) t: &'a Vec<Token>,
    pub(crate) i: usize,
    /// The text of the statement.
    pub(crate) src: &'a str,
    /// How deep the condition being read is nested.
    pub(crate) depth: usize,
    /// Constants a `WITH` clause bound, by the name it gave them.
    pub(crate) bound: Sorted<String, Literal>,
    /// What `now()` stands for.
    pub(crate) now: i64,
}

/// Tokens in order, each beginning a character of the text.
pub open spec fn placed(t: Seq<TokenView>, src: Seq<u8>) -> bool {
    &&& forall|j: int| 0 <= j < t.len() ==> (#[trigger] t[j]).at < src.len() && is_char_boundary(
        src,
        t[j].at as int,
    )
    &&& forall|j: int, k: int|
        #![trigger t[j], t[k]]
        0 <= j < k < t.len() ==> t[j].at < t[k].at
}

/// A rule was followed: the input is the same, and what came out is what the rule says.
pub(crate) open spec fn goes<V>(
    was: Parser,
    now: Parser,
    got: core::result::Result<V, SqlErrorView>,
    want: Out<V>,
) -> bool {
    &&& now.env() == was.env()
    &&& now.t == was.t
    &&& now.wf()
    &&& match got {
        Ok(v) => want == Ok::<(V, int), SqlErrorView>((v, now.i as int)) && now.depth == was.depth
            && was.i <= now.i,
        Err(e) => want == Err::<(V, int), SqlErrorView>(e),
    }
}

impl<'a> Parser<'a> {
    /// What is being read from.
    pub(crate) open spec fn env(&self) -> Env {
        Env {
            t: views(self.t@),
            src: bytes(self.src@),
            bound: self.bound@.map_values(|l: Literal| l@),
            now: self.now,
        }
    }

    pub(crate) open spec fn wf(&self) -> bool {
        &&& self.i <= self.t@.len()
        &&& self.depth <= MAX_DEPTH
        &&& self.bound.wf()
        &&& placed(self.env().t, self.env().src)
        &&& self.env().src.len() <= usize::MAX
    }

    /// The token being looked at.
    pub(crate) fn peek(&self) -> (r: Option<&Tok>)
        requires
            self.wf(),
        ensures
            r is None <==> peek_at(self.env(), self.i as int) is None,
            r is Some ==> peek_at(self.env(), self.i as int) == Some(r->0@) && self.i
                < self.t@.len(),
    {
        if self.i < self.t.len() {
            Some(&self.t[self.i].tok)
        } else {
            None
        }
    }

    /// The token `n` ahead.
    pub(crate) fn ahead(&self, n: usize) -> (r: Option<&Tok>)
        requires
            self.wf(),
        ensures
            r is None <==> peek_at(self.env(), self.i + n) is None,
            r is Some ==> peek_at(self.env(), self.i + n) == Some(r->0@),
    {
        if n < self.t.len() - self.i {
            Some(&self.t[self.i + n].tok)
        } else {
            None
        }
    }

    /// Byte offset of the current token, or the end of the input when there is none.
    pub(crate) fn at(&self) -> (r: usize)
        requires
            self.wf(),
        ensures
            r == offset(self.env(), self.i as int),
    {
        if self.i < self.t.len() {
            self.t[self.i].at
        } else {
            self.src.len()
        }
    }

    /// How the current token is quoted in an error.
    pub(crate) fn here(&self) -> (r: String)
        requires
            self.wf(),
        ensures
            r@ == shown(self.env(), self.i as int),
    {
        match self.peek() {
            None => str::to_owned("the end of the statement"),
            Some(tok) => match tok {
                Tok::Word(w) => w.clone(),
                Tok::Quoted(w) => wrapped("\"", w.as_str(), "\""),
                Tok::Str(s) => wrapped("'", s.as_str(), "'"),
                Tok::Num(_) => str::to_owned("a number"),
                Tok::Op(o) => str::to_owned(o),
                Tok::Arith(o) => str::to_owned(o),
                Tok::LParen => str::to_owned("("),
                Tok::RParen => str::to_owned(")"),
                Tok::Comma => str::to_owned(","),
                Tok::Star => str::to_owned("*"),
                Tok::Dot => str::to_owned("."),
            },
        }
    }

    /// A refusal at the current token.
    pub(crate) fn refuse(&self, what: Refused) -> (r: SqlError)
        requires
            self.wf(),
        ensures
            r@ == refused(self.env(), self.i as int, what),
    {
        SqlError::Refused { what, at: self.at() }
    }

    /// The same, pointed at a token the parser has already moved past.
    pub(crate) fn refuse_at(&self, what: Refused, at: usize) -> (r: SqlError)
        ensures
            r@ == refusal(what, at),
    {
        SqlError::Refused { what, at }
    }

    /// Something else was wanted at the current token.
    pub(crate) fn syntax(&self, want: &'static str) -> (r: SqlError)
        requires
            self.wf(),
        ensures
            r@ == expected(self.env(), self.i as int, want@),
    {
        SqlError::Syntax { at: self.at(), found: self.here(), want }
    }

    /// The current token as a bare word, whatever its case.
    pub(crate) fn word(&self) -> (r: Option<&str>)
        requires
            self.wf(),
        ensures
            match r {
                Some(w) => peek_at(self.env(), self.i as int) == Some(TokView::Word(w@)),
                None => !a_word(self.env(), self.i as int),
            },
    {
        match self.peek() {
            Some(Tok::Word(w)) => Some(w.as_str()),
            _ => None,
        }
    }

    pub(crate) fn word_is(&self, kw: &str) -> (r: bool)
        requires
            self.wf(),
        ensures
            r == word_at(self.env(), self.i as int, kw@),
            r ==> self.i < self.t@.len(),
    {
        match self.word() {
            Some(w) => w.eq_ignore_ascii_case(kw),
            None => false,
        }
    }

    /// The word `n` tokens ahead, for the two-token keywords.
    pub(crate) fn word_at_is(&self, n: usize, kw: &str) -> (r: bool)
        requires
            self.wf(),
        ensures
            r == word_at(self.env(), self.i + n, kw@),
            r ==> self.i + n < self.t@.len(),
    {
        match self.ahead(n) {
            Some(Tok::Word(w)) => w.as_str().eq_ignore_ascii_case(kw),
            _ => false,
        }
    }

    /// Whether a given token is being looked at.
    pub(crate) fn is_tok(&self, tok: &Tok) -> (r: bool)
        requires
            self.wf(),
        ensures
            r == tok_is(self.env(), self.i as int, tok@),
            r ==> self.i < self.t@.len(),
    {
        match self.peek() {
            Some(t) => t.same(tok),
            None => false,
        }
    }

    /// Whether a given token is `n` ahead.
    pub(crate) fn tok_at_is(&self, n: usize, tok: &Tok) -> (r: bool)
        requires
            self.wf(),
        ensures
            r == tok_is(self.env(), self.i + n, tok@),
            r ==> self.i + n < self.t@.len(),
    {
        match self.ahead(n) {
            Some(t) => t.same(tok),
            None => false,
        }
    }

    /// Whether nothing is left.
    pub(crate) fn done(&self) -> (r: bool)
        requires
            self.wf(),
        ensures
            r == at_end(self.env(), self.i as int),
    {
        self.peek().is_none()
    }

    /// Moves past some tokens that are there.
    pub(crate) fn skip(&mut self, n: usize)
        requires
            old(self).wf(),
            old(self).i + n <= old(self).t@.len(),
        ensures
            final(self).wf(),
            final(self).env() == old(self).env(),
            final(self).i == old(self).i + n,
            final(self).depth == old(self).depth,
            final(self).t == old(self).t,
    {
        assert(self.i + n <= self.t.len());
        self.i = self.i + n;
    }

    pub(crate) fn eat_word(&mut self, kw: &str) -> (r: bool)
        requires
            old(self).wf(),
        ensures
            r == word_at(old(self).env(), old(self).i as int, kw@),
            final(self).i == past_word(old(self).env(), old(self).i as int, kw@),
            final(self).wf(),
            final(self).env() == old(self).env(),
            final(self).depth == old(self).depth,
            final(self).t == old(self).t,
    {
        if self.word_is(kw) {
            self.skip(1);
            true
        } else {
            false
        }
    }

    pub(crate) fn expect_word(&mut self, kw: &str, want: &'static str) -> (r: Result<()>)
        requires
            old(self).wf(),
        ensures
            final(self).wf(),
            final(self).env() == old(self).env(),
            final(self).depth == old(self).depth,
            final(self).t == old(self).t,
            match r {
                Ok(_) => word_at(old(self).env(), old(self).i as int, kw@) && final(self).i
                    == old(self).i + 1,
                Err(e) => !word_at(old(self).env(), old(self).i as int, kw@) && e@ == expected(
                    old(self).env(),
                    old(self).i as int,
                    want@,
                ),
            },
    {
        if self.eat_word(kw) {
            Ok(())
        } else {
            Err(self.syntax(want))
        }
    }

    pub(crate) fn eat(&mut self, tok: &Tok) -> (r: bool)
        requires
            old(self).wf(),
        ensures
            r == tok_is(old(self).env(), old(self).i as int, tok@),
            final(self).i == (if r {
                old(self).i + 1
            } else {
                old(self).i as int
            }),
            final(self).wf(),
            final(self).env() == old(self).env(),
            final(self).depth == old(self).depth,
            final(self).t == old(self).t,
    {
        if self.is_tok(tok) {
            self.skip(1);
            true
        } else {
            false
        }
    }

    pub(crate) fn expect(&mut self, tok: &Tok, want: &'static str) -> (r: Result<()>)
        requires
            old(self).wf(),
        ensures
            final(self).wf(),
            final(self).env() == old(self).env(),
            final(self).depth == old(self).depth,
            final(self).t == old(self).t,
            match r {
                Ok(_) => tok_is(old(self).env(), old(self).i as int, tok@) && final(self).i
                    == old(self).i + 1,
                Err(e) => !tok_is(old(self).env(), old(self).i as int, tok@) && e@ == expected(
                    old(self).env(),
                    old(self).i as int,
                    want@,
                ),
            },
    {
        if self.eat(tok) {
            Ok(())
        } else {
            Err(self.syntax(want))
        }
    }

    /// Nothing may be left.
    pub(crate) fn end_of_statement(&mut self) -> (r: Result<()>)
        requires
            old(self).wf(),
        ensures
            *final(self) == *old(self),
            match r {
                Ok(_) => at_end(old(self).env(), old(self).i as int),
                Err(e) => !at_end(old(self).env(), old(self).i as int) && e@ == expected(
                    old(self).env(),
                    old(self).i as int,
                    "the end of the statement"@,
                ),
            },
    {
        if self.done() {
            Ok(())
        } else {
            Err(self.syntax("the end of the statement"))
        }
    }

    /// An identifier, bare or quoted.
    pub(crate) fn bare_ident(&mut self, want: &'static str) -> (r: Result<String>)
        requires
            old(self).wf(),
        ensures
            goes(*old(self), *final(self), seen(r), read_ident(old(self).env(), old(self).i as int, want@)),
            r is Ok ==> final(self).i == old(self).i + 1,
            r is Err ==> final(self).i == old(self).i,
            final(self).t == old(self).t,
    {
        let w = match self.peek() {
            Some(Tok::Word(w)) => w.clone(),
            Some(Tok::Quoted(w)) => w.clone(),
            _ => {
                return Err(self.syntax(want));
            },
        };
        self.skip(1);
        Ok(w)
    }

    /// A column name, with the table qualifier it was written with.
    pub(crate) fn name(&mut self, want: &'static str) -> (r: Result<Name>)
        requires
            old(self).wf(),
        ensures
            goes(*old(self), *final(self), seen(r), read_name(old(self).env(), old(self).i as int, want@)),
            r is Ok ==> final(self).i > old(self).i,
            final(self).t == old(self).t,
    {
        let first = self.bare_ident(want)?;
        if self.eat(&Tok::Dot) {
            let column = self.bare_ident("a column name after the qualifier")?;
            if self.is_tok(&Tok::Dot) {
                return Err(self.refuse(Refused::ThreePartName));
            }
            return Ok(Name { qualifier: Some(first), column });
        }
        Ok(Name::bare(first))
    }

    /// A table, with the database it was written in.
    pub(crate) fn table_ref(&mut self, want: &'static str) -> (r: Result<(Option<String>, String)>)
        requires
            old(self).wf(),
        ensures
            goes(
                *old(self),
                *final(self),
                match r {
                    Ok(p) => Ok((opt_text(p.0), p.1@)),
                    Err(e) => Err(e@),
                },
                read_table(old(self).env(), old(self).i as int, want@),
            ),
            r is Ok ==> final(self).i > old(self).i,
            final(self).t == old(self).t,
    {
        let first = self.bare_ident(want)?;
        if self.eat(&Tok::Dot) {
            let table = self.bare_ident("a table name after the database")?;
            if self.is_tok(&Tok::Dot) {
                return Err(self.refuse(Refused::ThreePartName));
            }
            return Ok((Some(first), table));
        }
        Ok((None, first))
    }

    /// A non-negative whole number written literally.
    pub(crate) fn small_number(&mut self, want: &'static str) -> (r: Result<u64>)
        requires
            old(self).wf(),
        ensures
            goes(*old(self), *final(self), seen(r), read_number(old(self).env(), old(self).i as int, want@)),
            r is Ok ==> final(self).i == old(self).i + 1,
            final(self).t == old(self).t,
    {
        let n: u64 = match self.peek() {
            Some(Tok::Num(Literal::Int(n))) => *n,
            _ => {
                return Err(self.syntax(want));
            },
        };
        self.skip(1);
        Ok(n)
    }

    /// The text of the current token, when it is a quoted one.
    pub(crate) fn quoted(&mut self) -> (r: Option<String>)
        requires
            old(self).wf(),
        ensures
            final(self).wf(),
            final(self).env() == old(self).env(),
            final(self).depth == old(self).depth,
            final(self).t == old(self).t,
            match r {
                Some(s) => peek_at(old(self).env(), old(self).i as int) == Some(TokView::Str(s@))
                    && final(self).i == old(self).i + 1,
                None => final(self).i == old(self).i && !(peek_at(
                    old(self).env(),
                    old(self).i as int,
                ) is Some && peek_at(old(self).env(), old(self).i as int)->0 is Str),
            },
    {
        let s = match self.peek() {
            Some(Tok::Str(s)) => s.clone(),
            _ => {
                return None;
            },
        };
        self.skip(1);
        Some(s)
    }

    /// The comparison being looked at.
    pub(crate) fn op(&self) -> (r: Option<&'static str>)
        requires
            self.wf(),
        ensures
            match r {
                Some(o) => peek_at(self.env(), self.i as int) == Some(TokView::Op(o@)) && self.i
                    < self.t@.len(),
                None => !(peek_at(self.env(), self.i as int) is Some && peek_at(
                    self.env(),
                    self.i as int,
                )->0 is Op),
            },
    {
        match self.peek() {
            Some(Tok::Op(o)) => Some(*o),
            _ => None,
        }
    }

    /// A value, or a name a `WITH` bound one to.
    pub(crate) fn literal(&mut self, want: &'static str) -> (r: Result<Literal>)
        requires
            old(self).wf(),
        ensures
            goes(*old(self), *final(self), seen(r), read_literal(old(self).env(), old(self).i as int, want@)),
            r is Ok ==> final(self).i == old(self).i + 1,
            r is Err ==> final(self).i == old(self).i,
            final(self).t == old(self).t,
    {
        let v = match self.peek() {
            Some(Tok::Word(w)) => match self.bound.get(w) {
                Some(v) => {
                    assert(self.env().bound.dom().contains(w@));
                    v.copied()
                },
                None => {
                    assert(!self.env().bound.dom().contains(w@));
                    if w.as_str().eq_ignore_ascii_case("NULL") {
                        return Err(self.refuse(Refused::Null));
                    } else if w.as_str().eq_ignore_ascii_case("TRUE") {
                        Literal::Bool(true)
                    } else if w.as_str().eq_ignore_ascii_case("FALSE") {
                        Literal::Bool(false)
                    } else {
                        return Err(self.syntax(want));
                    }
                },
            },
            Some(Tok::Num(n)) => n.copied(),
            Some(Tok::Str(s)) => Literal::Str(s.clone()),
            _ => {
                return Err(self.syntax(want));
            },
        };
        self.skip(1);
        Ok(v)
    }
}

} // verus!
