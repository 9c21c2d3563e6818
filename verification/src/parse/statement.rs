//! One statement, whichever kind it turns out to be.

use vstd::prelude::*;
use crate::acl::{Acl, AclView};
use crate::ast::{Delete, DeleteView, ExplainMode, Query, QueryView, Select, SelectView, Update, UpdateView};
use crate::ddl::{Ddl, DdlView};
use crate::error::{Refused, Result, SqlErrorView};
use crate::insert::{Insert, InsertView};
use crate::lex::{lex, tokens_are_in_order, tokens_from, Tok, TokView};
use crate::parse::acl::{read_create_role, read_drop_role, read_grant, read_revoke};
use crate::parse::alter::{read_alter, read_drop, read_truncate};
use crate::parse::create::read_create;
use crate::parse::cursor::{at_end, expected, goes, moved, past_word, read_ident, read_literal, refused, seen, tok_is, word_at, Env, Out, Parser};
use crate::parse::delete::{read_delete, read_update};
use crate::parse::insert::read_insert;
use crate::parse::kill::read_kill;
use crate::parse::select::read_select;
use crate::parse::settings::read_settings;
use crate::parse::show::read_show;
use crate::parse::system::{from_names, read_system_select};
use crate::parse::tablefn::read_numbers_select;
use crate::pql::{Literal, LiteralView};
use crate::settings::{no_settings, Settings};
use crate::show::{Show, ShowView, SYSTEM_DATABASE};
use crate::sorted::Sorted;
use crate::text::{bytes, views};

verus! {

/// One statement, whichever kind it turned out to be.
#[derive(PartialEq, Eq, Debug)]
pub enum Parsed {
    Query(Query),
    Insert(Insert),
    Show(Show),
    Ddl(Ddl),
    Delete(Delete),
    Update(Update),
    /// The id of the query to stop.
    Kill(String),
    Acl(Acl),
    /// A description of the statement inside, which is never itself one.
    Explain { mode: ExplainMode, inner: Box<Parsed> },
    /// The statement inside, with what it may spend, which is never nothing.
    Settings { settings: Settings, inner: Box<Parsed> },
}

/// What a [`Parsed`] holds.
#[verifier::ext_equal]
pub enum ParsedView {
    Query(QueryView),
    Insert(InsertView),
    Show(ShowView),
    Ddl(DdlView),
    Delete(DeleteView),
    Update(UpdateView),
    Kill(Seq<char>),
    Acl(AclView),
    Explain { mode: ExplainMode, inner: Box<ParsedView> },
    Settings { settings: Settings, inner: Box<ParsedView> },
}

impl View for Parsed {
    type V = ParsedView;

    open spec fn view(&self) -> ParsedView
        decreases self,
    {
        match *self {
            Parsed::Query(a) => ParsedView::Query(a@),
            Parsed::Insert(a) => ParsedView::Insert(a@),
            Parsed::Show(a) => ParsedView::Show(a@),
            Parsed::Ddl(a) => ParsedView::Ddl(a@),
            Parsed::Delete(a) => ParsedView::Delete(a@),
            Parsed::Update(a) => ParsedView::Update(a@),
            Parsed::Kill(a) => ParsedView::Kill(a@),
            Parsed::Acl(a) => ParsedView::Acl(a@),
            Parsed::Explain { mode, inner } => ParsedView::Explain {
                mode,
                inner: Box::new((*inner)@),
            },
            Parsed::Settings { settings, inner } => ParsedView::Settings {
                settings,
                inner: Box::new((*inner)@),
            },
        }
    }
}

impl Clone for Parsed {
    fn clone(&self) -> (r: Parsed)
        ensures
            r@ == self@,
        decreases self,
    {
        match self {
            Parsed::Query(a) => Parsed::Query(a.clone()),
            Parsed::Insert(a) => Parsed::Insert(a.clone()),
            Parsed::Show(a) => Parsed::Show(a.clone()),
            Parsed::Ddl(a) => Parsed::Ddl(a.clone()),
            Parsed::Delete(a) => Parsed::Delete(a.clone()),
            Parsed::Update(a) => Parsed::Update(a.clone()),
            Parsed::Kill(a) => Parsed::Kill(a.clone()),
            Parsed::Acl(a) => Parsed::Acl(a.clone()),
            Parsed::Explain { mode, inner } => Parsed::Explain {
                mode: *mode,
                inner: Box::new((**inner).clone()),
            },
            Parsed::Settings { settings, inner } => Parsed::Settings {
                settings: *settings,
                inner: Box::new((**inner).clone()),
            },
        }
    }
}

/// A statement, under the limits written on it when there are any.
pub open spec fn bounded(settings: Settings, inner: ParsedView) -> ParsedView {
    if settings == no_settings() {
        inner
    } else {
        ParsedView::Settings { settings, inner: Box::new(inner) }
    }
}

/// A statement, under the limits written on it when there are any.
fn bound_by(settings: Settings, inner: Parsed) -> (r: Parsed)
    ensures
        r@ == bounded(settings, inner@),
{
    if settings.is_empty() {
        inner
    } else {
        Parsed::Settings { settings, inner: Box::new(inner) }
    }
}

/// `ALL SELECT ...`, after `UNION`.
pub open spec fn read_branch(e: Env, i: int, d: int) -> Out<SelectView> {
    if !word_at(e, i, "ALL"@) {
        Err(refused(e, past_word(e, i, "DISTINCT"@), Refused::Union))
    } else if !word_at(e, i + 1, "SELECT"@) {
        Err(expected(e, i + 1, "SELECT after UNION ALL"@))
    } else {
        read_select(e, i + 2, d)
    }
}

/// The branches of a `UNION ALL` after the first, the limits, and the end of the statement.
pub open spec fn read_union(e: Env, i: int, d: int, before: Seq<SelectView>) -> Out<ParsedView>
    decreases e.t.len() - i,
{
    if word_at(e, i, "UNION"@) {
        match moved(e, i + 1, read_branch(e, i + 1, d)) {
            Err(x) => Err(x),
            Ok((select, j)) => read_union(e, j, d, before.push(select)),
        }
    } else {
        match read_settings(e, i) {
            Err(x) => Err(x),
            Ok((settings, j)) => if at_end(e, j) {
                Ok((bounded(settings, ParsedView::Query(QueryView { branches: before })), j))
            } else if word_at(e, j, "INTERSECT"@) || word_at(e, j, "EXCEPT"@) {
                Err(refused(e, j, Refused::Subquery))
            } else {
                Err(expected(e, j, "the end of the statement"@))
            },
        }
    }
}

/// What follows a `SELECT`. Its `FROM` decides which kind of statement it is.
pub open spec fn read_query(e: Env, i: int, d: int) -> Out<ParsedView> {
    if from_names(e, i, SYSTEM_DATABASE@, TokView::Dot) {
        match read_system_select(e, i) {
            Err(x) => Err(x),
            Ok((show, j)) => Ok((ParsedView::Show(show), j)),
        }
    } else if from_names(e, i, "numbers"@, TokView::LParen) {
        match read_numbers_select(e, i) {
            Err(x) => Err(x),
            Ok((show, j)) => Ok((ParsedView::Show(show), j)),
        }
    } else {
        match read_select(e, i, d) {
            Err(x) => Err(x),
            Ok((select, j)) => read_union(e, j, d, seq![select]),
        }
    }
}

/// Constants by the names a `WITH` gave them.
pub type Bound = Map<Seq<char>, LiteralView>;

/// `<literal> AS <name>`, over the constants already bound.
pub open spec fn read_binding(e: Env, i: int) -> Out<Bound> {
    if tok_is(e, i, TokView::LParen) || (word_at(e, i + 1, "AS"@) && tok_is(
        e,
        i + 2,
        TokView::LParen,
    )) {
        Err(refused(e, i, Refused::Subquery))
    } else {
        match read_literal(e, i, "a constant to bind"@) {
            Err(x) => Err(x),
            Ok((value, j)) => if !word_at(e, j, "AS"@) {
                Err(expected(e, j, "AS after the constant"@))
            } else {
                match read_ident(e, j + 1, "a name for the constant"@) {
                    Err(x) => Err(x),
                    Ok((name, k)) => Ok((e.bound.insert(name, value), k)),
                }
            },
        }
    }
}

/// `<literal> AS <name> [, ...]`, after `WITH`. A later constant may be an earlier one.
pub open spec fn read_bindings(e: Env, i: int) -> Out<Bound>
    decreases e.t.len() - i,
{
    if word_at(e, i, "SELECT"@) {
        Ok((e.bound, i))
    } else {
        match moved(e, i, read_binding(e, i)) {
            Err(x) => Err(x),
            Ok((bound, j)) => if tok_is(e, j, TokView::Comma) {
                read_bindings(Env { bound, ..e }, j + 1)
            } else {
                Ok((bound, j))
            },
        }
    }
}

/// `WITH ... SELECT ...`, after `WITH`.
pub open spec fn read_with_query(e: Env, i: int, d: int) -> Out<ParsedView> {
    match read_bindings(e, i) {
        Err(x) => Err(x),
        Ok((bound, j)) => if word_at(e, j, "SELECT"@) {
            read_query(Env { bound, ..e }, j + 1, d)
        } else {
            Err(expected(e, j, "SELECT after the WITH bindings"@))
        },
    }
}

/// A statement that changes a schema or a role, after its first word at `i`.
pub open spec fn read_definition(e: Env, i: int, d: int) -> Out<ParsedView> {
    if word_at(e, i, "CREATE"@) && word_at(e, i + 1, "ROLE"@) {
        match read_create_role(e, i + 2) {
            Err(x) => Err(x),
            Ok((v, j)) => Ok((ParsedView::Acl(v), j)),
        }
    } else if word_at(e, i, "DROP"@) && word_at(e, i + 1, "ROLE"@) {
        match read_drop_role(e, i + 2) {
            Err(x) => Err(x),
            Ok((v, j)) => Ok((ParsedView::Acl(v), j)),
        }
    } else if word_at(e, i + 1, "USER"@) {
        Err(refused(e, i + 1, Refused::CreateUser))
    } else if word_at(e, i, "CREATE"@) && (word_at(e, i + 1, "TEMPORARY"@) || word_at(
        e,
        i + 1,
        "TEMP"@,
    )) {
        Err(refused(e, i + 1, Refused::TemporaryTable))
    } else {
        match (if word_at(e, i, "CREATE"@) {
            read_create(e, i + 1, d)
        } else if word_at(e, i, "ALTER"@) {
            read_alter(e, i + 1)
        } else {
            read_drop(e, i + 1)
        }) {
            Err(x) => Err(x),
            Ok((v, j)) => Ok((ParsedView::Ddl(v), j)),
        }
    }
}

/// A statement that writes, after its first word at `i`.
pub open spec fn read_write(e: Env, i: int, d: int) -> Out<ParsedView> {
    if word_at(e, i, "INSERT"@) {
        match read_insert(e, i + 1, d) {
            Err(x) => Err(x),
            Ok((v, j)) => Ok((ParsedView::Insert(v), j)),
        }
    } else if word_at(e, i, "DELETE"@) {
        match read_delete(e, i + 1, d) {
            Err(x) => Err(x),
            Ok(((v, settings), j)) => Ok((bounded(settings, ParsedView::Delete(v)), j)),
        }
    } else if word_at(e, i, "UPDATE"@) {
        match read_update(e, i + 1, d) {
            Err(x) => Err(x),
            Ok(((v, settings), j)) => Ok((bounded(settings, ParsedView::Update(v)), j)),
        }
    } else {
        match read_truncate(e, i + 1) {
            Err(x) => Err(x),
            Ok((v, j)) => Ok((ParsedView::Ddl(v), j)),
        }
    }
}

/// Why a first word that begins no statement here is refused.
pub open spec fn refused_word(e: Env, i: int) -> SqlErrorView {
    if word_at(e, i, "USE"@) {
        refused(e, i, Refused::SessionUse)
    } else if word_at(e, i, "SET"@) {
        refused(e, i, Refused::SessionSetting)
    } else if word_at(e, i, "ANALYZE"@) {
        refused(e, i, Refused::Analyze)
    } else if word_at(e, i, "OPTIMIZE"@) {
        refused(e, i, Refused::Optimize)
    } else if word_at(e, i, "COPY"@) {
        refused(e, i, Refused::CopyInto)
    } else if word_at(e, i, "RENAME"@) {
        refused(e, i, Refused::Rename)
    } else if word_at(e, i, "REPLACE"@) || word_at(e, i, "MERGE"@) || word_at(e, i, "UPSERT"@) {
        refused(e, i, Refused::Write)
    } else {
        expected(e, i, "a SELECT statement"@)
    }
}

/// A statement that is not an `EXPLAIN`. Its first word decides what it is.
#[verifier::opaque]
pub open spec fn read_statement(e: Env, i: int, d: int) -> Out<ParsedView> {
    if word_at(e, i, "WITH"@) {
        read_with_query(e, i + 1, d)
    } else if word_at(e, i, "SELECT"@) {
        read_query(e, i + 1, d)
    } else if word_at(e, i, "CREATE"@) || word_at(e, i, "ALTER"@) || word_at(e, i, "DROP"@) {
        read_definition(e, i, d)
    } else if word_at(e, i, "INSERT"@) || word_at(e, i, "DELETE"@) || word_at(e, i, "UPDATE"@)
        || word_at(e, i, "TRUNCATE"@) {
        read_write(e, i, d)
    } else if word_at(e, i, "DESCRIBE"@) || word_at(e, i, "DESC"@) || word_at(e, i, "SHOW"@) {
        match read_show(e, i) {
            Err(x) => Err(x),
            Ok((v, j)) => Ok((ParsedView::Show(v), j)),
        }
    } else if word_at(e, i, "GRANT"@) {
        match read_grant(e, i + 1) {
            Err(x) => Err(x),
            Ok((v, j)) => Ok((ParsedView::Acl(v), j)),
        }
    } else if word_at(e, i, "REVOKE"@) {
        match read_revoke(e, i + 1) {
            Err(x) => Err(x),
            Ok((v, j)) => Ok((ParsedView::Acl(v), j)),
        }
    } else if word_at(e, i, "KILL"@) {
        match read_kill(e, i + 1) {
            Err(x) => Err(x),
            Ok((v, j)) => Ok((ParsedView::Kill(v), j)),
        }
    } else {
        Err(refused_word(e, i))
    }
}

impl ParsedView {
    /// Whether this is a query, under limits or not.
    pub open spec fn is_query(self) -> bool
        decreases self,
    {
        match self {
            ParsedView::Query(_) => true,
            ParsedView::Settings { inner, .. } => inner.is_query(),
            _ => false,
        }
    }
}

/// `EXPLAIN [PLAN|SHAPE] <statement>`, after `EXPLAIN`. Only a query has the two halves.
pub open spec fn read_explain(e: Env, i: int, d: int) -> Out<ParsedView> {
    if word_at(e, i, "ANALYZE"@) {
        Err(refused(e, i, Refused::Analyze))
    } else {
        let mode = if word_at(e, i, "PLAN"@) {
            ExplainMode::Plan
        } else if word_at(e, i, "SHAPE"@) {
            ExplainMode::Shape
        } else {
            ExplainMode::All
        };
        let j = if mode is All {
            i
        } else {
            i + 1
        };
        match read_statement(e, j, d) {
            Err(x) => Err(x),
            Ok((inner, k)) => if mode is All || inner.is_query() {
                Ok((ParsedView::Explain { mode, inner: Box::new(inner) }, k))
            } else {
                Err(refused(e, i, Refused::ExplainHalf))
            },
        }
    }
}

/// A whole statement.
pub open spec fn read_any(e: Env, i: int, d: int) -> Out<ParsedView> {
    if word_at(e, i, "EXPLAIN"@) {
        read_explain(e, i + 1, d)
    } else {
        read_statement(e, i, d)
    }
}

/// What a text says, at a given instant.
pub open spec fn said(text: Seq<char>, now: i64) -> core::result::Result<ParsedView, SqlErrorView> {
    match tokens_from(bytes(text), 0) {
        Err(x) => Err(x),
        Ok(t) => {
            let e = Env { t, src: bytes(text), bound: Map::empty(), now };
            match read_any(e, 0, 0) {
                Err(x) => Err(x),
                Ok((v, _)) => Ok(v),
            }
        },
    }
}

impl Parsed {
    /// Whether this is a query, under limits or not.
    pub fn is_query(&self) -> (r: bool)
        ensures
            r == self@.is_query(),
        decreases self,
    {
        match self {
            Parsed::Query(_) => true,
            Parsed::Settings { inner, .. } => (**inner).is_query(),
            _ => false,
        }
    }
}

impl<'a> Parser<'a> {
    /// The branches after the first, the limits, and then whatever is left, which should be
    /// nothing.
    fn union(&mut self, first: Select) -> (r: Result<Parsed>)
        requires
            old(self).wf(),
        ensures
            goes(
                *old(self),
                *final(self),
                seen(r),
                read_union(
                    old(self).env(),
                    old(self).i as int,
                    old(self).depth as int,
                    seq![first@],
                ),
            ),
    {
        let mut branches: Vec<Select> = Vec::new();
        branches.push(first);
        assert(views(branches@) =~= seq![first@]);
        loop
            invariant
                self.wf(),
                self.env() == old(self).env(),
                self.t == old(self).t,
                self.depth == old(self).depth,
                self.i >= old(self).i,
                read_union(
                    old(self).env(),
                    old(self).i as int,
                    old(self).depth as int,
                    seq![first@],
                ) == read_union(
                    self.env(),
                    self.i as int,
                    self.depth as int,
                    views(branches@),
                ),
            decreases self.t@.len() - self.i,
        {
            if !self.eat_word("UNION") {
                return self.rest(branches);
            }
            let ghost before = views(branches@);
            let select = self.branch()?;
            branches.push(select);
            assert(views(branches@) =~= before.push(select@));
        }
    }

    /// The limits and the end of the statement, after its last branch.
    fn rest(&mut self, branches: Vec<Select>) -> (r: Result<Parsed>)
        requires
            old(self).wf(),
            !word_at(old(self).env(), old(self).i as int, "UNION"@),
        ensures
            goes(
                *old(self),
                *final(self),
                seen(r),
                read_union(
                    old(self).env(),
                    old(self).i as int,
                    old(self).depth as int,
                    views(branches@),
                ),
            ),
    {
        let settings = self.settings()?;
        if self.done() {
            return Ok(bound_by(settings, Parsed::Query(Query { branches })));
        }
        if self.word_is("INTERSECT") || self.word_is("EXCEPT") {
            return Err(self.refuse(Refused::Subquery));
        }
        Err(self.syntax("the end of the statement"))
    }

    /// `ALL SELECT ...`, after `UNION`.
    fn branch(&mut self) -> (r: Result<Select>)
        requires
            old(self).wf(),
        ensures
            goes(
                *old(self),
                *final(self),
                seen(r),
                read_branch(old(self).env(), old(self).i as int, old(self).depth as int),
            ),
            r is Ok ==> final(self).i > old(self).i,
    {
        if !self.eat_word("ALL") {
            self.eat_word("DISTINCT");
            return Err(self.refuse(Refused::Union));
        }
        self.expect_word("SELECT", "SELECT after UNION ALL")?;
        self.select()
    }

    /// What follows a `SELECT`.
    fn query(&mut self) -> (r: Result<Parsed>)
        requires
            old(self).wf(),
        ensures
            goes(
                *old(self),
                *final(self),
                seen(r),
                read_query(old(self).env(), old(self).i as int, old(self).depth as int),
            ),
    {
        if self.names_system() {
            return Ok(Parsed::Show(self.system_select()?));
        }
        if self.names_numbers() {
            return Ok(Parsed::Show(self.numbers_select()?));
        }
        let select = self.select()?;
        self.union(select)
    }

    /// `WITH <literal> AS <name> [, ...]`, collected for the statement to use by name.
    fn bindings(&mut self) -> (r: Result<()>)
        requires
            old(self).wf(),
        ensures
            match r {
                Ok(_) => final(self).wf() && final(self).t == old(self).t && final(self).depth
                    == old(self).depth && read_bindings(old(self).env(), old(self).i as int) == Ok::<_, SqlErrorView>(
                    (final(self).env().bound, final(self).i as int),
                ) && final(self).env() == (Env { bound: final(self).env().bound, ..old(self).env() })
                    && final(self).i >= old(self).i,
                Err(x) => read_bindings(old(self).env(), old(self).i as int) == Err::<(Bound, int), _>(
                    x@,
                ),
            },
    {
        loop
            invariant
                self.wf(),
                self.t == old(self).t,
                self.depth == old(self).depth,
                self.i >= old(self).i,
                self.env() == (Env { bound: self.env().bound, ..old(self).env() }),
                read_bindings(old(self).env(), old(self).i as int) == read_bindings(
                    self.env(),
                    self.i as int,
                ),
            decreases self.t@.len() - self.i,
        {
            if self.word_is("SELECT") {
                return Ok(());
            }
            self.binding()?;
            if !self.eat(&Tok::Comma) {
                return Ok(());
            }
        }
    }

    /// `<literal> AS <name>`.
    fn binding(&mut self) -> (r: Result<()>)
        requires
            old(self).wf(),
        ensures
            match r {
                Ok(_) => final(self).wf() && final(self).t == old(self).t && final(self).depth
                    == old(self).depth && read_binding(old(self).env(), old(self).i as int) == Ok::<_, SqlErrorView>(
                    (final(self).env().bound, final(self).i as int),
                ) && final(self).env() == (Env { bound: final(self).env().bound, ..old(self).env() })
                    && final(self).i > old(self).i,
                Err(x) => read_binding(old(self).env(), old(self).i as int) == Err::<(Bound, int), _>(
                    x@,
                ),
            },
    {
        if self.is_tok(&Tok::LParen) || (self.word_at_is(1, "AS") && self.tok_at_is(
            2,
            &Tok::LParen,
        )) {
            return Err(self.refuse(Refused::Subquery));
        }
        let value = self.literal("a constant to bind")?;
        self.expect_word("AS", "AS after the constant")?;
        let name = self.bare_ident("a name for the constant")?;
        let ghost held = self.bound@;
        self.bound.insert(name, value);
        assert(self.env().bound =~= held.map_values(|l: Literal| l@).insert(name@, value@));
        Ok(())
    }

    /// `WITH ... SELECT ...`, after `WITH`. The constants stay bound.
    fn with_query(&mut self) -> (r: Result<Parsed>)
        requires
            old(self).wf(),
        ensures
            match r {
                Ok(v) => final(self).wf() && read_with_query(
                    old(self).env(),
                    old(self).i as int,
                    old(self).depth as int,
                ) == Ok::<_, SqlErrorView>((v@, final(self).i as int)),
                Err(x) => read_with_query(
                    old(self).env(),
                    old(self).i as int,
                    old(self).depth as int,
                ) == Err::<(ParsedView, int), _>(x@),
            },
    {
        self.bindings()?;
        let ghost e = self.env();
        self.expect_word("SELECT", "SELECT after the WITH bindings")?;
        self.query()
    }

    /// A statement that changes a schema or a role.
    fn definition(&mut self) -> (r: Result<Parsed>)
        requires
            old(self).wf(),
        ensures
            goes(
                *old(self),
                *final(self),
                seen(r),
                (if word_at(old(self).env(), old(self).i as int, "CREATE"@) || word_at(old(self).env(), old(self).i as int, "ALTER"@) || word_at(
                    old(self).env(),
                    old(self).i as int,
                    "DROP"@,
                ) {
                    read_definition(old(self).env(), old(self).i as int, old(self).depth as int)
                } else {
                    Err(expected(old(self).env(), old(self).i as int, "a SELECT statement"@))
                }),
            ),
    {
        let create = self.word_is("CREATE");
        let alter = self.word_is("ALTER");
        let drop = self.word_is("DROP");
        if !create && !alter && !drop {
            return Err(self.syntax("a SELECT statement"));
        }
        self.skip(1);
        if create && self.eat_word("ROLE") {
            return Ok(Parsed::Acl(self.create_role()?));
        }
        if drop && self.eat_word("ROLE") {
            return Ok(Parsed::Acl(self.drop_role()?));
        }
        if self.word_is("USER") {
            return Err(self.refuse(Refused::CreateUser));
        }
        if create && (self.word_is("TEMPORARY") || self.word_is("TEMP")) {
            return Err(self.refuse(Refused::TemporaryTable));
        }
        let ddl = if create {
            self.create_table()?
        } else if alter {
            self.alter_table()?
        } else {
            self.drop_table()?
        };
        Ok(Parsed::Ddl(ddl))
    }

    /// A statement that writes.
    fn write(&mut self) -> (r: Result<Parsed>)
        requires
            old(self).wf(),
        ensures
            goes(
                *old(self),
                *final(self),
                seen(r),
                (if word_at(old(self).env(), old(self).i as int, "INSERT"@) || word_at(old(self).env(), old(self).i as int, "DELETE"@) || word_at(
                    old(self).env(),
                    old(self).i as int,
                    "UPDATE"@,
                ) || word_at(old(self).env(), old(self).i as int, "TRUNCATE"@) {
                    read_write(old(self).env(), old(self).i as int, old(self).depth as int)
                } else {
                    Err(expected(old(self).env(), old(self).i as int, "a SELECT statement"@))
                }),
            ),
    {
        if self.eat_word("INSERT") {
            return Ok(Parsed::Insert(self.insert()?));
        }
        if self.eat_word("DELETE") {
            let (delete, settings) = self.delete()?;
            return Ok(bound_by(settings, Parsed::Delete(delete)));
        }
        if self.eat_word("UPDATE") {
            let (update, settings) = self.update()?;
            return Ok(bound_by(settings, Parsed::Update(update)));
        }
        self.expect_word("TRUNCATE", "a SELECT statement")?;
        Ok(Parsed::Ddl(self.truncate_table()?))
    }

    /// Why a first word that begins no statement here is refused.
    fn refuse_word(&self) -> (r: crate::error::SqlError)
        requires
            self.wf(),
        ensures
            r@ == refused_word(self.env(), self.i as int),
    {
        if self.word_is("USE") {
            self.refuse(Refused::SessionUse)
        } else if self.word_is("SET") {
            self.refuse(Refused::SessionSetting)
        } else if self.word_is("ANALYZE") {
            self.refuse(Refused::Analyze)
        } else if self.word_is("OPTIMIZE") {
            self.refuse(Refused::Optimize)
        } else if self.word_is("COPY") {
            self.refuse(Refused::CopyInto)
        } else if self.word_is("RENAME") {
            self.refuse(Refused::Rename)
        } else if self.word_is("REPLACE") || self.word_is("MERGE") || self.word_is("UPSERT") {
            self.refuse(Refused::Write)
        } else {
            self.syntax("a SELECT statement")
        }
    }

    /// A statement that is not an `EXPLAIN`.
    #[verifier::rlimit(60)]
    fn statement(&mut self) -> (r: Result<Parsed>)
        requires
            old(self).wf(),
        ensures
            match r {
                Ok(v) => final(self).wf() && read_statement(
                    old(self).env(),
                    old(self).i as int,
                    old(self).depth as int,
                ) == Ok::<_, SqlErrorView>((v@, final(self).i as int)),
                Err(x) => read_statement(
                    old(self).env(),
                    old(self).i as int,
                    old(self).depth as int,
                ) == Err::<(ParsedView, int), _>(x@),
            },
    {
        proof {
            reveal(read_statement);
        }
        if self.eat_word("WITH") {
            return self.with_query();
        }
        if self.eat_word("SELECT") {
            return self.query();
        }
        if self.word_is("CREATE") || self.word_is("ALTER") || self.word_is("DROP") {
            return self.definition();
        }
        if self.word_is("INSERT") || self.word_is("DELETE") || self.word_is("UPDATE")
            || self.word_is("TRUNCATE") {
            return self.write();
        }
        if self.word_is("DESCRIBE") || self.word_is("DESC") || self.word_is("SHOW") {
            return Ok(Parsed::Show(self.show()?));
        }
        if self.eat_word("GRANT") {
            return Ok(Parsed::Acl(self.grant()?));
        }
        if self.eat_word("REVOKE") {
            return Ok(Parsed::Acl(self.revoke()?));
        }
        if self.eat_word("KILL") {
            return Ok(Parsed::Kill(self.kill()?));
        }
        Err(self.refuse_word())
    }

    /// `EXPLAIN [PLAN|SHAPE] <statement>`, after `EXPLAIN`.
    fn explain(&mut self) -> (r: Result<Parsed>)
        requires
            old(self).wf(),
        ensures
            match r {
                Ok(v) => read_explain(old(self).env(), old(self).i as int, old(self).depth as int)
                    == Ok::<_, SqlErrorView>((v@, final(self).i as int)),
                Err(x) => read_explain(old(self).env(), old(self).i as int, old(self).depth as int)
                    == Err::<(ParsedView, int), _>(x@),
            },
    {
        if self.word_is("ANALYZE") {
            return Err(self.refuse(Refused::Analyze));
        }
        let at = self.at();
        let mode = if self.eat_word("PLAN") {
            ExplainMode::Plan
        } else if self.eat_word("SHAPE") {
            ExplainMode::Shape
        } else {
            ExplainMode::All
        };
        let inner = self.statement()?;
        let whole = match mode {
            ExplainMode::All => true,
            _ => false,
        };
        if !whole && !inner.is_query() {
            return Err(
                crate::error::SqlError::Refused { what: Refused::ExplainHalf, at },
            );
        }
        Ok(Parsed::Explain { mode, inner: Box::new(inner) })
    }

    /// A whole statement.
    fn any(&mut self) -> (r: Result<Parsed>)
        requires
            old(self).wf(),
        ensures
            match r {
                Ok(v) => read_any(old(self).env(), old(self).i as int, old(self).depth as int)
                    == Ok::<_, SqlErrorView>((v@, final(self).i as int)),
                Err(x) => read_any(old(self).env(), old(self).i as int, old(self).depth as int)
                    == Err::<(ParsedView, int), _>(x@),
            },
    {
        if self.eat_word("EXPLAIN") {
            self.explain()
        } else {
            self.statement()
        }
    }
}

/// Parses one statement as of an instant, in seconds since the epoch, refusing anything this
/// engine does not answer.
pub fn parse_at(input: &str, now: i64) -> (r: Result<Parsed>)
    ensures
        seen(r) == said(input@, now),
{
    let tokens = lex(input)?;
    let length = input.as_bytes().len();
    let bound: Sorted<String, Literal> = Sorted::new();
    proof {
        vstd::utf8::encode_utf8_valid_utf8(input@);
        tokens_are_in_order(bytes(input@), 0);
    }
    let mut p = Parser { t: &tokens, i: 0, src: input, depth: 0, bound, now };
    assert(p.env().bound =~= Map::empty());
    assert(length == p.env().src.len());
    p.any()
}

/// The clock, read through [`std::time::SystemTime`]: seconds since the epoch, and nothing of
/// them is claimed.
#[verifier::external_body]
pub(crate) fn unix_now() -> (r: i64)
{
    match std::time::SystemTime::now().duration_since(std::time::UNIX_EPOCH) {
        Ok(d) => d.as_secs() as i64,
        Err(_) => 0,
    }
}

/// Parses one statement as of now, refusing anything this engine does not answer.
pub fn parse(input: &str) -> (r: Result<Parsed>)
    ensures
        exists|now: i64| seen(r) == said(input@, now),
{
    let now = unix_now();
    parse_at(input, now)
}

} // verus!
