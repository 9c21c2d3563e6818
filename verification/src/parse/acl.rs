//! `GRANT`, `REVOKE`, and the two role statements.

use vstd::prelude::*;
use crate::acl::{Acl, AclObject, AclObjectView, AclView};
use crate::error::{Refused, Result};
use crate::lex::{Tok, TokView};
use crate::parse::cursor::{ended, expected, goes, moved, past_word, peek_at, read_ident, refused, seen, seen_plain, tok_is, word_at, Env, Out, Parser};
use crate::rbac::{grantable_mask, mask_of, Privilege, Privileges, SUPERUSER};
use crate::text::same_word;

verus! {

/// One privilege of a list.
pub open spec fn read_privilege(e: Env, i: int) -> Out<Privilege> {
    match peek_at(e, i) {
        Some(TokView::Word(w)) => if tok_is(e, i + 1, TokView::LParen) {
            Err(refused(e, i + 1, Refused::AclColumns))
        } else {
            match Privilege::named(w) {
                Some(p) => Ok((p, i + 1)),
                None => if word_at(e, i + 1, "TO"@) || word_at(e, i + 1, "FROM"@) {
                    Err(refused(e, i + 1, Refused::RoleGrant))
                } else {
                    Err(refused(e, i + 1, Refused::AclPrivilege))
                },
            }
        },
        _ => Err(expected(e, i, "a privilege"@)),
    }
}

/// `SELECT, INSERT, ...`, after those already read.
pub open spec fn read_privileges(e: Env, i: int, before: Seq<Privilege>) -> Out<Seq<Privilege>>
    decreases e.t.len() - i,
{
    match moved(e, i, read_privilege(e, i)) {
        Err(x) => Err(x),
        Ok((p, j)) => if tok_is(e, j, TokView::Comma) {
            read_privileges(e, j + 1, before.push(p))
        } else {
            Ok((before.push(p), j))
        },
    }
}

/// `*.*`, `<database>.*`, `*`, `<database>.<table>`, or `<table>`.
pub open spec fn read_object(e: Env, i: int) -> Out<AclObjectView> {
    if tok_is(e, i, TokView::Star) {
        if !tok_is(e, i + 1, TokView::Dot) {
            Ok((AclObjectView::Database(None), i + 1))
        } else if tok_is(e, i + 2, TokView::Star) {
            Ok((AclObjectView::Server, i + 3))
        } else {
            Err(refused(e, i + 2, Refused::AclObject))
        }
    } else {
        match read_ident(e, i, "an object to grant on"@) {
            Err(x) => Err(x),
            Ok((first, j)) => if !tok_is(e, j, TokView::Dot) {
                Ok((AclObjectView::Table { database: None, table: first }, j))
            } else if tok_is(e, j + 1, TokView::Star) {
                Ok((AclObjectView::Database(Some(first)), j + 2))
            } else {
                match read_ident(e, j + 1, "a table name"@) {
                    Err(x) => Err(x),
                    Ok((table, k)) => Ok(
                        (AclObjectView::Table { database: Some(first), table }, k),
                    ),
                }
            },
        }
    }
}

/// `ALL [PRIVILEGES]`, or a list. `None` is everything.
pub open spec fn read_what(e: Env, i: int) -> Out<Option<Seq<Privilege>>> {
    if word_at(e, i, "ALL"@) {
        Ok((None, past_word(e, i + 1, "PRIVILEGES"@)))
    } else {
        match read_privileges(e, i, Seq::empty()) {
            Err(x) => Err(x),
            Ok((list, j)) => Ok((Some(list), j)),
        }
    }
}

/// The half `GRANT` and `REVOKE` share: privileges, `ON`, and an object each of them can be
/// granted on.
pub open spec fn read_privileges_on(e: Env, i: int) -> Out<(Privileges, AclObjectView)> {
    match read_what(e, i) {
        Err(x) => Err(x),
        Ok((what, j)) => if !word_at(e, j, "ON"@) {
            Err(expected(e, j, "ON after the privileges"@))
        } else {
            match read_object(e, j + 1) {
                Err(x) => Err(x),
                Ok((on, k)) => match what {
                    None => Ok(((Privileges(grantable_mask(on.resolved(), 8)), on), k)),
                    Some(list) => if forall|n: int|
                        0 <= n < list.len() ==> (#[trigger] list[n]).on_object(on.resolved()) {
                        Ok(((Privileges(mask_of(list)), on), k))
                    } else {
                        Err(refused(e, k, Refused::AclObject))
                    },
                },
            }
        },
    }
}

/// The role a grant names.
pub open spec fn read_grantee(e: Env, i: int) -> Out<Seq<char>> {
    if word_at(e, i, "PUBLIC"@) || word_at(e, i, "ALL"@) {
        Err(refused(e, i, Refused::AclPublic))
    } else {
        match read_ident(e, i, "a role name"@) {
            Err(x) => Err(x),
            Ok((role, j)) => if word_at(e, j, "WITH"@) {
                Err(refused(e, j, Refused::GrantOption))
            } else {
                Ok((role, j))
            },
        }
    }
}

/// The word between the object and the role, the role, and the end of the statement.
pub open spec fn read_role_end(e: Env, i: int, kw: Seq<char>, want: Seq<char>) -> Out<Seq<char>> {
    if !word_at(e, i, kw) {
        Err(expected(e, i, want))
    } else {
        match read_grantee(e, i + 1) {
            Err(x) => Err(x),
            Ok((role, j)) => ended(e, j, role),
        }
    }
}

/// `<privileges> ON <object> TO <role>`, after `GRANT`.
pub open spec fn read_grant(e: Env, i: int) -> Out<AclView> {
    match read_privileges_on(e, i) {
        Err(x) => Err(x),
        Ok(((privileges, on), j)) => match read_role_end(e, j, "TO"@, "TO after the object"@) {
            Err(x) => Err(x),
            Ok((role, k)) => Ok((AclView::Grant { privileges, on, role }, k)),
        },
    }
}

/// `<privileges> ON <object> FROM <role>`, after `REVOKE`.
pub open spec fn read_revoke(e: Env, i: int) -> Out<AclView> {
    match read_privileges_on(e, i) {
        Err(x) => Err(x),
        Ok(((privileges, on), j)) => match read_role_end(e, j, "FROM"@, "FROM after the object"@) {
            Err(x) => Err(x),
            Ok((role, k)) => Ok((AclView::Revoke { privileges, on, role }, k)),
        },
    }
}

/// `IF EXISTS`, or `IF NOT EXISTS`.
pub open spec fn read_if_exists(e: Env, i: int, not: bool) -> Out<bool> {
    if !word_at(e, i, "IF"@) {
        Ok((false, i))
    } else if not && !word_at(e, i + 1, "NOT"@) {
        Err(expected(e, i + 1, "NOT EXISTS after IF"@))
    } else {
        let j = if not {
            i + 2
        } else {
            i + 1
        };
        if word_at(e, j, "EXISTS"@) {
            Ok((true, j + 1))
        } else {
            Err(expected(e, j, "EXISTS"@))
        }
    }
}

/// A role name, and the end of the statement. The reserved role is refused.
pub open spec fn read_role_name(e: Env, i: int) -> Out<Seq<char>> {
    match read_ident(e, i, "a role name"@) {
        Err(x) => Err(x),
        Ok((name, j)) => if same_word(name, SUPERUSER@) {
            Err(refused(e, j, Refused::ReservedRole))
        } else {
            ended(e, j, name)
        },
    }
}

/// `[IF NOT EXISTS] <name>`, after `CREATE ROLE`.
pub open spec fn read_create_role(e: Env, i: int) -> Out<AclView> {
    match read_if_exists(e, i, true) {
        Err(x) => Err(x),
        Ok((if_not_exists, j)) => match read_role_name(e, j) {
            Err(x) => Err(x),
            Ok((name, k)) => Ok((AclView::CreateRole { name, if_not_exists }, k)),
        },
    }
}

/// `[IF EXISTS] <name>`, after `DROP ROLE`.
pub open spec fn read_drop_role(e: Env, i: int) -> Out<AclView> {
    match read_if_exists(e, i, false) {
        Err(x) => Err(x),
        Ok((if_exists, j)) => match read_role_name(e, j) {
            Err(x) => Err(x),
            Ok((name, k)) => Ok((AclView::DropRole { name, if_exists }, k)),
        },
    }
}

impl<'a> Parser<'a> {
    /// One privilege of a list.
    fn privilege(&mut self) -> (r: Result<Privilege>)
        requires
            old(self).wf(),
        ensures
            goes(
                *old(self),
                *final(self),
                seen_plain(r),
                read_privilege(old(self).env(), old(self).i as int),
            ),
            r is Ok ==> final(self).i > old(self).i,
    {
        let p = match self.word() {
            None => {
                return Err(self.syntax("a privilege"));
            },
            Some(w) => Privilege::parse(w),
        };
        self.skip(1);
        if self.is_tok(&Tok::LParen) {
            return Err(self.refuse(Refused::AclColumns));
        }
        match p {
            Some(p) => Ok(p),
            None => {
                if self.word_is("TO") || self.word_is("FROM") {
                    Err(self.refuse(Refused::RoleGrant))
                } else {
                    Err(self.refuse(Refused::AclPrivilege))
                }
            },
        }
    }

    /// `SELECT, INSERT, ...`, at least one.
    fn privilege_list(&mut self) -> (r: Result<Vec<Privilege>>)
        requires
            old(self).wf(),
        ensures
            goes(
                *old(self),
                *final(self),
                seen(r),
                read_privileges(old(self).env(), old(self).i as int, Seq::empty()),
            ),
    {
        let mut out: Vec<Privilege> = Vec::new();
        loop
            invariant
                self.wf(),
                self.env() == old(self).env(),
                self.t == old(self).t,
                self.depth == old(self).depth,
                self.i >= old(self).i,
                read_privileges(old(self).env(), old(self).i as int, Seq::empty()) == read_privileges(self.env(), self.i as int, out@),
            decreases self.t@.len() - self.i,
        {
            let p = self.privilege()?;
            out.push(p);
            if !self.eat(&Tok::Comma) {
                return Ok(out);
            }
        }
    }

    /// `*.*`, `<database>.*`, `*`, `<database>.<table>`, or `<table>`.
    fn acl_object(&mut self) -> (r: Result<AclObject>)
        requires
            old(self).wf(),
        ensures
            goes(
                *old(self),
                *final(self),
                seen(r),
                read_object(old(self).env(), old(self).i as int),
            ),
    {
        if self.eat(&Tok::Star) {
            if !self.eat(&Tok::Dot) {
                return Ok(AclObject::Database(None));
            }
            if self.eat(&Tok::Star) {
                return Ok(AclObject::Server);
            }
            return Err(self.refuse(Refused::AclObject));
        }
        let first = self.bare_ident("an object to grant on")?;
        if !self.eat(&Tok::Dot) {
            return Ok(AclObject::Table { database: None, table: first });
        }
        if self.eat(&Tok::Star) {
            return Ok(AclObject::Database(Some(first)));
        }
        let table = self.bare_ident("a table name")?;
        Ok(AclObject::Table { database: Some(first), table })
    }

    /// Privileges, `ON`, and an object each of them can be granted on.
    fn privileges_on(&mut self) -> (r: Result<(Privileges, AclObject)>)
        requires
            old(self).wf(),
        ensures
            goes(
                *old(self),
                *final(self),
                match r {
                    Ok(p) => Ok((p.0, p.1@)),
                    Err(e) => Err(e@),
                },
                read_privileges_on(old(self).env(), old(self).i as int),
            ),
    {
        if self.eat_word("ALL") {
            self.eat_word("PRIVILEGES");
            self.expect_word("ON", "ON after the privileges")?;
            let on = self.acl_object()?;
            return Ok((Privileges::all_on(&on.resolved()), on));
        }
        let named = self.privilege_list()?;
        self.expect_word("ON", "ON after the privileges")?;
        let on = self.acl_object()?;
        let object = on.resolved();
        let mut k: usize = 0;
        while k < named.len()
            invariant
                k <= named@.len(),
                object@ == on@.resolved(),
                forall|n: int| 0 <= n < k ==> (#[trigger] named@[n]).on_object(on@.resolved()),
                self.wf(),
                self.env() == old(self).env(),
                self.t == old(self).t,
                self.depth == old(self).depth,
                self.i >= old(self).i,
                read_privileges_on(old(self).env(), old(self).i as int) == (if forall|n: int|
                    0 <= n < named@.len() ==> (#[trigger] named@[n]).on_object(on@.resolved()) {
                    Ok::<_, crate::error::SqlErrorView>(
                        ((Privileges(mask_of(named@)), on@), self.i as int),
                    )
                } else {
                    Err(refused(self.env(), self.i as int, Refused::AclObject))
                }),
            decreases named.len() - k,
        {
            let p: Privilege = named[k];
            if !p.grantable_on(&object) {
                assert(!named@[k as int].on_object(on@.resolved()));
                return Err(self.refuse(Refused::AclObject));
            }
            k += 1;
        }
        Ok((Privileges::from_iter(named.as_slice()), on))
    }

    /// The role a grant names.
    fn grantee(&mut self) -> (r: Result<String>)
        requires
            old(self).wf(),
        ensures
            goes(
                *old(self),
                *final(self),
                seen(r),
                read_grantee(old(self).env(), old(self).i as int),
            ),
    {
        if self.word_is("PUBLIC") || self.word_is("ALL") {
            return Err(self.refuse(Refused::AclPublic));
        }
        let role = self.bare_ident("a role name")?;
        if self.word_is("WITH") {
            return Err(self.refuse(Refused::GrantOption));
        }
        Ok(role)
    }

    /// `GRANT <privileges> ON <object> TO <role>`, with `GRANT` consumed.
    pub(crate) fn grant(&mut self) -> (r: Result<Acl>)
        requires
            old(self).wf(),
        ensures
            goes(
                *old(self),
                *final(self),
                seen(r),
                read_grant(old(self).env(), old(self).i as int),
            ),
    {
        let (privileges, on) = self.privileges_on()?;
        self.expect_word("TO", "TO after the object")?;
        let role = self.grantee()?;
        self.end_of_statement()?;
        Ok(Acl::Grant { privileges, on, role })
    }

    /// `REVOKE <privileges> ON <object> FROM <role>`, with `REVOKE` consumed.
    pub(crate) fn revoke(&mut self) -> (r: Result<Acl>)
        requires
            old(self).wf(),
        ensures
            goes(
                *old(self),
                *final(self),
                seen(r),
                read_revoke(old(self).env(), old(self).i as int),
            ),
    {
        let (privileges, on) = self.privileges_on()?;
        self.expect_word("FROM", "FROM after the object")?;
        let role = self.grantee()?;
        self.end_of_statement()?;
        Ok(Acl::Revoke { privileges, on, role })
    }

    /// `IF EXISTS`, or `IF NOT EXISTS`.
    pub(crate) fn if_exists(&mut self, not: bool) -> (r: Result<bool>)
        requires
            old(self).wf(),
        ensures
            goes(
                *old(self),
                *final(self),
                seen_plain(r),
                read_if_exists(old(self).env(), old(self).i as int, not),
            ),
    {
        if !self.eat_word("IF") {
            return Ok(false);
        }
        if not {
            self.expect_word("NOT", "NOT EXISTS after IF")?;
        }
        self.expect_word("EXISTS", "EXISTS")?;
        Ok(true)
    }

    /// A role name, and the end of the statement.
    fn role_name(&mut self) -> (r: Result<String>)
        requires
            old(self).wf(),
        ensures
            goes(
                *old(self),
                *final(self),
                seen(r),
                read_role_name(old(self).env(), old(self).i as int),
            ),
    {
        let name = self.bare_ident("a role name")?;
        if name.as_str().eq_ignore_ascii_case(SUPERUSER) {
            return Err(self.refuse(Refused::ReservedRole));
        }
        self.end_of_statement()?;
        Ok(name)
    }

    /// `CREATE ROLE [IF NOT EXISTS] <name>`, after `ROLE`.
    pub(crate) fn create_role(&mut self) -> (r: Result<Acl>)
        requires
            old(self).wf(),
        ensures
            goes(
                *old(self),
                *final(self),
                seen(r),
                read_create_role(old(self).env(), old(self).i as int),
            ),
    {
        let if_not_exists = self.if_exists(true)?;
        let name = self.role_name()?;
        Ok(Acl::CreateRole { name, if_not_exists })
    }

    /// `DROP ROLE [IF EXISTS] <name>`, after `ROLE`.
    pub(crate) fn drop_role(&mut self) -> (r: Result<Acl>)
        requires
            old(self).wf(),
        ensures
            goes(
                *old(self),
                *final(self),
                seen(r),
                read_drop_role(old(self).env(), old(self).i as int),
            ),
    {
        let if_exists = self.if_exists(false)?;
        let name = self.role_name()?;
        Ok(Acl::DropRole { name, if_exists })
    }
}

} // verus!
