//! `HAVING` and `ORDER BY`: the clauses that name an answer's own numbers.

use vstd::prelude::*;
use crate::ast::{Having, HavingAgg, HavingAggView, HavingOperand, HavingOperandView, HavingView, Order, OrderKey, OrderKeyView, OrderView, Proj, ProjView};
use crate::error::{Refused, Result};
use crate::lex::{Tok, TokView};
use crate::parse::aggregate::{read_aggregate, Leaf, LeafView};
use crate::parse::cond::too_deep;
use crate::parse::cursor::{expected, goes, moved, offset, past_word, peek_at, read_ident, read_literal, read_name, refusal, refused, seen, tok_is, word_at, Env, Out, Parser, MAX_DEPTH};

verus! {

/// The number of a group an aggregate is, when it is one a clause over groups can name.
pub open spec fn group_number(leaf: LeafView) -> Option<HavingAggView> {
    if leaf.filter is Some {
        None
    } else {
        match leaf.proj {
            ProjView::Count => Some(HavingAggView::Count),
            ProjView::Agg { func, field } => Some(HavingAggView::Agg { func, field }),
            ProjView::Avg(field) => Some(HavingAggView::Avg(field)),
            _ => None,
        }
    }
}

/// The number of a group an aggregate is, when it is one a clause over groups can name.
fn number_of(leaf: Leaf) -> (r: Option<HavingAgg>)
    ensures
        match r {
            Some(a) => group_number(leaf@) == Some(a@),
            None => group_number(leaf@) is None,
        },
{
    if leaf.filter.is_some() {
        return None;
    }
    match leaf.proj {
        Proj::Count => Some(HavingAgg::Count),
        Proj::Agg { func, field } => Some(HavingAgg::Agg { func, field }),
        Proj::Avg(field) => Some(HavingAgg::Avg(field)),
        _ => None,
    }
}

/// One side of a comparison: an aggregate, or a value. `at` is where the comparison begins.
pub open spec fn read_operand(e: Env, i: int, d: int, at: usize) -> Out<HavingOperandView> {
    if !(peek_at(e, i) is Some && (peek_at(e, i)->0 is Word || peek_at(e, i)->0 is Quoted)) {
        match read_literal(e, i, "a value to compare the aggregate against"@) {
            Err(x) => Err(x),
            Ok((v, j)) => Ok((HavingOperandView::Value(v), j)),
        }
    } else {
        match read_ident(e, i, "an aggregate"@) {
            Err(x) => Err(refusal(Refused::Having, at)),
            Ok((name, j)) => match read_aggregate(e, j, d, name) {
                Err(x) => Err(x),
                Ok((None, _)) => Err(refusal(Refused::Having, at)),
                Ok((Some(leaf), k)) => match group_number(leaf) {
                    Some(a) => Ok((HavingOperandView::Agg(a), k)),
                    None => Err(refusal(Refused::Having, at)),
                },
            },
        }
    }
}

/// One comparison over groups.
pub open spec fn read_compared(e: Env, i: int, d: int) -> Out<HavingView> {
    match moved(e, i, read_operand(e, i, d, offset(e, i))) {
        Err(x) => Err(x),
        Ok((left, j)) => match peek_at(e, j) {
            Some(TokView::Op(op)) => match read_operand(e, j + 1, d, offset(e, j + 1)) {
                Err(x) => Err(x),
                Ok((right, k)) => Ok((HavingView::Cmp { left, op, right, at: offset(e, i) }, k)),
            },
            _ => Err(expected(e, j, "a comparison after the aggregate"@)),
        },
    }
}

/// A `HAVING`: terms joined by `OR`, each of them terms joined by `AND`.
pub open spec fn read_having(e: Env, i: int, d: int) -> Out<HavingView>
    decreases e.t.len() - i, 6int,
{
    if d >= MAX_DEPTH {
        Err(too_deep(e, i))
    } else {
        match moved(e, i, having_terms(e, i, d + 1)) {
            Err(x) => Err(x),
            Ok((left, j)) => more_having(e, j, d + 1, left),
        }
    }
}

/// The terms after the first `OR`.
pub open spec fn more_having(e: Env, i: int, d: int, left: HavingView) -> Out<HavingView>
    decreases e.t.len() - i, 6int,
{
    if word_at(e, i, "OR"@) {
        match moved(e, i + 1, having_terms(e, i + 1, d)) {
            Err(x) => Err(x),
            Ok((right, j)) => more_having(
                e,
                j,
                d,
                HavingView::Or(Box::new(left), Box::new(right)),
            ),
        }
    } else {
        Ok((left, i))
    }
}

/// Terms joined by `AND`.
pub open spec fn having_terms(e: Env, i: int, d: int) -> Out<HavingView>
    decreases e.t.len() - i, 5int,
{
    if d >= MAX_DEPTH {
        Err(too_deep(e, i))
    } else {
        match moved(e, i, having_term(e, i, d + 1)) {
            Err(x) => Err(x),
            Ok((left, j)) => more_terms(e, j, d + 1, left),
        }
    }
}

/// The terms after the first `AND`.
pub open spec fn more_terms(e: Env, i: int, d: int, left: HavingView) -> Out<HavingView>
    decreases e.t.len() - i, 5int,
{
    if word_at(e, i, "AND"@) {
        match moved(e, i + 1, having_term(e, i + 1, d)) {
            Err(x) => Err(x),
            Ok((right, j)) => more_terms(
                e,
                j,
                d,
                HavingView::And(Box::new(left), Box::new(right)),
            ),
        }
    } else {
        Ok((left, i))
    }
}

/// A term: negated, in brackets, or a comparison.
pub open spec fn having_term(e: Env, i: int, d: int) -> Out<HavingView>
    decreases e.t.len() - i, 4int,
{
    if d >= MAX_DEPTH {
        Err(too_deep(e, i))
    } else if word_at(e, i, "NOT"@) {
        match having_term(e, i + 1, d + 1) {
            Err(x) => Err(x),
            Ok((inner, j)) => Ok((HavingView::Not(Box::new(inner)), j)),
        }
    } else if tok_is(e, i, TokView::LParen) {
        if word_at(e, i + 1, "SELECT"@) {
            Err(refused(e, i, Refused::Subquery))
        } else {
            match read_having(e, i + 1, d + 1) {
                Err(x) => Err(x),
                Ok((inner, j)) => if tok_is(e, j, TokView::RParen) {
                    Ok((inner, j + 1))
                } else {
                    Err(expected(e, j, ") to close the HAVING"@))
                },
            }
        }
    } else {
        read_compared(e, i, d + 1)
    }
}

/// What an `ORDER BY` names: a column, an alias, or an aggregate written out.
pub open spec fn read_order_key(e: Env, i: int, d: int) -> Out<OrderKeyView> {
    match read_name(e, i, "a column, an alias, or an aggregate"@) {
        Err(x) => Err(x),
        Ok((name, j)) => match (if name.qualifier is Some {
            Ok((None, j))
        } else {
            read_aggregate(e, j, d, name.column)
        }) {
            Err(x) => Err(x),
            Ok((Some(leaf), k)) => match group_number(leaf) {
                Some(HavingAggView::Count) => Ok((OrderKeyView::Count, k)),
                Some(HavingAggView::Agg { func, field }) => Ok(
                    (OrderKeyView::Agg { func, field }, k),
                ),
                Some(HavingAggView::Avg(field)) => Ok((OrderKeyView::Avg(field), k)),
                None => Err(refused(e, i, Refused::Order)),
            },
            Ok((None, k)) => if tok_is(e, j, TokView::LParen) {
                Err(refused(e, j, Refused::Expression))
            } else {
                Ok((OrderKeyView::Name(name), j))
            },
        },
    }
}

/// `<key> [ASC|DESC]`, after `ORDER BY`.
pub open spec fn read_order(e: Env, i: int, d: int) -> Out<OrderView> {
    match read_order_key(e, i, d) {
        Err(x) => Err(x),
        Ok((key, j)) => {
            let desc = word_at(e, j, "DESC"@);
            let k = if desc {
                j + 1
            } else {
                past_word(e, j, "ASC"@)
            };
            if tok_is(e, k, TokView::Comma) {
                Err(refused(e, i, Refused::Order))
            } else {
                Ok((OrderView { key, desc, at: offset(e, i) }, k))
            }
        },
    }
}

impl<'a> Parser<'a> {
    /// A `HAVING` clause.
    pub(crate) fn having(&mut self) -> (r: Result<Having>)
        requires
            old(self).wf(),
        ensures
            goes(
                *old(self),
                *final(self),
                seen(r),
                read_having(old(self).env(), old(self).i as int, old(self).depth as int),
            ),
            r is Ok ==> final(self).i > old(self).i,
        decreases old(self).t@.len() - old(self).i, 6int,
    {
        self.enter()?;
        let mut left = self.having_conj()?;
        while self.eat_word("OR")
            invariant
                self.wf(),
                self.env() == old(self).env(),
                self.t == old(self).t,
                self.depth == old(self).depth + 1,
                self.i > old(self).i,
                read_having(old(self).env(), old(self).i as int, old(self).depth as int)
                    == more_having(self.env(), self.i as int, self.depth as int, left@),
            decreases self.t@.len() - self.i,
        {
            let right = self.having_conj()?;
            left = Having::Or(Box::new(left), Box::new(right));
        }
        self.leave();
        Ok(left)
    }

    fn having_conj(&mut self) -> (r: Result<Having>)
        requires
            old(self).wf(),
        ensures
            goes(
                *old(self),
                *final(self),
                seen(r),
                having_terms(old(self).env(), old(self).i as int, old(self).depth as int),
            ),
            r is Ok ==> final(self).i > old(self).i,
        decreases old(self).t@.len() - old(self).i, 5int,
    {
        self.enter()?;
        let mut left = self.having_neg()?;
        while self.eat_word("AND")
            invariant
                self.wf(),
                self.env() == old(self).env(),
                self.t == old(self).t,
                self.depth == old(self).depth + 1,
                self.i > old(self).i,
                having_terms(old(self).env(), old(self).i as int, old(self).depth as int)
                    == more_terms(self.env(), self.i as int, self.depth as int, left@),
            decreases self.t@.len() - self.i,
        {
            let right = self.having_neg()?;
            left = Having::And(Box::new(left), Box::new(right));
        }
        self.leave();
        Ok(left)
    }

    fn having_neg(&mut self) -> (r: Result<Having>)
        requires
            old(self).wf(),
        ensures
            goes(
                *old(self),
                *final(self),
                seen(r),
                having_term(old(self).env(), old(self).i as int, old(self).depth as int),
            ),
            r is Ok ==> final(self).i > old(self).i,
        decreases old(self).t@.len() - old(self).i, 4int,
    {
        self.enter()?;
        let out = if self.eat_word("NOT") {
            Having::Not(Box::new(self.having_neg()?))
        } else if self.is_tok(&Tok::LParen) {
            if self.word_at_is(1, "SELECT") {
                return Err(self.refuse(Refused::Subquery));
            }
            self.skip(1);
            let inner = self.having()?;
            self.expect(&Tok::RParen, ") to close the HAVING")?;
            inner
        } else {
            self.having_compared()?
        };
        self.leave();
        Ok(out)
    }

    /// One comparison. Its left side and its right side are read alike.
    fn having_compared(&mut self) -> (r: Result<Having>)
        requires
            old(self).wf(),
        ensures
            goes(
                *old(self),
                *final(self),
                seen(r),
                read_compared(old(self).env(), old(self).i as int, old(self).depth as int),
            ),
            r is Ok ==> final(self).i > old(self).i,
    {
        let at = self.at();
        let left = self.having_operand(at)?;
        let op = match self.op() {
            Some(op) => op,
            None => {
                return Err(self.syntax("a comparison after the aggregate"));
            },
        };
        self.skip(1);
        let right_at = self.at();
        let right = self.having_operand(right_at)?;
        Ok(Having::Cmp { left, op, right, at })
    }

    fn having_operand(&mut self, at: usize) -> (r: Result<HavingOperand>)
        requires
            old(self).wf(),
        ensures
            goes(
                *old(self),
                *final(self),
                seen(r),
                read_operand(old(self).env(), old(self).i as int, old(self).depth as int, at),
            ),
            r is Ok ==> final(self).i > old(self).i,
    {
        let named = match self.peek() {
            Some(Tok::Word(_)) => true,
            Some(Tok::Quoted(_)) => true,
            _ => false,
        };
        if !named {
            let v = self.literal("a value to compare the aggregate against")?;
            return Ok(HavingOperand::Value(v));
        }
        let name = match self.bare_ident("an aggregate") {
            Ok(name) => name,
            Err(_) => {
                return Err(self.refuse_at(Refused::Having, at));
            },
        };
        match self.aggregate(name.as_str())? {
            None => Err(self.refuse_at(Refused::Having, at)),
            Some(leaf) => match number_of(leaf) {
                Some(a) => Ok(HavingOperand::Agg(a)),
                None => Err(self.refuse_at(Refused::Having, at)),
            },
        }
    }

    fn order_key(&mut self) -> (r: Result<OrderKey>)
        requires
            old(self).wf(),
        ensures
            goes(
                *old(self),
                *final(self),
                seen(r),
                read_order_key(old(self).env(), old(self).i as int, old(self).depth as int),
            ),
            r is Ok ==> final(self).i > old(self).i,
    {
        let at = self.at();
        let name = self.name("a column, an alias, or an aggregate")?;
        let leaf = if name.qualifier.is_some() {
            None
        } else {
            self.aggregate(name.column.as_str())?
        };
        match leaf {
            Some(leaf) => match number_of(leaf) {
                Some(HavingAgg::Count) => Ok(OrderKey::Count),
                Some(HavingAgg::Agg { func, field }) => Ok(OrderKey::Agg { func, field }),
                Some(HavingAgg::Avg(field)) => Ok(OrderKey::Avg(field)),
                None => Err(self.refuse_at(Refused::Order, at)),
            },
            None => {
                if self.is_tok(&Tok::LParen) {
                    return Err(self.refuse(Refused::Expression));
                }
                Ok(OrderKey::Name(name))
            },
        }
    }

    /// `<key> [ASC|DESC]`, after `ORDER BY`.
    pub(crate) fn order(&mut self) -> (r: Result<Order>)
        requires
            old(self).wf(),
        ensures
            goes(
                *old(self),
                *final(self),
                seen(r),
                read_order(old(self).env(), old(self).i as int, old(self).depth as int),
            ),
            r is Ok ==> final(self).i > old(self).i,
    {
        let at = self.at();
        let key = self.order_key()?;
        let desc = if self.eat_word("DESC") {
            true
        } else {
            self.eat_word("ASC");
            false
        };
        if self.is_tok(&Tok::Comma) {
            return Err(self.refuse_at(Refused::Order, at));
        }
        Ok(Order { key, desc, at })
    }
}

} // verus!
