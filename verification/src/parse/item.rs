//! One entry of the select list: a star, a column, or an aggregate with its `FILTER` and alias.

use vstd::prelude::*;
use crate::ast::{filter_unplaced, Item, ItemView, Proj, ProjView};
use crate::error::{Refused, Result, SqlErrorView};
use crate::lex::{part, slice, Tok, TokView};
use crate::parse::aggregate::{Leaf, LeafView};
use crate::parse::cond::read_cond;
use crate::parse::cursor::{expected, goes, moved, offset, placed, read_ident, refusal, refused, seen, tok_is, word_at, Env, Out, Parser};
use crate::parse::scalar::read_climb;
use crate::scalar::{Scalar, ScalarView};
use crate::text::{trimmed, views};

verus! {

/// Whether two mentions are of one column, or of one aggregate over the same records.
pub open spec fn alike(a: LeafView, b: LeafView) -> bool {
    a.proj == b.proj && filter_unplaced(a.filter) == filter_unplaced(b.filter)
}

/// Whether every mention is of one column or one aggregate.
pub open spec fn all_alike(leaves: Seq<LeafView>) -> bool {
    forall|k: int| 0 <= k < leaves.len() ==> alike(#[trigger] leaves[k], leaves[0])
}

/// Mentions of one column as one leaf: `price * price` reads `price` once. Two counts narrowed
/// by different conditions are two numbers, and stay two.
pub open spec fn collapsed(leaves: Seq<LeafView>) -> Seq<LeafView> {
    if leaves.len() > 0 && all_alike(leaves) {
        seq![leaves[0]]
    } else {
        leaves
    }
}

/// The text of the tokens from one position to another.
pub open spec fn written(e: Env, i: int, j: int) -> Seq<char> {
    trimmed(slice(e.src, offset(e, i) as int, offset(e, j) as int))
}

/// The entry an expression is, and the condition its leaf carries. An entry is about exactly
/// one column or aggregate, or is `now()` alone.
pub open spec fn entry_of(
    expr: ScalarView,
    leaves: Seq<LeafView>,
    text: Seq<char>,
    at: usize,
) -> core::result::Result<LeafView, SqlErrorView> {
    let one = collapsed(leaves);
    if one.len() == 1 {
        Ok(
            LeafView {
                proj: if expr == ScalarView::Value {
                    one[0].proj
                } else {
                    ProjView::Scalar { inner: Box::new(one[0].proj), expr, written: text }
                },
                filter: one[0].filter,
            },
        )
    } else if one.len() == 0 && expr is Now {
        Ok(
            LeafView {
                proj: ProjView::Now { unix_seconds: expr->Now_unix_seconds },
                filter: None,
            },
        )
    } else {
        Err(refusal(Refused::Expression, at))
    }
}

/// What an entry asks for.
pub open spec fn read_entry(e: Env, i: int, d: int) -> Out<LeafView> {
    if tok_is(e, i, TokView::Star) {
        Ok((LeafView { proj: ProjView::Star, filter: None }, i + 1))
    } else if word_at(e, i, "DISTINCT"@) {
        Err(refused(e, i, Refused::MultiDistinct))
    } else {
        match read_climb(e, i, d, 0, Seq::empty()) {
            Err(x) => Err(x),
            Ok(((expr, leaves), j)) => match entry_of(
                expr,
                leaves,
                written(e, i, j),
                offset(e, i),
            ) {
                Err(x) => Err(x),
                Ok(leaf) => Ok((leaf, j)),
            },
        }
    }
}

/// `FILTER (WHERE ...)`, which narrows one aggregate that an `-If` has not narrowed already.
pub open spec fn read_item_filter(e: Env, i: int, d: int, leaf: LeafView) -> Out<LeafView> {
    if word_at(e, i, "FILTER"@) {
        if leaf.proj is Star || leaf.proj is Column || leaf.filter is Some {
            Err(refused(e, i, Refused::Shape))
        } else if !tok_is(e, i + 1, TokView::LParen) {
            Err(expected(e, i + 1, "( after FILTER"@))
        } else if !word_at(e, i + 2, "WHERE"@) {
            Err(expected(e, i + 2, "WHERE inside FILTER"@))
        } else {
            match read_cond(e, i + 3, d) {
                Err(x) => Err(x),
                Ok((c, j)) => if tok_is(e, j, TokView::RParen) {
                    Ok((LeafView { proj: leaf.proj, filter: Some(c) }, j + 1))
                } else {
                    Err(expected(e, j, ") to close FILTER"@))
                },
            }
        }
    } else {
        Ok((leaf, i))
    }
}

/// `AS <name>`, when it is written.
pub open spec fn read_alias(e: Env, i: int) -> Out<Option<Seq<char>>> {
    if word_at(e, i, "AS"@) {
        match read_ident(e, i + 1, "a name after AS"@) {
            Err(x) => Err(x),
            Ok((a, j)) => Ok((Some(a), j)),
        }
    } else {
        Ok((None, i))
    }
}

/// One select-list entry, and its alias.
pub open spec fn read_item(e: Env, i: int, d: int) -> Out<ItemView> {
    match read_entry(e, i, d) {
        Err(x) => Err(x),
        Ok((leaf, j)) => if word_at(e, j, "OVER"@) {
            Err(refused(e, j, Refused::Window))
        } else {
            match read_item_filter(e, j, d, leaf) {
                Err(x) => Err(x),
                Ok((leaf2, k)) => match read_alias(e, k) {
                    Err(x) => Err(x),
                    Ok((alias, m)) => Ok(
                        (
                            ItemView {
                                proj: leaf2.proj,
                                filter: leaf2.filter,
                                alias,
                                at: offset(e, i),
                            },
                            m,
                        ),
                    ),
                },
            }
        },
    }
}

/// The select list, after the entries already read.
pub open spec fn read_items(e: Env, i: int, d: int, before: Seq<ItemView>) -> Out<Seq<ItemView>>
    decreases e.t.len() - i,
{
    match moved(e, i, read_item(e, i, d)) {
        Err(x) => Err(x),
        Ok((item, j)) => if tok_is(e, j, TokView::Comma) {
            read_items(e, j + 1, d, before.push(item))
        } else {
            Ok((before.push(item), j))
        },
    }
}

/// An entry is about one thing: every mention in it is of one column, or of one aggregate over the
/// same records. An entry without a mention is the current instant.
pub proof fn an_entry_is_about_one_thing(
    expr: ScalarView,
    leaves: Seq<LeafView>,
    text: Seq<char>,
    at: usize,
)
    ensures
        match entry_of(expr, leaves, text, at) {
            Ok(entry) => if leaves.len() == 0 {
                entry.proj is Now && entry.filter is None
            } else {
                &&& all_alike(leaves)
                &&& entry.filter == leaves[0].filter
                &&& entry.proj == leaves[0].proj || entry.proj == (ProjView::Scalar {
                    inner: Box::new(leaves[0].proj),
                    expr,
                    written: text,
                })
            },
            Err(x) => x == refusal(Refused::Expression, at) && !(leaves.len() > 0 && all_alike(
                leaves,
            )),
        },
{
    if leaves.len() == 1 {
        assert(leaves =~= seq![leaves[0]]);
    }
}

/// A later token begins later in the text.
pub proof fn lemma_offsets(e: Env, i: int, j: int)
    requires
        placed(e.t, e.src),
        0 <= i <= j,
        e.src.len() <= usize::MAX,
        vstd::utf8::valid_utf8(e.src),
    ensures
        offset(e, i) <= offset(e, j) <= e.src.len(),
        vstd::utf8::is_char_boundary(e.src, offset(e, i) as int),
        vstd::utf8::is_char_boundary(e.src, offset(e, j) as int),
{
    vstd::utf8::is_char_boundary_start_end_of_seq(e.src);
    if j < e.t.len() && i < j {
        assert(e.t[i].at < e.t[j].at);
    }
}

/// Whether two mentions are of one thing.
fn is_alike(a: &Leaf, b: &Leaf) -> (r: bool)
    ensures
        r == alike(a@, b@),
{
    a.proj.same(&b.proj) && match (&a.filter, &b.filter) {
        (Some(x), Some(y)) => x.alike(y),
        (None, None) => true,
        _ => false,
    }
}

/// Mentions of one column as one leaf.
fn collapse(leaves: Vec<Leaf>) -> (r: Vec<Leaf>)
    ensures
        views(r@) == collapsed(views(leaves@)),
{
    let mut rest = leaves;
    let ghost all = views(rest@);
    if rest.len() == 0 {
        return rest;
    }
    let mut k: usize = 0;
    while k < rest.len()
        invariant
            k <= rest@.len(),
            0 < rest@.len(),
            all == views(rest@),
            all == views(leaves@),
            forall|j: int| 0 <= j < k ==> alike(#[trigger] all[j], all[0]),
        decreases rest.len() - k,
    {
        if !is_alike(&rest[k], &rest[0]) {
            assert(!alike(all[k as int], all[0]));
            return rest;
        }
        k += 1;
    }
    rest.truncate(1);
    assert(views(rest@) =~= collapsed(all));
    rest
}

impl<'a> Parser<'a> {
    /// The text of the tokens from a byte on to here.
    pub(crate) fn written_since(&self, Ghost(from): Ghost<int>, at: usize) -> (r: String)
        requires
            self.wf(),
            0 <= from <= self.i,
            at == offset(self.env(), from),
        ensures
            r@ == written(self.env(), from, self.i as int),
    {
        let end = self.at();
        proof {
            vstd::utf8::encode_utf8_valid_utf8(self.src@);
            lemma_offsets(self.env(), from, self.i as int);
        }
        str::to_owned(part(self.src, at, end).trim())
    }

    /// What an entry asks for, and the condition it already carries.
    fn entry(&mut self) -> (r: Result<Leaf>)
        requires
            old(self).wf(),
        ensures
            goes(
                *old(self),
                *final(self),
                seen(r),
                read_entry(old(self).env(), old(self).i as int, old(self).depth as int),
            ),
            r is Ok ==> final(self).i > old(self).i,
    {
        let at = self.at();
        if self.eat(&Tok::Star) {
            return Ok(Leaf { proj: Proj::Star, filter: None });
        }
        if self.word_is("DISTINCT") {
            return Err(self.refuse(Refused::MultiDistinct));
        }
        let mut leaves: Vec<Leaf> = Vec::new();
        assert(views(leaves@) =~= Seq::<LeafView>::empty());
        let expr = self.expr(&mut leaves)?;
        let text = self.written_since(Ghost(old(self).i as int), at);
        let mut one = collapse(leaves);
        if one.len() == 1 {
            let ghost was = views(one@);
            let leaf = one.remove(0);
            assert(was[0] == leaf@);
            if expr.is_identity() {
                Ok(leaf)
            } else {
                Ok(
                    Leaf {
                        proj: Proj::Scalar { inner: Box::new(leaf.proj), expr, written: text },
                        filter: leaf.filter,
                    },
                )
            }
        } else if one.len() == 0 {
            match expr {
                Scalar::Now { unix_seconds } => Ok(
                    Leaf { proj: Proj::Now { unix_seconds }, filter: None },
                ),
                _ => Err(self.refuse_at(Refused::Expression, at)),
            }
        } else {
            Err(self.refuse_at(Refused::Expression, at))
        }
    }

    /// One select-list entry, and its alias.
    pub(crate) fn item(&mut self) -> (r: Result<Item>)
        requires
            old(self).wf(),
        ensures
            goes(
                *old(self),
                *final(self),
                seen(r),
                read_item(old(self).env(), old(self).i as int, old(self).depth as int),
            ),
            r is Ok ==> final(self).i > old(self).i,
    {
        let at = self.at();
        let leaf = self.entry()?;
        if self.word_is("OVER") {
            return Err(self.refuse(Refused::Window));
        }
        let proj = leaf.proj;
        let mut filter = leaf.filter;
        if self.word_is("FILTER") {
            let nothing = match &proj {
                Proj::Star => true,
                Proj::Column(_) => true,
                _ => false,
            };
            if nothing || filter.is_some() {
                return Err(self.refuse(Refused::Shape));
            }
            self.skip(1);
            self.expect(&Tok::LParen, "( after FILTER")?;
            self.expect_word("WHERE", "WHERE inside FILTER")?;
            let cond = self.cond()?;
            self.expect(&Tok::RParen, ") to close FILTER")?;
            filter = Some(cond);
        }
        let alias = if self.eat_word("AS") {
            Some(self.bare_ident("a name after AS")?)
        } else {
            None
        };
        Ok(Item { proj, filter, alias, at })
    }

    /// The select list.
    pub(crate) fn items(&mut self) -> (r: Result<Vec<Item>>)
        requires
            old(self).wf(),
        ensures
            goes(
                *old(self),
                *final(self),
                match r {
                    Ok(v) => Ok(views(v@)),
                    Err(e) => Err(e@),
                },
                read_items(
                    old(self).env(),
                    old(self).i as int,
                    old(self).depth as int,
                    Seq::empty(),
                ),
            ),
            r matches Ok(v) ==> v@.len() > 0 && final(self).i > old(self).i,
    {
        let mut out: Vec<Item> = Vec::new();
        assert(views(out@) =~= Seq::<ItemView>::empty());
        loop
            invariant
                self.wf(),
                self.env() == old(self).env(),
                self.t == old(self).t,
                self.depth == old(self).depth,
                self.i >= old(self).i,
                read_items(
                    old(self).env(),
                    old(self).i as int,
                    old(self).depth as int,
                    Seq::empty(),
                ) == read_items(self.env(), self.i as int, self.depth as int, views(out@)),
            decreases self.t@.len() - self.i,
        {
            let ghost before = views(out@);
            let item = self.item()?;
            out.push(item);
            assert(views(out@) =~= before.push(item@));
            if !self.eat(&Tok::Comma) {
                return Ok(out);
            }
        }
    }
}

} // verus!
