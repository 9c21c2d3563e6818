//! The calls a statement makes, and the statement they make up.

use vstd::prelude::*;
use crate::error::{Refused, Result, SqlError, SqlErrorView};
use crate::pql::{Call, CallView};
use crate::shape::{Answer, AnswerView};
use crate::text::{copy_all, same, views};

verus! {

/// How many plans one statement may ask for. Each is sent out and merged on its own, so this is
/// what a statement may cost in round trips.
pub const MAX_CALLS: usize = 16;

/// How many records one projection may read.
pub const MAX_PROJECTION: usize = 10_000;

/// How many buckets one grouping by a calendar rounding may make.
pub const MAX_BUCKETS: u64 = 1_000;

/// How many passes over an inner column one grouping may make.
pub const MAX_PASSES: u64 = 1_000;

/// One call, and the table it is asked of.
#[derive(PartialEq, Eq, Debug)]
pub struct Ask {
    /// The table.
    pub table: String,
    /// The call.
    pub call: Call,
}

/// What a [`Ask`] holds.
#[verifier::ext_equal]
pub struct AskView {
    pub table: Seq<char>,
    pub call: CallView,
}

impl View for Ask {
    type V = AskView;

    open spec fn view(&self) -> AskView {
        AskView {
            table: self.table@,
            call: self.call@,
        }
    }
}

impl Clone for Ask {
    fn clone(&self) -> (r: Ask)
        ensures
            r@ == self@,
    {
        Ask {
            table: self.table.clone(),
            call: self.call.clone(),
        }
    }
}

impl Ask {

    /// Whether two are the same.
    pub fn same(&self, other: &Ask) -> (r: bool)
        ensures
            r == (self@ == other@),
    {
        same(self.table.as_str(), other.table.as_str()) && self.call.same(&other.call)
    }
}

/// A number found by asking the same question with moving bounds until it converges.
#[derive(PartialEq, Eq, Debug)]
pub struct Probe {
    /// The table.
    pub table: String,
    /// The records the quantile is over, as the call that selects them.
    pub rows: Call,
    /// The column.
    pub field: String,
    /// Which quantile, in parts per thousand. 500 is the median.
    pub per_mille: u32,
}

/// What a [`Probe`] holds.
#[verifier::ext_equal]
pub struct ProbeView {
    pub table: Seq<char>,
    pub rows: CallView,
    pub field: Seq<char>,
    pub per_mille: u32,
}

impl View for Probe {
    type V = ProbeView;

    open spec fn view(&self) -> ProbeView {
        ProbeView {
            table: self.table@,
            rows: self.rows@,
            field: self.field@,
            per_mille: self.per_mille,
        }
    }
}

impl Clone for Probe {
    fn clone(&self) -> (r: Probe)
        ensures
            r@ == self@,
    {
        Probe {
            table: self.table.clone(),
            rows: self.rows.clone(),
            field: self.field.clone(),
            per_mille: self.per_mille,
        }
    }
}

/// A statement, translated.
#[derive(PartialEq, Eq, Debug)]
pub struct Statement {
    /// The calls this statement means, in the order the shape names them.
    pub calls: Vec<Ask>,
    /// The searches this statement makes, run after the calls and appended to their answers.
    pub probes: Vec<Probe>,
    /// The tables its conditions look into, besides those its calls and searches are asked of.
    pub reads: Vec<String>,
    /// What the caller asked to see of the answers, and how to write it.
    pub answer: Answer,
}

/// What a [`Statement`] holds.
#[verifier::ext_equal]
pub struct StatementView {
    pub calls: Seq<AskView>,
    pub probes: Seq<ProbeView>,
    pub reads: Seq<Seq<char>>,
    pub answer: AnswerView,
}

impl View for Statement {
    type V = StatementView;

    open spec fn view(&self) -> StatementView {
        StatementView {
            calls: views(self.calls@),
            probes: views(self.probes@),
            reads: views(self.reads@),
            answer: self.answer@,
        }
    }
}

impl Clone for Statement {
    fn clone(&self) -> (r: Statement)
        ensures
            r@ == self@,
    {
        Statement {
            calls: copy_all(&self.calls),
            probes: copy_all(&self.probes),
            reads: copy_all(&self.reads),
            answer: self.answer.clone(),
        }
    }
}

/// Whether a list of names holds one.
pub open spec fn named_in(names: Seq<Seq<char>>, name: Seq<char>) -> bool {
    exists|k: int| 0 <= k < names.len() && #[trigger] names[k] == name
}

/// Some names with one that may be new.
pub open spec fn with_name(names: Seq<Seq<char>>, name: Seq<char>) -> Seq<Seq<char>> {
    if named_in(names, name) {
        names
    } else {
        names.push(name)
    }
}

/// The first `n` names, without repeats.
pub open spec fn distinct_upto(names: Seq<Seq<char>>, n: int) -> Seq<Seq<char>>
    decreases n,
{
    if n <= 0 {
        Seq::empty()
    } else {
        with_name(distinct_upto(names, n - 1), names[n - 1])
    }
}

impl StatementView {
    /// The table of every call, of every search, and those the conditions look into.
    pub open spec fn named(self) -> Seq<Seq<char>> {
        self.calls.map_values(|a: AskView| a.table) + self.probes.map_values(|p: ProbeView| p.table)
            + self.reads
    }

    /// The tables this statement reads, in order, without repeats.
    pub open spec fn tables(self) -> Seq<Seq<char>> {
        distinct_upto(self.named(), self.named().len() as int)
    }
}

/// What some borrowed texts hold.
pub open spec fn texts(v: Seq<&str>) -> Seq<Seq<char>> {
    v.map_values(|s: &str| s@)
}

/// Whether a list of names holds one.
pub fn has_name(names: &Vec<&str>, name: &str) -> (r: bool)
    ensures
        r == named_in(texts(names@), name@),
{
    let mut k: usize = 0;
    while k < names.len()
        invariant
            k <= names@.len(),
            forall|j: int| 0 <= j < k ==> #[trigger] texts(names@)[j] != name@,
        decreases names.len() - k,
    {
        if same(names[k], name) {
            assert(texts(names@)[k as int] == name@);
            return true;
        }
        k += 1;
    }
    false
}

/// No names.
pub fn no_names() -> (r: Vec<String>)
    ensures
        views(r@) == Seq::<Seq<char>>::empty(),
{
    let r: Vec<String> = Vec::new();
    assert(views(r@) =~= Seq::<Seq<char>>::empty());
    r
}

/// Adds a name that may be new.
fn add_name<'a>(names: &mut Vec<&'a str>, name: &'a str)
    ensures
        texts(final(names)@) == with_name(texts(old(names)@), name@),
{
    let ghost before = texts(names@);
    if !has_name(names, name) {
        names.push(name);
        assert(texts(names@) =~= before.push(name@));
    }
}

impl Statement {
    /// The tables this statement reads, in the order they were written, without repeats.
    pub fn tables(&self) -> (r: Vec<&str>)
        ensures
            texts(r@) == self@.tables(),
    {
        let ghost all = self@.named();
        let ghost (c, p) = (self.calls@.len(), self.probes@.len());
        let mut out: Vec<&str> = Vec::new();
        assert(texts(out@) =~= Seq::<Seq<char>>::empty());
        let mut k: usize = 0;
        while k < self.calls.len()
            invariant
                k <= self.calls@.len(),
                all == self@.named(),
                texts(out@) == distinct_upto(all, k as int),
            decreases self.calls.len() - k,
        {
            assert(all[k as int] == self.calls@[k as int].table@);
            add_name(&mut out, self.calls[k].table.as_str());
            k += 1;
        }
        let mut k: usize = 0;
        while k < self.probes.len()
            invariant
                k <= self.probes@.len(),
                all == self@.named(),
                c == self.calls@.len(),
                texts(out@) == distinct_upto(all, c + k),
            decreases self.probes.len() - k,
        {
            assert(all[c + k] == self.probes@[k as int].table@);
            add_name(&mut out, self.probes[k].table.as_str());
            k += 1;
        }
        let mut k: usize = 0;
        while k < self.reads.len()
            invariant
                k <= self.reads@.len(),
                all == self@.named(),
                c == self.calls@.len(),
                p == self.probes@.len(),
                texts(out@) == distinct_upto(all, c + p + k),
            decreases self.reads.len() - k,
        {
            assert(all[c + p + k] == self.reads@[k as int]@);
            add_name(&mut out, self.reads[k].as_str());
            k += 1;
        }
        out
    }
}

/// A statement reads the table of every call and of every search and those its conditions look
/// into, each once, and no other.
pub proof fn tables_are_those_asked(s: StatementView)
    ensures
        forall|k: int| 0 <= k < s.calls.len() ==> named_in(s.tables(), (#[trigger] s.calls[k]).table),
        forall|k: int|
            0 <= k < s.probes.len() ==> named_in(s.tables(), (#[trigger] s.probes[k]).table),
        forall|k: int| 0 <= k < s.reads.len() ==> named_in(s.tables(), #[trigger] s.reads[k]),
        forall|k: int| 0 <= k < s.tables().len() ==> named_in(s.named(), #[trigger] s.tables()[k]),
        s.tables().no_duplicates(),
{
    let all = s.named();
    let (c, p) = (s.calls.len() as int, s.probes.len() as int);
    lemma_distinct(all, all.len() as int);
    assert forall|k: int| 0 <= k < s.calls.len() implies named_in(
        s.tables(),
        (#[trigger] s.calls[k]).table,
    ) by {
        assert(all[k] == s.calls[k].table);
    }
    assert forall|k: int| 0 <= k < s.probes.len() implies named_in(
        s.tables(),
        (#[trigger] s.probes[k]).table,
    ) by {
        assert(all[c + k] == s.probes[k].table);
    }
    assert forall|k: int| 0 <= k < s.reads.len() implies named_in(s.tables(), #[trigger] s.reads[k]) by {
        assert(all[c + p + k] == s.reads[k]);
    }
}

proof fn lemma_distinct(names: Seq<Seq<char>>, n: int)
    requires
        0 <= n <= names.len(),
    ensures
        forall|k: int| 0 <= k < n ==> named_in(distinct_upto(names, n), #[trigger] names[k]),
        forall|k: int|
            0 <= k < distinct_upto(names, n).len() ==> named_in(
                names,
                #[trigger] distinct_upto(names, n)[k],
            ),
        distinct_upto(names, n).no_duplicates(),
    decreases n,
{
    if n > 0 {
        lemma_distinct(names, n - 1);
        let before = distinct_upto(names, n - 1);
        let now = distinct_upto(names, n);
        let t = names[n - 1];
        if !named_in(before, t) {
            assert(now[before.len() as int] == t);
        }
        assert forall|k: int| 0 <= k < n implies named_in(now, #[trigger] names[k]) by {
            if k < n - 1 {
                let j = choose|j: int| 0 <= j < before.len() && #[trigger] before[j] == names[k];
                assert(now[j] == names[k]);
            } else if named_in(before, t) {
                let j = choose|j: int| 0 <= j < before.len() && #[trigger] before[j] == t;
                assert(now[j] == t);
            }
        }
        assert forall|k: int| 0 <= k < now.len() implies named_in(names, #[trigger] now[k]) by {
            if k < before.len() {
                assert(now[k] == before[k]);
            } else {
                assert(names[n - 1] == now[k]);
            }
        }
        assert forall|i: int, j: int| 0 <= i < now.len() && 0 <= j < now.len() && i != j implies now[i]
            != now[j] by {
            if !named_in(before, t) {
                if i < before.len() {
                    assert(before[i] == now[i]);
                }
                if j < before.len() {
                    assert(before[j] == now[j]);
                }
            }
        }
    }
}

/// Which of some calls is a given one, from a position on.
pub open spec fn asked_at(out: Seq<AskView>, ask: AskView, k: int) -> Option<usize>
    decreases out.len() - k,
{
    if k < 0 || k >= out.len() {
        None
    } else if out[k] == ask {
        Some(k as usize)
    } else {
        asked_at(out, ask, k + 1)
    }
}

/// What comes of asking: the calls, and which of them the answer is.
pub type Asked = core::result::Result<(Seq<AskView>, usize), SqlErrorView>;

/// The calls with one more question. A question already asked is not asked twice, and one too
/// many is refused.
pub open spec fn asking(out: Seq<AskView>, at: usize, table: Seq<char>, call: CallView) -> Asked {
    let ask = AskView { table, call };
    match asked_at(out, ask, 0) {
        Some(k) => Ok((out, k)),
        None => if out.len() >= MAX_CALLS {
            Err(SqlErrorView::Refused { what: Refused::TooManyCalls, at: at as nat })
        } else {
            Ok((out.push(ask), out.len() as usize))
        },
    }
}

/// The calls a statement makes, indexed the way a cell names them.
pub struct Calls {
    pub out: Vec<Ask>,
    /// Where a statement that asks too much is pointed at.
    pub at: usize,
}

/// No question is asked twice, and there are no more than a statement may ask.
pub open spec fn frugal(out: Seq<AskView>) -> bool {
    out.len() <= MAX_CALLS && out.no_duplicates()
}

proof fn lemma_asked_at(out: Seq<AskView>, ask: AskView, k: int)
    requires
        0 <= k,
        out.len() <= usize::MAX,
    ensures
        match asked_at(out, ask, k) {
            Some(i) => k <= i < out.len() && out[i as int] == ask,
            None => forall|i: int| k <= i < out.len() ==> out[i] != ask,
        },
    decreases out.len() - k,
{
    if k < out.len() && out[k] != ask {
        lemma_asked_at(out, ask, k + 1);
    }
}

/// Asking keeps the calls frugal, keeps those already asked where they are, and answers with the
/// position of the question.
pub proof fn asking_is_frugal(out: Seq<AskView>, at: usize, table: Seq<char>, call: CallView)
    requires
        frugal(out),
    ensures
        asking(out, at, table, call) matches Ok((now, k)) ==> {
            &&& frugal(now)
            &&& out.is_prefix_of(now)
            &&& k < now.len()
            &&& now[k as int] == (AskView { table, call })
        },
{
    lemma_asked_at(out, AskView { table, call }, 0);
}

impl Calls {
    /// No calls yet.
    pub fn new(at: usize) -> (r: Calls)
        ensures
            views(r.out@) == Seq::<AskView>::empty(),
            r.at == at,
    {
        let r = Calls { out: Vec::new(), at };
        assert(views(r.out@) =~= Seq::<AskView>::empty());
        r
    }

    /// Asks a table something, and says which call answers.
    pub fn push(&mut self, table: &str, call: Call) -> (r: Result<usize>)
        requires
            old(self).out@.len() <= MAX_CALLS,
        ensures
            final(self).at == old(self).at,
            final(self).out@.len() <= MAX_CALLS,
            match r {
                Ok(k) => asking(views(old(self).out@), old(self).at, table@, call@) == Ok::<
                    _,
                    SqlErrorView,
                >((views(final(self).out@), k)) && k < final(self).out@.len(),
                Err(e) => asking(views(old(self).out@), old(self).at, table@, call@) == Err::<
                    (Seq<AskView>, usize),
                    _,
                >(e@),
            },
    {
        let ask = Ask { table: str::to_owned(table), call };
        let mut k: usize = 0;
        while k < self.out.len()
            invariant
                k <= self.out@.len(),
                *self == *old(self),
                self.out@.len() <= MAX_CALLS,
                ask@ == (AskView { table: table@, call: call@ }),
                asked_at(views(self.out@), ask@, 0) == asked_at(views(self.out@), ask@, k as int),
            decreases self.out.len() - k,
        {
            assert(views(self.out@)[k as int] == self.out@[k as int]@);
            if self.out[k].same(&ask) {
                return Ok(k);
            }
            k += 1;
        }
        if self.out.len() >= MAX_CALLS {
            return Err(SqlError::Refused { what: Refused::TooManyCalls, at: self.at });
        }
        let ghost before = views(self.out@);
        self.out.push(ask);
        assert(views(self.out@) =~= before.push(ask@));
        Ok(self.out.len() - 1)
    }
}

} // verus!
