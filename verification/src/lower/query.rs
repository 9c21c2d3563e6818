//! A query, which is one `SELECT` or several stacked by `UNION ALL`.

use vstd::prelude::*;
use crate::ast::{ItemView, Query, QueryView, Select, SelectView};
use crate::error::{Refused, Result, SqlError, SqlErrorView};
use crate::lower::calls::{no_names, Ask, AskView, Probe, ProbeView, Statement, StatementView, MAX_CALLS};
use crate::lower::cond::{a_condition_is_a_call, rows, selected};
use crate::lower::delete::{filter_reads, segment, segment_in_filter, walk};
use crate::lower::grouped::{grouped, lowered_grouped};
use crate::lower::join::{joined, lowered_join};
use crate::lower::measure::{start, start_of};
use crate::lower::pql::{all_rows, every_row};
use crate::lower::sets::{lowered_sets, sets, sets_wf};
use crate::lower::tuples::{lowered_tuples, tuples};
use crate::lower::ungrouped::{lowered_to, lowered_ungrouped, ungrouped};
use crate::parse::cursor::refusal;
use crate::parse::grouping::lists;
use crate::pql::ExprView;
use crate::shape::{Answer, AnswerView, Format, Shape, ShapeView};
use crate::text::views;

verus! {

/// What comes of a lowering.
pub type Lowered = core::result::Result<StatementView, SqlErrorView>;

impl SelectView {
    /// Every grouping set names columns that are grouped by, and there are few enough of them to
    /// be told apart by one byte.
    pub open spec fn wf(self) -> bool {
        &&& self.group_by.len() <= 255
        &&& self.grouping_sets matches Some(sets) ==> {
            &&& sets_wf(sets.of, self.group_by.len())
            &&& forall|k: int| 0 <= k < sets.of.len() ==> (#[trigger] sets.of[k]).len() <= 255
        }
    }

    /// The records the `WHERE` selects.
    pub open spec fn rows(self) -> ExprView {
        match self.filter {
            Some(c) => selected(c),
            None => every_row(),
        }
    }
}

/// The first `SEGMENT(...)` among the `FILTER`s of a select list, from an entry on.
pub open spec fn segment_among(items: Seq<ItemView>, k: int) -> Option<usize>
    decreases items.len() - k,
{
    if k < 0 || k >= items.len() {
        None
    } else {
        match segment_in_filter(items[k].filter) {
            Some(at) => Some(at),
            None => segment_among(items, k + 1),
        }
    }
}

/// The tables the `FILTER`s of a select list look into, from an entry on, after some already
/// found.
pub open spec fn items_read(items: Seq<ItemView>, k: int, before: Seq<Seq<char>>) -> Seq<Seq<char>>
    decreases items.len() - k,
{
    if k < 0 || k >= items.len() {
        before
    } else {
        items_read(items, k + 1, filter_reads(items[k].filter, before))
    }
}

impl SelectView {
    /// A `SEGMENT(...)` that is still written out. Only a catalog can say what it stands for.
    pub open spec fn segment(self) -> Option<usize> {
        match segment_in_filter(self.filter) {
            Some(at) => Some(at),
            None => segment_among(self.items, 0),
        }
    }

    /// The tables its conditions look into.
    pub open spec fn reads(self) -> Seq<Seq<char>> {
        items_read(self.items, 0, filter_reads(self.filter, Seq::empty()))
    }
}

/// One `SELECT`, with the tables its conditions look into. A segment that is still written out
/// is refused.
pub open spec fn lowered_one(select: SelectView) -> Lowered {
    match select.segment() {
        Some(at) => Err(refusal(Refused::Segment, at)),
        None => match lowered_alone(select) {
            Err(x) => Err(x),
            Ok(s) => Ok(StatementView { reads: select.reads(), ..s }),
        },
    }
}

/// One `SELECT`. A join, the sets of a grouping, and how many columns it is by decide what it
/// is.
pub open spec fn lowered_alone(select: SelectView) -> Lowered {
    let table = select.from.qualified();
    if select.joins.len() > 0 {
        lowered_join(select)
    } else if select.grouping_sets is Some {
        lowered_sets(select, table, select.rows(), select.grouping_sets->0.of)
    } else if select.group_by.len() == 0 {
        lowered_ungrouped(select, table, select.rows())
    } else if select.group_by.len() == 1 {
        lowered_grouped(select, table, select.rows())
    } else {
        lowered_tuples(select, table, select.rows())
    }
}

/// Branches stacked so far.
#[verifier::ext_equal]
pub struct StackView {
    pub calls: Seq<AskView>,
    pub probes: Seq<ProbeView>,
    pub reads: Seq<Seq<char>>,
    pub shapes: Seq<ShapeView>,
    pub width: Option<nat>,
}

/// One more branch: its calls after those before it, and its shape over the whole list. Every
/// branch is as wide as the first, and together they ask no more than one statement may.
pub open spec fn stacked(s: StackView, select: SelectView, at: usize) -> core::result::Result<
    StackView,
    SqlErrorView,
> {
    match lowered_one(select) {
        Err(x) => Err(x),
        Ok(one) => {
            let here = one.answer.shape.columns().len();
            if s.width is Some && s.width->0 != here {
                Err(refusal(Refused::Union, start_of(select.items)))
            } else if s.calls.len() + one.calls.len() > MAX_CALLS {
                Err(refusal(Refused::TooManyCalls, at))
            } else {
                Ok(
                    StackView {
                        calls: s.calls + one.calls,
                        probes: s.probes + one.probes,
                        reads: s.reads + one.reads,
                        shapes: s.shapes.push(
                            one.answer.shape.moved(s.calls.len() as usize, 0).moved(
                                0,
                                s.probes.len() as usize,
                            ),
                        ),
                        width: Some(here),
                    },
                )
            }
        },
    }
}

/// Every branch from a position on.
pub open spec fn stacked_from(
    branches: Seq<SelectView>,
    k: int,
    s: StackView,
    at: usize,
) -> core::result::Result<StackView, SqlErrorView>
    decreases branches.len() - k,
{
    if k < 0 || k >= branches.len() {
        Ok(s)
    } else {
        match stacked(s, branches[k], at) {
            Err(x) => Err(x),
            Ok(s2) => stacked_from(branches, k + 1, s2, at),
        }
    }
}

/// Nothing stacked yet.
pub open spec fn no_branches() -> StackView {
    StackView {
        calls: Seq::empty(),
        probes: Seq::empty(),
        reads: Seq::empty(),
        shapes: Seq::empty(),
        width: None,
    }
}

/// Several branches, stacked. The last one says how the answer is written.
pub open spec fn lowered_union(branches: Seq<SelectView>) -> Lowered {
    let at = if branches.len() > 0 {
        start_of(branches[0].items)
    } else {
        0
    };
    match stacked_from(branches, 0, no_branches(), at) {
        Err(x) => Err(x),
        Ok(s) => Ok(
            StatementView {
                calls: s.calls,
                probes: s.probes,
                reads: s.reads,
                answer: AnswerView {
                    shape: ShapeView::Union { branches: s.shapes },
                    format: if branches.len() > 0 {
                        branches.last().format
                    } else {
                        Format::Json
                    },
                    calls: s.calls.len() as usize,
                },
            },
        ),
    }
}

/// A query as the calls it makes and the shape of its answer.
pub open spec fn lowered(query: QueryView) -> Lowered {
    if query.branches.len() == 1 {
        match lowered_one(query.branches[0]) {
            Err(x) => Err(x),
            Ok(s) => Ok(
                StatementView {
                    answer: AnswerView { calls: s.calls.len() as usize, ..s.answer },
                    ..s
                },
            ),
        }
    } else {
        lowered_union(query.branches)
    }
}

impl QueryView {
    pub open spec fn wf(self) -> bool {
        forall|k: int| 0 <= k < self.branches.len() ==> (#[trigger] self.branches[k]).wf()
    }
}

/// The first `SEGMENT(...)` among the conditions of a `SELECT`.
fn find_segment(select: &Select) -> (r: Option<usize>)
    ensures
        r == select@.segment(),
{
    if let Some(c) = &select.filter {
        let at = segment(c);
        if at.is_some() {
            return at;
        }
    }
    let mut k: usize = 0;
    while k < select.items.len()
        invariant
            k <= select.items@.len(),
            select@.segment() == segment_among(select@.items, k as int),
        decreases select.items.len() - k,
    {
        assert(select@.items[k as int] == select.items@[k as int]@);
        if let Some(c) = &select.items[k].filter {
            let at = segment(c);
            if at.is_some() {
                return at;
            }
        }
        k += 1;
    }
    None
}

/// The tables the conditions of a `SELECT` look into.
fn find_reads(select: &Select) -> (r: Vec<String>)
    ensures
        views(r@) == select@.reads(),
{
    let mut out = no_names();
    if let Some(c) = &select.filter {
        walk(c, &mut out);
    }
    let mut k: usize = 0;
    while k < select.items.len()
        invariant
            k <= select.items@.len(),
            select@.reads() == items_read(select@.items, k as int, views(out@)),
        decreases select.items.len() - k,
    {
        assert(select@.items[k as int] == select.items@[k as int]@);
        if let Some(c) = &select.items[k].filter {
            walk(c, &mut out);
        }
        k += 1;
    }
    out
}

/// Translates one `SELECT`.
pub(crate) fn lower_one(select: &Select) -> (r: Result<Statement>)
    requires
        select@.wf(),
    ensures
        lowered_to(r) == lowered_one(select@),
{
    if let Some(at) = find_segment(select) {
        return Err(SqlError::Refused { what: Refused::Segment, at });
    }
    let mut out = lower_alone(select)?;
    out.reads = find_reads(select);
    Ok(out)
}

/// Translates one `SELECT`, but for the tables its conditions look into.
fn lower_alone(select: &Select) -> (r: Result<Statement>)
    requires
        select@.wf(),
    ensures
        lowered_to(r) == lowered_alone(select@),
{
    if select.joins.len() > 0 {
        return joined(select);
    }
    let all = match &select.filter {
        Some(c) => {
            proof {
                a_condition_is_a_call(c@);
            }
            rows(c)
        },
        None => all_rows(),
    };
    let table = select.from.qualified();
    if let Some(gs) = &select.grouping_sets {
        assert(select@.grouping_sets->0.of =~= lists(gs.of@));
        assert forall|k: int| 0 <= k < gs.of@.len() implies (#[trigger] gs.of@[k])@.len() <= 255 by {
            assert(select@.grouping_sets->0.of[k].len() <= 255);
        }
        return sets(select, table.as_str(), &all, &gs.of);
    }
    if select.group_by.len() == 0 {
        ungrouped(select, table.as_str(), &all)
    } else if select.group_by.len() == 1 {
        grouped(select, table.as_str(), &all)
    } else {
        tuples(select, table.as_str(), &all)
    }
}

/// Branches stacked so far.
struct Stack {
    calls: Vec<Ask>,
    probes: Vec<Probe>,
    reads: Vec<String>,
    shapes: Vec<Shape>,
    width: Option<usize>,
}

impl Stack {
    spec fn seen(&self) -> StackView {
        StackView {
            calls: views(self.calls@),
            probes: views(self.probes@),
            reads: views(self.reads@),
            shapes: views(self.shapes@),
            width: match self.width {
                Some(w) => Some(w as nat),
                None => None,
            },
        }
    }

    /// One more branch.
    fn add(&mut self, select: &Select, at: usize) -> (r: Result<()>)
        requires
            select@.wf(),
            old(self).calls@.len() <= MAX_CALLS,
        ensures
            stacked(old(self).seen(), select@, at) == (match r {
                Ok(_) => Ok::<_, SqlErrorView>(final(self).seen()),
                Err(e) => Err(e@),
            }),
            r is Ok ==> final(self).calls@.len() <= MAX_CALLS,
    {
        let ghost was = self.seen();
        let one = lower_one(select)?;
        let ghost seen = one@;
        let here = one.answer.shape.columns().len();
        assert(here == seen.answer.shape.columns().len());
        if let Some(w) = self.width {
            if w != here {
                return Err(SqlError::Refused { what: Refused::Union, at: start(&select.items) });
            }
        }
        assert(seen.calls.len() == one.calls@.len());
        if one.calls.len() > MAX_CALLS - self.calls.len() {
            return Err(SqlError::Refused { what: Refused::TooManyCalls, at });
        }
        let shape = one.answer.shape.rebase(self.calls.len()).rebase_probes(self.probes.len());
        self.shapes.push(shape);
        assert(views(self.shapes@) =~= was.shapes.push(shape@));
        let mut calls = one.calls;
        self.calls.append(&mut calls);
        assert(views(self.calls@) =~= was.calls + seen.calls);
        let mut probes = one.probes;
        self.probes.append(&mut probes);
        assert(views(self.probes@) =~= was.probes + seen.probes);
        let mut reads = one.reads;
        self.reads.append(&mut reads);
        assert(views(self.reads@) =~= was.reads + seen.reads);
        self.width = Some(here);
        Ok(())
    }
}

/// Every branch, stacked.
fn stack(branches: &Vec<Select>, at: usize) -> (r: Result<Stack>)
    requires
        forall|k: int| 0 <= k < branches@.len() ==> (#[trigger] branches@[k])@.wf(),
    ensures
        stacked_from(views(branches@), 0, no_branches(), at) == (match r {
            Ok(s) => Ok::<_, SqlErrorView>(s.seen()),
            Err(e) => Err(e@),
        }),
{
    let mut s = Stack {
        calls: Vec::new(),
        probes: Vec::new(),
        reads: Vec::new(),
        shapes: Vec::new(),
        width: None,
    };
    assert(s.seen() =~= no_branches());
    let mut k: usize = 0;
    while k < branches.len()
        invariant
            k <= branches@.len(),
            forall|k: int| 0 <= k < branches@.len() ==> (#[trigger] branches@[k])@.wf(),
            s.calls@.len() <= MAX_CALLS,
            stacked_from(views(branches@), 0, no_branches(), at) == stacked_from(
                views(branches@),
                k as int,
                s.seen(),
                at,
            ),
        decreases branches.len() - k,
    {
        assert(views(branches@)[k as int] == branches@[k as int]@);
        s.add(&branches[k], at)?;
        k += 1;
    }
    Ok(s)
}

/// Several branches, stacked.
fn union(branches: &Vec<Select>) -> (r: Result<Statement>)
    requires
        forall|k: int| 0 <= k < branches@.len() ==> (#[trigger] branches@[k])@.wf(),
    ensures
        lowered_to(r) == lowered_union(views(branches@)),
{
    let at = if branches.len() > 0 {
        assert(views(branches@)[0] == branches@[0]@);
        start(&branches[0].items)
    } else {
        0
    };
    let s = stack(branches, at)?;
    let format = if branches.len() > 0 {
        assert(views(branches@).last() == branches@[branches@.len() - 1]@);
        branches[branches.len() - 1].format
    } else {
        Format::default()
    };
    let total = s.calls.len();
    let shape = Shape::Union { branches: s.shapes };
    assert(shape@->Union_branches =~= views(s.shapes@));
    Ok(
        Statement {
            calls: s.calls,
            probes: s.probes,
            reads: s.reads,
            answer: Answer { calls: total, shape, format },
        },
    )
}

/// Translates one parsed statement, which may be several stacked by `UNION ALL`.
pub fn lower(query: &Query) -> (r: Result<Statement>)
    requires
        query@.wf(),
    ensures
        lowered_to(r) == lowered(query@),
{
    assert forall|k: int| 0 <= k < query.branches@.len() implies (#[trigger] query.branches@[k])@.wf() by {
        assert(query@.branches[k].wf());
    }
    if query.branches.len() != 1 {
        return union(&query.branches);
    }
    assert(query@.branches[0] == query.branches@[0]@);
    let mut out = lower_one(&query.branches[0])?;
    assert(out@.calls.len() == out.calls@.len());
    out.answer.calls = out.calls.len();
    Ok(out)
}

} // verus!
