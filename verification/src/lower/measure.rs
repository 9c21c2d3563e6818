//! What each entry of a select list measures, and the `HAVING` that compares those numbers.

use vstd::prelude::*;
use crate::ast::{self, Agg, HavingAgg, HavingAggView, HavingOperand, HavingOperandView, Item, ItemView, Name, NameView, Proj, ProjView};
use crate::error::{Refused, Result, SqlError, SqlErrorView};
use crate::lower::cond::{rows, selected};
use crate::lower::pql::{as_expr, call2, called};
use crate::parse::cursor::refusal;
use crate::pql::{Expr, ExprView, Literal, LiteralView};
use crate::shape::{Absent, Having, HavingView, Of, Operand, OperandView, Threshold, ThresholdView, Units, UnitsView};
use crate::text::{same, views};

verus! {

/// Which of three things an entry is about: every record, a column, or a number.
#[derive(Clone, Copy, PartialEq, Eq, Debug, Structural)]
pub enum Kind {
    Star,
    Column,
    Number,
}

/// Which of three things an entry is about, under whatever expression.
pub open spec fn kind_of(item: ItemView) -> Kind {
    match item.leaf() {
        ProjView::Star => Kind::Star,
        ProjView::Column(_) => Kind::Column,
        _ => Kind::Number,
    }
}

/// The first entry of a kind, from a position on.
pub open spec fn first_of(items: Seq<ItemView>, kind: Kind, k: int) -> Option<int>
    decreases items.len() - k,
{
    if k < 0 || k >= items.len() {
        None
    } else if kind_of(items[k]) == kind {
        Some(k)
    } else {
        first_of(items, kind, k + 1)
    }
}

/// Where a statement that asks too much is pointed at: its first entry.
pub open spec fn start_of(items: Seq<ItemView>) -> usize {
    if items.len() > 0 {
        items[0].at
    } else {
        0
    }
}

/// Which of three things an entry is about.
pub fn kind(item: &Item) -> (r: Kind)
    ensures
        r == kind_of(item@),
{
    match item.leaf() {
        Proj::Star => Kind::Star,
        Proj::Column(_) => Kind::Column,
        _ => Kind::Number,
    }
}

/// The first entry of a kind, from a position on.
pub fn find_first(items: &Vec<Item>, of: Kind, start: usize) -> (r: Option<usize>)
    requires
        start <= items@.len(),
    ensures
        match r {
            Some(k) => first_of(views(items@), of, start as int) == Some(k as int) && start <= k
                < items@.len() && kind_of(views(items@)[k as int]) == of,
            None => first_of(views(items@), of, start as int) is None,
        },
{
    let mut k: usize = start;
    while k < items.len()
        invariant
            start <= k <= items@.len(),
            first_of(views(items@), of, start as int) == first_of(views(items@), of, k as int),
        decreases items.len() - k,
    {
        assert(views(items@)[k as int] == items@[k as int]@);
        if kind(&items[k]) == of {
            return Some(k);
        }
        k += 1;
    }
    None
}

/// Where a statement that asks too much is pointed at.
pub fn start(items: &Vec<Item>) -> (r: usize)
    ensures
        r == start_of(views(items@)),
{
    if items.len() > 0 {
        assert(views(items@)[0] == items@[0]@);
        items[0].at
    } else {
        0
    }
}

/// The records one entry measures: the statement's, narrowed by the entry's own `FILTER`.
pub open spec fn narrowed(rows: ExprView, item: ItemView) -> ExprView {
    match item.filter {
        None => rows,
        Some(c) => called("Intersect"@, seq![rows, selected(c)]),
    }
}

/// The records one entry measures.
pub fn rows_of(all: &Expr, item: &Item) -> (r: Expr)
    ensures
        r@ == narrowed(all@, item@),
{
    match &item.filter {
        None => all.copied(),
        Some(c) => as_expr(call2("Intersect", all.copied(), rows(c))),
    }
}

/// The column an entry's number comes out of.
pub open spec fn measured_field(proj: ProjView) -> Option<NameView>
    decreases proj,
{
    match proj {
        ProjView::Agg { field, .. } => Some(field),
        ProjView::Avg(field) => Some(field),
        ProjView::Quantile { field, .. } => Some(field),
        ProjView::Scalar { inner, .. } => measured_field(*inner),
        _ => None,
    }
}

/// The column an entry's number comes out of, or `None` when it does not come out of one.
pub fn field_measured(proj: &Proj) -> (r: Option<&Name>)
    ensures
        match r {
            Some(f) => measured_field(proj@) == Some(f@),
            None => measured_field(proj@) is None,
        },
    decreases proj,
{
    match proj {
        Proj::Agg { field, .. } => Some(field),
        Proj::Avg(field) => Some(field),
        Proj::Quantile { field, .. } => Some(field),
        Proj::Scalar { inner, .. } => field_measured(&**inner),
        _ => None,
    }
}

/// What a number of a table is measured in: the units of the field it was read from, seconds for
/// an instant, and nothing for a count.
pub open spec fn measured_in(table: Seq<char>, proj: ProjView) -> UnitsView
    decreases proj,
{
    match proj {
        ProjView::Scalar { inner, .. } => measured_in(table, *inner),
        ProjView::Now { .. } => UnitsView::Seconds,
        _ => match measured_field(proj) {
            Some(field) => UnitsView::Written { table, field: field.column },
            None => UnitsView::Digits(0),
        },
    }
}

/// What the number one select-list entry produces is measured in.
pub fn units_of(table: &str, proj: &Proj) -> (r: Units)
    ensures
        r@ == measured_in(table@, proj@),
    decreases proj,
{
    match proj {
        Proj::Scalar { inner, .. } => units_of(table, &**inner),
        Proj::Now { .. } => Units::Seconds,
        _ => match field_measured(proj) {
            Some(field) => Units::Written {
                table: str::to_owned(table),
                field: field.column.clone(),
            },
            None => Units::Digits(0),
        },
    }
}

/// What one aggregate in the select list measures. The same aggregate over the same column is the
/// same number.
#[derive(Clone, PartialEq, Eq, Debug)]
pub enum Measure {
    /// The group's own count.
    Count,
    /// `sum(f)`, `min(f)`, `max(f)`.
    Agg { func: Agg, field: Name },
    /// `avg(f)`.
    Avg(Name),
    /// A number no bare `HAVING` or `ORDER BY` can name: one narrowed by a `FILTER`, or one of
    /// another kind. What names it is its alias.
    Other,
}

/// What a [`Measure`] holds.
#[verifier::ext_equal]
pub enum MeasureView {
    Count,
    Agg { func: Agg, field: NameView },
    Avg(NameView),
    Other,
}

impl View for Measure {
    type V = MeasureView;

    open spec fn view(&self) -> MeasureView {
        match *self {
            Measure::Count => MeasureView::Count,
            Measure::Agg { func, field } => MeasureView::Agg { func, field: field@ },
            Measure::Avg(a) => MeasureView::Avg(a@),
            Measure::Other => MeasureView::Other,
        }
    }
}

impl Measure {

    /// Whether two are the same.
    pub fn same(&self, other: &Measure) -> (r: bool)
        ensures
            r == (self@ == other@),
    {
        match (self, other) {
            (Measure::Count, Measure::Count) => true,
            (Measure::Agg { func: x_func, field: x_field }, Measure::Agg { func: y_func, field: y_field }) => *x_func == *y_func && x_field.same(y_field),
            (Measure::Avg(x_a), Measure::Avg(y_a)) => x_a.same(y_a),
            (Measure::Other, Measure::Other) => true,
            _ => false,
        }
    }
}

/// What an entry measures, under whatever expression: an expression is applied to the number on
/// the way out.
pub open spec fn measure(item: ItemView) -> MeasureView {
    if item.filter is Some {
        MeasureView::Other
    } else {
        match item.leaf() {
            ProjView::Count => MeasureView::Count,
            ProjView::Agg { func, field } => MeasureView::Agg { func, field },
            ProjView::Avg(field) => MeasureView::Avg(field),
            _ => MeasureView::Other,
        }
    }
}

/// What an entry measures.
pub fn measure_of(item: &Item) -> (r: Measure)
    ensures
        r@ == measure(item@),
{
    if item.filter.is_some() {
        return Measure::Other;
    }
    match item.leaf() {
        Proj::Count => Measure::Count,
        Proj::Agg { func, field } => Measure::Agg { func: *func, field: field.copied() },
        Proj::Avg(field) => Measure::Avg(field.copied()),
        _ => Measure::Other,
    }
}

/// What an answer's numbers measure, and where each comes from.
pub type Measures = Seq<(MeasureView, Of)>;

/// What some measures hold.
pub open spec fn measured(v: Seq<(Measure, Of)>) -> Measures {
    v.map_values(|m: (Measure, Of)| (m.0@, m.1))
}

/// The first number that measures something, from a position on.
pub open spec fn found(want: MeasureView, measures: Measures, k: int) -> Option<Of>
    decreases measures.len() - k,
{
    if k < 0 || k >= measures.len() {
        None
    } else if measures[k].0 == want {
        Some(measures[k].1)
    } else {
        found(want, measures, k + 1)
    }
}

/// What an aggregate named outside the select list measures.
pub open spec fn wanted(a: HavingAggView) -> MeasureView {
    match a {
        HavingAggView::Count => MeasureView::Count,
        HavingAggView::Agg { func, field } => MeasureView::Agg { func, field },
        HavingAggView::Avg(field) => MeasureView::Avg(field),
    }
}

/// Whether no number of an answer comes from a call: there is none, or each is an instant.
pub open spec fn asks_nothing(measures: Measures) -> bool {
    forall|k: int|
        0 <= k < measures.len() ==> (#[trigger] measures[k]).1.read_from().len() == 0
}

/// Whether no number of an answer comes from a call.
pub fn nothing_asked(measures: &Vec<(Measure, Of)>) -> (r: bool)
    ensures
        r == asks_nothing(measured(measures@)),
{
    let mut k: usize = 0;
    while k < measures.len()
        invariant
            k <= measures@.len(),
            forall|j: int|
                0 <= j < k ==> (#[trigger] measured(measures@)[j]).1.read_from().len() == 0,
        decreases measures.len() - k,
    {
        assert(measured(measures@)[k as int].1 == measures@[k as int].1);
        if measures[k].1.plans().len() != 0 {
            return false;
        }
        k += 1;
    }
    true
}

/// The counts of the groups that a call lists.
pub open spec fn listed_counts(plan: usize) -> Of {
    Of::Group { plan, absent: Absent::Zero }
}

/// The numbers a `HAVING` or an `ORDER BY` may name. Where none comes from a call, what lists the
/// groups counts them too, and that is the one number there is.
pub open spec fn nameable(measures: Measures, counts: Of) -> Measures {
    if asks_nothing(measures) {
        seq![(MeasureView::Count, counts)]
    } else {
        measures
    }
}

/// The one number a grouping without numbers has: the count of each group.
pub fn only_counts(counts: Of) -> (r: Vec<(Measure, Of)>)
    ensures
        measured(r@) == seq![(MeasureView::Count, counts)],
{
    let mut out: Vec<(Measure, Of)> = Vec::new();
    out.push((Measure::Count, counts));
    assert(measured(out@) =~= seq![(MeasureView::Count, counts)]);
    out
}

/// The number an aggregate names. An answer with no numbers of its own still has the counts of
/// its groups.
pub open spec fn number_named(a: HavingAggView, measures: Measures) -> Option<Of> {
    if measures.len() == 0 && a is Count {
        Some(Of::Group { plan: 0, absent: Absent::Zero })
    } else {
        found(wanted(a), measures, 0)
    }
}

/// The number a `HAVING` names, or `None` when the answer holds no such number.
pub fn names(a: &HavingAgg, measures: &Vec<(Measure, Of)>) -> (r: Option<Of>)
    ensures
        r == number_named(a@, measured(measures@)),
{
    let want = match a {
        HavingAgg::Count => {
            if measures.len() == 0 {
                return Some(Of::Group { plan: 0, absent: Absent::Zero });
            }
            Measure::Count
        },
        HavingAgg::Agg { func, field } => Measure::Agg { func: *func, field: field.copied() },
        HavingAgg::Avg(field) => Measure::Avg(field.copied()),
    };
    let mut k: usize = 0;
    while k < measures.len()
        invariant
            k <= measures@.len(),
            want@ == wanted(a@),
            number_named(a@, measured(measures@)) == found(
                want@,
                measured(measures@),
                k as int,
            ),
        decreases measures.len() - k,
    {
        if measures[k].0.same(&want) {
            return Some(measures[k].1);
        }
        k += 1;
    }
    None
}

/// A table a join has in scope: the name the statement calls it by, and its own.
#[verifier::ext_equal]
pub struct SideView {
    pub label: Seq<char>,
    pub table: Seq<char>,
}

/// What a column's table is found in: the one table, or the tables of a join.
pub enum FrameView {
    One(Seq<char>),
    Many(Seq<SideView>),
}

/// Which side of a join a label names, from a position on.
pub open spec fn labelled(sides: Seq<SideView>, label: Seq<char>, k: int) -> Option<int>
    decreases sides.len() - k,
{
    if k < 0 || k >= sides.len() {
        None
    } else if sides[k].label == label {
        Some(k)
    } else {
        labelled(sides, label, k + 1)
    }
}

/// Which side of a join a column belongs to. A column without a qualifier belongs to none.
pub open spec fn side_of(sides: Seq<SideView>, name: NameView, at: usize) -> core::result::Result<
    usize,
    SqlErrorView,
> {
    match name.qualifier {
        Some(q) => match labelled(sides, q, 0) {
            Some(k) => Ok(k as usize),
            None => Err(refusal(Refused::Ambiguous, at)),
        },
        None => Err(refusal(Refused::Ambiguous, at)),
    }
}

/// The tables a join has in scope, under the names the statement calls them by.
pub struct Scope {
    /// What the statement calls each.
    pub labels: Vec<String>,
    /// `database.table` for each.
    pub tables: Vec<String>,
}

impl View for Scope {
    type V = Seq<SideView>;

    open spec fn view(&self) -> Seq<SideView> {
        Seq::new(
            self.labels@.len(),
            |k: int| SideView { label: self.labels@[k]@, table: self.tables@[k]@ },
        )
    }
}

impl Scope {
    pub open spec fn wf(&self) -> bool {
        self.labels@.len() == self.tables@.len()
    }

    /// Which table a column belongs to. A qualifier is required: nothing here has seen a schema.
    pub fn side(&self, name: &Name, at: usize) -> (r: Result<usize>)
        requires
            self.wf(),
        ensures
            match r {
                Ok(k) => side_of(self@, name@, at) == Ok::<_, SqlErrorView>(k) && k
                    < self.labels@.len(),
                Err(e) => side_of(self@, name@, at) == Err::<usize, _>(e@),
            },
    {
        match &name.qualifier {
            None => Err(SqlError::Refused { what: Refused::Ambiguous, at }),
            Some(q) => {
                let mut k: usize = 0;
                while k < self.labels.len()
                    invariant
                        k <= self.labels@.len(),
                        name@.qualifier == Some(q@),
                        labelled(self@, q@, 0) == labelled(self@, q@, k as int),
                    decreases self.labels.len() - k,
                {
                    if same(self.labels[k].as_str(), q.as_str()) {
                        return Ok(k);
                    }
                    k += 1;
                }
                Err(SqlError::Refused { what: Refused::Ambiguous, at })
            },
        }
    }

    /// A side's table.
    pub fn table(&self, side: usize) -> (r: &str)
        requires
            self.wf(),
            side < self.labels@.len(),
        ensures
            r@ == self@[side as int].table,
    {
        self.tables[side].as_str()
    }
}

/// What a column's table is found in.
#[derive(Clone, Copy)]
pub enum Frame<'a> {
    One(&'a str),
    Many(&'a Scope),
}

impl<'a> View for Frame<'a> {
    type V = FrameView;

    open spec fn view(&self) -> FrameView {
        match *self {
            Frame::One(table) => FrameView::One(table@),
            Frame::Many(scope) => FrameView::Many(scope@),
        }
    }
}

impl<'a> Frame<'a> {
    pub open spec fn wf(&self) -> bool {
        *self matches Frame::Many(scope) ==> scope.wf()
    }
}

/// The column a named aggregate measures.
pub open spec fn field_named(a: HavingAggView) -> Option<NameView> {
    match a {
        HavingAggView::Count => None,
        HavingAggView::Agg { field, .. } => Some(field),
        HavingAggView::Avg(field) => Some(field),
    }
}

/// The column an aggregate's threshold is written in the units of, if any.
pub fn field_of(a: &HavingAgg) -> (r: Option<&Name>)
    ensures
        match r {
            Some(f) => field_named(a@) == Some(f@),
            None => field_named(a@) is None,
        },
{
    match a {
        HavingAgg::Count => None,
        HavingAgg::Agg { field, .. } => Some(field),
        HavingAgg::Avg(field) => Some(field),
    }
}

/// The table and the column an aggregate is in the units of.
pub type UnitField = Option<(Seq<char>, Seq<char>)>;

/// The table and the column an aggregate is in the units of. A count is in none.
pub open spec fn unit_field(frame: FrameView, a: HavingAggView, at: usize) -> core::result::Result<
    UnitField,
    SqlErrorView,
> {
    match field_named(a) {
        None => Ok(None),
        Some(name) => match frame {
            FrameView::One(table) => Ok(Some((table, name.column))),
            FrameView::Many(sides) => match side_of(sides, name, at) {
                Ok(k) => Ok(Some((sides[k as int].table, name.column))),
                Err(x) => Err(x),
            },
        },
    }
}

/// The table and the column an aggregate is in the units of, if any.
pub fn having_field(frame: Frame, a: &HavingAgg, at: usize) -> (r: Result<Option<(String, String)>>)
    requires
        frame.wf(),
    ensures
        match r {
            Ok(Some(p)) => unit_field(frame@, a@, at) == Ok::<UnitField, SqlErrorView>(
                Some((p.0@, p.1@)),
            ),
            Ok(None) => unit_field(frame@, a@, at) == Ok::<UnitField, SqlErrorView>(None),
            Err(e) => unit_field(frame@, a@, at) == Err::<UnitField, _>(e@),
        },
{
    match field_of(a) {
        None => Ok(None),
        Some(name) => match frame {
            Frame::One(table) => Ok(Some((str::to_owned(table), name.column.clone()))),
            Frame::Many(scope) => {
                let side = scope.side(name, at)?;
                Ok(Some((str::to_owned(scope.table(side)), name.column.clone())))
            },
        },
    }
}

/// The number of the answer an aggregate names, when it can be compared: an average is a fraction
/// and the comparison is not.
pub open spec fn comparable(a: HavingAggView, measures: Measures, at: usize) -> core::result::Result<
    Of,
    SqlErrorView,
> {
    match number_named(a, measures) {
        None => Err(refusal(Refused::Having, at)),
        Some(of) => if of is Ratio || of is PairedRatio {
            Err(refusal(Refused::Having, at))
        } else {
            Ok(of)
        },
    }
}

/// The number of the answer an aggregate names, when it can be compared.
fn number(a: &HavingAgg, measures: &Vec<(Measure, Of)>, at: usize) -> (r: Result<Of>)
    ensures
        match r {
            Ok(of) => comparable(a@, measured(measures@), at) == Ok::<_, SqlErrorView>(of),
            Err(e) => comparable(a@, measured(measures@), at) == Err::<Of, _>(e@),
        },
{
    match names(a, measures) {
        None => Err(SqlError::Refused { what: Refused::Having, at }),
        Some(of) => match of {
            Of::Ratio { .. } => Err(SqlError::Refused { what: Refused::Having, at }),
            Of::PairedRatio { .. } => Err(SqlError::Refused { what: Refused::Having, at }),
            _ => Ok(of),
        },
    }
}

/// One side of a comparison. A constant is in the units of the aggregate on the other side.
pub open spec fn operand(
    o: HavingOperandView,
    other: HavingOperandView,
    frame: FrameView,
    measures: Measures,
    at: usize,
) -> core::result::Result<OperandView, SqlErrorView> {
    match o {
        HavingOperandView::Agg(a) => match comparable(a, measures, at) {
            Err(x) => Err(x),
            Ok(of) => match unit_field(frame, a, at) {
                Err(x) => Err(x),
                Ok(Some((table, field))) => Ok(
                    OperandView::Of { of, units: UnitsView::Written { table, field } },
                ),
                Ok(None) => Ok(OperandView::Of { of, units: UnitsView::Digits(0) }),
            },
        },
        HavingOperandView::Value(v) => match other {
            HavingOperandView::Value(_) => Err(refusal(Refused::Having, at)),
            HavingOperandView::Agg(a) => match unit_field(frame, a, at) {
                Err(x) => Err(x),
                Ok(Some((table, field))) => Ok(
                    OperandView::Value(ThresholdView::Written { table, field, value: v }),
                ),
                Ok(None) => match v {
                    LiteralView::Int(n) => Ok(OperandView::Value(ThresholdView::Units(n as i128))),
                    _ => Err(refusal(Refused::Having, at)),
                },
            },
        },
    }
}

/// One side of a comparison.
fn side_operand(
    o: &HavingOperand,
    other: &HavingOperand,
    frame: Frame,
    measures: &Vec<(Measure, Of)>,
    at: usize,
) -> (r: Result<Operand>)
    requires
        frame.wf(),
    ensures
        match r {
            Ok(v) => operand(o@, other@, frame@, measured(measures@), at) == Ok::<
                _,
                SqlErrorView,
            >(v@),
            Err(e) => operand(o@, other@, frame@, measured(measures@), at) == Err::<
                OperandView,
                _,
            >(e@),
        },
{
    match o {
        HavingOperand::Agg(a) => {
            let of = number(a, measures, at)?;
            match having_field(frame, a, at)? {
                Some((table, field)) => Ok(
                    Operand::Of { of, units: Units::Written { table, field } },
                ),
                None => Ok(Operand::Of { of, units: Units::Digits(0) }),
            }
        },
        HavingOperand::Value(v) => match other {
            HavingOperand::Value(_) => Err(SqlError::Refused { what: Refused::Having, at }),
            HavingOperand::Agg(a) => match having_field(frame, a, at)? {
                Some((table, field)) => Ok(
                    Operand::Value(Threshold::Written { table, field, value: v.copied() }),
                ),
                None => match v {
                    Literal::Int(n) => Ok(Operand::Value(Threshold::Units(*n as i128))),
                    _ => Err(SqlError::Refused { what: Refused::Having, at }),
                },
            },
        },
    }
}

/// A `HAVING`, resolved against the numbers an answer holds.
pub open spec fn resolved(
    h: ast::HavingView,
    frame: FrameView,
    measures: Measures,
) -> core::result::Result<HavingView, SqlErrorView>
    decreases h,
{
    match h {
        ast::HavingView::And(a, b) => match resolved(*a, frame, measures) {
            Err(x) => Err(x),
            Ok(x) => match resolved(*b, frame, measures) {
                Err(x) => Err(x),
                Ok(y) => Ok(HavingView::And(Box::new(x), Box::new(y))),
            },
        },
        ast::HavingView::Or(a, b) => match resolved(*a, frame, measures) {
            Err(x) => Err(x),
            Ok(x) => match resolved(*b, frame, measures) {
                Err(x) => Err(x),
                Ok(y) => Ok(HavingView::Or(Box::new(x), Box::new(y))),
            },
        },
        ast::HavingView::Not(a) => match resolved(*a, frame, measures) {
            Err(x) => Err(x),
            Ok(x) => Ok(HavingView::Not(Box::new(x))),
        },
        ast::HavingView::Cmp { left, op, right, at } => match operand(
            left,
            right,
            frame,
            measures,
            at,
        ) {
            Err(x) => Err(x),
            Ok(l) => match operand(right, left, frame, measures, at) {
                Err(x) => Err(x),
                Ok(r) => Ok(HavingView::Cmp { left: l, op, right: r }),
            },
        },
    }
}

/// A `HAVING` tree, resolved against the numbers this answer actually holds.
pub fn having_tree(h: &ast::Having, frame: Frame, measures: &Vec<(Measure, Of)>) -> (r: Result<
    Having,
>)
    requires
        frame.wf(),
    ensures
        match r {
            Ok(v) => resolved(h@, frame@, measured(measures@)) == Ok::<_, SqlErrorView>(v@),
            Err(e) => resolved(h@, frame@, measured(measures@)) == Err::<HavingView, _>(e@),
        },
    decreases h,
{
    match h {
        ast::Having::And(a, b) => {
            let x = having_tree(&**a, frame, measures)?;
            let y = having_tree(&**b, frame, measures)?;
            Ok(Having::And(Box::new(x), Box::new(y)))
        },
        ast::Having::Or(a, b) => {
            let x = having_tree(&**a, frame, measures)?;
            let y = having_tree(&**b, frame, measures)?;
            Ok(Having::Or(Box::new(x), Box::new(y)))
        },
        ast::Having::Not(a) => {
            let x = having_tree(&**a, frame, measures)?;
            Ok(Having::Not(Box::new(x)))
        },
        ast::Having::Cmp { left, op, right, at } => {
            let l = side_operand(left, right, frame, measures, *at)?;
            let r = side_operand(right, left, frame, measures, *at)?;
            Ok(Having::Cmp { left: l, op: *op, right: r })
        },
    }
}

/// The `HAVING` of an answer, when the statement has one.
pub open spec fn having_resolved(
    h: Option<ast::HavingView>,
    frame: FrameView,
    measures: Measures,
) -> core::result::Result<Option<HavingView>, SqlErrorView> {
    match h {
        None => Ok(None),
        Some(h) => match resolved(h, frame, measures) {
            Err(x) => Err(x),
            Ok(v) => Ok(Some(v)),
        },
    }
}

/// The view of a clause that may be absent.
pub open spec fn opt_view<T: View>(v: Option<T>) -> Option<T::V> {
    match v {
        Some(v) => Some(v@),
        None => None,
    }
}

/// The `HAVING` of an answer, when the statement has one.
pub fn having_of(h: &Option<ast::Having>, frame: Frame, measures: &Vec<(Measure, Of)>) -> (r: Result<
    Option<Having>,
>)
    requires
        frame.wf(),
    ensures
        match r {
            Ok(v) => having_resolved(opt_view(*h), frame@, measured(measures@)) == Ok::<
                _,
                SqlErrorView,
            >(opt_view(v)),
            Err(e) => having_resolved(opt_view(*h), frame@, measured(measures@)) == Err::<
                Option<HavingView>,
                _,
            >(e@),
        },
{
    match h {
        None => Ok(None),
        Some(h) => Ok(Some(having_tree(h, frame, measures)?)),
    }
}

/// The number of the entry that answers under a name, from a position on. `n` is how many
/// numbers the entries before it have.
pub open spec fn aliased(
    items: Seq<ItemView>,
    measures: Measures,
    name: Seq<char>,
    k: int,
    n: int,
) -> Option<Of>
    decreases items.len() - k,
{
    if k < 0 || k >= items.len() {
        None
    } else if kind_of(items[k]) != Kind::Number {
        aliased(items, measures, name, k + 1, n)
    } else if n < 0 || n >= measures.len() {
        None
    } else if items[k].column() == name {
        Some(measures[n].1)
    } else {
        aliased(items, measures, name, k + 1, n + 1)
    }
}

/// The number of the entry that answers under a name.
pub fn find_alias(items: &Vec<Item>, measures: &Vec<(Measure, Of)>, name: &str) -> (r: Option<Of>)
    ensures
        r == aliased(views(items@), measured(measures@), name@, 0, 0),
{
    let mut k: usize = 0;
    let mut n: usize = 0;
    while k < items.len()
        invariant
            k <= items@.len(),
            n <= measures@.len(),
            aliased(views(items@), measured(measures@), name@, 0, 0) == aliased(
                views(items@),
                measured(measures@),
                name@,
                k as int,
                n as int,
            ),
        decreases items.len() - k,
    {
        assert(views(items@)[k as int] == items@[k as int]@);
        if kind(&items[k]) == Kind::Number {
            if n >= measures.len() {
                return None;
            }
            if same(items[k].column().as_str(), name) {
                return Some(measures[n].1);
            }
            n += 1;
        }
        k += 1;
    }
    None
}

/// What a cell holds for a group an aggregate said nothing about: a sum of nothing is zero, and
/// there is no least or greatest of nothing.
pub open spec fn absent_of(func: Agg) -> Absent {
    match func {
        Agg::Sum => Absent::Zero,
        Agg::Min => Absent::Null,
        Agg::Max => Absent::Null,
    }
}

/// What a cell holds for a group an aggregate said nothing about.
pub fn absent(func: Agg) -> (r: Absent)
    ensures
        r == absent_of(func),
{
    match func {
        Agg::Sum => Absent::Zero,
        Agg::Min => Absent::Null,
        Agg::Max => Absent::Null,
    }
}

} // verus!
