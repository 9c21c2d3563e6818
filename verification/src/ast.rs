//! The shape of an accepted statement, before it is asked whether it means anything.

use vstd::prelude::*;
use crate::parse::delete::assigned;
use crate::civil::Unit;
use crate::pql::{copy_literals, same_literals, Literal, LiteralView};
use crate::scalar::{Scalar, ScalarView};
use crate::shape::{Format, WinFunc, WinFuncView};
use crate::text::{copy_all, copy_opt, copy_plain, copy_some, opt_text, same, same_opt, views, wrapped};

verus! {

/// A copy of some assignments.
pub fn copy_assignments(v: &Vec<(String, Literal)>) -> (r: Vec<(String, Literal)>)
    ensures
        assigned(r@) == assigned(v@),
{
    let mut out: Vec<(String, Literal)> = Vec::new();
    let mut k: usize = 0;
    while k < v.len()
        invariant
            k <= v@.len(),
            out@.len() == k,
            forall|j: int| 0 <= j < k ==> assigned(out@)[j] == #[trigger] assigned(v@)[j],
        decreases v.len() - k,
    {
        let one = (v[k].0.clone(), v[k].1.clone());
        let ghost before = assigned(out@);
        out.push(one);
        assert(assigned(out@) =~= before.push((one.0@, one.1@)));
        k += 1;
    }
    assert(assigned(out@) =~= assigned(v@));
    out
}

/// What some columns and their directions hold.
pub open spec fn directed(v: Seq<(Name, bool)>) -> Seq<(NameView, bool)> {
    v.map_values(|v: (Name, bool)| (v.0@, v.1))
}

/// A copy of some columns and their directions.
fn copy_orders(v: &Vec<(Name, bool)>) -> (r: Vec<(Name, bool)>)
    ensures
        directed(r@) == directed(v@),
{
    let mut out: Vec<(Name, bool)> = Vec::new();
    let mut k: usize = 0;
    while k < v.len()
        invariant
            k <= v@.len(),
            out@.len() == k,
            forall|j: int| 0 <= j < k ==> directed(out@)[j] == #[trigger] directed(v@)[j],
        decreases v.len() - k,
    {
        let one = (v[k].0.clone(), v[k].1);
        let ghost before = directed(out@);
        out.push(one);
        assert(directed(out@) =~= before.push((one.0@, one.1)));
        k += 1;
    }
    assert(directed(out@) =~= directed(v@));
    out
}

/// What some sets hold.
pub open spec fn listed_sets(v: Seq<Vec<usize>>) -> Seq<Seq<usize>> {
    v.map_values(|v: Vec<usize>| v@)
}

/// A copy of some sets.
fn copy_sets(v: &Vec<Vec<usize>>) -> (r: Vec<Vec<usize>>)
    ensures
        listed_sets(r@) == listed_sets(v@),
{
    let mut out: Vec<Vec<usize>> = Vec::new();
    let mut k: usize = 0;
    while k < v.len()
        invariant
            k <= v@.len(),
            out@.len() == k,
            forall|j: int| 0 <= j < k ==> (#[trigger] out@[j])@ == v@[j]@,
        decreases v.len() - k,
    {
        out.push(copy_plain(&v[k]));
        k += 1;
    }
    assert(listed_sets(out@) =~= listed_sets(v@));
    out
}

/// A column, and the table it was written against.
#[derive(PartialEq, Eq, Debug)]
pub struct Name {
    /// `a` in `a.amount`, which is a table name or an alias for one.
    pub qualifier: Option<String>,
    /// The column.
    pub column: String,
}

/// What a [`Name`] holds.
#[verifier::ext_equal]
pub struct NameView {
    pub qualifier: Option<Seq<char>>,
    pub column: Seq<char>,
}

impl View for Name {
    type V = NameView;

    open spec fn view(&self) -> NameView {
        NameView {
            qualifier: opt_text(self.qualifier),
            column: self.column@,
        }
    }
}

impl Clone for Name {
    fn clone(&self) -> (r: Name)
        ensures
            r@ == self@,
    {
        self.copied()
    }
}

impl Name {
    /// A copy.
    pub fn copied(&self) -> (r: Name)
        ensures
            r@ == self@,
    {
        Name {
            qualifier: match &self.qualifier { Some(v) => Some(v.clone()), None => None },
            column: self.column.clone(),
        }
    }

    /// Whether two are the same.
    pub fn same(&self, other: &Name) -> (r: bool)
        ensures
            r == (self@ == other@),
    {
        same_opt(&self.qualifier, &other.qualifier) && same(self.column.as_str(), other.column.as_str())
    }
}

impl Name {
    /// An unqualified name, which is every name in a statement with one table.
    pub fn bare(column: String) -> (r: Name)
        ensures
            r@ == (NameView { qualifier: None, column: column@ }),
    {
        Name { qualifier: None, column }
    }

    /// The name as it was written.
    pub open spec fn written(&self) -> Seq<char> {
        match self.qualifier {
            Some(q) => q@ + "."@ + self.column@,
            None => self.column@,
        }
    }

    /// The name as it was written.
    pub fn text(&self) -> (r: String)
        ensures
            r@ == self.written(),
    {
        match &self.qualifier {
            Some(q) => wrapped(q.as_str(), ".", self.column.as_str()),
            None => self.column.clone(),
        }
    }
}

/// One table in `FROM`, under the name the rest of the statement calls it by.
#[derive(PartialEq, Eq, Debug)]
pub struct Source {
    /// `sales` in `FROM sales.orders`.
    pub database: Option<String>,
    /// The table.
    pub table: String,
    /// What `AS` called it.
    pub alias: Option<String>,
}

/// What a [`Source`] holds.
#[verifier::ext_equal]
pub struct SourceView {
    pub database: Option<Seq<char>>,
    pub table: Seq<char>,
    pub alias: Option<Seq<char>>,
}

impl View for Source {
    type V = SourceView;

    open spec fn view(&self) -> SourceView {
        SourceView {
            database: opt_text(self.database),
            table: self.table@,
            alias: opt_text(self.alias),
        }
    }
}

impl Clone for Source {
    fn clone(&self) -> (r: Source)
        ensures
            r@ == self@,
    {
        self.copied()
    }
}

impl Source {
    /// A copy.
    pub fn copied(&self) -> (r: Source)
        ensures
            r@ == self@,
    {
        Source {
            database: match &self.database { Some(v) => Some(v.clone()), None => None },
            table: self.table.clone(),
            alias: match &self.alias { Some(v) => Some(v.clone()), None => None },
        }
    }

    /// Whether two are the same.
    pub fn same(&self, other: &Source) -> (r: bool)
        ensures
            r == (self@ == other@),
    {
        same_opt(&self.database, &other.database) && same(self.table.as_str(), other.table.as_str())
            && same_opt(&self.alias, &other.alias)
    }
}

impl SourceView {
    /// What the rest of the statement calls the table.
    pub open spec fn label(self) -> Seq<char> {
        match self.alias {
            Some(a) => a,
            None => self.table,
        }
    }

    /// The table with the database it was written in.
    pub open spec fn qualified(self) -> Seq<char> {
        match self.database {
            Some(d) => d + "."@ + self.table,
            None => self.table,
        }
    }
}

impl Source {
    /// What the rest of the statement calls the table.
    pub fn label(&self) -> (r: &str)
        ensures
            r@ == self@.label(),
    {
        match &self.alias {
            Some(a) => a.as_str(),
            None => self.table.as_str(),
        }
    }

    /// The table with the database it was written in.
    pub fn qualified(&self) -> (r: String)
        ensures
            r@ == self@.qualified(),
    {
        match &self.database {
            Some(d) => wrapped(d.as_str(), ".", self.table.as_str()),
            None => self.table.clone(),
        }
    }
}

/// One `JOIN`.
#[derive(PartialEq, Eq, Debug)]
pub struct Join {
    /// Which sides have to hold the key.
    pub kind: JoinKind,
    /// The table it brings in.
    pub source: Source,
    /// One side of the `ON`.
    pub left: Name,
    /// The other.
    pub right: Name,
    /// Byte offset, for the refusal.
    pub at: usize,
}

/// What a [`Join`] holds.
#[verifier::ext_equal]
pub struct JoinView {
    pub kind: JoinKind,
    pub source: SourceView,
    pub left: NameView,
    pub right: NameView,
    pub at: usize,
}

impl View for Join {
    type V = JoinView;

    open spec fn view(&self) -> JoinView {
        JoinView {
            kind: self.kind,
            source: self.source@,
            left: self.left@,
            right: self.right@,
            at: self.at,
        }
    }
}

impl Clone for Join {
    fn clone(&self) -> (r: Join)
        ensures
            r@ == self@,
    {
        Join {
            kind: self.kind,
            source: self.source.clone(),
            left: self.left.clone(),
            right: self.right.clone(),
            at: self.at,
        }
    }
}

/// Which sides of a join have to hold the key.
#[derive(Clone, Copy, PartialEq, Eq, Debug, Structural)]
pub enum JoinKind {
    Inner,
    Left,
    Right,
    Full,
}

/// A statement that reads: one `SELECT`, or several stacked by `UNION ALL`.
#[derive(PartialEq, Eq, Debug)]
pub struct Query {
    /// In the order written.
    pub branches: Vec<Select>,
}

/// What a [`Query`] holds.
#[verifier::ext_equal]
pub struct QueryView {
    pub branches: Seq<SelectView>,
}

impl View for Query {
    type V = QueryView;

    open spec fn view(&self) -> QueryView {
        QueryView {
            branches: views(self.branches@),
        }
    }
}

impl Clone for Query {
    fn clone(&self) -> (r: Query)
        ensures
            r@ == self@,
    {
        Query {
            branches: copy_all(&self.branches),
        }
    }
}

/// Which half of an explanation was asked for.
#[derive(Clone, Copy, PartialEq, Eq, Debug, Structural)]
pub enum ExplainMode {
    /// `EXPLAIN <statement>`: everything there is to say about it.
    All,
    /// `EXPLAIN PLAN <select>`: the plan tree per call, and nothing about the answer.
    Plan,
    /// `EXPLAIN SHAPE <select>`: the answer's columns and clauses, and no plans.
    Shape,
}

impl Default for ExplainMode {
    fn default() -> (r: ExplainMode)
        ensures
            r == ExplainMode::All,
    {
        ExplainMode::All
    }
}

/// One accepted `SELECT`.
#[derive(PartialEq, Eq, Debug)]
pub struct Select {
    /// The select list, in the order written.
    pub items: Vec<Item>,
    /// The table named in `FROM`.
    pub from: Source,
    /// `JOIN`, one per table past the first.
    pub joins: Vec<Join>,
    /// `SAMPLE`: one record in every `n`, absent for all of them.
    pub sample: Option<u32>,
    /// `WHERE`, absent when every record is in play.
    pub filter: Option<Cond>,
    /// `GROUP BY`: the columns, and the boundary each is rounded to.
    pub group_by: Vec<Grouping>,
    /// Which combinations of the grouped columns the answer has a row for.
    pub grouping_sets: Option<GroupingSets>,
    /// `HAVING`, absent when every group is kept.
    pub having: Option<Having>,
    /// `ORDER BY`, at most one key.
    pub order_by: Option<Order>,
    /// `LIMIT`.
    pub limit: Option<u64>,
    /// `WITH TIES` after `LIMIT`.
    pub with_ties: bool,
    /// `OFFSET`.
    pub offset: Option<u64>,
    /// `FORMAT`, which says how the answer is written.
    pub format: Format,
}

/// What a [`Select`] holds.
#[verifier::ext_equal]
pub struct SelectView {
    pub items: Seq<ItemView>,
    pub from: SourceView,
    pub joins: Seq<JoinView>,
    pub sample: Option<u32>,
    pub filter: Option<CondView>,
    pub group_by: Seq<GroupingView>,
    pub grouping_sets: Option<GroupingSetsView>,
    pub having: Option<HavingView>,
    pub order_by: Option<OrderView>,
    pub limit: Option<u64>,
    pub with_ties: bool,
    pub offset: Option<u64>,
    pub format: Format,
}

impl View for Select {
    type V = SelectView;

    open spec fn view(&self) -> SelectView {
        SelectView {
            items: views(self.items@),
            from: self.from@,
            joins: views(self.joins@),
            sample: self.sample,
            filter: match self.filter { Some(v) => Some(v@), None => None },
            group_by: views(self.group_by@),
            grouping_sets: match self.grouping_sets { Some(v) => Some(v@), None => None },
            having: match self.having { Some(v) => Some(v@), None => None },
            order_by: match self.order_by { Some(v) => Some(v@), None => None },
            limit: self.limit,
            with_ties: self.with_ties,
            offset: self.offset,
            format: self.format,
        }
    }
}

impl Clone for Select {
    fn clone(&self) -> (r: Select)
        ensures
            r@ == self@,
    {
        Select {
            items: copy_all(&self.items),
            from: self.from.clone(),
            joins: copy_all(&self.joins),
            sample: self.sample,
            filter: copy_some(&self.filter),
            group_by: copy_all(&self.group_by),
            grouping_sets: copy_some(&self.grouping_sets),
            having: copy_some(&self.having),
            order_by: copy_some(&self.order_by),
            limit: self.limit,
            with_ties: self.with_ties,
            offset: self.offset,
            format: self.format,
        }
    }
}

/// A window function and the rows it sees.
#[derive(PartialEq, Eq, Debug)]
pub struct Over {
    /// Which function.
    pub func: WinFunc,
    /// The column it reads.
    pub arg: Option<Name>,
    /// `lag(x, 2)`. One where none was written.
    pub offset: u32,
    /// `PARTITION BY`.
    pub partition: Vec<Name>,
    /// The window's own `ORDER BY`: the column and whether it descends.
    pub order: Vec<(Name, bool)>,
    /// Byte offset of the entry.
    pub at: usize,
}

/// What a [`Over`] holds.
#[verifier::ext_equal]
pub struct OverView {
    pub func: WinFuncView,
    pub arg: Option<NameView>,
    pub offset: u32,
    pub partition: Seq<NameView>,
    pub order: Seq<(NameView, bool)>,
    pub at: usize,
}

impl View for Over {
    type V = OverView;

    open spec fn view(&self) -> OverView {
        OverView {
            func: self.func@,
            arg: match self.arg { Some(v) => Some(v@), None => None },
            offset: self.offset,
            partition: views(self.partition@),
            order: self.order@.map_values(|v: (Name, bool)| (v.0@, v.1)),
            at: self.at,
        }
    }
}

impl Clone for Over {
    fn clone(&self) -> (r: Over)
        ensures
            r@ == self@,
    {
        Over {
            func: self.func.clone(),
            arg: copy_some(&self.arg),
            offset: self.offset,
            partition: copy_all(&self.partition),
            order: copy_orders(&self.order),
            at: self.at,
        }
    }
}

impl Over {
    /// Whether two are the same.
    pub fn same(&self, other: &Over) -> (r: bool)
        ensures
            r == (self@ == other@),
    {
        if !self.func.same(&other.func) || self.offset != other.offset || self.at != other.at {
            return false;
        }
        let arg = match (&self.arg, &other.arg) {
            (Some(a), Some(b)) => a.same(b),
            (None, None) => true,
            _ => false,
        };
        if !arg || self.partition.len() != other.partition.len() || self.order.len()
            != other.order.len() {
            assert(self@.partition.len() == self.partition@.len());
            assert(other@.partition.len() == other.partition@.len());
            assert(self@.order.len() == self.order@.len());
            assert(other@.order.len() == other.order@.len());
            return false;
        }
        let mut i: usize = 0;
        while i < self.partition.len()
            invariant
                i <= self.partition.len(),
                self.partition.len() == other.partition.len(),
                forall|j: int|
                    0 <= j < i ==> (#[trigger] self.partition@[j])@ == other.partition@[j]@,
            decreases self.partition.len() - i,
        {
            if !self.partition[i].same(&other.partition[i]) {
                assert(self@.partition[i as int] != other@.partition[i as int]);
                return false;
            }
            i += 1;
        }
        assert(self@.partition =~= other@.partition);
        let mut k: usize = 0;
        while k < self.order.len()
            invariant
                k <= self.order.len(),
                self.order.len() == other.order.len(),
                forall|j: int|
                    0 <= j < k ==> (#[trigger] self.order@[j]).0@ == other.order@[j].0@
                        && self.order@[j].1 == other.order@[j].1,
            decreases self.order.len() - k,
        {
            let a = &self.order[k];
            let b = &other.order[k];
            if a.1 != b.1 || !a.0.same(&b.0) {
                assert(self@.order[k as int] != other@.order[k as int]);
                return false;
            }
            k += 1;
        }
        assert(self@.order =~= other@.order);
        true
    }
}

/// One entry in the select list, with the name its column will carry.
#[derive(PartialEq, Eq, Debug)]
pub struct Item {
    /// What is asked for.
    pub proj: Proj,
    /// `FILTER (WHERE ...)`, or the condition an `-If` suffix gave.
    pub filter: Option<Cond>,
    /// What `AS` called it.
    pub alias: Option<String>,
    /// Byte offset, for the refusals.
    pub at: usize,
}

/// What a [`Item`] holds.
#[verifier::ext_equal]
pub struct ItemView {
    pub proj: ProjView,
    pub filter: Option<CondView>,
    pub alias: Option<Seq<char>>,
    pub at: usize,
}

impl View for Item {
    type V = ItemView;

    open spec fn view(&self) -> ItemView {
        ItemView {
            proj: self.proj@,
            filter: match self.filter { Some(v) => Some(v@), None => None },
            alias: opt_text(self.alias),
            at: self.at,
        }
    }
}

impl Clone for Item {
    fn clone(&self) -> (r: Item)
        ensures
            r@ == self@,
    {
        Item {
            proj: self.proj.clone(),
            filter: copy_some(&self.filter),
            alias: copy_opt(&self.alias),
            at: self.at,
        }
    }
}

impl ItemView {
    /// The entry without the expression around it.
    pub open spec fn leaf(self) -> ProjView {
        match self.proj {
            ProjView::Scalar { inner, .. } => *inner,
            other => other,
        }
    }

    /// The expression around the entry.
    pub open spec fn apply(self) -> Option<ScalarView> {
        match self.proj {
            ProjView::Scalar { expr, .. } => Some(expr),
            _ => None,
        }
    }

    /// The name the entry's column carries.
    pub open spec fn column(self) -> Seq<char> {
        match self.alias {
            Some(a) => a,
            None => match self.proj {
                ProjView::Star => "_record_id"@,
                ProjView::Column(c) => c.column,
                ProjView::Scalar { written, .. } => written,
                ProjView::Count => "count"@,
                ProjView::CountDistinct(_) => "count"@,
                ProjView::Agg { func, .. } => func.spelled(),
                ProjView::Avg(_) => "avg"@,
                ProjView::TopKeys { .. } => "topK"@,
                ProjView::Quantile { .. } => "quantile"@,
                ProjView::Now { .. } => "now()"@,
                ProjView::Window(w) => w.func.named,
            },
        }
    }
}

impl Item {
    /// The entry without the expression around it.
    pub fn leaf(&self) -> (r: &Proj)
        ensures
            r@ == self@.leaf(),
    {
        match &self.proj {
            Proj::Scalar { inner, .. } => &**inner,
            other => other,
        }
    }

    /// The expression around the entry.
    pub fn apply(&self) -> (r: Option<&Scalar>)
        ensures
            match r {
                Some(x) => self@.apply() == Some(x@),
                None => self@.apply() is None,
            },
    {
        match &self.proj {
            Proj::Scalar { expr, .. } => Some(expr),
            _ => None,
        }
    }

    /// The name the entry's column carries.
    pub fn column(&self) -> (r: String)
        ensures
            r@ == self@.column(),
    {
        match &self.alias {
            Some(a) => a.clone(),
            None => match &self.proj {
                Proj::Star => str::to_owned("_record_id"),
                Proj::Column(c) => c.column.clone(),
                Proj::Scalar { written, .. } => written.clone(),
                Proj::Count => str::to_owned("count"),
                Proj::CountDistinct(_) => str::to_owned("count"),
                Proj::Agg { func, .. } => str::to_owned(func.name()),
                Proj::Avg(_) => str::to_owned("avg"),
                Proj::TopKeys { .. } => str::to_owned("topK"),
                Proj::Quantile { .. } => str::to_owned("quantile"),
                Proj::Now { .. } => str::to_owned("now()"),
                Proj::Window(w) => str::to_owned(w.func.name()),
            },
        }
    }
}

/// What one entry of the select list asks for.
#[derive(PartialEq, Eq, Debug)]
pub enum Proj {
    /// A window function.
    Window(Box<Over>),
    /// `*`.
    Star,
    /// A bare column.
    Column(Name),
    /// `now()` alone.
    Now { unix_seconds: i64 },
    /// An expression over one of the others, and the text it was written as.
    Scalar { inner: Box<Proj>, expr: Scalar, written: String },
    /// `count(*)`.
    Count,
    /// `count(DISTINCT x)`.
    CountDistinct(Name),
    /// `sum(x)`, `min(x)`, `max(x)`.
    Agg { func: Agg, field: Name },
    /// `avg(x)`.
    Avg(Name),
    /// A quantile, in parts per thousand.
    Quantile { per_mille: u32, field: Name },
    /// `topK(n)(x)`.
    TopKeys { n: u64, field: Name },
}

/// What a [`Proj`] holds.
#[verifier::ext_equal]
pub enum ProjView {
    Window(Box<OverView>),
    Star,
    Column(NameView),
    Now { unix_seconds: i64 },
    Scalar { inner: Box<ProjView>, expr: ScalarView, written: Seq<char> },
    Count,
    CountDistinct(NameView),
    Agg { func: Agg, field: NameView },
    Avg(NameView),
    Quantile { per_mille: u32, field: NameView },
    TopKeys { n: u64, field: NameView },
}

impl View for Proj {
    type V = ProjView;

    open spec fn view(&self) -> ProjView
        decreases self,
    {
        match *self {
            Proj::Window(a) => ProjView::Window(Box::new((*a)@)),
            Proj::Star => ProjView::Star,
            Proj::Column(a) => ProjView::Column(a@),
            Proj::Now { unix_seconds } => ProjView::Now { unix_seconds },
            Proj::Scalar { inner, expr, written } => ProjView::Scalar { inner: Box::new((*inner)@), expr: expr@, written: written@ },
            Proj::Count => ProjView::Count,
            Proj::CountDistinct(a) => ProjView::CountDistinct(a@),
            Proj::Agg { func, field } => ProjView::Agg { func, field: field@ },
            Proj::Avg(a) => ProjView::Avg(a@),
            Proj::Quantile { per_mille, field } => ProjView::Quantile { per_mille, field: field@ },
            Proj::TopKeys { n, field } => ProjView::TopKeys { n, field: field@ },
        }
    }
}

impl Clone for Proj {
    fn clone(&self) -> (r: Proj)
        ensures
            r@ == self@,
        decreases self,
    {
        match self {
            Proj::Window(a) => Proj::Window(Box::new((**a).clone())),
            Proj::Star => Proj::Star,
            Proj::Column(a) => Proj::Column(a.clone()),
            Proj::Now { unix_seconds } => Proj::Now {
                unix_seconds: *unix_seconds,
            },
            Proj::Scalar { inner, expr, written } => Proj::Scalar {
                inner: Box::new((**inner).clone()),
                expr: expr.clone(),
                written: written.clone(),
            },
            Proj::Count => Proj::Count,
            Proj::CountDistinct(a) => Proj::CountDistinct(a.clone()),
            Proj::Agg { func, field } => Proj::Agg {
                func: *func,
                field: field.clone(),
            },
            Proj::Avg(a) => Proj::Avg(a.clone()),
            Proj::Quantile { per_mille, field } => Proj::Quantile {
                per_mille: *per_mille,
                field: field.clone(),
            },
            Proj::TopKeys { n, field } => Proj::TopKeys {
                n: *n,
                field: field.clone(),
            },
        }
    }
}

impl Proj {

    /// Whether two are the same.
    pub fn same(&self, other: &Proj) -> (r: bool)
        ensures
            r == (self@ == other@),
        decreases self,
    {
        match (self, other) {
            (Proj::Window(x_a), Proj::Window(y_a)) => (**x_a).same(&**y_a),
            (Proj::Star, Proj::Star) => true,
            (Proj::Column(x_a), Proj::Column(y_a)) => x_a.same(y_a),
            (Proj::Now { unix_seconds: x_unix_seconds }, Proj::Now { unix_seconds: y_unix_seconds }) => *x_unix_seconds == *y_unix_seconds,
            (Proj::Scalar { inner: x_inner, expr: x_expr, written: x_written }, Proj::Scalar { inner: y_inner, expr: y_expr, written: y_written }) => (**x_inner).same(&**y_inner) && x_expr.same(y_expr) && same(x_written.as_str(), y_written.as_str()),
            (Proj::Count, Proj::Count) => true,
            (Proj::CountDistinct(x_a), Proj::CountDistinct(y_a)) => x_a.same(y_a),
            (Proj::Agg { func: x_func, field: x_field }, Proj::Agg { func: y_func, field: y_field }) => *x_func == *y_func && x_field.same(y_field),
            (Proj::Avg(x_a), Proj::Avg(y_a)) => x_a.same(y_a),
            (Proj::Quantile { per_mille: x_per_mille, field: x_field }, Proj::Quantile { per_mille: y_per_mille, field: y_field }) => *x_per_mille == *y_per_mille && x_field.same(y_field),
            (Proj::TopKeys { n: x_n, field: x_field }, Proj::TopKeys { n: y_n, field: y_field }) => *x_n == *y_n && x_field.same(y_field),
            _ => false,
        }
    }
}

/// The aggregates that fold one column to one of its own values.
#[derive(Clone, Copy, PartialEq, Eq, Debug, Structural)]
pub enum Agg {
    Sum,
    Min,
    Max,
}

impl Agg {
    /// The name a statement spells it with.
    pub open spec fn spelled(self) -> Seq<char> {
        match self {
            Agg::Sum => "sum"@,
            Agg::Min => "min"@,
            Agg::Max => "max"@,
        }
    }

    /// The call that answers it.
    pub open spec fn called(self) -> Seq<char> {
        match self {
            Agg::Sum => "Sum"@,
            Agg::Min => "Min"@,
            Agg::Max => "Max"@,
        }
    }

    /// The name a statement spells it with.
    pub fn name(self) -> (r: &'static str)
        ensures
            r@ == self.spelled(),
    {
        match self {
            Agg::Sum => "sum",
            Agg::Min => "min",
            Agg::Max => "max",
        }
    }

    /// The call that answers it.
    pub fn call(self) -> (r: &'static str)
        ensures
            r@ == self.called(),
    {
        match self {
            Agg::Sum => "Sum",
            Agg::Min => "Min",
            Agg::Max => "Max",
        }
    }
}

/// A `HAVING` clause: comparisons over aggregates, and how they are combined.
#[derive(PartialEq, Eq, Debug)]
pub enum Having {
    And(Box<Having>, Box<Having>),
    Or(Box<Having>, Box<Having>),
    Not(Box<Having>),
    /// `<operand> <op> <operand>`.
    Cmp { left: HavingOperand, op: &'static str, right: HavingOperand, at: usize },
}

/// What a [`Having`] holds.
#[verifier::ext_equal]
pub enum HavingView {
    And(Box<HavingView>, Box<HavingView>),
    Or(Box<HavingView>, Box<HavingView>),
    Not(Box<HavingView>),
    Cmp { left: HavingOperandView, op: Seq<char>, right: HavingOperandView, at: usize },
}

impl View for Having {
    type V = HavingView;

    open spec fn view(&self) -> HavingView
        decreases self,
    {
        match *self {
            Having::And(a, b) => HavingView::And(Box::new((*a)@), Box::new((*b)@)),
            Having::Or(a, b) => HavingView::Or(Box::new((*a)@), Box::new((*b)@)),
            Having::Not(a) => HavingView::Not(Box::new((*a)@)),
            Having::Cmp { left, op, right, at } => HavingView::Cmp { left: left@, op: op@, right: right@, at },
        }
    }
}

impl Clone for Having {
    fn clone(&self) -> (r: Having)
        ensures
            r@ == self@,
        decreases self,
    {
        match self {
            Having::And(a, b) => Having::And(Box::new((**a).clone()), Box::new((**b).clone())),
            Having::Or(a, b) => Having::Or(Box::new((**a).clone()), Box::new((**b).clone())),
            Having::Not(a) => Having::Not(Box::new((**a).clone())),
            Having::Cmp { left, op, right, at } => Having::Cmp {
                left: left.clone(),
                op: *op,
                right: right.clone(),
                at: *at,
            },
        }
    }
}

impl HavingView {
    /// Where the clause begins.
    pub open spec fn at(self) -> usize
        decreases self,
    {
        match self {
            HavingView::And(a, _) => (*a).at(),
            HavingView::Or(a, _) => (*a).at(),
            HavingView::Not(a) => (*a).at(),
            HavingView::Cmp { at, .. } => at,
        }
    }

    /// Every aggregate the clause names, in the order written.
    pub open spec fn aggregates(self) -> Seq<HavingAggView>
        decreases self,
    {
        match self {
            HavingView::And(a, b) => (*a).aggregates() + (*b).aggregates(),
            HavingView::Or(a, b) => (*a).aggregates() + (*b).aggregates(),
            HavingView::Not(a) => (*a).aggregates(),
            HavingView::Cmp { left, right, .. } => left.aggregate() + right.aggregate(),
        }
    }
}

impl HavingOperandView {
    /// The aggregate this side is, if it is one.
    pub open spec fn aggregate(self) -> Seq<HavingAggView> {
        match self {
            HavingOperandView::Agg(a) => seq![a],
            HavingOperandView::Value(_) => Seq::empty(),
        }
    }
}

impl Having {
    /// Where the clause begins.
    pub fn at(&self) -> (r: usize)
        ensures
            r == self@.at(),
        decreases self,
    {
        match self {
            Having::And(a, _) => (**a).at(),
            Having::Or(a, _) => (**a).at(),
            Having::Not(a) => (**a).at(),
            Having::Cmp { at, .. } => *at,
        }
    }

    /// Every aggregate the clause names, in the order written.
    pub fn aggregates(&self) -> (r: Vec<&HavingAgg>)
        ensures
            r@.map_values(|a: &HavingAgg| a@) == self@.aggregates(),
    {
        let mut out: Vec<&HavingAgg> = Vec::new();
        self.walk(&mut out);
        assert(out@.map_values(|a: &HavingAgg| a@) =~= self@.aggregates());
        out
    }

    fn walk<'a>(&'a self, out: &mut Vec<&'a HavingAgg>)
        ensures
            final(out)@.map_values(|a: &HavingAgg| a@) == old(out)@.map_values(
                |a: &HavingAgg| a@,
            ) + self@.aggregates(),
        decreases self,
    {
        let ghost was = out@.map_values(|a: &HavingAgg| a@);
        match self {
            Having::And(a, b) => {
                (**a).walk(out);
                (**b).walk(out);
            },
            Having::Or(a, b) => {
                (**a).walk(out);
                (**b).walk(out);
            },
            Having::Not(a) => {
                (**a).walk(out);
            },
            Having::Cmp { left, right, .. } => {
                if let HavingOperand::Agg(a) = left {
                    out.push(a);
                }
                if let HavingOperand::Agg(a) = right {
                    out.push(a);
                }
            },
        }
        assert(out@.map_values(|a: &HavingAgg| a@) =~= was + self@.aggregates());
    }
}

/// One side of a `HAVING` comparison.
#[derive(PartialEq, Eq, Debug)]
pub enum HavingOperand {
    /// A number of the answer.
    Agg(HavingAgg),
    /// A value, in written units.
    Value(Literal),
}

/// What a [`HavingOperand`] holds.
#[verifier::ext_equal]
pub enum HavingOperandView {
    Agg(HavingAggView),
    Value(LiteralView),
}

impl View for HavingOperand {
    type V = HavingOperandView;

    open spec fn view(&self) -> HavingOperandView {
        match *self {
            HavingOperand::Agg(a) => HavingOperandView::Agg(a@),
            HavingOperand::Value(a) => HavingOperandView::Value(a@),
        }
    }
}

impl Clone for HavingOperand {
    fn clone(&self) -> (r: HavingOperand)
        ensures
            r@ == self@,
    {
        match self {
            HavingOperand::Agg(a) => HavingOperand::Agg(a.clone()),
            HavingOperand::Value(a) => HavingOperand::Value(a.clone()),
        }
    }
}

/// Which of a grouped answer's numbers a `HAVING` names.
#[derive(PartialEq, Eq, Debug)]
pub enum HavingAgg {
    /// `count(*)`.
    Count,
    /// `sum(f)`, `min(f)`, `max(f)`.
    Agg { func: Agg, field: Name },
    /// `avg(f)`.
    Avg(Name),
}

/// What a [`HavingAgg`] holds.
#[verifier::ext_equal]
pub enum HavingAggView {
    Count,
    Agg { func: Agg, field: NameView },
    Avg(NameView),
}

impl View for HavingAgg {
    type V = HavingAggView;

    open spec fn view(&self) -> HavingAggView {
        match *self {
            HavingAgg::Count => HavingAggView::Count,
            HavingAgg::Agg { func, field } => HavingAggView::Agg { func, field: field@ },
            HavingAgg::Avg(a) => HavingAggView::Avg(a@),
        }
    }
}

impl Clone for HavingAgg {
    fn clone(&self) -> (r: HavingAgg)
        ensures
            r@ == self@,
    {
        self.copied()
    }
}

impl HavingAgg {
    /// A copy.
    pub fn copied(&self) -> (r: HavingAgg)
        ensures
            r@ == self@,
    {
        match self {
            HavingAgg::Count => HavingAgg::Count,
            HavingAgg::Agg { func, field } => HavingAgg::Agg { func: *func, field: field.copied() },
            HavingAgg::Avg(a) => HavingAgg::Avg(a.copied()),
        }
    }
}

/// `ORDER BY <key> [ASC|DESC]`.
#[derive(PartialEq, Eq, Debug)]
pub struct Order {
    /// What is being ordered by.
    pub key: OrderKey,
    /// `DESC` was written.
    pub desc: bool,
    /// Byte offset, for the refusal.
    pub at: usize,
}

/// What a [`Order`] holds.
#[verifier::ext_equal]
pub struct OrderView {
    pub key: OrderKeyView,
    pub desc: bool,
    pub at: usize,
}

impl View for Order {
    type V = OrderView;

    open spec fn view(&self) -> OrderView {
        OrderView {
            key: self.key@,
            desc: self.desc,
            at: self.at,
        }
    }
}

impl Clone for Order {
    fn clone(&self) -> (r: Order)
        ensures
            r@ == self@,
    {
        Order {
            key: self.key.clone(),
            desc: self.desc,
            at: self.at,
        }
    }
}

/// What an `ORDER BY` names.
#[derive(PartialEq, Eq, Debug)]
pub enum OrderKey {
    /// `count(*)` written out.
    Count,
    /// `sum(f)`, `min(f)` or `max(f)` written out.
    Agg { func: Agg, field: Name },
    /// `avg(f)` written out.
    Avg(Name),
    /// A name: a column or an alias from the select list.
    Name(Name),
}

/// What a [`OrderKey`] holds.
#[verifier::ext_equal]
pub enum OrderKeyView {
    Count,
    Agg { func: Agg, field: NameView },
    Avg(NameView),
    Name(NameView),
}

impl View for OrderKey {
    type V = OrderKeyView;

    open spec fn view(&self) -> OrderKeyView {
        match *self {
            OrderKey::Count => OrderKeyView::Count,
            OrderKey::Agg { func, field } => OrderKeyView::Agg { func, field: field@ },
            OrderKey::Avg(a) => OrderKeyView::Avg(a@),
            OrderKey::Name(a) => OrderKeyView::Name(a@),
        }
    }
}

impl Clone for OrderKey {
    fn clone(&self) -> (r: OrderKey)
        ensures
            r@ == self@,
    {
        match self {
            OrderKey::Count => OrderKey::Count,
            OrderKey::Agg { func, field } => OrderKey::Agg {
                func: *func,
                field: field.clone(),
            },
            OrderKey::Avg(a) => OrderKey::Avg(a.clone()),
            OrderKey::Name(a) => OrderKey::Name(a.clone()),
        }
    }
}

/// A `WHERE` clause, as a tree of set operations over one table.
#[derive(PartialEq, Eq, Debug)]
pub enum Cond {
    /// `a AND b`
    And(Box<Cond>, Box<Cond>),
    /// `a OR b`
    Or(Box<Cond>, Box<Cond>),
    /// `NOT a`
    Not(Box<Cond>),
    /// `<column> <op> <value>`
    Cmp { field: Name, op: &'static str, value: Literal },
    /// `<column> IN (<value>, ...)`
    In { field: Name, values: Vec<Literal> },
    /// `SEGMENT(<view>)`: a named set of records, used as a term.
    Segment { view: Source, at: usize },
    /// `<column> IN (SELECT _record_id FROM <table> [WHERE ...])`
    InRecords { field: Name, table: Source, filter: Option<Box<Cond>>, at: usize },
    /// `<column> LIKE '<pattern>'`, and `ILIKE` for the folded one.
    Like { field: Name, pattern: String, fold: bool },
    /// `<column> BETWEEN <low> AND <high>`, inclusive at both ends.
    Between { field: Name, low: Literal, high: Literal },
    /// `round(<column>, <digits>) <op> <value>`, and `floor`/`ceil`.
    Rounded { field: Name, round: Rounding, op: &'static str, value: Literal },
}

/// What a [`Cond`] holds.
#[verifier::ext_equal]
pub enum CondView {
    And(Box<CondView>, Box<CondView>),
    Or(Box<CondView>, Box<CondView>),
    Not(Box<CondView>),
    Cmp { field: NameView, op: Seq<char>, value: LiteralView },
    In { field: NameView, values: Seq<LiteralView> },
    Segment { view: SourceView, at: usize },
    InRecords { field: NameView, table: SourceView, filter: Option<Box<CondView>>, at: usize },
    Like { field: NameView, pattern: Seq<char>, fold: bool },
    Between { field: NameView, low: LiteralView, high: LiteralView },
    Rounded { field: NameView, round: Rounding, op: Seq<char>, value: LiteralView },
}

impl View for Cond {
    type V = CondView;

    open spec fn view(&self) -> CondView
        decreases self,
    {
        match *self {
            Cond::And(a, b) => CondView::And(Box::new((*a)@), Box::new((*b)@)),
            Cond::Or(a, b) => CondView::Or(Box::new((*a)@), Box::new((*b)@)),
            Cond::Not(a) => CondView::Not(Box::new((*a)@)),
            Cond::Cmp { field, op, value } => CondView::Cmp { field: field@, op: op@, value: value@ },
            Cond::In { field, values } => CondView::In { field: field@, values: views(values@) },
            Cond::Segment { view, at } => CondView::Segment { view: view@, at },
            Cond::InRecords { field, table, filter, at } => CondView::InRecords { field: field@, table: table@, filter: match filter { Some(v) => Some(Box::new((*v)@)), None => None }, at },
            Cond::Like { field, pattern, fold } => CondView::Like { field: field@, pattern: pattern@, fold },
            Cond::Between { field, low, high } => CondView::Between { field: field@, low: low@, high: high@ },
            Cond::Rounded { field, round, op, value } => CondView::Rounded { field: field@, round, op: op@, value: value@ },
        }
    }
}

impl Clone for Cond {
    fn clone(&self) -> (r: Cond)
        ensures
            r@ == self@,
    {
        self.copied()
    }
}

impl Cond {
    /// A copy.
    pub fn copied(&self) -> (r: Cond)
        ensures
            r@ == self@,
        decreases self,
    {
        match self {
            Cond::And(a, b) => Cond::And(Box::new((**a).copied()), Box::new((**b).copied())),
            Cond::Or(a, b) => Cond::Or(Box::new((**a).copied()), Box::new((**b).copied())),
            Cond::Not(a) => Cond::Not(Box::new((**a).copied())),
            Cond::Cmp { field, op, value } => Cond::Cmp { field: field.copied(), op: *op, value: value.copied() },
            Cond::In { field, values } => Cond::In { field: field.copied(), values: copy_literals(values) },
            Cond::Segment { view, at } => Cond::Segment { view: view.copied(), at: *at },
            Cond::InRecords { field, table, filter, at } => Cond::InRecords { field: field.copied(), table: table.copied(), filter: match filter { Some(v) => Some(Box::new((**v).copied())), None => None }, at: *at },
            Cond::Like { field, pattern, fold } => Cond::Like { field: field.copied(), pattern: pattern.clone(), fold: *fold },
            Cond::Between { field, low, high } => Cond::Between { field: field.copied(), low: low.copied(), high: high.copied() },
            Cond::Rounded { field, round, op, value } => Cond::Rounded { field: field.copied(), round: *round, op: *op, value: value.copied() },
        }
    }
}

/// A condition without its byte offsets.
pub open spec fn cond_unplaced(c: CondView) -> CondView
    decreases c,
{
    match c {
        CondView::And(a, b) => CondView::And(
            Box::new(cond_unplaced(*a)),
            Box::new(cond_unplaced(*b)),
        ),
        CondView::Or(a, b) => CondView::Or(
            Box::new(cond_unplaced(*a)),
            Box::new(cond_unplaced(*b)),
        ),
        CondView::Not(a) => CondView::Not(Box::new(cond_unplaced(*a))),
        CondView::Segment { view, .. } => CondView::Segment { view, at: 0 },
        CondView::InRecords { field, table, filter, .. } => CondView::InRecords {
            field,
            table,
            filter: match filter {
                Some(f) => Some(Box::new(cond_unplaced(*f))),
                None => None,
            },
            at: 0,
        },
        _ => c,
    }
}

/// A condition without its byte offsets, when there is one.
pub open spec fn filter_unplaced(c: Option<CondView>) -> Option<CondView> {
    match c {
        Some(c) => Some(cond_unplaced(c)),
        None => None,
    }
}

impl Cond {
    /// Whether two say the same, wherever each stands in the text.
    pub fn alike(&self, other: &Cond) -> (r: bool)
        ensures
            r == (cond_unplaced(self@) == cond_unplaced(other@)),
        decreases self,
    {
        match (self, other) {
            (Cond::And(a, b), Cond::And(c, d)) => (**a).alike(&**c) && (**b).alike(&**d),
            (Cond::Or(a, b), Cond::Or(c, d)) => (**a).alike(&**c) && (**b).alike(&**d),
            (Cond::Not(a), Cond::Not(b)) => (**a).alike(&**b),
            (
                Cond::Cmp { field, op, value },
                Cond::Cmp { field: y_field, op: y_op, value: y_value },
            ) => field.same(y_field) && same(*op, *y_op) && value.same(y_value),
            (Cond::In { field, values }, Cond::In { field: y_field, values: y_values }) => field.same(
                y_field,
            ) && same_literals(values, y_values),
            (Cond::Segment { view, .. }, Cond::Segment { view: y_view, .. }) => view.same(y_view),
            (
                Cond::InRecords { field, table, filter, .. },
                Cond::InRecords { field: y_field, table: y_table, filter: y_filter, .. },
            ) => field.same(y_field) && table.same(y_table) && match (filter, y_filter) {
                (Some(a), Some(b)) => (**a).alike(&**b),
                (None, None) => true,
                _ => false,
            },
            (
                Cond::Like { field, pattern, fold },
                Cond::Like { field: y_field, pattern: y_pattern, fold: y_fold },
            ) => field.same(y_field) && same(pattern.as_str(), y_pattern.as_str()) && *fold
                == *y_fold,
            (
                Cond::Between { field, low, high },
                Cond::Between { field: y_field, low: y_low, high: y_high },
            ) => field.same(y_field) && low.same(y_low) && high.same(y_high),
            (
                Cond::Rounded { field, round, op, value },
                Cond::Rounded { field: y_field, round: y_round, op: y_op, value: y_value },
            ) => field.same(y_field) && *round == *y_round && same(*op, *y_op) && value.same(
                y_value,
            ),
            _ => false,
        }
    }
}

/// The sets a `ROLLUP`, `CUBE` or `GROUPING SETS` clause names.
#[derive(PartialEq, Eq, Debug)]
pub struct GroupingSets {
    /// Each a list of positions in the grouped columns.
    pub of: Vec<Vec<usize>>,
    /// Byte offset, for the refusal.
    pub at: usize,
}

/// What a [`GroupingSets`] holds.
#[verifier::ext_equal]
pub struct GroupingSetsView {
    pub of: Seq<Seq<usize>>,
    pub at: usize,
}

impl View for GroupingSets {
    type V = GroupingSetsView;

    open spec fn view(&self) -> GroupingSetsView {
        GroupingSetsView {
            of: self.of@.map_values(|v: Vec<usize>| v@),
            at: self.at,
        }
    }
}

impl Clone for GroupingSets {
    fn clone(&self) -> (r: GroupingSets)
        ensures
            r@ == self@,
    {
        GroupingSets {
            of: copy_sets(&self.of),
            at: self.at,
        }
    }
}

/// One `GROUP BY` term.
#[derive(PartialEq, Eq, Debug)]
pub struct Grouping {
    /// The column.
    pub name: Name,
    /// The calendar boundary it is rounded to.
    pub bucket: Option<Unit>,
    /// Byte offset, for the refusal.
    pub at: usize,
}

/// What a [`Grouping`] holds.
#[verifier::ext_equal]
pub struct GroupingView {
    pub name: NameView,
    pub bucket: Option<Unit>,
    pub at: usize,
}

impl View for Grouping {
    type V = GroupingView;

    open spec fn view(&self) -> GroupingView {
        GroupingView {
            name: self.name@,
            bucket: self.bucket,
            at: self.at,
        }
    }
}

impl Clone for Grouping {
    fn clone(&self) -> (r: Grouping)
        ensures
            r@ == self@,
    {
        self.copied()
    }
}

impl Grouping {
    /// A copy.
    pub fn copied(&self) -> (r: Grouping)
        ensures
            r@ == self@,
    {
        Grouping {
            name: self.name.copied(),
            bucket: self.bucket,
            at: self.at,
        }
    }
}

/// A rounding of a number.
#[derive(Clone, Copy, PartialEq, Eq, Debug, Structural)]
pub enum Rounding {
    /// `round(x, digits)`.
    Round { digits: u8 },
    /// `floor(x)`.
    Floor,
    /// `ceil(x)`.
    Ceil,
}

/// `DELETE FROM <table> WHERE <cond>`, as written.
#[derive(PartialEq, Eq, Debug)]
pub struct Delete {
    pub database: Option<String>,
    pub table: String,
    pub filter: Cond,
    pub at: usize,
}

/// What a [`Delete`] holds.
#[verifier::ext_equal]
pub struct DeleteView {
    pub database: Option<Seq<char>>,
    pub table: Seq<char>,
    pub filter: CondView,
    pub at: usize,
}

impl View for Delete {
    type V = DeleteView;

    open spec fn view(&self) -> DeleteView {
        DeleteView {
            database: opt_text(self.database),
            table: self.table@,
            filter: self.filter@,
            at: self.at,
        }
    }
}

impl Clone for Delete {
    fn clone(&self) -> (r: Delete)
        ensures
            r@ == self@,
    {
        Delete {
            database: copy_opt(&self.database),
            table: self.table.clone(),
            filter: self.filter.clone(),
            at: self.at,
        }
    }
}

/// `UPDATE <table> SET ... WHERE <cond>`, as written.
#[derive(PartialEq, Eq, Debug)]
pub struct Update {
    pub database: Option<String>,
    pub table: String,
    pub assignments: Vec<(String, Literal)>,
    pub filter: Cond,
    pub at: usize,
}

/// What a [`Update`] holds.
#[verifier::ext_equal]
pub struct UpdateView {
    pub database: Option<Seq<char>>,
    pub table: Seq<char>,
    pub assignments: Seq<(Seq<char>, LiteralView)>,
    pub filter: CondView,
    pub at: usize,
}

impl View for Update {
    type V = UpdateView;

    open spec fn view(&self) -> UpdateView {
        UpdateView {
            database: opt_text(self.database),
            table: self.table@,
            assignments: self.assignments@.map_values(|v: (String, Literal)| (v.0@, v.1@)),
            filter: self.filter@,
            at: self.at,
        }
    }
}

impl Clone for Update {
    fn clone(&self) -> (r: Update)
        ensures
            r@ == self@,
    {
        Update {
            database: copy_opt(&self.database),
            table: self.table.clone(),
            assignments: copy_assignments(&self.assignments),
            filter: self.filter.clone(),
            at: self.at,
        }
    }
}

} // verus!
