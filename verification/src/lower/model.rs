//! What a statement asks of stored records, and what the calls of the query language answer.
//!
//! Two readings that know nothing of each other: one of statements, record by record, and one of
//! calls, numbers and shapes. What relates them is `lower/selecting`, `lower/answers`,
//! `lower/pairs` and `lower/ranking`.

use vstd::prelude::*;
use crate::ast::{self, Agg, CondView, GroupingView, HavingAggView, HavingOperandView, ItemView, NameView, OrderKeyView, OrderView, ProjView, Rounding, SelectView};
use crate::civil::Unit;
use crate::lower::calls::{AskView, ProbeView};
use crate::pql::{CallView, ExprView, LiteralView};
use crate::shape::{Absent, Cut, GroupOrder, HavingView, Of, OperandView, OrderBy, ThresholdView, UnitsView};

verus! {

/// A test of one record that its stored bits answer.
#[verifier::ext_equal]
pub enum Test {
    /// A field compares so with a value.
    Compares { field: Seq<char>, op: Seq<char>, value: LiteralView },
    /// A field, rounded, compares so with a value.
    Rounds {
        field: Seq<char>,
        round: Option<Seq<char>>,
        digits: Option<u64>,
        op: Seq<char>,
        value: LiteralView,
    },
    /// A field was given a key within a span of time.
    Within { field: Seq<char>, key: Seq<char>, from: Option<u64>, to: Option<u64> },
    /// A record is in a view.
    InView(Seq<char>),
}

/// What records are grouped by: a column, or a boundary its moments are rounded to.
#[verifier::ext_equal]
pub struct Axis {
    pub column: Seq<char>,
    pub unit: Option<Seq<char>>,
}

/// What tables hold, and how their numbers are put in order.
pub struct Stored {
    /// The records of a table.
    pub records: spec_fn(Seq<char>) -> Seq<int>,
    /// Whether a record of a table passes a test.
    pub passes: spec_fn(Seq<char>, int, Test) -> bool,
    /// The number a record of a table holds in a field, if it holds one.
    pub number: spec_fn(Seq<char>, int, Seq<char>) -> Option<int>,
    /// Whether a record of a table is in the group of a key.
    pub grouped: spec_fn(Seq<char>, int, Axis, int) -> bool,
    /// The keys a table has along some axes, in order.
    pub keys: spec_fn(Seq<char>, Seq<Axis>) -> Seq<Seq<int>>,
    /// Whether a field of a record names a record of another table.
    pub names: spec_fn(Seq<char>, int, Seq<char>, int) -> bool,
    /// The value at so many parts per thousand of some.
    pub quantile: spec_fn(Seq<int>, int) -> Option<int>,
    /// Keys in the order of a figure each has, largest first or smallest first.
    pub sorted: spec_fn(Seq<Seq<int>>, spec_fn(Seq<int>) -> Figure, bool) -> Seq<Seq<int>>,
    /// Whether two sides of a comparison compare so.
    pub relates: spec_fn(Seq<char>, Amount, Amount) -> bool,
}

/// What a cell shows.
#[verifier::ext_equal]
pub enum Figure {
    /// A number, or none.
    Number(Option<int>),
    /// One number over another.
    Ratio(int, int),
    /// Keys, in order.
    Ranked(Seq<Seq<int>>),
    /// A moment.
    Moment(int),
    /// The key of a group along one axis, or all of them.
    Key(int),
    Keys(Seq<int>),
    /// Nothing.
    Blank,
}

/// One side of a comparison over groups.
#[verifier::ext_equal]
pub enum Amount {
    /// A figure, in the units of a column of a table where it has any.
    Figure(Figure, Option<(Seq<char>, Seq<char>)>),
    /// So many records.
    Records(int),
    /// A value, in the units of a column of a table.
    Value(Seq<char>, Seq<char>, LiteralView),
}

/// The sum of some numbers.
pub open spec fn total(s: Seq<int>) -> int
    decreases s.len(),
{
    if s.len() == 0 {
        0
    } else {
        total(s.drop_last()) + s.last()
    }
}

/// Whether a number is the least of some.
pub open spec fn is_least(x: int, s: Seq<int>) -> bool {
    s.contains(x) && forall|k: int| 0 <= k < s.len() ==> x <= #[trigger] s[k]
}

/// Whether a number is the greatest of some.
pub open spec fn is_greatest(x: int, s: Seq<int>) -> bool {
    s.contains(x) && forall|k: int| 0 <= k < s.len() ==> #[trigger] s[k] <= x
}

/// The least of some numbers, if there are any.
pub open spec fn least(s: Seq<int>) -> Option<int> {
    if s.len() == 0 {
        None
    } else {
        Some(choose|x: int| is_least(x, s))
    }
}

/// The greatest of some numbers, if there are any.
pub open spec fn greatest(s: Seq<int>) -> Option<int> {
    if s.len() == 0 {
        None
    } else {
        Some(choose|x: int| is_greatest(x, s))
    }
}

/// The numbers some records hold in a field.
pub open spec fn held(w: Stored, table: Seq<char>, rs: Seq<int>, field: Seq<char>) -> Seq<int>
    decreases rs.len(),
{
    if rs.len() == 0 {
        Seq::empty()
    } else {
        let before = held(w, table, rs.drop_last(), field);
        match (w.number)(table, rs.last(), field) {
            Some(v) => before.push(v),
            None => before,
        }
    }
}

// What a statement asks.

/// The word of a calendar boundary.
pub open spec fn boundary(unit: Unit) -> Seq<char> {
    match unit {
        Unit::Year => "year"@,
        Unit::Quarter => "quarter"@,
        Unit::Month => "month"@,
        Unit::Week => "week"@,
        Unit::Day => "day"@,
        Unit::Hour => "hour"@,
        Unit::Minute => "minute"@,
        Unit::Second => "second"@,
    }
}

/// What a `GROUP BY` term groups by.
pub open spec fn axis_of(g: GroupingView) -> Axis {
    Axis {
        column: g.name.column,
        unit: match g.bucket {
            Some(unit) => Some(boundary(unit)),
            None => None,
        },
    }
}

/// What a `GROUP BY` groups by.
pub open spec fn axes_by(by: Seq<GroupingView>) -> Seq<Axis> {
    Seq::new(by.len(), |k: int| axis_of(by[k]))
}

/// The axis of a plain column.
pub open spec fn column_axis(column: Seq<char>) -> Axis {
    Axis { column, unit: None }
}

/// The conditions a conjunction is made of, in the order they are written.
pub open spec fn conjuncts(c: CondView) -> Seq<CondView>
    decreases c,
{
    match c {
        CondView::And(a, b) => conjuncts(*a) + conjuncts(*b),
        _ => seq![c],
    }
}

/// The column and the key, where a condition gives a column a key.
pub open spec fn gives_key(c: CondView) -> Option<(NameView, Seq<char>)> {
    match c {
        CondView::Cmp { field, op, value: LiteralView::Str(key) } => if op == "="@ || op == "=="@ {
            Some((field, key))
        } else {
            None
        },
        _ => None,
    }
}

/// The moment a condition has a column start at.
pub open spec fn starts(c: CondView, field: NameView) -> Option<u64> {
    match c {
        CondView::Between { field: f, low: LiteralView::Int(low), high: LiteralView::Int(_) } => {
            if f == field {
                Some(low)
            } else {
                None
            }
        },
        CondView::Cmp { field: f, op, value: LiteralView::Int(v) } => if f == field && (op == ">="@
            || op == ">"@) {
            Some(v)
        } else {
            None
        },
        _ => None,
    }
}

/// The moment a condition has a column end at.
pub open spec fn ends(c: CondView, field: NameView) -> Option<u64> {
    match c {
        CondView::Between { field: f, low: LiteralView::Int(_), high: LiteralView::Int(high) } => {
            if f == field {
                Some(high)
            } else {
                None
            }
        },
        CondView::Cmp { field: f, op, value: LiteralView::Int(v) } => if f == field && (op == "<="@
            || op == "<"@) {
            Some(v)
        } else {
            None
        },
        _ => None,
    }
}

/// Whether a condition bounds a column in time.
pub open spec fn bounds_time(c: CondView, field: NameView) -> bool {
    starts(c, field) is Some || ends(c, field) is Some
}

/// The last moment that one of the first `n` conditions has a column start at.
pub open spec fn last_start(all: Seq<CondView>, n: int, field: NameView) -> Option<u64>
    decreases n,
{
    if n <= 0 {
        None
    } else if starts(all[n - 1], field) is Some {
        starts(all[n - 1], field)
    } else {
        last_start(all, n - 1, field)
    }
}

/// The last moment that one of the first `n` conditions has a column end at.
pub open spec fn last_end(all: Seq<CondView>, n: int, field: NameView) -> Option<u64>
    decreases n,
{
    if n <= 0 {
        None
    } else if ends(all[n - 1], field) is Some {
        ends(all[n - 1], field)
    } else {
        last_end(all, n - 1, field)
    }
}

/// Whether some condition bounds a column in time.
pub open spec fn some_bounds(all: Seq<CondView>, field: NameView) -> bool {
    exists|k: int| 0 <= k < all.len() && bounds_time(#[trigger] all[k], field)
}

/// Whether one of the first `n` conditions gives a column a key.
pub open spec fn some_key(all: Seq<CondView>, n: int, field: NameView) -> bool {
    exists|k: int|
        0 <= k < n && gives_key(#[trigger] all[k]) is Some && (gives_key(all[k])->0).0 == field
}

/// Whether a condition bounds a column that a condition of the same conjunction gives a key.
pub open spec fn bounds_a_key(all: Seq<CondView>, c: CondView) -> bool {
    exists|k: int|
        0 <= k < all.len() && gives_key(#[trigger] all[k]) is Some && bounds_time(
            c,
            (gives_key(all[k])->0).0,
        )
}

/// Whether a condition of a conjunction is the first to give a column a key, and another bounds
/// that column in time.
pub open spec fn first_dated(all: Seq<CondView>, at: int, c: CondView) -> bool {
    match gives_key(c) {
        Some((field, _)) => some_bounds(all, field) && !some_key(all, at, field),
        None => false,
    }
}

/// What a key and the bounds on its column test together: that the key was given in that time.
pub open spec fn dated(all: Seq<CondView>, c: CondView) -> Test {
    let (field, key) = gives_key(c)->0;
    Test::Within {
        field: field.column,
        key,
        from: last_start(all, all.len() as int, field),
        to: last_end(all, all.len() as int, field),
    }
}

/// Whether what stands at a position of a conjunction is true of a record: each of its conditions,
/// but a key and the bounds on its column are one question about a time.
pub open spec fn holds_at(
    c: CondView,
    all: Seq<CondView>,
    at: int,
    table: Seq<char>,
    r: int,
    w: Stored,
) -> bool
    decreases
            c,
            if c is And {
                0int
            } else {
                2
            },
{
    match c {
        CondView::And(a, b) => holds_at(*a, all, at, table, r, w) && holds_at(
            *b,
            all,
            at + conjuncts(*a).len(),
            table,
            r,
            w,
        ),
        _ => if first_dated(all, at, c) {
            (w.passes)(table, r, dated(all, c))
        } else if bounds_a_key(all, c) {
            true
        } else {
            holds(c, table, r, w)
        },
    }
}

/// Whether a condition is true of a record of a table.
pub open spec fn holds(c: CondView, table: Seq<char>, r: int, w: Stored) -> bool
    decreases
            c,
            if c is And {
                1int
            } else {
                0
            },
{
    match c {
        CondView::And(..) => holds_at(c, conjuncts(c), 0, table, r, w),
        CondView::Or(a, b) => holds(*a, table, r, w) || holds(*b, table, r, w),
        CondView::Not(a) => !holds(*a, table, r, w),
        CondView::Cmp { field, op, value } => (w.passes)(
            table,
            r,
            Test::Compares { field: field.column, op, value },
        ),
        CondView::In { field, values } => exists|k: int|
            0 <= k < values.len() && (w.passes)(
                table,
                r,
                Test::Compares { field: field.column, op: "="@, value: #[trigger] values[k] },
            ),
        CondView::Between { field, low, high } => (w.passes)(
            table,
            r,
            Test::Compares { field: field.column, op: ">="@, value: low },
        ) && (w.passes)(table, r, Test::Compares { field: field.column, op: "<="@, value: high }),
        CondView::Like { field, pattern, fold } => (w.passes)(
            table,
            r,
            Test::Compares {
                field: field.column,
                op: if fold {
                    "ilike"@
                } else {
                    "like"@
                },
                value: LiteralView::Str(pattern),
            },
        ),
        CondView::Rounded { field, round, op, value } => (w.passes)(
            table,
            r,
            Test::Rounds {
                field: field.column,
                round: Some(
                    match round {
                        Rounding::Round { .. } => "round"@,
                        Rounding::Floor => "floor"@,
                        Rounding::Ceil => "ceil"@,
                    },
                ),
                digits: match round {
                    Rounding::Round { digits } => Some(digits as u64),
                    _ => None,
                },
                op,
                value,
            },
        ),
        CondView::Segment { view, .. } => (w.passes)(table, r, Test::InView(whole_name(view))),
        CondView::InRecords { field, table: other, filter, .. } => exists|x: int|
            #![trigger (w.names)(table, r, field.column, x)]
            (w.records)(whole_name(other)).contains(x) && (w.names)(table, r, field.column, x) && (
            match filter {
                Some(f) => holds(*f, whole_name(other), x, w),
                None => true,
            }),
    }
}

/// A table, with the database it was written in.
pub open spec fn whole_name(source: crate::ast::SourceView) -> Seq<char> {
    match source.database {
        Some(d) => d + "."@ + source.table,
        None => source.table,
    }
}

/// Whether a condition is true of a record, when there is one.
pub open spec fn allows(c: Option<CondView>, table: Seq<char>, r: int, w: Stored) -> bool {
    match c {
        Some(c) => holds(c, table, r, w),
        None => true,
    }
}

/// Whether a record is in the group of some keys.
pub open spec fn among(table: Seq<char>, r: int, axes: Seq<Axis>, keys: Seq<int>, w: Stored) -> bool {
    forall|k: int| 0 <= k < axes.len() ==> (w.grouped)(table, r, #[trigger] axes[k], keys[k])
}

/// The records an aggregate is over: those the `WHERE` and its own `FILTER` are true of, in the
/// group of some keys.
pub open spec fn asked_of(
    w: Stored,
    table: Seq<char>,
    filter: Option<CondView>,
    narrow: Option<CondView>,
    axes: Seq<Axis>,
    keys: Seq<int>,
) -> Seq<int> {
    (w.records)(table).filter(
        |r: int|
            allows(filter, table, r, w) && allows(narrow, table, r, w) && among(
                table,
                r,
                axes,
                keys,
                w,
            ),
    )
}

/// What an aggregate function makes of some numbers.
pub open spec fn folded(func: Agg, s: Seq<int>) -> Option<int> {
    match func {
        Agg::Sum => Some(total(s)),
        Agg::Min => least(s),
        Agg::Max => greatest(s),
    }
}

/// How many of some records are in the group of some keys.
pub open spec fn count_of(
    w: Stored,
    table: Seq<char>,
    rs: Seq<int>,
    axes: Seq<Axis>,
    keys: Seq<int>,
) -> nat {
    rs.filter(|r: int| among(table, r, axes, keys, w)).len()
}

/// The keys that some records are in the groups of.
pub open spec fn keys_among(w: Stored, table: Seq<char>, rs: Seq<int>, axes: Seq<Axis>) -> Seq<
    Seq<int>,
> {
    (w.keys)(table, axes).filter(|keys: Seq<int>| count_of(w, table, rs, axes, keys) > 0)
}

/// Some keys, most frequent first.
pub open spec fn most_frequent(w: Stored, table: Seq<char>, rs: Seq<int>, axes: Seq<Axis>) -> Seq<
    Seq<int>,
> {
    (w.sorted)(
        keys_among(w, table, rs, axes),
        |keys: Seq<int>| Figure::Number(Some(count_of(w, table, rs, axes, keys) as int)),
        true,
    )
}

/// The first so many of a list.
pub open spec fn first(s: Seq<Seq<int>>, n: Option<u64>) -> Seq<Seq<int>> {
    match n {
        Some(n) => if n <= s.len() {
            s.take(n as int)
        } else {
            s
        },
        None => s,
    }
}

/// What an aggregate comes to over some records.
pub open spec fn comes_to(leaf: ProjView, table: Seq<char>, rs: Seq<int>, w: Stored) -> Figure {
    match leaf {
        ProjView::Count => Figure::Number(Some(rs.len() as int)),
        ProjView::Agg { func, field } => Figure::Number(
            folded(func, held(w, table, rs, field.column)),
        ),
        ProjView::Avg(field) => Figure::Ratio(
            total(held(w, table, rs, field.column)),
            rs.len() as int,
        ),
        ProjView::CountDistinct(field) => Figure::Number(
            Some(keys_among(w, table, rs, seq![column_axis(field.column)]).len() as int),
        ),
        ProjView::TopKeys { n, field } => Figure::Ranked(
            first(most_frequent(w, table, rs, seq![column_axis(field.column)]), Some(n)),
        ),
        ProjView::Quantile { per_mille, field } => Figure::Number(
            (w.quantile)(held(w, table, rs, field.column), per_mille as int),
        ),
        ProjView::Now { unix_seconds } => Figure::Moment(unix_seconds as int),
        _ => Figure::Blank,
    }
}

// What calls answer.

/// The argument given under a name, from a position on.
pub open spec fn argument(args: Seq<ExprView>, k: int, name: Seq<char>) -> Option<ExprView>
    decreases args.len() - k,
{
    if k < 0 || k >= args.len() {
        None
    } else {
        match args[k] {
            ExprView::Named { name: given, value } => if given == name {
                Some(*value)
            } else {
                argument(args, k + 1, name)
            },
            _ => argument(args, k + 1, name),
        }
    }
}

/// A number, where an argument is one.
pub open spec fn a_number(e: Option<ExprView>) -> Option<u64> {
    match e {
        Some(ExprView::Literal(LiteralView::Int(n))) => Some(n),
        _ => None,
    }
}

/// A text, where an argument is one.
pub open spec fn a_text(e: Option<ExprView>) -> Option<Seq<char>> {
    match e {
        Some(ExprView::Literal(LiteralView::Str(s))) => Some(s),
        _ => None,
    }
}

/// A column, where an argument is one.
pub open spec fn a_column(e: ExprView) -> Option<Seq<char>> {
    match e {
        ExprView::Ident(column) => Some(column),
        _ => None,
    }
}

/// The test a call that selects records by their bits makes.
pub open spec fn test_of(name: Seq<char>, args: Seq<ExprView>) -> Option<Test> {
    if args.len() == 0 {
        None
    } else if name == "Row"@ {
        match args[0] {
            ExprView::Compare { field, op, value } => if args.len() == 1 {
                Some(Test::Compares { field, op, value })
            } else {
                Some(
                    Test::Rounds {
                        field,
                        round: a_text(argument(args, 1, "round"@)),
                        digits: a_number(argument(args, 1, "digits"@)),
                        op,
                        value,
                    },
                )
            },
            ExprView::Named { name: field, value } => match *value {
                ExprView::Literal(LiteralView::Str(key)) => Some(
                    Test::Within {
                        field,
                        key,
                        from: a_number(argument(args, 1, "from"@)),
                        to: a_number(argument(args, 1, "to"@)),
                    },
                ),
                _ => None,
            },
            _ => None,
        }
    } else if name == "Segment"@ {
        match args[0] {
            ExprView::Literal(LiteralView::Str(view)) => Some(Test::InView(view)),
            _ => None,
        }
    } else {
        None
    }
}

/// Whether an expression selects a record of a table.
pub open spec fn picks(e: ExprView, table: Seq<char>, r: int, w: Stored) -> bool
    decreases e,
{
    match e {
        ExprView::Call(CallView { name, args }) => if name == "All"@ {
            true
        } else if name == "Union"@ {
            exists|k: int| 0 <= k < args.len() && picks(#[trigger] args[k], table, r, w)
        } else if name == "Intersect"@ {
            forall|k: int| 0 <= k < args.len() ==> picks(#[trigger] args[k], table, r, w)
        } else if name == "Not"@ && args.len() == 1 {
            !picks(args[0], table, r, w)
        } else if name == "Difference"@ && args.len() == 2 {
            picks(args[0], table, r, w) && !picks(args[1], table, r, w)
        } else if name == "InRecords"@ && args.len() == 3 {
            a_column(args[0]) is Some && a_text(argument(args, 1, "table"@)) is Some && exists|x: int|
                #![trigger (w.names)(table, r, a_column(args[0])->0, x)]
                (w.records)(a_text(argument(args, 1, "table"@))->0).contains(x) && (w.names)(
                    table,
                    r,
                    a_column(args[0])->0,
                    x,
                ) && picks(args[2], a_text(argument(args, 1, "table"@))->0, x, w)
        } else {
            match test_of(name, args) {
                Some(test) => (w.passes)(table, r, test),
                None => false,
            }
        },
        _ => false,
    }
}

/// The axis an argument groups by.
pub open spec fn axis_in(arg: ExprView) -> Option<Axis> {
    match arg {
        ExprView::Named { name, value } => if name != "field"@ && name != "by"@ {
            None
        } else {
            match *value {
                ExprView::Ident(column) => Some(Axis { column, unit: None }),
                ExprView::Call(CallView { name: inner, args }) => if name == "by"@ && inner
                    == "Bucket"@ {
                    match argument(args, 0, "field"@) {
                        Some(ExprView::Ident(column)) => Some(
                            Axis { column, unit: a_text(argument(args, 0, "unit"@)) },
                        ),
                        _ => None,
                    }
                } else {
                    None
                },
                _ => None,
            }
        },
        _ => None,
    }
}

/// The axes the first `n` arguments group by.
pub open spec fn axes_upto(args: Seq<ExprView>, n: int) -> Seq<Axis>
    decreases n,
{
    if n <= 0 {
        Seq::empty()
    } else {
        match axis_in(args[n - 1]) {
            Some(axis) => axes_upto(args, n - 1).push(axis),
            None => axes_upto(args, n - 1),
        }
    }
}

/// What a call groups by. Only some calls group.
pub open spec fn axes_of(call: CallView) -> Seq<Axis> {
    if call.name == "Distinct"@ || call.name == "GroupBy"@ || call.name == "GroupByTuple"@
        || call.name == "TopN"@ {
        axes_upto(call.args, call.args.len() as int)
    } else {
        Seq::empty()
    }
}

/// The records a call is over, in the group of some keys.
pub open spec fn over_records(ask: AskView, keys: Seq<int>, w: Stored) -> Seq<int> {
    (w.records)(ask.table).filter(
        |r: int|
            picks(ask.call.args[0], ask.table, r, w) && among(
                ask.table,
                r,
                axes_of(ask.call),
                keys,
                w,
            ),
    )
}

/// What a function of the query language makes of some numbers.
pub open spec fn reduced(name: Seq<char>, s: Seq<int>) -> Option<int> {
    if name == "Sum"@ {
        Some(total(s))
    } else if name == "Min"@ {
        least(s)
    } else if name == "Max"@ {
        greatest(s)
    } else {
        None
    }
}

/// The column an argument of a call names.
pub open spec fn field_in(args: Seq<ExprView>) -> Seq<char> {
    match argument(args, 0, "field"@) {
        Some(ExprView::Ident(column)) => column,
        _ => Seq::empty(),
    }
}

/// The number a call answers over some records.
pub open spec fn call_number(call: CallView, table: Seq<char>, rs: Seq<int>, w: Stored) -> Option<int> {
    if call.name == "Sum"@ || call.name == "Min"@ || call.name == "Max"@ {
        reduced(call.name, held(w, table, rs, field_in(call.args)))
    } else {
        match argument(call.args, 0, "aggregate"@) {
            Some(ExprView::Call(CallView { name, args })) => reduced(
                name,
                held(w, table, rs, field_in(args)),
            ),
            _ => Some(rs.len() as int),
        }
    }
}

/// The number a call answers for some keys.
pub open spec fn number_at(ask: AskView, keys: Seq<int>, w: Stored) -> Option<int> {
    call_number(ask.call, ask.table, over_records(ask, keys, w), w)
}

/// A number, or zero.
pub open spec fn or_zero(n: Option<int>) -> int {
    match n {
        Some(n) => n,
        None => 0,
    }
}

/// The keys a grouping call answers with, in order.
pub open spec fn keys_of(ask: AskView, w: Stored) -> Seq<Seq<int>> {
    (w.keys)(ask.table, axes_of(ask.call)).filter(
        |keys: Seq<int>| over_records(ask, keys, w).len() > 0,
    )
}

/// The keys a ranking call answers with, most frequent first, and no more than it was asked for.
pub open spec fn ranked_keys(ask: AskView, w: Stored) -> Seq<Seq<int>> {
    first(
        (w.sorted)(
            keys_of(ask, w),
            |keys: Seq<int>| Figure::Number(Some(over_records(ask, keys, w).len() as int)),
            true,
        ),
        a_number(argument(ask.call.args, 0, "n"@)),
    )
}

/// What a cell shows in the row of some keys, given the calls and searches of a statement.
pub open spec fn figure(
    of: Of,
    calls: Seq<AskView>,
    probes: Seq<ProbeView>,
    keys: Seq<int>,
    w: Stored,
) -> Figure {
    match of {
        Of::Value { plan } => Figure::Number(number_at(calls[plan as int], keys, w)),
        Of::Group { plan, absent } => if over_records(calls[plan as int], keys, w).len() == 0 {
            Figure::Number(
                match absent {
                    Absent::Zero => Some(0int),
                    Absent::Null => None,
                },
            )
        } else {
            Figure::Number(number_at(calls[plan as int], keys, w))
        },
        Of::Ratio { plan, over } => Figure::Ratio(
            or_zero(number_at(calls[plan as int], keys, w)),
            or_zero(number_at(calls[over as int], keys, w)),
        ),
        Of::Groups { plan } => Figure::Number(
            Some(keys_of(calls[plan as int], w).len() as int),
        ),
        Of::Keys { plan } => Figure::Ranked(ranked_keys(calls[plan as int], w)),
        Of::Probe { probe } => {
            let p = probes[probe as int];
            Figure::Number(
                (w.quantile)(
                    held(
                        w,
                        p.table,
                        (w.records)(p.table).filter(
                            |r: int| picks(ExprView::Call(p.rows), p.table, r, w),
                        ),
                        p.field,
                    ),
                    p.per_mille as int,
                ),
            )
        },
        Of::Now { unix_seconds } => Figure::Moment(unix_seconds as int),
        Of::Key => Figure::Key(keys[0]),
        Of::KeyAt { axis } => Figure::Key(keys[axis as int]),
        _ => Figure::Blank,
    }
}

// Which groups are kept, and in what order.

/// The aggregate a `HAVING` or an `ORDER BY` names.
pub open spec fn aggregate_of(a: HavingAggView) -> ProjView {
    match a {
        HavingAggView::Count => ProjView::Count,
        HavingAggView::Agg { func, field } => ProjView::Agg { func, field },
        HavingAggView::Avg(field) => ProjView::Avg(field),
    }
}

/// The column an aggregate is in the units of, given the table each column is of.
pub open spec fn units_of(
    a: HavingAggView,
    home: spec_fn(NameView) -> Seq<char>,
) -> Option<(Seq<char>, Seq<char>)> {
    match a {
        HavingAggView::Count => None,
        HavingAggView::Agg { field, .. } => Some((home(field), field.column)),
        HavingAggView::Avg(field) => Some((home(field), field.column)),
    }
}

/// One side of a comparison, as it was written: an aggregate, or a value in the units of the
/// aggregate it is compared with.
pub open spec fn said(
    o: HavingOperandView,
    other: HavingOperandView,
    comes: spec_fn(ProjView) -> Figure,
    home: spec_fn(NameView) -> Seq<char>,
) -> Amount {
    match o {
        HavingOperandView::Agg(a) => Amount::Figure(comes(aggregate_of(a)), units_of(a, home)),
        HavingOperandView::Value(v) => match other {
            HavingOperandView::Agg(a) => match units_of(a, home) {
                Some((table, field)) => Amount::Value(table, field, v),
                None => match v {
                    LiteralView::Int(n) => Amount::Records(n as int),
                    _ => Amount::Records(0),
                },
            },
            HavingOperandView::Value(_) => Amount::Records(0),
        },
    }
}

/// Whether a `HAVING` is true of a group whose aggregates come to something.
pub open spec fn wanted_group(
    h: ast::HavingView,
    comes: spec_fn(ProjView) -> Figure,
    home: spec_fn(NameView) -> Seq<char>,
    w: Stored,
) -> bool
    decreases h,
{
    match h {
        ast::HavingView::And(a, b) => wanted_group(*a, comes, home, w) && wanted_group(
            *b,
            comes,
            home,
            w,
        ),
        ast::HavingView::Or(a, b) => wanted_group(*a, comes, home, w) || wanted_group(
            *b,
            comes,
            home,
            w,
        ),
        ast::HavingView::Not(a) => !wanted_group(*a, comes, home, w),
        ast::HavingView::Cmp { left, op, right, .. } => (w.relates)(
            op,
            said(left, right, comes, home),
            said(right, left, comes, home),
        ),
    }
}

/// One side of a comparison of an answer, given what its numbers are.
pub open spec fn amount(o: OperandView, shows: spec_fn(Of) -> Figure) -> Amount {
    match o {
        OperandView::Of { of, units } => Amount::Figure(
            shows(of),
            match units {
                UnitsView::Written { table, field } => Some((table, field)),
                _ => None,
            },
        ),
        OperandView::Value(ThresholdView::Units(n)) => Amount::Records(n as int),
        OperandView::Value(ThresholdView::Written { table, field, value }) => Amount::Value(
            table,
            field,
            value,
        ),
    }
}

/// Whether the condition of an answer keeps a row, given what its numbers are.
pub open spec fn keeps(h: HavingView, shows: spec_fn(Of) -> Figure, w: Stored) -> bool
    decreases h,
{
    match h {
        HavingView::And(a, b) => keeps(*a, shows, w) && keeps(*b, shows, w),
        HavingView::Or(a, b) => keeps(*a, shows, w) || keeps(*b, shows, w),
        HavingView::Not(a) => !keeps(*a, shows, w),
        HavingView::Cmp { left, op, right } => (w.relates)(
            op,
            amount(left, shows),
            amount(right, shows),
        ),
    }
}

/// Whether an entry of a select list is a number.
pub open spec fn is_number(item: ItemView) -> bool {
    !(item.leaf() is Star) && !(item.leaf() is Column)
}

/// The first number of a select list, from an entry on, that is called so.
pub open spec fn called_so(items: Seq<ItemView>, name: Seq<char>, k: int) -> Option<int>
    decreases items.len() - k,
{
    if k < 0 || k >= items.len() {
        None
    } else if is_number(items[k]) && items[k].column() == name {
        Some(k)
    } else {
        called_so(items, name, k + 1)
    }
}

/// What an `ORDER BY` puts rows in the order of: an aggregate that is written out, the number of
/// an entry that is called so, or else the key.
pub open spec fn order_figure(
    key: OrderKeyView,
    items: Seq<ItemView>,
    keys: Seq<int>,
    comes: spec_fn(ProjView) -> Figure,
    entry: spec_fn(int) -> Figure,
) -> Figure {
    match key {
        OrderKeyView::Count => comes(ProjView::Count),
        OrderKeyView::Agg { func, field } => comes(ProjView::Agg { func, field }),
        OrderKeyView::Avg(field) => comes(ProjView::Avg(field)),
        OrderKeyView::Name(n) => match called_so(items, n.column, 0) {
            Some(k) => entry(k),
            None => Figure::Keys(keys),
        },
    }
}

/// Whether an `ORDER BY` is by the key.
pub open spec fn by_key(key: OrderKeyView, items: Seq<ItemView>) -> bool {
    match key {
        OrderKeyView::Name(n) => called_so(items, n.column, 0) is None,
        _ => false,
    }
}

/// Rows in the order that was written. Rows come in the order of their keys.
pub open spec fn written_order(
    rows: Seq<Seq<int>>,
    order: Option<OrderView>,
    items: Seq<ItemView>,
    comes: spec_fn(Seq<int>, ProjView) -> Figure,
    entry: spec_fn(Seq<int>, int) -> Figure,
    w: Stored,
) -> Seq<Seq<int>> {
    match order {
        None => rows,
        Some(o) => if by_key(o.key, items) && !o.desc {
            rows
        } else {
            (w.sorted)(
                rows,
                |keys: Seq<int>|
                    order_figure(
                        o.key,
                        items,
                        keys,
                        |p: ProjView| comes(keys, p),
                        |k: int| entry(keys, k),
                    ),
                o.desc,
            )
        },
    }
}

/// How far a list goes on with rows that tie with the one before a position.
pub open spec fn tied(s: Seq<Seq<int>>, rank: spec_fn(Seq<int>) -> Figure, m: int) -> int
    decreases s.len() - m,
{
    if 0 < m < s.len() && rank(s[m]) == rank(s[m - 1]) {
        tied(s, rank, m + 1)
    } else {
        m
    }
}

/// The rows a `LIMIT` and an `OFFSET` keep, with those that tie with the last where ties are kept.
pub open spec fn kept(
    s: Seq<Seq<int>>,
    rank: spec_fn(Seq<int>) -> Figure,
    limit: Option<int>,
    offset: Option<int>,
    ties: bool,
) -> Seq<Seq<int>> {
    let rest = match offset {
        Some(o) => if o <= s.len() {
            s.skip(o)
        } else {
            Seq::empty()
        },
        None => s,
    };
    match limit {
        Some(n) => if n < rest.len() {
            rest.take(
                if ties {
                    tied(rest, rank, n)
                } else {
                    n
                },
            )
        } else {
            rest
        },
        None => rest,
    }
}

/// The rows an answer puts in order: those that one of its calls has, most frequent first where
/// it is a ranking.
pub open spec fn listed_rows(calls: Seq<AskView>, plans: Seq<usize>, w: Stored) -> Seq<Seq<int>> {
    let ask = calls[plans[0] as int];
    if ask.call.name == "TopN"@ {
        ranked_keys(ask, w)
    } else {
        (w.keys)(ask.table, axes_of(ask.call)).filter(
            |keys: Seq<int>|
                exists|k: int|
                    0 <= k < plans.len() && over_records(
                        calls[#[trigger] plans[k] as int],
                        keys,
                        w,
                    ).len() > 0,
        )
    }
}

/// What an answer's order ranks a row by.
pub open spec fn rank_of(order: Option<GroupOrder>, keys: Seq<int>, shows: spec_fn(Of) -> Figure) -> Figure {
    match order {
        Some(GroupOrder { by: OrderBy::Value { of }, .. }) => shows(of),
        _ => Figure::Keys(keys),
    }
}

/// Some rows, in the order an answer has them, of those it keeps, as many as it keeps.
pub open spec fn arranged(
    rows: Seq<Seq<int>>,
    order: Option<GroupOrder>,
    having: Option<HavingView>,
    cut: Cut,
    shows: spec_fn(Seq<int>, Of) -> Figure,
    w: Stored,
) -> Seq<Seq<int>> {
    let rank = |keys: Seq<int>| rank_of(order, keys, |of: Of| shows(keys, of));
    let sorted = match order {
        None => rows,
        Some(o) => (w.sorted)(rows, rank, o.desc),
    };
    kept(
        sorted.filter(
            |keys: Seq<int>|
                match having {
                    Some(h) => keeps(h, |of: Of| shows(keys, of), w),
                    None => true,
                },
        ),
        rank,
        match cut.limit {
            Some(n) => Some(n as int),
            None => None,
        },
        match cut.offset {
            Some(n) => Some(n as int),
            None => None,
        },
        cut.ties,
    )
}

/// The rows of a grouping, as they were written: in the order, of those the `HAVING` is true of,
/// as many as the `LIMIT` and the `OFFSET` keep.
pub open spec fn written_rows(
    rows: Seq<Seq<int>>,
    select: SelectView,
    comes: spec_fn(Seq<int>, ProjView) -> Figure,
    entry: spec_fn(Seq<int>, int) -> Figure,
    home: spec_fn(NameView) -> Seq<char>,
    w: Stored,
) -> Seq<Seq<int>> {
    kept(
        written_order(rows, select.order_by, select.items, comes, entry, w).filter(
            |keys: Seq<int>|
                match select.having {
                    Some(h) => wanted_group(h, |p: ProjView| comes(keys, p), home, w),
                    None => true,
                },
        ),
        |keys: Seq<int>|
            match select.order_by {
                Some(o) => order_figure(
                    o.key,
                    select.items,
                    keys,
                    |p: ProjView| comes(keys, p),
                    |k: int| entry(keys, k),
                ),
                None => Figure::Keys(keys),
            },
        match select.limit {
            Some(n) => Some(n as int),
            None => None,
        },
        match select.offset {
            Some(n) => Some(n as int),
            None => None,
        },
        select.with_ties,
    )
}

/// What an aggregate comes to in the group of some keys, among the records of a `WHERE`.
pub open spec fn group_comes(
    select: SelectView,
    by: Seq<GroupingView>,
    w: Stored,
) -> spec_fn(Seq<int>, ProjView) -> Figure {
    |keys: Seq<int>, p: ProjView|
        {
            let table = whole_name(select.from);
            comes_to(p, table, asked_of(w, table, select.filter, None, axes_by(by), keys), w)
        }
}

/// What an entry of a select list comes to in the group of some keys.
pub open spec fn group_entry(
    select: SelectView,
    by: Seq<GroupingView>,
    w: Stored,
) -> spec_fn(Seq<int>, int) -> Figure {
    |keys: Seq<int>, k: int|
        {
            let table = whole_name(select.from);
            comes_to(
                select.items[k].leaf(),
                table,
                asked_of(w, table, select.filter, select.items[k].filter, axes_by(by), keys),
                w,
            )
        }
}

/// What an answer's numbers show.
pub open spec fn answer_shows(
    calls: Seq<AskView>,
    probes: Seq<ProbeView>,
    w: Stored,
) -> spec_fn(Seq<int>, Of) -> Figure {
    |keys: Seq<int>, of: Of| figure(of, calls, probes, keys, w)
}

/// What the number of an entry is in the units of.
pub open spec fn entry_units(leaf: ProjView, home: spec_fn(NameView) -> Seq<char>) -> UnitsView {
    match leaf {
        ProjView::Agg { field, .. } => UnitsView::Written {
            table: home(field),
            field: field.column,
        },
        ProjView::Avg(field) => UnitsView::Written { table: home(field), field: field.column },
        ProjView::Quantile { field, .. } => UnitsView::Written {
            table: home(field),
            field: field.column,
        },
        ProjView::Now { .. } => UnitsView::Seconds,
        _ => UnitsView::Digits(0),
    }
}

} // verus!
