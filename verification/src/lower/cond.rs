//! A `WHERE` as the set of records it selects.

use vstd::prelude::*;
use crate::ast::{Cond, CondView, Name, NameView, Rounding};
use crate::lower::pql::{all_rows, as_expr, call, call1, call2, call3, called, compared, every_row, given_number, given_text, named_number, named_text, row, window, windowed};
use crate::pql::{Expr, ExprView, Literal, LiteralView};
use crate::text::{same, views};

verus! {

/// A term of a conjunction, and the records it selects: those of what it negates, when it
/// negates something.
#[verifier::ext_equal]
pub struct PartView {
    pub cond: CondView,
    pub rows: ExprView,
}

/// The name a rounding has.
pub open spec fn rounding_name(round: Rounding) -> Seq<char> {
    match round {
        Rounding::Round { .. } => "round"@,
        Rounding::Floor => "floor"@,
        Rounding::Ceil => "ceil"@,
    }
}

/// `Row(<field> <op> <value>, round="<name>")`, and the digits of one that has them.
pub open spec fn rounded(
    field: NameView,
    round: Rounding,
    op: Seq<char>,
    value: LiteralView,
) -> ExprView {
    called(
        "Row"@,
        seq![
            ExprView::Compare { field: field.column, op, value },
            given_text("round"@, rounding_name(round)),
        ] + match round {
            Rounding::Round { digits } => seq![given_number("digits"@, digits as u64)],
            _ => Seq::empty(),
        },
    )
}

/// One row per value.
pub open spec fn each_of(field: NameView, values: Seq<LiteralView>) -> Seq<ExprView> {
    Seq::new(values.len(), |k: int| compared(field, "="@, values[k]))
}

/// A condition as the set of records it selects. A segment stands for whatever its view does,
/// which only a catalog can say: it is kept by name, and a statement that still has one is refused.
pub open spec fn selected(c: CondView) -> ExprView
    decreases
            c,
            if c is Or || c is And {
                2int
            } else {
                0
            },
{
    match c {
        CondView::Cmp { field, op, value } => compared(field, op, value),
        CondView::In { field, values } => if values.len() == 1 {
            compared(field, "="@, values[0])
        } else {
            called("Union"@, each_of(field, values))
        },
        CondView::Between { field, low, high } => called(
            "Intersect"@,
            seq![compared(field, ">="@, low), compared(field, "<="@, high)],
        ),
        CondView::Like { field, pattern, fold } => compared(
            field,
            if fold {
                "ilike"@
            } else {
                "like"@
            },
            LiteralView::Str(pattern),
        ),
        CondView::Rounded { field, round, op, value } => rounded(field, round, op, value),
        CondView::Segment { view, .. } => called(
            "Segment"@,
            seq![ExprView::Literal(LiteralView::Str(view.qualified()))],
        ),
        CondView::InRecords { field, table, filter, .. } => called(
            "InRecords"@,
            seq![
                ExprView::Ident(field.column),
                given_text("table"@, table.qualified()),
                match filter {
                    Some(f) => selected(*f),
                    None => every_row(),
                },
            ],
        ),
        CondView::Not(inner) => called("Not"@, seq![selected(*inner)]),
        CondView::Or(..) => called("Union"@, any_terms(c)),
        CondView::And(..) => conjoined(and_parts(c)),
    }
}

/// The terms of a disjunction, however it is bracketed.
pub open spec fn any_terms(c: CondView) -> Seq<ExprView>
    decreases
            c,
            if c is Or {
                1int
            } else {
                3
            },
{
    match c {
        CondView::Or(a, b) => any_terms(*a) + any_terms(*b),
        _ => seq![selected(c)],
    }
}

/// The terms of a conjunction, however it is bracketed.
pub open spec fn and_parts(c: CondView) -> Seq<PartView>
    decreases
            c,
            if c is And {
                1int
            } else {
                3
            },
{
    match c {
        CondView::And(a, b) => and_parts(*a) + and_parts(*b),
        CondView::Not(inner) => seq![PartView { cond: c, rows: selected(*inner) }],
        _ => seq![PartView { cond: c, rows: selected(c) }],
    }
}

/// The column a term compares a key of, and the key.
pub open spec fn key_of(c: CondView) -> Option<(NameView, Seq<char>)> {
    match c {
        CondView::Cmp { field, op, value: LiteralView::Str(key) } => if op == "="@ || op == "=="@ {
            Some((field, key))
        } else {
            None
        },
        _ => None,
    }
}

/// The bounds a term puts on a column: the first and the last moment it lets through.
pub open spec fn bounds_of(c: CondView, field: NameView) -> Option<(Option<u64>, Option<u64>)> {
    match c {
        CondView::Between { field: f, low: LiteralView::Int(lo), high: LiteralView::Int(hi) } => {
            if f == field {
                Some((Some(lo), Some(hi)))
            } else {
                None
            }
        },
        CondView::Cmp { field: f, op, value: LiteralView::Int(v) } => if f != field {
            None
        } else if op == ">="@ || op == ">"@ {
            Some((Some(v), None))
        } else if op == "<="@ || op == "<"@ {
            Some((None, Some(v)))
        } else {
            None
        },
        _ => None,
    }
}

/// The bounds the first `n` terms put on a column. A bound written later stands in for an
/// earlier one.
pub open spec fn bounds_upto(parts: Seq<PartView>, n: int, field: NameView) -> (
    Option<u64>,
    Option<u64>,
)
    decreases n,
{
    if n <= 0 {
        (None, None)
    } else {
        let before = bounds_upto(parts, n - 1, field);
        match bounds_of(parts[n - 1].cond, field) {
            None => before,
            Some((from, to)) => (
                if from is Some {
                    from
                } else {
                    before.0
                },
                if to is Some {
                    to
                } else {
                    before.1
                },
            ),
        }
    }
}

/// Whether one of the first `n` terms compares a key of a column.
pub open spec fn keyed_upto(parts: Seq<PartView>, n: int, field: NameView) -> bool {
    exists|k: int|
        0 <= k < n && key_of((#[trigger] parts[k]).cond) is Some && (key_of(parts[k].cond)->0).0
            == field
}

/// Whether one of the terms puts a bound on a column.
pub open spec fn bounded(parts: Seq<PartView>, field: NameView) -> bool {
    exists|k: int| 0 <= k < parts.len() && bounds_of((#[trigger] parts[k]).cond, field) is Some
}

/// Whether a term is the first to compare a key of a column that other terms put bounds on. The
/// key and the bounds are one question.
pub open spec fn leads(parts: Seq<PartView>, k: int) -> bool {
    match key_of(parts[k].cond) {
        Some((field, _)) => bounded(parts, field) && !keyed_upto(parts, k, field),
        None => false,
    }
}

/// Whether a term is a bound on a column another term compares a key of.
pub open spec fn absorbed(parts: Seq<PartView>, k: int) -> bool {
    exists|i: int|
        0 <= i < parts.len() && key_of((#[trigger] parts[i]).cond) is Some && bounds_of(
            parts[k].cond,
            (key_of(parts[i].cond)->0).0,
        ) is Some
}

/// The window a leading term and the bounds on its column are.
pub open spec fn fused(parts: Seq<PartView>, k: int) -> ExprView {
    let (field, key) = key_of(parts[k].cond)->0;
    let (from, to) = bounds_upto(parts, parts.len() as int, field);
    windowed(field, key, from, to)
}

/// The windows among the first `n` terms.
pub open spec fn windows_upto(parts: Seq<PartView>, n: int) -> Seq<ExprView>
    decreases n,
{
    if n <= 0 {
        Seq::empty()
    } else if leads(parts, n - 1) {
        windows_upto(parts, n - 1).push(fused(parts, n - 1))
    } else {
        windows_upto(parts, n - 1)
    }
}

/// The terms among the first `n` that are in no window, negated or not.
pub open spec fn plain_upto(parts: Seq<PartView>, n: int, negated: bool) -> Seq<ExprView>
    decreases n,
{
    if n <= 0 {
        Seq::empty()
    } else if !leads(parts, n - 1) && !absorbed(parts, n - 1) && parts[n - 1].cond is Not
        == negated {
        plain_upto(parts, n - 1, negated).push(parts[n - 1].rows)
    } else {
        plain_upto(parts, n - 1, negated)
    }
}

/// One as itself, several under a call, none as nothing.
pub open spec fn combined(name: Seq<char>, terms: Seq<ExprView>) -> Option<ExprView> {
    if terms.len() == 0 {
        None
    } else if terms.len() == 1 {
        Some(terms[0])
    } else {
        Some(called(name, terms))
    }
}

/// The records every kept term selects, without those of the negated ones. Taking records away
/// needs no list of every record there is, and a `Not` does.
pub open spec fn conjoined(parts: Seq<PartView>) -> ExprView {
    let n = parts.len() as int;
    let keep = combined("Intersect"@, windows_upto(parts, n) + plain_upto(parts, n, false));
    let drop = combined("Union"@, plain_upto(parts, n, true));
    match (keep, drop) {
        (Some(keep), Some(drop)) => called("Difference"@, seq![keep, drop]),
        (Some(keep), None) => keep,
        (None, Some(drop)) => called("Not"@, seq![drop]),
        (None, None) => every_row(),
    }
}

/// A term of a conjunction, and the records it selects.
pub struct Part<'a> {
    pub cond: &'a Cond,
    pub rows: Expr,
}

impl<'a> View for Part<'a> {
    type V = PartView;

    open spec fn view(&self) -> PartView {
        PartView { cond: self.cond@, rows: self.rows@ }
    }
}

/// A condition as the set of records it selects.
pub fn rows(cond: &Cond) -> (r: Expr)
    ensures
        r@ == selected(cond@),
    decreases
            cond,
            if cond is Or || cond is And {
                2int
            } else {
                0
            },
{
    match cond {
        Cond::Cmp { field, op, value } => row(field, *op, value.copied()),
        Cond::In { field, values } => {
            if values.len() == 1 {
                return row(field, "=", values[0].copied());
            }
            let mut out: Vec<Expr> = Vec::new();
            let mut k: usize = 0;
            while k < values.len()
                invariant
                    k <= values@.len(),
                    out@.len() == k,
                    forall|j: int|
                        0 <= j < k ==> (#[trigger] out@[j])@ == compared(
                            field@,
                            "="@,
                            values@[j]@,
                        ),
                decreases values.len() - k,
            {
                out.push(row(field, "=", values[k].copied()));
                k += 1;
            }
            assert(views(out@) =~= each_of(field@, views(values@)));
            call("Union", out)
        },
        Cond::Between { field, low, high } => as_expr(
            call2("Intersect", row(field, ">=", low.copied()), row(field, "<=", high.copied())),
        ),
        Cond::Like { field, pattern, fold } => row(
            field,
            if *fold {
                "ilike"
            } else {
                "like"
            },
            Literal::Str(pattern.clone()),
        ),
        Cond::Rounded { field, round, op, value } => rounded_row(field, *round, *op, value),
        Cond::Segment { view, .. } => as_expr(
            call1("Segment", Expr::Literal(Literal::Str(view.qualified()))),
        ),
        Cond::InRecords { field, table, filter, .. } => {
            let inner = match filter {
                Some(f) => rows(&**f),
                None => all_rows(),
            };
            let r = as_expr(
                call3(
                    "InRecords",
                    Expr::Ident(field.column.clone()),
                    named_text("table", table.qualified().as_str()),
                    inner,
                ),
            );
            assert(r@->Call_0.args =~= selected(cond@)->Call_0.args);
            r
        },
        Cond::Not(inner) => as_expr(call1("Not", rows(&**inner))),
        Cond::Or(..) => {
            let mut out: Vec<Expr> = Vec::new();
            flatten_or(cond, &mut out);
            assert(views(out@) =~= any_terms(cond@));
            call("Union", out)
        },
        Cond::And(..) => {
            let mut out: Vec<Part> = Vec::new();
            flatten_and(cond, &mut out);
            assert(views(out@) =~= and_parts(cond@));
            conjunction(out)
        },
    }
}

/// A comparison of a rounded column.
fn rounded_row(field: &Name, round: Rounding, op: &str, value: &Literal) -> (r: Expr)
    ensures
        r@ == rounded(field@, round, op@, value@),
{
    let mut args: Vec<Expr> = Vec::new();
    args.push(
        Expr::Compare { field: field.column.clone(), op: str::to_owned(op), value: value.copied() },
    );
    let name = match round {
        Rounding::Round { .. } => "round",
        Rounding::Floor => "floor",
        Rounding::Ceil => "ceil",
    };
    args.push(named_text("round", name));
    if let Rounding::Round { digits } = round {
        args.push(named_number("digits", digits as u64));
    }
    assert(views(args@) =~= rounded(field@, round, op@, value@)->Call_0.args);
    call("Row", args)
}

/// `a OR (b OR c)` as three terms rather than a tree of two.
fn flatten_or(cond: &Cond, out: &mut Vec<Expr>)
    ensures
        views(final(out)@) == views(old(out)@) + any_terms(cond@),
    decreases
            cond,
            if cond is Or {
                1int
            } else {
                3
            },
{
    let ghost before = views(out@);
    match cond {
        Cond::Or(a, b) => {
            flatten_or(&**a, out);
            flatten_or(&**b, out);
            assert(views(out@) =~= before + any_terms(cond@));
        },
        _ => {
            let e = rows(cond);
            out.push(e);
            assert(views(out@) =~= before + any_terms(cond@));
        },
    }
}

/// `a AND (b AND c)` as three terms rather than a tree of two.
fn flatten_and<'a>(cond: &'a Cond, out: &mut Vec<Part<'a>>)
    ensures
        views(final(out)@) == views(old(out)@) + and_parts(cond@),
    decreases
            cond,
            if cond is And {
                1int
            } else {
                3
            },
{
    let ghost before = views(out@);
    match cond {
        Cond::And(a, b) => {
            flatten_and(&**a, out);
            flatten_and(&**b, out);
            assert(views(out@) =~= before + and_parts(cond@));
        },
        Cond::Not(inner) => {
            let part = Part { cond, rows: rows(&**inner) };
            out.push(part);
            assert(views(out@) =~= before + and_parts(cond@));
        },
        _ => {
            let part = Part { cond, rows: rows(cond) };
            out.push(part);
            assert(views(out@) =~= before + and_parts(cond@));
        },
    }
}

/// The column a term compares a key of, and the key.
fn key<'a>(c: &'a Cond) -> (r: Option<(&'a Name, &'a str)>)
    ensures
        match r {
            Some(p) => key_of(c@) == Some((p.0@, p.1@)),
            None => key_of(c@) is None,
        },
{
    match c {
        Cond::Cmp { field, op, value: Literal::Str(key) } => {
            if same(*op, "=") || same(*op, "==") {
                Some((field, key.as_str()))
            } else {
                None
            }
        },
        _ => None,
    }
}

/// The bounds a term puts on a column.
fn bounds(c: &Cond, field: &Name) -> (r: Option<(Option<u64>, Option<u64>)>)
    ensures
        r == bounds_of(c@, field@),
{
    match c {
        Cond::Between { field: f, low: Literal::Int(lo), high: Literal::Int(hi) } => {
            if f.same(field) {
                Some((Some(*lo), Some(*hi)))
            } else {
                None
            }
        },
        Cond::Cmp { field: f, op, value: Literal::Int(v) } => {
            if !f.same(field) {
                None
            } else if same(*op, ">=") || same(*op, ">") {
                Some((Some(*v), None))
            } else if same(*op, "<=") || same(*op, "<") {
                Some((None, Some(*v)))
            } else {
                None
            }
        },
        _ => None,
    }
}

/// Whether one of the first `n` terms compares a key of a column.
fn has_key(parts: &Vec<Part>, n: usize, field: &Name) -> (r: bool)
    requires
        n <= parts@.len(),
    ensures
        r == keyed_upto(views(parts@), n as int, field@),
{
    let mut k: usize = 0;
    while k < n
        invariant
            k <= n <= parts@.len(),
            !keyed_upto(views(parts@), k as int, field@),
        decreases n - k,
    {
        assert(views(parts@)[k as int] == parts@[k as int]@);
        if let Some((f, _)) = key(parts[k].cond) {
            if f.same(field) {
                return true;
            }
        }
        k += 1;
    }
    false
}

/// Whether one of the terms puts a bound on a column, and the bounds they put on it.
fn all_bounds(parts: &Vec<Part>, field: &Name) -> (r: Option<(Option<u64>, Option<u64>)>)
    ensures
        match r {
            Some(b) => bounded(views(parts@), field@) && b == bounds_upto(
                views(parts@),
                parts@.len() as int,
                field@,
            ),
            None => !bounded(views(parts@), field@),
        },
{
    let mut from: Option<u64> = None;
    let mut to: Option<u64> = None;
    let mut any = false;
    let mut k: usize = 0;
    while k < parts.len()
        invariant
            k <= parts@.len(),
            (from, to) == bounds_upto(views(parts@), k as int, field@),
            any == (exists|j: int|
                0 <= j < k && bounds_of((#[trigger] views(parts@)[j]).cond, field@) is Some),
        decreases parts.len() - k,
    {
        assert(views(parts@)[k as int] == parts@[k as int]@);
        if let Some((f, t)) = bounds(parts[k].cond, field) {
            any = true;
            if f.is_some() {
                from = f;
            }
            if t.is_some() {
                to = t;
            }
        }
        k += 1;
    }
    if any {
        Some((from, to))
    } else {
        None
    }
}

/// The window a term leads, when it leads one.
fn led(parts: &Vec<Part>, k: usize) -> (r: Option<Expr>)
    requires
        k < parts@.len(),
    ensures
        match r {
            Some(e) => leads(views(parts@), k as int) && e@ == fused(views(parts@), k as int),
            None => !leads(views(parts@), k as int),
        },
{
    assert(views(parts@)[k as int] == parts@[k as int]@);
    match key(parts[k].cond) {
        None => None,
        Some((field, word)) => {
            if has_key(parts, k, field) {
                return None;
            }
            match all_bounds(parts, field) {
                Some((from, to)) => Some(window(field, word, from, to)),
                None => None,
            }
        },
    }
}

/// Whether a term is a bound on a column another term compares a key of.
fn is_absorbed(parts: &Vec<Part>, k: usize) -> (r: bool)
    requires
        k < parts@.len(),
    ensures
        r == absorbed(views(parts@), k as int),
{
    assert(views(parts@)[k as int] == parts@[k as int]@);
    let mut i: usize = 0;
    while i < parts.len()
        invariant
            i <= parts@.len(),
            k < parts@.len(),
            views(parts@)[k as int] == parts@[k as int]@,
            forall|j: int|
                0 <= j < i ==> !(key_of((#[trigger] views(parts@)[j]).cond) is Some && bounds_of(
                    views(parts@)[k as int].cond,
                    (key_of(views(parts@)[j].cond)->0).0,
                ) is Some),
        decreases parts.len() - i,
    {
        assert(views(parts@)[i as int] == parts@[i as int]@);
        if let Some((field, _)) = key(parts[i].cond) {
            if bounds(parts[k].cond, field).is_some() {
                return true;
            }
        }
        i += 1;
    }
    false
}

/// One as itself, several under a call, none as nothing.
fn combine(name: &str, parts: Vec<Expr>) -> (r: Option<Expr>)
    ensures
        match r {
            Some(e) => combined(name@, views(parts@)) == Some(e@),
            None => combined(name@, views(parts@)) is None,
        },
{
    let mut parts = parts;
    let ghost all = views(parts@);
    if parts.len() == 0 {
        None
    } else if parts.len() == 1 {
        let e = parts.remove(0);
        assert(all[0] == e@);
        Some(e)
    } else {
        Some(call(name, parts))
    }
}

/// `a AND b AND NOT c` as `Difference(Intersect(a, b), c)`.
fn conjunction(parts: Vec<Part>) -> (r: Expr)
    ensures
        r@ == conjoined(views(parts@)),
{
    let ghost all = views(parts@);
    let ghost n = parts@.len() as int;
    let mut keep: Vec<Expr> = Vec::new();
    let mut drop: Vec<Expr> = Vec::new();
    let mut plain: Vec<Expr> = Vec::new();
    let mut k: usize = 0;
    assert(views(keep@) =~= Seq::<ExprView>::empty());
    assert(views(drop@) =~= Seq::<ExprView>::empty());
    assert(views(plain@) =~= Seq::<ExprView>::empty());
    while k < parts.len()
        invariant
            k <= parts@.len(),
            all == views(parts@),
            views(keep@) == windows_upto(all, k as int),
            views(plain@) == plain_upto(all, k as int, false),
            views(drop@) == plain_upto(all, k as int, true),
        decreases parts.len() - k,
    {
        assert(all[k as int] == parts@[k as int]@);
        let ghost kept = views(keep@);
        let ghost dropped = views(drop@);
        let ghost plains = views(plain@);
        match led(&parts, k) {
            Some(e) => {
                keep.push(e);
                assert(views(keep@) =~= kept.push(e@));
            },
            None => {
                if !is_absorbed(&parts, k) {
                    let e = parts[k].rows.copied();
                    if let Cond::Not(_) = parts[k].cond {
                        drop.push(e);
                        assert(views(drop@) =~= dropped.push(e@));
                    } else {
                        plain.push(e);
                        assert(views(plain@) =~= plains.push(e@));
                    }
                }
            },
        }
        k += 1;
    }
    let ghost kept = views(keep@);
    let ghost plains = views(plain@);
    keep.append(&mut plain);
    assert(views(keep@) =~= kept + plains);
    match (combine("Intersect", keep), combine("Union", drop)) {
        (Some(keep), Some(drop)) => as_expr(call2("Difference", keep, drop)),
        (Some(keep), None) => keep,
        (None, Some(drop)) => as_expr(call1("Not", drop)),
        (None, None) => all_rows(),
    }
}

/// Every condition is a call, which is what a statement carries.
pub proof fn a_condition_is_a_call(c: CondView)
    ensures
        selected(c) is Call,
    decreases c,
{
    match c {
        CondView::And(..) => {
            lemma_parts_are_calls(c);
            let parts = and_parts(c);
            lemma_terms_are_calls(parts, parts.len() as int);
        },
        _ => {},
    }
}

proof fn lemma_parts_are_calls(c: CondView)
    ensures
        forall|k: int| 0 <= k < and_parts(c).len() ==> (#[trigger] and_parts(c)[k]).rows is Call,
    decreases c, 1int,
{
    match c {
        CondView::And(a, b) => {
            lemma_parts_are_calls(*a);
            lemma_parts_are_calls(*b);
        },
        CondView::Not(inner) => {
            a_condition_is_a_call(*inner);
        },
        _ => {
            lemma_part_is_a_call(c);
        },
    }
}

proof fn lemma_part_is_a_call(c: CondView)
    requires
        !(c is And),
    ensures
        selected(c) is Call,
{
}

proof fn lemma_terms_are_calls(parts: Seq<PartView>, n: int)
    requires
        0 <= n <= parts.len(),
        forall|k: int| 0 <= k < parts.len() ==> (#[trigger] parts[k]).rows is Call,
    ensures
        forall|k: int| 0 <= k < windows_upto(parts, n).len() ==> #[trigger] windows_upto(parts, n)[k] is Call,
        forall|k: int|
            0 <= k < plain_upto(parts, n, false).len() ==> #[trigger] plain_upto(parts, n, false)[k] is Call,
        forall|k: int|
            0 <= k < plain_upto(parts, n, true).len() ==> #[trigger] plain_upto(parts, n, true)[k] is Call,
    decreases n,
{
    if n > 0 {
        lemma_terms_are_calls(parts, n - 1);
    }
}

} // verus!
