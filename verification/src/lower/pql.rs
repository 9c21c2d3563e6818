//! The pieces a translation is built from: calls of the query language and their arguments.

use vstd::prelude::*;
use crate::ast::{Name, NameView};
use crate::pql::{Call, CallView, Expr, ExprView, Literal, LiteralView};
use crate::text::views;

verus! {

/// A call as an argument.
pub open spec fn called(name: Seq<char>, args: Seq<ExprView>) -> ExprView {
    ExprView::Call(CallView { name, args })
}

/// `Row(<field> <op> <value>)`.
pub open spec fn compared(field: NameView, op: Seq<char>, value: LiteralView) -> ExprView {
    called("Row"@, seq![ExprView::Compare { field: field.column, op, value }])
}

/// An argument given by name.
pub open spec fn given(name: Seq<char>, value: ExprView) -> ExprView {
    ExprView::Named { name, value: Box::new(value) }
}

/// A number given by name.
pub open spec fn given_number(name: Seq<char>, n: u64) -> ExprView {
    given(name, ExprView::Literal(LiteralView::Int(n)))
}

/// A text given by name.
pub open spec fn given_text(name: Seq<char>, s: Seq<char>) -> ExprView {
    given(name, ExprView::Literal(LiteralView::Str(s)))
}

/// A number given by name, when there is one.
pub open spec fn given_bound(name: Seq<char>, n: Option<u64>) -> Seq<ExprView> {
    match n {
        Some(n) => seq![given_number(name, n)],
        None => Seq::empty(),
    }
}

/// `Row(<field>="<key>", from=<seconds>, to=<seconds>)`. An absent bound is absent.
pub open spec fn windowed(
    field: NameView,
    key: Seq<char>,
    from: Option<u64>,
    to: Option<u64>,
) -> ExprView {
    called(
        "Row"@,
        seq![given_text(field.column, key)] + given_bound("from"@, from) + given_bound("to"@, to),
    )
}

/// `field=<column>`.
pub open spec fn over(field: NameView) -> ExprView {
    given("field"@, ExprView::Ident(field.column))
}

/// A call.
pub fn call_of(name: &str, args: Vec<Expr>) -> (r: Call)
    ensures
        r@ == (CallView { name: name@, args: views(args@) }),
{
    let ghost held = views(args@);
    let r = Call { name: str::to_owned(name), args };
    proof {
        r.lemma_args();
        assert(r@.args =~= held);
    }
    r
}

/// A call as an argument.
pub fn call(name: &str, args: Vec<Expr>) -> (r: Expr)
    ensures
        r@ == called(name@, views(args@)),
{
    as_expr(call_of(name, args))
}

/// A call as an argument.
pub fn as_expr(c: Call) -> (r: Expr)
    ensures
        r@ == ExprView::Call(c@),
{
    Expr::Call(c)
}

/// A call with one argument.
pub fn call1(name: &str, a: Expr) -> (r: Call)
    ensures
        r@ == (CallView { name: name@, args: seq![a@] }),
{
    let mut args: Vec<Expr> = Vec::new();
    args.push(a);
    assert(views(args@) =~= seq![a@]);
    call_of(name, args)
}

/// A call with two arguments.
pub fn call2(name: &str, a: Expr, b: Expr) -> (r: Call)
    ensures
        r@ == (CallView { name: name@, args: seq![a@, b@] }),
{
    let mut args: Vec<Expr> = Vec::new();
    args.push(a);
    args.push(b);
    assert(views(args@) =~= seq![a@, b@]);
    call_of(name, args)
}

/// A call with three arguments.
pub fn call3(name: &str, a: Expr, b: Expr, c: Expr) -> (r: Call)
    ensures
        r@ == (CallView { name: name@, args: seq![a@, b@, c@] }),
{
    let mut args: Vec<Expr> = Vec::new();
    args.push(a);
    args.push(b);
    args.push(c);
    assert(views(args@) =~= seq![a@, b@, c@]);
    call_of(name, args)
}

/// `Row(<field> <op> <value>)`.
pub fn row(field: &Name, op: &str, value: Literal) -> (r: Expr)
    ensures
        r@ == compared(field@, op@, value@),
{
    as_expr(
        call1(
            "Row",
            Expr::Compare { field: field.column.clone(), op: str::to_owned(op), value },
        ),
    )
}

/// An argument given by name.
pub fn named(name: &str, value: Expr) -> (r: Expr)
    ensures
        r@ == given(name@, value@),
{
    Expr::Named { name: str::to_owned(name), value: Box::new(value) }
}

/// A number given by name.
pub fn named_number(name: &str, n: u64) -> (r: Expr)
    ensures
        r@ == given_number(name@, n),
{
    named(name, Expr::Literal(Literal::Int(n)))
}

/// A text given by name.
pub fn named_text(name: &str, s: &str) -> (r: Expr)
    ensures
        r@ == given_text(name@, s@),
{
    named(name, Expr::Literal(Literal::Str(str::to_owned(s))))
}

/// The window a time quantum field answers from its day views.
pub fn window(field: &Name, key: &str, from: Option<u64>, to: Option<u64>) -> (r: Expr)
    ensures
        r@ == windowed(field@, key@, from, to),
{
    let mut args: Vec<Expr> = Vec::new();
    args.push(named_text(field.column.as_str(), key));
    if let Some(n) = from {
        args.push(named_number("from", n));
    }
    if let Some(n) = to {
        args.push(named_number("to", n));
    }
    assert(views(args@) =~= seq![given_text(field@.column, key@)] + given_bound("from"@, from)
        + given_bound("to"@, to));
    call("Row", args)
}

/// `field=<column>`.
pub fn field_arg(field: &Name) -> (r: Expr)
    ensures
        r@ == over(field@),
{
    named("field", Expr::Ident(field.column.clone()))
}

/// Every record.
pub open spec fn every_row() -> ExprView {
    called("All"@, Seq::empty())
}

/// Every record.
pub fn all_rows() -> (r: Expr)
    ensures
        r@ == every_row(),
{
    let none: Vec<Expr> = Vec::new();
    assert(views(none@) =~= Seq::<ExprView>::empty());
    call("All", none)
}

/// The call an argument is, or every record where it is none. Every condition is a call.
pub open spec fn the_call(e: ExprView) -> CallView {
    match e {
        ExprView::Call(c) => c,
        _ => CallView { name: "All"@, args: Seq::empty() },
    }
}

/// The call an argument is.
pub fn as_call(e: Expr) -> (r: Call)
    requires
        e@ is Call,
    ensures
        r@ == the_call(e@),
        e@ == ExprView::Call(r@),
{
    match e {
        Expr::Call(c) => c,
        _ => {
            let none: Vec<Expr> = Vec::new();
            call_of("All", none)
        },
    }
}

} // verus!
