//! The query language a statement is translated into: literals, and calls over them.

use vstd::prelude::*;
use crate::text::{same, views};

verus! {

/// A value, exactly as it was written.
#[derive(PartialEq, Eq, Debug)]
pub enum Literal {
    /// A whole number.
    Int(u64),
    /// A whole number written with a sign.
    Sint(i64),
    /// A decimal, as the number its digits spell and how many of them follow the point.
    Dec { units: u64, scale: u8 },
    /// A decimal written with a sign.
    Sdec { units: i64, scale: u8 },
    /// A quoted text.
    Str(String),
    /// `TRUE` or `FALSE`.
    Bool(bool),
}

/// What a [`Literal`] holds.
#[allow(inconsistent_fields)]
#[verifier::ext_equal]
pub enum LiteralView {
    Int(u64),
    Sint(i64),
    Dec { units: u64, scale: u8 },
    Sdec { units: i64, scale: u8 },
    Str(Seq<char>),
    Bool(bool),
}

impl View for Literal {
    type V = LiteralView;

    open spec fn view(&self) -> LiteralView {
        match *self {
            Literal::Int(a) => LiteralView::Int(a),
            Literal::Sint(a) => LiteralView::Sint(a),
            Literal::Dec { units, scale } => LiteralView::Dec { units, scale },
            Literal::Sdec { units, scale } => LiteralView::Sdec { units, scale },
            Literal::Str(a) => LiteralView::Str(a@),
            Literal::Bool(a) => LiteralView::Bool(a),
        }
    }
}

impl Clone for Literal {
    fn clone(&self) -> (r: Literal)
        ensures
            r@ == self@,
    {
        self.copied()
    }
}

impl Literal {
    /// A copy.
    pub fn copied(&self) -> (r: Literal)
        ensures
            r@ == self@,
    {
        match self {
            Literal::Int(a) => Literal::Int(*a),
            Literal::Sint(a) => Literal::Sint(*a),
            Literal::Dec { units, scale } => Literal::Dec { units: *units, scale: *scale },
            Literal::Sdec { units, scale } => Literal::Sdec { units: *units, scale: *scale },
            Literal::Str(a) => Literal::Str(a.clone()),
            Literal::Bool(a) => Literal::Bool(*a),
        }
    }

    /// Whether two are the same.
    pub fn same(&self, other: &Literal) -> (r: bool)
        ensures
            r == (self@ == other@),
    {
        match (self, other) {
            (Literal::Int(x_a), Literal::Int(y_a)) => *x_a == *y_a,
            (Literal::Sint(x_a), Literal::Sint(y_a)) => *x_a == *y_a,
            (Literal::Dec { units: x_units, scale: x_scale }, Literal::Dec { units: y_units, scale: y_scale }) => *x_units == *y_units && *x_scale == *y_scale,
            (Literal::Sdec { units: x_units, scale: x_scale }, Literal::Sdec { units: y_units, scale: y_scale }) => *x_units == *y_units && *x_scale == *y_scale,
            (Literal::Str(x_a), Literal::Str(y_a)) => same(x_a.as_str(), y_a.as_str()),
            (Literal::Bool(x_a), Literal::Bool(y_a)) => *x_a == *y_a,
            _ => false,
        }
    }
}

/// One argument of a call.
#[allow(inconsistent_fields)]
#[derive(PartialEq, Eq, Debug)]
pub enum Expr {
    /// A call inside a call.
    Call(Call),
    /// A field compared against a value.
    Compare { field: String, op: String, value: Literal },
    /// An argument given by name.
    Named { name: String, value: Box<Expr> },
    /// A value.
    Literal(Literal),
    /// A bare name.
    Ident(String),
}

/// What a [`Expr`] holds.
#[allow(inconsistent_fields)]
#[verifier::ext_equal]
pub enum ExprView {
    Call(CallView),
    Compare { field: Seq<char>, op: Seq<char>, value: LiteralView },
    Named { name: Seq<char>, value: Box<ExprView> },
    Literal(LiteralView),
    Ident(Seq<char>),
}

impl Expr {
    /// What this holds.
    pub open spec fn model(&self) -> ExprView
        decreases self,
    {
        match *self {
            Expr::Call(a) => ExprView::Call(a.model()),
            Expr::Compare { field, op, value } => ExprView::Compare { field: field@, op: op@, value: value@ },
            Expr::Named { name, value } => ExprView::Named { name: name@, value: Box::new((*value).model()) },
            Expr::Literal(a) => ExprView::Literal(a@),
            Expr::Ident(a) => ExprView::Ident(a@),
        }
    }
}

impl View for Expr {
    type V = ExprView;

    open spec fn view(&self) -> ExprView {
        self.model()
    }
}

/// A call, and what it is called on.
#[derive(PartialEq, Eq, Debug)]
pub struct Call {
    pub name: String,
    pub args: Vec<Expr>,
}

/// What a [`Call`] holds.
#[verifier::ext_equal]
pub struct CallView {
    pub name: Seq<char>,
    pub args: Seq<ExprView>,
}

impl Call {
    /// What this holds.
    pub open spec fn model(&self) -> CallView
        decreases self,
    {
        CallView {
            name: self.name@,
            args: Seq::new(self.args@.len(), |i: int| if 0 <= i < self.args@.len() { self.args@[i].model() } else { arbitrary() }),
        }
    }
}

impl View for Call {
    type V = CallView;

    open spec fn view(&self) -> CallView {
        self.model()
    }
}

/// Whether two lists of literals are the same.
pub fn same_literals(a: &Vec<Literal>, b: &Vec<Literal>) -> (r: bool)
    ensures
        r == (views(a@) == views(b@)),
{
    if a.len() != b.len() {
        assert(views(a@).len() != views(b@).len());
        return false;
    }
    let mut i: usize = 0;
    while i < a.len()
        invariant
            i <= a@.len(),
            a@.len() == b@.len(),
            forall|j: int| 0 <= j < i ==> (#[trigger] a@[j])@ == b@[j]@,
        decreases a.len() - i,
    {
        if !a[i].same(&b[i]) {
            assert(views(a@)[i as int] != views(b@)[i as int]);
            return false;
        }
        i += 1;
    }
    assert(views(a@) =~= views(b@));
    true
}

/// A copy of a list of literals.
pub fn copy_literals(v: &Vec<Literal>) -> (r: Vec<Literal>)
    ensures
        views(r@) == views(v@),
{
    let mut out: Vec<Literal> = Vec::new();
    let mut i: usize = 0;
    while i < v.len()
        invariant
            i <= v.len(),
            out@.len() == i,
            forall|j: int| 0 <= j < i ==> (#[trigger] out@[j])@ == v@[j]@,
        decreases v.len() - i,
    {
        out.push(v[i].copied());
        i += 1;
    }
    assert(views(out@) =~= views(v@));
    out
}

impl Clone for Expr {
    fn clone(&self) -> (r: Expr)
        ensures
            r@ == self@,
    {
        self.copied()
    }
}

impl Expr {
    /// A copy.
    pub fn copied(&self) -> (r: Expr)
        ensures
            r@ == self@,
        decreases self,
    {
        match self {
            Expr::Call(c) => Expr::Call(c.copied()),
            Expr::Compare { field, op, value } => Expr::Compare {
                field: field.clone(),
                op: op.clone(),
                value: value.copied(),
            },
            Expr::Named { name, value } => Expr::Named {
                name: name.clone(),
                value: Box::new((**value).copied()),
            },
            Expr::Literal(l) => Expr::Literal(l.copied()),
            Expr::Ident(s) => Expr::Ident(s.clone()),
        }
    }

    /// Whether two are the same.
    pub fn same(&self, other: &Expr) -> (r: bool)
        ensures
            r == (self@ == other@),
        decreases self,
    {
        match (self, other) {
            (Expr::Call(a), Expr::Call(b)) => a.same(b),
            (
                Expr::Compare { field: f, op: o, value: v },
                Expr::Compare { field: g, op: p, value: w },
            ) => same(f.as_str(), g.as_str()) && same(o.as_str(), p.as_str()) && v.same(w),
            (Expr::Named { name: n, value: v }, Expr::Named { name: m, value: w }) => same(
                n.as_str(),
                m.as_str(),
            ) && (**v).same(&**w),
            (Expr::Literal(a), Expr::Literal(b)) => a.same(b),
            (Expr::Ident(a), Expr::Ident(b)) => same(a.as_str(), b.as_str()),
            _ => false,
        }
    }
}

impl Clone for Call {
    fn clone(&self) -> (r: Call)
        ensures
            r@ == self@,
    {
        self.copied()
    }
}

impl Call {
    /// The arguments of a call are the arguments it was written with.
    pub proof fn lemma_args(&self)
        ensures
            self@.args.len() == self.args@.len(),
            forall|i: int| 0 <= i < self.args@.len() ==> #[trigger] self@.args[i] == self.args@[i]@,
            self@.args == views(self.args@),
    {
        assert(self@.args =~= views(self.args@));
    }

    /// A copy.
    pub fn copied(&self) -> (r: Call)
        ensures
            r@ == self@,
        decreases self,
    {
        let mut args: Vec<Expr> = Vec::new();
        let mut i: usize = 0;
        while i < self.args.len()
            invariant
                i <= self.args.len(),
                args@.len() == i,
                forall|j: int| 0 <= j < i ==> (#[trigger] args@[j])@ == self.args@[j]@,
            decreases self.args.len() - i,
        {
            args.push(self.args[i].copied());
            i += 1;
        }
        let r = Call { name: self.name.clone(), args };
        assert(r@.args =~= self@.args);
        r
    }

    /// Whether two are the same.
    pub fn same(&self, other: &Call) -> (r: bool)
        ensures
            r == (self@ == other@),
        decreases self,
    {
        proof {
            self.lemma_args();
            other.lemma_args();
        }
        if !same(self.name.as_str(), other.name.as_str()) || self.args.len() != other.args.len() {
            return false;
        }
        let mut i: usize = 0;
        while i < self.args.len()
            invariant
                i <= self.args.len(),
                self.args.len() == other.args.len(),
                self@.args.len() == self.args@.len(),
                other@.args.len() == other.args@.len(),
                forall|j: int| 0 <= j < self.args@.len() ==> #[trigger] self@.args[j] == self.args@[j]@,
                forall|j: int|
                    0 <= j < other.args@.len() ==> #[trigger] other@.args[j] == other.args@[j]@,
                forall|j: int| 0 <= j < i ==> #[trigger] self@.args[j] == other@.args[j],
            decreases self.args.len() - i,
        {
            if !self.args[i].same(&other.args[i]) {
                assert(self@.args[i as int] != other@.args[i as int]);
                return false;
            }
            i += 1;
        }
        assert(self@.args =~= other@.args);
        true
    }
}

} // verus!
