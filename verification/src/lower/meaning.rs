//! What a lowered condition means, record by record.

use vstd::prelude::*;
use crate::ast::{CondView, NameView};
use crate::lower::cond::{absorbed, and_parts, any_terms, bounded, bounds_of, combined, conjoined, each_of, key_of, keyed_upto, leads, plain_upto, selected, windows_upto, PartView};
use crate::lower::pql::{called, compared};
use crate::pql::{CallView, ExprView};

verus! {

/// Which records a call over stored bits selects: a call and a record, and whether it is one.
pub type World = spec_fn(CallView, int) -> bool;

/// Whether a record is among those an expression of the query language selects.
pub open spec fn selects(e: ExprView, record: int, world: World) -> bool
    decreases e,
{
    match e {
        ExprView::Call(CallView { name, args }) => if name == "All"@ {
            true
        } else if name == "Union"@ {
            exists|k: int|
                0 <= k < args.len() && selects(#[trigger] args[k], record, world)
        } else if name == "Intersect"@ {
            forall|k: int|
                0 <= k < args.len() ==> selects(#[trigger] args[k], record, world)
        } else if name == "Not"@ && args.len() == 1 {
            !selects(args[0], record, world)
        } else if name == "Difference"@ && args.len() == 2 {
            selects(args[0], record, world) && !selects(args[1], record, world)
        } else {
            world(CallView { name, args }, record)
        },
        _ => false,
    }
}

/// Whether a condition is true of a record.
pub open spec fn true_of(c: CondView, record: int, world: World) -> bool
    decreases c,
{
    match c {
        CondView::And(a, b) => true_of(*a, record, world) && true_of(*b, record, world),
        CondView::Or(a, b) => true_of(*a, record, world) || true_of(*b, record, world),
        CondView::Not(a) => !true_of(*a, record, world),
        CondView::In { field, values } => exists|k: int|
            0 <= k < values.len() && selects(
                compared(field, "="@, #[trigger] values[k]),
                record,
                world,
            ),
        CondView::Between { field, low, high } => selects(
            compared(field, ">="@, low),
            record,
            world,
        ) && selects(compared(field, "<="@, high), record, world),
        _ => selects(selected(c), record, world),
    }
}

/// Whether no key and bounds of a condition are one question about a time.
pub open spec fn timeless(c: CondView) -> bool
    decreases
            c,
            if c is And {
                2int
            } else {
                0
            },
{
    match c {
        CondView::And(..) => (forall|k: int|
            0 <= k < and_parts(c).len() ==> !#[trigger] leads(and_parts(c), k)) && parts_timeless(c),
        CondView::Or(a, b) => timeless(*a) && timeless(*b),
        CondView::Not(a) => timeless(*a),
        _ => true,
    }
}

/// The same of the terms of a conjunction.
pub open spec fn parts_timeless(c: CondView) -> bool
    decreases
            c,
            if c is And {
                1int
            } else {
                3
            },
{
    match c {
        CondView::And(a, b) => parts_timeless(*a) && parts_timeless(*b),
        _ => timeless(c),
    }
}

/// The calls that combine others have names of their own.
proof fn lemma_names()
    ensures
        "Row"@ != "All"@ && "Row"@ != "Union"@ && "Row"@ != "Intersect"@ && "Row"@ != "Not"@
            && "Row"@ != "Difference"@,
        "Union"@ != "All"@,
        "Intersect"@ != "All"@ && "Intersect"@ != "Union"@,
        "Not"@ != "All"@ && "Not"@ != "Union"@ && "Not"@ != "Intersect"@,
        "Difference"@ != "All"@ && "Difference"@ != "Union"@ && "Difference"@ != "Intersect"@
            && "Difference"@ != "Not"@,
{
    reveal_strlit("Row");
    reveal_strlit("All");
    reveal_strlit("Union");
    reveal_strlit("Intersect");
    reveal_strlit("Not");
    reveal_strlit("Difference");
    assert("Row"@[0] == 'R');
    assert("All"@[0] == 'A');
    assert("Union"@[0] == 'U');
    assert("Intersect"@[0] == 'I');
    assert("Not"@[0] == 'N');
    assert("Difference"@[0] == 'D');
}

/// A condition selects the records it is true of.
proof fn lemma_selected(c: CondView, record: int, world: World)
    requires
        timeless(c),
    ensures
        selects(selected(c), record, world) == true_of(c, record, world),
    decreases
            c,
            if c is Or || c is And {
                2int
            } else {
                0
            },
{
    lemma_names();
    match c {
        CondView::And(..) => {
            lemma_and_parts(c, record, world);
            lemma_conjunction(c, record, world);
            assert(selected(c) == conjoined(and_parts(c)));
        },
        CondView::Or(..) => {
            lemma_any_terms(c, record, world);
            let terms = any_terms(c);
            assert(selected(c) == called("Union"@, terms));
            assert(selects(called("Union"@, terms), record, world) == (exists|k: int|
                0 <= k < terms.len() && selects(#[trigger] terms[k], record, world)));
        },
        CondView::Not(a) => {
            lemma_selected(*a, record, world);
            assert(selected(c)->Call_0.args[0] == selected(*a));
        },
        CondView::In { field, values } => {
            if values.len() == 1 {
                assert(values[0] == values[0]);
            } else {
                let args = each_of(field, values);
                assert forall|k: int| 0 <= k < values.len() implies #[trigger] args[k] == compared(
                    field,
                    "="@,
                    values[k],
                ) by {}
                if true_of(c, record, world) {
                    let k = choose|k: int|
                        0 <= k < values.len() && selects(
                            compared(field, "="@, #[trigger] values[k]),
                            record,
                            world,
                        );
                    assert(selects(args[k], record, world));
                }
                if selects(selected(c), record, world) {
                    let k = choose|k: int|
                        0 <= k < args.len() && selects(#[trigger] args[k], record, world);
                    assert(selects(compared(field, "="@, values[k]), record, world));
                }
            }
        },
        CondView::Between { field, low, high } => {
            let args = selected(c)->Call_0.args;
            assert(args[0] == compared(field, ">="@, low));
            assert(args[1] == compared(field, "<="@, high));
            assert(args.len() == 2);
        },
        _ => {},
    }
}

/// A conjunction selects the records each of its terms is true of.
proof fn lemma_conjunction(c: CondView, record: int, world: World)
    requires
        forall|k: int| 0 <= k < and_parts(c).len() ==> !#[trigger] leads(and_parts(c), k),
        forall|k: int|
            0 <= k < and_parts(c).len() ==> part_holds(#[trigger] and_parts(c)[k], record, world)
                == true_of(and_parts(c)[k].cond, record, world),
    ensures
        selects(conjoined(and_parts(c)), record, world) == true_of(c, record, world),
{
    let parts = and_parts(c);
    lemma_conjoined(parts, record, world);
    lemma_parts_hold(c, record, world);
    let a = forall|k: int| 0 <= k < parts.len() ==> part_holds(#[trigger] parts[k], record, world);
    let b = forall|k: int|
        0 <= k < parts.len() ==> true_of((#[trigger] parts[k]).cond, record, world);
    assert(selects(conjoined(parts), record, world) == a);
    assert(true_of(c, record, world) == b);
    if a {
        assert forall|k: int| 0 <= k < parts.len() implies true_of(
            (#[trigger] parts[k]).cond,
            record,
            world,
        ) by {
            assert(part_holds(parts[k], record, world));
        }
    }
    if b {
        assert forall|k: int| 0 <= k < parts.len() implies part_holds(
            #[trigger] parts[k],
            record,
            world,
        ) by {
            assert(true_of(parts[k].cond, record, world));
        }
    }
}

proof fn lemma_any_terms(c: CondView, record: int, world: World)
    requires
        timeless(c),
    ensures
        (exists|k: int|
            0 <= k < any_terms(c).len() && selects(#[trigger] any_terms(c)[k], record, world))
            == true_of(c, record, world),
    decreases
            c,
            if c is Or {
                1int
            } else {
                3
            },
{
    match c {
        CondView::Or(a, b) => {
            lemma_any_terms(*a, record, world);
            lemma_any_terms(*b, record, world);
            let x = any_terms(*a);
            let y = any_terms(*b);
            let z = any_terms(c);
            if true_of(*a, record, world) {
                let k = choose|k: int| 0 <= k < x.len() && selects(#[trigger] x[k], record, world);
                assert(z[k] == x[k]);
            }
            if true_of(*b, record, world) {
                let k = choose|k: int| 0 <= k < y.len() && selects(#[trigger] y[k], record, world);
                assert(z[x.len() + k] == y[k]);
            }
            if exists|k: int| 0 <= k < z.len() && selects(#[trigger] z[k], record, world) {
                let k = choose|k: int| 0 <= k < z.len() && selects(#[trigger] z[k], record, world);
                if k < x.len() {
                    assert(x[k] == z[k]);
                } else {
                    assert(y[k - x.len()] == z[k]);
                }
            }
        },
        _ => {
            lemma_selected(c, record, world);
            assert(any_terms(c)[0] == selected(c));
        },
    }
}

/// Whether a term of a conjunction is true of a record.
pub open spec fn part_holds(part: PartView, record: int, world: World) -> bool {
    selects(part.rows, record, world) != (part.cond is Not)
}

/// Every term of a conjunction selects, or takes away, the records its condition says.
proof fn lemma_and_parts(c: CondView, record: int, world: World)
    requires
        parts_timeless(c),
    ensures
        forall|k: int|
            0 <= k < and_parts(c).len() ==> part_holds(#[trigger] and_parts(c)[k], record, world)
                == true_of(and_parts(c)[k].cond, record, world),
    decreases
            c,
            if c is And {
                1int
            } else {
                3
            },
{
    match c {
        CondView::And(a, b) => {
            lemma_and_parts(*a, record, world);
            lemma_and_parts(*b, record, world);
            let x = and_parts(*a);
            let y = and_parts(*b);
            assert forall|k: int| 0 <= k < and_parts(c).len() implies part_holds(
                #[trigger] and_parts(c)[k],
                record,
                world,
            ) == true_of(and_parts(c)[k].cond, record, world) by {
                if k < x.len() {
                    assert(and_parts(c)[k] == x[k]);
                } else {
                    assert(and_parts(c)[k] == y[k - x.len()]);
                }
            }
        },
        CondView::Not(a) => {
            assert(timeless(c));
            lemma_selected(*a, record, world);
        },
        _ => {
            lemma_selected(c, record, world);
        },
    }
}

/// A conjunction is true where each of its terms is.
proof fn lemma_parts_hold(c: CondView, record: int, world: World)
    ensures
        true_of(c, record, world) == (forall|k: int|
            0 <= k < and_parts(c).len() ==> true_of(
                (#[trigger] and_parts(c)[k]).cond,
                record,
                world,
            )),
    decreases c,
{
    match c {
        CondView::And(a, b) => {
            lemma_parts_hold(*a, record, world);
            lemma_parts_hold(*b, record, world);
            let x = and_parts(*a);
            let y = and_parts(*b);
            let z = and_parts(c);
            if forall|k: int| 0 <= k < z.len() ==> true_of((#[trigger] z[k]).cond, record, world) {
                assert forall|k: int| 0 <= k < x.len() implies true_of(
                    (#[trigger] x[k]).cond,
                    record,
                    world,
                ) by {
                    assert(z[k] == x[k]);
                }
                assert forall|k: int| 0 <= k < y.len() implies true_of(
                    (#[trigger] y[k]).cond,
                    record,
                    world,
                ) by {
                    assert(z[x.len() + k] == y[k]);
                }
            }
            if true_of(c, record, world) {
                assert forall|k: int| 0 <= k < z.len() implies true_of(
                    (#[trigger] z[k]).cond,
                    record,
                    world,
                ) by {
                    if k < x.len() {
                        assert(z[k] == x[k]);
                    } else {
                        assert(z[k] == y[k - x.len()]);
                    }
                }
            }
        },
        _ => {
            assert(and_parts(c)[0].cond == c);
        },
    }
}

/// Where some term compares a key of a column, one is the first to.
proof fn lemma_first_key(parts: Seq<PartView>, field: NameView, n: int) -> (i: int)
    requires
        0 <= n <= parts.len(),
        keyed_upto(parts, n, field),
    ensures
        0 <= i < n,
        key_of(parts[i].cond) is Some,
        (key_of(parts[i].cond)->0).0 == field,
        !keyed_upto(parts, i, field),
    decreases n,
{
    if keyed_upto(parts, n - 1, field) {
        lemma_first_key(parts, field, n - 1)
    } else {
        n - 1
    }
}

/// Where nothing leads, nothing is absorbed.
proof fn lemma_nothing_absorbed(parts: Seq<PartView>, k: int)
    requires
        0 <= k < parts.len(),
        forall|i: int| 0 <= i < parts.len() ==> !#[trigger] leads(parts, i),
    ensures
        !absorbed(parts, k),
{
    if absorbed(parts, k) {
        let i = choose|i: int|
            0 <= i < parts.len() && key_of((#[trigger] parts[i]).cond) is Some && bounds_of(
                parts[k].cond,
                (key_of(parts[i].cond)->0).0,
            ) is Some;
        let field = (key_of(parts[i].cond)->0).0;
        assert(bounded(parts, field));
        assert(keyed_upto(parts, parts.len() as int, field));
        let first = lemma_first_key(parts, field, parts.len() as int);
        assert(leads(parts, first));
    }
}

/// Without windows the plain terms are all the terms, in order.
proof fn lemma_plain(parts: Seq<PartView>, n: int, record: int, world: World)
    requires
        0 <= n <= parts.len(),
        forall|i: int| 0 <= i < parts.len() ==> !#[trigger] leads(parts, i),
    ensures
        windows_upto(parts, n).len() == 0,
        (forall|k: int| 0 <= k < n ==> part_holds(#[trigger] parts[k], record, world)) == ((forall|
            k: int,
        |
            0 <= k < plain_upto(parts, n, false).len() ==> selects(
                #[trigger] plain_upto(parts, n, false)[k],
                record,
                world,
            )) && (forall|k: int|
            0 <= k < plain_upto(parts, n, true).len() ==> !selects(
                #[trigger] plain_upto(parts, n, true)[k],
                record,
                world,
            ))),
        plain_upto(parts, n, false).len() + plain_upto(parts, n, true).len() == n,
    decreases n,
{
    if n > 0 {
        lemma_plain(parts, n - 1, record, world);
        lemma_nothing_absorbed(parts, n - 1);
        assert(!leads(parts, n - 1));
        let negated = parts[n - 1].cond is Not;
        let before = plain_upto(parts, n - 1, negated);
        let now = plain_upto(parts, n, negated);
        assert(now == before.push(parts[n - 1].rows));
        assert(plain_upto(parts, n, !negated) == plain_upto(parts, n - 1, !negated));
        assert forall|k: int| 0 <= k < before.len() implies #[trigger] before[k] == now[k] by {}
        assert(now[before.len() as int] == parts[n - 1].rows);
        let all_before = forall|k: int|
            0 <= k < n - 1 ==> part_holds(#[trigger] parts[k], record, world);
        let all_now = forall|k: int| 0 <= k < n ==> part_holds(#[trigger] parts[k], record, world);
        assert(all_now == (all_before && part_holds(parts[n - 1], record, world)));
        if negated {
            let a = forall|k: int|
                0 <= k < before.len() ==> !selects(#[trigger] before[k], record, world);
            let b = forall|k: int| 0 <= k < now.len() ==> !selects(#[trigger] now[k], record, world);
            assert(b == (a && !selects(parts[n - 1].rows, record, world))) by {
                if a && !selects(parts[n - 1].rows, record, world) {
                    assert forall|k: int| 0 <= k < now.len() implies !selects(
                        #[trigger] now[k],
                        record,
                        world,
                    ) by {
                        if k < before.len() {
                            assert(before[k] == now[k]);
                        }
                    }
                }
            }
        } else {
            let a = forall|k: int|
                0 <= k < before.len() ==> selects(#[trigger] before[k], record, world);
            let b = forall|k: int| 0 <= k < now.len() ==> selects(#[trigger] now[k], record, world);
            assert(b == (a && selects(parts[n - 1].rows, record, world))) by {
                if a && selects(parts[n - 1].rows, record, world) {
                    assert forall|k: int| 0 <= k < now.len() implies selects(
                        #[trigger] now[k],
                        record,
                        world,
                    ) by {
                        if k < before.len() {
                            assert(before[k] == now[k]);
                        }
                    }
                }
            }
        }
    }
}

/// Several terms under an `Intersect` select what each of them does.
proof fn lemma_all_of(terms: Seq<ExprView>, record: int, world: World)
    requires
        terms.len() > 0,
    ensures
        combined("Intersect"@, terms) is Some,
        selects(combined("Intersect"@, terms)->0, record, world) == (forall|k: int|
            0 <= k < terms.len() ==> selects(#[trigger] terms[k], record, world)),
{
    lemma_names();
    if terms.len() == 1 {
        assert(terms[0] == combined("Intersect"@, terms)->0);
    }
}

/// Several terms under a `Union` select what one of them does.
proof fn lemma_any_of(terms: Seq<ExprView>, record: int, world: World)
    requires
        terms.len() > 0,
    ensures
        combined("Union"@, terms) is Some,
        selects(combined("Union"@, terms)->0, record, world) == (exists|k: int|
            0 <= k < terms.len() && selects(#[trigger] terms[k], record, world)),
{
    lemma_names();
    if terms.len() == 1 {
        assert(terms[0] == combined("Union"@, terms)->0);
    }
}

/// Taking the negated terms away from the others selects the records every term is true of.
proof fn lemma_conjoined(parts: Seq<PartView>, record: int, world: World)
    requires
        forall|i: int| 0 <= i < parts.len() ==> !#[trigger] leads(parts, i),
    ensures
        selects(conjoined(parts), record, world) == (forall|k: int|
            0 <= k < parts.len() ==> part_holds(#[trigger] parts[k], record, world)),
{
    let n = parts.len() as int;
    lemma_names();
    lemma_plain(parts, n, record, world);
    let plain = plain_upto(parts, n, false);
    let drop = plain_upto(parts, n, true);
    let keep = windows_upto(parts, n) + plain;
    assert(keep =~= plain);
    let kept = forall|k: int| 0 <= k < plain.len() ==> selects(#[trigger] plain[k], record, world);
    let dropped = exists|k: int| 0 <= k < drop.len() && selects(#[trigger] drop[k], record, world);
    if plain.len() > 0 {
        lemma_all_of(plain, record, world);
    }
    if drop.len() > 0 {
        lemma_any_of(drop, record, world);
    }
    let e = conjoined(parts);
    if plain.len() > 0 && drop.len() > 0 {
        assert(e->Call_0.args[0] == combined("Intersect"@, plain)->0);
        assert(e->Call_0.args[1] == combined("Union"@, drop)->0);
        assert(selects(e, record, world) == (kept && !dropped));
    } else if plain.len() > 0 {
        assert(selects(e, record, world) == kept);
    } else if drop.len() > 0 {
        assert(e->Call_0.args[0] == combined("Union"@, drop)->0);
        assert(selects(e, record, world) == !dropped);
    }
}

/// A `WHERE` is lowered to a set operation that selects exactly the records the condition is true
/// of, whatever the stored bits are: a negated term that is taken away and one that is complemented
/// select the same records, and so do brackets that are kept and brackets that are flattened.
///
/// A key and the bounds written against the same column are one question about a time, which is
/// not the conjunction of the two.
pub proof fn a_condition_selects_what_it_says(c: CondView, record: int, world: World)
    requires
        timeless(c),
    ensures
        selects(selected(c), record, world) == true_of(c, record, world),
{
    lemma_selected(c, record, world);
}

} // verus!
