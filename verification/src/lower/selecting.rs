//! A lowered condition selects the records it is true of.

use vstd::prelude::*;
use crate::ast::{CondView, NameView, Rounding, SourceView};
use crate::lower::cond::{absorbed, and_parts, any_terms, bounded, bounds_of, bounds_upto, combined, conjoined, each_of, fused, key_of, keyed_upto, leads, plain_upto, rounded, selected, windows_upto, PartView};
use crate::lower::model::{a_column, a_text, argument, bounds_a_key, bounds_time, conjuncts, dated, ends, first_dated, gives_key, holds, holds_at, last_end, last_start, picks, some_bounds, some_key, starts, test_of, whole_name, Stored, Test};
use crate::lower::pql::{called, compared, every_row, windowed};
use crate::pql::{ExprView, LiteralView};

verus! {

/// The calls that select records have names of their own.
pub proof fn lemma_call_names()
    ensures
        "Row"@ != "All"@ && "Row"@ != "Union"@ && "Row"@ != "Intersect"@ && "Row"@ != "Not"@
            && "Row"@ != "Difference"@ && "Row"@ != "InRecords"@ && "Row"@ != "Segment"@,
        "Segment"@ != "All"@ && "Segment"@ != "Union"@ && "Segment"@ != "Intersect"@ && "Segment"@
            != "Not"@ && "Segment"@ != "Difference"@ && "Segment"@ != "InRecords"@,
        "InRecords"@ != "All"@ && "InRecords"@ != "Union"@ && "InRecords"@ != "Intersect"@
            && "InRecords"@ != "Not"@ && "InRecords"@ != "Difference"@,
        "Union"@ != "All"@,
        "Intersect"@ != "All"@ && "Intersect"@ != "Union"@,
        "Not"@ != "All"@ && "Not"@ != "Union"@ && "Not"@ != "Intersect"@,
        "Difference"@ != "All"@ && "Difference"@ != "Union"@ && "Difference"@ != "Intersect"@
            && "Difference"@ != "Not"@,
        "round"@ != "digits"@ && "from"@ != "to"@,
{
    reveal_strlit("Row");
    reveal_strlit("Segment");
    reveal_strlit("InRecords");
    reveal_strlit("All");
    reveal_strlit("Union");
    reveal_strlit("Intersect");
    reveal_strlit("Not");
    reveal_strlit("Difference");
    reveal_strlit("round");
    reveal_strlit("digits");
    reveal_strlit("from");
    reveal_strlit("to");
    assert("Row"@[0] == 'R');
    assert("Segment"@[0] == 'S');
    assert("InRecords"@[2] == 'R');
    assert("All"@[0] == 'A');
    assert("Union"@[0] == 'U');
    assert("Intersect"@[0] == 'I');
    assert("Intersect"@[2] == 't');
    assert("Not"@[0] == 'N');
    assert("Difference"@[0] == 'D');
    assert("round"@[0] == 'r');
    assert("digits"@[0] == 'd');
    assert("from"@[0] == 'f');
    assert("to"@[0] == 't');
}

/// A comparison selects the records that compare so.
pub proof fn lemma_compared(
    field: NameView,
    op: Seq<char>,
    value: LiteralView,
    table: Seq<char>,
    r: int,
    w: Stored,
)
    ensures
        picks(compared(field, op, value), table, r, w) == (w.passes)(
            table,
            r,
            Test::Compares { field: field.column, op, value },
        ),
{
    lemma_call_names();
    let args = seq![ExprView::Compare { field: field.column, op, value }];
    assert(args[0] == ExprView::Compare { field: field.column, op, value });
    assert(test_of("Row"@, args) == Some(Test::Compares { field: field.column, op, value }));
}

/// A rounded comparison selects the records that compare so when rounded.
proof fn lemma_rounded(
    field: NameView,
    round: Rounding,
    op: Seq<char>,
    value: LiteralView,
    table: Seq<char>,
    r: int,
    w: Stored,
)
    ensures
        picks(rounded(field, round, op, value), table, r, w) == holds(
            CondView::Rounded { field, round, op, value },
            table,
            r,
            w,
        ),
{
    lemma_call_names();
    let args = rounded(field, round, op, value)->Call_0.args;
    reveal_with_fuel(argument, 4);
    assert(args.len() > 1);
    assert(args[0] == ExprView::Compare { field: field.column, op, value });
    assert(argument(args, 1, "round"@) is Some);
    match round {
        Rounding::Round { .. } => {
            assert(args.len() == 3);
        },
        _ => {
            assert(args.len() == 2);
        },
    }
}

/// A window selects the records given the key in that time.
proof fn lemma_windowed(
    field: NameView,
    key: Seq<char>,
    from: Option<u64>,
    to: Option<u64>,
    table: Seq<char>,
    r: int,
    w: Stored,
)
    ensures
        picks(windowed(field, key, from, to), table, r, w) == (w.passes)(
            table,
            r,
            Test::Within { field: field.column, key, from, to },
        ),
{
    lemma_call_names();
    let args = windowed(field, key, from, to)->Call_0.args;
    reveal_with_fuel(argument, 4);
    assert(args.len() == 1 + if from is Some {
        1int
    } else {
        0
    } + if to is Some {
        1int
    } else {
        0
    });
    assert(args[0] is Named);
    assert(test_of("Row"@, args) == Some(Test::Within { field: field.column, key, from, to }));
}

/// Whether a term of a conjunction selects a record, or takes it away.
spec fn part_picks(part: PartView, table: Seq<char>, r: int, w: Stored) -> bool {
    picks(part.rows, table, r, w) != (part.cond is Not)
}

/// What a term of a conjunction comes to: a window, nothing where a window takes it in, or itself.
spec fn role(parts: Seq<PartView>, k: int, table: Seq<char>, r: int, w: Stored) -> bool {
    if leads(parts, k) {
        picks(fused(parts, k), table, r, w)
    } else if absorbed(parts, k) {
        true
    } else {
        part_picks(parts[k], table, r, w)
    }
}

/// Windows, plain terms and negated terms are between them what the terms come to.
proof fn lemma_roles(parts: Seq<PartView>, n: int, table: Seq<char>, r: int, w: Stored)
    requires
        0 <= n <= parts.len(),
    ensures
        (forall|k: int| 0 <= k < n ==> #[trigger] role(parts, k, table, r, w)) == (all_pick(
            windows_upto(parts, n),
            table,
            r,
            w,
        ) && all_pick(plain_upto(parts, n, false), table, r, w) && !one_picks(
            plain_upto(parts, n, true),
            table,
            r,
            w,
        )),
    decreases n,
{
    if n > 0 {
        lemma_roles(parts, n - 1, table, r, w);
        let now = forall|k: int| 0 <= k < n ==> #[trigger] role(parts, k, table, r, w);
        let before = forall|k: int| 0 <= k < n - 1 ==> #[trigger] role(parts, k, table, r, w);
        assert(now == (before && role(parts, n - 1, table, r, w))) by {
            if now {
                assert(role(parts, n - 1, table, r, w));
            }
        }
        if leads(parts, n - 1) {
            lemma_push(windows_upto(parts, n - 1), fused(parts, n - 1), table, r, w);
        } else if !absorbed(parts, n - 1) {
            lemma_push(
                plain_upto(parts, n - 1, parts[n - 1].cond is Not),
                parts[n - 1].rows,
                table,
                r,
                w,
            );
        }
    }
}

/// Whether every one of some expressions selects a record.
spec fn all_pick(terms: Seq<ExprView>, table: Seq<char>, r: int, w: Stored) -> bool {
    forall|k: int| 0 <= k < terms.len() ==> picks(#[trigger] terms[k], table, r, w)
}

/// Whether one of some expressions selects a record.
spec fn one_picks(terms: Seq<ExprView>, table: Seq<char>, r: int, w: Stored) -> bool {
    exists|k: int| 0 <= k < terms.len() && picks(#[trigger] terms[k], table, r, w)
}

proof fn lemma_push(terms: Seq<ExprView>, e: ExprView, table: Seq<char>, r: int, w: Stored)
    ensures
        all_pick(terms.push(e), table, r, w) == (all_pick(terms, table, r, w) && picks(
            e,
            table,
            r,
            w,
        )),
        one_picks(terms.push(e), table, r, w) == (one_picks(terms, table, r, w) || picks(
            e,
            table,
            r,
            w,
        )),
{
    let now = terms.push(e);
    assert(now[terms.len() as int] == e);
    assert forall|k: int| 0 <= k < terms.len() implies #[trigger] terms[k] == now[k] by {}
    if all_pick(now, table, r, w) {
        assert forall|k: int| 0 <= k < terms.len() implies picks(
            #[trigger] terms[k],
            table,
            r,
            w,
        ) by {
            assert(picks(now[k], table, r, w));
        }
    }
    if one_picks(terms, table, r, w) {
        let k = choose|k: int| 0 <= k < terms.len() && picks(#[trigger] terms[k], table, r, w);
        assert(picks(now[k], table, r, w));
    }
    if one_picks(now, table, r, w) && !picks(e, table, r, w) {
        let k = choose|k: int| 0 <= k < now.len() && picks(#[trigger] now[k], table, r, w);
        assert(picks(terms[k], table, r, w));
    }
}

proof fn lemma_add(a: Seq<ExprView>, b: Seq<ExprView>, table: Seq<char>, r: int, w: Stored)
    ensures
        all_pick(a + b, table, r, w) == (all_pick(a, table, r, w) && all_pick(b, table, r, w)),
        one_picks(a + b, table, r, w) == (one_picks(a, table, r, w) || one_picks(b, table, r, w)),
    decreases b.len(),
{
    if b.len() == 0 {
        assert(a + b =~= a);
    } else {
        lemma_add(a, b.drop_last(), table, r, w);
        lemma_push(a + b.drop_last(), b.last(), table, r, w);
        lemma_push(b.drop_last(), b.last(), table, r, w);
        assert(b.drop_last().push(b.last()) =~= b);
        assert((a + b.drop_last()).push(b.last()) =~= a + b);
    }
}

/// Terms combined select what each of them does, or what one of them does.
proof fn lemma_combined(terms: Seq<ExprView>, table: Seq<char>, r: int, w: Stored)
    requires
        terms.len() > 0,
    ensures
        picks(combined("Intersect"@, terms)->0, table, r, w) == all_pick(terms, table, r, w),
        picks(combined("Union"@, terms)->0, table, r, w) == one_picks(terms, table, r, w),
{
    lemma_call_names();
    if terms.len() == 1 {
        assert(combined("Union"@, terms)->0 == terms[0]);
        assert(combined("Intersect"@, terms)->0 == terms[0]);
        if picks(terms[0], table, r, w) {
            assert(one_picks(terms, table, r, w));
        }
    } else {
        let all = called("Intersect"@, terms);
        let any = called("Union"@, terms);
        assert(combined("Intersect"@, terms)->0 == all);
        assert(combined("Union"@, terms)->0 == any);
        assert(all->Call_0.args == terms);
        assert(any->Call_0.args == terms);
        assert(picks(all, table, r, w) == all_pick(terms, table, r, w));
        assert(picks(any, table, r, w) == one_picks(terms, table, r, w));
    }
}

/// A conjunction selects the records that what its terms come to is true of.
proof fn lemma_conjoined(parts: Seq<PartView>, table: Seq<char>, r: int, w: Stored)
    ensures
        picks(conjoined(parts), table, r, w) == (forall|k: int|
            0 <= k < parts.len() ==> #[trigger] role(parts, k, table, r, w)),
{
    lemma_call_names();
    let n = parts.len() as int;
    lemma_roles(parts, n, table, r, w);
    let kept = windows_upto(parts, n) + plain_upto(parts, n, false);
    let dropped = plain_upto(parts, n, true);
    lemma_add(windows_upto(parts, n), plain_upto(parts, n, false), table, r, w);
    let e = conjoined(parts);
    if kept.len() > 0 {
        lemma_combined(kept, table, r, w);
    }
    if dropped.len() > 0 {
        lemma_combined(dropped, table, r, w);
    }
    if kept.len() > 0 && dropped.len() > 0 {
        assert(e->Call_0.args[0] == combined("Intersect"@, kept)->0);
        assert(e->Call_0.args[1] == combined("Union"@, dropped)->0);
        assert(picks(e, table, r, w) == (all_pick(kept, table, r, w) && !one_picks(
            dropped,
            table,
            r,
            w,
        )));
    } else if dropped.len() > 0 {
        assert(e->Call_0.args[0] == combined("Union"@, dropped)->0);
    }
}

/// The terms of a conjunction are its conditions.
proof fn lemma_parts(c: CondView)
    ensures
        and_parts(c).len() == conjuncts(c).len(),
        forall|k: int| 0 <= k < conjuncts(c).len() ==> (#[trigger] and_parts(c)[k]).cond
            == conjuncts(c)[k],
    decreases c,
{
    match c {
        CondView::And(a, b) => {
            lemma_parts(*a);
            lemma_parts(*b);
            let x = and_parts(*a);
            let y = and_parts(*b);
            assert forall|k: int| 0 <= k < conjuncts(c).len() implies (#[trigger] and_parts(
                c,
            )[k]).cond == conjuncts(c)[k] by {
                if k < x.len() {
                    assert(and_parts(c)[k] == x[k]);
                } else {
                    assert(and_parts(c)[k] == y[k - x.len()]);
                }
            }
        },
        _ => {},
    }
}

/// A key is a key, and bounds are bounds.
proof fn lemma_bounds(c: CondView, field: NameView)
    ensures
        key_of(c) == gives_key(c),
        bounds_of(c, field) is Some == bounds_time(c, field),
        bounds_of(c, field) matches Some(b) ==> b.0 == starts(c, field) && b.1 == ends(c, field),
        gives_key(c) is Some ==> !bounds_time(c, field),
{
    reveal_strlit(">=");
    reveal_strlit(">");
    reveal_strlit("<=");
    reveal_strlit("<");
    assert(">="@[0] == '>');
    assert(">"@[0] == '>');
    assert("<="@[0] == '<');
    assert("<"@[0] == '<');
}

proof fn lemma_last(parts: Seq<PartView>, all: Seq<CondView>, n: int, field: NameView)
    requires
        parts.len() == all.len(),
        0 <= n <= all.len(),
        forall|k: int| 0 <= k < all.len() ==> (#[trigger] parts[k]).cond == all[k],
    ensures
        bounds_upto(parts, n, field) == (last_start(all, n, field), last_end(all, n, field)),
    decreases n,
{
    if n > 0 {
        lemma_last(parts, all, n - 1, field);
        assert(parts[n - 1].cond == all[n - 1]);
        lemma_bounds(all[n - 1], field);
    }
}

/// A term comes to what stands at its position of the conjunction.
proof fn lemma_same_role(parts: Seq<PartView>, all: Seq<CondView>, at: int)
    requires
        parts.len() == all.len(),
        0 <= at < all.len(),
        forall|k: int| 0 <= k < all.len() ==> (#[trigger] parts[k]).cond == all[k],
    ensures
        leads(parts, at) == first_dated(all, at, all[at]),
        absorbed(parts, at) == bounds_a_key(all, all[at]),
        leads(parts, at) ==> {
            let (field, key) = gives_key(all[at])->0;
            fused(parts, at) == windowed(
                field,
                key,
                last_start(all, all.len() as int, field),
                last_end(all, all.len() as int, field),
            )
        },
{
    assert(parts[at].cond == all[at]);
    assert forall|k: int, field: NameView| 0 <= k < all.len() implies #[trigger] key_of(
        parts[k].cond,
    ) == gives_key(all[k]) && bounds_of(parts[k].cond, field) is Some == #[trigger] bounds_time(
        all[k],
        field,
    ) by {
        assert(parts[k].cond == all[k]);
        lemma_bounds(all[k], field);
    }
    assert forall|k: int| 0 <= k < all.len() implies key_of((#[trigger] parts[k]).cond)
        == gives_key(all[k]) by {
        lemma_bounds(all[k], NameView { qualifier: None, column: Seq::empty() });
    }
    lemma_bounds(all[at], NameView { qualifier: None, column: Seq::empty() });
    if let Some((field, key)) = gives_key(all[at]) {
        lemma_last(parts, all, all.len() as int, field);
        assert(bounded(parts, field) == some_bounds(all, field)) by {
            if bounded(parts, field) {
                let k = choose|k: int|
                    0 <= k < parts.len() && bounds_of((#[trigger] parts[k]).cond, field) is Some;
                assert(bounds_time(all[k], field));
            }
            if some_bounds(all, field) {
                let k = choose|k: int| 0 <= k < all.len() && bounds_time(#[trigger] all[k], field);
                assert(bounds_of(parts[k].cond, field) is Some);
            }
        }
        assert(keyed_upto(parts, at, field) == some_key(all, at, field)) by {
            if keyed_upto(parts, at, field) {
                let k = choose|k: int|
                    0 <= k < at && key_of((#[trigger] parts[k]).cond) is Some && (key_of(
                        parts[k].cond,
                    )->0).0 == field;
                assert(gives_key(all[k]) is Some);
            }
            if some_key(all, at, field) {
                let k = choose|k: int|
                    0 <= k < at && gives_key(#[trigger] all[k]) is Some && (gives_key(all[k])->0).0
                        == field;
                assert(key_of(parts[k].cond) is Some);
            }
        }
    }
    if absorbed(parts, at) {
        let k = choose|k: int|
            0 <= k < parts.len() && key_of((#[trigger] parts[k]).cond) is Some && bounds_of(
                parts[at].cond,
                (key_of(parts[k].cond)->0).0,
            ) is Some;
        assert(gives_key(all[k]) is Some);
        lemma_bounds(all[at], (gives_key(all[k])->0).0);
    }
    if bounds_a_key(all, all[at]) {
        let k = choose|k: int|
            0 <= k < all.len() && gives_key(#[trigger] all[k]) is Some && bounds_time(
                all[at],
                (gives_key(all[k])->0).0,
            );
        assert(key_of(parts[k].cond) is Some);
        lemma_bounds(all[at], (gives_key(all[k])->0).0);
    }
}

/// What stands from a position of a conjunction on is true where its terms come to that.
proof fn lemma_stands(
    c: CondView,
    whole: CondView,
    at: int,
    table: Seq<char>,
    r: int,
    w: Stored,
)
    requires
        0 <= at,
        at + conjuncts(c).len() <= conjuncts(whole).len(),
        forall|k: int|
            0 <= k < conjuncts(c).len() ==> (#[trigger] and_parts(c)[k]) == and_parts(whole)[at
                + k],
    ensures
        holds_at(c, conjuncts(whole), at, table, r, w) == (forall|k: int|
            at <= k < at + conjuncts(c).len() ==> #[trigger] role(
                and_parts(whole),
                k,
                table,
                r,
                w,
            )),
    decreases
            c,
            if c is And {
                0int
            } else {
                4
            },
{
    let parts = and_parts(whole);
    let all = conjuncts(whole);
    lemma_parts(whole);
    lemma_parts(c);
    match c {
        CondView::And(a, b) => {
            lemma_parts(*a);
            lemma_parts(*b);
            let x = and_parts(*a);
            let y = and_parts(*b);
            let n = x.len() as int;
            assert forall|k: int| 0 <= k < conjuncts(*a).len() implies (#[trigger] x[k])
                == parts[at + k] by {
                assert(and_parts(c)[k] == x[k]);
            }
            assert forall|k: int| 0 <= k < conjuncts(*b).len() implies (#[trigger] y[k])
                == parts[at + n + k] by {
                assert(and_parts(c)[n + k] == y[k]);
                assert(and_parts(c)[n + k] == parts[at + (n + k)]);
            }
            lemma_stands(*a, whole, at, table, r, w);
            lemma_stands(*b, whole, at + n, table, r, w);
            let both = forall|k: int|
                at <= k < at + conjuncts(c).len() ==> #[trigger] role(parts, k, table, r, w);
            let first = forall|k: int| at <= k < at + n ==> #[trigger] role(parts, k, table, r, w);
            let rest = forall|k: int|
                at + n <= k < at + n + conjuncts(*b).len() ==> #[trigger] role(
                    parts,
                    k,
                    table,
                    r,
                    w,
                );
            assert(conjuncts(c).len() == n + conjuncts(*b).len());
            assert(both == (first && rest)) by {
                if first && rest {
                    assert forall|k: int|
                        at <= k < at + conjuncts(c).len() implies #[trigger] role(
                        parts,
                        k,
                        table,
                        r,
                        w,
                    ) by {
                        if k < at + n {
                        } else {
                        }
                    }
                }
            }
        },
        _ => {
            assert(conjuncts(c).len() == 1);
            assert(and_parts(c)[0] == parts[at + 0]);
            assert(parts[at] == and_parts(c)[0]);
            assert(parts[at].cond == c);
            assert(all[at] == c);
            lemma_same_role(parts, all, at);
            if first_dated(all, at, c) {
                let (field, key) = gives_key(c)->0;
                lemma_windowed(
                    field,
                    key,
                    last_start(all, all.len() as int, field),
                    last_end(all, all.len() as int, field),
                    table,
                    r,
                    w,
                );
                assert(dated(all, c) == Test::Within {
                    field: field.column,
                    key,
                    from: last_start(all, all.len() as int, field),
                    to: last_end(all, all.len() as int, field),
                });
            } else {
                match c {
                    CondView::Not(a) => {
                        lemma_picks(*a, table, r, w);
                        assert(and_parts(c)[0].rows == selected(*a));
                        assert(part_picks(parts[at], table, r, w) == !holds(*a, table, r, w));
                        assert(holds(c, table, r, w) == !holds(*a, table, r, w));
                    },
                    _ => {
                        lemma_picks(c, table, r, w);
                        assert(and_parts(c)[0].rows == selected(c));
                        assert(part_picks(parts[at], table, r, w) == holds(c, table, r, w));
                    },
                }
                assert(holds_at(c, all, at, table, r, w) == if bounds_a_key(all, c) {
                    true
                } else {
                    holds(c, table, r, w)
                });
                assert(role(parts, at, table, r, w) == if absorbed(parts, at) {
                    true
                } else {
                    part_picks(parts[at], table, r, w)
                });
            }
            assert(holds_at(c, all, at, table, r, w) == role(parts, at, table, r, w));
        },
    }
}

proof fn lemma_terms(c: CondView, table: Seq<char>, r: int, w: Stored)
    ensures
        one_picks(any_terms(c), table, r, w) == holds(c, table, r, w),
    decreases
            c,
            if c is Or {
                1int
            } else {
                4
            },
{
    match c {
        CondView::Or(a, b) => {
            lemma_terms(*a, table, r, w);
            lemma_terms(*b, table, r, w);
            lemma_add(any_terms(*a), any_terms(*b), table, r, w);
        },
        _ => {
            lemma_picks(c, table, r, w);
            assert(any_terms(c)[0] == selected(c));
            if picks(selected(c), table, r, w) {
                assert(one_picks(any_terms(c), table, r, w));
            }
        },
    }
}

/// Whether a record is among those a list of values selects.
proof fn lemma_listed(
    field: NameView,
    values: Seq<LiteralView>,
    table: Seq<char>,
    r: int,
    w: Stored,
)
    ensures
        one_picks(each_of(field, values), table, r, w) == holds(
            CondView::In { field, values },
            table,
            r,
            w,
        ),
{
    let args = each_of(field, values);
    assert forall|k: int| 0 <= k < values.len() implies picks(#[trigger] args[k], table, r, w) == (
    w.passes)(
        table,
        r,
        Test::Compares { field: field.column, op: "="@, value: values[k] },
    ) by {
        lemma_compared(field, "="@, values[k], table, r, w);
    }
    if holds(CondView::In { field, values }, table, r, w) {
        let k = choose|k: int|
            0 <= k < values.len() && (w.passes)(
                table,
                r,
                Test::Compares { field: field.column, op: "="@, value: #[trigger] values[k] },
            );
        assert(picks(args[k], table, r, w));
    }
    if one_picks(args, table, r, w) {
        let k = choose|k: int| 0 <= k < args.len() && picks(#[trigger] args[k], table, r, w);
        assert((w.passes)(
            table,
            r,
            Test::Compares { field: field.column, op: "="@, value: values[k] },
        ));
    }
}

/// A selection of the records that name one of another table.
proof fn lemma_in_records(
    args: Seq<ExprView>,
    field: Seq<char>,
    other: Seq<char>,
    table: Seq<char>,
    r: int,
    w: Stored,
)
    requires
        args.len() == 3,
        args[0] == ExprView::Ident(field),
        argument(args, 1, "table"@) == Some(ExprView::Literal(LiteralView::Str(other))),
    ensures
        picks(called("InRecords"@, args), table, r, w) == (exists|x: int|
            #![trigger (w.names)(table, r, field, x)]
            (w.records)(other).contains(x) && (w.names)(table, r, field, x) && picks(
                args[2],
                other,
                x,
                w,
            )),
{
    lemma_call_names();
    let e = called("InRecords"@, args);
    assert(e->Call_0.args == args);
    assert(e->Call_0.name == "InRecords"@);
    assert(a_column(args[0])->0 == field);
    assert(a_text(argument(args, 1, "table"@))->0 == other);
    if picks(e, table, r, w) {
        let x = choose|x: int|
                #![trigger (w.names)(table, r, a_column(args[0])->0, x)]
                (w.records)(a_text(argument(args, 1, "table"@))->0).contains(x) && (w.names)(
                    table,
                    r,
                    a_column(args[0])->0,
                    x,
                ) && picks(args[2], a_text(argument(args, 1, "table"@))->0, x, w);
        assert((w.records)(other).contains(x));
        assert((w.names)(table, r, field, x));
        assert(picks(args[2], other, x, w));
    }
}

/// Records that name a record of another table a condition is true of.
proof fn lemma_naming(c: CondView, table: Seq<char>, r: int, w: Stored)
    requires
        c is InRecords,
    ensures
        picks(selected(c), table, r, w) == holds(c, table, r, w),
    decreases c, 0int,
{
    lemma_call_names();
    match c {
        CondView::InRecords { field, table: other, filter, .. } => {
            let args = selected(c)->Call_0.args;
            assert(args.len() == 3);
            assert(args[0] == ExprView::Ident(field.column));
            assert(argument(args, 1, "table"@) == Some(
                ExprView::Literal(LiteralView::Str(other.qualified())),
            ));
            lemma_whole(other);
            let name = whole_name(other);
            assert forall|x: int|
                picks(args[2], name, x, w) == #[trigger] allowed(filter, name, x, w) by {
                match filter {
                    Some(f) => {
                        lemma_picks(*f, name, x, w);
                    },
                    None => {
                        assert(args[2] == every_row());
                    },
                }
            }
            assert(name == other.qualified());
            lemma_in_records(args, field.column, name, table, r, w);
            assert(holds(c, table, r, w) == exists|x: int|
                #![trigger (w.names)(table, r, field.column, x)]
                (w.records)(name).contains(x) && (w.names)(table, r, field.column, x) && allowed(
                    filter,
                    name,
                    x,
                    w,
                ));
            if holds(c, table, r, w) {
                let x = choose|x: int|
                    #![trigger (w.names)(table, r, field.column, x)]
                    (w.records)(name).contains(x) && (w.names)(table, r, field.column, x) && (
                    match filter {
                        Some(f) => holds(*f, name, x, w),
                        None => true,
                    });
                assert(allowed(filter, name, x, w));
                assert(picks(args[2], name, x, w));
                assert((w.names)(table, r, field.column, x));
            }
            if picks(selected(c), table, r, w) {
                let x = choose|x: int|
                    #![trigger (w.names)(table, r, field.column, x)]
                    (w.records)(name).contains(x) && (w.names)(table, r, field.column, x) && picks(
                        args[2],
                        name,
                        x,
                        w,
                    );
                assert(allowed(filter, name, x, w));
            }
        },
        _ => {},
    }
}

spec fn allowed(filter: Option<Box<CondView>>, table: Seq<char>, r: int, w: Stored) -> bool {
    match filter {
        Some(f) => holds(*f, table, r, w),
        None => true,
    }
}

/// A qualified name is a whole name.
pub proof fn lemma_whole(source: SourceView)
    ensures
        source.qualified() == whole_name(source),
{
}

/// A condition selects the records it is true of.
proof fn lemma_picks(c: CondView, table: Seq<char>, r: int, w: Stored)
    ensures
        picks(selected(c), table, r, w) == holds(c, table, r, w),
    decreases
            c,
            if c is Or || c is And {
                2int
            } else {
                1
            },
{
    lemma_call_names();
    match c {
        CondView::And(..) => {
            lemma_parts(c);
            lemma_stands(c, c, 0, table, r, w);
            lemma_conjoined(and_parts(c), table, r, w);
            let parts = and_parts(c);
            let a = forall|k: int|
                0 <= k < 0 + conjuncts(c).len() ==> #[trigger] role(parts, k, table, r, w);
            let b = forall|k: int|
                0 <= k < parts.len() ==> #[trigger] role(parts, k, table, r, w);
            assert(a == b);
        },
        CondView::Or(..) => {
            lemma_terms(c, table, r, w);
            let e = selected(c);
            assert(e == called("Union"@, any_terms(c)));
            assert(e->Call_0.args == any_terms(c));
            assert(picks(e, table, r, w) == one_picks(any_terms(c), table, r, w));
        },
        CondView::Not(a) => {
            lemma_picks(*a, table, r, w);
            assert(selected(c)->Call_0.args[0] == selected(*a));
        },
        CondView::Cmp { field, op, value } => {
            lemma_compared(field, op, value, table, r, w);
        },
        CondView::In { field, values } => {
            lemma_listed(field, values, table, r, w);
            if values.len() == 1 {
                lemma_compared(field, "="@, values[0], table, r, w);
                let args = each_of(field, values);
                assert(args[0] == compared(field, "="@, values[0]));
                if picks(args[0], table, r, w) {
                    assert(one_picks(args, table, r, w));
                }
            } else {
                let e = selected(c);
                assert(e->Call_0.args == each_of(field, values));
                assert(picks(e, table, r, w) == one_picks(each_of(field, values), table, r, w));
            }
        },
        CondView::Between { field, low, high } => {
            lemma_compared(field, ">="@, low, table, r, w);
            lemma_compared(field, "<="@, high, table, r, w);
            let args = selected(c)->Call_0.args;
            assert(args[0] == compared(field, ">="@, low));
            assert(args[1] == compared(field, "<="@, high));
            assert(args.len() == 2);
        },
        CondView::Like { field, pattern, fold } => {
            lemma_compared(
                field,
                if fold {
                    "ilike"@
                } else {
                    "like"@
                },
                LiteralView::Str(pattern),
                table,
                r,
                w,
            );
        },
        CondView::Rounded { field, round, op, value } => {
            lemma_rounded(field, round, op, value, table, r, w);
        },
        CondView::Segment { view, .. } => {
            lemma_whole(view);
            let args = selected(c)->Call_0.args;
            assert(args[0] == ExprView::Literal(LiteralView::Str(whole_name(view))));
        },
        CondView::InRecords { .. } => {
            lemma_naming(c, table, r, w);
        },
    }
}

/// A `WHERE` is lowered to a selection that picks exactly the records the condition is true of,
/// whatever the tables hold: a comparison, a list, a range, a pattern and a rounding are tests of
/// the column they name, a key and the bounds on its column are a window, and the records of
/// another table are those its own condition is true of.
pub proof fn a_where_picks_the_records_it_is_true_of(
    c: CondView,
    table: Seq<char>,
    r: int,
    w: Stored,
)
    ensures
        picks(selected(c), table, r, w) == holds(c, table, r, w),
{
    lemma_picks(c, table, r, w);
}

} // verus!
