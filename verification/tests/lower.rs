use big_sql::ast::Agg;
use big_sql::error::{Refused, SqlError};
use big_sql::explain;
use big_sql::lower::{Ask, Probe, Statement, MAX_CALLS};
use big_sql::pql::{Call, Expr, Literal};
use big_sql::print::literal;
use big_sql::shape::{Absent, Cell, Cut, GroupOrder, Of, OrderBy, Shape, Units};
use big_sql::{translate, translate_at, Sql};

/// A call as it would be typed.
fn typed(call: &Call) -> String {
    let args: Vec<String> = call.args.iter().map(argument).collect();
    format!("{}({})", call.name, args.join(", "))
}

fn argument(e: &Expr) -> String {
    match e {
        Expr::Call(c) => typed(c),
        Expr::Compare { field, op, value } => format!("{field} {op} {}", literal(value)),
        Expr::Named { name, value } => format!("{name}={}", argument(value)),
        Expr::Literal(v) => literal(v),
        Expr::Ident(name) => name.clone(),
    }
}

fn query(text: &str) -> Statement {
    match translate(text) {
        Ok(Sql::Query(s)) => s,
        other => panic!("{text}: {other:?}"),
    }
}

fn calls(text: &str) -> Vec<String> {
    query(text).calls.iter().map(|a: &Ask| format!("{}: {}", a.table, typed(&a.call))).collect()
}

fn rows(condition: &str) -> String {
    let s = query(&format!("SELECT count(*) FROM t WHERE {condition}"));
    assert_eq!(s.calls[0].call.name, "Count");
    argument(&s.calls[0].call.args[0])
}

fn shape(text: &str) -> String {
    explain::answer(&query(text).answer)
}

fn refused(text: &str) -> Refused {
    match translate(text) {
        Err(SqlError::Refused { what, .. }) => what,
        other => panic!("{text}: {other:?}"),
    }
}

#[test]
fn a_count_is_one_call() {
    let s = query("SELECT count(*) FROM tx WHERE amount >= 500");
    assert_eq!(s.calls.len(), 1);
    assert_eq!(s.calls[0].table, "tx");
    assert_eq!(typed(&s.calls[0].call), "Count(Row(amount >= 500))");
    assert_eq!(
        s.answer.shape,
        Shape::Row {
            cells: vec![Cell {
                column: "count".to_string(),
                of: Of::Value { plan: 0 },
                units: Units::Digits(0),
                apply: None,
            }],
            having: None,
        }
    );
    assert_eq!(s.answer.calls, 1);
}

#[test]
fn a_negated_term_is_taken_away() {
    assert_eq!(
        rows("a = 1 AND b = 2 AND NOT c = 3"),
        "Difference(Intersect(Row(a = 1), Row(b = 2)), Row(c = 3))"
    );
    assert_eq!(rows("a = 1 AND NOT c = 3"), "Difference(Row(a = 1), Row(c = 3))");
    assert_eq!(rows("NOT a = 1 AND NOT b = 2"), "Not(Union(Row(a = 1), Row(b = 2)))");
    assert_eq!(rows("NOT a = 1"), "Not(Row(a = 1))");
}

#[test]
fn brackets_are_flattened() {
    assert_eq!(rows("(a = 1 OR b = 2) OR c = 3"), "Union(Row(a = 1), Row(b = 2), Row(c = 3))");
    assert_eq!(rows("a = 1 AND (b = 2 AND c = 3)"), "Intersect(Row(a = 1), Row(b = 2), Row(c = 3))");
}

#[test]
fn lists_and_ranges_are_sets() {
    assert_eq!(rows("a IN (1, 2)"), "Union(Row(a = 1), Row(a = 2))");
    assert_eq!(rows("a IN (1)"), "Row(a = 1)");
    assert_eq!(rows("a BETWEEN 1 AND 2"), "Intersect(Row(a >= 1), Row(a <= 2))");
    assert_eq!(rows("name LIKE 'a%'"), "Row(name like 'a%')");
}

#[test]
fn a_key_and_its_bounds_are_one_window() {
    assert_eq!(
        rows("visit = 'home' AND visit BETWEEN 1767225600 AND 1769904000"),
        "Row(visit='home', from=1767225600, to=1769904000)"
    );
    assert_eq!(rows("visit >= 5 AND visit = 'home'"), "Row(visit='home', from=5)");
    // A bound on another column stays a term of its own, after the windows.
    assert_eq!(
        rows("amount < 3 AND visit = 'home' AND visit <= 9"),
        "Intersect(Row(visit='home', to=9), Row(amount < 3))"
    );
    // A second key on the same column finds no bounds left.
    assert_eq!(
        rows("visit = 'home' AND visit >= 5 AND visit = 'away'"),
        "Intersect(Row(visit='home', from=5), Row(visit = 'away'))"
    );
}

#[test]
fn a_set_of_records_is_read_from_another_table() {
    assert_eq!(
        rows("_record_id IN (SELECT _record_id FROM b WHERE x = 1)"),
        "InRecords(_record_id, table='b', Row(x = 1))"
    );
}

#[test]
fn a_projection_reads_columns_and_stops_at_its_limit() {
    assert_eq!(
        calls("SELECT country, plan FROM t WHERE a = 1 LIMIT 7"),
        vec!["t: Project(Row(a = 1), field=country, field=plan, n=7)"]
    );
    assert_eq!(
        shape("SELECT country AS c FROM t"),
        "Table\n└── c units=t.country (unresolved)"
    );
    assert_eq!(calls("SELECT * FROM t"), vec!["t: Project(All())"]);
    assert_eq!(refused("SELECT country, count(*) FROM t"), Refused::Shape);
    assert_eq!(refused("SELECT country FROM t ORDER BY country"), Refused::Order);
    assert_eq!(refused("SELECT country FROM t LIMIT 3 OFFSET 2"), Refused::Offset);
    assert_eq!(refused("SELECT country FROM t HAVING count(*) > 1"), Refused::Having);
}

#[test]
fn every_number_is_asked_for_once() {
    assert_eq!(
        calls("SELECT country, count(*), avg(amount) FROM t GROUP BY country"),
        vec![
            "t: GroupBy(All(), field=country)",
            "t: GroupBy(All(), field=country, aggregate=Sum(field=amount))",
        ]
    );
    assert_eq!(
        shape("SELECT country, count(*), avg(amount) FROM t GROUP BY country"),
        "Groups keys=[#0, #1]\n├── country = key\n├── count = group #0 else 0\n└── avg = #1 / #0 units=t.amount (unresolved)"
    );
}

#[test]
fn a_statement_asks_no_more_than_it_may() {
    let within: Vec<String> = (0..MAX_CALLS).map(|i| format!("sum(c{i})")).collect();
    assert_eq!(query(&format!("SELECT {} FROM t", within.join(", "))).calls.len(), MAX_CALLS);
    let beyond: Vec<String> = (0..MAX_CALLS + 1).map(|i| format!("sum(c{i})")).collect();
    assert_eq!(refused(&format!("SELECT {} FROM t", beyond.join(", "))), Refused::TooManyCalls);
}

#[test]
fn a_ranking_by_count_is_done_by_the_plan() {
    let text = "SELECT country, count(*) AS n FROM t GROUP BY country ORDER BY n DESC LIMIT 10";
    assert_eq!(calls(text), vec!["t: TopN(All(), field=country, n=10)"]);
    assert_eq!(shape(text), "Groups keys=[#0]\n├── country = key\n└── n = group #0 else 0");
    // An offset is skipped after the merge, so the plan goes that much further.
    let text = "SELECT country, count(*) AS n FROM t GROUP BY country ORDER BY n DESC LIMIT 10 OFFSET 5";
    assert_eq!(calls(text), vec!["t: TopN(All(), field=country, n=15)"]);
    assert_eq!(
        shape(text),
        "Groups keys=[#0]\n├── country = key\n├── n = group #0 else 0\n└── cut: limit 10 offset 5"
    );
    // A tie may lie past the limit, and a `HAVING` drops groups after the ranking.
    let text = "SELECT country, count(*) AS n FROM t GROUP BY country ORDER BY n DESC LIMIT 10 WITH TIES";
    assert_eq!(calls(text), vec!["t: GroupBy(All(), field=country)"]);
    let text = "SELECT country, count(*) AS n FROM t GROUP BY country HAVING count(*) > 3 ORDER BY n DESC LIMIT 10";
    assert_eq!(calls(text), vec!["t: TopN(All(), field=country)"]);
}

#[test]
fn groups_come_in_the_order_of_their_key() {
    let s = query("SELECT country, sum(amount) AS s FROM t GROUP BY country ORDER BY country");
    match s.answer.shape {
        Shape::Groups { order, cut, .. } => {
            assert_eq!(order, None);
            assert_eq!(cut, Cut::default());
        }
        other => panic!("{other:?}"),
    }
    let s = query("SELECT country, sum(amount) AS s FROM t GROUP BY country ORDER BY s DESC");
    match s.answer.shape {
        Shape::Groups { order, .. } => assert_eq!(
            order,
            Some(GroupOrder {
                by: OrderBy::Value { of: Of::Group { plan: 0, absent: Absent::Zero } },
                desc: true,
            })
        ),
        other => panic!("{other:?}"),
    }
    assert_eq!(refused("SELECT country, count(*) FROM t GROUP BY country ORDER BY sum(x)"), Refused::Order);
    assert_eq!(refused("SELECT plan, count(*) FROM t GROUP BY country"), Refused::Shape);
    assert_eq!(refused("SELECT country, uniq(x) FROM t GROUP BY country"), Refused::MultiDistinct);
    assert_eq!(refused("SELECT * FROM t GROUP BY country"), Refused::Shape);
}

#[test]
fn only_the_keys_are_a_distinct() {
    assert_eq!(calls("SELECT DISTINCT country FROM t"), vec!["t: Distinct(All(), field=country)"]);
    assert_eq!(
        calls("SELECT country FROM t GROUP BY country HAVING count(*) >= 10"),
        vec!["t: Distinct(All(), field=country)"]
    );
    assert_eq!(
        shape("SELECT country FROM t GROUP BY country HAVING count(*) >= 10"),
        "Groups keys=[#0]\n├── country = key\n└── having: group #0 else 0 >= 10"
    );
}

#[test]
fn a_filter_leaves_the_groups_it_empties() {
    assert_eq!(
        calls("SELECT country, countIf(a = 1) FROM t GROUP BY country"),
        vec![
            "t: GroupBy(Intersect(All(), Row(a = 1)), field=country)",
            "t: Distinct(All(), field=country)",
        ]
    );
    // What a filter narrows is no total, so no bare aggregate names it.
    assert_eq!(
        refused("SELECT country, countIf(a = 1) FROM t GROUP BY country HAVING count(*) > 1"),
        Refused::Having
    );
}

#[test]
fn a_having_compares_numbers_the_answer_holds() {
    assert_eq!(
        shape("SELECT country, sum(price) FROM t GROUP BY country HAVING sum(price) >= 10.00 AND NOT (sum(price) > 99)"),
        "Groups keys=[#0]\n├── country = key\n├── sum = group #0 else 0 units=t.price (unresolved)\n└── having: group #0 else 0 >= 10.00 as t.price (unresolved) and not (group #0 else 0 > 99 as t.price (unresolved))"
    );
    assert_eq!(refused("SELECT country, avg(x) FROM t GROUP BY country HAVING avg(x) > 1"), Refused::Having);
    assert_eq!(refused("SELECT country, sum(x) FROM t GROUP BY country HAVING 1 > 2"), Refused::Having);
    assert_eq!(refused("SELECT country, count(*) FROM t GROUP BY country HAVING count(*) > 'x'"), Refused::Having);
    // A count of keys is not the group's own count.
    assert_eq!(refused("SELECT uniq(country) FROM t HAVING count(*) > 5"), Refused::Having);
    assert_eq!(shape("SELECT count(*) FROM t HAVING count(*) > 5"), "Row\n├── count = #0\n└── having: #0 > 5");
}

#[test]
fn several_columns_are_a_combination() {
    assert_eq!(
        calls("SELECT a, b, sum(x) FROM t GROUP BY a, b"),
        vec!["t: GroupByTuple(All(), by=a, by=b, n=1000, aggregate=Sum(field=x))"]
    );
    assert_eq!(
        shape("SELECT a, b, count(*) FROM t GROUP BY a, b ORDER BY b DESC LIMIT 3"),
        "Tuples axes=2 keys=[#0]\n├── a = key 0\n├── b = key 1\n├── count = group #0 else 0\n├── order: key desc\n└── cut: limit 3"
    );
    assert_eq!(calls("SELECT a, b FROM t GROUP BY a, b"), vec!["t: GroupByTuple(All(), by=a, by=b, n=1000)"]);
    assert_eq!(refused("SELECT a, b, avg(x) FROM t GROUP BY a, b"), Refused::Shape);
    assert_eq!(refused("SELECT a FROM t GROUP BY a, a"), Refused::Shape);
}

#[test]
fn a_calendar_rounding_is_a_bucket() {
    assert_eq!(
        calls("SELECT date_trunc('month', ts), count(*) FROM t GROUP BY date_trunc('month', ts)"),
        vec!["t: GroupBy(All(), by=Bucket(field=ts, unit='month', n=1000))"]
    );
    // A ranking knows nothing of buckets, so the groups are sorted after the merge.
    let text = "SELECT date_trunc('month', ts) AS m, count(*) AS n FROM t GROUP BY date_trunc('month', ts) ORDER BY n DESC LIMIT 3";
    assert_eq!(calls(text), vec!["t: GroupBy(All(), by=Bucket(field=ts, unit='month', n=1000))"]);
    assert_eq!(
        refused("SELECT date_trunc('day', ts), count(*) FROM t GROUP BY date_trunc('month', ts)"),
        Refused::Shape
    );
}

#[test]
fn a_rollup_is_its_groupings_stacked() {
    let text = "SELECT a, b, count(*) FROM t GROUP BY a, b WITH ROLLUP";
    assert_eq!(
        calls(text),
        vec![
            "t: GroupByTuple(All(), by=a, by=b, n=1000)",
            "t: GroupBy(All(), field=a)",
            "t: Count(All())",
        ]
    );
    assert_eq!(
        shape(text),
        "Union\n├── Tuples axes=2 keys=[#0]\n│   ├── a = key 0\n│   ├── b = key 1\n│   └── count = group #0 else 0\n├── Groups keys=[#1]\n│   ├── a = key\n│   ├── b = null\n│   └── count = group #1 else 0\n└── Row\n    ├── a = null\n    ├── b = null\n    └── count = #2"
    );
    assert_eq!(refused("SELECT a, count(*) FROM t GROUP BY a WITH ROLLUP ORDER BY a"), Refused::RollupOrder);
    assert_eq!(refused("SELECT a, count(*) FROM t GROUP BY a WITH ROLLUP LIMIT 1"), Refused::RollupOrder);
}

#[test]
fn a_union_counts_plans_over_the_whole_list() {
    let text = "SELECT count(*) FROM a UNION ALL SELECT sum(x) FROM b";
    assert_eq!(calls(text), vec!["a: Count(All())", "b: Sum(All(), field=x)"]);
    assert_eq!(
        shape(text),
        "Union\n├── Row\n│   └── count = #0\n└── Row\n    └── sum = #1 units=b.x (unresolved)"
    );
    assert_eq!(refused("SELECT count(*) FROM a UNION ALL SELECT sum(x), max(x) FROM b"), Refused::Union);
    let s = query("SELECT median(x) FROM a UNION ALL SELECT median(y) FROM b");
    assert_eq!(s.probes.len(), 2);
    assert_eq!(explain::answer(&s.answer), "Union\n├── Row\n│   └── quantile = probe #0 units=a.x (unresolved)\n└── Row\n    └── quantile = probe #1 units=b.y (unresolved)");
}

#[test]
fn a_quantile_is_a_search() {
    let s = query("SELECT quantile(0.9)(amount) FROM t WHERE a = 1");
    assert!(s.calls.is_empty());
    assert_eq!(
        s.probes,
        vec![Probe {
            table: "t".to_string(),
            rows: Call {
                name: "Row".to_string(),
                args: vec![Expr::Compare {
                    field: "a".to_string(),
                    op: "=".to_string(),
                    value: Literal::Int(1),
                }],
            },
            field: "amount".to_string(),
            per_mille: 900,
        }]
    );
}

#[test]
fn a_join_is_a_grouping_of_each_table() {
    let text = "SELECT count(*), sum(a.x), min(b.y) FROM a JOIN b ON a.k = b.k WHERE a.p = 1 AND b.q = 2";
    assert_eq!(
        calls(text),
        vec![
            "a: Distinct(Row(p = 1), field=k)",
            "b: Distinct(Row(q = 2), field=k)",
            "a: GroupBy(Row(p = 1), field=k, aggregate=Sum(field=x))",
            "b: GroupBy(Row(q = 2), field=k, aggregate=Min(field=y))",
        ]
    );
    assert_eq!(
        shape(text),
        "Join keys=(#0, #1)\n├── count = product(#0, #1)\n├── sum = product(#2, #1) units=a.x (unresolved)\n└── min = least(#3, #0) units=b.y (unresolved)"
    );
    assert_eq!(shape("SELECT count(*) FROM a LEFT JOIN b ON a.k = b.k"), "Join keys=(#0, #1?)\n└── count = product(#0, #1)");
    assert_eq!(shape("SELECT count(*) FROM a RIGHT JOIN b ON a.k = b.k"), "Join keys=(#0?, #1)\n└── count = product(#0, #1)");
    assert_eq!(shape("SELECT count(*) FROM a FULL JOIN b ON a.k = b.k"), "Join keys=(#0?, #1?)\n└── count = product(#0, #1)");
    assert_eq!(
        shape("SELECT a.k, count(*) AS n FROM a JOIN b ON a.k = b.k GROUP BY a.k ORDER BY n DESC"),
        "Join keys=(#0, #1) per_key\n├── k = key\n├── n = product(#0, #1)\n└── order: product(#0, #1) desc"
    );
}

#[test]
fn a_join_refuses_what_it_cannot_pair() {
    assert_eq!(refused("SELECT count(*) FROM a JOIN a ON a.k = a.k"), Refused::Ambiguous);
    assert_eq!(refused("SELECT sum(x) FROM a JOIN b ON a.k = b.k"), Refused::Ambiguous);
    assert_eq!(refused("SELECT * FROM a JOIN b ON a.k = b.k"), Refused::JoinShape);
    assert_eq!(refused("SELECT count(*) FROM a JOIN b ON b.k = b.j"), Refused::JoinOn);
    assert_eq!(refused("SELECT count(*) FROM a JOIN b ON a.k = b.k JOIN c ON a.z = c.k"), Refused::Joins);
    assert_eq!(refused("SELECT count(*) FROM a JOIN b ON a.k = b.k FULL JOIN c ON a.k = c.k"), Refused::OuterJoin);
    assert_eq!(refused("SELECT count(*) FROM a JOIN b ON a.k = b.k WHERE a.x = 1 OR b.y = 2"), Refused::JoinFilter);
    assert_eq!(refused("SELECT count(*) FROM a JOIN b ON a.k = b.k WHERE SEGMENT(v)"), Refused::Segment);
    assert_eq!(refused("SELECT count(*) FROM a JOIN b ON a.k = b.k HAVING count(*) > 1"), Refused::Having);
    assert_eq!(refused("SELECT count(*) FROM a JOIN b ON a.k = b.k LIMIT 1"), Refused::Shape);
    assert_eq!(refused("SELECT a.x, count(*) FROM a JOIN b ON a.k = b.k GROUP BY a.x"), Refused::JoinShape);
    assert_eq!(refused("SELECT a.k, count(*) FROM a JOIN b ON a.k = b.k GROUP BY a.k WITH ROLLUP"), Refused::JoinShape);
}

#[test]
fn now_is_the_instant_of_the_translation() {
    let s = match translate_at("SELECT now(), count(*) FROM t", "default", 951_782_400) {
        Ok(Sql::Query(s)) => s,
        other => panic!("{other:?}"),
    };
    assert_eq!(
        explain::answer(&s.answer),
        "Row\n├── now() = now '2000-02-29 00:00:00' units=datetime\n└── count = #0"
    );
}

#[test]
fn an_expression_is_kept_with_its_number() {
    assert_eq!(
        shape("SELECT round(avg(amount), 2) AS a FROM t"),
        "Row\n└── a = #0 / #1 units=t.amount (unresolved) apply=round(value, 2)"
    );
    assert_eq!(
        shape("SELECT sum(amount) * 2 + 1 FROM t"),
        "Row\n└── sum(amount) * 2 + 1 = #0 units=t.amount (unresolved) apply=((value * 2) + 1)"
    );
    assert_eq!(
        shape("SELECT coalesce(sum(amount), 0), if(max(x) > 5, 1, 2) AS big FROM t"),
        "Row\n├── coalesce(sum(amount), 0) = #0 units=t.amount (unresolved) apply=coalesce(value, 0)\n└── big = #1 units=t.x (unresolved) apply=case when (value > 5) then 1 else 2 end"
    );
    // What is asked is what is asked without it.
    assert_eq!(
        calls("SELECT a, b, round(sum(x), 2) FROM t GROUP BY a, b HAVING sum(x) > 5"),
        calls("SELECT a, b, sum(x) FROM t GROUP BY a, b")
    );
}

#[test]
fn an_aggregate_is_called_by_its_own_name() {
    assert_eq!(Agg::Max.call(), "Max");
    assert_eq!(
        calls("SELECT max(x), uniq(y), topK(3)(z) FROM t"),
        vec!["t: Max(All(), field=x)", "t: Distinct(All(), field=y)", "t: TopN(All(), field=z, n=3)"]
    );
}

#[test]
fn a_grouping_asks_for_its_groups() {
    assert_eq!(calls("SELECT c, now() FROM t GROUP BY c"), vec!["t: Distinct(All(), field=c)"]);
    assert_eq!(
        calls("SELECT c, now() FROM t GROUP BY GROUPING SETS ((c), ())"),
        vec!["t: Distinct(All(), field=c)"]
    );
    assert_eq!(
        calls("SELECT c, now(), count(*) FROM t GROUP BY c"),
        calls("SELECT c, count(*) FROM t GROUP BY c")
    );
    let s = query("SELECT c, now() FROM t GROUP BY c HAVING count(*) > 5");
    match s.answer.shape {
        Shape::Groups { keys, cells, having, .. } => {
            assert_eq!(keys, vec![0]);
            assert_eq!(cells[1].units, Units::Seconds);
            assert!(having.is_some());
        }
        other => panic!("{other:?}"),
    }
    assert_eq!(
        calls("SELECT c, now() FROM t GROUP BY c ORDER BY count(*) DESC LIMIT 3"),
        vec!["t: TopN(All(), field=c, n=3)"]
    );
}

#[test]
fn the_having_of_a_set_counts_its_own_groups() {
    let s = query("SELECT a, b FROM t GROUP BY GROUPING SETS ((a), (b)) HAVING count(*) > 5");
    assert_eq!(s.calls.len(), 2);
    let branches = match s.answer.shape {
        Shape::Union { branches } => branches,
        other => panic!("{other:?}"),
    };
    for branch in branches {
        let printed = explain::shape(&branch);
        match branch {
            Shape::Groups { keys, .. } => {
                assert_eq!(keys.len(), 1);
                assert!(printed.contains(&format!("having: group #{} ", keys[0])), "{printed}");
            }
            other => panic!("{other:?}"),
        }
    }
}

#[test]
fn an_instant_over_a_join_is_in_seconds() {
    let s = query("SELECT a.k, now(), count(*) FROM a JOIN b ON a.k = b.k GROUP BY a.k");
    match s.answer.shape {
        Shape::Join { cells, .. } => {
            assert_eq!(cells[1].units, Units::Seconds);
            assert_eq!(cells[2].units, Units::Digits(0));
        }
        other => panic!("{other:?}"),
    }
}

#[test]
fn the_having_of_a_join_counts_its_pairs() {
    let join = "FROM a JOIN b ON a.k = b.k GROUP BY a.k HAVING count(*) > 5 ORDER BY count(*) DESC";
    let printed = |list: &str| match query(&format!("SELECT {list} {join}")).answer.shape {
        Shape::Join { having, order, .. } => (having, order),
        other => panic!("{other:?}"),
    };
    assert_eq!(printed("a.k"), printed("a.k, count(*)"));
    assert_eq!(printed("a.k, now()"), printed("a.k, count(*)"));
}
