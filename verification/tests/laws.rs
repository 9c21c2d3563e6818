use big_sql::ast::Cond;
use big_sql::civil::{parse_datetime, Unit};
use big_sql::error::{Refused, SqlError};
use big_sql::explain::{explained, Explained};
use big_sql::rbac::{GrantKey, Grants, Object, Privilege, Privileges};
use big_sql::shape::{Answer, Format, Having, Operand, Shape};
use big_sql::{parse, translate, ExplainMode, Parsed, Sql};

fn filter(condition: &str) -> Cond {
    match parse(&format!("SELECT count(*) FROM t WHERE {condition}")) {
        Ok(Parsed::Query(mut q)) => q.branches.remove(0).filter.unwrap(),
        other => panic!("{condition}: {other:?}"),
    }
}

fn answer(text: &str) -> Answer {
    match translate(text) {
        Ok(Sql::Query(s)) => s.answer,
        other => panic!("{text}: {other:?}"),
    }
}

#[test]
fn a_rounded_comparison_is_a_range() {
    let same = |rounded: &str, plain: &str| assert_eq!(filter(rounded), filter(plain), "{rounded}");
    same("date_trunc('month', ts) = '2024-01-01'", "ts >= '2024-01-01' AND ts < '2024-02-01'");
    same("date_trunc('month', ts) != '2024-12-01'", "NOT (ts >= '2024-12-01' AND ts < '2025-01-01')");
    same("date_trunc('month', ts) >= '2024-01-01'", "ts >= '2024-01-01'");
    same("date_trunc('month', ts) >= '2024-01-15'", "ts >= '2024-02-01'");
    same("date_trunc('quarter', ts) > '2024-04-01'", "ts >= '2024-07-01'");
    same("date_trunc('week', ts) < '2024-02-26'", "ts < '2024-02-26'");
    same("date_trunc('week', ts) < '2024-02-29'", "ts < '2024-03-04'");
    same("dateTrunc('YEAR', ts) <= '2023-06-01'", "ts < '2024-01-01'");
    same("date_trunc('hour', ts) = '2024-02-28 23:00:00'", "ts >= '2024-02-28 23:00:00' AND ts < '2024-02-29 00:00:00'");
    same("toDate(ts) = '2024-02-29'", "ts >= '2024-02-29' AND ts < '2024-03-01'");
    for condition in ["date_trunc('month', ts) = '2024-01-15'", "toDate(ts) != '2024-01-15 00:00:01'"] {
        match parse(&format!("SELECT count(*) FROM t WHERE {condition}")) {
            Err(SqlError::Refused { what, .. }) => assert_eq!(what, Refused::Round),
            other => panic!("{other:?}"),
        }
    }
}

#[test]
fn a_compared_year_is_a_range() {
    assert_eq!(filter("toYear(ts) = 2024"), filter("ts >= '2024-01-01' AND ts < '2025-01-01'"));
    assert_eq!(filter("toYear(ts) < 2024"), filter("ts < '2024-01-01'"));
    assert_eq!(filter("toYear(ts) > 99"), filter("ts >= '0100-01-01'"));
}

#[test]
fn rounding_keeps_the_order() {
    let all = ["0001-01-01", "1999-12-31", "2000-02-29", "2000-03-01", "2024-07-01", "9998-12-31"];
    for unit in [Unit::Year, Unit::Quarter, Unit::Month, Unit::Week, Unit::Day, Unit::Hour] {
        for pair in all.windows(2) {
            let low = parse_datetime(pair[0]).unwrap().truncate(unit).write();
            let high = parse_datetime(pair[1]).unwrap().truncate(unit).write();
            assert!(low <= high, "{low} {high}");
        }
    }
}

#[test]
fn a_written_moment_reads_back() {
    for text in ["2024-02-29 23:59:59", "0000-01-01 00:00:00", "9999-12-31 12:30:01"] {
        let m = parse_datetime(text).unwrap();
        assert_eq!(m.write(), text);
        assert_eq!(parse_datetime(&m.write_date()), Some(m.truncate(Unit::Day)));
    }
    assert_eq!(parse_datetime("2024-02-29T23:59:59"), parse_datetime("2024-02-29 23:59:59"));
}

#[test]
fn a_moment_lies_in_its_bucket() {
    let m = parse_datetime("2023-12-31 23:59:59").unwrap();
    let next = parse_datetime("2024-01-01").unwrap();
    for unit in [Unit::Year, Unit::Quarter, Unit::Month, Unit::Day, Unit::Hour, Unit::Minute, Unit::Second] {
        assert_eq!(m.next(unit), next);
        let low = m.truncate(unit);
        assert_eq!(low.truncate(unit), low);
        assert_eq!(low.next(unit), next);
    }
    assert_eq!(m.next(Unit::Week), next);
}

/// Only the case of ASCII letters is ignored.
#[test]
fn a_word_is_read_in_either_case() {
    assert_eq!(answer("sElEcT Count(*) From t fOrMaT tSv"), answer("SELECT count(*) FROM t FORMAT TSV"));
    match parse("SELECT count(*) FROM t FORMAT \"t\u{17f}v\"") {
        Err(SqlError::Refused { what, .. }) => assert_eq!(what, Refused::Format),
        other => panic!("{other:?}"),
    }
}

/// A line of nothing but white space is blank, whatever white space it is.
#[test]
fn blank_lines_are_left_out() {
    let answer = answer("SELECT count(*) FROM t");
    let plans = vec!["Count\n\u{3000}\t\n\u{a0}All ".to_string()];
    let what = Explained::Query { plans: &plans, probes: &vec![], answer: &answer };
    assert_eq!(explained(ExplainMode::Plan, &what), "plan #0\nCount\n\u{a0}All ");
}

#[test]
fn a_mask_holds_what_is_listed() {
    let mask = Privileges::from_iter(&[Privilege::Select, Privilege::Drop, Privilege::Select]);
    assert_eq!(mask.named(), vec![Privilege::Select, Privilege::Drop]);
    assert_eq!(mask.without(Privilege::Drop), Privileges::from_iter(&[Privilege::Select]));
    assert_eq!(mask.minus(Privileges::from_iter(&[Privilege::Select, Privilege::Insert])).named(), vec![Privilege::Drop]);
    assert_eq!(mask.union(Privileges::from_iter(&[Privilege::Roles])).named().len(), 3);
    assert!(mask.with(Privilege::Alter).contains(Privilege::Alter));
    assert!(Privileges::empty().is_empty());
    assert!(!Privileges::all_on(&Object::Table { database: "d".to_string(), table: "t".to_string() }).contains(Privilege::Roles));
}

#[test]
fn setting_is_absolute() {
    let mut g = Grants::new();
    let r = g.intern_role("b").unwrap();
    let q = g.intern_role("a").unwrap();
    let key = GrantKey::table(r, 1, 2);
    let mask = Privileges::from_iter(&[Privilege::Select]);
    g.set(key, Privileges::known()).unwrap();
    g.set(key, mask).unwrap();
    g.set(key, mask).unwrap();
    assert_eq!(g.get(key), mask);
    assert_eq!(g.all(), vec![(key, mask)]);
    assert_eq!(g.of(q), vec![]);
    assert_eq!(g.all_roles(), vec![(r, "b"), (q, "a")]);
    assert_eq!(g.roles().iter().map(|d| d.name.as_str()).collect::<Vec<_>>(), vec!["a", "b"]);
    assert_eq!(g.next_role_id(), 2);
}

#[test]
fn a_statement_reads_each_table_once() {
    let s = match translate("SELECT count(*), sum(a.x), sum(b.y) FROM a JOIN s.b ON a.k = b.k").unwrap() {
        Sql::Query(s) => s,
        other => panic!("{other:?}"),
    };
    assert_eq!(s.tables(), vec!["a", "s.b"]);
    assert_eq!(s.calls.len(), 4);
}

#[test]
fn an_answer_ends_in_no_line_break() {
    for text in [
        "SELECT count(*) FROM t",
        "SELECT a, b FROM t LIMIT 3 FORMAT tsv",
        "SELECT a, count(*) FROM t GROUP BY a ORDER BY a DESC LIMIT 5 OFFSET 2 FORMAT csv",
        "SELECT a, b, count(*) FROM t GROUP BY a, b WITH CUBE FORMAT tsv",
    ] {
        let a = answer(text);
        let printed = big_sql::explain::answer(&a);
        assert!(!printed.ends_with('\n'), "{printed}");
        let mut lines: Vec<String> = big_sql::explain::shape(&a.shape).lines().map(|l| l.to_string()).collect();
        if text.contains("FORMAT") {
            lines[0] = format!("{} format={}", lines[0], text.rsplit(' ').next().unwrap());
        }
        assert_eq!(printed, lines.join("\n"));
    }
    let printed = |limit: Option<usize>| {
        let shape = Shape::Records { column: "b\n".to_string(), limit, descending: false };
        big_sql::explain::answer(&Answer { shape, format: Format::Tsv, calls: 0 })
    };
    assert_eq!(printed(None), "Records column=b format=tsv\n");
    assert_eq!(printed(Some(3)), "Records column=b format=tsv\n limit=3");
}

#[test]
fn a_copy_is_the_same() {
    for text in [
        "SELECT a, round(sum(b), 2) AS s FROM t WHERE c IN (SELECT _record_id FROM u) GROUP BY a HAVING sum(b) > 3",
        "SELECT a, b, count(*) FROM t GROUP BY a, b WITH ROLLUP UNION ALL SELECT x, y, count(*) FROM u GROUP BY x, y",
        "INSERT INTO t (_record_id, a) VALUES (1, 'x'), (2, TRUE)",
        "EXPLAIN UPDATE t SET a = 1 WHERE b BETWEEN 1 AND 2",
        "CREATE TABLE t (a SET, b DECIMAL(4, 2)) ENGINE = columnar",
        "GRANT SELECT ON d.* TO r",
    ] {
        let parsed = parse(text).unwrap();
        assert_eq!(parsed.clone(), parsed);
        let sql = translate(text).unwrap();
        assert_eq!(sql.clone(), sql);
    }
    let mut g = Grants::new();
    let r = g.intern_role("a").unwrap();
    g.set(GrantKey::server(r), Privileges::known()).unwrap();
    assert_eq!(g.clone().all(), g.all());
}

#[test]
fn a_translation_answers_from_what_it_asks() {
    let text = "SELECT a FROM t GROUP BY GROUPING SETS ((a), ()) HAVING count(*) > 5";
    let statement = match translate(text) {
        Ok(Sql::Query(s)) => s,
        other => panic!("{other:?}"),
    };
    assert_eq!(statement.calls.len(), 1);
    assert_eq!(statement.answer.calls, 1);
    let branches = match statement.answer.shape {
        Shape::Union { branches } => branches,
        other => panic!("{other:?}"),
    };
    assert_eq!(branches.len(), 2);
    for branch in branches {
        let having = match branch {
            Shape::Row { having, .. } | Shape::Groups { having, .. } => having,
            other => panic!("{other:?}"),
        };
        match having {
            Some(Having::Cmp { left: Operand::Of { of, .. }, .. }) => assert_eq!(of.plans(), vec![0]),
            other => panic!("{other:?}"),
        }
    }
}
