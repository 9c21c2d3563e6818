use big_sql::ast::{Agg, GroupingSets, JoinKind, Proj};
use big_sql::civil::Unit;
use big_sql::ddl::{Alter, Column, ColumnKind, Ddl};
use big_sql::error::{Refused, SqlError};
use big_sql::insert::Source;
use big_sql::parse::decimal_bits;
use big_sql::parse::grouping::{cube, rollup, sort_sets};
use big_sql::pql::Literal;
use big_sql::shape::Format;
use big_sql::show::{Shown, SystemView};
use big_sql::{parse, ExplainMode, Parsed, Select};

fn select(text: &str) -> Select {
    match parse(text) {
        Ok(Parsed::Query(mut q)) => q.branches.remove(0),
        other => panic!("{text}: {other:?}"),
    }
}

fn shown(text: &str) -> Shown {
    match parse(text) {
        Ok(Parsed::Show(s)) => s.what,
        other => panic!("{text}: {other:?}"),
    }
}

fn ddl(text: &str) -> Ddl {
    match parse(text) {
        Ok(Parsed::Ddl(d)) => d,
        other => panic!("{text}: {other:?}"),
    }
}

fn refused(text: &str) -> (Refused, usize) {
    match parse(text) {
        Err(SqlError::Refused { what, at }) => (what, at),
        other => panic!("{text}: {other:?}"),
    }
}

fn column(text: &str) -> Column {
    match ddl(&format!("CREATE TABLE t (c {text})")) {
        Ddl::CreateTable { mut columns, .. } => columns.remove(0),
        other => panic!("{other:?}"),
    }
}

#[test]
fn the_clauses_of_a_select() {
    let s = select(
        "select country AS c, sum(amount) from d.t AS x PREWHERE a = 1 WHERE b = 2 GROUP BY country \
         HAVING sum(amount) > 3 ORDER BY c DESC LIMIT 5 OFFSET 6 FORMAT csv",
    );
    assert_eq!(s.items.len(), 2);
    assert_eq!(s.items[0].column(), "c");
    assert_eq!(s.items[1].column(), "sum");
    assert_eq!(s.from.qualified(), "d.t");
    assert_eq!(s.from.label(), "x");
    assert!(s.filter.is_some());
    assert_eq!(s.group_by[0].name.column, "country");
    assert!(s.having.is_some());
    assert!(s.order_by.unwrap().desc);
    assert_eq!((s.limit, s.offset, s.with_ties), (Some(5), Some(6), false));
    assert_eq!(s.format, Format::Csv);
}

#[test]
fn a_distinct_list_is_a_grouping() {
    let s = select("SELECT DISTINCT a, date_trunc('month', b) FROM t");
    assert_eq!(s.group_by.len(), 2);
    assert_eq!(s.group_by[0].bucket, None);
    assert_eq!(s.group_by[1].bucket, Some(Unit::Month));
    assert_eq!(refused("SELECT DISTINCT a FROM t GROUP BY a"), (Refused::Shape, 7));
    assert_eq!(refused("SELECT DISTINCT a FROM t GROUP BY GROUPING SETS (())"), (Refused::Shape, 7));
    assert_eq!(refused("SELECT DISTINCT a, b, c, d, e FROM t").0, Refused::MultiDistinct);
    // The same statement but for where things stand in it.
    let mut distinct = select("SELECT DISTINCT a, \"B\" FROM t WHERE c = 1 LIMIT 5");
    let mut written = select("SELECT a, \"B\" FROM t WHERE c = 1 GROUP BY a, \"B\" LIMIT 5");
    for s in [&mut distinct, &mut written] {
        s.items.iter_mut().for_each(|i| i.at = 0);
        s.group_by.iter_mut().for_each(|g| g.at = 0);
    }
    assert_eq!(distinct, written);
    assert_eq!(refused("SELECT DISTINCT a + 1 FROM t").0, Refused::GroupExpression);
}

#[test]
fn grouping_sets_are_ordered_longest_first() {
    let s = select("SELECT a, b FROM t GROUP BY GROUPING SETS ((), b, (b, a))");
    assert_eq!(s.group_by[0].name.column, "b");
    assert_eq!(s.group_by[1].name.column, "a");
    assert_eq!(s.grouping_sets, Some(GroupingSets { of: vec![vec![0, 1], vec![0], vec![]], at: 28 }));
    assert_eq!(refused("SELECT a FROM t GROUP BY GROUPING SETS ((a), (a))").0, Refused::Shape);
    assert_eq!(refused("SELECT a FROM t GROUP BY GROUPING SETS ((a, a))").0, Refused::Shape);
    assert_eq!(refused("SELECT a FROM t GROUP BY a, b, c, d WITH CUBE").0, Refused::GroupingSets);
    assert_eq!(refused("SELECT a FROM t GROUP BY a WITH TOTALS").0, Refused::WithTotals);
    assert_eq!(refused("SELECT a FROM t GROUP BY a, b, c, d, e").0, Refused::Shape);
    assert_eq!(refused("SELECT a FROM t GROUP BY ROLLUP(a)").0, Refused::GroupExpression);
}

#[test]
fn rollups_and_cubes() {
    assert_eq!(rollup(2), vec![vec![0, 1], vec![0], vec![]]);
    assert_eq!(cube(2), vec![vec![0, 1], vec![0], vec![1], vec![]]);
    assert_eq!(cube(3).len(), 8);
    assert_eq!(
        sort_sets(vec![vec![2], vec![], vec![1, 2], vec![0, 2], vec![1]]),
        vec![vec![0, 2], vec![1, 2], vec![1], vec![2], vec![]]
    );
}

#[test]
fn a_constant_is_bound_by_name() {
    let a = select("WITH 5 AS five, five AS again SELECT count(*) FROM t WHERE a = again");
    let b = select("SELECT count(*) FROM t WHERE a = 5");
    assert_eq!(a.filter, b.filter);
    assert_eq!(refused("WITH x AS (SELECT 1) SELECT count(*) FROM t").0, Refused::Subquery);
    assert_eq!(refused("WITH (1) AS x SELECT count(*) FROM t").0, Refused::Subquery);
}

#[test]
fn a_join_is_read_with_its_kind() {
    let s = select("SELECT count(*) FROM a LEFT OUTER JOIN b AS y ON a.k = y.k JOIN c ON c.k = a.k");
    assert_eq!(s.joins.len(), 2);
    assert_eq!(s.joins[0].kind, JoinKind::Left);
    assert_eq!(s.joins[0].source.label(), "y");
    assert_eq!(s.joins[1].kind, JoinKind::Inner);
    assert_eq!(refused("SELECT count(*) FROM a, b").0, Refused::Joins);
    assert_eq!(refused("SELECT count(*) FROM a CROSS JOIN b").0, Refused::Joins);
    assert_eq!(refused("SELECT count(*) FROM a JOIN b USING (k)").0, Refused::JoinOn);
    assert_eq!(refused("SELECT count(*) FROM a JOIN b ON a.k = b.k AND a.j = b.j").0, Refused::JoinOn);
    assert_eq!(refused("SELECT count(*) FROM a JOIN b ON a.k < b.k").0, Refused::JoinOn);
}

#[test]
fn ties_are_ties_of_an_order() {
    assert!(select("SELECT a, count(*) FROM t GROUP BY a ORDER BY a LIMIT 3 WITH TIES").with_ties);
    assert_eq!(refused("SELECT a, count(*) FROM t GROUP BY a LIMIT 3 WITH TIES").0, Refused::Order);
    assert_eq!(refused("SELECT a FROM t ORDER BY a, b").0, Refused::Order);
    assert_eq!(refused("SELECT a FROM t ORDER BY countIf(a = 1)").0, Refused::Order);
    assert_eq!(refused("SELECT a FROM t ORDER BY lower(a)").0, Refused::Expression);
    assert_eq!(refused("SELECT a FROM t FORMAT xml"), (Refused::Format, 23));
}

#[test]
fn a_condition_may_not_nest_without_end() {
    let deep = format!("SELECT count(*) FROM t WHERE {}a = 1{}", "(".repeat(200), ")".repeat(200));
    match parse(&deep) {
        Err(SqlError::TooDeep { limit, .. }) => assert_eq!(limit, 128),
        other => panic!("{other:?}"),
    }
}

#[test]
fn conditions_that_are_refused() {
    assert_eq!(refused("SELECT count(*) FROM t WHERE a IS NULL").0, Refused::Null);
    assert_eq!(refused("SELECT count(*) FROM t WHERE a = NULL").0, Refused::Null);
    assert_eq!(refused("SELECT count(*) FROM t WHERE (SELECT 1)").0, Refused::Subquery);
    assert_eq!(refused("SELECT count(*) FROM t WHERE lower(a) = 'x'").0, Refused::ScalarFilter);
    assert_eq!(refused("SELECT count(*) FROM t UNION SELECT count(*) FROM u").0, Refused::Union);
    assert_eq!(refused("SELECT count(*) FROM t INTERSECT SELECT count(*) FROM u").0, Refused::Subquery);
    assert_eq!(refused("SELECT count(*) FROM t GROUP BY a HAVING (SELECT 1) > 2").0, Refused::Subquery);
    assert_eq!(refused("SELECT count(*) FROM t SETTINGS max_threads = 3").0, Refused::Setting);
    assert_eq!(refused("SELECT count(*) FROM a.b.c").0, Refused::ThreePartName);
    assert_eq!(refused("SELECT count(*) FROM url('x')").0, Refused::TableFunction);
}

#[test]
fn statements_that_are_refused_by_their_first_word() {
    assert_eq!(refused("USE sales"), (Refused::SessionUse, 0));
    assert_eq!(refused("SET x = 1"), (Refused::SessionSetting, 0));
    assert_eq!(refused("ANALYZE TABLE t"), (Refused::Analyze, 0));
    assert_eq!(refused("EXPLAIN ANALYZE SELECT count(*) FROM t"), (Refused::Analyze, 8));
    assert_eq!(refused("OPTIMIZE TABLE t"), (Refused::Optimize, 0));
    assert_eq!(refused("COPY INTO t"), (Refused::CopyInto, 0));
    assert_eq!(refused("RENAME TABLE a TO b"), (Refused::Rename, 0));
    assert_eq!(refused("MERGE INTO t"), (Refused::Write, 0));
    assert_eq!(refused("CREATE USER bob"), (Refused::CreateUser, 7));
    assert_eq!(refused("CREATE TEMPORARY TABLE t"), (Refused::TemporaryTable, 7));
    match parse("FROB") {
        Err(SqlError::Syntax { at, found, want }) => {
            assert_eq!((at, found.as_str(), want), (0, "FROB", "a SELECT statement"))
        }
        other => panic!("{other:?}"),
    }
    assert!(matches!(parse("EXPLAIN EXPLAIN SELECT count(*) FROM t"), Err(SqlError::Syntax { .. })));
    assert!(matches!(parse(""), Err(SqlError::Syntax { .. })));
}

#[test]
fn only_a_query_has_halves() {
    match parse("EXPLAIN SHAPE SELECT count(*) FROM t").unwrap() {
        Parsed::Explain { mode, inner } => {
            assert_eq!(mode, ExplainMode::Shape);
            assert!(inner.is_query());
        }
        other => panic!("{other:?}"),
    }
    assert_eq!(refused("EXPLAIN PLAN DROP TABLE t"), (Refused::ExplainHalf, 8));
}

#[test]
fn rows_are_as_wide_as_their_columns() {
    let insert = match parse("INSERT INTO t (a, _record_id, b) VALUES (1, 7, 'x'), (2, 8, 'y')").unwrap() {
        Parsed::Insert(i) => i,
        other => panic!("{other:?}"),
    };
    assert_eq!(insert.id_at, Some(1));
    assert_eq!(insert.field_count(), 2);
    assert_eq!(insert.fact_count(), 4);
    match &insert.source {
        Source::Values(rows) => {
            assert_eq!(insert.record(&rows[1]), Some(8));
            assert_eq!(
                insert.facts(&rows[1]),
                vec![("a", &Literal::Int(2)), ("b", &Literal::Str("y".to_string()))]
            );
        }
        other => panic!("{other:?}"),
    }
    let free = match parse("INSERT t (a) VALUE (TRUE)").unwrap() {
        Parsed::Insert(i) => i,
        other => panic!("{other:?}"),
    };
    assert_eq!(free.id_at, None);
    assert_eq!(free.record(&[Literal::Bool(true)]), None);
    assert_eq!(free.facts(&[]), vec![]);
    assert_eq!(refused("INSERT INTO t VALUES (1)").0, Refused::InsertColumns);
    assert_eq!(refused("INSERT INTO t SELECT a FROM u").0, Refused::InsertColumns);
    assert_eq!(refused("INSERT INTO t (_record_id) VALUES ('x')").0, Refused::InsertId);
    assert_eq!(refused("INSERT OVERWRITE TABLE t (a) VALUES (1)").0, Refused::Overwrite);
    assert_eq!(refused("INSERT INTO t (a) SELECT * FROM u").0, Refused::InsertSelect);
    assert_eq!(refused("INSERT INTO t (_record_id) SELECT a FROM u").0, Refused::InsertSelect);
    assert_eq!(refused("INSERT INTO t (a) SELECT a FROM t").0, Refused::InsertSelfRead);
    assert!(matches!(parse("INSERT INTO t (a, b) VALUES (1)"), Err(SqlError::Syntax { want: "one value per column", .. })));
}

#[test]
fn a_statement_carries_so_many_rows() {
    let rows = |n: usize| format!("INSERT INTO t (a) VALUES {}", vec!["(1)"; n].join(", "));
    assert!(parse(&rows(10_000)).is_ok());
    assert_eq!(refused(&rows(10_001)).0, Refused::InsertSize);
}

#[test]
fn deletes_and_updates_say_which_records() {
    assert_eq!(refused("DELETE FROM t"), (Refused::DeleteAll, 12));
    assert_eq!(refused("DELETE FROM t WHERE a = 1 LIMIT 3").0, Refused::DeleteAll);
    assert_eq!(refused("DELETE FROM t USING u WHERE a = 1").0, Refused::Joins);
    assert_eq!(refused("UPDATE t SET a = 1"), (Refused::DeleteAll, 7));
    assert_eq!(refused("UPDATE t SET a = a WHERE b = 1").0, Refused::Expression);
    assert_eq!(refused("UPDATE t SET a = 1 + 1 WHERE b = 1").0, Refused::Expression);
    assert_eq!(refused("UPDATE t SET _record_id = 1 WHERE b = 1").0, Refused::IdColumn);
    match parse("UPDATE d.t SET a = 1, b = 'x' WHERE c = 2").unwrap() {
        Parsed::Update(u) => {
            assert_eq!(u.database, Some("d".to_string()));
            assert_eq!(
                u.assignments,
                vec![
                    ("a".to_string(), Literal::Int(1)),
                    ("b".to_string(), Literal::Str("x".to_string())),
                ]
            );
        }
        other => panic!("{other:?}"),
    }
}

#[test]
fn one_query_is_killed_by_its_id() {
    let kill = |text: &str| match parse(text) {
        Ok(Parsed::Kill(id)) => id,
        other => panic!("{other:?}"),
    };
    assert_eq!(kill("KILL 'n/1'"), "n/1");
    assert_eq!(kill("KILL QUERY WHERE query_id = 'n/1'"), "n/1");
    assert_eq!(refused("KILL MUTATION 'x'").0, Refused::KillTarget);
    assert_eq!(refused("KILL QUERY WHERE user = 'x'").0, Refused::KillTarget);
    assert_eq!(refused("KILL QUERY 'a' AND 'b'").0, Refused::KillTarget);
}

#[test]
fn questions_about_the_catalog() {
    assert_eq!(shown("DESCRIBE d.t"), Shown::Columns { database: Some("d".to_string()), table: "t".to_string() });
    assert_eq!(shown("DESC TABLE t"), Shown::Columns { database: None, table: "t".to_string() });
    assert_eq!(shown("SHOW TABLES FROM d"), Shown::Tables { database: Some("d".to_string()) });
    assert_eq!(shown("SHOW CREATE VIEW v"), Shown::Create { database: None, table: "v".to_string(), view: true });
    assert_eq!(shown("SHOW DATABASES"), Shown::Databases);
    assert_eq!(shown("SHOW ROLES"), Shown::Roles);
    assert_eq!(
        shown("SELECT name, engine FROM system.parts WHERE database = 'd' AND table = 't'"),
        Shown::System {
            view: SystemView::Parts,
            database: Some("d".to_string()),
            table: Some("t".to_string()),
            columns: Some(vec!["name".to_string(), "engine".to_string()]),
        }
    );
    assert_eq!(shown("SELECT * FROM numbers(10)"), Shown::Numbers { n: 10 });
    assert_eq!(refused("SELECT * FROM system.users").0, Refused::SystemTable);
    assert_eq!(refused("SELECT count(*) FROM system.tables").0, Refused::SystemClause);
    assert_eq!(refused("SELECT * FROM system.databases WHERE table = 't'").0, Refused::SystemClause);
    assert_eq!(refused("SELECT * FROM system.tables LIMIT 3").0, Refused::SystemClause);
    assert_eq!(refused("SELECT * FROM numbers(10) WHERE number > 3").0, Refused::SystemClause);
    assert_eq!(refused("SELECT * FROM numbers(99999999999)").0, Refused::NumbersTooLarge);
    // Without the bracket it is a table somebody called that.
    assert_eq!(select("SELECT * FROM numbers").from.table, "numbers");
}

#[test]
fn who_may_do_what() {
    assert_eq!(refused("GRANT SELECT (a) ON t TO r").0, Refused::AclColumns);
    assert_eq!(refused("GRANT analyst TO senior").0, Refused::RoleGrant);
    assert_eq!(refused("GRANT FROB ON t TO r").0, Refused::AclPrivilege);
    assert_eq!(refused("GRANT CREATE ON t TO r").0, Refused::AclObject);
    assert_eq!(refused("GRANT SELECT ON *.t TO r").0, Refused::AclObject);
    assert_eq!(refused("GRANT SELECT ON t TO PUBLIC").0, Refused::AclPublic);
    assert_eq!(refused("GRANT SELECT ON t TO r WITH GRANT OPTION").0, Refused::GrantOption);
    assert_eq!(refused("CREATE ROLE SuperUser").0, Refused::ReservedRole);
    assert!(matches!(parse("CREATE ROLE IF NOT EXISTS r"), Ok(Parsed::Acl(_))));
    assert!(matches!(parse("DROP ROLE IF EXISTS r"), Ok(Parsed::Acl(_))));
}

#[test]
fn types_are_kinds_and_depths() {
    let is = |text: &str, kind: ColumnKind, bit_depth: u32| {
        assert_eq!(column(text), Column { name: "c".to_string(), kind, bit_depth, scale: None }, "{text}");
    };
    is("set", ColumnKind::Keyed, 32);
    is("VARCHAR", ColumnKind::Keyed, 32);
    is("LowCardinality(String)", ColumnKind::Keyed, 32);
    is("MUTEX", ColumnKind::Mutex, 32);
    is("BOOLEAN", ColumnKind::Bool, 32);
    is("TINYINT", ColumnKind::Int, 8);
    is("BIGINT SIGNED", ColumnKind::Signed, 64);
    is("INT UNSIGNED", ColumnKind::Int, 32);
    is("UINT(12)", ColumnKind::Int, 12);
    is("SIGNED", ColumnKind::Signed, 32);
    is("DOUBLE PRECISION", ColumnKind::Float64, 64);
    is("REAL", ColumnKind::Float32, 32);
    is("DATE", ColumnKind::Date, 32);
    is("TIMESTAMP", ColumnKind::DateTime, 64);
    is("TIMEQUANTUM", ColumnKind::TimeQuantum, 32);
    assert_eq!(
        column("DECIMAL(10, 2)"),
        Column { name: "c".to_string(), kind: ColumnKind::Decimal, bit_depth: 34, scale: Some(2) }
    );
    assert_eq!(decimal_bits(10), 34);
    assert_eq!(decimal_bits(19), 64);
    assert_eq!(decimal_bits(u64::MAX), 6_148_914_691_236_517_205);
}

#[test]
fn types_that_are_refused() {
    let of = |text: &str| refused(&format!("CREATE TABLE t (c {text})")).0;
    assert_eq!(of("Nullable(Int)"), Refused::NullableType);
    assert_eq!(of("Array(Int)"), Refused::CompositeType);
    assert_eq!(of("ENUM8('a')"), Refused::EnumType);
    assert_eq!(of("BITMAP"), Refused::BitmapType);
    assert_eq!(of("HLL"), Refused::Sketch);
    assert_eq!(of("INT(11)"), Refused::ColumnType);
    assert_eq!(of("FLOAT(3)"), Refused::ColumnType);
    assert_eq!(of("FROB"), Refused::ColumnType);
    assert_eq!(of("VARCHAR(20)"), Refused::Constraint);
    assert_eq!(of("INT NOT NULL"), Refused::Constraint);
    assert_eq!(of("INT MATERIALIZED a"), Refused::ComputedColumn);
    assert_eq!(of("UINT(65)"), Refused::BitDepth);
    assert_eq!(of("DECIMAL(20, 2)"), Refused::BitDepth);
    assert_eq!(of("DECIMAL(10)"), Refused::DecimalScale);
    assert_eq!(of("DECIMAL(2, 3)"), Refused::DecimalScale);
    assert_eq!(refused("CREATE TABLE t (_RECORD_ID SET)").0, Refused::IdColumn);
}

#[test]
fn schema_changes() {
    assert_eq!(
        ddl("CREATE TABLE IF NOT EXISTS d.t ENGINE = 'bitmap+columnar'"),
        Ddl::CreateTable {
            database: Some("d".to_string()),
            table: "t".to_string(),
            engine: Some("bitmap+columnar".to_string()),
            columns: vec![],
            if_not_exists: true,
        }
    );
    assert_eq!(
        ddl("ALTER TABLE t ADD COLUMN a UINT(3), DROP b, DROP DAYS BEFORE '2024-01-01' ON ts"),
        Ddl::AlterTable {
            database: None,
            table: "t".to_string(),
            changes: vec![
                Alter::Add(Column {
                    name: "a".to_string(),
                    kind: ColumnKind::Int,
                    bit_depth: 3,
                    scale: None,
                }),
                Alter::Drop("b".to_string()),
                Alter::DropDaysBefore { column: "ts".to_string(), before: "2024-01-01".to_string() },
            ],
        }
    );
    assert_eq!(
        ddl("DROP DATABASE IF EXISTS d CASCADE"),
        Ddl::DropDatabase { name: "d".to_string(), if_exists: true, cascade: true }
    );
    assert_eq!(refused("CREATE DATABASE system").0, Refused::SystemTable);
    assert_eq!(refused("DROP DATABASE SYSTEM").0, Refused::SystemTable);
    assert_eq!(refused("CREATE INDEX i").0, Refused::Write);
    assert_eq!(refused("CREATE OR REPLACE TABLE t").0, Refused::Write);
    assert_eq!(refused("CREATE MATERIALIZED VIEW v").0, Refused::MaterializedView);
    assert_eq!(refused("CREATE TABLE t TTL d").0, Refused::DeclarativeTtl);
    assert_eq!(refused("CREATE TABLE t PARTITION BY a").0, Refused::Distribution);
    assert_eq!(refused("CREATE TABLE t SAMPLE BY a").0, Refused::Sample);
    assert_eq!(refused("ALTER TABLE t MODIFY a INT").0, Refused::AlterKind);
    assert_eq!(refused("ALTER TABLE t MODIFY TTL d").0, Refused::DeclarativeTtl);
    assert_eq!(refused("ALTER TABLE t RENAME TO u").0, Refused::Rename);
    assert_eq!(refused("ALTER TABLE t ENGINE = x").0, Refused::AlterEngine);
    assert_eq!(refused("ALTER TABLE t ADD CONSTRAINT c").0, Refused::Constraint);
}

#[test]
fn a_view_is_kept_as_it_was_written() {
    assert_eq!(
        ddl("CREATE OR REPLACE VIEW d.v AS   SELECT a,  b FROM t WHERE c = 'x'  "),
        Ddl::CreateView {
            database: Some("d".to_string()),
            name: "v".to_string(),
            body: "SELECT a,  b FROM t WHERE c = 'x'".to_string(),
            or_replace: true,
            if_not_exists: false,
        }
    );
    assert_eq!(refused("CREATE VIEW v AS SELECT count(*) FROM t"), (Refused::ViewBody, 24));
    assert_eq!(refused("CREATE VIEW v AS SELECT a FROM t LIMIT 3").0, Refused::ViewBody);
    assert_eq!(refused("CREATE VIEW v AS SELECT a FROM t GROUP BY GROUPING SETS (())").0, Refused::ViewBody);
    assert_eq!(refused("CREATE VIEW v AS SELECT a FROM t UNION ALL SELECT b FROM t").0, Refused::ViewBody);
}

#[test]
fn a_select_list_entry_is_about_one_thing() {
    let s = select("SELECT a + a * 2, count(DISTINCT b), sumIf(c, d = 1) FROM t");
    assert!(matches!(s.items[0].proj, Proj::Scalar { .. }));
    assert_eq!(s.items[0].column(), "a + a * 2");
    assert!(matches!(s.items[1].proj, Proj::CountDistinct(_)));
    assert!(matches!(s.items[2].proj, Proj::Agg { func: Agg::Sum, .. }));
    assert!(s.items[2].filter.is_some());
    assert_eq!(refused("SELECT a + b FROM t").0, Refused::Expression);
    assert_eq!(refused("SELECT stddevPop(a) FROM t").0, Refused::Aggregate);
    assert_eq!(refused("SELECT bitmap_count(a) FROM t").0, Refused::BitmapFunction);
    assert_eq!(refused("SELECT toInt64(a) FROM t").0, Refused::Cast);
    assert_eq!(refused("SELECT CASE a WHEN 5 THEN 1 END FROM t").0, Refused::Case);
    assert_eq!(refused("SELECT nullIf(a) FROM t").0, Refused::Shape);
    assert_eq!(refused("SELECT windowFunnel(a) FROM t").0, Refused::SequenceFunction);
    assert_eq!(refused("SELECT has(a, 'x') FROM t").0, Refused::ArrayFunction);
    assert_eq!(refused("SELECT row_number() OVER (ORDER BY a) FROM t").0, Refused::Window);
    assert_eq!(refused("SELECT a OVER (ORDER BY a) FROM t").0, Refused::Window);
}

#[test]
fn an_entry_is_about_one_thing() {
    for entry in [
        "count(*) - countIf(a = 1)",
        "countIf(a = 1) / count(*)",
        "countIf(a = 1) / countIf(a = 2)",
        "sumIf(x, a = 1) / sum(x)",
        "countIf(SEGMENT(v)) / countIf(SEGMENT(w))",
        "a + b",
    ] {
        assert_eq!(refused(&format!("SELECT {entry} FROM t")), (Refused::Expression, 7), "{entry}");
    }
    let s = select("SELECT countIf(a = 1) / countIf(a = 1), countIf(SEGMENT(v)) + countIf(SEGMENT(v)), a * a FROM t");
    assert_eq!(s.items[0].filter, select("SELECT count(*) FROM t WHERE a = 1").filter);
    assert_eq!(s.items[0].leaf(), &Proj::Count);
    assert!(s.items[1].filter.is_some());
    assert_eq!(s.items[2].filter, None);
}
