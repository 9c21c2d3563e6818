use big_sql::civil::{format_datetime, parse_datetime, Moment, Unit};
use big_sql::ddl::{Column, ColumnKind};
use big_sql::explain::{answer, ddl, explained, insert, show, Explained, Probed};
use big_sql::pql::Literal;
use big_sql::print::literal;
use big_sql::render::{create_table, precision_for};
use big_sql::{parse, translate, Ddl, ExplainMode, Parsed, Sql};

fn ddl_of(text: &str) -> Ddl {
    match parse(text) {
        Ok(Parsed::Ddl(d)) => d,
        other => panic!("{other:?}"),
    }
}

#[test]
fn a_query_is_explained_in_halves() {
    let s = match translate("SELECT count(*), median(x) FROM t FORMAT tsv").unwrap() {
        Sql::Query(s) => s,
        other => panic!("{other:?}"),
    };
    let plans = vec!["Count\n\n└── all".to_string()];
    let probes = vec![Probed { probe: &s.probes[0], rows: "Rows\n└── Row(a = 1)" }];
    let what = Explained::Query { plans: &plans, probes: &probes, answer: &s.answer };
    let plan = "plan #0\nCount\n└── all\nprobe t.x per_mille=500\n└── Row(a = 1)";
    let shape = "shape\nRow format=tsv\n├── count = #0\n└── quantile = probe #0 units=t.x (unresolved)";
    assert_eq!(explained(ExplainMode::Plan, &what), plan);
    assert_eq!(explained(ExplainMode::Shape, &what), shape);
    assert_eq!(explained(ExplainMode::All, &what), format!("{plan}\n{shape}"));
    assert_eq!(answer(&s.answer).lines().next(), Some("Row format=tsv"));
    let bare = vec![Probed { probe: &s.probes[0], rows: "Rows" }];
    let what = Explained::Query { plans: &vec![], probes: &bare, answer: &s.answer };
    assert_eq!(explained(ExplainMode::Plan, &what), "probe t.x per_mille=500\n└── all");
}

#[test]
fn an_explanation_has_no_blank_line() {
    let d = ddl_of("CREATE VIEW v AS SELECT a\r\n   \r\n\n FROM t");
    let text = explained(ExplainMode::All, &Explained::Ddl(&d));
    assert_eq!(text, "ddl\nCreateView v\n└── SELECT a\n FROM t");
    assert!(text.lines().all(|l| !l.trim().is_empty()));
}

#[test]
fn a_schema_change_is_a_line_and_its_columns() {
    assert_eq!(
        ddl(&ddl_of("CREATE TABLE IF NOT EXISTS d.t (a SET, b DECIMAL(4, 2)) ENGINE = columnar")),
        "CreateTable d.t if_not_exists engine=columnar\n├── a set depth=32\n└── b decimal depth=14 scale=2"
    );
    assert_eq!(
        ddl(&ddl_of("ALTER TABLE t ADD a UINT(3), DROP b")),
        "AlterTable t\n├── add a int depth=3\n└── drop b"
    );
    assert_eq!(ddl(&ddl_of("DROP DATABASE d CASCADE")), "DropDatabase d cascade");
    assert_eq!(ddl(&ddl_of("TRUNCATE t")), "TruncateTable t");
}

#[test]
fn an_insert_shows_its_rows_or_what_it_reads() {
    let text = |sql: &str| match parse(sql).unwrap() {
        Parsed::Insert(i) => insert(&i),
        other => panic!("{other:?}"),
    };
    assert_eq!(
        text("INSERT INTO t (_record_id, a) VALUES (1, 'x'), (2, 1.50)"),
        "Insert t (_record_id, a) id_at=0\n├── 1, 'x'\n└── 2, 1.50"
    );
    assert_eq!(
        text("INSERT INTO t (a, b) SELECT c, d AS e FROM s.u"),
        "Insert t (a, b) id=allocated\n└── select c, e from s.u"
    );
    assert_eq!(
        text("INSERT INTO t (a, b) SELECT c, count(*) FROM u"),
        "Insert t (a, b) id=allocated\n└── error: sql_unsupported"
    );
}

#[test]
fn a_question_is_one_line() {
    let text = |sql: &str| match parse(sql).unwrap() {
        Parsed::Show(s) => show(&s),
        other => panic!("{other:?}"),
    };
    assert_eq!(text("DESCRIBE d.t FORMAT csv"), "Columns d.t format=csv");
    assert_eq!(text("SHOW TABLES"), "Tables");
    assert_eq!(text("SHOW CREATE VIEW v"), "Create v view");
    assert_eq!(
        text("SELECT name FROM system.columns WHERE table = 't'"),
        "System columns table=t (name)"
    );
}

#[test]
fn values_are_written_as_they_were() {
    assert_eq!(literal(&Literal::Dec { units: 150, scale: 2 }), "1.50");
    assert_eq!(literal(&Literal::Dec { units: 5, scale: 3 }), "0.005");
    assert_eq!(literal(&Literal::Dec { units: 5, scale: 0 }), "5");
    assert_eq!(literal(&Literal::Sdec { units: -5, scale: 2 }), "-0.05");
    assert_eq!(literal(&Literal::Sint(i64::MIN)), "-9223372036854775808");
    assert_eq!(literal(&Literal::Str("it's".to_string())), "'it's'");
    assert_eq!(literal(&Literal::Bool(true)), "true");
}

fn column(name: &str, kind: ColumnKind, bit_depth: u32, scale: Option<i8>) -> Column {
    Column { name: name.to_string(), kind, bit_depth, scale }
}

#[test]
fn a_schema_reads_back() {
    let columns = vec![
        column("a", ColumnKind::Keyed, 32, None),
        column("b_2", ColumnKind::Mutex, 32, None),
        column("c", ColumnKind::Bool, 32, None),
        column("d", ColumnKind::TimeQuantum, 32, None),
        column("e", ColumnKind::Float32, 32, None),
        column("f", ColumnKind::Float64, 64, None),
        column("g", ColumnKind::Date, 32, None),
        column("h", ColumnKind::DateTime, 64, None),
        column("i", ColumnKind::Int, 7, None),
        column("j", ColumnKind::Signed, 64, None),
        column("k", ColumnKind::Decimal, 34, Some(2)),
    ];
    let text = create_table("t", Some("bitmap+columnar"), &columns);
    assert!(text.starts_with("CREATE TABLE t (\n    a SET,\n    b_2 MUTEX,\n"), "{text}");
    assert!(text.ends_with("    k DECIMAL(10, 2)\n) ENGINE = 'bitmap+columnar'"), "{text}");
    assert_eq!(
        ddl_of(&text),
        Ddl::CreateTable {
            database: None,
            table: "t".to_string(),
            engine: Some("bitmap+columnar".to_string()),
            columns,
            if_not_exists: false,
        }
    );
    assert_eq!(create_table("t", Some("columnar"), &[]), "CREATE TABLE t ENGINE = columnar");
    match ddl_of(&create_table("d.t", None, &[])) {
        Ddl::CreateTable { database, table, .. } => {
            assert_eq!((database.as_deref(), table.as_str()), (Some("d"), "t"));
        }
        other => panic!("{other:?}"),
    }
    for (engine, clause) in [("9x", "ENGINE = '9x'"), ("", "ENGINE = ''"), ("_x9", "ENGINE = _x9")] {
        let text = create_table("t", Some(engine), &[]);
        assert_eq!(text, format!("CREATE TABLE t {clause}"));
        match ddl_of(&text) {
            Ddl::CreateTable { engine: read, .. } => assert_eq!(read.as_deref(), Some(engine)),
            other => panic!("{other:?}"),
        }
    }
    assert_eq!(create_table("t", None, &[]), "CREATE TABLE t");
    // Whatever the engine is called, so long as it has no quote in it.
    for name in ["s\u{e4}ule", "\u{5217}\u{5f0f}", "two words", "a\"b"] {
        let text = create_table("t", Some(name), &[column("a", ColumnKind::Keyed, 32, None)]);
        match ddl_of(&text) {
            Ddl::CreateTable { engine, .. } => assert_eq!(engine.as_deref(), Some(name)),
            other => panic!("{other:?}"),
        }
    }
}

#[test]
fn a_depth_between_two_precisions_gets_the_larger() {
    assert_eq!(precision_for(20), 6);
    assert_eq!(precision_for(34), 10);
    assert_eq!(precision_for(64), 19);
    assert_eq!(precision_for(99), 19);
}

#[test]
fn moments_and_seconds() {
    assert_eq!(format_datetime(0), "1970-01-01 00:00:00");
    assert_eq!(format_datetime(-1), "1969-12-31 23:59:59");
    assert_eq!(format_datetime(951_782_400), "2000-02-29 00:00:00");
    assert_eq!(format_datetime(4_107_542_400), "2100-03-01 00:00:00");
    let m = parse_datetime("2024-02-29 23:59:59").unwrap();
    assert_eq!(Moment::from_unix(1_709_251_199), m);
    assert_eq!(parse_datetime("2023-02-29"), None);
    assert_eq!(m.truncate(Unit::Quarter), parse_datetime("2024-01-01").unwrap());
    assert_eq!(m.truncate(Unit::Week), parse_datetime("2024-02-26").unwrap());
    assert_eq!(m.next(Unit::Day), parse_datetime("2024-03-01").unwrap());
    assert_eq!(m.next(Unit::Second), parse_datetime("2024-03-01").unwrap());
}
