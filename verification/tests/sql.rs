use big_sql::acl::{Acl, AclObject};
use big_sql::error::{Refused, SqlError};
use big_sql::rbac::{Demand, ObjectRef, Privilege, Privileges};
use big_sql::settings::Settings;
use big_sql::{finish, parse, qualify, translate, translate_in, ExplainMode, Parsed, Sql};

fn demands(text: &str) -> Vec<(Privilege, String)> {
    let sql = translate(text).unwrap();
    sql.demands().iter().map(|d: &Demand| (d.privilege, named(d.on))).collect()
}

fn named(on: ObjectRef) -> String {
    match on {
        ObjectRef::Server => "*.*".to_string(),
        ObjectRef::Database(d) => format!("{d}.*"),
        ObjectRef::Table { database, table } => format!("{database}.{table}"),
    }
}

fn one(privilege: Privilege, on: &str) -> (Privilege, String) {
    (privilege, on.to_string())
}

#[test]
fn a_statement_demands_what_it_touches() {
    assert_eq!(demands("SELECT count(*) FROM t"), vec![one(Privilege::Select, "default.t")]);
    assert_eq!(
        demands("SELECT count(*) FROM a JOIN s.b ON a.k = b.k"),
        vec![one(Privilege::Select, "default.a"), one(Privilege::Select, "s.b")]
    );
    assert_eq!(
        demands("INSERT INTO t (a) SELECT x FROM u"),
        vec![one(Privilege::Insert, "default.t"), one(Privilege::Select, "default.u")]
    );
    assert_eq!(
        demands("DELETE FROM t WHERE _record_id IN (SELECT _record_id FROM s.b)"),
        vec![one(Privilege::Delete, "default.t"), one(Privilege::Select, "s.b")]
    );
    assert_eq!(
        demands("UPDATE t SET a = 1 WHERE b = 2"),
        vec![one(Privilege::Insert, "default.t"), one(Privilege::Delete, "default.t")]
    );
    assert_eq!(demands("CREATE TABLE t (a SET)"), vec![one(Privilege::Create, "default.*")]);
    assert_eq!(demands("ALTER TABLE s.t DROP a"), vec![one(Privilege::Alter, "s.t")]);
    assert_eq!(demands("DROP TABLE t"), vec![one(Privilege::Drop, "default.t")]);
    assert_eq!(demands("TRUNCATE t"), vec![one(Privilege::Drop, "default.t")]);
    assert_eq!(demands("CREATE DATABASE d"), vec![one(Privilege::Create, "*.*")]);
    assert_eq!(demands("DROP DATABASE d"), vec![one(Privilege::Drop, "*.*")]);
    assert_eq!(demands("GRANT SELECT ON t TO r"), vec![one(Privilege::Roles, "*.*")]);
    assert_eq!(demands("KILL QUERY 'n/1'"), vec![one(Privilege::Operate, "*.*")]);
    assert_eq!(demands("DESCRIBE t"), vec![one(Privilege::Select, "default.t")]);
    assert_eq!(demands("SHOW GRANTS FOR r"), vec![one(Privilege::Roles, "*.*")]);
    assert_eq!(demands("SHOW PROCESSLIST"), vec![one(Privilege::Operate, "*.*")]);
    assert_eq!(demands("SHOW TABLES"), vec![]);
    assert_eq!(demands("SHOW GRANTS"), vec![]);
    assert_eq!(demands("SELECT * FROM numbers(3)"), vec![]);
}

/// A wrapper is not a statement of its own.
#[test]
fn an_explanation_and_a_limit_demand_what_they_wrap() {
    assert_eq!(demands("EXPLAIN DELETE FROM t WHERE a = 1"), demands("DELETE FROM t WHERE a = 1"));
    assert_eq!(
        demands("SELECT count(*) FROM t SETTINGS max_execution_time = 3"),
        demands("SELECT count(*) FROM t")
    );
}

#[test]
fn an_unqualified_name_means_the_requests_database() {
    let table = |text: &str, database: &str| match translate_in(text, database).unwrap() {
        Sql::Query(s) => s.calls[0].table.clone(),
        other => panic!("{other:?}"),
    };
    assert_eq!(table("SELECT count(*) FROM t", "sales"), "sales.t");
    assert_eq!(table("SELECT count(*) FROM ops.t", "sales"), "ops.t");
    assert_eq!(table("SELECT count(*) FROM t", "default"), "t");
    match translate_in("EXPLAIN DROP TABLE t", "sales").unwrap() {
        Sql::Explain { mode, inner } => {
            assert_eq!(mode, ExplainMode::All);
            match *inner {
                Sql::Ddl(big_sql::Ddl::DropTable { database, .. }) => {
                    assert_eq!(database, Some("sales".to_string()))
                }
                other => panic!("{other:?}"),
            }
        }
        other => panic!("{other:?}"),
    }
}

#[test]
fn a_statement_is_filled_in_once() {
    let mut once = parse("SELECT count(*) FROM a JOIN b ON a.k = b.k").unwrap();
    qualify(&mut once, "sales");
    let mut twice = parse("SELECT count(*) FROM a JOIN b ON a.k = b.k").unwrap();
    qualify(&mut twice, "sales");
    qualify(&mut twice, "ops");
    assert_eq!(once, twice);
    assert!(matches!(finish(once), Ok(Sql::Query(_))));
}

#[test]
fn a_grant_is_against_the_requests_database() {
    match translate_in("GRANT ALL ON * TO r", "sales").unwrap() {
        Sql::Acl(Acl::Grant { privileges, on, role }) => {
            assert_eq!(on, AclObject::Database(Some("sales".to_string())));
            assert_eq!(on.written(), "sales.*");
            assert_eq!(AclObject::Database(None).written(), "*");
            assert_eq!(AclObject::Server.written(), "*.*");
            assert_eq!(role, "r");
            assert!(privileges.contains(Privilege::Create));
            assert!(!privileges.contains(Privilege::Roles));
        }
        other => panic!("{other:?}"),
    }
    match translate("REVOKE SELECT, INSERT ON t FROM r").unwrap() {
        Sql::Acl(acl) => {
            assert_eq!(acl.role(), "r");
            assert_eq!(
                acl,
                Acl::Revoke {
                    privileges: Privileges::from_iter(&[Privilege::Select, Privilege::Insert]),
                    on: AclObject::Table { database: None, table: "t".to_string() },
                    role: "r".to_string(),
                }
            );
        }
        other => panic!("{other:?}"),
    }
}

#[test]
fn a_delete_selects_as_a_select_does() {
    let rows = match translate("SELECT count(*) FROM t WHERE a = 1 AND NOT b = 2").unwrap() {
        Sql::Query(s) => s.calls,
        other => panic!("{other:?}"),
    };
    let delete = match translate("DELETE FROM d.t WHERE a = 1 AND NOT b = 2").unwrap() {
        Sql::Delete(d) => d,
        other => panic!("{other:?}"),
    };
    assert_eq!(delete.qualified(), "d.t");
    assert_eq!(rows[0].call.args, vec![big_sql::pql::Expr::Call(delete.rows)]);
}

#[test]
fn a_limit_on_a_delete_is_refused_elsewhere() {
    match translate("DELETE FROM t WHERE a = 1 SETTINGS max_delete_records = 5").unwrap() {
        Sql::Settings { settings, inner } => {
            assert_eq!(settings.max_delete_records, Some(5));
            assert!(matches!(*inner, Sql::Delete(_)));
        }
        other => panic!("{other:?}"),
    }
    assert_eq!(
        translate("SELECT count(*) FROM t SETTINGS max_delete_records = 5"),
        Err(SqlError::Refused { what: Refused::Setting, at: 0 })
    );
}

#[test]
fn the_last_value_of_a_setting_holds() {
    match parse("SELECT count(*) FROM t SETTINGS max_result_rows = 1, MAX_RESULT_ROWS = 2, max_memory_usage = 3").unwrap() {
        Parsed::Settings { settings, inner } => {
            assert_eq!(
                settings,
                Settings {
                    max_result_rows: Some(2),
                    max_memory_usage: Some(3),
                    ..Settings::default()
                }
            );
            assert!(inner.is_query());
        }
        other => panic!("{other:?}"),
    }
}

/// A read is a read, wherever it appears.
#[test]
fn every_read_is_demanded() {
    assert_eq!(
        demands("SELECT count(*) FROM t WHERE x IN (SELECT _record_id FROM s.b WHERE y IN (SELECT _record_id FROM c))"),
        vec![
            one(Privilege::Select, "default.t"),
            one(Privilege::Select, "s.b"),
            one(Privilege::Select, "default.c"),
        ]
    );
    assert_eq!(
        demands("SELECT count(*) FILTER (WHERE x IN (SELECT _record_id FROM b)) FROM t UNION ALL SELECT count(*) FROM u"),
        vec![
            one(Privilege::Select, "default.t"),
            one(Privilege::Select, "default.u"),
            one(Privilege::Select, "default.b"),
        ]
    );
    assert_eq!(demands("SELECT median(x) FROM t"), vec![one(Privilege::Select, "default.t")]);
    assert_eq!(
        demands("INSERT INTO t (a) SELECT x FROM u WHERE y IN (SELECT _record_id FROM s.b)"),
        vec![
            one(Privilege::Insert, "default.t"),
            one(Privilege::Select, "default.u"),
            one(Privilege::Select, "s.b"),
        ]
    );
    assert_eq!(demands("SELECT now() FROM t"), vec![]);
}

#[test]
fn every_name_is_filled() {
    let demands_in = |text: &str, database: &str| -> Vec<String> {
        let sql = translate_in(text, database).unwrap();
        sql.demands().iter().map(|d| named(d.on)).collect()
    };
    assert_eq!(
        demands_in("SELECT count(*) FROM t WHERE x IN (SELECT _record_id FROM b)", "ops"),
        vec!["ops.t", "ops.b"]
    );
    assert_eq!(
        demands_in("INSERT INTO t (a) SELECT x FROM u WHERE NOT (y IN (SELECT _record_id FROM s.b))", "ops"),
        vec!["ops.t", "ops.u", "s.b"]
    );
    assert_eq!(
        demands_in("DELETE FROM t WHERE a = 1 OR x IN (SELECT _record_id FROM b)", "ops"),
        vec!["ops.t", "ops.b"]
    );
}

#[test]
fn a_segment_is_expanded_before_it_is_lowered() {
    match translate("SELECT count(*) FROM t WHERE a = 1 AND NOT SEGMENT(loyal)") {
        Err(SqlError::Refused { what, at }) => assert_eq!((what, at), (Refused::Segment, 43)),
        other => panic!("{other:?}"),
    }
    assert!(parse("SELECT count(*) FROM t WHERE SEGMENT(loyal)").is_ok());
    for text in ["DELETE FROM t WHERE SEGMENT(loyal)", "UPDATE t SET a = 1 WHERE NOT SEGMENT(loyal)"] {
        match translate(text) {
            Err(SqlError::Refused { what, at }) => {
                assert_eq!((what, at), (Refused::Segment, text.find("SEGMENT").unwrap()))
            }
            other => panic!("{other:?}"),
        }
    }
    // Without the bracket it is a column.
    assert!(translate("SELECT count(*) FROM t WHERE segment").is_ok());
}

/// The same table named twice is one demand.
#[test]
fn no_demand_is_made_twice() {
    assert_eq!(
        demands("INSERT INTO t (x) SELECT count(*) FROM a JOIN b ON a.k = b.k JOIN a AS a2 ON a.k = a2.k"),
        vec![
            one(Privilege::Insert, "default.t"),
            one(Privilege::Select, "default.a"),
            one(Privilege::Select, "default.b"),
        ]
    );
}

#[test]
fn no_insert_feeds_itself() {
    let refusal = |text: &str, database: &str| match translate_in(text, database) {
        Err(SqlError::Refused { what, at }) => (what, at),
        other => panic!("{text}: {other:?}"),
    };
    let own = Refused::InsertSelfRead;
    assert_eq!(refusal("INSERT INTO sales.t (a) SELECT a FROM t", "sales"), (own, 31));
    assert_eq!(refusal("INSERT INTO t (a) SELECT a FROM sales.t", "sales"), (own, 25));
    assert_eq!(refusal("INSERT INTO default.t (a) SELECT a FROM t", "default"), (own, 33));
    assert_eq!(refusal("EXPLAIN INSERT INTO t (a) SELECT a FROM default.t", "default").0, own);
    assert_eq!(refusal("INSERT INTO t (a) SELECT count(*) FROM u JOIN s.t AS x ON u.k = x.k", "s").0, own);
    for (text, database) in [
        ("INSERT INTO default.t (a) SELECT a FROM t", "sales"),
        ("INSERT INTO sales.t (a) SELECT a FROM t", "default"),
        ("INSERT INTO t (a) SELECT a FROM u", "sales"),
        ("INSERT INTO t (a) VALUES (1)", "sales"),
    ] {
        assert!(translate_in(text, database).is_ok(), "{text}");
    }
}
