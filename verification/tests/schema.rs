use lnrentd::schema::{
    check_integrity, is_duplicate_refund_resolution, is_duplicate_suspend_not_before,
    is_fatal_db_error, migration, refuse_empty_file, DbError, Migration, MigrationAsk,
    MigrationEvent, MigrationStage, SCHEMA, SCHEMA_VERSION,
};
use rusqlite::Connection;

fn db_error(e: &rusqlite::Error) -> DbError {
    match e {
        rusqlite::Error::SqliteFailure(f, m) => DbError::Sqlite {
            code: f.extended_code,
            message: m.clone(),
        },
        other => DbError::Other {
            message: other.to_string(),
        },
    }
}

fn has_column(conn: &Connection, table: &str, column: &str) -> rusqlite::Result<bool> {
    let n: i64 = conn.query_row(
        "SELECT count(*) FROM pragma_table_info(?1) WHERE name=?2",
        [table, column],
        |r| r.get(0),
    )?;
    Ok(n > 0)
}

fn executed(r: rusqlite::Result<()>) -> MigrationEvent {
    match r {
        Ok(()) => MigrationEvent::Executed,
        Err(e) => MigrationEvent::Failed { error: db_error(&e) },
    }
}

fn migrate(conn: &Connection) -> Result<(), DbError> {
    let version: i64 = conn
        .query_row("PRAGMA user_version", [], |r| r.get(0))
        .unwrap();
    let mut m = Migration::start(version);
    loop {
        let event = match m.ask() {
            MigrationAsk::Execute { sql } => executed(conn.execute_batch(sql)),
            MigrationAsk::HasColumn { table, column } => match has_column(conn, table, column) {
                Ok(there) => MigrationEvent::HasColumn(there),
                Err(e) => MigrationEvent::Failed { error: db_error(&e) },
            },
            MigrationAsk::SetVersion { version } => {
                executed(conn.execute_batch(&format!("PRAGMA user_version = {version}")))
            }
            MigrationAsk::Done => return Ok(()),
            MigrationAsk::Failed { error } => return Err(error),
        };
        m = m.step(event);
    }
}

fn tables(conn: &Connection) -> i64 {
    conn.query_row(
        "SELECT count(*) FROM sqlite_master WHERE type='table' AND name NOT LIKE 'sqlite_%'",
        [],
        |r| r.get(0),
    )
    .unwrap()
}

fn version(conn: &Connection) -> i64 {
    conn.query_row("PRAGMA user_version", [], |r| r.get(0)).unwrap()
}

#[test]
fn schema_applies_to_memory_db() {
    let conn = Connection::open_in_memory().unwrap();
    conn.execute_batch(SCHEMA).unwrap();
    assert_eq!(tables(&conn), 17);
}

#[test]
fn migrate_fresh_applies_all_migrations() {
    let conn = Connection::open_in_memory().unwrap();
    migrate(&conn).unwrap();
    assert_eq!(version(&conn), SCHEMA_VERSION);
    assert_eq!(tables(&conn), 18);
}

#[test]
fn event_log_scan_indexes_exist_after_migrate() {
    let conn = Connection::open_in_memory().unwrap();
    migrate(&conn).unwrap();
    for idx in ["event_log_kind_idx", "event_log_sub_kind_idx"] {
        let n: i64 = conn
            .query_row(
                "SELECT count(*) FROM sqlite_master WHERE type='index' AND name=?1",
                [idx],
                |r| r.get(0),
            )
            .unwrap();
        assert_eq!(n, 1, "missing index {idx}");
    }
}

#[test]
fn terminal_row_reaper_indexes_exist_after_migrate() {
    let conn = Connection::open_in_memory().unwrap();
    migrate(&conn).unwrap();
    for idx in [
        "reservation_state_created_at_idx",
        "invoice_reap_predicate_idx",
        "invoice_subscription_id_idx",
        "event_log_at_kind_idx",
        "instance_updated_at_idx",
        "instance_subscription_id_idx",
        "subscription_state_updated_at_idx",
        "outbox_subscription_state_idx",
        "teardown_failure_subscription_idx",
        "native_connect_session_subscription_idx",
    ] {
        let n: i64 = conn
            .query_row(
                "SELECT count(*) FROM sqlite_master WHERE type='index' AND name=?1",
                [idx],
                |r| r.get(0),
            )
            .unwrap();
        assert_eq!(n, 1, "missing index {idx}");
    }
}

#[test]
fn migrate_is_idempotent_on_current_db() {
    let conn = Connection::open_in_memory().unwrap();
    migrate(&conn).unwrap();
    conn.execute("INSERT INTO recipe (id, version) VALUES ('r','1')", [])
        .unwrap();
    migrate(&conn).unwrap();
    assert_eq!(version(&conn), SCHEMA_VERSION);
    let n: i64 = conn
        .query_row("SELECT count(*) FROM recipe", [], |r| r.get(0))
        .unwrap();
    assert_eq!(n, 1, "re-migrating a current db is a no-op (no data loss)");
}

#[test]
fn simulated_v0_db_migrates_to_current_without_data_loss() {
    let conn = Connection::open_in_memory().unwrap();
    conn.execute_batch(SCHEMA).unwrap();
    conn.execute("INSERT INTO recipe (id, version) VALUES ('legacy','1')", [])
        .unwrap();
    assert_eq!(version(&conn), 0);
    migrate(&conn).unwrap();
    assert_eq!(version(&conn), SCHEMA_VERSION);
    let id: String = conn
        .query_row("SELECT id FROM recipe WHERE id='legacy'", [], |r| r.get(0))
        .unwrap();
    assert_eq!(id, "legacy", "data preserved across migration");
    let seen: i64 = conn
        .query_row(
            "SELECT count(*) FROM sqlite_master WHERE type='table' AND name='seen_message'",
            [],
            |r| r.get(0),
        )
        .unwrap();
    assert_eq!(
        seen, 1,
        "the later migration created seen_message on the legacy DB"
    );
}

#[test]
fn migrate_recovers_partially_applied_refund_resolution() {
    let conn = Connection::open_in_memory().unwrap();
    conn.execute_batch(
        "CREATE TABLE refund_attempt (id TEXT PRIMARY KEY, status TEXT, resolved_bolt11 TEXT);
         CREATE TABLE op_invocation (sender_pubkey TEXT, request_id TEXT, state TEXT, finished_at INTEGER);
         CREATE TABLE inbound_request (sender_pubkey TEXT, request_id TEXT, created_at INTEGER);
         CREATE TABLE event_log (id INTEGER PRIMARY KEY AUTOINCREMENT, subscription_id TEXT,
                                 kind TEXT, detail_json TEXT, at INTEGER);
         CREATE TABLE reservation (id TEXT PRIMARY KEY, order_id TEXT, state TEXT, created_at INTEGER);
         CREATE TABLE invoice (id TEXT PRIMARY KEY, subscription_id TEXT, external_id TEXT,
                               status TEXT, settled_at INTEGER, expires_at INTEGER, issued_at INTEGER);
         CREATE TABLE instance (id TEXT PRIMARY KEY, subscription_id TEXT, state TEXT, updated_at INTEGER);
         CREATE TABLE subscription (id TEXT PRIMARY KEY, state TEXT, updated_at INTEGER);
         CREATE TABLE outbox (id TEXT PRIMARY KEY, subscription_id TEXT, state TEXT);
         CREATE TABLE native_connect_session (id TEXT PRIMARY KEY, subscription_id TEXT, state TEXT);
         PRAGMA user_version = 3;",
    )
    .unwrap();
    assert!(has_column(&conn, "refund_attempt", "resolved_bolt11").unwrap());
    assert!(!has_column(&conn, "refund_attempt", "resolved_expiry").unwrap());
    assert!(!has_column(&conn, "refund_attempt", "resolution_gen").unwrap());

    migrate(&conn).unwrap();

    assert_eq!(
        version(&conn),
        SCHEMA_VERSION,
        "migrate reaches the current version after recovering the partial M4"
    );
    for col in ["resolved_bolt11", "resolved_expiry", "resolution_gen"] {
        assert!(
            has_column(&conn, "refund_attempt", col).unwrap(),
            "{col} present after recovery"
        );
    }
}

#[test]
fn migration_that_fails_otherwise_stops() {
    let conn = Connection::open_in_memory().unwrap();
    conn.execute_batch("CREATE TABLE outbox (id TEXT); PRAGMA user_version = 3;").unwrap();
    match migrate(&conn) {
        Err(DbError::Sqlite { message: Some(m), .. }) => assert!(m.contains("refund_attempt"), "{m}"),
        other => panic!("{other:?}"),
    }
    assert_eq!(version(&conn), 3);
    assert!(migration(SCHEMA_VERSION).is_none() && migration(-1).is_none());
    assert!(matches!(Migration::start(12).ask(), MigrationAsk::Done));
}

#[test]
fn duplicate_floor_column_counts_only_if_it_is_there() {
    let failed = |m: &str| MigrationEvent::Failed {
        error: DbError::Sqlite { code: 1, message: Some(m.into()) },
    };
    let start = || Migration::start(2).step(failed("duplicate column name: suspend_not_before"));
    match start().ask() {
        MigrationAsk::HasColumn { table, column } => {
            assert_eq!((table, column), ("subscription", "suspend_not_before"))
        }
        other => panic!("{other:?}"),
    }
    assert!(matches!(
        start().step(MigrationEvent::HasColumn(true)).ask(),
        MigrationAsk::SetVersion { version: 3 }
    ));
    assert!(matches!(
        start().step(MigrationEvent::HasColumn(false)).stage,
        MigrationStage::Failed { .. }
    ));
    assert!(matches!(
        Migration::start(1).step(failed("duplicate column name: suspend_not_before")).stage,
        MigrationStage::Failed { .. }
    ));
}

fn sqlite_failure(code: i32) -> DbError {
    db_error(&rusqlite::Error::SqliteFailure(
        rusqlite::ffi::Error::new(code),
        Some("synthetic".into()),
    ))
}

#[test]
fn is_fatal_db_error_only_for_disk_corruption_io_family() {
    for code in [
        rusqlite::ffi::SQLITE_FULL,
        rusqlite::ffi::SQLITE_CORRUPT,
        rusqlite::ffi::SQLITE_NOTADB,
        rusqlite::ffi::SQLITE_IOERR,
        rusqlite::ffi::SQLITE_IOERR_WRITE,
        rusqlite::ffi::SQLITE_READONLY,
    ] {
        assert!(
            is_fatal_db_error(&sqlite_failure(code)),
            "expected fatal for sqlite code {code}"
        );
    }
    assert!(!is_fatal_db_error(&sqlite_failure(rusqlite::ffi::SQLITE_CONSTRAINT)));
    assert!(!is_fatal_db_error(&sqlite_failure(rusqlite::ffi::SQLITE_BUSY)));
    assert!(!is_fatal_db_error(&sqlite_failure(rusqlite::ffi::SQLITE_LOCKED)));
    assert!(!is_fatal_db_error(&db_error(&rusqlite::Error::QueryReturnedNoRows)));
    assert!(!is_fatal_db_error(&db_error(&rusqlite::Error::ExecuteReturnedResults)));
}

#[test]
fn duplicate_columns_are_told_by_their_words() {
    let e = |m: &str| DbError::Sqlite { code: 1, message: Some(m.into()) };
    assert!(is_duplicate_suspend_not_before(&e("x duplicate column name: suspend_not_before y")));
    assert!(!is_duplicate_suspend_not_before(&e("duplicate column name: suspend")));
    assert!(is_duplicate_refund_resolution(&e("duplicate column name: resolution_gen")));
    assert!(is_duplicate_refund_resolution(&e("duplicate column name: resolved_expiry")));
    assert!(!is_duplicate_refund_resolution(&DbError::Other {
        message: "duplicate column name: resolution_gen".into()
    }));
    assert!(!is_duplicate_refund_resolution(&DbError::Sqlite { code: 1, message: None }));
}

#[test]
fn open_quick_check_gate() {
    let conn = Connection::open_in_memory().unwrap();
    migrate(&conn).unwrap();
    let verdict: String = conn
        .query_row("PRAGMA quick_check", [], |r| r.get(0))
        .unwrap();
    assert_eq!(verdict, "ok");
    assert!(check_integrity("/s", &verdict).is_ok());
    assert_eq!(
        check_integrity("/s", "row 3 missing").unwrap_err(),
        "state DB integrity check failed for /s: row 3 missing"
    );
    assert!(refuse_empty_file("/s", true, 0).unwrap().contains("exists but is empty"));
    assert!(refuse_empty_file("/s", true, 1).is_none());
    assert!(refuse_empty_file("/s", false, 0).is_none());
}
