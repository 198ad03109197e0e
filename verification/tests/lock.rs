use klickhouse::lock::LOCK_RETRY_MILLIS;
use klickhouse::migrate::{
    assert_migrations_table_query, cluster_migrations_table_query, column_names, deserialize_row,
    lock_wait, migration_lock, parse_u64, queries_to_split, serialize_row, LockWait, ParseFault,
};
use klickhouse::{ClickhouseLock, ClusterMigration, ClusterName, KlickhouseError, LockAttempt, Type, Value};

fn already_exists() -> KlickhouseError {
    KlickhouseError::ServerException {
        code: 57,
        name: "DB::Exception".to_string(),
        message: "Table default._lock_m already exists".to_string(),
        stack_trace: String::new(),
    }
}

#[test]
fn lock_queries_are_exact() {
    let lock = ClickhouseLock::new("m");
    assert_eq!(lock.lock_query(), "CREATE TABLE _lock_m (i Int64)ENGINE=Null");
    assert_eq!(lock.reset(), "DROP TABLE IF EXISTS _lock_m SYNC");
    let lock = ClickhouseLock::new("m").with_cluster("c1");
    assert_eq!(lock.lock_query(), "CREATE TABLE _lock_m ON CLUSTER c1 (i Int64)ENGINE=Null");
    assert_eq!(lock.reset(), "DROP TABLE IF EXISTS _lock_m ON CLUSTER c1 SYNC");
}

#[test]
fn try_lock_tells_held_from_failed() {
    let lock = ClickhouseLock::new("m");
    let handle = lock.try_lock(Ok(())).unwrap().unwrap();
    assert_eq!(handle.unlock().unwrap(), "DROP TABLE IF EXISTS _lock_m SYNC");
    assert!(lock.try_lock(Err(already_exists())).unwrap().is_none());
    assert!(matches!(
        lock.try_lock(Err(KlickhouseError::ConnectionError("gone".into()))),
        Err(KlickhouseError::ConnectionError(_))
    ));
}

#[test]
fn lock_waits_while_held() {
    let lock = ClickhouseLock::new("m");
    assert!(matches!(lock.lock(Err(already_exists())), LockAttempt::Wait(LOCK_RETRY_MILLIS)));
    assert_eq!(LOCK_RETRY_MILLIS, 100);
    assert!(matches!(lock.lock(Ok(())), LockAttempt::Acquired(_)));
    assert!(matches!(
        lock.lock(Err(KlickhouseError::Timeout("t".into()))),
        LockAttempt::Failed(KlickhouseError::Timeout(_))
    ));
}

#[test]
fn migration_lock_wait_policy() {
    assert_eq!(lock_wait(0), LockWait::Retry { millis: 250, warn: false });
    assert_eq!(lock_wait(60_000), LockWait::Retry { millis: 250, warn: false });
    assert_eq!(lock_wait(60_001), LockWait::Retry { millis: 250, warn: true });
    assert_eq!(lock_wait(300_000), LockWait::Retry { millis: 250, warn: true });
    assert_eq!(lock_wait(300_001), LockWait::TimedOut);
    assert_eq!(migration_lock().lock_query(), "CREATE TABLE _lock_refinery_exec (i Int64)ENGINE=Null");
}

struct Cluster;

impl ClusterName for Cluster {
    fn cluster_name() -> String {
        "main".to_string()
    }

    fn database() -> String {
        "db".to_string()
    }
}

#[test]
fn cluster_migration_names_its_cluster() {
    let migration = ClusterMigration::<Cluster>::new();
    assert_eq!(
        migration.lock().lock_query(),
        "CREATE TABLE _lock_refinery_exec ON CLUSTER main (i Int64)ENGINE=Null"
    );
    let query = ClusterMigration::<Cluster>::assert_migrations_table_query("hist");
    assert_eq!(query, cluster_migrations_table_query("hist", "main", "db"));
    assert!(query.starts_with("CREATE TABLE IF NOT EXISTS hist_local ON CLUSTER main("));
    assert!(query.contains("AS hist_local ENGINE = Distributed(main, db, hist_local, rand());"));
    assert!(assert_migrations_table_query("hist")
        .starts_with("CREATE TABLE IF NOT EXISTS hist(\n            version INT,"));
}

fn row(version: Value, checksum: &str, applied_on: &str) -> Vec<(String, Type, Value)> {
    vec![
        ("name".to_string(), Type::String, Value::string("initial")),
        ("version".to_string(), Type::Int32, version),
        ("checksum".to_string(), Type::String, Value::string(checksum)),
        ("applied_on".to_string(), Type::String, Value::string(applied_on)),
    ]
}

#[test]
fn migration_rows_are_read_in_any_order() {
    let m = deserialize_row(&row(Value::Int32(7), "1234567890123", "2024-01-02T03:04:05Z")).unwrap();
    assert_eq!(m.version, 7);
    assert_eq!(m.name, "initial");
    assert_eq!(m.checksum, 1234567890123);
    assert_eq!(m.applied_on.unix_nanos, 1_704_164_645_000_000_000);
    assert_eq!(m.applied_on.offset_seconds, 0);
    let m = deserialize_row(&row(Value::Int32(7), "1", "2024-01-02T03:04:05.25+02:30")).unwrap();
    assert_eq!(m.applied_on.unix_nanos, 1_704_155_645_250_000_000);
    assert_eq!(m.applied_on.offset_seconds, 9000);
    assert_eq!(column_names(), vec!["version", "name", "applied_on", "checksum"]);
    assert!(matches!(serialize_row(), KlickhouseError::NotImplemented(_)));
}

#[test]
fn bad_migration_rows_are_rejected() {
    let good = row(Value::Int32(7), "1", "2024-01-02T03:04:05Z");
    let mut short = good.clone();
    short.pop();
    assert!(matches!(deserialize_row(&short), Err(KlickhouseError::DeserializeError(_))));
    let mut twice = good.clone();
    twice[3] = twice[0].clone();
    assert!(matches!(deserialize_row(&twice), Err(KlickhouseError::DeserializeError(_))));
    let mut other = good.clone();
    other[3].0 = "extra".to_string();
    assert!(matches!(deserialize_row(&other), Err(KlickhouseError::DeserializeError(_))));
    assert!(matches!(
        deserialize_row(&row(Value::Int64(7), "1", "2024-01-02T03:04:05Z")),
        Err(KlickhouseError::UnexpectedType(_))
    ));
    assert!(matches!(
        deserialize_row(&row(Value::Int32(7), "-1", "2024-01-02T03:04:05Z")),
        Err(KlickhouseError::DeserializeError(_))
    ));
    assert!(matches!(
        deserialize_row(&row(Value::Int32(7), "1", "yesterday")),
        Err(KlickhouseError::DeserializeError(_))
    ));
    let mut not_text = good.clone();
    not_text[0].2 = Value::String(vec![0xff]);
    assert!(matches!(deserialize_row(&not_text), Err(KlickhouseError::Utf8(_))));
    assert_eq!(parse_u64("18446744073709551615"), Ok(u64::MAX));
    assert_eq!(parse_u64("18446744073709551616"), Err(ParseFault::PosOverflow));
    assert_eq!(parse_u64(""), Err(ParseFault::Empty));
    assert_eq!(parse_u64("12a"), Err(ParseFault::InvalidDigit));
}

#[test]
fn migration_statements_run_in_order() {
    let split = vec![
        vec!["CREATE TABLE a (x UInt8) ENGINE = Memory".to_string(), String::new()],
        vec![],
        vec![String::new(), "DROP TABLE a".to_string(), "SELECT 1".to_string()],
    ];
    assert_eq!(
        klickhouse::migrate::statements_to_run(&split, true),
        vec!["CREATE TABLE a (x UInt8) ENGINE = Memory", "DROP TABLE a", "SELECT 1"]
    );
    assert_eq!(
        klickhouse::migrate::statements_to_run(&split, false),
        vec!["CREATE TABLE a (x UInt8) ENGINE = Memory", "", "", "DROP TABLE a", "SELECT 1"]
    );
    assert!(klickhouse::migrate::statements_to_run(&vec![], true).is_empty());
}

#[test]
fn checksums_are_read_as_std_reads_numbers() {
    let texts = [
        "", "+", "-", "0", "+0", "+5", "++5", "-5", "5+", " 5", "5 ", "007", "+007", "1_000",
        "18446744073709551615", "+18446744073709551615", "18446744073709551616",
        "99999999999999999999", "99999999999999999999x", "9999999999999999999x9",
        "x99999999999999999999", "184467440737095516150", "0000000000000000000000000001",
        "12a", "a", "\u{663}", "1.5", "0x10",
    ];
    for text in texts {
        let expected = text.parse::<u64>().map_err(|e| format!("{e:?}"));
        let found = parse_u64(text).map_err(|fault| fault.describe().to_string());
        assert_eq!(found, expected, "{text:?}");
    }
    let m = deserialize_row(&row(Value::Int32(7), "+5", "2024-01-02T03:04:05Z")).unwrap();
    assert_eq!(m.checksum, 5);
}

fn refusal(r: Result<klickhouse::migrate::AppliedMigration, KlickhouseError>) -> String {
    match r {
        Err(KlickhouseError::DeserializeError(text)) => text,
        other => panic!("{other:?}"),
    }
}

#[test]
fn refused_rows_say_why() {
    let good = row(Value::Int32(7), "1", "2024-01-02T03:04:05Z");
    assert_eq!(refusal(deserialize_row(&vec![])), "bad column count for migration");
    let mut short = good.clone();
    short.pop();
    assert_eq!(refusal(deserialize_row(&short)), "bad column count for migration");
    for (at, name) in good.iter().map(|column| column.0.clone()).enumerate() {
        let mut twice = good.clone();
        twice[(at + 1) % 4] = twice[at].clone();
        assert_eq!(refusal(deserialize_row(&twice)), format!("duplicate {name} column"));
    }
    let mut other = good.clone();
    other[3].0 = "extra".to_string();
    assert_eq!(refusal(deserialize_row(&other)), "unexpected column extra");
    assert_eq!(
        refusal(deserialize_row(&row(Value::Int32(7), "-1", "2024-01-02T03:04:05Z"))),
        "failed to parse checksum: ParseIntError { kind: InvalidDigit }"
    );
    assert_eq!(
        refusal(deserialize_row(&row(Value::Int32(7), "", "2024-01-02T03:04:05Z"))),
        "failed to parse checksum: ParseIntError { kind: Empty }"
    );
    let expected = time::OffsetDateTime::parse(
        "yesterday",
        &time::format_description::well_known::Rfc3339,
    )
    .unwrap_err();
    assert_eq!(
        refusal(deserialize_row(&row(Value::Int32(7), "x", "yesterday"))),
        format!("failed to parse time: {expected:?}")
    );
    match deserialize_row(&row(Value::Int64(7), "1", "2024-01-02T03:04:05Z")) {
        Err(KlickhouseError::UnexpectedType(t)) => assert_eq!(t, Type::Int32),
        other => panic!("{other:?}"),
    }
}

#[test]
fn rows_are_read_in_every_order_of_their_columns() {
    let good = row(Value::Int32(7), "+12", "2024-01-02T03:04:05+01:00");
    let orders = [[0, 1, 2, 3], [3, 2, 1, 0], [1, 0, 3, 2], [2, 3, 0, 1], [1, 2, 3, 0]];
    for order in orders {
        let permuted: Vec<_> = order.iter().map(|&i| good[i].clone()).collect();
        let m = deserialize_row(&permuted).unwrap();
        assert_eq!(m.version, 7);
        assert_eq!(m.name, "initial");
        assert_eq!(m.checksum, 12);
        assert_eq!(m.applied_on.offset_seconds, 3600);
    }
}

#[test]
fn empty_queries_are_passed_over_on_a_single_server() {
    let queries = vec!["a".to_string(), String::new(), "b".to_string()];
    assert_eq!(queries_to_split(&queries, true), vec!["a", "b"]);
    assert_eq!(queries_to_split(&queries, false), vec!["a", "", "b"]);
    assert!(queries_to_split(&vec![], true).is_empty());
}

#[test]
fn the_cluster_lock_names_the_cluster() {
    let lock = ClusterMigration::<Cluster>::new().lock();
    assert_eq!(
        lock.lock_query(),
        ClusterMigration::<Cluster>::lock_on(&Cluster::cluster_name()).lock_query()
    );
    assert!(lock.lock_query().contains(" ON CLUSTER "));
}
