//! Bundle runs against a real SQLite database.
use std::collections::BTreeMap;

use awaken_foundation::scoped_migration::batch::BatchStep;
use awaken_foundation::scoped_migration::run::{Action, BundleRun, Command, Reply, Step};
use awaken_foundation::scoped_migration::{
    AppliedMigration, Dialect, LedgerSchema, Migration, MigrationBundle, MigrationError,
    SqliteMigrationRunner, SqlxSqliteMigrationRunner, LEDGER_VERSION,
};
use awaken_foundation::sql_migration;
use rusqlite::Connection;

const DIALECT: Dialect = Dialect::Sqlite;

fn failed(error: rusqlite::Error) -> Reply {
    Reply::Failed {
        decoding: false,
        message: error.to_string(),
    }
}

fn done(outcome: Result<(), rusqlite::Error>) -> Reply {
    match outcome {
        Ok(()) => Reply::Done,
        Err(error) => failed(error),
    }
}

fn table_exists(conn: &Connection, name: &str) -> bool {
    conn.query_row(
        "SELECT 1 FROM sqlite_master WHERE type='table' AND name=?1",
        [name],
        |_| Ok(()),
    )
    .is_ok()
}

fn stamps(conn: &Connection, sql: &str) -> Result<Vec<i64>, rusqlite::Error> {
    let mut statement = conn.prepare(sql)?;
    let rows = statement.query_map([], |row| row.get(0))?;
    rows.collect()
}

fn ledger(
    conn: &Connection,
    sql: &str,
    bundle_id: &str,
) -> Result<BTreeMap<i64, String>, rusqlite::Error> {
    let mut statement = conn.prepare(sql)?;
    let rows = statement.query_map([bundle_id], |row| Ok((row.get(0)?, row.get(1)?)))?;
    rows.collect()
}

/// Carry out one command.
fn perform(conn: &Connection, command: &Command) -> Reply {
    match &command.action {
        Action::Begin => done(conn.execute_batch("BEGIN")),
        Action::BeginImmediate => done(conn.execute_batch("BEGIN IMMEDIATE")),
        Action::Commit => done(conn.execute_batch("COMMIT")),
        Action::Rollback => done(conn.execute_batch("ROLLBACK")),
        Action::Lock { .. } => Reply::Done,
        Action::Probe {
            ledger_table,
            meta_table,
        } => Reply::Presence {
            ledger_exists: table_exists(conn, ledger_table),
            meta_exists: table_exists(conn, meta_table),
        },
        Action::Execute { sql } | Action::Apply { sql } => done(conn.execute_batch(sql)),
        Action::Seed { sql, version } => done(conn.execute(sql, [version]).map(|_| ())),
        Action::ReadStamps { sql } => match stamps(conn, sql) {
            Ok(rows) => Reply::Stamps(rows),
            Err(error) => failed(error),
        },
        Action::ReadLedger { sql, bundle_id, .. } => match ledger(conn, sql, bundle_id) {
            Ok(rows) => Reply::Ledger(rows),
            Err(error) => failed(error),
        },
        Action::Record {
            sql,
            row,
            applied_by,
        } => done(
            conn.execute(
                sql,
                (
                    &row.bundle_id,
                    row.version,
                    &row.checksum,
                    &row.description,
                    applied_by,
                ),
            )
            .map(|_| ()),
        ),
    }
}

fn finish<T, E>(conn: &Connection, outcome: Result<T, E>) -> Result<T, E> {
    if outcome.is_err() && !conn.is_autocommit() {
        conn.execute_batch("ROLLBACK").unwrap();
    }
    outcome
}

/// Drive a run to its end.
fn drive(
    conn: &Connection,
    mut run: BundleRun<'_>,
) -> Result<Vec<AppliedMigration>, MigrationError> {
    loop {
        let reply = perform(conn, run.command());
        match run.step(reply) {
            Step::Next(next) => run = next,
            Step::Over(outcome) => return finish(conn, outcome),
        }
    }
}

fn run_bundle(
    runner: &SqliteMigrationRunner,
    conn: &Connection,
    bundle: &MigrationBundle,
) -> Result<Vec<AppliedMigration>, MigrationError> {
    drive(conn, runner.run_bundle(bundle))
}

fn run_bundles(
    runner: &SqliteMigrationRunner,
    conn: &Connection,
    bundles: &[MigrationBundle],
) -> Result<Vec<AppliedMigration>, MigrationError> {
    let mut step = runner.run_bundles(bundles);
    loop {
        match step {
            BatchStep::Next(batch) => {
                let reply = perform(conn, batch.command());
                step = batch.step(reply);
            }
            BatchStep::Over(outcome) => return finish(conn, outcome),
        }
    }
}

/// Drive a run of the plain ledger to its end.
fn drive_plain(
    conn: &Connection,
    mut run: sql_migration::run::BundleRun<'_>,
) -> Result<Vec<AppliedMigration>, sql_migration::MigrationError> {
    loop {
        let reply = perform(conn, run.command());
        match run.step(reply) {
            sql_migration::run::Step::Next(next) => run = next,
            sql_migration::run::Step::Over(outcome) => return finish(conn, outcome),
        }
    }
}

fn bundle() -> MigrationBundle {
    MigrationBundle::new(
        "runtime.core",
        vec![
            Migration::new(1, "create a", "CREATE TABLE a (id TEXT PRIMARY KEY)").unwrap(),
            // A multi-statement migration: legal on the simple-query path.
            Migration::new(
                2,
                "create b and index",
                "CREATE TABLE b (id TEXT PRIMARY KEY); CREATE INDEX idx_b ON b (id);",
            )
            .unwrap(),
        ],
    )
    .unwrap()
}

fn changed_bundle() -> MigrationBundle {
    MigrationBundle::new(
        "runtime.core",
        vec![
            Migration::new(1, "create a", "CREATE TABLE a (id INTEGER PRIMARY KEY)").unwrap(),
            Migration::new(
                2,
                "create b and index",
                "CREATE TABLE b (id TEXT PRIMARY KEY); CREATE INDEX idx_b ON b (id);",
            )
            .unwrap(),
        ],
    )
    .unwrap()
}

fn token_bundle() -> MigrationBundle {
    MigrationBundle::new(
        "runtime.tokens",
        vec![Migration::new(
            1,
            "create event",
            "CREATE TABLE {prefix}_event (\
                        id {pk_autoinc}, \
                        payload {json} NOT NULL, \
                        body {blob}, \
                        created_at {timestamptz} NOT NULL DEFAULT {now})",
        )
        .unwrap()],
    )
    .unwrap()
}

#[test]
fn applies_bundle_once_and_is_idempotent() {
    let conn = Connection::open_in_memory().unwrap();
    let runner = SqliteMigrationRunner::with_prefix("awaken").unwrap();

    let bundle = bundle();
    let first = run_bundle(&runner, &conn, &bundle).unwrap();
    assert_eq!(first.len(), 2);
    assert!(table_exists(&conn, "a"));
    assert!(table_exists(&conn, "b"));
    // The ledger records the readable label alongside the description.
    assert_eq!(first[0].description, "V0001 create a");
    let recorded: String = conn
        .query_row(
            "SELECT description FROM awaken_schema_migrations WHERE version = 1",
            [],
            |row| row.get(0),
        )
        .unwrap();
    assert_eq!(recorded, "V0001 create a");

    let second = run_bundle(&runner, &conn, &bundle).unwrap();
    assert!(second.is_empty());
}

#[test]
fn renders_portable_tokens_at_apply_time() {
    let conn = Connection::open_in_memory().unwrap();
    let runner = SqliteMigrationRunner::with_prefix("gateway").unwrap();
    let bundle = token_bundle();

    let applied = run_bundle(&runner, &conn, &bundle).unwrap();
    assert_eq!(applied.len(), 1);
    // The `{prefix}` token rendered to the runner's prefix.
    assert!(table_exists(&conn, "gateway_event"));

    // `{pk_autoinc}` rendered to an auto-incrementing integer key.
    conn.execute("INSERT INTO gateway_event (payload) VALUES ('{}')", [])
        .unwrap();
    let id: i64 = conn
        .query_row("SELECT id FROM gateway_event", [], |row| row.get(0))
        .unwrap();
    assert_eq!(id, 1);

    // Re-running is idempotent: the recorded checksum is over the template.
    assert!(run_bundle(&runner, &conn, &bundle).unwrap().is_empty());
}

#[test]
fn fails_closed_on_checksum_drift() {
    let conn = Connection::open_in_memory().unwrap();
    let runner = SqliteMigrationRunner::with_prefix("awaken").unwrap();
    run_bundle(&runner, &conn, &bundle()).unwrap();

    assert!(matches!(
        run_bundle(&runner, &conn, &changed_bundle()).unwrap_err(),
        MigrationError::ChecksumMismatch { version: 1, .. }
    ));
}

fn meta_row_count(conn: &Connection, runner: &SqliteMigrationRunner) -> i64 {
    conn.query_row(
        &format!("SELECT count(*) FROM {}", runner.meta_table()),
        [],
        |row| row.get(0),
    )
    .unwrap()
}

#[test]
fn stamps_ledger_version_on_fresh_ledger() {
    let conn = Connection::open_in_memory().unwrap();
    let runner = SqliteMigrationRunner::with_prefix("awaken").unwrap();
    run_bundle(&runner, &conn, &bundle()).unwrap();

    let version: i64 = conn
        .query_row(
            &format!("SELECT ledger_version FROM {}", runner.meta_table()),
            [],
            |row| row.get(0),
        )
        .unwrap();
    assert_eq!(version, LEDGER_VERSION);
    // Seeded exactly once, and re-running does not duplicate the stamp.
    assert_eq!(meta_row_count(&conn, &runner), 1);
    run_bundle(&runner, &conn, &bundle()).unwrap();
    assert_eq!(meta_row_count(&conn, &runner), 1);
}

#[test]
fn fails_closed_on_ledger_version_mismatch() {
    let conn = Connection::open_in_memory().unwrap();
    let runner = SqliteMigrationRunner::with_prefix("awaken").unwrap();
    run_bundle(&runner, &conn, &bundle()).unwrap();

    // Simulate a ledger written by a different migrator generation.
    conn.execute(
        &format!("UPDATE {} SET ledger_version = ?1", runner.meta_table()),
        [LEDGER_VERSION + 1],
    )
    .unwrap();

    assert!(matches!(
        run_bundle(&runner, &conn, &bundle()).unwrap_err(),
        MigrationError::LedgerVersionMismatch { found, .. } if found == LEDGER_VERSION + 1
    ));
}

#[test]
fn fails_closed_on_partial_ledger_without_repairing_it() {
    for create in [
        "CREATE TABLE awaken_schema_migrations (\
             bundle_id TEXT NOT NULL, version INTEGER NOT NULL, checksum TEXT NOT NULL, \
             description TEXT NOT NULL, applied_at TEXT NOT NULL, applied_by TEXT NOT NULL, \
             PRIMARY KEY (bundle_id, version))",
        "CREATE TABLE awaken_schema_migrations_meta (ledger_version INTEGER NOT NULL)",
    ] {
        let conn = Connection::open_in_memory().unwrap();
        conn.execute_batch(create).unwrap();
        let runner = SqliteMigrationRunner::with_prefix("awaken").unwrap();
        assert!(matches!(
            run_bundle(&runner, &conn, &bundle()).unwrap_err(),
            MigrationError::IncompleteLedger { .. }
        ));
        let table_count: i64 = conn
            .query_row(
                "SELECT COUNT(*) FROM sqlite_master WHERE type = 'table' \
                     AND name IN ('awaken_schema_migrations', \
                                  'awaken_schema_migrations_meta')",
                [],
                |row| row.get(0),
            )
            .unwrap();
        assert_eq!(table_count, 1, "runner must not repair partial state");
    }
}

#[test]
fn fails_closed_when_metadata_has_not_exactly_one_stamp() {
    for extra_rows in [0, 2] {
        let conn = Connection::open_in_memory().unwrap();
        let schema = LedgerSchema::with_prefix("awaken").unwrap();
        for statement in schema.create_statements(DIALECT).into_iter().take(2) {
            conn.execute_batch(&statement).unwrap();
        }
        for _ in 0..extra_rows {
            conn.execute(
                "INSERT INTO awaken_schema_migrations_meta (ledger_version) VALUES (?1)",
                [LEDGER_VERSION],
            )
            .unwrap();
        }
        let runner = SqliteMigrationRunner::with_prefix("awaken").unwrap();
        assert!(matches!(
            run_bundle(&runner, &conn, &bundle()).unwrap_err(),
            MigrationError::LedgerMetadataRowCount { found, .. } if found == extra_rows
        ));
    }
}

#[test]
fn rejects_duplicate_bundle_id() {
    let conn = Connection::open_in_memory().unwrap();
    let runner = SqliteMigrationRunner::with_prefix("awaken").unwrap();
    let err = run_bundles(&runner, &conn, &[bundle(), bundle()]).unwrap_err();
    assert!(matches!(err, MigrationError::DuplicateBundle(id) if id == "runtime.core"));
}

#[test]
fn the_write_lock_is_held_from_the_read_to_the_commit() {
    let conn = Connection::open_in_memory().unwrap();
    let bundle = bundle();
    let names = |mut run: BundleRun<'_>| {
        let mut names = Vec::new();
        loop {
            names.push(match &run.command().action {
                Action::BeginImmediate => "begin immediate",
                Action::ReadLedger { .. } => "read",
                Action::Apply { .. } => "apply",
                Action::Record { .. } => "record",
                Action::Commit => "commit",
                Action::Probe { .. } => "probe",
                Action::Execute { .. } => "create",
                Action::ReadStamps { .. } => "stamps",
                Action::Seed { .. } => "seed",
                other => panic!("unexpected {other:?}"),
            });
            let reply = perform(&conn, run.command());
            match run.step(reply) {
                Step::Next(next) => run = next,
                Step::Over(outcome) => {
                    outcome.unwrap();
                    return names;
                }
            }
        }
    };
    let runner = SqliteMigrationRunner::with_prefix("awaken").unwrap();
    assert_eq!(
        names(runner.run_bundle(&bundle)),
        vec![
            "begin immediate",
            "probe",
            "create",
            "create",
            "create",
            "stamps",
            "read",
            "apply",
            "record",
            "apply",
            "record",
            "commit",
        ]
    );
    let pooled = SqlxSqliteMigrationRunner::with_prefix("awaken").unwrap();
    assert_eq!(
        names(pooled.run_bundle(&bundle)),
        vec![
            "create",
            "create",
            "seed",
            "stamps",
            "begin immediate",
            "read",
            "commit",
        ]
    );
}

#[test]
fn bundles_run_in_registration_order() {
    let conn = Connection::open_in_memory().unwrap();
    let runner = SqliteMigrationRunner::with_prefix("awaken").unwrap();
    let bundles = [token_bundle(), bundle()];
    let applied: Vec<(String, i64)> = run_bundles(&runner, &conn, &bundles)
        .unwrap()
        .into_iter()
        .map(|row| (row.bundle_id, row.version))
        .collect();
    assert_eq!(
        applied,
        vec![
            ("runtime.tokens".to_string(), 1),
            ("runtime.core".to_string(), 1),
            ("runtime.core".to_string(), 2),
        ]
    );
    assert!(run_bundles(&runner, &conn, &bundles).unwrap().is_empty());
    assert!(run_bundles(&runner, &conn, &[]).unwrap().is_empty());
}

#[test]
fn a_failing_body_rolls_everything_back() {
    let conn = Connection::open_in_memory().unwrap();
    let runner = SqliteMigrationRunner::with_prefix("awaken").unwrap();
    let broken = MigrationBundle::new(
        "runtime.broken",
        vec![
            Migration::new(1, "create a", "CREATE TABLE a (id TEXT)").unwrap(),
            Migration::new(2, "broken", "CREATE TABL b (id TEXT)").unwrap(),
        ],
    )
    .unwrap();
    assert!(matches!(
        run_bundle(&runner, &conn, &broken).unwrap_err(),
        MigrationError::Backend {
            operation: "sqlite_migration_apply",
            ..
        }
    ));
    assert!(!table_exists(&conn, "a"));
    assert!(!table_exists(&conn, "awaken_schema_migrations"));
}

#[test]
fn appliers_are_on_record() {
    let conn = Connection::open_in_memory().unwrap();
    let runner = SqliteMigrationRunner::with_prefix("awaken")
        .unwrap()
        .with_applied_by("deploy-job");
    assert_eq!(runner.ledger_table(), "awaken_schema_migrations");
    run_bundle(&runner, &conn, &bundle()).unwrap();
    let applied_by: String = conn
        .query_row(
            "SELECT DISTINCT applied_by FROM awaken_schema_migrations",
            [],
            |row| row.get(0),
        )
        .unwrap();
    assert_eq!(applied_by, "deploy-job");
}

#[test]
fn pooled_runs_apply_once_and_reuse_the_ledger() {
    let conn = Connection::open_in_memory().unwrap();
    let runner = SqlxSqliteMigrationRunner::with_prefix("awaken").unwrap();
    let bundle = token_bundle();
    assert_eq!(drive(&conn, runner.run_bundle(&bundle)).unwrap().len(), 1);
    assert!(drive(&conn, runner.run_bundle(&bundle)).unwrap().is_empty());
    assert!(table_exists(&conn, "awaken_event"));

    // Both SQLite runners keep the same ledger.
    let borrowed = SqliteMigrationRunner::with_prefix("awaken").unwrap();
    assert!(run_bundle(&borrowed, &conn, &bundle).unwrap().is_empty());
}

#[test]
fn sqlite_applies_bundle_once_and_is_idempotent() {
    let conn = Connection::open_in_memory().unwrap();
    let runner = sql_migration::sqlite::SqliteMigrationRunner::with_prefix("awaken").unwrap();
    let bundle = plain_bundle("CREATE TABLE a (id TEXT PRIMARY KEY)");

    let first = drive_plain(&conn, runner.run_bundle(&bundle)).unwrap();
    assert_eq!(first.len(), 2);
    assert!(table_exists(&conn, "a"));
    assert!(table_exists(&conn, "b"));

    let second = drive_plain(&conn, runner.run_bundle(&bundle)).unwrap();
    assert!(second.is_empty());
}

fn plain_bundle(first: &str) -> sql_migration::MigrationBundle {
    sql_migration::MigrationBundle::new(
        "runtime.core",
        vec![
            sql_migration::Migration::new(1, "create a", first).unwrap(),
            sql_migration::Migration::new(
                2,
                "create b and index",
                "CREATE TABLE b (id TEXT PRIMARY KEY); CREATE INDEX idx_b ON b (id);",
            )
            .unwrap(),
        ],
    )
    .unwrap()
}

#[test]
fn sqlite_fails_closed_on_checksum_drift() {
    let conn = Connection::open_in_memory().unwrap();
    let runner = sql_migration::sqlite::SqliteMigrationRunner::with_prefix("awaken").unwrap();
    let bundle = plain_bundle("CREATE TABLE a (id TEXT PRIMARY KEY)");
    drive_plain(&conn, runner.run_bundle(&bundle)).unwrap();

    let changed = plain_bundle("CREATE TABLE a (id INTEGER PRIMARY KEY)");
    assert!(matches!(
        drive_plain(&conn, runner.run_bundle(&changed)).unwrap_err(),
        sql_migration::MigrationError::ChecksumMismatch { version: 1, .. }
    ));
}

#[test]
fn sqlite_rejects_duplicate_bundle_id() {
    let bundles = [
        plain_bundle("CREATE TABLE a (id TEXT)"),
        plain_bundle("CREATE TABLE a (id TEXT)"),
    ];
    let runner = sql_migration::sqlite::SqliteMigrationRunner::with_prefix("awaken").unwrap();
    assert!(matches!(
        runner.run_bundles(&bundles),
        sql_migration::batch::BatchStep::Over(Err(
            sql_migration::MigrationError::DuplicateBundle(id)
        )) if id == "runtime.core"
    ));
}

#[test]
fn pooled_runs_create_and_seed_their_ledger_first() {
    let runner =
        awaken_foundation::scoped_migration::SqlxSqliteMigrationRunner::with_prefix("awaken")
            .unwrap();
    let bundle = MigrationBundle::new(
        "pool",
        vec![Migration::new(1, "a", "CREATE TABLE {prefix}_a (id TEXT)").unwrap()],
    )
    .unwrap();
    let mut run = runner.run_bundle(&bundle);
    let mut texts = Vec::new();
    loop {
        let reply = match &run.command().action {
            Action::Execute { sql } | Action::Apply { sql } => {
                texts.push(sql.clone());
                Reply::Done
            }
            Action::Seed { sql, version } => {
                assert_eq!(*version, 1);
                texts.push(sql.clone());
                Reply::Done
            }
            Action::Record { sql, .. } => {
                texts.push(sql.clone());
                Reply::Done
            }
            Action::ReadStamps { .. } => Reply::Stamps(vec![1]),
            Action::ReadLedger { .. } => Reply::Ledger(BTreeMap::new()),
            _ => Reply::Done,
        };
        match run.step(reply) {
            awaken_foundation::scoped_migration::run::Step::Next(next) => run = next,
            awaken_foundation::scoped_migration::run::Step::Over(outcome) => {
                assert_eq!(outcome.unwrap().len(), 1);
                break;
            }
        }
    }
    assert_eq!(
        texts,
        vec![
            "CREATE TABLE IF NOT EXISTS awaken_schema_migrations (
                bundle_id TEXT NOT NULL,
                version INTEGER NOT NULL,
                checksum TEXT NOT NULL,
                description TEXT NOT NULL,
                applied_at TEXT NOT NULL DEFAULT (datetime('now')),
                applied_by TEXT NOT NULL,
                PRIMARY KEY (bundle_id, version)
            )",
            "CREATE TABLE IF NOT EXISTS awaken_schema_migrations_meta \
             (ledger_version INTEGER NOT NULL)",
            "INSERT INTO awaken_schema_migrations_meta (ledger_version)
             SELECT ? WHERE NOT EXISTS (SELECT 1 FROM awaken_schema_migrations_meta)",
            "CREATE TABLE awaken_a (id TEXT)",
            "INSERT INTO awaken_schema_migrations \
             (bundle_id, version, checksum, description, applied_by)
                 VALUES (?, ?, ?, ?, ?)",
        ]
    );
}
