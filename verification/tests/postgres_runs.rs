//! Bundle runs on PostgreSQL, answered by hand.
use std::collections::BTreeMap;

use awaken_foundation::scoped_migration::batch::BatchStep;
use awaken_foundation::scoped_migration::run::{Action, BundleRun, Goal, Reply, Step};
use awaken_foundation::scoped_migration::{
    AppliedMigration, Dialect, Migration, MigrationBundle, MigrationError, PostgresMigrationRunner,
};
use awaken_foundation::sql_migration;

fn bundle(version_two: bool) -> MigrationBundle {
    let mut migrations = vec![Migration::new(
        1,
        "initial table",
        "CREATE TABLE {prefix}_item (id TEXT PRIMARY KEY)",
    )
    .unwrap()];
    if version_two {
        migrations.push(
            Migration::new(
                2,
                "item description",
                "ALTER TABLE {prefix}_item ADD COLUMN description TEXT",
            )
            .unwrap(),
        );
    }
    MigrationBundle::new("foundation.verify_test", migrations).unwrap()
}

fn next<'a>(run: BundleRun<'a>, reply: Reply) -> BundleRun<'a> {
    match run.step(reply) {
        Step::Next(run) => run,
        Step::Over(outcome) => panic!("the run is over: {outcome:?}"),
    }
}

fn recorded(bundle: &MigrationBundle) -> BTreeMap<i64, String> {
    bundle
        .migrations()
        .iter()
        .map(|m| (m.version(), m.checksum_for(Dialect::Postgres)))
        .collect()
}

#[test]
fn a_fresh_database_is_bootstrapped_under_its_own_lock() {
    let runner = PostgresMigrationRunner::with_prefix("awaken").unwrap();
    let bundle = bundle(false);
    let run = runner.run_bundle(&bundle);
    assert_eq!(run.command().operation, "postgres_migration_bootstrap_begin");
    let run = next(run, Reply::Done);
    assert!(matches!(
        &run.command().action,
        Action::Lock { table, key }
            if table == "awaken_schema_migrations" && key == "ledger-bootstrap-v1"
    ));
    let run = next(run, Reply::Done);
    assert!(matches!(run.command().action, Action::Probe { .. }));
    let mut run = next(
        run,
        Reply::Presence {
            ledger_exists: false,
            meta_exists: false,
        },
    );
    let mut created = Vec::new();
    while let Action::Execute { sql } = &run.command().action {
        created.push(sql.clone());
        run = next(run, Reply::Done);
    }
    assert_eq!(
        created,
        vec![
            "CREATE TABLE awaken_schema_migrations (
                bundle_id TEXT NOT NULL,
                version BIGINT NOT NULL,
                checksum TEXT NOT NULL,
                description TEXT NOT NULL,
                applied_at TIMESTAMPTZ NOT NULL DEFAULT now(),
                applied_by TEXT NOT NULL,
                PRIMARY KEY (bundle_id, version)
            )"
            .to_string(),
            "CREATE TABLE awaken_schema_migrations_meta (ledger_version BIGINT NOT NULL)"
                .to_string(),
            "INSERT INTO awaken_schema_migrations_meta (ledger_version) VALUES (1)".to_string(),
        ]
    );
    assert!(matches!(
        &run.command().action,
        Action::ReadStamps { sql }
            if sql == "SELECT ledger_version FROM awaken_schema_migrations_meta"
    ));
}

/// Answer everything up to the reading of the ledger.
fn up_to_ledger<'a>(mut run: BundleRun<'a>) -> BundleRun<'a> {
    loop {
        let reply = match &run.command().action {
            Action::ReadLedger { .. } => return run,
            Action::Probe { .. } => Reply::Presence {
                ledger_exists: true,
                meta_exists: true,
            },
            Action::ReadStamps { .. } => Reply::Stamps(vec![1]),
            _ => Reply::Done,
        };
        run = next(run, reply);
    }
}

#[test]
fn pending_migrations_are_applied_and_recorded_in_order() {
    let runner = PostgresMigrationRunner::with_prefix("awaken").unwrap();
    let bundle = bundle(true);
    let run = up_to_ledger(runner.run_bundle(&bundle));
    assert!(matches!(
        &run.command().action,
        Action::ReadLedger { sql, bundle_id, goal: Goal::Apply }
            if sql == "SELECT version, checksum FROM awaken_schema_migrations WHERE bundle_id = $1 \
                       ORDER BY version"
                && bundle_id == "foundation.verify_test"
    ));
    let mut run = next(run, Reply::Ledger(BTreeMap::new()));
    let mut seen = Vec::new();
    let applied = loop {
        match &run.command().action {
            Action::Apply { sql } => seen.push(sql.clone()),
            Action::Record {
                sql,
                row,
                applied_by,
            } => {
                assert_eq!(
                    sql,
                    "INSERT INTO awaken_schema_migrations (bundle_id, version, checksum, \
                     description, applied_by)\n                 VALUES ($1, $2, $3, $4, $5)"
                );
                assert_eq!(applied_by, "awaken-scoped-migration");
                seen.push(row.description.clone());
            }
            Action::Commit => seen.push("commit".to_string()),
            other => panic!("unexpected {other:?}"),
        }
        match run.step(Reply::Done) {
            Step::Next(following) => run = following,
            Step::Over(outcome) => break outcome.unwrap(),
        }
    };
    assert_eq!(
        seen,
        vec![
            "CREATE TABLE awaken_item (id TEXT PRIMARY KEY)",
            "V0001 initial table",
            "ALTER TABLE awaken_item ADD COLUMN description TEXT",
            "V0002 item description",
            "commit",
        ]
    );
    assert_eq!(applied.len(), 2);
    assert_eq!(applied[1].version, 2);
    assert_eq!(
        applied[1].checksum,
        bundle.migrations()[1].checksum_for(Dialect::Postgres)
    );
}

#[test]
fn verification_is_read_only_and_fail_closed() {
    let runner = PostgresMigrationRunner::with_prefix("verify").unwrap();

    // A missing ledger fails where its stamp is read, and nothing is created.
    let first = bundle(false);
    let run = next(runner.verify_bundle(&first), Reply::Done);
    assert!(matches!(run.command().action, Action::ReadStamps { .. }));
    let over = run.step(Reply::Failed {
        decoding: false,
        message: "relation does not exist".to_string(),
    });
    assert!(matches!(
        over,
        Step::Over(Err(MigrationError::Backend { operation: "postgres_migration_meta_read", .. }))
    ));

    // A fully migrated bundle passes.
    let run = up_to_ledger(runner.verify_bundle(&first));
    let run = next(run, Reply::Ledger(recorded(&first)));
    assert!(matches!(run.command().action, Action::Rollback));
    assert!(matches!(
        run.step(Reply::Done),
        Step::Over(Ok(applied)) if applied.is_empty()
    ));

    // A newly pending version is refused.
    let second = bundle(true);
    let run = up_to_ledger(runner.verify_bundle(&second));
    assert!(matches!(
        run.step(Reply::Ledger(recorded(&first))),
        Step::Over(Err(MigrationError::PendingMigration { version: 2, .. }))
    ));
}

#[test]
fn verification_looks_at_each_id_when_its_turn_comes() {
    let runner = PostgresMigrationRunner::with_prefix("verify").unwrap();
    let bundles = [bundle(false), bundle(false)];
    let ledger = recorded(&bundles[0]);
    let mut step = runner.verify_bundles(&bundles);
    let mut commands = 0;
    let outcome = loop {
        match step {
            BatchStep::Over(outcome) => break outcome,
            BatchStep::Next(batch) => {
                commands += 1;
                let reply = match &batch.command().action {
                    Action::ReadStamps { .. } => Reply::Stamps(vec![1]),
                    Action::ReadLedger { .. } => Reply::Ledger(ledger.clone()),
                    _ => Reply::Done,
                };
                step = batch.step(reply);
            }
        }
    };
    assert_eq!(commands, 6);
    assert!(matches!(
        outcome,
        Err(MigrationError::DuplicateBundle(id)) if id == "foundation.verify_test"
    ));
}

#[test]
fn plain_batches_check_statements_when_their_turn_comes() {
    let runner = sql_migration::postgres::PostgresMigrationRunner::with_prefix("awaken").unwrap();
    let make = |id: &str, sql: &str| {
        sql_migration::MigrationBundle::new(
            id,
            vec![sql_migration::Migration::new(1, "a", sql).unwrap()],
        )
        .unwrap()
    };
    let bundles = [make("one", "SELECT 1"), make("two", "SELECT 1; SELECT 2")];
    let mut step = runner.run_bundles(&bundles);
    let mut applied = Vec::new();
    let outcome = loop {
        match step {
            sql_migration::batch::BatchStep::Over(outcome) => break outcome,
            sql_migration::batch::BatchStep::Next(batch) => {
                let reply = match &batch.command().action {
                    Action::ReadLedger { .. } => Reply::Ledger(BTreeMap::new()),
                    Action::Apply { sql } => {
                        applied.push(sql.clone());
                        Reply::Done
                    }
                    _ => Reply::Done,
                };
                step = batch.step(reply);
            }
        }
    };
    assert_eq!(applied, vec!["SELECT 1"]);
    assert!(matches!(
        outcome,
        Err(sql_migration::MigrationError::InvalidMigration {
            version: 1,
            reason: "sql must contain exactly one statement",
        })
    ));
}

#[test]
fn unknown_recorded_versions_end_a_run() {
    let runner = PostgresMigrationRunner::with_prefix("awaken").unwrap();
    let bundle = bundle(false);
    let run = up_to_ledger(runner.run_bundle(&bundle));
    let mut ledger = recorded(&bundle);
    ledger.insert(9, "x".to_string());
    ledger.insert(7, "x".to_string());
    assert!(matches!(
        run.step(Reply::Ledger(ledger)),
        Step::Over(Err(MigrationError::UnknownAppliedVersion { version: 7, .. }))
    ));
}

#[test]
fn answers_that_cannot_be_read_are_reported_as_such() {
    let runner = PostgresMigrationRunner::with_prefix("awaken").unwrap();
    let bundle = bundle(false);
    let run = up_to_ledger(runner.run_bundle(&bundle));
    let over = run.step(Reply::Failed {
        decoding: true,
        message: "bad column".to_string(),
    });
    assert!(matches!(
        over,
        Step::Over(Err(MigrationError::Backend {
            operation: "postgres_migration_decode_ledger",
            ..
        }))
    ));
}

#[test]
fn the_prepared_protocol_takes_one_statement_per_migration() {
    let runner = sql_migration::postgres::PostgresMigrationRunner::with_prefix("awaken").unwrap();
    let two = sql_migration::MigrationBundle::new(
        "runtime.core",
        vec![
            sql_migration::Migration::new(1, "a", "CREATE TABLE a (id TEXT)").unwrap(),
            sql_migration::Migration::new(2, "b", "CREATE TABLE b (id TEXT); SELECT 1").unwrap(),
        ],
    )
    .unwrap();
    assert!(matches!(
        runner.run_bundle(&two),
        Err(sql_migration::MigrationError::InvalidMigration {
            version: 2,
            reason: "sql must contain exactly one statement",
        })
    ));
    let one = sql_migration::MigrationBundle::new(
        "runtime.core",
        vec![sql_migration::Migration::new(1, "a", "CREATE TABLE a (id TEXT);").unwrap()],
    )
    .unwrap();
    let run = runner.run_bundle(&one).unwrap();
    let created = "CREATE TABLE IF NOT EXISTS awaken_schema_migrations (
                bundle_id TEXT NOT NULL,
                version BIGINT NOT NULL,
                checksum TEXT NOT NULL,
                description TEXT NOT NULL,
                applied_at TIMESTAMPTZ NOT NULL DEFAULT now(),
                applied_by TEXT NOT NULL,
                PRIMARY KEY (bundle_id, version)
            )";
    assert!(matches!(&run.command().action, Action::Execute { sql } if sql == created));
}

#[test]
fn runners_refuse_a_prefix_that_is_no_identifier() {
    assert!(matches!(
        PostgresMigrationRunner::with_prefix("1bad"),
        Err(MigrationError::InvalidSqlIdentifier(prefix)) if prefix == "1bad"
    ));
}

/// Answers a run until it ends, and lists the migrations' texts and rows that it
/// sent and whether the last commit was carried out. `fails` is the operation
/// whose command fails.
fn talk(
    run: BundleRun<'_>,
    ledger: &BTreeMap<i64, String>,
    fails: &str,
) -> (
    Result<Vec<AppliedMigration>, MigrationError>,
    Vec<String>,
    Vec<AppliedMigration>,
    bool,
) {
    let (mut texts, mut rows, mut committed) = (Vec::new(), Vec::new(), false);
    let mut run = run;
    loop {
        let failed = run.command().operation == fails;
        let reply = match &run.command().action {
            _ if failed => Reply::Failed {
                decoding: false,
                message: "gone".to_string(),
            },
            Action::Probe { .. } => Reply::Presence {
                ledger_exists: false,
                meta_exists: false,
            },
            Action::ReadStamps { .. } => Reply::Stamps(vec![1]),
            Action::ReadLedger { .. } => Reply::Ledger(ledger.clone()),
            Action::Apply { sql } => {
                texts.push(sql.clone());
                Reply::Done
            }
            Action::Record { row, .. } => {
                rows.push(row.clone());
                Reply::Done
            }
            Action::Commit => {
                committed = true;
                Reply::Done
            }
            Action::Begin => {
                committed = false;
                Reply::Done
            }
            _ => Reply::Done,
        };
        match run.step(reply) {
            Step::Next(next) => run = next,
            Step::Over(outcome) => return (outcome, texts, rows, committed),
        }
    }
}

#[test]
fn a_whole_run_applies_the_plan() {
    let runner = PostgresMigrationRunner::with_prefix("awaken").unwrap().clone();
    let bundle = bundle(true);
    let mut ledger = BTreeMap::new();
    ledger.insert(1, bundle.migrations()[0].checksum_for(Dialect::Postgres));
    let (outcome, texts, rows, committed) = talk(runner.run_bundle(&bundle), &ledger, "");
    let applied = outcome.unwrap();
    assert_eq!(applied, rows);
    assert_eq!(applied.len(), 1);
    assert_eq!(applied[0].bundle_id, "foundation.verify_test");
    assert_eq!(applied[0].version, 2);
    assert_eq!(
        applied[0].checksum,
        bundle.migrations()[1].checksum_for(Dialect::Postgres)
    );
    assert_eq!(
        texts,
        vec!["ALTER TABLE awaken_item ADD COLUMN description TEXT"]
    );
    assert!(committed);

    // Where ledger and bundle disagree nothing is applied.
    ledger.insert(1, "another".to_string());
    let (outcome, texts, rows, _) = talk(runner.run_bundle(&bundle), &ledger, "");
    assert!(matches!(
        outcome,
        Err(MigrationError::ChecksumMismatch { version: 1, .. })
    ));
    assert!(texts.is_empty() && rows.is_empty());
}

#[test]
fn a_failed_run_commits_no_migration() {
    let runner = PostgresMigrationRunner::with_prefix("awaken").unwrap();
    let bundle = bundle(true);
    for fails in ["postgres_migration_record", "postgres_migration_commit"] {
        let (outcome, texts, _, committed) =
            talk(runner.run_bundle(&bundle), &BTreeMap::new(), fails);
        assert!(matches!(outcome, Err(MigrationError::Backend { operation, .. }) if operation == fails));
        assert!(!texts.is_empty());
        assert!(!committed);
    }
}
