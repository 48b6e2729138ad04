//! Migrations, bundles, the plan and the lint.
use std::collections::BTreeMap;

use awaken_foundation::checksum::sha256_hex;
use awaken_foundation::scoped_migration::{
    check_ledger_version, lint, plan, render, sql_identifier, version_label, Dialect, Migration,
    MigrationBundle, MigrationError, LEDGER_VERSION,
};
use awaken_foundation::scoped_migration::words::leading_count;

#[test]
fn hashes_label_nul_then_template() {
    let migration = Migration::new(1, "first", "CREATE TABLE a (id TEXT)").unwrap();
    let mut expected = Vec::new();
    expected.extend_from_slice(b"V0001");
    expected.push(0x00);
    expected.extend_from_slice(b"CREATE TABLE a (id TEXT)");
    assert_eq!(
        migration.checksum_for(Dialect::Postgres),
        sha256_hex(&expected)
    );
}

#[test]
fn label_is_zero_padded() {
    assert_eq!(Migration::new(1, "x", "SELECT 1").unwrap().label(), "V0001");
    assert_eq!(
        Migration::new(4242, "x", "SELECT 1").unwrap().label(),
        "V4242"
    );
}

#[test]
fn checksum_is_dialect_independent_for_one_template() {
    // The checksum of a portable migration is taken over the neutral
    // template, so it verifies identically on every backend.
    let template = "CREATE TABLE {prefix}_event (id {pk_autoinc}, payload {json})";
    let migration = Migration::new(7, "events", template).unwrap();
    assert_eq!(
        migration.checksum_for(Dialect::Postgres),
        migration.checksum_for(Dialect::Sqlite)
    );
}

#[test]
fn per_dialect_checksum_differs_across_dialects() {
    // The escape hatch opts out of dialect-independence: each dialect's body
    // is hashed, so the recorded identity legitimately differs per backend.
    let migration = Migration::per_dialect(
        3,
        "json column",
        "ALTER TABLE t ADD COLUMN payload JSONB",
        "ALTER TABLE t ADD COLUMN payload TEXT",
    )
    .unwrap();
    let pg = migration.checksum_for(Dialect::Postgres);
    let sqlite = migration.checksum_for(Dialect::Sqlite);
    assert_ne!(pg, sqlite);

    // Each side is exactly `SHA-256(label || 0x00 || that dialect's body)`.
    let mut expected_pg = Vec::new();
    expected_pg.extend_from_slice(b"V0003");
    expected_pg.push(0x00);
    expected_pg.extend_from_slice(b"ALTER TABLE t ADD COLUMN payload JSONB");
    assert_eq!(pg, sha256_hex(&expected_pg));
}

#[test]
fn per_dialect_sql_selects_the_dialect_body() {
    let migration = Migration::per_dialect(
        1,
        "now default",
        "INSERT INTO t (at) VALUES (now())",
        "INSERT INTO t (at) VALUES (CURRENT_TIMESTAMP)",
    )
    .unwrap();
    assert_eq!(
        migration.sql_for(Dialect::Postgres),
        "INSERT INTO t (at) VALUES (now())"
    );
    assert_eq!(
        migration.sql_for(Dialect::Sqlite),
        "INSERT INTO t (at) VALUES (CURRENT_TIMESTAMP)"
    );
}

#[test]
fn per_dialect_rejects_a_blank_body() {
    // A per-dialect escape hatch must carry a real body for *each* dialect;
    // a blank sqlite side fails closed at construction.
    let err =
        Migration::per_dialect(1, "broken", "CREATE TABLE a (id TEXT)", "   ").unwrap_err();
    assert!(matches!(
        err,
        MigrationError::InvalidMigration {
            version: 1,
            reason: "sql must not be blank"
        }
    ));
}

#[test]
fn reordering_a_version_changes_the_checksum() {
    // Same template, different version label ⇒ different identity, so a
    // reordered recorded version fails closed in `plan()`.
    let template = "CREATE TABLE a (id TEXT)";
    let at_one = Migration::new(1, "x", template).unwrap();
    let at_two = Migration::new(2, "x", template).unwrap();
    assert_ne!(
        at_one.checksum_for(Dialect::Postgres),
        at_two.checksum_for(Dialect::Postgres)
    );
}

fn bundle() -> MigrationBundle {
    MigrationBundle::new(
        "runtime.core",
        vec![
            Migration::new(1, "first", "CREATE TABLE a (id TEXT)").unwrap(),
            Migration::new(2, "second", "CREATE TABLE b (id TEXT)").unwrap(),
        ],
    )
    .unwrap()
}

#[test]
fn plans_all_when_ledger_empty() {
    let b = bundle();
    let pending = plan(&b, &BTreeMap::new(), Dialect::Postgres).unwrap();
    assert_eq!(
        pending.iter().map(|m| m.version()).collect::<Vec<_>>(),
        [1, 2]
    );
}

#[test]
fn skips_already_applied_with_matching_checksum() {
    let b = bundle();
    let mut applied = BTreeMap::new();
    applied.insert(1, b.migrations()[0].checksum_for(Dialect::Postgres));
    let pending = plan(&b, &applied, Dialect::Postgres).unwrap();
    assert_eq!(pending.iter().map(|m| m.version()).collect::<Vec<_>>(), [2]);
}

#[test]
fn rejects_checksum_drift() {
    let b = bundle();
    let mut applied = BTreeMap::new();
    applied.insert(1, "deadbeef".to_string());
    let err = plan(&b, &applied, Dialect::Postgres).unwrap_err();
    assert!(matches!(
        err,
        MigrationError::ChecksumMismatch { version: 1, expected, .. } if expected == "deadbeef"
    ));
}

#[test]
fn rejects_unknown_applied_version() {
    let b = bundle();
    let mut applied = BTreeMap::new();
    applied.insert(99, "x".to_string());
    assert!(matches!(
        plan(&b, &applied, Dialect::Postgres).unwrap_err(),
        MigrationError::UnknownAppliedVersion { version: 99, .. }
    ));
}

#[test]
fn per_dialect_is_planned_then_skipped_like_any_migration() {
    // A per_dialect migration round-trips and is skipped on re-run, recorded under the running dialect's checksum.
    let b = MigrationBundle::new(
        "runtime.core",
        vec![
            Migration::new(1, "first", "CREATE TABLE a (id TEXT)").unwrap(),
            Migration::per_dialect(
                2,
                "json column",
                "ALTER TABLE a ADD COLUMN payload JSONB",
                "ALTER TABLE a ADD COLUMN payload TEXT",
            )
            .unwrap(),
        ],
    )
    .unwrap();

    // Empty ledger ⇒ both pending, the escape hatch among them.
    let pending = plan(&b, &BTreeMap::new(), Dialect::Sqlite).unwrap();
    assert_eq!(
        pending.iter().map(|m| m.version()).collect::<Vec<_>>(),
        [1, 2]
    );

    // Record both under the SQLite-dialect checksums; the re-run skips them.
    let mut applied = BTreeMap::new();
    for migration in b.migrations() {
        applied.insert(migration.version(), migration.checksum_for(Dialect::Sqlite));
    }
    assert!(plan(&b, &applied, Dialect::Sqlite).unwrap().is_empty());

    // The same ledger fails closed under Postgres: the escape hatch's
    // recorded identity is per dialect, so the SQLite checksum is drift there.
    let err = plan(&b, &applied, Dialect::Postgres).unwrap_err();
    assert!(matches!(
        err,
        MigrationError::ChecksumMismatch { version: 2, .. }
    ));
}

#[test]
fn lint_accepts_independent_bundles() {
    let runtime = MigrationBundle::new(
        "runtime.core",
        vec![
            Migration::new(1, "users", "CREATE TABLE {prefix}_users (id {pk_autoinc})")
                .unwrap(),
            Migration::new(
                2,
                "sessions",
                "CREATE TABLE {prefix}_sessions (id {pk_autoinc}, \
                 user_id BIGINT REFERENCES {prefix}_users (id))",
            )
            .unwrap(),
        ],
    )
    .unwrap();
    let gateway = MigrationBundle::new(
        "gateway.audit",
        vec![
            Migration::new(
                1,
                "log",
                "CREATE TABLE {prefix}_audit_log (id {pk_autoinc})",
            )
            .unwrap(),
        ],
    )
    .unwrap();
    assert!(lint(&[runtime, gateway]).is_ok());
}

#[test]
fn lint_allows_intra_bundle_alter() {
    let bundle = MigrationBundle::new(
        "runtime.core",
        vec![
            Migration::new(1, "create", "CREATE TABLE {prefix}_jobs (id {pk_autoinc})")
                .unwrap(),
            Migration::new(
                2,
                "extend",
                "ALTER TABLE {prefix}_jobs ADD COLUMN note TEXT",
            )
            .unwrap(),
        ],
    )
    .unwrap();
    assert!(lint(&[bundle]).is_ok());
}

#[test]
fn lint_rejects_duplicate_bundle_id() {
    let one = MigrationBundle::new(
        "runtime.core",
        vec![Migration::new(1, "a", "CREATE TABLE {prefix}_a (id TEXT)").unwrap()],
    )
    .unwrap();
    let two = MigrationBundle::new(
        "runtime.core",
        vec![Migration::new(1, "b", "CREATE TABLE {prefix}_b (id TEXT)").unwrap()],
    )
    .unwrap();
    assert!(matches!(
        lint(&[one, two]).unwrap_err(),
        MigrationError::DuplicateBundle(id) if id == "runtime.core"
    ));
}

#[test]
fn lint_rejects_cross_bundle_foreign_key() {
    let owner = MigrationBundle::new(
        "iam.identity",
        vec![
            Migration::new(1, "users", "CREATE TABLE {prefix}_users (id {pk_autoinc})")
                .unwrap(),
        ],
    )
    .unwrap();
    // authz reaches into identity's table via a foreign key — exactly the
    // silent coupling the reference rule forbids.
    let coupled = MigrationBundle::new(
        "iam.authz",
        vec![
            Migration::new(
                1,
                "grants",
                "CREATE TABLE {prefix}_grants (id {pk_autoinc}, \
             user_id BIGINT REFERENCES {prefix}_users (id))",
            )
            .unwrap(),
        ],
    )
    .unwrap();
    assert!(matches!(
        lint(&[owner, coupled]).unwrap_err(),
        MigrationError::CrossBundleReference { bundle_id, version: 1, table }
            if bundle_id == "iam.authz" && table == "{prefix}_users"
    ));
}

#[test]
fn lint_rejects_cross_bundle_select() {
    let bundle = MigrationBundle::new(
        "runtime.core",
        vec![
            Migration::new(
                1,
                "seed",
                "CREATE TABLE {prefix}_a (id TEXT); \
             INSERT INTO {prefix}_a SELECT id FROM {prefix}_elsewhere",
            )
            .unwrap(),
        ],
    )
    .unwrap();
    assert!(matches!(
        lint(&[bundle]).unwrap_err(),
        MigrationError::CrossBundleReference { table, .. } if table == "{prefix}_elsewhere"
    ));
}

#[test]
fn version_renders_as_zero_padded_label() {
    let m = Migration::new(1, "first", "CREATE TABLE a (id TEXT)").unwrap();
    assert_eq!(m.label(), "V0001");
    assert_eq!(version_label(42), "V0042");
    // Wider versions keep all their digits rather than truncating.
    assert_eq!(version_label(12_345), "V12345");
}

#[test]
fn ledger_description_prefixes_the_label() {
    let m = Migration::new(7, "create the event store", "CREATE TABLE a (id TEXT)").unwrap();
    assert_eq!(m.ledger_description(), "V0007 create the event store");
}

#[test]
fn diagnostics_use_the_readable_label() {
    let err = MigrationBundle::new(
        "runtime.core",
        vec![
            Migration::new(3, "a", "CREATE TABLE a (id TEXT)").unwrap(),
            Migration::new(3, "b", "CREATE TABLE b (id TEXT)").unwrap(),
        ],
    )
    .unwrap_err();
    assert!(
        err.message().contains("V0003"),
        "diagnostic should label the version: {err:?}"
    );
}

#[test]
fn ledger_version_check_accepts_expected() {
    assert!(check_ledger_version("awaken_schema_migrations", LEDGER_VERSION).is_ok());
}

#[test]
fn ledger_version_check_fails_closed_on_mismatch() {
    let err = check_ledger_version("awaken_schema_migrations", LEDGER_VERSION + 1).unwrap_err();
    assert!(matches!(
        err,
        MigrationError::LedgerVersionMismatch {
            expected,
            found,
            ledger_table,
        } if expected == LEDGER_VERSION
            && found == LEDGER_VERSION + 1
            && ledger_table == "awaken_schema_migrations"
    ));
}

#[test]
fn bundle_rejects_non_increasing_versions() {
    let err = MigrationBundle::new(
        "runtime.core",
        vec![
            Migration::new(2, "a", "CREATE TABLE a (id TEXT)").unwrap(),
            Migration::new(2, "b", "CREATE TABLE b (id TEXT)").unwrap(),
        ],
    )
    .unwrap_err();
    assert!(matches!(
        err,
        MigrationError::DuplicateMigrationVersion { version: 2, .. }
    ));
}

#[test]
fn rejects_a_backwards_version_step() {
    // Distinct from the duplicate-version case: a bundle whose versions step
    // backwards (3 then 1) is not strictly increasing and fails closed.
    let err = MigrationBundle::new(
        "runtime.core",
        vec![
            Migration::new(3, "a", "CREATE TABLE a (id TEXT)").unwrap(),
            Migration::new(1, "b", "CREATE TABLE b (id TEXT)").unwrap(),
        ],
    )
    .unwrap_err();
    assert!(matches!(
        err,
        MigrationError::InvalidMigrationOrder {
            previous: 3,
            current: 1,
            ..
        }
    ));
}

const TEMPLATE: &str = "CREATE TABLE {prefix}_event (\n    \
    id {pk_autoinc},\n    \
    payload {json} NOT NULL,\n    \
    body {blob},\n    \
    created_at {timestamptz} NOT NULL DEFAULT {now}\n)";

#[test]
fn renders_every_token_for_postgres() {
    let sql = render(TEMPLATE, Dialect::Postgres, "awaken");
    assert!(sql.contains("CREATE TABLE awaken_event ("));
    assert!(sql.contains("id BIGSERIAL PRIMARY KEY,"));
    assert!(sql.contains("payload JSONB NOT NULL,"));
    assert!(sql.contains("body BYTEA,"));
    assert!(sql.contains("created_at TIMESTAMPTZ NOT NULL DEFAULT now()"));
    // No token survives rendering.
    assert!(!sql.contains('{'));
}

#[test]
fn renders_every_token_for_sqlite() {
    let sql = render(TEMPLATE, Dialect::Sqlite, "awaken");
    assert!(sql.contains("CREATE TABLE awaken_event ("));
    assert!(sql.contains("id INTEGER PRIMARY KEY AUTOINCREMENT,"));
    assert!(sql.contains("payload TEXT NOT NULL,"));
    assert!(sql.contains("body BLOB,"));
    assert!(sql.contains("created_at TEXT NOT NULL DEFAULT CURRENT_TIMESTAMP"));
    assert!(!sql.contains('{'));
}

#[test]
fn prefix_token_uses_runner_prefix() {
    assert!(
        render("SELECT * FROM {prefix}_t", Dialect::Sqlite, "gateway").contains("gateway_t")
    );
}

#[test]
fn unknown_token_passes_through_untouched() {
    // Anything outside the closed vocabulary is raw SQL the author wrote
    // deliberately, not a token, so rendering leaves it exactly as-is.
    let out = render("CREATE TABLE t (x {unknown})", Dialect::Postgres, "awaken");
    assert_eq!(out, "CREATE TABLE t (x {unknown})");
}

#[test]
fn checksum_is_dialect_independent_while_rendered_sql_differs() {
    let migration = Migration::new(1, "create event", TEMPLATE).unwrap();
    // The recorded identity is the template's checksum — identical regardless
    // of which backend later renders it.
    assert_eq!(
        migration.checksum_for(Dialect::Postgres),
        migration.checksum_for(Dialect::Sqlite),
    );
    // Yet the SQL each backend ultimately applies differs by design.
    let pg = render(
        migration.sql_for(Dialect::Postgres),
        Dialect::Postgres,
        "awaken",
    );
    let lite = render(
        migration.sql_for(Dialect::Sqlite),
        Dialect::Sqlite,
        "awaken",
    );
    assert_ne!(pg, lite, "rendered SQL must differ per backend");
}
fn published(version: i64, description: &str, sql: &str) -> Migration {
    let label = version_label(version);
    let mut input = Vec::with_capacity(label.len() + 1 + sql.len());
    input.extend_from_slice(label.as_bytes());
    input.push(0);
    input.extend_from_slice(sql.as_bytes());
    Migration::published_legacy(version, description, sql, sha256_hex(&input)).unwrap()
}

#[test]
fn migration_and_bundle_validation_covers_each_input_class() {
    for version in [0, -1] {
        assert!(matches!(
            Migration::new(version, "x", "CREATE TABLE a (id TEXT)").unwrap_err(),
            MigrationError::InvalidMigration {
                reason: "version must be positive",
                ..
            }
        ));
    }
    assert!(matches!(
        Migration::new(1, "   ", "CREATE TABLE a (id TEXT)").unwrap_err(),
        MigrationError::InvalidMigration {
            version: 1,
            reason: "description must not be blank"
        }
    ));
    assert!(matches!(
        Migration::new(1, "x", "   ").unwrap_err(),
        MigrationError::InvalidMigration {
            version: 1,
            reason: "sql must not be blank"
        }
    ));

    let migration = Migration::new(1, "create store", "CREATE TABLE a (id TEXT)").unwrap();
    assert_eq!(migration.description(), "create store");
    let bundle = MigrationBundle::new("runtime.core", vec![migration]).unwrap();
    assert_eq!(bundle.bundle_id(), "runtime.core");
    assert_eq!(bundle.migrations()[0].version(), 1);
}

#[test]
fn identifier_validation_covers_each_grammar_class() {
    assert_eq!(sql_identifier("awaken_v2").unwrap(), "awaken_v2");
    for bad in ["", "1leading", "has space", "dash-no"] {
        assert!(matches!(
            sql_identifier(bad).unwrap_err(),
            MigrationError::InvalidSqlIdentifier(value) if value == bad
        ));
    }

    MigrationBundle::new(
        "runtime.core-v2",
        vec![Migration::new(1, "x", "CREATE TABLE a (id TEXT)").unwrap()],
    )
    .unwrap();
    for bad in ["", "-leading", "has space", "tab\tname"] {
        assert!(matches!(
            MigrationBundle::new(
                bad,
                vec![Migration::new(1, "x", "CREATE TABLE a (id TEXT)").unwrap()],
            )
            .unwrap_err(),
            MigrationError::InvalidBundleId(value) if value == bad
        ));
    }
}

#[test]
fn independence_lint_covers_tokenizer_exclusions_and_legacy_keywords() {
    let non_executable = MigrationBundle::new(
        "runtime.comments",
        vec![
            Migration::new(
                1,
                "seed",
                "CREATE TABLE {prefix}_a (id TEXT, note TEXT); \
             -- FROM {prefix}_ghost_line\n\
             /* FROM {prefix}_ghost_block */ \
             INSERT INTO {prefix}_a VALUES ('1', 'FROM {prefix}_ghost_string')",
            )
            .unwrap(),
        ],
    )
    .unwrap();
    assert!(lint(&[non_executable]).is_ok());

    let quoted = MigrationBundle::new(
        "runtime.quoted",
        vec![
            Migration::new(
                1,
                "quoted self-reference",
                "CREATE TABLE awaken_users (id TEXT); \
             INSERT INTO awaken_users SELECT id FROM \"AWAKEN_USERS\"",
            )
            .unwrap(),
        ],
    )
    .unwrap();
    assert!(lint(&[quoted]).is_ok());

    let conditional = MigrationBundle::new(
        "runtime.legacy-keywords",
        vec![
            published(
                1,
                "legacy create",
                "CREATE TABLE IF NOT EXISTS {prefix}_jobs (id TEXT)",
            ),
            published(
                2,
                "legacy alter",
                "ALTER TABLE IF EXISTS {prefix}_jobs ADD COLUMN note TEXT",
            ),
        ],
    )
    .unwrap();
    assert!(lint(&[conditional]).is_ok());
}

#[test]
fn every_error_variant_formats_its_distinguishing_context() {
    let cases: Vec<(MigrationError, &[&str])> = vec![
        (
            MigrationError::InvalidSqlIdentifier("1bad".into()),
            &["prefix", "1bad"],
        ),
        (
            MigrationError::InvalidBundleId("-bad".into()),
            &["bundle id", "-bad"],
        ),
        (
            MigrationError::InvalidMigration {
                version: 2,
                reason: "version must be positive",
            },
            &["invalid migration 2", "version must be positive"],
        ),
        (
            MigrationError::ConditionalSql {
                version: 3,
                clause: "IF EXISTS",
            },
            &["0003", "IF EXISTS"],
        ),
        (
            MigrationError::PublishedLegacyChecksumMismatch {
                version: 4,
                body_kind: "sqlite",
                expected: "aaaa".into(),
                actual: "bbbb".into(),
            },
            &["0004", "sqlite", "aaaa", "bbbb"],
        ),
        (
            MigrationError::DuplicateMigrationVersion {
                bundle_id: "runtime.core".into(),
                version: 5,
            },
            &["runtime.core", "0005"],
        ),
        (
            MigrationError::InvalidMigrationOrder {
                bundle_id: "runtime.core".into(),
                previous: 5,
                current: 1,
            },
            &["0005", "0001"],
        ),
        (
            MigrationError::DuplicateBundle("runtime.core".into()),
            &["duplicate", "runtime.core"],
        ),
        (
            MigrationError::CrossBundleReference {
                bundle_id: "iam.authz".into(),
                version: 1,
                table: "users".into(),
            },
            &["iam.authz", "0001", "users"],
        ),
        (
            MigrationError::UnknownAppliedVersion {
                bundle_id: "runtime.core".into(),
                version: 9,
            },
            &["runtime.core", "0009"],
        ),
        (
            MigrationError::ChecksumMismatch {
                bundle_id: "runtime.core".into(),
                version: 1,
                expected: "aaaa".into(),
                actual: "bbbb".into(),
            },
            &["checksum mismatch", "aaaa", "bbbb"],
        ),
        (
            MigrationError::PendingMigration {
                bundle_id: "runtime.core".into(),
                version: 2,
            },
            &["runtime.core", "0002", "pending"],
        ),
        (
            MigrationError::LedgerVersionMismatch {
                ledger_table: "awaken_schema_migrations".into(),
                expected: 1,
                found: 2,
            },
            &["awaken_schema_migrations", "1", "2"],
        ),
        (
            MigrationError::LedgerMetadataRowCount {
                meta_table: "awaken_schema_migrations_meta".into(),
                found: 3,
            },
            &["awaken_schema_migrations_meta", "3"],
        ),
        (
            MigrationError::IncompleteLedger {
                ledger_table: "ledger".into(),
                meta_table: "meta".into(),
                ledger_exists: true,
                meta_exists: false,
            },
            &["ledger", "meta", "true", "false"],
        ),
        (
            MigrationError::Backend {
                operation: "sqlite_migration_apply",
                message: "syntax error".into(),
            },
            &["sqlite_migration_apply", "syntax error"],
        ),
    ];

    for (error, fragments) in cases {
        let rendered = error.message();
        for fragment in fragments {
            assert!(
                rendered.contains(fragment),
                "`{rendered}` should contain `{fragment}`"
            );
        }
    }
}

#[test]
fn templates_render_part_by_part() {
    let front = "CREATE TABLE {prefix}_a (x {json}, y {other}); } ";
    let rest = "SELECT {now} {";
    for dialect in [Dialect::Postgres, Dialect::Sqlite] {
        let apart = render(front, dialect, "awaken") + &render(rest, dialect, "awaken");
        assert_eq!(render(&(front.to_string() + rest), dialect, "awaken"), apart);
        for token in ["{prefix}", "{json}", "{timestamptz}", "{now}", "{blob}", "{pk_autoinc}"] {
            assert!(!apart.contains(token));
        }
    }
    // A group inside a group can make a token of its own.
    assert_eq!(render("{{prefix}}", Dialect::Sqlite, "prefix"), "{prefix}");
}

#[test]
fn checksums_are_sixty_four_digits() {
    let migration = Migration::new(1, "first", "SELECT 1").unwrap();
    assert_eq!(migration.checksum_for(Dialect::Postgres).len(), 64);
    assert_eq!(migration.checksum_for(Dialect::Sqlite).len(), 64);
}

#[test]
fn no_word_leads_behind_the_end() {
    let words: Vec<String> = ["IF", "not", "EXISTS", "t"].map(String::from).to_vec();
    let keywords = vec!["if", "not", "exists"];
    assert_eq!(leading_count(&words, 0, &keywords), 3);
    assert_eq!(leading_count(&words, 1, &keywords), 2);
    assert_eq!(leading_count(&words, 4, &keywords), 0);
    assert_eq!(leading_count(&words, usize::MAX, &keywords), 0);
}
