//! The plain-SQL ledger: plan and statement splitting.
use std::collections::BTreeMap;

use awaken_foundation::sql_migration::postgres::{dollar_tag_len, is_single_statement};
use awaken_foundation::sql_migration::{plan, Migration, MigrationBundle, MigrationError};

fn bundle() -> MigrationBundle {
    MigrationBundle::new(
        "runtime.core",
        vec![
            Migration::new(1, "first", "CREATE TABLE a (id TEXT)").unwrap(),
            Migration::new(2, "second", "CREATE TABLE b (id TEXT)").unwrap(),
        ],
    )
    .unwrap()
}

#[test]
fn lib_plans_all_when_ledger_empty() {
    let b = bundle();
    let pending = plan(&b, &BTreeMap::new()).unwrap();
    assert_eq!(
        pending.iter().map(|m| m.version()).collect::<Vec<_>>(),
        [1, 2]
    );
}

#[test]
fn lib_skips_already_applied_with_matching_checksum() {
    let b = bundle();
    let mut applied = BTreeMap::new();
    applied.insert(1, b.migrations()[0].checksum());
    let pending = plan(&b, &applied).unwrap();
    assert_eq!(pending.iter().map(|m| m.version()).collect::<Vec<_>>(), [2]);
}

#[test]
fn lib_rejects_checksum_drift() {
    let b = bundle();
    let mut applied = BTreeMap::new();
    applied.insert(1, "deadbeef".to_string());
    let err = plan(&b, &applied).unwrap_err();
    assert!(matches!(
        err,
        MigrationError::ChecksumMismatch { version: 1, expected, .. } if expected == "deadbeef"
    ));
}

#[test]
fn lib_rejects_unknown_applied_version() {
    let b = bundle();
    let mut applied = BTreeMap::new();
    applied.insert(99, "x".to_string());
    assert!(matches!(
        plan(&b, &applied).unwrap_err(),
        MigrationError::UnknownAppliedVersion { version: 99, .. }
    ));
}

#[test]
fn lib_bundle_rejects_non_increasing_versions() {
    let err = MigrationBundle::new(
        "runtime.core",
        vec![
            Migration::new(2, "a", "CREATE TABLE a (id TEXT)").unwrap(),
            Migration::new(2, "b", "CREATE TABLE b (id TEXT)").unwrap(),
        ],
    )
    .unwrap_err();
    assert!(matches!(
        err,
        MigrationError::DuplicateMigrationVersion { version: 2, .. }
    ));
}

#[test]
fn accepts_single_statement_without_trailing_semicolon() {
    assert!(is_single_statement(
        "CREATE TABLE IF NOT EXISTS t (id TEXT PRIMARY KEY)"
    ));
}

#[test]
fn accepts_single_trailing_semicolon() {
    assert!(is_single_statement("CREATE TABLE t (id TEXT);"));
    assert!(is_single_statement("CREATE TABLE t (id TEXT);   \n"));
}

#[test]
fn allows_semicolons_inside_string_literals() {
    assert!(is_single_statement(
        "INSERT INTO t (note) VALUES ('a; b; c')"
    ));
}

#[test]
fn allows_semicolons_inside_dollar_quoted_body() {
    assert!(is_single_statement(
        "CREATE FUNCTION f() RETURNS void AS $$ BEGIN x; y; END $$ LANGUAGE plpgsql"
    ));
    assert!(is_single_statement(
        "CREATE FUNCTION f() RETURNS void AS $body$ BEGIN x; END $body$ LANGUAGE plpgsql"
    ));
}

#[test]
fn allows_semicolons_inside_comments() {
    assert!(is_single_statement(
        "CREATE TABLE t (id TEXT) -- drop; recreate;\n"
    ));
    assert!(is_single_statement("CREATE TABLE t (id TEXT) /* a; b */"));
}

#[test]
fn rejects_two_top_level_statements() {
    assert!(!is_single_statement(
        "CREATE TABLE a (id TEXT); CREATE TABLE b (id TEXT)"
    ));
}

#[test]
fn dollar_parameter_marker_is_not_a_tag() {
    assert_eq!(dollar_tag_len(b"$1, $2"), None);
    assert!(!is_single_statement(
        "UPDATE t SET a = $1; UPDATE t SET b = $2"
    ));
}
