//! The layering rule on manifests.
use awaken_foundation::guardrail::check_manifest;

#[test]
fn upward_dependencies_are_reported() {
    let manifest = "[package]\nname = \"awaken-query\"\nawaken-iam = \"1\"\n\n\
        [dependencies]\n# awaken-old = \"1\"\nserde = \"1\"\n\
        awaken-connection.workspace = true\n  awaken-iam = { path = \"x\" }\n\
        oversight-core=\"2\"\n\n[features]\nawaken-other = []\n\
        [dev-dependencies]\nawaken-config = \"1\"\n";
    assert_eq!(
        check_manifest("crates/x/Cargo.toml", manifest),
        vec![
            "crates/x/Cargo.toml: depends on `awaken-iam` (above the foundation tier)".to_string(),
            "crates/x/Cargo.toml: depends on `oversight-core` (above the foundation tier)"
                .to_string(),
            "crates/x/Cargo.toml: depends on `awaken-config` (above the foundation tier)"
                .to_string(),
        ]
    );
}

#[test]
fn foundation_and_foreign_dependencies_pass() {
    let manifest = "[target.'cfg(unix)'.dependencies]\r\nawaken-scoped-migration = \"1\"\r\n\
        tokio = \"1\"\r\nawakened = \"1\"\r\n";
    assert!(check_manifest("Cargo.toml", manifest).is_empty());
    assert!(check_manifest("Cargo.toml", "").is_empty());
}
