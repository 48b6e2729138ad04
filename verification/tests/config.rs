//! Layering and namespaces.
use awaken_foundation::config::{Config, ConfigError};

#[test]
fn namespaces_isolate_services() {
    let mut cfg = Config::new();
    cfg.layer(&[("iam.issuer", "a"), ("region.issuer", "b")]);
    // Same bare key `issuer` in two services never collides.
    assert_eq!(cfg.section("iam").get("issuer"), Some("a"));
    assert_eq!(cfg.section("region").get("issuer"), Some("b"));
}

#[test]
fn later_layers_win() {
    let mut cfg = Config::new();
    cfg.layer(&[("iam.issuer", "default")]);
    cfg.layer(&[("iam.issuer", "file")]);
    cfg.layer(&[("iam.issuer", "env")]);
    assert_eq!(cfg.section("iam").get("issuer"), Some("env"));
}

#[test]
fn require_fails_closed() {
    let cfg = Config::new();
    assert_eq!(
        cfg.section("iam").require("issuer"),
        Err(ConfigError::Missing("iam.issuer".into()))
    );
}

#[test]
fn layers_can_be_chained() {
    let mut cfg = Config::new();
    cfg.layer(&[("iam.issuer", "default"), ("iam.audience", "all")])
        .layer(&[("iam.issuer", "file")])
        .layer(&[("region.id", "eu")]);
    assert_eq!(cfg.section("iam").get("issuer"), Some("file"));
    assert_eq!(cfg.section("iam").get("audience"), Some("all"));
    assert_eq!(cfg.section("region").get("id"), Some("eu"));
    let copy = cfg.clone();
    assert_eq!(copy.section("iam").get("issuer"), Some("file"));
}
