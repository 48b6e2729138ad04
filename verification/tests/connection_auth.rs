//! Header material.
use awaken_foundation::connection_auth::{AuthMaterialError, HeaderAuthMaterial};

#[test]
fn none_carries_no_headers() {
    let material = HeaderAuthMaterial::none();
    assert!(material.is_empty());
    assert!(material.headers().is_empty());
}

#[test]
fn bearer_builds_authorization_header() {
    let material = HeaderAuthMaterial::bearer("tok_123").unwrap();
    assert_eq!(
        material.headers(),
        vec![("Authorization".to_string(), "Bearer tok_123".to_string())]
    );
}

#[test]
fn custom_headers_preserve_order() {
    let material =
        HeaderAuthMaterial::from_headers(&[("X-First", "one"), ("X-Second", "two")]).unwrap();
    assert_eq!(
        material.headers(),
        vec![
            ("X-First".to_string(), "one".to_string()),
            ("X-Second".to_string(), "two".to_string())
        ]
    );
}

#[test]
fn rejects_header_injection_shapes() {
    assert_eq!(
        HeaderAuthMaterial::from_headers(&[("", "x")]).err().unwrap(),
        AuthMaterialError::EmptyHeaderName
    );
    assert!(matches!(
        HeaderAuthMaterial::from_headers(&[("Bad Name", "x")]).err().unwrap(),
        AuthMaterialError::UnsafeHeaderName(_)
    ));
    assert!(matches!(
        HeaderAuthMaterial::from_headers(&[("X-Test", "x\r\nY: z")]).err().unwrap(),
        AuthMaterialError::UnsafeHeaderValue(_)
    ));
}

#[test]
fn rejects_empty_or_control_bearer_tokens() {
    assert_eq!(
        HeaderAuthMaterial::bearer("  ").err().unwrap(),
        AuthMaterialError::EmptyBearerToken
    );
    assert_eq!(
        HeaderAuthMaterial::bearer("tok\nbad").err().unwrap(),
        AuthMaterialError::UnsafeBearerToken
    );
}

#[test]
fn debug_redacts_header_values() {
    let debug = HeaderAuthMaterial::bearer("secret-token")
        .unwrap()
        .debug_text();
    assert!(debug.contains("Authorization"));
    assert!(debug.contains("<redacted>"));
    assert!(!debug.contains("secret-token"));
}
