//! Credential references, envelopes and the suite navigation contract.
use awaken_foundation::api_contract::{
    AuthRequirement, AuthScheme, ConnectionAuth, CredentialRef, CursorPage, CursorPageConfig,
    CursorPageRequest, GroupBucket, GroupedPage, NumberedPage, OffsetPageRequest, PageNumberRequest, PaginationConfig,
    PaginationMode, PaginationRequest, SuiteNavigation, SUITE_NAVIGATION_PATH,
};

#[test]
fn credential_ref_carries_no_secret_value() {
    let auth = ConnectionAuth::Credential {
        requirement: AuthRequirement::new(AuthScheme::BearerToken).with_scopes(&["read", "write"]),
        credential: CredentialRef::new("cred_oauth_openai").with_version("7"),
    };
    let shown = format!("{auth:?}");
    assert!(shown.contains("cred_oauth_openai"));
    assert!(!shown.contains("access_token"));
    assert!(!shown.contains("refresh_token"));
    let ConnectionAuth::Credential {
        requirement,
        credential,
    } = auth
    else {
        panic!("expected a credential");
    };
    assert_eq!(requirement.scopes, vec!["read", "write"]);
    assert_eq!(credential.version.as_deref(), Some("7"));
}

#[test]
fn pagination_requests_keep_their_parts() {
    assert_eq!(
        PaginationRequest::page(10, 3),
        PaginationRequest::Page(PageNumberRequest::new(10, 3))
    );
    assert_eq!(
        PaginationRequest::offset(10, 40),
        PaginationRequest::Offset(OffsetPageRequest::new(10, 40))
    );
    assert_eq!(
        PaginationRequest::cursor(5, Some("x".to_string())),
        PaginationRequest::Cursor(CursorPageRequest::after(5, "x"))
    );
    assert_eq!(
        PaginationRequest::cursor(5, None),
        PaginationRequest::Cursor(CursorPageRequest::first(5))
    );
    assert_eq!(PaginationRequest::offset(10, 40).size(), 10);
    assert_eq!(PaginationRequest::page(10, 3).cursor_value(), None);
}

#[test]
fn pagination_defaults() {
    let config = CursorPageConfig::default();
    assert_eq!(config, PaginationConfig::new(20, 200));
    assert_eq!(config.default_mode, PaginationMode::Cursor);
}

#[test]
fn page_envelopes_keep_items_in_order() {
    let page = CursorPage::new(vec![1, 2], Some("next".to_string()));
    assert_eq!(page.items, vec![1, 2]);
    assert_eq!(page.cursor.as_deref(), Some("next"));
    let numbered = NumberedPage::new(vec!["a"], 2, 10, Some(11));
    assert_eq!(numbered.page, 2);
    assert_eq!(numbered.size, 10);
    assert_eq!(numbered.total_items, Some(11));
    let bucket = GroupBucket::new("done", 7, None, vec![1]);
    let grouped = GroupedPage::new(vec![bucket]);
    assert_eq!(grouped.groups[0].group, "done");
    assert_eq!(grouped.groups[0].total, 7);
    assert_eq!(grouped.groups[0].items, vec![1]);
}

#[test]
fn suite_navigation_defaults_to_standalone() {
    assert_eq!(SuiteNavigation::default().hub_url, None);
    assert_eq!(SUITE_NAVIGATION_PATH, "/.well-known/awaken-suite-navigation");
}
