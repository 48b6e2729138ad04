//! HTTP addresses and requests.
use awaken_foundation::connection::ConnectError;
use awaken_foundation::connection_auth::HeaderAuthMaterial;
use awaken_foundation::transports::http::{
    method_is_safe, HttpAddress, HttpChannel, HttpRequest, HttpTransportError, UrlParts,
};

#[test]
fn rejects_non_http_base_url() {
    let error = HttpAddress::new("ftp://example.com").unwrap_err();
    assert!(matches!(error, HttpTransportError::InvalidBaseUrl(_)));
    assert_eq!(
        error.message(),
        "invalid HTTP base URL: unsupported scheme `ftp`"
    );
}

#[test]
fn rejects_a_text_that_is_no_url() {
    assert_eq!(
        HttpAddress::new("not a url").unwrap_err(),
        HttpTransportError::InvalidBaseUrl("relative URL without a base".to_string())
    );
}

#[test]
fn rejects_a_base_url_without_host() {
    let parsed = UrlParts {
        href: "http:".to_string(),
        scheme: "http".to_string(),
        host: None,
    };
    assert_eq!(
        HttpAddress::from_parsed(Ok(parsed)).unwrap_err(),
        HttpTransportError::InvalidBaseUrl("missing host".to_string())
    );
}

#[test]
fn rejects_unsafe_request_before_network() {
    let address = HttpAddress::new("http://127.0.0.1:9").unwrap();
    let channel = HttpChannel::establish(address, &HeaderAuthMaterial::none());
    assert!(matches!(
        channel.request(HttpRequest::new("GET /x", "/ok")).unwrap_err(),
        HttpTransportError::UnsafeMethod(_)
    ));
    assert!(matches!(
        channel.request(HttpRequest::new("GET", "relative")).unwrap_err(),
        HttpTransportError::UnsafePath(_)
    ));
}

#[test]
fn request_builder_rejects_unsafe_header() {
    assert!(matches!(
        HttpRequest::new("GET", "/ok")
            .with_header("X-Test", "bad\r\nx")
            .unwrap_err(),
        HttpTransportError::UnsafeHeader(_)
    ));
}

#[test]
fn request_url_rejects_dot_segments_that_escape_base_path() {
    let address = HttpAddress::new("https://example.com/api/v1").unwrap();
    for path in ["/../admin", "/./admin", "/users/../../admin"] {
        assert!(matches!(
            address.request_url(path).unwrap_err(),
            HttpTransportError::UnsafePath(_)
        ));
    }
}

#[test]
fn base_url_path_is_preserved() {
    let address = HttpAddress::new("https://example.com/api/").unwrap();
    assert_eq!(
        address.request_url("/v1").unwrap().as_str(),
        "https://example.com/api/v1"
    );
    assert_eq!(
        address.request_url("").unwrap().as_str(),
        "https://example.com/api/"
    );
}

#[test]
fn base_url_text_is_normalized() {
    // The scheme and host come back in lower case, the default port is dropped,
    // and an empty path becomes a slash.
    let address = HttpAddress::new("HTTPS://Example.COM:443").unwrap();
    assert_eq!(address.as_url(), "https://example.com/");
}

#[test]
fn build_request_applies_material_without_network_io() {
    let address = HttpAddress::new("https://example.com/api").unwrap();
    let material = HeaderAuthMaterial::bearer("tok_builder").unwrap();
    let channel = HttpChannel::establish(address, &material);
    let exchange = channel.build_request("GET", "/inspect").unwrap();
    assert_eq!(exchange.url, "https://example.com/api/inspect");
    assert_eq!(
        exchange.headers,
        vec![(
            "Authorization".to_string(),
            "Bearer tok_builder".to_string()
        )]
    );
}

#[test]
fn an_exchange_carries_material_then_request_headers_and_the_body() {
    let address = HttpAddress::new("https://example.com/api").unwrap();
    let material = HeaderAuthMaterial::bearer("tok_123").unwrap();
    let body = serde_json::Value::from("hello");
    let request = HttpRequest::new("POST", "/messages")
        .with_header("X-Trace", "abc")
        .unwrap()
        .with_json(body.clone());
    let channel = HttpChannel::establish(address, &material);
    let exchange = channel.request(request).unwrap();
    assert_eq!(exchange.method, "POST");
    assert_eq!(exchange.url, "https://example.com/api/messages");
    assert_eq!(
        exchange.headers,
        vec![
            ("Authorization".to_string(), "Bearer tok_123".to_string()),
            ("X-Trace".to_string(), "abc".to_string()),
        ]
    );
    assert_eq!(exchange.body, Some(body));
}

#[test]
fn methods_are_one_to_sixteen_letters() {
    assert!(method_is_safe("GET"));
    assert!(method_is_safe("abcdefghijklmnop"));
    assert!(!method_is_safe("abcdefghijklmnopq"));
    assert!(!method_is_safe(""));
    assert!(!method_is_safe("G3T"));
}

#[test]
fn a_header_that_was_set_by_hand_is_checked_before_sending() {
    let address = HttpAddress::new("https://example.com").unwrap();
    let mut request = HttpRequest::new("GET", "/ok");
    request
        .headers
        .push(("X Bad".to_string(), "v".to_string()));
    let channel = HttpChannel::establish(address, &HeaderAuthMaterial::none());
    let error = channel.request(request).unwrap_err();
    assert_eq!(error, HttpTransportError::UnsafeHeader("X Bad".to_string()));
    assert_eq!(error.message(), "unsafe HTTP header: \"X Bad\"");
}

#[test]
fn transport_failures_become_connect_errors() {
    let setup: ConnectError = HttpTransportError::UnsafePath("x".to_string()).into();
    assert_eq!(setup.message(), "transport setup failed: x");
    let io: ConnectError = HttpTransportError::Request("timeout".to_string()).into();
    assert_eq!(io.message(), "transport I/O failed: timeout");
}

#[test]
fn material_goes_to_absolute_urls_too() {
    let address = HttpAddress::new("https://example.com/api").unwrap();
    let material = HeaderAuthMaterial::bearer("token").unwrap();
    let channel = HttpChannel::establish(address, &material);
    let headers = vec![("Authorization".to_string(), "Bearer token".to_string())];
    let exchange = channel.build_request_to_url_str("PUT", "not looked at");
    assert_eq!(exchange.method, "PUT");
    assert_eq!(exchange.url, "not looked at");
    assert_eq!(exchange.headers, headers);
    assert_eq!(exchange.body, None);
    let url = UrlParts {
        href: "http://other.example/x".to_string(),
        scheme: "http".to_string(),
        host: Some("other.example".to_string()),
    };
    let exchange = channel.build_request_to_url("GET", &url);
    assert_eq!(exchange.method, "GET");
    assert_eq!(exchange.url, "http://other.example/x");
    assert_eq!(exchange.headers, headers);
}
