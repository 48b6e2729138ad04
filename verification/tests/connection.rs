//! Connection failures and pairing.
use awaken_foundation::connection::{paired, ConnectError};

#[test]
fn connect_error_variants_are_transport_level_only() {
    assert_eq!(
        ConnectError::UnsupportedAddress {
            scheme: "ws".into()
        }
        .message(),
        "transport `ws` does not accept this address shape"
    );
    assert_eq!(
        ConnectError::Setup("spawn failed".into()).message(),
        "transport setup failed: spawn failed"
    );
    assert_eq!(
        ConnectError::Io("reset".into()).message(),
        "transport I/O failed: reset"
    );
}

#[test]
fn bind_pair_runs_accept_and_dial_and_returns_both_channels() {
    let (accepted, dialed) =
        paired::<&str, &str>(Ok("accept"), Ok("dial:ws://peer:material")).unwrap();
    assert_eq!(accepted, "accept");
    assert_eq!(dialed, "dial:ws://peer:material");
}

#[test]
fn bind_pair_returns_accept_error_before_dial_error() {
    let error = paired::<(), ()>(
        Err(ConnectError::Setup("accept failed".into())),
        Err(ConnectError::Io("dial failed".into())),
    )
    .unwrap_err();
    assert!(matches!(error, ConnectError::Setup(message) if message == "accept failed"));
}

#[test]
fn pairing_fails_where_one_end_fails() {
    let dialed = || Err(ConnectError::Io("dial failed".into()));
    let error = paired::<(), ()>(Ok(()), dialed()).unwrap_err();
    assert_eq!(error.message(), "transport I/O failed: dial failed");
    let accepted = || Err(ConnectError::Setup("accept failed".into()));
    let error = paired::<(), ()>(accepted(), Ok(())).unwrap_err();
    assert_eq!(error.message(), "transport setup failed: accept failed");
}
