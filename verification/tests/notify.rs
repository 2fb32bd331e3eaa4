use agentx_ifstack::error::ErrorKind;
use agentx_ifstack::notify::{address, Address, READY};
use agentx_ifstack::supervisor::Backoff;
use agentx_ifstack::time::Span;

#[test]
fn an_absolute_path_addresses_a_socket_file() {
    let address = address(&b"/run/systemd/notify".to_vec()).expect("path address");

    assert!(matches!(address, Address::Path(path) if path == b"/run/systemd/notify"));
}

#[test]
fn a_leading_at_sign_addresses_the_abstract_namespace() {
    let address = address(&b"@systemd/notify".to_vec()).expect("abstract address");

    assert!(matches!(address, Address::Abstract(name) if name == b"systemd/notify"));
}

#[test]
fn an_unusable_socket_value_is_an_error() {
    for value in ["", "@", "run/systemd/notify"] {
        let error = address(&value.as_bytes().to_vec()).expect_err(value);

        assert_eq!(error.kind(), ErrorKind::InvalidInput);
        assert_eq!(
            error.message(),
            "NOTIFY_SOCKET is neither an absolute path nor an abstract name"
        );
    }
    assert_eq!(READY, "READY=1");
}

#[test]
fn reconnection_delays_double_until_a_session_lasts() {
    let mut backoff = Backoff::new();
    let short = Span::from_millis(29_999);
    let delays: Vec<_> = (0..7).map(|_| backoff.after_session(short)).collect();
    assert_eq!(delays, [1, 2, 4, 8, 16, 30, 30].map(Span::from_secs));
    assert_eq!(backoff.after_session(Span::from_secs(30)), Span::from_secs(1));
    assert_eq!(backoff.after_session(short), Span::from_secs(2));
}

#[test]
fn spans_saturate() {
    assert_eq!(
        Span::longest().saturating_add(Span::from_secs(1)),
        Span::longest()
    );
    assert_eq!(
        std::time::Duration::MAX.as_nanos(),
        Span::longest().nanos
    );
    assert_eq!(
        Span::from_secs(1).saturating_sub(Span::from_secs(2)),
        Span::zero()
    );
    assert_eq!(
        Span::from_secs(3).saturating_sub(Span::from_millis(500)).nanos,
        2_500_000_000
    );
    assert_eq!(Span::from_secs(1).min(Span::from_secs(2)), Span::from_secs(1));
    assert_eq!(Span::from_secs(1).max(Span::from_secs(2)), Span::from_secs(2));
    assert!(Span::zero().is_zero());
    assert!(!Span::from_millis(1).is_zero());
}
