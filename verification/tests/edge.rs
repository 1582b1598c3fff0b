use rekaserdoba_server::carrier::{outgoing, CarrierKind};
use rekaserdoba_server::diagnostics::{closed_by_peer, disconnect_reason, validate_sha};
use rekaserdoba_server::dispatch::{FrameAction, FrameFailure};
use rekaserdoba_server::edge::{
    authority_matches, bearer_token, content_type, decoy_path, decoy_sends_body, decoy_serves,
    decoy_status, forwarded_source, is_accepting, is_operational, is_tunnel_request, readiness,
    DecoyMethod,
};
use rekaserdoba_server::error::Error;
use rekaserdoba_server::metrics::{HandshakeOutcome, Metrics};

#[test]
fn forwarded_source_is_only_trusted_from_loopback_proxy() {
    let header = Some("198.51.100.8, 127.0.0.1");
    assert_eq!(
        forwarded_source(header, &[127, 0, 0, 1]),
        Some("198.51.100.8".chars().collect::<Vec<_>>())
    );
    assert_eq!(forwarded_source(header, &[203, 0, 113, 9]), None);
    let mut loopback = [0u8; 16];
    loopback[15] = 1;
    assert_eq!(
        forwarded_source(Some(" 2001:db8::1\t"), &loopback),
        Some("2001:db8::1".chars().collect::<Vec<_>>())
    );
    assert_eq!(forwarded_source(None, &[127, 0, 0, 1]), None);
}

#[test]
fn bearer_token_follows_its_prefix() {
    assert_eq!(bearer_token("Bearer abc"), Some("abc"));
    assert_eq!(bearer_token("Bearer \u{e9}"), Some("\u{e9}"));
    assert_eq!(bearer_token("Bearer "), Some(""));
    assert_eq!(bearer_token("bearer abc"), None);
    assert_eq!(bearer_token("Bearer"), None);
}

#[test]
fn authority_may_leave_its_port_out() {
    assert!(authority_matches("VPN.example:443", "vpn.example:443"));
    assert!(authority_matches("vpn.example", "vpn.example:443"));
    assert!(authority_matches("vpn.example:443", "vpn.example"));
    assert!(!authority_matches("vpn.example:444", "vpn.example"));
    assert!(!authority_matches("vpn.example.org", "vpn.example:443"));
    assert!(is_tunnel_request(
        true,
        true,
        "/h3",
        Some("vpn.example"),
        "vpn.example:443",
        "/h3"
    ));
    assert!(!is_tunnel_request(
        true,
        false,
        "/h3",
        Some("vpn.example"),
        "vpn.example:443",
        "/h3"
    ));
    assert!(!is_tunnel_request(
        true,
        true,
        "/h3",
        None,
        "vpn.example:443",
        "/h3"
    ));
}

#[test]
fn pages_are_found_below_their_directory() {
    let file = |path: &str| decoy_path(path.as_bytes()).map(|file| String::from_utf8(file).unwrap());
    assert_eq!(file("/"), Some("index.html".to_owned()));
    assert_eq!(file(""), Some("index.html".to_owned()));
    assert_eq!(file("//a/b.css"), Some("a/b.css".to_owned()));
    assert_eq!(file("/a/./b"), Some("a/./b".to_owned()));
    assert_eq!(file("/..a/b.."), Some("..a/b..".to_owned()));
    for path in ["/..", "/../a", "/a/..", "/a/../b", "/.", "/./a"] {
        assert_eq!(file(path), None, "{path}");
    }
}

#[test]
fn pages_are_answered_by_method() {
    assert_eq!(decoy_status(DecoyMethod::Get, true), 200);
    assert_eq!(decoy_status(DecoyMethod::Head, false), 404);
    assert_eq!(decoy_status(DecoyMethod::Other, true), 405);
    assert!(decoy_sends_body(DecoyMethod::Get, 1));
    assert!(!decoy_sends_body(DecoyMethod::Head, 1));
    assert!(!decoy_sends_body(DecoyMethod::Get, 0));
    assert!(decoy_serves(true, 1024 * 1024));
    assert!(!decoy_serves(true, 1024 * 1024 + 1));
    assert!(!decoy_serves(false, 1));
    assert_eq!(content_type(Some("html")), "text/html; charset=utf-8");
    assert_eq!(content_type(Some("css")), "text/css; charset=utf-8");
    assert_eq!(
        content_type(Some("js")),
        "application/javascript; charset=utf-8"
    );
    assert_eq!(content_type(Some("json")), "application/json; charset=utf-8");
    assert_eq!(content_type(Some("cbor")), "application/cose");
    assert_eq!(content_type(Some("svg")), "image/svg+xml");
    assert_eq!(content_type(Some("png")), "image/png");
    assert_eq!(content_type(Some("jpg")), "image/jpeg");
    assert_eq!(content_type(Some("jpeg")), "image/jpeg");
    assert_eq!(content_type(Some("ico")), "image/x-icon");
    assert_eq!(content_type(Some("txt")), "text/plain; charset=utf-8");
    assert_eq!(content_type(Some("HTML")), "application/octet-stream");
    assert_eq!(content_type(None), "application/octet-stream");
}

#[test]
fn readiness_needs_every_part() {
    assert!(is_operational(false, true, true));
    assert!(!is_operational(true, true, true));
    assert!(!is_operational(false, false, true));
    assert!(!is_operational(false, true, false));
    assert!(is_accepting(true, 1));
    assert!(!is_accepting(true, 0));
    assert_eq!(readiness(true), (200, "ready\n"));
    assert_eq!(readiness(false), (503, "not ready\n"));
}

#[test]
fn disconnects_are_told_apart() {
    let cases = [
        ("Session Lifetime Expired", ("session_lifetime", true)),
        ("session quota exceeded", ("session_quota", true)),
        ("migration carrier closed", ("peer_closed", true)),
        ("Connection reset by peer", ("peer_closed", true)),
        ("Broken pipe (os error 32)", ("peer_closed", true)),
        ("error reading a body from connection", ("peer_closed", true)),
        (
            "client already has an active session",
            ("duplicate_session", true),
        ),
        ("key update timed out", ("transport_timeout", true)),
        ("migration path response timeout", ("transport_timeout", true)),
        ("record authentication failed", ("protocol_error", false)),
        ("", ("protocol_error", false)),
    ];
    for (message, expected) in cases {
        assert_eq!(disconnect_reason(message), expected, "{message}");
    }
    assert_eq!(
        disconnect_reason(Error::SessionLifetimeExpired.message()).0,
        "session_lifetime"
    );
    assert_eq!(
        disconnect_reason(Error::SessionQuotaExceeded.message()).0,
        "session_quota"
    );
    assert_eq!(
        disconnect_reason(Error::CarrierClosed.message()).0,
        "peer_closed"
    );
    assert_eq!(
        disconnect_reason(Error::ClientAlreadyActive.message()).0,
        "duplicate_session"
    );
    assert_eq!(
        disconnect_reason(Error::UpdateTimedOut.message()).0,
        "transport_timeout"
    );
    assert!(closed_by_peer("Connection CLOSED"));
    assert!(!closed_by_peer("reset"));
}

#[test]
fn commit_names_are_hexadecimal() {
    assert_eq!(validate_sha(" 0123ABCdef\n"), Some(b"0123abcdef".to_vec()));
    assert_eq!(validate_sha("012345"), None);
    assert_eq!(validate_sha("012345g"), None);
    assert_eq!(validate_sha(&"a".repeat(64)), Some(vec![b'a'; 64]));
    assert_eq!(validate_sha(&"a".repeat(65)), None);
}

#[test]
fn sessions_are_counted() {
    let mut metrics = Metrics::new();
    assert!(!metrics.session_starts(false, false));
    assert!(!metrics.session_starts(true, true));
    assert!(metrics.session_starts(true, false));
    assert!(metrics.handshake_ended(HandshakeOutcome::Established(CarrierKind::H2), 1500));
    assert!(!metrics.handshake_ended(HandshakeOutcome::Failed, u128::MAX));
    assert!(!metrics.handshake_ended(HandshakeOutcome::TimedOut, 1));
    assert_eq!(metrics.sessions_active, 1);
    assert_eq!(
        metrics.session_ended(Some("session quota exceeded")),
        Some(("session_quota", true))
    );
    assert!(metrics.packet_shaped(2_500_999));
    assert!(!metrics.packet_shaped(0));
    metrics.rejected();
    metrics.migration_ended(true);
    metrics.migration_ended(false);
    metrics.update_requested();
    metrics.frame_taken(&Ok(FrameAction::SendUpdate(vec![])));
    metrics.frame_taken(&Ok(FrameAction::SendRekey(vec![])));
    metrics.frame_taken(&Ok(FrameAction::Nothing));
    metrics.frame_taken(&Err(FrameFailure {
        error: Error::InvalidUpdateTag,
        rekey_failed: true,
    }));
    metrics.frame_taken(&Err(FrameFailure {
        error: Error::TruncatedFragment,
        rekey_failed: false,
    }));
    assert_eq!(metrics.sessions_active, 0);
    assert_eq!(metrics.sessions_total, 1);
    assert_eq!(metrics.h2_sessions_total, 1);
    assert_eq!(metrics.wss_sessions_total, 0);
    assert_eq!(metrics.overloaded_total, 1);
    assert_eq!(metrics.handshake_attempts_total, 1);
    assert_eq!(metrics.handshake_failed, 2);
    assert_eq!(metrics.handshake_duration_micros_total, 1500);
    assert_eq!(metrics.disconnects_expected_total, 1);
    assert_eq!(metrics.disconnects_error_total, 0);
    assert_eq!(metrics.shaping_delay_micros_total, 2500);
    assert_eq!(metrics.gate_rejected, 1);
    assert_eq!(metrics.migrations_total, 1);
    assert_eq!(metrics.migration_failed_total, 1);
    assert_eq!(metrics.routine_rekeys_total, 2);
    assert_eq!(metrics.full_rekeys_total, 1);
    assert_eq!(metrics.rekey_failed_total, 1);
}

#[test]
fn streams_carry_lengths_and_sockets_do_not() {
    assert_eq!(outgoing(CarrierKind::Wss, vec![1, 2]), Ok(vec![1, 2]));
    assert_eq!(
        outgoing(CarrierKind::H2, vec![1, 2]),
        Ok(vec![0, 0, 0, 2, 1, 2])
    );
    assert_eq!(
        outgoing(CarrierKind::H3, vec![1, 2]),
        Ok(vec![0, 0, 0, 2, 1, 2])
    );
}
