use base64::{engine::general_purpose::URL_SAFE_NO_PAD, Engine};
use ed25519_dalek::SigningKey;
use rekaserdoba_server::admission::{AdmissionRate, ADMISSION_WINDOW};
use rekaserdoba_server::config::{ClientConfig, Config, Runtime, TunSettings};
use rekaserdoba_server::edge::{Admission, Gatekeeper, TunnelAnswer};
use rekaserdoba_server::error::Error;
use rekaserdoba_server::gate::{
    gate_token, gate_token_with, h3_exporter_context, ReplayCache, GATE_REPLAY,
};
use rekaserdoba_server::kdf::hmac_bytes;
use rekaserdoba_server::migration::MigrationRegistry;
use rekaserdoba_server::secret::Secret;
use rekaserdoba_server::session::SECOND;
use sha2::{Digest, Sha256};

const UNIX_NOW: u64 = 1_700_000_000;

fn runtime() -> Runtime {
    let signing = SigningKey::from_bytes(&[2; 32]);
    Runtime::from_config(&Config {
        listen: "127.0.0.1:9080".to_owned(),
        authority: "vpn.example:443".to_owned(),
        tunnel_path: "/connect".to_owned(),
        server_signing_seed_b64: URL_SAFE_NO_PAD.encode([9u8; 32]),
        tun: TunSettings {
            name: "reka0".to_owned(),
            address: "10.77.0.1".to_owned(),
            prefix_len: 24,
            mtu: 1280,
            session_queue: 64,
            helper_socket: None,
            helper_client_socket: None,
        },
        clients: vec![ClientConfig {
            client_id_b64: URL_SAFE_NO_PAD.encode([1; 16]),
            client_public_key_b64: URL_SAFE_NO_PAD.encode(signing.verifying_key().as_bytes()),
            gate_key_b64: URL_SAFE_NO_PAD.encode([3; 32]),
            tunnel_ipv4: "10.77.0.2".to_owned(),
            revoked: false,
            session_lifetime_seconds: 3600,
            bandwidth_bytes_per_second: 1024 * 1024,
            session_quota_bytes: 0,
        }],
        h3: None,
    })
    .unwrap()
}

fn token(id: [u8; 16], key: &[u8], time: u64, nonce: [u8; 16], message: &[u8]) -> String {
    let mut token = Vec::new();
    token.extend_from_slice(&id);
    token.extend_from_slice(&time.to_be_bytes());
    token.extend_from_slice(&nonce);
    token.extend_from_slice(&hmac_bytes(key, message));
    URL_SAFE_NO_PAD.encode(token)
}

fn plain_token(id: [u8; 16], key: &[u8], time: u64, nonce: [u8; 16], method: &str, path: &str) -> String {
    let message = [
        &b"RekaSerdoba/1 gate-lab"[..],
        method.as_bytes(),
        b"\0vpn.example:443\0",
        path.as_bytes(),
        b"\0",
        &id,
        &time.to_be_bytes(),
        &nonce,
    ]
    .concat();
    token(id, key, time, nonce, &message)
}

fn migration_token(id: [u8; 16], secret: &[u8], exporter: [u8; 32], nonce: [u8; 16]) -> String {
    let message = [
        &b"RekaSerdoba/1 migration gate"[..],
        &exporter,
        &id,
        &UNIX_NOW.to_be_bytes(),
        &nonce,
        &1u32.to_be_bytes(),
    ]
    .concat();
    token(id, secret, UNIX_NOW, nonce, &message)
}

#[test]
fn token_is_taken_once() {
    let runtime = runtime();
    let mut replay = ReplayCache::new();
    let encoded = plain_token([1; 16], &[3; 32], UNIX_NOW, [7; 16], "GET", "/connect");
    let mut show = |unix: u64, now: u64| {
        runtime
            .validate_gate(&mut replay, &encoded, b"GET", "/connect", unix, now)
            .map(|client| client.tunnel_ipv4)
    };
    assert_eq!(show(UNIX_NOW, 0), Ok([10, 77, 0, 2]));
    assert_eq!(show(UNIX_NOW, 1), Err(Error::ReplayedGateToken));
    assert_eq!(
        show(UNIX_NOW + 90, GATE_REPLAY + 1),
        Err(Error::ReplayedGateToken)
    );
    assert_eq!(
        show(UNIX_NOW + 90, 2 * GATE_REPLAY + 2),
        Ok([10, 77, 0, 2])
    );
}

#[test]
fn token_from_a_fast_clock_runs_out_when_it_is_forgotten() {
    let runtime = runtime();
    let mut replay = ReplayCache::new();
    let encoded = plain_token([1; 16], &[3; 32], UNIX_NOW + 90, [7; 16], "GET", "/connect");
    let mut show = |elapsed: u64| {
        runtime
            .validate_gate(
                &mut replay,
                &encoded,
                b"GET",
                "/connect",
                UNIX_NOW + elapsed,
                elapsed * SECOND,
            )
            .map(|client| client.id)
    };
    assert_eq!(show(0), Ok([1; 16]));
    assert_eq!(show(180), Err(Error::ReplayedGateToken));
    assert_eq!(show(181), Err(Error::ExpiredToken));
}

#[test]
fn token_is_refused_with_its_reason() {
    let runtime = runtime();
    let mut replay = ReplayCache::new();
    let mut show = |encoded: &str, unix: u64| {
        runtime
            .validate_gate(&mut replay, encoded, b"GET", "/connect", unix, 0)
            .map(|client| client.id)
    };
    assert_eq!(show("?", UNIX_NOW), Err(Error::InvalidBase64));
    assert_eq!(show("AAAA", UNIX_NOW), Err(Error::InvalidTokenLength));
    let good = plain_token([1; 16], &[3; 32], UNIX_NOW, [7; 16], "GET", "/connect");
    assert_eq!(show(&good, UNIX_NOW + 91), Err(Error::ExpiredToken));
    assert_eq!(show(&good, UNIX_NOW - 91), Err(Error::ExpiredToken));
    let unknown = plain_token([2; 16], &[3; 32], UNIX_NOW, [7; 16], "GET", "/connect");
    assert_eq!(show(&unknown, UNIX_NOW), Err(Error::UnknownClient));
    let forged = plain_token([1; 16], &[4; 32], UNIX_NOW, [7; 16], "GET", "/connect");
    assert_eq!(show(&forged, UNIX_NOW), Err(Error::InvalidGateMac));
    let other = plain_token([1; 16], &[3; 32], UNIX_NOW, [7; 16], "POST", "/connect");
    assert_eq!(show(&other, UNIX_NOW), Err(Error::InvalidGateMac));
    assert_eq!(show(&good, UNIX_NOW - 90), Ok([1; 16]));
    let far = plain_token([1; 16], &[3; 32], u64::MAX, [8; 16], "GET", "/connect");
    assert_eq!(show(&far, 0), Err(Error::ExpiredToken));
}

#[test]
fn own_h3_token_is_taken() {
    let runtime = runtime();
    let mut replay = ReplayCache::new();
    let encoded = gate_token_with(
        &[1; 16],
        &[3; 32],
        &[8; 32],
        "vpn.example:443",
        "/h3",
        UNIX_NOW,
        &[7; 16],
    );
    let message = [
        &b"RekaSerdoba/1 gate"[..],
        &[8; 32],
        b"CONNECT\0vpn.example:443\0/h3\0",
        &[1; 16],
        &UNIX_NOW.to_be_bytes(),
        &[7; 16],
    ]
    .concat();
    assert_eq!(
        encoded,
        token([1; 16], &[3; 32], UNIX_NOW, [7; 16], &message)
    );
    let mut show = |encoded: &str, exporter: u8| {
        runtime
            .validate_h3_gate(
                &mut replay,
                encoded,
                &[exporter; 32],
                "vpn.example:443",
                "/h3",
                UNIX_NOW,
                0,
            )
            .map(|client| client.id)
    };
    assert_eq!(show(&encoded, 9), Err(Error::InvalidGateMac));
    assert_eq!(show(&encoded, 8), Ok([1; 16]));
    let fresh = gate_token(
        &[1; 16],
        &[3; 32],
        &[8; 32],
        "vpn.example:443",
        "/h3",
        UNIX_NOW,
    );
    assert_eq!(show(&fresh, 8), Ok([1; 16]));
    assert_eq!(show(&fresh, 8), Err(Error::ReplayedGateToken));
}

#[test]
fn exporter_context_is_the_hash_of_the_names() {
    let expected: [u8; 32] = Sha256::digest(b"vpn.example:443\0/h3").into();
    assert_eq!(h3_exporter_context("vpn.example:443", "/h3"), expected);
}

#[test]
fn sixty_attempts_a_minute_are_let_through() {
    let mut rates = AdmissionRate::new();
    for attempt in 0..60 {
        assert_eq!(
            rates.check_admission_rate(vec![192, 0, 2, 1], attempt),
            Ok(())
        );
    }
    assert_eq!(
        rates.check_admission_rate(vec![192, 0, 2, 1], 60),
        Err(Error::AdmissionRateExceeded)
    );
    assert_eq!(rates.check_admission_rate(vec![192, 0, 2, 2], 60), Ok(()));
    assert_eq!(
        rates.check_admission_rate(vec![192, 0, 2, 1], ADMISSION_WINDOW),
        Err(Error::AdmissionRateExceeded)
    );
    assert_eq!(
        rates.check_admission_rate(vec![192, 0, 2, 1], ADMISSION_WINDOW + 1),
        Ok(())
    );
    assert_eq!(
        rates.check_admission_rate(vec![192, 0, 2, 1], ADMISSION_WINDOW + 1),
        Err(Error::AdmissionRateExceeded)
    );
}

#[test]
fn only_so_many_sources_are_followed() {
    let mut rates = AdmissionRate::new();
    for source in 0..8192u32 {
        assert_eq!(
            rates.check_admission_rate(source.to_be_bytes().to_vec(), 0),
            Ok(())
        );
    }
    assert_eq!(
        rates.check_admission_rate(vec![255; 4], 0),
        Err(Error::AdmissionTableFull)
    );
    assert_eq!(rates.check_admission_rate(vec![0; 4], 0), Ok(()));
    assert_eq!(
        rates.check_admission_rate(vec![255; 4], ADMISSION_WINDOW + 1),
        Ok(())
    );
}

#[test]
fn session_moves_with_its_own_token() {
    let mut sessions = MigrationRegistry::new();
    assert_eq!(
        sessions.register_migration(&[5; 16], Secret::new([6; 32])),
        Ok(())
    );
    let good = migration_token([5; 16], &[6; 32], [0; 32], [7; 16]);
    let mut show = |encoded: &str, endpoint: u32, unix: u64, now: u64| {
        sessions.validate_migration_gate(encoded, &[0; 32], endpoint, unix, now)
    };
    assert_eq!(show("?", 1, UNIX_NOW, 0), Err(Error::InvalidBase64));
    assert_eq!(
        show("AAAA", 1, UNIX_NOW, 0),
        Err(Error::InvalidMigrationTokenLength)
    );
    assert_eq!(
        show(&good, 1, UNIX_NOW + 91, 0),
        Err(Error::ExpiredMigrationToken)
    );
    assert_eq!(show(&good, 2, UNIX_NOW, 0), Err(Error::InvalidMigrationMac));
    assert_eq!(show(&good, 1, UNIX_NOW, 0), Ok([5; 16]));
    assert_eq!(
        show(&good, 1, UNIX_NOW, 1),
        Err(Error::ReplayedMigrationToken)
    );
    let unknown = migration_token([4; 16], &[6; 32], [0; 32], [7; 16]);
    assert_eq!(
        show(&unknown, 1, UNIX_NOW, 0),
        Err(Error::UnknownMigrationSession)
    );
    assert_eq!(
        sessions.register_migration(&[5; 16], Secret::new([8; 32])),
        Err(Error::DuplicateSessionId)
    );
    sessions.unregister_migration(&[5; 16]);
    assert_eq!(
        sessions.validate_migration_gate(&good, &[0; 32], 1, UNIX_NOW, 2),
        Err(Error::UnknownMigrationSession)
    );
}

#[test]
fn tunnel_opens_for_a_known_client() {
    let runtime = runtime();
    let mut keeper = Gatekeeper::new();
    let header = format!(
        "Bearer {}",
        plain_token([1; 16], &[3; 32], UNIX_NOW, [7; 16], "GET", "/connect")
    );
    let mut ask = |operational: bool, path: &str, upgrade: bool, header: Option<&str>| {
        keeper.answer_websocket(
            &runtime,
            operational,
            path,
            upgrade,
            header,
            vec![192, 0, 2, 1],
            UNIX_NOW,
            SECOND,
        )
    };
    assert!(matches!(
        ask(false, "/connect", true, Some(&header)),
        TunnelAnswer::NotFound
    ));
    assert!(matches!(
        ask(true, "/other", true, Some(&header)),
        TunnelAnswer::NotFound
    ));
    assert!(matches!(
        ask(true, "/connect", false, Some(&header)),
        TunnelAnswer::NotFound
    ));
    assert!(matches!(
        ask(true, "/connect", true, None),
        TunnelAnswer::NotFound
    ));
    assert!(matches!(
        ask(true, "/connect", true, Some("Basic x")),
        TunnelAnswer::NotFound
    ));
    assert!(matches!(
        ask(true, "/connect", true, Some("Bearer x")),
        TunnelAnswer::Rejected
    ));
    let answer = ask(true, "/connect", true, Some(&header));
    assert_eq!(answer.status(), 200);
    assert!(matches!(
        answer,
        TunnelAnswer::Admit(Admission::Handshake(client)) if client.id == [1; 16]
    ));
    let answer = ask(true, "/connect", true, Some(&header));
    assert_eq!(answer.status(), 404);
    assert!(matches!(answer, TunnelAnswer::Rejected));
}

#[test]
fn tunnel_opens_for_a_session_that_moves() {
    let runtime = runtime();
    let mut keeper = Gatekeeper::new();
    assert_eq!(
        keeper.register_migration(&[5; 16], Secret::new([6; 32])),
        Ok(())
    );
    let header = format!("Bearer {}", migration_token([5; 16], &[6; 32], [0; 32], [7; 16]));
    let answer = keeper.answer_h2(
        &runtime,
        true,
        Some(&header),
        vec![192, 0, 2, 1],
        UNIX_NOW,
        SECOND,
    );
    assert!(matches!(
        answer,
        TunnelAnswer::Admit(Admission::Migration(id)) if id == [5; 16]
    ));
    let encoded = migration_token([5; 16], &[6; 32], [9; 32], [8; 16]);
    let mut ask = || {
        keeper.answer_h3(
            &runtime,
            &[9; 32],
            "vpn.example:443",
            "/h3",
            &encoded,
            UNIX_NOW,
            SECOND,
        )
    };
    assert!(matches!(
        ask(),
        TunnelAnswer::Admit(Admission::Migration(id)) if id == [5; 16]
    ));
    assert!(matches!(ask(), TunnelAnswer::Rejected));
    keeper.unregister_migration(&[5; 16]);
    let encoded = migration_token([5; 16], &[6; 32], [9; 32], [10; 16]);
    let answer = keeper.answer_h3(
        &runtime,
        &[9; 32],
        "vpn.example:443",
        "/h3",
        &encoded,
        UNIX_NOW,
        SECOND,
    );
    assert!(matches!(answer, TunnelAnswer::Rejected));
}

#[test]
fn h2_tunnel_opens_for_a_known_client() {
    let runtime = runtime();
    let mut keeper = Gatekeeper::new();
    let header = format!(
        "Bearer {}",
        plain_token([1; 16], &[3; 32], UNIX_NOW, [7; 16], "POST", "/connect/v1/h2")
    );
    for _ in 0..60 {
        keeper.attempt(vec![192, 0, 2, 1], SECOND);
    }
    let mut ask = |operational: bool, source: u8| {
        keeper.answer_h2(
            &runtime,
            operational,
            Some(&header),
            vec![192, 0, 2, source],
            UNIX_NOW,
            SECOND,
        )
    };
    assert!(matches!(ask(false, 2), TunnelAnswer::NotFound));
    assert!(matches!(ask(true, 1), TunnelAnswer::Rejected));
    assert!(matches!(
        ask(true, 2),
        TunnelAnswer::Admit(Admission::Handshake(client)) if client.id == [1; 16]
    ));
}
