use base64::{engine::general_purpose::URL_SAFE_NO_PAD, Engine};
use ed25519_dalek::SigningKey;
use rekaserdoba_server::base64url::{decode_fixed, decode_text, Field};
use rekaserdoba_server::config::{
    default_bandwidth, default_h3_decoy_root, default_session_lifetime, validate_client_count,
    validate_h3, validate_key_mode, ClientConfig, Config, H3Config, Runtime, TunSettings,
};
use rekaserdoba_server::error::Error;
use rekaserdoba_server::network::Network;

fn client_config(id: u8, ip: &str) -> ClientConfig {
    let signing = SigningKey::from_bytes(&[id.wrapping_add(1); 32]);
    ClientConfig {
        client_id_b64: URL_SAFE_NO_PAD.encode([id; 16]),
        client_public_key_b64: URL_SAFE_NO_PAD.encode(signing.verifying_key().as_bytes()),
        gate_key_b64: URL_SAFE_NO_PAD.encode([id.wrapping_add(2); 32]),
        tunnel_ipv4: ip.to_owned(),
        revoked: false,
        session_lifetime_seconds: 3600,
        bandwidth_bytes_per_second: 1024 * 1024,
        session_quota_bytes: 0,
    }
}

fn test_config(clients: Vec<ClientConfig>) -> Config {
    Config {
        listen: "127.0.0.1:9080".to_owned(),
        authority: "vpn.example:443".to_owned(),
        tunnel_path: "/connect".to_owned(),
        server_signing_seed_b64: URL_SAFE_NO_PAD.encode([9u8; 32]),
        tun: TunSettings {
            name: "reka0".to_owned(),
            address: "10.77.0.1".to_owned(),
            prefix_len: 24,
            mtu: 1280,
            session_queue: 64,
            helper_socket: None,
            helper_client_socket: None,
        },
        clients,
        h3: None,
    }
}

#[test]
fn configuration_rejects_duplicate_tunnel_addresses() {
    let cfg = test_config(vec![
        client_config(1, "10.77.0.2"),
        client_config(2, "10.77.0.2"),
    ]);
    assert!(Runtime::from_config(&cfg).is_err());
}

#[test]
fn configuration_rejects_unusable_tunnel_addresses() {
    for address in ["10.77.0.0", "10.77.0.1", "10.77.0.255", "10.78.0.2"] {
        let cfg = test_config(vec![client_config(1, address)]);
        assert!(Runtime::from_config(&cfg).is_err(), "{address}");
    }
}

#[test]
fn configuration_accepts_distinct_clients_in_subnet() {
    let cfg = test_config(vec![
        client_config(1, "10.77.0.2"),
        client_config(2, "10.77.0.3"),
    ]);
    assert_eq!(Runtime::from_config(&cfg).unwrap().client_count(), 2);
}

#[test]
fn configuration_takes_its_identity_from_the_seed() {
    let runtime = Runtime::from_config(&test_config(vec![])).unwrap();
    assert_eq!(
        *runtime.identity().public_key(),
        SigningKey::from_bytes(&[9; 32]).verifying_key().to_bytes()
    );
    assert_eq!(runtime.authority(), "vpn.example:443");
    assert_eq!(runtime.tunnel_path(), "/connect");
}

#[test]
fn revoked_clients_are_checked_and_left_out() {
    let mut revoked = client_config(2, "10.77.0.2");
    revoked.revoked = true;
    let cfg = test_config(vec![client_config(1, "10.77.0.2"), revoked.clone()]);
    assert_eq!(Runtime::from_config(&cfg).unwrap().client_count(), 1);
    revoked.tunnel_ipv4 = "10.78.0.2".to_owned();
    let cfg = test_config(vec![revoked]);
    assert_eq!(
        Runtime::from_config(&cfg).err(),
        Some(Error::TunnelAddressOutsideSubnet)
    );
}

#[test]
fn configuration_is_refused_with_its_reason() {
    let refused = |change: &dyn Fn(&mut Config)| {
        let mut cfg = test_config(vec![client_config(1, "10.77.0.2")]);
        change(&mut cfg);
        Runtime::from_config(&cfg).err().unwrap()
    };
    assert_eq!(
        refused(&|cfg| cfg.authority = "vpn.example".to_owned()),
        Error::InvalidAuthority
    );
    assert_eq!(
        refused(&|cfg| cfg.authority = "vpn\u{2003}example:443".to_owned()),
        Error::InvalidAuthority
    );
    assert_eq!(
        refused(&|cfg| cfg.authority = format!("{}:443", "a".repeat(252))),
        Error::InvalidAuthority
    );
    assert_eq!(
        refused(&|cfg| cfg.tunnel_path = "connect".to_owned()),
        Error::InvalidTunnelPath
    );
    assert_eq!(
        refused(&|cfg| cfg.tunnel_path = format!("/{}", "a".repeat(256))),
        Error::InvalidTunnelPath
    );
    assert_eq!(
        refused(&|cfg| cfg.server_signing_seed_b64 = "?".to_owned()),
        Error::UndecodableField(Field::ServerSigningSeed)
    );
    assert_eq!(
        refused(&|cfg| cfg.server_signing_seed_b64 = URL_SAFE_NO_PAD.encode([9u8; 31])),
        Error::WrongFieldLength(Field::ServerSigningSeed)
    );
    assert_eq!(
        refused(&|cfg| cfg.clients[0].client_id_b64 = "AA".to_owned()),
        Error::WrongFieldLength(Field::ClientId)
    );
    assert_eq!(
        refused(&|cfg| cfg.clients.push(client_config(1, "10.77.0.3"))),
        Error::DuplicateClientId
    );
    assert_eq!(
        refused(&|cfg| {
            let mut key = [0u8; 32];
            key[0] = 2;
            cfg.clients[0].client_public_key_b64 = URL_SAFE_NO_PAD.encode(key)
        }),
        Error::InvalidClientPublicKey
    );
    assert_eq!(
        refused(&|cfg| cfg.clients[0].gate_key_b64 = "A".to_owned()),
        Error::UndecodableField(Field::GateKey)
    );
    assert_eq!(
        refused(&|cfg| cfg.clients[0].tunnel_ipv4 = "10.77.0.02".to_owned()),
        Error::InvalidTunnelAddress
    );
    assert_eq!(
        refused(&|cfg| cfg.clients[0].session_lifetime_seconds = 59),
        Error::InvalidSessionLifetime
    );
    assert_eq!(
        refused(&|cfg| cfg.clients[0].bandwidth_bytes_per_second = 1023),
        Error::InvalidSessionBandwidth
    );
    assert_eq!(
        refused(&|cfg| cfg.clients.push(client_config(2, "10.77.0.2"))),
        Error::DuplicateTunnelAddress
    );
}

#[test]
fn interface_settings_are_refused_with_their_reason() {
    let refused = |change: &dyn Fn(&mut TunSettings)| {
        let mut settings = test_config(vec![]).tun;
        change(&mut settings);
        Network::validate_settings(&settings).err().unwrap()
    };
    assert_eq!(refused(&|tun| tun.name = String::new()), Error::InvalidTunName);
    assert_eq!(refused(&|tun| tun.name = "a".repeat(16)), Error::InvalidTunName);
    assert_eq!(refused(&|tun| tun.mtu = 575), Error::InvalidTunMtu);
    assert_eq!(refused(&|tun| tun.mtu = 9001), Error::InvalidTunMtu);
    assert_eq!(refused(&|tun| tun.session_queue = 7), Error::InvalidSessionQueue);
    assert_eq!(
        refused(&|tun| tun.address = "10.77.0".to_owned()),
        Error::InvalidTunAddress
    );
    assert_eq!(refused(&|tun| tun.prefix_len = 0), Error::InvalidTunPrefix);
    assert_eq!(refused(&|tun| tun.prefix_len = 31), Error::InvalidTunPrefix);
    assert_eq!(
        refused(&|tun| {
            tun.helper_socket = Some("/a".to_owned());
            tun.helper_client_socket = Some("/a".to_owned());
        }),
        Error::HelperSocketsEqual
    );
    assert_eq!(
        refused(&|tun| tun.helper_socket = Some("/a".to_owned())),
        Error::HelperClientSocketMissing
    );
    assert_eq!(
        refused(&|tun| tun.helper_client_socket = Some("/a".to_owned())),
        Error::HelperSocketMissing
    );
    let mut settings = test_config(vec![]).tun;
    settings.helper_socket = Some("/a".to_owned());
    settings.helper_client_socket = Some("/b".to_owned());
    assert_eq!(Network::validate_settings(&settings), Ok(()));
}

#[test]
fn h3_settings_are_checked() {
    let mut h3 = H3Config {
        listen: "0.0.0.0:443".to_owned(),
        authority: "vpn.example:443".to_owned(),
        path: "/h3".to_owned(),
        certificate_pem: String::new(),
        private_key_pem: String::new(),
        decoy_root: default_h3_decoy_root(),
    };
    assert_eq!(validate_h3(&h3), Ok(()));
    assert_eq!(h3.decoy_root, "/var/www/rekaserdoba");
    h3.path = "h3".to_owned();
    assert_eq!(validate_h3(&h3), Err(Error::InvalidH3Path));
    h3.authority = "vpn example:443".to_owned();
    assert_eq!(validate_h3(&h3), Err(Error::InvalidH3Authority));
    assert_eq!(validate_key_mode(0o100640), Ok(()));
    assert_eq!(validate_key_mode(0o100600), Ok(()));
    for mode in [0o100660, 0o100644, 0o100642, 0o100641] {
        assert_eq!(validate_key_mode(mode), Err(Error::H3KeyPermissions));
    }
    assert_eq!(default_session_lifetime(), 3600);
    assert_eq!(default_bandwidth(), 26_214_400);
}

#[test]
fn client_count_is_limited() {
    let mut cfg = test_config(vec![client_config(1, "10.77.0.2"); 4096]);
    assert_eq!(validate_client_count(&cfg), Ok(()));
    cfg.clients.push(client_config(1, "10.77.0.2"));
    assert_eq!(validate_client_count(&cfg), Err(Error::TooManyClients));
}

#[test]
fn base64url_takes_only_canonical_texts() {
    assert_eq!(decode_text(""), Some(vec![]));
    assert_eq!(decode_text("aGVsbG8"), Some(b"hello".to_vec()));
    assert_eq!(decode_text("-_8"), Some(vec![0xfb, 0xff]));
    assert_eq!(decode_text("AP8Q"), Some(vec![0, 0xff, 0x10]));
    for encoded in ["aGVsbG8=", "+/8", "A", "AB", "AAB", "AA A", "\u{e9}AA"] {
        assert_eq!(decode_text(encoded), None, "{encoded}");
    }
    assert_eq!(decode_fixed::<2>("-_8", Field::GateKey), Ok([0xfb, 0xff]));
}
