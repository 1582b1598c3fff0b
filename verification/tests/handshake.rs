use chacha20poly1305::{
    aead::{Aead, KeyInit, Payload},
    ChaCha20Poly1305,
};
use ed25519_dalek::{Signer, SigningKey};
use hkdf::Hkdf;
use rekaserdoba_server::client::{key_id, Client};
use rekaserdoba_server::error::Error;
use rekaserdoba_server::handshake::{
    assigned_parameters, encode_handshake, open_handshake, packet_nonce, seal_handshake,
    transcript_initial, verify_client_auth,
};
use rekaserdoba_server::kdf::{expand, expand_key, hash_parts, hmac_bytes, transcript_next};
use sha2::{Digest, Sha256};

#[test]
fn nonce_xors_packet_number_into_low_64_bits() {
    let iv = [0x55u8; 12];
    let nonce = packet_nonce(&iv, 0x0102_0304_0506_0708).unwrap();
    assert_eq!(&nonce[..4], &[0x55; 4]);
    assert_eq!(
        &nonce[4..],
        &[0x54, 0x57, 0x56, 0x51, 0x50, 0x53, 0x52, 0x5d]
    );
}

#[test]
fn transcript_is_chained() {
    let t0 = transcript_initial();
    let t1 = transcript_next(&t0, b"message");
    assert_ne!(t0, t1);
    assert_eq!(t1, transcript_next(&t0, b"message"));
}

#[test]
fn handshake_record_round_trip_and_aad_binding() {
    let hk: [u8; 32] = Hkdf::<Sha256>::extract(Some(b"salt"), b"secret").0.into();
    let transcript = [7u8; 32];
    let key = expand(&hk, b"client handshake key", &transcript, 32).unwrap();
    let iv = expand(&hk, b"client handshake iv", &transcript, 12).unwrap();
    let encoded = seal_handshake(&key, &iv, 0x04, 0, &transcript, b"authenticated").unwrap();
    assert_eq!(
        open_handshake(&key, &iv, 0x04, 0, &transcript, &encoded).unwrap(),
        b"authenticated"
    );
    assert!(open_handshake(&key, &iv, 0x04, 0, &[8u8; 32], &encoded).is_err());
}

#[test]
fn labels_are_expanded_as_hkdf_does() {
    let prk = [3u8; 32];
    let mut info = vec![0, 40, 18];
    info.extend_from_slice(b"RekaSerdoba/1 test");
    info.extend_from_slice(&[0, 3, 7, 8, 9]);
    let mut expected = [0u8; 40];
    Hkdf::<Sha256>::from_prk(&prk)
        .unwrap()
        .expand(&info, &mut expected)
        .unwrap();
    assert_eq!(expand(&prk, b"test", &[7, 8, 9], 40).unwrap(), expected);
    assert_eq!(
        expand(&prk, &[b'a'; 242], &[], 32),
        Err(Error::HkdfInputTooLarge)
    );
    assert_eq!(expand(&prk, b"test", &[], 8160).unwrap().len(), 8160);
    assert_eq!(expand(&prk, b"test", &[], 8161), Err(Error::HkdfExpandFailed));
    assert_eq!(
        expand_key(&prk, b"test", &vec![0; 65536]),
        Err(Error::HkdfInputTooLarge)
    );
}

#[test]
fn handshake_message_is_sealed_with_chacha20_poly1305() {
    let (key, iv, transcript) = ([3u8; 32], [4u8; 12], [5u8; 32]);
    let encoded = seal_handshake(&key, &iv, 4, 7, &transcript, b"hello").unwrap();
    let header = [4, 0, 0, 0, 0, 7, 0, 21];
    let aad = [&header[..], &transcript].concat();
    let mut nonce = iv;
    nonce[11] ^= 7;
    let expected = ChaCha20Poly1305::new((&key).into())
        .encrypt(
            (&nonce).into(),
            Payload {
                msg: b"hello",
                aad: &aad,
            },
        )
        .unwrap();
    assert_eq!(encoded, [&header[..], &expected].concat());
}

#[test]
fn handshake_messages_are_refused_with_their_reason() {
    let (key, iv, transcript) = ([3u8; 32], [4u8; 12], [5u8; 32]);
    let encoded = seal_handshake(&key, &iv, 4, 7, &transcript, b"hello").unwrap();
    let open = |kind: u8, sequence: u32, encoded: &[u8]| {
        open_handshake(&key, &iv, kind, sequence, &transcript, encoded)
    };
    assert_eq!(open(5, 7, &encoded), Err(Error::InvalidHandshakeHeader));
    assert_eq!(open(4, 8, &encoded), Err(Error::InvalidHandshakeHeader));
    assert_eq!(open(4, 7, &encoded[..23]), Err(Error::InvalidHandshakeHeader));
    assert_eq!(
        open(4, 7, &encoded[..encoded.len() - 1]),
        Err(Error::InvalidHandshakeLength)
    );
    let mut forged = encoded.clone();
    forged[10] ^= 1;
    assert_eq!(
        open(4, 7, &forged),
        Err(Error::HandshakeAuthenticationFailed)
    );
    assert_eq!(open(4, 7, &encoded), Ok(b"hello".to_vec()));
    assert_eq!(
        seal_handshake(&key, &iv, 4, 7, &transcript, &vec![0; 4097]),
        Err(Error::HandshakePlaintextTooLarge)
    );
    assert_eq!(
        seal_handshake(&key, &iv[1..], 4, 7, &transcript, b""),
        Err(Error::InvalidIvLength)
    );
    assert_eq!(
        encode_handshake(3, &vec![0; 1532]),
        Err(Error::HandshakeMessageTooLarge)
    );
    assert_eq!(encode_handshake(3, &vec![0; 1531]).unwrap().len(), 1536);
    assert_eq!(
        open_handshake(&key, &iv[1..], 4, 7, &transcript, &encoded),
        Err(Error::InvalidIvLength)
    );
    assert_eq!(encode_handshake(3, &[7]), Ok(vec![3, 0, 0, 0, 1, 7]));
}

fn proof_client() -> Client {
    Client {
        id: [1; 16],
        public_key: SigningKey::from_bytes(&[11; 32]).verifying_key().to_bytes(),
        gate_key: [2; 32],
        tunnel_ipv4: [10, 77, 0, 2],
        session_lifetime_seconds: 3600,
        bandwidth_bytes_per_second: 1024 * 1024,
        session_quota_bytes: 0,
    }
}

fn proof_with(extensions: &[u8]) -> Result<(), Error> {
    let client = proof_client();
    let (t2, server_signature, server_public, finished) =
        ([5u8; 32], [6u8; 64], [7u8; 32], [8u8; 32]);
    let own_key_id = key_id(b"RekaSerdoba client key", &client.public_key);
    let signed = hash_parts(&[
        b"RekaSerdoba/1 client signature",
        &t2,
        &server_signature,
        &server_public,
        &client.id,
        &own_key_id,
    ]);
    let mut auth = Vec::new();
    auth.extend_from_slice(&client.id);
    auth.extend_from_slice(&own_key_id);
    auth.extend_from_slice(&[0; 4]);
    auth.extend_from_slice(&1280u16.to_be_bytes());
    auth.extend_from_slice(&(extensions.len() as u16).to_be_bytes());
    auth.extend_from_slice(extensions);
    auth.extend_from_slice(&SigningKey::from_bytes(&[11; 32]).sign(&signed).to_bytes());
    let expected = hash_parts(&[b"RekaSerdoba/1 client finished", &t2, &auth]);
    auth.extend_from_slice(&hmac_bytes(&finished, &expected));
    verify_client_auth(
        &auth,
        &client,
        &t2,
        &server_signature,
        &server_public,
        &finished,
    )
}

#[test]
fn extensions_of_a_proof_are_checked() {
    assert_eq!(proof_with(&[]), Ok(()));
    assert_eq!(proof_with(&[0, 1, 0, 2, 9, 9, 0x7f, 0xff, 0, 0]), Ok(()));
    assert_eq!(
        proof_with(&[0x80, 1, 0, 0]),
        Err(Error::UnknownCriticalExtension)
    );
    assert_eq!(
        proof_with(&[0, 1, 0, 0, 0xff, 0xff, 0, 1, 7]),
        Err(Error::UnknownCriticalExtension)
    );
    assert_eq!(
        proof_with(&[0, 2, 0, 0, 0, 1, 0, 0]),
        Err(Error::ExtensionsOutOfOrder)
    );
    assert_eq!(
        proof_with(&[0, 2, 0, 0, 0, 2, 0, 0]),
        Err(Error::ExtensionsOutOfOrder)
    );
    assert_eq!(proof_with(&[0, 2, 0]), Err(Error::MalformedExtension));
    assert_eq!(
        proof_with(&[0, 2, 0, 2, 9]),
        Err(Error::MalformedExtension)
    );
}

#[test]
fn client_proof_is_refused_with_its_reason() {
    let signing = SigningKey::from_bytes(&[11; 32]);
    let client = Client {
        id: [1; 16],
        public_key: signing.verifying_key().to_bytes(),
        gate_key: [2; 32],
        tunnel_ipv4: [10, 77, 0, 2],
        session_lifetime_seconds: 3600,
        bandwidth_bytes_per_second: 1024 * 1024,
        session_quota_bytes: 0,
    };
    let (t2, server_signature, server_public, finished) =
        ([5u8; 32], [6u8; 64], [7u8; 32], [8u8; 32]);
    let own_key_id = key_id(b"RekaSerdoba client key", &client.public_key);
    let mut expected: [u8; 32] = Sha256::digest(
        [&b"RekaSerdoba client key"[..], &client.public_key].concat(),
    )
    .into();
    assert_eq!(own_key_id, expected[..16]);
    let signed = hash_parts(&[
        b"RekaSerdoba/1 client signature",
        &t2,
        &server_signature,
        &server_public,
        &client.id,
        &own_key_id,
    ]);
    let mut auth = Vec::new();
    auth.extend_from_slice(&client.id);
    auth.extend_from_slice(&own_key_id);
    auth.extend_from_slice(&[0; 4]);
    auth.extend_from_slice(&1280u16.to_be_bytes());
    auth.extend_from_slice(&0u16.to_be_bytes());
    auth.extend_from_slice(&signing.sign(&signed).to_bytes());
    expected = hash_parts(&[b"RekaSerdoba/1 client finished", &t2, &auth]);
    auth.extend_from_slice(&hmac_bytes(&finished, &expected));
    let check = |auth: &[u8]| {
        verify_client_auth(
            auth,
            &client,
            &t2,
            &server_signature,
            &server_public,
            &finished,
        )
    };
    let changed = |at: usize, value: u8| {
        let mut auth = auth.clone();
        auth[at] = value;
        auth
    };
    assert_eq!(check(&auth), Ok(()));
    assert_eq!(check(&auth[..135]), Err(Error::ShortClientAuth));
    assert_eq!(check(&changed(36, 0)), Err(Error::InvalidRequestedMtu));
    assert_eq!(check(&changed(38, 5)), Err(Error::ExtensionsTooLarge));
    assert_eq!(check(&changed(39, 1)), Err(Error::TruncatedInput));
    let mut trailing = auth.clone();
    trailing.push(0);
    assert_eq!(check(&trailing), Err(Error::TrailingBytes));
    assert_eq!(check(&changed(0, 9)), Err(Error::ClientIdMismatch));
    let other = auth[16] ^ 1;
    assert_eq!(check(&changed(16, other)), Err(Error::ClientKeyIdMismatch));
    let other = auth[41] ^ 1;
    assert_eq!(check(&changed(41, other)), Err(Error::InvalidClientSignature));
    let other = auth[135] ^ 1;
    assert_eq!(check(&changed(135, other)), Err(Error::InvalidClientFinished));
}

#[test]
fn assigned_parameters_have_their_layout() {
    let parameters = assigned_parameters([9; 16], [10, 77, 0, 2], 3600);
    let mut expected = vec![9; 16];
    expected.extend_from_slice(&3600u32.to_be_bytes());
    expected.extend_from_slice(&1280u16.to_be_bytes());
    expected.extend_from_slice(&4096u16.to_be_bytes());
    expected.extend_from_slice(&0x0100_0000u32.to_be_bytes());
    expected.extend_from_slice(&1800u32.to_be_bytes());
    expected.push(24);
    expected.extend_from_slice(&[10, 77, 0, 2]);
    expected.push(0);
    expected.extend_from_slice(&[0; 16]);
    expected.push(0);
    expected.extend_from_slice(&[0; 2]);
    assert_eq!(parameters, expected);
}
