use ed25519_dalek::{Signature, Signer, SigningKey, Verifier, VerifyingKey};
use hkdf::Hkdf;
use rekaserdoba_server::client::{key_id, Client, ServerIdentity};
use rekaserdoba_server::carrier::CarrierEvent;
use rekaserdoba_server::dispatch::{
    challenge_path, challenge_path_with, open_frames, prove_path, seal_frame, session_step,
    take_frame, FrameAction, OldCarrier, SessionInput, SessionStep, OLD_CARRIER_GRACE,
};
use rekaserdoba_server::error::Error;
use rekaserdoba_server::exchange::{answer_hello, answer_hello_with, EstablishedSession};
use rekaserdoba_server::handshake::{open_handshake, parse_client_hello, seal_handshake};
use rekaserdoba_server::kdf::{expand, hmac_bytes, hmac_label, transcript_next};
use rekaserdoba_server::record::{
    parse_frames, ApplicationSecrets, EpochKeys, Frame, RecordKind, RecordReceiver, RecordSender,
};
use rekaserdoba_server::rekey::{confirmation_key, update_input};
use rekaserdoba_server::session::SECOND;
use sha2::{Digest, Sha256};
use x25519_dalek::{PublicKey, StaticSecret};

const UNIX_NOW: u64 = 1_700_000_000;

fn digest(parts: &[&[u8]]) -> [u8; 32] {
    Sha256::digest(parts.concat()).into()
}

fn signing() -> SigningKey {
    SigningKey::from_bytes(&[11; 32])
}

fn client() -> Client {
    Client {
        id: [1; 16],
        public_key: signing().verifying_key().to_bytes(),
        gate_key: [2; 32],
        tunnel_ipv4: [10, 77, 0, 2],
        session_lifetime_seconds: 3600,
        bandwidth_bytes_per_second: 1024 * 1024,
        session_quota_bytes: 0,
    }
}

fn hello(time: u64, secret: &StaticSecret) -> Vec<u8> {
    let mut body = Vec::new();
    body.extend_from_slice(&1u16.to_be_bytes());
    body.extend_from_slice(&1u16.to_be_bytes());
    body.extend_from_slice(&[5; 16]);
    body.extend_from_slice(&[1; 16]);
    body.extend_from_slice(PublicKey::from(secret).as_bytes());
    body.extend_from_slice(&[6; 32]);
    body.extend_from_slice(&time.to_be_bytes());
    body.extend_from_slice(&[0; 4]);
    let mut out = vec![1];
    out.extend_from_slice(&(body.len() as u32).to_be_bytes());
    out.extend_from_slice(&body);
    out
}

struct Established {
    server: EstablishedSession,
    control: RecordSender,
    data: RecordSender,
    server_control: RecordReceiver,
    server_data: RecordReceiver,
    migration_secret: [u8; 32],
    epoch_secret: [u8; 32],
    session_id: [u8; 16],
}

fn handshake(now: u64) -> Established {
    let identity = ServerIdentity::new([12; 32]);
    let client = client();
    let mine = StaticSecret::from([13; 32]);
    let first = hello(UNIX_NOW, &mine);
    let (answered, answer) = answer_hello(&first, &identity, &client, UNIX_NOW + 1).unwrap();
    let initial = digest(&[b"RekaSerdoba/1 transcript"]);
    assert_eq!(
        initial,
        rekaserdoba_server::handshake::transcript_initial()
    );
    let t1 = transcript_next(&initial, &first);
    assert_eq!(answer[0], 3);
    assert_eq!(answer[1..5], ((answer.len() - 5) as u32).to_be_bytes());
    let body = &answer[5..];
    let fields = &body[..body.len() - 64];
    assert_eq!(fields[4..20], [5; 16]);
    assert_eq!(fields[84..100], *identity.key_id());
    assert_eq!(fields[100..104], (UNIX_NOW as u32 + 1).to_be_bytes());
    let signed = digest(&[
        b"RekaSerdoba/1 server signature",
        &t1,
        &digest(&[fields]),
        &[1; 16],
        &[5; 16],
    ]);
    let signature: [u8; 64] = body[body.len() - 64..].try_into().unwrap();
    VerifyingKey::from_bytes(identity.public_key())
        .unwrap()
        .verify(&signed, &Signature::from_bytes(&signature))
        .unwrap();
    let t2 = transcript_next(&t1, &answer);
    let server_ephemeral: [u8; 32] = fields[20..52].try_into().unwrap();
    let shared = mine.diffie_hellman(&PublicKey::from(server_ephemeral));
    let salt = digest(&[
        b"RekaSerdoba/1 handshake extract",
        &[6; 32],
        &fields[52..84],
        &t2,
    ]);
    let prk: [u8; 32] = Hkdf::<Sha256>::extract(Some(&salt), shared.as_bytes())
        .0
        .into();
    let client_key = expand(&prk, b"client handshake key", &t2, 32).unwrap();
    let client_iv = expand(&prk, b"client handshake iv", &t2, 12).unwrap();
    let server_key = expand(&prk, b"server handshake key", &t2, 32).unwrap();
    let server_iv = expand(&prk, b"server handshake iv", &t2, 12).unwrap();
    let client_finished = expand(&prk, b"client finished", &t2, 32).unwrap();
    let server_finished = expand(&prk, b"server finished", &t2, 32).unwrap();
    let awaiting = answered.agree().unwrap();

    let own_key_id = key_id(b"RekaSerdoba client key", &client.public_key);
    let mut auth = Vec::new();
    auth.extend_from_slice(&client.id);
    auth.extend_from_slice(&own_key_id);
    auth.extend_from_slice(&[0; 4]);
    auth.extend_from_slice(&1280u16.to_be_bytes());
    auth.extend_from_slice(&0u16.to_be_bytes());
    let signed = digest(&[
        b"RekaSerdoba/1 client signature",
        &t2,
        &signature,
        identity.public_key(),
        &client.id,
        &own_key_id,
    ]);
    auth.extend_from_slice(&signing().sign(&signed).to_bytes());
    let finished = digest(&[b"RekaSerdoba/1 client finished", &t2, &auth]);
    auth.extend_from_slice(&hmac_bytes(&client_finished, &finished));
    let encrypted = seal_handshake(&client_key, &client_iv, 4, 0, &t2, &auth).unwrap();
    let (confirming, finish) = awaiting
        .receive_auth(&encrypted, &identity, &client)
        .unwrap();
    let t3 = transcript_next(&t2, &encrypted);
    let plain = open_handshake(&server_key, &server_iv, 5, 0, &t3, &finish).unwrap();
    let parameters = &plain[..plain.len() - 32];
    let session_id: [u8; 16] = parameters[..16].try_into().unwrap();
    assert_eq!(parameters[16..20], 3600u32.to_be_bytes());
    assert_eq!(parameters[20..22], 1280u16.to_be_bytes());
    assert_eq!(
        plain[plain.len() - 32..],
        hmac_bytes(
            &server_finished,
            &digest(&[
                b"RekaSerdoba/1 server finished",
                &t3,
                &digest(&[parameters])
            ])
        )
    );
    let t4 = transcript_next(&t3, &finish);
    let mut confirm = session_id.to_vec();
    confirm.extend_from_slice(&hmac_bytes(
        &client_finished,
        &digest(&[b"RekaSerdoba/1 client confirm", &t4, &session_id]),
    ));
    let encrypted = seal_handshake(&client_key, &client_iv, 6, 1, &t4, &confirm).unwrap();
    let server = confirming.receive_confirm(&encrypted, &client, now).unwrap();
    let t5 = transcript_next(&t4, &encrypted);
    assert_eq!(server.session_id, session_id);
    let secrets = ApplicationSecrets::derive(&prk, &t5, session_id).unwrap();
    let keys = secrets.epoch;
    Established {
        control: RecordSender::new(RecordKind::Control, session_id, 0, keys.c2s_control),
        data: RecordSender::new(RecordKind::Data, session_id, 0, keys.c2s_data),
        server_control: RecordReceiver::new(
            RecordKind::Control,
            session_id,
            0,
            keys.s2c_control,
            4096,
        )
        .unwrap(),
        server_data: RecordReceiver::new(RecordKind::Data, session_id, 0, keys.s2c_data, 4096)
            .unwrap(),
        migration_secret: *secrets.migration.expose(),
        epoch_secret: *secrets.epoch_secret.expose(),
        server,
        session_id,
    }
}

#[test]
fn handshake_establishes_one_session_on_both_sides() {
    let first = handshake(0);
    assert_eq!(
        *first.server.migration_secret.expose(),
        first.migration_secret
    );
    let second = handshake(0);
    assert_ne!(first.session_id, second.session_id);
    assert_ne!(first.migration_secret, second.migration_secret);
}

#[test]
fn hello_is_refused_with_its_reason() {
    let identity = ServerIdentity::new([12; 32]);
    let mine = StaticSecret::from([13; 32]);
    let good = hello(UNIX_NOW, &mine);
    let refused = |encoded: &[u8], now: u64| {
        answer_hello(encoded, &identity, &client(), now)
            .err()
            .unwrap()
    };
    assert_eq!(refused(&[2, 0, 0, 0, 0], UNIX_NOW), Error::ExpectedClientHello);
    assert_eq!(refused(&good[..50], UNIX_NOW), Error::BadClientHelloLength);
    assert_eq!(refused(&good, UNIX_NOW + 301), Error::ClientClockOutsideWindow);
    assert!(answer_hello(&good, &identity, &client(), UNIX_NOW + 300).is_ok());
    assert!(answer_hello(&good, &identity, &client(), UNIX_NOW - 300).is_ok());
    assert_eq!(
        refused(&hello(u64::MAX, &mine), 0),
        Error::ClientClockOutsideWindow
    );
    let mut version = good.clone();
    version[6] = 2;
    assert_eq!(refused(&version, UNIX_NOW), Error::UnsupportedVersion);
    let mut cookie = good.clone();
    cookie[5 + 109] = 65;
    assert_eq!(refused(&cookie, UNIX_NOW), Error::RetryCookieTooLarge);
    cookie[5 + 109] = 64;
    assert_eq!(refused(&cookie, UNIX_NOW), Error::InnerRetryDisabled);
    let mut extension = good.clone();
    extension[5 + 111] = 1;
    assert_eq!(refused(&extension, UNIX_NOW), Error::ExtensionsDisabled);
    extension[5 + 110] = 5;
    assert_eq!(refused(&extension, UNIX_NOW), Error::ExtensionsTooLarge);
    let mut trailing = good.clone();
    trailing.push(0);
    trailing[4] += 1;
    assert_eq!(refused(&trailing, UNIX_NOW), Error::TrailingBytes);
    let mut truncated = good[..5 + 60].to_vec();
    truncated[4] = 60;
    assert_eq!(refused(&truncated, UNIX_NOW), Error::TruncatedInput);
    assert_eq!(refused(&vec![1; 1537], UNIX_NOW), Error::ClientHelloTooLarge);
    let mut other = good.clone();
    other[5 + 20] = 9;
    assert_eq!(refused(&other, UNIX_NOW), Error::ClientSelectorMismatch);
    let parsed = parse_client_hello(&good, UNIX_NOW).unwrap();
    assert_eq!(parsed.client_nonce, [6; 32]);
    assert_eq!(parsed.client_ephemeral, PublicKey::from(&mine).to_bytes());
}

#[test]
fn answer_depends_on_the_drawn_values() {
    let identity = ServerIdentity::new([12; 32]);
    let mine = StaticSecret::from([13; 32]);
    let first = hello(UNIX_NOW, &mine);
    let run = |secret: u8, nonce: u8| {
        answer_hello_with(
            &first,
            &identity,
            &client(),
            UNIX_NOW,
            [secret; 32],
            [nonce; 32],
        )
        .unwrap()
        .1
    };
    assert_eq!(run(40, 41), run(40, 41));
    assert_ne!(run(40, 41), run(42, 41));
    assert_eq!(
        run(40, 41)[25..57],
        PublicKey::from(&StaticSecret::from([40; 32])).to_bytes()
    );
    assert_eq!(run(40, 41)[57..89], [41; 32]);
}

#[test]
fn zero_key_share_is_refused() {
    let identity = ServerIdentity::new([12; 32]);
    let mine = StaticSecret::from([13; 32]);
    let mut first = hello(UNIX_NOW, &mine);
    for byte in &mut first[41..73] {
        *byte = 0;
    }
    let (answered, _) = answer_hello(&first, &identity, &client(), UNIX_NOW).unwrap();
    assert_eq!(answered.agree().err(), Some(Error::ZeroSharedSecret));
}

fn frame(frame_type: u8, flags: u8, body: &[u8]) -> Vec<u8> {
    Frame {
        frame_type,
        flags,
        body: body.to_vec(),
    }
    .encode()
    .unwrap()
}

fn packet(source: [u8; 4]) -> Vec<u8> {
    let mut out = vec![0u8; 20];
    out[0] = 0x45;
    out[3] = 20;
    out[8] = 64;
    out[12..16].copy_from_slice(&source);
    out[16..20].copy_from_slice(&[10, 77, 0, 1]);
    let mut sum: u32 = 0;
    for pair in out.chunks(2) {
        sum += u32::from(pair[0]) * 256 + u32::from(pair[1]);
    }
    while sum > 0xffff {
        sum = (sum & 0xffff) + (sum >> 16);
    }
    let checksum = !(sum as u16);
    out[10..12].copy_from_slice(&checksum.to_be_bytes());
    out
}

fn run(
    session: &mut Established,
    record: &[u8],
    now: u64,
) -> Result<Vec<FrameAction>, Error> {
    let identity = ServerIdentity::new([12; 32]);
    let arrived = open_frames(&mut session.server, record, now)?;
    let mut actions = Vec::new();
    for frame in &arrived.frames {
        let action = take_frame(
            &mut session.server,
            arrived.kind,
            arrived.position,
            frame,
            record,
            &identity,
            &client(),
            now,
        )
        .map_err(|failure| failure.error)?;
        actions.push(action);
    }
    Ok(actions)
}

#[test]
fn data_frames_are_answered_and_delivered() {
    let mut session = handshake(0);
    let own = packet([10, 77, 0, 2]);
    let record = session.data.seal(&frame(1, 0, &own), false).unwrap();
    let actions = run(&mut session, &record, 1).unwrap();
    assert!(matches!(&actions[..], [FrameAction::Deliver { packet, delay: 0 }] if *packet == own));

    let record = session.data.seal(&frame(4, 0, &[]), false).unwrap();
    let actions = run(&mut session, &record, 1).unwrap();
    let [FrameAction::Send(reply)] = &actions[..] else {
        panic!("no keepalive answer");
    };
    assert_eq!(session.server_data.open(reply).unwrap(), [4, 0, 0, 0]);

    let record = session.data.seal(&frame(5, 0, b"probe"), false).unwrap();
    let actions = run(&mut session, &record, 1).unwrap();
    let [FrameAction::Send(reply)] = &actions[..] else {
        panic!("no probe answer");
    };
    assert_eq!(session.server_data.open(reply).unwrap(), frame(6, 0, b"probe"));

    let record = session.data.seal(&frame(0, 0, b"pad"), false).unwrap();
    let actions = run(&mut session, &record, 1).unwrap();
    assert!(matches!(&actions[..], [FrameAction::Nothing]));
}

#[test]
fn fragments_are_delivered_when_complete() {
    let mut session = handshake(0);
    let own = packet([10, 77, 0, 2]);
    let piece = |offset: usize, end: usize| {
        let mut body = Vec::new();
        body.extend_from_slice(&9u32.to_be_bytes());
        body.extend_from_slice(&20u16.to_be_bytes());
        body.extend_from_slice(&(offset as u16).to_be_bytes());
        body.extend_from_slice(&((end - offset) as u16).to_be_bytes());
        body.extend_from_slice(&own[offset..end]);
        frame(3, 0, &body)
    };
    let record = session.data.seal(&piece(12, 20), false).unwrap();
    assert!(matches!(
        &run(&mut session, &record, 1).unwrap()[..],
        [FrameAction::Nothing]
    ));
    let record = session.data.seal(&piece(0, 12), false).unwrap();
    let actions = run(&mut session, &record, 1).unwrap();
    assert!(matches!(&actions[..], [FrameAction::Deliver { packet, delay: 0 }] if *packet == own));
}

#[test]
fn bad_data_frames_are_refused_with_their_reason() {
    let cases: Vec<(Vec<u8>, Error)> = vec![
        (frame(1, 1, &[]), Error::UnsupportedDataFlags),
        (frame(2, 0, &[]), Error::Ipv6NotEnabled),
        (frame(4, 0, &[1]), Error::KeepaliveNotEmpty),
        (frame(5, 0, &[0; 65]), Error::PathProbeTooLarge),
        (frame(6, 0, &[0; 65]), Error::PathProbeReplyTooLarge),
        (frame(1, 0, &packet([10, 77, 0, 3])), Error::Ipv4SourceViolation),
        (frame(1, 0, &[0; 19]), Error::InvalidIpv4Header),
        (frame(3, 0, &[0; 9]), Error::TruncatedFragment),
    ];
    for (plaintext, error) in cases {
        let mut session = handshake(0);
        let record = session.data.seal(&plaintext, false).unwrap();
        assert_eq!(run(&mut session, &record, 1).err(), Some(error));
    }
    let mut broken = packet([10, 77, 0, 2]);
    broken[10] ^= 1;
    let mut session = handshake(0);
    let record = session.data.seal(&frame(1, 0, &broken), false).unwrap();
    assert_eq!(
        run(&mut session, &record, 1).err(),
        Some(Error::InvalidIpv4Checksum)
    );
}

#[test]
fn control_frames_are_answered() {
    let mut session = handshake(0);
    let record = session.control.seal(&frame(2, 0, b"ping"), false).unwrap();
    let actions = run(&mut session, &record, 1).unwrap();
    let [FrameAction::Send(reply)] = &actions[..] else {
        panic!("no pong");
    };
    assert_eq!(session.server_control.open(reply).unwrap(), frame(3, 0, b"ping"));
    let record = session.control.seal(&frame(0x12, 0, &[]), false).unwrap();
    let actions = run(&mut session, &record, 1).unwrap();
    assert!(matches!(&actions[..], [FrameAction::Close]));
    let two = [frame(2, 0, b"ping"), frame(5, 0, &[0; 72])].concat();
    let record = session.control.seal(&two, false).unwrap();
    assert_eq!(
        run(&mut session, &record, 1).err(),
        Some(Error::ControlFrameNotAlone)
    );
    let record = session.control.seal(&frame(5, 1, &[0; 72]), false).unwrap();
    assert_eq!(
        run(&mut session, &record, 1).err(),
        Some(Error::InvalidUpdateInitFrame)
    );
    let record = session.control.seal(&frame(7, 0, &[0; 36]), false).unwrap();
    assert_eq!(
        run(&mut session, &record, 1).err(),
        Some(Error::InvalidUpdateCommitFrame)
    );
    let record = session.control.seal(&frame(9, 1, &[0; 120]), false).unwrap();
    assert_eq!(
        run(&mut session, &record, 1).err(),
        Some(Error::InvalidFullRekeyInitFrame)
    );
    let record = session.control.seal(&frame(11, 0, &[0; 36]), false).unwrap();
    assert_eq!(
        run(&mut session, &record, 1).err(),
        Some(Error::InvalidFullRekeyConfirmFrame)
    );
}

#[test]
fn session_ends_with_its_lifetime() {
    let mut session = handshake(0);
    let own = packet([10, 77, 0, 2]);
    let record = session.data.seal(&frame(1, 0, &own), false).unwrap();
    assert_eq!(
        run(&mut session, &record, 3600 * SECOND).err(),
        Some(Error::SessionLifetimeExpired)
    );
}

#[test]
fn new_carrier_proves_its_path() {
    let mut session = handshake(0);
    let (challenge, record) =
        challenge_path_with(&mut session.server, [8; 16], [9; 32]).unwrap();
    let plain = session.server_control.open(&record).unwrap();
    let frames = parse_frames(&plain, RecordKind::Control).unwrap();
    assert_eq!(frames[0].frame_type, 0x0C);
    assert_eq!(frames[0].body[..16], [8; 16]);
    assert_eq!(frames[0].body[16..], [9; 32]);
    let message = [
        &b"RekaSerdoba/1 path response"[..],
        &session.session_id,
        &frames[0].body,
        session.server.crypto.transcript(),
    ]
    .concat();
    let mut body = vec![8; 16];
    body.extend_from_slice(&hmac_bytes(&session.migration_secret, &message));
    let wrong = session.control.seal(&frame(0x0D, 1, &body), false).unwrap();
    assert_eq!(
        prove_path(&mut session.server, &challenge, &wrong, 1),
        Err(Error::InvalidMigrationFrame)
    );
    let data = session.data.seal(&frame(0, 0, &[]), false).unwrap();
    assert_eq!(
        prove_path(&mut session.server, &challenge, &data, 1),
        Err(Error::InvalidMigrationRecord)
    );
    let answer = session.control.seal(&frame(0x0D, 0, &body), false).unwrap();
    assert_eq!(
        prove_path(&mut session.server, &challenge, &answer, 1),
        Ok(())
    );
    let (_, first) = challenge_path(&mut session.server).unwrap();
    let (_, second) = challenge_path(&mut session.server).unwrap();
    let first = session.server_control.open(&first).unwrap();
    let second = session.server_control.open(&second).unwrap();
    assert_ne!(first, second);
}

#[test]
fn session_does_what_its_input_asks() {
    assert!(matches!(
        session_step(SessionInput::Deadline),
        SessionStep::Fail(Error::SessionLifetimeExpired)
    ));
    assert!(matches!(session_step(SessionInput::Timer), SessionStep::Wait));
    let step = |event| session_step(SessionInput::Message(event));
    assert!(matches!(
        step(CarrierEvent::Binary(vec![1])),
        SessionStep::Process { record, old: false } if record == [1]
    ));
    assert!(matches!(
        step(CarrierEvent::Ping(vec![2])),
        SessionStep::Pong { payload, old: false } if payload == [2]
    ));
    assert!(matches!(step(CarrierEvent::Close), SessionStep::End));
    assert!(matches!(step(CarrierEvent::Ignore), SessionStep::Wait));
    let step = |event| session_step(SessionInput::OldMessage(event));
    assert!(matches!(
        step(Some(CarrierEvent::Binary(vec![1]))),
        SessionStep::Process { record, old: true } if record == [1]
    ));
    assert!(matches!(
        step(Some(CarrierEvent::Ping(vec![2]))),
        SessionStep::Pong { payload, old: true } if payload == [2]
    ));
    assert!(matches!(step(Some(CarrierEvent::Close)), SessionStep::CloseOld));
    assert!(matches!(step(Some(CarrierEvent::Ignore)), SessionStep::Wait));
    assert!(matches!(step(None), SessionStep::CloseOld));
    assert!(matches!(
        session_step(SessionInput::Packet(Some(vec![3]))),
        SessionStep::Transmit(packet) if packet == [3]
    ));
    assert!(matches!(
        session_step(SessionInput::Packet(None)),
        SessionStep::End
    ));
    assert!(matches!(
        session_step(SessionInput::Candidate(Some(()))),
        SessionStep::ProvePath
    ));
    assert!(matches!(
        session_step(SessionInput::Candidate(None)),
        SessionStep::Skip
    ));
}

#[test]
fn old_carrier_is_heard_for_three_seconds() {
    let mut old = OldCarrier::none();
    assert_eq!(old.until(), None);
    assert!(!old.moved(5));
    assert_eq!(old.until(), Some(5 + OLD_CARRIER_GRACE as u128));
    assert!(old.moved(7));
    assert!(old.closed());
    assert!(!old.closed());
}

#[test]
fn sealed_frame_opens_at_the_client() {
    let mut session = handshake(0);
    let packet = Frame {
        frame_type: 1,
        flags: 0,
        body: packet([192, 0, 2, 1]),
    };
    let record = seal_frame(&mut session.server.crypto, &packet).unwrap();
    let plain = session.server_data.open(&record).unwrap();
    assert_eq!(parse_frames(&plain, RecordKind::Data), Ok(vec![packet]));
}

fn piece(id: u32, packet: &[u8], offset: usize, end: usize) -> Vec<u8> {
    let mut body = Vec::new();
    body.extend_from_slice(&id.to_be_bytes());
    body.extend_from_slice(&(packet.len() as u16).to_be_bytes());
    body.extend_from_slice(&(offset as u16).to_be_bytes());
    body.extend_from_slice(&((end - offset) as u16).to_be_bytes());
    body.extend_from_slice(&packet[offset..end]);
    frame(3, 0, &body)
}

#[test]
fn packet_id_belongs_to_one_epoch() {
    let mut session = handshake(0);
    let own = packet([10, 77, 0, 2]);
    let record = session.data.seal(&piece(9, &own, 0, 12), false).unwrap();
    assert!(matches!(
        &run(&mut session, &record, 1).unwrap()[..],
        [FrameAction::Nothing]
    ));

    let input = update_input(
        session.session_id,
        0,
        1,
        [5; 32],
        *session.server.crypto.transcript(),
    );
    let mut init = 0u32.to_be_bytes().to_vec();
    init.extend_from_slice(&1u32.to_be_bytes());
    init.extend_from_slice(&[5; 32]);
    init.extend_from_slice(&hmac_bytes(&session.epoch_secret, &input));
    let record = session.control.seal(&frame(5, 0, &init), false).unwrap();
    let actions = run(&mut session, &record, 1).unwrap();
    let [FrameAction::SendUpdate(reply)] = &actions[..] else {
        panic!("no acknowledgement");
    };
    let context = digest(&[&input]);
    let next_secret = hmac_bytes(&session.epoch_secret, &context);
    let confirm = confirmation_key(next_secret, session.session_id, 1).unwrap();
    let mut expected = 1u32.to_be_bytes().to_vec();
    expected.extend_from_slice(&hmac_label(&confirm, b"server ack", &context));
    assert_eq!(
        session.server_control.open(reply).unwrap(),
        frame(6, 0, &expected)
    );
    let keys = EpochKeys::derive(next_secret, session.session_id, 1).unwrap();
    let mut control = RecordSender::new(RecordKind::Control, session.session_id, 1, keys.c2s_control);
    let mut data = RecordSender::new(RecordKind::Data, session.session_id, 1, keys.c2s_data);
    let mut commit = 1u32.to_be_bytes().to_vec();
    commit.extend_from_slice(&hmac_label(&confirm, b"client commit", &context));
    let record = control.seal(&frame(7, 0, &commit), false).unwrap();
    assert!(matches!(
        &run(&mut session, &record, 2).unwrap()[..],
        [FrameAction::Send(_)]
    ));

    let mut other = vec![0u8; 24];
    other[..20].copy_from_slice(&own);
    let record = data.seal(&piece(9, &other, 0, 10), false).unwrap();
    assert!(matches!(
        &run(&mut session, &record, 3).unwrap()[..],
        [FrameAction::Nothing]
    ));
    let record = session.data.seal(&piece(9, &own, 12, 20), false).unwrap();
    let actions = run(&mut session, &record, 4).unwrap();
    assert!(matches!(&actions[..], [FrameAction::Deliver { packet, .. }] if *packet == own));
    let record = data.seal(&piece(9, &own, 0, 20), false).unwrap();
    assert_eq!(
        run(&mut session, &record, 5).err(),
        Some(Error::FragmentTotalChanged)
    );
}
