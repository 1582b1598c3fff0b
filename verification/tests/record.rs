use hkdf::Hkdf;
use rekaserdoba_server::error::Error;
use rekaserdoba_server::record::{
    parse_frames, ApplicationSecrets, EpochKeys, Frame, RecordHeader, RecordKind, RecordReceiver,
    RecordSender, ReplayWindow, SessionRecordLayer, RECORD_HEADER_LEN,
};
use sha2::Sha256;

fn layers() -> (SessionRecordLayer, SessionRecordLayer) {
    let secret = [9u8; 32];
    let session = [4u8; 16];
    let first = EpochKeys::derive(secret, session, 0).unwrap();
    let second = EpochKeys::derive(secret, session, 0).unwrap();
    (
        SessionRecordLayer::new(session, 0, first, 4096).unwrap(),
        SessionRecordLayer::new(session, 0, second, 4096).unwrap(),
    )
}

#[test]
fn application_keys_are_separated() {
    let handshake: [u8; 32] = Hkdf::<Sha256>::extract(Some(b"salt"), b"shared secret")
        .0
        .into();
    let secrets = ApplicationSecrets::derive(&handshake, &[3u8; 32], [5u8; 16]).unwrap();
    assert_ne!(secrets.migration.expose(), secrets.resumption.expose());
    assert_ne!(secrets.resumption.expose(), secrets.exporter.expose());
    assert_ne!(secrets.epoch.c2s_data.key(), secrets.epoch.s2c_data.key());
    assert_ne!(secrets.epoch.c2s_control.key(), secrets.epoch.c2s_data.key());
}

#[test]
fn data_and_control_round_trip() {
    let (mut client, mut server) = layers();
    let data = client.s2c_data.seal(b"packet", false).unwrap();
    assert_eq!(
        server.c2s_data.open(&data).unwrap_err().message(),
        "record authentication failed"
    );

    let secret = [9u8; 32];
    let session = [4u8; 16];
    let client_keys = EpochKeys::derive(secret, session, 0).unwrap();
    let server_keys = EpochKeys::derive(secret, session, 0).unwrap();
    let mut client_sender = RecordSender::new(RecordKind::Data, session, 0, client_keys.c2s_data);
    let mut server_receiver =
        RecordReceiver::new(RecordKind::Data, session, 0, server_keys.c2s_data, 4096).unwrap();
    let encoded = client_sender.seal(b"packet", false).unwrap();
    assert_eq!(server_receiver.open(&encoded).unwrap(), b"packet");

    let client_keys = EpochKeys::derive(secret, session, 0).unwrap();
    let server_keys = EpochKeys::derive(secret, session, 0).unwrap();
    let mut client_sender =
        RecordSender::new(RecordKind::Control, session, 0, client_keys.c2s_control);
    let mut server_receiver = RecordReceiver::new(
        RecordKind::Control,
        session,
        0,
        server_keys.c2s_control,
        4096,
    )
    .unwrap();
    let encoded = client_sender.seal(b"control", false).unwrap();
    assert_eq!(server_receiver.open(&encoded).unwrap(), b"control");
}

#[test]
fn authentication_failure_does_not_advance_replay() {
    let secret = [8u8; 32];
    let session = [2u8; 16];
    let sender_keys = EpochKeys::derive(secret, session, 0).unwrap();
    let receiver_keys = EpochKeys::derive(secret, session, 0).unwrap();
    let mut sender = RecordSender::new(RecordKind::Data, session, 0, sender_keys.c2s_data);
    let mut receiver =
        RecordReceiver::new(RecordKind::Data, session, 0, receiver_keys.c2s_data, 4096).unwrap();
    let encoded = sender.seal(b"valid", false).unwrap();
    let mut forged = encoded.clone();
    forged[RECORD_HEADER_LEN] ^= 1;
    assert!(receiver.open(&forged).is_err());
    assert_eq!(receiver.open(&encoded).unwrap(), b"valid");
    assert!(receiver.open(&encoded).is_err());
}

#[test]
fn replay_window_handles_reorder_and_large_jumps() {
    let mut replay = ReplayWindow::new(256).unwrap();
    assert!(replay.commit_authenticated(300));
    assert!(replay.commit_authenticated(299));
    assert!(!replay.commit_authenticated(299));
    assert!(!replay.plausible(44));
    assert!(replay.commit_authenticated(800));
    assert!(!replay.plausible(300));
}

#[test]
fn frame_parser_ignores_optional_and_rejects_critical_unknowns() {
    let known = Frame {
        frame_type: 0x01,
        flags: 0,
        body: vec![1, 2, 3],
    }
    .encode()
    .unwrap();
    let optional = Frame {
        frame_type: 0x40,
        flags: 0,
        body: vec![4],
    }
    .encode()
    .unwrap();
    let parsed = parse_frames(&[known.clone(), optional].concat(), RecordKind::Data).unwrap();
    assert_eq!(parsed.len(), 1);
    let critical = Frame {
        frame_type: 0x80,
        flags: 0,
        body: vec![],
    }
    .encode()
    .unwrap();
    assert!(parse_frames(&critical, RecordKind::Data).is_err());
}

#[test]
fn malformed_inputs_never_panic() {
    let mut state = 0x9e3779b97f4a7c15u64;
    for length in 0..512usize {
        let mut input = vec![0u8; length];
        for byte in &mut input {
            state ^= state << 13;
            state ^= state >> 7;
            state ^= state << 17;
            *byte = state as u8;
        }
        let _ = RecordHeader::parse(&input);
        let _ = parse_frames(&input, RecordKind::Data);
        let _ = parse_frames(&input, RecordKind::Control);
    }
}

#[test]
fn sealed_record_has_the_documented_layout() {
    let session = [4u8; 16];
    let keys = EpochKeys::derive([9u8; 32], session, 7).unwrap();
    let mut sender = RecordSender::new(RecordKind::Control, session, 7, keys.s2c_control);
    let first = sender.seal(b"abc", true).unwrap();
    let second = sender.seal(b"abc", true).unwrap();
    assert_eq!(first.len(), RECORD_HEADER_LEN + 3 + 16);
    assert_eq!(first[1..17], session);
    assert_eq!(first[17..21], 7u32.to_be_bytes());
    assert_eq!(first[21..29], 0u64.to_be_bytes());
    assert_eq!(second[21..29], 1u64.to_be_bytes());
    assert_eq!(first[29..31], 19u16.to_be_bytes());
    let header = RecordHeader::parse(&first).unwrap();
    assert_eq!(header.encode()[..], first[..RECORD_HEADER_LEN]);
    assert_ne!(first[RECORD_HEADER_LEN..], second[RECORD_HEADER_LEN..]);
}

#[test]
fn receiver_names_each_refusal() {
    let session = [4u8; 16];
    let sender_keys = EpochKeys::derive([9u8; 32], session, 0).unwrap();
    let other_keys = EpochKeys::derive([9u8; 32], [5u8; 16], 0).unwrap();
    let receiver_keys = EpochKeys::derive([9u8; 32], session, 0).unwrap();
    let mut sender = RecordSender::new(RecordKind::Data, session, 0, sender_keys.c2s_data);
    let mut other = RecordSender::new(RecordKind::Data, [5u8; 16], 0, other_keys.c2s_data);
    let mut receiver =
        RecordReceiver::new(RecordKind::Data, session, 0, receiver_keys.c2s_data, 256).unwrap();
    let encoded = sender.seal(b"abc", false).unwrap();
    assert_eq!(receiver.open(&encoded[..10]), Err(Error::TruncatedRecordHeader));
    assert_eq!(
        receiver.open(&encoded[..encoded.len() - 1]),
        Err(Error::RecordLengthMismatch)
    );
    let foreign = other.seal(b"abc", false).unwrap();
    assert_eq!(receiver.open(&foreign), Err(Error::RecordContextMismatch));
    let mut version = encoded.clone();
    version[0] = 0x20;
    assert_eq!(receiver.open(&version), Err(Error::InvalidRecordVersion));
    let mut short = encoded.clone();
    short[29] = 0;
    short[30] = 15;
    assert_eq!(receiver.open(&short), Err(Error::InvalidCiphertextLength));
    assert_eq!(receiver.open(&encoded), Ok(b"abc".to_vec()));
    assert_eq!(receiver.open(&encoded), Err(Error::RecordReplayed));
    assert_eq!(
        sender.seal(&vec![0u8; 4081], false),
        Err(Error::RecordPlaintextTooLarge)
    );
    assert_eq!(sender.seal(&vec![0u8; 4080], false).unwrap().len(), 4127);
    assert_eq!(ReplayWindow::new(255).err(), Some(Error::InvalidReplayWindow));
}

#[test]
fn frame_parser_names_each_refusal() {
    assert_eq!(
        parse_frames(&[1, 0, 0], RecordKind::Data),
        Err(Error::TruncatedFrameHeader)
    );
    assert_eq!(
        parse_frames(&[1, 0, 0, 2, 9], RecordKind::Data),
        Err(Error::TruncatedFrameBody)
    );
    assert_eq!(
        parse_frames(&[0x80, 0, 0, 0], RecordKind::Data),
        Err(Error::UnsupportedCriticalFrame)
    );
    let frame = Frame {
        frame_type: 1,
        flags: 2,
        body: vec![7; 65536],
    };
    assert_eq!(frame.encode(), Err(Error::FrameBodyTooLarge));
    let frame = Frame {
        frame_type: 1,
        flags: 2,
        body: vec![7, 8],
    };
    assert_eq!(frame.encode(), Ok(vec![1, 2, 0, 2, 7, 8]));
    assert_eq!(
        parse_frames(&[1, 2, 0, 2, 7, 8], RecordKind::Data),
        Ok(vec![frame])
    );
}

#[test]
fn number_below_the_window_is_refused_for_good() {
    let mut replay = ReplayWindow::new(256).unwrap();
    assert!(replay.commit_authenticated(1000));
    assert!(!replay.plausible(744));
    assert!(replay.plausible(745));
    assert!(!replay.commit_authenticated(744));
    assert!(replay.commit_authenticated(745));
    assert!(!replay.commit_authenticated(745));
    assert!(replay.plausible(u64::MAX));
}
