use ed25519_dalek::{Signer, SigningKey};
use rekaserdoba_server::error::Error;
use rekaserdoba_server::kdf::{expand_key, hmac_bytes, hmac_label, transcript_next};
use rekaserdoba_server::record::{
    EpochKeys, Frame, RecordKind, RecordReceiver, RecordSender, DEFAULT_REPLAY_WINDOW,
};
use rekaserdoba_server::rekey::{
    confirmation_key, update_input, EpochPosition, RekeySession, OLD_EPOCH_GRACE, UPDATE_INTERVAL,
    UPDATE_TIMEOUT,
};
use rekaserdoba_server::secret::Secret;
use sha2::{Digest, Sha256};
use x25519_dalek::{PublicKey, StaticSecret};

fn digest(data: &[u8]) -> [u8; 32] {
    Sha256::digest(data).into()
}

fn frame(frame_type: u8, body: &[u8]) -> Vec<u8> {
    Frame {
        frame_type,
        flags: 0,
        body: body.to_vec(),
    }
    .encode()
    .unwrap()
}

#[test]
fn completes_routine_key_update() {
    let session_id = [7u8; 16];
    let secret = [9u8; 32];
    let t5 = [3u8; 32];
    let now = 1_000_000_000;
    let server_keys = EpochKeys::derive(secret, session_id, 0).unwrap();
    let client_keys = EpochKeys::derive(secret, session_id, 0).unwrap();
    let mut client_control =
        RecordSender::new(RecordKind::Control, session_id, 0, client_keys.c2s_control);
    let mut server =
        RekeySession::new(session_id, Secret::new(secret), server_keys, t5, now).unwrap();
    let nonce = [5u8; 32];
    let input = update_input(session_id, 0, 1, nonce, *server.transcript());
    let tag = hmac_bytes(&secret, &input);
    let mut body = Vec::new();
    body.extend_from_slice(&0u32.to_be_bytes());
    body.extend_from_slice(&1u32.to_be_bytes());
    body.extend_from_slice(&nonce);
    body.extend_from_slice(&tag);
    let init = client_control.seal(&frame(0x05, &body), false).unwrap();
    let opened = server.open(&init, now).unwrap();
    assert_eq!(opened.position, EpochPosition::Current);
    let ack = server.accept_update_init(&init, &body, now).unwrap();
    let next_secret = hmac_bytes(&secret, &digest(&input));
    let next_keys = EpochKeys::derive(next_secret, session_id, 1).unwrap();
    let confirm = confirmation_key(next_secret, session_id, 1).unwrap();
    let commit_tag = hmac_label(&confirm, b"client commit", &digest(&input));
    let mut commit_body = 1u32.to_be_bytes().to_vec();
    commit_body.extend_from_slice(&commit_tag);
    let mut client_next_control =
        RecordSender::new(RecordKind::Control, session_id, 1, next_keys.c2s_control);
    let commit = client_next_control
        .seal(&frame(0x07, &commit_body), false)
        .unwrap();
    let opened = server.open(&commit, now).unwrap();
    assert_eq!(opened.position, EpochPosition::Pending);
    let done = server
        .accept_update_commit(&commit, &commit_body, now)
        .unwrap();
    let client_server_keys = EpochKeys::derive(next_secret, session_id, 1).unwrap();
    let mut receiver = RecordReceiver::new(
        RecordKind::Control,
        session_id,
        1,
        client_server_keys.s2c_control,
        DEFAULT_REPLAY_WINDOW,
    )
    .unwrap();
    assert_eq!(receiver.open(&done).unwrap()[0], 0x08);
    assert_eq!(ack[17..21], 0u32.to_be_bytes());

    let late = client_control.seal(&frame(0x02, b"late"), false).unwrap();
    let opened = server.open(&late, now + 1).unwrap();
    assert_eq!(opened.position, EpochPosition::Previous);
    let later = client_control.seal(&frame(0x02, b"later"), false).unwrap();
    assert_eq!(
        server.open(&later, now + OLD_EPOCH_GRACE).err(),
        Some(Error::UnknownRecordEpoch)
    );
}

#[test]
fn rejects_stalled_key_update() {
    let session_id = [7u8; 16];
    let secret = [9u8; 32];
    let now = 1_000_000_000;
    let keys = EpochKeys::derive(secret, session_id, 0).unwrap();
    let mut session =
        RekeySession::new(session_id, Secret::new(secret), keys, [3u8; 32], now).unwrap();
    assert!(session
        .request_update_if_due(now + UPDATE_INTERVAL)
        .unwrap()
        .is_some());
    assert!(session
        .request_update_if_due(now + UPDATE_INTERVAL + UPDATE_TIMEOUT)
        .is_err());
}

struct Peer {
    session_id: [u8; 16],
    secret: [u8; 32],
    epoch: u32,
    control: RecordSender,
    transcript: [u8; 32],
}

fn pair() -> (RekeySession, Peer) {
    let session_id = [7u8; 16];
    let secret = [9u8; 32];
    let keys = EpochKeys::derive(secret, session_id, 0).unwrap();
    let server = RekeySession::new(session_id, Secret::new(secret), keys, [3u8; 32], 0).unwrap();
    let transcript = digest(
        &[
            &b"RekaSerdoba/1 control transcript"[..],
            &[3u8; 32],
            &session_id,
        ]
        .concat(),
    );
    assert_eq!(*server.transcript(), transcript);
    let keys = EpochKeys::derive(secret, session_id, 0).unwrap();
    let control = RecordSender::new(RecordKind::Control, session_id, 0, keys.c2s_control);
    (
        server,
        Peer {
            session_id,
            secret,
            epoch: 0,
            control,
            transcript,
        },
    )
}

impl Peer {
    fn binding(&self, label: &[u8], rekey_id: &[u8; 16], ephemeral: &[u8; 32]) -> Vec<u8> {
        [
            label,
            &self.session_id[..],
            &self.epoch.to_be_bytes()[..],
            &(self.epoch + 1).to_be_bytes()[..],
            &rekey_id[..],
            &ephemeral[..],
        ]
        .concat()
    }

    fn request(&self, signing: &SigningKey, rekey_id: &[u8; 16], ephemeral: &[u8; 32]) -> Vec<u8> {
        let mut signed = self.binding(b"RekaSerdoba/1 full rekey client", rekey_id, ephemeral);
        signed.extend_from_slice(&self.transcript);
        let signature = signing.sign(&digest(&signed)).to_bytes();
        [
            &self.epoch.to_be_bytes()[..],
            &(self.epoch + 1).to_be_bytes()[..],
            &rekey_id[..],
            &ephemeral[..],
            &signature[..],
        ]
        .concat()
    }

    fn finish(
        &mut self,
        server: &mut RekeySession,
        body: &[u8],
        init: &[u8],
        answer: &[u8],
        mine: &StaticSecret,
    ) -> Vec<u8> {
        let rekey_id: [u8; 16] = body[8..24].try_into().unwrap();
        let ephemeral: [u8; 32] = body[24..56].try_into().unwrap();
        let keys = EpochKeys::derive(self.secret, self.session_id, self.epoch).unwrap();
        let mut receiver = RecordReceiver::new(
            RecordKind::Control,
            self.session_id,
            self.epoch,
            keys.s2c_control,
            DEFAULT_REPLAY_WINDOW,
        )
        .unwrap();
        let plain = receiver.open(answer).unwrap();
        assert_eq!(plain[0], 0x0A);
        let reply = &plain[4..];
        assert_eq!(reply[..8], body[..8]);
        assert_eq!(reply[8..24], rekey_id);
        let server_ephemeral: [u8; 32] = reply[24..56].try_into().unwrap();
        self.transcript = transcript_next(&self.transcript, init);
        self.transcript = transcript_next(&self.transcript, answer);
        let shared = mine
            .diffie_hellman(&PublicKey::from(server_ephemeral))
            .to_bytes();
        let mut bound = self.binding(b"RekaSerdoba/1 full rekey", &rekey_id, &ephemeral);
        bound.extend_from_slice(&server_ephemeral);
        bound.extend_from_slice(&body[56..120]);
        bound.extend_from_slice(&reply[56..120]);
        bound.extend_from_slice(&self.transcript);
        let context = digest(&bound);
        self.secret = hmac_bytes(&self.secret, &[shared, context].concat());
        self.epoch += 1;
        let confirm = expand_key(&self.secret, b"full rekey confirm", &context).unwrap();
        let mut confirmation = self.epoch.to_be_bytes().to_vec();
        confirmation.extend_from_slice(&hmac_label(&confirm, b"client confirm", &context));
        let keys = EpochKeys::derive(self.secret, self.session_id, self.epoch).unwrap();
        self.control = RecordSender::new(
            RecordKind::Control,
            self.session_id,
            self.epoch,
            keys.c2s_control,
        );
        let record = self.control.seal(&frame(0x0B, &confirmation), false).unwrap();
        assert_eq!(
            server.open(&record, 1).unwrap().position,
            EpochPosition::Pending
        );
        let mut wrong = confirmation.clone();
        wrong[10] ^= 1;
        assert_eq!(
            server.accept_full_rekey_confirm(&record, &wrong, 1),
            Err(Error::InvalidFullRekeyTag)
        );
        let done = server
            .accept_full_rekey_confirm(&record, &confirmation, 1)
            .unwrap();
        self.transcript = transcript_next(&self.transcript, &record);
        self.transcript = transcript_next(&self.transcript, &done);
        assert_eq!(*server.transcript(), self.transcript);
        done
    }
}

#[test]
fn full_rekey_agrees_on_new_keys() {
    let (mut server, mut peer) = pair();
    let client = SigningKey::from_bytes(&[21; 32]);
    let seed = [22u8; 32];
    let mine = StaticSecret::from([23u8; 32]);
    let ephemeral = PublicKey::from(&mine).to_bytes();
    let body = peer.request(&client, &[1; 16], &ephemeral);
    let init = peer.control.seal(&frame(0x09, &body), false).unwrap();
    assert_eq!(
        server.open(&init, 1).unwrap().position,
        EpochPosition::Current
    );
    let public = client.verifying_key().to_bytes();
    let answer = server
        .accept_full_rekey_init(&init, &body, &public, &seed, 1)
        .unwrap();
    assert_eq!(
        server.accept_full_rekey_init(&init, &body, &public, &seed, 1),
        Err(Error::InvalidOrConcurrentFullRekey)
    );
    let done = peer.finish(&mut server, &body, &init, &answer, &mine);
    let keys = EpochKeys::derive(peer.secret, peer.session_id, 1).unwrap();
    let mut receiver = RecordReceiver::new(
        RecordKind::Control,
        peer.session_id,
        1,
        keys.s2c_control,
        DEFAULT_REPLAY_WINDOW,
    )
    .unwrap();
    assert_eq!(receiver.open(&done).unwrap()[0], 0x08);

    let again = peer.request(&client, &[1; 16], &ephemeral);
    let init = peer.control.seal(&frame(0x09, &again), false).unwrap();
    assert_eq!(
        server.accept_full_rekey_init(&init, &again, &public, &seed, 2),
        Err(Error::RekeyIdRepeated)
    );
    let fresh = peer.request(&client, &[2; 16], &ephemeral);
    let init = peer.control.seal(&frame(0x09, &fresh), false).unwrap();
    assert!(server
        .accept_full_rekey_init(&init, &fresh, &public, &seed, 2)
        .is_ok());
}

#[test]
fn full_rekey_names_each_refusal() {
    let (mut server, mut peer) = pair();
    let client = SigningKey::from_bytes(&[21; 32]);
    let other = SigningKey::from_bytes(&[24; 32]);
    let public = client.verifying_key().to_bytes();
    let seed = [22u8; 32];
    let mine = StaticSecret::from([23u8; 32]);
    let ephemeral = PublicKey::from(&mine).to_bytes();
    let body = peer.request(&other, &[1; 16], &ephemeral);
    let init = peer.control.seal(&frame(0x09, &body), false).unwrap();
    assert_eq!(
        server.accept_full_rekey_init(&init, &body, &public, &seed, 1),
        Err(Error::InvalidFullRekeySignature)
    );
    let mut skipping = peer.request(&client, &[1; 16], &ephemeral);
    skipping[7] = 2;
    assert_eq!(
        server.accept_full_rekey_init(&init, &skipping, &public, &seed, 1),
        Err(Error::InvalidFullRekeyEpoch)
    );
    assert_eq!(
        server.accept_full_rekey_init(&init, &body[1..], &public, &seed, 1),
        Err(Error::InvalidOrConcurrentFullRekey)
    );
    let weak = peer.request(&client, &[1; 16], &[0; 32]);
    assert_eq!(
        server.accept_full_rekey_init(&init, &weak, &public, &seed, 1),
        Err(Error::FullRekeyZeroSecret)
    );
    assert_eq!(
        server.accept_full_rekey_confirm(&init, &[0; 36], 1),
        Err(Error::FullRekeyNotPending)
    );
    assert_eq!(
        server.accept_full_rekey_confirm(&init, &[0; 35], 1),
        Err(Error::InvalidFullRekeyConfirmation)
    );
}

#[test]
fn full_rekey_uses_the_given_secret() {
    let run = |secret: [u8; 32]| {
        let (mut server, mut peer) = pair();
        let client = SigningKey::from_bytes(&[21; 32]);
        let mine = StaticSecret::from([23u8; 32]);
        let ephemeral = PublicKey::from(&mine).to_bytes();
        let body = peer.request(&client, &[1; 16], &ephemeral);
        let init = peer.control.seal(&frame(0x09, &body), false).unwrap();
        let public = client.verifying_key().to_bytes();
        server
            .accept_full_rekey_init_with(&init, &body, &public, &[22; 32], &secret, 1)
            .unwrap()
    };
    assert_eq!(run([30; 32]), run([30; 32]));
    assert_ne!(run([30; 32]), run([31; 32]));
}

#[test]
fn routine_update_names_each_refusal() {
    let (mut server, mut peer) = pair();
    let record = peer.control.seal(&frame(0x05, &[0; 72]), false).unwrap();
    assert_eq!(
        server.accept_update_init(&record, &[0; 71], 1),
        Err(Error::InvalidOrConcurrentUpdate)
    );
    let mut body = vec![0; 72];
    assert_eq!(
        server.accept_update_init(&record, &body, 1),
        Err(Error::InvalidUpdateEpoch)
    );
    body[7] = 1;
    assert_eq!(
        server.accept_update_init(&record, &body, 1),
        Err(Error::InvalidUpdateTag)
    );
    assert_eq!(
        server.accept_update_commit(&record, &[0; 36], 1),
        Err(Error::UpdateNotPending)
    );
    assert_eq!(
        server.accept_update_commit(&record, &[0; 35], 1),
        Err(Error::InvalidUpdateCommit)
    );
    let input = update_input(peer.session_id, 0, 1, [0; 32], peer.transcript);
    body[40..].copy_from_slice(&hmac_bytes(&peer.secret, &input));
    assert!(server.accept_update_init(&record, &body, 1).is_ok());
    assert_eq!(
        server.accept_update_init(&record, &body, 1),
        Err(Error::InvalidOrConcurrentUpdate)
    );
    let mut commit = vec![0; 36];
    assert_eq!(
        server.accept_update_commit(&record, &commit, 1),
        Err(Error::UpdateCommitEpochMismatch)
    );
    commit[3] = 1;
    assert_eq!(
        server.accept_update_commit(&record, &commit, 1),
        Err(Error::InvalidUpdateCommitTag)
    );
    assert_eq!(
        server.accept_full_rekey_confirm(&record, &commit, 1),
        Err(Error::FullRekeyNotPending)
    );
    assert_eq!(
        server.path_challenge(&[1; 32], [2; 16], [3; 32]).err(),
        Some(Error::MigrationDuringRekey)
    );
    let next_secret = hmac_bytes(&peer.secret, &digest(&input));
    let keys = EpochKeys::derive(next_secret, peer.session_id, 1).unwrap();
    let mut data = RecordSender::new(RecordKind::Data, peer.session_id, 1, keys.c2s_data);
    assert_eq!(
        server.open(&data.seal(b"early", false).unwrap(), 1).err(),
        Some(Error::PendingEpochControlOnly)
    );
}

#[test]
fn update_is_due_after_its_interval() {
    let (mut server, _) = pair();
    assert_eq!(server.next_update_check(5), UPDATE_INTERVAL as u128);
    assert_eq!(server.request_update_if_due(UPDATE_INTERVAL - 1), Ok(None));
    assert!(server
        .request_update_if_due(UPDATE_INTERVAL)
        .unwrap()
        .is_some());
    assert_eq!(server.request_update_if_due(UPDATE_INTERVAL + 1), Ok(None));
    assert_eq!(
        server.next_update_check(5),
        (UPDATE_INTERVAL + UPDATE_TIMEOUT) as u128
    );
    assert_eq!(
        server.request_update_if_due(UPDATE_INTERVAL + UPDATE_TIMEOUT),
        Err(Error::UpdateTimedOut)
    );
}

#[test]
fn path_is_proved_by_the_right_tag() {
    let (mut server, peer) = pair();
    let (record, expected) = server.path_challenge(&[1; 32], [2; 16], [3; 32]).unwrap();
    let transcript = transcript_next(&peer.transcript, &record);
    let message = [
        &b"RekaSerdoba/1 path response"[..],
        &peer.session_id,
        &[2; 16],
        &[3; 32],
        &transcript,
    ]
    .concat();
    assert_eq!(expected, hmac_bytes(&[1; 32], &message));
    let mut answer = vec![2; 16];
    answer.extend_from_slice(&expected);
    let mut wrong = answer.clone();
    wrong[20] ^= 1;
    assert_eq!(
        server.accept_path_response(b"record", &wrong, [2; 16], expected),
        Err(Error::InvalidPathResponse)
    );
    assert_eq!(
        server.accept_path_response(b"record", &answer, [2; 16], expected),
        Ok(())
    );
    assert_eq!(
        *server.transcript(),
        transcript_next(&transcript, b"record")
    );
}

fn routine(server: &mut RekeySession, peer: &mut Peer, now: u64) -> RecordSender {
    let next = peer.epoch + 1;
    let input = update_input(
        peer.session_id,
        peer.epoch,
        next,
        [5; 32],
        *server.transcript(),
    );
    let mut body = peer.epoch.to_be_bytes().to_vec();
    body.extend_from_slice(&next.to_be_bytes());
    body.extend_from_slice(&[5; 32]);
    body.extend_from_slice(&hmac_bytes(&peer.secret, &input));
    let init = peer.control.seal(&frame(0x05, &body), false).unwrap();
    server.open(&init, now).unwrap();
    server.accept_update_init(&init, &body, now).unwrap();
    let context = digest(&input);
    peer.secret = hmac_bytes(&peer.secret, &context);
    peer.epoch = next;
    let confirm = confirmation_key(peer.secret, peer.session_id, next).unwrap();
    let mut commit = next.to_be_bytes().to_vec();
    commit.extend_from_slice(&hmac_label(&confirm, b"client commit", &context));
    let keys = EpochKeys::derive(peer.secret, peer.session_id, next).unwrap();
    let control = RecordSender::new(RecordKind::Control, peer.session_id, next, keys.c2s_control);
    let old = std::mem::replace(&mut peer.control, control);
    let record = peer.control.seal(&frame(0x07, &commit), false).unwrap();
    server.open(&record, now).unwrap();
    server.accept_update_commit(&record, &commit, now).unwrap();
    old
}

#[test]
fn late_records_are_limited_and_taken_once() {
    let (mut server, mut peer) = pair();
    let early = peer.control.seal(&frame(0x02, b"early"), false).unwrap();
    assert_eq!(
        server.open(&early, 1).unwrap().position,
        EpochPosition::Current
    );
    let mut old = routine(&mut server, &mut peer, 2);
    assert_eq!(server.open(&early, 3).err(), Some(Error::RecordReplayed));
    for _ in 0..128 {
        let late = old.seal(&frame(0x02, b"late"), false).unwrap();
        let mut forged = late.clone();
        let last = forged.len() - 1;
        forged[last] ^= 1;
        assert_eq!(
            server.open(&forged, 3).err(),
            Some(Error::RecordAuthenticationFailed)
        );
        assert_eq!(
            server.open(&late, 3).unwrap().position,
            EpochPosition::Previous
        );
    }
    let late = old.seal(&frame(0x02, b"late"), false).unwrap();
    assert_eq!(
        server.open(&late, 3).err(),
        Some(Error::UnknownRecordEpoch)
    );
}

#[test]
fn rekey_id_is_remembered_over_other_changes() {
    let (mut server, mut peer) = pair();
    let client = SigningKey::from_bytes(&[21; 32]);
    let public = client.verifying_key().to_bytes();
    let mine = StaticSecret::from([23u8; 32]);
    let ephemeral = PublicKey::from(&mine).to_bytes();
    let body = peer.request(&client, &[1; 16], &ephemeral);
    let init = peer.control.seal(&frame(0x09, &body), false).unwrap();
    server.open(&init, 1).unwrap();
    let answer = server
        .accept_full_rekey_init(&init, &body, &public, &[22; 32], 1)
        .unwrap();
    peer.finish(&mut server, &body, &init, &answer, &mine);
    routine(&mut server, &mut peer, 2);
    peer.transcript = *server.transcript();
    let again = peer.request(&client, &[1; 16], &ephemeral);
    let init = peer.control.seal(&frame(0x09, &again), false).unwrap();
    assert_eq!(
        server.accept_full_rekey_init(&init, &again, &public, &[22; 32], 3),
        Err(Error::RekeyIdRepeated)
    );
}
