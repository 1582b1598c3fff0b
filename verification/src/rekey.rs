//! An established session: its records, and the change of its keys from epoch to epoch.
use crate::wire::{
    append, be_bytes, be_bytes_length, be_limit, be_round_trip, be_value, get_array, get_u32,
    put_u32, same_bytes, text, text_of_ascii, u32_bytes,
};
use crate::crypto::{
    ct_eq, ed25519_sign, ed25519_signature, ed25519_verified, ed25519_verify, hmac_of, sha256,
    secret_is_shared, sha256_of, x25519_agree, x25519_public, x25519_public_key,
    x25519_random_secret, x25519_shared,
};
use crate::error::Error;
use crate::frame::{Frame, FrameModel, RecordKind};
use crate::kdf::{
    concat_parts, derived, expand_key, hash_parts, hmac_bytes, hmac_label, label_prefix_length,
    part_views, transcript_after, transcript_next,
};
use crate::keys::{epoch_context, epoch_context_bytes, epoch_keys, EpochKeys, EpochKeysModel};
use crate::record::{
    header_of, HeaderModel, LayerModel, ReceiverModel, RecordHeader, SenderModel,
    SessionRecordLayer, DEFAULT_REPLAY_WINDOW, MAX_RECORDS_PER_EPOCH,
};
use crate::secret::Secret;
use vstd::prelude::*;
use vstd::slice::slice_subrange;

verus! {

/// After how many nanoseconds an epoch is renewed.
pub const UPDATE_INTERVAL: u64 = 600_000_000_000;

/// After how many data records an epoch is renewed.
pub const UPDATE_RECORD_LIMIT: u64 = 1_048_576;

/// After how many bytes of data an epoch is renewed.
pub const UPDATE_BYTE_LIMIT: u64 = 1_073_741_824;

/// How many nanoseconds a key update may take.
pub const UPDATE_TIMEOUT: u64 = 10_000_000_000;

/// For how many nanoseconds the epoch before is still taken.
pub const OLD_EPOCH_GRACE: u64 = 3_000_000_000;

/// How many records of the epoch before are still taken.
pub const OLD_EPOCH_RECORDS: u16 = 128;

/// To which epoch of a session a record belongs.
#[derive(Clone, Copy, Debug, PartialEq, Eq, Structural)]
pub enum EpochPosition {
    Current,
    Pending,
    Previous,
}

/// An epoch as values.
#[verifier::ext_equal]
pub struct EpochModel {
    pub epoch: u32,
    pub secret: Seq<u8>,
    pub records: LayerModel,
}

impl EpochModel {
    /// An epoch that starts with the given secret.
    pub open spec fn starting(secret: Seq<u8>, session_id: Seq<u8>, epoch: u32) -> Self {
        EpochModel {
            epoch,
            secret,
            records: LayerModel::fresh(
                session_id,
                epoch,
                epoch_keys(secret, session_id, epoch),
                DEFAULT_REPLAY_WINDOW as nat,
            ),
        }
    }

    /// The receiving side of a stream.
    pub open spec fn receiver(self, kind: RecordKind) -> ReceiverModel {
        match kind {
            RecordKind::Data => self.records.c2s_data,
            RecordKind::Control => self.records.c2s_control,
        }
    }

    /// The epoch after its client sent a record.
    pub open spec fn after_open(self, kind: RecordKind, encoded: Seq<u8>) -> Self {
        EpochModel {
            records: match kind {
                RecordKind::Data => LayerModel {
                    c2s_data: self.records.c2s_data.after_open(encoded),
                    ..self.records
                },
                RecordKind::Control => LayerModel {
                    c2s_control: self.records.c2s_control.after_open(encoded),
                    ..self.records
                },
            },
            ..self
        }
    }

    /// The epoch after the server sealed a control record.
    pub open spec fn after_control(self, plaintext: Seq<u8>) -> Self {
        EpochModel {
            records: LayerModel {
                s2c_control: self.records.s2c_control.after_seal(plaintext),
                ..self.records
            },
            ..self
        }
    }

    /// The epoch after the server sealed a data record.
    pub open spec fn after_data(self, plaintext: Seq<u8>) -> Self {
        EpochModel {
            records: LayerModel {
                s2c_data: self.records.s2c_data.after_seal(plaintext),
                ..self.records
            },
            ..self
        }
    }
}

/// What the client must still prove before an epoch starts.
pub enum ProofModel {
    Routine { context: Seq<u8>, confirm_key: Seq<u8> },
    Full { context: Seq<u8>, confirm_key: Seq<u8>, rekey_id: Seq<u8> },
}

/// An epoch that is agreed on but has not started, as values.
pub struct PendingModel {
    pub state: EpochModel,
    pub evidence: ProofModel,
}

/// The epoch before the current one, as values.
#[verifier::ext_equal]
pub struct PreviousModel {
    pub state: EpochModel,
    pub expires_at: nat,
    pub remaining: u16,
}

impl PreviousModel {
    /// Whether records of this epoch are no longer taken.
    pub open spec fn over(self, now: u64) -> bool {
        self.remaining == 0 || now >= self.expires_at
    }
}

/// A session as values.
pub struct SessionModel {
    pub session_id: Seq<u8>,
    /// The hash of all control records that matter to the keys.
    pub transcript: Seq<u8>,
    pub current: EpochModel,
    pub pending: Option<PendingModel>,
    pub previous: Option<PreviousModel>,
    pub epoch_started: u64,
    pub data_records: u64,
    pub plaintext_bytes: u64,
    pub update_requested: bool,
    pub update_deadline: Option<nat>,
    /// The ids of the full rekeys that were completed.
    pub rekey_ids: Seq<Seq<u8>>,
}

/// A record that was opened, as values.
#[verifier::ext_equal]
pub struct OpenedModel {
    pub header: HeaderModel,
    pub plaintext: Seq<u8>,
    pub position: EpochPosition,
}

/// What the client authenticates when it asks for a routine key update.
pub open spec fn update_message(
    session_id: Seq<u8>,
    current_epoch: u32,
    next_epoch: u32,
    nonce: Seq<u8>,
    transcript: Seq<u8>,
) -> Seq<u8> {
    text("RekaSerdoba/1 epoch update") + session_id + be_bytes(current_epoch as nat, 4) + be_bytes(
        next_epoch as nat,
        4,
    ) + nonce + transcript
}

/// The key under which both sides confirm a routine key update.
pub open spec fn confirmation_key_of(secret: Seq<u8>, session_id: Seq<u8>, epoch: u32) -> Seq<u8> {
    derived(secret, text("epoch confirmation"), epoch_context(session_id, epoch), 32)
}

/// What a full rekey binds: its parties' session, epochs, id and client key.
pub open spec fn rekey_binding(
    label: Seq<u8>,
    session_id: Seq<u8>,
    current_epoch: u32,
    target_epoch: u32,
    rekey_id: Seq<u8>,
    client_ephemeral: Seq<u8>,
) -> Seq<u8> {
    label + session_id + be_bytes(current_epoch as nat, 4) + be_bytes(target_epoch as nat, 4)
        + rekey_id + client_ephemeral
}

/// A control frame without flags.
pub open spec fn control_frame(frame_type: u8, body: Seq<u8>) -> FrameModel {
    FrameModel { frame_type, flags: 0, body }
}

/// What the client is told when a new epoch has begun.
pub open spec fn done_frame(epoch: u32, confirm_key: Seq<u8>, context: Seq<u8>) -> FrameModel {
    control_frame(
        0x08,
        be_bytes(epoch as nat, 4) + hmac_of(confirm_key, text("server done") + context),
    )
}

/// What a new path is challenged with.
pub open spec fn challenge_frame(carrier_id: Seq<u8>, challenge: Seq<u8>) -> FrameModel {
    control_frame(0x0C, carrier_id + challenge)
}

impl PendingModel {
    /// What the client is told when this epoch has begun.
    pub open spec fn done(self) -> FrameModel {
        match self.evidence {
            ProofModel::Routine { context, confirm_key } => done_frame(
                self.state.epoch,
                confirm_key,
                context,
            ),
            ProofModel::Full { context, confirm_key, .. } => done_frame(
                self.state.epoch,
                confirm_key,
                context,
            ),
        }
    }
}

/// A control frame that this side seals into a record, which opens to the frame at the
/// other end.
pub open spec fn sends(sender: SenderModel, frame: FrameModel, record: Seq<u8>) -> bool {
    sender.makes(frame.encoded(), false, record)
}

impl SessionModel {
    /// A session that starts with epoch 0.
    pub open spec fn starting(
        session_id: Seq<u8>,
        epoch_secret: Seq<u8>,
        keys: EpochKeysModel,
        handshake_transcript: Seq<u8>,
        now: u64,
    ) -> Self {
        SessionModel {
            session_id,
            transcript: sha256_of(
                text("RekaSerdoba/1 control transcript") + handshake_transcript + session_id,
            ),
            current: EpochModel {
                epoch: 0,
                secret: epoch_secret,
                records: LayerModel::fresh(session_id, 0, keys, DEFAULT_REPLAY_WINDOW as nat),
            },
            pending: None,
            previous: None,
            epoch_started: now,
            data_records: 0,
            plaintext_bytes: 0,
            update_requested: false,
            update_deadline: None,
            rekey_ids: Seq::empty(),
        }
    }

    /// A pending epoch follows the current one and has sent nothing; the previous one
    /// came before it. A deadline is set exactly while an update is requested, as one is
    /// while an epoch is pending.
    pub open spec fn ordered(self) -> bool {
        &&& self.pending is Some ==> self.pending->Some_0.state.epoch == self.current.epoch + 1
            && self.pending->Some_0.state.records.s2c_control.next == 0
            && self.pending->Some_0.state.records.s2c_data.next == 0 && self.update_requested
        &&& self.previous is Some ==> self.previous->Some_0.state.epoch + 1 == self.current.epoch
            && self.previous->Some_0.remaining <= OLD_EPOCH_RECORDS
        &&& self.update_deadline is Some <==> self.update_requested
    }

    /// The session is in order, and its values have their lengths.
    pub open spec fn valid(self) -> bool {
        &&& self.session_id.len() == 16
        &&& self.transcript.len() == 32
        &&& self.ordered()
    }

    /// The answer to a request for a routine key update.
    pub open spec fn update_answer(self, body: Seq<u8>) -> FrameModel {
        let current = be_value(body.subrange(0, 4)) as u32;
        let next = be_value(body.subrange(4, 8)) as u32;
        let context = sha256_of(
            update_message(self.session_id, current, next, body.subrange(8, 40), self.transcript),
        );
        let secret = hmac_of(self.current.secret, context);
        let confirm_key = confirmation_key_of(secret, self.session_id, next);
        control_frame(
            0x06,
            be_bytes(next as nat, 4) + hmac_of(confirm_key, text("server ack") + context),
        )
    }

    /// The answer to a request for a full rekey, once that was heard.
    pub open spec fn full_rekey_answer(
        self,
        body: Seq<u8>,
        server_seed: Seq<u8>,
        server_secret: Seq<u8>,
    ) -> FrameModel {
        let current = be_value(body.subrange(0, 4)) as u32;
        let target = be_value(body.subrange(4, 8)) as u32;
        let rekey_id = body.subrange(8, 24);
        let server_ephemeral = x25519_public(server_secret);
        let server_input = sha256_of(
            rekey_binding(
                text("RekaSerdoba/1 full rekey server"),
                self.session_id,
                current,
                target,
                rekey_id,
                body.subrange(24, 56),
            ) + server_ephemeral + self.transcript,
        );
        control_frame(
            0x0A,
            be_bytes(current as nat, 4) + be_bytes(target as nat, 4) + rekey_id + server_ephemeral
                + ed25519_signature(server_seed, server_input),
        )
    }

    /// The request to renew the epoch.
    pub open spec fn update_request(self) -> FrameModel {
        control_frame(0x04, be_bytes(self.current.epoch as nat, 4))
    }

    /// Without the previous epoch, if its time is over.
    pub open spec fn without_expired(self, now: u64) -> Self {
        if self.previous is Some && self.previous->Some_0.over(now) {
            SessionModel { previous: None, ..self }
        } else {
            self
        }
    }

    /// With one more data record counted; a counter that is full stops the session.
    pub open spec fn counted(self, length: nat) -> (Self, Result<(), Error>) {
        if self.data_records == u64::MAX {
            (self, Err(Error::DataRecordCounterOverflow))
        } else {
            let counted = SessionModel { data_records: (self.data_records + 1) as u64, ..self };
            if self.plaintext_bytes + length > u64::MAX {
                (counted, Err(Error::PlaintextCounterOverflow))
            } else {
                (
                    SessionModel {
                        plaintext_bytes: (self.plaintext_bytes + length) as u64,
                        ..counted
                    },
                    Ok(()),
                )
            }
        }
    }

    /// What sealing a data record gives.
    pub open spec fn data_sealed(self, plaintext: Seq<u8>, padded: bool) -> (
        Self,
        Result<Seq<u8>, Error>,
    ) {
        match self.counted(plaintext.len()) {
            (counted, Err(error)) => (counted, Err(error)),
            (counted, Ok(_)) => (
                SessionModel { current: self.current.after_data(plaintext), ..counted },
                self.current.records.s2c_data.sealed(plaintext, padded),
            ),
        }
    }

    /// What sealing a control record gives.
    pub open spec fn control_sealed(self, plaintext: Seq<u8>, padded: bool) -> (
        Self,
        Result<Seq<u8>, Error>,
    ) {
        (
            SessionModel { current: self.current.after_control(plaintext), ..self },
            self.current.records.s2c_control.sealed(plaintext, padded),
        )
    }

    /// What a control frame of the server gives: the record enters the transcript.
    pub open spec fn frame_sent(self, frame: FrameModel) -> (Self, Result<Seq<u8>, Error>) {
        let (sealed, record) = self.control_sealed(frame.encoded(), false);
        match record {
            Err(error) => (sealed, Err(error)),
            Ok(bytes) => (
                SessionModel { transcript: transcript_after(self.transcript, bytes), ..sealed },
                Ok(bytes),
            ),
        }
    }

    /// With a record of the client in the transcript.
    pub open spec fn heard(self, encoded: Seq<u8>) -> Self {
        SessionModel { transcript: transcript_after(self.transcript, encoded), ..self }
    }

    /// What opening a record gives. A pending epoch takes control records only.
    pub open spec fn opened(self, encoded: Seq<u8>, now: u64) -> (
        Self,
        Result<OpenedModel, Error>,
    ) {
        let live = self.without_expired(now);
        match header_of(encoded) {
            Err(error) => (live, Err(error)),
            Ok(header) => if header.epoch == live.current.epoch {
                let after = SessionModel {
                    current: live.current.after_open(header.kind, encoded),
                    ..live
                };
                match live.current.receiver(header.kind).opened(encoded) {
                    Err(error) => (after, Err(error)),
                    Ok(plaintext) => {
                        let opened = OpenedModel {
                            header,
                            plaintext,
                            position: EpochPosition::Current,
                        };
                        if header.kind == RecordKind::Data {
                            match after.counted(plaintext.len()) {
                                (counted, Err(error)) => (counted, Err(error)),
                                (counted, Ok(_)) => (counted, Ok(opened)),
                            }
                        } else {
                            (after, Ok(opened))
                        }
                    },
                }
            } else if live.pending is Some && header.epoch == live.pending->Some_0.state.epoch {
                let pending = live.pending->Some_0;
                if header.kind != RecordKind::Control {
                    (live, Err(Error::PendingEpochControlOnly))
                } else {
                    let after = SessionModel {
                        pending: Some(
                            PendingModel {
                                state: pending.state.after_open(header.kind, encoded),
                                ..pending
                            },
                        ),
                        ..live
                    };
                    match pending.state.receiver(header.kind).opened(encoded) {
                        Err(error) => (after, Err(error)),
                        Ok(plaintext) => (
                            after,
                            Ok(
                                OpenedModel { header, plaintext, position: EpochPosition::Pending },
                            ),
                        ),
                    }
                }
            } else if live.previous is Some && header.epoch == live.previous->Some_0.state.epoch {
                let previous = live.previous->Some_0;
                let state = previous.state.after_open(header.kind, encoded);
                match previous.state.receiver(header.kind).opened(encoded) {
                    Err(error) => (
                        SessionModel {
                            previous: Some(PreviousModel { state, ..previous }),
                            ..live
                        },
                        Err(error),
                    ),
                    Ok(plaintext) => (
                        SessionModel {
                            previous: Some(
                                PreviousModel {
                                    state,
                                    remaining: (previous.remaining - 1) as u16,
                                    ..previous
                                },
                            ),
                            ..live
                        },
                        Ok(OpenedModel { header, plaintext, position: EpochPosition::Previous }),
                    ),
                }
            } else {
                (live, Err(Error::UnknownRecordEpoch))
            },
        }
    }

    /// What is wrong with the epochs that a client asks to change from and to.
    pub open spec fn epoch_problem(self, current: u32, next: u32, invalid: Error) -> Option<Error> {
        if current != self.current.epoch {
            Some(invalid)
        } else if current == u32::MAX {
            Some(Error::EpochOverflow)
        } else if next != current + 1 {
            Some(invalid)
        } else {
            None
        }
    }

    /// With an epoch that waits for the client's proof.
    pub open spec fn awaiting(self, pending: PendingModel, now: u64) -> Self {
        SessionModel {
            pending: Some(pending),
            update_requested: true,
            update_deadline: Some((now + UPDATE_TIMEOUT) as nat),
            ..self
        }
    }

    /// What a request for a routine key update gives.
    pub open spec fn update_init(self, encoded: Seq<u8>, body: Seq<u8>, now: u64) -> (
        Self,
        Result<Seq<u8>, Error>,
    ) {
        let current = be_value(body.subrange(0, 4)) as u32;
        let next = be_value(body.subrange(4, 8)) as u32;
        let message = update_message(
            self.session_id,
            current,
            next,
            body.subrange(8, 40),
            self.transcript,
        );
        let context = sha256_of(message);
        let secret = hmac_of(self.current.secret, context);
        let confirm_key = confirmation_key_of(secret, self.session_id, next);
        if body.len() != 72 || self.pending is Some {
            (self, Err(Error::InvalidOrConcurrentUpdate))
        } else if self.epoch_problem(current, next, Error::InvalidUpdateEpoch) is Some {
            (self, Err(self.epoch_problem(current, next, Error::InvalidUpdateEpoch)->Some_0))
        } else if body.subrange(40, 72) != hmac_of(self.current.secret, message) {
            (self, Err(Error::InvalidUpdateTag))
        } else {
            let (sent, answer) = self.heard(encoded).frame_sent(self.update_answer(body));
            match answer {
                Err(error) => (sent, Err(error)),
                Ok(record) => (
                    sent.awaiting(
                        PendingModel {
                            state: EpochModel::starting(secret, self.session_id, next),
                            evidence: ProofModel::Routine { context, confirm_key },
                        },
                        now,
                    ).without_expired(now),
                    Ok(record),
                ),
            }
        }
    }

    /// The pending epoch becomes the current one, the current one the previous.
    pub open spec fn switched(
        self,
        next: EpochModel,
        encoded: Seq<u8>,
        confirm_key: Seq<u8>,
        context: Seq<u8>,
        now: u64,
    ) -> (Self, Result<Seq<u8>, Error>) {
        let moved = SessionModel {
            current: next,
            pending: None,
            previous: Some(
                PreviousModel {
                    state: self.current,
                    expires_at: (now + OLD_EPOCH_GRACE) as nat,
                    remaining: OLD_EPOCH_RECORDS,
                },
            ),
            ..self.heard(encoded)
        };
        let (sent, answer) = moved.frame_sent(done_frame(next.epoch, confirm_key, context));
        match answer {
            Err(error) => (sent, Err(error)),
            Ok(record) => (
                SessionModel {
                    epoch_started: now,
                    data_records: 0,
                    plaintext_bytes: 0,
                    update_requested: false,
                    update_deadline: None,
                    ..sent
                },
                Ok(record),
            ),
        }
    }

    /// What the client's commitment to a routine key update gives.
    pub open spec fn update_commit(self, encoded: Seq<u8>, body: Seq<u8>, now: u64) -> (
        Self,
        Result<Seq<u8>, Error>,
    ) {
        if body.len() != 36 {
            (self, Err(Error::InvalidUpdateCommit))
        } else {
            match self.pending {
                None => (self, Err(Error::UpdateNotPending)),
                Some(pending) => if be_value(body.subrange(0, 4)) != pending.state.epoch {
                    (self, Err(Error::UpdateCommitEpochMismatch))
                } else {
                    match pending.evidence {
                        ProofModel::Routine { context, confirm_key } => if body.subrange(4, 36)
                            != hmac_of(confirm_key, text("client commit") + context) {
                            (self, Err(Error::InvalidUpdateCommitTag))
                        } else {
                            self.switched(pending.state, encoded, confirm_key, context, now)
                        },
                        ProofModel::Full { .. } => (self, Err(Error::RoutineUpdateNotPending)),
                    }
                },
            }
        }
    }

    /// What a request for a full rekey gives, once the server has drawn its secret.
    pub open spec fn full_rekey_init(
        self,
        encoded: Seq<u8>,
        body: Seq<u8>,
        client_key: Seq<u8>,
        server_seed: Seq<u8>,
        server_secret: Seq<u8>,
        now: u64,
    ) -> (Self, Result<Seq<u8>, Error>) {
        let current = be_value(body.subrange(0, 4)) as u32;
        let target = be_value(body.subrange(4, 8)) as u32;
        let rekey_id = body.subrange(8, 24);
        let client_ephemeral = body.subrange(24, 56);
        let client_signature = body.subrange(56, 120);
        let client_input = sha256_of(
            rekey_binding(
                text("RekaSerdoba/1 full rekey client"),
                self.session_id,
                current,
                target,
                rekey_id,
                client_ephemeral,
            ) + self.transcript,
        );
        if body.len() != 120 || self.pending is Some {
            (self, Err(Error::InvalidOrConcurrentFullRekey))
        } else if self.epoch_problem(current, target, Error::InvalidFullRekeyEpoch) is Some {
            (self, Err(self.epoch_problem(current, target, Error::InvalidFullRekeyEpoch)->Some_0))
        } else if self.rekey_ids.contains(rekey_id) {
            (self, Err(Error::RekeyIdRepeated))
        } else if !ed25519_verified(client_key, client_input, client_signature) {
            (self, Err(Error::InvalidFullRekeySignature))
        } else {
            let heard = self.heard(encoded);
            let server_ephemeral = x25519_public(server_secret);
            let server_input = sha256_of(
                rekey_binding(
                    text("RekaSerdoba/1 full rekey server"),
                    self.session_id,
                    current,
                    target,
                    rekey_id,
                    client_ephemeral,
                ) + server_ephemeral + heard.transcript,
            );
            let server_signature = ed25519_signature(server_seed, server_input);
            let (sent, answer) = heard.frame_sent(
                heard.full_rekey_answer(body, server_seed, server_secret),
            );
            let shared = x25519_shared(server_secret, client_ephemeral);
            match answer {
                Err(error) => (sent, Err(error)),
                Ok(record) => if shared == Seq::new(32, |i: int| 0u8) {
                    (sent, Err(Error::FullRekeyZeroSecret))
                } else {
                    let context = sha256_of(
                        rekey_binding(
                            text("RekaSerdoba/1 full rekey"),
                            self.session_id,
                            current,
                            target,
                            rekey_id,
                            client_ephemeral,
                        ) + server_ephemeral + client_signature + server_signature
                            + sent.transcript,
                    );
                    let secret = hmac_of(self.current.secret, shared + context);
                    (
                        sent.awaiting(
                            PendingModel {
                                state: EpochModel::starting(secret, self.session_id, target),
                                evidence: ProofModel::Full {
                                    context,
                                    confirm_key: derived(
                                        secret,
                                        text("full rekey confirm"),
                                        context,
                                        32,
                                    ),
                                    rekey_id,
                                },
                            },
                            now,
                        ),
                        Ok(record),
                    )
                },
            }
        }
    }

    /// What the client's confirmation of a full rekey gives. The id of a rekey that was
    /// completed is not taken again.
    pub open spec fn full_rekey_confirm(self, encoded: Seq<u8>, body: Seq<u8>, now: u64) -> (
        Self,
        Result<Seq<u8>, Error>,
    ) {
        if body.len() != 36 {
            (self, Err(Error::InvalidFullRekeyConfirmation))
        } else {
            match self.pending {
                None => (self, Err(Error::FullRekeyNotPending)),
                Some(pending) => if be_value(body.subrange(0, 4)) != pending.state.epoch {
                    (self, Err(Error::FullRekeyEpochMismatch))
                } else {
                    match pending.evidence {
                        ProofModel::Full { context, confirm_key, rekey_id } => if body.subrange(
                            4,
                            36,
                        ) != hmac_of(confirm_key, text("client confirm") + context) {
                            (self, Err(Error::InvalidFullRekeyTag))
                        } else {
                            (SessionModel {
                                rekey_ids: self.rekey_ids.push(rekey_id),
                                ..self
                            }).switched(pending.state, encoded, confirm_key, context, now)
                        },
                        ProofModel::Routine { .. } => (self, Err(Error::FullRekeyNotPending)),
                    }
                },
            }
        }
    }

    /// Whether the epoch is old, or has carried much.
    pub open spec fn update_due(self, now: u64) -> bool {
        ||| now >= self.epoch_started + UPDATE_INTERVAL
        ||| self.data_records >= UPDATE_RECORD_LIMIT
        ||| self.plaintext_bytes >= UPDATE_BYTE_LIMIT
    }

    /// What the check for a due key update gives: the request that is sent, if any.
    pub open spec fn update_checked(self, now: u64) -> (Self, Result<Option<Seq<u8>>, Error>) {
        if self.update_deadline is Some && now >= self.update_deadline->Some_0 {
            (self, Err(Error::UpdateTimedOut))
        } else if self.pending is Some || self.update_requested || !self.update_due(now) {
            (self, Ok(None))
        } else {
            let (sent, answer) = self.frame_sent(self.update_request());
            match answer {
                Err(error) => (sent, Err(error)),
                Ok(record) => (
                    SessionModel {
                        update_requested: true,
                        update_deadline: Some((now + UPDATE_TIMEOUT) as nat),
                        ..sent
                    },
                    Ok(Some(record)),
                ),
            }
        }
    }

    /// What challenging a new path gives: the record, and the answer that proves the
    /// path.
    pub open spec fn challenged(
        self,
        migration_secret: Seq<u8>,
        carrier_id: Seq<u8>,
        challenge: Seq<u8>,
    ) -> (Self, Result<(Seq<u8>, Seq<u8>), Error>) {
        if self.pending is Some {
            (self, Err(Error::MigrationDuringRekey))
        } else {
            let (sent, answer) = self.frame_sent(challenge_frame(carrier_id, challenge));
            match answer {
                Err(error) => (sent, Err(error)),
                Ok(record) => (
                    sent,
                    Ok(
                        (
                            record,
                            hmac_of(
                                migration_secret,
                                text("RekaSerdoba/1 path response") + self.session_id + carrier_id
                                    + challenge + sent.transcript,
                            ),
                        ),
                    ),
                ),
            }
        }
    }

    /// What the answer to a challenge gives.
    pub open spec fn path_answered(
        self,
        encoded: Seq<u8>,
        body: Seq<u8>,
        carrier_id: Seq<u8>,
        expected: Seq<u8>,
    ) -> (Self, Result<(), Error>) {
        if body.len() != 48 || body.subrange(0, 16) != carrier_id || body.subrange(16, 48)
            != expected {
            (self, Err(Error::InvalidPathResponse))
        } else {
            (self.heard(encoded), Ok(()))
        }
    }

    /// The moment of the next check for a due key update.
    pub open spec fn next_check(self, now: u64) -> nat {
        match self.update_deadline {
            Some(deadline) => deadline,
            None => if self.pending is Some || self.update_requested {
                (now + UPDATE_TIMEOUT) as nat
            } else {
                (self.epoch_started + UPDATE_INTERVAL) as nat
            },
        }
    }
}

/// A pending epoch takes no data: such a record is refused and changes nothing.
pub proof fn pending_epoch_takes_no_data(session: SessionModel, encoded: Seq<u8>, now: u64)
    requires
        session.valid(),
        session.pending is Some,
        header_of(encoded) is Ok,
        header_of(encoded)->Ok_0.epoch == session.pending->Some_0.state.epoch,
        header_of(encoded)->Ok_0.kind == RecordKind::Data,
    ensures
        session.opened(encoded, now) == (
            session.without_expired(now),
            Err::<OpenedModel, Error>(Error::PendingEpochControlOnly),
        ),
{
}

/// Epochs follow each other: a change of keys that succeeds raises the epoch by one,
/// starts its counters anew and keeps the old epoch for three seconds; one that is
/// refused for its content changes nothing.
pub proof fn epochs_follow_each_other(
    session: SessionModel,
    encoded: Seq<u8>,
    body: Seq<u8>,
    now: u64,
)
    requires
        session.valid(),
    ensures
        ({
            let (after, answer) = session.update_commit(encoded, body, now);
            &&& answer is Ok ==> after.current.epoch == session.current.epoch + 1
                && after.pending is None && after.data_records == 0 && after.plaintext_bytes == 0
                && after.previous == Some(
                PreviousModel {
                    state: session.current,
                    expires_at: (now + OLD_EPOCH_GRACE) as nat,
                    remaining: OLD_EPOCH_RECORDS,
                },
            )
            &&& answer is Err ==> after == session || answer->Err_0 == Error::RecordLimitReached
                || answer->Err_0 == Error::RecordPlaintextTooLarge
        }),
        ({
            let (after, answer) = session.full_rekey_confirm(encoded, body, now);
            &&& answer is Ok ==> after.current.epoch == session.current.epoch + 1
                && after.pending is None && after.data_records == 0 && after.plaintext_bytes == 0
                && after.previous == Some(
                PreviousModel {
                    state: session.current,
                    expires_at: (now + OLD_EPOCH_GRACE) as nat,
                    remaining: OLD_EPOCH_RECORDS,
                },
            )
            &&& answer is Err ==> after == session || answer->Err_0 == Error::RecordLimitReached
                || answer->Err_0 == Error::RecordPlaintextTooLarge
        }),
{
}

/// While a change of keys is pending, another one is refused, and so is a change of
/// the path; nothing changes.
pub proof fn nothing_else_starts_during_a_rekey(
    session: SessionModel,
    encoded: Seq<u8>,
    body: Seq<u8>,
    client_key: Seq<u8>,
    server_seed: Seq<u8>,
    server_secret: Seq<u8>,
    migration_secret: Seq<u8>,
    carrier_id: Seq<u8>,
    challenge: Seq<u8>,
    now: u64,
)
    requires
        session.pending is Some,
    ensures
        session.update_init(encoded, body, now) == (
            session,
            Err::<Seq<u8>, Error>(Error::InvalidOrConcurrentUpdate),
        ),
        session.full_rekey_init(encoded, body, client_key, server_seed, server_secret, now) == (
            session,
            Err::<Seq<u8>, Error>(Error::InvalidOrConcurrentFullRekey),
        ),
        session.challenged(migration_secret, carrier_id, challenge) == (
            session,
            Err::<(Seq<u8>, Seq<u8>), Error>(Error::MigrationDuringRekey),
        ),
{
}

/// A key update that the client does not complete within ten seconds ends the
/// session.
pub proof fn stalled_update_times_out(session: SessionModel, now: u64, later: u64)
    requires
        session.update_checked(now).1 is Ok,
        session.update_checked(now).1->Ok_0 is Some,
        later >= now + UPDATE_TIMEOUT,
    ensures
        session.update_checked(now).0.update_checked(later).1 == Err::<Option<Seq<u8>>, Error>(
            Error::UpdateTimedOut,
        ),
{
}

/// The tag that a challenge asks for is taken as its answer.
pub proof fn right_answer_proves_the_path(
    session: SessionModel,
    migration_secret: Seq<u8>,
    carrier_id: Seq<u8>,
    challenge: Seq<u8>,
    encoded: Seq<u8>,
)
    requires
        carrier_id.len() == 16,
        session.challenged(migration_secret, carrier_id, challenge).1 is Ok,
        session.challenged(migration_secret, carrier_id, challenge).1->Ok_0.1.len() == 32,
    ensures
        ({
            let (sent, answer) = session.challenged(migration_secret, carrier_id, challenge);
            let expected = answer->Ok_0.1;
            sent.path_answered(encoded, carrier_id + expected, carrier_id, expected) == (
                sent.heard(encoded),
                Ok::<(), Error>(()),
            )
        }),
{
    let expected = session.challenged(migration_secret, carrier_id, challenge).1->Ok_0.1;
    let body = carrier_id + expected;
    assert(body.subrange(0, 16) =~= carrier_id);
    assert(body.subrange(16, 48) =~= expected);
}

/// A session that moves to another carrier keeps its packet numbers: neither a challenge
/// nor its answer touches the data records of the epoch, and only the challenge itself
/// takes a number of the control records.
pub proof fn moving_keeps_packet_numbers(
    session: SessionModel,
    migration_secret: Seq<u8>,
    carrier_id: Seq<u8>,
    challenge: Seq<u8>,
    encoded: Seq<u8>,
    body: Seq<u8>,
    expected: Seq<u8>,
)
    ensures
        ({
            let asked = session.challenged(migration_secret, carrier_id, challenge).0;
            let answered = asked.path_answered(encoded, body, carrier_id, expected).0;
            &&& asked.current.records.s2c_data == session.current.records.s2c_data
            &&& asked.current.records.c2s_data == session.current.records.c2s_data
            &&& asked.current.records.c2s_control == session.current.records.c2s_control
            &&& asked.current.records.s2c_control == session.current.records.s2c_control
                || asked.current.records.s2c_control
                == session.current.records.s2c_control.after_seal(
                challenge_frame(carrier_id, challenge).encoded(),
            )
            &&& asked.current.epoch == session.current.epoch
            &&& answered.current == asked.current
            &&& answered.pending == session.pending
            &&& answered.previous == session.previous
        }),
{
}

/// A routine key update completes: where the client authenticates its request with
/// the secret of the epoch, and then its commitment with the key that follows from
/// it, both are taken, and the session goes on with the keys of the next epoch.
pub proof fn routine_update_completes(
    session: SessionModel,
    nonce: Seq<u8>,
    init: Seq<u8>,
    commit: Seq<u8>,
    now: u64,
    later: u64,
)
    requires
        session.valid(),
        session.pending is None,
        session.current.epoch < u32::MAX,
        session.current.records.s2c_control.next < MAX_RECORDS_PER_EPOCH,
        nonce.len() == 32,
        ({
            let epoch = session.current.epoch;
            let next = (epoch + 1) as u32;
            let message = update_message(
                session.session_id,
                epoch,
                next,
                nonce,
                session.transcript,
            );
            let context = sha256_of(message);
            let secret = hmac_of(session.current.secret, context);
            let confirm_key = confirmation_key_of(secret, session.session_id, next);
            &&& hmac_of(session.current.secret, message).len() == 32
            &&& hmac_of(confirm_key, text("server ack") + context).len() == 32
            &&& hmac_of(confirm_key, text("client commit") + context).len() == 32
            &&& hmac_of(confirm_key, text("server done") + context).len() == 32
        }),
    ensures
        ({
            let epoch = session.current.epoch;
            let next = (epoch + 1) as u32;
            let message = update_message(
                session.session_id,
                epoch,
                next,
                nonce,
                session.transcript,
            );
            let context = sha256_of(message);
            let secret = hmac_of(session.current.secret, context);
            let confirm_key = confirmation_key_of(secret, session.session_id, next);
            let (asked, ack) = session.update_init(
                init,
                be_bytes(epoch as nat, 4) + be_bytes(next as nat, 4) + nonce + hmac_of(
                    session.current.secret,
                    message,
                ),
                now,
            );
            let (moved, done) = asked.update_commit(
                commit,
                be_bytes(next as nat, 4) + hmac_of(confirm_key, text("client commit") + context),
                later,
            );
            &&& ack is Ok
            &&& done is Ok
            &&& moved.current.epoch == next
            &&& moved.current.secret == secret
            &&& moved.current.records.c2s_data == EpochModel::starting(
                secret,
                session.session_id,
                next,
            ).records.c2s_data
            &&& moved.current.records.c2s_control == EpochModel::starting(
                secret,
                session.session_id,
                next,
            ).records.c2s_control
            &&& moved.pending is None
        }),
{
    let epoch = session.current.epoch;
    let next = (epoch + 1) as u32;
    let message = update_message(session.session_id, epoch, next, nonce, session.transcript);
    let context = sha256_of(message);
    let secret = hmac_of(session.current.secret, context);
    let confirm_key = confirmation_key_of(secret, session.session_id, next);
    let tag = hmac_of(session.current.secret, message);
    let body = be_bytes(epoch as nat, 4) + be_bytes(next as nat, 4) + nonce + tag;
    lemma_u32(epoch);
    lemma_u32(next);
    assert(body.subrange(0, 4) =~= be_bytes(epoch as nat, 4));
    assert(body.subrange(4, 8) =~= be_bytes(next as nat, 4));
    assert(body.subrange(8, 40) =~= nonce);
    assert(body.subrange(40, 72) =~= tag);
    let ack_body = be_bytes(next as nat, 4) + hmac_of(confirm_key, text("server ack") + context);
    be_bytes_length(ack_body.len(), 2);
    let commit_body = be_bytes(next as nat, 4) + hmac_of(
        confirm_key,
        text("client commit") + context,
    );
    assert(commit_body.subrange(0, 4) =~= be_bytes(next as nat, 4));
    assert(commit_body.subrange(4, 36) =~= hmac_of(confirm_key, text("client commit") + context));
    let done_body = be_bytes(next as nat, 4) + hmac_of(confirm_key, text("server done") + context);
    be_bytes_length(done_body.len(), 2);
}

/// A 32-bit number comes back from its encoding.
proof fn lemma_u32(value: u32)
    ensures
        be_bytes(value as nat, 4).len() == 4,
        be_value(be_bytes(value as nat, 4)) == value,
{
    be_bytes_length(value as nat, 4);
    reveal_with_fuel(be_limit, 5);
    be_round_trip(value as nat, 4);
}

/// A full rekey completes: where the client signs its request, both exchange fresh
/// keys that agree on a secret, and the client confirms with the key that follows
/// from it, the session goes on with the keys of the next epoch.
pub proof fn full_rekey_completes(
    session: SessionModel,
    init: Seq<u8>,
    init_body: Seq<u8>,
    client_key: Seq<u8>,
    server_seed: Seq<u8>,
    server_secret: Seq<u8>,
    confirmation: Seq<u8>,
    now: u64,
    later: u64,
)
    requires
        session.valid(),
        session.full_rekey_init(init, init_body, client_key, server_seed, server_secret, now).1
            is Ok,
        ({
            let pending = session.full_rekey_init(
                init,
                init_body,
                client_key,
                server_seed,
                server_secret,
                now,
            ).0.pending->Some_0;
            let confirm_key = pending.evidence->Full_confirm_key;
            let context = pending.evidence->Full_context;
            &&& hmac_of(confirm_key, text("client confirm") + context).len() == 32
            &&& hmac_of(confirm_key, text("server done") + context).len() == 32
        }),
    ensures
        ({
            let asked = session.full_rekey_init(
                init,
                init_body,
                client_key,
                server_seed,
                server_secret,
                now,
            ).0;
            let next = (session.current.epoch + 1) as u32;
            let pending = asked.pending->Some_0;
            let confirm_key = pending.evidence->Full_confirm_key;
            let context = pending.evidence->Full_context;
            let (moved, done) = asked.full_rekey_confirm(
                confirmation,
                be_bytes(next as nat, 4) + hmac_of(confirm_key, text("client confirm") + context),
                later,
            );
            &&& asked.pending is Some
            &&& pending.evidence is Full
            &&& pending.state == EpochModel::starting(
                pending.state.secret,
                session.session_id,
                next,
            )
            &&& done is Ok
            &&& moved.current.epoch == next
            &&& moved.current.secret == pending.state.secret
            &&& moved.current.records.c2s_data == pending.state.records.c2s_data
            &&& moved.current.records.c2s_control == pending.state.records.c2s_control
            &&& moved.pending is None
        }),
{
    let asked = session.full_rekey_init(
        init,
        init_body,
        client_key,
        server_seed,
        server_secret,
        now,
    ).0;
    let next = (session.current.epoch + 1) as u32;
    let pending = asked.pending->Some_0;
    let confirm_key = pending.evidence->Full_confirm_key;
    let context = pending.evidence->Full_context;
    lemma_u32(next);
    let body = be_bytes(next as nat, 4) + hmac_of(confirm_key, text("client confirm") + context);
    assert(body.subrange(0, 4) =~= be_bytes(next as nat, 4));
    assert(body.subrange(4, 36) =~= hmac_of(confirm_key, text("client confirm") + context));
    let done_body = be_bytes(next as nat, 4) + hmac_of(confirm_key, text("server done") + context);
    be_bytes_length(done_body.len(), 2);
}

/// A record that was opened.
pub struct OpenedRecord {
    pub header: RecordHeader,
    pub plaintext: Vec<u8>,
    pub position: EpochPosition,
}

impl View for OpenedRecord {
    type V = OpenedModel;

    open spec fn view(&self) -> OpenedModel {
        OpenedModel {
            header: self.header@,
            plaintext: self.plaintext@,
            position: self.position,
        }
    }
}

/// One epoch of a session.
struct EpochState {
    epoch: u32,
    secret: Secret,
    records: SessionRecordLayer,
}

impl View for EpochState {
    type V = EpochModel;

    closed spec fn view(&self) -> EpochModel {
        EpochModel { epoch: self.epoch, secret: self.secret@, records: self.records@ }
    }
}

/// What the client must still prove before an epoch starts.
enum PendingProof {
    Routine { context: [u8; 32], confirm_key: Secret },
    Full { context: [u8; 32], confirm_key: Secret, rekey_id: [u8; 16] },
}

impl View for PendingProof {
    type V = ProofModel;

    closed spec fn view(&self) -> ProofModel {
        match self {
            PendingProof::Routine { context, confirm_key } => ProofModel::Routine {
                context: context@,
                confirm_key: confirm_key@,
            },
            PendingProof::Full { context, confirm_key, rekey_id } => ProofModel::Full {
                context: context@,
                confirm_key: confirm_key@,
                rekey_id: rekey_id@,
            },
        }
    }
}

/// An epoch that is agreed on but has not started.
struct PendingEpoch {
    state: EpochState,
    evidence: PendingProof,
}

/// The epoch before the current one.
struct PreviousEpoch {
    state: EpochState,
    expires_at: u128,
    remaining_records: u16,
}

/// Ids as values.
spec fn id_views(ids: Seq<[u8; 16]>) -> Seq<Seq<u8>> {
    Seq::new(ids.len(), |i: int| ids[i]@)
}

/// The server's side of an established session.
pub struct RekeySession {
    session_id: [u8; 16],
    transcript: [u8; 32],
    current: EpochState,
    pending: Option<PendingEpoch>,
    previous: Option<PreviousEpoch>,
    epoch_started: u64,
    data_records: u64,
    plaintext_bytes: u64,
    update_requested: bool,
    update_deadline: Option<u128>,
    rekey_ids: Vec<[u8; 16]>,
}

impl View for RekeySession {
    type V = SessionModel;

    closed spec fn view(&self) -> SessionModel {
        SessionModel {
            session_id: self.session_id@,
            transcript: self.transcript@,
            current: self.current@,
            pending: match self.pending {
                None => None,
                Some(pending) => Some(
                    PendingModel { state: pending.state@, evidence: pending.evidence@ },
                ),
            },
            previous: match self.previous {
                None => None,
                Some(previous) => Some(
                    PreviousModel {
                        state: previous.state@,
                        expires_at: previous.expires_at as nat,
                        remaining: previous.remaining_records,
                    },
                ),
            },
            epoch_started: self.epoch_started,
            data_records: self.data_records,
            plaintext_bytes: self.plaintext_bytes,
            update_requested: self.update_requested,
            update_deadline: match self.update_deadline {
                None => None,
                Some(deadline) => Some(deadline as nat),
            },
            rekey_ids: id_views(self.rekey_ids@),
        }
    }
}

/// Authenticates the parameters of a routine key update.
pub fn update_input(
    session_id: [u8; 16],
    current_epoch: u32,
    next_epoch: u32,
    nonce: [u8; 32],
    transcript: [u8; 32],
) -> (input: Vec<u8>)
    ensures
        input@ == update_message(session_id@, current_epoch, next_epoch, nonce@, transcript@),
{
    let mut input: Vec<u8> = Vec::new();
    append(&mut input, "RekaSerdoba/1 epoch update".as_bytes());
    append(&mut input, &session_id);
    put_u32(&mut input, current_epoch);
    put_u32(&mut input, next_epoch);
    append(&mut input, &nonce);
    append(&mut input, &transcript);
    assert(input@ =~= update_message(
        session_id@,
        current_epoch,
        next_epoch,
        nonce@,
        transcript@,
    ));
    input
}

/// Derives the key under which a routine key update is confirmed.
pub fn confirmation_key(secret: [u8; 32], session_id: [u8; 16], epoch: u32) -> (key: Result<
    [u8; 32],
    Error,
>)
    ensures
        key is Ok,
        key->Ok_0@ == confirmation_key_of(secret@, session_id@, epoch),
{
    let context = epoch_context_bytes(&session_id, epoch);
    proof {
        label_prefix_length();
        reveal_strlit("epoch confirmation");
        text_of_ascii("epoch confirmation");
    }
    expand_key(&secret, "epoch confirmation".as_bytes(), &context)
}

/// The hash of what a full rekey binds, and of what is added to it.
fn hash_rekey(
    label: &[u8],
    session_id: &[u8; 16],
    current_epoch: u32,
    target_epoch: u32,
    rekey_id: &[u8; 16],
    client_ephemeral: &[u8; 32],
    added: &[u8],
) -> (digest: [u8; 32])
    ensures
        digest@ == sha256_of(
            rekey_binding(
                label@,
                session_id@,
                current_epoch,
                target_epoch,
                rekey_id@,
                client_ephemeral@,
            ) + added@,
        ),
{
    let current = u32_bytes(current_epoch);
    let target = u32_bytes(target_epoch);
    let parts: [&[u8]; 7] = [
        label,
        session_id,
        &current,
        &target,
        rekey_id,
        client_ephemeral,
        added,
    ];
    proof {
        reveal_with_fuel(concat_parts, 8);
        assert(concat_parts(part_views(parts@)) =~= rekey_binding(
            label@,
            session_id@,
            current_epoch,
            target_epoch,
            rekey_id@,
            client_ephemeral@,
        ) + added@);
    }
    hash_parts(&parts)
}

impl EpochState {
    spec fn wf(&self) -> bool {
        self.records.wf()
    }

    /// Opens a record of this epoch.
    fn open(&mut self, kind: RecordKind, encoded: &[u8]) -> (plaintext: Result<Vec<u8>, Error>)
        requires
            old(self).wf(),
        ensures
            final(self).wf(),
            final(self)@ == old(self)@.after_open(kind, encoded@),
            match plaintext {
                Ok(bytes) => old(self)@.receiver(kind).opened(encoded@) == Ok::<Seq<u8>, Error>(
                    bytes@,
                ),
                Err(error) => old(self)@.receiver(kind).opened(encoded@) == Err::<Seq<u8>, Error>(
                    error,
                ),
            },
    {
        match kind {
            RecordKind::Data => self.records.c2s_data.open(encoded),
            RecordKind::Control => self.records.c2s_control.open(encoded),
        }
    }
}

impl RekeySession {
    /// Every epoch's record protection is well formed, and the epochs follow each other.
    pub closed spec fn wf(&self) -> bool {
        &&& self.current.wf()
        &&& self.pending is Some ==> self.pending->Some_0.state.wf()
        &&& self.previous is Some ==> self.previous->Some_0.state.wf()
        &&& self@.valid()
    }

    /// A session that starts with epoch 0.
    pub fn new(
        session_id: [u8; 16],
        epoch_secret: Secret,
        keys: EpochKeys,
        handshake_transcript: [u8; 32],
        now: u64,
    ) -> (session: Result<Self, Error>)
        ensures
            session is Ok,
            session->Ok_0.wf(),
            session->Ok_0@.valid(),
            session->Ok_0@ == SessionModel::starting(
                session_id@,
                epoch_secret@,
                keys@,
                handshake_transcript@,
                now,
            ),
    {
        let parts: [&[u8]; 3] = [
            "RekaSerdoba/1 control transcript".as_bytes(),
            &handshake_transcript,
            &session_id,
        ];
        proof {
            reveal_with_fuel(concat_parts, 4);
            assert(concat_parts(part_views(parts@)) =~= text("RekaSerdoba/1 control transcript")
                + handshake_transcript@ + session_id@);
        }
        let transcript: [u8; 32] = hash_parts(&parts);
        let session = RekeySession {
            session_id,
            transcript,
            current: EpochState {
                epoch: 0,
                secret: epoch_secret,
                records: SessionRecordLayer::new(session_id, 0, keys, DEFAULT_REPLAY_WINDOW)?,
            },
            pending: None,
            previous: None,
            epoch_started: now,
            data_records: 0,
            plaintext_bytes: 0,
            update_requested: false,
            update_deadline: None,
            rekey_ids: Vec::new(),
        };
        assert(session@.rekey_ids =~= Seq::empty());
        Ok(session)
    }

    /// The hash of the control records that matter to the keys.
    pub fn transcript(&self) -> (transcript: &[u8; 32])
        ensures
            transcript@ == self@.transcript,
    {
        &self.transcript
    }

    /// Seals a data record.
    pub fn seal_data(&mut self, plaintext: &[u8], padded: bool) -> (record: Result<Vec<u8>, Error>)
        requires
            old(self).wf(),
        ensures
            final(self).wf(),
            final(self)@ == old(self)@.data_sealed(plaintext@, padded).0,
            match record {
                Ok(bytes) => old(self)@.data_sealed(plaintext@, padded).1 == Ok::<Seq<u8>, Error>(
                    bytes@,
                ) && old(self)@.current.records.s2c_data.makes(plaintext@, padded, bytes@),
                Err(error) => old(self)@.data_sealed(plaintext@, padded).1 == Err::<
                    Seq<u8>,
                    Error,
                >(error),
            },
    {
        self.count_data(plaintext.len())?;
        self.current.records.s2c_data.seal(plaintext, padded)
    }

    /// Seals a control record.
    pub fn seal_control(&mut self, plaintext: &[u8], padded: bool) -> (record: Result<
        Vec<u8>,
        Error,
    >)
        requires
            old(self).wf(),
        ensures
            final(self).wf(),
            final(self)@ == old(self)@.control_sealed(plaintext@, padded).0,
            match record {
                Ok(bytes) => old(self)@.control_sealed(plaintext@, padded).1 == Ok::<
                    Seq<u8>,
                    Error,
                >(bytes@) && old(self)@.current.records.s2c_control.makes(
                    plaintext@,
                    padded,
                    bytes@,
                ),
                Err(error) => old(self)@.control_sealed(plaintext@, padded).1 == Err::<
                    Seq<u8>,
                    Error,
                >(error),
            },
    {
        self.current.records.s2c_control.seal(plaintext, padded)
    }

    /// Seals a control frame and adds the record to the transcript.
    fn send_frame(&mut self, frame_type: u8, body: Vec<u8>) -> (record: Result<Vec<u8>, Error>)
        requires
            old(self).wf(),
            body@.len() <= 0xffff,
        ensures
            final(self).wf(),
            final(self)@ == old(self)@.frame_sent(control_frame(frame_type, body@)).0,
            match record {
                Ok(bytes) => old(self)@.frame_sent(control_frame(frame_type, body@)).1 == Ok::<
                    Seq<u8>,
                    Error,
                >(bytes@) && sends(
                    old(self)@.current.records.s2c_control,
                    control_frame(frame_type, body@),
                    bytes@,
                ),
                Err(error) => old(self)@.frame_sent(control_frame(frame_type, body@)).1 == Err::<
                    Seq<u8>,
                    Error,
                >(error),
            },
    {
        let frame = Frame { frame_type, flags: 0, body };
        let encoded = frame.encode()?;
        let record = self.seal_control(&encoded, false)?;
        self.transcript = transcript_next(&self.transcript, &record);
        Ok(record)
    }

    /// Opens a record of the current, the pending or the previous epoch.
    #[verifier::rlimit(60)]
    #[verifier::spinoff_prover]
    pub fn open(&mut self, encoded: &[u8], now: u64) -> (opened: Result<OpenedRecord, Error>)
        requires
            old(self).wf(),
        ensures
            final(self).wf(),
            final(self)@ == old(self)@.opened(encoded@, now).0,
            match opened {
                Ok(record) => old(self)@.opened(encoded@, now).1 == Ok::<OpenedModel, Error>(
                    record@,
                ),
                Err(error) => old(self)@.opened(encoded@, now).1 == Err::<OpenedModel, Error>(
                    error,
                ),
            },
    {
        self.expire_previous(now);
        let header = RecordHeader::parse(encoded)?;
        if header.epoch == self.current.epoch {
            let plaintext = self.current.open(header.kind, encoded)?;
            if header.kind == RecordKind::Data {
                self.count_data(plaintext.len())?;
            }
            return Ok(OpenedRecord { header, plaintext, position: EpochPosition::Current });
        }
        if let Some(pending) = self.pending.as_mut() {
            if header.epoch == pending.state.epoch {
                if header.kind != RecordKind::Control {
                    return Err(Error::PendingEpochControlOnly);
                }
                let plaintext = pending.state.open(header.kind, encoded)?;
                return Ok(OpenedRecord { header, plaintext, position: EpochPosition::Pending });
            }
        }
        if let Some(previous) = self.previous.as_mut() {
            if header.epoch == previous.state.epoch {
                let plaintext = previous.state.open(header.kind, encoded)?;
                previous.remaining_records = previous.remaining_records - 1;
                return Ok(OpenedRecord { header, plaintext, position: EpochPosition::Previous });
            }
        }
        Err(Error::UnknownRecordEpoch)
    }

    /// Takes a client's request for a routine key update, and answers it.
    #[verifier::rlimit(60)]
    #[verifier::spinoff_prover]
    pub fn accept_update_init(&mut self, encoded: &[u8], body: &[u8], now: u64) -> (answer: Result<
        Vec<u8>,
        Error,
    >)
        requires
            old(self).wf(),
        ensures
            final(self).wf(),
            final(self)@ == old(self)@.update_init(encoded@, body@, now).0,
            match answer {
                Ok(record) => old(self)@.update_init(encoded@, body@, now).1 == Ok::<
                    Seq<u8>,
                    Error,
                >(record@) && sends(
                    old(self)@.current.records.s2c_control,
                    old(self)@.update_answer(body@),
                    record@,
                ),
                Err(error) => old(self)@.update_init(encoded@, body@, now).1 == Err::<
                    Seq<u8>,
                    Error,
                >(error),
            },
    {
        if body.len() != 72 || self.pending.is_some() {
            return Err(Error::InvalidOrConcurrentUpdate);
        }
        let current_epoch: u32 = get_u32(body, 0);
        let next_epoch: u32 = get_u32(body, 4);
        let update_nonce: [u8; 32] = get_array(body, 8);
        let received_tag: [u8; 32] = get_array(body, 40);
        if current_epoch != self.current.epoch {
            return Err(Error::InvalidUpdateEpoch);
        }
        if current_epoch == u32::MAX {
            return Err(Error::EpochOverflow);
        }
        if next_epoch != current_epoch + 1 {
            return Err(Error::InvalidUpdateEpoch);
        }
        let input = update_input(
            self.session_id,
            current_epoch,
            next_epoch,
            update_nonce,
            self.transcript,
        );
        let expected_tag: [u8; 32] = hmac_bytes(self.current.secret.expose(), &input);
        if !ct_eq(&received_tag, &expected_tag) {
            return Err(Error::InvalidUpdateTag);
        }
        let context: [u8; 32] = sha256(&input);
        let next_secret: [u8; 32] = hmac_bytes(self.current.secret.expose(), &context);
        let keys = EpochKeys::derive(next_secret, self.session_id, next_epoch)?;
        let confirm_key: [u8; 32] = confirmation_key(next_secret, self.session_id, next_epoch)?;
        self.transcript = transcript_next(&self.transcript, encoded);
        let ack: [u8; 32] = hmac_label(&confirm_key, "server ack".as_bytes(), &context);
        let mut ack_body: Vec<u8> = u32_bytes(next_epoch);
        append(&mut ack_body, &ack);
        let ack_record = self.send_frame(0x06, ack_body)?;
        let records = SessionRecordLayer::new(
            self.session_id,
            next_epoch,
            keys,
            DEFAULT_REPLAY_WINDOW,
        )?;
        self.pending = Some(
            PendingEpoch {
                state: EpochState { epoch: next_epoch, secret: Secret::new(next_secret), records },
                evidence: PendingProof::Routine { context, confirm_key: Secret::new(confirm_key) },
            },
        );
        self.update_requested = true;
        self.update_deadline = Some(now as u128 + UPDATE_TIMEOUT as u128);
        self.expire_previous(now);
        Ok(ack_record)
    }

    /// Moves on to the epoch that was pending and tells the client.
    fn switch(
        &mut self,
        next: EpochState,
        encoded: &[u8],
        confirm_key: &Secret,
        context: &[u8; 32],
        now: u64,
    ) -> (answer: Result<Vec<u8>, Error>)
        requires
            old(self).wf(),
            old(self).pending is None,
            next.wf(),
            next@.epoch == old(self)@.current.epoch + 1,
        ensures
            final(self).wf(),
            final(self)@ == old(self)@.switched(
                next@,
                encoded@,
                confirm_key@,
                context@,
                now,
            ).0,
            match answer {
                Ok(record) => old(self)@.switched(
                    next@,
                    encoded@,
                    confirm_key@,
                    context@,
                    now,
                ).1 == Ok::<Seq<u8>, Error>(record@) && sends(
                    next@.records.s2c_control,
                    done_frame(next@.epoch, confirm_key@, context@),
                    record@,
                ),
                Err(error) => old(self)@.switched(
                    next@,
                    encoded@,
                    confirm_key@,
                    context@,
                    now,
                ).1 == Err::<Seq<u8>, Error>(error),
            },
    {
        self.transcript = transcript_next(&self.transcript, encoded);
        let done: [u8; 32] = hmac_label(
            confirm_key.expose(),
            "server done".as_bytes(),
            context,
        );
        let epoch: u32 = next.epoch;
        let mut other = next;
        std::mem::swap(&mut self.current, &mut other);
        self.previous = Some(
            PreviousEpoch {
                state: other,
                expires_at: now as u128 + OLD_EPOCH_GRACE as u128,
                remaining_records: OLD_EPOCH_RECORDS,
            },
        );
        let mut done_body: Vec<u8> = u32_bytes(epoch);
        append(&mut done_body, &done);
        let done_record = self.send_frame(0x08, done_body)?;
        self.epoch_started = now;
        self.data_records = 0;
        self.plaintext_bytes = 0;
        self.update_requested = false;
        self.update_deadline = None;
        Ok(done_record)
    }

    /// Takes a client's commitment to a routine key update: the new epoch starts.
    #[verifier::rlimit(60)]
    #[verifier::spinoff_prover]
    pub fn accept_update_commit(
        &mut self,
        encoded: &[u8],
        body: &[u8],
        now: u64,
    ) -> (answer: Result<Vec<u8>, Error>)
        requires
            old(self).wf(),
        ensures
            final(self).wf(),
            final(self)@ == old(self)@.update_commit(encoded@, body@, now).0,
            match answer {
                Ok(record) => old(self)@.update_commit(encoded@, body@, now).1 == Ok::<
                    Seq<u8>,
                    Error,
                >(record@) && sends(
                    old(self)@.pending->Some_0.state.records.s2c_control,
                    old(self)@.pending->Some_0.done(),
                    record@,
                ),
                Err(error) => old(self)@.update_commit(encoded@, body@, now).1 == Err::<
                    Seq<u8>,
                    Error,
                >(error),
            },
    {
        if body.len() != 36 {
            return Err(Error::InvalidUpdateCommit);
        }
        let next_epoch: u32 = get_u32(body, 0);
        let received_tag: [u8; 32] = get_array(body, 4);
        match &self.pending {
            None => {
                return Err(Error::UpdateNotPending);
            },
            Some(pending) => {
                if next_epoch != pending.state.epoch {
                    return Err(Error::UpdateCommitEpochMismatch);
                }
                match &pending.evidence {
                    PendingProof::Full { .. } => {
                        return Err(Error::RoutineUpdateNotPending);
                    },
                    PendingProof::Routine { context, confirm_key } => {
                        let expected: [u8; 32] = hmac_label(
                            confirm_key.expose(),
                            "client commit".as_bytes(),
                            context,
                        );
                        if !ct_eq(&received_tag, &expected) {
                            return Err(Error::InvalidUpdateCommitTag);
                        }
                    },
                }
            },
        }
        match self.pending.take() {
            Some(
                PendingEpoch { state, evidence: PendingProof::Routine { context, confirm_key } },
            ) => self.switch(state, encoded, &confirm_key, &context, now),
            _ => Err(Error::UpdateNotPending),
        }
    }

    /// Whether a full rekey with this id was completed.
    fn rekey_id_used(&self, rekey_id: &[u8; 16]) -> (used: bool)
        ensures
            used == self@.rekey_ids.contains(rekey_id@),
    {
        for i in 0..self.rekey_ids.len()
            invariant
                forall|j: int| 0 <= j < i ==> (#[trigger] self.rekey_ids@[j])@ != rekey_id@,
        {
            if same_bytes(&self.rekey_ids[i], rekey_id) {
                assert(self@.rekey_ids[i as int] == rekey_id@);
                return true;
            }
        }
        assert forall|j: int| 0 <= j < self@.rekey_ids.len() implies self@.rekey_ids[j]
            != rekey_id@ by {
            assert(self@.rekey_ids[j] == self.rekey_ids@[j]@);
        }
        false
    }

    /// Takes a client's request for a full rekey, with a server secret that was drawn
    /// for it, and answers it.
    #[verifier::rlimit(60)]
    #[verifier::spinoff_prover]
    pub fn accept_full_rekey_init_with(
        &mut self,
        encoded: &[u8],
        body: &[u8],
        client_key: &[u8; 32],
        server_key: &[u8; 32],
        server_secret: &[u8; 32],
        now: u64,
    ) -> (answer: Result<Vec<u8>, Error>)
        requires
            old(self).wf(),
        ensures
            final(self).wf(),
            ({
                let (after, result) = old(self)@.full_rekey_init(
                    encoded@,
                    body@,
                    client_key@,
                    server_key@,
                    server_secret@,
                    now,
                );
                &&& final(self)@ == after
                &&& match answer {
                    Ok(record) => result == Ok::<Seq<u8>, Error>(record@) && secret_is_shared(
                        server_secret@,
                        body@.subrange(24, 56),
                    ) && sends(
                        old(self)@.current.records.s2c_control,
                        old(self)@.heard(encoded@).full_rekey_answer(
                            body@,
                            server_key@,
                            server_secret@,
                        ),
                        record@,
                    ),
                    Err(error) => result == Err::<Seq<u8>, Error>(error),
                }
            }),
    {
        if body.len() != 120 || self.pending.is_some() {
            return Err(Error::InvalidOrConcurrentFullRekey);
        }
        let current_epoch: u32 = get_u32(body, 0);
        let target_epoch: u32 = get_u32(body, 4);
        let rekey_id: [u8; 16] = get_array(body, 8);
        let client_ephemeral: [u8; 32] = get_array(body, 24);
        let client_signature: [u8; 64] = get_array(body, 56);
        if current_epoch != self.current.epoch {
            return Err(Error::InvalidFullRekeyEpoch);
        }
        if current_epoch == u32::MAX {
            return Err(Error::EpochOverflow);
        }
        if target_epoch != current_epoch + 1 {
            return Err(Error::InvalidFullRekeyEpoch);
        }
        if self.rekey_id_used(&rekey_id) {
            return Err(Error::RekeyIdRepeated);
        }
        let client_input: [u8; 32] = hash_rekey(
            "RekaSerdoba/1 full rekey client".as_bytes(),
            &self.session_id,
            current_epoch,
            target_epoch,
            &rekey_id,
            &client_ephemeral,
            &self.transcript,
        );
        if !ed25519_verify(client_key, &client_input, &client_signature) {
            return Err(Error::InvalidFullRekeySignature);
        }
        self.transcript = transcript_next(&self.transcript, encoded);
        let server_ephemeral: [u8; 32] = x25519_public_key(server_secret);
        let mut added: Vec<u8> = Vec::new();
        append(&mut added, &server_ephemeral);
        append(&mut added, &self.transcript);
        let server_input: [u8; 32] = hash_rekey(
            "RekaSerdoba/1 full rekey server".as_bytes(),
            &self.session_id,
            current_epoch,
            target_epoch,
            &rekey_id,
            &client_ephemeral,
            &added,
        );
        let ghost server_binding = rekey_binding(
            text("RekaSerdoba/1 full rekey server"),
            self@.session_id,
            current_epoch,
            target_epoch,
            rekey_id@,
            client_ephemeral@,
        );
        assert(server_binding + added@ =~= server_binding + server_ephemeral@ + self@.transcript);
        let server_signature: [u8; 64] = ed25519_sign(server_key, &server_input);
        let mut reply_body: Vec<u8> = u32_bytes(current_epoch);
        put_u32(&mut reply_body, target_epoch);
        append(&mut reply_body, &rekey_id);
        append(&mut reply_body, &server_ephemeral);
        append(&mut reply_body, &server_signature);
        proof {
            be_bytes_length(target_epoch as nat, 4);
        }
        let reply = self.send_frame(0x0A, reply_body)?;
        let shared = Secret::new(x25519_agree(server_secret, &client_ephemeral));
        let zero: [u8; 32] = [0u8; 32];
        assert(zero@ =~= Seq::new(32, |i: int| 0u8));
        if ct_eq(shared.expose(), &zero) {
            return Err(Error::FullRekeyZeroSecret);
        }
        let mut bound: Vec<u8> = Vec::new();
        append(&mut bound, &server_ephemeral);
        append(&mut bound, &client_signature);
        append(&mut bound, &server_signature);
        append(&mut bound, &self.transcript);
        let context: [u8; 32] = hash_rekey(
            "RekaSerdoba/1 full rekey".as_bytes(),
            &self.session_id,
            current_epoch,
            target_epoch,
            &rekey_id,
            &client_ephemeral,
            &bound,
        );
        let ghost context_binding = rekey_binding(
            text("RekaSerdoba/1 full rekey"),
            self@.session_id,
            current_epoch,
            target_epoch,
            rekey_id@,
            client_ephemeral@,
        );
        assert(context_binding + bound@ =~= context_binding + server_ephemeral@ + client_signature@
            + server_signature@ + self@.transcript);
        let next_secret: [u8; 32] = hmac_label(
            self.current.secret.expose(),
            shared.expose(),
            &context,
        );
        let keys = EpochKeys::derive(next_secret, self.session_id, target_epoch)?;
        proof {
            label_prefix_length();
            reveal_strlit("full rekey confirm");
            text_of_ascii("full rekey confirm");
        }
        let confirm_key: [u8; 32] = expand_key(
            &next_secret,
            "full rekey confirm".as_bytes(),
            &context,
        )?;
        let records = SessionRecordLayer::new(
            self.session_id,
            target_epoch,
            keys,
            DEFAULT_REPLAY_WINDOW,
        )?;
        self.pending = Some(
            PendingEpoch {
                state: EpochState {
                    epoch: target_epoch,
                    secret: Secret::new(next_secret),
                    records,
                },
                evidence: PendingProof::Full {
                    context,
                    confirm_key: Secret::new(confirm_key),
                    rekey_id,
                },
            },
        );
        self.update_requested = true;
        self.update_deadline = Some(now as u128 + UPDATE_TIMEOUT as u128);
        Ok(reply)
    }

    /// Takes a client's request for a full rekey, draws the server's secret for it and
    /// answers it.
    pub fn accept_full_rekey_init(
        &mut self,
        encoded: &[u8],
        body: &[u8],
        client_key: &[u8; 32],
        server_key: &[u8; 32],
        now: u64,
    ) -> (answer: Result<Vec<u8>, Error>)
        requires
            old(self).wf(),
        ensures
            final(self).wf(),
            exists|server_secret: Seq<u8>| #![trigger x25519_public(server_secret)]
                {
                    let (after, result) = old(self)@.full_rekey_init(
                        encoded@,
                        body@,
                        client_key@,
                        server_key@,
                        server_secret,
                        now,
                    );
                    &&& server_secret.len() == 32
                    &&& final(self)@ == after
                    &&& match answer {
                        Ok(record) => result == Ok::<Seq<u8>, Error>(record@) && sends(
                            old(self)@.current.records.s2c_control,
                            old(self)@.heard(encoded@).full_rekey_answer(
                                body@,
                                server_key@,
                                server_secret,
                            ),
                            record@,
                        ),
                        Err(error) => result == Err::<Seq<u8>, Error>(error),
                    }
                },
    {
        let secret: [u8; 32] = x25519_random_secret();
        let server_secret = Secret::new(secret);
        let answer = self.accept_full_rekey_init_with(
            encoded,
            body,
            client_key,
            server_key,
            server_secret.expose(),
            now,
        );
        assert(x25519_public(server_secret@) == x25519_public(secret@));
        answer
    }

    /// Takes a client's confirmation of a full rekey: the new epoch starts.
    #[verifier::rlimit(60)]
    #[verifier::spinoff_prover]
    pub fn accept_full_rekey_confirm(
        &mut self,
        encoded: &[u8],
        body: &[u8],
        now: u64,
    ) -> (answer: Result<Vec<u8>, Error>)
        requires
            old(self).wf(),
        ensures
            final(self).wf(),
            final(self)@ == old(self)@.full_rekey_confirm(encoded@, body@, now).0,
            match answer {
                Ok(record) => old(self)@.full_rekey_confirm(encoded@, body@, now).1 == Ok::<
                    Seq<u8>,
                    Error,
                >(record@) && sends(
                    old(self)@.pending->Some_0.state.records.s2c_control,
                    old(self)@.pending->Some_0.done(),
                    record@,
                ),
                Err(error) => old(self)@.full_rekey_confirm(encoded@, body@, now).1 == Err::<
                    Seq<u8>,
                    Error,
                >(error),
            },
    {
        if body.len() != 36 {
            return Err(Error::InvalidFullRekeyConfirmation);
        }
        let target_epoch: u32 = get_u32(body, 0);
        let received: [u8; 32] = get_array(body, 4);
        match &self.pending {
            None => {
                return Err(Error::FullRekeyNotPending);
            },
            Some(pending) => {
                if target_epoch != pending.state.epoch {
                    return Err(Error::FullRekeyEpochMismatch);
                }
                match &pending.evidence {
                    PendingProof::Routine { .. } => {
                        return Err(Error::FullRekeyNotPending);
                    },
                    PendingProof::Full { context, confirm_key, .. } => {
                        let expected: [u8; 32] = hmac_label(
                            confirm_key.expose(),
                            "client confirm".as_bytes(),
                            context,
                        );
                        if !ct_eq(&received, &expected) {
                            return Err(Error::InvalidFullRekeyTag);
                        }
                    },
                }
            },
        }
        match self.pending.take() {
            Some(
                PendingEpoch {
                    state,
                    evidence: PendingProof::Full { context, confirm_key, rekey_id },
                },
            ) => {
                let ghost used = self@.rekey_ids;
                self.rekey_ids.push(rekey_id);
                assert(self@.rekey_ids =~= used.push(rekey_id@));
                self.switch(state, encoded, &confirm_key, &context, now)
            },
            _ => Err(Error::FullRekeyNotPending),
        }
    }

    /// Asks the client to renew an epoch that is old or has carried much. A renewal that
    /// takes too long ends the session.
    pub fn request_update_if_due(&mut self, now: u64) -> (request: Result<Option<Vec<u8>>, Error>)
        requires
            old(self).wf(),
        ensures
            final(self).wf(),
            final(self)@ == old(self)@.update_checked(now).0,
            match request {
                Ok(Some(record)) => old(self)@.update_checked(now).1 == Ok::<
                    Option<Seq<u8>>,
                    Error,
                >(Some(record@)) && sends(
                    old(self)@.current.records.s2c_control,
                    old(self)@.update_request(),
                    record@,
                ),
                Ok(None) => old(self)@.update_checked(now).1 == Ok::<Option<Seq<u8>>, Error>(None),
                Err(error) => old(self)@.update_checked(now).1 == Err::<Option<Seq<u8>>, Error>(
                    error,
                ),
            },
    {
        if let Some(deadline) = self.update_deadline {
            if now as u128 >= deadline {
                return Err(Error::UpdateTimedOut);
            }
        }
        if self.pending.is_some() || self.update_requested {
            return Ok(None);
        }
        if (now as u128) < self.epoch_started as u128 + UPDATE_INTERVAL as u128 && self.data_records
            < UPDATE_RECORD_LIMIT && self.plaintext_bytes < UPDATE_BYTE_LIMIT {
            return Ok(None);
        }
        let record = self.send_frame(0x04, u32_bytes(self.current.epoch))?;
        self.update_requested = true;
        self.update_deadline = Some(now as u128 + UPDATE_TIMEOUT as u128);
        Ok(Some(record))
    }

    /// Challenges a new path of the session. The answer is the record to send there, and
    /// the tag that proves the path.
    pub fn path_challenge(
        &mut self,
        migration_secret: &[u8; 32],
        carrier_id: [u8; 16],
        challenge: [u8; 32],
    ) -> (answer: Result<(Vec<u8>, [u8; 32]), Error>)
        requires
            old(self).wf(),
        ensures
            final(self).wf(),
            final(self)@ == old(self)@.challenged(
                migration_secret@,
                carrier_id@,
                challenge@,
            ).0,
            match answer {
                Ok((record, expected)) => old(self)@.challenged(
                    migration_secret@,
                    carrier_id@,
                    challenge@,
                ).1 == Ok::<(Seq<u8>, Seq<u8>), Error>((record@, expected@)) && sends(
                    old(self)@.current.records.s2c_control,
                    challenge_frame(carrier_id@, challenge@),
                    record@,
                ),
                Err(error) => old(self)@.challenged(
                    migration_secret@,
                    carrier_id@,
                    challenge@,
                ).1 == Err::<(Seq<u8>, Seq<u8>), Error>(error),
            },
    {
        if self.pending.is_some() {
            return Err(Error::MigrationDuringRekey);
        }
        let mut body: Vec<u8> = Vec::new();
        append(&mut body, &carrier_id);
        append(&mut body, &challenge);
        assert(body@ =~= carrier_id@ + challenge@);
        let record = self.send_frame(0x0C, body)?;
        let mut message: Vec<u8> = Vec::new();
        append(&mut message, "RekaSerdoba/1 path response".as_bytes());
        append(&mut message, &self.session_id);
        append(&mut message, &carrier_id);
        append(&mut message, &challenge);
        append(&mut message, &self.transcript);
        assert(message@ =~= text("RekaSerdoba/1 path response") + self@.session_id + carrier_id@
            + challenge@ + self@.transcript);
        let expected: [u8; 32] = hmac_bytes(migration_secret, &message);
        Ok((record, expected))
    }

    /// Takes the answer to a challenge.
    pub fn accept_path_response(
        &mut self,
        encoded: &[u8],
        body: &[u8],
        carrier_id: [u8; 16],
        expected: [u8; 32],
    ) -> (answer: Result<(), Error>)
        requires
            old(self).wf(),
        ensures
            final(self).wf(),
            final(self)@ == old(self)@.path_answered(
                encoded@,
                body@,
                carrier_id@,
                expected@,
            ).0,
            answer == old(self)@.path_answered(encoded@, body@, carrier_id@, expected@).1,
    {
        if body.len() != 48 || !ct_eq(slice_subrange(body, 0, 16), &carrier_id) || !ct_eq(
            slice_subrange(body, 16, 48),
            &expected,
        ) {
            return Err(Error::InvalidPathResponse);
        }
        self.transcript = transcript_next(&self.transcript, encoded);
        Ok(())
    }

    /// The moment at which a due key update is to be looked for next.
    pub fn next_update_check(&self, now: u64) -> (moment: u128)
        ensures
            moment as nat == self@.next_check(now),
    {
        if let Some(deadline) = self.update_deadline {
            deadline
        } else if self.pending.is_some() || self.update_requested {
            now as u128 + UPDATE_TIMEOUT as u128
        } else {
            self.epoch_started as u128 + UPDATE_INTERVAL as u128
        }
    }

    /// Counts a data record.
    fn count_data(&mut self, plaintext_len: usize) -> (counted: Result<(), Error>)
        requires
            old(self).wf(),
        ensures
            final(self).wf(),
            final(self)@ == old(self)@.counted(plaintext_len as nat).0,
            counted == old(self)@.counted(plaintext_len as nat).1,
    {
        self.data_records = match self.data_records.checked_add(1) {
            Some(records) => records,
            None => {
                return Err(Error::DataRecordCounterOverflow);
            },
        };
        self.plaintext_bytes = match self.plaintext_bytes.checked_add(plaintext_len as u64) {
            Some(bytes) => bytes,
            None => {
                return Err(Error::PlaintextCounterOverflow);
            },
        };
        Ok(())
    }

    /// Forgets the previous epoch once its time is over.
    fn expire_previous(&mut self, now: u64)
        requires
            old(self).wf(),
        ensures
            final(self).wf(),
            final(self)@ == old(self)@.without_expired(now),
    {
        let over = match &self.previous {
            Some(previous) => previous.remaining_records == 0 || now as u128
                >= previous.expires_at,
            None => false,
        };
        if over {
            self.previous = None;
        }
    }
}

} // verus!
