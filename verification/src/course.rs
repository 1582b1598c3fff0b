//! What holds over the whole course of a session, whatever is done with it.
use crate::crypto::{
    ed25519_signature, ed25519_verified, hmac_of, sha256_of, x25519_public, x25519_shared,
};
use crate::error::Error;
use crate::frame::{FrameModel, RecordKind};
use crate::kdf::derived;
use crate::keys::{EpochKeysModel, KeyModel};
use crate::record::{
    header_of, LayerModel, ReceiverModel, DEFAULT_REPLAY_WINDOW, MAX_RECORDS_PER_EPOCH,
};
use crate::rekey::{
    challenge_frame, EpochModel, EpochPosition, OpenedModel, OpenedRecord, PendingModel,
    PreviousModel,
    ProofModel, RekeySession, SessionModel, OLD_EPOCH_GRACE, OLD_EPOCH_RECORDS, UPDATE_BYTE_LIMIT,
    UPDATE_INTERVAL, UPDATE_RECORD_LIMIT,
};
use crate::replay::{never_accepted_twice, refusal_is_final, validity_is_kept, ReplayModel};
use crate::wire::{
    be_bytes, be_bytes_length, be_limit, be_round_trip, be_value, be_value_round_trip,
    numbers_are_written_big_endian, text,
};
use vstd::prelude::*;

verus! {

/// What can be done with a session.
pub enum SessionCall {
    SealData { plaintext: Seq<u8>, padded: bool },
    SealControl { plaintext: Seq<u8>, padded: bool },
    Open { encoded: Seq<u8>, now: u64 },
    UpdateInit { encoded: Seq<u8>, body: Seq<u8>, now: u64 },
    UpdateCommit { encoded: Seq<u8>, body: Seq<u8>, now: u64 },
    FullRekeyInit {
        encoded: Seq<u8>,
        body: Seq<u8>,
        client_key: Seq<u8>,
        server_seed: Seq<u8>,
        server_secret: Seq<u8>,
        now: u64,
    },
    FullRekeyConfirm { encoded: Seq<u8>, body: Seq<u8>, now: u64 },
    UpdateCheck { now: u64 },
    PathChallenge { migration_secret: Seq<u8>, carrier_id: Seq<u8>, challenge: Seq<u8> },
    PathResponse { encoded: Seq<u8>, body: Seq<u8>, carrier_id: Seq<u8>, expected: Seq<u8> },
}

/// The session after a call.
#[verifier::opaque]
pub open spec fn after_call(session: SessionModel, call: SessionCall) -> SessionModel {
    match call {
        SessionCall::SealData { plaintext, padded } => session.data_sealed(plaintext, padded).0,
        SessionCall::SealControl { plaintext, padded } => session.control_sealed(
            plaintext,
            padded,
        ).0,
        SessionCall::Open { encoded, now } => session.opened(encoded, now).0,
        SessionCall::UpdateInit { encoded, body, now } => session.update_init(
            encoded,
            body,
            now,
        ).0,
        SessionCall::UpdateCommit { encoded, body, now } => session.update_commit(
            encoded,
            body,
            now,
        ).0,
        SessionCall::FullRekeyInit {
            encoded,
            body,
            client_key,
            server_seed,
            server_secret,
            now,
        } => session.full_rekey_init(
            encoded,
            body,
            client_key,
            server_seed,
            server_secret,
            now,
        ).0,
        SessionCall::FullRekeyConfirm { encoded, body, now } => session.full_rekey_confirm(
            encoded,
            body,
            now,
        ).0,
        SessionCall::UpdateCheck { now } => session.update_checked(now).0,
        SessionCall::PathChallenge { migration_secret, carrier_id, challenge } =>
            session.challenged(migration_secret, carrier_id, challenge).0,
        SessionCall::PathResponse { encoded, body, carrier_id, expected } =>
            session.path_answered(encoded, body, carrier_id, expected).0,
    }
}

/// The session after several calls.
pub open spec fn after_calls(session: SessionModel, calls: Seq<SessionCall>) -> SessionModel
    decreases calls.len(),
{
    if calls.len() == 0 {
        session
    } else {
        after_call(after_calls(session, calls.drop_last()), calls.last())
    }
}

/// A call that has changed the keys: the session has moved on to the next epoch.
pub open spec fn changes_keys(session: SessionModel, call: SessionCall) -> bool {
    match call {
        SessionCall::UpdateCommit { encoded, body, now } => session.update_commit(
            encoded,
            body,
            now,
        ).1 is Ok,
        SessionCall::FullRekeyConfirm { encoded, body, now } => session.full_rekey_confirm(
            encoded,
            body,
            now,
        ).1 is Ok,
        _ => false,
    }
}

/// When a call that may change the keys is made.
pub open spec fn change_time(call: SessionCall) -> u64 {
    match call {
        SessionCall::UpdateCommit { now, .. } => now,
        SessionCall::FullRekeyConfirm { now, .. } => now,
        _ => 0,
    }
}

/// The record that a call has taken.
pub open spec fn taken_by(session: SessionModel, call: SessionCall) -> Option<OpenedModel> {
    match call {
        SessionCall::Open { encoded, now } => match session.opened(encoded, now).1 {
            Ok(opened) => Some(opened),
            Err(_) => None,
        },
        _ => None,
    }
}

/// The replay windows of an epoch are valid.
pub open spec fn windows_valid(state: EpochModel) -> bool {
    state.records.c2s_data.replay.valid() && state.records.c2s_control.replay.valid()
}

/// A session in order, with valid replay windows.
pub open spec fn sound(session: SessionModel) -> bool {
    &&& session.ordered()
    &&& windows_valid(session.current)
    &&& session.pending is Some ==> windows_valid(session.pending->Some_0.state)
    &&& session.previous is Some ==> windows_valid(session.previous->Some_0.state)
}

/// A replay window that has accepted nothing is valid.
proof fn lemma_fresh_windows(secret: Seq<u8>, session_id: Seq<u8>, epoch: u32)
    ensures
        windows_valid(EpochModel::starting(secret, session_id, epoch)),
{
    let window = ReplayModel::fresh(DEFAULT_REPLAY_WINDOW as nat);
    assert(window.valid());
}

/// Opening a record keeps the windows valid.
proof fn lemma_windows_open(state: EpochModel, kind: RecordKind, encoded: Seq<u8>)
    requires
        windows_valid(state),
    ensures
        windows_valid(state.after_open(kind, encoded)),
        state.after_open(kind, encoded).epoch == state.epoch,
        state.after_open(kind, encoded).records.s2c_control == state.records.s2c_control,
        state.after_open(kind, encoded).records.s2c_data == state.records.s2c_data,
{
    if state.receiver(kind).opened(encoded) is Ok {
        validity_is_kept(state.receiver(kind).replay, header_of(encoded)->Ok_0.number);
    }
}

/// A call that stays in the epoch and opens no record: it leaves the receiving sides
/// alone, and may begin a change of keys.
spec fn keeps(before: SessionModel, after: SessionModel) -> bool {
    &&& after.current.epoch == before.current.epoch
    &&& after.current.records.c2s_data == before.current.records.c2s_data
    &&& after.current.records.c2s_control == before.current.records.c2s_control
    &&& after.previous == before.previous || after.previous is None
    &&& after.pending == before.pending || before.pending is None && after.pending is Some
        && after.pending->Some_0.state.epoch == before.current.epoch + 1 && windows_valid(
        after.pending->Some_0.state,
    ) && after.pending->Some_0.state.records.s2c_control.next == 0
        && after.pending->Some_0.state.records.s2c_data.next == 0
    &&& after.rekey_ids == before.rekey_ids
    &&& after.epoch_started == before.epoch_started
    &&& flags_agree(before) ==> flags_agree(after)
}

/// A deadline is set exactly while an update is requested, as one is while an epoch is
/// pending.
spec fn flags_agree(session: SessionModel) -> bool {
    &&& session.update_deadline is Some <==> session.update_requested
    &&& session.pending is Some ==> session.update_requested
}

/// A call that moves on to the pending epoch.
spec fn moves(before: SessionModel, after: SessionModel, now: u64) -> bool {
    &&& before.pending is Some
    &&& after.current.epoch == before.pending->Some_0.state.epoch
    &&& after.current.records.c2s_data == before.pending->Some_0.state.records.c2s_data
    &&& after.current.records.c2s_control == before.pending->Some_0.state.records.c2s_control
    &&& after.previous == Some(
        PreviousModel {
            state: before.current,
            expires_at: (now + OLD_EPOCH_GRACE) as nat,
            remaining: OLD_EPOCH_RECORDS,
        },
    )
    &&& after.pending is None
    &&& forall|id: Seq<u8>| #[trigger]
        before.rekey_ids.contains(id) ==> after.rekey_ids.contains(id)
    &&& flags_agree(before) ==> flags_agree(after)
}

/// A new epoch that has begun has carried nothing.
spec fn begins(after: SessionModel, now: u64) -> bool {
    after.data_records == 0 && after.plaintext_bytes == 0 && after.epoch_started == now
        && !after.update_requested
}

/// The counters are as they were.
spec fn same_counters(before: SessionModel, after: SessionModel) -> bool {
    after.data_records == before.data_records && after.plaintext_bytes == before.plaintext_bytes
}

proof fn lemma_seals(session: SessionModel, plaintext: Seq<u8>, padded: bool)
    ensures
        keeps(session, session.data_sealed(plaintext, padded).0),
        keeps(session, session.control_sealed(plaintext, padded).0),
        same_counters(session, session.control_sealed(plaintext, padded).0),
        session.data_records < u64::MAX && session.plaintext_bytes + plaintext.len() <= u64::MAX
            ==> {
            let after = session.data_sealed(plaintext, padded).0;
            after.data_records == session.data_records + 1 && after.plaintext_bytes
                == session.plaintext_bytes + plaintext.len()
        },
{
}

proof fn lemma_frame_sent(session: SessionModel, frame: FrameModel)
    ensures
        keeps(session, session.frame_sent(frame).0),
        same_counters(session, session.frame_sent(frame).0),
        session.frame_sent(frame).0.update_deadline == session.update_deadline,
        session.frame_sent(frame).0.update_requested == session.update_requested,
        session.frame_sent(frame).0.pending == session.pending,
        session.frame_sent(frame).0.previous == session.previous,
        session.frame_sent(frame).0.session_id == session.session_id,
{
}

proof fn lemma_update_init(session: SessionModel, encoded: Seq<u8>, body: Seq<u8>, now: u64)
    ensures
        keeps(session, session.update_init(encoded, body, now).0),
        same_counters(session, session.update_init(encoded, body, now).0),
{
    let frame = session.update_answer(body);
    lemma_frame_sent(session.heard(encoded), frame);
    let after = session.update_init(encoded, body, now).0;
    if after.pending is Some && session.pending is None {
        let state = after.pending->Some_0.state;
        lemma_fresh_windows(state.secret, session.session_id, state.epoch);
    }
}

proof fn lemma_full_rekey_init(
    session: SessionModel,
    encoded: Seq<u8>,
    body: Seq<u8>,
    client_key: Seq<u8>,
    server_seed: Seq<u8>,
    server_secret: Seq<u8>,
    now: u64,
)
    ensures
        ({
            let after = session.full_rekey_init(
                encoded,
                body,
                client_key,
                server_seed,
                server_secret,
                now,
            ).0;
            keeps(session, after) && same_counters(session, after)
        }),
{
    let heard = session.heard(encoded);
    lemma_frame_sent(heard, heard.full_rekey_answer(body, server_seed, server_secret));
    let after = session.full_rekey_init(
        encoded,
        body,
        client_key,
        server_seed,
        server_secret,
        now,
    ).0;
    if after.pending is Some && session.pending is None {
        let state = after.pending->Some_0.state;
        lemma_fresh_windows(state.secret, session.session_id, state.epoch);
    }
}

proof fn lemma_update_check(session: SessionModel, now: u64)
    ensures
        keeps(session, session.update_checked(now).0),
        same_counters(session, session.update_checked(now).0),
{
    lemma_frame_sent(session, session.update_request());
}

proof fn lemma_path(
    session: SessionModel,
    migration_secret: Seq<u8>,
    carrier_id: Seq<u8>,
    challenge: Seq<u8>,
    encoded: Seq<u8>,
    body: Seq<u8>,
    expected: Seq<u8>,
)
    ensures
        ({
            let asked = session.challenged(migration_secret, carrier_id, challenge).0;
            let answered = session.path_answered(encoded, body, carrier_id, expected).0;
            &&& keeps(session, asked) && same_counters(session, asked)
            &&& keeps(session, answered) && same_counters(session, answered)
        }),
{
    lemma_frame_sent(session, challenge_frame(carrier_id, challenge));
}

proof fn lemma_switched(
    session: SessionModel,
    pending: PendingModel,
    encoded: Seq<u8>,
    confirm_key: Seq<u8>,
    context: Seq<u8>,
    now: u64,
)
    requires
        session.pending == Some(pending),
    ensures
        ({
            let (after, answer) = session.switched(
                pending.state,
                encoded,
                confirm_key,
                context,
                now,
            );
            &&& after.rekey_ids == session.rekey_ids
            &&& moves(session, after, now)
            &&& answer is Ok ==> begins(after, now)
        }),
{
}

proof fn lemma_update_commit(session: SessionModel, encoded: Seq<u8>, body: Seq<u8>, now: u64)
    ensures
        ({
            let (after, answer) = session.update_commit(encoded, body, now);
            &&& after == session && answer is Err || moves(session, after, now)
            &&& answer is Ok ==> begins(after, now)
        }),
{
    if session.pending is Some {
        let pending = session.pending->Some_0;
        if let ProofModel::Routine { context, confirm_key } = pending.evidence {
            lemma_switched(session, pending, encoded, confirm_key, context, now);
        }
    }
}

proof fn lemma_full_rekey_confirm(
    session: SessionModel,
    encoded: Seq<u8>,
    body: Seq<u8>,
    now: u64,
)
    ensures
        ({
            let (after, answer) = session.full_rekey_confirm(encoded, body, now);
            &&& after == session && answer is Err || moves(session, after, now)
            &&& answer is Ok ==> begins(after, now)
        }),
{
    if session.pending is Some {
        let pending = session.pending->Some_0;
        if let ProofModel::Full { context, confirm_key, rekey_id } =
            pending.evidence {
            let noted = SessionModel { rekey_ids: session.rekey_ids.push(rekey_id), ..session };
            lemma_switched(noted, pending, encoded, confirm_key, context, now);
            assert forall|id: Seq<u8>| #[trigger]
                session.rekey_ids.contains(id) implies noted.rekey_ids.contains(id) by {
                let i = choose|i: int|
                    0 <= i < session.rekey_ids.len() && session.rekey_ids[i] == id;
                assert(noted.rekey_ids[i] == id);
            }
        }
    }
}

/// What a call does that opens no record.
proof fn lemma_effect(session: SessionModel, call: SessionCall)
    requires
        !(call is Open),
    ensures
        ({
            let after = after_call(session, call);
            &&& keeps(session, after) || moves(session, after, change_time(call))
            &&& changes_keys(session, call) ==> moves(session, after, change_time(call))
                && begins(after, change_time(call))
            &&& keeps(session, after) && !(call is SealData) ==> same_counters(session, after)
        }),
{
    reveal(after_call);
    match call {
        SessionCall::SealData { plaintext, padded } => {
            lemma_seals(session, plaintext, padded);
        },
        SessionCall::SealControl { plaintext, padded } => {
            lemma_seals(session, plaintext, padded);
        },
        SessionCall::Open { .. } => {},
        SessionCall::UpdateInit { encoded, body, now } => {
            lemma_update_init(session, encoded, body, now);
        },
        SessionCall::UpdateCommit { encoded, body, now } => {
            lemma_update_commit(session, encoded, body, now);
        },
        SessionCall::FullRekeyInit {
            encoded,
            body,
            client_key,
            server_seed,
            server_secret,
            now,
        } => {
            lemma_full_rekey_init(
                session,
                encoded,
                body,
                client_key,
                server_seed,
                server_secret,
                now,
            );
        },
        SessionCall::FullRekeyConfirm { encoded, body, now } => {
            lemma_full_rekey_confirm(session, encoded, body, now);
        },
        SessionCall::UpdateCheck { now } => {
            lemma_update_check(session, now);
        },
        SessionCall::PathChallenge { migration_secret, carrier_id, challenge } => {
            lemma_path(
                session,
                migration_secret,
                carrier_id,
                challenge,
                Seq::empty(),
                Seq::empty(),
                Seq::empty(),
            );
        },
        SessionCall::PathResponse { encoded, body, carrier_id, expected } => {
            lemma_path(
                session,
                Seq::empty(),
                carrier_id,
                Seq::empty(),
                encoded,
                body,
                expected,
            );
        },
    }
}

/// A session starts sound, and no call changes that: the epochs stay in order, deadlines
/// are set only while an update is requested, and the windows stay valid. The epoch never
/// goes back, and moves by one at most.
pub proof fn sessions_stay_sound(session: SessionModel, call: SessionCall)
    requires
        sound(session),
    ensures
        sound(after_call(session, call)),
        session.current.epoch <= after_call(session, call).current.epoch <= session.current.epoch
            + 1,
        changes_keys(session, call) ==> after_call(session, call).current.epoch
            == session.current.epoch + 1,
{
    match call {
        SessionCall::Open { encoded, now } => {
            reveal(after_call);
            if header_of(encoded) is Ok {
                let kind = header_of(encoded)->Ok_0.kind;
                lemma_windows_open(session.current, kind, encoded);
                if session.pending is Some {
                    lemma_windows_open(session.pending->Some_0.state, kind, encoded);
                }
                if session.previous is Some {
                    lemma_windows_open(session.previous->Some_0.state, kind, encoded);
                }
            }
        },
        _ => {
            lemma_effect(session, call);
        },
    }
}

/// A session starts sound.
pub proof fn sessions_start_sound(
    session_id: Seq<u8>,
    epoch_secret: Seq<u8>,
    keys: EpochKeysModel,
    handshake_transcript: Seq<u8>,
    now: u64,
)
    ensures
        sound(
            SessionModel::starting(session_id, epoch_secret, keys, handshake_transcript, now),
        ),
{
    let window = ReplayModel::fresh(DEFAULT_REPLAY_WINDOW as nat);
    assert(window.valid());
}

/// After any calls a session is sound, and its epoch has not gone back.
pub proof fn calls_keep_sessions_sound(session: SessionModel, calls: Seq<SessionCall>)
    requires
        sound(session),
    ensures
        sound(after_calls(session, calls)),
        session.current.epoch <= after_calls(session, calls).current.epoch,
    decreases calls.len(),
{
    if calls.len() > 0 {
        calls_keep_sessions_sound(session, calls.drop_last());
        sessions_stay_sound(after_calls(session, calls.drop_last()), calls.last());
    }
}

/// The receiving side of an epoch, as long as the session has it.
pub open spec fn receiver_of(session: SessionModel, epoch: u32, kind: RecordKind) -> Option<
    ReceiverModel,
> {
    if session.current.epoch == epoch {
        Some(session.current.receiver(kind))
    } else if session.pending is Some && session.pending->Some_0.state.epoch == epoch {
        Some(session.pending->Some_0.state.receiver(kind))
    } else if session.previous is Some && session.previous->Some_0.state.epoch == epoch {
        Some(session.previous->Some_0.state.receiver(kind))
    } else {
        None
    }
}

/// No record with this number can be taken any more: its window refuses it, or its epoch
/// is gone for good.
pub open spec fn spent(session: SessionModel, epoch: u32, kind: RecordKind, number: u64) -> bool {
    match receiver_of(session, epoch, kind) {
        Some(receiver) => !receiver.replay.admits(number),
        None => session.current.epoch > epoch,
    }
}

/// What opening a record does to the windows of its epoch.
proof fn lemma_spent_open(
    state: EpochModel,
    opened_kind: RecordKind,
    encoded: Seq<u8>,
    kind: RecordKind,
    number: u64,
)
    requires
        windows_valid(state),
        !state.receiver(kind).replay.admits(number),
    ensures
        !state.after_open(opened_kind, encoded).receiver(kind).replay.admits(number),
{
    if opened_kind == kind && state.receiver(kind).opened(encoded) is Ok {
        refusal_is_final(
            state.receiver(kind).replay,
            number,
            header_of(encoded)->Ok_0.number,
        );
    }
}

/// A number that is spent stays spent, whatever is done with the session.
proof fn lemma_spent(
    session: SessionModel,
    call: SessionCall,
    epoch: u32,
    kind: RecordKind,
    number: u64,
)
    requires
        sound(session),
        spent(session, epoch, kind, number),
    ensures
        spent(after_call(session, call), epoch, kind, number),
{
    match call {
        SessionCall::Open { encoded, now } => {
            reveal(after_call);
            if header_of(encoded) is Ok {
                let header = header_of(encoded)->Ok_0;
                if session.current.epoch == epoch {
                    lemma_spent_open(session.current, header.kind, encoded, kind, number);
                } else if session.pending is Some && session.pending->Some_0.state.epoch
                    == epoch {
                    lemma_spent_open(
                        session.pending->Some_0.state,
                        header.kind,
                        encoded,
                        kind,
                        number,
                    );
                } else if session.previous is Some && session.previous->Some_0.state.epoch
                    == epoch {
                    lemma_spent_open(
                        session.previous->Some_0.state,
                        header.kind,
                        encoded,
                        kind,
                        number,
                    );
                }
            }
        },
        _ => {
            lemma_effect(session, call);
        },
    }
}

/// A number that is spent stays spent over any calls.
proof fn lemma_spent_calls(
    session: SessionModel,
    calls: Seq<SessionCall>,
    epoch: u32,
    kind: RecordKind,
    number: u64,
)
    requires
        sound(session),
        spent(session, epoch, kind, number),
    ensures
        sound(after_calls(session, calls)),
        spent(after_calls(session, calls), epoch, kind, number),
    decreases calls.len(),
{
    if calls.len() > 0 {
        let before = after_calls(session, calls.drop_last());
        lemma_spent_calls(session, calls.drop_last(), epoch, kind, number);
        sessions_stay_sound(before, calls.last());
        lemma_spent(before, calls.last(), epoch, kind, number);
    }
}

/// No record with a spent number is taken.
proof fn lemma_spent_is_refused(session: SessionModel, encoded: Seq<u8>, now: u64)
    requires
        sound(session),
        header_of(encoded) is Ok,
        ({
            let header = header_of(encoded)->Ok_0;
            spent(session, header.epoch, header.kind, header.number)
        }),
    ensures
        session.opened(encoded, now).1 is Err,
{
}

/// A record is taken at most once in a session, whatever is done in between: after a
/// change of keys too, a record that was taken before it is refused, and so is any other
/// with its epoch, kind and number.
pub proof fn record_is_taken_once_in_a_session(
    session: SessionModel,
    encoded: Seq<u8>,
    first: u64,
    calls: Seq<SessionCall>,
    copy: Seq<u8>,
    later: u64,
)
    requires
        sound(session),
        session.opened(encoded, first).1 is Ok,
        header_of(copy) is Ok,
        header_of(copy)->Ok_0.epoch == header_of(encoded)->Ok_0.epoch,
        header_of(copy)->Ok_0.kind == header_of(encoded)->Ok_0.kind,
        header_of(copy)->Ok_0.number == header_of(encoded)->Ok_0.number,
    ensures
        after_calls(session.opened(encoded, first).0, calls).opened(copy, later).1 is Err,
{
    let header = header_of(encoded)->Ok_0;
    let after = session.opened(encoded, first).0;
    let call = SessionCall::Open { encoded, now: first };
    reveal(after_call);
    sessions_stay_sound(session, call);
    let live = session.without_expired(first);
    let receiver = receiver_of(live, header.epoch, header.kind)->Some_0;
    assert(receiver.opened(encoded) is Ok);
    never_accepted_twice(receiver.replay, header.number, Seq::empty());
    assert(receiver_of(after, header.epoch, header.kind) == Some(receiver.after_open(encoded)));
    lemma_spent_calls(after, calls, header.epoch, header.kind, header.number);
    lemma_spent_is_refused(after_calls(after, calls), copy, later);
}

/// How many records of an epoch that is over can still be taken.
pub open spec fn late_room(session: SessionModel, epoch: u32) -> nat {
    match session.previous {
        Some(previous) if previous.state.epoch == epoch => previous.remaining as nat,
        _ => 0,
    }
}

/// How many records of an epoch the calls have taken.
pub open spec fn taken_of(session: SessionModel, calls: Seq<SessionCall>, epoch: u32) -> nat
    decreases calls.len(),
{
    if calls.len() == 0 {
        0
    } else {
        let before = after_calls(session, calls.drop_last());
        let taken = taken_by(before, calls.last());
        taken_of(session, calls.drop_last(), epoch) + if taken is Some
            && taken->Some_0.header.epoch == epoch {
            1nat
        } else {
            0nat
        }
    }
}

/// What one call does to the room for late records, and to the time they have.
proof fn lemma_late_call(session: SessionModel, call: SessionCall, epoch: u32, until: nat)
    requires
        sound(session),
        session.current.epoch > epoch,
        late_until(session, epoch, until),
    ensures
        ({
            let taken = taken_by(session, call);
            late_room(after_call(session, call), epoch) + if taken is Some
                && taken->Some_0.header.epoch == epoch {
                1nat
            } else {
                0nat
            } <= late_room(session, epoch)
        }),
        late_until(after_call(session, call), epoch, until),
{
    match call {
        SessionCall::Open { .. } => {
            reveal(after_call);
        },
        _ => {
            lemma_effect(session, call);
        },
    }
}

/// Records of an epoch that is over are taken only until a moment.
pub open spec fn late_until(session: SessionModel, epoch: u32, until: nat) -> bool {
    session.previous is Some && session.previous->Some_0.state.epoch == epoch
        ==> session.previous->Some_0.expires_at == until
}

/// The room for late records over several calls.
proof fn lemma_late_calls(
    session: SessionModel,
    calls: Seq<SessionCall>,
    epoch: u32,
    until: nat,
)
    requires
        sound(session),
        session.current.epoch > epoch,
        late_until(session, epoch, until),
    ensures
        sound(after_calls(session, calls)),
        after_calls(session, calls).current.epoch > epoch,
        late_until(after_calls(session, calls), epoch, until),
        taken_of(session, calls, epoch) + late_room(after_calls(session, calls), epoch)
            <= late_room(session, epoch),
    decreases calls.len(),
{
    if calls.len() > 0 {
        let before = after_calls(session, calls.drop_last());
        lemma_late_calls(session, calls.drop_last(), epoch, until);
        sessions_stay_sound(before, calls.last());
        lemma_late_call(before, calls.last(), epoch, until);
    }
}

/// Of an epoch that is over, at most 128 records are taken, and each within three seconds
/// of the change, whatever else is done with the session. They are taken as records of
/// the previous epoch.
pub proof fn late_records_are_limited(
    session: SessionModel,
    change: SessionCall,
    calls: Seq<SessionCall>,
    encoded: Seq<u8>,
    now: u64,
)
    requires
        sound(session),
        changes_keys(session, change),
    ensures
        taken_of(after_call(session, change), calls, session.current.epoch) <= OLD_EPOCH_RECORDS,
        ({
            let opened = after_calls(after_call(session, change), calls).opened(encoded, now).1;
            opened is Ok && opened->Ok_0.header.epoch == session.current.epoch ==> now
                < change_time(change) + OLD_EPOCH_GRACE && opened->Ok_0.position
                == EpochPosition::Previous
        }),
{
    let epoch = session.current.epoch;
    let moved = after_call(session, change);
    let until = (change_time(change) + OLD_EPOCH_GRACE) as nat;
    sessions_stay_sound(session, change);
    lemma_effect(session, change);
    assert(moved.previous == Some(
        PreviousModel { state: session.current, expires_at: until, remaining: OLD_EPOCH_RECORDS },
    ));
    lemma_late_calls(moved, calls, epoch, until);
}

/// A late record that is refused uses up none of the room for such records.
pub proof fn refused_record_uses_no_room(
    session: SessionModel,
    encoded: Seq<u8>,
    now: u64,
    epoch: u32,
)
    requires
        session.opened(encoded, now).1 is Err,
    ensures
        late_room(session.opened(encoded, now).0, epoch) == late_room(
            session.without_expired(now),
            epoch,
        ),
{
}

/// The ids of completed full rekeys are kept by every call.
proof fn lemma_ids(session: SessionModel, call: SessionCall, id: Seq<u8>)
    requires
        session.rekey_ids.contains(id),
    ensures
        after_call(session, call).rekey_ids.contains(id),
{
    match call {
        SessionCall::Open { .. } => {
            reveal(after_call);
        },
        _ => {
            lemma_effect(session, call);
        },
    }
}

/// The ids of completed full rekeys are kept over any calls.
proof fn lemma_ids_calls(session: SessionModel, calls: Seq<SessionCall>, id: Seq<u8>)
    requires
        session.rekey_ids.contains(id),
    ensures
        after_calls(session, calls).rekey_ids.contains(id),
    decreases calls.len(),
{
    if calls.len() > 0 {
        lemma_ids_calls(session, calls.drop_last(), id);
        lemma_ids(after_calls(session, calls.drop_last()), calls.last(), id);
    }
}

/// The id of a full rekey that was completed is never taken again, whatever is done with
/// the session in between: a request with it is refused and changes nothing.
pub proof fn completed_rekey_id_is_refused(
    session: SessionModel,
    confirmation: Seq<u8>,
    confirmation_body: Seq<u8>,
    now: u64,
    calls: Seq<SessionCall>,
    init: Seq<u8>,
    init_body: Seq<u8>,
    client_key: Seq<u8>,
    server_seed: Seq<u8>,
    server_secret: Seq<u8>,
    later: u64,
)
    requires
        session.full_rekey_confirm(confirmation, confirmation_body, now).1 is Ok,
        session.pending->Some_0.evidence->Full_rekey_id == init_body.subrange(8, 24),
    ensures
        ({
            let after = after_calls(
                session.full_rekey_confirm(confirmation, confirmation_body, now).0,
                calls,
            );
            let (same, answer) = after.full_rekey_init(
                init,
                init_body,
                client_key,
                server_seed,
                server_secret,
                later,
            );
            answer is Err && same == after
        }),
{
    let id = init_body.subrange(8, 24);
    let moved = session.full_rekey_confirm(confirmation, confirmation_body, now).0;
    assert(moved.rekey_ids == session.rekey_ids.push(id));
    assert(moved.rekey_ids[session.rekey_ids.len() as int] == id);
    lemma_ids_calls(moved, calls, id);
}

/// The data record that a call has to do with: one that is to be sealed, or one of the
/// current epoch that is opened.
pub open spec fn data_of(session: SessionModel, call: SessionCall) -> Option<Seq<u8>> {
    match call {
        SessionCall::SealData { plaintext, .. } => Some(plaintext),
        SessionCall::Open { encoded, .. } => match header_of(encoded) {
            Ok(header) if header.kind == RecordKind::Data && header.epoch
                == session.current.epoch => match session.current.receiver(
                RecordKind::Data,
            ).opened(encoded) {
                Ok(plaintext) => Some(plaintext),
                Err(_) => None,
            },
            _ => None,
        },
        _ => None,
    }
}

/// How many data records the calls have to do with, and how many bytes these hold.
pub open spec fn data_in(session: SessionModel, calls: Seq<SessionCall>) -> (nat, nat)
    decreases calls.len(),
{
    if calls.len() == 0 {
        (0, 0)
    } else {
        let (records, bytes) = data_in(session, calls.drop_last());
        match data_of(after_calls(session, calls.drop_last()), calls.last()) {
            Some(plaintext) => (records + 1, bytes + plaintext.len()),
            None => (records, bytes),
        }
    }
}

/// An epoch that has just begun has carried nothing.
pub open spec fn epoch_begins(session: SessionModel) -> bool {
    session.data_records == 0 && session.plaintext_bytes == 0
}

/// The counters of an epoch count its data records, those sealed and those opened, and
/// their bytes.
pub proof fn counters_count_the_epoch(session: SessionModel, calls: Seq<SessionCall>)
    requires
        sound(session),
        epoch_begins(session),
        after_calls(session, calls).current.epoch == session.current.epoch,
        data_in(session, calls).0 <= u64::MAX,
        data_in(session, calls).1 <= u64::MAX,
    ensures
        after_calls(session, calls).data_records == data_in(session, calls).0,
        after_calls(session, calls).plaintext_bytes == data_in(session, calls).1,
        after_calls(session, calls).epoch_started == session.epoch_started,
    decreases calls.len(),
{
    if calls.len() > 0 {
        let front = calls.drop_last();
        let before = after_calls(session, front);
        calls_keep_sessions_sound(session, front);
        sessions_stay_sound(before, calls.last());
        counters_count_the_epoch(session, front);
        lemma_counted(before, calls.last());
    }
}

/// What one call within an epoch does to its counters.
proof fn lemma_counted(session: SessionModel, call: SessionCall)
    requires
        sound(session),
        after_call(session, call).current.epoch == session.current.epoch,
        match data_of(session, call) {
            Some(plaintext) => session.data_records < u64::MAX && session.plaintext_bytes
                + plaintext.len() <= u64::MAX,
            None => true,
        },
    ensures
        ({
            let after = after_call(session, call);
            &&& after.epoch_started == session.epoch_started
            &&& match data_of(session, call) {
                Some(plaintext) => after.data_records == session.data_records + 1
                    && after.plaintext_bytes == session.plaintext_bytes + plaintext.len(),
                None => after.data_records == session.data_records && after.plaintext_bytes
                    == session.plaintext_bytes,
            }
        }),
{
    match call {
        SessionCall::Open { .. } => {
            reveal(after_call);
        },
        SessionCall::SealData { plaintext, padded } => {
            reveal(after_call);
            lemma_seals(session, plaintext, padded);
        },
        _ => {
            lemma_effect(session, call);
        },
    }
}

/// A change of keys begins an epoch: nothing was carried, and its time starts.
pub proof fn change_of_keys_begins_an_epoch(session: SessionModel, change: SessionCall)
    requires
        sound(session),
        changes_keys(session, change),
    ensures
        epoch_begins(after_call(session, change)),
        after_call(session, change).epoch_started == change_time(change),
        !after_call(session, change).update_requested,
        after_call(session, change).pending is None,
{
    lemma_effect(session, change);
}

/// The server asks for a key update exactly when one is due: ten minutes after the epoch
/// began, after 2^20 data records or after 2^30 bytes of them, whichever comes first. The
/// request is one control frame with the number of the epoch; where none is due, nothing
/// changes.
pub proof fn update_is_requested_when_due(
    session: SessionModel,
    calls: Seq<SessionCall>,
    now: u64,
)
    requires
        sound(session),
        epoch_begins(session),
        after_calls(session, calls).current.epoch == session.current.epoch,
        after_calls(session, calls).pending is None,
        !after_calls(session, calls).update_requested,
        after_calls(session, calls).current.records.s2c_control.next < MAX_RECORDS_PER_EPOCH,
        data_in(session, calls).0 <= u64::MAX,
        data_in(session, calls).1 <= u64::MAX,
    ensures
        ({
            let after = after_calls(session, calls);
            let (records, bytes) = data_in(session, calls);
            let frame = after.update_request();
            let due = now >= session.epoch_started + UPDATE_INTERVAL || records
                >= UPDATE_RECORD_LIMIT || bytes >= UPDATE_BYTE_LIMIT;
            &&& due ==> after.update_checked(now).1 is Ok && after.update_checked(
                now,
            ).1->Ok_0 is Some && after.current.records.s2c_control.sealed(
                frame.encoded(),
                false,
            ) == Ok::<Seq<u8>, Error>(after.update_checked(now).1->Ok_0->Some_0)
            &&& !due ==> after.update_checked(now) == (
                after,
                Ok::<Option<Seq<u8>>, Error>(None),
            )
            &&& frame == (FrameModel {
                frame_type: 0x04,
                flags: 0,
                body: be_bytes(session.current.epoch as nat, 4),
            })
        }),
{
    calls_keep_sessions_sound(session, calls);
    counters_count_the_epoch(session, calls);
    let after = after_calls(session, calls);
    be_bytes_length(session.current.epoch as nat, 4);
    be_bytes_length(after.update_request().body.len(), 2);
}

/// A 32-bit number comes back from its encoding.
proof fn lemma_number(value: u32)
    ensures
        be_bytes(value as nat, 4).len() == 4,
        be_value(be_bytes(value as nat, 4)) == value,
{
    be_bytes_length(value as nat, 4);
    reveal_with_fuel(be_limit, 5);
    be_round_trip(value as nat, 4);
}

/// A full rekey that the client asks for properly begins: the body names the epoch and the
/// next one, an id that no completed rekey has, a key share and a signature of the client
/// on all of that and on the transcript. The server answers, and the next epoch waits for
/// the client for ten seconds.
pub proof fn full_rekey_begins(
    session: SessionModel,
    encoded: Seq<u8>,
    rekey_id: Seq<u8>,
    share: Seq<u8>,
    signature: Seq<u8>,
    client_key: Seq<u8>,
    server_seed: Seq<u8>,
    server_secret: Seq<u8>,
    now: u64,
)
    requires
        session.valid(),
        session.pending is None,
        session.current.epoch < u32::MAX,
        session.current.records.s2c_control.next < 0x1_0000_0000,
        !session.rekey_ids.contains(rekey_id),
        rekey_id.len() == 16,
        share.len() == 32,
        signature.len() == 64,
        ed25519_verified(
            client_key,
            sha256_of(
                text("RekaSerdoba/1 full rekey client") + session.session_id + be_bytes(
                    session.current.epoch as nat,
                    4,
                ) + be_bytes((session.current.epoch + 1) as nat, 4) + rekey_id + share
                    + session.transcript,
            ),
            signature,
        ),
        x25519_shared(server_secret, share) != Seq::new(32, |i: int| 0u8),
        x25519_public(server_secret).len() == 32,
        forall|message: Seq<u8>| (#[trigger] ed25519_signature(server_seed, message)).len() == 64,
    ensures
        ({
            let epoch = session.current.epoch as nat;
            let body = be_bytes(epoch, 4) + be_bytes(epoch + 1, 4) + rekey_id + share + signature;
            let (after, answer) = session.full_rekey_init(
                encoded,
                body,
                client_key,
                server_seed,
                server_secret,
                now,
            );
            &&& body.len() == 120
            &&& answer is Ok
            &&& after.pending is Some
            &&& after.pending->Some_0.state.epoch == epoch + 1
            &&& after.pending->Some_0.evidence is Full
            &&& after.pending->Some_0.evidence->Full_rekey_id == rekey_id
            &&& after.current.epoch == epoch
            &&& after.current.secret == session.current.secret
            &&& after.current.records.c2s_data == session.current.records.c2s_data
            &&& after.current.records.c2s_control == session.current.records.c2s_control
            &&& after.update_requested
            &&& after.update_deadline == Some((now + 10_000_000_000) as nat)
            &&& after.session_id == session.session_id
            &&& after.rekey_ids == session.rekey_ids
            &&& after.ordered()
        }),
{
    let epoch = session.current.epoch;
    let next = (epoch + 1) as u32;
    let body = be_bytes(epoch as nat, 4) + be_bytes(next as nat, 4) + rekey_id + share + signature;
    lemma_number(epoch);
    lemma_number(next);
    assert(body.subrange(0, 4) =~= be_bytes(epoch as nat, 4));
    assert(body.subrange(4, 8) =~= be_bytes(next as nat, 4));
    assert(body.subrange(8, 24) =~= rekey_id);
    assert(body.subrange(24, 56) =~= share);
    assert(body.subrange(56, 120) =~= signature);
    let heard = session.heard(encoded);
    let frame = heard.full_rekey_answer(body, server_seed, server_secret);
    be_bytes_length(frame.body.len(), 2);
    assert(frame.body.len() == 120);
    assert(frame.encoded().len() == 124);
    assert(heard.frame_sent(frame).1 is Ok);
}

/// A key update is asked for by the numbers: ten minutes after the epoch began, after 2^20
/// data records, or after 2^30 bytes of them, and not before. The client then has ten
/// seconds; once they are over the session fails, and before that nothing more is asked.
pub proof fn update_follows_its_schedule(session: SessionModel, now: u64, later: u64)
    requires
        session.ordered(),
        !session.update_requested,
        session.current.records.s2c_control.next < 0x1_0000_0000,
    ensures
        ({
            let due = now >= session.epoch_started + 600_000_000_000 || session.data_records
                >= 0x10_0000 || session.plaintext_bytes >= 0x4000_0000;
            let (after, answer) = session.update_checked(now);
            &&& !due ==> after == session && answer == Ok::<Option<Seq<u8>>, Error>(None)
            &&& due ==> {
                &&& answer is Ok && answer->Ok_0 is Some
                &&& after.update_requested
                &&& after.update_deadline == Some((now + 10_000_000_000) as nat)
                &&& after.pending is None
                &&& after.current.epoch == session.current.epoch
                &&& later < now + 10_000_000_000 ==> after.update_checked(later) == (
                    after,
                    Ok::<Option<Seq<u8>>, Error>(None),
                )
                &&& later >= now + 10_000_000_000 ==> after.update_checked(later).1 == Err::<
                    Option<Seq<u8>>,
                    Error,
                >(Error::UpdateTimedOut)
                &&& after.next_check(later) == now + 10_000_000_000
            }
            &&& session.next_check(now) == session.epoch_started + 600_000_000_000
        }),
{
    let frame = session.update_request();
    be_bytes_length(session.current.epoch as nat, 4);
    be_bytes_length(frame.body.len(), 2);
}

/// Records are taken by their epoch: one of the current epoch is opened with its keys, a
/// control record of a pending epoch with the keys of that, and one of the epoch before as
/// long as its time is not over and room is left. Records of any other epoch are refused.
pub proof fn records_are_taken_by_their_epoch(session: SessionModel, encoded: Seq<u8>, now: u64)
    requires
        session.ordered(),
        header_of(encoded) is Ok,
        session.data_records < u64::MAX,
    ensures
        ({
            let header = header_of(encoded)->Ok_0;
            let (after, answer) = session.opened(encoded, now);
            let current = session.current.receiver(header.kind).opened(encoded);
            let pending = session.pending->Some_0.state.receiver(header.kind).opened(encoded);
            let previous = session.previous->Some_0.state.receiver(header.kind).opened(encoded);
            let waits = session.pending is Some && header.epoch
                == session.pending->Some_0.state.epoch;
            let late = session.previous is Some && header.epoch
                == session.previous->Some_0.state.epoch && session.previous->Some_0.remaining > 0
                && now < session.previous->Some_0.expires_at;
            &&& header.epoch == session.current.epoch && current is Ok && session.plaintext_bytes
                + current->Ok_0.len() <= u64::MAX ==> {
                &&& answer == Ok::<OpenedModel, Error>(
                    (OpenedModel {
                        header,
                        plaintext: current->Ok_0,
                        position: EpochPosition::Current,
                    }),
                )
                &&& header.kind == RecordKind::Data ==> after.data_records == session.data_records
                    + 1 && after.plaintext_bytes == session.plaintext_bytes + current->Ok_0.len()
                &&& header.kind == RecordKind::Control ==> after.data_records
                    == session.data_records && after.plaintext_bytes == session.plaintext_bytes
            }
            &&& header.epoch == session.current.epoch && current is Err ==> answer == Err::<
                OpenedModel,
                Error,
            >(current->Err_0)
            &&& waits && header.kind == RecordKind::Control && pending is Ok ==> answer == Ok::<
                OpenedModel,
                Error,
            >(
                (OpenedModel {
                    header,
                    plaintext: pending->Ok_0,
                    position: EpochPosition::Pending,
                }),
            )
            &&& waits && header.kind == RecordKind::Data ==> answer is Err
            &&& late && previous is Ok ==> answer == Ok::<OpenedModel, Error>(
                (OpenedModel {
                    header,
                    plaintext: previous->Ok_0,
                    position: EpochPosition::Previous,
                }),
            ) && after.previous is Some && after.previous->Some_0.remaining
                == session.previous->Some_0.remaining - 1 && after.previous->Some_0.expires_at
                == session.previous->Some_0.expires_at
            &&& header.epoch != session.current.epoch && !waits && !late ==> answer == Err::<
                OpenedModel,
                Error,
            >(Error::UnknownRecordEpoch)
        }),
{
}

/// The epoch before a change of keys is kept for three seconds and 128 records.
pub proof fn epoch_before_is_kept_for_a_while(session: SessionModel, change: SessionCall)
    requires
        sound(session),
        changes_keys(session, change),
    ensures
        after_call(session, change).previous == Some(
            (PreviousModel {
                state: session.current,
                expires_at: (change_time(change) + 3_000_000_000) as nat,
                remaining: 128,
            }),
        ),
        after_call(session, change).current.epoch == session.pending->Some_0.state.epoch,
        after_call(session, change).current.secret == session.pending->Some_0.state.secret,
        after_call(session, change).current.records.c2s_data
            == session.pending->Some_0.state.records.c2s_data,
        after_call(session, change).current.records.s2c_data
            == session.pending->Some_0.state.records.s2c_data,
        after_call(session, change).session_id == session.session_id,
{
    reveal(after_call);
}

/// What is sealed counts towards the renewal of the epoch: each data record and its bytes,
/// and no control record.
pub proof fn sealed_data_is_counted(session: SessionModel, plaintext: Seq<u8>, padded: bool)
    requires
        session.data_records < u64::MAX,
        session.plaintext_bytes + plaintext.len() <= u64::MAX,
    ensures
        ({
            let (after, record) = session.data_sealed(plaintext, padded);
            &&& after.data_records == session.data_records + 1
            &&& after.plaintext_bytes == session.plaintext_bytes + plaintext.len()
            &&& record is Ok <==> plaintext.len() <= 4080
                && session.current.records.s2c_data.next < 0x1_0000_0000
            &&& record is Ok ==> after.current.records.s2c_data.next
                == session.current.records.s2c_data.next + 1
            &&& after.transcript == session.transcript
        }),
        ({
            let (after, record) = session.control_sealed(plaintext, padded);
            &&& after.data_records == session.data_records
            &&& after.plaintext_bytes == session.plaintext_bytes
            &&& record is Ok <==> plaintext.len() <= 4080
                && session.current.records.s2c_control.next < 0x1_0000_0000
            &&& record is Ok ==> after.current.records.s2c_control.next
                == session.current.records.s2c_control.next + 1
        }),
{
}

/// A path is proved by exactly one answer: the id of its carrier, followed by the tag that
/// was asked for. Every other answer is refused and changes nothing.
pub proof fn path_has_one_answer(
    session: SessionModel,
    encoded: Seq<u8>,
    body: Seq<u8>,
    carrier_id: Seq<u8>,
    expected: Seq<u8>,
)
    requires
        carrier_id.len() == 16,
        expected.len() == 32,
    ensures
        session.path_answered(encoded, body, carrier_id, expected).1 is Ok <==> body == carrier_id
            + expected,
        body != carrier_id + expected ==> session.path_answered(
            encoded,
            body,
            carrier_id,
            expected,
        ).0 == session,
{
    if body == carrier_id + expected {
        assert(body.subrange(0, 16) =~= carrier_id);
        assert(body.subrange(16, 48) =~= expected);
    } else if body.len() == 48 {
        assert(body =~= body.subrange(0, 16) + body.subrange(16, 48));
    }
}

/// A new path can be challenged whenever no change of keys is pending, and the answer that
/// is expected depends on the secret of the session, its id, the carrier, the challenge and
/// everything that was said before.
pub proof fn path_is_challenged(
    session: SessionModel,
    migration_secret: Seq<u8>,
    carrier_id: Seq<u8>,
    challenge: Seq<u8>,
)
    requires
        session.pending is None,
        carrier_id.len() == 16,
        challenge.len() == 32,
        session.current.records.s2c_control.next < 0x1_0000_0000,
    ensures
        ({
            let (after, answer) = session.challenged(migration_secret, carrier_id, challenge);
            &&& answer is Ok
            &&& after.transcript == sha256_of(session.transcript + answer->Ok_0.0)
            &&& answer->Ok_0.1 == hmac_of(
                migration_secret,
                text("RekaSerdoba/1 path response") + session.session_id + carrier_id + challenge
                    + after.transcript,
            )
            &&& session.current.records.s2c_control.sealed(
                seq![0x0cu8, 0u8, 0u8, 48u8] + carrier_id + challenge,
                false,
            ) == Ok::<Seq<u8>, Error>(answer->Ok_0.0)
        }),
{
    let frame = challenge_frame(carrier_id, challenge);
    numbers_are_written_big_endian(frame.body.len());
    assert(frame.encoded() =~= seq![0x0cu8, 0u8, 0u8, 48u8] + carrier_id + challenge);
}

/// A request for a change of keys that names other epochs than the current one and the next
/// is refused, and so is one whose tag or signature is wrong, or whose length is; nothing
/// changes then.
pub proof fn improper_requests_are_refused(
    session: SessionModel,
    encoded: Seq<u8>,
    body: Seq<u8>,
    client_key: Seq<u8>,
    server_seed: Seq<u8>,
    server_secret: Seq<u8>,
    now: u64,
)
    ensures
        ({
            let epochs = be_value(body.subrange(0, 4)) == session.current.epoch && be_value(
                body.subrange(4, 8),
            ) == session.current.epoch + 1;
            let tagged = body.subrange(40, 72) == hmac_of(
                session.current.secret,
                text("RekaSerdoba/1 epoch update") + session.session_id + body.subrange(0, 4)
                    + body.subrange(4, 8) + body.subrange(8, 40) + session.transcript,
            );
            body.len() != 72 || !epochs || !tagged ==> session.update_init(encoded, body, now).1
                is Err && session.update_init(encoded, body, now).0 == session
        }),
        ({
            let epochs = be_value(body.subrange(0, 4)) == session.current.epoch && be_value(
                body.subrange(4, 8),
            ) == session.current.epoch + 1;
            let signed = ed25519_verified(
                client_key,
                sha256_of(
                    text("RekaSerdoba/1 full rekey client") + session.session_id + body.subrange(
                        0,
                        4,
                    ) + body.subrange(4, 8) + body.subrange(8, 24) + body.subrange(24, 56)
                        + session.transcript,
                ),
                body.subrange(56, 120),
            );
            let (after, answer) = session.full_rekey_init(
                encoded,
                body,
                client_key,
                server_seed,
                server_secret,
                now,
            );
            body.len() != 120 || !epochs || !signed ==> answer is Err && after == session
        }),
{
    if body.len() == 72 || body.len() == 120 {
        let first = body.subrange(0, 4);
        let second = body.subrange(4, 8);
        be_value_round_trip(first);
        be_value_round_trip(second);
        reveal_with_fuel(be_limit, 5);
    }
}

/// A session begins in epoch 0 with the keys it was given, a window of 4096 numbers for each
/// stream, nothing sealed and nothing taken, and no change of keys under way. Each later epoch
/// begins so too, with keys of its own.
pub proof fn sessions_begin_fresh(
    session_id: Seq<u8>,
    secret: Seq<u8>,
    keys: EpochKeysModel,
    transcript: Seq<u8>,
    now: u64,
    epoch: u32,
)
    ensures
        ({
            let session = SessionModel::starting(session_id, secret, keys, transcript, now);
            &&& session.session_id == session_id
            &&& session.transcript == sha256_of(
                text("RekaSerdoba/1 control transcript") + transcript + session_id,
            )
            &&& session.current.epoch == 0
            &&& session.current.secret == secret
            &&& session.current.records == LayerModel::fresh(session_id, 0, keys, 4096)
            &&& session.pending is None
            &&& session.previous is None
            &&& session.epoch_started == now
            &&& session.data_records == 0
            &&& session.plaintext_bytes == 0
            &&& !session.update_requested
            &&& session.update_deadline is None
            &&& session.rekey_ids.len() == 0
        }),
        ({
            let state = EpochModel::starting(secret, session_id, epoch);
            let context = session_id + be_bytes(epoch as nat, 4);
            let own = EpochKeysModel {
                c2s_data: KeyModel {
                    key: derived(secret, text("data c2s") + text(" key"), context, 32),
                    iv: derived(secret, text("data c2s") + text(" iv"), context, 12),
                },
                s2c_data: KeyModel {
                    key: derived(secret, text("data s2c") + text(" key"), context, 32),
                    iv: derived(secret, text("data s2c") + text(" iv"), context, 12),
                },
                c2s_control: KeyModel {
                    key: derived(secret, text("control c2s") + text(" key"), context, 32),
                    iv: derived(secret, text("control c2s") + text(" iv"), context, 12),
                },
                s2c_control: KeyModel {
                    key: derived(secret, text("control s2c") + text(" key"), context, 32),
                    iv: derived(secret, text("control s2c") + text(" iv"), context, 12),
                },
            };
            &&& state.epoch == epoch
            &&& state.secret == secret
            &&& state.records == LayerModel::fresh(session_id, epoch, own, 4096)
        }),
{
}

/// A record, or the reason for which there is none, as values.
pub open spec fn record_view(record: Result<Vec<u8>, Error>) -> Result<Seq<u8>, Error> {
    match record {
        Ok(bytes) => Ok(bytes@),
        Err(error) => Err(error),
    }
}

/// What is said of a session holds of what it does: sealing and opening records, changing the
/// keys, asking for that when it is due, and proving a path. A full rekey draws a secret of
/// its own.
pub proof fn sessions_do_what_is_said()
    ensures
        forall|session: &mut RekeySession, plaintext: &[u8], padded: bool, record: Result<Vec<u8>, Error>|
            #[trigger]
            call_ensures(RekeySession::seal_data, (session, plaintext, padded), record) ==> (
            final(session)@,
            record_view(record),
        ) == session@.data_sealed(plaintext@, padded),
        forall|session: &mut RekeySession, plaintext: &[u8], padded: bool, record: Result<Vec<u8>, Error>|
            #[trigger]
            call_ensures(RekeySession::seal_control, (session, plaintext, padded), record) ==> (
            final(session)@,
            record_view(record),
        ) == session@.control_sealed(plaintext@, padded),
        forall|session: &mut RekeySession, encoded: &[u8], now: u64, opened: Result<OpenedRecord, Error>|
            #[trigger]
            call_ensures(RekeySession::open, (session, encoded, now), opened) ==> {
                let (after, stated) = session@.opened(encoded@, now);
                &&& final(session)@ == after
                &&& opened is Ok <==> stated is Ok
                &&& opened is Ok ==> opened->Ok_0.header@ == stated->Ok_0.header
                    && opened->Ok_0.plaintext@ == stated->Ok_0.plaintext && opened->Ok_0.position
                    == stated->Ok_0.position
                &&& opened is Err ==> opened->Err_0 == stated->Err_0
            },
        forall|
            session: &mut RekeySession,
            encoded: &[u8],
            body: &[u8],
            now: u64,
            record: Result<Vec<u8>, Error>,
        | #[trigger]
            call_ensures(RekeySession::accept_update_init, (session, encoded, body, now), record)
                ==> (final(session)@, record_view(record)) == session@.update_init(
                encoded@,
                body@,
                now,
            ),
        forall|
            session: &mut RekeySession,
            encoded: &[u8],
            body: &[u8],
            now: u64,
            record: Result<Vec<u8>, Error>,
        | #[trigger]
            call_ensures(RekeySession::accept_update_commit, (session, encoded, body, now), record)
                ==> (final(session)@, record_view(record)) == session@.update_commit(
                encoded@,
                body@,
                now,
            ),
        forall|
            session: &mut RekeySession,
            encoded: &[u8],
            body: &[u8],
            now: u64,
            record: Result<Vec<u8>, Error>,
        | #[trigger]
            call_ensures(
                RekeySession::accept_full_rekey_confirm,
                (session, encoded, body, now),
                record,
            ) ==> (final(session)@, record_view(record)) == session@.full_rekey_confirm(
                encoded@,
                body@,
                now,
            ),
        forall|
            session: &mut RekeySession,
            encoded: &[u8],
            body: &[u8],
            client_key: &[u8; 32],
            server_key: &[u8; 32],
            now: u64,
            record: Result<Vec<u8>, Error>,
        | #[trigger]
            call_ensures(
                RekeySession::accept_full_rekey_init,
                (session, encoded, body, client_key, server_key, now),
                record,
            ) ==> exists|secret: Seq<u8>|
                secret.len() == 32 && (final(session)@, record_view(record))
                    == #[trigger] session@.full_rekey_init(
                    encoded@,
                    body@,
                    client_key@,
                    server_key@,
                    secret,
                    now,
                ),
        forall|session: &mut RekeySession, now: u64, request: Result<Option<Vec<u8>>, Error>|
            #[trigger]
            call_ensures(RekeySession::request_update_if_due, (session, now), request) ==> {
                let (after, stated) = session@.update_checked(now);
                &&& final(session)@ == after
                &&& request is Ok <==> stated is Ok
                &&& request is Ok ==> (request->Ok_0 is Some <==> stated->Ok_0 is Some)
                &&& request is Ok && request->Ok_0 is Some ==> request->Ok_0->Some_0@
                    == stated->Ok_0->Some_0
                &&& request is Err ==> request->Err_0 == stated->Err_0
            },
        forall|session: &RekeySession, now: u64, moment: u128| #[trigger]
            call_ensures(RekeySession::next_update_check, (session, now), moment) ==> moment
                == session@.next_check(now),
        forall|session: &RekeySession, transcript: &[u8; 32]| #[trigger]
            call_ensures(RekeySession::transcript, (session,), transcript) ==> transcript@
                == session@.transcript,
        forall|
            session: &mut RekeySession,
            encoded: &[u8],
            body: &[u8],
            carrier_id: [u8; 16],
            expected: [u8; 32],
            answer: Result<(), Error>,
        | #[trigger]
            call_ensures(
                RekeySession::accept_path_response,
                (session, encoded, body, carrier_id, expected),
                answer,
            ) ==> (final(session)@, answer) == session@.path_answered(
                encoded@,
                body@,
                carrier_id@,
                expected@,
            ),
{
}

/// Keys change only for the client that asked for it: a routine update is committed to by the
/// epoch and the tag that follow from the request and by nothing else, a full rekey is confirmed
/// by its own, and each only while its own kind is pending. A full rekey does not begin with a
/// shared secret of zeros, and everything that is refused leaves the keys as they were.
pub proof fn improper_confirmations_are_refused(
    session: SessionModel,
    encoded: Seq<u8>,
    body: Seq<u8>,
    client_key: Seq<u8>,
    server_seed: Seq<u8>,
    server_secret: Seq<u8>,
    now: u64,
)
    ensures
        session.update_commit(encoded, body, now).1 is Ok ==> session.pending is Some && {
            let pending = session.pending->Some_0;
            &&& pending.evidence is Routine
            &&& body == be_bytes(pending.state.epoch as nat, 4) + hmac_of(
                pending.evidence->Routine_confirm_key,
                text("client commit") + pending.evidence->Routine_context,
            )
        },
        session.full_rekey_confirm(encoded, body, now).1 is Ok ==> session.pending is Some && {
            let pending = session.pending->Some_0;
            &&& pending.evidence is Full
            &&& body == be_bytes(pending.state.epoch as nat, 4) + hmac_of(
                pending.evidence->Full_confirm_key,
                text("client confirm") + pending.evidence->Full_context,
            )
        },
        ({
            let (after, answer) = session.full_rekey_init(
                encoded,
                body,
                client_key,
                server_seed,
                server_secret,
                now,
            );
            &&& answer is Ok ==> x25519_shared(server_secret, body.subrange(24, 56)) != Seq::new(
                32,
                |i: int| 0u8,
            )
            &&& answer is Err ==> after.pending == session.pending && after.current.secret
                == session.current.secret && after.current.epoch == session.current.epoch
        }),
        ({
            let (after, answer) = session.update_init(encoded, body, now);
            answer is Err ==> after.pending == session.pending && after.current.secret
                == session.current.secret && after.current.epoch == session.current.epoch
        }),
{
    if body.len() == 36 {
        be_value_round_trip(body.subrange(0, 4));
        assert(body =~= body.subrange(0, 4) + body.subrange(4, 36));
    }
}

} // verus!
