//! What an established session does with the records that arrive.
use crate::carrier::CarrierEvent;
use crate::client::{Client, ClientModel, IdentityModel, ServerIdentity};
use crate::course::{full_rekey_begins, path_has_one_answer};
use crate::crypto::{
    ed25519_signature, ed25519_verified, hmac_of, random_bytes, sha256_of, x25519_public,
    x25519_random_secret, x25519_shared,
};
use crate::error::Error;
use crate::exchange::{EstablishedModel, EstablishedSession};
use crate::fragment::{
    expiry_drops_only, fragment_parsing_undoes_encoding, lower_limits_are_kept, FragmentModel,
    FragmentReassembler, ReassemblerModel, MAX_REASSEMBLIES,
};
use crate::frame::{
    all_encoded, frame_views, frames_of, known_frames_come_back, parse_frames,
    parsing_undoes_encoding, Frame, FrameModel, RecordKind,
};
use crate::ipv4::{packet_problem, plain_packet_is_judged_by_its_bytes, validate_ipv4_packet};
use crate::kdf::derived;
use crate::rekey::{
    full_rekey_completes, routine_update_completes, EpochPosition, OpenedModel, OpenedRecord,
    RekeySession, SessionModel,
};
use crate::wire::{append, be_bytes, numbers_are_written_big_endian, text};
use vstd::prelude::*;

verus! {

/// What a data frame is answered, and what is wrong with it.
pub open spec fn data_frame_answer(frame: FrameModel, source: Seq<u8>) -> Result<
    Option<FrameModel>,
    Error,
> {
    if frame.flags != 0 {
        Err(Error::UnsupportedDataFlags)
    } else if frame.frame_type == 0x01 {
        match packet_problem(frame.body, source) {
            Some(error) => Err(error),
            None => Ok(None),
        }
    } else if frame.frame_type == 0x02 {
        Err(Error::Ipv6NotEnabled)
    } else if frame.frame_type == 0x04 {
        if frame.body.len() != 0 {
            Err(Error::KeepaliveNotEmpty)
        } else {
            Ok(Some(FrameModel { frame_type: 0x04, flags: 0, body: Seq::empty() }))
        }
    } else if frame.frame_type == 0x05 {
        if frame.body.len() > 64 {
            Err(Error::PathProbeTooLarge)
        } else {
            Ok(Some(FrameModel { frame_type: 0x06, flags: 0, body: frame.body }))
        }
    } else if frame.frame_type == 0x06 && frame.body.len() > 64 {
        Err(Error::PathProbeReplyTooLarge)
    } else {
        Ok(None)
    }
}

/// A frame, if there is one, as values.
pub open spec fn frame_answer_view(answer: Result<Option<Frame>, Error>) -> Result<
    Option<FrameModel>,
    Error,
> {
    match answer {
        Ok(Some(frame)) => Ok(Some(frame@)),
        Ok(None) => Ok(None),
        Err(error) => Err(error),
    }
}

/// Checks a data frame of a client. The answer is the frame to send back, if any.
pub fn validate_data_frame(frame: &Frame, client: &Client) -> (answer: Result<Option<Frame>, Error>)
    ensures
        frame_answer_view(answer) == data_frame_answer(frame@, client@.tunnel_ipv4),
{
    if frame.flags != 0 {
        return Err(Error::UnsupportedDataFlags);
    }
    match frame.frame_type {
        0x01 => {
            validate_ipv4_packet(&frame.body, client.tunnel_ipv4)?;
            Ok(None)
        },
        0x02 => Err(Error::Ipv6NotEnabled),
        0x04 => {
            if frame.body.len() != 0 {
                return Err(Error::KeepaliveNotEmpty);
            }
            let body: Vec<u8> = Vec::new();
            assert(body@ =~= Seq::empty());
            Ok(Some(Frame { frame_type: 0x04, flags: 0, body }))
        },
        0x05 => {
            if frame.body.len() > 64 {
                return Err(Error::PathProbeTooLarge);
            }
            let mut body: Vec<u8> = Vec::new();
            append(&mut body, &frame.body);
            assert(body@ =~= frame.body@);
            Ok(Some(Frame { frame_type: 0x06, flags: 0, body }))
        },
        0x06 => {
            if frame.body.len() > 64 {
                return Err(Error::PathProbeReplyTooLarge);
            }
            Ok(None)
        },
        _ => Ok(None),
    }
}

/// A frame type that must not share its record with another frame.
pub open spec fn stands_alone(frame_type: u8) -> bool {
    0x04 <= frame_type <= 0x11
}

/// The frames of a record as values.
pub struct ArrivedModel {
    pub kind: RecordKind,
    pub position: EpochPosition,
    pub frames: Seq<FrameModel>,
}

/// What the plaintext of an opened record gives.
pub open spec fn arrived(opened: OpenedModel) -> Result<ArrivedModel, Error> {
    match frames_of(opened.plaintext, opened.header.kind) {
        Err(error) => Err(error),
        Ok(frames) => if opened.header.kind == RecordKind::Control && frames.len() != 1 && (exists|
            i: int,
        |
            0 <= i < frames.len() && stands_alone(#[trigger] frames[i].frame_type)) {
            Err(Error::ControlFrameNotAlone)
        } else {
            Ok(ArrivedModel { kind: opened.header.kind, position: opened.position, frames })
        },
    }
}

/// The frames of a record that was opened.
pub struct ArrivedFrames {
    pub kind: RecordKind,
    pub position: EpochPosition,
    pub frames: Vec<Frame>,
}

impl View for ArrivedFrames {
    type V = ArrivedModel;

    open spec fn view(&self) -> ArrivedModel {
        ArrivedModel {
            kind: self.kind,
            position: self.position,
            frames: frame_views(self.frames@),
        }
    }
}

/// Reads the frames of a record that was opened.
pub fn read_frames(opened: &OpenedRecord) -> (frames: Result<ArrivedFrames, Error>)
    ensures
        match frames {
            Ok(value) => arrived(opened@) == Ok::<ArrivedModel, Error>(value@) && forall|i: int|
                0 <= i < value.frames@.len() ==> (#[trigger] value.frames@[i])@.fits(),
            Err(error) => arrived(opened@) == Err::<ArrivedModel, Error>(error),
        },
{
    let frames = parse_frames(&opened.plaintext, opened.header.kind)?;
    let ghost views = frame_views(frames@);
    if opened.header.kind == RecordKind::Control && frames.len() != 1 {
        for i in 0..frames.len()
            invariant
                views == frame_views(frames@),
                forall|j: int| 0 <= j < i ==> !stands_alone(#[trigger] views[j].frame_type),
                opened.header.kind == RecordKind::Control,
                frames@.len() != 1,
                frames_of(opened@.plaintext, opened@.header.kind) == Ok::<
                    Seq<FrameModel>,
                    Error,
                >(views),
        {
            let frame_type: u8 = frames[i].frame_type;
            if 0x04 <= frame_type && frame_type <= 0x11 {
                assert(stands_alone(views[i as int].frame_type));
                return Err(Error::ControlFrameNotAlone);
            }
        }
    }
    Ok(ArrivedFrames { kind: opened.header.kind, position: opened.position, frames })
}

/// What a record gives: the session after it, and its frames.
pub open spec fn record_arrived(session: EstablishedModel, encoded: Seq<u8>, now: u64) -> (
    EstablishedModel,
    Result<ArrivedModel, Error>,
) {
    let (crypto, answer) = session.crypto.opened(encoded, now);
    let after = EstablishedModel { crypto, ..session };
    match answer {
        Err(error) => (after, Err(error)),
        Ok(opened) => (after, arrived(opened)),
    }
}

/// Opens a record and reads its frames.
pub fn open_frames(session: &mut EstablishedSession, encoded: &[u8], now: u64) -> (frames: Result<
    ArrivedFrames,
    Error,
>)
    requires
        old(session).wf(),
    ensures
        final(session).wf(),
        final(session)@ == record_arrived(old(session)@, encoded@, now).0,
        match frames {
            Ok(value) => record_arrived(old(session)@, encoded@, now).1 == Ok::<
                ArrivedModel,
                Error,
            >(value@) && forall|i: int|
                0 <= i < value.frames@.len() ==> (#[trigger] value.frames@[i])@.fits(),
            Err(error) => record_arrived(old(session)@, encoded@, now).1 == Err::<
                ArrivedModel,
                Error,
            >(error),
        },
{
    let opened = session.crypto.open(encoded, now)?;
    read_frames(&opened)
}

/// What is to be done about a frame, as values.
pub enum ActionModel {
    Nothing,
    Send(Seq<u8>),
    SendUpdate(Seq<u8>),
    SendRekey(Seq<u8>),
    Deliver { packet: Seq<u8>, delay: u64 },
    Close,
}

/// What is to be done about a frame.
pub enum FrameAction {
    Nothing,
    /// Send the record to the client.
    Send(Vec<u8>),
    /// Send the record; a routine key update has begun.
    SendUpdate(Vec<u8>),
    /// Send the record; a full rekey has begun.
    SendRekey(Vec<u8>),
    /// Hand the packet to the kernel, after so many nanoseconds.
    Deliver { packet: Vec<u8>, delay: u64 },
    /// The client ends the session.
    Close,
}

impl View for FrameAction {
    type V = ActionModel;

    open spec fn view(&self) -> ActionModel {
        match self {
            FrameAction::Nothing => ActionModel::Nothing,
            FrameAction::Send(record) => ActionModel::Send(record@),
            FrameAction::SendUpdate(record) => ActionModel::SendUpdate(record@),
            FrameAction::SendRekey(record) => ActionModel::SendRekey(record@),
            FrameAction::Deliver { packet, delay } => ActionModel::Deliver {
                packet: packet@,
                delay: *delay,
            },
            FrameAction::Close => ActionModel::Close,
        }
    }
}

/// Why a frame ends the session, and whether a change of keys failed with it.
#[derive(Clone, Copy, Debug, PartialEq, Eq, Structural)]
pub struct FrameFailure {
    pub error: Error,
    pub rekey_failed: bool,
}

/// A failure that no change of keys had a part in.
pub open spec fn plain_failure(error: Error) -> FrameFailure {
    FrameFailure { error, rekey_failed: false }
}

/// A change of keys that failed.
pub open spec fn rekey_failure(error: Error) -> FrameFailure {
    FrameFailure { error, rekey_failed: true }
}

/// A packet for the kernel, within the limits of the session.
pub open spec fn delivered(session: EstablishedModel, packet: Seq<u8>, now: u64) -> (
    EstablishedModel,
    Result<ActionModel, FrameFailure>,
) {
    let bytes = packet.len() as u64;
    let after = EstablishedModel { policy: session.policy.after(bytes, now), ..session };
    match session.policy.reserved(bytes, now) {
        Err(error) => (after, Err(plain_failure(error))),
        Ok(delay) => (after, Ok(ActionModel::Deliver { packet, delay })),
    }
}

/// How many packets may be incomplete in one epoch, given those of the other.
pub open spec fn fragment_room(other: ReassemblerModel) -> nat {
    if other.assemblies.dom().len() >= MAX_REASSEMBLIES {
        0
    } else {
        (MAX_REASSEMBLIES - other.assemblies.dom().len()) as nat
    }
}

/// What a fragment gives. The id of a packet counts within one epoch, so the fragments of
/// each epoch are kept apart; together they may not be too many.
pub open spec fn fragment_step(
    session: EstablishedModel,
    position: EpochPosition,
    body: Seq<u8>,
    now: u64,
) -> (EstablishedModel, Result<Option<Seq<u8>>, Error>) {
    if position == EpochPosition::Previous {
        let fragments = session.fragments.without_expired(now);
        let (old_fragments, answer) = session.old_fragments.pushed_within(
            body,
            now,
            fragment_room(fragments),
        );
        (EstablishedModel { fragments, old_fragments, ..session }, answer)
    } else {
        let old_fragments = session.old_fragments.without_expired(now);
        let (fragments, answer) = session.fragments.pushed_within(
            body,
            now,
            fragment_room(old_fragments),
        );
        (EstablishedModel { fragments, old_fragments, ..session }, answer)
    }
}

/// The session once a new epoch has begun: what is incomplete belongs to the epoch
/// before.
pub open spec fn epoch_begun(session: EstablishedModel) -> EstablishedModel {
    EstablishedModel {
        fragments: ReassemblerModel::empty(),
        old_fragments: session.fragments,
        ..session
    }
}

/// What a data frame gives.
pub open spec fn data_step(
    session: EstablishedModel,
    position: EpochPosition,
    frame: FrameModel,
    client: ClientModel,
    now: u64,
) -> (EstablishedModel, Result<ActionModel, FrameFailure>) {
    if frame.frame_type == 0x03 {
        let (after, answer) = fragment_step(session, position, frame.body, now);
        match answer {
            Err(error) => (after, Err(plain_failure(error))),
            Ok(None) => (after, Ok(ActionModel::Nothing)),
            Ok(Some(packet)) => match packet_problem(packet, client.tunnel_ipv4) {
                Some(error) => (after, Err(plain_failure(error))),
                None => delivered(after, packet, now),
            },
        }
    } else {
        match data_frame_answer(frame, client.tunnel_ipv4) {
            Err(error) => (session, Err(plain_failure(error))),
            Ok(Some(response)) => {
                let (crypto, record) = session.crypto.data_sealed(response.encoded(), false);
                let after = EstablishedModel { crypto, ..session };
                match record {
                    Err(error) => (after, Err(plain_failure(error))),
                    Ok(bytes) => (after, Ok(ActionModel::Send(bytes))),
                }
            },
            Ok(None) => if frame.frame_type == 0x01 {
                delivered(session, frame.body, now)
            } else {
                (session, Ok(ActionModel::Nothing))
            },
        }
    }
}

/// What a control frame gives.
pub open spec fn control_step(
    session: EstablishedModel,
    position: EpochPosition,
    frame: FrameModel,
    encoded: Seq<u8>,
    identity: IdentityModel,
    client: ClientModel,
    server_secret: Seq<u8>,
    now: u64,
) -> (EstablishedModel, Result<ActionModel, FrameFailure>) {
    if frame.frame_type == 0x02 {
        let response = FrameModel { frame_type: 0x03, flags: 0, body: frame.body };
        let (crypto, record) = session.crypto.control_sealed(response.encoded(), false);
        let after = EstablishedModel { crypto, ..session };
        match record {
            Err(error) => (after, Err(plain_failure(error))),
            Ok(bytes) => (after, Ok(ActionModel::Send(bytes))),
        }
    } else if frame.frame_type == 0x05 {
        if position != EpochPosition::Current || frame.flags != 0 {
            (session, Err(plain_failure(Error::InvalidUpdateInitFrame)))
        } else {
            let (crypto, record) = session.crypto.update_init(encoded, frame.body, now);
            let after = EstablishedModel { crypto, ..session };
            match record {
                Err(error) => (after, Err(rekey_failure(error))),
                Ok(bytes) => (after, Ok(ActionModel::SendUpdate(bytes))),
            }
        }
    } else if frame.frame_type == 0x07 {
        if position != EpochPosition::Pending || frame.flags != 0 {
            (session, Err(plain_failure(Error::InvalidUpdateCommitFrame)))
        } else {
            let (crypto, record) = session.crypto.update_commit(encoded, frame.body, now);
            let after = EstablishedModel { crypto, ..session };
            match record {
                Err(error) => (after, Err(rekey_failure(error))),
                Ok(bytes) => (epoch_begun(after), Ok(ActionModel::Send(bytes))),
            }
        }
    } else if frame.frame_type == 0x09 {
        if position != EpochPosition::Current || frame.flags != 0 {
            (session, Err(plain_failure(Error::InvalidFullRekeyInitFrame)))
        } else {
            let (crypto, record) = session.crypto.full_rekey_init(
                encoded,
                frame.body,
                client.public_key,
                identity.seed,
                server_secret,
                now,
            );
            let after = EstablishedModel { crypto, ..session };
            match record {
                Err(error) => (after, Err(rekey_failure(error))),
                Ok(bytes) => (after, Ok(ActionModel::SendRekey(bytes))),
            }
        }
    } else if frame.frame_type == 0x0B {
        if position != EpochPosition::Pending || frame.flags != 0 {
            (session, Err(plain_failure(Error::InvalidFullRekeyConfirmFrame)))
        } else {
            let (crypto, record) = session.crypto.full_rekey_confirm(encoded, frame.body, now);
            let after = EstablishedModel { crypto, ..session };
            match record {
                Err(error) => (after, Err(rekey_failure(error))),
                Ok(bytes) => (epoch_begun(after), Ok(ActionModel::Send(bytes))),
            }
        }
    } else if frame.frame_type == 0x12 {
        (session, Ok(ActionModel::Close))
    } else {
        (session, Ok(ActionModel::Nothing))
    }
}

/// What a frame gives.
pub open spec fn frame_step(
    session: EstablishedModel,
    kind: RecordKind,
    position: EpochPosition,
    frame: FrameModel,
    encoded: Seq<u8>,
    identity: IdentityModel,
    client: ClientModel,
    server_secret: Seq<u8>,
    now: u64,
) -> (EstablishedModel, Result<ActionModel, FrameFailure>) {
    match kind {
        RecordKind::Data => data_step(session, position, frame, client, now),
        RecordKind::Control => control_step(
            session,
            position,
            frame,
            encoded,
            identity,
            client,
            server_secret,
            now,
        ),
    }
}

/// An action, or a failure, as values.
pub open spec fn action_view(action: Result<FrameAction, FrameFailure>) -> Result<
    ActionModel,
    FrameFailure,
> {
    match action {
        Ok(value) => Ok(value@),
        Err(failure) => Err(failure),
    }
}

/// No packet reaches the kernel but a client's own: what is delivered comes from the
/// client's address, is well formed, and the quota has room for it.
pub proof fn delivered_packets_are_the_clients(
    session: EstablishedModel,
    position: EpochPosition,
    frame: FrameModel,
    client: ClientModel,
    now: u64,
)
    requires
        session.policy.valid(),
        data_step(session, position, frame, client, now).1 is Ok,
        data_step(session, position, frame, client, now).1->Ok_0 is Deliver,
    ensures
        ({
            let (after, action) = data_step(session, position, frame, client, now);
            let packet = action->Ok_0->packet;
            &&& packet_problem(packet, client.tunnel_ipv4) is None
            &&& after.policy.valid()
            &&& after.policy.transferred == session.policy.transferred + packet.len()
        }),
{
    let packet = data_step(session, position, frame, client, now).1->Ok_0->packet;
    assert(packet.len() <= crate::ipv4::TUNNEL_MTU);
}

/// The id of a packet belongs to one epoch: a fragment of one epoch changes nothing of
/// what the other holds but for packets whose time is over, and an epoch begins without
/// incomplete packets.
pub proof fn fragments_stay_in_their_epoch(
    session: EstablishedModel,
    position: EpochPosition,
    body: Seq<u8>,
    now: u64,
)
    ensures
        ({
            let after = fragment_step(session, position, body, now).0;
            &&& position == EpochPosition::Previous ==> after.fragments
                == session.fragments.without_expired(now)
            &&& position != EpochPosition::Previous ==> after.old_fragments
                == session.old_fragments.without_expired(now)
        }),
        epoch_begun(session).fragments == ReassemblerModel::empty(),
{
}

/// No more than 64 packets of a client are incomplete at a time, in both epochs together.
pub proof fn fragments_of_both_epochs_are_limited(
    session: EstablishedModel,
    position: EpochPosition,
    body: Seq<u8>,
    now: u64,
)
    requires
        session.fragments.valid(),
        session.old_fragments.valid(),
        session.fragments.assemblies.dom().len() + session.old_fragments.assemblies.dom().len()
            <= MAX_REASSEMBLIES,
    ensures
        ({
            let after = fragment_step(session, position, body, now).0;
            after.fragments.assemblies.dom().len() + after.old_fragments.assemblies.dom().len()
                <= MAX_REASSEMBLIES
        }),
        epoch_begun(session).fragments.assemblies.dom().len() + epoch_begun(
            session,
        ).old_fragments.assemblies.dom().len() <= MAX_REASSEMBLIES,
{
    expiry_drops_only(session.fragments, now);
    expiry_drops_only(session.old_fragments, now);
    assert(ReassemblerModel::empty().assemblies.dom() =~= Set::<u32>::empty());
    if position == EpochPosition::Previous {
        lower_limits_are_kept(
            session.old_fragments,
            body,
            now,
            fragment_room(session.fragments.without_expired(now)),
        );
    } else {
        lower_limits_are_kept(
            session.fragments,
            body,
            now,
            fragment_room(session.old_fragments.without_expired(now)),
        );
    }
}

/// A frame that has a part in a change of keys is taken only alone in its record.
pub proof fn key_frames_stand_alone(opened: OpenedModel, index: int)
    requires
        arrived(opened) is Ok,
        opened.header.kind == RecordKind::Control,
        0 <= index < arrived(opened)->Ok_0.frames.len(),
        stands_alone(arrived(opened)->Ok_0.frames[index].frame_type),
    ensures
        arrived(opened)->Ok_0.frames.len() == 1,
{
}

/// A packet for the kernel, if the session's limits allow it.
fn deliver(session: &mut EstablishedSession, packet: Vec<u8>, now: u64) -> (action: Result<
    FrameAction,
    FrameFailure,
>)
    requires
        old(session).wf(),
    ensures
        final(session).wf(),
        final(session)@ == delivered(old(session)@, packet@, now).0,
        action_view(action) == delivered(old(session)@, packet@, now).1,
{
    match session.policy.reserve(packet.len(), now) {
        Ok(delay) => Ok(FrameAction::Deliver { packet, delay }),
        Err(error) => Err(FrameFailure { error, rekey_failed: false }),
    }
}

/// Takes a fragment of the current epoch or of the one before.
fn take_fragment(
    session: &mut EstablishedSession,
    position: EpochPosition,
    body: &[u8],
    now: u64,
) -> (packet: Result<Option<Vec<u8>>, Error>)
    requires
        old(session).wf(),
    ensures
        final(session).wf(),
        final(session)@ == fragment_step(old(session)@, position, body@, now).0,
        match packet {
            Ok(Some(bytes)) => fragment_step(old(session)@, position, body@, now).1 == Ok::<
                Option<Seq<u8>>,
                Error,
            >(Some(bytes@)),
            Ok(None) => fragment_step(old(session)@, position, body@, now).1 == Ok::<
                Option<Seq<u8>>,
                Error,
            >(None),
            Err(error) => fragment_step(old(session)@, position, body@, now).1 == Err::<
                Option<Seq<u8>>,
                Error,
            >(error),
        },
{
    if position == EpochPosition::Previous {
        let other: usize = session.fragments.count(now);
        session.old_fragments.push_within(body, now, MAX_REASSEMBLIES - other)
    } else {
        let other: usize = session.old_fragments.count(now);
        session.fragments.push_within(body, now, MAX_REASSEMBLIES - other)
    }
}

/// Notes that a new epoch has begun.
fn begin_epoch(session: &mut EstablishedSession)
    requires
        old(session).wf(),
    ensures
        final(session).wf(),
        final(session)@ == epoch_begun(old(session)@),
{
    let mut held = FragmentReassembler::new();
    std::mem::swap(&mut session.fragments, &mut held);
    session.old_fragments = held;
}

/// Takes a data frame.
fn take_data_frame(
    session: &mut EstablishedSession,
    position: EpochPosition,
    frame: &Frame,
    client: &Client,
    now: u64,
) -> (action: Result<FrameAction, FrameFailure>)
    requires
        old(session).wf(),
    ensures
        final(session).wf(),
        final(session)@ == data_step(old(session)@, position, frame@, client@, now).0,
        action_view(action) == data_step(old(session)@, position, frame@, client@, now).1,
{
    if frame.frame_type == 0x03 {
        return match take_fragment(session, position, &frame.body, now) {
            Err(error) => Err(FrameFailure { error, rekey_failed: false }),
            Ok(None) => Ok(FrameAction::Nothing),
            Ok(Some(packet)) => match validate_ipv4_packet(&packet, client.tunnel_ipv4) {
                Err(error) => Err(FrameFailure { error, rekey_failed: false }),
                Ok(_) => deliver(session, packet, now),
            },
        };
    }
    match validate_data_frame(frame, client) {
        Err(error) => Err(FrameFailure { error, rekey_failed: false }),
        Ok(Some(response)) => match seal_frame(&mut session.crypto, &response) {
            Err(error) => Err(FrameFailure { error, rekey_failed: false }),
            Ok(record) => Ok(FrameAction::Send(record)),
        },
        Ok(None) => if frame.frame_type == 0x01 {
            let mut packet: Vec<u8> = Vec::new();
            append(&mut packet, &frame.body);
            assert(packet@ =~= frame.body@);
            deliver(session, packet, now)
        } else {
            Ok(FrameAction::Nothing)
        },
    }
}

/// What sealing a data frame gives.
pub open spec fn frame_sealed(session: SessionModel, frame: FrameModel) -> (
    SessionModel,
    Result<Seq<u8>, Error>,
) {
    if !frame.fits() {
        (session, Err(Error::FrameBodyTooLarge))
    } else {
        session.data_sealed(frame.encoded(), false)
    }
}

/// Seals a data frame into a record of its own.
pub fn seal_frame(crypto: &mut RekeySession, frame: &Frame) -> (record: Result<Vec<u8>, Error>)
    requires
        old(crypto).wf(),
    ensures
        final(crypto).wf(),
        final(crypto)@ == frame_sealed(old(crypto)@, frame@).0,
        match record {
            Ok(bytes) => frame_sealed(old(crypto)@, frame@).1 == Ok::<Seq<u8>, Error>(bytes@)
                && old(crypto)@.current.records.s2c_data.makes(frame@.encoded(), false, bytes@),
            Err(error) => frame_sealed(old(crypto)@, frame@).1 == Err::<Seq<u8>, Error>(error),
        },
{
    let plaintext = frame.encode()?;
    crypto.seal_data(&plaintext, false)
}

/// Takes a control frame.
#[verifier::rlimit(40)]
#[verifier::spinoff_prover]
fn take_control_frame(
    session: &mut EstablishedSession,
    position: EpochPosition,
    frame: &Frame,
    encoded: &[u8],
    identity: &ServerIdentity,
    client: &Client,
    server_secret: &[u8; 32],
    now: u64,
) -> (action: Result<FrameAction, FrameFailure>)
    requires
        old(session).wf(),
        frame@.fits(),
    ensures
        final(session).wf(),
        final(session)@ == control_step(
            old(session)@,
            position,
            frame@,
            encoded@,
            identity@,
            client@,
            server_secret@,
            now,
        ).0,
        action_view(action) == control_step(
            old(session)@,
            position,
            frame@,
            encoded@,
            identity@,
            client@,
            server_secret@,
            now,
        ).1,
{
    match frame.frame_type {
        0x02 => {
            let mut body: Vec<u8> = Vec::new();
            append(&mut body, &frame.body);
            assert(body@ =~= frame.body@);
            let response = Frame { frame_type: 0x03, flags: 0, body };
            match response.encode() {
                Err(error) => Err(FrameFailure { error, rekey_failed: false }),
                Ok(plaintext) => match session.crypto.seal_control(&plaintext, false) {
                    Err(error) => Err(FrameFailure { error, rekey_failed: false }),
                    Ok(record) => Ok(FrameAction::Send(record)),
                },
            }
        },
        0x05 => {
            if position != EpochPosition::Current || frame.flags != 0 {
                return Err(
                    FrameFailure { error: Error::InvalidUpdateInitFrame, rekey_failed: false },
                );
            }
            match session.crypto.accept_update_init(encoded, &frame.body, now) {
                Err(error) => Err(FrameFailure { error, rekey_failed: true }),
                Ok(record) => Ok(FrameAction::SendUpdate(record)),
            }
        },
        0x07 => {
            if position != EpochPosition::Pending || frame.flags != 0 {
                return Err(
                    FrameFailure { error: Error::InvalidUpdateCommitFrame, rekey_failed: false },
                );
            }
            match session.crypto.accept_update_commit(encoded, &frame.body, now) {
                Err(error) => Err(FrameFailure { error, rekey_failed: true }),
                Ok(record) => {
                    begin_epoch(session);
                    Ok(FrameAction::Send(record))
                },
            }
        },
        0x09 => {
            if position != EpochPosition::Current || frame.flags != 0 {
                return Err(
                    FrameFailure { error: Error::InvalidFullRekeyInitFrame, rekey_failed: false },
                );
            }
            match session.crypto.accept_full_rekey_init_with(
                encoded,
                &frame.body,
                &client.public_key,
                identity.seed(),
                server_secret,
                now,
            ) {
                Err(error) => Err(FrameFailure { error, rekey_failed: true }),
                Ok(record) => Ok(FrameAction::SendRekey(record)),
            }
        },
        0x0B => {
            if position != EpochPosition::Pending || frame.flags != 0 {
                return Err(
                    FrameFailure {
                        error: Error::InvalidFullRekeyConfirmFrame,
                        rekey_failed: false,
                    },
                );
            }
            match session.crypto.accept_full_rekey_confirm(encoded, &frame.body, now) {
                Err(error) => Err(FrameFailure { error, rekey_failed: true }),
                Ok(record) => {
                    begin_epoch(session);
                    Ok(FrameAction::Send(record))
                },
            }
        },
        0x12 => Ok(FrameAction::Close),
        _ => Ok(FrameAction::Nothing),
    }
}

/// Takes one frame of a record that arrived, with a server secret that was drawn for
/// it; only the first frame of a full rekey uses the secret.
pub fn take_frame_with(
    session: &mut EstablishedSession,
    kind: RecordKind,
    position: EpochPosition,
    frame: &Frame,
    encoded: &[u8],
    identity: &ServerIdentity,
    client: &Client,
    server_secret: &[u8; 32],
    now: u64,
) -> (action: Result<FrameAction, FrameFailure>)
    requires
        old(session).wf(),
        frame@.fits(),
    ensures
        final(session).wf(),
        final(session)@ == frame_step(
            old(session)@,
            kind,
            position,
            frame@,
            encoded@,
            identity@,
            client@,
            server_secret@,
            now,
        ).0,
        action_view(action) == frame_step(
            old(session)@,
            kind,
            position,
            frame@,
            encoded@,
            identity@,
            client@,
            server_secret@,
            now,
        ).1,
{
    match kind {
        RecordKind::Data => take_data_frame(session, position, frame, client, now),
        RecordKind::Control => take_control_frame(
            session,
            position,
            frame,
            encoded,
            identity,
            client,
            server_secret,
            now,
        ),
    }
}

/// Takes one frame of a record that arrived. A full rekey draws its secret at random.
pub fn take_frame(
    session: &mut EstablishedSession,
    kind: RecordKind,
    position: EpochPosition,
    frame: &Frame,
    encoded: &[u8],
    identity: &ServerIdentity,
    client: &Client,
    now: u64,
) -> (action: Result<FrameAction, FrameFailure>)
    requires
        old(session).wf(),
        frame@.fits(),
    ensures
        final(session).wf(),
        exists|server_secret: Seq<u8>|
            #![trigger x25519_public(server_secret)]
            server_secret.len() == 32 && final(session)@ == frame_step(
                old(session)@,
                kind,
                position,
                frame@,
                encoded@,
                identity@,
                client@,
                server_secret,
                now,
            ).0 && action_view(action) == frame_step(
                old(session)@,
                kind,
                position,
                frame@,
                encoded@,
                identity@,
                client@,
                server_secret,
                now,
            ).1,
{
    let server_secret: [u8; 32] = if frame.frame_type == 0x09 {
        x25519_random_secret()
    } else {
        [0u8; 32]
    };
    let action = take_frame_with(
        session,
        kind,
        position,
        frame,
        encoded,
        identity,
        client,
        &server_secret,
        now,
    );
    assert(server_secret@.len() == 32);
    assert(x25519_public(server_secret@) == x25519_public(server_secret@));
    action
}

/// A challenge that a new path has yet to answer, as values.
#[verifier::ext_equal]
pub struct ChallengeModel {
    pub carrier_id: Seq<u8>,
    pub expected: Seq<u8>,
}

/// A challenge that a new path has yet to answer.
pub struct PathChallenge {
    carrier_id: [u8; 16],
    expected: [u8; 32],
}

impl View for PathChallenge {
    type V = ChallengeModel;

    closed spec fn view(&self) -> ChallengeModel {
        ChallengeModel { carrier_id: self.carrier_id@, expected: self.expected@ }
    }
}

/// What challenging a new path of a session gives.
pub open spec fn path_challenged(
    session: EstablishedModel,
    carrier_id: Seq<u8>,
    challenge: Seq<u8>,
) -> (EstablishedModel, Result<(ChallengeModel, Seq<u8>), Error>) {
    let (crypto, answer) = session.crypto.challenged(
        session.migration_secret,
        carrier_id,
        challenge,
    );
    let after = EstablishedModel { crypto, ..session };
    match answer {
        Err(error) => (after, Err(error)),
        Ok((record, expected)) => (
            after,
            Ok((ChallengeModel { carrier_id, expected }, record)),
        ),
    }
}

/// A challenge and its record as values.
pub open spec fn challenge_view(answer: Result<(PathChallenge, Vec<u8>), Error>) -> Result<
    (ChallengeModel, Seq<u8>),
    Error,
> {
    match answer {
        Ok((challenge, record)) => Ok((challenge@, record@)),
        Err(error) => Err(error),
    }
}

/// Challenges a new path of a session, with values that were drawn for it.
pub fn challenge_path_with(
    session: &mut EstablishedSession,
    carrier_id: [u8; 16],
    challenge: [u8; 32],
) -> (answer: Result<(PathChallenge, Vec<u8>), Error>)
    requires
        old(session).wf(),
    ensures
        final(session).wf(),
        final(session)@ == path_challenged(old(session)@, carrier_id@, challenge@).0,
        challenge_view(answer) == path_challenged(old(session)@, carrier_id@, challenge@).1,
{
    let (record, expected) = session.crypto.path_challenge(
        session.migration_secret.expose(),
        carrier_id,
        challenge,
    )?;
    Ok((PathChallenge { carrier_id, expected }, record))
}

/// Challenges a new path of a session, with values drawn at random.
pub fn challenge_path(session: &mut EstablishedSession) -> (answer: Result<
    (PathChallenge, Vec<u8>),
    Error,
>)
    requires
        old(session).wf(),
    ensures
        final(session).wf(),
        exists|carrier_id: Seq<u8>, challenge: Seq<u8>|
            carrier_id.len() == 16 && challenge.len() == 32 && (#[trigger] path_challenged(
                old(session)@,
                carrier_id,
                challenge,
            )).0 == final(session)@ && path_challenged(old(session)@, carrier_id, challenge).1
                == challenge_view(answer),
{
    let carrier_id: [u8; 16] = random_bytes();
    let challenge: [u8; 32] = random_bytes();
    challenge_path_with(session, carrier_id, challenge)
}

/// What the record gives that should answer a challenge.
pub open spec fn path_proved(
    session: EstablishedModel,
    challenge: ChallengeModel,
    encoded: Seq<u8>,
    now: u64,
) -> (EstablishedModel, Result<(), Error>) {
    let (crypto, answer) = session.crypto.opened(encoded, now);
    let after = EstablishedModel { crypto, ..session };
    match answer {
        Err(error) => (after, Err(error)),
        Ok(opened) => if opened.header.kind != RecordKind::Control || opened.position
            != EpochPosition::Current {
            (after, Err(Error::InvalidMigrationRecord))
        } else {
            match frames_of(opened.plaintext, RecordKind::Control) {
                Err(error) => (after, Err(error)),
                Ok(frames) => if frames.len() != 1 || frames[0].frame_type != 0x0D
                    || frames[0].flags != 0 {
                    (after, Err(Error::InvalidMigrationFrame))
                } else {
                    let (proved, result) = crypto.path_answered(
                        encoded,
                        frames[0].body,
                        challenge.carrier_id,
                        challenge.expected,
                    );
                    (EstablishedModel { crypto: proved, ..session }, result)
                },
            }
        },
    }
}

/// Takes the record that should answer a challenge.
pub fn prove_path(
    session: &mut EstablishedSession,
    challenge: &PathChallenge,
    encoded: &[u8],
    now: u64,
) -> (proved: Result<(), Error>)
    requires
        old(session).wf(),
    ensures
        final(session).wf(),
        final(session)@ == path_proved(old(session)@, challenge@, encoded@, now).0,
        proved == path_proved(old(session)@, challenge@, encoded@, now).1,
{
    let opened = session.crypto.open(encoded, now)?;
    if opened.header.kind != RecordKind::Control || opened.position != EpochPosition::Current {
        return Err(Error::InvalidMigrationRecord);
    }
    let frames = parse_frames(&opened.plaintext, RecordKind::Control)?;
    if frames.len() != 1 || frames[0].frame_type != 0x0D || frames[0].flags != 0 {
        return Err(Error::InvalidMigrationFrame);
    }
    session.crypto.accept_path_response(
        encoded,
        &frames[0].body,
        challenge.carrier_id,
        challenge.expected,
    )
}

/// What happens to a session that is established.
pub enum SessionInput {
    /// Its lifetime is over.
    Deadline,
    /// A key update may be due.
    Timer,
    /// Its carrier delivered something.
    Message(CarrierEvent),
    /// The carrier before delivered something, or its grace period is over.
    OldMessage(Option<CarrierEvent>),
    /// The kernel has a packet for the client; `None` where there will be no more.
    Packet(Option<Vec<u8>>),
    /// A new carrier asks to take over; `None` where there will be no more.
    Candidate(Option<()>),
}

/// What a session is to do.
pub enum SessionStep {
    /// End with an error.
    Fail(Error),
    /// End.
    End,
    /// Look only for a due key update.
    Wait,
    /// Go on without looking for one.
    Skip,
    /// Take a record that the current or the old carrier brought.
    Process { record: Vec<u8>, old: bool },
    /// Answer a ping on the current or the old carrier.
    Pong { payload: Vec<u8>, old: bool },
    /// Close the old carrier.
    CloseOld,
    /// Send a packet to the client.
    Transmit(Vec<u8>),
    /// Have the new carrier prove its path.
    ProvePath,
}

/// Decides what a session does next.
pub fn session_step(input: SessionInput) -> (step: SessionStep)
    ensures
        match input {
            SessionInput::Deadline => step == SessionStep::Fail(Error::SessionLifetimeExpired),
            SessionInput::Timer => step == SessionStep::Wait,
            SessionInput::Message(CarrierEvent::Binary(record)) => step == (
            SessionStep::Process { record, old: false }),
            SessionInput::Message(CarrierEvent::Ping(payload)) => step == (
            SessionStep::Pong { payload, old: false }),
            SessionInput::Message(CarrierEvent::Close) => step == SessionStep::End,
            SessionInput::Message(CarrierEvent::Ignore) => step == SessionStep::Wait,
            SessionInput::OldMessage(Some(CarrierEvent::Binary(record))) => step == (
            SessionStep::Process { record, old: true }),
            SessionInput::OldMessage(Some(CarrierEvent::Ping(payload))) => step == (
            SessionStep::Pong { payload, old: true }),
            SessionInput::OldMessage(Some(CarrierEvent::Close)) => step == SessionStep::CloseOld,
            SessionInput::OldMessage(Some(CarrierEvent::Ignore)) => step == SessionStep::Wait,
            SessionInput::OldMessage(None) => step == SessionStep::CloseOld,
            SessionInput::Packet(Some(packet)) => step == SessionStep::Transmit(packet),
            SessionInput::Packet(None) => step == SessionStep::End,
            SessionInput::Candidate(Some(_)) => step == SessionStep::ProvePath,
            SessionInput::Candidate(None) => step == SessionStep::Skip,
        },
{
    match input {
        SessionInput::Deadline => SessionStep::Fail(Error::SessionLifetimeExpired),
        SessionInput::Timer => SessionStep::Wait,
        SessionInput::Message(event) => match event {
            CarrierEvent::Binary(record) => SessionStep::Process { record, old: false },
            CarrierEvent::Ping(payload) => SessionStep::Pong { payload, old: false },
            CarrierEvent::Close => SessionStep::End,
            CarrierEvent::Ignore => SessionStep::Wait,
        },
        SessionInput::OldMessage(Some(event)) => match event {
            CarrierEvent::Binary(record) => SessionStep::Process { record, old: true },
            CarrierEvent::Ping(payload) => SessionStep::Pong { payload, old: true },
            CarrierEvent::Close => SessionStep::CloseOld,
            CarrierEvent::Ignore => SessionStep::Wait,
        },
        SessionInput::OldMessage(None) => SessionStep::CloseOld,
        SessionInput::Packet(Some(packet)) => SessionStep::Transmit(packet),
        SessionInput::Packet(None) => SessionStep::End,
        SessionInput::Candidate(Some(_)) => SessionStep::ProvePath,
        SessionInput::Candidate(None) => SessionStep::Skip,
    }
}

/// How long the carrier before is still heard, in nanoseconds.
pub const OLD_CARRIER_GRACE: u64 = 3_000_000_000;

/// Until when the carrier before a move is heard, if there is one.
pub struct OldCarrier {
    until: Option<u128>,
}

impl View for OldCarrier {
    type V = Option<nat>;

    closed spec fn view(&self) -> Option<nat> {
        match self.until {
            Some(until) => Some(until as nat),
            None => None,
        }
    }
}

impl OldCarrier {
    /// The session has not moved yet.
    pub fn none() -> (old_carrier: Self)
        ensures
            old_carrier@ is None,
    {
        OldCarrier { until: None }
    }

    /// The session has moved: the carrier that it had is heard for three more seconds.
    /// Whether one from an earlier move is to be closed now is returned.
    pub fn moved(&mut self, now: u64) -> (closes: bool)
        ensures
            closes == (old(self)@ is Some),
            final(self)@ == Some((now + OLD_CARRIER_GRACE) as nat),
    {
        let closes = self.until.is_some();
        self.until = Some(now as u128 + OLD_CARRIER_GRACE as u128);
        closes
    }

    /// The old carrier is closed, if there is one; whether there was one is returned.
    pub fn closed(&mut self) -> (closes: bool)
        ensures
            closes == (old(self)@ is Some),
            final(self)@ is None,
    {
        let closes = self.until.is_some();
        self.until = None;
        closes
    }

    /// Until when the old carrier is heard.
    pub fn until(&self) -> (until: Option<u128>)
        ensures
            until is Some <==> self@ is Some,
            until is Some ==> self@ == Some(until->Some_0 as nat),
    {
        self.until
    }
}

/// A whole packet of a client is delivered as it is, whenever the session's limits allow:
/// nothing else decides. Where they do not allow it, the session ends for their reason, and
/// where something is wrong with the packet, for that.
pub proof fn client_packets_are_delivered(
    session: EstablishedModel,
    position: EpochPosition,
    packet: Seq<u8>,
    client: ClientModel,
    now: u64,
)
    ensures
        ({
            let frame = FrameModel { frame_type: 0x01, flags: 0, body: packet };
            let (after, action) = data_step(session, position, frame, client, now);
            let answer = session.policy.reserved(packet.len() as u64, now);
            match packet_problem(packet, client.tunnel_ipv4) {
                Some(error) => after == session && action == Err::<ActionModel, FrameFailure>(
                    (FrameFailure { error, rekey_failed: false }),
                ),
                None => {
                    &&& answer is Ok ==> action == Ok::<ActionModel, FrameFailure>(
                        (ActionModel::Deliver { packet, delay: answer->Ok_0 }),
                    )
                    &&& answer is Err ==> action == Err::<ActionModel, FrameFailure>(
                        (FrameFailure { error: answer->Err_0, rekey_failed: false }),
                    )
                    &&& after.policy == session.policy.after(packet.len() as u64, now)
                    &&& after.crypto == session.crypto
                    &&& after.fragments == session.fragments
                    &&& after.old_fragments == session.old_fragments
                },
            }
        }),
{
}

/// A plain packet of a client reaches the kernel: one with a header of 20 bytes, a right
/// length field of at most 1280, the client's source and words that add up to nothing in ones'
/// complement arithmetic is delivered, while the session lasts and its quota has room. Its
/// payload does not matter.
pub proof fn plain_packet_reaches_the_kernel(
    session: EstablishedModel,
    position: EpochPosition,
    packet: Seq<u8>,
    client: ClientModel,
    now: u64,
)
    requires
        20 <= packet.len() <= 1280,
        packet[0] == 0x45,
        packet[2] * 256 + packet[3] == packet.len(),
        client.tunnel_ipv4 == seq![packet[12], packet[13], packet[14], packet[15]],
        ((packet[0] + packet[2] + packet[4] + packet[6] + packet[8] + packet[10] + packet[12]
            + packet[14] + packet[16] + packet[18]) * 256 + packet[1] + packet[3] + packet[5]
            + packet[7] + packet[9] + packet[11] + packet[13] + packet[15] + packet[17]
            + packet[19]) % 65535 == 0,
        session.policy.transferred + packet.len() <= u64::MAX,
        session.policy.quota is Some ==> session.policy.transferred + packet.len()
            <= session.policy.quota->Some_0,
        now < session.policy.deadline,
        now + session.policy.bucket.delay(packet.len() as u64, now) < session.policy.deadline,
    ensures
        ({
            let frame = FrameModel { frame_type: 0x01, flags: 0, body: packet };
            let (after, action) = data_step(session, position, frame, client, now);
            &&& action == Ok::<ActionModel, FrameFailure>(
                (ActionModel::Deliver {
                    packet,
                    delay: session.policy.bucket.delay(packet.len() as u64, now),
                }),
            )
            &&& after.policy.transferred == session.policy.transferred + packet.len()
        }),
{
    plain_packet_is_judged_by_its_bytes(packet, client.tunnel_ipv4);
}

/// A packet that comes in fragments is treated like one that comes whole: once its last
/// fragment is here, the session does with it what it does with the packet. Until then
/// nothing is done, and a fragment that is refused ends the session.
pub proof fn fragments_become_packets(
    session: EstablishedModel,
    position: EpochPosition,
    body: Seq<u8>,
    client: ClientModel,
    now: u64,
)
    requires
        position == EpochPosition::Previous ==> session.fragments == ReassemblerModel::empty(),
        position != EpochPosition::Previous ==> session.old_fragments == ReassemblerModel::empty(),
    ensures
        ({
            let frame = FrameModel { frame_type: 0x03, flags: 0, body };
            let (after, action) = data_step(session, position, frame, client, now);
            let (kept, answer) = if position == EpochPosition::Previous {
                session.old_fragments.pushed(body, now)
            } else {
                session.fragments.pushed(body, now)
            };
            let held = if position == EpochPosition::Previous {
                EstablishedModel { old_fragments: kept, ..session }
            } else {
                EstablishedModel { fragments: kept, ..session }
            };
            match answer {
                Err(error) => after == held && action == Err::<ActionModel, FrameFailure>(
                    (FrameFailure { error, rekey_failed: false }),
                ),
                Ok(None) => after == held && action == Ok::<ActionModel, FrameFailure>(
                    ActionModel::Nothing,
                ),
                Ok(Some(packet)) => (after, action) == data_step(
                    held,
                    position,
                    (FrameModel { frame_type: 0x01, flags: 0, body: packet }),
                    client,
                    now,
                ),
            }
        }),
{
    let empty = ReassemblerModel::empty();
    assert(empty.without_expired(now).assemblies =~= empty.assemblies);
    assert(empty.assemblies.dom() =~= Set::<u32>::empty());
    assert(fragment_room(empty) == 64);
}

/// The other data frames: a keepalive is answered with one, a probe of at most 64 bytes with
/// its own bytes, and a reply to a probe with nothing. A frame with flags, one for IPv6, a
/// keepalive with a body and a probe or reply that is too large end the session.
pub proof fn data_frames_are_answered(
    session: EstablishedModel,
    position: EpochPosition,
    frame: FrameModel,
    client: ClientModel,
    now: u64,
)
    requires
        frame.frame_type != 0x01,
        frame.frame_type != 0x03,
    ensures
        ({
            let (after, action) = data_step(session, position, frame, client, now);
            let kind = frame.frame_type;
            let length = frame.body.len();
            let alive = session.crypto.data_sealed(seq![0x04u8, 0, 0, 0], false);
            let echo = session.crypto.data_sealed(
                seq![0x06u8, 0, 0, length as u8] + frame.body,
                false,
            );
            &&& action is Err && after.crypto == session.crypto <== frame.flags != 0 || kind
                == 0x02 || kind == 0x04 && length > 0 || (kind == 0x05 || kind == 0x06) && length
                > 64
            &&& frame.flags == 0 && kind == 0x04 && length == 0 ==> after.crypto == alive.0 && (
            alive.1 is Ok ==> action == Ok::<ActionModel, FrameFailure>(
                ActionModel::Send(alive.1->Ok_0),
            ))
            &&& frame.flags == 0 && kind == 0x05 && length <= 64 ==> after.crypto == echo.0 && (
            echo.1 is Ok ==> action == Ok::<ActionModel, FrameFailure>(
                ActionModel::Send(echo.1->Ok_0),
            ))
            &&& frame.flags == 0 && (kind == 0x06 && length <= 64 || kind == 0x00 || kind > 0x06)
                ==> after == session && action == Ok::<ActionModel, FrameFailure>(
                ActionModel::Nothing,
            )
            &&& after.policy == session.policy
            &&& after.fragments == session.fragments
            &&& after.old_fragments == session.old_fragments
        }),
{
    let alive = FrameModel { frame_type: 0x04, flags: 0, body: Seq::empty() };
    let echo = FrameModel { frame_type: 0x06, flags: 0, body: frame.body };
    numbers_are_written_big_endian(0);
    numbers_are_written_big_endian(frame.body.len());
    assert(alive.encoded() =~= seq![0x04u8, 0, 0, 0]);
    if frame.body.len() <= 64 {
        assert(echo.encoded() =~= seq![0x06u8, 0, 0, frame.body.len() as u8] + frame.body);
    }
}

/// The control frames that change no keys: a ping is answered with its own bytes, whatever
/// its flags, the frame that ends the session closes it, and every other one is passed over.
pub proof fn control_frames_are_answered(
    session: EstablishedModel,
    position: EpochPosition,
    frame: FrameModel,
    encoded: Seq<u8>,
    identity: IdentityModel,
    client: ClientModel,
    server_secret: Seq<u8>,
    now: u64,
)
    requires
        frame.frame_type != 0x05,
        frame.frame_type != 0x07,
        frame.frame_type != 0x09,
        frame.frame_type != 0x0B,
        frame.body.len() <= 0xffff,
    ensures
        ({
            let (after, action) = frame_step(
                session,
                RecordKind::Control,
                position,
                frame,
                encoded,
                identity,
                client,
                server_secret,
                now,
            );
            let length = frame.body.len();
            let pong = session.crypto.control_sealed(
                seq![0x03u8, 0, (length / 256) as u8, (length % 256) as u8] + frame.body,
                false,
            );
            &&& frame.frame_type == 0x02 ==> after == (EstablishedModel {
                crypto: pong.0,
                ..session
            }) && (pong.1 is Ok ==> action == Ok::<ActionModel, FrameFailure>(
                ActionModel::Send(pong.1->Ok_0),
            )) && (pong.1 is Err ==> action is Err)
            &&& frame.frame_type == 0x12 ==> after == session && action == Ok::<
                ActionModel,
                FrameFailure,
            >(ActionModel::Close)
            &&& frame.frame_type != 0x02 && frame.frame_type != 0x12 ==> after == session
                && action == Ok::<ActionModel, FrameFailure>(ActionModel::Nothing)
        }),
{
    let pong = FrameModel { frame_type: 0x03, flags: 0, body: frame.body };
    let length = frame.body.len();
    numbers_are_written_big_endian(length);
    assert(length / 256 % 256 == length / 256);
    assert(pong.encoded() =~= seq![0x03u8, 0, (length / 256) as u8, (length % 256) as u8]
        + frame.body);
}

/// What a step changes of a session that only has to do with its keys.
pub open spec fn only_keys_change(before: EstablishedModel, after: EstablishedModel) -> bool {
    &&& after.session_id == before.session_id
    &&& after.policy == before.policy
    &&& after.migration_secret == before.migration_secret
    &&& after.resumption_secret == before.resumption_secret
    &&& after.exporter_secret == before.exporter_secret
}

/// The frames that change the keys have their place: the two requests are taken in the
/// current epoch, the two confirmations in the pending one, each without flags. There the
/// session does what its keys ask for, and the answer goes to the client. Anywhere else they
/// are refused, and nothing changes.
pub proof fn key_frames_have_their_place(
    session: EstablishedModel,
    position: EpochPosition,
    frame: FrameModel,
    encoded: Seq<u8>,
    identity: IdentityModel,
    client: ClientModel,
    server_secret: Seq<u8>,
    now: u64,
)
    requires
        frame.frame_type == 0x05 || frame.frame_type == 0x07 || frame.frame_type == 0x09
            || frame.frame_type == 0x0B,
    ensures
        ({
            let (after, action) = frame_step(
                session,
                RecordKind::Control,
                position,
                frame,
                encoded,
                identity,
                client,
                server_secret,
                now,
            );
            let request = frame.frame_type == 0x05 || frame.frame_type == 0x09;
            let placed = frame.flags == 0 && position == if request {
                EpochPosition::Current
            } else {
                EpochPosition::Pending
            };
            let (crypto, record) = if frame.frame_type == 0x05 {
                session.crypto.update_init(encoded, frame.body, now)
            } else if frame.frame_type == 0x07 {
                session.crypto.update_commit(encoded, frame.body, now)
            } else if frame.frame_type == 0x09 {
                session.crypto.full_rekey_init(
                    encoded,
                    frame.body,
                    client.public_key,
                    identity.seed,
                    server_secret,
                    now,
                )
            } else {
                session.crypto.full_rekey_confirm(encoded, frame.body, now)
            };
            &&& only_keys_change(session, after)
            &&& !placed ==> after == session && action is Err && !action->Err_0.rekey_failed
            &&& placed ==> after.crypto == crypto
            &&& placed && record is Err ==> action == Err::<ActionModel, FrameFailure>(
                (FrameFailure { error: record->Err_0, rekey_failed: true }),
            )
            &&& placed && record is Ok ==> action == Ok::<ActionModel, FrameFailure>(
                if frame.frame_type == 0x05 {
                    ActionModel::SendUpdate(record->Ok_0)
                } else if frame.frame_type == 0x09 {
                    ActionModel::SendRekey(record->Ok_0)
                } else {
                    ActionModel::Send(record->Ok_0)
                },
            )
            &&& request || action is Err ==> after.fragments == session.fragments
                && after.old_fragments == session.old_fragments
            &&& !request && action is Ok ==> after.fragments == ReassemblerModel::empty()
                && after.old_fragments == session.fragments
        }),
{
}

/// A routine key update runs over control frames: where the client sends the right request
/// in the current epoch and then the right commitment in the pending one, both are answered,
/// and the session is in the next epoch.
pub proof fn routine_update_runs_over_frames(
    session: EstablishedModel,
    nonce: Seq<u8>,
    init: Seq<u8>,
    commit: Seq<u8>,
    identity: IdentityModel,
    client: ClientModel,
    server_secret: Seq<u8>,
    now: u64,
    later: u64,
)
    requires
        session.crypto.valid(),
        session.crypto.pending is None,
        session.crypto.current.epoch < u32::MAX,
        session.crypto.current.records.s2c_control.next < 0x1_0000_0000,
        nonce.len() == 32,
        forall|key: Seq<u8>, message: Seq<u8>| (#[trigger] hmac_of(key, message)).len() == 32,
    ensures
        ({
            let epoch = session.crypto.current.epoch as nat;
            let message = text("RekaSerdoba/1 epoch update") + session.crypto.session_id + be_bytes(
                epoch,
                4,
            ) + be_bytes(epoch + 1, 4) + nonce + session.crypto.transcript;
            let context = sha256_of(message);
            let secret = hmac_of(session.crypto.current.secret, context);
            let confirm_key = derived(
                secret,
                text("epoch confirmation"),
                session.crypto.session_id + be_bytes(epoch + 1, 4),
                32,
            );
            let request = FrameModel {
                frame_type: 0x05,
                flags: 0,
                body: be_bytes(epoch, 4) + be_bytes(epoch + 1, 4) + nonce + hmac_of(
                    session.crypto.current.secret,
                    message,
                ),
            };
            let commitment = FrameModel {
                frame_type: 0x07,
                flags: 0,
                body: be_bytes(epoch + 1, 4) + hmac_of(
                    confirm_key,
                    text("client commit") + context,
                ),
            };
            let (asked, first) = frame_step(
                session,
                RecordKind::Control,
                EpochPosition::Current,
                request,
                init,
                identity,
                client,
                server_secret,
                now,
            );
            let (moved, second) = frame_step(
                asked,
                RecordKind::Control,
                EpochPosition::Pending,
                commitment,
                commit,
                identity,
                client,
                server_secret,
                later,
            );
            &&& first is Ok && first->Ok_0 is SendUpdate
            &&& asked.crypto.pending is Some
            &&& asked.crypto.current.epoch == epoch
            &&& second is Ok && second->Ok_0 is Send
            &&& moved.crypto.current.epoch == epoch + 1
            &&& moved.crypto.current.secret == secret
            &&& moved.crypto.pending is None
            &&& moved.fragments == ReassemblerModel::empty()
            &&& moved.old_fragments == session.fragments
        }),
{
    routine_update_completes(session.crypto, nonce, init, commit, now, later);
}

/// A full rekey runs over control frames: where the client sends a request in the current
/// epoch that it has signed, and then confirms with the key that follows from it in the
/// pending one, both are answered, and the session is in the next epoch.
pub proof fn full_rekey_runs_over_frames(
    session: EstablishedModel,
    rekey_id: Seq<u8>,
    share: Seq<u8>,
    signature: Seq<u8>,
    init: Seq<u8>,
    confirm: Seq<u8>,
    identity: IdentityModel,
    client: ClientModel,
    server_secret: Seq<u8>,
    now: u64,
    later: u64,
)
    requires
        session.crypto.valid(),
        session.crypto.pending is None,
        session.crypto.current.epoch < u32::MAX,
        session.crypto.current.records.s2c_control.next < 0x1_0000_0000,
        !session.crypto.rekey_ids.contains(rekey_id),
        rekey_id.len() == 16,
        share.len() == 32,
        signature.len() == 64,
        ed25519_verified(
            client.public_key,
            sha256_of(
                text("RekaSerdoba/1 full rekey client") + session.crypto.session_id + be_bytes(
                    session.crypto.current.epoch as nat,
                    4,
                ) + be_bytes((session.crypto.current.epoch + 1) as nat, 4) + rekey_id + share
                    + session.crypto.transcript,
            ),
            signature,
        ),
        x25519_shared(server_secret, share) != Seq::new(32, |i: int| 0u8),
        x25519_public(server_secret).len() == 32,
        forall|message: Seq<u8>|
            (#[trigger] ed25519_signature(identity.seed, message)).len() == 64,
        forall|key: Seq<u8>, message: Seq<u8>| (#[trigger] hmac_of(key, message)).len() == 32,
    ensures
        ({
            let epoch = session.crypto.current.epoch as nat;
            let request = FrameModel {
                frame_type: 0x09,
                flags: 0,
                body: be_bytes(epoch, 4) + be_bytes(epoch + 1, 4) + rekey_id + share + signature,
            };
            let (asked, first) = frame_step(
                session,
                RecordKind::Control,
                EpochPosition::Current,
                request,
                init,
                identity,
                client,
                server_secret,
                now,
            );
            let evidence = asked.crypto.pending->Some_0.evidence;
            let confirmation = FrameModel {
                frame_type: 0x0B,
                flags: 0,
                body: be_bytes(epoch + 1, 4) + hmac_of(
                    evidence->Full_confirm_key,
                    text("client confirm") + evidence->Full_context,
                ),
            };
            let (moved, second) = frame_step(
                asked,
                RecordKind::Control,
                EpochPosition::Pending,
                confirmation,
                confirm,
                identity,
                client,
                server_secret,
                later,
            );
            &&& first is Ok && first->Ok_0 is SendRekey
            &&& asked.crypto.pending is Some
            &&& asked.crypto.current.epoch == epoch
            &&& second is Ok && second->Ok_0 is Send
            &&& moved.crypto.current.epoch == epoch + 1
            &&& moved.crypto.current.secret == asked.crypto.pending->Some_0.state.secret
            &&& moved.crypto.pending is None
            &&& moved.crypto.rekey_ids.contains(rekey_id)
            &&& moved.fragments == ReassemblerModel::empty()
            &&& moved.old_fragments == session.fragments
        }),
{
    let epoch = session.crypto.current.epoch as nat;
    let body = be_bytes(epoch, 4) + be_bytes(epoch + 1, 4) + rekey_id + share + signature;
    full_rekey_begins(
        session.crypto,
        init,
        rekey_id,
        share,
        signature,
        client.public_key,
        identity.seed,
        server_secret,
        now,
    );
    full_rekey_completes(
        session.crypto,
        init,
        body,
        client.public_key,
        identity.seed,
        server_secret,
        confirm,
        now,
        later,
    );
    let asked = session.crypto.full_rekey_init(
        init,
        body,
        client.public_key,
        identity.seed,
        server_secret,
        now,
    ).0;
    assert(asked.rekey_ids.push(rekey_id).last() == rekey_id);
    assert(asked.rekey_ids.push(rekey_id).contains(rekey_id));
}

/// The frames of a record arrive as they were written: all of them where the record holds
/// data or one frame only, or no frame of a type from 4 to 17; else the record is refused.
pub proof fn frames_arrive_as_written(opened: OpenedModel, frames: Seq<FrameModel>)
    requires
        opened.plaintext == all_encoded(frames),
        forall|i: int|
            0 <= i < frames.len() ==> (#[trigger] frames[i]).body.len() <= 0xffff && 1
                <= frames[i].frame_type <= if opened.header.kind == RecordKind::Data {
                6int
            } else {
                19int
            },
    ensures
        ({
            let answer = arrived(opened);
            let mixed = opened.header.kind == RecordKind::Control && frames.len() != 1 && exists|
                i: int,
            |
                0 <= i < frames.len() && 4 <= (#[trigger] frames[i]).frame_type <= 17;
            &&& mixed ==> answer == Err::<ArrivedModel, Error>(Error::ControlFrameNotAlone)
            &&& !mixed ==> answer == Ok::<ArrivedModel, Error>(
                (ArrivedModel { kind: opened.header.kind, position: opened.position, frames }),
            )
        }),
{
    parsing_undoes_encoding(frames, opened.header.kind);
    known_frames_come_back(frames, opened.header.kind);
    if exists|i: int| 0 <= i < frames.len() && 4 <= (#[trigger] frames[i]).frame_type <= 17 {
        let i = choose|i: int| 0 <= i < frames.len() && 4 <= (#[trigger] frames[i]).frame_type <= 17;
        assert(stands_alone(frames[i].frame_type));
    }
}

/// A record that is opened hands its frames on, and one that is not is refused for the same
/// reason; the session keeps everything but its keys as it was.
pub proof fn records_hand_their_frames_on(session: EstablishedModel, encoded: Seq<u8>, now: u64)
    ensures
        ({
            let (after, answer) = record_arrived(session, encoded, now);
            let (crypto, opened) = session.crypto.opened(encoded, now);
            &&& after.crypto == crypto
            &&& only_keys_change(session, after)
            &&& after.fragments == session.fragments
            &&& after.old_fragments == session.old_fragments
            &&& opened is Err ==> answer == Err::<ArrivedModel, Error>(opened->Err_0)
            &&& opened is Ok ==> answer == arrived(opened->Ok_0)
        }),
{
}

/// A new path is proved by the record with the right answer: one control frame without
/// flags, in the current epoch, whose body is the id of the carrier and the tag that was
/// asked for. No other frame will do.
pub proof fn right_record_proves_the_path(
    session: EstablishedModel,
    challenge: ChallengeModel,
    encoded: Seq<u8>,
    frame: FrameModel,
    now: u64,
)
    requires
        challenge.carrier_id.len() == 16,
        challenge.expected.len() == 32,
        session.crypto.opened(encoded, now).1 is Ok,
        frame.body.len() <= 0xffff,
        1 <= frame.frame_type <= 0x13,
        session.crypto.opened(encoded, now).1->Ok_0.plaintext == frame.encoded(),
    ensures
        ({
            let opened = session.crypto.opened(encoded, now).1->Ok_0;
            let (after, answer) = path_proved(session, challenge, encoded, now);
            &&& opened.header.kind == RecordKind::Control ==> (answer is Ok <==> opened.position
                == EpochPosition::Current && frame.frame_type == 0x0D && frame.flags == 0
                && frame.body == challenge.carrier_id + challenge.expected)
            &&& opened.header.kind == RecordKind::Data ==> answer is Err
            &&& only_keys_change(session, after)
        }),
{
    let opened = session.crypto.opened(encoded, now).1->Ok_0;
    if opened.header.kind == RecordKind::Control {
        let frames = seq![frame];
        assert(frames.skip(1) =~= Seq::<FrameModel>::empty());
        reveal_with_fuel(all_encoded, 2);
        assert(all_encoded(frames) =~= frame.encoded());
        parsing_undoes_encoding(frames, RecordKind::Control);
        known_frames_come_back(frames, RecordKind::Control);
        path_has_one_answer(
            session.crypto.opened(encoded, now).0,
            encoded,
            frame.body,
            challenge.carrier_id,
            challenge.expected,
        );
    }
}

/// A challenge asks the new path for the tag of the session's own secret.
pub proof fn challenge_uses_the_migration_secret(
    session: EstablishedModel,
    carrier_id: Seq<u8>,
    challenge: Seq<u8>,
)
    ensures
        ({
            let (after, answer) = path_challenged(session, carrier_id, challenge);
            let (crypto, sent) = session.crypto.challenged(
                session.migration_secret,
                carrier_id,
                challenge,
            );
            &&& after.crypto == crypto
            &&& only_keys_change(session, after)
            &&& sent is Err ==> answer is Err && answer->Err_0 == sent->Err_0
            &&& sent is Ok ==> answer is Ok && answer->Ok_0.0.carrier_id == carrier_id
                && answer->Ok_0.0.expected == sent->Ok_0.1 && answer->Ok_0.1 == sent->Ok_0.0
        }),
{
}

/// A session does what happens to it asks for: a record is taken as it came, whichever
/// carrier brought it, a ping is answered on its own carrier with its own bytes, and a packet
/// is sent as it came. Only the end of the lifetime is a failure, only the end of the current
/// carrier or of the packets ends the session, and the end of the old carrier closes that.
pub proof fn session_does_what_is_asked(input: SessionInput, step: SessionStep)
    requires
        call_ensures(session_step, (input,), step),
    ensures
        input matches SessionInput::Message(CarrierEvent::Binary(sent)) ==> (step matches
            SessionStep::Process { record, old } && record == sent && !old),
        input matches SessionInput::OldMessage(Some(CarrierEvent::Binary(sent))) ==> (step matches
            SessionStep::Process { record, old } && record == sent && old),
        input matches SessionInput::Message(CarrierEvent::Ping(sent)) ==> (step matches
            SessionStep::Pong { payload, old } && payload == sent && !old),
        input matches SessionInput::OldMessage(Some(CarrierEvent::Ping(sent))) ==> (step matches
            SessionStep::Pong { payload, old } && payload == sent && old),
        input matches SessionInput::Packet(Some(sent)) ==> (step matches SessionStep::Transmit(
            packet,
        ) && packet == sent),
        step is Process ==> input is Message || input is OldMessage,
        step is Pong ==> input is Message || input is OldMessage,
        step is Transmit ==> input is Packet,
        step is Fail <==> input is Deadline,
        step is Fail ==> step->Fail_0 == Error::SessionLifetimeExpired,
        step is End <==> input == SessionInput::Message(CarrierEvent::Close) || input
            == SessionInput::Packet(None),
        step is CloseOld <==> input == SessionInput::OldMessage(Some(CarrierEvent::Close)) || input
            == SessionInput::OldMessage(None),
        step is ProvePath <==> input is Candidate && input->Candidate_0 is Some,
        step is Skip <==> input is Candidate && input->Candidate_0 is None,
{
}

/// The old carrier is heard for three seconds after a move, and until it is closed; a move or
/// its closing tells whether there was one to close.
pub proof fn old_carrier_has_three_seconds()
    ensures
        forall|old_carrier: &mut OldCarrier, now: u64, closes: bool| #[trigger]
            call_ensures(OldCarrier::moved, (old_carrier, now), closes) ==> closes == (old_carrier@
                is Some) && final(old_carrier)@ == Some((now + 3_000_000_000) as nat),
        forall|old_carrier: &mut OldCarrier, closes: bool| #[trigger]
            call_ensures(OldCarrier::closed, (old_carrier,), closes) ==> closes == (old_carrier@
                is Some) && final(old_carrier)@ is None,
        forall|old_carrier: &OldCarrier, until: Option<u128>| #[trigger]
            call_ensures(OldCarrier::until, (old_carrier,), until) ==> (until is Some
                <==> old_carrier@ is Some) && (until is Some ==> until->Some_0
                == old_carrier@->Some_0),
        forall|old_carrier: OldCarrier| #[trigger]
            call_ensures(OldCarrier::none, (), old_carrier) ==> old_carrier@ is None,
{
}

/// What is said of frames and records holds of what the session does: taking a frame changes
/// the session as its step says and answers the same, for some secret that a full rekey draws;
/// opening a record gives its frames; and a challenge and its answer prove a path.
pub proof fn sessions_take_their_steps()
    ensures
        forall|
            session: &mut EstablishedSession,
            kind: RecordKind,
            position: EpochPosition,
            frame: &Frame,
            encoded: &[u8],
            identity: &ServerIdentity,
            client: &Client,
            now: u64,
            action: Result<FrameAction, FrameFailure>,
        | #[trigger]
            call_ensures(
                take_frame,
                (session, kind, position, frame, encoded, identity, client, now),
                action,
            ) ==> exists|secret: Seq<u8>|
                secret.len() == 32 && (final(session)@, action_view(action)) == #[trigger] frame_step(
                    session@,
                    kind,
                    position,
                    frame@,
                    encoded@,
                    identity@,
                    client@,
                    secret,
                    now,
                ),
        forall|
            session: &mut EstablishedSession,
            encoded: &[u8],
            now: u64,
            frames: Result<ArrivedFrames, Error>,
        | #[trigger]
            call_ensures(open_frames, (session, encoded, now), frames) ==> {
                let (after, answer) = record_arrived(session@, encoded@, now);
                &&& final(session)@ == after
                &&& frames is Ok <==> answer is Ok
                &&& frames is Ok ==> frames->Ok_0@ == answer->Ok_0
                &&& frames is Err ==> frames->Err_0 == answer->Err_0
            },
        forall|
            session: &mut EstablishedSession,
            answer: Result<(PathChallenge, Vec<u8>), Error>,
        | #[trigger]
            call_ensures(challenge_path, (session,), answer) ==> exists|
                carrier_id: Seq<u8>,
                challenge: Seq<u8>,
            |
                carrier_id.len() == 16 && challenge.len() == 32 && (
                final(session)@,
                challenge_view(answer),
            ) == #[trigger] path_challenged(session@, carrier_id, challenge),
        forall|
            session: &mut EstablishedSession,
            challenge: &PathChallenge,
            encoded: &[u8],
            now: u64,
            proved: Result<(), Error>,
        | #[trigger]
            call_ensures(prove_path, (session, challenge, encoded, now), proved) ==> (
            final(session)@,
            proved,
        ) == path_proved(session@, challenge@, encoded@, now),
{
}

/// Both epochs share the room for incomplete packets: a packet is begun in either exactly where
/// fewer than 64 are incomplete in both together.
pub proof fn epochs_share_the_room(
    session: EstablishedModel,
    position: EpochPosition,
    fragment: FragmentModel,
    now: u64,
)
    requires
        session.fragments.valid(),
        session.old_fragments.valid(),
        fragment.valid(),
        position == EpochPosition::Previous ==> !session.old_fragments.without_expired(
            now,
        ).assemblies.contains_key(fragment.packet_id),
        position != EpochPosition::Previous ==> !session.fragments.without_expired(
            now,
        ).assemblies.contains_key(fragment.packet_id),
    ensures
        ({
            let together = session.fragments.without_expired(now).assemblies.dom().len()
                + session.old_fragments.without_expired(now).assemblies.dom().len();
            let refused = Err::<Option<Seq<u8>>, Error>(Error::FragmentReassemblyLimit);
            fragment_step(session, position, fragment.encoded(), now).1 == refused <==> together
                >= 64
        }),
{
    fragment_parsing_undoes_encoding(fragment);
    expiry_drops_only(session.fragments, now);
    expiry_drops_only(session.old_fragments, now);
}

/// A data frame that is refused is refused for the first thing that is wrong with it.
pub proof fn data_frames_are_refused_for_a_reason(frame: FrameModel, source: Seq<u8>)
    ensures
        ({
            let answer = data_frame_answer(frame, source);
            let length = frame.body.len();
            &&& frame.flags != 0 ==> answer == Err::<Option<FrameModel>, Error>(
                Error::UnsupportedDataFlags,
            )
            &&& frame.flags == 0 && frame.frame_type == 0x02 ==> answer == Err::<
                Option<FrameModel>,
                Error,
            >(Error::Ipv6NotEnabled)
            &&& frame.flags == 0 && frame.frame_type == 0x04 && length > 0 ==> answer == Err::<
                Option<FrameModel>,
                Error,
            >(Error::KeepaliveNotEmpty)
            &&& frame.flags == 0 && frame.frame_type == 0x05 && length > 64 ==> answer == Err::<
                Option<FrameModel>,
                Error,
            >(Error::PathProbeTooLarge)
            &&& frame.flags == 0 && frame.frame_type == 0x06 && length > 64 ==> answer == Err::<
                Option<FrameModel>,
                Error,
            >(Error::PathProbeReplyTooLarge)
            &&& frame.flags == 0 && frame.frame_type == 0x01 && packet_problem(frame.body, source)
                is Some ==> answer == Err::<Option<FrameModel>, Error>(
                packet_problem(frame.body, source)->Some_0,
            )
        }),
{
}

} // verus!
