//! Records: the authenticated units that cross a carrier.
use crate::wire::{
    append, be_bytes, be_bytes_length, be_limit, be_round_trip, be_value, be_value_round_trip,
    get_array, get_u16, get_u32, get_u64, numbers_are_big_endian, put_u16, put_u32, put_u64,
};
use crate::crypto::{aead_opened, aead_sealed, ct_eq};
use crate::error::Error;
use crate::keys::{nonce_of, nonces_differ, EpochKeysModel, KeyModel};
use crate::replay::{never_accepted_twice, ReplayModel};
use vstd::prelude::*;
use vstd::slice::slice_subrange;

pub use crate::frame::{parse_frames, Frame, RecordKind};
pub use crate::keys::{ApplicationSecrets, EpochKeys, TrafficKey};
pub use crate::replay::ReplayWindow;

verus! {

/// The length of a record's header.
pub const RECORD_HEADER_LEN: usize = 31;

/// The longest ciphertext, with its tag.
pub const MAX_CIPHERTEXT_LEN: usize = 4096;

/// How many records one key may seal.
pub const MAX_RECORDS_PER_EPOCH: u64 = 0x1_0000_0000;

/// The replay window of a session.
pub const DEFAULT_REPLAY_WINDOW: usize = 4096;

/// A record header as values.
#[verifier::ext_equal]
pub struct HeaderModel {
    pub kind: RecordKind,
    pub key_phase: bool,
    pub padded: bool,
    pub session_id: Seq<u8>,
    pub epoch: u32,
    pub number: u64,
    pub ciphertext_len: u16,
}

impl HeaderModel {
    /// The first byte: version 1 in the high half, then the stream, the key phase
    /// and the padding mark.
    pub open spec fn flags(self) -> u8 {
        (16 + (if self.kind == RecordKind::Control {
            8int
        } else {
            0
        }) + (if self.key_phase {
            4int
        } else {
            0
        }) + (if self.padded {
            2int
        } else {
            0
        })) as u8
    }

    /// The header on the wire.
    pub open spec fn encoded(self) -> Seq<u8> {
        seq![self.flags()] + self.session_id + be_bytes(self.epoch as nat, 4) + be_bytes(
            self.number as nat,
            8,
        ) + be_bytes(self.ciphertext_len as nat, 2)
    }

    /// A header that the receiver takes.
    pub open spec fn valid(self) -> bool {
        self.session_id.len() == 16 && 16 <= self.ciphertext_len <= MAX_CIPHERTEXT_LEN
    }
}

/// The header at the front of a record.
pub open spec fn header_of(encoded: Seq<u8>) -> Result<HeaderModel, Error> {
    let ciphertext_len = be_value(encoded.subrange(29, 31)) as u16;
    if encoded.len() < RECORD_HEADER_LEN {
        Err(Error::TruncatedRecordHeader)
    } else if encoded[0] / 16 != 1 || encoded[0] % 2 != 0 {
        Err(Error::InvalidRecordVersion)
    } else if ciphertext_len < 16 || ciphertext_len > MAX_CIPHERTEXT_LEN {
        Err(Error::InvalidCiphertextLength)
    } else {
        Ok(
            HeaderModel {
                kind: if encoded[0] / 8 % 2 == 1 {
                    RecordKind::Control
                } else {
                    RecordKind::Data
                },
                key_phase: encoded[0] / 4 % 2 == 1,
                padded: encoded[0] / 2 % 2 == 1,
                session_id: encoded.subrange(1, 17),
                epoch: be_value(encoded.subrange(17, 21)) as u32,
                number: be_value(encoded.subrange(21, 29)) as u64,
                ciphertext_len,
            },
        )
    }
}

/// Parsing undoes encoding: the header of every record that starts with an encoded
/// header is that header.
pub proof fn header_parsing_undoes_encoding(header: HeaderModel, rest: Seq<u8>)
    requires
        header.valid(),
    ensures
        header.encoded().len() == RECORD_HEADER_LEN,
        header_of(header.encoded() + rest) == Ok::<HeaderModel, Error>(header),
{
    let encoded = header.encoded() + rest;
    be_bytes_length(header.epoch as nat, 4);
    be_bytes_length(header.number as nat, 8);
    be_bytes_length(header.ciphertext_len as nat, 2);
    reveal_with_fuel(be_limit, 9);
    be_round_trip(header.epoch as nat, 4);
    be_round_trip(header.number as nat, 8);
    be_round_trip(header.ciphertext_len as nat, 2);
    assert(encoded.subrange(1, 17) =~= header.session_id);
    assert(encoded.subrange(17, 21) =~= be_bytes(header.epoch as nat, 4));
    assert(encoded.subrange(21, 29) =~= be_bytes(header.number as nat, 8));
    assert(encoded.subrange(29, 31) =~= be_bytes(header.ciphertext_len as nat, 2));
}

/// Encoding undoes parsing: a header that was taken is written as it was read, so
/// a header has one encoding.
pub proof fn header_encoding_undoes_parsing(encoded: Seq<u8>)
    requires
        header_of(encoded) is Ok,
    ensures
        header_of(encoded)->Ok_0.valid(),
        header_of(encoded)->Ok_0.encoded() == encoded.take(RECORD_HEADER_LEN as int),
{
    let header = header_of(encoded)->Ok_0;
    be_value_round_trip(encoded.subrange(17, 21));
    be_value_round_trip(encoded.subrange(21, 29));
    be_value_round_trip(encoded.subrange(29, 31));
    reveal_with_fuel(be_limit, 9);
    assert(header.flags() == encoded[0]);
    assert(header.encoded() =~= encoded.take(31));
}

/// A record shorter than a header is refused.
pub proof fn truncated_header_is_refused(encoded: Seq<u8>)
    requires
        encoded.len() < RECORD_HEADER_LEN,
    ensures
        header_of(encoded) == Err::<HeaderModel, Error>(Error::TruncatedRecordHeader),
{
}

/// What stands in front of every record, authenticated but not encrypted.
#[derive(Clone, Debug, PartialEq, Eq)]
pub struct RecordHeader {
    pub kind: RecordKind,
    pub key_phase: bool,
    pub padded: bool,
    pub session_id: [u8; 16],
    pub epoch: u32,
    pub number: u64,
    pub ciphertext_len: u16,
}

impl View for RecordHeader {
    type V = HeaderModel;

    open spec fn view(&self) -> HeaderModel {
        HeaderModel {
            kind: self.kind,
            key_phase: self.key_phase,
            padded: self.padded,
            session_id: self.session_id@,
            epoch: self.epoch,
            number: self.number,
            ciphertext_len: self.ciphertext_len,
        }
    }
}

impl RecordHeader {
    /// Writes the header.
    pub fn encode(&self) -> (encoded: [u8; RECORD_HEADER_LEN])
        ensures
            encoded@ == self@.encoded(),
    {
        let kind: u8 = match self.kind {
            RecordKind::Data => 0,
            RecordKind::Control => 8,
        };
        let key_phase: u8 = if self.key_phase {
            4
        } else {
            0
        };
        let padded: u8 = if self.padded {
            2
        } else {
            0
        };
        let mut output: Vec<u8> = Vec::new();
        output.push(16 + kind + key_phase + padded);
        append(&mut output, &self.session_id);
        put_u32(&mut output, self.epoch);
        put_u64(&mut output, self.number);
        put_u16(&mut output, self.ciphertext_len);
        proof {
            be_bytes_length(self.epoch as nat, 4);
            be_bytes_length(self.number as nat, 8);
            be_bytes_length(self.ciphertext_len as nat, 2);
            assert(output@ =~= self@.encoded());
            assert(output@.subrange(0, 31) =~= output@);
        }
        get_array(&output, 0)
    }

    /// Reads the header of a record.
    pub fn parse(encoded: &[u8]) -> (header: Result<Self, Error>)
        ensures
            match header {
                Ok(value) => header_of(encoded@) == Ok::<HeaderModel, Error>(value@),
                Err(error) => header_of(encoded@) == Err::<HeaderModel, Error>(error),
            },
    {
        if encoded.len() < RECORD_HEADER_LEN {
            return Err(Error::TruncatedRecordHeader);
        }
        let version_flags: u8 = encoded[0];
        if version_flags / 16 != 1 || version_flags % 2 != 0 {
            return Err(Error::InvalidRecordVersion);
        }
        let ciphertext_len: u16 = get_u16(encoded, 29);
        if ciphertext_len < 16 || ciphertext_len > MAX_CIPHERTEXT_LEN as u16 {
            return Err(Error::InvalidCiphertextLength);
        }
        Ok(
            RecordHeader {
                kind: if version_flags / 8 % 2 == 1 {
                    RecordKind::Control
                } else {
                    RecordKind::Data
                },
                key_phase: version_flags / 4 % 2 == 1,
                padded: version_flags / 2 % 2 == 1,
                session_id: get_array(encoded, 1),
                epoch: get_u32(encoded, 17),
                number: get_u64(encoded, 21),
                ciphertext_len,
            },
        )
    }
}

/// A sending side as values.
#[verifier::ext_equal]
pub struct SenderModel {
    pub kind: RecordKind,
    pub session_id: Seq<u8>,
    pub epoch: u32,
    pub key: KeyModel,
    /// The number of the next record.
    pub next: u64,
}

/// Whether the key phase bit of an epoch is set.
pub open spec fn key_phase_of(epoch: u32) -> bool {
    epoch % 2 == 1
}

impl SenderModel {
    /// A side that has sealed nothing.
    pub open spec fn fresh(
        kind: RecordKind,
        session_id: Seq<u8>,
        epoch: u32,
        key: KeyModel,
    ) -> Self {
        SenderModel { kind, session_id, epoch, key, next: 0 }
    }

    /// The header of the next record.
    pub open spec fn header(self, plaintext: Seq<u8>, padded: bool) -> HeaderModel {
        HeaderModel {
            kind: self.kind,
            key_phase: key_phase_of(self.epoch),
            padded,
            session_id: self.session_id,
            epoch: self.epoch,
            number: self.next,
            ciphertext_len: (plaintext.len() + 16) as u16,
        }
    }

    /// What sealing gives.
    pub open spec fn sealed(self, plaintext: Seq<u8>, padded: bool) -> Result<Seq<u8>, Error> {
        if plaintext.len() + 16 > MAX_CIPHERTEXT_LEN {
            Err(Error::RecordPlaintextTooLarge)
        } else if self.next >= MAX_RECORDS_PER_EPOCH {
            Err(Error::RecordLimitReached)
        } else {
            let header = self.header(plaintext, padded).encoded();
            Ok(
                header + aead_sealed(
                    self.key.key,
                    nonce_of(self.key.iv, self.next),
                    header,
                    plaintext,
                ),
            )
        }
    }

    /// The side after sealing: a record uses up its number.
    pub open spec fn after_seal(self, plaintext: Seq<u8>) -> Self {
        if plaintext.len() + 16 > MAX_CIPHERTEXT_LEN {
            self
        } else if self.next >= MAX_RECORDS_PER_EPOCH {
            SenderModel { next: MAX_RECORDS_PER_EPOCH, ..self }
        } else {
            SenderModel { next: (self.next + 1) as u64, ..self }
        }
    }

    /// The side after sealing several records.
    pub open spec fn after_seals(self, plaintexts: Seq<Seq<u8>>) -> Self
        decreases plaintexts.len(),
    {
        if plaintexts.len() == 0 {
            self
        } else {
            self.after_seals(plaintexts.drop_last()).after_seal(plaintexts.last())
        }
    }

    /// `record` is what this side makes of `plaintext`, and it decrypts to it.
    pub open spec fn makes(self, plaintext: Seq<u8>, padded: bool, record: Seq<u8>) -> bool {
        let header = self.header(plaintext, padded).encoded();
        &&& self.sealed(plaintext, padded) == Ok::<Seq<u8>, Error>(record)
        &&& record.len() == RECORD_HEADER_LEN + plaintext.len() + 16
        &&& aead_opened(
            self.key.key,
            nonce_of(self.key.iv, self.next),
            header,
            record.skip(RECORD_HEADER_LEN as int),
        ) == Some(plaintext)
    }
}

/// Sealing never goes back, and keeps the key.
proof fn lemma_after_seals(sender: SenderModel, plaintexts: Seq<Seq<u8>>)
    requires
        sender.next <= MAX_RECORDS_PER_EPOCH,
    ensures
        sender.next <= sender.after_seals(plaintexts).next <= MAX_RECORDS_PER_EPOCH,
        sender.after_seals(plaintexts).key == sender.key,
    decreases plaintexts.len(),
{
    if plaintexts.len() > 0 {
        lemma_after_seals(sender, plaintexts.drop_last());
    }
}

/// No nonce is used twice under one key: a record that is sealed later, after any
/// number of others, has another nonce.
pub proof fn no_nonce_is_reused(
    sender: SenderModel,
    first: Seq<u8>,
    between: Seq<Seq<u8>>,
    second: Seq<u8>,
    padded1: bool,
    padded2: bool,
)
    requires
        sender.sealed(first, padded1) is Ok,
        sender.after_seal(first).after_seals(between).sealed(second, padded2) is Ok,
    ensures
        sender.after_seal(first).after_seals(between).key == sender.key,
        nonce_of(sender.key.iv, sender.next) != nonce_of(
            sender.key.iv,
            sender.after_seal(first).after_seals(between).next,
        ),
{
    lemma_after_seals(sender.after_seal(first), between);
    nonces_differ(
        sender.key.iv,
        sender.next,
        sender.after_seal(first).after_seals(between).next,
    );
}

/// Seals the records of one stream in one direction.
pub struct RecordSender {
    kind: RecordKind,
    session_id: [u8; 16],
    epoch: u32,
    key: TrafficKey,
    next_number: u64,
}

impl View for RecordSender {
    type V = SenderModel;

    closed spec fn view(&self) -> SenderModel {
        SenderModel {
            kind: self.kind,
            session_id: self.session_id@,
            epoch: self.epoch,
            key: self.key@,
            next: self.next_number,
        }
    }
}

impl RecordSender {
    /// The numbering never passes the limit.
    pub open spec fn wf(&self) -> bool {
        self@.next <= MAX_RECORDS_PER_EPOCH && self@.session_id.len() == 16
    }

    /// A sender whose first record has number 0.
    pub fn new(kind: RecordKind, session_id: [u8; 16], epoch: u32, key: TrafficKey) -> (sender:
        Self)
        ensures
            sender.wf(),
            sender@ == SenderModel::fresh(kind, session_id@, epoch, key@),
    {
        RecordSender { kind, session_id, epoch, key, next_number: 0 }
    }

    /// Seals a plaintext of at most 4080 bytes into the next record.
    pub fn seal(&mut self, plaintext: &[u8], padded: bool) -> (record: Result<Vec<u8>, Error>)
        requires
            old(self).wf(),
        ensures
            final(self).wf(),
            final(self)@ == old(self)@.after_seal(plaintext@),
            match record {
                Ok(bytes) => old(self)@.makes(plaintext@, padded, bytes@),
                Err(error) => old(self)@.sealed(plaintext@, padded) == Err::<Seq<u8>, Error>(
                    error,
                ),
            },
    {
        if plaintext.len() > MAX_CIPHERTEXT_LEN - 16 {
            return Err(Error::RecordPlaintextTooLarge);
        }
        let number: u64 = self.next_number;
        if number >= MAX_RECORDS_PER_EPOCH {
            self.next_number = MAX_RECORDS_PER_EPOCH;
            return Err(Error::RecordLimitReached);
        }
        self.next_number = number + 1;
        let header = RecordHeader {
            kind: self.kind,
            key_phase: self.epoch % 2 == 1,
            padded,
            session_id: self.session_id,
            epoch: self.epoch,
            number,
            ciphertext_len: (plaintext.len() + 16) as u16,
        };
        let encoded_header: [u8; RECORD_HEADER_LEN] = header.encode();
        let ciphertext = self.key.seal(number, &encoded_header, plaintext)?;
        let mut output: Vec<u8> = Vec::new();
        append(&mut output, &encoded_header);
        append(&mut output, &ciphertext);
        assert(output@ =~= encoded_header@ + ciphertext@);
        assert(output@.skip(31) =~= ciphertext@);
        Ok(output)
    }
}

/// A receiving side as values.
#[verifier::ext_equal]
pub struct ReceiverModel {
    pub kind: RecordKind,
    pub session_id: Seq<u8>,
    pub epoch: u32,
    pub key: KeyModel,
    pub replay: ReplayModel,
}

impl ReceiverModel {
    /// A side that has taken nothing.
    pub open spec fn fresh(
        kind: RecordKind,
        session_id: Seq<u8>,
        epoch: u32,
        key: KeyModel,
        window: nat,
    ) -> Self {
        ReceiverModel { kind, session_id, epoch, key, replay: ReplayModel::fresh(window) }
    }

    /// A header that names this side's stream, session and epoch.
    pub open spec fn concerns(self, header: HeaderModel) -> bool {
        &&& header.kind == self.kind
        &&& header.session_id == self.session_id
        &&& header.epoch == self.epoch
        &&& header.key_phase == key_phase_of(self.epoch)
    }

    /// What opening gives. The number is looked up before the cipher is asked.
    pub open spec fn opened(self, encoded: Seq<u8>) -> Result<Seq<u8>, Error> {
        match header_of(encoded) {
            Err(error) => Err(error),
            Ok(header) => if !self.concerns(header) {
                Err(Error::RecordContextMismatch)
            } else if encoded.len() != RECORD_HEADER_LEN + header.ciphertext_len {
                Err(Error::RecordLengthMismatch)
            } else if !self.replay.admits(header.number) {
                Err(Error::RecordReplayed)
            } else {
                match aead_opened(
                    self.key.key,
                    nonce_of(self.key.iv, header.number),
                    encoded.take(RECORD_HEADER_LEN as int),
                    encoded.skip(RECORD_HEADER_LEN as int),
                ) {
                    None => Err(Error::RecordAuthenticationFailed),
                    Some(plaintext) => Ok(plaintext),
                }
            },
        }
    }

    /// The side after opening: only a record that was taken enters the window.
    pub open spec fn after_open(self, encoded: Seq<u8>) -> Self {
        if self.opened(encoded) is Ok {
            ReceiverModel {
                replay: self.replay.accept(header_of(encoded)->Ok_0.number),
                ..self
            }
        } else {
            self
        }
    }

    /// The side after several records arrived.
    pub open spec fn after_opens(self, records: Seq<Seq<u8>>) -> Self
        decreases records.len(),
    {
        if records.len() == 0 {
            self
        } else {
            self.after_opens(records.drop_last()).after_open(records.last())
        }
    }

    /// The two ends of one stream in one direction.
    pub open spec fn pairs_with(self, sender: SenderModel) -> bool {
        &&& self.kind == sender.kind
        &&& self.session_id == sender.session_id
        &&& self.epoch == sender.epoch
        &&& self.key == sender.key
    }
}

/// A receiver gives back what the sender at the other end sealed, as long as the
/// window has not closed over its number.
pub proof fn receiver_opens_what_sender_sealed(
    sender: SenderModel,
    receiver: ReceiverModel,
    plaintext: Seq<u8>,
    padded: bool,
    record: Seq<u8>,
)
    requires
        receiver.pairs_with(sender),
        sender.session_id.len() == 16,
        sender.makes(plaintext, padded, record),
        receiver.replay.admits(sender.next),
    ensures
        receiver.opened(record) == Ok::<Seq<u8>, Error>(plaintext),
{
    let header = sender.header(plaintext, padded);
    header_parsing_undoes_encoding(header, record.skip(31));
    assert(record =~= header.encoded() + record.skip(31));
    assert(record.take(31) =~= header.encoded());
}

/// How the window moves while records arrive: as if the numbers of the records that
/// were taken had been offered to it.
proof fn lemma_after_opens(receiver: ReceiverModel, records: Seq<Seq<u8>>) -> (offered: Seq<u64>)
    ensures
        receiver.after_opens(records) == (ReceiverModel {
            replay: receiver.replay.after(offered),
            ..receiver
        }),
    decreases records.len(),
{
    if records.len() == 0 {
        Seq::empty()
    } else {
        let offered = lemma_after_opens(receiver, records.drop_last());
        let before = receiver.after_opens(records.drop_last());
        if before.opened(records.last()) is Ok {
            let number = header_of(records.last())->Ok_0.number;
            assert(offered.push(number).drop_last() =~= offered);
            offered.push(number)
        } else {
            offered
        }
    }
}

/// A record is taken at most once: whatever arrives in between, a second copy is
/// refused, and so is any other record with the same number.
pub proof fn record_is_taken_once(
    receiver: ReceiverModel,
    record: Seq<u8>,
    between: Seq<Seq<u8>>,
    copy: Seq<u8>,
)
    requires
        receiver.replay.valid(),
        receiver.opened(record) is Ok,
        header_of(copy) is Ok,
        header_of(copy)->Ok_0.number == header_of(record)->Ok_0.number,
    ensures
        receiver.after_open(record).after_opens(between).opened(copy) is Err,
{
    let number = header_of(record)->Ok_0.number;
    let offered = lemma_after_opens(receiver.after_open(record), between);
    never_accepted_twice(receiver.replay, number, offered);
}

/// A record that is refused changes nothing: whatever is taken before it arrives is
/// taken after it too.
pub proof fn refused_record_changes_nothing(
    receiver: ReceiverModel,
    refused: Seq<u8>,
    other: Seq<u8>,
)
    requires
        receiver.opened(refused) is Err,
    ensures
        receiver.after_open(refused) == receiver,
        receiver.after_open(refused).opened(other) == receiver.opened(other),
{
}

/// A record that was cut short is refused wherever the whole one is taken.
pub proof fn truncated_record_is_refused(receiver: ReceiverModel, record: Seq<u8>, cut: int)
    requires
        receiver.opened(record) is Ok,
        0 <= cut < record.len(),
    ensures
        receiver.opened(record.take(cut)) is Err,
{
    if cut >= RECORD_HEADER_LEN {
        let short = record.take(cut);
        assert(short.subrange(29, 31) =~= record.subrange(29, 31));
        assert(short.subrange(1, 17) =~= record.subrange(1, 17));
        assert(short.subrange(17, 21) =~= record.subrange(17, 21));
        assert(short.subrange(21, 29) =~= record.subrange(21, 29));
        assert(header_of(short) == header_of(record));
    }
}

/// Opens the records of one stream in one direction.
pub struct RecordReceiver {
    kind: RecordKind,
    session_id: [u8; 16],
    epoch: u32,
    key: TrafficKey,
    replay: ReplayWindow,
}

impl View for RecordReceiver {
    type V = ReceiverModel;

    closed spec fn view(&self) -> ReceiverModel {
        ReceiverModel {
            kind: self.kind,
            session_id: self.session_id@,
            epoch: self.epoch,
            key: self.key@,
            replay: self.replay@,
        }
    }
}

impl RecordReceiver {
    /// The replay window is well formed.
    pub closed spec fn wf(&self) -> bool {
        self.replay.wf()
    }

    /// A receiver that has taken no record; the width of its replay window must be a
    /// multiple of 64 from 256 to 16384.
    pub fn new(
        kind: RecordKind,
        session_id: [u8; 16],
        epoch: u32,
        key: TrafficKey,
        replay_window: usize,
    ) -> (receiver: Result<Self, Error>)
        ensures
            receiver is Ok <==> 256 <= replay_window <= 16384 && replay_window % 64 == 0,
            receiver is Err ==> receiver->Err_0 == Error::InvalidReplayWindow,
            receiver is Ok ==> receiver->Ok_0.wf() && receiver->Ok_0@ == ReceiverModel::fresh(
                kind,
                session_id@,
                epoch,
                key@,
                replay_window as nat,
            ),
    {
        let replay = ReplayWindow::new(replay_window)?;
        Ok(RecordReceiver { kind, session_id, epoch, key, replay })
    }

    /// Opens a record. Nothing changes where it is refused.
    pub fn open(&mut self, encoded: &[u8]) -> (plaintext: Result<Vec<u8>, Error>)
        requires
            old(self).wf(),
        ensures
            final(self).wf(),
            final(self)@ == old(self)@.after_open(encoded@),
            plaintext is Err ==> final(self)@ == old(self)@,
            match plaintext {
                Ok(bytes) => old(self)@.opened(encoded@) == Ok::<Seq<u8>, Error>(bytes@)
                    && encoded@.len() == bytes@.len() + RECORD_HEADER_LEN + 16,
                Err(error) => old(self)@.opened(encoded@) == Err::<Seq<u8>, Error>(error),
            },
    {
        let header = RecordHeader::parse(encoded)?;
        if header.kind != self.kind || !ct_eq(&header.session_id, &self.session_id) || header.epoch
            != self.epoch || header.key_phase != (self.epoch % 2 == 1) {
            return Err(Error::RecordContextMismatch);
        }
        let expected_len: usize = RECORD_HEADER_LEN + header.ciphertext_len as usize;
        if encoded.len() != expected_len {
            return Err(Error::RecordLengthMismatch);
        }
        if !self.replay.plausible(header.number) {
            return Err(Error::RecordReplayed);
        }
        let prefix = slice_subrange(encoded, 0, RECORD_HEADER_LEN);
        let ciphertext = slice_subrange(encoded, RECORD_HEADER_LEN, encoded.len());
        assert(prefix@ =~= encoded@.take(31));
        assert(ciphertext@ =~= encoded@.skip(31));
        let plaintext = self.key.open(header.number, prefix, ciphertext)?;
        if !self.replay.commit_authenticated(header.number) {
            return Err(Error::RecordReplayed);
        }
        Ok(plaintext)
    }
}

/// The server's four sides of an epoch as values.
#[verifier::ext_equal]
pub struct LayerModel {
    pub c2s_data: ReceiverModel,
    pub s2c_data: SenderModel,
    pub c2s_control: ReceiverModel,
    pub s2c_control: SenderModel,
}

impl LayerModel {
    /// An epoch in which no record has passed.
    pub open spec fn fresh(
        session_id: Seq<u8>,
        epoch: u32,
        keys: EpochKeysModel,
        window: nat,
    ) -> Self {
        LayerModel {
            c2s_data: ReceiverModel::fresh(
                RecordKind::Data,
                session_id,
                epoch,
                keys.c2s_data,
                window,
            ),
            s2c_data: SenderModel::fresh(RecordKind::Data, session_id, epoch, keys.s2c_data),
            c2s_control: ReceiverModel::fresh(
                RecordKind::Control,
                session_id,
                epoch,
                keys.c2s_control,
                window,
            ),
            s2c_control: SenderModel::fresh(
                RecordKind::Control,
                session_id,
                epoch,
                keys.s2c_control,
            ),
        }
    }
}

/// The server's record protection in one epoch.
pub struct SessionRecordLayer {
    pub c2s_data: RecordReceiver,
    pub s2c_data: RecordSender,
    pub c2s_control: RecordReceiver,
    pub s2c_control: RecordSender,
}

impl View for SessionRecordLayer {
    type V = LayerModel;

    open spec fn view(&self) -> LayerModel {
        LayerModel {
            c2s_data: self.c2s_data@,
            s2c_data: self.s2c_data@,
            c2s_control: self.c2s_control@,
            s2c_control: self.s2c_control@,
        }
    }
}

impl SessionRecordLayer {
    /// All four sides are well formed.
    pub open spec fn wf(&self) -> bool {
        self.c2s_data.wf() && self.s2c_data.wf() && self.c2s_control.wf() && self.s2c_control.wf()
    }

    /// The record protection of an epoch that starts.
    pub fn new(session_id: [u8; 16], epoch: u32, keys: EpochKeys, replay_window: usize) -> (layer:
        Result<Self, Error>)
        ensures
            layer is Ok <==> 256 <= replay_window <= 16384 && replay_window % 64 == 0,
            layer is Err ==> layer->Err_0 == Error::InvalidReplayWindow,
            layer is Ok ==> layer->Ok_0.wf() && layer->Ok_0@ == LayerModel::fresh(
                session_id@,
                epoch,
                keys@,
                replay_window as nat,
            ),
    {
        Ok(
            SessionRecordLayer {
                c2s_data: RecordReceiver::new(
                    RecordKind::Data,
                    session_id,
                    epoch,
                    keys.c2s_data,
                    replay_window,
                )?,
                s2c_data: RecordSender::new(RecordKind::Data, session_id, epoch, keys.s2c_data),
                c2s_control: RecordReceiver::new(
                    RecordKind::Control,
                    session_id,
                    epoch,
                    keys.c2s_control,
                    replay_window,
                )?,
                s2c_control: RecordSender::new(
                    RecordKind::Control,
                    session_id,
                    epoch,
                    keys.s2c_control,
                ),
            },
        )
    }
}

/// A header is read from its bytes: version 1 stands in the high half of the first, below it
/// the marks for a control record, the key phase and padding, and a zero; the session, the
/// epoch, the number and the length of the ciphertext follow. Nothing else is asked of it.
pub proof fn headers_are_read_from_their_bytes(encoded: Seq<u8>)
    ensures
        header_of(encoded) is Ok <==> encoded.len() >= 31 && encoded[0] / 16 == 1 && encoded[0] % 2
            == 0 && 16 <= encoded[29] * 256 + encoded[30] <= 4096,
        header_of(encoded) is Ok ==> {
            let header = header_of(encoded)->Ok_0;
            &&& header.kind == RecordKind::Control <==> encoded[0] % 16 >= 8
            &&& header.key_phase <==> encoded[0] % 8 >= 4
            &&& header.padded <==> encoded[0] % 4 >= 2
            &&& header.session_id == encoded.subrange(1, 17)
            &&& header.epoch == encoded[17] * 0x100_0000 + encoded[18] * 0x1_0000 + encoded[19]
                * 256 + encoded[20]
            &&& header.number == be_value(encoded.subrange(21, 29))
            &&& header.ciphertext_len == encoded[29] * 256 + encoded[30]
        },
{
    if encoded.len() >= 31 {
        numbers_are_big_endian(encoded.subrange(17, 21));
        numbers_are_big_endian(encoded.subrange(29, 31));
        be_value_round_trip(encoded.subrange(21, 29));
        reveal_with_fuel(be_limit, 9);
    }
}

/// A record is its header, followed by what the cipher makes of the plaintext under the key
/// of the stream, a nonce of its own and the header. Up to 4080 bytes are sealed, and up to
/// 2^32 records, whose numbers count up from zero.
pub proof fn records_are_sealed_under_their_headers(
    sender: SenderModel,
    plaintext: Seq<u8>,
    padded: bool,
)
    requires
        sender.session_id.len() == 16,
    ensures
        ({
            let mark = 16 + (if sender.kind == RecordKind::Control {
                8int
            } else {
                0
            }) + 4 * (sender.epoch % 2) + (if padded {
                2int
            } else {
                0
            });
            let header = seq![mark as u8] + sender.session_id + be_bytes(sender.epoch as nat, 4)
                + be_bytes(sender.next as nat, 8) + be_bytes(plaintext.len() + 16, 2);
            &&& sender.sealed(plaintext, padded) is Ok <==> plaintext.len() <= 4080 && sender.next
                < 0x1_0000_0000
            &&& sender.sealed(plaintext, padded) is Ok ==> sender.sealed(plaintext, padded)->Ok_0
                == header + aead_sealed(
                sender.key.key,
                nonce_of(sender.key.iv, sender.next),
                header,
                plaintext,
            ) && sender.after_seal(plaintext).next == sender.next + 1
            &&& sender.after_seal(plaintext).key == sender.key
            &&& sender.after_seal(plaintext).epoch == sender.epoch
            &&& sender.after_seal(plaintext).session_id == sender.session_id
            &&& sender.after_seal(plaintext).kind == sender.kind
        }),
        SenderModel::fresh(sender.kind, sender.session_id, sender.epoch, sender.key).next == 0,
{
}

/// A record is opened exactly where its header names the stream, the session, the epoch and
/// the phase of the receiver, it has the length that it says, its number was not taken before
/// and is not too old, and the cipher recovers its plaintext.
pub proof fn records_are_opened_by_their_headers(
    receiver: ReceiverModel,
    encoded: Seq<u8>,
    plaintext: Seq<u8>,
)
    ensures
        receiver.opened(encoded) == Ok::<Seq<u8>, Error>(plaintext) <==> {
            let header = header_of(encoded)->Ok_0;
            &&& header_of(encoded) is Ok
            &&& header.kind == receiver.kind
            &&& header.session_id == receiver.session_id
            &&& header.epoch == receiver.epoch
            &&& header.key_phase == (receiver.epoch % 2 == 1)
            &&& encoded.len() == 31 + header.ciphertext_len
            &&& receiver.replay.admits(header.number)
            &&& aead_opened(
                receiver.key.key,
                nonce_of(receiver.key.iv, header.number),
                encoded.take(31),
                encoded.skip(31),
            ) == Some(plaintext)
        },
{
}

/// An epoch begins with nothing sealed and nothing taken, and each of its four streams has
/// its own key.
pub proof fn epochs_begin_fresh(
    session_id: Seq<u8>,
    epoch: u32,
    keys: EpochKeysModel,
    window: nat,
    number: u64,
)
    ensures
        ({
            let layer = LayerModel::fresh(session_id, epoch, keys, window);
            &&& layer.c2s_data.kind == RecordKind::Data && layer.s2c_data.kind == RecordKind::Data
            &&& layer.c2s_control.kind == RecordKind::Control && layer.s2c_control.kind
                == RecordKind::Control
            &&& layer.c2s_data.key == keys.c2s_data && layer.s2c_data.key == keys.s2c_data
            &&& layer.c2s_control.key == keys.c2s_control && layer.s2c_control.key
                == keys.s2c_control
            &&& layer.s2c_data.next == 0 && layer.s2c_control.next == 0
            &&& layer.c2s_data.replay.admits(number) && layer.c2s_control.replay.admits(number)
            &&& layer.c2s_data.replay.width == window && layer.c2s_control.replay.width == window
            &&& layer.c2s_data.epoch == epoch && layer.s2c_data.epoch == epoch
            &&& layer.c2s_control.epoch == epoch && layer.s2c_control.epoch == epoch
            &&& layer.c2s_data.session_id == session_id && layer.s2c_data.session_id == session_id
            &&& layer.c2s_control.session_id == session_id && layer.s2c_control.session_id
                == session_id
        }),
{
}

} // verus!
