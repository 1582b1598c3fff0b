//! Message framing on byte streams, and what arrives on a carrier.
use crate::wire::{
    append, be_bytes, be_bytes_length, be_limit, be_round_trip, be_value, get_u32,
    numbers_are_big_endian, put_u32,
};
use crate::error::Error;
use bytes::BytesMut;
use vstd::prelude::*;
use vstd::slice::slice_subrange;
use vstd::slice::slice_to_vec;

verus! {

/// The longest message on a carrier.
pub const MAX_CARRIER_MESSAGE: usize = 4368;

/// The longest message between the bridge and its local client.
pub const MAX_LOCAL_MESSAGE: usize = 8192;

/// How many bytes a carrier may hold back.
pub const MAX_CARRIER_BUFFER: usize = 1_048_576;

/// How many bytes a buffer can always grow to. It grows by doubling an allocation that
/// may be twice as long as what is needed, and no allocation takes more than half of the
/// address space.
pub const MAX_BUFFER_LENGTH: usize = usize::MAX / 8;

/// The growable buffer of the `bytes` crate.
#[verifier::external_type_specification]
#[verifier::external_body]
pub struct ExBytesMut(BytesMut);

/// The bytes that a buffer holds.
pub uninterp spec fn buffered_bytes(buffer: BytesMut) -> Seq<u8>;

/// Reads a buffer with `AsRef::as_ref` of `BytesMut`: a slice of the bytes that it
/// holds.
#[verifier::external_body]
fn buffer_slice(buffer: &BytesMut) -> (bytes: &[u8])
    ensures
        bytes@ == buffered_bytes(*buffer),
{
    buffer.as_ref()
}

/// Splits a buffer with `BytesMut::split_to`: the first `at` bytes are returned, the
/// others stay.
#[verifier::external_body]
fn buffer_split_to(buffer: &mut BytesMut, at: usize) -> (front: BytesMut)
    requires
        at <= buffered_bytes(*old(buffer)).len(),
    ensures
        buffered_bytes(front) == buffered_bytes(*old(buffer)).take(at as int),
        buffered_bytes(*final(buffer)) == buffered_bytes(*old(buffer)).skip(at as int),
{
    buffer.split_to(at)
}

/// Extends a buffer with `BytesMut::extend_from_slice`, which appends the bytes. It
/// panics where the allocation that it asks for is too long for the address space, so
/// that is left out.
#[verifier::external_body]
fn buffer_extend(buffer: &mut BytesMut, data: &[u8])
    requires
        buffered_bytes(*old(buffer)).len() + data@.len() <= MAX_BUFFER_LENGTH,
    ensures
        buffered_bytes(*final(buffer)) == buffered_bytes(*old(buffer)) + data@,
{
    buffer.extend_from_slice(data);
}

/// What stands at the front of a stream.
pub enum Front {
    /// The message is not complete yet.
    Incomplete,
    /// A message, and what follows it.
    Message { message: Seq<u8>, rest: Seq<u8> },
    /// A length that no message has.
    Invalid,
}

/// Looks at the front of a stream whose messages have at most `limit` bytes.
pub open spec fn front(stream: Seq<u8>, limit: nat) -> Front {
    let length = be_value(stream.take(4));
    if stream.len() < 4 {
        Front::Incomplete
    } else if length == 0 || length > limit {
        Front::Invalid
    } else if stream.len() < 4 + length {
        Front::Incomplete
    } else {
        Front::Message {
            message: stream.subrange(4, 4 + length as int),
            rest: stream.skip(4 + length as int),
        }
    }
}

/// A message on a stream: its length, then its bytes.
pub open spec fn framed(message: Seq<u8>) -> Seq<u8> {
    be_bytes(message.len(), 4) + message
}

/// Messages on a stream, one after the other.
pub open spec fn stream_of(messages: Seq<Seq<u8>>) -> Seq<u8>
    decreases messages.len(),
{
    if messages.len() == 0 {
        Seq::empty()
    } else {
        framed(messages[0]) + stream_of(messages.skip(1))
    }
}

/// What a receiver has taken off a stream.
#[verifier::ext_equal]
pub struct Drained {
    pub messages: Seq<Seq<u8>>,
    /// The bytes of a message that is not complete.
    pub rest: Seq<u8>,
    /// Whether an invalid length stopped it.
    pub failed: bool,
}

/// Takes all complete messages off the front of a stream.
pub open spec fn drained(stream: Seq<u8>, limit: nat) -> Drained
    decreases stream.len(),
{
    match front(stream, limit) {
        Front::Incomplete => Drained { messages: Seq::empty(), rest: stream, failed: false },
        Front::Invalid => Drained { messages: Seq::empty(), rest: stream, failed: true },
        Front::Message { message, rest } => if rest.len() < stream.len() {
            let later = drained(rest, limit);
            Drained { messages: seq![message] + later.messages, ..later }
        } else {
            Drained { messages: Seq::empty(), rest: stream, failed: true }
        },
    }
}

/// What a receiver has taken after several chunks of a stream arrived.
pub open spec fn received(chunks: Seq<Seq<u8>>, limit: nat) -> Drained
    decreases chunks.len(),
{
    if chunks.len() == 0 {
        Drained { messages: Seq::empty(), rest: Seq::empty(), failed: false }
    } else {
        let before = received(chunks.drop_last(), limit);
        if before.failed {
            before
        } else {
            let now = drained(before.rest + chunks.last(), limit);
            Drained { messages: before.messages + now.messages, ..now }
        }
    }
}

/// The chunks of a stream, put together.
pub open spec fn joined_chunks(chunks: Seq<Seq<u8>>) -> Seq<u8>
    decreases chunks.len(),
{
    if chunks.len() == 0 {
        Seq::empty()
    } else {
        joined_chunks(chunks.drop_last()) + chunks.last()
    }
}

/// More bytes do not change the message at the front.
proof fn lemma_front_extends(stream: Seq<u8>, more: Seq<u8>, limit: nat)
    ensures
        match front(stream, limit) {
            Front::Message { message, rest } => front(stream + more, limit) == (Front::Message {
                message,
                rest: rest + more,
            }),
            Front::Invalid => front(stream + more, limit) == Front::Invalid,
            Front::Incomplete => true,
        },
{
    if stream.len() >= 4 {
        assert((stream + more).take(4) =~= stream.take(4));
        let length = be_value(stream.take(4)) as int;
        if stream.len() >= 4 + length {
            assert((stream + more).subrange(4, 4 + length) =~= stream.subrange(4, 4 + length));
            assert((stream + more).skip(4 + length) =~= stream.skip(4 + length) + more);
        }
    }
}

/// Draining a stream in two parts gives what draining it at once gives.
proof fn lemma_drained_concat(stream: Seq<u8>, more: Seq<u8>, limit: nat)
    ensures
        drained(stream, limit).failed ==> drained(stream + more, limit).failed,
        !drained(stream, limit).failed ==> ({
            let first = drained(stream, limit);
            let second = drained(first.rest + more, limit);
            drained(stream + more, limit) == (Drained {
                messages: first.messages + second.messages,
                ..second
            })
        }),
    decreases stream.len(),
{
    lemma_front_extends(stream, more, limit);
    let first = drained(stream, limit);
    match front(stream, limit) {
        Front::Message { message, rest } => {
            if rest.len() < stream.len() {
                lemma_drained_concat(rest, more, limit);
                let later = drained(rest, limit);
                let second = drained(later.rest + more, limit);
                assert(seq![message] + (later.messages + second.messages) =~= (seq![message]
                    + later.messages) + second.messages);
            }
        },
        Front::Incomplete => {
            let second = drained(stream + more, limit);
            assert(Seq::<Seq<u8>>::empty() + second.messages =~= second.messages);
        },
        Front::Invalid => {},
    }
}

/// How a stream is cut does not matter: whatever the chunks in which it arrives, the
/// receiver takes the same messages and holds back the same bytes.
pub proof fn chunks_do_not_matter(chunks: Seq<Seq<u8>>, limit: nat)
    requires
        !drained(joined_chunks(chunks), limit).failed,
    ensures
        received(chunks, limit) == drained(joined_chunks(chunks), limit),
    decreases chunks.len(),
{
    if chunks.len() == 0 {
        assert(front(Seq::<u8>::empty(), limit) is Incomplete);
    } else {
        let earlier = joined_chunks(chunks.drop_last());
        lemma_drained_concat(earlier, chunks.last(), limit);
        chunks_do_not_matter(chunks.drop_last(), limit);
    }
}

/// A message of a valid length is taken off the front of a stream, unchanged.
proof fn lemma_front_framed(message: Seq<u8>, rest: Seq<u8>, limit: nat)
    requires
        0 < message.len() <= limit,
        limit <= 0xffff_ffff,
    ensures
        front(framed(message) + rest, limit) == (Front::Message { message, rest }),
{
    let stream = framed(message) + rest;
    let length = message.len() as int;
    be_bytes_length(message.len(), 4);
    reveal_with_fuel(be_limit, 5);
    be_round_trip(message.len(), 4);
    assert(stream.take(4) =~= be_bytes(message.len(), 4));
    assert(stream.subrange(4, 4 + length) =~= message);
    assert(stream.skip(4 + length) =~= rest);
}

/// Messages come back from their stream, in order, and nothing is left over.
pub proof fn messages_come_back(messages: Seq<Seq<u8>>, limit: nat)
    requires
        limit <= 0xffff_ffff,
        forall|i: int| 0 <= i < messages.len() ==> 0 < (#[trigger] messages[i]).len() <= limit,
    ensures
        drained(stream_of(messages), limit) == (Drained {
            messages,
            rest: Seq::empty(),
            failed: false,
        }),
    decreases messages.len(),
{
    if messages.len() == 0 {
        assert(drained(stream_of(messages), limit).messages =~= messages);
    } else {
        let rest = stream_of(messages.skip(1));
        lemma_front_framed(messages[0], rest, limit);
        messages_come_back(messages.skip(1), limit);
        be_bytes_length(messages[0].len(), 4);
        assert(seq![messages[0]] + messages.skip(1) =~= messages);
    }
}

/// Messages come back from the chunks in which their stream arrives, however it is
/// cut.
pub proof fn messages_survive_any_chunks(
    messages: Seq<Seq<u8>>,
    chunks: Seq<Seq<u8>>,
    limit: nat,
)
    requires
        limit <= 0xffff_ffff,
        forall|i: int| 0 <= i < messages.len() ==> 0 < (#[trigger] messages[i]).len() <= limit,
        joined_chunks(chunks) == stream_of(messages),
    ensures
        received(chunks, limit) == (Drained { messages, rest: Seq::empty(), failed: false }),
{
    messages_come_back(messages, limit);
    chunks_do_not_matter(chunks, limit);
}

/// How long the message at the front of a stream is; `None` where it is not complete.
fn front_length(stream: &[u8], limit: usize, invalid: Error) -> (length: Result<
    Option<usize>,
    Error,
>)
    requires
        limit <= 0xffff,
    ensures
        match front(stream@, limit as nat) {
            Front::Incomplete => length == Ok::<Option<usize>, Error>(None),
            Front::Invalid => length == Err::<Option<usize>, Error>(invalid),
            Front::Message { message, rest } => length == Ok::<Option<usize>, Error>(
                Some(message.len() as usize),
            ) && 4 + message.len() <= stream@.len() && message == stream@.subrange(
                4,
                4 + message.len() as int,
            ) && rest == stream@.skip(4 + message.len() as int),
        },
{
    if stream.len() < 4 {
        return Ok(None);
    }
    assert(stream@.subrange(0, 4) =~= stream@.take(4));
    let length: usize = get_u32(stream, 0) as usize;
    if length == 0 || length > limit {
        return Err(invalid);
    }
    if stream.len() - 4 < length {
        return Ok(None);
    }
    Ok(Some(length))
}

/// What taking a message off a buffer gives, and what stays in the buffer.
pub open spec fn taken(stream: Seq<u8>, limit: nat, invalid: Error) -> (
    Seq<u8>,
    Result<Option<Seq<u8>>, Error>,
) {
    match front(stream, limit) {
        Front::Incomplete => (stream, Ok(None)),
        Front::Invalid => (stream, Err(invalid)),
        Front::Message { message, rest } => (rest, Ok(Some(message))),
    }
}

/// A message, if there is one, as values.
pub open spec fn answer_view(answer: Result<Option<Vec<u8>>, Error>) -> Result<
    Option<Seq<u8>>,
    Error,
> {
    match answer {
        Ok(Some(message)) => Ok(Some(message@)),
        Ok(None) => Ok(None),
        Err(error) => Err(error),
    }
}

/// Takes a message off a carrier's buffer.
pub fn take_carrier_message(buffered: &mut BytesMut) -> (message: Result<Option<Vec<u8>>, Error>)
    ensures
        taken(
            buffered_bytes(*old(buffered)),
            MAX_CARRIER_MESSAGE as nat,
            Error::InvalidCarrierLength,
        ) == (buffered_bytes(*final(buffered)), answer_view(message)),
{
    let stream = buffer_slice(buffered);
    match front_length(stream, MAX_CARRIER_MESSAGE, Error::InvalidCarrierLength)? {
        None => Ok(None),
        Some(length) => {
            let encoded = buffer_split_to(buffered, 4 + length);
            let bytes = buffer_slice(&encoded);
            let message = slice_to_vec(slice_subrange(bytes, 4, 4 + length));
            assert(message@ =~= buffered_bytes(*old(buffered)).subrange(4, 4 + length as int));
            Ok(Some(message))
        },
    }
}

/// Takes a message off a plain buffer.
fn take_message(buffered: &mut Vec<u8>, limit: usize, invalid: Error) -> (message: Result<
    Option<Vec<u8>>,
    Error,
>)
    requires
        limit <= 0xffff,
    ensures
        taken(old(buffered)@, limit as nat, invalid) == (final(buffered)@, answer_view(message)),
{
    match front_length(buffered, limit, invalid)? {
        None => Ok(None),
        Some(length) => {
            let message = slice_to_vec(slice_subrange(buffered, 4, 4 + length));
            let rest = buffered.split_off(4 + length);
            assert(rest@ =~= old(buffered)@.skip(4 + length as int));
            *buffered = rest;
            Ok(Some(message))
        },
    }
}

/// Takes a message of the bridge's local client off its buffer.
pub fn take_local_message(buffered: &mut Vec<u8>) -> (message: Result<Option<Vec<u8>>, Error>)
    ensures
        taken(old(buffered)@, MAX_LOCAL_MESSAGE as nat, Error::InvalidLocalLength) == (
            final(buffered)@,
            answer_view(message),
        ),
{
    take_message(buffered, MAX_LOCAL_MESSAGE, Error::InvalidLocalLength)
}

/// Takes a message of the bridge's server off its buffer.
pub fn take_stream_message(buffered: &mut Vec<u8>) -> (message: Result<Option<Vec<u8>>, Error>)
    ensures
        taken(old(buffered)@, MAX_LOCAL_MESSAGE as nat, Error::InvalidWebTransportLength) == (
            final(buffered)@,
            answer_view(message),
        ),
{
    take_message(buffered, MAX_LOCAL_MESSAGE, Error::InvalidWebTransportLength)
}

/// Frames a message for a stream.
pub fn frame_message(payload: &[u8]) -> (encoded: Result<Vec<u8>, Error>)
    ensures
        encoded is Ok <==> payload@.len() <= 0xffff_ffff,
        encoded is Ok ==> encoded->Ok_0@ == framed(payload@),
        encoded is Err ==> encoded->Err_0 == Error::NumberOutOfRange,
{
    if payload.len() > 0xffff_ffff {
        return Err(Error::NumberOutOfRange);
    }
    let mut encoded: Vec<u8> = Vec::new();
    put_u32(&mut encoded, payload.len() as u32);
    append(&mut encoded, payload);
    assert(encoded@ =~= framed(payload@));
    Ok(encoded)
}

/// The ways in which a client can be connected.
#[derive(Clone, Copy, Debug, PartialEq, Eq, Structural)]
pub enum CarrierKind {
    Wss,
    H2,
    H3,
}

impl CarrierKind {
    /// The name of a carrier in metrics.
    pub fn name(&self) -> (name: &'static str)
        ensures
            name@ == match self {
                CarrierKind::Wss => "wss"@,
                CarrierKind::H2 => "h2"@,
                CarrierKind::H3 => "h3"@,
            },
    {
        match self {
            CarrierKind::Wss => "wss",
            CarrierKind::H2 => "h2",
            CarrierKind::H3 => "h3",
        }
    }
}

/// What goes over a carrier for a message: WebSocket keeps messages apart by itself,
/// and a stream needs their lengths.
pub fn outgoing(kind: CarrierKind, payload: Vec<u8>) -> (encoded: Result<Vec<u8>, Error>)
    ensures
        if kind == CarrierKind::Wss {
            encoded == Ok::<Vec<u8>, Error>(payload)
        } else if payload@.len() > 0xffff_ffff {
            encoded == Err::<Vec<u8>, Error>(Error::NumberOutOfRange)
        } else {
            encoded is Ok && encoded->Ok_0@ == framed(payload@)
        },
{
    match kind {
        CarrierKind::Wss => Ok(payload),
        _ => frame_message(&payload),
    }
}

/// What a carrier delivers.
pub enum CarrierEvent {
    Binary(Vec<u8>),
    Ping(Vec<u8>),
    Close,
    Ignore,
}

/// What a WebTransport session delivers: bytes of the reliable stream, whose end is
/// `None`, or a datagram.
pub enum Receive {
    Reliable(Option<usize>),
    Datagram(Vec<u8>),
}

/// The bytes that a carrier event brings.
pub open spec fn event_is_binary(event: Result<Option<CarrierEvent>, Error>, bytes: Seq<u8>) -> bool {
    event matches Ok(Some(CarrierEvent::Binary(payload))) && payload@ == bytes
}

/// The bytes that a carrier holds once more have arrived: they are added, whether or not
/// they are too many for a carrier. Only what the buffer might not grow to is left out.
pub open spec fn held_back(held: Seq<u8>, chunk: Seq<u8>) -> Seq<u8> {
    if held.len() + chunk.len() > MAX_BUFFER_LENGTH {
        held
    } else {
        held + chunk
    }
}

/// Adds bytes that arrived to a carrier's buffer, which may not grow without bounds.
fn hold_back(buffered: &mut BytesMut, chunk: &[u8], exceeded: Error) -> (held: Result<(), Error>)
    ensures
        buffered_bytes(*final(buffered)) == held_back(buffered_bytes(*old(buffered)), chunk@),
        held == if buffered_bytes(*old(buffered)).len() + chunk@.len() > MAX_CARRIER_BUFFER {
            Err::<(), Error>(exceeded)
        } else {
            Ok(())
        },
{
    let length: usize = buffer_slice(buffered).len();
    if length > MAX_BUFFER_LENGTH || chunk.len() > MAX_BUFFER_LENGTH - length {
        return Err(exceeded);
    }
    buffer_extend(buffered, chunk);
    if length + chunk.len() > MAX_CARRIER_BUFFER {
        return Err(exceeded);
    }
    Ok(())
}

/// Takes what an H2 stream delivered: a chunk, or its end. The answer is `Close` at a
/// proper end, and nothing where more is to be read.
pub fn h2_received(buffered: &mut BytesMut, chunk: Option<&[u8]>) -> (event: Result<
    Option<CarrierEvent>,
    Error,
>)
    ensures
        match chunk {
            Some(bytes) => {
                &&& buffered_bytes(*final(buffered)) == held_back(
                    buffered_bytes(*old(buffered)),
                    bytes@,
                )
                &&& event == if buffered_bytes(*old(buffered)).len() + bytes@.len()
                    > MAX_CARRIER_BUFFER {
                    Err::<Option<CarrierEvent>, Error>(Error::H2BufferExceeded)
                } else {
                    Ok(None)
                }
            },
            None => {
                &&& *final(buffered) == *old(buffered)
                &&& event == if buffered_bytes(*old(buffered)).len() == 0 {
                    Ok::<Option<CarrierEvent>, Error>(Some(CarrierEvent::Close))
                } else {
                    Err(Error::TruncatedH2Message)
                }
            },
        },
{
    match chunk {
        Some(bytes) => {
            hold_back(buffered, bytes, Error::H2BufferExceeded)?;
            Ok(None)
        },
        None => if buffer_slice(buffered).len() == 0 {
            Ok(Some(CarrierEvent::Close))
        } else {
            Err(Error::TruncatedH2Message)
        },
    }
}

/// Takes what a WebTransport session delivered; bytes of the reliable stream stand at
/// the front of `chunk`.
pub fn h3_received(buffered: &mut BytesMut, chunk: &[u8], delivered: Receive) -> (event: Result<
    Option<CarrierEvent>,
    Error,
>)
    requires
        delivered matches Receive::Reliable(Some(length)) ==> length <= chunk@.len(),
    ensures
        match delivered {
            Receive::Reliable(Some(length)) => {
                &&& buffered_bytes(*final(buffered)) == held_back(
                    buffered_bytes(*old(buffered)),
                    chunk@.take(length as int),
                )
                &&& event == if buffered_bytes(*old(buffered)).len() + length
                    > MAX_CARRIER_BUFFER {
                    Err::<Option<CarrierEvent>, Error>(Error::H3BufferExceeded)
                } else {
                    Ok(None)
                }
            },
            Receive::Reliable(None) => {
                &&& *final(buffered) == *old(buffered)
                &&& event == if buffered_bytes(*old(buffered)).len() == 0 {
                    Ok::<Option<CarrierEvent>, Error>(Some(CarrierEvent::Close))
                } else {
                    Err(Error::TruncatedH3Message)
                }
            },
            Receive::Datagram(datagram) => {
                &&& *final(buffered) == *old(buffered)
                &&& if datagram@.len() > MAX_CARRIER_MESSAGE {
                    event == Err::<Option<CarrierEvent>, Error>(Error::H3DatagramTooLarge)
                } else {
                    event_is_binary(event, datagram@)
                }
            },
        },
{
    match delivered {
        Receive::Reliable(Some(length)) => {
            let bytes = slice_subrange(chunk, 0, length);
            assert(bytes@ =~= chunk@.take(length as int));
            hold_back(buffered, bytes, Error::H3BufferExceeded)?;
            Ok(None)
        },
        Receive::Reliable(None) => if buffer_slice(buffered).len() == 0 {
            Ok(Some(CarrierEvent::Close))
        } else {
            Err(Error::TruncatedH3Message)
        },
        Receive::Datagram(datagram) => if datagram.len() > MAX_CARRIER_MESSAGE {
            Err(Error::H3DatagramTooLarge)
        } else {
            Ok(Some(CarrierEvent::Binary(datagram)))
        },
    }
}

/// What the end of a local or WebTransport stream means: nothing more, unless a
/// message is cut off.
pub fn stream_ended(buffered: &Vec<u8>, truncated: Error) -> (ended: Result<(), Error>)
    ensures
        ended == if buffered@.len() == 0 {
            Ok::<(), Error>(())
        } else {
            Err(truncated)
        },
{
    if buffered.len() == 0 {
        Ok(())
    } else {
        Err(truncated)
    }
}

/// The message of an event, where only a message will do.
pub fn expect_binary(event: CarrierEvent) -> (message: Result<Vec<u8>, Error>)
    ensures
        match event {
            CarrierEvent::Binary(value) => message == Ok::<Vec<u8>, Error>(value),
            CarrierEvent::Close => message == Err::<Vec<u8>, Error>(Error::CarrierClosed),
            _ => message == Err::<Vec<u8>, Error>(Error::ExpectedBinaryMessage),
        },
{
    match event {
        CarrierEvent::Binary(value) => Ok(value),
        CarrierEvent::Close => Err(Error::CarrierClosed),
        _ => Err(Error::ExpectedBinaryMessage),
    }
}

/// Whether a payload is a data record: long enough for a header, version 1, not a
/// control record, and its reserved bit clear.
pub fn is_application_data_record(payload: &[u8]) -> (is_data: bool)
    ensures
        is_data == (payload@.len() >= 31 && payload@[0] / 16 == 1 && payload@[0] / 8 % 2 == 0
            && payload@[0] % 2 == 0),
{
    payload.len() >= 31 && payload[0] / 16 == 1 && payload[0] / 8 % 2 == 0 && payload[0] % 2 == 0
}

/// A message is found at the front of a stream by its length, which stands in four bytes
/// before it: it is taken once it is there, nothing is taken before, and a length of nothing
/// or beyond the limit is refused as soon as it is read.
pub proof fn messages_are_found_by_their_lengths(stream: Seq<u8>, limit: nat, invalid: Error)
    ensures
        ({
            let length = stream[0] * 0x100_0000 + stream[1] * 0x1_0000 + stream[2] * 256
                + stream[3];
            let (rest, answer) = taken(stream, limit, invalid);
            let wrong = stream.len() >= 4 && (length == 0 || length > limit);
            let here = stream.len() >= 4 && !wrong && stream.len() >= 4 + length;
            &&& wrong ==> answer == Err::<Option<Seq<u8>>, Error>(invalid) && rest == stream
            &&& here ==> answer == Ok::<Option<Seq<u8>>, Error>(
                Some(stream.subrange(4, 4 + length)),
            ) && rest == stream.skip(4 + length)
            &&& !wrong && !here ==> answer == Ok::<Option<Seq<u8>>, Error>(None) && rest == stream
        }),
{
    if stream.len() >= 4 {
        numbers_are_big_endian(stream.take(4));
    }
}

/// A carrier passes messages of up to 4368 bytes, and a local stream of up to 8192.
pub proof fn longest_messages_pass(message: Seq<u8>, rest: Seq<u8>, invalid: Error)
    requires
        message.len() > 0,
    ensures
        message.len() <= 4368 ==> taken(
            framed(message) + rest,
            MAX_CARRIER_MESSAGE as nat,
            invalid,
        ) == (rest, Ok::<Option<Seq<u8>>, Error>(Some(message))),
        4368 < message.len() <= 0xffff_ffff ==> taken(
            framed(message) + rest,
            MAX_CARRIER_MESSAGE as nat,
            invalid,
        ).1 == Err::<Option<Seq<u8>>, Error>(invalid),
        message.len() <= 8192 ==> taken(framed(message) + rest, MAX_LOCAL_MESSAGE as nat, invalid)
            == (rest, Ok::<Option<Seq<u8>>, Error>(Some(message))),
        8192 < message.len() <= 0xffff_ffff ==> taken(
            framed(message) + rest,
            MAX_LOCAL_MESSAGE as nat,
            invalid,
        ).1 == Err::<Option<Seq<u8>>, Error>(invalid),
        MAX_CARRIER_BUFFER == 1024 * 1024,
{
    if message.len() <= 0xffff_ffff {
        let stream = framed(message) + rest;
        be_bytes_length(message.len(), 4);
        reveal_with_fuel(be_limit, 5);
        be_round_trip(message.len(), 4);
        assert(stream.take(4) =~= be_bytes(message.len(), 4));
        assert(stream.subrange(4, 4 + message.len() as int) =~= message);
        assert(stream.skip(4 + message.len() as int) =~= rest);
    }
}

/// What goes over a stream comes off it again as the same message, and what goes over
/// WebSocket is the message itself.
pub proof fn outgoing_messages_come_off_again(
    kind: CarrierKind,
    payload: Vec<u8>,
    encoded: Result<Vec<u8>, Error>,
    invalid: Error,
)
    requires
        call_ensures(outgoing, (kind, payload), encoded),
        0 < payload@.len() <= 4368,
    ensures
        encoded is Ok,
        kind == CarrierKind::Wss ==> encoded->Ok_0@ == payload@,
        kind != CarrierKind::Wss ==> taken(encoded->Ok_0@, 4368, invalid) == (
            Seq::<u8>::empty(),
            Ok::<Option<Seq<u8>>, Error>(Some(payload@)),
        ),
{
    longest_messages_pass(payload@, Seq::empty(), invalid);
    assert(framed(payload@) + Seq::<u8>::empty() =~= framed(payload@));
}

/// A stream ends properly where no part of a message is left, and only a message will do
/// where one is expected.
pub proof fn streams_end_between_messages(
    buffered: &Vec<u8>,
    truncated: Error,
    ended: Result<(), Error>,
    event: CarrierEvent,
    message: Result<Vec<u8>, Error>,
)
    requires
        call_ensures(stream_ended, (buffered, truncated), ended),
        call_ensures(expect_binary, (event,), message),
    ensures
        ended is Ok <==> buffered@.len() == 0,
        ended is Err ==> ended->Err_0 == truncated,
        message is Ok <==> event is Binary,
        message is Ok ==> message->Ok_0 == event->Binary_0,
        event is Close ==> message == Err::<Vec<u8>, Error>(Error::CarrierClosed),
{
}

/// A payload that has the header of a record is taken for data exactly where that header is
/// one of a data record.
pub proof fn data_records_are_told_by_their_headers(payload: &[u8], is_data: bool)
    requires
        call_ensures(is_application_data_record, (payload,), is_data),
    ensures
        crate::record::header_of(payload@) is Ok ==> is_data == (crate::record::header_of(
            payload@,
        )->Ok_0.kind == crate::frame::RecordKind::Data),
        is_data ==> payload@.len() >= 31 && (payload@[0] == 0x10 || payload@[0] == 0x12
            || payload@[0] == 0x14 || payload@[0] == 0x16),
{
}

/// A carrier's buffer gives its messages one by one: what is taken off its front is a message
/// of at most 4368 bytes, and for the streams of the bridge one of at most 8192; the rest stays.
pub proof fn buffers_give_their_messages()
    ensures
        forall|buffered: &mut BytesMut, message: Result<Option<Vec<u8>>, Error>| #[trigger]
            call_ensures(take_carrier_message, (buffered,), message) ==> (
            buffered_bytes(*final(buffered)),
            answer_view(message),
        ) == taken(buffered_bytes(*buffered), 4368, Error::InvalidCarrierLength),
        forall|buffered: &mut Vec<u8>, message: Result<Option<Vec<u8>>, Error>| #[trigger]
            call_ensures(take_local_message, (buffered,), message) ==> (
            final(buffered)@,
            answer_view(message),
        ) == taken(buffered@, 8192, Error::InvalidLocalLength),
        forall|buffered: &mut Vec<u8>, message: Result<Option<Vec<u8>>, Error>| #[trigger]
            call_ensures(take_stream_message, (buffered,), message) ==> (
            final(buffered)@,
            answer_view(message),
        ) == taken(buffered@, 8192, Error::InvalidWebTransportLength),
{
}

/// What arrives on a stream is kept until its messages are complete: it is added to the
/// buffer, which may hold a mebibyte, and more ends the carrier. A stream may end only where
/// nothing is left over, and a datagram is a message of its own.
pub proof fn arrivals_are_kept()
    ensures
        forall|
            buffered: &mut BytesMut,
            chunk: Option<&[u8]>,
            event: Result<Option<CarrierEvent>, Error>,
        | #[trigger]
            call_ensures(h2_received, (buffered, chunk), event) ==> {
                let held = buffered_bytes(*buffered);
                let kept = buffered_bytes(*final(buffered));
                &&& chunk is Some && held.len() + chunk->Some_0@.len() <= 0x10_0000 ==> kept == held
                    + chunk->Some_0@ && event == Ok::<Option<CarrierEvent>, Error>(None)
                &&& chunk is Some && held.len() + chunk->Some_0@.len() > 0x10_0000 ==> event is Err
                &&& chunk is None ==> kept == held
                &&& chunk is None && held.len() == 0 ==> event == Ok::<Option<CarrierEvent>, Error>(
                    Some(CarrierEvent::Close),
                )
                &&& chunk is None && held.len() > 0 ==> event is Err
            },
        forall|
            buffered: &mut BytesMut,
            chunk: &[u8],
            delivered: Receive,
            event: Result<Option<CarrierEvent>, Error>,
        | #[trigger]
            call_ensures(h3_received, (buffered, chunk, delivered), event) ==> {
                let held = buffered_bytes(*buffered);
                let kept = buffered_bytes(*final(buffered));
                match delivered {
                    Receive::Reliable(Some(length)) => {
                        &&& length <= chunk@.len() && held.len() + length <= 0x10_0000 ==> kept
                            == held + chunk@.take(length as int) && event == Ok::<
                            Option<CarrierEvent>,
                            Error,
                        >(None)
                        &&& held.len() + length > 0x10_0000 ==> event is Err
                    },
                    Receive::Reliable(None) => {
                        &&& kept == held
                        &&& held.len() == 0 ==> event == Ok::<Option<CarrierEvent>, Error>(
                            Some(CarrierEvent::Close),
                        )
                        &&& held.len() > 0 ==> event is Err
                    },
                    Receive::Datagram(datagram) => {
                        &&& kept == held
                        &&& datagram@.len() > 4368 ==> event is Err
                        &&& datagram@.len() <= 4368 ==> event_is_binary(event, datagram@)
                    },
                }
            },
{
}

} // verus!
