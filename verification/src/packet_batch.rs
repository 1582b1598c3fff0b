//! Packing of IP packets into as few records as possible.
use crate::wire::{append, get_u32};
use crate::crypto::random_bytes;
use crate::error::Error;
use crate::fragment::{
    delivers, encode_fragment, fragment_at, fragment_of, fragment_parsing_undoes_encoding,
    lemma_weigh_insert, offsets_in, overlaps, piece_len, pieces_restore_the_packet, splits, weigh,
    FragmentModel, ReassemblerModel, MAX_REASSEMBLIES, REASSEMBLY_TIMEOUT,
};
use crate::frame::{
    all_encoded, frame_known, frame_views, frames_of, known_frames_come_back,
    parsing_undoes_encoding, Frame, FrameModel, RecordKind,
};
use vstd::prelude::*;
use vstd::slice::slice_subrange;

verus! {

/// The type of a frame that holds a whole packet.
pub const PACKET_FRAME: u8 = 0x01;

/// The type of a frame that holds a fragment of a packet.
pub const FRAGMENT_FRAME: u8 = 0x03;

/// How many frames a record holds at most.
pub const MAX_FRAMES: usize = 8;

/// Where the chunk that starts at `offset` ends.
pub open spec fn chunk_end(packet: Seq<u8>, chunk: nat, offset: nat) -> nat {
    if offset + chunk < packet.len() {
        offset + chunk
    } else {
        packet.len()
    }
}

/// The frames that carry a packet from `offset` on, in chunks of one size.
pub open spec fn fragment_frames(packet: Seq<u8>, chunk: nat, id: u32, offset: nat) -> Seq<
    FrameModel,
>
    decreases packet.len() - offset,
{
    if chunk == 0 || offset >= packet.len() {
        Seq::empty()
    } else {
        let end = chunk_end(packet, chunk, offset);
        let fragment = FragmentModel {
            packet_id: id,
            total: packet.len(),
            offset,
            data: packet.subrange(offset as int, end as int),
        };
        seq![
            FrameModel { frame_type: FRAGMENT_FRAME, flags: 0, body: fragment.encoded() },
        ] + fragment_frames(packet, chunk, id, end)
    }
}

/// Cuts a packet into chunks, one frame for each.
pub fn fragment_packet(packet: &[u8], chunk: usize, id: u32) -> (frames: Vec<Frame>)
    requires
        chunk > 0,
        packet@.len() <= 0xffff,
    ensures
        frame_views(frames@) == fragment_frames(packet@, chunk as nat, id, 0),
{
    let mut frames: Vec<Frame> = Vec::new();
    let mut offset: usize = 0;
    assert(frame_views(frames@) + fragment_frames(packet@, chunk as nat, id, 0)
        =~= fragment_frames(packet@, chunk as nat, id, 0));
    while offset < packet.len()
        invariant
            chunk > 0,
            packet@.len() <= 0xffff,
            offset <= packet@.len(),
            frame_views(frames@) + fragment_frames(packet@, chunk as nat, id, offset as nat)
                == fragment_frames(packet@, chunk as nat, id, 0),
        decreases packet@.len() - offset,
    {
        let end: usize = if chunk < packet.len() - offset {
            offset + chunk
        } else {
            packet.len()
        };
        let data = slice_subrange(packet, offset, end);
        let body = encode_fragment(id, packet.len() as u16, offset as u16, data);
        let ghost earlier = frame_views(frames@);
        let frame = Frame { frame_type: FRAGMENT_FRAME, flags: 0, body };
        let ghost model = frame@;
        frames.push(frame);
        proof {
            assert(frame_views(frames@) =~= earlier.push(model));
            let rest = fragment_frames(packet@, chunk as nat, id, end as nat);
            assert(earlier.push(model) + rest =~= earlier + (seq![model] + rest));
        }
        offset = end;
    }
    assert(frame_views(frames@) + Seq::empty() =~= frame_views(frames@));
    frames
}

/// The frames that carry one packet in records of the given capacity.
pub open spec fn packet_frames(packet: Seq<u8>, capacity: nat, id: u32) -> Result<
    Seq<FrameModel>,
    Error,
> {
    if packet.len() + 4 <= capacity {
        if packet.len() > 0xffff {
            Err(Error::FrameBodyTooLarge)
        } else {
            Ok(seq![FrameModel { frame_type: PACKET_FRAME, flags: 0, body: packet }])
        }
    } else if capacity < 14 {
        Err(Error::RecordCapacityTooSmall)
    } else if packet.len() > 0xffff {
        Err(Error::PacketExceedsFragmentLimit)
    } else {
        Ok(fragment_frames(packet, (capacity - 14) as nat, id, 0))
    }
}

/// The frames that carry several packets, in order. The first packet that cannot be
/// carried has all of them refused.
pub open spec fn all_packet_frames(packets: Seq<Seq<u8>>, capacity: nat, ids: Seq<u32>) -> Result<
    Seq<FrameModel>,
    Error,
>
    decreases packets.len(),
{
    if packets.len() == 0 {
        Ok(Seq::empty())
    } else {
        match all_packet_frames(packets.drop_last(), capacity, ids) {
            Err(error) => Err(error),
            Ok(earlier) => match packet_frames(packets.last(), capacity, ids[packets.len() - 1]) {
                Err(error) => Err(error),
                Ok(frames) => Ok(earlier + frames),
            },
        }
    }
}

/// Frames in the order of their records: those of full records, and those of the
/// record that is being filled.
pub struct Packing {
    pub full: Seq<Seq<FrameModel>>,
    pub open: Seq<FrameModel>,
}

impl Packing {
    /// One more frame: it goes into the open record if there is room, and if that has
    /// fewer than eight frames.
    pub open spec fn add(self, frame: FrameModel, capacity: nat) -> Packing {
        if self.open.len() >= MAX_FRAMES || self.open.len() > 0 && all_encoded(self.open).len()
            + frame.encoded().len() > capacity {
            Packing { full: self.full.push(self.open), open: seq![frame] }
        } else {
            Packing { full: self.full, open: self.open.push(frame) }
        }
    }

    /// The frames of each record.
    pub open spec fn groups(self) -> Seq<Seq<FrameModel>> {
        if self.open.len() > 0 {
            self.full.push(self.open)
        } else {
            self.full
        }
    }
}

/// How frames are packed, one after the other.
pub open spec fn packing(frames: Seq<FrameModel>, capacity: nat) -> Packing
    decreases frames.len(),
{
    if frames.len() == 0 {
        Packing { full: Seq::empty(), open: Seq::empty() }
    } else {
        packing(frames.drop_last(), capacity).add(frames.last(), capacity)
    }
}

/// The records of groups of frames.
pub open spec fn record_texts(groups: Seq<Seq<FrameModel>>) -> Seq<Seq<u8>> {
    Seq::new(groups.len(), |i: int| all_encoded(groups[i]))
}

/// The plaintexts of the records that carry the packets.
pub open spec fn batched(packets: Seq<Seq<u8>>, capacity: nat, ids: Seq<u32>) -> Result<
    Seq<Seq<u8>>,
    Error,
> {
    match all_packet_frames(packets, capacity, ids) {
        Err(error) => Err(error),
        Ok(frames) => Ok(record_texts(packing(frames, capacity).groups())),
    }
}

/// Byte strings as values.
pub open spec fn byte_views(items: Seq<Vec<u8>>) -> Seq<Seq<u8>> {
    Seq::new(items.len(), |i: int| items[i]@)
}

/// A packet that would have to be cut into chunks of no bytes.
pub open spec fn uncuttable(packet: Seq<u8>, capacity: nat) -> bool {
    capacity == 14 && 10 < packet.len() <= 0xffff
}

/// No uncuttable packet is reached: one that cannot be carried at all stands before
/// it.
pub open spec fn batchable(packets: Seq<Seq<u8>>, capacity: nat) -> bool {
    forall|i: int|
        0 <= i < packets.len() && uncuttable(#[trigger] packets[i], capacity) ==> exists|j: int|
            0 <= j < i && (#[trigger] packets[j]).len() > 0xffff
}

/// The frames that carry one packet. A packet that does not fit into a record is cut
/// into fragments, which bear the given id.
fn encode_packet(packet: &Vec<u8>, capacity: usize, id: u32) -> (frames: Result<Vec<Frame>, Error>)
    requires
        !uncuttable(packet@, capacity as nat),
    ensures
        match frames {
            Ok(list) => packet_frames(packet@, capacity as nat, id) == Ok::<
                Seq<FrameModel>,
                Error,
            >(frame_views(list@)),
            Err(error) => packet_frames(packet@, capacity as nat, id) == Err::<
                Seq<FrameModel>,
                Error,
            >(error),
        },
{
    if capacity >= 4 && packet.len() <= capacity - 4 {
        if packet.len() > 0xffff {
            return Err(Error::FrameBodyTooLarge);
        }
        let mut body: Vec<u8> = Vec::new();
        append(&mut body, packet);
        assert(body@ =~= packet@);
        let mut frames: Vec<Frame> = Vec::new();
        frames.push(Frame { frame_type: PACKET_FRAME, flags: 0, body });
        assert(frame_views(frames@) =~= seq![
            FrameModel { frame_type: PACKET_FRAME, flags: 0, body: packet@ },
        ]);
        return Ok(frames);
    }
    if capacity < 14 {
        return Err(Error::RecordCapacityTooSmall);
    }
    if packet.len() > 0xffff {
        return Err(Error::PacketExceedsFragmentLimit);
    }
    Ok(fragment_packet(packet, capacity - 14, id))
}

/// Every frame of a packet has an encoding that fits into a record, and a type that
/// the receiver knows.
proof fn lemma_fragment_frames(packet: Seq<u8>, chunk: nat, id: u32, offset: nat)
    ensures
        forall|i: int|
            0 <= i < fragment_frames(packet, chunk, id, offset).len() ==> (
            #[trigger] fragment_frames(packet, chunk, id, offset)[i]).body.len() <= 10 + chunk
                && fragment_frames(packet, chunk, id, offset)[i].frame_type == FRAGMENT_FRAME,
    decreases packet.len() - offset,
{
    if chunk > 0 && offset < packet.len() {
        let end = chunk_end(packet, chunk, offset);
        lemma_fragment_frames(packet, chunk, id, end);
        let rest = fragment_frames(packet, chunk, id, end);
        let all = fragment_frames(packet, chunk, id, offset);
        let data = packet.subrange(offset as int, end as int);
        crate::wire::be_bytes_length(id as nat, 4);
        crate::wire::be_bytes_length(packet.len(), 2);
        crate::wire::be_bytes_length(offset, 2);
        crate::wire::be_bytes_length(data.len(), 2);
        assert forall|i: int| 0 <= i < all.len() implies (#[trigger] all[i]).body.len() <= 10
            + chunk && all[i].frame_type == FRAGMENT_FRAME by {
            if i > 0 {
                assert(all[i] == rest[i - 1]);
            }
        }
    }
}

/// The bodies of frames.
pub open spec fn frame_bodies(frames: Seq<FrameModel>) -> Seq<Seq<u8>> {
    Seq::new(frames.len(), |i: int| frames[i].body)
}

/// Where the chunks of a packet start, from `offset` on.
spec fn chunk_offsets(packet: Seq<u8>, chunk: nat, offset: nat) -> Seq<nat>
    decreases packet.len() - offset,
{
    if chunk == 0 || offset >= packet.len() {
        Seq::empty()
    } else {
        seq![offset] + chunk_offsets(packet, chunk, chunk_end(packet, chunk, offset))
    }
}

/// The chunks of a packet by their offsets, from `offset` on.
spec fn chunk_pieces(packet: Seq<u8>, chunk: nat, offset: nat) -> Map<nat, Seq<u8>>
    decreases packet.len() - offset,
{
    if chunk == 0 || offset >= packet.len() {
        Map::empty()
    } else {
        let end = chunk_end(packet, chunk, offset);
        chunk_pieces(packet, chunk, end).insert(
            offset,
            packet.subrange(offset as int, end as int),
        )
    }
}

/// The chunks of a packet share no byte and leave none out.
proof fn lemma_chunk_pieces(packet: Seq<u8>, chunk: nat, offset: nat)
    requires
        chunk > 0,
        offset <= packet.len(),
    ensures
        ({
            let pieces = chunk_pieces(packet, chunk, offset);
            &&& pieces.dom().finite()
            &&& weigh(pieces, piece_len()) == packet.len() - offset
            &&& forall|o: nat| #[trigger]
                pieces.contains_key(o) ==> offset <= o && 0 < pieces[o].len() && o
                    + pieces[o].len() <= packet.len() && pieces[o] == packet.subrange(
                    o as int,
                    (o + pieces[o].len()) as int,
                )
            &&& forall|o1: nat, o2: nat|
                #![trigger pieces[o1], pieces[o2]]
                pieces.contains_key(o1) && pieces.contains_key(o2) && o1 != o2 ==> !overlaps(
                    o1,
                    pieces[o1],
                    o2,
                    pieces[o2],
                )
        }),
    decreases packet.len() - offset,
{
    if offset < packet.len() {
        let end = chunk_end(packet, chunk, offset);
        let data = packet.subrange(offset as int, end as int);
        lemma_chunk_pieces(packet, chunk, end);
        let rest = chunk_pieces(packet, chunk, end);
        assert(!rest.contains_key(offset));
        lemma_weigh_insert(rest, piece_len(), offset, data);
        let pieces = chunk_pieces(packet, chunk, offset);
        assert forall|o1: nat, o2: nat|
            #![trigger pieces[o1], pieces[o2]]
            pieces.contains_key(o1) && pieces.contains_key(o2) && o1 != o2 implies !overlaps(
            o1,
            pieces[o1],
            o2,
            pieces[o2],
        ) by {
            assert(o1 != offset ==> rest.contains_key(o1));
            assert(o2 != offset ==> rest.contains_key(o2));
        }
    } else {
        assert(chunk_pieces(packet, chunk, offset).dom() =~= Set::empty());
    }
}

/// The frames of a packet carry its chunks, in order.
proof fn lemma_chunk_offsets(packet: Seq<u8>, chunk: nat, id: u32, offset: nat)
    requires
        chunk > 0,
        offset <= packet.len(),
    ensures
        ({
            let pieces = chunk_pieces(packet, chunk, offset);
            let offsets = chunk_offsets(packet, chunk, offset);
            let frames = fragment_frames(packet, chunk, id, offset);
            &&& offsets.len() == frames.len()
            &&& forall|i: int|
                0 <= i < offsets.len() ==> pieces.contains_key(#[trigger] offsets[i])
                    && frames[i].body == fragment_at(id, packet, pieces, offsets[i]).encoded()
            &&& forall|o: nat| #[trigger] pieces.contains_key(o) ==> offsets.contains(o)
            &&& offsets.no_duplicates()
        }),
    decreases packet.len() - offset,
{
    if offset < packet.len() {
        let end = chunk_end(packet, chunk, offset);
        lemma_chunk_offsets(packet, chunk, id, end);
        lemma_chunk_pieces(packet, chunk, end);
        let rest = chunk_pieces(packet, chunk, end);
        let later = chunk_offsets(packet, chunk, end);
        let later_frames = fragment_frames(packet, chunk, id, end);
        let pieces = chunk_pieces(packet, chunk, offset);
        let offsets = chunk_offsets(packet, chunk, offset);
        let frames = fragment_frames(packet, chunk, id, offset);
        assert forall|i: int| 0 <= i < offsets.len() implies pieces.contains_key(
            #[trigger] offsets[i],
        ) && frames[i].body == fragment_at(id, packet, pieces, offsets[i]).encoded() by {
            if i > 0 {
                assert(offsets[i] == later[i - 1]);
                assert(frames[i] == later_frames[i - 1]);
                assert(rest.contains_key(later[i - 1]));
            }
        }
        assert forall|o: nat| #[trigger] pieces.contains_key(o) implies offsets.contains(o) by {
            if o == offset {
                assert(offsets[0] == o);
            } else {
                assert(rest.contains_key(o));
                let k = choose|k: int| 0 <= k < later.len() && later[k] == o;
                assert(offsets[k + 1] == o);
            }
        }
        assert forall|i: int, j: int|
            0 <= i < offsets.len() && 0 <= j < offsets.len() && i != j implies offsets[i]
            != offsets[j] by {
            if i > 0 {
                assert(offsets[i] == later[i - 1]);
                assert(rest.contains_key(later[i - 1]));
            }
            if j > 0 {
                assert(offsets[j] == later[j - 1]);
                assert(rest.contains_key(later[j - 1]));
            }
        }
    }
}

/// Which piece of a packet each of its frames carries.
spec fn chunks_at(packet: Seq<u8>, chunk: nat) -> Seq<Option<nat>> {
    chunk_offsets(packet, chunk, 0).map_values(|offset: nat| Some(offset))
}

/// The frames of a packet deliver its chunks.
proof fn lemma_delivers(packet: Seq<u8>, chunk: nat, id: u32)
    requires
        chunk > 0,
        0 < packet.len() <= 0xffff,
    ensures
        splits(packet, chunk_pieces(packet, chunk, 0)),
        delivers(
            id,
            packet,
            chunk_pieces(packet, chunk, 0),
            frame_bodies(fragment_frames(packet, chunk, id, 0)),
            chunks_at(packet, chunk),
        ),
        offsets_in(chunks_at(packet, chunk)) == chunk_pieces(packet, chunk, 0).dom(),
        chunks_at(packet, chunk).len() > 0,
{
    let pieces = chunk_pieces(packet, chunk, 0);
    let offsets = chunk_offsets(packet, chunk, 0);
    let at = chunks_at(packet, chunk);
    let frames = fragment_frames(packet, chunk, id, 0);
    let bodies = frame_bodies(frames);
    lemma_chunk_pieces(packet, chunk, 0);
    lemma_chunk_offsets(packet, chunk, id, 0);
    assert forall|i: int| #![trigger at[i]] 0 <= i < at.len() implies match at[i] {
        Some(offset) => pieces.contains_key(offset) && bodies[i] == fragment_at(
            id,
            packet,
            pieces,
            offset,
        ).encoded(),
        None => false,
    } by {
        assert(at[i] == Some(offsets[i]));
        assert(pieces.contains_key(offsets[i]));
    }
    assert forall|i: int, j: int|
        #![trigger at[i], at[j]]
        0 <= i < j < at.len() && at[i] is Some implies at[i] != at[j] by {
        assert(at[i] == Some(offsets[i]) && at[j] == Some(offsets[j]));
    }
    assert forall|offset: nat| at.contains(Some(offset)) == pieces.contains_key(offset) by {
        if at.contains(Some(offset)) {
            let i = choose|i: int| 0 <= i < at.len() && at[i] == Some(offset);
            assert(offsets[i] == offset);
        }
        if pieces.contains_key(offset) {
            assert(offsets.contains(offset));
            let i = choose|i: int| 0 <= i < offsets.len() && offsets[i] == offset;
            assert(at[i] == Some(offset));
        }
    }
    assert(offsets_in(at) =~= pieces.dom());
    assert(offsets.len() > 0);
}

/// A packet that was cut into frames comes back: the reassembler keeps the body of
/// each frame but the last, and answers the last one with the packet, unchanged. Then
/// the id is free again.
pub proof fn fragmented_packet_is_restored(
    model: ReassemblerModel,
    id: u32,
    packet: Seq<u8>,
    chunk: nat,
    times: Seq<u64>,
    position: int,
)
    requires
        model.valid(),
        chunk > 0,
        0 < packet.len() <= 0xffff,
        times.len() == fragment_frames(packet, chunk, id, 0).len(),
        forall|i: int|
            0 <= i < times.len() ==> (#[trigger] times[i]) - times[0] < REASSEMBLY_TIMEOUT,
        !model.without_expired(times[0]).assemblies.contains_key(id),
        model.without_expired(times[0]).assemblies.dom().len() < MAX_REASSEMBLIES,
        0 <= position < fragment_frames(packet, chunk, id, 0).len(),
    ensures
        ({
            let bodies = frame_bodies(fragment_frames(packet, chunk, id, 0));
            &&& model.after_pushes(bodies.take(position), times).pushed(
                bodies[position],
                times[position],
            ).1 == Ok::<Option<Seq<u8>>, Error>(
                if position == bodies.len() - 1 {
                    Some(packet)
                } else {
                    None
                },
            )
            &&& !model.after_pushes(bodies, times).assemblies.contains_key(id)
        }),
{
    let pieces = chunk_pieces(packet, chunk, 0);
    let at = chunks_at(packet, chunk);
    let offsets = chunk_offsets(packet, chunk, 0);
    let bodies = frame_bodies(fragment_frames(packet, chunk, id, 0));
    lemma_delivers(packet, chunk, id);
    lemma_chunk_offsets(packet, chunk, id, 0);
    assert(at[0] == Some(offsets[0]));
    assert(at[position] == Some(offsets[position]));
    pieces_restore_the_packet(model, id, packet, pieces, bodies, at, times, position);
    let upto = at.take(position + 1);
    if position == bodies.len() - 1 {
        assert(upto =~= at);
    } else {
        let last = offsets[offsets.len() - 1];
        assert(pieces.contains_key(last));
        if upto.contains(Some(last)) {
            let i = choose|i: int| 0 <= i < upto.len() && upto[i] == Some(last);
            assert(at[i] == Some(offsets[i]));
        }
        assert(!offsets_in(upto).contains(last));
    }
}

/// A frame that has room in a record, and that the receiver knows.
pub open spec fn carried(frame: FrameModel, capacity: nat) -> bool {
    frame.fits() && frame.encoded().len() <= capacity && frame_known(
        frame.frame_type,
        RecordKind::Data,
    )
}

/// All frames of a packet can be carried.
proof fn lemma_packet_frames(packet: Seq<u8>, capacity: nat, id: u32)
    requires
        packet_frames(packet, capacity, id) is Ok,
    ensures
        forall|i: int|
            0 <= i < packet_frames(packet, capacity, id)->Ok_0.len() ==> carried(
                #[trigger] packet_frames(packet, capacity, id)->Ok_0[i],
                capacity,
            ),
{
    let frames = packet_frames(packet, capacity, id)->Ok_0;
    if packet.len() + 4 > capacity {
        lemma_fragment_frames(packet, (capacity - 14) as nat, id, 0);
    }
    assert forall|i: int| 0 <= i < frames.len() implies carried(#[trigger] frames[i], capacity) by {
        crate::wire::be_bytes_length(frames[i].body.len(), 2);
    }
}

/// All frames of several packets can be carried.
proof fn lemma_all_packet_frames(packets: Seq<Seq<u8>>, capacity: nat, ids: Seq<u32>)
    requires
        all_packet_frames(packets, capacity, ids) is Ok,
    ensures
        forall|i: int|
            0 <= i < all_packet_frames(packets, capacity, ids)->Ok_0.len() ==> carried(
                #[trigger] all_packet_frames(packets, capacity, ids)->Ok_0[i],
                capacity,
            ),
    decreases packets.len(),
{
    if packets.len() > 0 {
        lemma_all_packet_frames(packets.drop_last(), capacity, ids);
        let earlier = all_packet_frames(packets.drop_last(), capacity, ids)->Ok_0;
        let id = ids[packets.len() - 1];
        lemma_packet_frames(packets.last(), capacity, id);
        let frames = packet_frames(packets.last(), capacity, id)->Ok_0;
        let all = earlier + frames;
        assert forall|i: int| 0 <= i < all.len() implies carried(#[trigger] all[i], capacity) by {
            if i < earlier.len() {
                assert(all[i] == earlier[i]);
            } else {
                assert(all[i] == frames[i - earlier.len()]);
            }
        }
    }
}

/// Where the first packets cannot be carried, more packets do not help.
proof fn lemma_error_stays(packets: Seq<Seq<u8>>, capacity: nat, ids: Seq<u32>, count: int)
    requires
        0 <= count <= packets.len(),
        all_packet_frames(packets.take(count), capacity, ids) is Err,
    ensures
        all_packet_frames(packets, capacity, ids) == all_packet_frames(
            packets.take(count),
            capacity,
            ids,
        ),
    decreases packets.len(),
{
    if count == packets.len() {
        assert(packets.take(count) =~= packets);
    } else {
        let front = packets.drop_last();
        assert(front.take(count) =~= packets.take(count));
        lemma_error_stays(front, capacity, ids, count);
    }
}

/// One more frame on the wire.
proof fn lemma_all_encoded_push(frames: Seq<FrameModel>, frame: FrameModel)
    ensures
        all_encoded(frames.push(frame)) == all_encoded(frames) + frame.encoded(),
    decreases frames.len(),
{
    let all = frames.push(frame);
    if frames.len() == 0 {
        assert(all.skip(1) =~= Seq::empty());
        assert(all_encoded(all.skip(1)) =~= Seq::empty());
        assert(all_encoded(all) =~= frame.encoded());
        assert(all_encoded(all) =~= all_encoded(frames) + frame.encoded());
    } else {
        lemma_all_encoded_push(frames.skip(1), frame);
        assert(all.skip(1) =~= frames.skip(1).push(frame));
        assert(all_encoded(all) =~= all_encoded(frames) + frame.encoded());
    }
}

/// Only no frames at all take no bytes.
proof fn lemma_all_encoded_empty(frames: Seq<FrameModel>)
    ensures
        all_encoded(frames).len() == 0 <==> frames.len() == 0,
{
}

/// A packing that keeps to the capacity and to the number of frames.
spec fn packed_well(packing: Packing, capacity: nat) -> bool {
    &&& all_encoded(packing.open).len() <= capacity
    &&& packing.open.len() <= MAX_FRAMES
    &&& forall|i: int|
        0 <= i < packing.open.len() ==> carried(#[trigger] packing.open[i], capacity)
    &&& forall|g: int|
        0 <= g < packing.full.len() ==> all_encoded(#[trigger] packing.full[g]).len() <= capacity
            && 0 < packing.full[g].len() <= MAX_FRAMES
    &&& forall|g: int, i: int|
        0 <= g < packing.full.len() && 0 <= i < packing.full[g].len() ==> carried(
            #[trigger] packing.full[g][i],
            capacity,
        )
}

/// Packing one more frame keeps to the capacity.
proof fn lemma_add(packing: Packing, frame: FrameModel, capacity: nat)
    requires
        packed_well(packing, capacity),
        carried(frame, capacity),
    ensures
        packed_well(packing.add(frame, capacity), capacity),
{
    lemma_all_encoded_push(packing.open, frame);
    lemma_all_encoded_push(Seq::empty(), frame);
    assert(Seq::<FrameModel>::empty().push(frame) =~= seq![frame]);
    assert(all_encoded(seq![frame]) =~= frame.encoded());
    let after = packing.add(frame, capacity);
    assert forall|g: int, i: int|
        0 <= g < after.full.len() && 0 <= i < after.full[g].len() implies carried(
        #[trigger] after.full[g][i],
        capacity,
    ) by {
        if g < packing.full.len() {
            assert(after.full[g] == packing.full[g]);
            assert(carried(packing.full[g][i], capacity));
        } else {
            assert(carried(packing.open[i], capacity));
        }
    }
}

/// Packing keeps to the capacity.
proof fn lemma_packing(frames: Seq<FrameModel>, capacity: nat)
    requires
        forall|i: int| 0 <= i < frames.len() ==> carried(#[trigger] frames[i], capacity),
    ensures
        packed_well(packing(frames, capacity), capacity),
    decreases frames.len(),
{
    if frames.len() > 0 {
        let front = frames.drop_last();
        assert forall|i: int| 0 <= i < front.len() implies carried(#[trigger] front[i], capacity) by {
            assert(front[i] == frames[i]);
        }
        lemma_packing(front, capacity);
        assert(carried(frames[frames.len() - 1], capacity));
        lemma_add(packing(front, capacity), frames.last(), capacity);
    }
}

/// The frames of all groups, in order.
pub open spec fn ungrouped(groups: Seq<Seq<FrameModel>>) -> Seq<FrameModel>
    decreases groups.len(),
{
    if groups.len() == 0 {
        Seq::empty()
    } else {
        ungrouped(groups.drop_last()) + groups.last()
    }
}

/// Packing loses no frame and keeps the order.
proof fn lemma_ungrouped(frames: Seq<FrameModel>, capacity: nat)
    ensures
        ungrouped(packing(frames, capacity).full) + packing(frames, capacity).open == frames,
        ungrouped(packing(frames, capacity).groups()) == frames,
    decreases frames.len(),
{
    let packing = packing(frames, capacity);
    if frames.len() > 0 {
        let before = crate::packet_batch::packing(frames.drop_last(), capacity);
        lemma_ungrouped(frames.drop_last(), capacity);
        assert(before.full.push(before.open).drop_last() =~= before.full);
        assert(ungrouped(before.full.push(before.open)) =~= ungrouped(before.full) + before.open);
        assert(frames =~= frames.drop_last().push(frames.last()));
        assert(ungrouped(packing.full) + packing.open =~= frames);
    }
    assert(packing.full.push(packing.open).drop_last() =~= packing.full);
    assert(ungrouped(packing.groups()) =~= frames);
}

/// What a batch carries comes back: each record keeps to the capacity and is not
/// empty, it parses into the frames that were put into it, at most eight, and the frames
/// of all records are those of the packets, in order.
pub proof fn batch_is_parsed_back(packets: Seq<Seq<u8>>, capacity: nat, ids: Seq<u32>)
    requires
        batched(packets, capacity, ids) is Ok,
    ensures
        ({
            let frames = all_packet_frames(packets, capacity, ids)->Ok_0;
            let groups = packing(frames, capacity).groups();
            let records = batched(packets, capacity, ids)->Ok_0;
            &&& records.len() == groups.len()
            &&& ungrouped(groups) == frames
            &&& forall|i: int|
                0 <= i < records.len() ==> 0 < (#[trigger] records[i]).len() <= capacity
                    && frames_of(records[i], RecordKind::Data) == Ok::<Seq<FrameModel>, Error>(
                    groups[i],
                ) && groups[i].len() <= MAX_FRAMES
        }),
{
    let frames = all_packet_frames(packets, capacity, ids)->Ok_0;
    let packing = packing(frames, capacity);
    let groups = packing.groups();
    let records = batched(packets, capacity, ids)->Ok_0;
    lemma_all_packet_frames(packets, capacity, ids);
    lemma_packing(frames, capacity);
    lemma_ungrouped(frames, capacity);
    assert forall|i: int| 0 <= i < records.len() implies 0 < (#[trigger] records[i]).len()
        <= capacity && frames_of(records[i], RecordKind::Data) == Ok::<Seq<FrameModel>, Error>(
        groups[i],
    ) && groups[i].len() <= MAX_FRAMES by {
        let group = groups[i];
        lemma_all_encoded_empty(group);
        assert forall|k: int| 0 <= k < group.len() implies carried(#[trigger] group[k], capacity) by {
            if i < packing.full.len() {
                assert(group == packing.full[i]);
                assert(carried(packing.full[i][k], capacity));
            } else {
                assert(carried(packing.open[k], capacity));
            }
        }
        parsing_undoes_encoding(group, RecordKind::Data);
        known_frames_come_back(group, RecordKind::Data);
    }
}

/// The receiving end of a batch: the packets that have come out of it so far.
#[verifier::ext_equal]
pub struct Unpacking {
    pub reassembler: ReassemblerModel,
    pub packets: Seq<Seq<u8>>,
    /// A record or a fragment was refused.
    pub refused: bool,
}

impl Unpacking {
    /// Nothing has arrived.
    pub open spec fn fresh() -> Self {
        Unpacking {
            reassembler: ReassemblerModel::empty(),
            packets: Seq::empty(),
            refused: false,
        }
    }

    /// Takes one frame: a packet, or a fragment of one.
    pub open spec fn take(self, frame: FrameModel, now: u64) -> Self {
        if frame.frame_type == PACKET_FRAME {
            Unpacking { packets: self.packets.push(frame.body), ..self }
        } else if frame.frame_type == FRAGMENT_FRAME {
            let (reassembler, answer) = self.reassembler.pushed(frame.body, now);
            match answer {
                Ok(Some(packet)) => Unpacking {
                    reassembler,
                    packets: self.packets.push(packet),
                    ..self
                },
                Ok(None) => Unpacking { reassembler, ..self },
                Err(_) => Unpacking { reassembler, refused: true, ..self },
            }
        } else {
            self
        }
    }

    /// Takes several frames.
    pub open spec fn take_frames(self, frames: Seq<FrameModel>, now: u64) -> Self
        decreases frames.len(),
    {
        if frames.len() == 0 {
            self
        } else {
            self.take_frames(frames.drop_last(), now).take(frames.last(), now)
        }
    }

    /// Takes the plaintexts of several records, in order.
    pub open spec fn take_records(self, records: Seq<Seq<u8>>, now: u64) -> Self
        decreases records.len(),
    {
        if records.len() == 0 {
            self
        } else {
            let before = self.take_records(records.drop_last(), now);
            match frames_of(records.last(), RecordKind::Data) {
                Ok(frames) => before.take_frames(frames, now),
                Err(_) => Unpacking { refused: true, ..before },
            }
        }
    }
}

/// Frames can be taken in two goes.
proof fn lemma_take_more(state: Unpacking, first: Seq<FrameModel>, second: Seq<FrameModel>, now: u64)
    ensures
        state.take_frames(first + second, now) == state.take_frames(first, now).take_frames(
            second,
            now,
        ),
    decreases second.len(),
{
    let all = first + second;
    if second.len() == 0 {
        assert(all =~= first);
    } else {
        lemma_take_more(state, first, second.drop_last(), now);
        assert(all.drop_last() =~= first + second.drop_last());
        assert(all.last() == second.last());
    }
}

/// Fragments of one packet put nothing into the reassembler but that packet.
proof fn lemma_only_one(
    model: ReassemblerModel,
    id: u32,
    packet: Seq<u8>,
    chunk: nat,
    times: Seq<u64>,
    count: int,
)
    requires
        chunk > 0,
        0 < packet.len() <= 0xffff,
        model == ReassemblerModel::empty(),
        0 <= count <= fragment_frames(packet, chunk, id, 0).len(),
    ensures
        forall|other: u32|
            model.after_pushes(
                frame_bodies(fragment_frames(packet, chunk, id, 0)).take(count),
                times,
            ).assemblies.contains_key(other) ==> other == id,
    decreases count,
{
    let bodies = frame_bodies(fragment_frames(packet, chunk, id, 0));
    if count > 0 {
        lemma_only_one(model, id, packet, chunk, times, count - 1);
        lemma_delivers(packet, chunk, id);
        lemma_chunk_offsets(packet, chunk, id, 0);
        let at = chunks_at(packet, chunk);
        let offsets = chunk_offsets(packet, chunk, 0);
        assert(at[count - 1] == Some(offsets[count - 1]));
        let fragment = fragment_at(
            id,
            packet,
            chunk_pieces(packet, chunk, 0),
            offsets[count - 1],
        );
        lemma_chunk_pieces(packet, chunk, 0);
        fragment_parsing_undoes_encoding(fragment);
        assert(fragment_of(bodies[count - 1]) == Ok::<FragmentModel, Error>(fragment));
        assert(bodies.take(count).drop_last() =~= bodies.take(count - 1));
        assert(bodies.take(count).last() == bodies[count - 1]);
        let before = model.after_pushes(bodies.take(count - 1), times);
        let now = times[count - 1];
        let after = before.pushed(bodies[count - 1], now).0;
        assert(model.after_pushes(bodies.take(count), times) == after);
        assert forall|other: u32| after.assemblies.contains_key(other) implies other == id by {
            if other != id {
                assert(before.without_expired(now).assemblies.contains_key(other));
                assert(before.assemblies.contains_key(other));
            }
        }
    }
}

/// The frames of a packet that was cut give the packet, and leave nothing behind.
proof fn lemma_take_fragments(
    state: Unpacking,
    id: u32,
    packet: Seq<u8>,
    chunk: nat,
    now: u64,
    count: int,
)
    requires
        chunk > 0,
        0 < packet.len() <= 0xffff,
        state.reassembler == ReassemblerModel::empty(),
        0 <= count <= fragment_frames(packet, chunk, id, 0).len(),
    ensures
        ({
            let frames = fragment_frames(packet, chunk, id, 0);
            let times = Seq::new(frames.len(), |i: int| now);
            state.take_frames(frames.take(count), now) == (Unpacking {
                reassembler: state.reassembler.after_pushes(
                    frame_bodies(frames).take(count),
                    times,
                ),
                packets: if count == frames.len() {
                    state.packets.push(packet)
                } else {
                    state.packets
                },
                ..state
            })
        }),
    decreases count,
{
    let frames = fragment_frames(packet, chunk, id, 0);
    let bodies = frame_bodies(frames);
    let times = Seq::new(frames.len(), |i: int| now);
    lemma_delivers(packet, chunk, id);
    lemma_chunk_offsets(packet, chunk, id, 0);
    lemma_fragment_frames(packet, chunk, id, 0);
    if count > 0 {
        lemma_take_fragments(state, id, packet, chunk, now, count - 1);
        assert(ReassemblerModel::empty().assemblies.dom() =~= Set::<u32>::empty());
        assert(ReassemblerModel::empty().without_expired(now) =~= ReassemblerModel::empty());
        assert(state.reassembler.valid());
        fragmented_packet_is_restored(state.reassembler, id, packet, chunk, times, count - 1);
        assert(frames.take(count).drop_last() =~= frames.take(count - 1));
        assert(frames.take(count).last() == frames[count - 1]);
        assert(frames[count - 1].frame_type == FRAGMENT_FRAME);
        assert(bodies.take(count).drop_last() =~= bodies.take(count - 1));
        assert(bodies.take(count).last() == bodies[count - 1]);
    }
}

/// The frames of one packet give that packet, and leave nothing behind.
proof fn lemma_take_packet(state: Unpacking, packet: Seq<u8>, capacity: nat, id: u32, now: u64)
    requires
        capacity >= 15,
        packet.len() <= 0xffff,
        state.reassembler == ReassemblerModel::empty(),
    ensures
        packet_frames(packet, capacity, id) is Ok,
        state.take_frames(packet_frames(packet, capacity, id)->Ok_0, now) == (Unpacking {
            packets: state.packets.push(packet),
            ..state
        }),
{
    let frames = packet_frames(packet, capacity, id)->Ok_0;
    if packet.len() + 4 <= capacity {
        assert(frames.drop_last() =~= Seq::empty());
        assert(state.take_frames(frames.drop_last(), now) == state);
    } else {
        let chunk = (capacity - 14) as nat;
        let n = frames.len() as int;
        let times = Seq::new(frames.len(), |i: int| now);
        let bodies = frame_bodies(frames);
        lemma_take_fragments(state, id, packet, chunk, now, n);
        assert(frames.take(n) =~= frames);
        assert(bodies.take(n) =~= bodies);
        lemma_delivers(packet, chunk, id);
        lemma_chunk_offsets(packet, chunk, id, 0);
        assert(ReassemblerModel::empty().assemblies.dom() =~= Set::<u32>::empty());
        assert(ReassemblerModel::empty().without_expired(now) =~= ReassemblerModel::empty());
        fragmented_packet_is_restored(state.reassembler, id, packet, chunk, times, n - 1);
        lemma_only_one(state.reassembler, id, packet, chunk, times, n);
        assert(state.reassembler.after_pushes(bodies, times).assemblies =~= Map::empty());
    }
}

/// The frames of several packets give those packets.
proof fn lemma_take_packets(packets: Seq<Seq<u8>>, capacity: nat, ids: Seq<u32>, now: u64)
    requires
        capacity >= 15,
        forall|i: int| 0 <= i < packets.len() ==> (#[trigger] packets[i]).len() <= 0xffff,
    ensures
        all_packet_frames(packets, capacity, ids) is Ok,
        Unpacking::fresh().take_frames(all_packet_frames(packets, capacity, ids)->Ok_0, now) == (
        Unpacking { packets, ..Unpacking::fresh() }),
    decreases packets.len(),
{
    if packets.len() == 0 {
        assert(packets =~= Seq::empty());
    } else {
        let front = packets.drop_last();
        assert forall|i: int| 0 <= i < front.len() implies (#[trigger] front[i]).len() <= 0xffff by {
            assert(front[i] == packets[i]);
        }
        lemma_take_packets(front, capacity, ids, now);
        let earlier = all_packet_frames(front, capacity, ids)->Ok_0;
        let state = Unpacking::fresh().take_frames(earlier, now);
        let id = ids[packets.len() - 1];
        assert(packets.last() == packets[packets.len() - 1]);
        lemma_take_packet(state, packets.last(), capacity, id, now);
        let frames = packet_frames(packets.last(), capacity, id)->Ok_0;
        lemma_take_more(Unpacking::fresh(), earlier, frames, now);
        assert(front.push(packets.last()) =~= packets);
    }
}

/// Taking records is taking their frames.
proof fn lemma_take_records(
    state: Unpacking,
    records: Seq<Seq<u8>>,
    groups: Seq<Seq<FrameModel>>,
    now: u64,
)
    requires
        records.len() == groups.len(),
        forall|i: int|
            #![trigger records[i]]
            0 <= i < records.len() ==> frames_of(records[i], RecordKind::Data) == Ok::<
                Seq<FrameModel>,
                Error,
            >(groups[i]),
    ensures
        state.take_records(records, now) == state.take_frames(ungrouped(groups), now),
    decreases records.len(),
{
    if records.len() > 0 {
        let front = records.drop_last();
        let n = records.len() - 1;
        assert forall|i: int| #![trigger front[i]] 0 <= i < front.len() implies frames_of(
            front[i],
            RecordKind::Data,
        ) == Ok::<Seq<FrameModel>, Error>(groups.drop_last()[i]) by {
            assert(front[i] == records[i]);
        }
        lemma_take_records(state, front, groups.drop_last(), now);
        assert(records.last() == records[n]);
        assert(groups.last() == groups[n]);
        lemma_take_more(state, ungrouped(groups.drop_last()), groups.last(), now);
    }
}

/// A batch brings its packets to the other end: every packet that has an encoding is
/// carried, and reading the records in order, with a reassembler for the fragments,
/// gives exactly the packets that were packed, in order, whatever ids their fragments
/// bear. None is left unfinished.
pub proof fn batch_brings_all_packets(
    packets: Seq<Seq<u8>>,
    capacity: nat,
    ids: Seq<u32>,
    now: u64,
)
    requires
        capacity >= 15,
        forall|i: int| 0 <= i < packets.len() ==> (#[trigger] packets[i]).len() <= 0xffff,
    ensures
        batched(packets, capacity, ids) is Ok,
        Unpacking::fresh().take_records(batched(packets, capacity, ids)->Ok_0, now) == (
        Unpacking { packets, ..Unpacking::fresh() }),
{
    lemma_take_packets(packets, capacity, ids, now);
    batch_is_parsed_back(packets, capacity, ids);
    let frames = all_packet_frames(packets, capacity, ids)->Ok_0;
    let groups = packing(frames, capacity).groups();
    lemma_take_records(
        Unpacking::fresh(),
        batched(packets, capacity, ids)->Ok_0,
        groups,
        now,
    );
}

/// Packs packets into records of the given capacity; the fragments of packet `i` bear
/// the id `ids[i]`.
pub fn batch_packets_with_ids(packets: &Vec<Vec<u8>>, capacity: usize, ids: &Vec<u32>) -> (records:
    Result<Vec<Vec<u8>>, Error>)
    requires
        ids@.len() == packets@.len(),
        batchable(byte_views(packets@), capacity as nat),
    ensures
        match records {
            Ok(list) => batched(byte_views(packets@), capacity as nat, ids@) == Ok::<
                Seq<Seq<u8>>,
                Error,
            >(byte_views(list@)),
            Err(error) => batched(byte_views(packets@), capacity as nat, ids@) == Err::<
                Seq<Seq<u8>>,
                Error,
            >(error),
        },
{
    let ghost views = byte_views(packets@);
    let ghost cap = capacity as nat;
    let mut records: Vec<Vec<u8>> = Vec::new();
    let mut plaintext: Vec<u8> = Vec::new();
    let mut count: usize = 0;
    let ghost mut frames: Seq<FrameModel> = Seq::empty();
    proof {
        assert(views.take(0) =~= Seq::empty());
        assert(byte_views(records@) =~= record_texts(packing(frames, cap).full));
    }
    let mut i: usize = 0;
    while i < packets.len()
        invariant
            i <= packets@.len(),
            ids@.len() == packets@.len(),
            views == byte_views(packets@),
            cap == capacity,
            batchable(views, cap),
            all_packet_frames(views.take(i as int), cap, ids@) == Ok::<Seq<FrameModel>, Error>(
                frames,
            ),
            forall|k: int| 0 <= k < i ==> (#[trigger] views[k]).len() <= 0xffff,
            packed_well(packing(frames, cap), cap),
            byte_views(records@) == record_texts(packing(frames, cap).full),
            plaintext@ == all_encoded(packing(frames, cap).open),
            count == packing(frames, cap).open.len(),
        decreases packets@.len() - i,
    {
        proof {
            assert(views.take(i + 1).drop_last() =~= views.take(i as int));
            assert(views.take(i + 1).last() == packets@[i as int]@);
            assert(views[i as int] == packets@[i as int]@);
            if all_packet_frames(views.take(i + 1), cap, ids@) is Err {
                lemma_error_stays(views, cap, ids@, i + 1);
            } else {
                lemma_packet_frames(packets@[i as int]@, cap, ids@[i as int]);
            }
        }
        let list = encode_packet(&packets[i], capacity, ids[i])?;
        let ghost added = frame_views(list@);
        let ghost earlier = frames;
        let mut k: usize = 0;
        assert(added.take(0) =~= Seq::empty());
        assert(earlier + added.take(0) =~= earlier);
        while k < list.len()
            invariant
                k <= list@.len(),
                cap == capacity,
                added == frame_views(list@),
                frames == earlier + added.take(k as int),
                forall|j: int| 0 <= j < added.len() ==> carried(#[trigger] added[j], cap),
                packed_well(packing(frames, cap), cap),
                byte_views(records@) == record_texts(packing(frames, cap).full),
                plaintext@ == all_encoded(packing(frames, cap).open),
                count == packing(frames, cap).open.len(),
            decreases list@.len() - k,
        {
            let ghost before = packing(frames, cap);
            let ghost frame = added[k as int];
            proof {
                assert(frame == list@[k as int]@);
                assert(carried(frame, cap));
                lemma_add(before, frame, cap);
                lemma_all_encoded_empty(before.open);
                lemma_all_encoded_push(before.open, frame);
                lemma_all_encoded_push(Seq::empty(), frame);
                assert(Seq::<FrameModel>::empty().push(frame) =~= seq![frame]);
                assert(all_encoded(seq![frame]) =~= frame.encoded());
                frames = earlier + added.take(k + 1);
                assert(frames.drop_last() =~= earlier + added.take(k as int));
            }
            let encoded = list[k].encode()?;
            if count >= MAX_FRAMES || plaintext.len() > 0 && encoded.len() > capacity
                - plaintext.len() {
                let ghost held = records@;
                records.push(plaintext);
                plaintext = Vec::new();
                count = 0;
                assert(byte_views(records@) =~= byte_views(held).push(all_encoded(before.open)));
                assert(record_texts(before.full.push(before.open)) =~= record_texts(
                    before.full,
                ).push(all_encoded(before.open)));
            }
            append(&mut plaintext, &encoded);
            count = count + 1;
            assert(plaintext@ =~= all_encoded(packing(frames, cap).open));
            k = k + 1;
        }
        proof {
            assert(added.take(added.len() as int) =~= added);
        }
        i = i + 1;
    }
    proof {
        assert(views.take(views.len() as int) =~= views);
        lemma_all_encoded_empty(packing(frames, cap).open);
    }
    if plaintext.len() > 0 {
        let ghost held = records@;
        let ghost last = plaintext@;
        records.push(plaintext);
        assert(byte_views(records@) =~= byte_views(held).push(last));
    }
    assert(byte_views(records@) =~= record_texts(packing(frames, cap).groups()));
    Ok(records)
}

/// Packs packets into records of the given capacity. The fragments of each packet
/// bear an id drawn at random.
pub fn batch_packets(packets: Vec<Vec<u8>>, capacity: usize) -> (records: Result<
    Vec<Vec<u8>>,
    Error,
>)
    requires
        batchable(byte_views(packets@), capacity as nat),
    ensures
        exists|ids: Seq<u32>|
            ids.len() == packets@.len() && match records {
                Ok(list) => #[trigger] batched(byte_views(packets@), capacity as nat, ids) == Ok::<
                    Seq<Seq<u8>>,
                    Error,
                >(byte_views(list@)),
                Err(error) => batched(byte_views(packets@), capacity as nat, ids) == Err::<
                    Seq<Seq<u8>>,
                    Error,
                >(error),
            },
{
    let mut ids: Vec<u32> = Vec::new();
    for i in 0..packets.len()
        invariant
            ids@.len() == i,
    {
        if capacity >= 4 && packets[i].len() <= capacity - 4 {
            ids.push(0);
        } else {
            let drawn: [u8; 4] = random_bytes();
            ids.push(get_u32(&drawn, 0));
        }
    }
    batch_packets_with_ids(&packets, capacity, &ids)
}

/// The largest piece of a packet in a datagram.
pub const H3_DATAGRAM_FRAGMENT_SIZE: usize = 900;

/// The frames that carry a packet to a client: fragments where it has to fit into
/// datagrams.
pub open spec fn frames_to_send(packet: Seq<u8>, datagrams: bool, id: u32) -> Result<
    Seq<FrameModel>,
    Error,
> {
    if !datagrams || packet.len() <= H3_DATAGRAM_FRAGMENT_SIZE {
        Ok(seq![FrameModel { frame_type: PACKET_FRAME, flags: 0, body: packet }])
    } else if packet.len() > 0xffff {
        Err(Error::NumberOutOfRange)
    } else {
        Ok(fragment_frames(packet, H3_DATAGRAM_FRAGMENT_SIZE as nat, id, 0))
    }
}

/// The frames that carry a packet to a client; fragments bear the given id.
pub fn outbound_frames(packet: Vec<u8>, datagrams: bool, packet_id: u32) -> (frames: Result<
    Vec<Frame>,
    Error,
>)
    ensures
        match frames {
            Ok(list) => frames_to_send(packet@, datagrams, packet_id) == Ok::<
                Seq<FrameModel>,
                Error,
            >(frame_views(list@)),
            Err(error) => frames_to_send(packet@, datagrams, packet_id) == Err::<
                Seq<FrameModel>,
                Error,
            >(error),
        },
{
    if !datagrams || packet.len() <= H3_DATAGRAM_FRAGMENT_SIZE {
        let ghost body = packet@;
        let mut frames: Vec<Frame> = Vec::new();
        frames.push(Frame { frame_type: PACKET_FRAME, flags: 0, body: packet });
        assert(frame_views(frames@) =~= seq![
            FrameModel { frame_type: PACKET_FRAME, flags: 0, body },
        ]);
        return Ok(frames);
    }
    if packet.len() > 0xffff {
        return Err(Error::NumberOutOfRange);
    }
    Ok(fragment_packet(&packet, H3_DATAGRAM_FRAGMENT_SIZE, packet_id))
}

/// The frames that carry a packet to a client; fragments bear an id drawn at random.
pub fn outbound_packet(packet: Vec<u8>, datagrams: bool) -> (frames: Result<Vec<Frame>, Error>)
    ensures
        exists|id: u32|
            match frames {
                Ok(list) => #[trigger] frames_to_send(packet@, datagrams, id) == Ok::<
                    Seq<FrameModel>,
                    Error,
                >(frame_views(list@)),
                Err(error) => frames_to_send(packet@, datagrams, id) == Err::<
                    Seq<FrameModel>,
                    Error,
                >(error),
            },
{
    let drawn: [u8; 4] = random_bytes();
    outbound_frames(packet, datagrams, get_u32(&drawn, 0))
}

/// The record after a full one.
spec fn next_record(packing: Packing, g: int) -> Seq<FrameModel> {
    if g + 1 < packing.full.len() {
        packing.full[g + 1]
    } else {
        packing.open
    }
}

/// A record is closed only where it is full: the first frame of the next one stands there
/// because the record has eight frames or no room for it.
spec fn closed_when_full(packing: Packing, capacity: nat, g: int) -> bool {
    &&& next_record(packing, g).len() > 0
    &&& packing.full[g].len() >= 8 || all_encoded(packing.full[g]).len() + next_record(
        packing,
        g,
    )[0].encoded().len() > capacity
}

/// Every record but the last is full.
proof fn lemma_full_records(frames: Seq<FrameModel>, capacity: nat)
    ensures
        packing(frames, capacity).full.len() > 0 ==> packing(frames, capacity).open.len() > 0,
        forall|g: int|
            0 <= g < packing(frames, capacity).full.len() ==> #[trigger] closed_when_full(
                packing(frames, capacity),
                capacity,
                g,
            ),
    decreases frames.len(),
{
    if frames.len() > 0 {
        let before = packing(frames.drop_last(), capacity);
        lemma_full_records(frames.drop_last(), capacity);
        let after = packing(frames, capacity);
        assert(after == before.add(frames.last(), capacity));
        assert forall|g: int| 0 <= g < after.full.len() implies #[trigger] closed_when_full(
            after,
            capacity,
            g,
        ) by {
            if g < before.full.len() {
                assert(closed_when_full(before, capacity, g));
                assert(before.full[g] == after.full[g]);
                assert(next_record(after, g)[0] == next_record(before, g)[0]);
            } else {
                assert(after.full[g] == before.open);
                assert(next_record(after, g) == seq![frames.last()]);
            }
        }
    }
}

/// As few records are used as can be: no record is begun while the one before has fewer than
/// eight frames and room for the next frame, and none has more than eight.
pub proof fn records_are_filled(packets: Seq<Seq<u8>>, capacity: nat, ids: Seq<u32>, g: int)
    requires
        batched(packets, capacity, ids) is Ok,
        0 <= g,
        g + 1 < batched(packets, capacity, ids)->Ok_0.len(),
    ensures
        ({
            let records = batched(packets, capacity, ids)->Ok_0;
            let frames = frames_of(records[g], RecordKind::Data);
            let next = frames_of(records[g + 1], RecordKind::Data);
            &&& frames is Ok && next is Ok
            &&& 0 < frames->Ok_0.len() <= 8
            &&& 0 < next->Ok_0.len() <= 8
            &&& frames->Ok_0.len() == 8 || records[g].len() + 4 + next->Ok_0[0].body.len()
                > capacity
        }),
{
    batch_is_parsed_back(packets, capacity, ids);
    let frames = all_packet_frames(packets, capacity, ids)->Ok_0;
    lemma_full_records(frames, capacity);
    let packing = packing(frames, capacity);
    let groups = packing.groups();
    let records = batched(packets, capacity, ids)->Ok_0;
    assert(records[g].len() > 0 && records[g + 1].len() > 0);
    lemma_all_encoded_empty(groups[g]);
    assert(groups[g] == packing.full[g]);
    assert(closed_when_full(packing, capacity, g));
    assert(groups[g + 1] == next_record(packing, g));
    crate::wire::be_bytes_length(groups[g + 1][0].body.len(), 2);
}

/// A packet is carried whole where it fits into a record with its frame's header, and else in
/// fragments that fill the records. Packets of more than 65535 bytes are refused, and so are
/// capacities without room for a fragment.
pub proof fn packets_are_carried_whole_where_they_fit(packet: Seq<u8>, capacity: nat, id: u32)
    ensures
        packet.len() > 0xffff ==> packet_frames(packet, capacity, id) is Err,
        packet.len() <= 0xffff && packet.len() + 4 <= capacity ==> packet_frames(
            packet,
            capacity,
            id,
        ) == Ok::<Seq<FrameModel>, Error>(
            seq![(FrameModel { frame_type: 0x01, flags: 0, body: packet })],
        ),
        packet.len() + 4 > capacity && capacity < 14 ==> packet_frames(packet, capacity, id) is Err,
        packet.len() <= 0xffff && packet.len() + 4 > capacity && capacity >= 14 ==> packet_frames(
            packet,
            capacity,
            id,
        ) is Ok && forall|i: int|
            0 <= i < packet_frames(packet, capacity, id)->Ok_0.len() ==> (#[trigger] packet_frames(
                packet,
                capacity,
                id,
            )->Ok_0[i]).frame_type == 0x03 && packet_frames(packet, capacity, id)->Ok_0[i].body.len()
                + 4 <= capacity,
{
    if packet.len() <= 0xffff && packet.len() + 4 > capacity && capacity >= 14 {
        lemma_fragment_frames(packet, (capacity - 14) as nat, id, 0);
    }
}

/// A packet for a client goes in one frame over a stream, and in datagrams too where it has
/// at most 900 bytes. A longer one is cut for datagrams into fragments of at most 900 bytes,
/// from which the client puts it together again.
pub proof fn packets_are_sent_to_fit_their_carrier(
    packet: Seq<u8>,
    datagrams: bool,
    id: u32,
    now: u64,
)
    requires
        0 < packet.len() <= 0xffff,
    ensures
        !datagrams || packet.len() <= 900 ==> frames_to_send(packet, datagrams, id) == Ok::<
            Seq<FrameModel>,
            Error,
        >(seq![(FrameModel { frame_type: 0x01, flags: 0, body: packet })]),
        datagrams && packet.len() > 900 ==> {
            let frames = frames_to_send(packet, datagrams, id)->Ok_0;
            let bodies = frame_bodies(frames);
            let times = Seq::new(bodies.len(), |i: int| now);
            let last = bodies.len() - 1;
            &&& frames_to_send(packet, datagrams, id) is Ok
            &&& frames.len() > 1
            &&& forall|i: int|
                0 <= i < frames.len() ==> (#[trigger] frames[i]).frame_type == 0x03
                    && frames[i].body.len() <= 910
            &&& ReassemblerModel::empty().after_pushes(bodies.take(last), times).pushed(
                bodies[last],
                now,
            ).1 == Ok::<Option<Seq<u8>>, Error>(Some(packet))
        },
{
    if datagrams && packet.len() > 900 {
        let frames = fragment_frames(packet, 900, id, 0);
        lemma_fragment_frames(packet, 900, id, 0);
        reveal_with_fuel(fragment_frames, 3);
        let bodies = frame_bodies(frames);
        let times = Seq::new(bodies.len(), |i: int| now);
        let empty = ReassemblerModel::empty();
        crate::fragment::limits_are_kept(ReassemblerModel::empty(), Seq::empty(), now);
        assert(empty.assemblies.dom() =~= Set::<u32>::empty());
        assert(empty.without_expired(now).assemblies.dom() =~= Set::<u32>::empty());
        crate::fragment::expiry_drops_only(empty, now);
        fragmented_packet_is_restored(empty, id, packet, 900, times, bodies.len() - 1);
    }
}

/// Packets that are packed come out again: whatever ids are drawn for their fragments, reading
/// the records in order gives the packets in order, and each record keeps to the capacity.
pub proof fn packed_packets_come_out(
    packets: Vec<Vec<u8>>,
    capacity: usize,
    records: Result<Vec<Vec<u8>>, Error>,
    now: u64,
)
    requires
        call_ensures(batch_packets, (packets, capacity), records),
        capacity >= 15,
        forall|i: int| 0 <= i < packets@.len() ==> (#[trigger] packets@[i])@.len() <= 0xffff,
    ensures
        records is Ok,
        Unpacking::fresh().take_records(byte_views(records->Ok_0@), now).packets == byte_views(
            packets@,
        ),
        !Unpacking::fresh().take_records(byte_views(records->Ok_0@), now).refused,
        forall|i: int|
            0 <= i < records->Ok_0@.len() ==> 0 < (#[trigger] records->Ok_0@[i])@.len()
                <= capacity,
{
    let views = byte_views(packets@);
    assert forall|i: int| 0 <= i < views.len() implies (#[trigger] views[i]).len() <= 0xffff by {
        assert(views[i] == packets@[i]@);
    }
    let ids = choose|ids: Seq<u32>|
        ids.len() == packets@.len() && match records {
            Ok(list) => #[trigger] batched(views, capacity as nat, ids) == Ok::<
                Seq<Seq<u8>>,
                Error,
            >(byte_views(list@)),
            Err(error) => batched(views, capacity as nat, ids) == Err::<Seq<Seq<u8>>, Error>(error),
        };
    batch_brings_all_packets(views, capacity as nat, ids, now);
    batch_is_parsed_back(views, capacity as nat, ids);
    let list = records->Ok_0@;
    assert forall|i: int| 0 <= i < list.len() implies 0 < (#[trigger] list[i])@.len()
        <= capacity by {
        assert(byte_views(list)[i] == list[i]@);
        assert(batched(views, capacity as nat, ids)->Ok_0[i] == list[i]@);
    }
}

/// A packet that is sent to a client is in the frames that go there, under some id.
pub proof fn sent_packets_are_in_their_frames(
    packet: Vec<u8>,
    datagrams: bool,
    frames: Result<Vec<Frame>, Error>,
)
    requires
        call_ensures(outbound_packet, (packet, datagrams), frames),
    ensures
        exists|id: u32|
            {
                let stated = #[trigger] frames_to_send(packet@, datagrams, id);
                &&& frames is Ok <==> stated is Ok
                &&& frames is Ok ==> frame_views(frames->Ok_0@) == stated->Ok_0
            },
        !datagrams || packet@.len() <= 900 ==> frames is Ok && frames->Ok_0@.len() == 1
            && frames->Ok_0@[0].frame_type == 0x01 && frames->Ok_0@[0].flags == 0
            && frames->Ok_0@[0].body@ == packet@,
{
    let id = choose|id: u32|
        match frames {
            Ok(list) => #[trigger] frames_to_send(packet@, datagrams, id) == Ok::<
                Seq<FrameModel>,
                Error,
            >(frame_views(list@)),
            Err(error) => frames_to_send(packet@, datagrams, id) == Err::<Seq<FrameModel>, Error>(
                error,
            ),
        };
    let stated = frames_to_send(packet@, datagrams, id);
    if !datagrams || packet@.len() <= 900 {
        assert(stated is Ok);
        assert(frame_views(frames->Ok_0@) == stated->Ok_0);
        assert(frame_views(frames->Ok_0@)[0] == frames->Ok_0@[0]@);
    }
}

} // verus!
