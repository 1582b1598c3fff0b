//! Reassembly of packets that arrive in fragments.
use crate::wire::{
    append, be_bytes, be_bytes_length, be_limit, be_round_trip, be_value, be_value_round_trip,
    get_u16, get_u32, numbers_are_big_endian, put_u16, put_u32, same_bytes,
};
use crate::error::Error;
use std::collections::HashMap;
use vstd::prelude::*;
use vstd::slice::slice_subrange;
use vstd::slice::slice_to_vec;

verus! {

broadcast use vstd::std_specs::hash::group_hash_axioms;

/// How many packets may be incomplete at a time.
pub const MAX_REASSEMBLIES: usize = 64;

/// How many bytes the fragments of incomplete packets may take.
pub const MAX_REASSEMBLY_MEMORY: usize = 8_388_608;

/// After how many nanoseconds an incomplete packet is given up.
pub const REASSEMBLY_TIMEOUT: u64 = 3_000_000_000;

/// The sum of a weight over the values of a finite map.
pub open spec fn weigh<K, V>(map: Map<K, V>, weight: spec_fn(V) -> nat) -> nat
    decreases map.dom().len(),
{
    if map.dom().finite() && map.dom().len() > 0 {
        let key = map.dom().choose();
        weight(map[key]) + weigh(map.remove(key), weight)
    } else {
        0
    }
}

/// Any entry can be weighed first.
pub proof fn lemma_weigh_remove<K, V>(map: Map<K, V>, weight: spec_fn(V) -> nat, key: K)
    requires
        map.dom().finite(),
        map.contains_key(key),
    ensures
        weigh(map, weight) == weight(map[key]) + weigh(map.remove(key), weight),
    decreases map.dom().len(),
{
    let first = map.dom().choose();
    if first != key {
        lemma_weigh_remove(map.remove(first), weight, key);
        lemma_weigh_remove(map.remove(key), weight, first);
        assert(map.remove(first).remove(key) =~= map.remove(key).remove(first));
    }
}

/// What a new entry adds.
pub proof fn lemma_weigh_insert<K, V>(map: Map<K, V>, weight: spec_fn(V) -> nat, key: K, value: V)
    requires
        map.dom().finite(),
    ensures
        weigh(map.insert(key, value), weight) == weight(value) + weigh(map.remove(key), weight),
        !map.contains_key(key) ==> weigh(map.insert(key, value), weight) == weight(value) + weigh(
            map,
            weight,
        ),
{
    lemma_weigh_remove(map.insert(key, value), weight, key);
    assert(map.insert(key, value).remove(key) =~= map.remove(key));
    if !map.contains_key(key) {
        assert(map.remove(key) =~= map);
    }
}

/// A fragment as values.
#[verifier::ext_equal]
pub struct FragmentModel {
    pub packet_id: u32,
    pub total: nat,
    pub offset: nat,
    pub data: Seq<u8>,
}

impl FragmentModel {
    /// The fragment on the wire.
    pub open spec fn encoded(self) -> Seq<u8> {
        be_bytes(self.packet_id as nat, 4) + be_bytes(self.total, 2) + be_bytes(self.offset, 2)
            + be_bytes(self.data.len(), 2) + self.data
    }

    /// A piece of a packet: not empty and inside it.
    pub open spec fn valid(self) -> bool {
        0 < self.data.len() && self.offset + self.data.len() <= self.total <= 0xffff
    }
}

/// The fragment that a frame's body holds.
pub open spec fn fragment_of(body: Seq<u8>) -> Result<FragmentModel, Error> {
    let total = be_value(body.subrange(4, 6));
    let offset = be_value(body.subrange(6, 8));
    let length = be_value(body.subrange(8, 10));
    if body.len() < 10 {
        Err(Error::TruncatedFragment)
    } else if total == 0 || length == 0 || body.len() != 10 + length {
        Err(Error::InvalidFragmentLength)
    } else if offset + length > total {
        Err(Error::FragmentExceedsPacket)
    } else {
        Ok(
            FragmentModel {
                packet_id: be_value(body.subrange(0, 4)) as u32,
                total,
                offset,
                data: body.skip(10),
            },
        )
    }
}

/// Parsing a fragment undoes encoding it.
pub proof fn fragment_parsing_undoes_encoding(fragment: FragmentModel)
    requires
        fragment.valid(),
    ensures
        fragment_of(fragment.encoded()) == Ok::<FragmentModel, Error>(fragment),
{
    let body = fragment.encoded();
    be_bytes_length(fragment.packet_id as nat, 4);
    be_bytes_length(fragment.total, 2);
    be_bytes_length(fragment.offset, 2);
    be_bytes_length(fragment.data.len(), 2);
    reveal_with_fuel(be_limit, 5);
    be_round_trip(fragment.packet_id as nat, 4);
    be_round_trip(fragment.total, 2);
    be_round_trip(fragment.offset, 2);
    be_round_trip(fragment.data.len(), 2);
    assert(body.subrange(0, 4) =~= be_bytes(fragment.packet_id as nat, 4));
    assert(body.subrange(4, 6) =~= be_bytes(fragment.total, 2));
    assert(body.subrange(6, 8) =~= be_bytes(fragment.offset, 2));
    assert(body.subrange(8, 10) =~= be_bytes(fragment.data.len(), 2));
    assert(body.skip(10) =~= fragment.data);
}

/// Whatever is parsed is a piece of a packet, and encodes to what was read.
pub proof fn parsed_fragment_is_valid(body: Seq<u8>)
    requires
        fragment_of(body) is Ok,
    ensures
        fragment_of(body)->Ok_0.valid(),
        fragment_of(body)->Ok_0.encoded() == body,
{
    let fragment = fragment_of(body)->Ok_0;
    be_value_round_trip(body.subrange(0, 4));
    be_value_round_trip(body.subrange(4, 6));
    be_value_round_trip(body.subrange(6, 8));
    be_value_round_trip(body.subrange(8, 10));
    reveal_with_fuel(be_limit, 5);
    assert(fragment.encoded() =~= body);
}

/// Two pieces that share a byte.
pub open spec fn overlaps(offset1: nat, data1: Seq<u8>, offset2: nat, data2: Seq<u8>) -> bool {
    offset1 < offset2 + data2.len() && offset2 < offset1 + data1.len()
}

/// How many bytes a piece has.
pub open spec fn piece_len() -> spec_fn(Seq<u8>) -> nat {
    |data: Seq<u8>| data.len()
}

/// An incomplete packet as values.
#[verifier::ext_equal]
pub struct AssemblyModel {
    pub total: nat,
    pub created: u64,
    /// The pieces, by their offsets.
    pub fragments: Map<nat, Seq<u8>>,
}

impl AssemblyModel {
    /// How many bytes have arrived.
    pub open spec fn received(self) -> nat {
        weigh(self.fragments, piece_len())
    }

    /// The piece that covers the byte at `position`.
    pub open spec fn covers(self, offset: nat, position: int) -> bool {
        self.fragments.contains_key(offset) && offset <= position < offset
            + self.fragments[offset].len()
    }

    /// The packet: each byte comes from the piece that covers it.
    pub open spec fn joined(self) -> Seq<u8> {
        Seq::new(
            self.total,
            |position: int|
                {
                    let offset = choose|offset: nat| self.covers(offset, position);
                    self.fragments[offset][position - offset]
                },
        )
    }

    /// The pieces are parts of the packet, and no two of them share a byte.
    pub open spec fn valid(self) -> bool {
        &&& self.fragments.dom().finite()
        &&& self.total <= 0xffff
        &&& forall|o: nat| #[trigger]
            self.fragments.contains_key(o) ==> 0 < self.fragments[o].len() && o
                + self.fragments[o].len() <= self.total
        &&& forall|o1: nat, o2: nat|
            #![trigger self.fragments[o1], self.fragments[o2]]
            self.fragments.contains_key(o1) && self.fragments.contains_key(o2) && o1 != o2
                ==> !overlaps(o1, self.fragments[o1], o2, self.fragments[o2])
    }

    /// Whether the time for this packet is over.
    pub open spec fn expired(self, now: u64) -> bool {
        now - self.created >= REASSEMBLY_TIMEOUT
    }
}

/// How many bytes an incomplete packet holds.
pub open spec fn assembly_len() -> spec_fn(AssemblyModel) -> nat {
    |assembly: AssemblyModel| assembly.received()
}

/// All incomplete packets, by their ids.
#[verifier::ext_equal]
pub struct ReassemblerModel {
    pub assemblies: Map<u32, AssemblyModel>,
}

impl ReassemblerModel {
    /// Nothing has arrived.
    pub open spec fn empty() -> Self {
        ReassemblerModel { assemblies: Map::empty() }
    }

    /// How many bytes are held.
    pub open spec fn memory(self) -> nat {
        weigh(self.assemblies, assembly_len())
    }

    /// Every incomplete packet is valid, and both limits are kept.
    pub open spec fn valid(self) -> bool {
        &&& self.assemblies.dom().finite()
        &&& self.assemblies.dom().len() <= MAX_REASSEMBLIES
        &&& self.memory() <= MAX_REASSEMBLY_MEMORY
        &&& forall|id: u32| #[trigger]
            self.assemblies.contains_key(id) ==> self.assemblies[id].valid()
    }

    /// Without the packets whose time is over.
    pub open spec fn without_expired(self, now: u64) -> Self {
        ReassemblerModel {
            assemblies: self.assemblies.restrict(
                self.assemblies.dom().filter(|id: u32| !self.assemblies[id].expired(now)),
            ),
        }
    }

    /// Without one packet.
    pub open spec fn without(self, packet_id: u32) -> Self {
        ReassemblerModel { assemblies: self.assemblies.remove(packet_id) }
    }

    /// With one packet in the given state.
    pub open spec fn with(self, packet_id: u32, assembly: AssemblyModel) -> Self {
        ReassemblerModel { assemblies: self.assemblies.insert(packet_id, assembly) }
    }

    /// What is known of the packet that a fragment belongs to.
    pub open spec fn assembly_for(self, fragment: FragmentModel, now: u64) -> AssemblyModel {
        if self.assemblies.contains_key(fragment.packet_id) {
            self.assemblies[fragment.packet_id]
        } else {
            AssemblyModel { total: fragment.total, created: now, fragments: Map::empty() }
        }
    }

    /// What a fragment changes where at most `limit` packets may be incomplete, and what
    /// is answered.
    pub open spec fn take_fragment(self, fragment: FragmentModel, now: u64, limit: nat) -> (
        Self,
        Result<Option<Seq<u8>>, Error>,
    ) {
        let id = fragment.packet_id;
        let assembly = self.assembly_for(fragment, now);
        let extended = AssemblyModel {
            fragments: assembly.fragments.insert(fragment.offset, fragment.data),
            ..assembly
        };
        if !self.assemblies.contains_key(id) && self.assemblies.dom().len() >= limit {
            (self, Err(Error::FragmentReassemblyLimit))
        } else if assembly.total != fragment.total {
            (self.without(id), Err(Error::FragmentTotalChanged))
        } else if assembly.fragments.contains_key(fragment.offset) {
            if assembly.fragments[fragment.offset] == fragment.data {
                (self, Ok(None))
            } else {
                (self.without(id), Err(Error::ConflictingFragment))
            }
        } else if exists|o: nat| #[trigger]
            assembly.fragments.contains_key(o) && overlaps(
                o,
                assembly.fragments[o],
                fragment.offset,
                fragment.data,
            ) {
            (self.without(id), Err(Error::OverlappingFragment))
        } else if self.memory() + fragment.data.len() > MAX_REASSEMBLY_MEMORY {
            (self.with(id, assembly), Err(Error::FragmentMemoryLimit))
        } else if extended.received() != extended.total {
            (self.with(id, extended), Ok(None))
        } else {
            (self.without(id), Ok(Some(extended.joined())))
        }
    }

    /// What a frame's body changes at a given time where at most `limit` packets may be
    /// incomplete, and what is answered.
    pub open spec fn pushed_within(self, body: Seq<u8>, now: u64, limit: nat) -> (
        Self,
        Result<Option<Seq<u8>>, Error>,
    ) {
        let live = self.without_expired(now);
        match fragment_of(body) {
            Err(error) => (live, Err(error)),
            Ok(fragment) => live.take_fragment(fragment, now, limit),
        }
    }

    /// What a frame's body changes at a given time, and what is answered.
    pub open spec fn pushed(self, body: Seq<u8>, now: u64) -> (
        Self,
        Result<Option<Seq<u8>>, Error>,
    ) {
        self.pushed_within(body, now, MAX_REASSEMBLIES as nat)
    }

    /// The reassembler after several frame bodies have arrived at the given times.
    pub open spec fn after_pushes(self, bodies: Seq<Seq<u8>>, times: Seq<u64>) -> Self
        decreases bodies.len(),
    {
        if bodies.len() == 0 {
            self
        } else {
            self.after_pushes(bodies.drop_last(), times).pushed(
                bodies.last(),
                times[bodies.len() - 1],
            ).0
        }
    }
}

/// A part of a map never weighs more than the whole.
proof fn lemma_weigh_restrict<K, V>(map: Map<K, V>, weight: spec_fn(V) -> nat, keys: Set<K>)
    requires
        map.dom().finite(),
    ensures
        weigh(map.restrict(keys), weight) <= weigh(map, weight),
        map.restrict(keys).dom().finite(),
        map.restrict(keys).dom().len() <= map.dom().len(),
    decreases map.dom().len(),
{
    let part = map.restrict(keys);
    assert(part.dom() =~= map.dom().intersect(keys));
    vstd::set_lib::lemma_len_intersect(map.dom(), keys);
    if map.dom().len() == 0 {
        assert(map.dom() =~= Set::empty());
        assert(part.dom() =~= Set::empty());
    } else {
        let key = map.dom().choose();
        lemma_weigh_restrict(map.remove(key), weight, keys);
        if keys.contains(key) {
            assert(part.remove(key) =~= map.remove(key).restrict(keys));
            lemma_weigh_remove(part, weight, key);
        } else {
            assert(part =~= map.remove(key).restrict(keys));
        }
    }
}

/// Giving up packets keeps the rest valid, and never takes more room.
pub proof fn expiry_drops_only(model: ReassemblerModel, now: u64)
    requires
        model.valid(),
    ensures
        model.without_expired(now).valid(),
        model.without_expired(now).memory() <= model.memory(),
        model.without_expired(now).assemblies.dom().len() <= model.assemblies.dom().len(),
{
    lemma_weigh_restrict(
        model.assemblies,
        assembly_len(),
        model.assemblies.dom().filter(|id: u32| !model.assemblies[id].expired(now)),
    );
}

/// The limits hold in every state: whatever arrives, at most 64 packets are
/// incomplete, they hold at most 8 MiB, and the pieces of each share no byte.
pub proof fn limits_are_kept(model: ReassemblerModel, body: Seq<u8>, now: u64)
    requires
        model.valid(),
    ensures
        model.pushed(body, now).0.valid(),
        ReassemblerModel::empty().valid(),
{
    lower_limits_are_kept(model, body, now, MAX_REASSEMBLIES as nat);
}

/// A lower limit on the number of incomplete packets is kept too: no packet beyond it is
/// begun.
pub proof fn lower_limits_are_kept(model: ReassemblerModel, body: Seq<u8>, now: u64, limit: nat)
    requires
        model.valid(),
        limit <= MAX_REASSEMBLIES,
    ensures
        model.pushed_within(body, now, limit).0.valid(),
        model.pushed_within(body, now, limit).0.assemblies.dom().len() <= if limit
            <= model.without_expired(now).assemblies.dom().len() {
            model.without_expired(now).assemblies.dom().len()
        } else {
            limit
        },
{
    expiry_drops_only(model, now);
    let live = model.without_expired(now);
    if let Ok(fragment) = fragment_of(body) {
        parsed_fragment_is_valid(body);
        let id = fragment.packet_id;
        let assembly = live.assembly_for(fragment, now);
        let others = live.assemblies.remove(id);
        assert(others.dom() =~= live.assemblies.dom().remove(id));
        if live.assemblies.contains_key(id) {
            lemma_weigh_remove(live.assemblies, assembly_len(), id);
        } else {
            assert(others =~= live.assemblies);
            assert(assembly.fragments.dom() =~= Set::empty());
            assert(assembly.received() == 0);
        }
        let extended = AssemblyModel {
            fragments: assembly.fragments.insert(fragment.offset, fragment.data),
            ..assembly
        };
        lemma_weigh_insert(live.assemblies, assembly_len(), id, assembly);
        lemma_weigh_insert(live.assemblies, assembly_len(), id, extended);
        lemma_weigh_insert(assembly.fragments, piece_len(), fragment.offset, fragment.data);
        let step = live.take_fragment(fragment, now, limit);
        if step.1 == Ok::<Option<Seq<u8>>, Error>(None) && !assembly.fragments.contains_key(
            fragment.offset,
        ) {
            assert forall|o1: nat, o2: nat|
                #![trigger extended.fragments[o1], extended.fragments[o2]]
                extended.fragments.contains_key(o1) && extended.fragments.contains_key(o2) && o1
                    != o2 implies !overlaps(
                o1,
                extended.fragments[o1],
                o2,
                extended.fragments[o2],
            ) by {
                assert(o1 != fragment.offset ==> assembly.fragments.contains_key(o1));
                assert(o2 != fragment.offset ==> assembly.fragments.contains_key(o2));
            }
            assert(extended.valid());
        }
    }
}

/// An identical copy of a fragment that was taken changes nothing.
pub proof fn duplicate_is_ignored(model: ReassemblerModel, body: Seq<u8>, first: u64, second: u64)
    requires
        model.pushed(body, first).1 == Ok::<Option<Seq<u8>>, Error>(None),
        !model.pushed(body, first).0.assemblies[fragment_of(body)->Ok_0.packet_id].expired(second),
    ensures
        model.pushed(body, first).0.pushed(body, second) == (
            model.pushed(body, first).0.without_expired(second),
            Ok::<Option<Seq<u8>>, Error>(None),
        ),
{
}

/// A fragment that overlaps another one, or contradicts it, has the whole packet
/// dropped.
pub proof fn contradiction_drops_the_packet(model: ReassemblerModel, body: Seq<u8>, now: u64)
    requires
        fragment_of(body) is Ok,
        model.without_expired(now).assemblies.contains_key(fragment_of(body)->Ok_0.packet_id),
        ({
            let fragment = fragment_of(body)->Ok_0;
            let assembly = model.assemblies[fragment.packet_id];
            ||| assembly.total != fragment.total
            ||| exists|o: nat| #[trigger]
                assembly.fragments.contains_key(o) && overlaps(
                    o,
                    assembly.fragments[o],
                    fragment.offset,
                    fragment.data,
                ) && (o != fragment.offset || assembly.fragments[o] != fragment.data)
        }),
        model.valid(),
    ensures
        model.pushed(body, now).1 is Err,
        model.pushed(body, now).0 == model.without_expired(now).without(
            fragment_of(body)->Ok_0.packet_id,
        ),
{
    let fragment = fragment_of(body)->Ok_0;
    let assembly = model.assemblies[fragment.packet_id];
    parsed_fragment_is_valid(body);
    if assembly.total == fragment.total && assembly.fragments.contains_key(fragment.offset) {
        let o = choose|o: nat| #[trigger]
            assembly.fragments.contains_key(o) && overlaps(
                o,
                assembly.fragments[o],
                fragment.offset,
                fragment.data,
            ) && (o != fragment.offset || assembly.fragments[o] != fragment.data);
        if assembly.fragments[fragment.offset] == fragment.data {
            assert(overlaps(
                o,
                assembly.fragments[o],
                fragment.offset,
                assembly.fragments[fragment.offset],
            ));
        }
    }
}

/// A packet that stays incomplete for three seconds is given up.
pub proof fn incomplete_packet_expires(model: ReassemblerModel, id: u32, now: u64)
    requires
        model.assemblies.contains_key(id),
        now - model.assemblies[id].created >= REASSEMBLY_TIMEOUT,
    ensures
        !model.without_expired(now).assemblies.contains_key(id),
{
}

/// Pieces that make up a packet: parts of it that share no byte and leave none out.
pub open spec fn splits(packet: Seq<u8>, pieces: Map<nat, Seq<u8>>) -> bool {
    &&& 0 < packet.len() <= 0xffff
    &&& pieces.dom().finite()
    &&& weigh(pieces, piece_len()) == packet.len()
    &&& forall|o: nat| #[trigger]
        pieces.contains_key(o) ==> 0 < pieces[o].len() && o + pieces[o].len() <= packet.len()
            && pieces[o] == packet.subrange(o as int, (o + pieces[o].len()) as int)
    &&& forall|o1: nat, o2: nat|
        #![trigger pieces[o1], pieces[o2]]
        pieces.contains_key(o1) && pieces.contains_key(o2) && o1 != o2 ==> !overlaps(
            o1,
            pieces[o1],
            o2,
            pieces[o2],
        )
}

/// The fragment that carries one piece of a packet.
pub open spec fn fragment_at(
    packet_id: u32,
    packet: Seq<u8>,
    pieces: Map<nat, Seq<u8>>,
    offset: nat,
) -> FragmentModel {
    FragmentModel { packet_id, total: packet.len(), offset, data: pieces[offset] }
}

/// A body that has nothing to do with a packet: it belongs to another, or holds no
/// fragment.
pub open spec fn foreign(body: Seq<u8>, packet_id: u32) -> bool {
    fragment_of(body) is Ok ==> fragment_of(body)->Ok_0.packet_id != packet_id
}

/// Bodies that arrive one after the other, among them pieces of a packet: `pieces_at`
/// gives the offset of each that is one. No piece comes twice.
pub open spec fn delivers(
    packet_id: u32,
    packet: Seq<u8>,
    pieces: Map<nat, Seq<u8>>,
    bodies: Seq<Seq<u8>>,
    pieces_at: Seq<Option<nat>>,
) -> bool {
    &&& bodies.len() == pieces_at.len()
    &&& forall|i: int|
        #![trigger pieces_at[i]]
        0 <= i < pieces_at.len() ==> match pieces_at[i] {
            Some(offset) => pieces.contains_key(offset) && bodies[i] == fragment_at(
                packet_id,
                packet,
                pieces,
                offset,
            ).encoded(),
            None => foreign(bodies[i], packet_id),
        }
    &&& forall|i: int, j: int|
        #![trigger pieces_at[i], pieces_at[j]]
        0 <= i < j < pieces_at.len() && pieces_at[i] is Some ==> pieces_at[i] != pieces_at[j]
}

/// The offsets of the pieces that have arrived.
pub open spec fn offsets_in(pieces_at: Seq<Option<nat>>) -> Set<nat> {
    Set::new(|offset: nat| pieces_at.contains(Some(offset)))
}

/// A packet never holds more bytes than it has.
proof fn lemma_received_bound(assembly: AssemblyModel)
    requires
        assembly.valid(),
    ensures
        assembly.received() <= 0xffff,
{
    lemma_covered_bytes(assembly.fragments, assembly.total, Set::empty());
}

/// Incomplete packets take at most 64 KiB each.
proof fn lemma_memory_bound(assemblies: Map<u32, AssemblyModel>)
    requires
        assemblies.dom().finite(),
        forall|id: u32| #[trigger] assemblies.contains_key(id) ==> assemblies[id].valid(),
    ensures
        weigh(assemblies, assembly_len()) <= 0xffff * assemblies.dom().len(),
    decreases assemblies.dom().len(),
{
    if assemblies.dom().len() > 0 {
        let id = assemblies.dom().choose();
        assert(assemblies.contains_key(id));
        lemma_received_bound(assemblies[id]);
        let rest = assemblies.remove(id);
        assert forall|other: u32| #[trigger] rest.contains_key(other) implies rest[other].valid() by {
            assert(assemblies.contains_key(other));
        }
        lemma_memory_bound(rest);
        lemma_weigh_remove(assemblies, assembly_len(), id);
        assert(0xffff * assemblies.dom().len() == 0xffff * rest.dom().len() + 0xffff);
    }
}

/// There is always room for one more fragment: 64 packets of 64 KiB each do not take
/// 8 MiB.
pub proof fn memory_never_runs_out(model: ReassemblerModel, body: Seq<u8>, now: u64)
    requires
        model.valid(),
    ensures
        model.memory() <= 64 * 0xffff,
        model.pushed(body, now).1 != Err::<Option<Seq<u8>>, Error>(Error::FragmentMemoryLimit),
{
    lemma_memory_bound(model.assemblies);
    expiry_drops_only(model, now);
    lemma_memory_bound(model.without_expired(now).assemblies);
    if fragment_of(body) is Ok {
        parsed_fragment_is_valid(body);
    }
}

/// The pieces that make up a packet give it back when they are joined.
proof fn lemma_joined(packet: Seq<u8>, pieces: Map<nat, Seq<u8>>, created: u64)
    requires
        splits(packet, pieces),
    ensures
        (AssemblyModel { total: packet.len(), created, fragments: pieces }).joined() == packet,
{
    let assembly = AssemblyModel { total: packet.len(), created, fragments: pieces };
    assert forall|position: int| 0 <= position < packet.len() implies assembly.joined()[position]
        == packet[position] by {
        lemma_all_covered(packet, pieces, position);
        let offset = choose|offset: nat| assembly.covers(offset, position);
        let witness = choose|o: nat|
            pieces.contains_key(o) && o <= position < o + pieces[o].len();
        assert(assembly.covers(witness, position));
        assert(pieces[offset][position - offset] == packet[position]);
    }
    assert(assembly.joined() =~= packet);
}

/// Pieces that share no byte and have as many bytes as the packet cover each byte.
proof fn lemma_all_covered(packet: Seq<u8>, pieces: Map<nat, Seq<u8>>, position: int)
    requires
        splits(packet, pieces),
        0 <= position < packet.len(),
    ensures
        exists|o: nat| pieces.contains_key(o) && o <= position < o + pieces[o].len(),
{
    if !exists|o: nat| pieces.contains_key(o) && o <= position < o + pieces[o].len() {
        let hole = set![position];
        lemma_covered_bytes(pieces, packet.len(), hole);
    }
}

/// Pieces that share no byte, and avoid some bytes of a packet, have no more bytes
/// than are left.
proof fn lemma_covered_bytes(pieces: Map<nat, Seq<u8>>, total: nat, avoided: Set<int>)
    requires
        pieces.dom().finite(),
        avoided.finite(),
        forall|i: int| #[trigger] avoided.contains(i) ==> 0 <= i < total,
        forall|o: nat| #[trigger]
            pieces.contains_key(o) ==> o + pieces[o].len() <= total,
        forall|o1: nat, o2: nat|
            #![trigger pieces[o1], pieces[o2]]
            pieces.contains_key(o1) && pieces.contains_key(o2) && o1 != o2 ==> !overlaps(
                o1,
                pieces[o1],
                o2,
                pieces[o2],
            ),
        forall|o: nat, i: int| #[trigger]
            pieces.contains_key(o) && #[trigger] avoided.contains(i) ==> !(o <= i < o
                + pieces[o].len()),
        forall|o: nat| #[trigger] pieces.contains_key(o) ==> 0 < pieces[o].len(),
    ensures
        weigh(pieces, piece_len()) + avoided.len() <= total,
    decreases pieces.dom().len(),
{
    if pieces.dom().len() == 0 {
        let all = vstd::set_lib::set_int_range(0, total as int);
        vstd::set_lib::lemma_int_range(0, total as int);
        assert(avoided.subset_of(all));
        vstd::set_lib::lemma_len_subset(avoided, all);
    } else {
        let o = pieces.dom().choose();
        let piece = vstd::set_lib::set_int_range(o as int, (o + pieces[o].len()) as int);
        vstd::set_lib::lemma_int_range(o as int, (o + pieces[o].len()) as int);
        assert(pieces.contains_key(o));
        assert(avoided.disjoint(piece));
        vstd::set_lib::lemma_set_disjoint_lens(avoided, piece);
        let rest = pieces.remove(o);
        assert forall|p: nat, i: int| #[trigger]
            rest.contains_key(p) && #[trigger] (avoided + piece).contains(i) implies !(p <= i < p
            + rest[p].len()) by {
            assert(pieces.contains_key(p));
            assert(!overlaps(o, pieces[o], p, pieces[p]));
        }
        lemma_covered_bytes(rest, total, avoided + piece);
    }
}

/// One more piece of a packet: it completes the packet, or it is kept.
proof fn lemma_next_piece(
    model: ReassemblerModel,
    packet_id: u32,
    packet: Seq<u8>,
    pieces: Map<nat, Seq<u8>>,
    done: Set<nat>,
    offset: nat,
    created: u64,
    now: u64,
)
    requires
        model.valid(),
        splits(packet, pieces),
        pieces.contains_key(offset),
        done.subset_of(pieces.dom()),
        !done.contains(offset),
        done =~= Set::empty() ==> {
            let live = model.without_expired(now).assemblies;
            !live.contains_key(packet_id) && live.dom().len() < MAX_REASSEMBLIES && created == now
        },
        !(done =~= Set::empty()) ==> model.assemblies.contains_key(packet_id)
            && model.assemblies[packet_id] == (AssemblyModel {
            total: packet.len(),
            created,
            fragments: pieces.restrict(done),
        }),
        now - created < REASSEMBLY_TIMEOUT,
    ensures
        ({
            let (after, answer) = model.pushed(
                fragment_at(packet_id, packet, pieces, offset).encoded(),
                now,
            );
            &&& after.valid()
            &&& done.insert(offset) == pieces.dom() ==> answer == Ok::<Option<Seq<u8>>, Error>(
                Some(packet),
            ) && !after.assemblies.contains_key(packet_id)
            &&& done.insert(offset) != pieces.dom() ==> answer == Ok::<Option<Seq<u8>>, Error>(
                None,
            ) && after.assemblies.contains_key(packet_id) && after.assemblies[packet_id] == (
            AssemblyModel {
                total: packet.len(),
                created,
                fragments: pieces.restrict(done.insert(offset)),
            })
        }),
{
    let fragment = fragment_at(packet_id, packet, pieces, offset);
    let body = fragment.encoded();
    fragment_parsing_undoes_encoding(fragment);
    limits_are_kept(model, body, now);
    expiry_drops_only(model, now);
    memory_never_runs_out(model.without_expired(now), body, now);
    let live = model.without_expired(now);
    let assembly = live.assembly_for(fragment, now);
    let part = pieces.restrict(done);
    if done =~= Set::empty() {
        assert(part =~= Map::empty());
    }
    assert(assembly == (AssemblyModel { total: packet.len(), created, fragments: part }));
    assert(!part.contains_key(offset));
    assert forall|o: nat| #[trigger] part.contains_key(o) implies !overlaps(
        o,
        part[o],
        offset,
        pieces[offset],
    ) by {
        assert(pieces.contains_key(o));
    }
    let whole = pieces.restrict(done.insert(offset));
    assert(whole =~= part.insert(offset, pieces[offset]));
    lemma_weigh_restrict(pieces, piece_len(), done);
    lemma_weigh_restrict(pieces, piece_len(), done.insert(offset));
    lemma_weigh_insert(part, piece_len(), offset, pieces[offset]);
    assert(live.memory() + fragment.data.len() <= MAX_REASSEMBLY_MEMORY);
    if done.insert(offset) == pieces.dom() {
        assert(whole =~= pieces);
        lemma_joined(packet, pieces, created);
    } else {
        let missing = choose|o: nat| pieces.contains_key(o) && !done.insert(offset).contains(o);
        assert(exists|o: nat| pieces.contains_key(o) && !done.insert(offset).contains(o)) by {
            if forall|o: nat| pieces.contains_key(o) ==> done.insert(offset).contains(o) {
                assert(done.insert(offset) =~= pieces.dom());
            }
        }
        lemma_weigh_insert(whole, piece_len(), missing, pieces[missing]);
        assert(whole.insert(missing, pieces[missing]) =~= pieces.restrict(
            done.insert(offset).insert(missing),
        ));
        lemma_weigh_restrict(pieces, piece_len(), done.insert(offset).insert(missing));
    }
}

/// A body that has nothing to do with a packet leaves it as it is.
proof fn lemma_foreign(model: ReassemblerModel, body: Seq<u8>, packet_id: u32, now: u64)
    requires
        foreign(body, packet_id),
    ensures
        ({
            let after = model.pushed(body, now).0;
            &&& !model.assemblies.contains_key(packet_id) ==> !after.assemblies.contains_key(
                packet_id,
            )
            &&& model.assemblies.contains_key(packet_id) && !model.assemblies[packet_id].expired(
                now,
            ) ==> after.assemblies.contains_key(packet_id) && after.assemblies[packet_id]
                == model.assemblies[packet_id]
        }),
{
}

/// What one more arrival adds to the offsets.
proof fn lemma_offsets_in(pieces_at: Seq<Option<nat>>)
    requires
        pieces_at.len() > 0,
        forall|i: int, j: int|
            #![trigger pieces_at[i], pieces_at[j]]
            0 <= i < j < pieces_at.len() && pieces_at[i] is Some ==> pieces_at[i] != pieces_at[j],
    ensures
        pieces_at.last() is None ==> offsets_in(pieces_at) == offsets_in(pieces_at.drop_last()),
        pieces_at.last() is Some ==> offsets_in(pieces_at) == offsets_in(
            pieces_at.drop_last(),
        ).insert(pieces_at.last()->Some_0) && !offsets_in(pieces_at.drop_last()).contains(
            pieces_at.last()->Some_0,
        ),
{
    let front = pieces_at.drop_last();
    let n = pieces_at.len() - 1;
    assert forall|offset: nat| pieces_at.contains(Some(offset)) == (front.contains(Some(offset))
        || pieces_at.last() == Some(offset)) by {
        if pieces_at.contains(Some(offset)) {
            let i = choose|i: int| 0 <= i < pieces_at.len() && pieces_at[i] == Some(offset);
            if i < n {
                assert(front[i] == Some(offset));
            }
        }
        if front.contains(Some(offset)) {
            let i = choose|i: int| 0 <= i < front.len() && front[i] == Some(offset);
            assert(pieces_at[i] == Some(offset));
        }
        if pieces_at.last() == Some(offset) {
            assert(pieces_at[n] == Some(offset));
        }
    }
    if pieces_at.last() is Some {
        let offset = pieces_at.last()->Some_0;
        if front.contains(Some(offset)) {
            let i = choose|i: int| 0 <= i < front.len() && front[i] == Some(offset);
            assert(pieces_at[i] == pieces_at[n]);
        }
        assert(offsets_in(pieces_at) =~= offsets_in(front).insert(offset));
    } else {
        assert(offsets_in(pieces_at) =~= offsets_in(front));
    }
}

/// What the reassembler holds of a packet after the first `count` arrivals.
proof fn lemma_deliveries(
    model: ReassemblerModel,
    packet_id: u32,
    packet: Seq<u8>,
    pieces: Map<nat, Seq<u8>>,
    bodies: Seq<Seq<u8>>,
    pieces_at: Seq<Option<nat>>,
    times: Seq<u64>,
    count: int,
)
    requires
        model.valid(),
        splits(packet, pieces),
        delivers(packet_id, packet, pieces, bodies, pieces_at),
        0 <= count <= bodies.len() <= times.len(),
        bodies.len() > 0 ==> pieces_at[0] is Some,
        forall|i: int|
            0 <= i < times.len() ==> (#[trigger] times[i]) - times[0] < REASSEMBLY_TIMEOUT,
        bodies.len() > 0 ==> {
            let live = model.without_expired(times[0]).assemblies;
            !live.contains_key(packet_id) && live.dom().len() < MAX_REASSEMBLIES
        },
    ensures
        ({
            let after = model.after_pushes(bodies.take(count), times);
            let done = offsets_in(pieces_at.take(count));
            &&& after.valid()
            &&& done.subset_of(pieces.dom())
            &&& count == 0 ==> after == model && done == Set::<nat>::empty()
            &&& count > 0 ==> done != Set::<nat>::empty()
            &&& count > 0 && done == pieces.dom() ==> !after.assemblies.contains_key(packet_id)
            &&& count > 0 && done != pieces.dom() ==> after.assemblies.contains_key(packet_id)
                && after.assemblies[packet_id] == (AssemblyModel {
                total: packet.len(),
                created: times[0],
                fragments: pieces.restrict(done),
            })
        }),
    decreases count,
{
    let done = offsets_in(pieces_at.take(count));
    if count == 0 {
        assert(done =~= Set::empty());
    } else {
        let before = model.after_pushes(bodies.take(count - 1), times);
        let held = offsets_in(pieces_at.take(count - 1));
        lemma_deliveries(
            model,
            packet_id,
            packet,
            pieces,
            bodies,
            pieces_at,
            times,
            count - 1,
        );
        let upto = pieces_at.take(count);
        assert forall|i: int, j: int|
            #![trigger upto[i], upto[j]]
            0 <= i < j < upto.len() && upto[i] is Some implies upto[i] != upto[j] by {
            assert(upto[i] == pieces_at[i] && upto[j] == pieces_at[j]);
        }
        lemma_offsets_in(upto);
        assert(upto.drop_last() =~= pieces_at.take(count - 1));
        assert(upto.last() == pieces_at[count - 1]);
        assert(bodies.take(count).drop_last() =~= bodies.take(count - 1));
        assert(bodies.take(count).last() == bodies[count - 1]);
        let now = times[count - 1];
        let body = bodies[count - 1];
        limits_are_kept(before, body, now);
        match pieces_at[count - 1] {
            Some(offset) => {
                if held =~= Set::empty() {
                    assert(count == 1);
                }
                assert(held != pieces.dom()) by {
                    assert(pieces.contains_key(offset));
                }
                lemma_next_piece(
                    before,
                    packet_id,
                    packet,
                    pieces,
                    held,
                    offset,
                    times[0],
                    now,
                );
                assert(done.contains(offset));
            },
            None => {
                assert(count > 1);
                lemma_foreign(before, body, packet_id, now);
            },
        }
    }
}

/// A packet comes back from its pieces: whatever the order in which they arrive, and
/// whatever arrives of other packets in between, each piece but the last is kept, and
/// the last one gives the packet, unchanged. Then its id is free again. The pieces must
/// arrive within three seconds.
pub proof fn pieces_restore_the_packet(
    model: ReassemblerModel,
    packet_id: u32,
    packet: Seq<u8>,
    pieces: Map<nat, Seq<u8>>,
    bodies: Seq<Seq<u8>>,
    pieces_at: Seq<Option<nat>>,
    times: Seq<u64>,
    position: int,
)
    requires
        model.valid(),
        splits(packet, pieces),
        delivers(packet_id, packet, pieces, bodies, pieces_at),
        times.len() == bodies.len(),
        0 <= position < bodies.len(),
        pieces_at[0] is Some,
        pieces_at[position] is Some,
        forall|i: int|
            0 <= i < times.len() ==> (#[trigger] times[i]) - times[0] < REASSEMBLY_TIMEOUT,
        !model.without_expired(times[0]).assemblies.contains_key(packet_id),
        model.without_expired(times[0]).assemblies.dom().len() < MAX_REASSEMBLIES,
    ensures
        model.after_pushes(bodies.take(position), times).pushed(
            bodies[position],
            times[position],
        ).1 == Ok::<Option<Seq<u8>>, Error>(
            if offsets_in(pieces_at.take(position + 1)) == pieces.dom() {
                Some(packet)
            } else {
                None
            },
        ),
        offsets_in(pieces_at) == pieces.dom() ==> !model.after_pushes(
            bodies,
            times,
        ).assemblies.contains_key(packet_id),
{
    lemma_deliveries(
        model,
        packet_id,
        packet,
        pieces,
        bodies,
        pieces_at,
        times,
        bodies.len() as int,
    );
    assert(bodies.take(bodies.len() as int) =~= bodies);
    assert(pieces_at.take(bodies.len() as int) =~= pieces_at);
    lemma_deliveries(model, packet_id, packet, pieces, bodies, pieces_at, times, position);
    let upto = pieces_at.take(position + 1);
    assert forall|i: int, j: int|
        #![trigger upto[i], upto[j]]
        0 <= i < j < upto.len() && upto[i] is Some implies upto[i] != upto[j] by {
        assert(upto[i] == pieces_at[i] && upto[j] == pieces_at[j]);
    }
    lemma_offsets_in(upto);
    assert(upto.drop_last() =~= pieces_at.take(position));
    let offset = pieces_at[position]->Some_0;
    let held = offsets_in(pieces_at.take(position));
    assert(held != pieces.dom()) by {
        assert(pieces.contains_key(offset));
    }
    if held =~= Set::empty() {
        assert(position == 0);
    }
    lemma_next_piece(
        model.after_pushes(bodies.take(position), times),
        packet_id,
        packet,
        pieces,
        held,
        offset,
        times[0],
        times[position],
    );
}

/// One piece of a packet.
struct Piece {
    offset: usize,
    data: Vec<u8>,
}

/// The pieces stand in order, are not empty, lie inside the packet and share no byte.
spec fn ordered(pieces: Seq<Piece>, total: int) -> bool {
    &&& forall|i: int|
        0 <= i < pieces.len() ==> 0 < (#[trigger] pieces[i]).data@.len() && pieces[i].offset
            + pieces[i].data@.len() <= total
    &&& forall|i: int, j: int|
        0 <= i < j < pieces.len() ==> (#[trigger] pieces[i]).offset + pieces[i].data@.len() <= (
        #[trigger] pieces[j]).offset
}

/// The pieces by their offsets.
spec fn piece_map(pieces: Seq<Piece>) -> Map<nat, Seq<u8>>
    decreases pieces.len(),
{
    if pieces.len() == 0 {
        Map::empty()
    } else {
        piece_map(pieces.drop_last()).insert(pieces.last().offset as nat, pieces.last().data@)
    }
}

/// How many bytes the pieces have.
spec fn pieces_len(pieces: Seq<Piece>) -> nat
    decreases pieces.len(),
{
    if pieces.len() == 0 {
        0
    } else {
        pieces_len(pieces.drop_last()) + pieces.last().data@.len()
    }
}

/// What the map of ordered pieces holds.
proof fn lemma_piece_map(pieces: Seq<Piece>, total: int)
    requires
        ordered(pieces, total),
    ensures
        piece_map(pieces).dom().finite(),
        weigh(piece_map(pieces), piece_len()) == pieces_len(pieces),
        forall|i: int|
            0 <= i < pieces.len() ==> piece_map(pieces).contains_key(
                (#[trigger] pieces[i]).offset as nat,
            ) && piece_map(pieces)[pieces[i].offset as nat] == pieces[i].data@,
        forall|o: nat| #[trigger]
            piece_map(pieces).contains_key(o) ==> exists|i: int|
                0 <= i < pieces.len() && (#[trigger] pieces[i]).offset == o,
    decreases pieces.len(),
{
    if pieces.len() == 0 {
        assert(piece_map(pieces).dom() =~= Set::empty());
    } else {
        let front = pieces.drop_last();
        let last = pieces.last();
        assert forall|i: int| 0 <= i < front.len() implies front[i] == pieces[i] by {}
        lemma_piece_map(front, total);
        assert(!piece_map(front).contains_key(last.offset as nat)) by {
            if piece_map(front).contains_key(last.offset as nat) {
                let i = choose|i: int|
                    0 <= i < front.len() && (#[trigger] front[i]).offset == last.offset as nat;
                assert(pieces[i].offset + pieces[i].data@.len() <= pieces[pieces.len()
                    - 1].offset);
            }
        }
        lemma_weigh_insert(piece_map(front), piece_len(), last.offset as nat, last.data@);
        assert forall|o: nat| #[trigger] piece_map(pieces).contains_key(o) implies exists|i: int|
            0 <= i < pieces.len() && (#[trigger] pieces[i]).offset == o by {
            if o == last.offset {
                assert(pieces[pieces.len() - 1].offset == o);
            } else {
                let i = choose|i: int| 0 <= i < front.len() && (#[trigger] front[i]).offset == o;
                assert(pieces[i].offset == o);
            }
        }
    }
}

/// Ordered pieces leave no more room than they use: before each piece there are at
/// least as many bytes as the earlier pieces have, and after it likewise.
proof fn lemma_room(pieces: Seq<Piece>, total: int, index: int)
    requires
        ordered(pieces, total),
        0 <= index < pieces.len(),
    ensures
        pieces_len(pieces.take(index)) <= pieces[index].offset,
        pieces_len(pieces) - pieces_len(pieces.take(index)) <= total - pieces[index].offset,
    decreases pieces.len(), index,
{
    if index > 0 {
        lemma_room(pieces, total, index - 1);
        assert(pieces.take(index).drop_last() =~= pieces.take(index - 1));
    }
    let front = pieces.drop_last();
    if index == pieces.len() - 1 {
        assert(pieces.take(index) =~= front);
    } else {
        let last = pieces.last();
        assert(ordered(front, last.offset as int)) by {
            assert forall|i: int| 0 <= i < front.len() implies 0 < (#[trigger] front[i]).data@.len()
                && front[i].offset + front[i].data@.len() <= last.offset by {
                assert(front[i] == pieces[i]);
                assert(pieces[pieces.len() - 1] == last);
            }
            assert forall|i: int, j: int| 0 <= i < j < front.len() implies (
            #[trigger] front[i]).offset + front[i].data@.len() <= (#[trigger] front[j]).offset by {
                assert(front[i] == pieces[i] && front[j] == pieces[j]);
            }
        }
        lemma_room(front, last.offset as int, index);
        assert(front.take(index) =~= pieces.take(index));
        assert(pieces[pieces.len() - 1] == last);
    }
}

/// A packet of which some fragments are here.
struct Assembly {
    total_len: usize,
    created_at: u64,
    pieces: Vec<Piece>,
    received: usize,
}

impl View for Assembly {
    type V = AssemblyModel;

    closed spec fn view(&self) -> AssemblyModel {
        AssemblyModel {
            total: self.total_len as nat,
            created: self.created_at,
            fragments: piece_map(self.pieces@),
        }
    }
}

impl Assembly {
    spec fn wf(&self) -> bool {
        &&& ordered(self.pieces@, self.total_len as int)
        &&& self.received == pieces_len(self.pieces@)
        &&& self.total_len <= 0xffff
    }

    /// What follows from being well formed.
    proof fn lemma_wf(&self)
        requires
            self.wf(),
        ensures
            self@.valid(),
            self@.received() == self.received,
            self.received <= self.total_len,
    {
        let pieces = self.pieces@;
        let map = piece_map(pieces);
        lemma_piece_map(pieces, self.total_len as int);
        assert forall|o: nat| #[trigger] map.contains_key(o) implies 0 < map[o].len() && o
            + map[o].len() <= self.total_len by {
            let i = choose|i: int| 0 <= i < pieces.len() && (#[trigger] pieces[i]).offset == o;
            assert(map[o] == pieces[i].data@);
        }
        assert forall|o1: nat, o2: nat|
            #![trigger map[o1], map[o2]]
            map.contains_key(o1) && map.contains_key(o2) && o1 != o2 implies !overlaps(
            o1,
            map[o1],
            o2,
            map[o2],
        ) by {
            let i = choose|i: int| 0 <= i < pieces.len() && (#[trigger] pieces[i]).offset == o1;
            let j = choose|j: int| 0 <= j < pieces.len() && (#[trigger] pieces[j]).offset == o2;
            assert(map[o1] == pieces[i].data@ && map[o2] == pieces[j].data@);
            if i < j {
                assert(pieces[i].offset + pieces[i].data@.len() <= pieces[j].offset);
            } else if j < i {
                assert(pieces[j].offset + pieces[j].data@.len() <= pieces[i].offset);
            }
        }
        if pieces.len() > 0 {
            lemma_room(pieces, self.total_len as int, 0);
            assert(pieces.take(0) =~= Seq::empty());
        }
    }

    /// The piece that starts at `offset`.
    fn find(&self, offset: usize) -> (index: Option<usize>)
        requires
            self.wf(),
        ensures
            match index {
                Some(i) => i < self.pieces@.len() && self.pieces@[i as int].offset == offset
                    && self@.fragments.contains_key(offset as nat) && self@.fragments[offset as nat]
                    == self.pieces@[i as int].data@,
                None => !self@.fragments.contains_key(offset as nat),
            },
    {
        proof {
            lemma_piece_map(self.pieces@, self.total_len as int);
        }
        for i in 0..self.pieces.len()
            invariant
                forall|j: int| 0 <= j < i ==> (#[trigger] self.pieces@[j]).offset != offset,
                self.wf(),
                forall|i: int|
                    0 <= i < self.pieces@.len() ==> self@.fragments.contains_key(
                        (#[trigger] self.pieces@[i]).offset as nat,
                    ) && self@.fragments[self.pieces@[i].offset as nat] == self.pieces@[i].data@,
        {
            if self.pieces[i].offset == offset {
                return Some(i);
            }
        }
        None
    }

    /// Whether the bytes from `start` on share a byte with a piece.
    fn overlapped(&self, start: usize, data: &[u8]) -> (found: bool)
        requires
            self.wf(),
            start + data@.len() <= 0xffff,
        ensures
            found == exists|o: nat| #[trigger]
                self@.fragments.contains_key(o) && overlaps(
                    o,
                    self@.fragments[o],
                    start as nat,
                    data@,
                ),
            !found ==> forall|i: int|
                0 <= i < self.pieces@.len() ==> !overlaps(
                    (#[trigger] self.pieces@[i]).offset as nat,
                    self.pieces@[i].data@,
                    start as nat,
                    data@,
                ),
    {
        proof {
            lemma_piece_map(self.pieces@, self.total_len as int);
        }
        let end: usize = start + data.len();
        for i in 0..self.pieces.len()
            invariant
                self.wf(),
                end == start + data@.len(),
                forall|j: int|
                    0 <= j < i ==> !overlaps(
                        (#[trigger] self.pieces@[j]).offset as nat,
                        self.pieces@[j].data@,
                        start as nat,
                        data@,
                    ),
                forall|i: int|
                    0 <= i < self.pieces@.len() ==> self@.fragments.contains_key(
                        (#[trigger] self.pieces@[i]).offset as nat,
                    ) && self@.fragments[self.pieces@[i].offset as nat] == self.pieces@[i].data@,
        {
            let other_start: usize = self.pieces[i].offset;
            assert(self.pieces@[i as int].data@.len() <= self.total_len);
            let other_end: usize = other_start + self.pieces[i].data.len();
            if start < other_end && other_start < end {
                assert(self@.fragments.contains_key(other_start as nat));
                return true;
            }
        }
        assert forall|o: nat| #[trigger] self@.fragments.contains_key(o) implies !overlaps(
            o,
            self@.fragments[o],
            start as nat,
            data@,
        ) by {
            let i = choose|i: int|
                0 <= i < self.pieces@.len() && (#[trigger] self.pieces@[i]).offset == o;
            assert(self@.fragments[o] == self.pieces@[i].data@);
        }
        false
    }

    /// Adds a piece that shares no byte with the others.
    fn add(&mut self, start: usize, data: &[u8])
        requires
            old(self).wf(),
            0 < data@.len(),
            start + data@.len() <= old(self).total_len,
            forall|i: int|
                0 <= i < old(self).pieces@.len() ==> !overlaps(
                    (#[trigger] old(self).pieces@[i]).offset as nat,
                    old(self).pieces@[i].data@,
                    start as nat,
                    data@,
                ),
        ensures
            final(self).wf(),
            final(self).received == old(self).received + data@.len(),
            final(self)@ == (AssemblyModel {
                fragments: old(self)@.fragments.insert(start as nat, data@),
                ..old(self)@
            }),
    {
        let ghost before = self.pieces@;
        let mut position: usize = 0;
        while position < self.pieces.len() && self.pieces[position].offset < start
            invariant
                position <= self.pieces@.len(),
                forall|i: int|
                    0 <= i < position ==> (#[trigger] self.pieces@[i]).offset < start,
            decreases self.pieces@.len() - position,
        {
            position = position + 1;
        }
        let piece = Piece { offset: start, data: slice_to_vec(data) };
        proof {
            lemma_ordered_insert(before, position as int, piece, self.total_len as int);
            lemma_room_for_all(
                before.insert(position as int, piece),
                self.total_len as int,
            );
        }
        self.pieces.insert(position, piece);
        self.received = self.received + data.len();
    }

    /// Joins the pieces of a packet that is complete.
    fn join(&self) -> (packet: Vec<u8>)
        requires
            self.wf(),
            self.received == self.total_len,
        ensures
            packet@ == self@.joined(),
    {
        let mut packet: Vec<u8> = Vec::new();
        let ghost pieces = self.pieces@;
        proof {
            assert(pieces.take(0) =~= Seq::empty());
        }
        for i in 0..self.pieces.len()
            invariant
                self.wf(),
                pieces == self.pieces@,
                self.received == self.total_len,
                packet@.len() == pieces_len(pieces.take(i as int)),
                forall|j: int|
                    0 <= j < i ==> (#[trigger] pieces[j]).offset + pieces[j].data@.len()
                        <= packet@.len() && packet@.subrange(
                        pieces[j].offset as int,
                        pieces[j].offset + pieces[j].data@.len(),
                    ) == pieces[j].data@,
        {
            proof {
                lemma_room(pieces, self.total_len as int, i as int);
                assert(pieces.take(i + 1).drop_last() =~= pieces.take(i as int));
            }
            let ghost before = packet@;
            append(&mut packet, &self.pieces[i].data);
            proof {
                assert forall|j: int| 0 <= j <= i implies (#[trigger] pieces[j]).offset
                    + pieces[j].data@.len() <= packet@.len() && packet@.subrange(
                    pieces[j].offset as int,
                    pieces[j].offset + pieces[j].data@.len(),
                ) == pieces[j].data@ by {
                    let start = pieces[j].offset as int;
                    let end = start + pieces[j].data@.len();
                    if j < i {
                        assert(packet@.subrange(start, end) =~= before.subrange(start, end));
                    } else {
                        assert(packet@.subrange(start, end) =~= pieces[j].data@);
                    }
                }
            }
        }
        proof {
            assert(pieces.take(pieces.len() as int) =~= pieces);
            lemma_piece_map(pieces, self.total_len as int);
            assert forall|position: int| 0 <= position < self.total_len implies packet@[position]
                == self@.joined()[position] by {
                let at = lemma_covered(pieces, self.total_len as int, position);
                let offset = pieces[at].offset as nat;
                assert(self@.covers(offset, position));
                let chosen = choose|o: nat| self@.covers(o, position);
                assert(self@.covers(chosen, position));
                self.lemma_wf();
                if chosen != offset {
                    assert(overlaps(
                        offset,
                        self@.fragments[offset],
                        chosen,
                        self@.fragments[chosen],
                    ));
                }
                let piece = packet@.subrange(
                    pieces[at].offset as int,
                    pieces[at].offset + pieces[at].data@.len(),
                );
                assert(piece[position - offset] == packet@[position]);
            }
            assert(packet@ =~= self@.joined());
        }
        packet
    }
}

/// A new piece keeps the order, and enters the map.
proof fn lemma_ordered_insert(pieces: Seq<Piece>, position: int, piece: Piece, total: int)
    requires
        ordered(pieces, total),
        0 <= position <= pieces.len(),
        0 < piece.data@.len(),
        piece.offset + piece.data@.len() <= total,
        forall|i: int| 0 <= i < position ==> (#[trigger] pieces[i]).offset < piece.offset,
        position < pieces.len() ==> pieces[position].offset >= piece.offset,
        forall|i: int|
            0 <= i < pieces.len() ==> !overlaps(
                (#[trigger] pieces[i]).offset as nat,
                pieces[i].data@,
                piece.offset as nat,
                piece.data@,
            ),
    ensures
        ordered(pieces.insert(position, piece), total),
        pieces_len(pieces.insert(position, piece)) == pieces_len(pieces) + piece.data@.len(),
        piece_map(pieces.insert(position, piece)) == piece_map(pieces).insert(
            piece.offset as nat,
            piece.data@,
        ),
{
    let after = pieces.insert(position, piece);
    assert forall|i: int| 0 <= i < after.len() implies 0 < (#[trigger] after[i]).data@.len()
        && after[i].offset + after[i].data@.len() <= total by {
        if i < position {
            assert(after[i] == pieces[i]);
        } else if i > position {
            assert(after[i] == pieces[i - 1]);
        }
    }
    assert forall|i: int, j: int| 0 <= i < j < after.len() implies (#[trigger] after[i]).offset
        + after[i].data@.len() <= (#[trigger] after[j]).offset by {
        let a = if i < position {
            i
        } else {
            i - 1
        };
        let b = if j < position {
            j
        } else {
            j - 1
        };
        if i == position {
            assert(after[j] == pieces[b]);
            assert(pieces[b].offset >= pieces[position].offset);
        } else if j == position {
            assert(after[i] == pieces[a]);
        } else {
            assert(after[i] == pieces[a] && after[j] == pieces[b]);
        }
    }
    lemma_piece_map(pieces, total);
    lemma_piece_map(after, total);
    let map = piece_map(pieces);
    let map2 = piece_map(after);
    let offset = piece.offset as nat;
    assert(after[position] == piece);
    assert forall|o: nat| map2.contains_key(o) == map.insert(offset, piece.data@).contains_key(
        o,
    ) by {
        if map2.contains_key(o) {
            let i = choose|i: int| 0 <= i < after.len() && (#[trigger] after[i]).offset == o;
            if i < position {
                assert(after[i] == pieces[i]);
            } else if i > position {
                assert(after[i] == pieces[i - 1]);
            }
        }
        if map.contains_key(o) {
            let i = choose|i: int| 0 <= i < pieces.len() && (#[trigger] pieces[i]).offset == o;
            if i < position {
                assert(after[i] == pieces[i]);
            } else {
                assert(after[i + 1] == pieces[i]);
            }
        }
    }
    assert forall|o: nat| map2.contains_key(o) implies map2[o] == map.insert(
        offset,
        piece.data@,
    )[o] by {
        let i = choose|i: int| 0 <= i < after.len() && (#[trigger] after[i]).offset == o;
        if i < position {
            assert(after[i] == pieces[i]);
            assert(map2[o] == pieces[i].data@);
        } else if i > position {
            assert(after[i] == pieces[i - 1]);
            assert(map2[o] == pieces[i - 1].data@);
        }
    }
    assert(map2 =~= map.insert(offset, piece.data@));
    assert(!map.contains_key(offset)) by {
        if map.contains_key(offset) {
            let i = choose|i: int| 0 <= i < pieces.len() && (#[trigger] pieces[i]).offset == offset;
            assert(overlaps(
                pieces[i].offset as nat,
                pieces[i].data@,
                piece.offset as nat,
                piece.data@,
            ));
        }
    }
    lemma_weigh_insert(map, piece_len(), offset, piece.data@);
}

/// The pieces never have more bytes than the packet.
proof fn lemma_room_for_all(pieces: Seq<Piece>, total: int)
    requires
        ordered(pieces, total),
        total >= 0,
    ensures
        pieces_len(pieces) <= total,
{
    if pieces.len() > 0 {
        lemma_room(pieces, total, 0);
        assert(pieces.take(0) =~= Seq::empty());
    }
}

/// Where the pieces have as many bytes as the packet, one of them covers each byte.
proof fn lemma_covered(pieces: Seq<Piece>, total: int, position: int) -> (at: int)
    requires
        ordered(pieces, total),
        pieces_len(pieces) == total,
        0 <= position < total,
    ensures
        0 <= at < pieces.len(),
        pieces[at].offset <= position < pieces[at].offset + pieces[at].data@.len(),
    decreases pieces.len(),
{
    let last = pieces.len() - 1;
    lemma_room(pieces, total, last);
    assert(pieces.take(last) =~= pieces.drop_last());
    if position >= pieces[last].offset {
        last
    } else {
        let front = pieces.drop_last();
        let end = pieces[last].offset as int;
        assert forall|i: int| 0 <= i < front.len() implies front[i] == pieces[i] by {}
        lemma_covered(front, end, position)
    }
}

/// A fragment in the frame body that it was read from.
struct ParsedFragment<'a> {
    packet_id: u32,
    total_len: usize,
    offset: usize,
    data: &'a [u8],
}

impl ParsedFragment<'_> {
    spec fn model(self) -> FragmentModel {
        FragmentModel {
            packet_id: self.packet_id,
            total: self.total_len as nat,
            offset: self.offset as nat,
            data: self.data@,
        }
    }

    fn parse(body: &[u8]) -> (fragment: Result<ParsedFragment<'_>, Error>)
        ensures
            match fragment {
                Ok(value) => fragment_of(body@) == Ok::<FragmentModel, Error>(value.model())
                    && value.model().valid(),
                Err(error) => fragment_of(body@) == Err::<FragmentModel, Error>(error),
            },
    {
        if body.len() < 10 {
            return Err(Error::TruncatedFragment);
        }
        let packet_id: u32 = get_u32(body, 0);
        let total_len: usize = get_u16(body, 4) as usize;
        let offset: usize = get_u16(body, 6) as usize;
        let fragment_len: usize = get_u16(body, 8) as usize;
        if total_len == 0 || fragment_len == 0 || body.len() != 10 + fragment_len {
            return Err(Error::InvalidFragmentLength);
        }
        if offset + fragment_len > total_len {
            return Err(Error::FragmentExceedsPacket);
        }
        let data = slice_subrange(body, 10, body.len());
        assert(data@ =~= body@.skip(10));
        Ok(ParsedFragment { packet_id, total_len, offset, data })
    }
}

/// What a sequence contains after one more element.
proof fn lemma_push_contains(ids: Seq<u32>, id: u32)
    ensures
        forall|x: u32| #[trigger] ids.push(id).contains(x) <==> ids.contains(x) || x == id,
{
    assert forall|x: u32| #[trigger] ids.push(id).contains(x) <==> ids.contains(x) || x == id by {
        if ids.contains(x) {
            let k = choose|k: int| 0 <= k < ids.len() && ids[k] == x;
            assert(ids.push(id)[k] == x);
        }
        if x == id {
            assert(ids.push(id)[ids.len() as int] == x);
        }
    }
}

/// Writes the body of a frame that carries a fragment.
pub fn encode_fragment(packet_id: u32, total: u16, offset: u16, data: &[u8]) -> (body: Vec<u8>)
    requires
        data@.len() <= 0xffff,
    ensures
        body@ == (FragmentModel {
            packet_id,
            total: total as nat,
            offset: offset as nat,
            data: data@,
        }).encoded(),
        body@.len() == 10 + data@.len(),
{
    let mut body: Vec<u8> = Vec::new();
    put_u32(&mut body, packet_id);
    put_u16(&mut body, total);
    put_u16(&mut body, offset);
    put_u16(&mut body, data.len() as u16);
    append(&mut body, data);
    proof {
        be_bytes_length(packet_id as nat, 4);
        be_bytes_length(total as nat, 2);
        be_bytes_length(offset as nat, 2);
        be_bytes_length(data@.len(), 2);
    }
    body
}

/// The incomplete packets as values.
spec fn models(assemblies: Map<u32, Assembly>) -> Map<u32, AssemblyModel> {
    Map::new(|id: u32| assemblies.contains_key(id), |id: u32| assemblies[id]@)
}

/// Puts packets together from their fragments, within fixed limits of number,
/// memory and time.
pub struct FragmentReassembler {
    assemblies: HashMap<u32, Assembly>,
    memory: usize,
}

impl View for FragmentReassembler {
    type V = ReassemblerModel;

    closed spec fn view(&self) -> ReassemblerModel {
        ReassemblerModel { assemblies: models(self.assemblies@) }
    }
}

impl FragmentReassembler {
    /// The books are right, and the limits are kept.
    pub closed spec fn wf(&self) -> bool {
        &&& forall|id: u32| #[trigger]
            self.assemblies@.contains_key(id) ==> self.assemblies@[id].wf()
        &&& self.memory == self@.memory()
        &&& self@.valid()
    }

    /// A reassembler without incomplete packets.
    pub fn new() -> (reassembler: Self)
        ensures
            reassembler.wf(),
            reassembler@.valid(),
            reassembler@ == ReassemblerModel::empty(),
    {
        let reassembler = FragmentReassembler { assemblies: HashMap::new(), memory: 0 };
        assert(reassembler@.assemblies =~= Map::empty());
        reassembler
    }

    /// Takes a fragment. The packet is returned once its last byte is here. A
    /// fragment that contradicts an earlier one has its packet dropped.
    pub fn push(&mut self, body: &[u8], now: u64) -> (packet: Result<Option<Vec<u8>>, Error>)
        requires
            old(self).wf(),
        ensures
            final(self).wf(),
            final(self)@.valid(),
            final(self)@ == old(self)@.pushed(body@, now).0,
            match packet {
                Ok(Some(bytes)) => old(self)@.pushed(body@, now).1 == Ok::<
                    Option<Seq<u8>>,
                    Error,
                >(Some(bytes@)),
                Ok(None) => old(self)@.pushed(body@, now).1 == Ok::<Option<Seq<u8>>, Error>(None),
                Err(error) => old(self)@.pushed(body@, now).1 == Err::<Option<Seq<u8>>, Error>(
                    error,
                ),
            },
    {
        self.push_within(body, now, MAX_REASSEMBLIES)
    }

    /// Counts the packets that are incomplete at a time; those whose time is over are
    /// given up.
    pub fn count(&mut self, now: u64) -> (count: usize)
        requires
            old(self).wf(),
        ensures
            final(self).wf(),
            final(self)@.valid(),
            final(self)@ == old(self)@.without_expired(now),
            count == final(self)@.assemblies.dom().len(),
    {
        self.expire(now);
        assert(self@.assemblies.dom() =~= self.assemblies@.dom());
        self.assemblies.len()
    }

    /// Takes a fragment where at most `limit` packets may be incomplete.
    pub fn push_within(&mut self, body: &[u8], now: u64, limit: usize) -> (packet: Result<
        Option<Vec<u8>>,
        Error,
    >)
        requires
            old(self).wf(),
            limit <= MAX_REASSEMBLIES,
        ensures
            final(self).wf(),
            final(self)@.valid(),
            final(self)@ == old(self)@.pushed_within(body@, now, limit as nat).0,
            match packet {
                Ok(Some(bytes)) => old(self)@.pushed_within(body@, now, limit as nat).1 == Ok::<
                    Option<Seq<u8>>,
                    Error,
                >(Some(bytes@)),
                Ok(None) => old(self)@.pushed_within(body@, now, limit as nat).1 == Ok::<Option<Seq<u8>>, Error>(None),
                Err(error) => old(self)@.pushed_within(body@, now, limit as nat).1 == Err::<Option<Seq<u8>>, Error>(
                    error,
                ),
            },
    {
        self.expire(now);
        let fragment = ParsedFragment::parse(body)?;
        let id: u32 = fragment.packet_id;
        let ghost live = *self;
        let ghost model = fragment.model();
        let ghost known = live.assemblies@.contains_key(id);
        if !self.assemblies.contains_key(&id) && self.assemblies.len() >= limit {
            assert(live@.assemblies.dom() =~= live.assemblies@.dom());
            return Err(Error::FragmentReassemblyLimit);
        }
        let mut assembly = match self.assemblies.remove(&id) {
            Some(assembly) => assembly,
            None => Assembly {
                total_len: fragment.total_len,
                created_at: now,
                pieces: Vec::new(),
                received: 0,
            },
        };
        let ghost found = assembly@;
        let ghost others = self.assemblies@;
        proof {
            assert(live@.assemblies.dom() =~= live.assemblies@.dom());
            assert(models(others) =~= live@.assemblies.remove(id));
            assert(others.dom() =~= live.assemblies@.dom().remove(id));
            assert(found =~= live@.assembly_for(model, now)) by {
                if !known {
                    assert(piece_map(assembly.pieces@) =~= Map::empty());
                }
            }
            assembly.lemma_wf();
            if known {
                lemma_weigh_remove(live@.assemblies, assembly_len(), id);
            } else {
                assert(live@.assemblies.remove(id) =~= live@.assemblies);
            }
            assert(weigh(models(others), assembly_len()) + assembly.received == live.memory);
        }
        if assembly.total_len != fragment.total_len {
            self.memory = self.memory - assembly.received;
            return Err(Error::FragmentTotalChanged);
        }
        if let Some(index) = assembly.find(fragment.offset) {
            if same_bytes(&assembly.pieces[index].data, fragment.data) {
                self.assemblies.insert(id, assembly);
                assert(self.assemblies@ =~= live.assemblies@);
                return Ok(None);
            }
            self.memory = self.memory - assembly.received;
            return Err(Error::ConflictingFragment);
        }
        if assembly.overlapped(fragment.offset, fragment.data) {
            self.memory = self.memory - assembly.received;
            return Err(Error::OverlappingFragment);
        }
        if self.memory + fragment.data.len() > MAX_REASSEMBLY_MEMORY {
            self.assemblies.insert(id, assembly);
            proof {
                assert(self@.assemblies =~= live@.assemblies.insert(id, found));
                lemma_weigh_insert(models(others), assembly_len(), id, found);
                assert(models(others).insert(id, found) =~= self@.assemblies);
                assert(self.assemblies@.dom() =~= self@.assemblies.dom());
            }
            return Err(Error::FragmentMemoryLimit);
        }
        assembly.add(fragment.offset, fragment.data);
        self.memory = self.memory + fragment.data.len();
        let ghost extended = assembly@;
        proof {
            assembly.lemma_wf();
        }
        if assembly.received != assembly.total_len {
            self.assemblies.insert(id, assembly);
            proof {
                assert(self@.assemblies =~= live@.assemblies.insert(id, extended));
                lemma_weigh_insert(models(others), assembly_len(), id, extended);
                assert(models(others).insert(id, extended) =~= self@.assemblies);
                assert(self.assemblies@.dom() =~= self@.assemblies.dom());
            }
            return Ok(None);
        }
        let packet = assembly.join();
        self.memory = self.memory - assembly.received;
        Ok(Some(packet))
    }

    /// Gives up the packets whose time is over.
    fn expire(&mut self, now: u64)
        requires
            old(self).wf(),
        ensures
            final(self).wf(),
            final(self)@ == old(self)@.without_expired(now),
    {
        let ghost all = self.assemblies@;
        let mut expired: Vec<u32> = Vec::new();
        for entry in iter: self.assemblies.iter()
            invariant
                all == self.assemblies@,
                forall|k: int|
                    0 <= k < expired@.len() ==> all.contains_key(#[trigger] expired@[k])
                        && all[expired@[k]]@.expired(now),
                forall|id: u32| #[trigger]
                    all.contains_key(id) && all[id]@.expired(now) ==> expired@.contains(id)
                        || exists|j: int|
                        iter.index() <= j < iter.seq().len() && *(#[trigger] iter.seq()[j]).0 == id,
        {
            let (packet_id, assembly) = entry;
            let ghost before = expired@;
            if now.saturating_sub(assembly.created_at) >= REASSEMBLY_TIMEOUT {
                expired.push(*packet_id);
                proof {
                    lemma_push_contains(before, *packet_id);
                }
            }
        }
        let ghost ids = expired@;
        let mut i: usize = 0;
        while i < expired.len()
            invariant
                self.wf(),
                ids == expired@,
                i <= ids.len(),
                forall|id: u32|
                    #![trigger self.assemblies@.contains_key(id)]
                    self.assemblies@.contains_key(id) <==> all.contains_key(id) && !ids.take(
                        i as int,
                    ).contains(id),
                forall|id: u32|
                    #![trigger self.assemblies@[id]]
                    self.assemblies@.contains_key(id) ==> self.assemblies@[id] == all[id],
            decreases ids.len() - i,
        {
            self.remove(expired[i]);
            proof {
                assert(ids.take(i + 1) =~= ids.take(i as int).push(ids[i as int]));
                lemma_push_contains(ids.take(i as int), ids[i as int]);
            }
            i = i + 1;
        }
        assert(ids.take(ids.len() as int) =~= ids);
        assert(self@ =~= old(self)@.without_expired(now));
    }

    /// Drops an incomplete packet.
    fn remove(&mut self, packet_id: u32)
        requires
            old(self).wf(),
        ensures
            final(self).wf(),
            final(self)@ == old(self)@.without(packet_id),
            final(self).assemblies@ == old(self).assemblies@.remove(packet_id),
    {
        proof {
            if self.assemblies@.contains_key(packet_id) {
                lemma_weigh_remove(self@.assemblies, assembly_len(), packet_id);
                self.assemblies@[packet_id].lemma_wf();
            }
        }
        if let Some(assembly) = self.assemblies.remove(&packet_id) {
            self.memory = self.memory.saturating_sub(assembly.received);
        }
        proof {
            let before = old(self)@.assemblies;
            assert(self@.assemblies =~= before.remove(packet_id));
            assert(before.remove(packet_id).dom() =~= before.dom().remove(packet_id));
            if !before.contains_key(packet_id) {
                assert(before.remove(packet_id) =~= before);
            }
        }
    }
}

/// A fragment is read from its bytes: the id of its packet, the length of the packet, where
/// the fragment begins and how long it is, and then its data, which is not empty, lies inside
/// the packet and has the length that it says.
pub proof fn fragments_are_read_from_their_bytes(body: Seq<u8>)
    ensures
        ({
            let total = body[4] * 256 + body[5];
            let offset = body[6] * 256 + body[7];
            let length = body[8] * 256 + body[9];
            &&& fragment_of(body) is Ok <==> body.len() >= 10 && body.len() == 10 + length && length
                > 0 && offset + length <= total
            &&& fragment_of(body) is Ok ==> {
                let fragment = fragment_of(body)->Ok_0;
                &&& fragment.packet_id == body[0] * 0x100_0000 + body[1] * 0x1_0000 + body[2] * 256
                    + body[3]
                &&& fragment.total == total
                &&& fragment.offset == offset
                &&& fragment.data == body.subrange(10, body.len() as int)
            }
        }),
{
    if body.len() >= 10 {
        numbers_are_big_endian(body.subrange(0, 4));
        numbers_are_big_endian(body.subrange(4, 6));
        numbers_are_big_endian(body.subrange(6, 8));
        numbers_are_big_endian(body.subrange(8, 10));
        assert(body.skip(10) =~= body.subrange(10, body.len() as int));
    }
}

/// An incomplete packet is kept for less than three seconds from its first fragment on, and
/// not longer; giving up one leaves the others as they are.
pub proof fn packets_are_kept_for_three_seconds(model: ReassemblerModel, id: u32, now: u64)
    ensures
        model.without_expired(now).assemblies.contains_key(id) <==> model.assemblies.contains_key(
            id,
        ) && now - model.assemblies[id].created < 3_000_000_000,
        model.without_expired(now).assemblies.contains_key(id) ==> model.without_expired(
            now,
        ).assemblies[id] == model.assemblies[id],
{
}

/// A new packet is begun exactly where fewer than 64 are incomplete: its first fragment is
/// kept, or gives the packet where it is the whole of it. Where 64 are, it is refused, and the
/// others stay.
pub proof fn packets_are_begun_while_there_is_room(
    model: ReassemblerModel,
    fragment: FragmentModel,
    now: u64,
    other: u32,
)
    requires
        model.valid(),
        fragment.valid(),
        !model.without_expired(now).assemblies.contains_key(fragment.packet_id),
    ensures
        ({
            let live = model.without_expired(now);
            let (after, answer) = model.pushed(fragment.encoded(), now);
            let room = live.assemblies.dom().len() < 64;
            let whole = fragment.data.len() == fragment.total;
            &&& !room ==> answer == Err::<Option<Seq<u8>>, Error>(Error::FragmentReassemblyLimit)
                && after == live
            &&& room && whole ==> answer == Ok::<Option<Seq<u8>>, Error>(Some(fragment.data))
                && !after.assemblies.contains_key(fragment.packet_id)
            &&& room && !whole ==> answer == Ok::<Option<Seq<u8>>, Error>(None)
                && after.assemblies.contains_key(fragment.packet_id)
                && after.assemblies[fragment.packet_id].created == now
                && after.assemblies[fragment.packet_id].total == fragment.total
                && after.assemblies[fragment.packet_id].fragments == map![
                fragment.offset => fragment.data
            ]
            &&& other != fragment.packet_id ==> after.assemblies.contains_key(other)
                == live.assemblies.contains_key(other)
            &&& other != fragment.packet_id && live.assemblies.contains_key(other)
                ==> after.assemblies[other] == live.assemblies[other]
        }),
{
    fragment_parsing_undoes_encoding(fragment);
    memory_never_runs_out(model, fragment.encoded(), now);
    let live = model.without_expired(now);
    let none = Map::<nat, Seq<u8>>::empty();
    let one = none.insert(fragment.offset, fragment.data);
    assert(one =~= map![fragment.offset => fragment.data]);
    lemma_weigh_insert(none, piece_len(), fragment.offset, fragment.data);
    assert(none.dom() =~= Set::<nat>::empty());
    assert(weigh(none, piece_len()) == 0);
    let extended = AssemblyModel { total: fragment.total, created: now, fragments: one };
    assert(extended.received() == fragment.data.len());
    if fragment.data.len() == fragment.total {
        assert(fragment.offset == 0);
        assert forall|position: int| 0 <= position < extended.total implies extended.joined()[position]
            == fragment.data[position] by {
            assert(extended.covers(0, position));
            let offset = choose|offset: nat| extended.covers(offset, position);
            assert(extended.covers(offset, position));
            assert(offset == 0);
        }
        assert(extended.joined() =~= fragment.data);
    }
}

} // verus!
