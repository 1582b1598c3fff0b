//! IPv4: addresses, subnets and packets.
use crate::wire::{be_value, get_array, get_u16, get_u32, numbers_are_big_endian};
use crate::crypto::ct_eq;
use crate::error::Error;
use vstd::arithmetic::power2::pow2;
use vstd::prelude::*;
use vstd::slice::slice_subrange;

verus! {

/// The longest packet that a client may send.
pub const TUNNEL_MTU: usize = 1280;

/// A number in decimal digits, without leading zeros.
pub open spec fn decimal(value: nat) -> Seq<u8>
    decreases value,
{
    if value < 10 {
        seq![(48 + value) as u8]
    } else {
        decimal(value / 10).push((48 + value % 10) as u8)
    }
}

/// An address in dotted decimal.
pub open spec fn dotted(address: Seq<u8>) -> Seq<u8> {
    decimal(address[0] as nat) + seq![46u8] + decimal(address[1] as nat) + seq![46u8] + decimal(
        address[2] as nat,
    ) + seq![46u8] + decimal(address[3] as nat)
}

/// A decimal digit.
pub open spec fn is_digit(byte: u8) -> bool {
    48 <= byte <= 57
}

/// The digits from `start` to `end` are a whole run.
spec fn digit_run(text: Seq<u8>, start: int, end: int) -> bool {
    &&& 0 <= start <= end <= text.len()
    &&& forall|i: int| start <= i < end ==> is_digit(#[trigger] text[i])
    &&& end == text.len() || !is_digit(text[end])
}

/// What the decimal form of an octet looks like.
proof fn lemma_decimal(value: nat)
    requires
        value <= 255,
    ensures
        1 <= decimal(value).len() <= 3,
        decimal(value).len() == 1 <==> value < 10,
        decimal(value).len() == 3 <==> value >= 100,
        value < 10 ==> decimal(value) == seq![(48 + value) as u8],
        10 <= value < 100 ==> decimal(value) == seq![
            (48 + value / 10) as u8,
            (48 + value % 10) as u8,
        ],
        100 <= value ==> decimal(value) == seq![
            (48 + value / 100) as u8,
            (48 + value / 10 % 10) as u8,
            (48 + value % 10) as u8,
        ],
        forall|i: int| 0 <= i < decimal(value).len() ==> is_digit(#[trigger] decimal(value)[i]),
{
    reveal_with_fuel(decimal, 4);
    if 10 <= value < 100 {
        assert(decimal(value) =~= seq![(48 + value / 10) as u8, (48 + value % 10) as u8]);
    } else if value >= 100 {
        assert(value / 10 / 10 == value / 100);
        assert(decimal(value) =~= seq![
            (48 + value / 100) as u8,
            (48 + value / 10 % 10) as u8,
            (48 + value % 10) as u8,
        ]);
    }
}

/// Two octets with the same decimal form are equal.
proof fn lemma_decimal_injective(a: nat, b: nat)
    requires
        a <= 255,
        b <= 255,
        decimal(a) == decimal(b),
    ensures
        a == b,
{
    lemma_decimal(a);
    lemma_decimal(b);
    let d = decimal(a);
    if d.len() == 1 {
        assert(d[0] == (48 + a) as u8 && d[0] == (48 + b) as u8);
    } else if d.len() == 2 {
        assert(d[0] == (48 + a / 10) as u8 && d[0] == (48 + b / 10) as u8);
        assert(d[1] == (48 + a % 10) as u8 && d[1] == (48 + b % 10) as u8);
    } else {
        assert(d[0] == (48 + a / 100) as u8 && d[0] == (48 + b / 100) as u8);
        assert(d[1] == (48 + a / 10 % 10) as u8 && d[1] == (48 + b / 10 % 10) as u8);
        assert(d[2] == (48 + a % 10) as u8 && d[2] == (48 + b % 10) as u8);
    }
}

/// Reads the octet whose digits start at `start`; also returns where they end.
fn read_octet(text: &[u8], start: usize) -> (octet: Option<(u8, usize)>)
    requires
        start <= text@.len(),
    ensures
        match octet {
            Some((value, end)) => digit_run(text@, start as int, end as int) && text@.subrange(
                start as int,
                end as int,
            ) == decimal(value as nat),
            None => forall|value: u8, end: int| #[trigger]
                digit_run(text@, start as int, end) ==> text@.subrange(start as int, end)
                    != #[trigger] decimal(value as nat),
        },
{
    let mut end: usize = start;
    while end < text.len() && text[end] >= 48 && text[end] <= 57
        invariant
            start <= end <= text@.len(),
            forall|i: int| start <= i < end ==> is_digit(#[trigger] text@[i]),
        decreases text@.len() - end,
    {
        end = end + 1;
    }
    let ghost run = text@.subrange(start as int, end as int);
    proof {
        assert(digit_run(text@, start as int, end as int));
        assert forall|value: u8, other: int| #[trigger]
            digit_run(text@, start as int, other) && text@.subrange(start as int, other)
                == #[trigger] decimal(value as nat) implies other == end && decimal(value as nat)
            == run by {
            if other < end {
                assert(is_digit(text@[other]));
            } else if other > end {
                assert(is_digit(text@[end as int]));
            }
        }
        assert forall|value: u8| run == #[trigger] decimal(value as nat) implies 1 <= run.len()
            <= 3 && (run.len() > 1 ==> run[0] != 48) by {
            lemma_decimal(value as nat);
        }
    }
    let count: usize = end - start;
    if count == 0 || count > 3 {
        return None;
    }
    if count > 1 && text[start] == 48 {
        assert(run[0] == 48);
        return None;
    }
    let d0: u16 = (text[start] - 48) as u16;
    let value: u16 = if count == 1 {
        d0
    } else if count == 2 {
        d0 * 10 + (text[start + 1] - 48) as u16
    } else {
        d0 * 100 + (text[start + 1] - 48) as u16 * 10 + (text[start + 2] - 48) as u16
    };
    if value > 255 {
        proof {
            assert forall|other: u8| run == #[trigger] decimal(other as nat) implies false by {
                lemma_decimal(other as nat);
                assert(run[0] == text@[start as int]);
                assert(run[1] == text@[start + 1]);
                assert(run[2] == text@[start + 2]);
            }
        }
        return None;
    }
    proof {
        lemma_decimal(value as nat);
        assert(run =~= decimal(value as nat));
    }
    Some((value as u8, end))
}

/// A text in dotted decimal starts with its first octet, then a dot.
proof fn lemma_dotted_parts(text: Seq<u8>, address: Seq<u8>)
    requires
        address.len() == 4,
        text == dotted(address),
    ensures
        ({
            let e0 = decimal(address[0] as nat).len() as int;
            let e1 = e0 + 1 + decimal(address[1] as nat).len();
            let e2 = e1 + 1 + decimal(address[2] as nat).len();
            let e3 = e2 + 1 + decimal(address[3] as nat).len();
            &&& e3 == text.len()
            &&& text[e0] == 46 && text[e1] == 46 && text[e2] == 46
            &&& digit_run(text, 0, e0) && text.subrange(0, e0) == decimal(address[0] as nat)
            &&& digit_run(text, e0 + 1, e1) && text.subrange(e0 + 1, e1) == decimal(
                address[1] as nat,
            )
            &&& digit_run(text, e1 + 1, e2) && text.subrange(e1 + 1, e2) == decimal(
                address[2] as nat,
            )
            &&& digit_run(text, e2 + 1, e3) && text.subrange(e2 + 1, e3) == decimal(
                address[3] as nat,
            )
        }),
{
    lemma_decimal(address[0] as nat);
    lemma_decimal(address[1] as nat);
    lemma_decimal(address[2] as nat);
    lemma_decimal(address[3] as nat);
    let d0 = decimal(address[0] as nat);
    let d1 = decimal(address[1] as nat);
    let d2 = decimal(address[2] as nat);
    let d3 = decimal(address[3] as nat);
    let e0 = d0.len() as int;
    let e1 = e0 + 1 + d1.len();
    let e2 = e1 + 1 + d2.len();
    let e3 = e2 + 1 + d3.len();
    assert(text.subrange(0, e0) =~= d0);
    assert(text.subrange(e0 + 1, e1) =~= d1);
    assert(text.subrange(e1 + 1, e2) =~= d2);
    assert(text.subrange(e2 + 1, e3) =~= d3);
    assert forall|i: int| 0 <= i < e0 implies is_digit(#[trigger] text[i]) by {
        assert(text[i] == d0[i]);
    }
    assert forall|i: int| e0 + 1 <= i < e1 implies is_digit(#[trigger] text[i]) by {
        assert(text[i] == d1[i - e0 - 1]);
    }
    assert forall|i: int| e1 + 1 <= i < e2 implies is_digit(#[trigger] text[i]) by {
        assert(text[i] == d2[i - e1 - 1]);
    }
    assert forall|i: int| e2 + 1 <= i < e3 implies is_digit(#[trigger] text[i]) by {
        assert(text[i] == d3[i - e2 - 1]);
    }
}

/// A run of digits has one end.
proof fn lemma_run_end(text: Seq<u8>, start: int, end1: int, end2: int)
    requires
        digit_run(text, start, end1),
        digit_run(text, start, end2),
    ensures
        end1 == end2,
{
    if end1 < end2 {
        assert(is_digit(text[end1]));
    } else if end2 < end1 {
        assert(is_digit(text[end2]));
    }
}

/// Reads an address in dotted decimal. No other spelling is taken.
pub fn parse_ipv4(text: &[u8]) -> (address: Option<[u8; 4]>)
    ensures
        match address {
            Some(octets) => text@ == dotted(octets@),
            None => forall|octets: Seq<u8>| octets.len() == 4 ==> text@ != #[trigger] dotted(
                octets,
            ),
        },
{
    let mut octets: [u8; 4] = [0u8; 4];
    let mut position: usize = 0;
    let mut index: usize = 0;
    let ghost mut ends: Seq<int> = seq![-1];
    assert(text.len() == text@.len());
    while index < 4
        invariant_except_break
            index <= 4,
            position <= text@.len(),
            ends.len() == index + 1,
            ends[0] == -1,
            index < 4 ==> position == ends[index as int] + 1,
            forall|i: int| 0 <= i < index ==> #[trigger] octet_at(text@, octets@, ends, i),
            index == 4 ==> ends[4] == text@.len(),
            text.len() == text@.len(),
        ensures
            index == 4,
            ends.len() == 5,
            ends[0] == -1,
            ends[4] == text@.len(),
            forall|i: int| 0 <= i < 4 ==> #[trigger] octet_at(text@, octets@, ends, i),
        decreases 4 - index,
    {
        let ghost before = octets@;
        match read_octet(text, position) {
            Some((value, end)) => {
                let last = index == 3;
                if last != (end == text.len()) || !last && text[end] != 46 {
                    proof {
                        lemma_no_address(text@, octets@, ends, index as int, end as int, value);
                    }
                    return None;
                }
                octets[index] = value;
                proof {
                    let earlier = ends;
                    ends = ends.push(end as int);
                    assert forall|i: int| 0 <= i < index implies #[trigger] octet_at(
                        text@,
                        octets@,
                        ends,
                        i,
                    ) by {
                        assert(octet_at(text@, before, earlier, i));
                    }
                    assert(octet_at(text@, octets@, ends, index as int));
                }
                if !last {
                    position = end + 1;
                }
                index = index + 1;
            },
            None => {
                proof {
                    lemma_no_octet(text@, octets@, ends, index as int, position as int);
                }
                return None;
            },
        }
    }
    proof {
        assert(octet_at(text@, octets@, ends, 0));
        assert(octet_at(text@, octets@, ends, 1));
        assert(octet_at(text@, octets@, ends, 2));
        assert(octet_at(text@, octets@, ends, 3));
        assert(text@ =~= dotted(octets@));
    }
    Some(octets)
}

/// Octet `i` of an address stands between two ends, and a dot or the end follows.
spec fn octet_at(text: Seq<u8>, octets: Seq<u8>, ends: Seq<int>, i: int) -> bool {
    &&& digit_run(text, ends[i] + 1, ends[i + 1])
    &&& text.subrange(ends[i] + 1, ends[i + 1]) == decimal(octets[i] as nat)
    &&& i < 3 ==> ends[i + 1] < text.len() && text[ends[i + 1]] == 46
    &&& i == 3 ==> ends[i + 1] == text.len()
}

/// The octets read so far are those of every address that the text could be.
proof fn lemma_same_prefix(
    text: Seq<u8>,
    octets: Seq<u8>,
    ends: Seq<int>,
    count: int,
    address: Seq<u8>,
) -> (starts: int)
    requires
        address.len() == 4,
        text == dotted(address),
        0 <= count <= 3,
        ends.len() == count + 1,
        ends[0] == -1,
        forall|i: int| 0 <= i < count ==> #[trigger] octet_at(text, octets, ends, i),
    ensures
        starts == ends[count] + 1,
        exists|end: int| #[trigger]
            digit_run(text, starts, end) && text.subrange(starts, end) == decimal(
                address[count] as nat,
            ) && (count < 3 ==> end < text.len() && text[end] == 46) && (count == 3 ==> end
                == text.len()),
{
    lemma_dotted_parts(text, address);
    let e0 = decimal(address[0] as nat).len() as int;
    let e1 = e0 + 1 + decimal(address[1] as nat).len();
    let e2 = e1 + 1 + decimal(address[2] as nat).len();
    let e3 = e2 + 1 + decimal(address[3] as nat).len();
    if count >= 1 {
        assert(octet_at(text, octets, ends, 0));
        lemma_run_end(text, 0, e0, ends[1]);
    }
    if count >= 2 {
        assert(octet_at(text, octets, ends, 1));
        lemma_run_end(text, e0 + 1, e1, ends[2]);
    }
    if count >= 3 {
        assert(octet_at(text, octets, ends, 2));
        lemma_run_end(text, e1 + 1, e2, ends[3]);
    }
    let end = if count == 0 {
        e0
    } else if count == 1 {
        e1
    } else if count == 2 {
        e2
    } else {
        e3
    };
    assert(digit_run(text, ends[count] + 1, end));
    ends[count] + 1
}

/// Where an octet is followed by the wrong byte, the text is no address.
proof fn lemma_no_address(
    text: Seq<u8>,
    octets: Seq<u8>,
    ends: Seq<int>,
    count: int,
    end: int,
    value: u8,
)
    requires
        0 <= count <= 3,
        ends.len() == count + 1,
        ends[0] == -1,
        forall|i: int| 0 <= i < count ==> #[trigger] octet_at(text, octets, ends, i),
        digit_run(text, ends[count] + 1, end),
        (count == 3) != (end == text.len()) || count != 3 && text[end] != 46,
    ensures
        forall|address: Seq<u8>| address.len() == 4 ==> text != #[trigger] dotted(address),
{
    assert forall|address: Seq<u8>| address.len() == 4 implies text != #[trigger] dotted(
        address,
    ) by {
        if text == dotted(address) {
            let starts = lemma_same_prefix(text, octets, ends, count, address);
            let other = choose|other: int| #[trigger]
                digit_run(text, starts, other) && text.subrange(starts, other) == decimal(
                    address[count] as nat,
                ) && (count < 3 ==> other < text.len() && text[other] == 46) && (count == 3
                    ==> other == text.len());
            lemma_run_end(text, starts, end, other);
        }
    }
}

/// Where no octet stands, the text is no address.
proof fn lemma_no_octet(
    text: Seq<u8>,
    octets: Seq<u8>,
    ends: Seq<int>,
    count: int,
    start: int,
)
    requires
        0 <= count <= 3,
        ends.len() == count + 1,
        ends[0] == -1,
        start == ends[count] + 1,
        forall|i: int| 0 <= i < count ==> #[trigger] octet_at(text, octets, ends, i),
        forall|value: u8, end: int| #[trigger]
            digit_run(text, start, end) ==> text.subrange(start, end) != #[trigger] decimal(
                value as nat,
            ),
    ensures
        forall|address: Seq<u8>| address.len() == 4 ==> text != #[trigger] dotted(address),
{
    assert forall|address: Seq<u8>| address.len() == 4 implies text != #[trigger] dotted(
        address,
    ) by {
        if text == dotted(address) {
            let starts = lemma_same_prefix(text, octets, ends, count, address);
            let other = choose|other: int| #[trigger]
                digit_run(text, starts, other) && text.subrange(starts, other) == decimal(
                    address[count] as nat,
                ) && (count < 3 ==> other < text.len() && text[other] == 46) && (count == 3
                    ==> other == text.len());
            assert(text.subrange(start, other) != decimal(address[count] as nat));
        }
    }
}

/// A text stands for at most one address.
pub proof fn dotted_is_injective(a: Seq<u8>, b: Seq<u8>)
    requires
        a.len() == 4,
        b.len() == 4,
        dotted(a) == dotted(b),
    ensures
        a == b,
{
    let text = dotted(a);
    lemma_dotted_parts(text, a);
    lemma_dotted_parts(text, b);
    let a0 = decimal(a[0] as nat).len() as int;
    let a1 = a0 + 1 + decimal(a[1] as nat).len();
    let a2 = a1 + 1 + decimal(a[2] as nat).len();
    lemma_run_end(text, 0, a0, decimal(b[0] as nat).len() as int);
    lemma_run_end(text, a0 + 1, a1, a0 + 1 + decimal(b[1] as nat).len());
    lemma_run_end(text, a1 + 1, a2, a1 + 1 + decimal(b[2] as nat).len());
    lemma_decimal_injective(a[0] as nat, b[0] as nat);
    lemma_decimal_injective(a[1] as nat, b[1] as nat);
    lemma_decimal_injective(a[2] as nat, b[2] as nat);
    lemma_decimal_injective(a[3] as nat, b[3] as nat);
    assert(a =~= b);
}

/// The address that a text gives in dotted decimal.
pub open spec fn address_of(text: Seq<u8>) -> Option<Seq<u8>> {
    if exists|octets: Seq<u8>| octets.len() == 4 && #[trigger] dotted(octets) == text {
        Some(choose|octets: Seq<u8>| octets.len() == 4 && #[trigger] dotted(octets) == text)
    } else {
        None
    }
}

/// Reads an address; the result is exact.
pub fn read_address(text: &[u8]) -> (address: Option<[u8; 4]>)
    ensures
        address is Some <==> address_of(text@) is Some,
        address is Some ==> address_of(text@) == Some(address->Some_0@),
{
    let address = parse_ipv4(text);
    proof {
        if address is Some {
            let octets = address->Some_0@;
            assert(octets.len() == 4 && dotted(octets) == text@);
            let found = choose|found: Seq<u8>|
                found.len() == 4 && #[trigger] dotted(found) == text@;
            dotted_is_injective(found, octets);
        }
    }
    address
}

/// How many addresses a subnet has.
pub open spec fn subnet_size(prefix: u8) -> nat {
    pow2((32 - prefix) as nat)
}

/// The first address of the subnet that an address lies in.
pub open spec fn subnet_of(address: nat, prefix: u8) -> nat {
    (address - address % subnet_size(prefix)) as nat
}

/// Counts the addresses of a subnet.
pub fn count_addresses(prefix: u8) -> (size: u64)
    requires
        prefix <= 32,
    ensures
        size == subnet_size(prefix),
        1 <= size <= 0x1_0000_0000,
{
    let mut size: u64 = 1;
    let bits: u8 = 32 - prefix;
    proof {
        vstd::arithmetic::power2::lemma2_to64();
    }
    let mut done: u8 = 0;
    while done < bits
        invariant
            done <= bits <= 32,
            size == pow2(done as nat),
            1 <= size <= 0x1_0000_0000,
        decreases bits - done,
    {
        proof {
            vstd::arithmetic::power2::lemma_pow2_unfold((done + 1) as nat);
            if done < 31 {
                vstd::arithmetic::power2::lemma_pow2_strictly_increases((done + 1) as nat, 32);
            }
            vstd::arithmetic::power2::lemma2_to64();
        }
        size = size * 2;
        done = done + 1;
    }
    size
}

/// The mask that keeps the network part of an address: its subnet's size below 2^32.
pub fn prefix_mask(prefix: u8) -> (mask: u32)
    requires
        prefix <= 32,
    ensures
        mask == 0x1_0000_0000 - subnet_size(prefix),
{
    let size: u64 = count_addresses(prefix);
    (0x1_0000_0000 - size) as u32
}

/// The network part of an address.
pub fn network_of(address: u32, prefix: u8) -> (network: u32)
    requires
        prefix <= 32,
    ensures
        network as nat == subnet_of(address as nat, prefix),
{
    let size: u64 = count_addresses(prefix);
    proof {
        vstd::arithmetic::div_mod::lemma_mod_decreases(address as nat, size as nat);
    }
    (address as u64 - address as u64 % size) as u32
}

/// How long the header of a packet says it is.
pub open spec fn header_len(packet: Seq<u8>) -> nat {
    (packet[0] % 16) as nat * 4
}

/// A packet whose first bytes make sense: version 4, a header that fits, and the
/// length that it has.
pub open spec fn plain_ipv4(packet: Seq<u8>) -> bool {
    &&& packet.len() >= 20
    &&& packet[0] / 16 == 4
    &&& 20 <= header_len(packet) <= packet.len()
    &&& be_value(packet.subrange(2, 4)) == packet.len()
}

/// Whether the helper may hand a packet to the kernel: it comes from the subnet and
/// keeps to the MTU.
pub fn valid_ipv4(packet: &[u8], network: u32, prefix: u8, mtu: usize) -> (valid: bool)
    requires
        prefix <= 32,
    ensures
        valid == (plain_ipv4(packet@) && packet@.len() <= mtu && subnet_of(
            be_value(packet@.subrange(12, 16)),
            prefix,
        ) == network),
{
    if packet.len() < 20 || packet.len() > mtu || packet[0] / 16 != 4 {
        return false;
    }
    let header_len: usize = (packet[0] % 16) as usize * 4;
    let total_len: usize = get_u16(packet, 2) as usize;
    if header_len < 20 || header_len > packet.len() || total_len != packet.len() {
        return false;
    }
    let source: u32 = get_u32(packet, 12);
    network_of(source, prefix) == network
}

/// Where a packet goes; nothing where it is no IPv4 packet.
pub fn ipv4_destination(packet: &[u8]) -> (destination: Option<[u8; 4]>)
    ensures
        destination is Some <==> plain_ipv4(packet@),
        destination is Some ==> destination->Some_0@ == packet@.subrange(16, 20),
{
    if packet.len() < 20 || packet[0] / 16 != 4 {
        return None;
    }
    let header_len: usize = (packet[0] % 16) as usize * 4;
    let total_len: usize = get_u16(packet, 2) as usize;
    if header_len < 20 || header_len > packet.len() || total_len != packet.len() {
        return None;
    }
    Some(get_array(packet, 16))
}

/// The sum of the first `words` 16-bit words.
pub open spec fn word_sum(data: Seq<u8>, words: nat) -> nat
    decreases words,
{
    if words == 0 {
        0
    } else {
        word_sum(data, (words - 1) as nat) + data[2 * words - 2] as nat * 256 + data[2 * words
            - 1] as nat
    }
}

/// The sum of 16-bit words in ones' complement arithmetic: carries are added back.
pub open spec fn ones_complement(sum: nat) -> nat {
    if sum == 0 {
        0
    } else {
        ((sum - 1) % 65535 + 1) as nat
    }
}

/// The Internet checksum of a header; a byte without a partner is left out.
pub open spec fn checksum_of(header: Seq<u8>) -> nat {
    (65535 - ones_complement(word_sum(header, header.len() / 2))) as nat
}

/// Adding the carry back keeps the ones' complement sum.
proof fn lemma_fold(sum: nat)
    ensures
        ones_complement(sum % 65536 + sum / 65536) == ones_complement(sum),
        sum >= 65536 ==> sum % 65536 + sum / 65536 < sum,
        sum < 65536 ==> ones_complement(sum) == sum,
{
    if sum >= 65536 {
        let quotient = (sum / 65536) as int;
        let folded = (sum % 65536 + sum / 65536) as int;
        assert(sum - 1 == (folded - 1) + 65535 * quotient);
        vstd::arithmetic::div_mod::lemma_mod_multiples_vanish(quotient, folded - 1, 65535);
    }
}

/// Computes the Internet checksum of a header.
pub fn ipv4_checksum(header: &[u8]) -> (checksum: u16)
    requires
        header@.len() <= 131_074,
    ensures
        checksum as nat == checksum_of(header@),
{
    let words: usize = header.len() / 2;
    let mut sum: u32 = 0;
    let mut i: usize = 0;
    while i < words
        invariant
            i <= words,
            words == header@.len() / 2,
            words <= 65537,
            sum as nat == word_sum(header@, i as nat),
            sum <= i * 65535,
        decreases words - i,
    {
        sum = sum + (header[2 * i] as u32 * 256 + header[2 * i + 1] as u32);
        i = i + 1;
    }
    let ghost total = sum as nat;
    while sum > 65535
        invariant
            ones_complement(sum as nat) == ones_complement(total),
        decreases sum,
    {
        proof {
            lemma_fold(sum as nat);
        }
        sum = sum % 65536 + sum / 65536;
    }
    proof {
        lemma_fold(sum as nat);
    }
    (65535 - sum) as u16
}

/// What is wrong with a packet that a client sends.
pub open spec fn packet_problem(packet: Seq<u8>, source: Seq<u8>) -> Option<Error> {
    if packet.len() < 20 || packet[0] / 16 != 4 {
        Some(Error::InvalidIpv4Header)
    } else if header_len(packet) < 20 || header_len(packet) > packet.len() {
        Some(Error::InvalidIpv4HeaderLength)
    } else if be_value(packet.subrange(2, 4)) != packet.len() || packet.len() > TUNNEL_MTU {
        Some(Error::InvalidIpv4Length)
    } else if packet.subrange(12, 16) != source {
        Some(Error::Ipv4SourceViolation)
    } else if checksum_of(packet.take(header_len(packet) as int)) != 0 {
        Some(Error::InvalidIpv4Checksum)
    } else {
        None
    }
}

/// Checks a packet that a client sends: its form, its length, its checksum, and that
/// it comes from the client's own address.
pub fn validate_ipv4_packet(packet: &[u8], expected_source: [u8; 4]) -> (checked: Result<(), Error>)
    ensures
        match checked {
            Ok(_) => packet_problem(packet@, expected_source@) is None,
            Err(error) => packet_problem(packet@, expected_source@) == Some(error),
        },
{
    if packet.len() < 20 || packet[0] / 16 != 4 {
        return Err(Error::InvalidIpv4Header);
    }
    let header_len: usize = (packet[0] % 16) as usize * 4;
    if header_len < 20 || header_len > packet.len() {
        return Err(Error::InvalidIpv4HeaderLength);
    }
    let total_len: usize = get_u16(packet, 2) as usize;
    if total_len != packet.len() || total_len > TUNNEL_MTU {
        return Err(Error::InvalidIpv4Length);
    }
    if !ct_eq(slice_subrange(packet, 12, 16), &expected_source) {
        return Err(Error::Ipv4SourceViolation);
    }
    let header = slice_subrange(packet, 0, header_len);
    assert(header@ =~= packet@.take(header_len as int));
    if ipv4_checksum(header) != 0 {
        return Err(Error::InvalidIpv4Checksum);
    }
    Ok(())
}

/// A packet with a forged source address is refused, whatever else it holds.
pub proof fn forged_source_is_refused(packet: Seq<u8>, source: Seq<u8>)
    requires
        packet.len() < 16 || packet.subrange(12, 16) != source,
    ensures
        packet_problem(packet, source) is Some,
{
}

/// The bytes of a packet that stand for its length.
proof fn lemma_length_field(packet: Seq<u8>)
    requires
        packet.len() >= 20,
    ensures
        be_value(packet.subrange(2, 4)) == packet[2] * 256 + packet[3],
        be_value(packet.subrange(12, 16)) == packet[12] * 0x100_0000 + packet[13] * 0x1_0000
            + packet[14] * 256 + packet[15],
        be_value(packet.subrange(16, 20)) == packet[16] * 0x100_0000 + packet[17] * 0x1_0000
            + packet[18] * 256 + packet[19],
{
    numbers_are_big_endian(packet.subrange(2, 4));
    numbers_are_big_endian(packet.subrange(12, 16));
    numbers_are_big_endian(packet.subrange(16, 20));
}

/// A destination is found in every packet of version 4 whose header fits and whose length
/// field is right, and in no other; it stands in bytes 16 to 19. Nothing else in the packet
/// matters.
pub proof fn destination_stands_in_the_header(packet: &[u8], destination: Option<[u8; 4]>)
    requires
        call_ensures(ipv4_destination, (packet,), destination),
    ensures
        destination is Some <==> packet@.len() >= 20 && packet@[0] / 16 == 4 && 20 <= packet@[0]
            % 16 * 4 <= packet@.len() && packet@[2] * 256 + packet@[3] == packet@.len(),
        destination is Some ==> destination->Some_0@ == seq![
            packet@[16],
            packet@[17],
            packet@[18],
            packet@[19],
        ],
{
    if packet@.len() >= 20 {
        lemma_length_field(packet@);
        assert(packet@.subrange(16, 20) =~= seq![
            packet@[16],
            packet@[17],
            packet@[18],
            packet@[19],
        ]);
    }
}

/// The sum of the first words depends on no other bytes.
proof fn lemma_word_sum_front(a: Seq<u8>, b: Seq<u8>, words: nat)
    requires
        2 * words <= a.len(),
        2 * words <= b.len(),
        forall|i: int| 0 <= i < 2 * words ==> #[trigger] a[i] == b[i],
    ensures
        word_sum(a, words) == word_sum(b, words),
    decreases words,
{
    if words > 0 {
        lemma_word_sum_front(a, b, (words - 1) as nat);
        assert(a[2 * words - 2] == b[2 * words - 2]);
        assert(a[2 * words - 1] == b[2 * words - 1]);
    }
}

/// What another byte does to the sum of the words.
proof fn lemma_word_sum_update(data: Seq<u8>, at: int, byte: u8, words: nat)
    requires
        2 * words <= data.len(),
        0 <= at < data.len(),
    ensures
        word_sum(data.update(at, byte), words) == word_sum(data, words) + if at >= 2 * words {
            0
        } else if at % 2 == 0 {
            (byte - data[at]) * 256
        } else {
            byte - data[at]
        },
    decreases words,
{
    if words > 0 {
        lemma_word_sum_update(data, at, byte, (words - 1) as nat);
    }
}

/// A header that is not zero passes where the sum of its words is a multiple of 65535.
proof fn lemma_checksum_passes(header: Seq<u8>)
    requires
        header.len() >= 2,
        header[0] != 0,
    ensures
        checksum_of(header) == 0 <==> word_sum(header, header.len() / 2) % 65535 == 0,
        checksum_of(header) <= 65535,
        (word_sum(header, header.len() / 2) + checksum_of(header)) % 65535 == 0,
{
    lemma_word_sum_grows(header, header.len() / 2);
    let sum = word_sum(header, header.len() / 2) as int;
    assert(sum >= 256);
    let part = (sum - 1) % 65535;
    let quotient = (sum - 1) / 65535;
    assert(sum - 1 == 65535 * quotient + part);
    assert(sum + 65535 - (part + 1) == 65535 * (quotient + 1));
    vstd::arithmetic::div_mod::lemma_mod_multiples_basic(quotient + 1, 65535);
    if part == 65534 {
        assert(sum == 65535 * (quotient + 1));
    } else {
        assert(sum == 65535 * quotient + (part + 1));
        vstd::arithmetic::div_mod::lemma_mod_multiples_vanish(quotient, part + 1, 65535);
        assert(sum % 65535 == part + 1);
    }
}

/// The sum of the words is at least the first of them.
proof fn lemma_word_sum_grows(data: Seq<u8>, words: nat)
    requires
        words > 0,
        2 * words <= data.len(),
    ensures
        word_sum(data, words) >= data[0] as nat * 256,
    decreases words,
{
    if words > 1 {
        lemma_word_sum_grows(data, (words - 1) as nat);
    } else {
        reveal_with_fuel(word_sum, 2);
    }
}

/// A client's packet with a header of 20 bytes is taken exactly where its length field is
/// right and at most 1280, its source is the client's, and the words of its header add up
/// to nothing in ones' complement arithmetic.
pub proof fn plain_packet_is_judged_by_its_bytes(packet: Seq<u8>, source: Seq<u8>)
    requires
        packet.len() >= 20,
        packet[0] == 0x45,
    ensures
        packet_problem(packet, source) is None <==> {
            &&& packet.len() <= 1280
            &&& packet[2] * 256 + packet[3] == packet.len()
            &&& source == seq![packet[12], packet[13], packet[14], packet[15]]
            &&& ((packet[0] + packet[2] + packet[4] + packet[6] + packet[8] + packet[10]
                + packet[12] + packet[14] + packet[16] + packet[18]) * 256 + packet[1] + packet[3]
                + packet[5] + packet[7] + packet[9] + packet[11] + packet[13] + packet[15]
                + packet[17] + packet[19]) % 65535 == 0
        },
{
    lemma_length_field(packet);
    assert(packet.subrange(12, 16) =~= seq![packet[12], packet[13], packet[14], packet[15]]);
    let header = packet.take(20);
    assert(header_len(packet) == 20);
    lemma_checksum_passes(header);
    reveal_with_fuel(word_sum, 11);
    assert(word_sum(header, 10) == (packet[0] + packet[2] + packet[4] + packet[6] + packet[8]
        + packet[10] + packet[12] + packet[14] + packet[16] + packet[18]) * 256 + packet[1]
        + packet[3] + packet[5] + packet[7] + packet[9] + packet[11] + packet[13] + packet[15]
        + packet[17] + packet[19]);
}

/// The payload does not matter: two packets of one length with the same header get the
/// same answer.
pub proof fn payload_does_not_matter(a: Seq<u8>, b: Seq<u8>, source: Seq<u8>)
    requires
        a.len() == b.len(),
        forall|i: int|
            0 <= i < a.len() && (i < 20 || i < a[0] % 16 * 4) ==> #[trigger] a[i] == b[i],
    ensures
        packet_problem(a, source) == packet_problem(b, source),
        plain_ipv4(a) == plain_ipv4(b),
{
    if a.len() >= 20 {
        assert(a[0] == b[0]);
        lemma_length_field(a);
        lemma_length_field(b);
        assert(a.subrange(12, 16) =~= b.subrange(12, 16));
        let end = header_len(a) as int;
        if end <= a.len() {
            assert(a.take(end) =~= b.take(end));
        }
    }
}

/// A packet is taken once its checksum is filled in, whatever the length of its header:
/// where everything else is right and the field for the checksum is zero, the checksum of
/// the header makes it so.
pub proof fn checksum_completes_a_packet(packet: Seq<u8>, source: Seq<u8>)
    requires
        20 <= packet.len() <= 1280,
        packet[0] / 16 == 4,
        20 <= packet[0] % 16 * 4 <= packet.len(),
        packet[2] * 256 + packet[3] == packet.len(),
        source == seq![packet[12], packet[13], packet[14], packet[15]],
        packet[10] == 0,
        packet[11] == 0,
    ensures
        ({
            let checksum = checksum_of(packet.take(packet[0] % 16 * 4));
            let complete = packet.update(10, (checksum / 256) as u8).update(
                11,
                (checksum % 256) as u8,
            );
            checksum <= 65535 && packet_problem(complete, source) is None
        }),
{
    let end = packet[0] % 16 * 4;
    let header = packet.take(end);
    let words = header.len() / 2;
    lemma_checksum_passes(header);
    let checksum = checksum_of(header);
    let high = (checksum / 256) as u8;
    let low = (checksum % 256) as u8;
    let complete = packet.update(10, high).update(11, low);
    lemma_word_sum_update(header, 10, high, words);
    lemma_word_sum_update(header.update(10, high), 11, low, words);
    assert(complete.take(end) =~= header.update(10, high).update(11, low));
    lemma_checksum_passes(complete.take(end));
    lemma_length_field(complete);
    assert(complete.subrange(12, 16) =~= source);
    assert(word_sum(complete.take(end), words) == word_sum(header, words) + high * 256 + low);
    assert(high * 256 + low == checksum);
}

/// Damage to a header is noticed: where a packet is taken, it is refused with any one byte
/// of its header after the first changed.
pub proof fn damaged_header_is_refused(packet: Seq<u8>, source: Seq<u8>, at: int, byte: u8)
    requires
        packet_problem(packet, source) is None,
        0 < at < packet[0] % 16 * 4,
        byte != packet[at],
    ensures
        packet_problem(packet.update(at, byte), source) is Some,
{
    let end = packet[0] % 16 * 4;
    let damaged = packet.update(at, byte);
    let header = packet.take(end);
    let words = header.len() / 2;
    assert(header_len(packet) == end && header_len(damaged) == end);
    assert(end <= packet.len());
    lemma_checksum_passes(header);
    assert(damaged.take(end) =~= header.update(at, byte));
    lemma_checksum_passes(damaged.take(end));
    lemma_word_sum_update(header, at, byte, words);
    let before = word_sum(header, words) as int;
    let after = word_sum(damaged.take(end), words) as int;
    assert(after != before && -65535 < after - before < 65535);
    if before % 65535 == 0 && after % 65535 == 0 {
        assert(before == 65535 * (before / 65535));
        assert(after == 65535 * (after / 65535));
        assert(false);
    }
}

/// An address lies in the one subnet of its size that begins at a multiple of that size.
pub proof fn subnets_are_aligned(address: nat, prefix: u8, network: nat)
    requires
        prefix <= 32,
    ensures
        subnet_of(address, prefix) == network <==> network % pow2((32 - prefix) as nat) == 0
            && network <= address < network + pow2((32 - prefix) as nat),
{
    let size = pow2((32 - prefix) as nat);
    vstd::arithmetic::power2::lemma_pow2_pos((32 - prefix) as nat);
    let quotient = (address / size) as int;
    vstd::arithmetic::div_mod::lemma_fundamental_div_mod(address as int, size as int);
    assert(subnet_of(address, prefix) == size * quotient);
    vstd::arithmetic::div_mod::lemma_mod_multiples_basic(quotient, size as int);
    assert(size * quotient == quotient * size) by (nonlinear_arith);
    if network % size == 0 && network <= address < network + size {
        vstd::arithmetic::div_mod::lemma_fundamental_div_mod(network as int, size as int);
        let other = (network / size) as int;
        assert(network == size * other);
        assert(other == quotient) by (nonlinear_arith)
            requires
                size * other <= address < size * other + size,
                size * quotient <= address < size * quotient + size,
                size > 0,
        ;
    }
}

/// An address is written octet by octet, from the first to the last, with dots between
/// them and without leading zeros.
pub proof fn addresses_are_dotted_decimals(address: Seq<u8>)
    requires
        address.len() == 4,
    ensures
        forall|octet: u8| #[trigger]
            decimal(octet as nat) == if octet < 10 {
                seq![(48 + octet) as u8]
            } else if octet < 100 {
                seq![(48 + octet / 10) as u8, (48 + octet % 10) as u8]
            } else {
                seq![(48 + octet / 100) as u8, (48 + octet / 10 % 10) as u8, (48 + octet % 10) as u8]
            },
        dotted(address) == decimal(address[0] as nat) + seq![46u8] + decimal(address[1] as nat)
            + seq![46u8] + decimal(address[2] as nat) + seq![46u8] + decimal(address[3] as nat),
{
    assert forall|octet: u8| #[trigger]
        decimal(octet as nat) == if octet < 10 {
            seq![(48 + octet) as u8]
        } else if octet < 100 {
            seq![(48 + octet / 10) as u8, (48 + octet % 10) as u8]
        } else {
            seq![(48 + octet / 100) as u8, (48 + octet / 10 % 10) as u8, (48 + octet % 10) as u8]
        } by {
        lemma_decimal(octet as nat);
    }
}

/// What is said of packets holds of the checks that are made of them, and the mask of a prefix
/// leaves the size of its subnet.
pub proof fn packets_are_checked_as_stated(
    packet: &[u8],
    source: [u8; 4],
    checked: Result<(), Error>,
    header: &[u8],
    checksum: u16,
    prefix: u8,
    mask: u32,
)
    requires
        call_ensures(validate_ipv4_packet, (packet, source), checked),
        call_ensures(ipv4_checksum, (header,), checksum),
        call_ensures(prefix_mask, (prefix,), mask),
    ensures
        checked is Ok <==> packet_problem(packet@, source@) is None,
        checked is Err ==> packet_problem(packet@, source@) == Some(checked->Err_0),
        checksum == checksum_of(header@),
        mask + pow2((32 - prefix) as nat) == 0x1_0000_0000,
{
}

/// A packet that is refused is refused for the first thing that is wrong with it: its version
/// or that it is too short for a header, the length of its header, its own length, its source,
/// its checksum.
pub proof fn packets_are_refused_for_a_reason(packet: Seq<u8>, source: Seq<u8>)
    ensures
        ({
            let problem = packet_problem(packet, source);
            let version = packet.len() >= 20 && packet[0] / 16 == 4;
            let header = 20 <= packet[0] % 16 * 4 <= packet.len();
            let length = packet[2] * 256 + packet[3] == packet.len() && packet.len() <= 1280;
            let own = seq![packet[12], packet[13], packet[14], packet[15]] == source;
            &&& problem == Some(Error::InvalidIpv4Header) <==> !version
            &&& problem == Some(Error::InvalidIpv4HeaderLength) <==> version && !header
            &&& problem == Some(Error::InvalidIpv4Length) <==> version && header && !length
            &&& problem == Some(Error::Ipv4SourceViolation) <==> version && header && length && !own
            &&& problem is Some && problem->Some_0 != Error::InvalidIpv4Checksum ==> !(version
                && header && length && own)
        }),
{
    if packet.len() >= 20 {
        lemma_length_field(packet);
        assert(packet.subrange(12, 16) =~= seq![packet[12], packet[13], packet[14], packet[15]]);
    }
}

} // verus!
