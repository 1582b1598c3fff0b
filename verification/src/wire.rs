//! Big-endian integers and byte strings.
use vstd::prelude::*;
use vstd::string::StringSliceAdditionalSpecFns;

verus! {

/// The bytes of a text.
pub open spec fn text(value: &str) -> Seq<u8> {
    value.spec_bytes()
}

/// An ASCII text has one byte for each character.
pub proof fn text_of_ascii(value: &str)
    requires
        vstd::string::is_ascii(value),
    ensures
        text(value) == Seq::new(value@.len(), |i: int| value@[i] as u8),
{
    vstd::string::is_ascii_spec_bytes(value);
}

/// The number that a big-endian byte string stands for.
pub open spec fn be_value(bytes: Seq<u8>) -> nat
    decreases bytes.len(),
{
    if bytes.len() == 0 {
        0
    } else {
        be_value(bytes.drop_last()) * 256 + bytes.last() as nat
    }
}

/// The low `width` bytes of `value`, most significant first.
pub open spec fn be_bytes(value: nat, width: nat) -> Seq<u8>
    decreases width,
{
    if width == 0 {
        Seq::empty()
    } else {
        be_bytes(value / 256, (width - 1) as nat).push((value % 256) as u8)
    }
}

/// 256 to the power of `width`: how many numbers fit into `width` bytes.
pub open spec fn be_limit(width: nat) -> nat
    decreases width,
{
    if width == 0 {
        1
    } else {
        256 * be_limit((width - 1) as nat)
    }
}

/// Encoding gives exactly the requested number of bytes.
pub proof fn be_bytes_length(value: nat, width: nat)
    ensures
        be_bytes(value, width).len() == width,
    decreases width,
{
    if width > 0 {
        be_bytes_length(value / 256, (width - 1) as nat);
    }
}

/// Decoding undoes encoding, for every number that fits.
pub proof fn be_round_trip(value: nat, width: nat)
    requires
        value < be_limit(width),
    ensures
        be_value(be_bytes(value, width)) == value,
    decreases width,
{
    if width > 0 {
        let rest = (width - 1) as nat;
        assert(value / 256 < be_limit(rest)) by (nonlinear_arith)
            requires
                value < 256 * be_limit(rest),
        ;
        be_round_trip(value / 256, rest);
        assert(be_bytes(value, width).drop_last() =~= be_bytes(value / 256, rest));
    }
}

/// Encoding undoes decoding, so two different byte strings of one length stand
/// for two different numbers.
pub proof fn be_value_round_trip(bytes: Seq<u8>)
    ensures
        be_bytes(be_value(bytes), bytes.len()) == bytes,
        be_value(bytes) < be_limit(bytes.len()),
    decreases bytes.len(),
{
    if bytes.len() > 0 {
        be_value_round_trip(bytes.drop_last());
        let high = be_value(bytes.drop_last());
        let low = bytes.last() as nat;
        assert((high * 256 + low) / 256 == high && (high * 256 + low) % 256 == low);
        assert(be_bytes(be_value(bytes), bytes.len()) =~= bytes);
    }
}

/// Two numbers that fit and encode alike are equal.
pub proof fn be_bytes_injective(a: nat, b: nat, width: nat)
    requires
        a < be_limit(width),
        b < be_limit(width),
        be_bytes(a, width) == be_bytes(b, width),
    ensures
        a == b,
{
    be_round_trip(a, width);
    be_round_trip(b, width);
}

/// Appends `data` to `out`.
pub fn append(out: &mut Vec<u8>, data: &[u8])
    ensures
        final(out)@ == old(out)@ + data@,
{
    out.extend_from_slice(data);
    assert(out@ =~= old(out)@ + data@);
}

/// Appends a 16-bit number.
pub fn put_u16(out: &mut Vec<u8>, value: u16)
    ensures
        final(out)@ == old(out)@ + be_bytes(value as nat, 2),
{
    proof {
        reveal_with_fuel(be_bytes, 3);
    }
    out.push((value / 256) as u8);
    out.push((value % 256) as u8);
    assert(out@ =~= old(out)@ + be_bytes(value as nat, 2));
}

/// Appends a 32-bit number.
pub fn put_u32(out: &mut Vec<u8>, value: u32)
    ensures
        final(out)@ == old(out)@ + be_bytes(value as nat, 4),
{
    proof {
        reveal_with_fuel(be_bytes, 5);
    }
    let v1: u32 = value / 256;
    let v2: u32 = v1 / 256;
    out.push((v2 / 256) as u8);
    out.push((v2 % 256) as u8);
    out.push((v1 % 256) as u8);
    out.push((value % 256) as u8);
    assert(out@ =~= old(out)@ + be_bytes(value as nat, 4));
}

/// Appends a 64-bit number.
pub fn put_u64(out: &mut Vec<u8>, value: u64)
    ensures
        final(out)@ == old(out)@ + be_bytes(value as nat, 8),
{
    proof {
        reveal_with_fuel(be_bytes, 9);
    }
    let v1: u64 = value / 256;
    let v2: u64 = v1 / 256;
    let v3: u64 = v2 / 256;
    let v4: u64 = v3 / 256;
    let v5: u64 = v4 / 256;
    let v6: u64 = v5 / 256;
    out.push((v6 / 256) as u8);
    out.push((v6 % 256) as u8);
    out.push((v5 % 256) as u8);
    out.push((v4 % 256) as u8);
    out.push((v3 % 256) as u8);
    out.push((v2 % 256) as u8);
    out.push((v1 % 256) as u8);
    out.push((value % 256) as u8);
    assert(out@ =~= old(out)@ + be_bytes(value as nat, 8));
}

/// Reads the 16-bit number that starts at `at`.
pub fn get_u16(data: &[u8], at: usize) -> (value: u16)
    requires
        at + 2 <= data@.len(),
    ensures
        value as nat == be_value(data@.subrange(at as int, at + 2)),
{
    proof {
        reveal_with_fuel(be_value, 3);
        let s = data@.subrange(at as int, at + 2);
        assert(s.drop_last().drop_last() =~= Seq::empty());
    }
    (data[at] as u16) * 256 + data[at + 1] as u16
}

/// Reads the 32-bit number that starts at `at`.
pub fn get_u32(data: &[u8], at: usize) -> (value: u32)
    requires
        at + 4 <= data@.len(),
    ensures
        value as nat == be_value(data@.subrange(at as int, at + 4)),
{
    proof {
        reveal_with_fuel(be_value, 5);
        let s = data@.subrange(at as int, at + 4);
        assert(s.drop_last().drop_last().drop_last().drop_last() =~= Seq::empty());
    }
    ((data[at] as u32 * 256 + data[at + 1] as u32) * 256 + data[at + 2] as u32) * 256
        + data[at + 3] as u32
}

/// Reads the 64-bit number that starts at `at`.
pub fn get_u64(data: &[u8], at: usize) -> (value: u64)
    requires
        at + 8 <= data@.len(),
    ensures
        value as nat == be_value(data@.subrange(at as int, at + 8)),
{
    assert(at + 8 <= data.len());
    let high: u32 = get_u32(data, at);
    let low: u32 = get_u32(data, at + 4);
    proof {
        be_value_concat(data@.subrange(at as int, at + 4), data@.subrange(at + 4, at + 8));
        assert(data@.subrange(at as int, at + 8) =~= data@.subrange(at as int, at + 4)
            + data@.subrange(at + 4, at + 8));
        reveal_with_fuel(be_limit, 5);
    }
    high as u64 * 0x1_0000_0000 + low as u64
}

/// A number written after another one shifts the other by its width.
pub proof fn be_value_concat(high: Seq<u8>, low: Seq<u8>)
    ensures
        be_value(high + low) == be_value(high) * be_limit(low.len()) + be_value(low),
    decreases low.len(),
{
    if low.len() == 0 {
        assert(high + low =~= high);
        assert(be_value(high) * be_limit(0) == be_value(high)) by (nonlinear_arith)
            requires
                be_limit(0) == 1,
        ;
    } else {
        assert((high + low).drop_last() =~= high + low.drop_last());
        assert((high + low).last() == low.last());
        be_value_concat(high, low.drop_last());
        let h = be_value(high);
        let m = be_limit((low.len() - 1) as nat);
        assert(be_limit(low.len()) == 256 * m);
        assert((h * m + be_value(low.drop_last())) * 256 == h * (256 * m) + be_value(
            low.drop_last(),
        ) * 256) by (nonlinear_arith);
    }
}

/// Copies `N` bytes that start at `at` into an array.
pub fn get_array<const N: usize>(data: &[u8], at: usize) -> (out: [u8; N])
    requires
        at + N <= data@.len(),
    ensures
        out@ == data@.subrange(at as int, at + N),
{
    let mut out: [u8; N] = vstd::array::array_fill_for_copy_types(0u8);
    for i in 0..N
        invariant
            at + N <= data.len(),
            forall|j: int| 0 <= j < i ==> out@[j] == data@[at + j],
    {
        out[i] = data[at + i];
    }
    assert(out@ =~= data@.subrange(at as int, at + N));
    out
}

/// Whether two byte strings are equal.
pub fn same_bytes(a: &[u8], b: &[u8]) -> (same: bool)
    ensures
        same == (a@ == b@),
{
    if a.len() != b.len() {
        return false;
    }
    for i in 0..a.len()
        invariant
            a@.len() == b@.len(),
            forall|j: int| 0 <= j < i ==> a@[j] == b@[j],
    {
        if a[i] != b[i] {
            return false;
        }
    }
    assert(a@ =~= b@);
    true
}

/// A 32-bit number on the wire.
pub fn u32_bytes(value: u32) -> (out: Vec<u8>)
    ensures
        out@ == be_bytes(value as nat, 4),
        out@.len() == 4,
{
    let mut out: Vec<u8> = Vec::new();
    put_u32(&mut out, value);
    proof {
        be_bytes_length(value as nat, 4);
        assert(out@ =~= be_bytes(value as nat, 4));
    }
    out
}

/// A number stands with its most significant byte first.
pub proof fn numbers_are_big_endian(bytes: Seq<u8>)
    ensures
        bytes.len() == 2 ==> be_value(bytes) == bytes[0] * 256 + bytes[1],
        bytes.len() == 4 ==> be_value(bytes) == bytes[0] * 0x100_0000 + bytes[1] * 0x1_0000
            + bytes[2] * 256 + bytes[3],
        bytes.len() == 8 ==> be_value(bytes) == bytes[0] * 0x100_0000_0000_0000 + bytes[1]
            * 0x1_0000_0000_0000 + bytes[2] * 0x100_0000_0000 + bytes[3] * 0x1_0000_0000
            + bytes[4] * 0x100_0000 + bytes[5] * 0x1_0000 + bytes[6] * 256 + bytes[7],
{
    reveal_with_fuel(be_value, 9);
}

/// A number is written with its most significant byte first.
pub proof fn numbers_are_written_big_endian(value: nat)
    ensures
        be_bytes(value, 2) == seq![(value / 256 % 256) as u8, (value % 256) as u8],
        be_bytes(value, 4) == seq![
            (value / 256 / 256 / 256 % 256) as u8,
            (value / 256 / 256 % 256) as u8,
            (value / 256 % 256) as u8,
            (value % 256) as u8,
        ],
{
    reveal_with_fuel(be_bytes, 5);
    assert(be_bytes(value, 2) =~= seq![(value / 256 % 256) as u8, (value % 256) as u8]);
    assert(be_bytes(value, 4) =~= seq![
        (value / 256 / 256 / 256 % 256) as u8,
        (value / 256 / 256 % 256) as u8,
        (value / 256 % 256) as u8,
        (value % 256) as u8,
    ]);
}

} // verus!
