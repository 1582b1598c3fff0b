//! Base64 with the URL-safe alphabet and without padding.
use crate::error::Error;
use crate::wire::{get_array, text};
use base64::{engine::general_purpose::URL_SAFE_NO_PAD, Engine};
use vstd::prelude::*;
use vstd::utf8::encode_utf8;

verus! {

/// The symbol of a six-bit number.
pub open spec fn symbol(value: int) -> u8 {
    if value < 26 {
        (65 + value) as u8
    } else if value < 52 {
        (97 + value - 26) as u8
    } else if value < 62 {
        (48 + value - 52) as u8
    } else if value == 62 {
        45
    } else {
        95
    }
}

/// The text of a byte string: three bytes are written as four symbols of six bits,
/// most significant first. What is left over at the end is filled with zero bits.
pub open spec fn base64url(data: Seq<u8>) -> Seq<u8>
    decreases data.len(),
{
    if data.len() == 0 {
        Seq::empty()
    } else if data.len() == 1 {
        seq![symbol((data[0] / 4) as int), symbol(data[0] % 4 * 16)]
    } else if data.len() == 2 {
        seq![
            symbol((data[0] / 4) as int),
            symbol(data[0] % 4 * 16 + data[1] / 16),
            symbol(data[1] % 16 * 4),
        ]
    } else {
        seq![
            symbol((data[0] / 4) as int),
            symbol(data[0] % 4 * 16 + data[1] / 16),
            symbol(data[1] % 16 * 4 + data[2] / 64),
            symbol((data[2] % 64) as int),
        ] + base64url(data.skip(3))
    }
}

/// What a text stands for; nothing where no byte string is written so.
pub open spec fn base64url_decoded(encoded: Seq<u8>) -> Option<Seq<u8>> {
    if exists|data: Seq<u8>| base64url(data) == encoded {
        Some(choose|data: Seq<u8>| base64url(data) == encoded)
    } else {
        None
    }
}

/// Different six-bit numbers have different symbols.
proof fn lemma_symbol_injective(a: int, b: int)
    requires
        0 <= a < 64,
        0 <= b < 64,
        symbol(a) == symbol(b),
    ensures
        a == b,
{
}

/// Different byte strings have different texts.
pub proof fn base64url_is_injective(a: Seq<u8>, b: Seq<u8>)
    requires
        base64url(a) == base64url(b),
    ensures
        a == b,
    decreases a.len(),
{
    let x = base64url(a);
    let y = base64url(b);
    assert(x.len() == if a.len() < 3 {
        a.len() + if a.len() == 0 {
            0nat
        } else {
            1nat
        }
    } else {
        4 + base64url(a.skip(3)).len()
    });
    assert(y.len() == if b.len() < 3 {
        b.len() + if b.len() == 0 {
            0nat
        } else {
            1nat
        }
    } else {
        4 + base64url(b.skip(3)).len()
    });
    if a.len() > 0 && b.len() > 0 {
        assert(x[0] == y[0] && x[1] == y[1]);
        lemma_symbol_injective((a[0] / 4) as int, (b[0] / 4) as int);
        lemma_symbol_injective(
            a[0] % 4 * 16 + if a.len() > 1 {
                a[1] / 16
            } else {
                0
            },
            b[0] % 4 * 16 + if b.len() > 1 {
                b[1] / 16
            } else {
                0
            },
        );
        assert(a[0] == b[0]);
        if a.len() > 1 && b.len() > 1 {
            assert(x[2] == y[2]);
            lemma_symbol_injective(
                a[1] % 16 * 4 + if a.len() > 2 {
                    a[2] / 64
                } else {
                    0
                },
                b[1] % 16 * 4 + if b.len() > 2 {
                    b[2] / 64
                } else {
                    0
                },
            );
            assert(a[1] == b[1]);
            if a.len() > 2 && b.len() > 2 {
                assert(x[3] == y[3]);
                lemma_symbol_injective((a[2] % 64) as int, (b[2] % 64) as int);
                assert(a[2] == b[2]);
                assert(x.skip(4) =~= base64url(a.skip(3)));
                assert(y.skip(4) =~= base64url(b.skip(3)));
                base64url_is_injective(a.skip(3), b.skip(3));
                assert(a.skip(3).len() == a.len() - 3 && b.skip(3).len() == b.len() - 3);
                assert forall|i: int| 0 <= i < a.len() implies a[i] == b[i] by {
                    if i >= 3 {
                        assert(a[i] == a.skip(3)[i - 3]);
                        assert(b[i] == b.skip(3)[i - 3]);
                    }
                }
            }
        }
    }
    assert(a.len() == b.len());
    assert(a =~= b);
}

/// Decoding gives back what was encoded.
pub proof fn decoding_undoes_encoding(data: Seq<u8>)
    ensures
        base64url_decoded(base64url(data)) == Some(data),
{
    let encoded = base64url(data);
    assert(base64url(data) == encoded);
    let found = choose|found: Seq<u8>| base64url(found) == encoded;
    base64url_is_injective(found, data);
}

/// Encodes with `Engine::encode` of `base64`, with the engine `URL_SAFE_NO_PAD`.
///
/// The result is the text of the bytes in that alphabet, without padding. The crate
/// panics where the length of the text overflows.
#[verifier::external_body]
pub(crate) fn encode(data: &[u8]) -> (encoded: String)
    requires
        data@.len() <= 0xffff,
    ensures
        encode_utf8(encoded@) == base64url(data@),
{
    URL_SAFE_NO_PAD.encode(data)
}

/// Decodes with `Engine::decode` of `base64`, with the engine `URL_SAFE_NO_PAD`.
///
/// The engine takes symbols of its alphabet alone, no padding, no single symbol at
/// the end and no stray bits in the last symbol. So it takes exactly the texts that
/// it writes, and gives back the bytes that they stand for.
#[verifier::external_body]
pub(crate) fn decode(encoded: &str) -> (data: Option<Vec<u8>>)
    ensures
        match data {
            Some(found) => base64url(found@) == text(encoded),
            None => forall|other: Seq<u8>| base64url(other) != text(encoded),
        },
{
    URL_SAFE_NO_PAD.decode(encoded).ok()
}

/// Decodes a text; the result is exact.
pub fn decode_text(encoded: &str) -> (data: Option<Vec<u8>>)
    ensures
        data is Some <==> base64url_decoded(text(encoded)) is Some,
        data is Some ==> base64url_decoded(text(encoded)) == Some(data->Some_0@),
{
    let data = decode(encoded);
    proof {
        if data is Some {
            decoding_undoes_encoding(data->Some_0@);
        }
    }
    data
}

/// What is read out of a configuration as base64url.
#[derive(Clone, Copy, Debug, PartialEq, Eq, Structural)]
pub enum Field {
    ServerSigningSeed,
    ClientId,
    ClientPublicKey,
    GateKey,
}

/// The bytes of a field, which must be `width`.
pub open spec fn field_of(encoded: Seq<u8>, width: nat, what: Field) -> Result<Seq<u8>, Error> {
    match base64url_decoded(encoded) {
        Some(found) => if found.len() == width {
            Ok(found)
        } else {
            Err(Error::WrongFieldLength(what))
        },
        None => Err(Error::UndecodableField(what)),
    }
}

/// Reads a field that must have exactly `N` bytes.
pub fn decode_fixed<const N: usize>(encoded: &str, what: Field) -> (data: Result<[u8; N], Error>)
    ensures
        match field_of(text(encoded), N as nat, what) {
            Ok(found) => data is Ok && data->Ok_0@ == found,
            Err(error) => data is Err && data->Err_0 == error,
        },
{
    match decode_text(encoded) {
        Some(found) => {
            if found.len() == N {
                assert(found@.subrange(0, N as int) =~= found@);
                Ok(get_array(&found, 0))
            } else {
                Err(Error::WrongFieldLength(what))
            }
        },
        None => Err(Error::UndecodableField(what)),
    }
}

} // verus!
