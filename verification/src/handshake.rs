//! The authenticated key exchange that opens a session, from the server's side.
use crate::client::{key_id, key_id_of, Client, ClientModel};
use crate::clock::{clock_skew, skew_exceeds};
use crate::crypto::{
    aead_decrypt, aead_encrypt, aead_opened, aead_sealed, ct_eq, ed25519_verified, ed25519_verify,
    hmac_of, sha256, sha256_of,
};
use crate::error::Error;
use crate::kdf::{concat_parts, hash_parts, hmac_bytes, part_views};
use crate::keys::{nonce, nonce_of};
use crate::wire::{
    append, be_bytes, be_bytes_length, be_limit, be_round_trip, be_value, be_value_round_trip,
    get_array, get_u16, get_u32, get_u64, numbers_are_big_endian, numbers_are_written_big_endian,
    put_u16, put_u32, text,
};
use vstd::prelude::*;
use vstd::slice::slice_subrange;

verus! {

/// The protocol version.
pub const PROTOCOL_VERSION: u16 = 1;

/// The cipher suite.
pub const CIPHER_SUITE: u16 = 1;

/// The longest handshake message in the clear.
pub const MAX_CLEAR_HANDSHAKE: usize = 1536;

/// The longest encrypted handshake message.
pub const MAX_ENCRYPTED_HANDSHAKE: usize = 4112;

/// How many seconds a client's clock may be off.
pub const CLIENT_CLOCK_WINDOW: u32 = 300;

/// Reads a byte string from front to back.
pub struct Cursor<'a> {
    bytes: &'a [u8],
    pos: usize,
}

impl<'a> Cursor<'a> {
    /// All bytes, and how many of them were read.
    pub closed spec fn bytes(&self) -> Seq<u8> {
        self.bytes@
    }

    /// How many bytes were read.
    pub closed spec fn position(&self) -> nat {
        self.pos as nat
    }

    /// No more was read than there is.
    pub open spec fn wf(&self) -> bool {
        self.position() <= self.bytes().len()
    }

    /// What reading `length` bytes does.
    pub open spec fn reads(&self, after: &Self, length: nat) -> bool {
        &&& after.wf()
        &&& after.bytes() == self.bytes()
        &&& after.position() == self.position() + length
    }

    /// Starts at the front.
    pub fn new(bytes: &'a [u8]) -> (cursor: Self)
        ensures
            cursor.wf(),
            cursor.bytes() == bytes@,
            cursor.position() == 0,
    {
        Cursor { bytes, pos: 0 }
    }

    /// Reads `length` bytes, if they are there.
    pub fn take(&mut self, length: usize) -> (value: Result<&'a [u8], Error>)
        requires
            old(self).wf(),
        ensures
            value is Ok <==> old(self).position() + length <= old(self).bytes().len(),
            value is Ok ==> old(self).reads(final(self), length as nat) && value->Ok_0@ == old(
                self,
            ).bytes().subrange(
                old(self).position() as int,
                old(self).position() + length as int,
            ),
            value is Err ==> value->Err_0 == Error::TruncatedInput && *final(self) == *old(self),
    {
        if length > self.bytes.len() - self.pos {
            return Err(Error::TruncatedInput);
        }
        let value = slice_subrange(self.bytes, self.pos, self.pos + length);
        self.pos = self.pos + length;
        Ok(value)
    }

    /// Reads `N` bytes into an array.
    pub fn fixed<const N: usize>(&mut self) -> (value: Result<[u8; N], Error>)
        requires
            old(self).wf(),
        ensures
            value is Ok <==> old(self).position() + N <= old(self).bytes().len(),
            value is Ok ==> old(self).reads(final(self), N as nat) && value->Ok_0@ == old(
                self,
            ).bytes().subrange(old(self).position() as int, old(self).position() + N as int),
            value is Err ==> value->Err_0 == Error::TruncatedInput && *final(self) == *old(self),
    {
        let bytes = self.take(N)?;
        let value: [u8; N] = get_array(bytes, 0);
        assert(value@ =~= bytes@);
        Ok(value)
    }

    /// Reads a 16-bit number.
    pub fn u16(&mut self) -> (value: Result<u16, Error>)
        requires
            old(self).wf(),
        ensures
            value is Ok <==> old(self).position() + 2 <= old(self).bytes().len(),
            value is Ok ==> old(self).reads(final(self), 2) && value->Ok_0 as nat == be_value(
                old(self).bytes().subrange(
                    old(self).position() as int,
                    old(self).position() + 2int,
                ),
            ),
            value is Err ==> value->Err_0 == Error::TruncatedInput && *final(self) == *old(self),
    {
        let bytes = self.take(2)?;
        assert(bytes@.subrange(0, 2) =~= bytes@);
        Ok(get_u16(bytes, 0))
    }

    /// Reads a 32-bit number.
    pub fn u32(&mut self) -> (value: Result<u32, Error>)
        requires
            old(self).wf(),
        ensures
            value is Ok <==> old(self).position() + 4 <= old(self).bytes().len(),
            value is Ok ==> old(self).reads(final(self), 4) && value->Ok_0 as nat == be_value(
                old(self).bytes().subrange(
                    old(self).position() as int,
                    old(self).position() + 4int,
                ),
            ),
            value is Err ==> value->Err_0 == Error::TruncatedInput && *final(self) == *old(self),
    {
        let bytes = self.take(4)?;
        assert(bytes@.subrange(0, 4) =~= bytes@);
        Ok(get_u32(bytes, 0))
    }

    /// Reads a 64-bit number.
    pub fn u64(&mut self) -> (value: Result<u64, Error>)
        requires
            old(self).wf(),
        ensures
            value is Ok <==> old(self).position() + 8 <= old(self).bytes().len(),
            value is Ok ==> old(self).reads(final(self), 8) && value->Ok_0 as nat == be_value(
                old(self).bytes().subrange(
                    old(self).position() as int,
                    old(self).position() + 8int,
                ),
            ),
            value is Err ==> value->Err_0 == Error::TruncatedInput && *final(self) == *old(self),
    {
        let bytes = self.take(8)?;
        assert(bytes@.subrange(0, 8) =~= bytes@);
        Ok(get_u64(bytes, 0))
    }

    /// Passes over `length` bytes.
    pub fn skip(&mut self, length: usize) -> (skipped: Result<(), Error>)
        requires
            old(self).wf(),
        ensures
            skipped is Ok <==> old(self).position() + length <= old(self).bytes().len(),
            skipped is Ok ==> old(self).reads(final(self), length as nat),
            skipped is Err ==> skipped->Err_0 == Error::TruncatedInput && *final(self) == *old(
                self,
            ),
    {
        self.take(length)?;
        Ok(())
    }

    /// Checks that everything was read.
    pub fn finish(self) -> (finished: Result<(), Error>)
        ensures
            finished == if self.position() == self.bytes().len() {
                Ok::<(), Error>(())
            } else {
                Err(Error::TrailingBytes)
            },
    {
        if self.pos != self.bytes.len() {
            return Err(Error::TrailingBytes);
        }
        Ok(())
    }
}

/// A client's first message as values.
#[verifier::ext_equal]
pub struct HelloModel {
    pub handshake_id: Seq<u8>,
    pub client_id: Seq<u8>,
    pub client_ephemeral: Seq<u8>,
    pub client_nonce: Seq<u8>,
}

/// What a client's first message says, at a given Unix time.
pub open spec fn hello_of(encoded: Seq<u8>, unix_now: u64) -> Result<HelloModel, Error> {
    let body = encoded.skip(5);
    let retry_len = be_value(body.subrange(108, 110));
    let extension_len = be_value(body.subrange(110, 112));
    if encoded.len() < 5 || encoded[0] != 0x01 {
        Err(Error::ExpectedClientHello)
    } else if be_value(encoded.subrange(1, 5)) != encoded.len() - 5 {
        Err(Error::BadClientHelloLength)
    } else if body.len() < 2 {
        Err(Error::TruncatedInput)
    } else if be_value(body.subrange(0, 2)) != PROTOCOL_VERSION {
        Err(Error::UnsupportedVersion)
    } else if body.len() < 4 {
        Err(Error::TruncatedInput)
    } else if be_value(body.subrange(2, 4)) != CIPHER_SUITE {
        Err(Error::UnsupportedVersion)
    } else if body.len() < 108 {
        Err(Error::TruncatedInput)
    } else if clock_skew(unix_now, be_value(body.subrange(100, 108)) as u64) > CLIENT_CLOCK_WINDOW {
        Err(Error::ClientClockOutsideWindow)
    } else if body.len() < 110 {
        Err(Error::TruncatedInput)
    } else if retry_len > 64 {
        Err(Error::RetryCookieTooLarge)
    } else if retry_len != 0 {
        Err(Error::InnerRetryDisabled)
    } else if body.len() < 112 {
        Err(Error::TruncatedInput)
    } else if extension_len > 1024 {
        Err(Error::ExtensionsTooLarge)
    } else if extension_len != 0 {
        Err(Error::ExtensionsDisabled)
    } else if body.len() > 112 {
        Err(Error::TrailingBytes)
    } else {
        Ok(
            HelloModel {
                handshake_id: body.subrange(4, 20),
                client_id: body.subrange(20, 36),
                client_ephemeral: body.subrange(36, 68),
                client_nonce: body.subrange(68, 100),
            },
        )
    }
}

/// A client's first message.
pub struct ClientHello {
    pub handshake_id: [u8; 16],
    pub client_id: [u8; 16],
    pub client_ephemeral: [u8; 32],
    pub client_nonce: [u8; 32],
}

impl View for ClientHello {
    type V = HelloModel;

    open spec fn view(&self) -> HelloModel {
        HelloModel {
            handshake_id: self.handshake_id@,
            client_id: self.client_id@,
            client_ephemeral: self.client_ephemeral@,
            client_nonce: self.client_nonce@,
        }
    }
}

/// Reads a client's first message.
pub fn parse_client_hello(encoded: &[u8], unix_now: u64) -> (hello: Result<ClientHello, Error>)
    ensures
        match hello {
            Ok(value) => hello_of(encoded@, unix_now) == Ok::<HelloModel, Error>(value@),
            Err(error) => hello_of(encoded@, unix_now) == Err::<HelloModel, Error>(error),
        },
{
    if encoded.len() < 5 || encoded[0] != 0x01 {
        return Err(Error::ExpectedClientHello);
    }
    let length: usize = get_u32(encoded, 1) as usize;
    if length != encoded.len() - 5 {
        return Err(Error::BadClientHelloLength);
    }
    let body = slice_subrange(encoded, 5, encoded.len());
    assert(body@ =~= encoded@.skip(5));
    let mut cursor = Cursor::new(body);
    if cursor.u16()? != PROTOCOL_VERSION {
        return Err(Error::UnsupportedVersion);
    }
    if cursor.u16()? != CIPHER_SUITE {
        return Err(Error::UnsupportedVersion);
    }
    let handshake_id: [u8; 16] = cursor.fixed()?;
    let client_id: [u8; 16] = cursor.fixed()?;
    let client_ephemeral: [u8; 32] = cursor.fixed()?;
    let client_nonce: [u8; 32] = cursor.fixed()?;
    let client_time: u64 = cursor.u64()?;
    if skew_exceeds(unix_now, client_time, CLIENT_CLOCK_WINDOW) {
        return Err(Error::ClientClockOutsideWindow);
    }
    let retry_len: u16 = cursor.u16()?;
    if retry_len > 64 {
        return Err(Error::RetryCookieTooLarge);
    }
    if retry_len != 0 {
        return Err(Error::InnerRetryDisabled);
    }
    let extension_len: u16 = cursor.u16()?;
    if extension_len > 1024 {
        return Err(Error::ExtensionsTooLarge);
    }
    if extension_len != 0 {
        return Err(Error::ExtensionsDisabled);
    }
    cursor.finish()?;
    Ok(ClientHello { handshake_id, client_id, client_ephemeral, client_nonce })
}

/// An extension as values.
#[verifier::ext_equal]
pub struct ExtensionModel {
    pub kind: u16,
    pub data: Seq<u8>,
}

impl ExtensionModel {
    /// The extension on the wire: its type, the length of its data, the data.
    pub open spec fn encoded(self) -> Seq<u8> {
        be_bytes(self.kind as nat, 2) + be_bytes(self.data.len(), 2) + self.data
    }

    /// An extension that a receiver must understand. None is defined.
    pub open spec fn critical(self) -> bool {
        self.kind >= 0x8000
    }

    /// An extension whose length has room in front of its data.
    pub open spec fn fits(self) -> bool {
        self.data.len() <= 0xffff
    }
}

/// Extensions on the wire, one after the other.
pub open spec fn extensions_encoded(extensions: Seq<ExtensionModel>) -> Seq<u8>
    decreases extensions.len(),
{
    if extensions.len() == 0 {
        Seq::empty()
    } else {
        extensions[0].encoded() + extensions_encoded(extensions.skip(1))
    }
}

/// What is wrong with a block of extensions whose types are at least `lowest`. They
/// fill the block, come in ascending order of their types without repetition, and none
/// of them is critical.
pub open spec fn extensions_problem(block: Seq<u8>, lowest: nat) -> Option<Error>
    decreases block.len(),
{
    let kind = be_value(block.subrange(0, 2));
    let end = 4 + be_value(block.subrange(2, 4));
    if block.len() == 0 {
        None
    } else if block.len() < 4 || block.len() < end {
        Some(Error::MalformedExtension)
    } else if kind < lowest {
        Some(Error::ExtensionsOutOfOrder)
    } else if kind >= 0x8000 {
        Some(Error::UnknownCriticalExtension)
    } else {
        extensions_problem(block.skip(end as int), kind + 1)
    }
}

/// Checks a block of extensions.
fn check_extensions(block: &[u8]) -> (checked: Result<(), Error>)
    ensures
        match checked {
            Ok(_) => extensions_problem(block@, 0) is None,
            Err(error) => extensions_problem(block@, 0) == Some(error),
        },
{
    let mut lowest: u32 = 0;
    let mut offset: usize = 0;
    assert(block@.skip(0) =~= block@);
    while offset < block.len()
        invariant
            offset <= block@.len(),
            lowest <= 0x8000,
            extensions_problem(block@, 0) == extensions_problem(
                block@.skip(offset as int),
                lowest as nat,
            ),
        decreases block@.len() - offset,
    {
        let ghost rest = block@.skip(offset as int);
        if block.len() - offset < 4 {
            return Err(Error::MalformedExtension);
        }
        let kind: u32 = get_u16(block, offset) as u32;
        let length: usize = get_u16(block, offset + 2) as usize;
        assert(rest.subrange(0, 2) =~= block@.subrange(offset as int, offset + 2));
        assert(rest.subrange(2, 4) =~= block@.subrange(offset + 2, offset + 4));
        if block.len() - offset - 4 < length {
            return Err(Error::MalformedExtension);
        }
        if kind < lowest {
            return Err(Error::ExtensionsOutOfOrder);
        }
        if kind >= 0x8000 {
            return Err(Error::UnknownCriticalExtension);
        }
        lowest = kind + 1;
        offset = offset + 4 + length;
        assert(rest.skip(4 + length) =~= block@.skip(offset as int));
    }
    assert(block@.skip(offset as int) =~= Seq::empty());
    Ok(())
}

/// How one extension is taken off the front of a block.
proof fn lemma_first_extension(extension: ExtensionModel, rest: Seq<u8>, lowest: nat)
    requires
        extension.fits(),
    ensures
        extensions_problem(extension.encoded() + rest, lowest) == if extension.kind < lowest {
            Some(Error::ExtensionsOutOfOrder)
        } else if extension.critical() {
            Some(Error::UnknownCriticalExtension)
        } else {
            extensions_problem(rest, (extension.kind + 1) as nat)
        },
{
    let block = extension.encoded() + rest;
    be_bytes_length(extension.kind as nat, 2);
    be_bytes_length(extension.data.len(), 2);
    reveal_with_fuel(be_limit, 3);
    be_round_trip(extension.kind as nat, 2);
    be_round_trip(extension.data.len(), 2);
    assert(block.subrange(0, 2) =~= be_bytes(extension.kind as nat, 2));
    assert(block.subrange(2, 4) =~= be_bytes(extension.data.len(), 2));
    assert(block.skip(4 + extension.data.len() as int) =~= rest);
}

/// Extensions in ascending order of their types, none twice.
pub open spec fn ascending(extensions: Seq<ExtensionModel>) -> bool {
    forall|i: int, j: int|
        #![trigger extensions[i], extensions[j]]
        0 <= i < j < extensions.len() ==> extensions[i].kind < extensions[j].kind
}

/// Exactly the lists in ascending order without a critical extension are taken: an
/// unknown critical extension ends the handshake wherever it stands, and so do a
/// repeated type and one out of order.
pub proof fn extensions_are_checked(extensions: Seq<ExtensionModel>)
    requires
        forall|i: int|
            #![trigger extensions[i]]
            0 <= i < extensions.len() ==> extensions[i].fits(),
    ensures
        extensions_problem(extensions_encoded(extensions), 0) is None <==> ascending(extensions)
            && forall|i: int|
            #![trigger extensions[i]]
            0 <= i < extensions.len() ==> !extensions[i].critical(),
{
    lemma_extensions(extensions, 0);
}

/// As for a whole block, where the types must reach `lowest`.
proof fn lemma_extensions(extensions: Seq<ExtensionModel>, lowest: nat)
    requires
        forall|i: int|
            #![trigger extensions[i]]
            0 <= i < extensions.len() ==> extensions[i].fits(),
    ensures
        extensions_problem(extensions_encoded(extensions), lowest) is None <==> ascending(
            extensions,
        ) && forall|i: int|
            #![trigger extensions[i]]
            0 <= i < extensions.len() ==> !extensions[i].critical() && extensions[i].kind
                >= lowest,
    decreases extensions.len(),
{
    if extensions.len() > 0 {
        let first = extensions[0];
        let rest = extensions.skip(1);
        assert forall|i: int| #![trigger rest[i]] 0 <= i < rest.len() implies rest[i].fits() by {
            assert(rest[i] == extensions[i + 1]);
        }
        lemma_first_extension(first, extensions_encoded(rest), lowest);
        lemma_extensions(rest, (first.kind + 1) as nat);
        if extensions_problem(extensions_encoded(extensions), lowest) is None {
            assert forall|i: int, j: int|
                #![trigger extensions[i], extensions[j]]
                0 <= i < j < extensions.len() implies extensions[i].kind < extensions[j].kind by {
                assert(extensions[j] == rest[j - 1]);
                if i > 0 {
                    assert(extensions[i] == rest[i - 1]);
                }
            }
            assert forall|i: int|
                #![trigger extensions[i]]
                0 <= i < extensions.len() implies !extensions[i].critical() && extensions[i].kind
                >= lowest by {
                if i > 0 {
                    assert(extensions[i] == rest[i - 1]);
                }
            }
        }
        if ascending(extensions) && forall|i: int|
            #![trigger extensions[i]]
            0 <= i < extensions.len() ==> !extensions[i].critical() && extensions[i].kind
                >= lowest {
            assert(!extensions[0].critical());
            assert forall|i: int, j: int|
                #![trigger rest[i], rest[j]]
                0 <= i < j < rest.len() implies rest[i].kind < rest[j].kind by {
                assert(rest[i] == extensions[i + 1] && rest[j] == extensions[j + 1]);
            }
            assert forall|i: int|
                #![trigger rest[i]]
                0 <= i < rest.len() implies !rest[i].critical() && rest[i].kind >= first.kind
                + 1 by {
                assert(rest[i] == extensions[i + 1]);
                assert(extensions[0].kind < extensions[i + 1].kind);
            }
        }
    }
}

/// What a client signs to prove its identity.
pub open spec fn client_signature_input(
    client: ClientModel,
    t2: Seq<u8>,
    server_signature: Seq<u8>,
    server_public: Seq<u8>,
) -> Seq<u8> {
    sha256_of(
        text("RekaSerdoba/1 client signature") + t2 + server_signature + server_public + client.id
            + key_id_of(text("RekaSerdoba client key"), client.public_key),
    )
}

/// What is wrong with a client's proof of identity. It holds the client's id and key
/// id, features, an MTU, extensions, a signature and a tag.
pub open spec fn auth_problem(
    plaintext: Seq<u8>,
    client: ClientModel,
    t2: Seq<u8>,
    server_signature: Seq<u8>,
    server_public: Seq<u8>,
    finished_key: Seq<u8>,
) -> Option<Error> {
    let mtu = be_value(plaintext.subrange(36, 38));
    let extension_len = be_value(plaintext.subrange(38, 40)) as int;
    let signature_at = 40 + extension_len;
    let finished_at = signature_at + 64;
    if plaintext.len() < 136 {
        Some(Error::ShortClientAuth)
    } else if mtu < 1200 || mtu > 1500 {
        Some(Error::InvalidRequestedMtu)
    } else if extension_len > 1024 {
        Some(Error::ExtensionsTooLarge)
    } else if plaintext.len() < finished_at + 32 {
        Some(Error::TruncatedInput)
    } else if plaintext.len() > finished_at + 32 {
        Some(Error::TrailingBytes)
    } else if extensions_problem(plaintext.subrange(40, signature_at), 0) is Some {
        extensions_problem(plaintext.subrange(40, signature_at), 0)
    } else if plaintext.subrange(0, 16) != client.id {
        Some(Error::ClientIdMismatch)
    } else if plaintext.subrange(16, 32) != key_id_of(
        text("RekaSerdoba client key"),
        client.public_key,
    ) {
        Some(Error::ClientKeyIdMismatch)
    } else if !ed25519_verified(
        client.public_key,
        client_signature_input(client, t2, server_signature, server_public),
        plaintext.subrange(signature_at, finished_at),
    ) {
        Some(Error::InvalidClientSignature)
    } else if plaintext.skip(finished_at) != hmac_of(
        finished_key,
        sha256_of(text("RekaSerdoba/1 client finished") + t2 + plaintext.take(finished_at)),
    ) {
        Some(Error::InvalidClientFinished)
    } else {
        None
    }
}

/// Checks a client's proof of identity.
pub fn verify_client_auth(
    plaintext: &[u8],
    client: &Client,
    t2: &[u8; 32],
    server_signature: &[u8; 64],
    server_public: &[u8; 32],
    client_finished_key: &[u8],
) -> (verified: Result<(), Error>)
    ensures
        match verified {
            Ok(_) => auth_problem(
                plaintext@,
                client@,
                t2@,
                server_signature@,
                server_public@,
                client_finished_key@,
            ) is None,
            Err(error) => auth_problem(
                plaintext@,
                client@,
                t2@,
                server_signature@,
                server_public@,
                client_finished_key@,
            ) == Some(error),
        },
{
    if plaintext.len() < 136 {
        return Err(Error::ShortClientAuth);
    }
    let mut cursor = Cursor::new(plaintext);
    let client_id: [u8; 16] = cursor.fixed()?;
    let client_key_id: [u8; 16] = cursor.fixed()?;
    let _features: u32 = cursor.u32()?;
    let mtu: u16 = cursor.u16()?;
    if mtu < 1200 || mtu > 1500 {
        return Err(Error::InvalidRequestedMtu);
    }
    let extension_len: usize = cursor.u16()? as usize;
    if extension_len > 1024 {
        return Err(Error::ExtensionsTooLarge);
    }
    let extensions = cursor.take(extension_len)?;
    let signature_bytes: [u8; 64] = cursor.fixed()?;
    let received_finished: [u8; 32] = cursor.fixed()?;
    cursor.finish()?;
    check_extensions(extensions)?;
    if !ct_eq(&client_id, &client.id) {
        return Err(Error::ClientIdMismatch);
    }
    let expected_key_id: [u8; 16] = key_id(
        "RekaSerdoba client key".as_bytes(),
        &client.public_key,
    );
    if !ct_eq(&client_key_id, &expected_key_id) {
        return Err(Error::ClientKeyIdMismatch);
    }
    let signed: [&[u8]; 6] = [
        "RekaSerdoba/1 client signature".as_bytes(),
        t2,
        server_signature,
        server_public,
        &client.id,
        &client_key_id,
    ];
    proof {
        reveal_with_fuel(concat_parts, 7);
        assert(concat_parts(part_views(signed@)) =~= text("RekaSerdoba/1 client signature") + t2@
            + server_signature@ + server_public@ + client@.id + client_key_id@);
    }
    let signature_input: [u8; 32] = hash_parts(&signed);
    if !ed25519_verify(&client.public_key, &signature_input, &signature_bytes) {
        return Err(Error::InvalidClientSignature);
    }
    let finished_at: usize = 40 + extension_len + 64;
    let covered = slice_subrange(plaintext, 0, finished_at);
    let proved: [&[u8]; 3] = ["RekaSerdoba/1 client finished".as_bytes(), t2, covered];
    proof {
        reveal_with_fuel(concat_parts, 4);
        assert(covered@ =~= plaintext@.take(finished_at as int));
        assert(concat_parts(part_views(proved@)) =~= text("RekaSerdoba/1 client finished") + t2@
            + covered@);
        assert(received_finished@ =~= plaintext@.skip(finished_at as int));
    }
    let finished_input: [u8; 32] = hash_parts(&proved);
    let expected: [u8; 32] = hmac_bytes(client_finished_key, &finished_input);
    if !ct_eq(&received_finished, &expected) {
        return Err(Error::InvalidClientFinished);
    }
    Ok(())
}

/// Who passes is who signed: a proof of identity that is taken bears the id of the
/// client, a signature of the client's key on this very handshake, and a tag of the
/// key that only the two parties have. Nothing is wrong with its extensions.
pub proof fn accepted_proof_is_signed_by_the_client(
    plaintext: Seq<u8>,
    client: ClientModel,
    t2: Seq<u8>,
    server_signature: Seq<u8>,
    server_public: Seq<u8>,
    finished_key: Seq<u8>,
)
    requires
        auth_problem(plaintext, client, t2, server_signature, server_public, finished_key) is None,
    ensures
        plaintext.take(16) == client.id,
        extensions_problem(plaintext.subrange(40, plaintext.len() - 96), 0) is None,
        exists|signature: Seq<u8>| #[trigger]
            ed25519_verified(
                client.public_key,
                client_signature_input(client, t2, server_signature, server_public),
                signature,
            ),
        plaintext.skip(plaintext.len() - 32) == hmac_of(
            finished_key,
            sha256_of(
                text("RekaSerdoba/1 client finished") + t2 + plaintext.take(plaintext.len() - 32),
            ),
        ),
{
    assert(plaintext.take(16) =~= plaintext.subrange(0, 16));
}

/// What stands in a client's first message, with a clock and nothing optional.
pub open spec fn hello_body(hello: HelloModel, unix_time: u64) -> Seq<u8> {
    be_bytes(PROTOCOL_VERSION as nat, 2) + be_bytes(CIPHER_SUITE as nat, 2) + hello.handshake_id
        + hello.client_id + hello.client_ephemeral + hello.client_nonce + be_bytes(
        unix_time as nat,
        8,
    ) + be_bytes(0, 2) + be_bytes(0, 2)
}

/// A client's first message is read as it was written, wherever its clock is not too far
/// off.
pub proof fn hello_is_read_as_written(hello: HelloModel, unix_time: u64, unix_now: u64)
    requires
        hello.handshake_id.len() == 16,
        hello.client_id.len() == 16,
        hello.client_ephemeral.len() == 32,
        hello.client_nonce.len() == 32,
        clock_skew(unix_now, unix_time) <= CLIENT_CLOCK_WINDOW,
    ensures
        hello_of(clear_message(0x01, hello_body(hello, unix_time)), unix_now) == Ok::<
            HelloModel,
            Error,
        >(hello),
{
    let body = hello_body(hello, unix_time);
    let encoded = clear_message(0x01, body);
    be_bytes_length(PROTOCOL_VERSION as nat, 2);
    be_bytes_length(CIPHER_SUITE as nat, 2);
    be_bytes_length(unix_time as nat, 8);
    be_bytes_length(0, 2);
    be_bytes_length(body.len(), 4);
    reveal_with_fuel(be_limit, 9);
    be_round_trip(PROTOCOL_VERSION as nat, 2);
    be_round_trip(CIPHER_SUITE as nat, 2);
    be_round_trip(unix_time as nat, 8);
    be_round_trip(0, 2);
    be_round_trip(body.len(), 4);
    assert(encoded.skip(5) =~= body);
    assert(encoded.subrange(1, 5) =~= be_bytes(body.len(), 4));
    assert(body.subrange(0, 2) =~= be_bytes(PROTOCOL_VERSION as nat, 2));
    assert(body.subrange(2, 4) =~= be_bytes(CIPHER_SUITE as nat, 2));
    assert(body.subrange(4, 20) =~= hello.handshake_id);
    assert(body.subrange(20, 36) =~= hello.client_id);
    assert(body.subrange(36, 68) =~= hello.client_ephemeral);
    assert(body.subrange(68, 100) =~= hello.client_nonce);
    assert(body.subrange(100, 108) =~= be_bytes(unix_time as nat, 8));
    assert(body.subrange(108, 110) =~= be_bytes(0, 2));
    assert(body.subrange(110, 112) =~= be_bytes(0, 2));
}

/// A client's proof of identity without its tag.
pub open spec fn auth_fields(
    client: ClientModel,
    features: Seq<u8>,
    mtu: u16,
    extensions: Seq<u8>,
    signature: Seq<u8>,
) -> Seq<u8> {
    client.id + key_id_of(text("RekaSerdoba client key"), client.public_key) + features + be_bytes(
        mtu as nat,
        2,
    ) + be_bytes(extensions.len(), 2) + extensions + signature
}

/// A client proves its identity: where its signature verifies and its tag is the right
/// one, nothing is wrong with its proof. It may bear extensions that the server can pass
/// over.
pub proof fn right_proof_is_taken(
    client: ClientModel,
    features: Seq<u8>,
    mtu: u16,
    extensions: Seq<u8>,
    signature: Seq<u8>,
    t2: Seq<u8>,
    server_signature: Seq<u8>,
    server_public: Seq<u8>,
    finished_key: Seq<u8>,
)
    requires
        client.id.len() == 16,
        key_id_of(text("RekaSerdoba client key"), client.public_key).len() == 16,
        features.len() == 4,
        1200 <= mtu <= 1500,
        extensions.len() <= 1024,
        extensions_problem(extensions, 0) is None,
        signature.len() == 64,
        ed25519_verified(
            client.public_key,
            client_signature_input(client, t2, server_signature, server_public),
            signature,
        ),
        ({
            let fields = auth_fields(client, features, mtu, extensions, signature);
            hmac_of(
                finished_key,
                sha256_of(text("RekaSerdoba/1 client finished") + t2 + fields),
            ).len() == 32
        }),
    ensures
        ({
            let fields = auth_fields(client, features, mtu, extensions, signature);
            let tag = hmac_of(
                finished_key,
                sha256_of(text("RekaSerdoba/1 client finished") + t2 + fields),
            );
            auth_problem(
                fields + tag,
                client,
                t2,
                server_signature,
                server_public,
                finished_key,
            ) is None
        }),
{
    let fields = auth_fields(client, features, mtu, extensions, signature);
    let tag = hmac_of(
        finished_key,
        sha256_of(text("RekaSerdoba/1 client finished") + t2 + fields),
    );
    let plaintext = fields + tag;
    let n = extensions.len() as int;
    be_bytes_length(mtu as nat, 2);
    be_bytes_length(extensions.len(), 2);
    reveal_with_fuel(be_limit, 3);
    be_round_trip(mtu as nat, 2);
    be_round_trip(extensions.len(), 2);
    assert(plaintext.subrange(0, 16) =~= client.id);
    assert(plaintext.subrange(16, 32) =~= key_id_of(
        text("RekaSerdoba client key"),
        client.public_key,
    ));
    assert(plaintext.subrange(36, 38) =~= be_bytes(mtu as nat, 2));
    assert(plaintext.subrange(38, 40) =~= be_bytes(extensions.len(), 2));
    assert(plaintext.subrange(40, 40 + n) =~= extensions);
    assert(plaintext.subrange(40 + n, 104 + n) =~= signature);
    assert(plaintext.take(104 + n) =~= fields);
    assert(plaintext.skip(104 + n) =~= tag);
}

/// What the server assigns to a session.
pub open spec fn parameters_of(session_id: Seq<u8>, ipv4: Seq<u8>, lifetime: u32) -> Seq<u8> {
    session_id + be_bytes(lifetime as nat, 4) + be_bytes(1280, 2) + be_bytes(4096, 2) + be_bytes(
        0x100_0000,
        4,
    ) + be_bytes(1800, 4) + seq![24u8] + ipv4 + seq![0u8] + Seq::new(16, |i: int| 0u8) + seq![0u8]
        + be_bytes(0, 2)
}

/// Writes what the server assigns to a session: its id and lifetime, the MTU, the
/// replay window, the limits of an epoch, and the client's address.
pub fn assigned_parameters(
    session_id: [u8; 16],
    ipv4: [u8; 4],
    session_lifetime_seconds: u32,
) -> (parameters: Vec<u8>)
    ensures
        parameters@ == parameters_of(session_id@, ipv4@, session_lifetime_seconds),
        parameters@.len() == 57,
{
    let mut out: Vec<u8> = Vec::new();
    append(&mut out, &session_id);
    put_u32(&mut out, session_lifetime_seconds);
    put_u16(&mut out, 1280);
    put_u16(&mut out, 4096);
    put_u32(&mut out, 0x100_0000);
    put_u32(&mut out, 1800);
    out.push(24);
    append(&mut out, &ipv4);
    out.push(0);
    let ipv6: [u8; 16] = [0u8; 16];
    append(&mut out, &ipv6);
    out.push(0);
    put_u16(&mut out, 0);
    proof {
        be_bytes_length(session_lifetime_seconds as nat, 4);
        be_bytes_length(1280, 2);
        be_bytes_length(4096, 2);
        be_bytes_length(0x100_0000, 4);
        be_bytes_length(1800, 4);
        be_bytes_length(0, 2);
        assert(out@ =~= parameters_of(session_id@, ipv4@, session_lifetime_seconds));
    }
    out
}

/// Mixes a packet number into an IV of 12 bytes.
pub fn packet_nonce(iv: &[u8], packet_number: u64) -> (mixed: Result<[u8; 12], Error>)
    ensures
        mixed is Ok <==> iv@.len() == 12,
        mixed is Ok ==> mixed->Ok_0@ == nonce_of(iv@, packet_number),
        mixed is Err ==> mixed->Err_0 == Error::InvalidIvLength,
{
    if iv.len() != 12 {
        return Err(Error::InvalidIvLength);
    }
    let fixed: [u8; 12] = get_array(iv, 0);
    assert(fixed@ =~= iv@);
    Ok(nonce(&fixed, packet_number))
}

/// The header of an encrypted handshake message.
pub open spec fn handshake_header(message_type: u8, sequence: u32, ciphertext_len: nat) -> Seq<u8> {
    seq![message_type, 0u8] + be_bytes(sequence as nat, 4) + be_bytes(ciphertext_len, 2)
}

/// An encrypted handshake message. The transcript so far is authenticated with it.
pub open spec fn handshake_sealed(
    key: Seq<u8>,
    iv: Seq<u8>,
    message_type: u8,
    sequence: u32,
    transcript: Seq<u8>,
    plaintext: Seq<u8>,
) -> Seq<u8> {
    let header = handshake_header(message_type, sequence, plaintext.len() + 16);
    header + aead_sealed(key, nonce_of(iv, sequence as u64), header + transcript, plaintext)
}

/// What an encrypted handshake message holds.
pub open spec fn handshake_opened(
    key: Seq<u8>,
    iv: Seq<u8>,
    message_type: u8,
    sequence: u32,
    transcript: Seq<u8>,
    encoded: Seq<u8>,
) -> Result<Seq<u8>, Error> {
    let ciphertext_len = be_value(encoded.subrange(6, 8));
    if encoded.len() < 24 || encoded[0] != message_type || encoded[1] != 0 || be_value(
        encoded.subrange(2, 6),
    ) != sequence {
        Err(Error::InvalidHandshakeHeader)
    } else if ciphertext_len > MAX_ENCRYPTED_HANDSHAKE || ciphertext_len != encoded.len() - 8 {
        Err(Error::InvalidHandshakeLength)
    } else if iv.len() != 12 {
        Err(Error::InvalidIvLength)
    } else {
        match aead_opened(
            key,
            nonce_of(iv, sequence as u64),
            encoded.take(8) + transcript,
            encoded.skip(8),
        ) {
            None => Err(Error::HandshakeAuthenticationFailed),
            Some(plaintext) => Ok(plaintext),
        }
    }
}

/// Encrypts a handshake message. The key has 32 bytes, the IV 12.
pub fn seal_handshake(
    key: &[u8],
    iv: &[u8],
    message_type: u8,
    sequence: u32,
    transcript: &[u8; 32],
    plaintext: &[u8],
) -> (encoded: Result<Vec<u8>, Error>)
    requires
        key@.len() == 32,
    ensures
        encoded is Ok <==> plaintext@.len() <= 4096 && iv@.len() == 12,
        encoded is Err ==> encoded->Err_0 == if plaintext@.len() > 4096 {
            Error::HandshakePlaintextTooLarge
        } else {
            Error::InvalidIvLength
        },
        encoded is Ok ==> encoded->Ok_0@ == handshake_sealed(
            key@,
            iv@,
            message_type,
            sequence,
            transcript@,
            plaintext@,
        ) && handshake_opened(
            key@,
            iv@,
            message_type,
            sequence,
            transcript@,
            encoded->Ok_0@,
        ) == Ok::<Seq<u8>, Error>(plaintext@),
{
    if plaintext.len() > 4096 {
        return Err(Error::HandshakePlaintextTooLarge);
    }
    let mut header: Vec<u8> = Vec::new();
    header.push(message_type);
    header.push(0);
    put_u32(&mut header, sequence);
    put_u16(&mut header, (plaintext.len() + 16) as u16);
    let ghost bare = header@;
    let mut aad: Vec<u8> = Vec::new();
    append(&mut aad, &header);
    append(&mut aad, transcript);
    proof {
        be_bytes_length(sequence as nat, 4);
        be_bytes_length(plaintext@.len() + 16, 2);
        assert(header@ =~= handshake_header(message_type, sequence, plaintext@.len() + 16));
        assert(aad@ =~= header@ + transcript@);
    }
    let nonce: [u8; 12] = packet_nonce(iv, sequence as u64)?;
    let fixed_key: [u8; 32] = get_array(key, 0);
    assert(fixed_key@ =~= key@);
    match aead_encrypt(&fixed_key, &nonce, &aad, plaintext) {
        Some(ciphertext) => {
            append(&mut header, &ciphertext);
            proof {
                reveal_with_fuel(be_limit, 5);
                be_round_trip(sequence as nat, 4);
                be_round_trip(plaintext@.len() + 16, 2);
                assert(header@.subrange(2, 6) =~= be_bytes(sequence as nat, 4));
                assert(header@.subrange(6, 8) =~= be_bytes(plaintext@.len() + 16, 2));
                assert(header@.take(8) =~= bare);
                assert(header@.skip(8) =~= ciphertext@);
            }
            Ok(header)
        },
        None => Err(Error::HandshakeEncryptionFailed),
    }
}

/// Decrypts a handshake message.
pub fn open_handshake(
    key: &[u8],
    iv: &[u8],
    message_type: u8,
    sequence: u32,
    transcript: &[u8; 32],
    encoded: &[u8],
) -> (plaintext: Result<Vec<u8>, Error>)
    requires
        key@.len() == 32,
    ensures
        match plaintext {
            Ok(bytes) => handshake_opened(
                key@,
                iv@,
                message_type,
                sequence,
                transcript@,
                encoded@,
            ) == Ok::<Seq<u8>, Error>(bytes@),
            Err(error) => handshake_opened(
                key@,
                iv@,
                message_type,
                sequence,
                transcript@,
                encoded@,
            ) == Err::<Seq<u8>, Error>(error),
        },
{
    if encoded.len() < 24 || encoded[0] != message_type || encoded[1] != 0 || get_u32(encoded, 2)
        != sequence {
        return Err(Error::InvalidHandshakeHeader);
    }
    let ciphertext_len: usize = get_u16(encoded, 6) as usize;
    if ciphertext_len > MAX_ENCRYPTED_HANDSHAKE || ciphertext_len != encoded.len() - 8 {
        return Err(Error::InvalidHandshakeLength);
    }
    let header = slice_subrange(encoded, 0, 8);
    let ciphertext = slice_subrange(encoded, 8, encoded.len());
    let mut aad: Vec<u8> = Vec::new();
    append(&mut aad, header);
    append(&mut aad, transcript);
    assert(aad@ =~= encoded@.take(8) + transcript@);
    assert(ciphertext@ =~= encoded@.skip(8));
    let nonce: [u8; 12] = packet_nonce(iv, sequence as u64)?;
    let fixed_key: [u8; 32] = get_array(key, 0);
    assert(fixed_key@ =~= key@);
    match aead_decrypt(&fixed_key, &nonce, &aad, ciphertext) {
        Some(plaintext) => Ok(plaintext),
        None => Err(Error::HandshakeAuthenticationFailed),
    }
}

/// A handshake message in the clear.
pub open spec fn clear_message(message_type: u8, payload: Seq<u8>) -> Seq<u8> {
    seq![message_type] + be_bytes(payload.len(), 4) + payload
}

/// Writes a handshake message in the clear, which has at most 1536 bytes.
pub fn encode_handshake(message_type: u8, payload: &[u8]) -> (encoded: Result<Vec<u8>, Error>)
    ensures
        encoded is Ok <==> 5 + payload@.len() <= MAX_CLEAR_HANDSHAKE,
        encoded is Ok ==> encoded->Ok_0@ == clear_message(message_type, payload@),
        encoded is Err ==> encoded->Err_0 == Error::HandshakeMessageTooLarge,
{
    if payload.len() > MAX_CLEAR_HANDSHAKE - 5 {
        return Err(Error::HandshakeMessageTooLarge);
    }
    let mut out: Vec<u8> = Vec::new();
    out.push(message_type);
    put_u32(&mut out, payload.len() as u32);
    append(&mut out, payload);
    assert(out@ =~= clear_message(message_type, payload@));
    Ok(out)
}

/// The transcript before the first message.
pub open spec fn first_transcript() -> Seq<u8> {
    sha256_of(text("RekaSerdoba/1 transcript"))
}

/// Starts a transcript.
pub fn transcript_initial() -> (transcript: [u8; 32])
    ensures
        transcript@ == first_transcript(),
{
    sha256("RekaSerdoba/1 transcript".as_bytes())
}

/// A client's first message is taken by its bytes: it has 117 of them, says so, names version
/// 1 and suite 1, has a clock at most 300 seconds off either way, and nothing optional. Its
/// fields stand one after the other.
pub proof fn hello_is_judged_by_its_bytes(encoded: Seq<u8>, unix_now: u64)
    ensures
        hello_of(encoded, unix_now) is Ok <==> {
            &&& encoded.len() == 117
            &&& encoded.subrange(0, 9) == seq![1u8, 0, 0, 0, 112, 0, 1, 0, 1]
            &&& -300 <= unix_now - be_value(encoded.subrange(105, 113)) <= 300
            &&& encoded.subrange(113, 117) == seq![0u8, 0, 0, 0]
        },
        hello_of(encoded, unix_now) is Ok ==> hello_of(encoded, unix_now)->Ok_0 == (HelloModel {
            handshake_id: encoded.subrange(9, 25),
            client_id: encoded.subrange(25, 41),
            client_ephemeral: encoded.subrange(41, 73),
            client_nonce: encoded.subrange(73, 105),
        }),
{
    let body = encoded.skip(5);
    if encoded.len() >= 5 {
        numbers_are_big_endian(encoded.subrange(1, 5));
    }
    if encoded.len() >= 117 {
        numbers_are_big_endian(body.subrange(0, 2));
        numbers_are_big_endian(body.subrange(2, 4));
        numbers_are_big_endian(body.subrange(108, 110));
        numbers_are_big_endian(body.subrange(110, 112));
        be_value_round_trip(body.subrange(100, 108));
        reveal_with_fuel(be_limit, 9);
        assert(body.subrange(100, 108) =~= encoded.subrange(105, 113));
        assert(body.subrange(4, 20) =~= encoded.subrange(9, 25));
        assert(body.subrange(20, 36) =~= encoded.subrange(25, 41));
        assert(body.subrange(36, 68) =~= encoded.subrange(41, 73));
        assert(body.subrange(68, 100) =~= encoded.subrange(73, 105));
        let front = encoded.subrange(0, 9);
        let back = encoded.subrange(113, 117);
        let expected = seq![1u8, 0, 0, 0, 112, 0, 1, 0, 1];
        if encoded.len() == 117 {
            if hello_of(encoded, unix_now) is Ok {
                assert(front =~= expected);
                assert(back =~= seq![0u8, 0, 0, 0]);
            }
            if front == expected && back == seq![0u8, 0, 0, 0] {
                assert(encoded[0] == front[0] && encoded[1] == front[1] && encoded[2] == front[2]
                    && encoded[3] == front[3] && encoded[4] == front[4] && encoded[5] == front[5]
                    && encoded[6] == front[6] && encoded[7] == front[7] && encoded[8] == front[8]);
                assert(encoded[113] == back[0] && encoded[114] == back[1] && encoded[115]
                    == back[2] && encoded[116] == back[3]);
            }
        }
    }
}

/// A client's proof of identity is taken exactly where every part of it stands in its place
/// and is right: the client's id and key id, an MTU from 1200 to 1500, extensions of at most
/// 1024 bytes that can be passed over, the client's signature on this handshake, and the tag
/// over all of it. Nothing may follow.
pub proof fn proof_is_judged_by_its_parts(
    plaintext: Seq<u8>,
    client: ClientModel,
    t2: Seq<u8>,
    server_signature: Seq<u8>,
    server_public: Seq<u8>,
    finished_key: Seq<u8>,
)
    requires
        plaintext.len() >= 40,
    ensures
        ({
            let length = plaintext[38] * 256 + plaintext[39];
            let mtu = plaintext[36] * 256 + plaintext[37];
            let own_key_id = sha256_of(
                text("RekaSerdoba client key") + client.public_key,
            ).take(16);
            auth_problem(plaintext, client, t2, server_signature, server_public, finished_key)
                is None <==> {
                &&& plaintext.len() == 136 + length
                &&& length <= 1024
                &&& 1200 <= mtu <= 1500
                &&& extensions_problem(plaintext.subrange(40, 40 + length), 0) is None
                &&& plaintext.subrange(0, 16) == client.id
                &&& plaintext.subrange(16, 32) == own_key_id
                &&& ed25519_verified(
                    client.public_key,
                    sha256_of(
                        text("RekaSerdoba/1 client signature") + t2 + server_signature
                            + server_public + client.id + own_key_id,
                    ),
                    plaintext.subrange(40 + length, 104 + length),
                )
                &&& plaintext.skip(104 + length) == hmac_of(
                    finished_key,
                    sha256_of(
                        text("RekaSerdoba/1 client finished") + t2 + plaintext.take(104 + length),
                    ),
                )
            }
        }),
{
    numbers_are_big_endian(plaintext.subrange(36, 38));
    numbers_are_big_endian(plaintext.subrange(38, 40));
}

/// An encrypted handshake message is opened exactly where its header has the expected type
/// and number, a zero, and the length of what follows, and the cipher recovers something under
/// the header and the transcript.
pub proof fn handshake_messages_are_opened_by_their_headers(
    key: Seq<u8>,
    iv: Seq<u8>,
    message_type: u8,
    sequence: u32,
    transcript: Seq<u8>,
    encoded: Seq<u8>,
    plaintext: Seq<u8>,
)
    requires
        encoded.len() >= 24,
        iv.len() == 12,
    ensures
        handshake_opened(key, iv, message_type, sequence, transcript, encoded) == Ok::<
            Seq<u8>,
            Error,
        >(plaintext) <==> {
            &&& encoded.len() <= 4120
            &&& encoded[0] == message_type
            &&& encoded[1] == 0
            &&& be_value(encoded.subrange(2, 6)) == sequence
            &&& encoded[6] * 256 + encoded[7] == encoded.len() - 8
            &&& aead_opened(
                key,
                nonce_of(iv, sequence as u64),
                encoded.take(8) + transcript,
                encoded.skip(8),
            ) == Some(plaintext)
        },
{
    numbers_are_big_endian(encoded.subrange(6, 8));
}

/// The parameters of a session tell the client its session, its lifetime and its address,
/// each in its place.
pub proof fn parameters_tell_the_client_its_own(session_id: Seq<u8>, ipv4: Seq<u8>, lifetime: u32)
    requires
        session_id.len() == 16,
        ipv4.len() == 4,
    ensures
        ({
            let parameters = parameters_of(session_id, ipv4, lifetime);
            &&& parameters.len() == 57
            &&& parameters.subrange(0, 16) == session_id
            &&& be_value(parameters.subrange(16, 20)) == lifetime
            &&& be_value(parameters.subrange(20, 22)) == 1280
            &&& be_value(parameters.subrange(22, 24)) == 4096
            &&& parameters[32] == 24
            &&& parameters.subrange(33, 37) == ipv4
            &&& forall|i: int| 37 <= i < 57 ==> #[trigger] parameters[i] == 0
        }),
{
    let parameters = parameters_of(session_id, ipv4, lifetime);
    be_bytes_length(lifetime as nat, 4);
    be_bytes_length(1280, 2);
    be_bytes_length(4096, 2);
    be_bytes_length(0x100_0000, 4);
    be_bytes_length(1800, 4);
    reveal_with_fuel(be_limit, 5);
    be_round_trip(lifetime as nat, 4);
    be_round_trip(1280, 2);
    be_round_trip(4096, 2);
    numbers_are_written_big_endian(0);
    assert(parameters.subrange(0, 16) =~= session_id);
    assert(parameters.subrange(16, 20) =~= be_bytes(lifetime as nat, 4));
    assert(parameters.subrange(20, 22) =~= be_bytes(1280, 2));
    assert(parameters.subrange(22, 24) =~= be_bytes(4096, 2));
    assert(parameters.subrange(33, 37) =~= ipv4);
}

} // verus!
