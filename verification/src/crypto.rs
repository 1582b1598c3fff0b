//! The cryptographic primitives, as calls into the crates that implement them.
//!
//! Nothing in this file is proved: each wrapper states what its crate promises.
//! A result that would take pages to define has a name, and the contracts of the
//! library speak of that name.
use chacha20poly1305::{
    aead::{Aead, KeyInit, Payload},
    ChaCha20Poly1305,
};
use ed25519_dalek::{Signature, Signer, SigningKey, Verifier, VerifyingKey};
use hkdf::Hkdf;
use hmac::{Hmac, Mac};
use rand_core::{OsRng, RngCore};
use sha2::{Digest, Sha256};
use subtle::ConstantTimeEq;
use vstd::prelude::*;
use x25519_dalek::{PublicKey, StaticSecret};
use zeroize::Zeroize;

verus! {

/// What ChaCha20-Poly1305 makes of a plaintext: the ciphertext with the tag at
/// its end.
pub uninterp spec fn aead_sealed(
    key: Seq<u8>,
    nonce: Seq<u8>,
    aad: Seq<u8>,
    plaintext: Seq<u8>,
) -> Seq<u8>;

/// What ChaCha20-Poly1305 recovers from a ciphertext; `None` if its tag is not
/// authentic.
pub uninterp spec fn aead_opened(
    key: Seq<u8>,
    nonce: Seq<u8>,
    aad: Seq<u8>,
    ciphertext: Seq<u8>,
) -> Option<Seq<u8>>;

/// The SHA-256 digest of `data`.
pub uninterp spec fn sha256_of(data: Seq<u8>) -> Seq<u8>;

/// The HMAC-SHA-256 tag of `message` under `key`.
pub uninterp spec fn hmac_of(key: Seq<u8>, message: Seq<u8>) -> Seq<u8>;

/// The first `length` bytes that HKDF-Expand with SHA-256 makes of `prk` and `info`.
pub uninterp spec fn hkdf_expanded(prk: Seq<u8>, info: Seq<u8>, length: nat) -> Seq<u8>;

/// Whether 32 bytes are an Ed25519 public key: they decompress to a point on the curve.
pub uninterp spec fn ed25519_is_key(public_key: Seq<u8>) -> bool;

/// Whether an Ed25519 signature on `message` verifies under a public key.
pub uninterp spec fn ed25519_verified(
    public_key: Seq<u8>,
    message: Seq<u8>,
    signature: Seq<u8>,
) -> bool;

/// The Ed25519 signature on `message` of the key pair that `seed` gives.
pub uninterp spec fn ed25519_signature(seed: Seq<u8>, message: Seq<u8>) -> Seq<u8>;

/// The Ed25519 public key of the key pair that `seed` gives.
pub uninterp spec fn ed25519_public(seed: Seq<u8>) -> Seq<u8>;

/// What HKDF-Extract with SHA-256 makes of a salt and key material.
pub uninterp spec fn hkdf_extracted(salt: Seq<u8>, ikm: Seq<u8>) -> Seq<u8>;

/// The X25519 public key of a secret.
pub uninterp spec fn x25519_public(secret: Seq<u8>) -> Seq<u8>;

/// What X25519 makes of a secret and a peer's public key.
pub uninterp spec fn x25519_shared(secret: Seq<u8>, public_key: Seq<u8>) -> Seq<u8>;

/// Both ends of an exchange get the same secret: whoever has a secret that gives the
/// peer's public key computes from it what this side computes.
pub open spec fn secret_is_shared(secret: Seq<u8>, public_key: Seq<u8>) -> bool {
    forall|peer: Seq<u8>|
        peer.len() == 32 && #[trigger] x25519_public(peer) == public_key ==> x25519_shared(
            secret,
            public_key,
        ) == x25519_shared(peer, x25519_public(secret))
}

/// Encrypts with `ChaCha20Poly1305::encrypt`.
///
/// The crate refuses a message only where it exceeds the counter of the stream
/// cipher, far beyond the bound asked for here, so a ciphertext is owed. It is 16
/// bytes (the tag) longer than the plaintext, and decrypting it under the same key,
/// nonce and associated data gives the plaintext back.
#[verifier::external_body]
pub(crate) fn aead_encrypt(
    key: &[u8; 32],
    nonce: &[u8; 12],
    aad: &[u8],
    plaintext: &[u8],
) -> (out: Option<Vec<u8>>)
    requires
        plaintext@.len() <= 0xffff,
    ensures
        out is Some,
        out->Some_0@ == aead_sealed(key@, nonce@, aad@, plaintext@),
        out->Some_0@.len() == plaintext@.len() + 16,
        aead_opened(key@, nonce@, aad@, out->Some_0@) == Some(plaintext@),
{
    ChaCha20Poly1305::new(key.into())
        .encrypt(nonce.into(), Payload { msg: plaintext, aad })
        .ok()
}

/// Decrypts with `ChaCha20Poly1305::decrypt`.
///
/// The result is the recovered plaintext, 16 bytes shorter than the ciphertext, or
/// nothing where the tag does not authenticate it.
#[verifier::external_body]
pub(crate) fn aead_decrypt(
    key: &[u8; 32],
    nonce: &[u8; 12],
    aad: &[u8],
    ciphertext: &[u8],
) -> (out: Option<Vec<u8>>)
    requires
        ciphertext@.len() <= 0xffff,
    ensures
        out is Some <==> aead_opened(key@, nonce@, aad@, ciphertext@) is Some,
        out is Some ==> aead_opened(key@, nonce@, aad@, ciphertext@) == Some(out->Some_0@),
        out is Some ==> ciphertext@.len() == out->Some_0@.len() + 16,
{
    ChaCha20Poly1305::new(key.into())
        .decrypt(nonce.into(), Payload { msg: ciphertext, aad })
        .ok()
}

/// Hashes with `Sha256::digest`.
#[verifier::external_body]
pub(crate) fn sha256(data: &[u8]) -> (digest: [u8; 32])
    ensures
        digest@ == sha256_of(data@),
{
    Sha256::digest(data).into()
}

/// Authenticates with `Hmac::<Sha256>`, which takes a key of any length.
#[verifier::external_body]
pub(crate) fn hmac_sha256(key: &[u8], message: &[u8]) -> (tag: [u8; 32])
    ensures
        tag@ == hmac_of(key@, message@),
{
    let mut mac = <Hmac<Sha256> as hmac::KeyInit>::new_from_slice(key).expect("any key length");
    mac.update(message);
    mac.finalize().into_bytes().into()
}

/// Expands a pseudorandom key with `Hkdf::<Sha256>::expand`.
///
/// The crate gives as many bytes as were asked for, and refuses more than 255
/// blocks of 32 bytes.
#[verifier::external_body]
pub(crate) fn hkdf_expand(prk: &[u8; 32], info: &[u8], length: usize) -> (out: Option<Vec<u8>>)
    requires
        length <= 0xffff,
    ensures
        out is Some <==> length <= 8160,
        out is Some ==> out->Some_0@ == hkdf_expanded(prk@, info@, length as nat),
        out is Some ==> out->Some_0@.len() == length,
{
    let mut output = vec![0u8; length];
    Hkdf::<Sha256>::from_prk(prk).ok()?.expand(info, &mut output).ok()?;
    Some(output)
}

/// Erases a secret with `Zeroize::zeroize`, which leaves only zero bytes.
#[verifier::external_body]
pub(crate) fn wipe<const N: usize>(secret: &mut [u8; N])
    ensures
        forall|i: int| 0 <= i < N ==> #[trigger] final(secret)@[i] == 0,
    opens_invariants none
    no_unwind
{
    secret.zeroize();
}

/// Compares with `ConstantTimeEq::ct_eq` of `subtle`: true exactly where the two
/// byte strings are equal.
#[verifier::external_body]
pub(crate) fn ct_eq(a: &[u8], b: &[u8]) -> (equal: bool)
    ensures
        equal == (a@ == b@),
{
    a.ct_eq(b).into()
}

/// Draws bytes with `OsRng::fill_bytes`. Nothing can be said of them. The crate
/// panics where the operating system has no random numbers to give.
#[verifier::external_body]
pub(crate) fn random_bytes<const N: usize>() -> (out: [u8; N]) {
    let mut out = [0u8; N];
    OsRng.fill_bytes(&mut out);
    out
}

/// Checks a public key with `VerifyingKey::from_bytes` of `ed25519_dalek`, which takes
/// exactly the bytes that decompress to a point on the curve.
#[verifier::external_body]
pub(crate) fn ed25519_check_key(public_key: &[u8; 32]) -> (valid: bool)
    ensures
        valid == ed25519_is_key(public_key@),
{
    VerifyingKey::from_bytes(public_key).is_ok()
}

/// Verifies with `VerifyingKey::verify` of `ed25519_dalek`. Bytes that are no public
/// key verify nothing.
#[verifier::external_body]
pub(crate) fn ed25519_verify(
    public_key: &[u8; 32],
    message: &[u8],
    signature: &[u8; 64],
) -> (valid: bool)
    ensures
        valid == ed25519_verified(public_key@, message@, signature@),
{
    match VerifyingKey::from_bytes(public_key) {
        Ok(key) => key.verify(message, &Signature::from_bytes(signature)).is_ok(),
        Err(_) => false,
    }
}

/// Signs with `SigningKey::sign` of `ed25519_dalek`. The signature verifies under the
/// public key of the same key pair.
#[verifier::external_body]
pub(crate) fn ed25519_sign(seed: &[u8; 32], message: &[u8]) -> (signature: [u8; 64])
    ensures
        signature@ == ed25519_signature(seed@, message@),
        ed25519_verified(ed25519_public(seed@), message@, signature@),
{
    SigningKey::from_bytes(seed).sign(message).to_bytes()
}

/// Computes a public key with `PublicKey::from` of `x25519_dalek`.
#[verifier::external_body]
pub(crate) fn x25519_public_key(secret: &[u8; 32]) -> (public_key: [u8; 32])
    ensures
        public_key@ == x25519_public(secret@),
{
    PublicKey::from(&StaticSecret::from(*secret)).to_bytes()
}

/// Agrees on a secret with `StaticSecret::diffie_hellman` of `x25519_dalek`.
///
/// It is a Diffie-Hellman exchange: whoever has a secret that gives the public key gets
/// the same result from that secret and the public key of this side.
#[verifier::external_body]
pub(crate) fn x25519_agree(secret: &[u8; 32], public_key: &[u8; 32]) -> (shared: [u8; 32])
    ensures
        shared@ == x25519_shared(secret@, public_key@),
        forall|peer: Seq<u8>|
            peer.len() == 32 && #[trigger] x25519_public(peer) == public_key@ ==> shared@
                == x25519_shared(peer, x25519_public(secret@)),
{
    StaticSecret::from(*secret).diffie_hellman(&PublicKey::from(*public_key)).to_bytes()
}

/// Draws a secret with `StaticSecret::random_from_rng` of `x25519_dalek`. Nothing can
/// be said of it.
#[verifier::external_body]
pub(crate) fn x25519_random_secret() -> (secret: [u8; 32]) {
    StaticSecret::random_from_rng(OsRng).to_bytes()
}

/// Computes a public key with `SigningKey::verifying_key` of `ed25519_dalek`.
#[verifier::external_body]
pub(crate) fn ed25519_public_key(seed: &[u8; 32]) -> (public_key: [u8; 32])
    ensures
        public_key@ == ed25519_public(seed@),
{
    SigningKey::from_bytes(seed).verifying_key().to_bytes()
}

/// Extracts a pseudorandom key with `Hkdf::<Sha256>::extract`.
#[verifier::external_body]
pub(crate) fn hkdf_extract(salt: &[u8], ikm: &[u8]) -> (prk: [u8; 32])
    ensures
        prk@ == hkdf_extracted(salt@, ikm@),
{
    Hkdf::<Sha256>::extract(Some(salt), ikm).0.into()
}

} // verus!
