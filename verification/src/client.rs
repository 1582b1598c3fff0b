//! The parties of a session: the server's identity and the clients it knows.
use crate::crypto::{ed25519_public, ed25519_public_key, sha256_of};
use crate::kdf::{concat_parts, hash_parts, part_views};
use crate::secret::Secret;
use crate::wire::{get_array, text};
use vstd::prelude::*;

verus! {

/// A client as values.
#[verifier::ext_equal]
pub struct ClientModel {
    pub id: Seq<u8>,
    pub public_key: Seq<u8>,
    pub gate_key: Seq<u8>,
    pub tunnel_ipv4: Seq<u8>,
    pub session_lifetime_seconds: u32,
    pub bandwidth_bytes_per_second: u64,
    pub session_quota_bytes: u64,
}

/// A client that may connect.
#[derive(Clone, Copy)]
pub struct Client {
    pub id: [u8; 16],
    pub public_key: [u8; 32],
    pub gate_key: [u8; 32],
    pub tunnel_ipv4: [u8; 4],
    pub session_lifetime_seconds: u32,
    pub bandwidth_bytes_per_second: u64,
    pub session_quota_bytes: u64,
}

impl View for Client {
    type V = ClientModel;

    open spec fn view(&self) -> ClientModel {
        ClientModel {
            id: self.id@,
            public_key: self.public_key@,
            gate_key: self.gate_key@,
            tunnel_ipv4: self.tunnel_ipv4@,
            session_lifetime_seconds: self.session_lifetime_seconds,
            bandwidth_bytes_per_second: self.bandwidth_bytes_per_second,
            session_quota_bytes: self.session_quota_bytes,
        }
    }
}

/// The short name of a public key: the front of a hash.
pub open spec fn key_id_of(label: Seq<u8>, public_key: Seq<u8>) -> Seq<u8> {
    sha256_of(label + public_key).take(16)
}

/// Computes the short name of a public key.
pub fn key_id(label: &[u8], public_key: &[u8]) -> (id: [u8; 16])
    ensures
        id@ == key_id_of(label@, public_key@),
{
    let parts: [&[u8]; 2] = [label, public_key];
    proof {
        reveal_with_fuel(concat_parts, 3);
        assert(concat_parts(part_views(parts@)) =~= label@ + public_key@);
    }
    let hash: [u8; 32] = hash_parts(&parts);
    assert(hash@.subrange(0, 16) =~= hash@.take(16));
    get_array(&hash, 0)
}

/// The server's identity as values.
#[verifier::ext_equal]
pub struct IdentityModel {
    pub seed: Seq<u8>,
    pub public_key: Seq<u8>,
    pub key_id: Seq<u8>,
}

impl IdentityModel {
    /// The identity that a signing seed gives.
    pub open spec fn from_seed(seed: Seq<u8>) -> Self {
        IdentityModel {
            seed,
            public_key: ed25519_public(seed),
            key_id: key_id_of(text("RekaSerdoba server id"), ed25519_public(seed)),
        }
    }
}

/// The server's signing key and what follows from it.
pub struct ServerIdentity {
    seed: Secret,
    public_key: [u8; 32],
    key_id: [u8; 16],
}

impl View for ServerIdentity {
    type V = IdentityModel;

    closed spec fn view(&self) -> IdentityModel {
        IdentityModel {
            seed: self.seed@,
            public_key: self.public_key@,
            key_id: self.key_id@,
        }
    }
}

impl ServerIdentity {
    /// The identity that a signing seed gives.
    pub fn new(seed: [u8; 32]) -> (identity: Self)
        ensures
            identity@ == IdentityModel::from_seed(seed@),
    {
        let public_key: [u8; 32] = ed25519_public_key(&seed);
        let key_id: [u8; 16] = key_id("RekaSerdoba server id".as_bytes(), &public_key);
        ServerIdentity { seed: Secret::new(seed), public_key, key_id }
    }

    /// The signing seed.
    pub fn seed(&self) -> (seed: &[u8; 32])
        ensures
            seed@ == self@.seed,
    {
        self.seed.expose()
    }

    /// The public key.
    pub fn public_key(&self) -> (public_key: &[u8; 32])
        ensures
            public_key@ == self@.public_key,
    {
        &self.public_key
    }

    /// The short name of the public key.
    pub fn key_id(&self) -> (key_id: &[u8; 16])
        ensures
            key_id@ == self@.key_id,
    {
        &self.key_id
    }
}

/// What is known of a client is what it holds, each value under its own name.
pub proof fn clients_are_known_by_their_values(client: Client)
    ensures
        client@.id == client.id@,
        client@.public_key == client.public_key@,
        client@.gate_key == client.gate_key@,
        client@.tunnel_ipv4 == client.tunnel_ipv4@,
        client@.session_lifetime_seconds == client.session_lifetime_seconds,
        client@.bandwidth_bytes_per_second == client.bandwidth_bytes_per_second,
        client@.session_quota_bytes == client.session_quota_bytes,
{
}

/// The server's public key is that of its seed, and its short name is the front of a hash of
/// that key.
pub proof fn identity_follows_from_the_seed(seed: Seq<u8>)
    ensures
        IdentityModel::from_seed(seed).seed == seed,
        IdentityModel::from_seed(seed).public_key == ed25519_public(seed),
        IdentityModel::from_seed(seed).key_id == sha256_of(
            text("RekaSerdoba server id") + ed25519_public(seed),
        ).take(16),
{
}

} // verus!
