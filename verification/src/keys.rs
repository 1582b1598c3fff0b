//! The key schedule of an established session.
use crate::wire::{append, be_bytes, be_bytes_length, get_array, put_u32, put_u64, text, text_of_ascii};
use crate::crypto::{aead_decrypt, aead_encrypt, aead_opened, aead_sealed, wipe};
use crate::error::Error;
use crate::kdf::{
    derived, expand, expand_key, label_fits, label_info, label_info_injective, label_prefix_length,
};
use crate::secret::Secret;
use vstd::prelude::*;

verus! {

/// A traffic key as values.
#[verifier::ext_equal]
pub struct KeyModel {
    pub key: Seq<u8>,
    pub iv: Seq<u8>,
}

/// The nonce of the record with this number: the number, xored into the low 64 bits
/// of the IV.
pub open spec fn nonce_of(iv: Seq<u8>, number: u64) -> Seq<u8> {
    Seq::new(
        12,
        |i: int|
            if i < 4 {
                iv[i]
            } else {
                iv[i] ^ be_bytes(number as nat, 8)[i - 4]
            },
    )
}

/// Under one IV no two numbers have the same nonce.
pub proof fn nonces_differ(iv: Seq<u8>, a: u64, b: u64)
    requires
        a != b,
    ensures
        nonce_of(iv, a) != nonce_of(iv, b),
{
    if nonce_of(iv, a) == nonce_of(iv, b) {
        let x = be_bytes(a as nat, 8);
        let y = be_bytes(b as nat, 8);
        be_bytes_length(a as nat, 8);
        be_bytes_length(b as nat, 8);
        assert forall|i: int| 0 <= i < 8 implies x[i] == y[i] by {
            assert(nonce_of(iv, a)[i + 4] == nonce_of(iv, b)[i + 4]);
            let v = iv[i + 4];
            let p = x[i];
            let q = y[i];
            assert(p == q) by (bit_vector)
                requires
                    v ^ p == v ^ q,
            ;
        }
        assert(x =~= y);
        reveal_with_fuel(crate::wire::be_limit, 9);
        crate::wire::be_bytes_injective(a as nat, b as nat, 8);
    }
}

/// Mixes a packet number into an IV.
pub fn nonce(iv: &[u8; 12], number: u64) -> (out: [u8; 12])
    ensures
        out@ == nonce_of(iv@, number),
{
    let mut out: [u8; 12] = *iv;
    let mut bytes: Vec<u8> = Vec::new();
    put_u64(&mut bytes, number);
    proof {
        be_bytes_length(number as nat, 8);
        assert(bytes@ =~= be_bytes(number as nat, 8));
    }
    for i in 0..8usize
        invariant
            bytes@ == be_bytes(number as nat, 8),
            bytes@.len() == 8,
            forall|j: int|
                0 <= j < 12 ==> #[trigger] out@[j] == if 4 <= j < 4 + i {
                    iv@[j] ^ bytes@[j - 4]
                } else {
                    iv@[j]
                },
    {
        out[4 + i] = out[4 + i] ^ bytes[i];
    }
    assert(out@ =~= nonce_of(iv@, number));
    out
}

/// The key that a secret gives for one purpose.
pub open spec fn traffic_key(prk: Seq<u8>, purpose: Seq<u8>, context: Seq<u8>) -> KeyModel {
    KeyModel {
        key: derived(prk, purpose + text(" key"), context, 32),
        iv: derived(prk, purpose + text(" iv"), context, 12),
    }
}

/// Encrypts one direction of one stream in one epoch. The key is erased when it is
/// dropped.
pub struct TrafficKey {
    key: [u8; 32],
    iv: [u8; 12],
}

impl View for TrafficKey {
    type V = KeyModel;

    closed spec fn view(&self) -> KeyModel {
        KeyModel { key: self.key@, iv: self.iv@ }
    }
}

impl Drop for TrafficKey {
    fn drop(&mut self)
        opens_invariants none
        no_unwind
    {
        wipe(&mut self.key);
        wipe(&mut self.iv);
    }
}

impl TrafficKey {
    /// Derives the key for one purpose.
    pub fn derive(prk: &[u8; 32], purpose: &[u8], context: &[u8]) -> (key: Result<Self, Error>)
        ensures
            key is Ok <==> label_fits(purpose@ + text(" key"), context@, 32),
            key is Ok ==> key->Ok_0@ == traffic_key(prk@, purpose@, context@),
            key is Err ==> key->Err_0 == Error::HkdfInputTooLarge,
    {
        proof {
            reveal_strlit(" key");
            reveal_strlit(" iv");
            text_of_ascii(" key");
            text_of_ascii(" iv");
        }
        let mut key_label: Vec<u8> = Vec::new();
        append(&mut key_label, purpose);
        append(&mut key_label, " key".as_bytes());
        let mut iv_label: Vec<u8> = Vec::new();
        append(&mut iv_label, purpose);
        append(&mut iv_label, " iv".as_bytes());
        assert(key_label@ =~= purpose@ + text(" key"));
        assert(iv_label@ =~= purpose@ + text(" iv"));
        let key: [u8; 32] = expand_key(prk, &key_label, context)?;
        let output = expand(prk, &iv_label, context, 12)?;
        let iv: [u8; 12] = get_array(&output, 0);
        assert(output@.subrange(0, 12) =~= output@);
        Ok(TrafficKey { key, iv })
    }

    /// The cipher key.
    pub fn key(&self) -> (key: &[u8; 32])
        ensures
            key@ == self@.key,
    {
        &self.key
    }

    /// The IV.
    pub fn iv(&self) -> (iv: &[u8; 12])
        ensures
            iv@ == self@.iv,
    {
        &self.iv
    }

    /// Encrypts the record with this number.
    pub(crate) fn seal(&self, number: u64, header: &[u8], plaintext: &[u8]) -> (out: Result<
        Vec<u8>,
        Error,
    >)
        requires
            plaintext@.len() <= 0xffff,
        ensures
            out is Ok,
            out->Ok_0@ == aead_sealed(self@.key, nonce_of(self@.iv, number), header@, plaintext@),
            out->Ok_0@.len() == plaintext@.len() + 16,
            aead_opened(self@.key, nonce_of(self@.iv, number), header@, out->Ok_0@) == Some(
                plaintext@,
            ),
    {
        let nonce: [u8; 12] = nonce(&self.iv, number);
        match aead_encrypt(&self.key, &nonce, header, plaintext) {
            Some(ciphertext) => Ok(ciphertext),
            None => Err(Error::RecordEncryptionFailed),
        }
    }

    /// Decrypts the record with this number.
    pub(crate) fn open(&self, number: u64, header: &[u8], ciphertext: &[u8]) -> (out: Result<
        Vec<u8>,
        Error,
    >)
        requires
            ciphertext@.len() <= 0xffff,
        ensures
            match out {
                Ok(plaintext) => aead_opened(
                    self@.key,
                    nonce_of(self@.iv, number),
                    header@,
                    ciphertext@,
                ) == Some(plaintext@) && ciphertext@.len() == plaintext@.len() + 16,
                Err(error) => error == Error::RecordAuthenticationFailed && aead_opened(
                    self@.key,
                    nonce_of(self@.iv, number),
                    header@,
                    ciphertext@,
                ) is None,
            },
    {
        let nonce: [u8; 12] = nonce(&self.iv, number);
        match aead_decrypt(&self.key, &nonce, header, ciphertext) {
            Some(plaintext) => Ok(plaintext),
            None => Err(Error::RecordAuthenticationFailed),
        }
    }
}

/// The context that binds a key to its session and its epoch.
pub open spec fn epoch_context(session_id: Seq<u8>, epoch: u32) -> Seq<u8> {
    session_id + be_bytes(epoch as nat, 4)
}

/// Writes the context of an epoch.
pub fn epoch_context_bytes(session_id: &[u8; 16], epoch: u32) -> (context: Vec<u8>)
    ensures
        context@ == epoch_context(session_id@, epoch),
        context@.len() == 20,
{
    let mut context: Vec<u8> = Vec::new();
    append(&mut context, session_id);
    put_u32(&mut context, epoch);
    proof {
        be_bytes_length(epoch as nat, 4);
        assert(context@ =~= epoch_context(session_id@, epoch));
    }
    context
}

/// The keys of an epoch as values.
#[verifier::ext_equal]
pub struct EpochKeysModel {
    pub c2s_data: KeyModel,
    pub s2c_data: KeyModel,
    pub c2s_control: KeyModel,
    pub s2c_control: KeyModel,
}

/// The four keys of an epoch.
pub open spec fn epoch_keys(secret: Seq<u8>, session_id: Seq<u8>, epoch: u32) -> EpochKeysModel {
    let context = epoch_context(session_id, epoch);
    EpochKeysModel {
        c2s_data: traffic_key(secret, text("data c2s"), context),
        s2c_data: traffic_key(secret, text("data s2c"), context),
        c2s_control: traffic_key(secret, text("control c2s"), context),
        s2c_control: traffic_key(secret, text("control s2c"), context),
    }
}

/// The info string that a traffic key's cipher key comes from.
pub open spec fn key_info(purpose: Seq<u8>, context: Seq<u8>) -> Seq<u8> {
    label_info(purpose + text(" key"), context, 32)
}

/// The info string that a traffic key's IV comes from.
pub open spec fn iv_info(purpose: Seq<u8>, context: Seq<u8>) -> Seq<u8> {
    label_info(purpose + text(" iv"), context, 12)
}

/// Key separation: whatever is derived from one secret for two purposes or in two
/// contexts comes from two different info strings, and a cipher key never shares
/// its info string with an IV.
pub proof fn traffic_keys_are_separated(
    purpose1: Seq<u8>,
    context1: Seq<u8>,
    purpose2: Seq<u8>,
    context2: Seq<u8>,
)
    requires
        label_fits(purpose1 + text(" key"), context1, 32),
        label_fits(purpose2 + text(" key"), context2, 32),
    ensures
        purpose1 != purpose2 || context1 != context2 ==> key_info(purpose1, context1) != key_info(
            purpose2,
            context2,
        ) && iv_info(purpose1, context1) != iv_info(purpose2, context2),
        key_info(purpose1, context1) != iv_info(purpose2, context2),
{
    reveal_strlit(" key");
    reveal_strlit(" iv");
    text_of_ascii(" key");
    text_of_ascii(" iv");
    let n1 = purpose1.len() as int;
    let n2 = purpose2.len() as int;
    if key_info(purpose1, context1) == iv_info(purpose2, context2) {
        label_info_injective(
            purpose1 + text(" key"),
            context1,
            32,
            purpose2 + text(" iv"),
            context2,
            12,
        );
    }
    if key_info(purpose1, context1) == key_info(purpose2, context2) {
        label_info_injective(
            purpose1 + text(" key"),
            context1,
            32,
            purpose2 + text(" key"),
            context2,
            32,
        );
        assert((purpose1 + text(" key")).take(n1) =~= purpose1);
        assert((purpose2 + text(" key")).take(n2) =~= purpose2);
    }
    if iv_info(purpose1, context1) == iv_info(purpose2, context2) {
        label_info_injective(
            purpose1 + text(" iv"),
            context1,
            12,
            purpose2 + text(" iv"),
            context2,
            12,
        );
        assert((purpose1 + text(" iv")).take(n1) =~= purpose1);
        assert((purpose2 + text(" iv")).take(n2) =~= purpose2);
    }
}

/// The context tells sessions and epochs apart.
pub proof fn epoch_contexts_differ(
    session1: Seq<u8>,
    epoch1: u32,
    session2: Seq<u8>,
    epoch2: u32,
)
    requires
        session1.len() == 16,
        session2.len() == 16,
        session1 != session2 || epoch1 != epoch2,
    ensures
        epoch_context(session1, epoch1) != epoch_context(session2, epoch2),
{
    let c1 = epoch_context(session1, epoch1);
    let c2 = epoch_context(session2, epoch2);
    if c1 == c2 {
        be_bytes_length(epoch1 as nat, 4);
        be_bytes_length(epoch2 as nat, 4);
        assert(c1.take(16) =~= session1 && c2.take(16) =~= session2);
        assert(c1.skip(16) =~= be_bytes(epoch1 as nat, 4));
        assert(c2.skip(16) =~= be_bytes(epoch2 as nat, 4));
        reveal_with_fuel(crate::wire::be_limit, 5);
        crate::wire::be_bytes_injective(epoch1 as nat, epoch2 as nat, 4);
    }
}

/// The four purposes of an epoch's keys are four different texts, and each fits
/// into a label.
pub proof fn purposes_differ(session_id: Seq<u8>, epoch: u32)
    requires
        session_id.len() == 16,
    ensures
        text("data c2s") != text("data s2c"),
        text("data c2s") != text("control c2s"),
        text("data c2s") != text("control s2c"),
        text("data s2c") != text("control c2s"),
        text("data s2c") != text("control s2c"),
        text("control c2s") != text("control s2c"),
        label_fits(text("data c2s") + text(" key"), epoch_context(session_id, epoch), 32),
        label_fits(text("data s2c") + text(" key"), epoch_context(session_id, epoch), 32),
        label_fits(text("control c2s") + text(" key"), epoch_context(session_id, epoch), 32),
        label_fits(text("control s2c") + text(" key"), epoch_context(session_id, epoch), 32),
{
    label_prefix_length();
    be_bytes_length(epoch as nat, 4);
    reveal_strlit(" key");
    text_of_ascii(" key");
    reveal_strlit("data c2s");
    reveal_strlit("data s2c");
    reveal_strlit("control c2s");
    reveal_strlit("control s2c");
    text_of_ascii("data c2s");
    text_of_ascii("data s2c");
    text_of_ascii("control c2s");
    text_of_ascii("control s2c");
    assert(text("data c2s")[5] != text("data s2c")[5]);
    assert(text("control c2s")[8] != text("control s2c")[8]);
    assert(text("data c2s").len() != text("control c2s").len());
    assert(text("data s2c").len() != text("control c2s").len());
    assert(text("data c2s").len() != text("control s2c").len());
    assert(text("data s2c").len() != text("control s2c").len());
}

/// The traffic keys of one epoch: two streams in two directions.
pub struct EpochKeys {
    pub c2s_data: TrafficKey,
    pub s2c_data: TrafficKey,
    pub c2s_control: TrafficKey,
    pub s2c_control: TrafficKey,
}

impl View for EpochKeys {
    type V = EpochKeysModel;

    open spec fn view(&self) -> EpochKeysModel {
        EpochKeysModel {
            c2s_data: self.c2s_data@,
            s2c_data: self.s2c_data@,
            c2s_control: self.c2s_control@,
            s2c_control: self.s2c_control@,
        }
    }
}

impl EpochKeys {
    /// Derives the keys of an epoch from its secret.
    pub fn derive(epoch_secret: [u8; 32], session_id: [u8; 16], epoch: u32) -> (keys: Result<
        Self,
        Error,
    >)
        ensures
            keys is Ok,
            keys->Ok_0@ == epoch_keys(epoch_secret@, session_id@, epoch),
    {
        let context = epoch_context_bytes(&session_id, epoch);
        proof {
            purposes_differ(session_id@, epoch);
        }
        Ok(
            EpochKeys {
                c2s_data: TrafficKey::derive(&epoch_secret, "data c2s".as_bytes(), &context)?,
                s2c_data: TrafficKey::derive(&epoch_secret, "data s2c".as_bytes(), &context)?,
                c2s_control: TrafficKey::derive(&epoch_secret, "control c2s".as_bytes(), &context)?,
                s2c_control: TrafficKey::derive(&epoch_secret, "control s2c".as_bytes(), &context)?,
            },
        )
    }
}

/// The secrets that a completed handshake gives.
pub struct ApplicationSecrets {
    pub epoch_secret: Secret,
    pub migration: Secret,
    pub resumption: Secret,
    pub exporter: Secret,
    pub epoch: EpochKeys,
}

/// The secret from which all secrets of a session come.
pub open spec fn master_secret(handshake_secret: Seq<u8>, transcript: Seq<u8>) -> Seq<u8> {
    derived(handshake_secret, text("master secret"), transcript, 32)
}

impl ApplicationSecrets {
    /// What the secrets are, given the handshake's secret and its transcript.
    pub open spec fn derived_from(
        &self,
        handshake_secret: Seq<u8>,
        transcript: Seq<u8>,
        session_id: Seq<u8>,
    ) -> bool {
        let master = master_secret(handshake_secret, transcript);
        &&& self.epoch_secret@ == derived(master, text("epoch root"), transcript, 32)
        &&& self.migration@ == derived(master, text("migration"), transcript, 32)
        &&& self.resumption@ == derived(master, text("resumption"), transcript, 32)
        &&& self.exporter@ == derived(master, text("exporter"), transcript, 32)
        &&& self.epoch@ == epoch_keys(self.epoch_secret@, session_id, 0)
    }

    /// Derives the secrets of a session at the end of its handshake.
    pub fn derive(
        handshake_secret: &[u8; 32],
        transcript: &[u8; 32],
        session_id: [u8; 16],
    ) -> (secrets: Result<Self, Error>)
        ensures
            secrets is Ok,
            secrets->Ok_0.derived_from(handshake_secret@, transcript@, session_id@),
    {
        proof {
            label_prefix_length();
            reveal_strlit("master secret");
            reveal_strlit("epoch root");
            reveal_strlit("migration");
            reveal_strlit("resumption");
            reveal_strlit("exporter");
            text_of_ascii("master secret");
            text_of_ascii("epoch root");
            text_of_ascii("migration");
            text_of_ascii("resumption");
            text_of_ascii("exporter");
        }
        let master = Secret::new(
            expand_key(handshake_secret, "master secret".as_bytes(), transcript)?,
        );
        let prk = master.expose();
        let epoch_secret = Secret::new(expand_key(prk, "epoch root".as_bytes(), transcript)?);
        let migration = Secret::new(expand_key(prk, "migration".as_bytes(), transcript)?);
        let resumption = Secret::new(expand_key(prk, "resumption".as_bytes(), transcript)?);
        let exporter = Secret::new(expand_key(prk, "exporter".as_bytes(), transcript)?);
        let epoch = EpochKeys::derive(*epoch_secret.expose(), session_id, 0)?;
        Ok(ApplicationSecrets { epoch_secret, migration, resumption, exporter, epoch })
    }
}

} // verus!
