//! The handshake of a session step by step, and the session that it establishes.
use crate::client::{Client, ClientModel, IdentityModel, ServerIdentity};
use crate::crypto::{
    ct_eq, ed25519_public, ed25519_sign, ed25519_signature, ed25519_verified, hkdf_extract,
    hkdf_extracted, hmac_of, random_bytes, secret_is_shared, sha256, sha256_of, x25519_agree,
    x25519_public, x25519_public_key, x25519_random_secret, x25519_shared,
};
use crate::error::Error;
use crate::fragment::{FragmentReassembler, ReassemblerModel};
use crate::handshake::{
    assigned_parameters, auth_problem, clear_message, encode_handshake, first_transcript,
    handshake_opened, handshake_sealed, hello_is_judged_by_its_bytes, hello_of, open_handshake,
    parameters_of,
    parse_client_hello, seal_handshake, transcript_initial, verify_client_auth, HelloModel,
    CIPHER_SUITE, MAX_CLEAR_HANDSHAKE, PROTOCOL_VERSION,
};
use crate::kdf::{
    concat_parts, derived, expand, expand_key, hash_parts, hmac_bytes, label_prefix_length,
    part_views, transcript_after, transcript_next,
};
use crate::keys::{epoch_keys, master_secret, ApplicationSecrets};
use crate::rekey::{RekeySession, SessionModel};
use crate::secret::Secret;
use crate::session::{PolicyModel, SessionPolicy};
use crate::wire::{
    append, be_bytes, be_bytes_length, get_array, numbers_are_written_big_endian, put_u16, put_u32,
    text, text_of_ascii,
};
use vstd::prelude::*;
use vstd::slice::slice_subrange;

verus! {

/// The server's first message without its signature.
pub open spec fn hello_fields(
    hello: HelloModel,
    server_ephemeral: Seq<u8>,
    server_nonce: Seq<u8>,
    key_id: Seq<u8>,
    server_time: u32,
) -> Seq<u8> {
    be_bytes(PROTOCOL_VERSION as nat, 2) + be_bytes(CIPHER_SUITE as nat, 2) + hello.handshake_id
        + server_ephemeral + server_nonce + key_id + be_bytes(server_time as nat, 4) + be_bytes(
        0,
        2,
    )
}

/// What the server signs: the transcript so far, its own fields, and whom it answers.
pub open spec fn server_signature_input(
    hello: HelloModel,
    t1: Seq<u8>,
    fields: Seq<u8>,
) -> Seq<u8> {
    sha256_of(
        text("RekaSerdoba/1 server signature") + t1 + sha256_of(fields) + hello.client_id
            + hello.handshake_id,
    )
}

/// A handshake whose server has answered the client's first message, as values.
#[verifier::ext_equal]
pub struct AnsweredModel {
    pub client_ephemeral: Seq<u8>,
    pub client_nonce: Seq<u8>,
    pub server_secret: Seq<u8>,
    pub server_nonce: Seq<u8>,
    pub server_signature: Seq<u8>,
    /// The transcript with both first messages.
    pub t2: Seq<u8>,
}

/// What a client's first message gives: the state of the handshake, and the answer.
pub open spec fn answered(
    encoded: Seq<u8>,
    identity: IdentityModel,
    client: ClientModel,
    unix_now: u64,
    server_secret: Seq<u8>,
    server_nonce: Seq<u8>,
) -> Result<(AnsweredModel, Seq<u8>), Error> {
    if encoded.len() > MAX_CLEAR_HANDSHAKE {
        Err(Error::ClientHelloTooLarge)
    } else {
        match hello_of(encoded, unix_now) {
            Err(error) => Err(error),
            Ok(hello) => if hello.client_id != client.id {
                Err(Error::ClientSelectorMismatch)
            } else {
                let t1 = transcript_after(first_transcript(), encoded);
                let fields = hello_fields(
                    hello,
                    x25519_public(server_secret),
                    server_nonce,
                    identity.key_id,
                    (unix_now % 0x1_0000_0000) as u32,
                );
                let signature = ed25519_signature(
                    identity.seed,
                    server_signature_input(hello, t1, fields),
                );
                let answer = clear_message(0x03, fields + signature);
                Ok(
                    (
                        AnsweredModel {
                            client_ephemeral: hello.client_ephemeral,
                            client_nonce: hello.client_nonce,
                            server_secret,
                            server_nonce,
                            server_signature: signature,
                            t2: transcript_after(t1, answer),
                        },
                        answer,
                    ),
                )
            },
        }
    }
}

/// The keys of a handshake as values.
#[verifier::ext_equal]
pub struct HandshakeKeysModel {
    pub secret: Seq<u8>,
    pub client_key: Seq<u8>,
    pub client_iv: Seq<u8>,
    pub server_key: Seq<u8>,
    pub server_iv: Seq<u8>,
    pub client_finished: Seq<u8>,
    pub server_finished: Seq<u8>,
}

/// The keys that follow from a handshake's secret and its transcript.
pub open spec fn handshake_keys(secret: Seq<u8>, t2: Seq<u8>) -> HandshakeKeysModel {
    HandshakeKeysModel {
        secret,
        client_key: derived(secret, text("client handshake key"), t2, 32),
        client_iv: derived(secret, text("client handshake iv"), t2, 12),
        server_key: derived(secret, text("server handshake key"), t2, 32),
        server_iv: derived(secret, text("server handshake iv"), t2, 12),
        client_finished: derived(secret, text("client finished"), t2, 32),
        server_finished: derived(secret, text("server finished"), t2, 32),
    }
}

/// A handshake that waits for the client's proof of identity, as values.
#[verifier::ext_equal]
pub struct AwaitingAuthModel {
    pub keys: HandshakeKeysModel,
    pub server_signature: Seq<u8>,
    pub t2: Seq<u8>,
}

/// The keys that both sides agree on. A shared secret of zeros is refused.
pub open spec fn agreed(state: AnsweredModel) -> Result<AwaitingAuthModel, Error> {
    let shared = x25519_shared(state.server_secret, state.client_ephemeral);
    if shared == Seq::new(32, |i: int| 0u8) {
        Err(Error::ZeroSharedSecret)
    } else {
        let salt = sha256_of(
            text("RekaSerdoba/1 handshake extract") + state.client_nonce + state.server_nonce
                + state.t2,
        );
        Ok(
            AwaitingAuthModel {
                keys: handshake_keys(hkdf_extracted(salt, shared), state.t2),
                server_signature: state.server_signature,
                t2: state.t2,
            },
        )
    }
}

/// A handshake that waits for the client's confirmation, as values.
#[verifier::ext_equal]
pub struct AwaitingConfirmModel {
    pub keys: HandshakeKeysModel,
    pub session_id: Seq<u8>,
    pub t4: Seq<u8>,
}

/// The server's tag on the parameters of a session.
pub open spec fn server_finish_tag(
    keys: HandshakeKeysModel,
    t3: Seq<u8>,
    parameters: Seq<u8>,
) -> Seq<u8> {
    hmac_of(
        keys.server_finished,
        sha256_of(text("RekaSerdoba/1 server finished") + t3 + sha256_of(parameters)),
    )
}

/// What a client's proof of identity gives: the parameters of a session, encrypted.
pub open spec fn authenticated(
    state: AwaitingAuthModel,
    encrypted: Seq<u8>,
    identity: IdentityModel,
    client: ClientModel,
    session_id: Seq<u8>,
) -> Result<(AwaitingConfirmModel, Seq<u8>), Error> {
    match handshake_opened(
        state.keys.client_key,
        state.keys.client_iv,
        0x04,
        0,
        state.t2,
        encrypted,
    ) {
        Err(error) => Err(error),
        Ok(plaintext) => match auth_problem(
            plaintext,
            client,
            state.t2,
            state.server_signature,
            identity.public_key,
            state.keys.client_finished,
        ) {
            Some(error) => Err(error),
            None => {
                let t3 = transcript_after(state.t2, encrypted);
                let parameters = parameters_of(
                    session_id,
                    client.tunnel_ipv4,
                    client.session_lifetime_seconds,
                );
                let finish = handshake_sealed(
                    state.keys.server_key,
                    state.keys.server_iv,
                    0x05,
                    0,
                    t3,
                    parameters + server_finish_tag(state.keys, t3, parameters),
                );
                Ok(
                    (
                        AwaitingConfirmModel {
                            keys: state.keys,
                            session_id,
                            t4: transcript_after(t3, finish),
                        },
                        finish,
                    ),
                )
            },
        },
    }
}

/// A session as values.
pub struct EstablishedModel {
    pub session_id: Seq<u8>,
    pub crypto: SessionModel,
    /// The incomplete packets of the current epoch.
    pub fragments: ReassemblerModel,
    /// The incomplete packets of the epoch before.
    pub old_fragments: ReassemblerModel,
    pub policy: PolicyModel,
    pub migration_secret: Seq<u8>,
    pub resumption_secret: Seq<u8>,
    pub exporter_secret: Seq<u8>,
}

/// The session that a complete handshake establishes.
pub open spec fn established(
    handshake_secret: Seq<u8>,
    t5: Seq<u8>,
    session_id: Seq<u8>,
    client: ClientModel,
    now: u64,
) -> EstablishedModel {
    let master = master_secret(handshake_secret, t5);
    let epoch_secret = derived(master, text("epoch root"), t5, 32);
    EstablishedModel {
        session_id,
        crypto: SessionModel::starting(
            session_id,
            epoch_secret,
            epoch_keys(epoch_secret, session_id, 0),
            t5,
            now,
        ),
        fragments: ReassemblerModel::empty(),
        old_fragments: ReassemblerModel::empty(),
        policy: PolicyModel::fresh(
            client.session_lifetime_seconds,
            client.bandwidth_bytes_per_second,
            client.session_quota_bytes,
            now,
        ),
        migration_secret: derived(master, text("migration"), t5, 32),
        resumption_secret: derived(master, text("resumption"), t5, 32),
        exporter_secret: derived(master, text("exporter"), t5, 32),
    }
}

/// What a client's confirmation gives.
pub open spec fn confirmed(
    state: AwaitingConfirmModel,
    encrypted: Seq<u8>,
    client: ClientModel,
    now: u64,
) -> Result<EstablishedModel, Error> {
    match handshake_opened(
        state.keys.client_key,
        state.keys.client_iv,
        0x06,
        1,
        state.t4,
        encrypted,
    ) {
        Err(error) => Err(error),
        Ok(plaintext) => if plaintext.len() != 48 || plaintext.subrange(0, 16) != state.session_id {
            Err(Error::InvalidClientFinish)
        } else if plaintext.subrange(16, 48) != hmac_of(
            state.keys.client_finished,
            sha256_of(text("RekaSerdoba/1 client confirm") + state.t4 + state.session_id),
        ) {
            Err(Error::InvalidClientConfirmation)
        } else if client.session_lifetime_seconds < 60 || client.session_lifetime_seconds > 86400 {
            Err(Error::InvalidSessionLifetime)
        } else if client.bandwidth_bytes_per_second < 1024 || client.bandwidth_bytes_per_second
            > 0x4000_0000 {
            Err(Error::InvalidSessionBandwidth)
        } else {
            Ok(
                established(
                    state.keys.secret,
                    transcript_after(state.t4, encrypted),
                    state.session_id,
                    client,
                    now,
                ),
            )
        },
    }
}

/// The server establishes no session but with a client that has proved who it is and
/// confirmed the parameters: the proof of identity was taken, and the confirmation
/// bears the id of the session and the right tag.
pub proof fn session_needs_proof_and_confirmation(
    state: AwaitingAuthModel,
    auth: Seq<u8>,
    identity: IdentityModel,
    client: ClientModel,
    session_id: Seq<u8>,
    confirmation: Seq<u8>,
    now: u64,
)
    requires
        authenticated(state, auth, identity, client, session_id) is Ok,
        confirmed(
            authenticated(state, auth, identity, client, session_id)->Ok_0.0,
            confirmation,
            client,
            now,
        ) is Ok,
    ensures
        ({
            let plaintext = handshake_opened(
                state.keys.client_key,
                state.keys.client_iv,
                0x04,
                0,
                state.t2,
                auth,
            );
            let next = authenticated(state, auth, identity, client, session_id)->Ok_0.0;
            let answer = handshake_opened(
                state.keys.client_key,
                state.keys.client_iv,
                0x06,
                1,
                next.t4,
                confirmation,
            );
            &&& plaintext is Ok
            &&& auth_problem(
                plaintext->Ok_0,
                client,
                state.t2,
                state.server_signature,
                identity.public_key,
                state.keys.client_finished,
            ) is None
            &&& answer is Ok
            &&& answer->Ok_0 == session_id + hmac_of(
                state.keys.client_finished,
                sha256_of(text("RekaSerdoba/1 client confirm") + next.t4 + session_id),
            )
        }),
{
    let next = authenticated(state, auth, identity, client, session_id)->Ok_0.0;
    let answer = handshake_opened(
        state.keys.client_key,
        state.keys.client_iv,
        0x06,
        1,
        next.t4,
        confirmation,
    )->Ok_0;
    assert(answer =~= answer.subrange(0, 16) + answer.subrange(16, 48));
}

/// A handshake completes: once the client's proof of identity was taken, the
/// confirmation with the right tag establishes the session, whose secrets depend on
/// every message that was exchanged.
pub proof fn confirmed_handshake_completes(
    state: AwaitingConfirmModel,
    confirmation: Seq<u8>,
    client: ClientModel,
    now: u64,
)
    requires
        state.session_id.len() == 16,
        60 <= client.session_lifetime_seconds <= 86400,
        1024 <= client.bandwidth_bytes_per_second <= 0x4000_0000,
        ({
            let tag = hmac_of(
                state.keys.client_finished,
                sha256_of(text("RekaSerdoba/1 client confirm") + state.t4 + state.session_id),
            );
            &&& tag.len() == 32
            &&& handshake_opened(
                state.keys.client_key,
                state.keys.client_iv,
                0x06,
                1,
                state.t4,
                confirmation,
            ) == Ok::<Seq<u8>, Error>(state.session_id + tag)
        }),
    ensures
        confirmed(state, confirmation, client, now) == Ok::<EstablishedModel, Error>(
            established(
                state.keys.secret,
                transcript_after(state.t4, confirmation),
                state.session_id,
                client,
                now,
            ),
        ),
{
    let tag = hmac_of(
        state.keys.client_finished,
        sha256_of(text("RekaSerdoba/1 client confirm") + state.t4 + state.session_id),
    );
    let plaintext = state.session_id + tag;
    assert(plaintext.subrange(0, 16) =~= state.session_id);
    assert(plaintext.subrange(16, 48) =~= tag);
}

/// A handshake whose server has answered the client's first message.
pub struct AnsweredHandshake {
    client_ephemeral: [u8; 32],
    client_nonce: [u8; 32],
    server_secret: Secret,
    server_nonce: [u8; 32],
    server_signature: [u8; 64],
    t2: [u8; 32],
}

impl View for AnsweredHandshake {
    type V = AnsweredModel;

    closed spec fn view(&self) -> AnsweredModel {
        AnsweredModel {
            client_ephemeral: self.client_ephemeral@,
            client_nonce: self.client_nonce@,
            server_secret: self.server_secret@,
            server_nonce: self.server_nonce@,
            server_signature: self.server_signature@,
            t2: self.t2@,
        }
    }
}

/// Answers a client's first message, with a secret and a nonce that were drawn for it.
/// The answer bears a signature that verifies under the server's public key.
pub fn answer_hello_with(
    client_hello: &[u8],
    identity: &ServerIdentity,
    client: &Client,
    unix_now: u64,
    server_secret: [u8; 32],
    server_nonce: [u8; 32],
) -> (answer: Result<(AnsweredHandshake, Vec<u8>), Error>)
    ensures
        match answer {
            Ok((state, message)) => answered(
                client_hello@,
                identity@,
                client@,
                unix_now,
                server_secret@,
                server_nonce@,
            ) == Ok::<(AnsweredModel, Seq<u8>), Error>((state@, message@)) && ed25519_verified(
                ed25519_public(identity@.seed),
                server_signature_input(
                    hello_of(client_hello@, unix_now)->Ok_0,
                    transcript_after(first_transcript(), client_hello@),
                    message@.subrange(5, message@.len() - 64),
                ),
                message@.skip(message@.len() - 64),
            ),
            Err(error) => answered(
                client_hello@,
                identity@,
                client@,
                unix_now,
                server_secret@,
                server_nonce@,
            ) == Err::<(AnsweredModel, Seq<u8>), Error>(error),
        },
{
    if client_hello.len() > MAX_CLEAR_HANDSHAKE {
        return Err(Error::ClientHelloTooLarge);
    }
    let hello = parse_client_hello(client_hello, unix_now)?;
    if !ct_eq(&hello.client_id, &client.id) {
        return Err(Error::ClientSelectorMismatch);
    }
    let t0: [u8; 32] = transcript_initial();
    let t1: [u8; 32] = transcript_next(&t0, client_hello);
    let server_ephemeral: [u8; 32] = x25519_public_key(&server_secret);
    let server_time: u32 = (unix_now % 0x1_0000_0000) as u32;
    let mut fields: Vec<u8> = Vec::new();
    put_u16(&mut fields, PROTOCOL_VERSION);
    put_u16(&mut fields, CIPHER_SUITE);
    append(&mut fields, &hello.handshake_id);
    append(&mut fields, &server_ephemeral);
    append(&mut fields, &server_nonce);
    append(&mut fields, identity.key_id());
    put_u32(&mut fields, server_time);
    put_u16(&mut fields, 0);
    proof {
        be_bytes_length(PROTOCOL_VERSION as nat, 2);
        be_bytes_length(CIPHER_SUITE as nat, 2);
        be_bytes_length(server_time as nat, 4);
        be_bytes_length(0, 2);
        assert(fields@ =~= hello_fields(
            hello@,
            server_ephemeral@,
            server_nonce@,
            identity@.key_id,
            server_time,
        ));
    }
    let fields_hash: [u8; 32] = sha256(&fields);
    let parts: [&[u8]; 5] = [
        "RekaSerdoba/1 server signature".as_bytes(),
        &t1,
        &fields_hash,
        &hello.client_id,
        &hello.handshake_id,
    ];
    proof {
        reveal_with_fuel(concat_parts, 6);
        assert(concat_parts(part_views(parts@)) =~= text("RekaSerdoba/1 server signature") + t1@
            + fields_hash@ + hello@.client_id + hello@.handshake_id);
    }
    let signature_input: [u8; 32] = hash_parts(&parts);
    let signature: [u8; 64] = ed25519_sign(identity.seed(), &signature_input);
    let mut payload: Vec<u8> = Vec::new();
    append(&mut payload, &fields);
    append(&mut payload, &signature);
    assert(payload@ =~= fields@ + signature@);
    let message = encode_handshake(0x03, &payload)?;
    proof {
        be_bytes_length(payload@.len(), 4);
        assert(message@.subrange(5, message@.len() - 64) =~= fields@);
        assert(message@.skip(message@.len() - 64) =~= signature@);
    }
    let t2: [u8; 32] = transcript_next(&t1, &message);
    Ok(
        (
            AnsweredHandshake {
                client_ephemeral: hello.client_ephemeral,
                client_nonce: hello.client_nonce,
                server_secret: Secret::new(server_secret),
                server_nonce,
                server_signature: signature,
                t2,
            },
            message,
        ),
    )
}

/// Answers a client's first message, with a secret and a nonce drawn at random.
pub fn answer_hello(
    client_hello: &[u8],
    identity: &ServerIdentity,
    client: &Client,
    unix_now: u64,
) -> (answer: Result<(AnsweredHandshake, Vec<u8>), Error>)
    ensures
        exists|server_secret: Seq<u8>, server_nonce: Seq<u8>|
            server_secret.len() == 32 && server_nonce.len() == 32 && match answer {
                Ok((state, message)) => #[trigger] answered(
                    client_hello@,
                    identity@,
                    client@,
                    unix_now,
                    server_secret,
                    server_nonce,
                ) == Ok::<(AnsweredModel, Seq<u8>), Error>((state@, message@)),
                Err(error) => answered(
                    client_hello@,
                    identity@,
                    client@,
                    unix_now,
                    server_secret,
                    server_nonce,
                ) == Err::<(AnsweredModel, Seq<u8>), Error>(error),
            },
{
    let server_secret: [u8; 32] = x25519_random_secret();
    let server_nonce: [u8; 32] = random_bytes();
    answer_hello_with(client_hello, identity, client, unix_now, server_secret, server_nonce)
}

/// The keys of a handshake.
struct HandshakeKeys {
    secret: Secret,
    client_key: Secret,
    client_iv: [u8; 12],
    server_key: Secret,
    server_iv: [u8; 12],
    client_finished: Secret,
    server_finished: Secret,
}

impl View for HandshakeKeys {
    type V = HandshakeKeysModel;

    closed spec fn view(&self) -> HandshakeKeysModel {
        HandshakeKeysModel {
            secret: self.secret@,
            client_key: self.client_key@,
            client_iv: self.client_iv@,
            server_key: self.server_key@,
            server_iv: self.server_iv@,
            client_finished: self.client_finished@,
            server_finished: self.server_finished@,
        }
    }
}

impl HandshakeKeys {
    fn derive(secret: Secret, t2: &[u8; 32]) -> (keys: Result<Self, Error>)
        ensures
            keys is Ok,
            keys->Ok_0@ == handshake_keys(secret@, t2@),
    {
        proof {
            label_prefix_length();
            reveal_strlit("client handshake key");
            reveal_strlit("client handshake iv");
            reveal_strlit("server handshake key");
            reveal_strlit("server handshake iv");
            reveal_strlit("client finished");
            reveal_strlit("server finished");
            text_of_ascii("client handshake key");
            text_of_ascii("client handshake iv");
            text_of_ascii("server handshake key");
            text_of_ascii("server handshake iv");
            text_of_ascii("client finished");
            text_of_ascii("server finished");
        }
        let prk = secret.expose();
        let client_key = Secret::new(expand_key(prk, "client handshake key".as_bytes(), t2)?);
        let server_key = Secret::new(expand_key(prk, "server handshake key".as_bytes(), t2)?);
        let client_iv_bytes = expand(prk, "client handshake iv".as_bytes(), t2, 12)?;
        let server_iv_bytes = expand(prk, "server handshake iv".as_bytes(), t2, 12)?;
        let client_finished = Secret::new(expand_key(prk, "client finished".as_bytes(), t2)?);
        let server_finished = Secret::new(expand_key(prk, "server finished".as_bytes(), t2)?);
        let client_iv: [u8; 12] = get_array(&client_iv_bytes, 0);
        let server_iv: [u8; 12] = get_array(&server_iv_bytes, 0);
        assert(client_iv@ =~= client_iv_bytes@);
        assert(server_iv@ =~= server_iv_bytes@);
        Ok(
            HandshakeKeys {
                secret,
                client_key,
                client_iv,
                server_key,
                server_iv,
                client_finished,
                server_finished,
            },
        )
    }
}

/// A handshake that waits for the client's proof of identity.
pub struct AwaitingAuth {
    keys: HandshakeKeys,
    server_signature: [u8; 64],
    t2: [u8; 32],
}

impl View for AwaitingAuth {
    type V = AwaitingAuthModel;

    closed spec fn view(&self) -> AwaitingAuthModel {
        AwaitingAuthModel {
            keys: self.keys@,
            server_signature: self.server_signature@,
            t2: self.t2@,
        }
    }
}

impl AnsweredHandshake {
    /// Agrees with the client on the keys of the handshake.
    pub fn agree(self) -> (state: Result<AwaitingAuth, Error>)
        ensures
            match state {
                Ok(next) => agreed(self@) == Ok::<AwaitingAuthModel, Error>(next@),
                Err(error) => agreed(self@) == Err::<AwaitingAuthModel, Error>(error),
            },
            secret_is_shared(self@.server_secret, self@.client_ephemeral),
    {
        let shared = Secret::new(
            x25519_agree(self.server_secret.expose(), &self.client_ephemeral),
        );
        let zero: [u8; 32] = [0u8; 32];
        assert(zero@ =~= Seq::new(32, |i: int| 0u8));
        if ct_eq(shared.expose(), &zero) {
            return Err(Error::ZeroSharedSecret);
        }
        let parts: [&[u8]; 4] = [
            "RekaSerdoba/1 handshake extract".as_bytes(),
            &self.client_nonce,
            &self.server_nonce,
            &self.t2,
        ];
        proof {
            reveal_with_fuel(concat_parts, 5);
            assert(concat_parts(part_views(parts@)) =~= text("RekaSerdoba/1 handshake extract")
                + self@.client_nonce + self@.server_nonce + self@.t2);
        }
        let salt: [u8; 32] = hash_parts(&parts);
        let secret = Secret::new(hkdf_extract(&salt, shared.expose()));
        let keys = HandshakeKeys::derive(secret, &self.t2)?;
        Ok(AwaitingAuth { keys, server_signature: self.server_signature, t2: self.t2 })
    }
}

/// A handshake that waits for the client's confirmation.
pub struct AwaitingConfirm {
    keys: HandshakeKeys,
    session_id: [u8; 16],
    t4: [u8; 32],
}

impl View for AwaitingConfirm {
    type V = AwaitingConfirmModel;

    closed spec fn view(&self) -> AwaitingConfirmModel {
        AwaitingConfirmModel {
            keys: self.keys@,
            session_id: self.session_id@,
            t4: self.t4@,
        }
    }
}

impl AwaitingAuth {
    /// Takes the client's proof of identity and assigns the parameters of a session with
    /// the given id.
    pub fn receive_auth_with(
        self,
        encrypted_auth: &[u8],
        identity: &ServerIdentity,
        client: &Client,
        session_id: [u8; 16],
    ) -> (answer: Result<(AwaitingConfirm, Vec<u8>), Error>)
        ensures
            match answer {
                Ok((state, message)) => authenticated(
                    self@,
                    encrypted_auth@,
                    identity@,
                    client@,
                    session_id@,
                ) == Ok::<(AwaitingConfirmModel, Seq<u8>), Error>((state@, message@)),
                Err(error) => authenticated(
                    self@,
                    encrypted_auth@,
                    identity@,
                    client@,
                    session_id@,
                ) == Err::<(AwaitingConfirmModel, Seq<u8>), Error>(error),
            },
    {
        let plaintext = open_handshake(
            self.keys.client_key.expose(),
            &self.keys.client_iv,
            0x04,
            0,
            &self.t2,
            encrypted_auth,
        )?;
        verify_client_auth(
            &plaintext,
            client,
            &self.t2,
            &self.server_signature,
            identity.public_key(),
            self.keys.client_finished.expose(),
        )?;
        let t3: [u8; 32] = transcript_next(&self.t2, encrypted_auth);
        let parameters = assigned_parameters(
            session_id,
            client.tunnel_ipv4,
            client.session_lifetime_seconds,
        );
        let parameters_hash: [u8; 32] = sha256(&parameters);
        let parts: [&[u8]; 3] = [
            "RekaSerdoba/1 server finished".as_bytes(),
            &t3,
            &parameters_hash,
        ];
        proof {
            reveal_with_fuel(concat_parts, 4);
            assert(concat_parts(part_views(parts@)) =~= text("RekaSerdoba/1 server finished") + t3@
                + parameters_hash@);
        }
        let finish_input: [u8; 32] = hash_parts(&parts);
        let tag: [u8; 32] = hmac_bytes(self.keys.server_finished.expose(), &finish_input);
        let mut finish_plain: Vec<u8> = Vec::new();
        append(&mut finish_plain, &parameters);
        append(&mut finish_plain, &tag);
        assert(finish_plain@ =~= parameters@ + tag@);
        let finish = seal_handshake(
            self.keys.server_key.expose(),
            &self.keys.server_iv,
            0x05,
            0,
            &t3,
            &finish_plain,
        )?;
        let t4: [u8; 32] = transcript_next(&t3, &finish);
        Ok((AwaitingConfirm { keys: self.keys, session_id, t4 }, finish))
    }

    /// Takes the client's proof of identity and assigns the parameters of a session with
    /// an id drawn at random.
    pub fn receive_auth(
        self,
        encrypted_auth: &[u8],
        identity: &ServerIdentity,
        client: &Client,
    ) -> (answer: Result<(AwaitingConfirm, Vec<u8>), Error>)
        ensures
            exists|session_id: Seq<u8>|
                session_id.len() == 16 && match answer {
                    Ok((state, message)) => #[trigger] authenticated(
                        self@,
                        encrypted_auth@,
                        identity@,
                        client@,
                        session_id,
                    ) == Ok::<(AwaitingConfirmModel, Seq<u8>), Error>((state@, message@)),
                    Err(error) => authenticated(
                        self@,
                        encrypted_auth@,
                        identity@,
                        client@,
                        session_id,
                    ) == Err::<(AwaitingConfirmModel, Seq<u8>), Error>(error),
                },
    {
        let session_id: [u8; 16] = random_bytes();
        self.receive_auth_with(encrypted_auth, identity, client, session_id)
    }
}

/// A session that a handshake established.
pub struct EstablishedSession {
    pub session_id: [u8; 16],
    pub crypto: RekeySession,
    /// The incomplete packets of the current epoch.
    pub fragments: FragmentReassembler,
    /// The incomplete packets of the epoch before.
    pub old_fragments: FragmentReassembler,
    pub policy: SessionPolicy,
    pub migration_secret: Secret,
    pub resumption_secret: Secret,
    pub exporter_secret: Secret,
}

impl View for EstablishedSession {
    type V = EstablishedModel;

    open spec fn view(&self) -> EstablishedModel {
        EstablishedModel {
            session_id: self.session_id@,
            crypto: self.crypto@,
            fragments: self.fragments@,
            old_fragments: self.old_fragments@,
            policy: self.policy@,
            migration_secret: self.migration_secret@,
            resumption_secret: self.resumption_secret@,
            exporter_secret: self.exporter_secret@,
        }
    }
}

impl EstablishedSession {
    /// All parts of the session are well formed.
    pub open spec fn wf(&self) -> bool {
        self.crypto.wf() && self.fragments.wf() && self.old_fragments.wf() && self.policy@.valid()
    }
}

impl AwaitingConfirm {
    /// Takes the client's confirmation: the session is established.
    pub fn receive_confirm(self, encrypted_confirm: &[u8], client: &Client, now: u64) -> (session:
        Result<EstablishedSession, Error>)
        ensures
            match session {
                Ok(value) => value.wf() && confirmed(
                    self@,
                    encrypted_confirm@,
                    client@,
                    now,
                ) == Ok::<EstablishedModel, Error>(value@),
                Err(error) => confirmed(self@, encrypted_confirm@, client@, now) == Err::<
                    EstablishedModel,
                    Error,
                >(error),
            },
    {
        let plaintext = open_handshake(
            self.keys.client_key.expose(),
            &self.keys.client_iv,
            0x06,
            1,
            &self.t4,
            encrypted_confirm,
        )?;
        if plaintext.len() != 48 || !ct_eq(slice_subrange(&plaintext, 0, 16), &self.session_id) {
            return Err(Error::InvalidClientFinish);
        }
        let parts: [&[u8]; 3] = [
            "RekaSerdoba/1 client confirm".as_bytes(),
            &self.t4,
            &self.session_id,
        ];
        proof {
            reveal_with_fuel(concat_parts, 4);
            assert(concat_parts(part_views(parts@)) =~= text("RekaSerdoba/1 client confirm")
                + self@.t4 + self@.session_id);
        }
        let confirm_input: [u8; 32] = hash_parts(&parts);
        let expected: [u8; 32] = hmac_bytes(self.keys.client_finished.expose(), &confirm_input);
        if !ct_eq(slice_subrange(&plaintext, 16, 48), &expected) {
            return Err(Error::InvalidClientConfirmation);
        }
        let t5: [u8; 32] = transcript_next(&self.t4, encrypted_confirm);
        let secrets = ApplicationSecrets::derive(
            self.keys.secret.expose(),
            &t5,
            self.session_id,
        )?;
        let ApplicationSecrets { epoch_secret, migration, resumption, exporter, epoch } = secrets;
        let crypto = RekeySession::new(self.session_id, epoch_secret, epoch, t5, now)?;
        let policy = SessionPolicy::new(
            client.session_lifetime_seconds,
            client.bandwidth_bytes_per_second,
            client.session_quota_bytes,
            now,
        )?;
        Ok(
            EstablishedSession {
                session_id: self.session_id,
                crypto,
                fragments: FragmentReassembler::new(),
                old_fragments: FragmentReassembler::new(),
                policy,
                migration_secret: migration,
                resumption_secret: resumption,
                exporter_secret: exporter,
            },
        )
    }
}

/// A client's first message is answered exactly where it has at most 1536 bytes, can be read,
/// and names the client that was let in. The handshake goes on with the keys and nonces of
/// both, and with a transcript of both messages; the answer bears the server's signature.
pub proof fn hello_of_the_client_is_answered(
    encoded: Seq<u8>,
    identity: IdentityModel,
    client: ClientModel,
    unix_now: u64,
    server_secret: Seq<u8>,
    server_nonce: Seq<u8>,
)
    ensures
        ({
            let answer = answered(
                encoded,
                identity,
                client,
                unix_now,
                server_secret,
                server_nonce,
            );
            let hello = hello_of(encoded, unix_now);
            let state = answer->Ok_0.0;
            let message = answer->Ok_0.1;
            &&& answer is Ok <==> encoded.len() <= 1536 && hello is Ok && hello->Ok_0.client_id
                == client.id
            &&& answer is Ok ==> {
                &&& state.client_ephemeral == hello->Ok_0.client_ephemeral
                &&& state.client_nonce == hello->Ok_0.client_nonce
                &&& state.server_secret == server_secret
                &&& state.server_nonce == server_nonce
                &&& state.t2 == sha256_of(sha256_of(first_transcript() + encoded) + message)
                &&& message.len() > 0 && message[0] == 0x03
            }
        }),
{
}

/// The handshake goes on unless the shared secret is nothing but zeros; its keys come from
/// that secret, both nonces and the transcript, and each has a label of its own.
pub proof fn keys_come_from_the_shared_secret(state: AnsweredModel)
    ensures
        ({
            let shared = x25519_shared(state.server_secret, state.client_ephemeral);
            let secret = hkdf_extracted(
                sha256_of(
                    text("RekaSerdoba/1 handshake extract") + state.client_nonce
                        + state.server_nonce + state.t2,
                ),
                shared,
            );
            let keys = agreed(state)->Ok_0.keys;
            &&& agreed(state) is Ok <==> shared != Seq::new(32, |i: int| 0u8)
            &&& agreed(state) is Ok ==> {
                &&& keys.secret == secret
                &&& keys.client_key == derived(secret, text("client handshake key"), state.t2, 32)
                &&& keys.client_iv == derived(secret, text("client handshake iv"), state.t2, 12)
                &&& keys.server_key == derived(secret, text("server handshake key"), state.t2, 32)
                &&& keys.server_iv == derived(secret, text("server handshake iv"), state.t2, 12)
                &&& keys.client_finished == derived(secret, text("client finished"), state.t2, 32)
                &&& keys.server_finished == derived(secret, text("server finished"), state.t2, 32)
                &&& agreed(state)->Ok_0.t2 == state.t2
                &&& agreed(state)->Ok_0.server_signature == state.server_signature
            }
        }),
{
}

/// A proof of identity is answered exactly where it can be opened and nothing is wrong with
/// it. The answer tells the client its session, its lifetime and its address, under a tag of
/// the server.
pub proof fn proved_client_gets_its_parameters(
    state: AwaitingAuthModel,
    encrypted: Seq<u8>,
    identity: IdentityModel,
    client: ClientModel,
    session_id: Seq<u8>,
)
    ensures
        ({
            let opened = handshake_opened(
                state.keys.client_key,
                state.keys.client_iv,
                0x04,
                0,
                state.t2,
                encrypted,
            );
            let answer = authenticated(state, encrypted, identity, client, session_id);
            let parameters = parameters_of(
                session_id,
                client.tunnel_ipv4,
                client.session_lifetime_seconds,
            );
            let t3 = sha256_of(state.t2 + encrypted);
            let tag = hmac_of(
                state.keys.server_finished,
                sha256_of(text("RekaSerdoba/1 server finished") + t3 + sha256_of(parameters)),
            );
            &&& answer is Ok <==> opened is Ok && auth_problem(
                opened->Ok_0,
                client,
                state.t2,
                state.server_signature,
                identity.public_key,
                state.keys.client_finished,
            ) is None
            &&& answer is Ok ==> {
                &&& answer->Ok_0.1 == handshake_sealed(
                    state.keys.server_key,
                    state.keys.server_iv,
                    0x05,
                    0,
                    t3,
                    parameters + tag,
                )
                &&& answer->Ok_0.0.session_id == session_id
                &&& answer->Ok_0.0.keys == state.keys
                &&& answer->Ok_0.0.t4 == sha256_of(t3 + answer->Ok_0.1)
            }
        }),
{
}

/// A session is established exactly where the client's confirmation can be opened and holds
/// the id of the session and the right tag, and the client's limits are in their ranges. It
/// has those limits from this moment on, is in its first epoch, and has sent nothing yet.
pub proof fn established_session_is_the_clients(
    state: AwaitingConfirmModel,
    encrypted: Seq<u8>,
    client: ClientModel,
    now: u64,
)
    requires
        state.session_id.len() == 16,
        forall|key: Seq<u8>, message: Seq<u8>| (#[trigger] hmac_of(key, message)).len() == 32,
    ensures
        ({
            let opened = handshake_opened(
                state.keys.client_key,
                state.keys.client_iv,
                0x06,
                1,
                state.t4,
                encrypted,
            );
            let tag = hmac_of(
                state.keys.client_finished,
                sha256_of(text("RekaSerdoba/1 client confirm") + state.t4 + state.session_id),
            );
            let answer = confirmed(state, encrypted, client, now);
            let session = answer->Ok_0;
            &&& answer is Ok <==> opened == Ok::<Seq<u8>, Error>(state.session_id + tag) && 60
                <= client.session_lifetime_seconds <= 86400 && 1024
                <= client.bandwidth_bytes_per_second <= 1024 * 1024 * 1024
            &&& answer is Ok ==> {
                &&& session.session_id == state.session_id
                &&& session.crypto.session_id == state.session_id
                &&& session.crypto.current.epoch == 0
                &&& session.crypto.pending is None
                &&& session.crypto.previous is None
                &&& session.crypto.epoch_started == now
                &&& session.crypto.data_records == 0
                &&& session.crypto.plaintext_bytes == 0
                &&& session.policy.deadline == now + client.session_lifetime_seconds
                    * 1_000_000_000
                &&& session.policy.quota == if client.session_quota_bytes == 0 {
                    None
                } else {
                    Some(client.session_quota_bytes)
                }
                &&& session.policy.transferred == 0
                &&& session.policy.bucket.rate == client.bandwidth_bytes_per_second
                &&& session.fragments == ReassemblerModel::empty()
                &&& session.old_fragments == ReassemblerModel::empty()
            }
        }),
{
    let opened = handshake_opened(
        state.keys.client_key,
        state.keys.client_iv,
        0x06,
        1,
        state.t4,
        encrypted,
    );
    let tag = hmac_of(
        state.keys.client_finished,
        sha256_of(text("RekaSerdoba/1 client confirm") + state.t4 + state.session_id),
    );
    let whole = state.session_id + tag;
    assert(whole.subrange(0, 16) =~= state.session_id);
    assert(whole.subrange(16, 48) =~= tag);
    if opened is Ok && opened->Ok_0.len() == 48 {
        assert(opened->Ok_0 =~= opened->Ok_0.subrange(0, 16) + opened->Ok_0.subrange(16, 48));
    }
}

/// What is said of the handshake holds of what the server does: each message is answered as
/// stated, for some secret, nonce and session id of the right length that are drawn for it.
pub proof fn handshake_runs_as_stated(identity: &ServerIdentity, client: &Client)
    ensures
        forall|
            hello: &[u8],
            unix_now: u64,
            answer: Result<(AnsweredHandshake, Vec<u8>), Error>,
        | #[trigger]
            call_ensures(answer_hello, (hello, identity, client, unix_now), answer) ==> exists|
                secret: Seq<u8>,
                nonce: Seq<u8>,
            |
                secret.len() == 32 && nonce.len() == 32 && {
                    let stated = #[trigger] answered(
                        hello@,
                        identity@,
                        client@,
                        unix_now,
                        secret,
                        nonce,
                    );
                    &&& answer is Ok <==> stated is Ok
                    &&& answer is Ok ==> (answer->Ok_0.0@, answer->Ok_0.1@) == stated->Ok_0
                    &&& answer is Err ==> answer->Err_0 == stated->Err_0
                },
        forall|state: AnsweredHandshake, next: Result<AwaitingAuth, Error>| #[trigger]
            call_ensures(AnsweredHandshake::agree, (state,), next) ==> {
                &&& next is Ok <==> agreed(state@) is Ok
                &&& next is Ok ==> next->Ok_0@ == agreed(state@)->Ok_0
            },
        forall|
            state: AwaitingAuth,
            encrypted: &[u8],
            answer: Result<(AwaitingConfirm, Vec<u8>), Error>,
        | #[trigger]
            call_ensures(
                AwaitingAuth::receive_auth,
                (state, encrypted, identity, client),
                answer,
            ) ==> exists|session_id: Seq<u8>|
                session_id.len() == 16 && {
                    let stated = #[trigger] authenticated(
                        state@,
                        encrypted@,
                        identity@,
                        client@,
                        session_id,
                    );
                    &&& answer is Ok <==> stated is Ok
                    &&& answer is Ok ==> (answer->Ok_0.0@, answer->Ok_0.1@) == stated->Ok_0
                    &&& answer is Err ==> answer->Err_0 == stated->Err_0
                },
        forall|
            state: AwaitingConfirm,
            encrypted: &[u8],
            now: u64,
            session: Result<EstablishedSession, Error>,
        | #[trigger]
            call_ensures(
                AwaitingConfirm::receive_confirm,
                (state, encrypted, client, now),
                session,
            ) ==> {
                let stated = confirmed(state@, encrypted@, client@, now);
                &&& session is Ok <==> stated is Ok
                &&& session is Ok ==> session->Ok_0@ == stated->Ok_0 && session->Ok_0.wf()
                &&& session is Err ==> session->Err_0 == stated->Err_0
            },
{
}

/// The server's first message says what it is, whom it answers, and who it is: the version and
/// the suite, the id of the handshake, the server's key share and nonce, its key id and its
/// clock, and its signature on all of that, on the client's message and on the client's id.
pub proof fn answer_says_who_answers(
    encoded: Seq<u8>,
    identity: IdentityModel,
    client: ClientModel,
    unix_now: u64,
    server_secret: Seq<u8>,
    server_nonce: Seq<u8>,
)
    requires
        answered(encoded, identity, client, unix_now, server_secret, server_nonce) is Ok,
        x25519_public(server_secret).len() == 32,
        server_nonce.len() == 32,
        identity.key_id.len() == 16,
        forall|message: Seq<u8>|
            (#[trigger] ed25519_signature(identity.seed, message)).len() == 64,
    ensures
        ({
            let (state, message) = answered(
                encoded,
                identity,
                client,
                unix_now,
                server_secret,
                server_nonce,
            )->Ok_0;
            let fields = message.subrange(5, 111);
            &&& message.len() == 175
            &&& message.subrange(0, 9) == seq![3u8, 0, 0, 0, 170, 0, 1, 0, 1]
            &&& message.subrange(9, 25) == encoded.subrange(9, 25)
            &&& message.subrange(25, 57) == x25519_public(server_secret)
            &&& message.subrange(57, 89) == server_nonce
            &&& message.subrange(89, 105) == identity.key_id
            &&& message.subrange(105, 109) == be_bytes((unix_now % 0x1_0000_0000) as nat, 4)
            &&& message.subrange(109, 111) == seq![0u8, 0]
            &&& message.subrange(111, 175) == ed25519_signature(
                identity.seed,
                sha256_of(
                    text("RekaSerdoba/1 server signature") + sha256_of(
                        first_transcript() + encoded,
                    ) + sha256_of(fields) + client.id + encoded.subrange(9, 25),
                ),
            )
            &&& state.server_signature == message.subrange(111, 175)
        }),
{
    hello_is_judged_by_its_bytes(encoded, unix_now);
    let (state, message) = answered(
        encoded,
        identity,
        client,
        unix_now,
        server_secret,
        server_nonce,
    )->Ok_0;
    let hello = hello_of(encoded, unix_now)->Ok_0;
    let clock = (unix_now % 0x1_0000_0000) as u32;
    let fields = hello_fields(
        hello,
        x25519_public(server_secret),
        server_nonce,
        identity.key_id,
        clock,
    );
    numbers_are_written_big_endian(1);
    numbers_are_written_big_endian(0);
    numbers_are_written_big_endian(170);
    be_bytes_length(clock as nat, 4);
    assert(fields.len() == 106);
    assert(message.subrange(5, 111) =~= fields);
    assert(message.subrange(0, 9) =~= seq![3u8, 0, 0, 0, 170, 0, 1, 0, 1]);
    assert(message.subrange(9, 25) =~= hello.handshake_id);
    assert(message.subrange(25, 57) =~= x25519_public(server_secret));
    assert(message.subrange(57, 89) =~= server_nonce);
    assert(message.subrange(89, 105) =~= identity.key_id);
    assert(message.subrange(105, 109) =~= be_bytes(clock as nat, 4));
    assert(message.subrange(109, 111) =~= seq![0u8, 0]);
    assert(message.subrange(111, 175) =~= state.server_signature);
}

/// The secrets of a session come from that of its handshake and from everything that was said
/// in it, each under a label of its own.
pub proof fn secrets_come_from_the_handshake(
    handshake_secret: Seq<u8>,
    t5: Seq<u8>,
    session_id: Seq<u8>,
    client: ClientModel,
    now: u64,
)
    ensures
        ({
            let session = established(handshake_secret, t5, session_id, client, now);
            let master = master_secret(handshake_secret, t5);
            let secret = derived(master, text("epoch root"), t5, 32);
            &&& session.crypto == SessionModel::starting(
                session_id,
                secret,
                epoch_keys(secret, session_id, 0),
                t5,
                now,
            )
            &&& session.migration_secret == derived(master, text("migration"), t5, 32)
            &&& session.resumption_secret == derived(master, text("resumption"), t5, 32)
            &&& session.exporter_secret == derived(master, text("exporter"), t5, 32)
        }),
{
}

} // verus!
