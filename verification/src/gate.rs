//! The entrance in front of the handshake: tokens that show that a client may try.
use crate::base64url::{
    base64url, base64url_decoded, decode_text, decoding_undoes_encoding, encode,
};
use crate::client::{Client, ClientModel};
use crate::clock::{clock_skew, skew_exceeds};
use crate::crypto::{ct_eq, hmac_of, random_bytes, sha256_of};
use crate::error::Error;
use crate::kdf::{concat_parts, hash_parts, hmac_bytes, part_views};
use crate::session::SECOND;
use crate::table::Table;
use crate::wire::{
    append, be_bytes, be_bytes_length, be_round_trip, be_value, get_array, get_u64, put_u64, text,
};
use vstd::prelude::*;
use vstd::utf8::encode_utf8;

verus! {

/// How far the clock in a token may be off, in seconds.
pub const GATE_WINDOW_SECS: u32 = 90;

/// How long a token is remembered, in nanoseconds.
pub const GATE_REPLAY: u64 = 180 * SECOND;

/// The length of a token.
pub const TOKEN_LENGTH: usize = 72;

/// The keys that are still remembered.
pub open spec fn remembered(seen: Map<Seq<u8>, u64>, now: u64) -> Map<Seq<u8>, u64> {
    seen.restrict(seen.dom().filter(|key: Seq<u8>| seen[key] + GATE_REPLAY >= now))
}

/// What is remembered once a key was shown.
pub open spec fn noted(seen: Map<Seq<u8>, u64>, key: Seq<u8>, now: u64) -> Map<Seq<u8>, u64> {
    remembered(seen, now).insert(key, now)
}

/// What is remembered once several keys were shown, each at its time.
pub open spec fn noted_all(seen: Map<Seq<u8>, u64>, shown: Seq<(Seq<u8>, u64)>) -> Map<Seq<u8>, u64>
    decreases shown.len(),
{
    if shown.len() == 0 {
        seen
    } else {
        noted(noted_all(seen, shown.drop_last()), shown.last().0, shown.last().1)
    }
}

/// The keys that were shown, with the time at which each was shown last.
pub struct ReplayCache {
    seen: Table<u64>,
}

impl View for ReplayCache {
    type V = Map<Seq<u8>, u64>;

    closed spec fn view(&self) -> Map<Seq<u8>, u64> {
        self.seen@
    }
}

impl ReplayCache {
    /// No key is held twice.
    pub closed spec fn wf(&self) -> bool {
        self.seen.wf()
    }

    /// A cache that remembers nothing.
    pub fn new() -> (cache: Self)
        ensures
            cache.wf(),
            cache@ == Map::<Seq<u8>, u64>::empty(),
    {
        ReplayCache { seen: Table::new() }
    }

    /// Notes that a key was shown; whether this was the first time is returned. A key
    /// that was shown before is noted anew.
    pub fn note(&mut self, key: Vec<u8>, now: u64) -> (first: bool)
        requires
            old(self).wf(),
        ensures
            final(self).wf(),
            final(self)@ == noted(old(self)@, key@, now),
            first == !remembered(old(self)@, now).contains_key(key@),
    {
        let recent = |seen: &u64| -> (kept: bool)
            ensures
                kept == (*seen + GATE_REPLAY >= now),
            { *seen as u128 + GATE_REPLAY as u128 >= now as u128 };
        let ghost test = |seen: u64| seen + GATE_REPLAY >= now;
        self.seen.retain(recent, Ghost(test));
        proof {
            assert(self.seen@ =~= remembered(old(self)@, now));
        }
        self.seen.insert(key, now).is_none()
    }
}

/// A key stays remembered for its time, whatever else is shown meanwhile.
pub proof fn shown_key_is_remembered(
    seen: Map<Seq<u8>, u64>,
    key: Seq<u8>,
    first: u64,
    others: Seq<(Seq<u8>, u64)>,
    now: u64,
)
    requires
        forall|i: int|
            #![trigger others[i]]
            0 <= i < others.len() ==> first <= others[i].1 <= first + GATE_REPLAY,
        now <= first + GATE_REPLAY,
    ensures
        remembered(noted_all(noted(seen, key, first), others), now).contains_key(key),
{
    lemma_kept(noted(seen, key, first), key, first, others);
}

/// A key that was shown once is held, with no earlier time.
proof fn lemma_kept(
    seen: Map<Seq<u8>, u64>,
    key: Seq<u8>,
    first: u64,
    others: Seq<(Seq<u8>, u64)>,
)
    requires
        seen.contains_key(key),
        seen[key] >= first,
        forall|i: int|
            #![trigger others[i]]
            0 <= i < others.len() ==> first <= others[i].1 <= first + GATE_REPLAY,
    ensures
        noted_all(seen, others).contains_key(key),
        noted_all(seen, others)[key] >= first,
    decreases others.len(),
{
    if others.len() > 0 {
        let front = others.drop_last();
        let n = others.len() - 1;
        assert forall|i: int| #![trigger front[i]] 0 <= i < front.len() implies first <= front[i].1
            <= first + GATE_REPLAY by {
            assert(front[i] == others[i]);
        }
        lemma_kept(seen, key, first, front);
        assert(others.last() == others[n]);
    }
}

/// A token as values.
#[verifier::ext_equal]
pub struct TokenModel {
    pub id: Seq<u8>,
    pub unix_time: u64,
    pub nonce: Seq<u8>,
    pub mac: Seq<u8>,
}

impl TokenModel {
    /// What the token is shown under: two tokens with the same key are one.
    pub open spec fn key(self) -> Seq<u8> {
        self.id + self.nonce
    }

    /// The bytes of the token.
    pub open spec fn encoded(self) -> Seq<u8> {
        self.id + be_bytes(self.unix_time as nat, 8) + self.nonce + self.mac
    }
}

/// The token that a text holds.
pub open spec fn token_of(encoded: Seq<u8>) -> Result<TokenModel, Error> {
    match base64url_decoded(encoded) {
        None => Err(Error::InvalidBase64),
        Some(token) => if token.len() != TOKEN_LENGTH {
            Err(Error::InvalidTokenLength)
        } else {
            Ok(
                (TokenModel {
                    id: token.subrange(0, 16),
                    unix_time: be_value(token.subrange(16, 24)) as u64,
                    nonce: token.subrange(24, 40),
                    mac: token.subrange(40, 72),
                }),
            )
        },
    }
}

/// A token: who shows it, when it was made, a random number, and a tag over all of
/// it.
pub struct Token {
    pub id: [u8; 16],
    pub unix_time: u64,
    pub nonce: [u8; 16],
    pub mac: [u8; 32],
}

impl View for Token {
    type V = TokenModel;

    open spec fn view(&self) -> TokenModel {
        TokenModel {
            id: self.id@,
            unix_time: self.unix_time,
            nonce: self.nonce@,
            mac: self.mac@,
        }
    }
}

/// Reads a token.
pub fn read_token(encoded: &str) -> (token: Result<Token, Error>)
    ensures
        match token_of(text(encoded)) {
            Ok(model) => token is Ok && token->Ok_0@ == model,
            Err(error) => token is Err && token->Err_0 == error,
        },
{
    match decode_text(encoded) {
        None => Err(Error::InvalidBase64),
        Some(token) => {
            if token.len() != TOKEN_LENGTH {
                return Err(Error::InvalidTokenLength);
            }
            Ok(
                Token {
                    id: get_array(&token, 0),
                    unix_time: get_u64(&token, 16),
                    nonce: get_array(&token, 24),
                    mac: get_array(&token, 40),
                },
            )
        },
    }
}

/// A token's text gives the token back.
pub proof fn token_comes_back(token: TokenModel)
    requires
        token.id.len() == 16,
        token.nonce.len() == 16,
        token.mac.len() == 32,
    ensures
        token_of(base64url(token.encoded())) == Ok::<TokenModel, Error>(token),
{
    let bytes = token.encoded();
    be_bytes_length(token.unix_time as nat, 8);
    reveal_with_fuel(crate::wire::be_limit, 9);
    be_round_trip(token.unix_time as nat, 8);
    decoding_undoes_encoding(bytes);
    assert(bytes.subrange(0, 16) =~= token.id);
    assert(bytes.subrange(16, 24) =~= be_bytes(token.unix_time as nat, 8));
    assert(bytes.subrange(24, 40) =~= token.nonce);
    assert(bytes.subrange(40, 72) =~= token.mac);
}

/// What a token is bound to: the kind of entrance, the outer connection and the request.
#[verifier::ext_equal]
pub struct RequestModel {
    pub label: Seq<u8>,
    pub exporter: Seq<u8>,
    pub method: Seq<u8>,
    pub authority: Seq<u8>,
    pub path: Seq<u8>,
}

impl RequestModel {
    /// A request over WebSocket or HTTP/2, where the connection's keys are not known.
    pub open spec fn plain(method: Seq<u8>, authority: Seq<u8>, path: Seq<u8>) -> Self {
        RequestModel {
            label: text("RekaSerdoba/1 gate-lab"),
            exporter: Seq::empty(),
            method,
            authority,
            path,
        }
    }

    /// A request over HTTP/3, bound to the connection by its exporter.
    pub open spec fn h3(exporter: Seq<u8>, authority: Seq<u8>, path: Seq<u8>) -> Self {
        RequestModel {
            label: text("RekaSerdoba/1 gate"),
            exporter,
            method: text("CONNECT"),
            authority,
            path,
        }
    }

    /// What the tag of a token authenticates.
    pub open spec fn message(self, id: Seq<u8>, unix_time: u64, nonce: Seq<u8>) -> Seq<u8> {
        self.label + self.exporter + self.method + seq![0u8] + self.authority + seq![0u8]
            + self.path + seq![0u8] + id + be_bytes(unix_time as nat, 8) + nonce
    }
}

/// What the entrance makes of a token: what it remembers then, and the client.
pub open spec fn gate_answer(
    clients: Map<Seq<u8>, ClientModel>,
    seen: Map<Seq<u8>, u64>,
    request: RequestModel,
    encoded: Seq<u8>,
    unix_now: u64,
    now: u64,
) -> (Map<Seq<u8>, u64>, Result<ClientModel, Error>) {
    match token_of(encoded) {
        Err(error) => (seen, Err(error)),
        Ok(token) => if !clients.contains_key(token.id) {
            (seen, Err(Error::UnknownClient))
        } else if clock_skew(unix_now, token.unix_time) > GATE_WINDOW_SECS {
            (seen, Err(Error::ExpiredToken))
        } else if token.mac != hmac_of(
            clients[token.id].gate_key,
            request.message(token.id, token.unix_time, token.nonce),
        ) {
            (seen, Err(Error::InvalidGateMac))
        } else if remembered(seen, now).contains_key(token.key()) {
            (noted(seen, token.key(), now), Err(Error::ReplayedGateToken))
        } else {
            (noted(seen, token.key(), now), Ok(clients[token.id]))
        },
    }
}

/// The clients of a table as values.
pub open spec fn client_models(clients: Map<Seq<u8>, Client>) -> Map<Seq<u8>, ClientModel> {
    clients.map_values(|client: Client| client@)
}

/// Puts together what the tag of a token authenticates.
fn request_message(
    label: &[u8],
    exporter: &[u8],
    method: &[u8],
    authority: &[u8],
    path: &[u8],
    id: &[u8; 16],
    unix_time: u64,
    nonce: &[u8; 16],
) -> (message: Vec<u8>)
    ensures
        message@ == (RequestModel {
            label: label@,
            exporter: exporter@,
            method: method@,
            authority: authority@,
            path: path@,
        }).message(id@, unix_time, nonce@),
{
    let mut message: Vec<u8> = Vec::new();
    append(&mut message, label);
    append(&mut message, exporter);
    append(&mut message, method);
    message.push(0);
    append(&mut message, authority);
    message.push(0);
    append(&mut message, path);
    message.push(0);
    append(&mut message, id);
    put_u64(&mut message, unix_time);
    append(&mut message, nonce);
    assert(message@ =~= (RequestModel {
        label: label@,
        exporter: exporter@,
        method: method@,
        authority: authority@,
        path: path@,
    }).message(id@, unix_time, nonce@));
    message
}

/// Checks a token against the clients that may connect, and remembers it.
pub fn validate_gate_token(
    clients: &Table<Client>,
    replay: &mut ReplayCache,
    encoded: &str,
    label: &[u8],
    exporter: &[u8],
    method: &[u8],
    authority: &str,
    path: &str,
    unix_now: u64,
    now: u64,
) -> (client: Result<Client, Error>)
    requires
        clients.wf(),
        old(replay).wf(),
    ensures
        final(replay).wf(),
        ({
            let request = RequestModel {
                label: label@,
                exporter: exporter@,
                method: method@,
                authority: text(authority),
                path: text(path),
            };
            let (seen, answer) = gate_answer(
                client_models(clients@),
                old(replay)@,
                request,
                text(encoded),
                unix_now,
                now,
            );
            &&& final(replay)@ == seen
            &&& match answer {
                Ok(model) => client is Ok && client->Ok_0@ == model,
                Err(error) => client is Err && client->Err_0 == error,
            }
        }),
{
    let token = match read_token(encoded) {
        Ok(token) => token,
        Err(error) => {
            return Err(error);
        },
    };
    let client = match clients.get(&token.id) {
        Some(client) => *client,
        None => {
            return Err(Error::UnknownClient);
        },
    };
    if skew_exceeds(unix_now, token.unix_time, GATE_WINDOW_SECS) {
        return Err(Error::ExpiredToken);
    }
    let message = request_message(
        label,
        exporter,
        method,
        authority.as_bytes(),
        path.as_bytes(),
        &token.id,
        token.unix_time,
        &token.nonce,
    );
    let expected: [u8; 32] = hmac_bytes(&client.gate_key, &message);
    if !ct_eq(&expected, &token.mac) {
        return Err(Error::InvalidGateMac);
    }
    let mut key: Vec<u8> = Vec::new();
    append(&mut key, &token.id);
    append(&mut key, &token.nonce);
    assert(key@ =~= token@.key());
    if !replay.note(key, now) {
        return Err(Error::ReplayedGateToken);
    }
    Ok(client)
}

/// What an HTTP/3 connection is asked to export for the entrance.
pub fn h3_exporter_context(authority: &str, path: &str) -> (context: [u8; 32])
    ensures
        context@ == sha256_of(text(authority) + seq![0u8] + text(path)),
{
    let zero: [u8; 1] = [0];
    let parts: [&[u8]; 3] = [authority.as_bytes(), &zero, path.as_bytes()];
    proof {
        reveal_with_fuel(concat_parts, 4);
        assert(concat_parts(part_views(parts@)) =~= text(authority) + seq![0u8] + text(path));
    }
    hash_parts(&parts)
}

/// The token that a client shows.
pub open spec fn client_token(
    request: RequestModel,
    id: Seq<u8>,
    gate_key: Seq<u8>,
    unix_time: u64,
    nonce: Seq<u8>,
) -> TokenModel {
    TokenModel {
        id,
        unix_time,
        nonce,
        mac: hmac_of(gate_key, request.message(id, unix_time, nonce)),
    }
}

/// Makes the token for an HTTP/3 connection, with a given random number.
pub fn gate_token_with(
    client_id: &[u8; 16],
    gate_key: &[u8; 32],
    exporter: &[u8; 32],
    authority: &str,
    path: &str,
    unix_time: u64,
    nonce: &[u8; 16],
) -> (token: String)
    ensures
        encode_utf8(token@) == base64url(
            client_token(
                RequestModel::h3(exporter@, text(authority), text(path)),
                client_id@,
                gate_key@,
                unix_time,
                nonce@,
            ).encoded(),
        ),
{
    let message = request_message(
        "RekaSerdoba/1 gate".as_bytes(),
        exporter,
        "CONNECT".as_bytes(),
        authority.as_bytes(),
        path.as_bytes(),
        client_id,
        unix_time,
        nonce,
    );
    let mac: [u8; 32] = hmac_bytes(gate_key, &message);
    let mut token: Vec<u8> = Vec::new();
    append(&mut token, client_id);
    put_u64(&mut token, unix_time);
    append(&mut token, nonce);
    append(&mut token, &mac);
    proof {
        be_bytes_length(unix_time as nat, 8);
        assert(token@ =~= client_token(
            RequestModel::h3(exporter@, text(authority), text(path)),
            client_id@,
            gate_key@,
            unix_time,
            nonce@,
        ).encoded());
    }
    encode(&token)
}

/// Makes the token for an HTTP/3 connection, with a fresh random number.
pub fn gate_token(
    client_id: &[u8; 16],
    gate_key: &[u8; 32],
    exporter: &[u8; 32],
    authority: &str,
    path: &str,
    unix_time: u64,
) -> (token: String)
    ensures
        exists|nonce: Seq<u8>|
            #![trigger client_token(
                RequestModel::h3(exporter@, text(authority), text(path)),
                client_id@,
                gate_key@,
                unix_time,
                nonce,
            )]
            nonce.len() == 16 && encode_utf8(token@) == base64url(
                client_token(
                    RequestModel::h3(exporter@, text(authority), text(path)),
                    client_id@,
                    gate_key@,
                    unix_time,
                    nonce,
                ).encoded(),
            ),
{
    let nonce: [u8; 16] = random_bytes();
    gate_token_with(client_id, gate_key, exporter, authority, path, unix_time, &nonce)
}

/// The entrance opens for a client that it knows: a token made with the client's key, for
/// the same request and with a clock that is not too far off, is taken the first time
/// it is shown.
pub proof fn own_token_is_taken(
    clients: Map<Seq<u8>, ClientModel>,
    seen: Map<Seq<u8>, u64>,
    request: RequestModel,
    id: Seq<u8>,
    unix_time: u64,
    nonce: Seq<u8>,
    unix_now: u64,
    now: u64,
)
    requires
        clients.contains_key(id),
        id.len() == 16,
        nonce.len() == 16,
        clock_skew(unix_now, unix_time) <= GATE_WINDOW_SECS,
        !remembered(seen, now).contains_key(id + nonce),
        hmac_of(clients[id].gate_key, request.message(id, unix_time, nonce)).len() == 32,
    ensures
        ({
            let token = client_token(request, id, clients[id].gate_key, unix_time, nonce);
            gate_answer(clients, seen, request, base64url(token.encoded()), unix_now, now) == (
                noted(seen, id + nonce, now),
                Ok::<ClientModel, Error>(clients[id]),
            )
        }),
{
    token_comes_back(client_token(request, id, clients[id].gate_key, unix_time, nonce));
}

/// No token opens the entrance twice while it is remembered: once it was taken, it is
/// refused, whatever other tokens are shown meanwhile.
pub proof fn token_is_taken_once(
    clients: Map<Seq<u8>, ClientModel>,
    seen: Map<Seq<u8>, u64>,
    request: RequestModel,
    encoded: Seq<u8>,
    unix_first: u64,
    first: u64,
    others: Seq<(Seq<u8>, u64)>,
    later_clients: Map<Seq<u8>, ClientModel>,
    later_request: RequestModel,
    unix_now: u64,
    now: u64,
)
    requires
        gate_answer(clients, seen, request, encoded, unix_first, first).1 is Ok,
        forall|i: int|
            #![trigger others[i]]
            0 <= i < others.len() ==> first <= others[i].1 <= first + GATE_REPLAY,
        now <= first + GATE_REPLAY,
    ensures
        ({
            let after = gate_answer(clients, seen, request, encoded, unix_first, first).0;
            gate_answer(
                later_clients,
                noted_all(after, others),
                later_request,
                encoded,
                unix_now,
                now,
            ).1 is Err
        }),
{
    let token = token_of(encoded)->Ok_0;
    shown_key_is_remembered(seen, token.key(), first, others, now);
}

/// The two clocks run alike: while one counts nanoseconds, the other counts at least the
/// whole seconds among them.
pub open spec fn clocks_agree(unix_first: u64, first: u64, unix_now: u64, now: u64) -> bool {
    first <= now && unix_now - unix_first >= (now - first) / SECOND as int
}

/// The second after a token is forgotten, in which its clock may not have run out yet.
pub open spec fn just_forgotten(first: u64, now: u64) -> bool {
    first + GATE_REPLAY < now < first + GATE_REPLAY + SECOND
}

/// No token opens the entrance again, however much later it is shown: as long as it is
/// remembered it is refused as shown before, and then its clock has run out. Only the
/// second in between is left out.
pub proof fn token_is_never_taken_again(
    clients: Map<Seq<u8>, ClientModel>,
    seen: Map<Seq<u8>, u64>,
    request: RequestModel,
    encoded: Seq<u8>,
    unix_first: u64,
    first: u64,
    others: Seq<(Seq<u8>, u64)>,
    later_clients: Map<Seq<u8>, ClientModel>,
    later_request: RequestModel,
    unix_now: u64,
    now: u64,
)
    requires
        gate_answer(clients, seen, request, encoded, unix_first, first).1 is Ok,
        forall|i: int|
            #![trigger others[i]]
            0 <= i < others.len() ==> first <= others[i].1 <= now,
        clocks_agree(unix_first, first, unix_now, now),
        !just_forgotten(first, now),
    ensures
        ({
            let after = gate_answer(clients, seen, request, encoded, unix_first, first).0;
            gate_answer(
                later_clients,
                noted_all(after, others),
                later_request,
                encoded,
                unix_now,
                now,
            ).1 is Err
        }),
{
    if now <= first + GATE_REPLAY {
        token_is_taken_once(
            clients,
            seen,
            request,
            encoded,
            unix_first,
            first,
            others,
            later_clients,
            later_request,
            unix_now,
            now,
        );
    } else {
        assert((now - first) / SECOND as int >= 181);
    }
}

/// The entrance opens only for a token whose tag was made with the key of the client
/// that it names.
pub proof fn taken_token_was_made_with_the_clients_key(
    clients: Map<Seq<u8>, ClientModel>,
    seen: Map<Seq<u8>, u64>,
    request: RequestModel,
    encoded: Seq<u8>,
    unix_now: u64,
    now: u64,
)
    requires
        gate_answer(clients, seen, request, encoded, unix_now, now).1 is Ok,
    ensures
        token_of(encoded) is Ok,
        ({
            let token = token_of(encoded)->Ok_0;
            &&& clients.contains_key(token.id)
            &&& gate_answer(clients, seen, request, encoded, unix_now, now).1->Ok_0
                == clients[token.id]
            &&& token == client_token(
                request,
                token.id,
                clients[token.id].gate_key,
                token.unix_time,
                token.nonce,
            )
        }),
{
}

/// What a token of the right length is answered follows from what it says: the client must
/// be known, the clock at most 90 seconds off either way, the tag made with the client's key
/// over the request, the client, the time and the random number, and the client must not have
/// shown the same number within the last 180 seconds. Nothing else decides.
pub proof fn tokens_are_judged_by_what_they_say(
    clients: Map<Seq<u8>, ClientModel>,
    seen: Map<Seq<u8>, u64>,
    request: RequestModel,
    id: Seq<u8>,
    unix_time: u64,
    nonce: Seq<u8>,
    mac: Seq<u8>,
    unix_now: u64,
    now: u64,
)
    requires
        id.len() == 16,
        nonce.len() == 16,
        mac.len() == 32,
    ensures
        ({
            let encoded = base64url(id + be_bytes(unix_time as nat, 8) + nonce + mac);
            let right = mac == hmac_of(
                clients[id].gate_key,
                request.label + request.exporter + request.method + seq![0u8] + request.authority
                    + seq![0u8] + request.path + seq![0u8] + id + be_bytes(unix_time as nat, 8)
                    + nonce,
            );
            let in_time = -90 <= unix_now - unix_time <= 90;
            let shown = seen.contains_key(id + nonce) && seen[id + nonce] + 180_000_000_000 >= now;
            let (after, answer) = gate_answer(clients, seen, request, encoded, unix_now, now);
            &&& answer is Ok <==> clients.contains_key(id) && in_time && right && !shown
            &&& answer is Ok ==> answer->Ok_0 == clients[id]
            &&& !clients.contains_key(id) ==> answer == Err::<ClientModel, Error>(
                Error::UnknownClient,
            )
            &&& clients.contains_key(id) && !in_time ==> answer == Err::<ClientModel, Error>(
                Error::ExpiredToken,
            )
            &&& clients.contains_key(id) && in_time && !right ==> answer == Err::<
                ClientModel,
                Error,
            >(Error::InvalidGateMac)
            &&& clients.contains_key(id) && in_time && right && shown ==> answer == Err::<
                ClientModel,
                Error,
            >(Error::ReplayedGateToken)
            &&& clients.contains_key(id) && in_time && right ==> after.contains_key(id + nonce)
                && after[id + nonce] == now
            &&& !(clients.contains_key(id) && in_time && right) ==> after == seen
        }),
{
    token_comes_back(TokenModel { id, unix_time, nonce, mac });
}

/// A text that is not the base64url form of 72 bytes is no token, and nothing is remembered
/// of it.
pub proof fn other_texts_are_no_tokens(
    clients: Map<Seq<u8>, ClientModel>,
    seen: Map<Seq<u8>, u64>,
    request: RequestModel,
    encoded: Seq<u8>,
    unix_now: u64,
    now: u64,
)
    requires
        forall|token: Seq<u8>| #[trigger] base64url(token) == encoded ==> token.len() != 72,
    ensures
        gate_answer(clients, seen, request, encoded, unix_now, now).1 is Err,
        gate_answer(clients, seen, request, encoded, unix_now, now).0 == seen,
{
    if base64url_decoded(encoded) is Some {
        assert(base64url(base64url_decoded(encoded)->Some_0) == encoded);
    }
}

/// What is remembered once a key was shown: that key, at this moment, and of the others those
/// that were shown within the last 180 seconds, each at its own moment.
pub proof fn memory_lasts_three_minutes(
    seen: Map<Seq<u8>, u64>,
    shown: Seq<u8>,
    key: Seq<u8>,
    now: u64,
)
    ensures
        noted(seen, shown, now).contains_key(shown),
        noted(seen, shown, now)[shown] == now,
        key != shown ==> (noted(seen, shown, now).contains_key(key) <==> seen.contains_key(key)
            && seen[key] + 180_000_000_000 >= now),
        key != shown && noted(seen, shown, now).contains_key(key) ==> noted(seen, shown, now)[key]
            == seen[key],
{
}

/// The tag of a token is bound to its request. One over WebSocket or HTTP/2 names the method,
/// the server and the path; one over HTTP/3 also the keys of the connection.
pub proof fn tokens_are_bound_to_their_request(
    exporter: Seq<u8>,
    method: Seq<u8>,
    authority: Seq<u8>,
    path: Seq<u8>,
    id: Seq<u8>,
    unix_time: u64,
    nonce: Seq<u8>,
)
    ensures
        RequestModel::plain(method, authority, path).message(id, unix_time, nonce) == text(
            "RekaSerdoba/1 gate-lab",
        ) + method + seq![0u8] + authority + seq![0u8] + path + seq![0u8] + id + be_bytes(
            unix_time as nat,
            8,
        ) + nonce,
        RequestModel::h3(exporter, authority, path).message(id, unix_time, nonce) == text(
            "RekaSerdoba/1 gate",
        ) + exporter + text("CONNECT") + seq![0u8] + authority + seq![0u8] + path + seq![0u8] + id
            + be_bytes(unix_time as nat, 8) + nonce,
{
    assert(text("RekaSerdoba/1 gate-lab") + Seq::<u8>::empty() =~= text("RekaSerdoba/1 gate-lab"));
}

/// The token that is made for an HTTP/3 connection is the one that the server takes there.
pub proof fn made_token_opens_the_entrance(
    client_id: &[u8; 16],
    gate_key: &[u8; 32],
    exporter: &[u8; 32],
    authority: &str,
    path: &str,
    unix_time: u64,
    nonce: &[u8; 16],
    token: String,
    clients: Map<Seq<u8>, ClientModel>,
    seen: Map<Seq<u8>, u64>,
    unix_now: u64,
    now: u64,
)
    requires
        call_ensures(
            gate_token_with,
            (client_id, gate_key, exporter, authority, path, unix_time, nonce),
            token,
        ),
        clients.contains_key(client_id@),
        clients[client_id@].gate_key == gate_key@,
        -90 <= unix_now - unix_time <= 90,
        !seen.contains_key(client_id@ + nonce@),
        forall|key: Seq<u8>, message: Seq<u8>| (#[trigger] hmac_of(key, message)).len() == 32,
    ensures
        gate_answer(
            clients,
            seen,
            RequestModel::h3(exporter@, text(authority), text(path)),
            encode_utf8(token@),
            unix_now,
            now,
        ).1 == Ok::<ClientModel, Error>(clients[client_id@]),
{
    let request = RequestModel::h3(exporter@, text(authority), text(path));
    own_token_is_taken(
        clients,
        seen,
        request,
        client_id@,
        unix_time,
        nonce@,
        unix_now,
        now,
    );
}

/// A client that makes a token for an HTTP/3 connection gets in with it: it bears some random
/// number of 16 bytes, and the server takes it where that number is new. Both sides ask the
/// connection for keys under the same context, the hash of the server's name and the path.
pub proof fn client_gets_in_with_its_token(
    client_id: &[u8; 16],
    gate_key: &[u8; 32],
    exporter: &[u8; 32],
    authority: &str,
    path: &str,
    unix_time: u64,
    token: String,
    clients: Map<Seq<u8>, ClientModel>,
    unix_now: u64,
    now: u64,
    context: [u8; 32],
)
    requires
        call_ensures(
            gate_token,
            (client_id, gate_key, exporter, authority, path, unix_time),
            token,
        ),
        call_ensures(h3_exporter_context, (authority, path), context),
        clients.contains_key(client_id@),
        clients[client_id@].gate_key == gate_key@,
        -90 <= unix_now - unix_time <= 90,
        forall|key: Seq<u8>, message: Seq<u8>| (#[trigger] hmac_of(key, message)).len() == 32,
    ensures
        gate_answer(
            clients,
            Map::empty(),
            RequestModel::h3(exporter@, text(authority), text(path)),
            encode_utf8(token@),
            unix_now,
            now,
        ).1 == Ok::<ClientModel, Error>(clients[client_id@]),
        context@ == sha256_of(text(authority) + seq![0u8] + text(path)),
{
    let request = RequestModel::h3(exporter@, text(authority), text(path));
    let nonce = choose|nonce: Seq<u8>|
        #![trigger client_token(request, client_id@, gate_key@, unix_time, nonce)]
        nonce.len() == 16 && encode_utf8(token@) == base64url(
            client_token(request, client_id@, gate_key@, unix_time, nonce).encoded(),
        );
    own_token_is_taken(
        clients,
        Map::empty(),
        request,
        client_id@,
        unix_time,
        nonce,
        unix_now,
        now,
    );
}

/// A text that is no token is refused for its form, or else for its length.
pub proof fn texts_are_refused_for_a_reason(encoded: Seq<u8>, data: Seq<u8>)
    ensures
        (forall|other: Seq<u8>| #[trigger] base64url(other) != encoded) ==> token_of(encoded)
            == Err::<TokenModel, Error>(Error::InvalidBase64),
        data.len() != 72 ==> token_of(base64url(data)) == Err::<TokenModel, Error>(
            Error::InvalidTokenLength,
        ),
        data.len() == 72 ==> token_of(base64url(data)) == Ok::<TokenModel, Error>(
            (TokenModel {
                id: data.subrange(0, 16),
                unix_time: be_value(data.subrange(16, 24)) as u64,
                nonce: data.subrange(24, 40),
                mac: data.subrange(40, 72),
            }),
        ),
{
    decoding_undoes_encoding(data);
}

} // verus!
