//! Sessions that may move to another carrier.
use crate::base64url::base64url;
use crate::clock::{clock_skew, skew_exceeds};
use crate::crypto::{ct_eq, hmac_of};
use crate::error::Error;
use crate::gate::{
    clocks_agree, just_forgotten, noted, noted_all, read_token, remembered,
    shown_key_is_remembered, texts_are_refused_for_a_reason, token_comes_back, token_of, ReplayCache, TokenModel, GATE_REPLAY,
    GATE_WINDOW_SECS,
};
use crate::kdf::hmac_bytes;
use crate::secret::Secret;
use crate::session::SECOND;
use crate::table::Table;
use crate::wire::{append, be_bytes, put_u32, put_u64, text};
use vstd::prelude::*;

verus! {

/// A session that may move, as values.
#[verifier::ext_equal]
pub struct MovableModel {
    pub secret: Seq<u8>,
    pub seen: Map<Seq<u8>, u64>,
}

/// The sessions that may move, by their ids.
pub type Movable = Map<Seq<u8>, MovableModel>;

/// What the tag of a migration token authenticates.
pub open spec fn migration_message(
    exporter: Seq<u8>,
    session_id: Seq<u8>,
    unix_time: u64,
    nonce: Seq<u8>,
    endpoint_id: u32,
) -> Seq<u8> {
    text("RekaSerdoba/1 migration gate") + exporter + session_id + be_bytes(unix_time as nat, 8)
        + nonce + be_bytes(endpoint_id as nat, 4)
}

/// The token that a client shows on the carrier to which a session shall move.
pub open spec fn migration_token(
    secret: Seq<u8>,
    exporter: Seq<u8>,
    session_id: Seq<u8>,
    unix_time: u64,
    nonce: Seq<u8>,
    endpoint_id: u32,
) -> TokenModel {
    TokenModel {
        id: session_id,
        unix_time,
        nonce,
        mac: hmac_of(
            secret,
            migration_message(exporter, session_id, unix_time, nonce, endpoint_id),
        ),
    }
}

/// The sessions once a token of one of them was shown.
pub open spec fn session_noted(sessions: Movable, id: Seq<u8>, nonce: Seq<u8>, now: u64) -> Movable {
    sessions.insert(
        id,
        (MovableModel {
            secret: sessions[id].secret,
            seen: noted(sessions[id].seen, nonce, now),
        }),
    )
}

/// What becomes of a migration token: the sessions then, and the id of the session
/// that may move.
pub open spec fn migration_answer(
    sessions: Movable,
    encoded: Seq<u8>,
    exporter: Seq<u8>,
    endpoint_id: u32,
    unix_now: u64,
    now: u64,
) -> (Movable, Result<Seq<u8>, Error>) {
    match token_of(encoded) {
        Err(error) => (
            sessions,
            Err(
                if error == Error::InvalidTokenLength {
                    Error::InvalidMigrationTokenLength
                } else {
                    error
                },
            ),
        ),
        Ok(token) => if !sessions.contains_key(token.id) {
            (sessions, Err(Error::UnknownMigrationSession))
        } else if clock_skew(unix_now, token.unix_time) > GATE_WINDOW_SECS {
            (sessions, Err(Error::ExpiredMigrationToken))
        } else if token != migration_token(
            sessions[token.id].secret,
            exporter,
            token.id,
            token.unix_time,
            token.nonce,
            endpoint_id,
        ) {
            (sessions, Err(Error::InvalidMigrationMac))
        } else if remembered(sessions[token.id].seen, now).contains_key(token.nonce) {
            (
                session_noted(sessions, token.id, token.nonce, now),
                Err(Error::ReplayedMigrationToken),
            )
        } else {
            (session_noted(sessions, token.id, token.nonce, now), Ok(token.id))
        },
    }
}

/// The sessions once a session was entered.
pub open spec fn entered(sessions: Movable, id: Seq<u8>, secret: Seq<u8>) -> Movable {
    sessions.insert(id, (MovableModel { secret, seen: Map::empty() }))
}

/// A session that may move: its secret and the tokens that were shown for it.
struct MigrationEntry {
    secret: Secret,
    replay: ReplayCache,
}

impl View for MigrationEntry {
    type V = MovableModel;

    closed spec fn view(&self) -> MovableModel {
        MovableModel { secret: self.secret@, seen: self.replay@ }
    }
}

/// The sessions that may move.
pub struct MigrationRegistry {
    sessions: Table<MigrationEntry>,
}

impl View for MigrationRegistry {
    type V = Movable;

    closed spec fn view(&self) -> Movable {
        self.sessions@.map_values(|entry: MigrationEntry| entry@)
    }
}

impl MigrationRegistry {
    /// No session and no token is held twice.
    pub closed spec fn wf(&self) -> bool {
        &&& self.sessions.wf()
        &&& forall|id: Seq<u8>| #[trigger]
            self.sessions@.contains_key(id) ==> self.sessions@[id].replay.wf()
    }

    /// No session may move.
    pub fn new() -> (registry: Self)
        ensures
            registry.wf(),
            registry@ == Movable::empty(),
    {
        let registry = MigrationRegistry { sessions: Table::new() };
        assert(registry@ =~= Movable::empty());
        registry
    }

    /// Enters a session. Where one with this id is there already, the new one takes
    /// its place all the same, and the error says so.
    pub fn register_migration(&mut self, session_id: &[u8; 16], secret: Secret) -> (out: Result<
        (),
        Error,
    >)
        requires
            old(self).wf(),
        ensures
            final(self).wf(),
            final(self)@ == entered(old(self)@, session_id@, secret@),
            out == if old(self)@.contains_key(session_id@) {
                Err::<(), Error>(Error::DuplicateSessionId)
            } else {
                Ok(())
            },
    {
        let mut id: Vec<u8> = Vec::new();
        append(&mut id, session_id);
        assert(id@ =~= session_id@);
        let ghost code = secret@;
        let before = self.sessions.insert(
            id,
            MigrationEntry { secret, replay: ReplayCache::new() },
        );
        assert(self@ =~= entered(old(self)@, session_id@, code));
        if before.is_some() {
            Err(Error::DuplicateSessionId)
        } else {
            Ok(())
        }
    }

    /// Takes a session out when it ends.
    pub fn unregister_migration(&mut self, session_id: &[u8; 16])
        requires
            old(self).wf(),
        ensures
            final(self).wf(),
            final(self)@ == old(self)@.remove(session_id@),
    {
        self.sessions.remove(session_id);
        assert(self@ =~= old(self)@.remove(session_id@));
    }

    /// Checks a migration token and remembers it; the id of the session that may move
    /// is returned.
    pub fn validate_migration_gate(
        &mut self,
        encoded: &str,
        exporter: &[u8; 32],
        endpoint_id: u32,
        unix_now: u64,
        now: u64,
    ) -> (out: Result<[u8; 16], Error>)
        requires
            old(self).wf(),
        ensures
            final(self).wf(),
            ({
                let (sessions, answer) = migration_answer(
                    old(self)@,
                    text(encoded),
                    exporter@,
                    endpoint_id,
                    unix_now,
                    now,
                );
                &&& final(self)@ == sessions
                &&& match answer {
                    Ok(id) => out is Ok && out->Ok_0@ == id,
                    Err(error) => out is Err && out->Err_0 == error,
                }
            }),
    {
        let token = match read_token(encoded) {
            Ok(token) => token,
            Err(error) => {
                if error == Error::InvalidTokenLength {
                    return Err(Error::InvalidMigrationTokenLength);
                }
                return Err(error);
            },
        };
        let expected: [u8; 32] = match self.sessions.get(&token.id) {
            None => {
                return Err(Error::UnknownMigrationSession);
            },
            Some(entry) => {
                if skew_exceeds(unix_now, token.unix_time, GATE_WINDOW_SECS) {
                    return Err(Error::ExpiredMigrationToken);
                }
                let mut message: Vec<u8> = Vec::new();
                append(&mut message, "RekaSerdoba/1 migration gate".as_bytes());
                append(&mut message, exporter);
                append(&mut message, &token.id);
                put_u64(&mut message, token.unix_time);
                append(&mut message, &token.nonce);
                put_u32(&mut message, endpoint_id);
                assert(message@ =~= migration_message(
                    exporter@,
                    token.id@,
                    token.unix_time,
                    token.nonce@,
                    endpoint_id,
                ));
                hmac_bytes(entry.secret.expose(), &message)
            },
        };
        if !ct_eq(&expected, &token.mac) {
            return Err(Error::InvalidMigrationMac);
        }
        assert(token@ =~= migration_token(
            self@[token.id@].secret,
            exporter@,
            token.id@,
            token.unix_time,
            token.nonce@,
            endpoint_id,
        ));
        let ghost held = self@;
        match self.sessions.remove(&token.id) {
            None => Err(Error::UnknownMigrationSession),
            Some(mut entry) => {
                let mut nonce: Vec<u8> = Vec::new();
                append(&mut nonce, &token.nonce);
                assert(nonce@ =~= token.nonce@);
                let first = entry.replay.note(nonce, now);
                let mut id: Vec<u8> = Vec::new();
                append(&mut id, &token.id);
                assert(id@ =~= token.id@);
                self.sessions.insert(id, entry);
                assert(self@ =~= session_noted(held, token.id@, token.nonce@, now));
                if first {
                    Ok(token.id)
                } else {
                    Err(Error::ReplayedMigrationToken)
                }
            },
        }
    }
}

/// A session may move with a token that was made with its secret: such a token, for
/// the same connection and endpoint and with a clock that is not too far off, is taken
/// the first time it is shown.
pub proof fn own_migration_token_is_taken(
    sessions: Movable,
    exporter: Seq<u8>,
    session_id: Seq<u8>,
    unix_time: u64,
    nonce: Seq<u8>,
    endpoint_id: u32,
    unix_now: u64,
    now: u64,
)
    requires
        sessions.contains_key(session_id),
        session_id.len() == 16,
        nonce.len() == 16,
        clock_skew(unix_now, unix_time) <= GATE_WINDOW_SECS,
        !remembered(sessions[session_id].seen, now).contains_key(nonce),
        hmac_of(
            sessions[session_id].secret,
            migration_message(exporter, session_id, unix_time, nonce, endpoint_id),
        ).len() == 32,
    ensures
        ({
            let token = migration_token(
                sessions[session_id].secret,
                exporter,
                session_id,
                unix_time,
                nonce,
                endpoint_id,
            );
            migration_answer(
                sessions,
                base64url(token.encoded()),
                exporter,
                endpoint_id,
                unix_now,
                now,
            ) == (
                session_noted(sessions, session_id, nonce, now),
                Ok::<Seq<u8>, Error>(session_id),
            )
        }),
{
    token_comes_back(
        migration_token(
            sessions[session_id].secret,
            exporter,
            session_id,
            unix_time,
            nonce,
            endpoint_id,
        ),
    );
}

/// No token moves a session twice while it is remembered, whatever other tokens of
/// the session are shown meanwhile.
pub proof fn migration_token_is_taken_once(
    sessions: Movable,
    encoded: Seq<u8>,
    exporter: Seq<u8>,
    endpoint_id: u32,
    unix_first: u64,
    first: u64,
    others: Seq<(Seq<u8>, u64)>,
    later: Movable,
    later_exporter: Seq<u8>,
    later_endpoint: u32,
    unix_now: u64,
    now: u64,
)
    requires
        migration_answer(sessions, encoded, exporter, endpoint_id, unix_first, first).1 is Ok,
        ({
            let id = token_of(encoded)->Ok_0.id;
            let after = migration_answer(
                sessions,
                encoded,
                exporter,
                endpoint_id,
                unix_first,
                first,
            ).0;
            later.contains_key(id) && later[id].seen == noted_all(after[id].seen, others)
        }),
        forall|i: int|
            #![trigger others[i]]
            0 <= i < others.len() ==> first <= others[i].1 <= first + GATE_REPLAY,
        now <= first + GATE_REPLAY,
    ensures
        migration_answer(later, encoded, later_exporter, later_endpoint, unix_now, now).1 is Err,
{
    let token = token_of(encoded)->Ok_0;
    shown_key_is_remembered(sessions[token.id].seen, token.nonce, first, others, now);
}

/// No token moves a session again, however much later it is shown: as long as it is
/// remembered it is refused as shown before, and then its clock has run out. Only the
/// second in between is left out.
pub proof fn migration_token_is_never_taken_again(
    sessions: Movable,
    encoded: Seq<u8>,
    exporter: Seq<u8>,
    endpoint_id: u32,
    unix_first: u64,
    first: u64,
    others: Seq<(Seq<u8>, u64)>,
    later: Movable,
    later_exporter: Seq<u8>,
    later_endpoint: u32,
    unix_now: u64,
    now: u64,
)
    requires
        migration_answer(sessions, encoded, exporter, endpoint_id, unix_first, first).1 is Ok,
        ({
            let id = token_of(encoded)->Ok_0.id;
            let after = migration_answer(
                sessions,
                encoded,
                exporter,
                endpoint_id,
                unix_first,
                first,
            ).0;
            later.contains_key(id) ==> later[id].seen == noted_all(after[id].seen, others)
        }),
        forall|i: int|
            #![trigger others[i]]
            0 <= i < others.len() ==> first <= others[i].1 <= now,
        clocks_agree(unix_first, first, unix_now, now),
        !just_forgotten(first, now),
    ensures
        migration_answer(later, encoded, later_exporter, later_endpoint, unix_now, now).1 is Err,
{
    let token = token_of(encoded)->Ok_0;
    if later.contains_key(token.id) {
        if now <= first + GATE_REPLAY {
            migration_token_is_taken_once(
                sessions,
                encoded,
                exporter,
                endpoint_id,
                unix_first,
                first,
                others,
                later,
                later_exporter,
                later_endpoint,
                unix_now,
                now,
            );
        } else {
            assert((now - first) / SECOND as int >= 181);
        }
    }
}

/// A session that has ended cannot be moved.
pub proof fn ended_session_cannot_move(
    sessions: Movable,
    session_id: Seq<u8>,
    encoded: Seq<u8>,
    exporter: Seq<u8>,
    endpoint_id: u32,
    unix_now: u64,
    now: u64,
)
    ensures
        migration_answer(
            sessions.remove(session_id),
            encoded,
            exporter,
            endpoint_id,
            unix_now,
            now,
        ).1 != Ok::<Seq<u8>, Error>(session_id),
{
}

/// What a migration token of the right length is answered follows from what it says: the
/// session must be there, the clock at most 90 seconds off either way, the tag made with the
/// secret of the session over the connection, the session, the time, the random number and the
/// endpoint, and the session must not have seen the same number within the last 180 seconds.
/// Nothing else decides, and no other session is touched.
pub proof fn migration_tokens_are_judged_by_what_they_say(
    sessions: Movable,
    exporter: Seq<u8>,
    id: Seq<u8>,
    unix_time: u64,
    nonce: Seq<u8>,
    mac: Seq<u8>,
    endpoint_id: u32,
    other: Seq<u8>,
    unix_now: u64,
    now: u64,
)
    requires
        id.len() == 16,
        nonce.len() == 16,
        mac.len() == 32,
    ensures
        ({
            let encoded = base64url(id + be_bytes(unix_time as nat, 8) + nonce + mac);
            let right = mac == hmac_of(
                sessions[id].secret,
                text("RekaSerdoba/1 migration gate") + exporter + id + be_bytes(
                    unix_time as nat,
                    8,
                ) + nonce + be_bytes(endpoint_id as nat, 4),
            );
            let in_time = -90 <= unix_now - unix_time <= 90;
            let shown = sessions[id].seen.contains_key(nonce) && sessions[id].seen[nonce]
                + 180_000_000_000 >= now;
            let (after, answer) = migration_answer(
                sessions,
                encoded,
                exporter,
                endpoint_id,
                unix_now,
                now,
            );
            let genuine = sessions.contains_key(id) && in_time && right;
            &&& answer is Ok <==> genuine && !shown
            &&& answer is Ok ==> answer->Ok_0 == id
            &&& genuine ==> after.contains_key(id) && after[id].secret == sessions[id].secret
                && after[id].seen.contains_key(nonce) && after[id].seen[nonce] == now
            &&& !genuine ==> after == sessions
            &&& after.contains_key(other) == sessions.contains_key(other)
            &&& other != id && sessions.contains_key(other) ==> after[other] == sessions[other]
        }),
{
    token_comes_back(TokenModel { id, unix_time, nonce, mac });
}

/// A session that was entered can be moved with a token of its own secret, until it is taken
/// out; other sessions stay as they were.
pub proof fn entered_session_can_move(
    sessions: Movable,
    id: Seq<u8>,
    secret: Seq<u8>,
    exporter: Seq<u8>,
    unix_time: u64,
    nonce: Seq<u8>,
    endpoint_id: u32,
    other: Seq<u8>,
    unix_now: u64,
    now: u64,
)
    requires
        id.len() == 16,
        nonce.len() == 16,
        -90 <= unix_now - unix_time <= 90,
        forall|key: Seq<u8>, message: Seq<u8>| (#[trigger] hmac_of(key, message)).len() == 32,
    ensures
        migration_answer(
            entered(sessions, id, secret),
            base64url(
                id + be_bytes(unix_time as nat, 8) + nonce + hmac_of(
                    secret,
                    text("RekaSerdoba/1 migration gate") + exporter + id + be_bytes(
                        unix_time as nat,
                        8,
                    ) + nonce + be_bytes(endpoint_id as nat, 4),
                ),
            ),
            exporter,
            endpoint_id,
            unix_now,
            now,
        ).1 == Ok::<Seq<u8>, Error>(id),
        other != id ==> entered(sessions, id, secret).contains_key(other)
            == sessions.contains_key(other) && (sessions.contains_key(other) ==> entered(
            sessions,
            id,
            secret,
        )[other] == sessions[other]),
{
    let mac = hmac_of(
        secret,
        text("RekaSerdoba/1 migration gate") + exporter + id + be_bytes(unix_time as nat, 8)
            + nonce + be_bytes(endpoint_id as nat, 4),
    );
    migration_tokens_are_judged_by_what_they_say(
        entered(sessions, id, secret),
        exporter,
        id,
        unix_time,
        nonce,
        mac,
        endpoint_id,
        other,
        unix_now,
        now,
    );
}

/// A migration token that is refused is refused for the first thing that is wrong with it: its
/// form, its length, its session, its clock, its tag, or that it was shown before.
pub proof fn migration_tokens_are_refused_for_a_reason(
    sessions: Movable,
    exporter: Seq<u8>,
    id: Seq<u8>,
    unix_time: u64,
    nonce: Seq<u8>,
    mac: Seq<u8>,
    endpoint_id: u32,
    data: Seq<u8>,
    unix_now: u64,
    now: u64,
)
    requires
        id.len() == 16,
        nonce.len() == 16,
        mac.len() == 32,
        data.len() != 72,
    ensures
        migration_answer(sessions, base64url(data), exporter, endpoint_id, unix_now, now) == (
            sessions,
            Err::<Seq<u8>, Error>(Error::InvalidMigrationTokenLength),
        ),
        forall|encoded: Seq<u8>|
            token_of(encoded) == Err::<TokenModel, Error>(Error::InvalidBase64)
                ==> #[trigger] migration_answer(
                sessions,
                encoded,
                exporter,
                endpoint_id,
                unix_now,
                now,
            ) == (sessions, Err::<Seq<u8>, Error>(Error::InvalidBase64)),
        ({
            let encoded = base64url(id + be_bytes(unix_time as nat, 8) + nonce + mac);
            let answer = migration_answer(
                sessions,
                encoded,
                exporter,
                endpoint_id,
                unix_now,
                now,
            ).1;
            let known = sessions.contains_key(id);
            let in_time = -90 <= unix_now - unix_time <= 90;
            let right = mac == hmac_of(
                sessions[id].secret,
                text("RekaSerdoba/1 migration gate") + exporter + id + be_bytes(
                    unix_time as nat,
                    8,
                ) + nonce + be_bytes(endpoint_id as nat, 4),
            );
            &&& !known ==> answer == Err::<Seq<u8>, Error>(Error::UnknownMigrationSession)
            &&& known && !in_time ==> answer == Err::<Seq<u8>, Error>(Error::ExpiredMigrationToken)
            &&& known && in_time && !right ==> answer == Err::<Seq<u8>, Error>(
                Error::InvalidMigrationMac,
            )
            &&& known && in_time && right && answer is Err ==> answer == Err::<Seq<u8>, Error>(
                Error::ReplayedMigrationToken,
            )
        }),
{
    token_comes_back(TokenModel { id, unix_time, nonce, mac });
    texts_are_refused_for_a_reason(Seq::empty(), data);
}

} // verus!
