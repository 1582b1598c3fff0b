//! The edge of the server: which requests open a tunnel, and what the others get.
use crate::admission::{admitted, AdmissionRate, Attempts};
use crate::base64url::base64url;
use crate::client::{Client, ClientModel};
use crate::config::{ends_with_port, names_port, Runtime, RuntimeModel};
use crate::crypto::hmac_of;
use crate::error::Error;
use crate::gate::{
    gate_answer, token_of, tokens_are_bound_to_their_request, tokens_are_judged_by_what_they_say,
    ReplayCache, RequestModel,
};
use crate::migration::{entered, migration_answer, MigrationRegistry, Movable};
use crate::secret::Secret;
use crate::strings::{chars_of, lowered, same_ignoring_case, trim, trimmed};
use crate::wire::{be_bytes, same_bytes, text, text_of_ascii};
use vstd::prelude::*;
use vstd::slice::{slice_subrange, slice_to_vec};
use vstd::utf8::{
    encode_utf8, encode_utf8_valid_utf8, is_char_boundary, is_leading_byte_width_1,
    length_of_first_scalar, pop_first_scalar, valid_utf8,
};

verus! {

/// The endpoint that migration tokens name.
pub const ENDPOINT_ID: u32 = 1;

/// How large a page may be, in bytes.
pub const MAX_DECOY_FILE_SIZE: u64 = 1024 * 1024;

/// In a valid text, the place behind ASCII characters at its front is the beginning of
/// a character.
proof fn lemma_boundary_after_ascii(bytes: Seq<u8>, count: int)
    requires
        valid_utf8(bytes),
        0 <= count <= bytes.len(),
        forall|i: int| 0 <= i < count ==> is_leading_byte_width_1(#[trigger] bytes[i]),
    ensures
        is_char_boundary(bytes, count),
    decreases count,
{
    if count > 0 {
        assert(is_leading_byte_width_1(bytes[0]));
        let rest = pop_first_scalar(bytes);
        assert(length_of_first_scalar(bytes) == 1);
        assert(rest =~= bytes.subrange(1, bytes.len() as int));
        assert forall|i: int| 0 <= i < count - 1 implies is_leading_byte_width_1(
            #[trigger] rest[i],
        ) by {
            assert(rest[i] == bytes[i + 1]);
        }
        lemma_boundary_after_ascii(rest, count - 1);
    }
}

/// The token in an authorization header.
pub open spec fn bearer_of(header: Seq<u8>) -> Option<Seq<u8>> {
    let prefix = text("Bearer ");
    if header.len() >= prefix.len() && header.subrange(0, prefix.len() as int) == prefix {
        Some(header.subrange(prefix.len() as int, header.len() as int))
    } else {
        None
    }
}

/// Finds the token in an authorization header.
pub fn bearer_token(header: &str) -> (token: Option<&str>)
    ensures
        match bearer_of(text(header)) {
            Some(encoded) => token is Some && text(token->Some_0) == encoded,
            None => token is None,
        },
{
    let bytes = header.as_bytes();
    proof {
        reveal_strlit("Bearer ");
        text_of_ascii("Bearer ");
        encode_utf8_valid_utf8(header@);
        assert(text("Bearer ") =~= seq![0x42u8, 0x65u8, 0x61u8, 0x72u8, 0x65u8, 0x72u8, 0x20u8]);
    }
    if bytes.len() < 7 {
        return None;
    }
    if !same_bytes(slice_subrange(bytes, 0, 7), "Bearer ".as_bytes()) {
        return None;
    }
    proof {
        let front = bytes@.subrange(0, 7);
        assert forall|i: int| 0 <= i < 7 implies is_leading_byte_width_1(#[trigger] bytes@[i]) by {
            assert(bytes@[i] == front[i]);
            assert(front[i] == text("Bearer ")[i]);
            let byte = text("Bearer ")[i];
            assert(byte < 0x80);
            assert(byte < 0x80 ==> byte & 0x80 == 0) by (bit_vector);
        }
        lemma_boundary_after_ascii(bytes@, 7);
    }
    Some(header.split_at(7).1)
}

/// An address of the machine itself: the bytes of an IPv4 or IPv6 address.
pub open spec fn loopback(address: Seq<u8>) -> bool {
    ||| address.len() == 4 && address[0] == 127
    ||| address == seq![0u8, 0, 0, 0, 0, 0, 0, 0, 0, 0, 0, 0, 0, 0, 0, 1]
}

/// Recognises an address of the machine itself.
pub fn is_loopback(address: &[u8]) -> (found: bool)
    ensures
        found == loopback(address@),
{
    let own: [u8; 16] = [0, 0, 0, 0, 0, 0, 0, 0, 0, 0, 0, 0, 0, 0, 0, 1];
    assert(own@ =~= seq![0u8, 0, 0, 0, 0, 0, 0, 0, 0, 0, 0, 0, 0, 0, 0, 1]);
    (address.len() == 4 && address[0] == 127) || same_bytes(address, &own)
}

/// A text up to its first comma.
pub open spec fn first_part(value: Seq<char>) -> Seq<char>
    decreases value.len(),
{
    if value.len() == 0 || value[0] == ',' {
        Seq::empty()
    } else {
        seq![value[0]] + first_part(value.skip(1))
    }
}

/// A text up to a comma is its first part where there is no comma before.
proof fn lemma_first_part(value: Seq<char>, end: int)
    requires
        0 <= end <= value.len(),
        forall|i: int| 0 <= i < end ==> #[trigger] value[i] != ',',
        end < value.len() ==> value[end] == ',',
    ensures
        first_part(value) == value.subrange(0, end),
    decreases end,
{
    if end == 0 {
        assert(value.subrange(0, 0) =~= Seq::<char>::empty());
    } else {
        let rest = value.skip(1);
        assert forall|i: int| 0 <= i < end - 1 implies #[trigger] rest[i] != ',' by {
            assert(rest[i] == value[i + 1]);
        }
        lemma_first_part(rest, end - 1);
        assert(value.subrange(0, end) =~= seq![value[0]] + rest.subrange(0, end - 1));
    }
}

/// What a proxy says of where a request comes from. Only a proxy on this machine is
/// believed: for any other peer, given by the bytes of its address, there is nothing.
/// The first entry of the header counts, without white space around it.
pub fn forwarded_source(header: Option<&str>, peer: &[u8]) -> (source: Option<Vec<char>>)
    ensures
        match header {
            Some(value) if loopback(peer@) => source is Some && source->Some_0@ == trimmed(
                first_part(value@),
            ),
            _ => source is None,
        },
{
    if !is_loopback(peer) {
        return None;
    }
    match header {
        None => None,
        Some(value) => {
            let chars = chars_of(value);
            let mut end: usize = 0;
            while end < chars.len() && chars[end] != ','
                invariant
                    end <= chars@.len(),
                    forall|i: int| 0 <= i < end ==> #[trigger] chars@[i] != ',',
                decreases chars@.len() - end,
            {
                end = end + 1;
            }
            proof {
                lemma_first_part(chars@, end as int);
            }
            Some(trim(slice_subrange(chars.as_slice(), 0, end)))
        },
    }
}

/// Whether the server carries traffic.
pub fn is_operational(draining: bool, network_ready: bool, h3_ready: bool) -> (operational: bool)
    ensures
        operational == (!draining && network_ready && h3_ready),
{
    !draining && network_ready && h3_ready
}

/// Whether the server takes new connections.
pub fn is_accepting(operational: bool, free_carriers: usize) -> (accepting: bool)
    ensures
        accepting == (operational && free_carriers != 0),
{
    operational && free_carriers != 0
}

/// What the readiness probe is answered: the status and the body.
pub fn readiness(accepting: bool) -> (answer: (u16, &'static str))
    ensures
        answer.0 == if accepting {
            200u16
        } else {
            503u16
        },
        answer.1@ == if accepting {
            "ready\n"@
        } else {
            "not ready\n"@
        },
{
    if accepting {
        (200, "ready\n")
    } else {
        (503, "not ready\n")
    }
}

/// A peer that was let in.
pub enum Admission {
    /// A client that may begin the handshake.
    Handshake(Client),
    /// A session that may move here.
    Migration([u8; 16]),
}

/// A peer that was let in, as values.
pub enum AdmissionModel {
    Handshake(ClientModel),
    Migration(Seq<u8>),
}

impl View for Admission {
    type V = AdmissionModel;

    open spec fn view(&self) -> AdmissionModel {
        match self {
            Admission::Handshake(client) => AdmissionModel::Handshake(client@),
            Admission::Migration(session_id) => AdmissionModel::Migration(session_id@),
        }
    }
}

/// What becomes of a request for the tunnel.
pub enum TunnelAnswer {
    /// It was no such request, or the server carries no traffic.
    NotFound,
    /// The entrance refused it.
    Rejected,
    /// The peer is let in.
    Admit(Admission),
}

/// What becomes of a request for the tunnel, as values.
pub enum TunnelModel {
    NotFound,
    Rejected,
    Admit(AdmissionModel),
}

impl View for TunnelAnswer {
    type V = TunnelModel;

    open spec fn view(&self) -> TunnelModel {
        match self {
            TunnelAnswer::NotFound => TunnelModel::NotFound,
            TunnelAnswer::Rejected => TunnelModel::Rejected,
            TunnelAnswer::Admit(admission) => TunnelModel::Admit(admission@),
        }
    }
}

impl TunnelModel {
    /// The status with which a request is answered.
    pub open spec fn status(self) -> u16 {
        match self {
            TunnelModel::Admit(_) => 200,
            _ => 404,
        }
    }
}

impl TunnelAnswer {
    /// The status with which a request is answered.
    pub fn status(&self) -> (status: u16)
        ensures
            status == self@.status(),
    {
        match self {
            TunnelAnswer::Admit(_) => 200,
            _ => 404,
        }
    }
}

/// What the gatekeeper remembers, as values.
#[verifier::ext_equal]
pub struct GatekeeperModel {
    pub rates: Attempts,
    pub seen: Map<Seq<u8>, u64>,
    pub sessions: Movable,
}

impl GatekeeperModel {
    /// What becomes of a token: it is the token of a client, or else that of a session
    /// that moves.
    pub open spec fn token(
        self,
        clients: Map<Seq<u8>, ClientModel>,
        request: RequestModel,
        exporter: Seq<u8>,
        encoded: Seq<u8>,
        unix_now: u64,
        now: u64,
    ) -> (Self, TunnelModel) {
        let (seen, client) = gate_answer(clients, self.seen, request, encoded, unix_now, now);
        let (sessions, session) = migration_answer(
            self.sessions,
            encoded,
            exporter,
            ENDPOINT_ID,
            unix_now,
            now,
        );
        if client is Ok {
            (
                GatekeeperModel { seen, ..self },
                TunnelModel::Admit(AdmissionModel::Handshake(client->Ok_0)),
            )
        } else if session is Ok {
            (
                GatekeeperModel { seen, sessions, ..self },
                TunnelModel::Admit(AdmissionModel::Migration(session->Ok_0)),
            )
        } else {
            (GatekeeperModel { seen, sessions, ..self }, TunnelModel::Rejected)
        }
    }

    /// What becomes of an attempt of a source.
    pub open spec fn attempt(self, source: Seq<u8>, now: u64) -> (Self, bool) {
        let (rates, out) = admitted(self.rates, source, now);
        (GatekeeperModel { rates, ..self }, out is Ok)
    }

    /// What becomes of a request whose header was read: `authorization` is that header.
    pub open spec fn request(
        self,
        clients: Map<Seq<u8>, ClientModel>,
        request: RequestModel,
        authorization: Option<Seq<u8>>,
        source: Seq<u8>,
        unix_now: u64,
        now: u64,
    ) -> (Self, TunnelModel) {
        match authorization {
            None => (self, TunnelModel::NotFound),
            Some(header) => match bearer_of(header) {
                None => (self, TunnelModel::NotFound),
                Some(encoded) => {
                    let (tried, passed) = self.attempt(source, now);
                    if !passed {
                        (tried, TunnelModel::Rejected)
                    } else {
                        tried.token(
                            clients,
                            request,
                            Seq::new(32, |i: int| 0u8),
                            encoded,
                            unix_now,
                            now,
                        )
                    }
                },
            },
        }
    }

    /// What becomes of a request over WebSocket.
    pub open spec fn websocket(
        self,
        runtime: RuntimeModel,
        operational: bool,
        path: Seq<u8>,
        upgrade: bool,
        authorization: Option<Seq<u8>>,
        source: Seq<u8>,
        unix_now: u64,
        now: u64,
    ) -> (Self, TunnelModel) {
        let own_path = encode_utf8(runtime.tunnel_path);
        if path != own_path || !operational || !upgrade {
            (self, TunnelModel::NotFound)
        } else {
            self.request(
                runtime.clients,
                RequestModel::plain(text("GET"), encode_utf8(runtime.authority), own_path),
                authorization,
                source,
                unix_now,
                now,
            )
        }
    }

    /// What becomes of a request over HTTP/2.
    pub open spec fn h2(
        self,
        runtime: RuntimeModel,
        operational: bool,
        authorization: Option<Seq<u8>>,
        source: Seq<u8>,
        unix_now: u64,
        now: u64,
    ) -> (Self, TunnelModel) {
        if !operational {
            (self, TunnelModel::NotFound)
        } else {
            self.request(
                runtime.clients,
                RequestModel::plain(
                    text("POST"),
                    encode_utf8(runtime.authority),
                    text("/connect/v1/h2"),
                ),
                authorization,
                source,
                unix_now,
                now,
            )
        }
    }
}

/// Decides who is let in: how often each source may try, which tokens were shown, and
/// which sessions may move.
pub struct Gatekeeper {
    rates: AdmissionRate,
    replay: ReplayCache,
    migrations: MigrationRegistry,
}

impl View for Gatekeeper {
    type V = GatekeeperModel;

    closed spec fn view(&self) -> GatekeeperModel {
        GatekeeperModel {
            rates: self.rates@,
            seen: self.replay@,
            sessions: self.migrations@,
        }
    }
}

/// The bytes of a header that may be missing.
pub open spec fn header_bytes(header: Option<&str>) -> Option<Seq<u8>> {
    match header {
        Some(value) => Some(text(value)),
        None => None,
    }
}

/// Where the HTTP/2 tunnel is found.
pub fn h2_path() -> (path: &'static str)
    ensures
        path@ == "/connect/v1/h2"@,
{
    "/connect/v1/h2"
}

impl Gatekeeper {
    /// Nothing is held twice.
    pub closed spec fn wf(&self) -> bool {
        self.rates.wf() && self.replay.wf() && self.migrations.wf()
    }

    /// A gatekeeper that has seen nobody yet.
    pub fn new() -> (keeper: Self)
        ensures
            keeper.wf(),
            keeper@ == (GatekeeperModel {
                rates: Map::empty(),
                seen: Map::empty(),
                sessions: Map::empty(),
            }),
    {
        Gatekeeper {
            rates: AdmissionRate::new(),
            replay: ReplayCache::new(),
            migrations: MigrationRegistry::new(),
        }
    }

    /// Enters a session that may move.
    pub fn register_migration(
        &mut self,
        session_id: &[u8; 16],
        secret: Secret,
    ) -> (out: Result<(), Error>)
        requires
            old(self).wf(),
        ensures
            final(self).wf(),
            final(self)@ == (GatekeeperModel {
                sessions: entered(old(self)@.sessions, session_id@, secret@),
                ..old(self)@
            }),
            out == if old(self)@.sessions.contains_key(session_id@) {
                Err::<(), Error>(Error::DuplicateSessionId)
            } else {
                Ok(())
            },
    {
        self.migrations.register_migration(session_id, secret)
    }

    /// Takes a session out when it ends.
    pub fn unregister_migration(&mut self, session_id: &[u8; 16])
        requires
            old(self).wf(),
        ensures
            final(self).wf(),
            final(self)@ == (GatekeeperModel {
                sessions: old(self)@.sessions.remove(session_id@),
                ..old(self)@
            }),
    {
        self.migrations.unregister_migration(session_id)
    }

    /// Decides on an attempt of a source.
    pub fn attempt(&mut self, source: Vec<u8>, now: u64) -> (passed: bool)
        requires
            old(self).wf(),
        ensures
            final(self).wf(),
            (final(self)@, passed) == old(self)@.attempt(source@, now),
    {
        self.rates.check_admission_rate(source, now).is_ok()
    }

    /// Decides on a token for a WebSocket or HTTP/2 request.
    fn plain_token(
        &mut self,
        runtime: &Runtime,
        method: &[u8],
        path: &str,
        encoded: &str,
        unix_now: u64,
        now: u64,
    ) -> (answer: TunnelAnswer)
        requires
            old(self).wf(),
            runtime.wf(),
        ensures
            final(self).wf(),
            (final(self)@, answer@) == old(self)@.token(
                runtime@.clients,
                RequestModel::plain(method@, encode_utf8(runtime@.authority), text(path)),
                Seq::new(32, |i: int| 0u8),
                text(encoded),
                unix_now,
                now,
            ),
    {
        match runtime.validate_gate(&mut self.replay, encoded, method, path, unix_now, now) {
            Ok(client) => TunnelAnswer::Admit(Admission::Handshake(client)),
            Err(_) => {
                let zeros: [u8; 32] = [0u8; 32];
                assert(zeros@ =~= Seq::new(32, |i: int| 0u8));
                self.session_token(&zeros, encoded, unix_now, now)
            },
        }
    }

    /// Decides on the token of a session that moves.
    fn session_token(
        &mut self,
        exporter: &[u8; 32],
        encoded: &str,
        unix_now: u64,
        now: u64,
    ) -> (answer: TunnelAnswer)
        requires
            old(self).wf(),
        ensures
            final(self).wf(),
            ({
                let (sessions, session) = migration_answer(
                    old(self)@.sessions,
                    text(encoded),
                    exporter@,
                    ENDPOINT_ID,
                    unix_now,
                    now,
                );
                &&& final(self)@ == (GatekeeperModel { sessions, ..old(self)@ })
                &&& answer@ == match session {
                    Ok(id) => TunnelModel::Admit(AdmissionModel::Migration(id)),
                    Err(_) => TunnelModel::Rejected,
                }
            }),
    {
        match self.migrations.validate_migration_gate(
            encoded,
            exporter,
            ENDPOINT_ID,
            unix_now,
            now,
        ) {
            Ok(session_id) => TunnelAnswer::Admit(Admission::Migration(session_id)),
            Err(_) => TunnelAnswer::Rejected,
        }
    }

    /// Decides on a request whose header was read.
    fn request(
        &mut self,
        runtime: &Runtime,
        method: &[u8],
        path: &str,
        authorization: Option<&str>,
        source: Vec<u8>,
        unix_now: u64,
        now: u64,
    ) -> (answer: TunnelAnswer)
        requires
            old(self).wf(),
            runtime.wf(),
        ensures
            final(self).wf(),
            (final(self)@, answer@) == old(self)@.request(
                runtime@.clients,
                RequestModel::plain(method@, encode_utf8(runtime@.authority), text(path)),
                header_bytes(authorization),
                source@,
                unix_now,
                now,
            ),
    {
        let header = match authorization {
            Some(header) => header,
            None => {
                return TunnelAnswer::NotFound;
            },
        };
        let encoded = match bearer_token(header) {
            Some(encoded) => encoded,
            None => {
                return TunnelAnswer::NotFound;
            },
        };
        if !self.attempt(source, now) {
            return TunnelAnswer::Rejected;
        }
        self.plain_token(runtime, method, path, encoded, unix_now, now)
    }

    /// Decides on a request over WebSocket. `upgrade` says whether the request asks for
    /// a WebSocket, and `source` is the address it comes from.
    pub fn answer_websocket(
        &mut self,
        runtime: &Runtime,
        operational: bool,
        path: &str,
        upgrade: bool,
        authorization: Option<&str>,
        source: Vec<u8>,
        unix_now: u64,
        now: u64,
    ) -> (answer: TunnelAnswer)
        requires
            old(self).wf(),
            runtime.wf(),
        ensures
            final(self).wf(),
            (final(self)@, answer@) == old(self)@.websocket(
                runtime@,
                operational,
                text(path),
                upgrade,
                header_bytes(authorization),
                source@,
                unix_now,
                now,
            ),
    {
        if !same_bytes(path.as_bytes(), runtime.tunnel_path().as_bytes()) || !operational
            || !upgrade {
            return TunnelAnswer::NotFound;
        }
        self.request(
            runtime,
            "GET".as_bytes(),
            runtime.tunnel_path(),
            authorization,
            source,
            unix_now,
            now,
        )
    }

    /// Decides on a request over HTTP/2.
    pub fn answer_h2(
        &mut self,
        runtime: &Runtime,
        operational: bool,
        authorization: Option<&str>,
        source: Vec<u8>,
        unix_now: u64,
        now: u64,
    ) -> (answer: TunnelAnswer)
        requires
            old(self).wf(),
            runtime.wf(),
        ensures
            final(self).wf(),
            (final(self)@, answer@) == old(self)@.h2(
                runtime@,
                operational,
                header_bytes(authorization),
                source@,
                unix_now,
                now,
            ),
    {
        if !operational {
            return TunnelAnswer::NotFound;
        }
        self.request(
            runtime,
            "POST".as_bytes(),
            h2_path(),
            authorization,
            source,
            unix_now,
            now,
        )
    }

    /// Decides on the token that the peer of an HTTP/3 connection has sent.
    pub fn answer_h3(
        &mut self,
        runtime: &Runtime,
        exporter: &[u8; 32],
        authority: &str,
        path: &str,
        encoded: &str,
        unix_now: u64,
        now: u64,
    ) -> (answer: TunnelAnswer)
        requires
            old(self).wf(),
            runtime.wf(),
        ensures
            final(self).wf(),
            (final(self)@, answer@) == old(self)@.token(
                runtime@.clients,
                RequestModel::h3(exporter@, text(authority), text(path)),
                exporter@,
                text(encoded),
                unix_now,
                now,
            ),
    {
        match runtime.validate_h3_gate(
            &mut self.replay,
            encoded,
            exporter,
            authority,
            path,
            unix_now,
            now,
        ) {
            Ok(client) => TunnelAnswer::Admit(Admission::Handshake(client)),
            Err(_) => self.session_token(exporter, encoded, unix_now, now),
        }
    }
}

/// Nobody is let in while the server carries no traffic.
pub proof fn nobody_is_let_in_while_down(
    keeper: GatekeeperModel,
    runtime: RuntimeModel,
    path: Seq<u8>,
    upgrade: bool,
    authorization: Option<Seq<u8>>,
    source: Seq<u8>,
    unix_now: u64,
    now: u64,
)
    ensures
        keeper.websocket(
            runtime,
            false,
            path,
            upgrade,
            authorization,
            source,
            unix_now,
            now,
        ) == (keeper, TunnelModel::NotFound),
        keeper.h2(runtime, false, authorization, source, unix_now, now) == (
            keeper,
            TunnelModel::NotFound,
        ),
{
}

/// Whoever is not let in gets the answer that any other unknown page gets.
pub proof fn refusals_look_like_unknown_pages(answer: TunnelModel)
    requires
        !(answer is Admit),
    ensures
        answer.status() == TunnelModel::NotFound.status(),
        answer.status() == 404,
{
}

/// Whoever is let in has shown a token that the entrance took: that of a client whom the
/// server knows, or that of a session that may move.
pub proof fn admission_needs_a_token(
    keeper: GatekeeperModel,
    clients: Map<Seq<u8>, ClientModel>,
    request: RequestModel,
    exporter: Seq<u8>,
    encoded: Seq<u8>,
    unix_now: u64,
    now: u64,
)
    requires
        keeper.token(clients, request, exporter, encoded, unix_now, now).1 is Admit,
    ensures
        match keeper.token(clients, request, exporter, encoded, unix_now, now).1 {
            TunnelModel::Admit(AdmissionModel::Handshake(client)) => clients.contains_key(
                token_of(encoded)->Ok_0.id,
            ) && clients[token_of(encoded)->Ok_0.id] == client,
            TunnelModel::Admit(AdmissionModel::Migration(id)) => keeper.sessions.contains_key(id),
            _ => false,
        },
{
}

/// An authority matches another: they are equal, but for the case of letters and for a
/// port 443 that one of them may leave out.
pub open spec fn matches_authority(received: Seq<u8>, expected: Seq<u8>) -> bool {
    ||| lowered(received) == lowered(expected)
    ||| without_port(received) is Some && lowered(without_port(received)->Some_0) == lowered(
        expected,
    )
    ||| without_port(expected) is Some && lowered(without_port(expected)->Some_0) == lowered(
        received,
    )
}

/// An authority without its port 443.
pub open spec fn without_port(authority: Seq<u8>) -> Option<Seq<u8>> {
    if names_port(authority) {
        Some(authority.subrange(0, authority.len() - 4))
    } else {
        None
    }
}

/// Compares an authority without its port with another.
fn matches_without_port(long: &[u8], short: &[u8]) -> (found: bool)
    ensures
        found == (without_port(long@) is Some && lowered(without_port(long@)->Some_0) == lowered(
            short@,
        )),
{
    if !ends_with_port(long) {
        return false;
    }
    proof {
        reveal_strlit(":443");
        text_of_ascii(":443");
    }
    let end: usize = long.len() - 4;
    same_ignoring_case(slice_subrange(long, 0, end), short)
}

/// Compares the authority of a request with the expected one.
pub fn authority_matches(received: &str, expected: &str) -> (found: bool)
    ensures
        found == matches_authority(text(received), text(expected)),
{
    let a = received.as_bytes();
    let b = expected.as_bytes();
    same_ignoring_case(a, b) || matches_without_port(a, b) || matches_without_port(b, a)
}

/// Whether an HTTP/3 request asks for the tunnel. `connect` and `webtransport` say
/// whether its method and its protocol are those of a WebTransport session.
pub fn is_tunnel_request(
    connect: bool,
    webtransport: bool,
    path: &str,
    authority: Option<&str>,
    expected_authority: &str,
    expected_path: &str,
) -> (asks: bool)
    ensures
        asks == (connect && webtransport && text(path) == text(expected_path) && match authority {
            Some(received) => matches_authority(text(received), text(expected_authority)),
            None => false,
        }),
{
    connect && webtransport && same_bytes(path.as_bytes(), expected_path.as_bytes())
        && match authority {
        Some(received) => authority_matches(received, expected_authority),
        None => false,
    }
}

/// How a page is asked for.
#[derive(Clone, Copy, Debug, PartialEq, Eq, Structural)]
pub enum DecoyMethod {
    Get,
    Head,
    Other,
}

/// The status with which a request for a page is answered; `found` says whether there
/// is such a page.
pub fn decoy_status(method: DecoyMethod, found: bool) -> (status: u16)
    ensures
        status == if method == DecoyMethod::Other {
            405u16
        } else if found {
            200u16
        } else {
            404u16
        },
{
    if method == DecoyMethod::Other {
        405
    } else if found {
        200
    } else {
        404
    }
}

/// Whether the body of a page is sent.
pub fn decoy_sends_body(method: DecoyMethod, length: usize) -> (sends: bool)
    ensures
        sends == (method != DecoyMethod::Head && length != 0),
{
    method != DecoyMethod::Head && length != 0
}

/// Whether a file may be sent as a page.
pub fn decoy_serves(is_file: bool, size: u64) -> (serves: bool)
    ensures
        serves == (is_file && size <= MAX_DECOY_FILE_SIZE),
{
    is_file && size <= MAX_DECOY_FILE_SIZE
}

/// A path without the slashes at its front.
pub open spec fn without_slashes(path: Seq<u8>) -> Seq<u8>
    decreases path.len(),
{
    if path.len() > 0 && path[0] == 0x2f {
        without_slashes(path.skip(1))
    } else {
        path
    }
}

/// The two dots that lead out of a directory stand at a place in a path, as a part of
/// their own.
pub open spec fn climbs_at(path: Seq<u8>, at: int) -> bool {
    &&& 0 <= at && at + 2 <= path.len()
    &&& path[at] == 0x2e && path[at + 1] == 0x2e
    &&& at == 0 || path[at - 1] == 0x2f
    &&& at + 2 == path.len() || path[at + 2] == 0x2f
}

/// A path leads out of its directory somewhere.
pub open spec fn climbs(path: Seq<u8>) -> bool {
    exists|at: int| #[trigger] climbs_at(path, at)
}

/// The first part of a path is a single dot.
pub open spec fn starts_with_dot(path: Seq<u8>) -> bool {
    path.len() > 0 && path[0] == 0x2e && (path.len() == 1 || path[1] == 0x2f)
}

/// The file that a path asks for, below the directory of the pages.
pub open spec fn decoy_file(path: Seq<u8>) -> Option<Seq<u8>> {
    let relative = without_slashes(path);
    if relative.len() == 0 {
        Some(text("index.html"))
    } else if starts_with_dot(relative) || climbs(relative) {
        None
    } else {
        Some(relative)
    }
}

/// Finds the file that a path asks for.
pub fn decoy_path(path: &[u8]) -> (file: Option<Vec<u8>>)
    ensures
        match decoy_file(path@) {
            Some(relative) => file is Some && file->Some_0@ == relative,
            None => file is None,
        },
{
    let mut start: usize = 0;
    assert(path@.skip(0) =~= path@);
    while start < path.len() && path[start] == 0x2f
        invariant
            start <= path@.len(),
            without_slashes(path@.skip(start as int)) == without_slashes(path@),
        decreases path@.len() - start,
    {
        assert(path@.skip(start as int)[0] == path@[start as int]);
        assert(path@.skip(start as int).skip(1) =~= path@.skip(start + 1));
        start = start + 1;
    }
    let ghost front = path@.skip(start as int);
    assert(front.len() > 0 ==> front[0] == path@[start as int]);
    let relative = slice_subrange(path, start, path.len());
    assert(relative@ =~= without_slashes(path@));
    if relative.len() == 0 {
        return Some(slice_to_vec("index.html".as_bytes()));
    }
    if relative[0] == 0x2e && (relative.len() == 1 || relative[1] == 0x2f) {
        return None;
    }
    let mut at: usize = 0;
    while at < relative.len()
        invariant
            at <= relative@.len(),
            relative@.len() == relative.len(),
            forall|i: int| 0 <= i < at ==> !#[trigger] climbs_at(relative@, i),
            relative@ == without_slashes(path@),
            relative@.len() > 0,
        decreases relative@.len() - at,
    {
        if relative.len() - at >= 2 && relative[at] == 0x2e && relative[at + 1] == 0x2e && (at == 0
            || relative[at - 1] == 0x2f) && (relative.len() - at == 2 || relative[at + 2] == 0x2f) {
            assert(climbs_at(relative@, at as int));
            return None;
        }
        assert(!climbs_at(relative@, at as int));
        at = at + 1;
    }
    Some(slice_to_vec(relative))
}

/// No path leads out of the directory of the pages: the file that is looked for is
/// given by a relative path without two dots as a part.
pub proof fn pages_lie_in_their_directory(path: Seq<u8>)
    requires
        decoy_file(path) is Some,
    ensures
        decoy_file(path)->Some_0.len() > 0,
        decoy_file(path)->Some_0[0] != 0x2f,
        !climbs(decoy_file(path)->Some_0),
{
    reveal_strlit("index.html");
    text_of_ascii("index.html");
    let index = text("index.html");
    assert(index.len() == 10);
    assert(index[0] == 0x69);
    assert forall|at: int| !#[trigger] climbs_at(index, at) by {
        if climbs_at(index, at) {
            assert(index[5] == 0x2e);
            assert(at == 5 || at + 1 == 5 || index[at] != 0x2e);
        }
    }
    lemma_no_slash_in_front(path);
}

/// What is left of a path does not begin with a slash.
proof fn lemma_no_slash_in_front(path: Seq<u8>)
    ensures
        without_slashes(path).len() > 0 ==> without_slashes(path)[0] != 0x2f,
    decreases path.len(),
{
    if path.len() > 0 && path[0] == 0x2f {
        lemma_no_slash_in_front(path.skip(1));
    }
}

/// The kind of content that a file's extension stands for.
pub open spec fn content_type_of(extension: Option<Seq<u8>>) -> Seq<char> {
    match extension {
        None => "application/octet-stream"@,
        Some(value) => if value == text("html") {
            "text/html; charset=utf-8"@
        } else if value == text("css") {
            "text/css; charset=utf-8"@
        } else if value == text("js") {
            "application/javascript; charset=utf-8"@
        } else if value == text("json") {
            "application/json; charset=utf-8"@
        } else if value == text("cbor") {
            "application/cose"@
        } else if value == text("svg") {
            "image/svg+xml"@
        } else if value == text("png") {
            "image/png"@
        } else if value == text("jpg") || value == text("jpeg") {
            "image/jpeg"@
        } else if value == text("ico") {
            "image/x-icon"@
        } else if value == text("txt") {
            "text/plain; charset=utf-8"@
        } else {
            "application/octet-stream"@
        },
    }
}

/// Finds the kind of content that a file's extension stands for.
pub fn content_type(extension: Option<&str>) -> (kind: &'static str)
    ensures
        kind@ == content_type_of(header_bytes(extension)),
{
    match extension {
        None => "application/octet-stream",
        Some(value) => {
            let bytes = value.as_bytes();
            if same_bytes(bytes, "html".as_bytes()) {
                "text/html; charset=utf-8"
            } else if same_bytes(bytes, "css".as_bytes()) {
                "text/css; charset=utf-8"
            } else if same_bytes(bytes, "js".as_bytes()) {
                "application/javascript; charset=utf-8"
            } else if same_bytes(bytes, "json".as_bytes()) {
                "application/json; charset=utf-8"
            } else if same_bytes(bytes, "cbor".as_bytes()) {
                "application/cose"
            } else if same_bytes(bytes, "svg".as_bytes()) {
                "image/svg+xml"
            } else if same_bytes(bytes, "png".as_bytes()) {
                "image/png"
            } else if same_bytes(bytes, "jpg".as_bytes()) || same_bytes(bytes, "jpeg".as_bytes()) {
                "image/jpeg"
            } else if same_bytes(bytes, "ico".as_bytes()) {
                "image/x-icon"
            } else if same_bytes(bytes, "txt".as_bytes()) {
                "text/plain; charset=utf-8"
            } else {
                "application/octet-stream"
            }
        },
    }
}

/// A token is found in a header exactly where it follows the word and one space.
pub proof fn bearer_token_follows_its_word(header: Seq<u8>, token: Seq<u8>)
    ensures
        bearer_of(header) == Some(token) <==> header == text("Bearer ") + token,
        bearer_of(text("Bearer ") + token) == Some(token),
{
    let prefix = text("Bearer ");
    let whole = prefix + token;
    assert(whole.subrange(0, prefix.len() as int) =~= prefix);
    assert(whole.subrange(prefix.len() as int, whole.len() as int) =~= token);
    if bearer_of(header) is Some {
        assert(header =~= header.subrange(0, prefix.len() as int) + header.subrange(
            prefix.len() as int,
            header.len() as int,
        ));
    }
}

/// What becomes of a token: whoever shows one that the entrance takes is let in as that
/// client; else whoever shows one of a session that may move is let in for that session; and
/// nobody else is. How often sources have tried is not touched.
pub proof fn tokens_let_their_owners_in(
    keeper: GatekeeperModel,
    clients: Map<Seq<u8>, ClientModel>,
    request: RequestModel,
    exporter: Seq<u8>,
    encoded: Seq<u8>,
    unix_now: u64,
    now: u64,
)
    ensures
        ({
            let (after, answer) = keeper.token(
                clients,
                request,
                exporter,
                encoded,
                unix_now,
                now,
            );
            let (seen, client) = gate_answer(
                clients,
                keeper.seen,
                request,
                encoded,
                unix_now,
                now,
            );
            let (sessions, session) = migration_answer(
                keeper.sessions,
                encoded,
                exporter,
                1,
                unix_now,
                now,
            );
            &&& client is Ok ==> answer == TunnelModel::Admit(
                AdmissionModel::Handshake(client->Ok_0),
            ) && after.sessions == keeper.sessions
            &&& client is Err && session is Ok ==> answer == TunnelModel::Admit(
                AdmissionModel::Migration(session->Ok_0),
            )
            &&& client is Err && session is Err ==> answer == TunnelModel::Rejected
            &&& client is Err ==> after.sessions == sessions
            &&& after.seen == seen
            &&& after.rates == keeper.rates
        }),
{
}

/// A request opens the tunnel only with a token: a request over WebSocket for another path
/// or without an upgrade, and any request without a token, is answered like one for an unknown
/// page, and nothing is noted of it.
pub proof fn other_requests_change_nothing(
    keeper: GatekeeperModel,
    runtime: RuntimeModel,
    operational: bool,
    path: Seq<u8>,
    upgrade: bool,
    authorization: Option<Seq<u8>>,
    source: Seq<u8>,
    unix_now: u64,
    now: u64,
)
    ensures
        ({
            let shows = exists|token: Seq<u8>|
                authorization == Some(#[trigger] (text("Bearer ") + token));
            &&& !operational || !upgrade || path != encode_utf8(runtime.tunnel_path) || !shows
                ==> keeper.websocket(
                runtime,
                operational,
                path,
                upgrade,
                authorization,
                source,
                unix_now,
                now,
            ) == (keeper, TunnelModel::NotFound)
            &&& !operational || !shows ==> keeper.h2(
                runtime,
                operational,
                authorization,
                source,
                unix_now,
                now,
            ) == (keeper, TunnelModel::NotFound)
        }),
{
    if authorization is Some && bearer_of(authorization->Some_0) is Some {
        let token = bearer_of(authorization->Some_0)->Some_0;
        bearer_token_follows_its_word(authorization->Some_0, token);
        assert(authorization == Some(text("Bearer ") + token));
    }
}

/// A known client is let in: over WebSocket with a request for the tunnel's path, and over
/// HTTP/2, where it shows a token of its own for that very request, with a clock at most 90
/// seconds off, for the first time in 180 seconds, from a source that has not tried too often.
pub proof fn known_client_is_let_in(
    keeper: GatekeeperModel,
    runtime: RuntimeModel,
    id: Seq<u8>,
    unix_time: u64,
    nonce: Seq<u8>,
    source: Seq<u8>,
    unix_now: u64,
    now: u64,
)
    requires
        runtime.clients.contains_key(id),
        id.len() == 16,
        nonce.len() == 16,
        -90 <= unix_now - unix_time <= 90,
        keeper.seen.contains_key(id + nonce) ==> keeper.seen[id + nonce] + 180_000_000_000 < now,
        admitted(keeper.rates, source, now).1 is Ok,
        forall|key: Seq<u8>, message: Seq<u8>| (#[trigger] hmac_of(key, message)).len() == 32,
    ensures
        ({
            let own_path = encode_utf8(runtime.tunnel_path);
            let mac = hmac_of(
                runtime.clients[id].gate_key,
                text("RekaSerdoba/1 gate-lab") + text("GET") + seq![0u8] + encode_utf8(
                    runtime.authority,
                ) + seq![0u8] + own_path + seq![0u8] + id + be_bytes(unix_time as nat, 8) + nonce,
            );
            let token = base64url(id + be_bytes(unix_time as nat, 8) + nonce + mac);
            keeper.websocket(
                runtime,
                true,
                own_path,
                true,
                Some(text("Bearer ") + token),
                source,
                unix_now,
                now,
            ).1 == TunnelModel::Admit(AdmissionModel::Handshake(runtime.clients[id]))
        }),
        ({
            let mac = hmac_of(
                runtime.clients[id].gate_key,
                text("RekaSerdoba/1 gate-lab") + text("POST") + seq![0u8] + encode_utf8(
                    runtime.authority,
                ) + seq![0u8] + text("/connect/v1/h2") + seq![0u8] + id + be_bytes(
                    unix_time as nat,
                    8,
                ) + nonce,
            );
            let token = base64url(id + be_bytes(unix_time as nat, 8) + nonce + mac);
            keeper.h2(
                runtime,
                true,
                Some(text("Bearer ") + token),
                source,
                unix_now,
                now,
            ).1 == TunnelModel::Admit(AdmissionModel::Handshake(runtime.clients[id]))
        }),
{
    let tried = keeper.attempt(source, now).0;
    let authority = encode_utf8(runtime.authority);
    let own_path = encode_utf8(runtime.tunnel_path);
    let get = RequestModel::plain(text("GET"), authority, own_path);
    let post = RequestModel::plain(text("POST"), authority, text("/connect/v1/h2"));
    let get_mac = hmac_of(runtime.clients[id].gate_key, get.message(id, unix_time, nonce));
    let post_mac = hmac_of(runtime.clients[id].gate_key, post.message(id, unix_time, nonce));
    tokens_are_bound_to_their_request(
        Seq::empty(),
        text("GET"),
        authority,
        own_path,
        id,
        unix_time,
        nonce,
    );
    tokens_are_bound_to_their_request(
        Seq::empty(),
        text("POST"),
        authority,
        text("/connect/v1/h2"),
        id,
        unix_time,
        nonce,
    );
    tokens_are_judged_by_what_they_say(
        runtime.clients,
        tried.seen,
        get,
        id,
        unix_time,
        nonce,
        get_mac,
        unix_now,
        now,
    );
    tokens_are_judged_by_what_they_say(
        runtime.clients,
        tried.seen,
        post,
        id,
        unix_time,
        nonce,
        post_mac,
        unix_now,
        now,
    );
    let get_token = base64url(id + be_bytes(unix_time as nat, 8) + nonce + get_mac);
    let post_token = base64url(id + be_bytes(unix_time as nat, 8) + nonce + post_mac);
    bearer_token_follows_its_word(text("Bearer ") + get_token, get_token);
    bearer_token_follows_its_word(text("Bearer ") + post_token, post_token);
}

/// Who tries too often is turned away, whatever is shown; every try is noted.
pub proof fn too_many_tries_are_turned_away(
    keeper: GatekeeperModel,
    runtime: RuntimeModel,
    token: Seq<u8>,
    source: Seq<u8>,
    unix_now: u64,
    now: u64,
)
    ensures
        ({
            let (after, answer) = keeper.h2(
                runtime,
                true,
                Some(text("Bearer ") + token),
                source,
                unix_now,
                now,
            );
            &&& after.rates == admitted(keeper.rates, source, now).0
            &&& admitted(keeper.rates, source, now).1 is Err ==> answer == TunnelModel::Rejected
                && after.seen == keeper.seen && after.sessions == keeper.sessions
        }),
        ({
            let (after, answer) = keeper.websocket(
                runtime,
                true,
                encode_utf8(runtime.tunnel_path),
                true,
                Some(text("Bearer ") + token),
                source,
                unix_now,
                now,
            );
            &&& after.rates == admitted(keeper.rates, source, now).0
            &&& admitted(keeper.rates, source, now).1 is Err ==> answer == TunnelModel::Rejected
                && after.seen == keeper.seen && after.sessions == keeper.sessions
        }),
{
    bearer_token_follows_its_word(text("Bearer ") + token, token);
}

/// The server carries traffic where it is not draining and both its interface and its HTTP/3
/// listener are ready, and takes connections where it has carriers left as well; the probe
/// says so.
pub proof fn readiness_is_told(
    draining: bool,
    network_ready: bool,
    h3_ready: bool,
    operational: bool,
    free_carriers: usize,
    accepting: bool,
    answer: (u16, &'static str),
)
    requires
        call_ensures(is_operational, (draining, network_ready, h3_ready), operational),
        call_ensures(is_accepting, (operational, free_carriers), accepting),
        call_ensures(readiness, (accepting,), answer),
    ensures
        operational <==> !draining && network_ready && h3_ready,
        accepting <==> operational && free_carriers > 0,
        answer.0 == 200 <==> accepting,
        answer.0 == 503 <==> !accepting,
{
}

/// The part of a text before its first comma.
pub proof fn first_part_ends_at_the_first_comma(value: Seq<char>)
    ensures
        first_part(value).len() <= value.len(),
        first_part(value) == value.take(first_part(value).len() as int),
        forall|i: int| 0 <= i < first_part(value).len() ==> #[trigger] value[i] != ',',
        first_part(value).len() < value.len() ==> value[first_part(value).len() as int] == ',',
    decreases value.len(),
{
    if value.len() == 0 || value[0] == ',' {
        assert(value.take(0) =~= Seq::<char>::empty());
    } else {
        let rest = value.skip(1);
        first_part_ends_at_the_first_comma(rest);
        let part = first_part(value);
        assert(part =~= value.take(part.len() as int)) by {
            assert forall|i: int| 0 <= i < part.len() implies part[i] == value[i] by {
                if i > 0 {
                    assert(part[i] == first_part(rest)[i - 1]);
                    assert(first_part(rest)[i - 1] == rest.take(first_part(rest).len() as int)[i
                        - 1]);
                }
            }
        }
        assert forall|i: int| 0 <= i < part.len() implies #[trigger] value[i] != ',' by {
            if i > 0 {
                assert(rest[i - 1] == value[i]);
            }
        }
        if part.len() < value.len() {
            assert(value[part.len() as int] == rest[part.len() - 1]);
        }
    }
}

/// Only a proxy on this machine is believed: one whose address begins with 127, or is the
/// last 1 of IPv6. Whatever another peer says of the source of a request is passed over.
pub proof fn only_local_proxies_are_believed(
    header: Option<&str>,
    peer: &[u8],
    source: Option<Vec<char>>,
)
    requires
        call_ensures(forwarded_source, (header, peer), source),
    ensures
        ({
            let local = peer@.len() == 4 && peer@[0] == 127 || peer@.len() == 16 && peer@[15] == 1
                && forall|i: int| 0 <= i < 15 ==> #[trigger] peer@[i] == 0;
            &&& source is Some <==> header is Some && local
            &&& source is Some ==> source->Some_0@ == trimmed(first_part(header->Some_0@))
        }),
{
    let one = seq![0u8, 0, 0, 0, 0, 0, 0, 0, 0, 0, 0, 0, 0, 0, 0, 1];
    if peer@.len() == 16 && peer@[15] == 1 && forall|i: int|
        0 <= i < 15 ==> #[trigger] peer@[i] == 0 {
        assert(peer@ =~= one);
    }
}

/// An authority matches another exactly where they are equal, or one of them is the other
/// with port 443 behind it, in either case whatever the case of the letters.
pub proof fn authorities_match_up_to_the_port(a: Seq<u8>, b: Seq<u8>)
    ensures
        matches_authority(a, b) <==> lowered(a) == lowered(b) || lowered(a) == lowered(b) + text(
            ":443",
        ) || lowered(b) == lowered(a) + text(":443"),
        matches_authority(a, b) == matches_authority(b, a),
        matches_authority(a, a),
        matches_authority(a + text(":443"), a),
{
    lemma_without_port(a, b);
    lemma_without_port(b, a);
    lemma_without_port(a + text(":443"), a);
    lemma_lowered_port(a);
}

/// A port has no letters.
proof fn lemma_lowered_port(a: Seq<u8>)
    ensures
        lowered(a + text(":443")) == lowered(a) + text(":443"),
        text(":443") == seq![0x3au8, 0x34u8, 0x34u8, 0x33u8],
{
    reveal_strlit(":443");
    text_of_ascii(":443");
    assert(text(":443") =~= seq![0x3au8, 0x34u8, 0x34u8, 0x33u8]);
    assert(lowered(a + text(":443")) =~= lowered(a) + text(":443"));
}

/// An authority without its port.
proof fn lemma_without_port(long: Seq<u8>, short: Seq<u8>)
    ensures
        without_port(long) is Some && lowered(without_port(long)->Some_0) == lowered(short)
            <==> lowered(long) == lowered(short) + text(":443"),
{
    lemma_lowered_port(short);
    let port = text(":443");
    let n = long.len();
    if without_port(long) is Some && lowered(without_port(long)->Some_0) == lowered(short) {
        let front = long.subrange(0, n - 4);
        assert(long =~= front + port);
        lemma_lowered_port(front);
    }
    if lowered(long) == lowered(short) + port {
        let low = lowered(long);
        assert(low.len() == n && lowered(short).len() == short.len());
        assert(n == short.len() + 4);
        assert(low[n - 4] == 0x3a && low[n - 3] == 0x34 && low[n - 2] == 0x34 && low[n - 1]
            == 0x33);
        assert(long[n - 4] == 0x3a && long[n - 3] == 0x34 && long[n - 2] == 0x34 && long[n - 1]
            == 0x33);
        assert(long.subrange(n - 4, n as int) =~= port);
        assert(lowered(long.subrange(0, n - 4)) =~= low.subrange(0, n - 4));
        assert(low.subrange(0, n - 4) =~= lowered(short));
    }
}

/// An HTTP/3 request asks for the tunnel where it opens a WebTransport session at the
/// expected path of the expected server.
pub proof fn tunnel_requests_are_recognised(
    connect: bool,
    webtransport: bool,
    path: &str,
    authority: Option<&str>,
    expected_authority: &str,
    expected_path: &str,
    asks: bool,
)
    requires
        call_ensures(
            is_tunnel_request,
            (connect, webtransport, path, authority, expected_authority, expected_path),
            asks,
        ),
    ensures
        asks ==> connect && webtransport && authority is Some && text(path) == text(expected_path),
        asks ==> matches_authority(text(authority->Some_0), text(expected_authority)),
        connect && webtransport && authority is Some && text(path) == text(expected_path)
            && lowered(text(authority->Some_0)) == lowered(text(expected_authority)) ==> asks,
{
}

/// A page is answered with its body to a GET and without it to a HEAD; an unknown page is
/// not found, and no other method is allowed. Only files of at most a mebibyte are pages.
pub proof fn pages_are_answered(
    method: DecoyMethod,
    found: bool,
    status: u16,
    length: usize,
    sends: bool,
    is_file: bool,
    size: u64,
    serves: bool,
)
    requires
        call_ensures(decoy_status, (method, found), status),
        call_ensures(decoy_sends_body, (method, length), sends),
        call_ensures(decoy_serves, (is_file, size), serves),
    ensures
        method is Other <==> status == 405,
        status == 200 <==> !(method is Other) && found,
        status == 404 <==> !(method is Other) && !found,
        method is Head ==> !sends,
        !(method is Head) ==> sends == (length > 0),
        serves <==> is_file && size <= 0x10_0000,
{
}

/// The slashes at the front of a path are dropped, and nothing else.
proof fn lemma_without_slashes(path: Seq<u8>, count: int)
    requires
        0 <= count <= path.len(),
        forall|i: int| 0 <= i < count ==> #[trigger] path[i] == 0x2f,
        count < path.len() ==> path[count] != 0x2f,
    ensures
        without_slashes(path) == path.skip(count),
    decreases count,
{
    if count == 0 {
        assert(path.skip(0) =~= path);
    } else {
        let rest = path.skip(1);
        assert forall|i: int| 0 <= i < count - 1 implies #[trigger] rest[i] == 0x2f by {
            assert(rest[i] == path[i + 1]);
        }
        lemma_without_slashes(rest, count - 1);
        assert(rest.skip(count - 1) =~= path.skip(count));
    }
}

/// Every page can be asked for: behind the slashes at its front, a path names the file that
/// it reads as, unless one of its parts is two dots or the first is one; a path of slashes
/// names the index.
pub proof fn pages_are_named_by_their_paths(path: Seq<u8>, slashes: int)
    requires
        0 <= slashes <= path.len(),
        forall|i: int| 0 <= i < slashes ==> #[trigger] path[i] == 0x2f,
        slashes < path.len() ==> path[slashes] != 0x2f,
    ensures
        slashes == path.len() ==> decoy_file(path) == Some(text("index.html")),
        slashes < path.len() ==> {
            let name = path.skip(slashes);
            let dotted = name[0] == 0x2e && (name.len() == 1 || name[1] == 0x2f);
            let leaves = exists|at: int|
                0 <= at && at + 2 <= name.len() && #[trigger] name[at] == 0x2e && name[at + 1] == 0x2e && (at
                    == 0 || name[at - 1] == 0x2f) && (at + 2 == name.len() || name[at
                    + 2] == 0x2f);
            decoy_file(path) == if dotted || leaves {
                None
            } else {
                Some(name)
            }
        },
{
    lemma_without_slashes(path, slashes);
    let name = path.skip(slashes);
    if climbs(name) {
        let at = choose|at: int| #[trigger] climbs_at(name, at);
        assert(name[at] == 0x2e);
    }
    if exists|at: int|
        0 <= at && at + 2 <= name.len() && #[trigger] name[at] == 0x2e && name[at + 1] == 0x2e && (at == 0
            || name[at - 1] == 0x2f) && (at + 2 == name.len() || name[at + 2]
            == 0x2f) {
        let at = choose|at: int|
            0 <= at && at + 2 <= name.len() && #[trigger] name[at] == 0x2e && name[at + 1] == 0x2e && (at == 0
                || name[at - 1] == 0x2f) && (at + 2 == name.len() || name[at + 2]
                == 0x2f);
        assert(climbs_at(name, at));
    }
}

/// What is said of requests holds of what the gatekeeper does with them, and a session that
/// is entered can move until it is taken out.
pub proof fn gatekeeper_answers_as_stated()
    ensures
        forall|
            keeper: &mut Gatekeeper,
            runtime: &Runtime,
            operational: bool,
            path: &str,
            upgrade: bool,
            authorization: Option<&str>,
            source: Vec<u8>,
            unix_now: u64,
            now: u64,
            answer: TunnelAnswer,
        | #[trigger]
            call_ensures(
                Gatekeeper::answer_websocket,
                (
                    keeper,
                    runtime,
                    operational,
                    path,
                    upgrade,
                    authorization,
                    source,
                    unix_now,
                    now,
                ),
                answer,
            ) ==> (final(keeper)@, answer@) == keeper@.websocket(
                runtime@,
                operational,
                text(path),
                upgrade,
                header_bytes(authorization),
                source@,
                unix_now,
                now,
            ),
        forall|
            keeper: &mut Gatekeeper,
            runtime: &Runtime,
            operational: bool,
            authorization: Option<&str>,
            source: Vec<u8>,
            unix_now: u64,
            now: u64,
            answer: TunnelAnswer,
        | #[trigger]
            call_ensures(
                Gatekeeper::answer_h2,
                (keeper, runtime, operational, authorization, source, unix_now, now),
                answer,
            ) ==> (final(keeper)@, answer@) == keeper@.h2(
                runtime@,
                operational,
                header_bytes(authorization),
                source@,
                unix_now,
                now,
            ),
        forall|
            keeper: &mut Gatekeeper,
            runtime: &Runtime,
            exporter: &[u8; 32],
            authority: &str,
            path: &str,
            encoded: &str,
            unix_now: u64,
            now: u64,
            answer: TunnelAnswer,
        | #[trigger]
            call_ensures(
                Gatekeeper::answer_h3,
                (keeper, runtime, exporter, authority, path, encoded, unix_now, now),
                answer,
            ) ==> (final(keeper)@, answer@) == keeper@.token(
                runtime@.clients,
                RequestModel::h3(exporter@, text(authority), text(path)),
                exporter@,
                text(encoded),
                unix_now,
                now,
            ),
        forall|
            keeper: &mut Gatekeeper,
            session_id: &[u8; 16],
            secret: Secret,
            out: Result<(), Error>,
        | #[trigger]
            call_ensures(Gatekeeper::register_migration, (keeper, session_id, secret), out) ==> {
                &&& out is Ok <==> !keeper@.sessions.contains_key(session_id@)
                &&& final(keeper)@.sessions == entered(keeper@.sessions, session_id@, secret@)
                &&& final(keeper)@.seen == keeper@.seen
                &&& final(keeper)@.rates == keeper@.rates
            },
        forall|keeper: &mut Gatekeeper, session_id: &[u8; 16], done: ()| #[trigger]
            call_ensures(Gatekeeper::unregister_migration, (keeper, session_id), done) ==> {
                &&& final(keeper)@.sessions == keeper@.sessions.remove(session_id@)
                &&& final(keeper)@.seen == keeper@.seen
                &&& final(keeper)@.rates == keeper@.rates
            },
        forall|keeper: &mut Gatekeeper, source: Vec<u8>, now: u64, passed: bool| #[trigger]
            call_ensures(Gatekeeper::attempt, (keeper, source, now), passed) ==> {
                let (rates, out) = admitted(keeper@.rates, source@, now);
                &&& passed == (out is Ok)
                &&& final(keeper)@.rates == rates
                &&& final(keeper)@.seen == keeper@.seen
                &&& final(keeper)@.sessions == keeper@.sessions
            },
        forall|answer: &TunnelAnswer, status: u16| #[trigger]
            call_ensures(TunnelAnswer::status, (answer,), status) ==> (status == 200 <==> answer@
                is Admit) && (status == 404 <==> !(answer@ is Admit)),
{
}

/// Pages are sent as what their extensions stand for; one without a known extension is bytes.
pub proof fn pages_have_their_kinds(extension: Option<&str>, kind: &'static str)
    requires
        call_ensures(content_type, (extension,), kind),
    ensures
        extension is None ==> kind@ == "application/octet-stream"@,
        extension is Some ==> {
            let value = text(extension->Some_0);
            &&& value == text("html") ==> kind@ == "text/html; charset=utf-8"@
            &&& value == text("css") && value != text("html") ==> kind@
                == "text/css; charset=utf-8"@
            &&& value != text("html") && value != text("css") && value != text("js") && value
                != text("json") && value != text("cbor") && value != text("svg") && value != text(
                "png",
            ) && value != text("jpg") && value != text("jpeg") && value != text("ico") && value
                != text("txt") ==> kind@ == "application/octet-stream"@
        },
        forall|path: &[u8], file: Option<Vec<u8>>| #[trigger]
            call_ensures(decoy_path, (path,), file) ==> (file is Some <==> decoy_file(path@)
                is Some) && (file is Some ==> file->Some_0@ == decoy_file(path@)->Some_0),
{
}

} // verus!
