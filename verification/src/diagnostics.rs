//! Why a session ended, and which build is running.
use crate::strings::{
    chars_of, contains_ignoring_case, lower, lower_byte, lowered, occurs_in, trim, trimmed,
};
use crate::wire::text;
use vstd::prelude::*;

verus! {

/// Why a session ended.
#[derive(Clone, Copy, Debug, PartialEq, Eq, Structural)]
pub enum Disconnect {
    SessionLifetime,
    SessionQuota,
    PeerClosed,
    DuplicateSession,
    TransportTimeout,
    ProtocolError,
}

impl Disconnect {
    /// The reason that a message gives. The case of its letters does not matter.
    pub open spec fn of(message: Seq<u8>) -> Self {
        let message = lowered(message);
        if occurs_in(message, text("lifetime expired")) {
            Disconnect::SessionLifetime
        } else if occurs_in(message, text("quota exceeded")) {
            Disconnect::SessionQuota
        } else if occurs_in(message, text("carrier closed")) || occurs_in(
            message,
            text("connection reset"),
        ) || occurs_in(message, text("broken pipe")) || occurs_in(
            message,
            text("error reading a body from connection"),
        ) {
            Disconnect::PeerClosed
        } else if occurs_in(message, text("already has an active session")) {
            Disconnect::DuplicateSession
        } else if occurs_in(message, text("timed out")) || occurs_in(message, text("timeout")) {
            Disconnect::TransportTimeout
        } else {
            Disconnect::ProtocolError
        }
    }

    /// The name under which the reason is logged.
    pub open spec fn name(self) -> Seq<char> {
        match self {
            Disconnect::SessionLifetime => "session_lifetime"@,
            Disconnect::SessionQuota => "session_quota"@,
            Disconnect::PeerClosed => "peer_closed"@,
            Disconnect::DuplicateSession => "duplicate_session"@,
            Disconnect::TransportTimeout => "transport_timeout"@,
            Disconnect::ProtocolError => "protocol_error"@,
        }
    }

    /// The name under which the reason is logged.
    pub fn code(self) -> (code: &'static str)
        ensures
            code@ == self.name(),
    {
        match self {
            Disconnect::SessionLifetime => "session_lifetime",
            Disconnect::SessionQuota => "session_quota",
            Disconnect::PeerClosed => "peer_closed",
            Disconnect::DuplicateSession => "duplicate_session",
            Disconnect::TransportTimeout => "transport_timeout",
            Disconnect::ProtocolError => "protocol_error",
        }
    }
}

/// Finds out why a session ended: the name of the reason, and whether sessions are
/// expected to end so.
pub fn disconnect_reason(message: &str) -> (out: (&'static str, bool))
    ensures
        out.0@ == Disconnect::of(text(message)).name(),
        out.1 == (Disconnect::of(text(message)) != Disconnect::ProtocolError),
{
    let bytes = message.as_bytes();
    let reason = if contains_ignoring_case(bytes, "lifetime expired".as_bytes()) {
        Disconnect::SessionLifetime
    } else if contains_ignoring_case(bytes, "quota exceeded".as_bytes()) {
        Disconnect::SessionQuota
    } else if contains_ignoring_case(bytes, "carrier closed".as_bytes())
        || contains_ignoring_case(bytes, "connection reset".as_bytes())
        || contains_ignoring_case(bytes, "broken pipe".as_bytes())
        || contains_ignoring_case(bytes, "error reading a body from connection".as_bytes()) {
        Disconnect::PeerClosed
    } else if contains_ignoring_case(bytes, "already has an active session".as_bytes()) {
        Disconnect::DuplicateSession
    } else if contains_ignoring_case(bytes, "timed out".as_bytes()) || contains_ignoring_case(
        bytes,
        "timeout".as_bytes(),
    ) {
        Disconnect::TransportTimeout
    } else {
        Disconnect::ProtocolError
    };
    (reason.code(), reason != Disconnect::ProtocolError)
}

/// Whether the loop over a connection's requests ended because the connection was
/// closed.
pub fn closed_by_peer(message: &str) -> (closed: bool)
    ensures
        closed == occurs_in(lowered(text(message)), text("closed")),
{
    contains_ignoring_case(message.as_bytes(), "closed".as_bytes())
}

/// A hexadecimal digit.
pub open spec fn hex_digit(c: char) -> bool {
    let code = c as u32;
    0x30 <= code <= 0x39 || 0x41 <= code <= 0x46 || 0x61 <= code <= 0x66
}

/// The name of a commit: 7 to 64 hexadecimal digits.
pub open spec fn commit_name(value: Seq<char>) -> bool {
    7 <= value.len() <= 64 && forall|i: int|
        0 <= i < value.len() ==> hex_digit(#[trigger] value[i])
}

/// Reads the name of a commit, which white space may surround; its letters come out
/// in lower case.
pub fn validate_sha(value: &str) -> (out: Option<Vec<u8>>)
    ensures
        out is Some <==> commit_name(trimmed(value@)),
        out is Some ==> out->Some_0@ == Seq::new(
            trimmed(value@).len(),
            |i: int| lower(trimmed(value@)[i] as u8),
        ),
{
    let core = trim(&chars_of(value));
    if core.len() < 7 || core.len() > 64 {
        return None;
    }
    let mut out: Vec<u8> = Vec::new();
    let mut index: usize = 0;
    while index < core.len()
        invariant
            core@ == trimmed(value@),
            index <= core@.len(),
            out@.len() == index,
            forall|i: int| 0 <= i < index ==> hex_digit(#[trigger] core@[i]),
            forall|i: int| 0 <= i < index ==> #[trigger] out@[i] == lower(core@[i] as u8),
        decreases core@.len() - index,
    {
        let c = core[index];
        let code: u32 = c as u32;
        if !((code >= 0x30 && code <= 0x39) || (code >= 0x41 && code <= 0x46) || (code >= 0x61
            && code <= 0x66)) {
            assert(!hex_digit(core@[index as int]));
            return None;
        }
        out.push(lower_byte(c as u8));
        index = index + 1;
    }
    assert(out@ =~= Seq::new(core@.len(), |i: int| lower(core@[i] as u8)));
    Some(out)
}

/// Why a session ended is told by its message, wherever the words stand in it and whatever
/// the case of their letters. A lifetime that is over comes before a quota, that before a peer
/// that has closed, that before a second session and that before a time-out; a message without
/// any of the words is a protocol error.
pub proof fn reasons_are_told_by_their_words(message: Seq<u8>)
    ensures
        ({
            let words = lowered(message);
            let lifetime = occurs_in(words, text("lifetime expired"));
            let quota = occurs_in(words, text("quota exceeded"));
            let closed = occurs_in(words, text("carrier closed")) || occurs_in(
                words,
                text("connection reset"),
            ) || occurs_in(words, text("broken pipe")) || occurs_in(
                words,
                text("error reading a body from connection"),
            );
            let duplicate = occurs_in(words, text("already has an active session"));
            let late = occurs_in(words, text("timed out")) || occurs_in(words, text("timeout"));
            let reason = Disconnect::of(message);
            &&& reason is SessionLifetime <==> lifetime
            &&& reason is SessionQuota <==> quota && !lifetime
            &&& reason is PeerClosed <==> closed && !lifetime && !quota
            &&& reason is DuplicateSession <==> duplicate && !lifetime && !quota && !closed
            &&& reason is TransportTimeout <==> late && !lifetime && !quota && !closed && !duplicate
            &&& reason is ProtocolError <==> !lifetime && !quota && !closed && !duplicate && !late
        }),
        Disconnect::of(lowered(message)) == Disconnect::of(message),
{
    assert(lowered(lowered(message)) =~= lowered(message));
}

/// Only a protocol error is unexpected.
pub proof fn only_protocol_errors_are_unexpected(message: &str, out: (&'static str, bool))
    requires
        call_ensures(disconnect_reason, (message,), out),
    ensures
        out.1 <==> !(Disconnect::of(text(message)) is ProtocolError),
        out.0@ == Disconnect::of(text(message)).name(),
{
}

/// A connection was closed where its message says so, in letters of any case; and the name of
/// a commit has 7 to 64 hexadecimal digits, between any white space, and comes out in lower
/// case.
pub proof fn messages_and_commits_are_read(
    message: &str,
    closed: bool,
    value: &str,
    out: Option<Vec<u8>>,
)
    requires
        call_ensures(closed_by_peer, (message,), closed),
        call_ensures(validate_sha, (value,), out),
    ensures
        closed <==> occurs_in(lowered(text(message)), text("closed")),
        ({
            let digits = trimmed(value@);
            &&& out is Some <==> 7 <= digits.len() <= 64 && forall|i: int|
                0 <= i < digits.len() ==> {
                    let code = (#[trigger] digits[i]) as u32;
                    48 <= code <= 57 || 65 <= code <= 70 || 97 <= code <= 102
                }
            &&& out is Some ==> out->Some_0@.len() == digits.len() && forall|i: int|
                0 <= i < digits.len() ==> {
                    let code = digits[i] as u8;
                    (#[trigger] out->Some_0@[i]) == if 65 <= code <= 90 {
                        (code + 32) as u8
                    } else {
                        code
                    }
                }
        }),
{
    let digits = trimmed(value@);
    if commit_name(digits) {
        assert forall|i: int| 0 <= i < digits.len() implies ({
            let code = (#[trigger] digits[i]) as u32;
            48 <= code <= 57 || 65 <= code <= 70 || 97 <= code <= 102
        }) by {
            assert(hex_digit(digits[i]));
        }
    }
    if 7 <= digits.len() <= 64 && (forall|i: int|
        0 <= i < digits.len() ==> {
            let code = (#[trigger] digits[i]) as u32;
            48 <= code <= 57 || 65 <= code <= 70 || 97 <= code <= 102
        }) {
        assert forall|i: int| 0 <= i < digits.len() implies hex_digit(#[trigger] digits[i]) by {}
    }
}

} // verus!
