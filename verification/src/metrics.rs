//! How a carrier is served from its first moment to its last, and what is counted.
use crate::carrier::CarrierKind;
use crate::diagnostics::{disconnect_reason, Disconnect};
use crate::dispatch::{FrameAction, FrameFailure};
use crate::wire::text;
use vstd::prelude::*;

verus! {

/// The sum of two numbers; it wraps around.
pub open spec fn summed(value: u64, more: u64) -> u64 {
    if value + more > u64::MAX {
        (value + more - u64::MAX - 1) as u64
    } else {
        (value + more) as u64
    }
}

/// One more, wrapping around.
pub open spec fn counted(value: u64) -> u64 {
    summed(value, 1)
}

/// Adds two numbers; the sum wraps around.
pub fn add_up(value: u64, more: u64) -> (sum: u64)
    ensures
        sum == summed(value, more),
{
    if more > u64::MAX - value {
        more - (u64::MAX - value) - 1
    } else {
        value + more
    }
}

/// Counts one more.
pub fn count(value: u64) -> (next: u64)
    ensures
        next == counted(value),
{
    add_up(value, 1)
}

/// What happened since the server started. The counters wrap around.
#[derive(Clone, Copy, Debug, PartialEq, Eq, Structural)]
pub struct Metrics {
    pub gate_rejected: u64,
    pub handshake_failed: u64,
    pub sessions_total: u64,
    pub sessions_active: u64,
    pub migrations_total: u64,
    pub overloaded_total: u64,
    pub disconnects_expected_total: u64,
    pub disconnects_error_total: u64,
    pub handshake_duration_micros_total: u64,
    pub handshake_attempts_total: u64,
    pub shaping_delay_micros_total: u64,
    pub wss_sessions_total: u64,
    pub h2_sessions_total: u64,
    pub h3_sessions_total: u64,
    pub routine_rekeys_total: u64,
    pub full_rekeys_total: u64,
    pub rekey_failed_total: u64,
    pub migration_failed_total: u64,
}

/// How a handshake ended.
#[derive(Clone, Copy, Debug, PartialEq, Eq, Structural)]
pub enum HandshakeOutcome {
    /// A session is established over this kind of carrier.
    Established(CarrierKind),
    Failed,
    TimedOut,
}

/// A number of microseconds as it is added to a counter.
pub open spec fn counted_micros(micros: u128) -> u64 {
    if micros > u64::MAX {
        u64::MAX
    } else {
        micros as u64
    }
}

/// Brings a number of microseconds into the range of a counter.
fn fit_micros(micros: u128) -> (out: u64)
    ensures
        out == counted_micros(micros),
{
    if micros > u64::MAX as u128 {
        u64::MAX
    } else {
        micros as u64
    }
}

impl Metrics {
    /// Nothing has happened yet.
    pub open spec fn none() -> Self {
        Metrics {
            gate_rejected: 0,
            handshake_failed: 0,
            sessions_total: 0,
            sessions_active: 0,
            migrations_total: 0,
            overloaded_total: 0,
            disconnects_expected_total: 0,
            disconnects_error_total: 0,
            handshake_duration_micros_total: 0,
            handshake_attempts_total: 0,
            shaping_delay_micros_total: 0,
            wss_sessions_total: 0,
            h2_sessions_total: 0,
            h3_sessions_total: 0,
            routine_rekeys_total: 0,
            full_rekeys_total: 0,
            rekey_failed_total: 0,
            migration_failed_total: 0,
        }
    }

    /// The counters when a carrier is taken up; `permit` where there is room for it.
    pub open spec fn after_start(self, permit: bool, draining: bool) -> Self {
        if !permit {
            Metrics { overloaded_total: counted(self.overloaded_total), ..self }
        } else if draining {
            self
        } else {
            Metrics { handshake_attempts_total: counted(self.handshake_attempts_total), ..self }
        }
    }

    /// The counters once a handshake has ended.
    pub open spec fn after_handshake(self, outcome: HandshakeOutcome, micros: u128) -> Self {
        let timed = Metrics {
            handshake_duration_micros_total: summed(
                self.handshake_duration_micros_total,
                counted_micros(micros),
            ),
            ..self
        };
        match outcome {
            HandshakeOutcome::Established(kind) => Metrics {
                sessions_total: counted(self.sessions_total),
                sessions_active: counted(self.sessions_active),
                wss_sessions_total: if kind == CarrierKind::Wss {
                    counted(self.wss_sessions_total)
                } else {
                    self.wss_sessions_total
                },
                h2_sessions_total: if kind == CarrierKind::H2 {
                    counted(self.h2_sessions_total)
                } else {
                    self.h2_sessions_total
                },
                h3_sessions_total: if kind == CarrierKind::H3 {
                    counted(self.h3_sessions_total)
                } else {
                    self.h3_sessions_total
                },
                ..timed
            },
            _ => Metrics { handshake_failed: counted(self.handshake_failed), ..timed },
        }
    }

    /// The counters once a session has ended, with the failure that ended it.
    pub open spec fn after_session(self, failure: Option<Seq<u8>>) -> Self {
        let ended = Metrics { sessions_active: summed(self.sessions_active, u64::MAX), ..self };
        match failure {
            None => ended,
            Some(message) => if Disconnect::of(message) == Disconnect::ProtocolError {
                Metrics { disconnects_error_total: counted(self.disconnects_error_total), ..ended }
            } else {
                Metrics {
                    disconnects_expected_total: counted(self.disconnects_expected_total),
                    ..ended
                }
            },
        }
    }

    /// The counters once a frame was taken.
    pub open spec fn after_frame(self, taken: Result<FrameAction, FrameFailure>) -> Self {
        match taken {
            Ok(FrameAction::SendUpdate(_)) => Metrics {
                routine_rekeys_total: counted(self.routine_rekeys_total),
                ..self
            },
            Ok(FrameAction::SendRekey(_)) => Metrics {
                full_rekeys_total: counted(self.full_rekeys_total),
                ..self
            },
            Err(failure) => if failure.rekey_failed {
                Metrics { rekey_failed_total: counted(self.rekey_failed_total), ..self }
            } else {
                self
            },
            _ => self,
        }
    }

    /// All counters are zero.
    pub fn new() -> (metrics: Self)
        ensures
            metrics == Metrics::none(),
    {
        Metrics {
            gate_rejected: 0,
            handshake_failed: 0,
            sessions_total: 0,
            sessions_active: 0,
            migrations_total: 0,
            overloaded_total: 0,
            disconnects_expected_total: 0,
            disconnects_error_total: 0,
            handshake_duration_micros_total: 0,
            handshake_attempts_total: 0,
            shaping_delay_micros_total: 0,
            wss_sessions_total: 0,
            h2_sessions_total: 0,
            h3_sessions_total: 0,
            routine_rekeys_total: 0,
            full_rekeys_total: 0,
            rekey_failed_total: 0,
            migration_failed_total: 0,
        }
    }

    /// A request was turned away.
    pub fn rejected(&mut self)
        ensures
            *final(self) == (Metrics {
                gate_rejected: counted(old(self).gate_rejected),
                ..*old(self)
            }),
    {
        self.gate_rejected = count(self.gate_rejected);
    }

    /// Takes a carrier up; whether a handshake begins is returned.
    pub fn session_starts(&mut self, permit: bool, draining: bool) -> (begins: bool)
        ensures
            begins == (permit && !draining),
            *final(self) == old(self).after_start(permit, draining),
    {
        if !permit {
            self.overloaded_total = count(self.overloaded_total);
            return false;
        }
        if draining {
            return false;
        }
        self.handshake_attempts_total = count(self.handshake_attempts_total);
        true
    }

    /// A handshake has ended after so many microseconds; whether there is a session
    /// now is returned.
    pub fn handshake_ended(&mut self, outcome: HandshakeOutcome, micros: u128) -> (established:
        bool)
        ensures
            established == (outcome is Established),
            *final(self) == old(self).after_handshake(outcome, micros),
    {
        self.handshake_duration_micros_total = add_up(
            self.handshake_duration_micros_total,
            fit_micros(micros),
        );
        match outcome {
            HandshakeOutcome::Established(kind) => {
                self.sessions_total = count(self.sessions_total);
                self.sessions_active = count(self.sessions_active);
                match kind {
                    CarrierKind::Wss => {
                        self.wss_sessions_total = count(self.wss_sessions_total);
                    },
                    CarrierKind::H2 => {
                        self.h2_sessions_total = count(self.h2_sessions_total);
                    },
                    CarrierKind::H3 => {
                        self.h3_sessions_total = count(self.h3_sessions_total);
                    },
                }
                true
            },
            _ => {
                self.handshake_failed = count(self.handshake_failed);
                false
            },
        }
    }

    /// A session has ended. Where a failure ended it, the name of the reason is returned,
    /// and whether sessions are expected to end so.
    pub fn session_ended(&mut self, failure: Option<&str>) -> (reason: Option<
        (&'static str, bool),
    >)
        ensures
            *final(self) == old(self).after_session(
                match failure {
                    Some(message) => Some(text(message)),
                    None => None,
                },
            ),
            match failure {
                Some(message) => reason is Some && reason->Some_0.0@ == Disconnect::of(
                    text(message),
                ).name() && reason->Some_0.1 == (Disconnect::of(text(message))
                    != Disconnect::ProtocolError),
                None => reason is None,
            },
    {
        self.sessions_active = add_up(self.sessions_active, u64::MAX);
        match failure {
            None => None,
            Some(message) => {
                let reason = disconnect_reason(message);
                if reason.1 {
                    self.disconnects_expected_total = count(self.disconnects_expected_total);
                } else {
                    self.disconnects_error_total = count(self.disconnects_error_total);
                }
                Some(reason)
            },
        }
    }

    /// A frame was taken.
    pub fn frame_taken(&mut self, taken: &Result<FrameAction, FrameFailure>)
        ensures
            *final(self) == old(self).after_frame(*taken),
    {
        match taken {
            Ok(FrameAction::SendUpdate(_)) => {
                self.routine_rekeys_total = count(self.routine_rekeys_total);
            },
            Ok(FrameAction::SendRekey(_)) => {
                self.full_rekeys_total = count(self.full_rekeys_total);
            },
            Err(failure) => {
                if failure.rekey_failed {
                    self.rekey_failed_total = count(self.rekey_failed_total);
                }
            },
            _ => {},
        }
    }

    /// The server has asked the client for a key update.
    pub fn update_requested(&mut self)
        ensures
            *final(self) == (Metrics {
                routine_rekeys_total: counted(old(self).routine_rekeys_total),
                ..*old(self)
            }),
    {
        self.routine_rekeys_total = count(self.routine_rekeys_total);
    }

    /// A carrier has tried to take a session over.
    pub fn migration_ended(&mut self, migrated: bool)
        ensures
            *final(self) == if migrated {
                (Metrics { migrations_total: counted(old(self).migrations_total), ..*old(self) })
            } else {
                (Metrics {
                    migration_failed_total: counted(old(self).migration_failed_total),
                    ..*old(self)
                })
            },
    {
        if migrated {
            self.migrations_total = count(self.migrations_total);
        } else {
            self.migration_failed_total = count(self.migration_failed_total);
        }
    }

    /// A packet has to wait so many nanoseconds; whether it waits at all is returned.
    pub fn packet_shaped(&mut self, delay: u64) -> (waits: bool)
        ensures
            waits == (delay != 0),
            *final(self) == (Metrics {
                shaping_delay_micros_total: summed(
                    old(self).shaping_delay_micros_total,
                    delay / 1000,
                ),
                ..*old(self)
            }),
    {
        self.shaping_delay_micros_total = add_up(self.shaping_delay_micros_total, delay / 1000);
        delay != 0
    }
}

/// A session that ends is no longer counted as active, however it ends, and whatever
/// else was counted meanwhile.
pub proof fn active_sessions_are_balanced(
    metrics: Metrics,
    kind: CarrierKind,
    micros: u128,
    later: Metrics,
    failure: Option<Seq<u8>>,
)
    requires
        later.sessions_active == metrics.after_handshake(
            HandshakeOutcome::Established(kind),
            micros,
        ).sessions_active,
    ensures
        later.after_session(failure).sessions_active == metrics.sessions_active,
{
}

/// Each session is counted for exactly one kind of carrier.
pub proof fn sessions_are_counted_by_carrier(
    metrics: Metrics,
    outcome: HandshakeOutcome,
    micros: u128,
)
    requires
        metrics.sessions_total == summed(
            metrics.wss_sessions_total,
            summed(metrics.h2_sessions_total, metrics.h3_sessions_total),
        ),
    ensures
        ({
            let after = metrics.after_handshake(outcome, micros);
            after.sessions_total == summed(
                after.wss_sessions_total,
                summed(after.h2_sessions_total, after.h3_sessions_total),
            )
        }),
{
}

/// A number counts up by one, and starts anew where it is full.
pub proof fn numbers_count_up(value: u64, more: u64)
    ensures
        value < u64::MAX ==> counted(value) == value + 1,
        counted(u64::MAX) == 0,
        value + more <= u64::MAX ==> summed(value, more) == value + more,
        value > 0 ==> summed(value, u64::MAX) == value - 1,
{
}

/// A carrier that finds no room is counted as such, one that comes while the server drains is
/// not counted, and every other begins a handshake.
pub proof fn carriers_are_counted(metrics: Metrics, draining: bool)
    ensures
        metrics.after_start(false, draining) == (Metrics {
            overloaded_total: counted(metrics.overloaded_total),
            ..metrics
        }),
        metrics.after_start(true, true) == metrics,
        metrics.after_start(true, false) == (Metrics {
            handshake_attempts_total: counted(metrics.handshake_attempts_total),
            ..metrics
        }),
{
}

/// A handshake is counted with its time however it ends: as a session, in total, as active
/// and for its carrier, or as failed.
pub proof fn handshakes_are_counted(metrics: Metrics, kind: CarrierKind, micros: u64)
    ensures
        ({
            let total = summed(metrics.handshake_duration_micros_total, micros);
            let after = metrics.after_handshake(
                HandshakeOutcome::Established(kind),
                micros as u128,
            );
            &&& after.handshake_duration_micros_total == total
            &&& after.sessions_total == counted(metrics.sessions_total)
            &&& after.sessions_active == counted(metrics.sessions_active)
            &&& after.handshake_failed == metrics.handshake_failed
            &&& kind is Wss ==> after.wss_sessions_total == counted(metrics.wss_sessions_total)
                && after.h2_sessions_total == metrics.h2_sessions_total && after.h3_sessions_total
                == metrics.h3_sessions_total
            &&& kind is H2 ==> after.h2_sessions_total == counted(metrics.h2_sessions_total)
                && after.wss_sessions_total == metrics.wss_sessions_total
                && after.h3_sessions_total == metrics.h3_sessions_total
            &&& kind is H3 ==> after.h3_sessions_total == counted(metrics.h3_sessions_total)
                && after.wss_sessions_total == metrics.wss_sessions_total
                && after.h2_sessions_total == metrics.h2_sessions_total
            &&& metrics.after_handshake(HandshakeOutcome::Failed, micros as u128) == (Metrics {
                handshake_duration_micros_total: total,
                handshake_failed: counted(metrics.handshake_failed),
                ..metrics
            })
            &&& metrics.after_handshake(HandshakeOutcome::TimedOut, micros as u128) == (Metrics {
                handshake_duration_micros_total: total,
                handshake_failed: counted(metrics.handshake_failed),
                ..metrics
            })
        }),
{
}

/// The end of a session is counted by its reason: as an error where it is a protocol error, as
/// expected for every other reason, and as neither where nothing failed.
pub proof fn ends_are_counted_by_their_reasons(metrics: Metrics, message: Seq<u8>)
    ensures
        ({
            let after = metrics.after_session(Some(message));
            let error = Disconnect::of(message) is ProtocolError;
            &&& after.disconnects_error_total == if error {
                counted(metrics.disconnects_error_total)
            } else {
                metrics.disconnects_error_total
            }
            &&& after.disconnects_expected_total == if error {
                metrics.disconnects_expected_total
            } else {
                counted(metrics.disconnects_expected_total)
            }
            &&& after.sessions_total == metrics.sessions_total
            &&& metrics.after_session(None).disconnects_error_total
                == metrics.disconnects_error_total
            &&& metrics.after_session(None).disconnects_expected_total
                == metrics.disconnects_expected_total
        }),
{
}

/// A change of keys is counted by its kind when it begins, and as failed when it fails; no
/// other frame is counted.
pub proof fn key_changes_are_counted(metrics: Metrics, taken: Result<FrameAction, FrameFailure>)
    ensures
        ({
            let after = metrics.after_frame(taken);
            let update = taken is Ok && taken->Ok_0 is SendUpdate;
            let rekey = taken is Ok && taken->Ok_0 is SendRekey;
            let failed = taken is Err && taken->Err_0.rekey_failed;
            &&& update ==> after == (Metrics {
                routine_rekeys_total: counted(metrics.routine_rekeys_total),
                ..metrics
            })
            &&& rekey ==> after == (Metrics {
                full_rekeys_total: counted(metrics.full_rekeys_total),
                ..metrics
            })
            &&& failed ==> after == (Metrics {
                rekey_failed_total: counted(metrics.rekey_failed_total),
                ..metrics
            })
            &&& !update && !rekey && !failed ==> after == metrics
        }),
{
}

/// What happens is counted as stated, and what is asked is answered: whether a handshake
/// begins, whether there is a session, and whether a packet waits.
pub proof fn events_are_counted()
    ensures
        forall|metrics: &mut Metrics, done: ()| #[trigger]
            call_ensures(Metrics::rejected, (metrics,), done) ==> *final(metrics) == (Metrics {
                gate_rejected: counted(metrics.gate_rejected),
                ..*metrics
            }),
        forall|metrics: &mut Metrics, permit: bool, draining: bool, begins: bool| #[trigger]
            call_ensures(Metrics::session_starts, (metrics, permit, draining), begins) ==> begins
                == (permit && !draining) && *final(metrics) == metrics.after_start(
                permit,
                draining,
            ),
        forall|metrics: &mut Metrics, outcome: HandshakeOutcome, micros: u128, established: bool|
            #[trigger]
            call_ensures(Metrics::handshake_ended, (metrics, outcome, micros), established)
                ==> established == (outcome is Established) && *final(metrics)
                == metrics.after_handshake(outcome, micros),
        forall|
            metrics: &mut Metrics,
            failure: Option<&str>,
            reason: Option<(&'static str, bool)>,
        | #[trigger]
            call_ensures(Metrics::session_ended, (metrics, failure), reason) ==> {
                &&& reason is Some <==> failure is Some
                &&& failure is None ==> *final(metrics) == metrics.after_session(None)
                &&& failure is Some ==> *final(metrics) == metrics.after_session(
                    Some(text(failure->Some_0)),
                ) && reason->Some_0.0@ == Disconnect::of(text(failure->Some_0)).name()
                    && reason->Some_0.1 == !(Disconnect::of(text(failure->Some_0))
                    is ProtocolError)
            },
        forall|metrics: &mut Metrics, taken: &Result<FrameAction, FrameFailure>, done: ()|
            #[trigger]
            call_ensures(Metrics::frame_taken, (metrics, taken), done) ==> *final(metrics)
                == metrics.after_frame(*taken),
        forall|metrics: &mut Metrics, done: ()| #[trigger]
            call_ensures(Metrics::update_requested, (metrics,), done) ==> *final(metrics) == (
            Metrics { routine_rekeys_total: counted(metrics.routine_rekeys_total), ..*metrics }),
        forall|metrics: &mut Metrics, migrated: bool, done: ()| #[trigger]
            call_ensures(Metrics::migration_ended, (metrics, migrated), done) ==> {
                &&& migrated ==> *final(metrics) == (Metrics {
                    migrations_total: counted(metrics.migrations_total),
                    ..*metrics
                })
                &&& !migrated ==> *final(metrics) == (Metrics {
                    migration_failed_total: counted(metrics.migration_failed_total),
                    ..*metrics
                })
            },
        forall|metrics: &mut Metrics, delay: u64, waits: bool| #[trigger]
            call_ensures(Metrics::packet_shaped, (metrics, delay), waits) ==> waits == (delay > 0)
                && *final(metrics) == (Metrics {
                shaping_delay_micros_total: summed(
                    metrics.shaping_delay_micros_total,
                    delay / 1000,
                ),
                ..*metrics
            }),
{
}

} // verus!
