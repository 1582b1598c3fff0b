//! What a session may use: its lifetime, its quota and its bandwidth.
//!
//! A clock reading is the number of nanoseconds since some origin, in 64 bits. A
//! moment computed from one has 128 bits, so it never overflows.
use crate::error::Error;
use vstd::prelude::*;

verus! {

/// The smallest burst that a bucket allows.
pub const MINIMUM_BURST_BYTES: u64 = 16_384;

/// The largest burst that a bucket allows.
pub const MAXIMUM_BURST_BYTES: u64 = 4_194_304;

/// The nanoseconds of a second.
pub const SECOND: u64 = 1_000_000_000;

/// A token bucket as values.
#[verifier::ext_equal]
pub struct BucketModel {
    /// Tokens, one for each byte, that a second brings.
    pub rate: u64,
    /// How many tokens it holds at most.
    pub capacity: u64,
    pub tokens: u64,
    /// Up to which moment tokens were counted.
    pub updated: nat,
}

impl BucketModel {
    /// The tokens at a moment.
    pub open spec fn refilled(self, now: u64) -> u64 {
        let elapsed = if now > self.updated {
            now - self.updated
        } else {
            0
        };
        let tokens = self.tokens + elapsed * self.rate / SECOND as int;
        if tokens < self.capacity {
            tokens as u64
        } else {
            self.capacity
        }
    }

    /// How long the tokens that are missing for `bytes` take to arrive.
    pub open spec fn delay(self, bytes: u64, now: u64) -> u64 {
        let tokens = self.refilled(now);
        if bytes <= tokens {
            0
        } else {
            let nanos = ((bytes - tokens) * SECOND + self.rate - 1) / self.rate as int;
            if nanos < u64::MAX {
                nanos as u64
            } else {
                u64::MAX
            }
        }
    }

    /// The bucket after `bytes` were taken out of it, those of the future included.
    pub open spec fn after(self, bytes: u64, now: u64) -> Self {
        let tokens = self.refilled(now);
        BucketModel {
            tokens: if bytes <= tokens {
                (tokens - bytes) as u64
            } else {
                0
            },
            updated: (now + self.delay(bytes, now)) as nat,
            ..self
        }
    }

    /// A bucket that a session can have.
    pub open spec fn valid(self) -> bool {
        &&& 1024 <= self.rate <= 0x4000_0000
        &&& MINIMUM_BURST_BYTES <= self.capacity <= MAXIMUM_BURST_BYTES
        &&& self.tokens <= self.capacity
    }
}

/// The burst that a bandwidth allows: what one second brings, within limits.
pub open spec fn burst(bandwidth: u64) -> u64 {
    if bandwidth < MINIMUM_BURST_BYTES {
        MINIMUM_BURST_BYTES
    } else if bandwidth > MAXIMUM_BURST_BYTES {
        MAXIMUM_BURST_BYTES
    } else {
        bandwidth
    }
}

/// A session's limits as values.
#[verifier::ext_equal]
pub struct PolicyModel {
    /// The moment at which the session ends.
    pub deadline: nat,
    /// How many bytes it may transfer, if that is limited.
    pub quota: Option<u64>,
    pub transferred: u64,
    pub bucket: BucketModel,
}

impl PolicyModel {
    /// The limits of a session that starts.
    pub open spec fn fresh(lifetime: u32, bandwidth: u64, quota: u64, now: u64) -> Self {
        PolicyModel {
            deadline: (now + lifetime * SECOND) as nat,
            quota: if quota == 0 {
                None
            } else {
                Some(quota)
            },
            transferred: 0,
            bucket: BucketModel {
                rate: bandwidth,
                capacity: burst(bandwidth),
                tokens: burst(bandwidth),
                updated: now as nat,
            },
        }
    }

    /// What the quota says of a total.
    pub open spec fn within_quota(self, total: int) -> bool {
        self.quota is Some ==> total <= self.quota->Some_0
    }

    /// What a request for `bytes` is answered: how long to wait.
    pub open spec fn reserved(self, bytes: u64, now: u64) -> Result<u64, Error> {
        if now >= self.deadline {
            Err(Error::SessionLifetimeExpired)
        } else if self.transferred + bytes > u64::MAX {
            Err(Error::SessionQuotaCounterOverflow)
        } else if !self.within_quota(self.transferred + bytes) {
            Err(Error::SessionQuotaExceeded)
        } else if now + self.bucket.delay(bytes, now) >= self.deadline {
            Err(Error::SessionExpiresDuringShaping)
        } else {
            Ok(self.bucket.delay(bytes, now))
        }
    }

    /// The limits after a request. Tokens are taken even where the wait would outlast
    /// the session.
    pub open spec fn after(self, bytes: u64, now: u64) -> Self {
        match self.reserved(bytes, now) {
            Ok(_) => PolicyModel {
                transferred: (self.transferred + bytes) as u64,
                bucket: self.bucket.after(bytes, now),
                ..self
            },
            Err(Error::SessionExpiresDuringShaping) => PolicyModel {
                bucket: self.bucket.after(bytes, now),
                ..self
            },
            Err(_) => self,
        }
    }

    /// The quota is kept, and so are the limits of the bucket.
    pub open spec fn valid(self) -> bool {
        self.within_quota(self.transferred as int) && self.bucket.valid()
    }
}

/// In every state the quota is kept, and the bucket holds no more than a burst.
pub proof fn limits_hold_in_every_state(policy: PolicyModel, bytes: u64, now: u64)
    requires
        policy.valid(),
    ensures
        policy.after(bytes, now).valid(),
        policy.after(bytes, now).quota == policy.quota,
        policy.after(bytes, now).deadline == policy.deadline,
{
}

/// Tokens pay for a request: what it takes was there, or arrives while it waits. The
/// caller must have waited out the delay of the request before.
proof fn lemma_paid(bucket: BucketModel, bytes: u64, now: u64)
    requires
        bucket.valid(),
        now >= bucket.updated,
        bucket.delay(bytes, now) < u64::MAX,
    ensures
        (bytes + bucket.after(bytes, now).tokens) * SECOND <= bucket.tokens * SECOND + bucket.rate * (
        bucket.after(bytes, now).updated - bucket.updated),
{
    let elapsed = now - bucket.updated;
    let rate = bucket.rate as int;
    let gained = elapsed * rate / SECOND as int;
    let tokens = bucket.refilled(now);
    assert(elapsed * rate >= 0) by (nonlinear_arith)
        requires
            elapsed >= 0,
            rate >= 0,
    ;
    assert(gained * SECOND <= elapsed * rate);
    assert(tokens <= bucket.tokens + gained);
    if bytes <= tokens {
        assert(rate * elapsed == elapsed * rate) by (nonlinear_arith);
    } else {
        let missing = (bytes - tokens) * SECOND;
        let delay = (missing + rate - 1) / rate;
        assert(missing <= delay * rate) by (nonlinear_arith)
            requires
                delay == (missing + rate - 1) / rate,
                rate > 0,
                missing >= 0,
        ;
        assert(rate * (elapsed + delay) == elapsed * rate + delay * rate) by (nonlinear_arith);
        assert(bucket.after(bytes, now).updated - bucket.updated == elapsed + delay);
    }
}

/// Requests as amounts and moments.
pub struct Request {
    pub bytes: u64,
    pub now: u64,
}

/// The limits after several requests.
pub open spec fn after_requests(policy: PolicyModel, requests: Seq<Request>) -> PolicyModel
    decreases requests.len(),
{
    if requests.len() == 0 {
        policy
    } else {
        after_requests(policy, requests.drop_last()).after(
            requests.last().bytes,
            requests.last().now,
        )
    }
}

/// All requests are granted, and each comes when the one before has waited.
pub open spec fn granted_in_turn(policy: PolicyModel, requests: Seq<Request>) -> bool
    decreases requests.len(),
{
    requests.len() > 0 ==> {
        let before = after_requests(policy, requests.drop_last());
        let request = requests.last();
        &&& granted_in_turn(policy, requests.drop_last())
        &&& before.reserved(request.bytes, request.now) is Ok
        &&& request.now >= before.bucket.updated
    }
}

/// How many bytes several requests ask for.
pub open spec fn total_bytes(requests: Seq<Request>) -> nat
    decreases requests.len(),
{
    if requests.len() == 0 {
        0
    } else {
        total_bytes(requests.drop_last()) + requests.last().bytes as nat
    }
}

/// The bandwidth is kept: over any run of requests that wait as they are told, no
/// more bytes pass than one burst and what the rate brings from the start of the session
/// until the last of them has waited.
pub proof fn bandwidth_is_kept(
    lifetime: u32,
    bandwidth: u64,
    quota: u64,
    start: u64,
    requests: Seq<Request>,
)
    requires
        60 <= lifetime <= 86400,
        1024 <= bandwidth <= 0x4000_0000,
        granted_in_turn(PolicyModel::fresh(lifetime, bandwidth, quota, start), requests),
    ensures
        ({
            let after = after_requests(
                PolicyModel::fresh(lifetime, bandwidth, quota, start),
                requests,
            );
            &&& after.transferred == total_bytes(requests)
            &&& total_bytes(requests) * SECOND <= burst(bandwidth) * SECOND + bandwidth * (
            after.bucket.updated - start)
        }),
{
    let policy = PolicyModel::fresh(lifetime, bandwidth, quota, start);
    assert(lifetime * SECOND <= 86_400_000_000_000) by (nonlinear_arith)
        requires
            lifetime <= 86400,
            SECOND == 1_000_000_000,
    ;
    lemma_bandwidth(policy, requests);
    let after = after_requests(policy, requests);
    assert(total_bytes(requests) * SECOND <= (total_bytes(requests) + after.bucket.tokens)
        * SECOND);
}

proof fn lemma_bandwidth(policy: PolicyModel, requests: Seq<Request>)
    requires
        policy.valid(),
        policy.transferred == 0,
        policy.deadline < policy.bucket.updated + u64::MAX,
        granted_in_turn(policy, requests),
    ensures
        ({
            let after = after_requests(policy, requests);
            &&& after.valid()
            &&& after.bucket.rate == policy.bucket.rate
            &&& after.deadline == policy.deadline
            &&& after.bucket.updated >= policy.bucket.updated
            &&& after.transferred == total_bytes(requests)
            &&& (after.transferred + after.bucket.tokens) * SECOND <= policy.bucket.tokens
                * SECOND + policy.bucket.rate * (after.bucket.updated - policy.bucket.updated)
        }),
    decreases requests.len(),
{
    if requests.len() > 0 {
        lemma_bandwidth(policy, requests.drop_last());
        let before = after_requests(policy, requests.drop_last());
        let after = after_requests(policy, requests);
        let request = requests.last();
        limits_hold_in_every_state(before, request.bytes, request.now);
        lemma_paid(before.bucket, request.bytes, request.now);
        let rate = policy.bucket.rate as int;
        assert(rate * (after.bucket.updated - policy.bucket.updated) == rate * (
        before.bucket.updated - policy.bucket.updated) + rate * (after.bucket.updated
            - before.bucket.updated)) by (nonlinear_arith);
    } else {
        assert(policy.bucket.rate * (policy.bucket.updated - policy.bucket.updated) == 0)
            by (nonlinear_arith);
    }
}

/// An idle time refills the burst: once the tokens of a whole burst have had the time to
/// arrive since a request has waited, a request of up to a burst does not wait.
pub proof fn idle_time_refills_the_burst(
    policy: PolicyModel,
    bytes: u64,
    now: u64,
    next_bytes: u64,
    later: u64,
)
    requires
        policy.valid(),
        policy.reserved(bytes, now) is Ok,
        next_bytes <= policy.bucket.capacity,
        later >= now + policy.reserved(bytes, now)->Ok_0,
        (later - (now + policy.reserved(bytes, now)->Ok_0)) * policy.bucket.rate
            >= policy.bucket.capacity * SECOND,
    ensures
        policy.after(bytes, now).bucket.refilled(later) == policy.bucket.capacity,
        policy.after(bytes, now).bucket.delay(next_bytes, later) == 0,
{
    let bucket = policy.after(bytes, now).bucket;
    let elapsed = later - bucket.updated;
    assert(elapsed * bucket.rate / SECOND as int >= bucket.capacity);
    if elapsed == 0 {
        assert(elapsed * bucket.rate == 0) by (nonlinear_arith)
            requires
                elapsed == 0,
        ;
    }
}

/// Gives out tokens at a fixed rate.
struct TokenBucket {
    rate: u64,
    capacity: u64,
    tokens: u64,
    updated_at: u128,
}

impl View for TokenBucket {
    type V = BucketModel;

    closed spec fn view(&self) -> BucketModel {
        BucketModel {
            rate: self.rate,
            capacity: self.capacity,
            tokens: self.tokens,
            updated: self.updated_at as nat,
        }
    }
}

impl TokenBucket {
    fn reserve(&mut self, bytes: u64, now: u64) -> (delay: u64)
        requires
            old(self)@.valid(),
        ensures
            delay == old(self)@.delay(bytes, now),
            final(self)@ == old(self)@.after(bytes, now),
    {
        let elapsed: u128 = (now as u128).saturating_sub(self.updated_at);
        assert(elapsed * self.rate <= 0xffff_ffff_ffff_ffff * 0x4000_0000) by (nonlinear_arith)
            requires
                elapsed <= 0xffff_ffff_ffff_ffff,
                self.rate <= 0x4000_0000,
        ;
        let replenished: u128 = elapsed * self.rate as u128 / SECOND as u128;
        let full: u128 = self.tokens as u128 + replenished;
        self.tokens = if full < self.capacity as u128 {
            full as u64
        } else {
            self.capacity
        };
        self.updated_at = now as u128;
        assert(self.tokens == old(self)@.refilled(now));
        if bytes <= self.tokens {
            self.tokens = self.tokens - bytes;
            return 0;
        }
        let deficit: u64 = bytes - self.tokens;
        self.tokens = 0;
        let nanos: u128 = (deficit as u128 * SECOND as u128 + (self.rate as u128 - 1))
            / self.rate as u128;
        let delay: u64 = if nanos < u64::MAX as u128 {
            nanos as u64
        } else {
            u64::MAX
        };
        self.updated_at = now as u128 + delay as u128;
        delay
    }
}

/// The limits of one session.
pub struct SessionPolicy {
    deadline: u128,
    quota: Option<u64>,
    transferred: u64,
    bucket: TokenBucket,
}

impl View for SessionPolicy {
    type V = PolicyModel;

    closed spec fn view(&self) -> PolicyModel {
        PolicyModel {
            deadline: self.deadline as nat,
            quota: self.quota,
            transferred: self.transferred,
            bucket: self.bucket@,
        }
    }
}

impl SessionPolicy {
    /// A session that starts now and lives for 60 to 86400 seconds, with 1 KiB to
    /// 1 GiB for each second. A quota of 0 is none.
    pub fn new(
        lifetime_seconds: u32,
        bandwidth_bytes_per_second: u64,
        quota_bytes: u64,
        now: u64,
    ) -> (policy: Result<Self, Error>)
        ensures
            policy is Ok <==> 60 <= lifetime_seconds <= 86400 && 1024 <= bandwidth_bytes_per_second
                <= 0x4000_0000,
            policy is Ok ==> policy->Ok_0@ == PolicyModel::fresh(
                lifetime_seconds,
                bandwidth_bytes_per_second,
                quota_bytes,
                now,
            ) && policy->Ok_0@.valid(),
            policy is Err ==> policy->Err_0 == if lifetime_seconds < 60 || lifetime_seconds
                > 86400 {
                Error::InvalidSessionLifetime
            } else {
                Error::InvalidSessionBandwidth
            },
    {
        if lifetime_seconds < 60 || lifetime_seconds > 86400 {
            return Err(Error::InvalidSessionLifetime);
        }
        if bandwidth_bytes_per_second < 1024 || bandwidth_bytes_per_second > 0x4000_0000 {
            return Err(Error::InvalidSessionBandwidth);
        }
        let burst: u64 = if bandwidth_bytes_per_second < MINIMUM_BURST_BYTES {
            MINIMUM_BURST_BYTES
        } else if bandwidth_bytes_per_second > MAXIMUM_BURST_BYTES {
            MAXIMUM_BURST_BYTES
        } else {
            bandwidth_bytes_per_second
        };
        assert(lifetime_seconds * SECOND <= 86_400_000_000_000) by (nonlinear_arith)
            requires
                lifetime_seconds <= 86400,
                SECOND == 1_000_000_000,
        ;
        Ok(
            SessionPolicy {
                deadline: now as u128 + lifetime_seconds as u128 * SECOND as u128,
                quota: if quota_bytes == 0 {
                    None
                } else {
                    Some(quota_bytes)
                },
                transferred: 0,
                bucket: TokenBucket {
                    rate: bandwidth_bytes_per_second,
                    capacity: burst,
                    tokens: burst,
                    updated_at: now as u128,
                },
            },
        )
    }

    /// Asks to transfer `bytes`. The answer is how many nanoseconds to wait first.
    pub fn reserve(&mut self, bytes: usize, now: u64) -> (delay: Result<u64, Error>)
        requires
            old(self)@.valid(),
        ensures
            final(self)@.valid(),
            delay == old(self)@.reserved(bytes as u64, now),
            final(self)@ == old(self)@.after(bytes as u64, now),
    {
        if now as u128 >= self.deadline {
            return Err(Error::SessionLifetimeExpired);
        }
        let bytes: u64 = bytes as u64;
        let next_total: u64 = match self.transferred.checked_add(bytes) {
            Some(total) => total,
            None => {
                return Err(Error::SessionQuotaCounterOverflow);
            },
        };
        if let Some(quota) = self.quota {
            if next_total > quota {
                return Err(Error::SessionQuotaExceeded);
            }
        }
        let delay: u64 = self.bucket.reserve(bytes, now);
        if now as u128 + delay as u128 >= self.deadline {
            return Err(Error::SessionExpiresDuringShaping);
        }
        self.transferred = next_total;
        Ok(delay)
    }

    /// The moment at which the session ends.
    pub fn deadline(&self) -> (deadline: u128)
        ensures
            deadline as nat == self@.deadline,
    {
        self.deadline
    }
}

/// A session begins with its own limits: it ends its lifetime in seconds after it began,
/// has the whole quota before it, or none where that is zero, and may send at once what its
/// bandwidth brings in a second, but at least 16 KiB and at most 4 MiB.
pub proof fn session_begins_with_its_limits(lifetime: u32, bandwidth: u64, quota: u64, now: u64)
    ensures
        ({
            let policy = PolicyModel::fresh(lifetime, bandwidth, quota, now);
            &&& policy.deadline == now + lifetime * 1_000_000_000
            &&& quota == 0 ==> policy.quota is None
            &&& quota != 0 ==> policy.quota == Some(quota)
            &&& policy.transferred == 0
            &&& policy.bucket.rate == bandwidth
            &&& policy.bucket.tokens == policy.bucket.capacity
            &&& policy.bucket.updated == now
            &&& bandwidth < 16_384 ==> policy.bucket.capacity == 16_384
            &&& 16_384 <= bandwidth <= 4_194_304 ==> policy.bucket.capacity == bandwidth
            &&& bandwidth > 4_194_304 ==> policy.bucket.capacity == 4_194_304
        }),
{
}

/// A request waits exactly as long as it must: not at all where the tokens suffice, and
/// else for the first nanosecond at which the rate has brought those that are missing. The
/// tokens are those it had and what its rate has brought since, up to its capacity.
pub proof fn request_waits_as_long_as_it_must(bucket: BucketModel, bytes: u64, now: u64)
    requires
        1024 <= bucket.rate <= 0x4000_0000,
        bucket.tokens <= bucket.capacity,
        bucket.delay(bytes, now) < u64::MAX,
    ensures
        ({
            let delay = bucket.delay(bytes, now) as int;
            let earned = if now <= bucket.updated {
                0
            } else {
                (now - bucket.updated) * bucket.rate / 1_000_000_000
            };
            let tokens = if bucket.tokens + earned <= bucket.capacity {
                bucket.tokens + earned
            } else {
                bucket.capacity as int
            };
            let missing = bytes - tokens;
            &&& missing <= 0 ==> delay == 0
            &&& missing > 0 ==> delay > 0 && delay * bucket.rate >= missing * 1_000_000_000 && (
            delay - 1) * bucket.rate < missing * 1_000_000_000
            &&& bucket.after(bytes, now).tokens == if missing <= 0 {
                -missing
            } else {
                0
            }
            &&& bucket.after(bytes, now).updated == now + delay
            &&& bucket.after(bytes, now).rate == bucket.rate
            &&& bucket.after(bytes, now).capacity == bucket.capacity
        }),
{
    let earned = if now <= bucket.updated {
        0
    } else {
        (now - bucket.updated) * bucket.rate / 1_000_000_000
    };
    let tokens = if bucket.tokens + earned <= bucket.capacity {
        bucket.tokens + earned
    } else {
        bucket.capacity as int
    };
    assert(bucket.refilled(now) == tokens) by {
        if now > bucket.updated {
            assert((now - bucket.updated) * bucket.rate / 1_000_000_000 >= 0) by (nonlinear_arith)
                requires
                    now > bucket.updated,
                    bucket.rate >= 1024,
            ;
        }
    }
    let missing = bytes - tokens;
    if missing > 0 {
        let rate = bucket.rate as int;
        let total = missing * 1_000_000_000 + rate - 1;
        let delay = total / rate;
        vstd::arithmetic::div_mod::lemma_fundamental_div_mod(total, rate);
        vstd::arithmetic::div_mod::lemma_mod_bound(total, rate);
        assert(delay * rate >= missing * 1_000_000_000 && (delay - 1) * rate < missing
            * 1_000_000_000 && delay > 0) by (nonlinear_arith)
            requires
                total == rate * delay + total % rate,
                0 <= total % rate < rate,
                total == missing * 1_000_000_000 + rate - 1,
                missing > 0,
                rate > 0,
        ;
    }
}

/// A session may transfer whatever its limits allow: a request is granted exactly where the
/// session has not ended and does not end while the request waits, and where the total stays
/// within the quota, if there is one. What is granted is counted, and what is not is not.
pub proof fn requests_are_granted_within_the_limits(policy: PolicyModel, bytes: u64, now: u64)
    requires
        policy.transferred + bytes <= u64::MAX,
    ensures
        ({
            let answer = policy.reserved(bytes, now);
            let after = policy.after(bytes, now);
            let total = policy.transferred + bytes;
            &&& answer is Ok <==> now < policy.deadline && now + policy.bucket.delay(bytes, now)
                < policy.deadline && (policy.quota is Some ==> total <= policy.quota->Some_0)
            &&& answer is Ok ==> answer->Ok_0 == policy.bucket.delay(bytes, now)
                && after.transferred == total && after.bucket == policy.bucket.after(bytes, now)
            &&& answer is Err ==> after.transferred == policy.transferred
            &&& now >= policy.deadline ==> answer == Err::<u64, Error>(
                Error::SessionLifetimeExpired,
            )
            &&& now < policy.deadline && policy.quota is Some && total > policy.quota->Some_0
                ==> answer == Err::<u64, Error>(Error::SessionQuotaExceeded)
            &&& after.quota == policy.quota
            &&& after.deadline == policy.deadline
        }),
{
}

/// A session has limits where they are in their ranges: a lifetime from a minute to a day, and
/// a bandwidth from 1 KiB to 1 GiB a second. A request is answered as its limits say.
pub proof fn policies_keep_their_limits()
    ensures
        forall|lifetime: u32, bandwidth: u64, quota: u64, now: u64, policy: Result<SessionPolicy, Error>|
            #[trigger]
            call_ensures(SessionPolicy::new, (lifetime, bandwidth, quota, now), policy) ==> {
                &&& policy is Ok <==> 60 <= lifetime <= 24 * 60 * 60 && 1024 <= bandwidth <= 1024
                    * 1024 * 1024
                &&& policy is Ok ==> policy->Ok_0@ == PolicyModel::fresh(
                    lifetime,
                    bandwidth,
                    quota,
                    now,
                ) && policy->Ok_0@.valid()
                &&& lifetime < 60 || lifetime > 86400 ==> policy == Err::<SessionPolicy, Error>(
                    Error::InvalidSessionLifetime,
                )
            },
        forall|policy: &mut SessionPolicy, bytes: usize, now: u64, delay: Result<u64, Error>|
            #[trigger]
            call_ensures(SessionPolicy::reserve, (policy, bytes, now), delay) ==> delay
                == policy@.reserved(bytes as u64, now) && final(policy)@ == policy@.after(
                bytes as u64,
                now,
            ),
        forall|policy: &SessionPolicy, deadline: u128| #[trigger]
            call_ensures(SessionPolicy::deadline, (policy,), deadline) ==> deadline
                == policy@.deadline,
{
}

} // verus!
