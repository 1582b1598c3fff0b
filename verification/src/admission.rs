//! How often one source may try to connect.
use crate::error::Error;
use crate::session::SECOND;
use crate::table::Table;
use vstd::prelude::*;

verus! {

/// How long an attempt counts, in nanoseconds.
pub const ADMISSION_WINDOW: u64 = 60 * SECOND;

/// How many attempts of one source may count at once.
pub const MAX_ATTEMPTS: usize = 60;

/// How many sources are followed at once.
pub const MAX_SOURCES: usize = 8192;

/// The attempts of each source that were let through, in their order.
pub type Attempts = Map<Seq<u8>, Seq<u64>>;

/// An attempt still counts.
pub open spec fn counts(seen: u64, now: u64) -> bool {
    seen + ADMISSION_WINDOW >= now
}

/// The attempts without those at the front that no longer count.
pub open spec fn recent(attempts: Seq<u64>, now: u64) -> Seq<u64>
    decreases attempts.len(),
{
    if attempts.len() == 0 || counts(attempts[0], now) {
        attempts
    } else {
        recent(attempts.skip(1), now)
    }
}

/// The sources whose last attempt still counts.
pub open spec fn followed(rates: Attempts, now: u64) -> Attempts {
    rates.restrict(
        rates.dom().filter(
            |source: Seq<u8>| rates[source].len() > 0 && counts(rates[source].last(), now),
        ),
    )
}

/// The attempts of a source; none where it is not followed.
pub open spec fn attempts_of(rates: Attempts, source: Seq<u8>) -> Seq<u64> {
    if rates.contains_key(source) {
        rates[source]
    } else {
        Seq::empty()
    }
}

/// What becomes of an attempt.
pub open spec fn admitted(rates: Attempts, source: Seq<u8>, now: u64) -> (
    Attempts,
    Result<(), Error>,
) {
    let kept = followed(rates, now);
    let attempts = recent(attempts_of(kept, source), now);
    if kept.dom().len() >= MAX_SOURCES && !kept.contains_key(source) {
        (kept, Err(Error::AdmissionTableFull))
    } else if attempts.len() >= MAX_ATTEMPTS {
        (kept.insert(source, attempts), Err(Error::AdmissionRateExceeded))
    } else {
        (kept.insert(source, attempts.push(now)), Ok(()))
    }
}

/// The attempts of the sources that are followed.
pub struct AdmissionRate {
    rates: Table<Vec<u64>>,
}

impl View for AdmissionRate {
    type V = Attempts;

    closed spec fn view(&self) -> Attempts {
        self.rates@.map_values(|attempts: Vec<u64>| attempts@)
    }
}

/// Drops the attempts at the front that no longer count.
fn drop_old(attempts: &mut Vec<u64>, now: u64)
    ensures
        final(attempts)@ == recent(old(attempts)@, now),
{
    while attempts.len() > 0 && attempts[0] as u128 + (ADMISSION_WINDOW as u128) < now as u128
        invariant
            recent(attempts@, now) == recent(old(attempts)@, now),
        decreases attempts@.len(),
    {
        let ghost before = attempts@;
        attempts.remove(0);
        assert(attempts@ =~= before.skip(1));
    }
}

impl AdmissionRate {
    /// No source is held twice.
    pub closed spec fn wf(&self) -> bool {
        self.rates.wf()
    }

    /// No source is followed.
    pub fn new() -> (rates: Self)
        ensures
            rates.wf(),
            rates@ == Attempts::empty(),
    {
        let rates = AdmissionRate { rates: Table::new() };
        assert(rates@ =~= Attempts::empty());
        rates
    }

    /// Decides on an attempt of a source, which is given by the bytes of its address.
    pub fn check_admission_rate(&mut self, source: Vec<u8>, now: u64) -> (out: Result<(), Error>)
        requires
            old(self).wf(),
        ensures
            final(self).wf(),
            (final(self)@, out) == admitted(old(self)@, source@, now),
    {
        let ghost kept = followed(self@, now);
        let active = |attempts: &Vec<u64>| -> (active: bool)
            ensures
                active == (attempts@.len() > 0 && counts(attempts@.last(), now)),
            {
                attempts.len() > 0 && attempts[attempts.len() - 1] as u128
                    + ADMISSION_WINDOW as u128 >= now as u128
            };
        let ghost test = |attempts: Vec<u64>| attempts@.len() > 0 && counts(attempts@.last(), now);
        self.rates.retain(active, Ghost(test));
        assert(self@ =~= kept);
        let known = self.rates.get(&source).is_some();
        let followed_now: usize = self.rates.count_up_to(MAX_SOURCES);
        assert(self.rates@.dom() =~= kept.dom());
        if followed_now >= MAX_SOURCES && !known {
            return Err(Error::AdmissionTableFull);
        }
        let mut attempts: Vec<u64> = match self.rates.remove(&source) {
            Some(attempts) => attempts,
            None => Vec::new(),
        };
        assert(attempts@ =~= attempts_of(kept, source@));
        drop_old(&mut attempts, now);
        let exceeded = attempts.len() >= MAX_ATTEMPTS;
        if !exceeded {
            attempts.push(now);
        }
        let ghost list = attempts@;
        let ghost name = source@;
        self.rates.insert(source, attempts);
        assert(self@ =~= kept.insert(name, list));
        if exceeded {
            Err(Error::AdmissionRateExceeded)
        } else {
            Ok(())
        }
    }
}

/// One attempt: the source and the time.
pub struct Attempt {
    pub source: Seq<u8>,
    pub at: u64,
}

/// What is followed after several attempts, starting with nothing.
pub open spec fn after_attempts(attempts: Seq<Attempt>) -> Attempts
    decreases attempts.len(),
{
    if attempts.len() == 0 {
        Map::empty()
    } else {
        admitted(
            after_attempts(attempts.drop_last()),
            attempts.last().source,
            attempts.last().at,
        ).0
    }
}

/// How many attempts of a source were let through and count at a time.
pub open spec fn let_through(attempts: Seq<Attempt>, source: Seq<u8>, now: u64) -> nat
    decreases attempts.len(),
{
    if attempts.len() == 0 {
        0
    } else {
        let before = attempts.drop_last();
        let last = attempts.last();
        let passed = last.source == source && counts(last.at, now) && admitted(
            after_attempts(before),
            source,
            last.at,
        ).1 is Ok;
        let_through(before, source, now) + if passed {
            1nat
        } else {
            0nat
        }
    }
}

/// The clock never goes back.
pub open spec fn in_order(attempts: Seq<Attempt>) -> bool {
    forall|i: int, j: int|
        #![trigger attempts[i], attempts[j]]
        0 <= i <= j < attempts.len() ==> attempts[i].at <= attempts[j].at
}

/// How many entries of a list count at a time.
spec fn counting(list: Seq<u64>, now: u64) -> nat
    decreases list.len(),
{
    if list.len() == 0 {
        0
    } else {
        counting(list.drop_last(), now) + if counts(list.last(), now) {
            1nat
        } else {
            0nat
        }
    }
}

/// A list of times in order, none after `now`.
spec fn ordered(list: Seq<u64>, now: u64) -> bool {
    &&& forall|i: int, j: int|
        #![trigger list[i], list[j]]
        0 <= i <= j < list.len() ==> list[i] <= list[j]
    &&& forall|i: int| #![trigger list[i]] 0 <= i < list.len() ==> list[i] <= now
}

proof fn lemma_counting_bound(list: Seq<u64>, now: u64)
    ensures
        counting(list, now) <= list.len(),
    decreases list.len(),
{
    if list.len() > 0 {
        lemma_counting_bound(list.drop_last(), now);
    }
}

proof fn lemma_none_counts(list: Seq<u64>, now: u64)
    requires
        forall|i: int| #![trigger list[i]] 0 <= i < list.len() ==> !counts(list[i], now),
    ensures
        counting(list, now) == 0,
    decreases list.len(),
{
    if list.len() > 0 {
        let front = list.drop_last();
        assert forall|i: int| #![trigger front[i]] 0 <= i < front.len() implies !counts(
            front[i],
            now,
        ) by {
            assert(front[i] == list[i]);
        }
        lemma_none_counts(front, now);
        assert(list.last() == list[list.len() - 1]);
    }
}

proof fn lemma_counting_skip(list: Seq<u64>, now: u64)
    requires
        list.len() > 0,
        !counts(list[0], now),
    ensures
        counting(list.skip(1), now) == counting(list, now),
    decreases list.len(),
{
    if list.len() == 1 {
        assert(list.drop_last() =~= Seq::<u64>::empty());
        assert(list.skip(1) =~= Seq::<u64>::empty());
        assert(counting(list.drop_last(), now) == 0);
    } else {
        lemma_counting_skip(list.drop_last(), now);
        assert(list.skip(1).drop_last() =~= list.drop_last().skip(1));
        assert(list.skip(1).last() == list.last());
    }
}

/// Dropping what no longer counts leaves the order, and changes no later count.
proof fn lemma_recent(list: Seq<u64>, now: u64, later: u64)
    requires
        ordered(list, now),
        now <= later,
    ensures
        ordered(recent(list, now), now),
        counting(recent(list, now), later) == counting(list, later),
        recent(list, now).len() <= list.len(),
        recent(list, now).len() > 0 ==> counts(recent(list, now)[0], now),
    decreases list.len(),
{
    if list.len() > 0 && !counts(list[0], now) {
        let rest = list.skip(1);
        assert forall|i: int, j: int|
            #![trigger rest[i], rest[j]]
            0 <= i <= j < rest.len() implies rest[i] <= rest[j] by {
            assert(rest[i] == list[i + 1] && rest[j] == list[j + 1]);
        }
        assert forall|i: int| #![trigger rest[i]] 0 <= i < rest.len() implies rest[i] <= now by {
            assert(rest[i] == list[i + 1]);
        }
        lemma_recent(rest, now, later);
        lemma_counting_skip(list, later);
    }
}

/// What holds of the table after any attempts.
proof fn lemma_after_attempts(attempts: Seq<Attempt>, source: Seq<u8>, now: u64)
    requires
        in_order(attempts),
        attempts.len() > 0 ==> attempts.last().at <= now,
    ensures
        ordered(attempts_of(after_attempts(attempts), source), now),
        attempts_of(after_attempts(attempts), source).len() <= MAX_ATTEMPTS,
        counting(attempts_of(after_attempts(attempts), source), now) == let_through(
            attempts,
            source,
            now,
        ),
    decreases attempts.len(),
{
    if attempts.len() > 0 {
        let before = attempts.drop_last();
        let last = attempts.last();
        let n = attempts.len() - 1;
        assert forall|i: int, j: int|
            #![trigger before[i], before[j]]
            0 <= i <= j < before.len() implies before[i].at <= before[j].at by {
            assert(before[i] == attempts[i] && before[j] == attempts[j]);
        }
        if before.len() > 0 {
            assert(before.last() == attempts[n - 1]);
            assert(attempts[n - 1].at <= attempts[n].at);
        }
        let rates = after_attempts(before);
        lemma_after_attempts(before, source, last.at);
        lemma_after_attempts(before, source, now);
        let held = attempts_of(rates, source);
        let kept = followed(rates, last.at);
        if !kept.contains_key(source) && rates.contains_key(source) {
            assert forall|i: int| #![trigger held[i]] 0 <= i < held.len() implies !counts(
                held[i],
                now,
            ) by {
                assert(held[i] <= held[held.len() - 1]);
            }
            lemma_none_counts(held, now);
        }
        let list = attempts_of(kept, source);
        assert(counting(list, now) == counting(held, now));
        assert(ordered(list, last.at));
        lemma_recent(list, last.at, now);
        let short = recent(list, last.at);
        assert(short.push(last.at).drop_last() =~= short);
    }
}

/// At most sixty attempts of one source are let through in any minute, whatever the
/// sources try.
pub proof fn attempts_are_limited(attempts: Seq<Attempt>, source: Seq<u8>, now: u64)
    requires
        in_order(attempts),
        attempts.len() > 0 ==> attempts.last().at <= now,
    ensures
        let_through(attempts, source, now) <= MAX_ATTEMPTS,
{
    lemma_after_attempts(attempts, source, now);
    lemma_counting_bound(attempts_of(after_attempts(attempts), source), now);
}

/// A source with fewer than sixty attempts in the last minute is let through, unless
/// it is new and the table is full.
pub proof fn quiet_source_is_let_through(attempts: Seq<Attempt>, source: Seq<u8>, now: u64)
    requires
        in_order(attempts),
        attempts.len() > 0 ==> attempts.last().at <= now,
        let_through(attempts, source, now) < MAX_ATTEMPTS,
        ({
            let kept = followed(after_attempts(attempts), now);
            kept.contains_key(source) || kept.dom().len() < MAX_SOURCES
        }),
    ensures
        admitted(after_attempts(attempts), source, now).1 is Ok,
{
    let rates = after_attempts(attempts);
    lemma_after_attempts(attempts, source, now);
    let kept = followed(rates, now);
    if kept.contains_key(source) {
        lemma_recent(rates[source], now, now);
        lemma_all_count(recent(rates[source], now), now);
    }
}

/// In an ordered list whose first entry counts, every entry counts.
proof fn lemma_all_count(list: Seq<u64>, now: u64)
    requires
        ordered(list, now),
        list.len() > 0 ==> counts(list[0], now),
    ensures
        counting(list, now) == list.len(),
    decreases list.len(),
{
    if list.len() > 0 {
        let front = list.drop_last();
        assert forall|i: int, j: int|
            #![trigger front[i], front[j]]
            0 <= i <= j < front.len() implies front[i] <= front[j] by {
            assert(front[i] == list[i] && front[j] == list[j]);
        }
        assert forall|i: int| #![trigger front[i]] 0 <= i < front.len() implies front[i]
            <= now by {
            assert(front[i] == list[i]);
        }
        lemma_all_count(front, now);
        assert(list[0] <= list[list.len() - 1]);
    }
}

/// No more than 8192 sources are followed at once.
pub proof fn sources_are_limited(attempts: Seq<Attempt>)
    ensures
        after_attempts(attempts).dom().finite(),
        after_attempts(attempts).dom().len() <= MAX_SOURCES,
    decreases attempts.len(),
{
    if attempts.len() > 0 {
        let before = after_attempts(attempts.drop_last());
        sources_are_limited(attempts.drop_last());
        let kept = followed(before, attempts.last().at);
        assert(kept.dom().subset_of(before.dom()));
        vstd::set_lib::lemma_len_subset(kept.dom(), before.dom());
    }
}

/// Where the attempts at the front no longer count, they are dropped, and no others.
proof fn lemma_recent_drops(list: Seq<u64>, now: u64, old: int)
    requires
        0 <= old <= list.len(),
        forall|i: int| 0 <= i < old ==> #[trigger] list[i] + 60_000_000_000 < now,
        old < list.len() ==> list[old] + 60_000_000_000 >= now,
    ensures
        recent(list, now) == list.skip(old),
    decreases old,
{
    if old == 0 {
        assert(list.skip(0) =~= list);
    } else {
        let rest = list.skip(1);
        assert forall|i: int| 0 <= i < old - 1 implies #[trigger] rest[i] + 60_000_000_000 < now by {
            assert(rest[i] == list[i + 1]);
        }
        lemma_recent_drops(rest, now, old - 1);
        assert(rest.skip(old - 1) =~= list.skip(old));
    }
}

/// An attempt is judged by the last minute: where a source has tried before, of its attempts
/// those that are no more than 60 seconds old count, and another is let through exactly where
/// they are fewer than 60. It is noted then, and the old ones are forgotten.
pub proof fn attempts_count_for_a_minute(
    rates: Attempts,
    source: Seq<u8>,
    now: u64,
    old: int,
    other: Seq<u8>,
)
    requires
        rates.contains_key(source),
        0 <= old < rates[source].len(),
        forall|i: int| 0 <= i < old ==> #[trigger] rates[source][i] + 60_000_000_000 < now,
        rates[source][old] + 60_000_000_000 >= now,
        rates[source].last() + 60_000_000_000 >= now,
    ensures
        ({
            let (after, answer) = admitted(rates, source, now);
            let live = rates[source].skip(old);
            &&& answer is Ok <==> rates[source].len() - old < 60
            &&& answer is Err ==> answer->Err_0 == Error::AdmissionRateExceeded
            &&& after.contains_key(source)
            &&& after[source] == if rates[source].len() - old < 60 {
                live.push(now)
            } else {
                live
            }
            &&& other != source && rates.contains_key(other) && rates[other].len() > 0
                && rates[other].last() + 60_000_000_000 >= now ==> after.contains_key(other)
                && after[other] == rates[other]
        }),
{
    lemma_recent_drops(rates[source], now, old);
    assert(followed(rates, now).contains_key(source));
    assert(followed(rates, now)[source] == rates[source]);
}

/// A source that has not tried in the last minute is let through, unless 8192 others have.
pub proof fn new_sources_are_let_through(rates: Attempts, source: Seq<u8>, now: u64)
    requires
        rates.contains_key(source) ==> rates[source].len() == 0 || rates[source].last()
            + 60_000_000_000 < now,
    ensures
        ({
            let (after, answer) = admitted(rates, source, now);
            let others = rates.dom().filter(
                |other: Seq<u8>|
                    rates[other].len() > 0 && rates[other].last() + 60_000_000_000 >= now,
            );
            &&& answer is Ok <==> others.len() < 8192
            &&& answer is Ok ==> after.contains_key(source) && after[source] == seq![now]
            &&& answer is Err ==> answer->Err_0 == Error::AdmissionTableFull
        }),
{
    let others = rates.dom().filter(
        |other: Seq<u8>| rates[other].len() > 0 && rates[other].last() + 60_000_000_000 >= now,
    );
    assert(followed(rates, now).dom() =~= others);
    assert(Seq::<u64>::empty().push(now) =~= seq![now]);
}

} // verus!
