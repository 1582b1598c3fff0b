//! The window that refuses a record number which was already accepted.
use crate::error::Error;
use vstd::prelude::*;

verus! {

/// What a replay window knows.
#[verifier::ext_equal]
pub struct ReplayModel {
    /// How many numbers below the highest one it can tell apart.
    pub width: nat,
    /// The highest number accepted so far.
    pub highest: Option<u64>,
    /// The accepted numbers that still lie in the window.
    pub seen: Set<u64>,
}

impl ReplayModel {
    /// A window that has accepted nothing.
    pub open spec fn fresh(width: nat) -> Self {
        ReplayModel { width, highest: None, seen: Set::empty() }
    }

    /// A number so old that the window no longer tells whether it was accepted. Sums
    /// stop at the largest 64-bit number.
    pub open spec fn too_old(self, number: u64) -> bool {
        match self.highest {
            None => false,
            Some(highest) => highest >= number + self.width || highest == u64::MAX && number
                + self.width > u64::MAX,
        }
    }

    /// Whether a record with this number may be accepted.
    pub open spec fn admits(self, number: u64) -> bool {
        !self.too_old(number) && !self.seen.contains(number)
    }

    /// The highest number once `number` is accepted.
    pub open spec fn raised(self, number: u64) -> u64 {
        match self.highest {
            Some(highest) if highest >= number => highest,
            _ => number,
        }
    }

    /// The window once `number` is accepted.
    pub open spec fn accept(self, number: u64) -> Self {
        let highest = self.raised(number);
        ReplayModel {
            width: self.width,
            highest: Some(highest),
            seen: self.seen.insert(number).filter(|n: u64| n + self.width > highest),
        }
    }

    /// The window after the numbers were offered one after the other, each accepted
    /// where it may be.
    pub open spec fn after(self, offered: Seq<u64>) -> Self
        decreases offered.len(),
    {
        if offered.len() == 0 {
            self
        } else {
            let before = self.after(offered.drop_last());
            if before.admits(offered.last()) {
                before.accept(offered.last())
            } else {
                before
            }
        }
    }

    /// Every number it holds lies in the window.
    pub open spec fn valid(self) -> bool {
        &&& self.width > 0
        &&& self.highest is None ==> self.seen =~= Set::empty()
        &&& forall|n: u64| #[trigger]
            self.seen.contains(n) ==> self.highest is Some && n <= self.highest->Some_0 && n
                + self.width > self.highest->Some_0
    }
}

/// A fresh window holds nothing, and accepting a number keeps the window valid.
pub proof fn validity_is_kept(window: ReplayModel, number: u64)
    requires
        window.valid(),
    ensures
        window.accept(number).valid(),
        ReplayModel::fresh(window.width).valid(),
{
}

/// A number that is refused stays refused when another one is accepted.
pub proof fn refusal_is_final(window: ReplayModel, refused: u64, other: u64)
    requires
        window.valid(),
        !window.admits(refused),
        window.admits(other),
    ensures
        !window.accept(other).admits(refused),
{
}

/// No number is accepted twice: once accepted it is refused, whatever is offered
/// in between.
pub proof fn never_accepted_twice(window: ReplayModel, number: u64, offered: Seq<u64>)
    requires
        window.valid(),
        window.admits(number),
    ensures
        window.accept(number).after(offered).valid(),
        !window.accept(number).after(offered).admits(number),
    decreases offered.len(),
{
    validity_is_kept(window, number);
    if offered.len() > 0 {
        never_accepted_twice(window, number, offered.drop_last());
        let before = window.accept(number).after(offered.drop_last());
        if before.admits(offered.last()) {
            validity_is_kept(before, offered.last());
            refusal_is_final(before, number, offered.last());
        }
    }
}

/// Accepting one number refuses no other number that is still inside the window
/// and was not accepted before.
pub proof fn acceptance_is_exact(window: ReplayModel, accepted: u64, other: u64)
    requires
        window.valid(),
        window.admits(accepted),
        window.admits(other),
        other != accepted,
        !window.accept(accepted).too_old(other),
    ensures
        window.accept(accepted).admits(other),
{
}

/// Whether a slot of the bitmap is set.
spec fn marked(bits: Seq<u64>, slot: int) -> bool {
    bits[slot / 64] & (1u64 << ((slot % 64) as u64)) != 0
}

/// Setting one slot changes no other.
proof fn lemma_set_slot(bits: Seq<u64>, slot: int)
    requires
        0 <= slot < bits.len() * 64,
    ensures
        forall|s: int|
            0 <= s < bits.len() * 64 ==> #[trigger] marked(
                bits.update(slot / 64, bits[slot / 64] | (1u64 << ((slot % 64) as u64))),
                s,
            ) == (s == slot || marked(bits, s)),
{
    let word = bits[slot / 64];
    let bit = (slot % 64) as u64;
    assert forall|s: int| 0 <= s < bits.len() * 64 implies #[trigger] marked(
        bits.update(slot / 64, word | (1u64 << bit)),
        s,
    ) == (s == slot || marked(bits, s)) by {
        if s / 64 == slot / 64 {
            let other = (s % 64) as u64;
            assert(((word | (1u64 << bit)) & (1u64 << other) != 0) == (other == bit || word & (1u64
                << other) != 0)) by (bit_vector)
                requires
                    bit < 64,
                    other < 64,
            ;
        }
    }
}

/// Clearing one slot changes no other.
proof fn lemma_clear_slot(bits: Seq<u64>, slot: int)
    requires
        0 <= slot < bits.len() * 64,
    ensures
        forall|s: int|
            0 <= s < bits.len() * 64 ==> #[trigger] marked(
                bits.update(slot / 64, bits[slot / 64] & !(1u64 << ((slot % 64) as u64))),
                s,
            ) == (s != slot && marked(bits, s)),
{
    let word = bits[slot / 64];
    let bit = (slot % 64) as u64;
    assert forall|s: int| 0 <= s < bits.len() * 64 implies #[trigger] marked(
        bits.update(slot / 64, word & !(1u64 << bit)),
        s,
    ) == (s != slot && marked(bits, s)) by {
        if s / 64 == slot / 64 {
            let other = (s % 64) as u64;
            assert(((word & !(1u64 << bit)) & (1u64 << other) != 0) == (other != bit && word & (1u64
                << other) != 0)) by (bit_vector)
                requires
                    bit < 64,
                    other < 64,
            ;
        }
    }
}

/// Two numbers less than a window apart have different slots.
proof fn lemma_slots_differ(a: int, b: int, width: int)
    requires
        width > 0,
        a != b,
        -width < a - b < width,
    ensures
        a % width != b % width,
{
    vstd::arithmetic::div_mod::lemma_fundamental_div_mod(a, width);
    vstd::arithmetic::div_mod::lemma_fundamental_div_mod(b, width);
    if a % width == b % width {
        let q = a / width - b / width;
        assert(a - b == width * q) by (nonlinear_arith)
            requires
                a == width * (a / width) + a % width,
                b == width * (b / width) + b % width,
                a % width == b % width,
                q == a / width - b / width,
        ;
        assert(q == 0) by (nonlinear_arith)
            requires
                -width < width * q < width,
                width > 0,
        ;
        assert(width * q == 0) by (nonlinear_arith)
            requires
                q == 0,
        ;
    }
}

/// Remembers which record numbers were accepted, in a bitmap that slides with the
/// highest one.
#[derive(Debug)]
pub struct ReplayWindow {
    width: u64,
    initialized: bool,
    highest: u64,
    bits: Vec<u64>,
}

impl View for ReplayWindow {
    type V = ReplayModel;

    closed spec fn view(&self) -> ReplayModel {
        ReplayModel {
            width: self.width as nat,
            highest: if self.initialized {
                Some(self.highest)
            } else {
                None
            },
            seen: Set::new(
                |n: u64|
                    self.initialized && n <= self.highest && n + self.width > self.highest
                        && marked(self.bits@, n as int % self.width as int),
            ),
        }
    }
}

impl ReplayWindow {
    /// The bitmap has one bit for each number of the window.
    pub closed spec fn wf(&self) -> bool {
        &&& 256 <= self.width <= 16384
        &&& self.width % 64 == 0
        &&& self.bits@.len() == self.width / 64
        &&& !self.initialized ==> forall|s: int|
            0 <= s < self.width ==> !#[trigger] marked(self.bits@, s)
    }

    /// An empty window of the given width, a multiple of 64 from 256 to 16384.
    pub fn new(width: usize) -> (window: Result<Self, Error>)
        ensures
            window is Ok <==> 256 <= width <= 16384 && width % 64 == 0,
            window is Err ==> window->Err_0 == Error::InvalidReplayWindow,
            window is Ok ==> window->Ok_0.wf() && window->Ok_0@ == ReplayModel::fresh(
                width as nat,
            ),
    {
        if width < 256 || width > 16384 || width % 64 != 0 {
            return Err(Error::InvalidReplayWindow);
        }
        let bits: Vec<u64> = vec![0u64; width / 64];
        let window = ReplayWindow { width: width as u64, initialized: false, highest: 0, bits };
        proof {
            assert forall|s: int| 0 <= s < width implies !#[trigger] marked(window.bits@, s) by {
                let bit = (s % 64) as u64;
                assert(0u64 & (1u64 << bit) == 0) by (bit_vector);
            }
            assert(window@.seen =~= Set::empty());
        }
        Ok(window)
    }

    /// Whether a record with this number may still be accepted.
    pub fn plausible(&self, number: u64) -> (possible: bool)
        requires
            self.wf(),
        ensures
            possible == self@.admits(number),
    {
        if !self.initialized {
            return true;
        }
        if number.saturating_add(self.width) <= self.highest {
            return false;
        }
        if number > self.highest {
            return true;
        }
        let (word, mask) = self.slot(number);
        self.bits[word] & mask == 0
    }

    /// Accepts an authentic record's number, unless it must be refused.
    pub fn commit_authenticated(&mut self, number: u64) -> (accepted: bool)
        requires
            old(self).wf(),
        ensures
            final(self).wf(),
            accepted == old(self)@.admits(number),
            accepted ==> final(self)@ == old(self)@.accept(number),
            !accepted ==> final(self)@ == old(self)@,
    {
        if !self.plausible(number) {
            return false;
        }
        let ghost before = *self;
        if !self.initialized {
            self.initialized = true;
            self.highest = number;
        } else if number > self.highest {
            let distance: u64 = number - self.highest;
            if distance >= self.width {
                self.clear_all();
            } else {
                self.clear_until(number);
            }
            self.highest = number;
        }
        let (word, mask) = self.slot(number);
        let ghost cleared = self.bits@;
        let held: u64 = self.bits[word];
        self.bits[word] = held | mask;
        proof {
            let slot = number as int % self.width as int;
            lemma_set_slot(cleared, slot);
            assert forall|n: u64|
                self@.seen.contains(n) == before@.accept(number).seen.contains(n) by {
                if n <= self.highest && n + self.width > self.highest {
                    let s = n as int % self.width as int;
                    assert(marked(self.bits@, s) == (s == slot || marked(cleared, s)));
                    if n != number {
                        lemma_slots_differ(n as int, number as int, self.width as int);
                    }
                }
            }
            assert(self@.seen =~= before@.accept(number).seen);
        }
        true
    }

    /// Forgets every number.
    fn clear_all(&mut self)
        requires
            old(self).wf(),
        ensures
            final(self).wf(),
            final(self).width == old(self).width,
            final(self).initialized == old(self).initialized,
            final(self).highest == old(self).highest,
            forall|s: int|
                0 <= s < old(self).width ==> !#[trigger] marked(final(self).bits@, s),
    {
        let words: usize = self.bits.len();
        for i in 0..words
            invariant
                self.bits@.len() == words,
                self.width == old(self).width,
                self.initialized == old(self).initialized,
                self.highest == old(self).highest,
                forall|j: int| 0 <= j < i ==> self.bits@[j] == 0,
        {
            self.bits[i] = 0;
        }
        proof {
            assert forall|s: int| 0 <= s < self.width implies !#[trigger] marked(
                self.bits@,
                s,
            ) by {
                let bit = (s % 64) as u64;
                assert(0u64 & (1u64 << bit) == 0) by (bit_vector);
            }
        }
    }

    /// Forgets the slots of the numbers above the highest one, up to `number`.
    fn clear_until(&mut self, number: u64)
        requires
            old(self).wf(),
            old(self).initialized,
            old(self).highest < number,
            number - old(self).highest < old(self).width,
        ensures
            final(self).wf(),
            final(self).width == old(self).width,
            final(self).initialized == old(self).initialized,
            final(self).highest == old(self).highest,
            forall|n: u64|
                n <= old(self).highest && n + old(self).width > number ==> #[trigger] marked(
                    final(self).bits@,
                    n as int % old(self).width as int,
                ) == marked(old(self).bits@, n as int % old(self).width as int),
            forall|n: u64|
                old(self).highest < n <= number ==> !#[trigger] marked(
                    final(self).bits@,
                    n as int % old(self).width as int,
                ),
    {
        let mut cleared: u64 = self.highest;
        while cleared < number
            invariant
                self.wf(),
                self.initialized,
                self.width == old(self).width,
                self.initialized == old(self).initialized,
                self.highest == old(self).highest,
                self.highest <= cleared <= number,
                number - self.highest < self.width,
                forall|n: u64|
                    n <= self.highest && n + self.width > number ==> #[trigger] marked(
                        self.bits@,
                        n as int % self.width as int,
                    ) == marked(old(self).bits@, n as int % self.width as int),
                forall|n: u64|
                    self.highest < n <= cleared ==> !#[trigger] marked(
                        self.bits@,
                        n as int % self.width as int,
                    ),
            decreases number - cleared,
        {
            let ghost before = self.bits@;
            cleared = cleared + 1;
            let (word, mask) = self.slot(cleared);
            let held: u64 = self.bits[word];
            self.bits[word] = held & !mask;
            proof {
                let slot = cleared as int % self.width as int;
                lemma_clear_slot(before, slot);
                assert forall|n: u64|
                    n <= number && n + self.width > number && n != cleared implies #[trigger] marked(
                    self.bits@,
                    n as int % self.width as int,
                ) == marked(before, n as int % self.width as int) by {
                    lemma_slots_differ(n as int, cleared as int, self.width as int);
                }
                assert(!marked(self.bits@, slot));
            }
        }
    }

    fn slot(&self, number: u64) -> (slot: (usize, u64))
        requires
            self.wf(),
        ensures
            slot.0 == (number as int % self.width as int) / 64,
            slot.0 < self.bits@.len(),
            slot.1 == 1u64 << (((number as int % self.width as int) % 64) as u64),
    {
        let offset: u64 = number % self.width;
        let word: u64 = offset / 64;
        (word as usize, 1u64 << (offset % 64))
    }
}

/// A window tells numbers by their distance from the highest one: a higher one is always
/// admitted, one within the width below it where it was not accepted before, and one further
/// below never. Accepting a number makes it the highest only where it is.
pub proof fn window_has_its_width(window: ReplayModel, number: u64, accepted: u64)
    requires
        window.valid(),
        window.highest is Some,
        window.highest->Some_0 < u64::MAX,
    ensures
        number > window.highest->Some_0 ==> window.admits(number),
        number <= window.highest->Some_0 - window.width ==> !window.admits(number),
        window.highest->Some_0 - window.width < number <= window.highest->Some_0 ==> (
        window.admits(number) <==> !window.seen.contains(number)),
        ReplayModel::fresh(window.width).admits(number),
        window.accept(accepted).width == window.width,
        window.accept(accepted).highest == Some(
            if accepted > window.highest->Some_0 {
                accepted
            } else {
                window.highest->Some_0
            },
        ),
        number != accepted && number + window.width > accepted ==> window.accept(
            accepted,
        ).seen.contains(number) == window.seen.contains(number),
{
}

} // verus!
