//! Clocks that never go back, as they are looked at while something is waited for.
use vstd::prelude::*;

verus! {

/// A moment on the machine's clock that never goes back.
#[verifier::external_type_specification]
#[verifier::external_body]
pub struct ExInstant(std::time::Instant);

/// `Instant::now` of the standard library. Nothing is said of the moment.
pub assume_specification[ std::time::Instant::now ]() -> std::time::Instant
;

/// `Instant::elapsed` of the standard library. Nothing is said of how long it is.
pub assume_specification[ std::time::Instant::elapsed ](
    t: &std::time::Instant,
) -> std::time::Duration
;

/// `Duration::as_nanos` of the standard library. Nothing is said of the number.
pub assume_specification[ std::time::Duration::as_nanos ](d: &std::time::Duration) -> u128
;

/// A clock that can be looked at. It shows nanoseconds.
pub trait Clock {
    /// What the clock showed whenever it was looked at so far.
    spec fn readings(&self) -> Seq<u128>;

    /// Looks at the clock.
    fn look(&mut self) -> (now: u128)
        ensures
            final(self).readings() == old(self).readings().push(now),
    ;
}

/// The machine's clock, counted from when it was started.
pub struct MachineClock {
    begun: std::time::Instant,
    readings: Ghost<Seq<u128>>,
}

impl MachineClock {
    /// A clock that starts now.
    pub fn start() -> (c: MachineClock)
        ensures
            c.readings() == Seq::<u128>::empty(),
    {
        MachineClock { begun: std::time::Instant::now(), readings: Ghost(Seq::empty()) }
    }
}

impl Clock for MachineClock {
    closed spec fn readings(&self) -> Seq<u128> {
        self.readings@
    }

    fn look(&mut self) -> (now: u128) {
        let now: u128 = self.begun.elapsed().as_nanos();
        self.readings = Ghost(self.readings@.push(now));
        now
    }
}

/// A clock that stands still.
pub struct StoppedClock {
    at: u128,
    readings: Ghost<Seq<u128>>,
}

impl StoppedClock {
    /// It never showed anything but what it shows.
    #[verifier::type_invariant]
    pub closed spec fn stands_still(self) -> bool {
        forall|i: int| 0 <= i < self.readings@.len() ==> #[trigger] self.readings@[i] == self.at
    }

    /// What the clock shows.
    pub closed spec fn shows(self) -> u128 {
        self.at
    }

    /// A clock that stands still at a reading.
    pub fn new(at: u128) -> (c: StoppedClock)
        ensures
            c.readings() == Seq::<u128>::empty(),
            c.shows() == at,
    {
        StoppedClock { at, readings: Ghost(Seq::empty()) }
    }
}

impl Clock for StoppedClock {
    closed spec fn readings(&self) -> Seq<u128> {
        self.readings@
    }

    fn look(&mut self) -> (now: u128)
        ensures
            now == old(self).shows(),
            final(self).shows() == old(self).shows(),
    {
        proof {
            use_type_invariant(&*self);
        }
        let now: u128 = self.at;
        self.readings = Ghost(self.readings@.push(now));
        now
    }
}

/// How long ago `begun` is at `now`; never less than nothing.
pub open spec fn passed(begun: u128, now: u128) -> int {
    if now >= begun {
        now - begun
    } else {
        0
    }
}

/// Whether no two readings are as far apart as a wait lasts.
pub open spec fn all_in_time(readings: Seq<u128>, timeout: u64) -> bool {
    forall|i: int, j: int|
        0 <= i < readings.len() && 0 <= j < readings.len() ==> passed(
            #[trigger] readings[i],
            #[trigger] readings[j],
        ) < timeout
}

/// Whether a wait that began at `begun` is still on at `now`.
pub fn in_time(begun: u128, now: u128, timeout: u64) -> (r: bool)
    ensures
        r == (passed(begun, now) < timeout),
{
    let gone: u128 = if now >= begun {
        now - begun
    } else {
        0
    };
    gone < timeout as u128
}

/// Nothing comes too late by a clock that stands still, where there is any time at
/// all.
pub proof fn law_stopped_clock_is_in_time(c: StoppedClock, timeout: u64)
    requires
        c.stands_still(),
        timeout > 0,
    ensures
        all_in_time(c.readings(), timeout),
{
}

/// A wait is on as long as less than its time has gone by since it began, and over from
/// then on.
pub proof fn law_a_wait_lasts_its_time(begun: u128, now: u128, timeout: u64)
    ensures
        timeout > 0 ==> (passed(begun, now) < timeout <==> now - begun < timeout),
        timeout == 0 ==> passed(begun, now) >= timeout,
{
}

} // verus!
