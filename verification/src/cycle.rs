//! Cycle counter readings and their anchored conversion to wall-clock time.

use vstd::prelude::*;
use std::time::{Duration, SystemTime, SystemTimeError, UNIX_EPOCH};

verus! {

/// Nanoseconds in one second.
pub const NANOS_PER_SECOND: u64 = 1_000_000_000;

/// A reading of the monotonic cycle counter. In a span's `end_cycle` the value 0 means
/// "not finished yet".
#[derive(Copy, Clone, Default, Debug, PartialEq, Eq, Structural, PartialOrd, Ord)]
pub struct Cycle(pub u64);

/// Wall-clock time in nanoseconds since the Unix epoch.
#[derive(Copy, Clone, Default, Debug, PartialEq, Eq, Structural, PartialOrd, Ord)]
pub struct Realtime {
    pub ns: u64,
}

impl Cycle {
    pub fn new(cycles: u64) -> (r: Self)
        ensures
            r.0 == cycles,
    {
        Cycle(cycles)
    }

    pub fn is_zero(&self) -> (r: bool)
        ensures
            r == (self.0 == 0),
    {
        self.0 == 0
    }
}

/// A source of cycle readings together with a fixed conversion to wall-clock time.
///
/// `now` may return anything; `cycle_to_realtime` is a function of the clock's own state and
/// the cycle alone, named by `realtime_of`.
pub trait Clock {
    spec fn realtime_of(&self, cycle: Cycle) -> Realtime;

    fn now(&self) -> Cycle;

    fn cycle_to_realtime(&self, cycle: Cycle) -> (r: Realtime)
        ensures
            r == self.realtime_of(cycle),
    ;
}

/// Whole nanoseconds that `cycles` cycles last at `cycles_per_second`, rounded down.
pub open spec fn cycles_to_nanos(cycles: int, cycles_per_second: int) -> int {
    cycles * NANOS_PER_SECOND / cycles_per_second
}

/// The affine map from cycles to wall-clock nanoseconds through the sample point
/// `(anchor_cycle, anchor_ns)`, kept inside the range of `u64` at both ends.
pub open spec fn anchored_nanos(
    anchor_ns: int,
    anchor_cycle: int,
    cycles_per_second: int,
    cycle: int,
) -> int {
    if cycle > anchor_cycle {
        let t = anchor_ns + cycles_to_nanos(cycle - anchor_cycle, cycles_per_second);
        if t > u64::MAX {
            u64::MAX as int
        } else {
            t
        }
    } else {
        let t = anchor_ns - cycles_to_nanos(anchor_cycle - cycle, cycles_per_second);
        if t < 0 {
            0
        } else {
            t
        }
    }
}

/// One calibration sample: at cycle `cycle` the wall clock read `realtime`, and the counter
/// advances `cycles_per_second` cycles each second. Immutable once made.
#[derive(Copy, Clone, Debug)]
pub struct Anchor {
    realtime: Realtime,
    cycle: Cycle,
    cycles_per_second: u64,
}

impl Anchor {
    #[verifier::type_invariant]
    spec fn positive_rate(self) -> bool {
        self.cycles_per_second > 0
    }

    pub closed spec fn spec_realtime(&self) -> Realtime {
        self.realtime
    }

    pub closed spec fn spec_cycle(&self) -> Cycle {
        self.cycle
    }

    pub closed spec fn spec_cycles_per_second(&self) -> u64 {
        self.cycles_per_second
    }

    /// The wall-clock time that this anchor assigns to `cycle`.
    pub open spec fn realtime_of(&self, cycle: Cycle) -> Realtime {
        Realtime {
            ns: anchored_nanos(
                self.spec_realtime().ns as int,
                self.spec_cycle().0 as int,
                self.spec_cycles_per_second() as int,
                cycle.0 as int,
            ) as u64,
        }
    }

    /// An anchor through the given sample; `None` exactly when the rate is zero.
    pub fn new(realtime: Realtime, cycle: Cycle, cycles_per_second: u64) -> (r: Option<Anchor>)
        ensures
            r is Some <==> cycles_per_second > 0,
            r matches Some(a) ==> a.spec_realtime() == realtime && a.spec_cycle() == cycle
                && a.spec_cycles_per_second() == cycles_per_second,
    {
        if cycles_per_second == 0 {
            None
        } else {
            Some(Anchor { realtime, cycle, cycles_per_second })
        }
    }

    #[verifier::when_used_as_spec(spec_realtime)]
    pub fn realtime(&self) -> (r: Realtime)
        ensures
            r == self.spec_realtime(),
    {
        self.realtime
    }

    #[verifier::when_used_as_spec(spec_cycle)]
    pub fn cycle(&self) -> (r: Cycle)
        ensures
            r == self.spec_cycle(),
    {
        self.cycle
    }

    #[verifier::when_used_as_spec(spec_cycles_per_second)]
    pub fn cycles_per_second(&self) -> (r: u64)
        ensures
            r == self.spec_cycles_per_second(),
            r > 0,
    {
        proof {
            use_type_invariant(self);
        }
        self.cycles_per_second
    }

    pub fn cycle_to_realtime(&self, cycle: Cycle) -> (r: Realtime)
        ensures
            r == self.realtime_of(cycle),
    {
        proof {
            use_type_invariant(self);
        }
        let base: u128 = self.realtime.ns as u128;
        if cycle.0 > self.cycle.0 {
            let forward_ns: u128 = nanos_of_cycles(cycle.0 - self.cycle.0, self.cycles_per_second);
            let t: u128 = base + forward_ns;
            if t > u64::MAX as u128 {
                Realtime { ns: u64::MAX }
            } else {
                Realtime { ns: t as u64 }
            }
        } else {
            let backward_ns: u128 = nanos_of_cycles(self.cycle.0 - cycle.0, self.cycles_per_second);
            if backward_ns > base {
                Realtime { ns: 0 }
            } else {
                Realtime { ns: (base - backward_ns) as u64 }
            }
        }
    }
}

/// Computes `cycles_to_nanos` in 128 bits, where the product cannot overflow.
fn nanos_of_cycles(cycles: u64, cycles_per_second: u64) -> (r: u128)
    requires
        cycles_per_second > 0,
    ensures
        r == cycles_to_nanos(cycles as int, cycles_per_second as int),
        r <= cycles * NANOS_PER_SECOND,
{
    let product: u128 = (cycles as u128) * 1_000_000_000u128;
    let r: u128 = product / (cycles_per_second as u128);
    assert(r <= product) by (nonlinear_arith)
        requires
            r == product / (cycles_per_second as u128),
            cycles_per_second > 0,
    ;
    r
}

/// The conversion never runs backwards: a later cycle maps to a wall-clock time that is at
/// least that of an earlier one.
pub proof fn lemma_realtime_monotone(anchor: Anchor, earlier: Cycle, later: Cycle)
    requires
        anchor.spec_cycles_per_second() > 0,
        earlier.0 <= later.0,
    ensures
        anchor.realtime_of(earlier).ns <= anchor.realtime_of(later).ns,
{
    let rate = anchor.spec_cycles_per_second() as int;
    let at = anchor.spec_cycle().0 as int;
    let e = earlier.0 as int;
    let l = later.0 as int;
    lemma_nanos_monotone(0, l - at, rate);
    lemma_nanos_monotone(0, at - e, rate);
    lemma_nanos_monotone(e - at, l - at, rate);
    lemma_nanos_monotone(at - l, at - e, rate);
    assert(cycles_to_nanos(0, rate) == 0) by (nonlinear_arith)
        requires rate > 0;
}

/// More cycles never last fewer nanoseconds.
pub proof fn lemma_nanos_monotone(a: int, b: int, cycles_per_second: int)
    requires
        cycles_per_second > 0,
    ensures
        a <= b ==> cycles_to_nanos(a, cycles_per_second) <= cycles_to_nanos(b, cycles_per_second),
{
    if a <= b {
        let x = a * NANOS_PER_SECOND;
        let y = b * NANOS_PER_SECOND;
        assert(x <= y);
        assert(x / cycles_per_second <= y / cycles_per_second) by (nonlinear_arith)
            requires x <= y, cycles_per_second > 0;
    }
}

#[verifier::external_type_specification]
#[verifier::external_body]
pub struct ExInstant(minstant::Instant);

#[verifier::external_type_specification]
#[verifier::external_body]
pub struct ExSystemTime(SystemTime);

#[verifier::external_type_specification]
#[verifier::external_body]
pub struct ExSystemTimeError(SystemTimeError);

/// The whole nanoseconds that a `Duration` lasts, as `Duration::as_nanos` reports them.
pub uninterp spec fn duration_nanos(d: Duration) -> u128;

/// `Duration::as_nanos` is a function of the duration alone; its value goes by the name
/// `duration_nanos`.
pub assume_specification[ Duration::as_nanos ](d: &Duration) -> (n: u128)
    ensures
        n == duration_nanos(*d),
;

/// `minstant::Instant::now`: the current reading of the counter. Nothing is claimed of it.
#[verifier::external_body]
fn instant_now() -> minstant::Instant {
    minstant::Instant::now()
}

/// `minstant::Instant::duration_since`, measured from `minstant::Instant::ZERO`: the time the
/// counter has run up to `instant`. Nothing is claimed of it.
#[verifier::external_body]
fn since_counter_start(instant: minstant::Instant) -> Duration {
    instant.duration_since(minstant::Instant::ZERO)
}

/// `SystemTime::now`: the current wall-clock time. Nothing is claimed of it.
#[verifier::external_body]
fn wall_clock_now() -> SystemTime {
    SystemTime::now()
}

/// `SystemTime::duration_since`, measured from `UNIX_EPOCH`: an error when the wall clock
/// reads earlier than the epoch. Nothing is claimed of the result.
#[verifier::external_body]
fn since_unix_epoch(time: &SystemTime) -> Result<Duration, SystemTimeError> {
    time.duration_since(UNIX_EPOCH)
}

/// The nanoseconds of `d` as a `u64`, held at `u64::MAX` where they do not fit.
pub open spec fn saturated_nanos(d: Duration) -> u64 {
    if duration_nanos(d) > u64::MAX {
        u64::MAX
    } else {
        duration_nanos(d) as u64
    }
}

/// The nanoseconds of `d` as a `u64`, held at `u64::MAX` where they do not fit.
pub fn saturating_nanos(d: &Duration) -> (r: u64)
    ensures
        r == saturated_nanos(*d),
{
    let n: u128 = d.as_nanos();
    if n > u64::MAX as u128 {
        u64::MAX
    } else {
        n as u64
    }
}

impl Anchor {
    /// Samples the counter and the wall clock together. The counter is read in nanoseconds,
    /// so the rate of the anchor is `NANOS_PER_SECOND`. `None` when the wall clock reads
    /// earlier than the Unix epoch.
    pub fn sample() -> (r: Option<Anchor>)
        ensures
            r matches Some(a) ==> a.spec_cycles_per_second() == NANOS_PER_SECOND,
    {
        let cycle = DefaultClock::read_cycle();
        let wall = wall_clock_now();
        Anchor::from_readings(cycle, since_unix_epoch(&wall))
    }

    /// The anchor through one reading of the counter, `cycle`, and one of the wall clock,
    /// `since_epoch`: the time since the Unix epoch, or an error where the wall clock read
    /// earlier than the epoch. The counter counts nanoseconds. `None` exactly on an error.
    pub fn from_readings(cycle: Cycle, since_epoch: Result<Duration, SystemTimeError>) -> (r: Option<
        Anchor,
    >)
        ensures
            since_epoch is Err ==> r is None,
            since_epoch matches Ok(d) ==> (r matches Some(a) && a.spec_realtime().ns
                == saturated_nanos(d) && a.spec_cycle() == cycle && a.spec_cycles_per_second()
                == NANOS_PER_SECOND),
    {
        match since_epoch {
            Ok(d) => Anchor::new(Realtime { ns: saturating_nanos(&d) }, cycle, NANOS_PER_SECOND),
            Err(_) => None,
        }
    }
}

/// The clock of the running process: cycles are read from the monotonic counter and are
/// converted to wall-clock time through one anchor, fixed when the clock is made.
#[derive(Copy, Clone, Debug)]
pub struct DefaultClock {
    anchor: Anchor,
}

impl DefaultClock {
    pub closed spec fn spec_anchor(&self) -> Anchor {
        self.anchor
    }

    pub fn new(anchor: Anchor) -> (r: Self)
        ensures
            r.spec_anchor() == anchor,
    {
        DefaultClock { anchor }
    }

    #[verifier::when_used_as_spec(spec_anchor)]
    pub fn anchor(&self) -> (r: Anchor)
        ensures
            r == self.spec_anchor(),
    {
        self.anchor
    }

    /// The current reading of the monotonic counter, in nanoseconds since the counter
    /// started.
    pub fn read_cycle() -> Cycle {
        let elapsed = since_counter_start(instant_now());
        Cycle(saturating_nanos(&elapsed))
    }
}

impl Clock for DefaultClock {
    open spec fn realtime_of(&self, cycle: Cycle) -> Realtime {
        self.spec_anchor().realtime_of(cycle)
    }

    fn now(&self) -> Cycle {
        DefaultClock::read_cycle()
    }

    fn cycle_to_realtime(&self, cycle: Cycle) -> (r: Realtime) {
        self.anchor.cycle_to_realtime(cycle)
    }
}

} // verus!
