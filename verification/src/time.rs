//! Spans and readings of time.
//!
//! A [`Duration`] is a span in nanoseconds, an [`Instant`] a reading of a
//! monotonic clock and a [`SystemTime`] a reading of a wall clock. All three
//! are plain values: nothing here looks at the operating system's clocks.

use core::cmp::Ordering;
use vstd::prelude::*;

verus! {

/// The longest span, in nanoseconds: `u64::MAX` seconds and all but one
/// nanosecond of another.
pub const MAX_NANOS: u128 = 18_446_744_073_709_551_615_999_999_999;

/// A span of time, at most [`MAX_NANOS`] nanoseconds long.
#[derive(Clone, Copy, Debug, PartialEq, Eq, Structural, Hash)]
pub struct Duration {
    nanos: u128,
}

impl Duration {
    /// No span is longer than the longest.
    #[verifier::type_invariant]
    pub open spec fn bounded(self) -> bool {
        self@ <= MAX_NANOS
    }

    /// The span's length in nanoseconds.
    pub closed spec fn view(&self) -> nat {
        self.nanos as nat
    }

    /// The span of `nanos` nanoseconds.
    pub closed spec fn of(nanos: nat) -> Duration {
        Duration { nanos: nanos as u128 }
    }

    /// Two spans of one length are one span.
    pub proof fn lemma_ext(a: Duration, b: Duration)
        requires
            a@ == b@,
        ensures
            a == b,
    {
    }

    /// The span of a given length has that length.
    pub proof fn lemma_of(nanos: nat)
        requires
            nanos <= MAX_NANOS,
        ensures
            Duration::of(nanos)@ == nanos,
    {
    }

    /// The span of no length.
    pub fn zero() -> (r: Duration)
        ensures
            r@ == 0,
            r == Duration::of(0),
    {
        Duration { nanos: 0 }
    }

    /// The longest span.
    pub fn longest() -> (r: Duration)
        ensures
            r@ == MAX_NANOS,
    {
        Duration { nanos: MAX_NANOS }
    }

    pub fn from_secs(secs: u64) -> (r: Duration)
        ensures
            r@ == secs * 1_000_000_000,
    {
        Duration { nanos: secs as u128 * 1_000_000_000 }
    }

    pub fn from_millis(millis: u64) -> (r: Duration)
        ensures
            r@ == millis * 1_000_000,
    {
        Duration { nanos: millis as u128 * 1_000_000 }
    }

    pub fn from_nanos(nanos: u64) -> (r: Duration)
        ensures
            r@ == nanos,
    {
        Duration { nanos: nanos as u128 }
    }

    /// The span of `nanos` nanoseconds, or `None` if it is too long.
    pub fn try_from_nanos(nanos: u128) -> (r: Option<Duration>)
        ensures
            match r {
                Some(d) => nanos <= MAX_NANOS && d@ == nanos,
                None => nanos > MAX_NANOS,
            },
    {
        if nanos <= MAX_NANOS {
            Some(Duration { nanos })
        } else {
            None
        }
    }

    pub fn as_nanos(&self) -> (r: u128)
        ensures
            r == self@,
            r <= MAX_NANOS,
    {
        proof {
            use_type_invariant(self);
        }
        self.nanos
    }

    pub fn as_micros(&self) -> (r: u128)
        ensures
            r == self@ / 1_000,
    {
        self.nanos / 1_000
    }

    pub fn as_secs(&self) -> (r: u64)
        ensures
            r == self@ / 1_000_000_000,
    {
        proof {
            use_type_invariant(self);
        }
        (self.nanos / 1_000_000_000) as u64
    }

    pub fn is_zero(&self) -> (r: bool)
        ensures
            r == (self@ == 0),
    {
        self.nanos == 0
    }

    /// The sum, or `None` if it is too long to be a span.
    pub fn checked_add(self, rhs: Duration) -> (r: Option<Duration>)
        ensures
            match r {
                Some(d) => self@ + rhs@ <= MAX_NANOS && d@ == self@ + rhs@,
                None => self@ + rhs@ > MAX_NANOS,
            },
    {
        proof {
            use_type_invariant(&self);
            use_type_invariant(&rhs);
        }
        Duration::try_from_nanos(self.nanos + rhs.nanos)
    }

    /// The difference, or `None` if `rhs` is the longer span.
    pub fn checked_sub(self, rhs: Duration) -> (r: Option<Duration>)
        ensures
            match r {
                Some(d) => self@ >= rhs@ && d@ == self@ - rhs@,
                None => self@ < rhs@,
            },
    {
        proof {
            use_type_invariant(&self);
        }
        if self.nanos >= rhs.nanos {
            Some(Duration { nanos: self.nanos - rhs.nanos })
        } else {
            None
        }
    }

    /// The difference, or no time at all if `rhs` is the longer span.
    pub fn saturating_sub(self, rhs: Duration) -> (r: Duration)
        ensures
            r@ == if self@ >= rhs@ {
                (self@ - rhs@) as nat
            } else {
                0
            },
    {
        proof {
            use_type_invariant(&self);
        }
        if self.nanos >= rhs.nanos {
            Duration { nanos: self.nanos - rhs.nanos }
        } else {
            Duration { nanos: 0 }
        }
    }

    /// The sum, or the longest span if the sum is longer still.
    pub fn saturating_add(self, rhs: Duration) -> (r: Duration)
        ensures
            r@ == if self@ + rhs@ <= MAX_NANOS {
                self@ + rhs@
            } else {
                MAX_NANOS as nat
            },
    {
        proof {
            use_type_invariant(&self);
            use_type_invariant(&rhs);
        }
        let sum: u128 = self.nanos + rhs.nanos;
        if sum <= MAX_NANOS {
            Duration { nanos: sum }
        } else {
            Duration { nanos: MAX_NANOS }
        }
    }

    /// The shorter of two spans.
    pub fn shorter(self, other: Duration) -> (r: Duration)
        ensures
            r == if other@ < self@ {
                other
            } else {
                self
            },
    {
        if other.nanos < self.nanos {
            other
        } else {
            self
        }
    }
}

impl Default for Duration {
    fn default() -> (r: Duration)
        ensures
            r@ == 0,
    {
        Duration::zero()
    }
}

impl PartialOrd for Duration {
    fn partial_cmp(&self, other: &Duration) -> (r: Option<Ordering>) {
        if self.nanos < other.nanos {
            Some(Ordering::Less)
        } else if self.nanos > other.nanos {
            Some(Ordering::Greater)
        } else {
            Some(Ordering::Equal)
        }
    }
}

impl vstd::std_specs::cmp::PartialOrdSpecImpl for Duration {
    open spec fn obeys_partial_cmp_spec() -> bool {
        true
    }

    open spec fn partial_cmp_spec(&self, other: &Duration) -> Option<Ordering> {
        if self@ < other@ {
            Some(Ordering::Less)
        } else if self@ > other@ {
            Some(Ordering::Greater)
        } else {
            Some(Ordering::Equal)
        }
    }
}

/// A reading of a monotonic clock: the span since that clock's epoch.
#[derive(Clone, Copy, Debug, PartialEq, Eq, Structural, Hash)]
pub struct Instant {
    since_epoch: Duration,
}

impl Instant {
    /// No reading is later than the end of time.
    #[verifier::type_invariant]
    pub open spec fn bounded(self) -> bool {
        self@ <= MAX_NANOS
    }

    /// Nanoseconds since the clock's epoch.
    pub closed spec fn view(&self) -> nat {
        self.since_epoch@
    }

    /// The reading `nanos` nanoseconds after the epoch.
    pub closed spec fn of(nanos: nat) -> Instant {
        Instant { since_epoch: Duration::of(nanos) }
    }

    /// Two readings at one distance from the epoch are one reading.
    pub proof fn lemma_ext(a: Instant, b: Instant)
        requires
            a@ == b@,
        ensures
            a == b,
    {
        Duration::lemma_ext(a.since_epoch, b.since_epoch);
    }

    /// The reading `since_epoch` after the clock's epoch.
    pub fn from_epoch(since_epoch: Duration) -> (r: Instant)
        ensures
            r@ == since_epoch@,
    {
        proof {
            use_type_invariant(&since_epoch);
        }
        Instant { since_epoch }
    }

    /// How long after the clock's epoch this reading was taken.
    pub fn since_epoch(&self) -> (r: Duration)
        ensures
            r@ == self@,
    {
        self.since_epoch
    }

    /// The span from `earlier` to `self`, or no time at all if `earlier` is
    /// the later of the two.
    pub fn duration_since(&self, earlier: Instant) -> (r: Duration)
        ensures
            r@ == elapsed_between(earlier@, self@),
    {
        self.since_epoch.saturating_sub(earlier.since_epoch)
    }

    /// [`duration_since`](Self::duration_since) under its explicit name.
    pub fn saturating_duration_since(&self, earlier: Instant) -> (r: Duration)
        ensures
            r@ == elapsed_between(earlier@, self@),
    {
        self.since_epoch.saturating_sub(earlier.since_epoch)
    }

    /// The span from `earlier` to `self`, or `None` if `earlier` is the later
    /// of the two.
    pub fn checked_duration_since(&self, earlier: Instant) -> (r: Option<Duration>)
        ensures
            match r {
                Some(d) => earlier@ <= self@ && d@ == self@ - earlier@,
                None => earlier@ > self@,
            },
    {
        self.since_epoch.checked_sub(earlier.since_epoch)
    }

    /// The reading `duration` later, or the end of time.
    pub open spec fn later(self, duration: Duration) -> Instant {
        Instant::of(
            if self@ + duration@ <= MAX_NANOS {
                self@ + duration@
            } else {
                MAX_NANOS as nat
            },
        )
    }

    /// The reading `duration` later, or the end of time.
    pub fn saturating_add(&self, duration: Duration) -> (r: Instant)
        ensures
            r == self.later(duration),
    {
        let sum = self.since_epoch.saturating_add(duration);
        let r = Instant::from_epoch(sum);
        proof {
            Instant::lemma_of(sum@);
            Instant::lemma_ext(r, self.later(duration));
        }
        r
    }

    /// A reading at a given distance from the epoch has that distance.
    pub proof fn lemma_of(nanos: nat)
        requires
            nanos <= MAX_NANOS,
        ensures
            Instant::of(nanos)@ == nanos,
    {
    }

    /// The reading `duration` later, or `None` past the end of time.
    pub fn checked_add(&self, duration: Duration) -> (r: Option<Instant>)
        ensures
            match r {
                Some(i) => self@ + duration@ <= MAX_NANOS && i@ == self@ + duration@,
                None => self@ + duration@ > MAX_NANOS,
            },
    {
        match self.since_epoch.checked_add(duration) {
            Some(since_epoch) => Some(Instant::from_epoch(since_epoch)),
            None => None,
        }
    }

    /// The reading `duration` earlier, or `None` before the epoch.
    pub fn checked_sub(&self, duration: Duration) -> (r: Option<Instant>)
        ensures
            match r {
                Some(i) => self@ >= duration@ && i@ == self@ - duration@,
                None => self@ < duration@,
            },
    {
        match self.since_epoch.checked_sub(duration) {
            Some(since_epoch) => Some(Instant::from_epoch(since_epoch)),
            None => None,
        }
    }
}

/// How long a clock takes from reading `from` to reading `to`; no time at all
/// when the readings are out of order.
pub open spec fn elapsed_between(from: nat, to: nat) -> nat {
    if to >= from {
        (to - from) as nat
    } else {
        0
    }
}

impl PartialOrd for Instant {
    fn partial_cmp(&self, other: &Instant) -> (r: Option<Ordering>) {
        self.since_epoch.partial_cmp(&other.since_epoch)
    }
}

impl vstd::std_specs::cmp::PartialOrdSpecImpl for Instant {
    open spec fn obeys_partial_cmp_spec() -> bool {
        true
    }

    open spec fn partial_cmp_spec(&self, other: &Instant) -> Option<Ordering> {
        if self@ < other@ {
            Some(Ordering::Less)
        } else if self@ > other@ {
            Some(Ordering::Greater)
        } else {
            Some(Ordering::Equal)
        }
    }
}

impl core::ops::Add<Duration> for Instant {
    type Output = Instant;

    fn add(self, rhs: Duration) -> Instant {
        proof {
            use_type_invariant(&self.since_epoch);
            use_type_invariant(&rhs);
        }
        Instant { since_epoch: Duration { nanos: self.since_epoch.nanos + rhs.nanos } }
    }
}

impl vstd::std_specs::ops::AddSpecImpl<Duration> for Instant {
    open spec fn obeys_add_spec() -> bool {
        true
    }

    open spec fn add_req(self, rhs: Duration) -> bool {
        self@ + rhs@ <= MAX_NANOS
    }

    open spec fn add_spec(self, rhs: Duration) -> Instant {
        Instant::of(self@ + rhs@)
    }
}

impl core::ops::Sub<Duration> for Instant {
    type Output = Instant;

    fn sub(self, rhs: Duration) -> Instant {
        proof {
            use_type_invariant(&self.since_epoch);
        }
        Instant { since_epoch: Duration { nanos: self.since_epoch.nanos - rhs.nanos } }
    }
}

impl core::ops::Sub<Instant> for Instant {
    type Output = Duration;

    fn sub(self, rhs: Instant) -> Duration {
        let r = self.duration_since(rhs);
        proof {
            use_type_invariant(&r);
            Duration::lemma_of(r@);
            Duration::lemma_ext(r, Duration::of(elapsed_between(rhs@, self@)));
        }
        r
    }
}

impl vstd::std_specs::ops::SubSpecImpl<Instant> for Instant {
    open spec fn obeys_sub_spec() -> bool {
        true
    }

    open spec fn sub_req(self, rhs: Instant) -> bool {
        true
    }

    open spec fn sub_spec(self, rhs: Instant) -> Duration {
        Duration::of(elapsed_between(rhs@, self@))
    }
}

impl vstd::std_specs::ops::SubSpecImpl<Duration> for Instant {
    open spec fn obeys_sub_spec() -> bool {
        true
    }

    open spec fn sub_req(self, rhs: Duration) -> bool {
        self@ >= rhs@
    }

    open spec fn sub_spec(self, rhs: Duration) -> Instant {
        Instant::of((self@ - rhs@) as nat)
    }
}

/// A reading of a wall clock: the span since 1970-01-01 00:00:00 UTC.
#[derive(Clone, Copy, Debug, PartialEq, Eq, Structural, Hash)]
pub struct SystemTime {
    since_unix_epoch: Duration,
}

/// Tells by how much the second of two wall clock readings was the later one.
#[derive(Clone, Copy, Debug, PartialEq, Eq, Structural)]
pub struct SystemTimeError {
    excess: Duration,
}

impl SystemTimeError {
    /// The excess in nanoseconds.
    pub closed spec fn view(&self) -> nat {
        self.excess@
    }

    /// The positive duration by which the other time exceeded the first.
    pub fn duration(&self) -> (r: Duration)
        ensures
            r@ == self@,
    {
        self.excess
    }
}

impl SystemTime {
    /// No reading is later than the end of time.
    #[verifier::type_invariant]
    pub open spec fn bounded(self) -> bool {
        self@ <= MAX_NANOS
    }

    /// Nanoseconds since 1970-01-01 00:00:00 UTC.
    pub closed spec fn view(&self) -> nat {
        self.since_unix_epoch@
    }

    /// Two readings at one distance from 1970-01-01 00:00:00 UTC are one reading.
    pub proof fn lemma_ext(a: SystemTime, b: SystemTime)
        requires
            a@ == b@,
        ensures
            a == b,
    {
        Duration::lemma_ext(a.since_unix_epoch, b.since_unix_epoch);
    }

    /// The reading `nanos` nanoseconds after 1970-01-01 00:00:00 UTC.
    pub closed spec fn of(nanos: nat) -> SystemTime {
        SystemTime { since_unix_epoch: Duration::of(nanos) }
    }

    /// 1970-01-01 00:00:00 UTC.
    pub fn unix_epoch() -> (r: SystemTime)
        ensures
            r@ == 0,
    {
        SystemTime { since_unix_epoch: Duration { nanos: 0 } }
    }

    /// The reading `since_unix_epoch` after 1970-01-01 00:00:00 UTC.
    pub fn from_unix_epoch(since_unix_epoch: Duration) -> (r: SystemTime)
        ensures
            r@ == since_unix_epoch@,
    {
        proof {
            use_type_invariant(&since_unix_epoch);
        }
        SystemTime { since_unix_epoch }
    }

    /// How long after 1970-01-01 00:00:00 UTC this reading was taken.
    pub fn since_unix_epoch(&self) -> (r: Duration)
        ensures
            r@ == self@,
    {
        self.since_unix_epoch
    }

    /// The span from `earlier` to `self`, or by how much `earlier` was the
    /// later of the two.
    pub fn duration_since(&self, earlier: SystemTime) -> (r: Result<Duration, SystemTimeError>)
        ensures
            match r {
                Ok(d) => self@ >= earlier@ && d@ == self@ - earlier@,
                Err(e) => self@ < earlier@ && e@ == earlier@ - self@,
            },
    {
        match self.since_unix_epoch.checked_sub(earlier.since_unix_epoch) {
            Some(d) => Ok(d),
            None => Err(
                SystemTimeError {
                    excess: earlier.since_unix_epoch.saturating_sub(self.since_unix_epoch),
                },
            ),
        }
    }

    /// The reading `duration` later, or `None` past the end of time.
    pub fn checked_add(&self, duration: Duration) -> (r: Option<SystemTime>)
        ensures
            match r {
                Some(t) => self@ + duration@ <= MAX_NANOS && t@ == self@ + duration@,
                None => self@ + duration@ > MAX_NANOS,
            },
    {
        match self.since_unix_epoch.checked_add(duration) {
            Some(since) => Some(SystemTime::from_unix_epoch(since)),
            None => None,
        }
    }

    /// The reading `duration` earlier, or `None` before 1970.
    pub fn checked_sub(&self, duration: Duration) -> (r: Option<SystemTime>)
        ensures
            match r {
                Some(t) => self@ >= duration@ && t@ == self@ - duration@,
                None => self@ < duration@,
            },
    {
        match self.since_unix_epoch.checked_sub(duration) {
            Some(since) => Some(SystemTime::from_unix_epoch(since)),
            None => None,
        }
    }
}

impl PartialOrd for SystemTime {
    fn partial_cmp(&self, other: &SystemTime) -> (r: Option<Ordering>) {
        self.since_unix_epoch.partial_cmp(&other.since_unix_epoch)
    }
}

impl vstd::std_specs::cmp::PartialOrdSpecImpl for SystemTime {
    open spec fn obeys_partial_cmp_spec() -> bool {
        true
    }

    open spec fn partial_cmp_spec(&self, other: &SystemTime) -> Option<Ordering> {
        if self@ < other@ {
            Some(Ordering::Less)
        } else if self@ > other@ {
            Some(Ordering::Greater)
        } else {
            Some(Ordering::Equal)
        }
    }
}

impl core::ops::Add<Duration> for SystemTime {
    type Output = SystemTime;

    fn add(self, rhs: Duration) -> SystemTime {
        proof {
            use_type_invariant(&self.since_unix_epoch);
            use_type_invariant(&rhs);
        }
        SystemTime {
            since_unix_epoch: Duration { nanos: self.since_unix_epoch.nanos + rhs.nanos },
        }
    }
}

impl vstd::std_specs::ops::AddSpecImpl<Duration> for SystemTime {
    open spec fn obeys_add_spec() -> bool {
        true
    }

    open spec fn add_req(self, rhs: Duration) -> bool {
        self@ + rhs@ <= MAX_NANOS
    }

    open spec fn add_spec(self, rhs: Duration) -> SystemTime {
        SystemTime::of(self@ + rhs@)
    }
}

impl core::ops::Sub<Duration> for SystemTime {
    type Output = SystemTime;

    fn sub(self, rhs: Duration) -> SystemTime {
        proof {
            use_type_invariant(&self.since_unix_epoch);
        }
        SystemTime {
            since_unix_epoch: Duration { nanos: self.since_unix_epoch.nanos - rhs.nanos },
        }
    }
}

impl vstd::std_specs::ops::SubSpecImpl<Duration> for SystemTime {
    open spec fn obeys_sub_spec() -> bool {
        true
    }

    open spec fn sub_req(self, rhs: Duration) -> bool {
        self@ >= rhs@
    }

    open spec fn sub_spec(self, rhs: Duration) -> SystemTime {
        SystemTime::of((self@ - rhs@) as nat)
    }
}

} // verus!
