//! The virtual clock of a test.
//!
//! The clock follows the real monotonic clock at a rate that the test sets:
//! rate one tracks real time, a larger rate runs fast, rate zero pauses. It
//! can also be pushed forward and set outright. Every reading is a function of
//! a reading of the real clock, which the caller supplies.

use crate::time::{elapsed_between, Duration, Instant, MAX_NANOS, SystemTime, SystemTimeError};
use vstd::prelude::*;

verus! {

/// How many virtual nanoseconds pass per real one, as a fraction.
#[derive(Clone, Copy, Debug, PartialEq, Eq, Structural)]
pub struct TimeRate {
    num: u32,
    den: u32,
}

impl TimeRate {
    #[verifier::type_invariant]
    pub open spec fn defined(self) -> bool {
        self.denominator() > 0
    }

    pub closed spec fn numerator(&self) -> nat {
        self.num as nat
    }

    pub closed spec fn denominator(&self) -> nat {
        self.den as nat
    }

    /// The rate `num / den`. A negative rate would break the clock's
    /// monotonicity and is refused, as is a fraction without a value or with a
    /// numerator over `u32::MAX`.
    pub fn new(num: i64, den: u32) -> (r: Option<TimeRate>)
        ensures
            match r {
                Some(rate) => {
                    &&& 0 <= num <= u32::MAX
                    &&& den > 0
                    &&& rate.numerator() == num
                    &&& rate.denominator() == den
                },
                None => num < 0 || num > u32::MAX || den == 0,
            },
    {
        if num < 0 || num > 4_294_967_295 || den == 0 {
            None
        } else {
            Some(TimeRate { num: num as u32, den })
        }
    }

    /// Virtual time stands still.
    pub fn paused() -> (r: TimeRate)
        ensures
            r.numerator() == 0,
            r.denominator() == 1,
    {
        TimeRate { num: 0, den: 1 }
    }

    /// Virtual time passes as real time does.
    pub fn real_time() -> (r: TimeRate)
        ensures
            r.numerator() == 1,
            r.denominator() == 1,
    {
        TimeRate { num: 1, den: 1 }
    }

    pub fn num(&self) -> (r: u32)
        ensures
            r == self.numerator(),
    {
        self.num
    }

    pub fn den(&self) -> (r: u32)
        ensures
            r == self.denominator(),
            r > 0,
    {
        proof {
            use_type_invariant(self);
        }
        self.den
    }
}

/// What a clock is made of: its rate, the real reading and the virtual reading
/// at which the rate took effect, and the wall time of virtual time zero. All
/// times are in nanoseconds.
pub struct ClockView {
    pub num: nat,
    pub den: nat,
    pub anchor_real: nat,
    pub anchor_virtual: nat,
    pub wall_base: nat,
}

/// `nanos`, cut off at the end of time.
pub open spec fn capped(nanos: nat) -> nat {
    if nanos <= MAX_NANOS {
        nanos
    } else {
        MAX_NANOS as nat
    }
}

/// How many virtual nanoseconds pass in `span` real ones at rate `num / den`.
pub open spec fn scaled(span: nat, num: nat, den: nat) -> nat {
    (span * num) / den
}

/// The fewest real nanoseconds in which `nanos` virtual ones pass.
pub open spec fn unscaled(nanos: nat, num: nat, den: nat) -> nat {
    ((nanos * den + num - 1) / (num as int)) as nat
}

impl ClockView {
    /// The virtual monotonic reading when the real clock reads `at`.
    pub open spec fn mono(self, at: nat) -> nat {
        capped(
            self.anchor_virtual + scaled(
                elapsed_between(self.anchor_real, at),
                self.num,
                self.den,
            ),
        )
    }

    /// The virtual wall clock reading when the real clock reads `at`.
    pub open spec fn wall(self, at: nat) -> nat {
        capped(self.wall_base + self.mono(at))
    }

    /// The clock that goes on from its reading at `at` at the rate `num / den`.
    pub open spec fn with_rate(self, at: nat, num: nat, den: nat) -> ClockView {
        ClockView { num, den, anchor_real: at, anchor_virtual: self.mono(at), ..self }
    }

    /// The clock `nanos` ahead of this one.
    pub open spec fn advanced(self, nanos: nat) -> ClockView {
        ClockView { anchor_virtual: capped(self.anchor_virtual + nanos), ..self }
    }

    /// The clock that reads `nanos` when the real clock reads `at`.
    pub open spec fn set_to(self, at: nat, nanos: nat) -> ClockView {
        ClockView { anchor_real: at, anchor_virtual: nanos, ..self }
    }

    /// What someone who sleeps until virtual time `target` has to do when the
    /// real clock reads `at`.
    pub open spec fn sleep(self, at: nat, target: nat) -> SleepView {
        if self.mono(at) >= target {
            SleepView::Over
        } else if self.num == 0 {
            SleepView::UntilNotified
        } else {
            SleepView::For(
                capped(unscaled((target - self.mono(at)) as nat, self.num, self.den)),
            )
        }
    }
}

/// The next move of a sleeper on the virtual clock.
pub enum SleepView {
    /// The target has been reached.
    Over,
    /// Wait this many real nanoseconds, or until the clock is changed.
    For(nat),
    /// The clock is paused: only a change of the clock can help.
    UntilNotified,
}

/// The next move of a sleeper on the virtual clock.
#[derive(Clone, Copy, Debug, PartialEq, Eq, Structural)]
pub enum SleepStep {
    /// The target has been reached.
    Over,
    /// Wait this long in real time, or until the clock is changed.
    For(Duration),
    /// The clock is paused: only a change of the clock can help.
    UntilNotified,
}

impl SleepStep {
    pub open spec fn view(&self) -> SleepView {
        match *self {
            SleepStep::Over => SleepView::Over,
            SleepStep::For(d) => SleepView::For(d@),
            SleepStep::UntilNotified => SleepView::UntilNotified,
        }
    }
}

/// A virtual clock.
#[derive(Clone, Copy, Debug)]
pub struct Clock {
    rate: TimeRate,
    anchor_real: Instant,
    anchor_virtual: Duration,
    wall_base: Duration,
}

impl Clock {
    pub closed spec fn view(&self) -> ClockView {
        ClockView {
            num: self.rate.numerator(),
            den: self.rate.denominator(),
            anchor_real: self.anchor_real@,
            anchor_virtual: self.anchor_virtual@,
            wall_base: self.wall_base@,
        }
    }

    /// A clock at its virtual epoch that runs in real time, and whose wall
    /// clock starts at `wall`.
    pub fn new(at: Instant, wall: SystemTime) -> (r: Clock)
        ensures
            r@ == (ClockView {
                num: 1,
                den: 1,
                anchor_real: at@,
                anchor_virtual: 0,
                wall_base: wall@,
            }),
    {
        Clock {
            rate: TimeRate::real_time(),
            anchor_real: at,
            anchor_virtual: Duration::zero(),
            wall_base: wall.since_unix_epoch(),
        }
    }

    /// The virtual monotonic reading.
    pub fn mono_now(&self, at: Instant) -> (r: Duration)
        ensures
            r@ == self@.mono(at@),
    {
        let elapsed: u128 = at.duration_since(self.anchor_real).as_nanos();
        let num: u128 = self.rate.num() as u128;
        let den: u128 = self.rate.den() as u128;
        assert(elapsed * num <= MAX_NANOS * 0xffff_ffff) by (nonlinear_arith)
            requires
                0 <= elapsed <= MAX_NANOS,
                0 <= num <= 0xffff_ffff,
        ;
        let scaled: u128 = (elapsed * num) / den;
        match Duration::try_from_nanos(scaled) {
            Some(d) => self.anchor_virtual.saturating_add(d),
            None => Duration::longest(),
        }
    }

    /// The virtual wall clock reading.
    pub fn wall_now(&self, at: Instant) -> (r: SystemTime)
        ensures
            r@ == self@.wall(at@),
    {
        SystemTime::from_unix_epoch(self.wall_base.saturating_add(self.mono_now(at)))
    }

    pub fn rate(&self) -> (r: TimeRate)
        ensures
            r.numerator() == self@.num,
            r.denominator() == self@.den,
    {
        self.rate
    }

    /// Goes on at another rate from here.
    pub fn set_rate(&mut self, at: Instant, rate: TimeRate)
        ensures
            final(self)@ == old(self)@.with_rate(at@, rate.numerator(), rate.denominator()),
    {
        self.anchor_virtual = self.mono_now(at);
        self.anchor_real = at;
        self.rate = rate;
    }

    /// Pushes the clock forward.
    pub fn advance(&mut self, by: Duration)
        ensures
            final(self)@ == old(self)@.advanced(by@),
    {
        self.anchor_virtual = self.anchor_virtual.saturating_add(by);
    }

    /// Sets the clock's monotonic reading.
    pub fn set_value(&mut self, at: Instant, value: Duration)
        ensures
            final(self)@ == old(self)@.set_to(at@, value@),
    {
        self.anchor_real = at;
        self.anchor_virtual = value;
    }

    /// What someone who sleeps until the virtual reading `target` does next.
    pub fn sleep_step(&self, at: Instant, target: Duration) -> (r: SleepStep)
        ensures
            r@ == self@.sleep(at@, target@),
    {
        let now = self.mono_now(at);
        match target.checked_sub(now) {
            None => SleepStep::Over,
            Some(left) => {
                if left.is_zero() {
                    return SleepStep::Over;
                }
                if self.rate.num() == 0 {
                    return SleepStep::UntilNotified;
                }
                let nanos: u128 = left.as_nanos();
                let num: u128 = self.rate.num() as u128;
                let den: u128 = self.rate.den() as u128;
                assert(nanos * den <= MAX_NANOS * 0xffff_ffff) by (nonlinear_arith)
                    requires
                        0 <= nanos <= MAX_NANOS,
                        0 <= den <= 0xffff_ffff,
                ;
                let real_nanos: u128 = (nanos * den + (num - 1)) / num;
                assert(real_nanos == unscaled(left@, self@.num, self@.den));
                assert(left@ == (target@ - self@.mono(at@)) as nat);
                match Duration::try_from_nanos(real_nanos) {
                    Some(d) => SleepStep::For(d),
                    None => SleepStep::For(Duration::longest()),
                }
            },
        }
    }
}

impl Instant {
    /// The virtual clock's monotonic reading when the real clock reads `at`.
    pub fn now(clock: &Clock, at: Instant) -> (r: Instant)
        ensures
            r@ == clock@.mono(at@),
    {
        Instant::from_epoch(clock.mono_now(at))
    }

    /// The virtual time that has passed since this reading of the virtual
    /// clock.
    pub fn elapsed(&self, clock: &Clock, at: Instant) -> (r: Duration)
        ensures
            r@ == elapsed_between(self@, clock@.mono(at@)),
    {
        Instant::now(clock, at).saturating_duration_since(*self)
    }
}

impl SystemTime {
    /// The virtual wall clock's reading when the real clock reads `at`.
    pub fn now(clock: &Clock, at: Instant) -> (r: SystemTime)
        ensures
            r@ == clock@.wall(at@),
    {
        clock.wall_now(at)
    }

    /// The virtual time that has passed since this reading of the virtual wall
    /// clock, or by how much the reading lies ahead.
    pub fn elapsed(&self, clock: &Clock, at: Instant) -> (r: Result<Duration, SystemTimeError>)
        ensures
            match r {
                Ok(d) => clock@.wall(at@) >= self@ && d@ == clock@.wall(at@) - self@,
                Err(e) => clock@.wall(at@) < self@ && e@ == self@ - clock@.wall(at@),
            },
    {
        SystemTime::now(clock, at).duration_since(*self)
    }
}

/// Virtual time never runs backwards: a later real reading gives no earlier
/// virtual reading.
pub proof fn law_monotone(c: ClockView, at: nat, later: nat)
    requires
        c.den > 0,
        at <= later,
    ensures
        c.mono(at) <= c.mono(later),
        c.wall(at) <= c.wall(later),
{
    let e1 = elapsed_between(c.anchor_real, at);
    let e2 = elapsed_between(c.anchor_real, later);
    assert(e1 * c.num <= e2 * c.num) by (nonlinear_arith)
        requires
            e1 <= e2,
    ;
    vstd::arithmetic::div_mod::lemma_div_is_ordered(
        (e1 * c.num) as int,
        (e2 * c.num) as int,
        c.den as int,
    );
}

/// Changing the rate leaves the reading where it is, and no later reading is
/// behind it.
pub proof fn law_rate_change_is_seamless(c: ClockView, at: nat, num: nat, den: nat, later: nat)
    requires
        den > 0,
        at <= later,
    ensures
        c.with_rate(at, num, den).mono(at) == c.mono(at),
        c.with_rate(at, num, den).mono(later) >= c.mono(at),
{
    assert(0 * num == 0);
    assert(scaled(0, num, den) == 0) by (nonlinear_arith)
        requires
            den > 0,
    ;
    law_monotone(c.with_rate(at, num, den), at, later);
}

/// A paused clock stands still.
pub proof fn law_paused_clock_is_frozen(c: ClockView, at: nat, later: nat)
    requires
        c.num == 0,
        c.den > 0,
    ensures
        c.mono(at) == c.mono(later),
        c.wall(at) == c.wall(later),
{
    assert forall|e: nat| #[trigger] scaled(e, c.num, c.den) == 0 by {
        assert(e * c.num == 0) by (nonlinear_arith)
            requires
                c.num == 0,
        ;
        vstd::arithmetic::div_mod::lemma_div_basics(c.den as int);
    }
}

/// Advancing the clock moves every later reading ahead by just that much, up
/// to the end of time, whatever the rate.
pub proof fn law_advance_adds(c: ClockView, by: nat, at: nat)
    requires
        c.anchor_virtual <= MAX_NANOS,
    ensures
        c.advanced(by).mono(at) == capped(c.mono(at) + by),
{
}

/// A clock that was set reads what it was set to.
pub proof fn law_set_value_is_read_back(c: ClockView, at: nat, value: nat)
    requires
        c.den > 0,
        value <= MAX_NANOS,
    ensures
        c.set_to(at, value).mono(at) == value,
{
    assert(scaled(0, c.num, c.den) == 0) by (nonlinear_arith)
        requires
            c.den > 0,
    ;
}

/// The wall clock and the monotonic clock are one clock: between any two
/// moments before the end of time they move by the same amount.
pub proof fn law_wall_tracks_mono(c: ClockView, at: nat, d: ClockView, later: nat)
    requires
        c.wall_base == d.wall_base,
        c.wall_base + c.mono(at) <= MAX_NANOS,
        d.wall_base + d.mono(later) <= MAX_NANOS,
    ensures
        d.wall(later) - c.wall(at) == d.mono(later) - c.mono(at),
{
}

/// A sleeper that waits as long as it is told to has reached its target.
pub proof fn law_sleeper_wakes_on_time(c: ClockView, at: nat, target: nat)
    requires
        c.den > 0,
        c.anchor_real <= at,
        target <= MAX_NANOS,
        c.sleep(at, target) is For,
        c.sleep(at, target)->For_0 < MAX_NANOS,
    ensures
        c.sleep(at + c.sleep(at, target)->For_0, target) == SleepView::Over,
{
    let w = c.sleep(at, target)->For_0;
    let left = (target - c.mono(at)) as nat;
    let e = (at - c.anchor_real) as nat;
    let (n, d) = (c.num, c.den);
    assert(w == unscaled(left, n, d));
    // At least `left` virtual nanoseconds fit in `w` real ones.
    let top = left * d + n - 1;
    vstd::arithmetic::div_mod::lemma_fundamental_div_mod(top, n as int);
    assert(w * n >= left * d) by (nonlinear_arith)
        requires
            top == n * (top / (n as int)) + top % (n as int),
            0 <= top % (n as int) < n,
            w == top / (n as int),
            top == left * d + n - 1,
    ;
    // Hence the reading grows by `left` at least.
    let q = (e * n) / d;
    vstd::arithmetic::div_mod::lemma_fundamental_div_mod((e * n) as int, d as int);
    assert((e + w) * n >= d * (q + left)) by (nonlinear_arith)
        requires
            e * n >= d * q,
            w * n >= left * d,
    ;
    vstd::arithmetic::div_mod::lemma_div_is_ordered(
        (d * (q + left)) as int,
        ((e + w) * n) as int,
        d as int,
    );
    vstd::arithmetic::div_mod::lemma_div_multiples_vanish((q + left) as int, d as int);
    assert(elapsed_between(c.anchor_real, (at + w) as nat) == e + w);
}

/// In `k` times the denominator of real time, `k` times the numerator of virtual
/// time passes.
pub proof fn law_time_passes_at_its_rate(c: ClockView, at: nat, k: nat)
    requires
        c.den > 0,
        c.anchor_real == at,
        c.anchor_virtual + k * c.num <= MAX_NANOS,
    ensures
        c.mono(at + k * c.den) == c.mono(at) + k * c.num,
{
    let (n, d) = (c.num, c.den);
    assert(elapsed_between(at, at + k * d) == k * d);
    assert((k * d) * n == (k * n) * d) by (nonlinear_arith);
    vstd::arithmetic::div_mod::lemma_div_by_multiple((k * n) as int, d as int);
    assert(scaled(k * d, n, d) == k * n);
    assert(scaled(0, n, d) == 0) by (nonlinear_arith)
        requires
            d > 0,
    ;
    assert(k * n >= 0);
}

/// A sleeper is over when its target is reached; as long as it is not, a paused
/// clock keeps it until it is notified, and a running one tells it how long to
/// wait, which is never nothing.
pub proof fn law_sleeper_is_told_what_to_do(c: ClockView, at: nat, target: nat)
    requires
        c.den > 0,
    ensures
        c.sleep(at, target) is Over <==> c.mono(at) >= target,
        c.mono(at) < target && c.num == 0 ==> c.sleep(at, target) is UntilNotified,
        c.mono(at) < target && c.num > 0 ==> c.sleep(at, target) is For && c.sleep(
            at,
            target,
        )->For_0 > 0,
{
    if c.mono(at) < target && c.num > 0 {
        let left = (target - c.mono(at)) as nat;
        let (n, d) = (c.num, c.den);
        assert(left * d >= 1) by (nonlinear_arith)
            requires
                left >= 1,
                d >= 1,
        ;
        let top = left * d + n - 1;
        assert(top / (n as int) >= 1) by (nonlinear_arith)
            requires
                top >= n,
                n > 0,
        ;
    }
}

/// A sleeper is not told to wait longer than it has to: a wait that is shorter by
/// one would not do, if it began where the clock was last set.
pub proof fn law_sleeper_does_not_oversleep(c: ClockView, target: nat)
    requires
        c.den > 0,
        target <= MAX_NANOS,
        c.anchor_virtual <= MAX_NANOS,
        c.sleep(c.anchor_real, target) is For,
        0 < c.sleep(c.anchor_real, target)->For_0 < MAX_NANOS,
    ensures
        c.mono((c.anchor_real + c.sleep(c.anchor_real, target)->For_0 - 1) as nat) < target,
{
    let at = c.anchor_real;
    let w = c.sleep(at, target)->For_0;
    let (n, d) = (c.num, c.den);
    assert(scaled(0, n, d) == 0) by (nonlinear_arith)
        requires
            d > 0,
    ;
    assert(elapsed_between(at, at) == 0);
    assert(c.mono(at) == c.anchor_virtual);
    let left = (target - c.anchor_virtual) as nat;
    let top = left * d + n - 1;
    vstd::arithmetic::div_mod::lemma_fundamental_div_mod(top, n as int);
    assert((w - 1) * n < left * d) by (nonlinear_arith)
        requires
            top == n * w + top % (n as int),
            0 <= top % (n as int),
            top == left * d + n - 1,
    ;
    let e = (w - 1) as nat;
    assert(elapsed_between(at, at + e) == e);
    assert((e * n) / d < left) by (nonlinear_arith)
        requires
            e * n < left * d,
            d > 0,
    ;
    assert(e * n == (w - 1) * n);
}

} // verus!
