//! Growing delays between attempts, with jitter.

use vstd::prelude::*;

verus! {

/// `std::time::SystemTime::elapsed` on the Unix epoch: the nanoseconds since then, the
/// low 64 bits of them; `None` where the clock is set before it. Nothing is claimed of
/// the value.
#[verifier::external_body]
fn clock_nanos() -> (r: Option<u64>) {
    std::time::UNIX_EPOCH.elapsed().ok().map(|d| d.as_nanos() as u64)
}

/// One step of the generator.
pub open spec fn xorshift_spec(x: u64) -> u64 {
    let a = x ^ (x << 13);
    let b = a ^ (a >> 7);
    b ^ (b << 17)
}

/// What the generator starts from where the clock is of no use.
pub const FALLBACK_SEED: u64 = 0xdead_beef_cafe_babe;

/// A small generator that spreads delays. It is of no use where numbers must be hard to
/// guess.
#[derive(Debug, Clone, Copy, PartialEq, Eq, Structural)]
pub struct Xorshift(pub u64);

impl Xorshift {
    /// A generator seeded with a reading of the clock, or with the fallback where there is
    /// none. The lowest bit is set, so that the seed is never zero.
    pub fn seeded(nanos: Option<u64>) -> (r: Self)
        ensures
            r.0 == nanos.unwrap_or(FALLBACK_SEED) | 1,
            r.0 & 1 == 1,
            r.0 != 0,
    {
        let nanos: u64 = match nanos {
            Some(n) => n,
            None => FALLBACK_SEED,
        };
        proof {
            assert((nanos | 1) & 1 == 1) by (bit_vector);
            assert((nanos | 1) != 0) by (bit_vector);
        }
        Xorshift(nanos | 1)
    }

    /// A generator seeded from the clock. The seed is odd; nothing else is claimed of it,
    /// since it is another one each time.
    pub fn seeded_from_clock() -> (r: Self)
        ensures
            r.0 & 1 == 1,
            r.0 != 0,
    {
        Xorshift::seeded(clock_nanos())
    }

    /// The next number.
    pub fn next(&mut self) -> (r: u64)
        ensures
            r == xorshift_spec(old(self).0),
            final(self).0 == r,
    {
        let mut state: u64 = self.0;
        state = state ^ (state << 13);
        state = state ^ (state >> 7);
        state = state ^ (state << 17);
        self.0 = state;
        state
    }
}

/// A generator that is not at zero never gets there.
pub proof fn law_xorshift_stays_nonzero(x: u64)
    requires
        x != 0,
    ensures
        xorshift_spec(x) != 0,
{
    assert(x != 0 ==> xorshift_spec(x) != 0) by (bit_vector);
}

/// Delays that double from `initial` up to `max` milliseconds, spread by a fifth either
/// way.
#[derive(Debug)]
pub struct Backoff {
    initial: u64,
    max: u64,
    current: u64,
    rng: Xorshift,
}

/// The view of a `Backoff`.
pub struct BackoffView {
    /// The first delay.
    pub initial: u64,
    /// The longest delay.
    pub max: u64,
    /// The delay that comes next, before it is spread.
    pub current: u64,
    /// The state of the generator.
    pub rng: u64,
}

impl View for Backoff {
    type V = BackoffView;

    closed spec fn view(&self) -> BackoffView {
        BackoffView {
            initial: self.initial,
            max: self.max,
            current: self.current,
            rng: self.rng.0,
        }
    }
}

/// A delay of `base` spread by the number `random`.
pub open spec fn spread_delay(base: u64, random: u64) -> int {
    let range = base / 5;
    let d = base - range + random as int % (2 * range + 1);
    if d < 1 {
        1
    } else {
        d
    }
}

impl BackoffView {
    /// The delays are in order, and adding the spread to the longest does not overflow.
    pub open spec fn wf(self) -> bool {
        1 <= self.initial <= self.current <= self.max && self.max + self.max / 5 <= i64::MAX
    }

    /// The delay after `current`.
    pub open spec fn doubled(self) -> u64 {
        if 2 * self.current < self.max {
            (2 * self.current) as u64
        } else {
            self.max
        }
    }
}

/// Whether a resource was obtained or the attempt was called off.
pub enum BindOutcome<T> {
    Bound(T),
    Cancelled,
}

/// What to do after one attempt to obtain a resource.
pub enum BindStep<T> {
    /// Stop with this outcome.
    Done(BindOutcome<T>),
    /// Wait this many milliseconds, then try again.
    Wait(u64),
}

impl Backoff {
    /// Delays from `initial_ms` to `max_ms`, spread by `rng`. A first delay of 0 counts as 1,
    /// and a longest delay below the first counts as the first.
    pub fn with_rng(initial_ms: u64, max_ms: u64, rng: Xorshift) -> (r: Self)
        requires
            initial_ms + initial_ms / 5 <= i64::MAX,
            max_ms + max_ms / 5 <= i64::MAX,
        ensures
            r@.wf(),
            r@.initial == if initial_ms == 0 {
                1
            } else {
                initial_ms
            },
            r@.max == if max_ms < r@.initial {
                r@.initial
            } else {
                max_ms
            },
            r@.current == r@.initial,
            r@.rng == rng.0,
    {
        let initial: u64 = if initial_ms == 0 {
            1
        } else {
            initial_ms
        };
        let max: u64 = if max_ms < initial {
            initial
        } else {
            max_ms
        };
        Backoff { initial, max, current: initial, rng }
    }

    /// The same, spread by a generator that is seeded from the clock.
    pub fn new(initial_ms: u64, max_ms: u64) -> (r: Self)
        requires
            initial_ms + initial_ms / 5 <= i64::MAX,
            max_ms + max_ms / 5 <= i64::MAX,
        ensures
            r@.wf(),
            r@.initial == if initial_ms == 0 {
                1
            } else {
                initial_ms
            },
            r@.max == if max_ms < r@.initial {
                r@.initial
            } else {
                max_ms
            },
            r@.current == r@.initial,
            r@.rng & 1 == 1,
            r@.rng != 0,
    {
        Backoff::with_rng(initial_ms, max_ms, Xorshift::seeded_from_clock())
    }

    /// The delay that comes next, before it is spread, in milliseconds.
    pub fn current_ms(&self) -> (r: u64)
        ensures
            r == self@.current,
    {
        self.current
    }

    /// Start over at the first delay.
    pub fn reset(&mut self)
        requires
            old(self)@.wf(),
        ensures
            final(self)@.wf(),
            final(self)@ == (BackoffView { current: old(self)@.initial, ..old(self)@ }),
    {
        self.current = self.initial;
    }

    /// The delay to wait now, in milliseconds. The next one is twice as long, up to the
    /// longest.
    pub fn next_delay(&mut self) -> (r: u64)
        requires
            old(self)@.wf(),
        ensures
            final(self)@.wf(),
            r == spread_delay(old(self)@.current, xorshift_spec(old(self)@.rng)),
            final(self)@ == (BackoffView {
                current: old(self)@.doubled(),
                rng: xorshift_spec(old(self)@.rng),
                ..old(self)@
            }),
    {
        let base: u64 = self.current;
        let range: u64 = base / 5;
        let span: u64 = range * 2 + 1;
        let random: u64 = self.rng.next();
        let jittered: u64 = base - range + random % span;
        let delay: u64 = if jittered < 1 {
            1
        } else {
            jittered
        };
        self.current = if self.max - base <= base {
            self.max
        } else {
            base * 2
        };
        delay
    }

    /// What follows one attempt: success ends it and starts the delays over, a
    /// cancellation ends it, a failure is followed by the next delay.
    pub fn after_attempt<T>(&mut self, cancelled: bool, attempt: Option<T>) -> (r: BindStep<T>)
        requires
            old(self)@.wf(),
        ensures
            final(self)@.wf(),
            if cancelled {
                r == BindStep::<T>::Done(BindOutcome::Cancelled) && final(self)@ == old(self)@
            } else {
                match attempt {
                    Some(t) => {
                        &&& r == BindStep::Done(BindOutcome::Bound(t))
                        &&& final(self)@ == (BackoffView {
                            current: old(self)@.initial,
                            ..old(self)@
                        })
                    },
                    None => {
                        &&& r == BindStep::<T>::Wait(
                            spread_delay(old(self)@.current, xorshift_spec(old(self)@.rng)) as u64,
                        )
                        &&& final(self)@ == (BackoffView {
                            current: old(self)@.doubled(),
                            rng: xorshift_spec(old(self)@.rng),
                            ..old(self)@
                        })
                    },
                }
            },
    {
        if cancelled {
            return BindStep::Done(BindOutcome::Cancelled);
        }
        match attempt {
            Some(t) => {
                self.reset();
                BindStep::Done(BindOutcome::Bound(t))
            },
            None => BindStep::Wait(self.next_delay()),
        }
    }
}

/// A delay is at least one millisecond and within a fifth of its base.
pub proof fn law_delay_within_band(base: u64, random: u64)
    requires
        base >= 1,
    ensures
        1 <= spread_delay(base, random),
        base - base / 5 <= spread_delay(base, random) <= base + base / 5,
{
}

/// The unspread delay after `n` failures in a row.
pub open spec fn base_after(initial: u64, max: u64, n: nat) -> int
    decreases n,
{
    if n == 0 {
        initial as int
    } else {
        let prev = base_after(initial, max, (n - 1) as nat);
        if 2 * prev < max {
            2 * prev
        } else {
            max as int
        }
    }
}

/// The unspread delays grow and never pass the longest.
pub proof fn law_base_grows_to_cap(initial: u64, max: u64, n: nat)
    requires
        1 <= initial <= max,
    ensures
        initial <= base_after(initial, max, n) <= base_after(initial, max, n + 1) <= max,
        base_after(initial, max, n) == max || base_after(initial, max, n) >= initial + n,
    decreases n,
{
    if n > 0 {
        law_base_grows_to_cap(initial, max, (n - 1) as nat);
    }
}

/// Every delay within a fifth of the base, and of a millisecond at least, comes about for
/// some number of the generator.
pub proof fn law_delay_covers_the_band(base: u64, delay: u64)
    requires
        base >= 1,
        base - base / 5 <= delay <= base + base / 5,
    ensures
        exists|random: u64| #[trigger] spread_delay(base, random) == delay,
{
    let random = (delay - (base - base / 5)) as u64;
    assert(random as int % (2 * (base / 5) + 1) == random) by {
        vstd::arithmetic::div_mod::lemma_small_mod(random as nat, (2 * (base / 5) + 1) as nat);
    }
    assert(spread_delay(base, random) == delay);
}

/// The next unspread delay is twice this one, or the longest where that is less.
pub proof fn law_delay_doubles(b: BackoffView)
    requires
        b.wf(),
    ensures
        2 * b.current <= b.max ==> b.doubled() == 2 * b.current,
        2 * b.current > b.max ==> b.doubled() == b.max,
{
}

/// After `n` failures in a row the unspread delay is the first one times two to the `n`, or
/// the longest where that is less.
pub proof fn law_base_is_a_power_of_two(b: BackoffView, n: nat)
    requires
        b.wf(),
    ensures
        ({
            let p = b.initial * vstd::arithmetic::power2::pow2(n);
            base_after(b.initial, b.max, n) == if p < b.max {
                p
            } else {
                b.max as int
            }
        }),
        b.current == base_after(b.initial, b.max, n) ==> b.doubled() == base_after(
            b.initial,
            b.max,
            n + 1,
        ),
    decreases n,
{
    vstd::arithmetic::power2::lemma2_to64();
    if n > 0 {
        law_base_is_a_power_of_two(b, (n - 1) as nat);
        vstd::arithmetic::power2::lemma_pow2_unfold(n);
        let half = vstd::arithmetic::power2::pow2((n - 1) as nat);
        assert(b.initial * (2 * half) == 2 * (b.initial * half)) by (nonlinear_arith);
    }
}

} // verus!
