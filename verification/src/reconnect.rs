//! Reconnection policy: exponential backoff with full jitter, a fast phase, then
//! low-frequency probing that is cut short by network-change events. All durations are in
//! milliseconds.

use vstd::prelude::*;
use crate::rng::os_random_32;

verus! {

#[derive(Debug)]
pub struct Backoff {
    attempt: u32,
    base_ms: u64,
    cap_ms: u64,
    fast_attempts: u32,
    slow_interval_ms: u64,
}

/// The backoff's settings and attempt counter.
#[derive(Debug, Clone, Copy, PartialEq, Eq, Structural)]
pub struct BackoffState {
    pub attempt: u32,
    pub base_ms: u64,
    pub cap_ms: u64,
    pub fast_attempts: u32,
    pub slow_interval_ms: u64,
}

impl View for Backoff {
    type V = BackoffState;

    closed spec fn view(&self) -> BackoffState {
        BackoffState {
            attempt: self.attempt,
            base_ms: self.base_ms,
            cap_ms: self.cap_ms,
            fast_attempts: self.fast_attempts,
            slow_interval_ms: self.slow_interval_ms,
        }
    }
}

/// The backoff's settings: 500 ms base, 8 s cap, 10 fast attempts, then every 30 s.
pub open spec fn standard(b: BackoffState) -> bool {
    &&& b.base_ms == 500
    &&& b.cap_ms == 8000
    &&& b.fast_attempts == 10
    &&& b.slow_interval_ms == 30000
}

impl Backoff {
    /// Every backoff has the standard settings: only the attempt counter ever changes.
    #[verifier::type_invariant]
    closed spec fn settings_fixed(self) -> bool {
        standard(self@)
    }
}

/// A delay between `low` and `high` from a random draw (`x` spread over the range); without a
/// draw (the operating system had no randomness to give) the longest, `high`.
pub open spec fn jitter_of(low: u64, high: u64, draw: Option<u64>) -> u64 {
    match draw {
        Some(x) => (low + (x as int) % ((high - low + 1) as int)) as u64,
        None => high,
    }
}

/// See [`jitter_of`].
pub fn jittered(low: u64, high: u64, draw: Option<u64>) -> (r: u64)
    requires
        low <= high < u64::MAX,
    ensures
        r == jitter_of(low, high, draw),
        low <= r <= high,
{
    match draw {
        Some(x) => low + x % (high - low + 1),
        None => high,
    }
}

impl Clone for Backoff {
    fn clone(&self) -> (r: Backoff)
        ensures
            r@ == self@,
    {
        proof {
            use_type_invariant(self);
        }
        Backoff {
            attempt: self.attempt,
            base_ms: self.base_ms,
            cap_ms: self.cap_ms,
            fast_attempts: self.fast_attempts,
            slow_interval_ms: self.slow_interval_ms,
        }
    }
}

/// 2 to the power `k`.
pub open spec fn pow2(k: nat) -> nat
    decreases k,
{
    if k == 0 {
        1
    } else {
        2 * pow2((k - 1) as nat)
    }
}

/// `base * 2^(attempt - 1)` (the exponent capped at 16), saturating, then capped at `cap`: the
/// longest delay before attempt number `attempt` of the fast phase.
pub open spec fn fast_delay_bound(base: u64, cap: u64, attempt: u32) -> u64 {
    let shift: nat = if attempt as int - 1 < 16 {
        (attempt - 1) as nat
    } else {
        16
    };
    let exp = base * pow2(shift);
    let exp: u64 = if exp > u64::MAX {
        u64::MAX
    } else {
        exp as u64
    };
    if exp < cap {
        exp
    } else {
        cap
    }
}

impl Default for Backoff {
    fn default() -> (r: Backoff)
        ensures
            r@ == (BackoffState {
                attempt: 0,
                base_ms: 500,
                cap_ms: 8000,
                fast_attempts: 10,
                slow_interval_ms: 30000,
            }),
            standard(r@),
    {
        Backoff {
            attempt: 0,
            base_ms: 500,
            cap_ms: 8000,
            fast_attempts: 10,
            slow_interval_ms: 30000,
        }
    }
}

impl Backoff {
    /// Delay before the next attempt, in milliseconds. In the fast phase it is drawn between
    /// half the current bound and the bound; afterwards it is the slow interval.
    pub fn next_delay(&mut self) -> (delay: u64)
        ensures
            standard(old(self)@),
            standard(final(self)@),
            final(self)@ == (BackoffState {
                attempt: if old(self)@.attempt == u32::MAX {
                    u32::MAX
                } else {
                    (old(self)@.attempt + 1) as u32
                },
                ..old(self)@
            }),
            final(self)@.attempt > final(self)@.fast_attempts ==> delay
                == final(self)@.slow_interval_ms,
            final(self)@.attempt <= final(self)@.fast_attempts ==> fast_delay_bound(
                final(self)@.base_ms,
                final(self)@.cap_ms,
                final(self)@.attempt,
            ) / 2 <= delay <= fast_delay_bound(
                final(self)@.base_ms,
                final(self)@.cap_ms,
                final(self)@.attempt,
            ),
    {
        proof {
            use_type_invariant(&*self);
        }
        self.attempt = self.attempt.saturating_add(1);
        if self.attempt > self.fast_attempts {
            return self.slow_interval_ms;
        }
        let shift: u32 = if self.attempt - 1 < 16 {
            self.attempt - 1
        } else {
            16
        };
        let mut exp: u64 = self.base_ms;
        let mut i: u32 = 0;
        assert(pow2(0) == 1);
        while i < shift
            invariant
                i <= shift,
                shift <= 16,
                exp == (if self.base_ms * pow2(i as nat) > u64::MAX {
                    u64::MAX as int
                } else {
                    self.base_ms * pow2(i as nat)
                }),
            decreases shift - i,
        {
            proof {
                assert(pow2((i + 1) as nat) == 2 * pow2(i as nat));
                assert(self.base_ms * pow2((i + 1) as nat) == 2 * (self.base_ms * pow2(i as nat)))
                    by (nonlinear_arith);
                assert(self.base_ms * pow2(i as nat) >= 0) by (nonlinear_arith);
            }
            exp = if exp > u64::MAX / 2 {
                u64::MAX
            } else {
                exp * 2
            };
            i = i + 1;
        }
        let max = if exp < self.cap_ms {
            exp
        } else {
            self.cap_ms
        };
        let draw = match os_random_32() {
            Some(b) => Some(
                (((b[0] as u64) * 256 + b[1] as u64) * 256 + b[2] as u64) * 256 + b[3] as u64,
            ),
            None => None,
        };
        jittered(max / 2, max, draw)
    }

    /// True once the fast phase is over ("Waiting for device").
    pub fn in_slow_phase(&self) -> (r: bool)
        ensures
            r == (self@.attempt >= self@.fast_attempts),
            standard(self@),
    {
        proof {
            use_type_invariant(self);
        }
        self.attempt >= self.fast_attempts
    }

    /// Call on success or when a network change makes an immediate retry worthwhile.
    pub fn reset(&mut self)
        ensures
            final(self)@ == (BackoffState { attempt: 0, ..old(self)@ }),
            standard(old(self)@),
            standard(final(self)@),
    {
        proof {
            use_type_invariant(&*self);
        }
        self.attempt = 0;
    }
}

/// Reconnects counted within this window (milliseconds).
pub const FLAP_WINDOW_MS: u64 = 120_000;
/// More reconnects than this within the window is flapping.
pub const FLAP_LIMIT: usize = 5;

/// Detects connection flapping (too many reconnects in a short window).
#[derive(Debug)]
pub struct FlapDetector {
    events: Vec<u64>,
}

/// A reconnect at `t` still counts at `now`.
pub open spec fn within_flap_window(now: u64, t: u64) -> bool {
    now < t || now - t < FLAP_WINDOW_MS
}

impl View for FlapDetector {
    type V = Seq<u64>;

    closed spec fn view(&self) -> Seq<u64> {
        self.events@
    }
}

impl Default for FlapDetector {
    fn default() -> (r: FlapDetector)
        ensures
            r@ == Seq::<u64>::empty(),
    {
        FlapDetector { events: Vec::new() }
    }
}

impl FlapDetector {
    /// Count a reconnect at `now` (milliseconds on a monotonic clock). True when more than
    /// [`FLAP_LIMIT`] reconnects fall within the window.
    pub fn record(&mut self, now: u64) -> (flapping: bool)
        ensures
            final(self)@ == old(self)@.filter(|t: u64| within_flap_window(now, t)).push(now),
            flapping == (final(self)@.len() > FLAP_LIMIT),
    {
        let ghost keep = |t: u64| within_flap_window(now, t);
        let mut kept: Vec<u64> = Vec::new();
        let mut i: usize = 0;
        while i < self.events.len()
            invariant
                i <= self.events@.len(),
                keep == (|t: u64| within_flap_window(now, t)),
                kept@ == self.events@.subrange(0, i as int).filter(keep),
            decreases self.events@.len() - i,
        {
            let t = self.events[i];
            proof {
                assert(self.events@.subrange(0, i + 1) =~= self.events@.subrange(0, i as int).push(t));
                self.events@.subrange(0, i as int).lemma_filter_push(t, keep);
                assert(keep(t) == (now < t || now - t < FLAP_WINDOW_MS));
            }
            if now < t || now - t < FLAP_WINDOW_MS {
                kept.push(t);
            }
            i = i + 1;
        }
        assert(self.events@.subrange(0, self.events@.len() as int) =~= self.events@);
        kept.push(now);
        self.events = kept;
        self.events.len() > FLAP_LIMIT
    }
}

proof fn lemma_pow2_monotone(a: nat, b: nat)
    requires
        a <= b,
    ensures
        pow2(a) <= pow2(b),
        pow2(a) >= 1,
    decreases b,
{
    if b > 0 {
        if a < b {
            lemma_pow2_monotone(a, (b - 1) as nat);
        }
        lemma_pow2_monotone(0, (b - 1) as nat);
    }
}

/// The backoff grows and caps: the longest delay before an attempt never shrinks from one
/// attempt to the next and never passes the cap.
pub proof fn lemma_backoff_grows_and_caps(base: u64, cap: u64, a: u32, b: u32)
    requires
        1 <= a <= b,
    ensures
        fast_delay_bound(base, cap, a) <= fast_delay_bound(base, cap, b),
        fast_delay_bound(base, cap, b) <= cap,
{
    let sa: nat = if a as int - 1 < 16 { (a - 1) as nat } else { 16 };
    let sb: nat = if b as int - 1 < 16 { (b - 1) as nat } else { 16 };
    lemma_pow2_monotone(sa, sb);
    assert(base * pow2(sa) <= base * pow2(sb)) by (nonlinear_arith)
        requires
            pow2(sa) <= pow2(sb),
    ;
}

/// The `n`th delay after a start or a reset: for the first ten, between half of
/// `min(500 ms × 2^(n-1), 8 s)` and that bound (so the first is at most 500 ms and none passes
/// 8 s); from the eleventh on, 30 s. The backoff is in its slow phase after ten or more.
pub open spec fn scheduled(n: nat, delay: u64) -> bool {
    if n <= 10 {
        let m = if 500 * pow2((n - 1) as nat) < 8000 {
            500 * pow2((n - 1) as nat)
        } else {
            8000
        };
        m / 2 <= delay <= m
    } else {
        delay == 30000
    }
}

/// The schedule a backoff of any history follows: the delay `next_delay` returns when its
/// attempt counter stood at `n - 1` (after `n - 1` calls since a start or a reset) is the
/// `n`th of the schedule, and the slow phase is exactly `n >= 10`.
pub proof fn lemma_backoff_schedule(before: BackoffState, after: BackoffState, delay: u64, n: u32)
    requires
        standard(before),
        before.attempt == n - 1,
        1 <= n < u32::MAX,
        after == (BackoffState { attempt: n, ..before }),
        after.attempt > after.fast_attempts ==> delay == after.slow_interval_ms,
        after.attempt <= after.fast_attempts ==> fast_delay_bound(
            after.base_ms,
            after.cap_ms,
            after.attempt,
        ) / 2 <= delay <= fast_delay_bound(after.base_ms, after.cap_ms, after.attempt),
    ensures
        scheduled(n as nat, delay),
        (after.attempt >= after.fast_attempts) == (n >= 10),
        n == 1 ==> delay <= 500,
        delay <= 30000,
{
    if n <= 10 {
        let k = (n - 1) as nat;
        lemma_pow2_monotone(k, 9);
        assert(pow2(9) == 512) by {
            reveal_with_fuel(pow2, 10);
        }
        assert(500 * pow2(k) <= 500 * 512) by (nonlinear_arith)
            requires
                pow2(k) <= 512,
        ;
        assert(pow2(0) == 1);
    }
}
/// The reconnects a detector holds after `record` at each of `times`, from a new detector.
pub open spec fn flap_history(times: Seq<u64>) -> Seq<u64>
    decreases times.len(),
{
    if times.len() == 0 {
        Seq::empty()
    } else {
        flap_history(times.drop_last()).filter(|t: u64| within_flap_window(times.last(), t)).push(
            times.last(),
        )
    }
}

proof fn lemma_filter_narrower(s: Seq<u64>, a: u64, b: u64)
    requires
        a <= b,
        forall|i: int| 0 <= i < s.len() ==> s[i] <= a,
    ensures
        s.filter(|t: u64| within_flap_window(a, t)).filter(|t: u64| within_flap_window(b, t))
            == s.filter(|t: u64| within_flap_window(b, t)),
    decreases s.len(),
{
    reveal(Seq::filter);
    let pa = |t: u64| within_flap_window(a, t);
    let pb = |t: u64| within_flap_window(b, t);
    if s.len() > 0 {
        let p = s.drop_last();
        lemma_filter_narrower(p, a, b);
        assert(p.filter(pa).filter(pb) == p.filter(pb));
        if pa(s.last()) {
            assert(s.filter(pa) == p.filter(pa).push(s.last()));
            assert(s.filter(pa).drop_last() =~= p.filter(pa));
        } else {
            assert(!pb(s.last()));
        }
    }
}

/// Recorded at non-decreasing times, a detector holds exactly the reconnects within the window
/// of the latest one, that one included: so `record(now)` says "flapping" exactly when it and
/// the earlier reconnects less than [`FLAP_WINDOW_MS`] before it are more than [`FLAP_LIMIT`].
pub proof fn lemma_flap_counts_recent(times: Seq<u64>)
    requires
        forall|i: int, j: int| 0 <= i < j < times.len() ==> times[i] <= times[j],
    ensures
        times.len() > 0 ==> flap_history(times) == times.filter(
            |t: u64| within_flap_window(times.last(), t),
        ),
    decreases times.len(),
{
    if times.len() > 0 {
        let p = times.drop_last();
        let now = times.last();
        let w = |t: u64| within_flap_window(now, t);
        lemma_flap_counts_recent(p);
        if p.len() > 0 {
            lemma_filter_narrower(p, p.last(), now);
        } else {
            assert(flap_history(p) =~= p);
        }
        p.lemma_filter_push(now, w);
        assert(times =~= p.push(now));
    }
}
} // verus!
