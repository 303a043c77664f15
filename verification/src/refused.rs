//! Inbound handshakes that never finished, counted per address.
//!
//! A device whose trust store no longer holds this one's key refuses the certificate and
//! retries on its own reconnect timer; nothing about that reaches the session layer. A few
//! tries from one address is the signal worth acting on; a single one is ordinary noise. Times
//! are milliseconds on a monotonic clock.

use vstd::prelude::*;
use crate::addr::{Address, canonical, canonical_address};
use crate::pairing_limit::elapsed;

verus! {

/// Failures from one address before it is worth telling the user.
pub const BEFORE_NOTICE: u32 = 3;
/// How long a run is counted. A device that goes quiet for this long starts a fresh run, so the
/// user hears again if it comes back; one that is simply still retrying stays in its run.
pub const WINDOW_MS: u64 = 600_000;
/// Addresses tracked at once.
pub const MAX_SOURCES: usize = 64;

/// One address's run: when it last failed and how many failures it holds.
#[derive(Debug, Clone, Copy, PartialEq, Eq, Structural)]
pub struct Run {
    pub ip: Address,
    pub last: u64,
    pub count: u32,
}

/// The runs, one per address (kept in a vector with distinct addresses: at most
/// [`MAX_SOURCES`] are tracked, so a linear search is cheap and its order is plain to state).
pub struct RefusedHandshakes {
    sources: Vec<Run>,
}

impl View for RefusedHandshakes {
    type V = Seq<Run>;

    closed spec fn view(&self) -> Seq<Run> {
        self.sources@
    }
}

/// A run lives while its address failed less than [`WINDOW_MS`] ago.
pub open spec fn run_live(now: u64, r: Run) -> bool {
    elapsed(now, r.last) < WINDOW_MS
}

pub open spec fn has_run(s: Seq<Run>, ip: Address) -> bool {
    exists|i: int| 0 <= i < s.len() && s[i].ip == ip
}

pub open spec fn run_index(s: Seq<Run>, ip: Address) -> int {
    choose|i: int| 0 <= i < s.len() && s[i].ip == ip
}

/// One failure from `ip` at `now`: the runs afterwards, and whether this failure is the one
/// worth reporting.
pub open spec fn record_step(s: Seq<Run>, ip: Address, now: u64) -> (Seq<Run>, bool) {
    let ip = canonical_address(ip);
    let s1 = s.filter(|r: Run| run_live(now, r));
    if !has_run(s1, ip) && s1.len() >= MAX_SOURCES {
        (s1, false)
    } else {
        let s2 = if has_run(s1, ip) {
            s1
        } else {
            s1.push(Run { ip, last: now, count: 0 })
        };
        let i = run_index(s2, ip);
        let count: u32 = if s2[i].count == u32::MAX {
            u32::MAX
        } else {
            (s2[i].count + 1) as u32
        };
        (s2.update(i, Run { ip, last: now, count }), count == BEFORE_NOTICE)
    }
}

pub open spec fn runs_wf(s: Seq<Run>) -> bool {
    &&& forall|i: int, j: int| 0 <= i < j < s.len() ==> s[i].ip != s[j].ip
    &&& s.len() <= MAX_SOURCES
}

proof fn lemma_filter_keeps_distinct(s: Seq<Run>, keep: spec_fn(Run) -> bool)
    requires
        forall|i: int, j: int| 0 <= i < j < s.len() ==> s[i].ip != s[j].ip,
    ensures
        forall|i: int, j: int|
            0 <= i < j < s.filter(keep).len() ==> s.filter(keep)[i].ip != s.filter(keep)[j].ip,
        s.filter(keep).len() <= s.len(),
    decreases s.len(),
{
    reveal(Seq::filter);
    s.lemma_filter_len(keep);
    if s.len() > 0 {
        let p = s.drop_last();
        assert forall|i: int, j: int| 0 <= i < j < p.len() implies p[i].ip != p[j].ip by {
            assert(p[i] == s[i] && p[j] == s[j]);
        }
        lemma_filter_keeps_distinct(p, keep);
        if keep(s.last()) {
            assert forall|i: int| 0 <= i < p.filter(keep).len() implies p.filter(keep)[i].ip
                != s.last().ip by {
                assert(p.filter(keep).contains(p.filter(keep)[i]));
                p.lemma_filter_contains_rev(keep, p.filter(keep)[i]);
                let k = choose|k: int| 0 <= k < p.len() && p[k] == p.filter(keep)[i];
                assert(s[k] == p[k]);
            }
        }
    }
}

impl Default for RefusedHandshakes {
    fn default() -> (r: RefusedHandshakes)
        ensures
            r@ == Seq::<Run>::empty(),
            r.wf(),
    {
        RefusedHandshakes { sources: Vec::new() }
    }
}

impl RefusedHandshakes {
    fn find(&self, ip: Address) -> (r: Option<usize>)
        ensures
            match r {
                Some(i) => i < self@.len() && self@[i as int].ip == ip,
                None => !has_run(self@, ip),
            },
    {
        let mut i: usize = 0;
        while i < self.sources.len()
            invariant
                i <= self.sources@.len(),
                forall|j: int| 0 <= j < i ==> self@[j].ip != ip,
            decreases self.sources@.len() - i,
        {
            if self.sources[i].ip == ip {
                return Some(i);
            }
            i = i + 1;
        }
        None
    }

    pub closed spec fn wf(&self) -> bool {
        runs_wf(self@)
    }

    /// Count a failure from `ip`. True exactly once per run, on the failure that makes it a
    /// pattern, so the security log and the user get one report rather than one per retry.
    pub fn record(&mut self, ip: Address, now: u64) -> (report: bool)
        requires
            old(self).wf(),
        ensures
            final(self).wf(),
            (final(self)@, report) == record_step(old(self)@, ip, now),
    {
        let ip = canonical(ip);
        let ghost keep = |r: Run| run_live(now, r);
        let ghost orig = self@;
        let mut kept: Vec<Run> = Vec::new();
        let mut i: usize = 0;
        while i < self.sources.len()
            invariant
                i <= self.sources@.len(),
                orig == self@,
                keep == (|r: Run| run_live(now, r)),
                kept@ == orig.subrange(0, i as int).filter(keep),
            decreases self.sources@.len() - i,
        {
            let r = self.sources[i];
            proof {
                assert(orig.subrange(0, i + 1) =~= orig.subrange(0, i as int).push(r));
                orig.subrange(0, i as int).lemma_filter_push(r, keep);
            }
            let age = if now >= r.last {
                now - r.last
            } else {
                0
            };
            if age < WINDOW_MS {
                kept.push(r);
            }
            i = i + 1;
        }
        assert(orig.subrange(0, orig.len() as int) =~= orig);
        proof {
            lemma_filter_keeps_distinct(orig, keep);
        }
        self.sources = kept;
        assert(self@ == orig.filter(keep));
        let found = self.find(ip);
        let idx = match found {
            Some(k) => k,
            None => {
                if self.sources.len() >= MAX_SOURCES {
                    return false;
                }
                self.sources.push(Run { ip, last: now, count: 0 });
                self.sources.len() - 1
            },
        };
        let ghost s2 = self@;
        proof {
            assert(forall|a: int, b: int| 0 <= a < b < s2.len() ==> s2[a].ip != s2[b].ip);
            assert(s2[idx as int].ip == ip);
            assert(has_run(s2, ip));
            let c = run_index(s2, ip);
            if c != idx {
                if c < idx {
                    assert(s2[c].ip != s2[idx as int].ip);
                } else {
                    assert(s2[idx as int].ip != s2[c].ip);
                }
            }
        }
        let mut r = self.sources[idx];
        r.count = r.count.saturating_add(1);
        r.last = now;
        self.sources.set(idx, r);
        r.count == BEFORE_NOTICE
    }
}

/// A run is reported once: only the failure that brings its count to [`BEFORE_NOTICE`]
/// reports, so the failures after it in the same run stay quiet.
pub proof fn lemma_reported_once_per_run(s: Seq<Run>, ip: Address, now: u64)
    requires
        runs_wf(s),
    ensures
        record_step(s, ip, now).1 ==> has_run(record_step(s, ip, now).0, canonical_address(ip))
            && record_step(s, ip, now).0[run_index(
            record_step(s, ip, now).0,
            canonical_address(ip),
        )].count == BEFORE_NOTICE,
{
    let c = canonical_address(ip);
    let keep = |r: Run| run_live(now, r);
    lemma_filter_keeps_distinct(s, keep);
    let (t, rep) = record_step(s, ip, now);
    if rep {
        let s1 = s.filter(keep);
        let s2 = if has_run(s1, c) {
            s1
        } else {
            s1.push(Run { ip: c, last: now, count: 0 })
        };
        if !has_run(s1, c) {
            assert(s2[s2.len() - 1].ip == c);
        }
        assert(has_run(s2, c));
        assert forall|a: int, b: int| 0 <= a < b < s2.len() implies s2[a].ip != s2[b].ip by {
            if !has_run(s1, c) && b == s2.len() - 1 {
                assert(s2[a] == s1[a]);
            }
        }
        let i = run_index(s2, c);
        assert(s2[i].ip == c);
        assert(t[i].ip == c);
        assert(has_run(t, c));
        let k = run_index(t, c);
        if k != i {
            assert(t[k].ip == s2[k].ip);
            if k < i {
                assert(s2[k].ip != s2[i].ip);
            } else {
                assert(s2[i].ip != s2[k].ip);
            }
        }
    }
}

/// What `record` answers for failures from `ip` at each of `times`, in order, starting from
/// the runs `s`.
pub open spec fn reports_of(s: Seq<Run>, ip: Address, times: Seq<u64>) -> Seq<bool>
    decreases times.len(),
{
    if times.len() == 0 {
        Seq::empty()
    } else {
        let (t, r) = record_step(s, ip, times[0]);
        seq![r] + reports_of(t, ip, times.drop_first())
    }
}

/// A failure count after one more failure, stopping at the largest `u32`.
pub open spec fn bumped(count: u32) -> u32 {
    if count == u32::MAX {
        u32::MAX
    } else {
        (count + 1) as u32
    }
}

/// Failures at these times follow one another with less than [`WINDOW_MS`] between two.
pub open spec fn steady(times: Seq<u64>) -> bool {
    forall|k: int|
        0 < k < times.len() ==> times[k - 1] <= #[trigger] times[k] && times[k] - times[k - 1]
            < WINDOW_MS
}

proof fn lemma_run_of(s: Seq<Run>, c: Address, j: int)
    requires
        runs_wf(s),
        0 <= j < s.len(),
        s[j].ip == c,
    ensures
        has_run(s, c),
        run_index(s, c) == j,
{
    let k = run_index(s, c);
    if k != j {
        if k < j {
            assert(s[k].ip != s[j].ip);
        } else {
            assert(s[j].ip != s[k].ip);
        }
    }
}

/// A failure from an address whose run is still live (its last failure less than the window
/// ago) adds to that run and dates it anew.
proof fn lemma_step_live(s: Seq<Run>, ip: Address, now: u64)
    requires
        runs_wf(s),
        has_run(s, canonical_address(ip)),
        s[run_index(s, canonical_address(ip))].last <= now,
        now - s[run_index(s, canonical_address(ip))].last < WINDOW_MS,
    ensures
        runs_wf(record_step(s, ip, now).0),
        has_run(record_step(s, ip, now).0, canonical_address(ip)),
        record_step(s, ip, now).0[run_index(record_step(s, ip, now).0, canonical_address(ip))]
            == (Run {
            ip: canonical_address(ip),
            last: now,
            count: bumped(s[run_index(s, canonical_address(ip))].count),
        }),
        record_step(s, ip, now).1 == (bumped(s[run_index(s, canonical_address(ip))].count)
            == BEFORE_NOTICE),
{
    let c = canonical_address(ip);
    let keep = |r: Run| run_live(now, r);
    let j = run_index(s, c);
    let r = s[j];
    lemma_filter_keeps_distinct(s, keep);
    s.lemma_filter_contains(keep, j);
    let s1 = s.filter(keep);
    let i = choose|i: int| 0 <= i < s1.len() && s1[i] == r;
    assert(runs_wf(s1));
    lemma_run_of(s1, c, i);
    let t = s1.update(i, Run { ip: c, last: now, count: bumped(r.count) });
    assert(record_step(s, ip, now).0 == t);
    assert(runs_wf(t)) by {
        assert forall|a: int, b: int| 0 <= a < b < t.len() implies t[a].ip != t[b].ip by {
            assert(t[a].ip == s1[a].ip && t[b].ip == s1[b].ip);
        }
    }
    lemma_run_of(t, c, i);
}

/// The first failure of a fresh run, when there is room to track it.
proof fn lemma_step_fresh(s: Seq<Run>, ip: Address, now: u64)
    requires
        runs_wf(s),
        !has_run(s.filter(|r: Run| run_live(now, r)), canonical_address(ip)),
        s.filter(|r: Run| run_live(now, r)).len() < MAX_SOURCES,
    ensures
        runs_wf(record_step(s, ip, now).0),
        has_run(record_step(s, ip, now).0, canonical_address(ip)),
        record_step(s, ip, now).0[run_index(record_step(s, ip, now).0, canonical_address(ip))]
            == (Run { ip: canonical_address(ip), last: now, count: 1 }),
        !record_step(s, ip, now).1,
{
    let c = canonical_address(ip);
    let keep = |r: Run| run_live(now, r);
    lemma_filter_keeps_distinct(s, keep);
    let s1 = s.filter(keep);
    let s2 = s1.push(Run { ip: c, last: now, count: 0 });
    assert(runs_wf(s2)) by {
        assert forall|a: int, b: int| 0 <= a < b < s2.len() implies s2[a].ip != s2[b].ip by {
            if b == s2.len() - 1 {
                assert(s2[a] == s1[a]);
            } else {
                assert(s2[a] == s1[a] && s2[b] == s1[b]);
            }
        }
    }
    lemma_run_of(s2, c, s2.len() - 1);
    let t = s2.update(s2.len() - 1, Run { ip: c, last: now, count: 1 });
    assert(record_step(s, ip, now).0 == t);
    assert(runs_wf(t)) by {
        assert forall|a: int, b: int| 0 <= a < b < t.len() implies t[a].ip != t[b].ip by {
            assert(t[a].ip == s2[a].ip && t[b].ip == s2[b].ip);
        }
    }
    lemma_run_of(t, c, t.len() - 1);
}

proof fn lemma_streak_continues(s: Seq<Run>, ip: Address, times: Seq<u64>, done: nat)
    requires
        runs_wf(s),
        has_run(s, canonical_address(ip)),
        s[run_index(s, canonical_address(ip))].count == (if done >= u32::MAX {
            u32::MAX as nat
        } else {
            done
        }),
        times.len() > 0 ==> s[run_index(s, canonical_address(ip))].last <= times[0]
            && times[0] - s[run_index(s, canonical_address(ip))].last < WINDOW_MS,
        steady(times),
    ensures
        reports_of(s, ip, times).len() == times.len(),
        forall|k: int|
            0 <= k < times.len() ==> #[trigger] reports_of(s, ip, times)[k] == (done + k + 1
                == BEFORE_NOTICE),
    decreases times.len(),
{
    if times.len() > 0 {
        let c = canonical_address(ip);
        lemma_step_live(s, ip, times[0]);
        let (t, r) = record_step(s, ip, times[0]);
        let rest = times.drop_first();
        assert(steady(rest)) by {
            assert forall|k: int| 0 < k < rest.len() implies rest[k - 1] <= #[trigger] rest[k]
                && rest[k] - rest[k - 1] < WINDOW_MS by {
                assert(rest[k] == times[k + 1] && rest[k - 1] == times[k]);
            }
        }
        if rest.len() > 0 {
            assert(rest[0] == times[1]);
        }
        lemma_streak_continues(t, ip, rest, done + 1);
        let out = reports_of(s, ip, times);
        assert(out == seq![r] + reports_of(t, ip, rest));
        assert forall|k: int| 0 <= k < times.len() implies #[trigger] out[k] == (done + k + 1
            == BEFORE_NOTICE) by {
            if k > 0 {
                assert(out[k] == reports_of(t, ip, rest)[k - 1]);
            }
        }
    }
}

/// An address that keeps failing, never quiet for [`WINDOW_MS`] between two failures, is
/// reported exactly once for the whole streak: on its [`BEFORE_NOTICE`]th failure. (The streak
/// starts a fresh run, and there is room to track it.)
pub proof fn lemma_streak_reported_once(s: Seq<Run>, ip: Address, times: Seq<u64>)
    requires
        runs_wf(s),
        times.len() > 0,
        steady(times),
        !has_run(s.filter(|r: Run| run_live(times[0], r)), canonical_address(ip)),
        s.filter(|r: Run| run_live(times[0], r)).len() < MAX_SOURCES,
    ensures
        reports_of(s, ip, times).len() == times.len(),
        forall|k: int|
            0 <= k < times.len() ==> #[trigger] reports_of(s, ip, times)[k] == (k + 1
                == BEFORE_NOTICE),
{
    lemma_step_fresh(s, ip, times[0]);
    let (t, r) = record_step(s, ip, times[0]);
    let rest = times.drop_first();
    assert(steady(rest)) by {
        assert forall|k: int| 0 < k < rest.len() implies rest[k - 1] <= #[trigger] rest[k]
            && rest[k] - rest[k - 1] < WINDOW_MS by {
            assert(rest[k] == times[k + 1] && rest[k - 1] == times[k]);
        }
    }
    if rest.len() > 0 {
        assert(rest[0] == times[1]);
    }
    lemma_streak_continues(t, ip, rest, 1);
    let out = reports_of(s, ip, times);
    assert(out == seq![r] + reports_of(t, ip, rest));
    assert forall|k: int| 0 <= k < times.len() implies #[trigger] out[k] == (k + 1
        == BEFORE_NOTICE) by {
        if k > 0 {
            assert(out[k] == reports_of(t, ip, rest)[k - 1]);
        }
    }
}

} // verus!
