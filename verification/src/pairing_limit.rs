//! Pairing rate limit per remote address: five attempts a minute per source.
//!
//! Every connection from a device that is not paired counts as an attempt, whether or not it
//! goes on to send a pairing request. Over the limit the connection is refused before any
//! pairing work happens. Times are milliseconds on a monotonic clock.

use vstd::prelude::*;
use std::collections::VecDeque;
use crate::addr::{Address, canonical, canonical_address};

verus! {

pub const ATTEMPTS_PER_WINDOW: usize = 5;
pub const WINDOW_MS: u64 = 60_000;
/// Addresses tracked at once. Beyond this the least recently seen one is forgotten.
pub const MAX_SOURCES: usize = 256;

#[derive(Debug, Clone, Copy, PartialEq, Eq, Structural)]
pub enum Decision {
    Allowed,
    /// Over the limit. `first` is set on the first refusal since the address was last allowed,
    /// so the user is told (and the audit log written) once, not for every retry.
    Refused { first: bool },
}

struct Source {
    ip: Address,
    attempts: VecDeque<u64>,
    refused_reported: bool,
    last_seen: u64,
}

/// What is known of one source address.
pub ghost struct SourceView {
    pub ip: Address,
    /// Times of the allowed attempts still in the window, oldest first.
    pub attempts: Seq<u64>,
    pub refused_reported: bool,
    pub last_seen: u64,
}

pub struct PairingLimiter {
    sources: Vec<Source>,
}

spec fn source_view(s: Source) -> SourceView {
    SourceView {
        ip: s.ip,
        attempts: s.attempts@,
        refused_reported: s.refused_reported,
        last_seen: s.last_seen,
    }
}

impl View for PairingLimiter {
    type V = Seq<SourceView>;

    closed spec fn view(&self) -> Seq<SourceView> {
        self.sources@.map_values(|s: Source| source_view(s))
    }
}

/// `now - t`, or 0 when `t` is later.
pub open spec fn elapsed(now: u64, t: u64) -> u64 {
    if now >= t {
        (now - t) as u64
    } else {
        0
    }
}

pub open spec fn has_source(s: Seq<SourceView>, ip: Address) -> bool {
    exists|i: int| 0 <= i < s.len() && s[i].ip == ip
}

pub open spec fn source_index(s: Seq<SourceView>, ip: Address) -> int {
    choose|i: int| 0 <= i < s.len() && s[i].ip == ip
}

/// A source whose last allowed attempt is still within the window.
pub open spec fn active_source(now: u64, v: SourceView) -> bool {
    v.attempts.len() > 0 && elapsed(now, v.attempts.last()) < WINDOW_MS
}

/// The first source seen least recently.
pub open spec fn oldest_index(s: Seq<SourceView>) -> int
    decreases s.len(),
{
    if s.len() <= 1 {
        0
    } else {
        let j = oldest_index(s.drop_last());
        if s.last().last_seen < s[j].last_seen {
            s.len() - 1
        } else {
            j
        }
    }
}

/// Attempts left once those a full window old are forgotten.
pub open spec fn drop_expired(a: Seq<u64>, now: u64) -> Seq<u64>
    decreases a.len(),
{
    if a.len() > 0 && elapsed(now, a[0]) >= WINDOW_MS {
        drop_expired(a.drop_first(), now)
    } else {
        a
    }
}

/// The sources after making room for a new address.
pub open spec fn make_room(s: Seq<SourceView>, ip: Address, now: u64) -> Seq<SourceView> {
    if !has_source(s, ip) && s.len() >= MAX_SOURCES {
        let r = s.filter(|v: SourceView| active_source(now, v));
        if r.len() >= MAX_SOURCES {
            r.remove(oldest_index(r))
        } else {
            r
        }
    } else {
        s
    }
}

/// One attempt from `ip` at `now`: the sources afterwards and the decision.
pub open spec fn check_step(s: Seq<SourceView>, ip: Address, now: u64) -> (Seq<SourceView>, Decision) {
    let ip = canonical_address(ip);
    let s1 = make_room(s, ip, now);
    let s2 = if has_source(s1, ip) {
        s1
    } else {
        s1.push(SourceView { ip, attempts: Seq::empty(), refused_reported: false, last_seen: now })
    };
    let idx = source_index(s2, ip);
    let src = s2[idx];
    let attempts = drop_expired(src.attempts, now);
    if attempts.len() >= ATTEMPTS_PER_WINDOW {
        (
            s2.update(idx, SourceView { attempts, refused_reported: true, last_seen: now, ..src }),
            Decision::Refused { first: !src.refused_reported },
        )
    } else {
        (
            s2.update(
                idx,
                SourceView { attempts: attempts.push(now), refused_reported: false, last_seen: now, ..src },
            ),
            Decision::Allowed,
        )
    }
}

/// The limiter's invariant: one entry per address, a bounded number of entries, and never more
/// than the allowed attempts remembered for one.
pub open spec fn limiter_wf(s: Seq<SourceView>) -> bool {
    &&& forall|i: int, j: int| 0 <= i < j < s.len() ==> s[i].ip != s[j].ip
    &&& s.len() <= MAX_SOURCES
    &&& forall|i: int| 0 <= i < s.len() ==> s[i].attempts.len() <= ATTEMPTS_PER_WINDOW
}

proof fn lemma_drop_expired_len(a: Seq<u64>, now: u64)
    ensures
        drop_expired(a, now).len() <= a.len(),
    decreases a.len(),
{
    if a.len() > 0 && elapsed(now, a[0]) >= WINDOW_MS {
        lemma_drop_expired_len(a.drop_first(), now);
    }
}

impl Default for PairingLimiter {
    fn default() -> (r: PairingLimiter)
        ensures
            r@ == Seq::<SourceView>::empty(),
            r.wf(),
    {
        let r = PairingLimiter { sources: Vec::new() };
        assert(r@ =~= Seq::<SourceView>::empty());
        r
    }
}

impl PairingLimiter {

    pub closed spec fn wf(&self) -> bool {
        limiter_wf(self@)
    }

    fn find(&self, ip: Address) -> (r: Option<usize>)
        ensures
            match r {
                Some(i) => i < self@.len() && self@[i as int].ip == ip,
                None => !has_source(self@, ip),
            },
    {
        let mut i: usize = 0;
        while i < self.sources.len()
            invariant
                i <= self.sources@.len(),
                forall|j: int| 0 <= j < i ==> self@[j].ip != ip,
            decreases self.sources@.len() - i,
        {
            if self.sources[i].ip == ip {
                return Some(i);
            }
            i = i + 1;
        }
        None
    }

    /// Keep only sources with an allowed attempt in the window.
    fn retain_active(&mut self, now: u64)
        requires
            limiter_wf(old(self)@),
        ensures
            final(self)@ == old(self)@.filter(|v: SourceView| active_source(now, v)),
            limiter_wf(final(self)@),
    {
        let ghost keep = |v: SourceView| active_source(now, v);
        let ghost orig = self@;
        let mut sources = Vec::new();
        std::mem::swap(&mut sources, &mut self.sources);
        let mut kept: Vec<Source> = Vec::new();
        let n = sources.len();
        let mut rev: Vec<Source> = Vec::new();
        while sources.len() > 0
            invariant
                sources@.len() + rev@.len() == n,
                orig.len() == n,
                forall|j: int| 0 <= j < sources@.len() ==> source_view(#[trigger] sources@[j]) == orig[j],
                forall|j: int| 0 <= j < rev@.len() ==> source_view(#[trigger] rev@[j]) == orig[n - 1 - j],
            decreases sources@.len(),
        {
            let s = sources.pop().unwrap();
            rev.push(s);
        }
        let mut i: usize = 0;
        while i < n
            invariant
                i <= n,
                rev@.len() == n - i,
                orig.len() == n,
                keep == (|v: SourceView| active_source(now, v)),
                forall|j: int| 0 <= j < rev@.len() ==> source_view(#[trigger] rev@[j]) == orig[n - 1 - j],
                kept@.map_values(|s: Source| source_view(s)) == orig.subrange(0, i as int).filter(keep),
            decreases n - i,
        {
            let s = rev.pop().unwrap();
            let ghost x = orig[i as int];
            proof {
                assert(orig.subrange(0, i + 1) =~= orig.subrange(0, i as int).push(x));
                orig.subrange(0, i as int).lemma_filter_push(x, keep);
            }
            let alen = s.attempts.len();
            let active = alen > 0 && {
                let last = s.attempts[alen - 1];
                (if now >= last {
                    now - last
                } else {
                    0
                }) < WINDOW_MS
            };
            if active {
                let ghost before = kept@;
                kept.push(s);
                assert(kept@.map_values(|s: Source| source_view(s)) =~= before.map_values(
                    |s: Source| source_view(s),
                ).push(x));
            }
            i = i + 1;
        }
        assert(orig.subrange(0, n as int) =~= orig);
        self.sources = kept;
        proof {
            let f = orig.filter(keep);
            lemma_filter_distinct(orig, keep);
            orig.filter_lemma(keep);
            assert forall|a: int| 0 <= a < f.len() implies f[a].attempts.len() <= ATTEMPTS_PER_WINDOW by {
                assert(f.contains(f[a]));
                orig.lemma_filter_contains_rev(keep, f[a]);
                assert(orig.contains(f[a]));
            }
        }
    }

    /// Index of the first source seen least recently.
    fn oldest(&self) -> (r: usize)
        requires
            self.sources@.len() > 0,
        ensures
            r == oldest_index(self@),
            r < self@.len(),
    {
        let mut best: usize = 0;
        let mut i: usize = 1;
        while i < self.sources.len()
            invariant
                1 <= i <= self.sources@.len(),
                best < i,
                best == oldest_index(self@.subrange(0, i as int)),
            decreases self.sources@.len() - i,
        {
            proof {
                let pre = self@.subrange(0, i + 1);
                assert(pre.drop_last() =~= self@.subrange(0, i as int));
            }
            if self.sources[i].last_seen < self.sources[best].last_seen {
                best = i;
            }
            i = i + 1;
        }
        assert(self@.subrange(0, self@.len() as int) =~= self@);
        best
    }

    /// Make room for `ip` when the table is full: forget sources with no attempt in the window,
    /// then the one seen least recently.
    fn make_room(&mut self, ip: Address, now: u64)
        requires
            old(self).wf(),
        ensures
            final(self).wf(),
            final(self)@ == make_room(old(self)@, ip, now),
            !has_source(final(self)@, ip) ==> final(self)@.len() < MAX_SOURCES,
    {
        if self.find(ip).is_none() && self.sources.len() >= MAX_SOURCES {
            self.retain_active(now);
            if self.sources.len() >= MAX_SOURCES {
                let o = self.oldest();
                let ghost before = self@;
                self.sources.remove(o);
                assert(self@ =~= before.remove(o as int));
                assert forall|a: int, b: int| 0 <= a < b < self@.len() implies self@[a].ip
                    != self@[b].ip by {
                    let a2 = if a < o {
                        a
                    } else {
                        a + 1
                    };
                    let b2 = if b < o {
                        b
                    } else {
                        b + 1
                    };
                    assert(self@[a] == before[a2]);
                    assert(self@[b] == before[b2]);
                }
                assert forall|a: int| 0 <= a < self@.len() implies self@[a].attempts.len()
                    <= ATTEMPTS_PER_WINDOW by {
                    if a < o {
                        assert(self@[a] == before[a]);
                    } else {
                        assert(self@[a] == before[a + 1]);
                    }
                }
            }
        }
    }

    /// The index of `ip`'s source, added when it is new.
    fn source_for(&mut self, ip: Address, now: u64) -> (idx: usize)
        requires
            limiter_wf(old(self)@),
            !has_source(old(self)@, ip) ==> old(self)@.len() < MAX_SOURCES,
        ensures
            final(self)@ == (if has_source(old(self)@, ip) {
                old(self)@
            } else {
                old(self)@.push(
                    SourceView { ip, attempts: Seq::empty(), refused_reported: false, last_seen: now },
                )
            }),
            limiter_wf(final(self)@),
            idx < final(self)@.len(),
            idx == source_index(final(self)@, ip),
            final(self)@[idx as int].ip == ip,
    {
        let idx = match self.find(ip) {
            Some(i) => i,
            None => {
                let ghost before = self@;
                self.sources.push(
                    Source { ip, attempts: VecDeque::new(), refused_reported: false, last_seen: now },
                );
                assert(self@ =~= before.push(
                    SourceView { ip, attempts: Seq::empty(), refused_reported: false, last_seen: now },
                ));
                self.sources.len() - 1
            },
        };
        proof {
            let s2 = self@;
            assert(has_source(s2, ip));
            let c = source_index(s2, ip);
            assert(s2[c].ip == ip);
            if c != idx {
                if c < idx {
                    assert(s2[c].ip != s2[idx as int].ip);
                } else {
                    assert(s2[idx as int].ip != s2[c].ip);
                }
            }
        }
        idx
    }

    /// Number of addresses tracked. Never more than [`MAX_SOURCES`]: a new limiter tracks
    /// none, and every `check` leaves at most that many.
    pub fn source_count(&self) -> (r: usize)
        ensures
            r == self@.len(),
    {
        self.sources.len()
    }

    /// Count an attempt from `ip` at `now`. Refused attempts do not count against the window.
    pub fn check(&mut self, ip: Address, now: u64) -> (d: Decision)
        requires
            old(self).wf(),
        ensures
            final(self).wf(),
            (final(self)@, d) == check_step(old(self)@, ip, now),
            final(self)@.len() <= MAX_SOURCES,
    {
        let ip = canonical(ip);
        self.make_room(ip, now);
        let idx = self.source_for(ip, now);
        let ghost s2 = self@;
        let mut src = self.sources.remove(idx);
        assert(source_view(src) == s2[idx as int]);
        let d = count_attempt(&mut src, now);
        let ghost mid = self@;
        self.sources.insert(idx, src);
        proof {
            assert(mid =~= s2.remove(idx as int));
            assert(self@ =~= s2.update(idx as int, source_view(src)));
            assert forall|a: int, b: int| 0 <= a < b < self@.len() implies self@[a].ip
                != self@[b].ip by {
                assert(s2[a].ip != s2[b].ip);
            }
            assert forall|a: int| 0 <= a < self@.len() implies self@[a].attempts.len()
                <= ATTEMPTS_PER_WINDOW by {
                if a != idx {
                    assert(self@[a] == s2[a]);
                }
            }
        }
        d
    }
}

/// One attempt on a source's record.
fn count_attempt(src: &mut Source, now: u64) -> (d: Decision)
    requires
        old(src).attempts@.len() <= ATTEMPTS_PER_WINDOW,
    ensures
        ({
            let v = source_view(*old(src));
            let attempts = drop_expired(v.attempts, now);
            if attempts.len() >= ATTEMPTS_PER_WINDOW {
                source_view(*final(src)) == SourceView {
                    attempts,
                    refused_reported: true,
                    last_seen: now,
                    ..v
                } && d == Decision::Refused { first: !v.refused_reported }
            } else {
                source_view(*final(src)) == SourceView {
                    attempts: attempts.push(now),
                    refused_reported: false,
                    last_seen: now,
                    ..v
                } && d == Decision::Allowed
            }
        }),
        final(src).attempts@.len() <= ATTEMPTS_PER_WINDOW,
{
    let ghost orig_attempts = src.attempts@;
    src.last_seen = now;
    loop
        invariant
            drop_expired(src.attempts@, now) == drop_expired(orig_attempts, now),
            src.ip == old(src).ip,
            src.refused_reported == old(src).refused_reported,
            src.last_seen == now,
            orig_attempts == old(src).attempts@,
        ensures
            src.attempts@ == drop_expired(orig_attempts, now),
        decreases src.attempts@.len(),
    {
        if src.attempts.len() == 0 {
            break;
        }
        let t = src.attempts[0];
        let age = if now >= t {
            now - t
        } else {
            0
        };
        if age < WINDOW_MS {
            break;
        }
        let ghost before = src.attempts@;
        src.attempts.pop_front();
        assert(src.attempts@ =~= before.drop_first());
    }
    proof {
        lemma_drop_expired_len(orig_attempts, now);
    }
    if src.attempts.len() >= ATTEMPTS_PER_WINDOW {
        let first = !src.refused_reported;
        src.refused_reported = true;
        Decision::Refused { first }
    } else {
        src.refused_reported = false;
        src.attempts.push_back(now);
        Decision::Allowed
    }
}

proof fn lemma_filter_distinct(s: Seq<SourceView>, keep: spec_fn(SourceView) -> bool)
    requires
        forall|i: int, j: int| 0 <= i < j < s.len() ==> s[i].ip != s[j].ip,
    ensures
        forall|i: int, j: int|
            0 <= i < j < s.filter(keep).len() ==> s.filter(keep)[i].ip != s.filter(keep)[j].ip,
    decreases s.len(),
{
    reveal(Seq::filter);
    if s.len() > 0 {
        let p = s.drop_last();
        assert forall|i: int, j: int| 0 <= i < j < p.len() implies p[i].ip != p[j].ip by {
            assert(p[i] == s[i] && p[j] == s[j]);
        }
        lemma_filter_distinct(p, keep);
        if keep(s.last()) {
            p.filter_lemma(keep);
            assert forall|i: int| 0 <= i < p.filter(keep).len() implies p.filter(keep)[i].ip
                != s.last().ip by {
                assert(p.filter(keep).contains(p.filter(keep)[i]));
                p.lemma_filter_contains_rev(keep, p.filter(keep)[i]);
                assert(p.contains(p.filter(keep)[i]));
                let k = choose|k: int| 0 <= k < p.len() && p[k] == p.filter(keep)[i];
                assert(s[k] == p[k]);
            }
        }
    }
}

/// A refusal is reported once: `first` is only set when the address had not been refused
/// since it was last allowed, and a refusal never adds an attempt to the window.
pub proof fn lemma_refusal_reported_once(s: Seq<SourceView>, ip: Address, now: u64)
    requires
        limiter_wf(s),
        has_source(s, canonical_address(ip)),
    ensures
        ({
            let c = canonical_address(ip);
            let i = source_index(s, c);
            let (t, d) = check_step(s, ip, now);
            &&& d == Decision::Refused { first: true } ==> !s[i].refused_reported
            &&& d is Refused ==> t[i].attempts == drop_expired(s[i].attempts, now)
            &&& d is Refused ==> t[i].refused_reported
        }),
{
}

/// Five per window: an address whose five remembered attempts all fall within the window is
/// refused.
pub proof fn lemma_sixth_attempt_refused(s: Seq<SourceView>, ip: Address, now: u64)
    requires
        limiter_wf(s),
        has_source(s, canonical_address(ip)),
        ({
            let src = s[source_index(s, canonical_address(ip))];
            &&& src.attempts.len() == ATTEMPTS_PER_WINDOW
            &&& elapsed(now, src.attempts[0]) < WINDOW_MS
        }),
    ensures
        check_step(s, ip, now).1 is Refused,
{
    let c = canonical_address(ip);
    assert(make_room(s, c, now) == s);
    let idx = source_index(s, c);
    assert(drop_expired(s[idx].attempts, now) == s[idx].attempts);
}

/// Attempts at `t` still inside the window at `now`.
pub open spec fn in_window(now: u64) -> spec_fn(u64) -> bool {
    |t: u64| elapsed(now, t) < WINDOW_MS
}

pub open spec fn ascending(a: Seq<u64>) -> bool {
    forall|i: int, j: int| 0 <= i < j < a.len() ==> a[i] <= a[j]
}

/// The sources after checks of `ip` at each of `times`, from `s`.
pub open spec fn checked(s: Seq<SourceView>, ip: Address, times: Seq<u64>) -> Seq<SourceView>
    decreases times.len(),
{
    if times.len() == 0 {
        s
    } else {
        check_step(checked(s, ip, times.drop_last()), ip, times.last()).0
    }
}

/// The decision for the last of `times` (after the earlier ones).
pub open spec fn last_decision(s: Seq<SourceView>, ip: Address, times: Seq<u64>) -> Decision {
    check_step(checked(s, ip, times.drop_last()), ip, times.last()).1
}

/// The times of the checks among `times` that were allowed.
pub open spec fn allowed_times(s: Seq<SourceView>, ip: Address, times: Seq<u64>) -> Seq<u64>
    decreases times.len(),
{
    if times.len() == 0 {
        Seq::empty()
    } else if last_decision(s, ip, times) == Decision::Allowed {
        allowed_times(s, ip, times.drop_last()).push(times.last())
    } else {
        allowed_times(s, ip, times.drop_last())
    }
}

proof fn lemma_filter_ascending(a: Seq<u64>, p: spec_fn(u64) -> bool)
    requires
        ascending(a),
    ensures
        ascending(a.filter(p)),
        forall|i: int| 0 <= i < a.filter(p).len() ==> a.contains(#[trigger] a.filter(p)[i]),
    decreases a.len(),
{
    reveal(Seq::filter);
    if a.len() > 0 {
        let q = a.drop_last();
        assert forall|i: int, j: int| 0 <= i < j < q.len() implies q[i] <= q[j] by {
            assert(q[i] == a[i] && q[j] == a[j]);
        }
        lemma_filter_ascending(q, p);
        let f = q.filter(p);
        assert forall|i: int| 0 <= i < f.len() implies a.contains(#[trigger] f[i]) by {
            let k = choose|k: int| 0 <= k < q.len() && q[k] == f[i];
            assert(a[k] == q[k]);
        }
        if p(a.last()) {
            let g = a.filter(p);
            assert(g == f.push(a.last()));
            assert forall|i: int, j: int| 0 <= i < j < g.len() implies g[i] <= g[j] by {
                if j == g.len() - 1 {
                    let k = choose|k: int| 0 <= k < q.len() && q[k] == f[i];
                    assert(g[i] == f[i]);
                    assert(a[k] == q[k]);
                } else {
                    assert(g[i] == f[i] && g[j] == f[j]);
                }
            }
            assert forall|i: int| 0 <= i < g.len() implies a.contains(#[trigger] g[i]) by {
                if i == g.len() - 1 {
                    assert(a[a.len() - 1] == g[i]);
                } else {
                    assert(g[i] == f[i]);
                }
            }
        }
    }
}

/// On ascending times no later than `now`, forgetting the attempts a full window old is keeping
/// those in the window.
proof fn lemma_drop_expired_is_window(a: Seq<u64>, now: u64)
    requires
        ascending(a),
        forall|i: int| 0 <= i < a.len() ==> a[i] <= now,
    ensures
        drop_expired(a, now) == a.filter(in_window(now)),
    decreases a.len(),
{
    broadcast use Seq::lemma_filter_prepend;
    if a.len() > 0 {
        let rest = a.drop_first();
        assert(a =~= seq![a[0]] + rest);
        if elapsed(now, a[0]) >= WINDOW_MS {
            assert forall|i: int, j: int| 0 <= i < j < rest.len() implies rest[i] <= rest[j] by {
                assert(rest[i] == a[i + 1] && rest[j] == a[j + 1]);
            }
            lemma_drop_expired_is_window(rest, now);
            assert((seq![a[0]] + rest).filter(in_window(now)) == rest.filter(in_window(now)));
        } else {
            lemma_filter_all_kept(a, in_window(now));
        }
    }
}

proof fn lemma_filter_all_kept(a: Seq<u64>, p: spec_fn(u64) -> bool)
    requires
        forall|i: int| 0 <= i < a.len() ==> p(a[i]),
    ensures
        a.filter(p) == a,
    decreases a.len(),
{
    reveal(Seq::filter);
    if a.len() > 0 {
        let q = a.drop_last();
        assert forall|i: int| 0 <= i < q.len() implies p(q[i]) by {
            assert(q[i] == a[i]);
        }
        lemma_filter_all_kept(q, p);
        assert(q.push(a.last()) =~= a);
    }
}

proof fn lemma_window_narrows(a: Seq<u64>, t: u64, now: u64)
    requires
        t <= now,
        forall|i: int| 0 <= i < a.len() ==> a[i] <= t,
    ensures
        a.filter(in_window(t)).filter(in_window(now)) == a.filter(in_window(now)),
    decreases a.len(),
{
    reveal(Seq::filter);
    if a.len() > 0 {
        let q = a.drop_last();
        lemma_window_narrows(q, t, now);
        if in_window(t)(a.last()) {
            assert(a.filter(in_window(t)).drop_last() =~= q.filter(in_window(t)));
        } else {
            assert(!in_window(now)(a.last()));
        }
    }
}

proof fn lemma_source_at(s: Seq<SourceView>, c: Address, j: int)
    requires
        forall|a: int, b: int| 0 <= a < b < s.len() ==> s[a].ip != s[b].ip,
        0 <= j < s.len(),
        s[j].ip == c,
    ensures
        has_source(s, c),
        source_index(s, c) == j,
{
    let k = source_index(s, c);
    if k != j {
        if k < j {
            assert(s[k].ip != s[j].ip);
        } else {
            assert(s[j].ip != s[k].ip);
        }
    }
}

/// What holds after checks of one address at ascending times from a start without it: it has
/// one entry, holding exactly its allowed attempts still in the window of the last check, and
/// whether the last check was refused.
proof fn lemma_history(s: Seq<SourceView>, ip: Address, times: Seq<u64>)
    requires
        forall|a: int, b: int| 0 <= a < b < s.len() ==> s[a].ip != s[b].ip,
        !has_source(s, canonical_address(ip)),
        s.len() < MAX_SOURCES,
        ascending(times),
    ensures
        forall|a: int, b: int|
            0 <= a < b < checked(s, ip, times).len() ==> checked(s, ip, times)[a].ip != checked(
                s,
                ip,
                times,
            )[b].ip,
        ascending(allowed_times(s, ip, times)),
        forall|i: int|
            0 <= i < allowed_times(s, ip, times).len() ==> times.contains(
                #[trigger] allowed_times(s, ip, times)[i],
            ),
        times.len() == 0 ==> checked(s, ip, times) == s,
        times.len() > 0 ==> {
            let t = checked(s, ip, times);
            let c = canonical_address(ip);
            &&& has_source(t, c)
            &&& t[source_index(t, c)].attempts == allowed_times(s, ip, times).filter(
                in_window(times.last()),
            )
            &&& t[source_index(t, c)].refused_reported == (last_decision(s, ip, times) is Refused)
        },
    decreases times.len(),
{
    let c = canonical_address(ip);
    if times.len() > 0 {
        let p = times.drop_last();
        let now = times.last();
        assert forall|i: int, j: int| 0 <= i < j < p.len() implies p[i] <= p[j] by {
            assert(p[i] == times[i] && p[j] == times[j]);
        }
        lemma_history(s, ip, p);
        let u = checked(s, ip, p);
        let al = allowed_times(s, ip, p);
        assert forall|i: int| 0 <= i < al.len() implies al[i] <= now by {
            assert(p.contains(al[i]));
            let k = choose|k: int| 0 <= k < p.len() && p[k] == al[i];
            assert(times[k] == p[k]);
        }
        assert(make_room(u, c, now) == u);
        let s2 = if has_source(u, c) {
            u
        } else {
            u.push(SourceView { ip: c, attempts: Seq::empty(), refused_reported: false, last_seen: now })
        };
        assert forall|a: int, b: int| 0 <= a < b < s2.len() implies s2[a].ip != s2[b].ip by {
            if !has_source(u, c) && b == s2.len() - 1 {
                assert(s2[a] == u[a]);
            } else {
                assert(s2[a] == u[a] && s2[b] == u[b]);
            }
        }
        let idx = source_index(s2, c);
        if has_source(u, c) {
            let j = source_index(u, c);
            lemma_source_at(s2, c, j);
        } else {
            lemma_source_at(s2, c, s2.len() - 1);
        }
        let src = s2[idx];
        // The entry's attempts before this check are the allowed ones in the window.
        if p.len() > 0 {
            lemma_filter_ascending(al, in_window(p.last()));
            assert forall|i: int| 0 <= i < al.filter(in_window(p.last())).len() implies
                al.filter(in_window(p.last()))[i] <= now by {
                assert(al.contains(al.filter(in_window(p.last()))[i]));
            }
            lemma_drop_expired_is_window(al.filter(in_window(p.last())), now);
            assert forall|i: int| 0 <= i < al.len() implies al[i] <= p.last() by {
                let k = choose|k: int| 0 <= k < p.len() && p[k] == al[i];
                assert(p[k] <= p[p.len() - 1]);
            }
            lemma_window_narrows(al, p.last(), now);
            assert(drop_expired(src.attempts, now) == al.filter(in_window(now)));
        } else {
            assert(al =~= Seq::<u64>::empty());
            assert(al.filter(in_window(now)) =~= Seq::<u64>::empty()) by {
                reveal(Seq::filter);
            }
            assert(drop_expired(src.attempts, now) =~= al.filter(in_window(now)));
        }
        let t = checked(s, ip, times);
        assert(times.drop_last() == p);
        let alt = allowed_times(s, ip, times);
        let upd = t[idx];
        assert(t.len() == s2.len());
        assert forall|a: int, b: int| 0 <= a < b < t.len() implies t[a].ip != t[b].ip by {
            assert(t[a].ip == s2[a].ip && t[b].ip == s2[b].ip);
        }
        lemma_source_at(t, c, idx);
        let w = in_window(now);
        if last_decision(s, ip, times) == Decision::Allowed {
            assert(alt == al.push(now));
            al.lemma_filter_push(now, w);
            assert(upd.attempts == al.filter(w).push(now));
            assert forall|i: int, j: int| 0 <= i < j < alt.len() implies alt[i] <= alt[j] by {
                if j < al.len() {
                    assert(alt[i] == al[i] && alt[j] == al[j]);
                } else {
                    assert(alt[i] == al[i]);
                }
            }
            assert forall|i: int| 0 <= i < alt.len() implies times.contains(#[trigger] alt[i]) by {
                if i < al.len() {
                    assert(alt[i] == al[i]);
                    let k = choose|k: int| 0 <= k < p.len() && p[k] == al[i];
                    assert(times[k] == p[k]);
                } else {
                    assert(times[times.len() - 1] == alt[i]);
                }
            }
        } else {
            assert(alt == al);
            assert forall|i: int| 0 <= i < alt.len() implies times.contains(#[trigger] alt[i]) by {
                let k = choose|k: int| 0 <= k < p.len() && p[k] == al[i];
                assert(times[k] == p[k]);
            }
        }
    }
}

/// Five a minute per address, over a whole history: checks of one address at ascending times
/// (from a limiter that does not know it yet and has room for it) are allowed exactly while
/// fewer than five earlier checks were allowed less than a minute before; refused checks do
/// not count, and a refusal is reported as the first when the check before it was not refused.
pub proof fn lemma_five_per_minute(s: Seq<SourceView>, ip: Address, times: Seq<u64>)
    requires
        limiter_wf(s),
        !has_source(s, canonical_address(ip)),
        s.len() < MAX_SOURCES,
        ascending(times),
        times.len() > 0,
    ensures
        (last_decision(s, ip, times) == Decision::Allowed) == (allowed_times(
            s,
            ip,
            times.drop_last(),
        ).filter(in_window(times.last())).len() < ATTEMPTS_PER_WINDOW),
        last_decision(s, ip, times) matches Decision::Refused { first } ==> first == !(
        times.len() > 1 && last_decision(s, ip, times.drop_last()) is Refused),
{
    let p = times.drop_last();
    let now = times.last();
    assert forall|i: int, j: int| 0 <= i < j < p.len() implies p[i] <= p[j] by {
        assert(p[i] == times[i] && p[j] == times[j]);
    }
    lemma_history(s, ip, times);
    lemma_history(s, ip, p);
    let c = canonical_address(ip);
    let u = checked(s, ip, p);
    let al = allowed_times(s, ip, p);
    assert(make_room(u, c, now) == u);
    let s2 = if has_source(u, c) {
        u
    } else {
        u.push(SourceView { ip: c, attempts: Seq::empty(), refused_reported: false, last_seen: now })
    };
    assert forall|a: int, b: int| 0 <= a < b < s2.len() implies s2[a].ip != s2[b].ip by {
        if !has_source(u, c) && b == s2.len() - 1 {
            assert(s2[a] == u[a]);
        } else {
            assert(s2[a] == u[a] && s2[b] == u[b]);
        }
    }
    if has_source(u, c) {
        lemma_source_at(s2, c, source_index(u, c));
    } else {
        lemma_source_at(s2, c, s2.len() - 1);
    }
    let src = s2[source_index(s2, c)];
    assert forall|i: int| 0 <= i < al.len() implies al[i] <= now by {
        let k = choose|k: int| 0 <= k < p.len() && p[k] == al[i];
        assert(times[k] == p[k]);
    }
    if p.len() > 0 {
        lemma_filter_ascending(al, in_window(p.last()));
        assert forall|i: int| 0 <= i < al.filter(in_window(p.last())).len() implies
            al.filter(in_window(p.last()))[i] <= now by {
            assert(al.contains(al.filter(in_window(p.last()))[i]));
        }
        lemma_drop_expired_is_window(al.filter(in_window(p.last())), now);
        assert forall|i: int| 0 <= i < al.len() implies al[i] <= p.last() by {
            let k = choose|k: int| 0 <= k < p.len() && p[k] == al[i];
            assert(p[k] <= p[p.len() - 1]);
        }
        lemma_window_narrows(al, p.last(), now);
        assert(p.drop_last() =~= times.drop_last().drop_last());
    } else {
        assert(al =~= Seq::<u64>::empty());
        assert(al.filter(in_window(now)) =~= Seq::<u64>::empty()) by {
            reveal(Seq::filter);
        }
        assert(drop_expired(src.attempts, now) =~= al.filter(in_window(now)));
    }
    assert(drop_expired(src.attempts, now) == al.filter(in_window(now)));
}
/// The sources after checks of `ips[k]` at `times[k]`, in order, from `s`.
pub open spec fn checked_all(s: Seq<SourceView>, ips: Seq<Address>, times: Seq<u64>) -> Seq<SourceView>
    decreases times.len(),
{
    if times.len() == 0 || ips.len() == 0 {
        s
    } else {
        check_step(checked_all(s, ips.drop_last(), times.drop_last()), ips.last(), times.last()).0
    }
}

/// The decision for the last of the checks.
pub open spec fn decision_all(s: Seq<SourceView>, ips: Seq<Address>, times: Seq<u64>) -> Decision {
    check_step(checked_all(s, ips.drop_last(), times.drop_last()), ips.last(), times.last()).1
}

/// The times of the allowed checks of the address `c` among the checks.
pub open spec fn allowed_of(s: Seq<SourceView>, ips: Seq<Address>, times: Seq<u64>, c: Address) -> Seq<
    u64,
>
    decreases times.len(),
{
    if times.len() == 0 || ips.len() == 0 {
        Seq::empty()
    } else if canonical_address(ips.last()) == c && decision_all(s, ips, times)
        == Decision::Allowed {
        allowed_of(s, ips.drop_last(), times.drop_last(), c).push(times.last())
    } else {
        allowed_of(s, ips.drop_last(), times.drop_last(), c)
    }
}

/// The index of the last check of the address `c`, if any.
pub open spec fn last_check_of(ips: Seq<Address>, c: Address) -> Option<int>
    decreases ips.len(),
{
    if ips.len() == 0 {
        None
    } else if canonical_address(ips.last()) == c {
        Some(ips.len() - 1)
    } else {
        last_check_of(ips.drop_last(), c)
    }
}

proof fn lemma_last_check_of(ips: Seq<Address>, c: Address)
    ensures
        last_check_of(ips, c) matches Some(k) ==> 0 <= k < ips.len() && canonical_address(ips[k])
            == c && forall|j: int| k < j < ips.len() ==> canonical_address(#[trigger] ips[j]) != c,
        last_check_of(ips, c) is None ==> forall|j: int| 0 <= j < ips.len() ==> canonical_address(
            #[trigger] ips[j],
        ) != c,
    decreases ips.len(),
{
    if ips.len() > 0 {
        lemma_last_check_of(ips.drop_last(), c);
        let p = ips.drop_last();
        assert forall|j: int| 0 <= j < p.len() implies p[j] == ips[j] by {}
    }
}

/// A table without `d` whose addresses all lie in `known` (which holds `d`) has room below
/// `known`'s size.
proof fn lemma_room(t: Seq<SourceView>, d: Address, known: Set<Address>)
    requires
        forall|a: int, b: int| 0 <= a < b < t.len() ==> t[a].ip != t[b].ip,
        forall|i: int| 0 <= i < t.len() ==> known.contains(#[trigger] t[i].ip),
        !has_source(t, d),
        known.contains(d),
        known.finite(),
    ensures
        t.len() < known.len(),
{
    let q = t.map_values(|v: SourceView| v.ip);
    assert(q.no_duplicates()) by {
        assert forall|a: int, b: int| 0 <= a < q.len() && 0 <= b < q.len() && a != b implies q[a]
            != q[b] by {
            if a < b {
                assert(t[a].ip != t[b].ip);
            } else {
                assert(t[b].ip != t[a].ip);
            }
        }
    }
    q.unique_seq_to_set();
    let rest = known.remove(d);
    assert(q.to_set().subset_of(rest)) by {
        assert forall|x: Address| q.to_set().contains(x) implies rest.contains(x) by {
            let i = choose|i: int| 0 <= i < q.len() && q[i] == x;
            assert(t[i].ip == x);
            if x == d {
                assert(has_source(t, d));
            }
        }
    }
    vstd::set_lib::lemma_len_subset(q.to_set(), rest);
}

/// What holds after any checks at ascending times, from an empty limiter, of at most as many
/// addresses as `known` holds (fewer than [`MAX_SOURCES`]), about any one address `c`: its
/// entry exists once it was checked, and holds exactly its allowed attempts in the window of its
/// last check, and whether that check was refused.
proof fn lemma_history_all(ips: Seq<Address>, times: Seq<u64>, c: Address, known: Set<Address>)
    requires
        ips.len() == times.len(),
        ascending(times),
        known.finite(),
        known.len() < MAX_SOURCES,
        forall|k: int| 0 <= k < ips.len() ==> known.contains(canonical_address(#[trigger] ips[k])),
    ensures
        ({
            let t = checked_all(Seq::empty(), ips, times);
            let al = allowed_of(Seq::empty(), ips, times, c);
            &&& forall|a: int, b: int| 0 <= a < b < t.len() ==> t[a].ip != t[b].ip
            &&& forall|i: int| 0 <= i < t.len() ==> known.contains(#[trigger] t[i].ip)
            &&& ascending(al)
            &&& forall|i: int| 0 <= i < al.len() ==> times.contains(#[trigger] al[i])
            &&& has_source(t, c) == last_check_of(ips, c) is Some
            &&& last_check_of(ips, c) matches Some(k) ==> {
                &&& forall|i: int| 0 <= i < al.len() ==> #[trigger] al[i] <= times[k]
                &&& t[source_index(t, c)].attempts == al.filter(in_window(times[k]))
                &&& t[source_index(t, c)].refused_reported == (decision_all(
                    Seq::empty(),
                    ips.subrange(0, k + 1),
                    times.subrange(0, k + 1),
                ) is Refused)
            }
        }),
    decreases times.len(),
{
    if times.len() > 0 {
        let pi = ips.drop_last();
        let pt = times.drop_last();
        let now = times.last();
        let d = canonical_address(ips.last());
        assert forall|i: int, j: int| 0 <= i < j < pt.len() implies pt[i] <= pt[j] by {
            assert(pt[i] == times[i] && pt[j] == times[j]);
        }
        assert forall|k: int| 0 <= k < pi.len() implies known.contains(canonical_address(
            #[trigger] pi[k],
        )) by {
            assert(pi[k] == ips[k]);
        }
        lemma_history_all(pi, pt, c, known);
        lemma_history_all(pi, pt, d, known);
        lemma_last_check_of(pi, c);
        lemma_last_check_of(ips, c);
        let u = checked_all(Seq::empty(), pi, pt);
        assert(known.contains(d)) by {
            assert(canonical_address(ips[ips.len() - 1]) == d);
        }
        if !has_source(u, d) {
            lemma_room(u, d, known);
        }
        assert(make_room(u, d, now) == u);
        let s2 = if has_source(u, d) {
            u
        } else {
            u.push(SourceView { ip: d, attempts: Seq::empty(), refused_reported: false, last_seen: now })
        };
        assert forall|a: int, b: int| 0 <= a < b < s2.len() implies s2[a].ip != s2[b].ip by {
            if !has_source(u, d) && b == s2.len() - 1 {
                assert(s2[a] == u[a]);
            } else {
                assert(s2[a] == u[a] && s2[b] == u[b]);
            }
        }
        if has_source(u, d) {
            lemma_source_at(s2, d, source_index(u, d));
        } else {
            lemma_source_at(s2, d, s2.len() - 1);
        }
        let idx = source_index(s2, d);
        let t = checked_all(Seq::empty(), ips, times);
        assert(ips.drop_last() == pi && times.drop_last() == pt);
        assert(t.len() == s2.len());
        assert forall|a: int, b: int| 0 <= a < b < t.len() implies t[a].ip != t[b].ip by {
            assert(t[a].ip == s2[a].ip && t[b].ip == s2[b].ip);
        }
        assert forall|i: int| 0 <= i < t.len() implies known.contains(#[trigger] t[i].ip) by {
            assert(t[i].ip == s2[i].ip);
            if i < u.len() {
                assert(s2[i] == u[i]);
            }
        }
        let al = allowed_of(Seq::empty(), pi, pt, c);
        let alt = allowed_of(Seq::empty(), ips, times, c);
        if c == d {
            lemma_source_at(t, c, idx);
            let src = s2[idx];
            match last_check_of(pi, c) {
                Some(k) => {
                    assert(pt[k] <= now) by {
                        assert(pt[k] == times[k]);
                    }
                    lemma_filter_ascending(al, in_window(pt[k]));
                    assert forall|i: int| 0 <= i < al.filter(in_window(pt[k])).len() implies
                        al.filter(in_window(pt[k]))[i] <= now by {
                        assert(al.contains(al.filter(in_window(pt[k]))[i]));
                    }
                    lemma_drop_expired_is_window(al.filter(in_window(pt[k])), now);
                    lemma_window_narrows(al, pt[k], now);
                    assert(drop_expired(src.attempts, now) == al.filter(in_window(now)));
                    assert(ips.subrange(0, k + 1) =~= pi.subrange(0, k + 1));
                    assert(times.subrange(0, k + 1) =~= pt.subrange(0, k + 1));
                },
                None => {
                    assert(al =~= Seq::<u64>::empty()) by {
                        lemma_allowed_of_none(Seq::empty(), pi, pt, c);
                    }
                    assert(al.filter(in_window(now)) =~= Seq::<u64>::empty()) by {
                        reveal(Seq::filter);
                    }
                    assert(drop_expired(src.attempts, now) =~= al.filter(in_window(now)));
                },
            }
            assert forall|i: int| 0 <= i < al.len() implies #[trigger] al[i] <= now by {
                let k = choose|k: int| 0 <= k < pt.len() && pt[k] == al[i];
                assert(pt[k] == times[k]);
            }
            let w = in_window(now);
            assert(last_check_of(ips, c) == Some(ips.len() - 1));
            assert(ips.subrange(0, ips.len() as int) =~= ips);
            assert(times.subrange(0, times.len() as int) =~= times);
            if decision_all(Seq::empty(), ips, times) == Decision::Allowed {
                assert(alt == al.push(now));
                al.lemma_filter_push(now, w);
                assert forall|i: int, j: int| 0 <= i < j < alt.len() implies alt[i] <= alt[j] by {
                    if j < al.len() {
                        assert(alt[i] == al[i] && alt[j] == al[j]);
                    } else {
                        assert(alt[i] == al[i]);
                    }
                }
                assert forall|i: int| 0 <= i < alt.len() implies times.contains(#[trigger] alt[i]) by {
                    if i < al.len() {
                        assert(alt[i] == al[i]);
                        let k = choose|k: int| 0 <= k < pt.len() && pt[k] == al[i];
                        assert(times[k] == pt[k]);
                    } else {
                        assert(times[times.len() - 1] == alt[i]);
                    }
                }
                assert forall|i: int| 0 <= i < alt.len() implies #[trigger] alt[i] <= now by {
                    if i < al.len() {
                        assert(alt[i] == al[i]);
                    }
                }
            } else {
                assert(alt == al);
                assert forall|i: int| 0 <= i < alt.len() implies times.contains(#[trigger] alt[i]) by {
                    let k = choose|k: int| 0 <= k < pt.len() && pt[k] == al[i];
                    assert(times[k] == pt[k]);
                }
            }
        } else {
            assert(alt == al);
            assert forall|i: int| 0 <= i < alt.len() implies times.contains(#[trigger] alt[i]) by {
                let k = choose|k: int| 0 <= k < pt.len() && pt[k] == al[i];
                assert(times[k] == pt[k]);
            }
            assert(last_check_of(ips, c) == last_check_of(pi, c));
            if has_source(u, c) {
                let j = source_index(u, c);
                assert(s2[j] == u[j]);
                assert(j != idx);
                assert(t[j] == s2[j]);
                lemma_source_at(t, c, j);
                if let Some(k) = last_check_of(pi, c) {
                    assert(times[k] == pt[k]);
                    assert(ips.subrange(0, k + 1) =~= pi.subrange(0, k + 1));
                    assert(times.subrange(0, k + 1) =~= pt.subrange(0, k + 1));
                }
            } else {
                if has_source(t, c) {
                    let j = source_index(t, c);
                    if j < u.len() {
                        assert(t[j].ip == u[j].ip);
                        assert(has_source(u, c));
                    } else {
                        assert(t[j].ip == d);
                    }
                }
            }
        }
    }
}

proof fn lemma_allowed_of_none(s: Seq<SourceView>, ips: Seq<Address>, times: Seq<u64>, c: Address)
    requires
        ips.len() == times.len(),
        last_check_of(ips, c) is None,
    ensures
        allowed_of(s, ips, times, c) == Seq::<u64>::empty(),
    decreases times.len(),
{
    if times.len() > 0 {
        lemma_allowed_of_none(s, ips.drop_last(), times.drop_last(), c);
    }
}

/// Five a minute per address, with other addresses checked in between: from an empty limiter,
/// with checks at ascending times of at most as many addresses as `known` holds (fewer than
/// [`MAX_SOURCES`], so no address is forgotten), a check is allowed exactly while fewer than
/// five earlier checks of its address were allowed less than a minute before; refused checks
/// do not count; a refusal is reported as the first exactly when the previous check of that
/// address was not refused.
pub proof fn lemma_five_per_minute_interleaved(ips: Seq<Address>, times: Seq<u64>, known: Set<Address>)
    requires
        ips.len() == times.len(),
        times.len() > 0,
        ascending(times),
        known.finite(),
        known.len() < MAX_SOURCES,
        forall|k: int| 0 <= k < ips.len() ==> known.contains(canonical_address(#[trigger] ips[k])),
    ensures
        ({
            let c = canonical_address(ips.last());
            let pi = ips.drop_last();
            let pt = times.drop_last();
            &&& (decision_all(Seq::empty(), ips, times) == Decision::Allowed) == (allowed_of(
                Seq::empty(),
                pi,
                pt,
                c,
            ).filter(in_window(times.last())).len() < ATTEMPTS_PER_WINDOW)
            &&& decision_all(Seq::empty(), ips, times) matches Decision::Refused { first } ==> first
                == !(last_check_of(pi, c) matches Some(k) && decision_all(
                Seq::empty(),
                pi.subrange(0, k + 1),
                pt.subrange(0, k + 1),
            ) is Refused)
        }),
{
    let pi = ips.drop_last();
    let pt = times.drop_last();
    let now = times.last();
    let c = canonical_address(ips.last());
    assert forall|i: int, j: int| 0 <= i < j < pt.len() implies pt[i] <= pt[j] by {
        assert(pt[i] == times[i] && pt[j] == times[j]);
    }
    assert forall|k: int| 0 <= k < pi.len() implies known.contains(canonical_address(
        #[trigger] pi[k],
    )) by {
        assert(pi[k] == ips[k]);
    }
    lemma_history_all(pi, pt, c, known);
    lemma_last_check_of(pi, c);
    let u = checked_all(Seq::empty(), pi, pt);
    let al = allowed_of(Seq::empty(), pi, pt, c);
    assert(known.contains(c)) by {
        assert(canonical_address(ips[ips.len() - 1]) == c);
    }
    if !has_source(u, c) {
        lemma_room(u, c, known);
    }
    assert(make_room(u, c, now) == u);
    let s2 = if has_source(u, c) {
        u
    } else {
        u.push(SourceView { ip: c, attempts: Seq::empty(), refused_reported: false, last_seen: now })
    };
    assert forall|a: int, b: int| 0 <= a < b < s2.len() implies s2[a].ip != s2[b].ip by {
        if !has_source(u, c) && b == s2.len() - 1 {
            assert(s2[a] == u[a]);
        } else {
            assert(s2[a] == u[a] && s2[b] == u[b]);
        }
    }
    if has_source(u, c) {
        lemma_source_at(s2, c, source_index(u, c));
    } else {
        lemma_source_at(s2, c, s2.len() - 1);
    }
    let src = s2[source_index(s2, c)];
    assert(ips.drop_last() == pi && times.drop_last() == pt);
    match last_check_of(pi, c) {
        Some(k) => {
            assert(pt[k] <= now) by {
                assert(pt[k] == times[k]);
            }
            lemma_filter_ascending(al, in_window(pt[k]));
            assert forall|i: int| 0 <= i < al.filter(in_window(pt[k])).len() implies al.filter(
                in_window(pt[k]),
            )[i] <= now by {
                assert(al.contains(al.filter(in_window(pt[k]))[i]));
            }
            lemma_drop_expired_is_window(al.filter(in_window(pt[k])), now);
            lemma_window_narrows(al, pt[k], now);
        },
        None => {
            lemma_allowed_of_none(Seq::empty(), pi, pt, c);
            assert(al.filter(in_window(now)) =~= Seq::<u64>::empty()) by {
                reveal(Seq::filter);
            }
            assert(drop_expired(src.attempts, now) =~= al.filter(in_window(now)));
        },
    }
    assert(drop_expired(src.attempts, now) == al.filter(in_window(now)));
}
} // verus!
