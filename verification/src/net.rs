//! Dial candidates: which addresses of a peer are tried, and in which order.
//!
//! The shell lists the addresses (interfaces, discovery, saved ones) and asks the discovery
//! crate how good each one is (its rank: smaller is better); this module drops the ones that
//! cannot work, orders the rest best-first and removes repeats.

use vstd::prelude::*;
use crate::addr::Address;
use crate::error::EngineError;

verus! {

/// Candidates raced at most; the list is ranked, so the rest would be the least likely anyway.
pub const MAX_CANDIDATES: usize = 8;
/// Delay between starting one candidate and the next, in milliseconds.
pub const CANDIDATE_STAGGER_MS: u64 = 250;

/// A socket address: IP, port, and for IPv6 its flow label and scope (interface) id, which are
/// 0 for IPv4.
#[derive(Debug, Clone, Copy, PartialEq, Eq, Structural)]
pub struct Endpoint {
    pub ip: Address,
    pub port: u16,
    pub flowinfo: u32,
    pub scope_id: u32,
}

/// An address to dial and its rank from discovery (smaller is better).
#[derive(Debug, Clone, Copy, PartialEq, Eq, Structural)]
pub struct Candidate {
    pub endpoint: Endpoint,
    pub rank: u8,
}

/// `127.0.0.0/8` or `::1`.
pub open spec fn loopback(a: Address) -> bool {
    match a {
        Address::V4(x) => x / 0x100_0000 == 127,
        Address::V6(x) => x == 1,
    }
}

pub fn is_loopback(a: Address) -> (r: bool)
    ensures
        r == loopback(a),
{
    match a {
        Address::V4(x) => x / 0x100_0000 == 127,
        Address::V6(x) => x == 1,
    }
}

/// Link-local IPv6 (`fe80::/10`) without a scope id can never complete a handshake: the
/// socket picks some interface, and the peer's replies arrive from a scoped address the
/// transport treats as a stranger.
pub open spec fn unusable_link_local(e: Endpoint) -> bool {
    match e.ip {
        Address::V6(x) => 0xfe80_0000_0000_0000_0000_0000_0000_0000 <= x
            < 0xfec0_0000_0000_0000_0000_0000_0000_0000 && e.scope_id == 0,
        Address::V4(_) => false,
    }
}

/// A candidate worth dialling: it has a port, is not unscoped link-local, and is loopback
/// only when loopback is allowed.
pub open spec fn dialable(e: Endpoint, include_loopback: bool) -> bool {
    e.port != 0 && !unusable_link_local(e) && (include_loopback || !loopback(e.ip))
}

/// Sort key: the rank, except that loopback comes after every real network.
pub open spec fn dial_key(c: Candidate) -> nat {
    if loopback(c.endpoint.ip) {
        254
    } else {
        c.rank as nat
    }
}

/// The dialable candidates of `s`, in their order.
pub open spec fn dialable_of(s: Seq<Candidate>, include_loopback: bool) -> Seq<Candidate>
    decreases s.len(),
{
    if s.len() == 0 {
        s
    } else if dialable(s.last().endpoint, include_loopback) {
        dialable_of(s.drop_last(), include_loopback).push(s.last())
    } else {
        dialable_of(s.drop_last(), include_loopback)
    }
}

/// The candidates of `s` whose key is `k`, in their order.
pub open spec fn with_key(s: Seq<Candidate>, k: nat) -> Seq<Candidate>
    decreases s.len(),
{
    if s.len() == 0 {
        s
    } else if dial_key(s.last()) == k {
        with_key(s.drop_last(), k).push(s.last())
    } else {
        with_key(s.drop_last(), k)
    }
}

/// A stable sort of `s` by key, for keys below `n`: smaller keys first, equal keys in their
/// given order.
pub open spec fn by_key(s: Seq<Candidate>, n: nat) -> Seq<Candidate>
    decreases n,
{
    if n == 0 {
        Seq::empty()
    } else {
        by_key(s, (n - 1) as nat) + with_key(s, (n - 1) as nat)
    }
}

/// `s` with each run of equal neighbours cut to its first element.
pub open spec fn dedup(s: Seq<Candidate>) -> Seq<Candidate>
    decreases s.len(),
{
    if s.len() == 0 {
        s
    } else if s.len() >= 2 && s[s.len() - 2] == s.last() {
        dedup(s.drop_last())
    } else {
        dedup(s.drop_last()).push(s.last())
    }
}

/// What [`sort_candidates`] leaves: the dialable candidates, sorted by key (stable), with
/// repeated neighbours removed.
pub open spec fn dial_order(s: Seq<Candidate>, include_loopback: bool) -> Seq<Candidate> {
    dedup(by_key(dialable_of(s, include_loopback), 256))
}

fn key_of(c: Candidate) -> (k: u16)
    ensures
        k == dial_key(c),
{
    if is_loopback(c.endpoint.ip) {
        254
    } else {
        c.rank as u16
    }
}

proof fn lemma_dedup_last(s: Seq<Candidate>)
    requires
        s.len() > 0,
    ensures
        dedup(s).len() > 0,
        dedup(s).last() == s.last(),
    decreases s.len(),
{
    if s.len() >= 2 && s[s.len() - 2] == s.last() {
        lemma_dedup_last(s.drop_last());
    }
}

/// Smaller keys first.
pub open spec fn best_first(s: Seq<Candidate>) -> bool {
    forall|i: int, j: int| 0 <= i < j < s.len() ==> dial_key(s[i]) <= dial_key(s[j])
}

proof fn lemma_dialable_of(s: Seq<Candidate>, incl: bool)
    ensures
        forall|i: int|
            0 <= i < dialable_of(s, incl).len() ==> dialable(
                (#[trigger] dialable_of(s, incl)[i]).endpoint,
                incl,
            ) && s.contains(dialable_of(s, incl)[i]),
        forall|i: int|
            0 <= i < s.len() && dialable((#[trigger] s[i]).endpoint, incl) ==> dialable_of(
                s,
                incl,
            ).contains(s[i]),
    decreases s.len(),
{
    if s.len() > 0 {
        let t = s.drop_last();
        lemma_dialable_of(t, incl);
        let d = dialable_of(s, incl);
        let e = dialable_of(t, incl);
        assert forall|i: int| 0 <= i < d.len() implies dialable((#[trigger] d[i]).endpoint, incl)
            && s.contains(d[i]) by {
            if i < e.len() {
                assert(d[i] == e[i]);
                let j = choose|j: int| 0 <= j < t.len() && t[j] == e[i];
                assert(s[j] == t[j]);
            } else {
                assert(s[s.len() - 1] == d[i]);
            }
        }
        assert forall|i: int| 0 <= i < s.len() && dialable((#[trigger] s[i]).endpoint, incl)
            implies d.contains(s[i]) by {
            if i < s.len() - 1 {
                assert(t[i] == s[i]);
                let j = choose|j: int| 0 <= j < e.len() && e[j] == t[i];
                assert(d[j] == e[j]);
            } else {
                assert(d[d.len() - 1] == s[i]);
            }
        }
    }
}

proof fn lemma_with_key(s: Seq<Candidate>, k: nat)
    ensures
        forall|i: int|
            0 <= i < with_key(s, k).len() ==> dial_key(#[trigger] with_key(s, k)[i]) == k
                && s.contains(with_key(s, k)[i]),
        forall|i: int|
            0 <= i < s.len() && dial_key(#[trigger] s[i]) == k ==> with_key(s, k).contains(s[i]),
    decreases s.len(),
{
    if s.len() > 0 {
        let t = s.drop_last();
        lemma_with_key(t, k);
        let d = with_key(s, k);
        let e = with_key(t, k);
        assert forall|i: int| 0 <= i < d.len() implies dial_key(#[trigger] d[i]) == k
            && s.contains(d[i]) by {
            if i < e.len() {
                assert(d[i] == e[i]);
                let j = choose|j: int| 0 <= j < t.len() && t[j] == e[i];
                assert(s[j] == t[j]);
            } else {
                assert(s[s.len() - 1] == d[i]);
            }
        }
        assert forall|i: int| 0 <= i < s.len() && dial_key(#[trigger] s[i]) == k implies d.contains(
            s[i],
        ) by {
            if i < s.len() - 1 {
                assert(t[i] == s[i]);
                let j = choose|j: int| 0 <= j < e.len() && e[j] == t[i];
                assert(d[j] == e[j]);
            } else {
                assert(d[d.len() - 1] == s[i]);
            }
        }
    }
}

proof fn lemma_by_key(s: Seq<Candidate>, n: nat)
    ensures
        best_first(by_key(s, n)),
        forall|i: int|
            0 <= i < by_key(s, n).len() ==> dial_key(#[trigger] by_key(s, n)[i]) < n && s.contains(
                by_key(s, n)[i],
            ),
        forall|i: int|
            0 <= i < s.len() && dial_key(#[trigger] s[i]) < n ==> by_key(s, n).contains(s[i]),
    decreases n,
{
    if n > 0 {
        let m = (n - 1) as nat;
        lemma_by_key(s, m);
        lemma_with_key(s, m);
        let a = by_key(s, m);
        let w = with_key(s, m);
        let b = by_key(s, n);
        assert(b == a + w);
        assert forall|i: int| 0 <= i < b.len() implies dial_key(#[trigger] b[i]) < n && s.contains(
            b[i],
        ) by {
            if i < a.len() {
                assert(b[i] == a[i]);
            } else {
                assert(b[i] == w[i - a.len()]);
            }
        }
        assert forall|i: int, j: int| 0 <= i < j < b.len() implies dial_key(b[i]) <= dial_key(
            b[j],
        ) by {
            if j < a.len() {
                assert(b[i] == a[i] && b[j] == a[j]);
            } else if i < a.len() {
                assert(b[i] == a[i] && b[j] == w[j - a.len()]);
            } else {
                assert(b[i] == w[i - a.len()] && b[j] == w[j - a.len()]);
            }
        }
        assert forall|i: int| 0 <= i < s.len() && dial_key(#[trigger] s[i]) < n implies b.contains(
            s[i],
        ) by {
            if dial_key(s[i]) < m {
                let j = choose|j: int| 0 <= j < a.len() && a[j] == s[i];
                assert(b[j] == a[j]);
            } else {
                let j = choose|j: int| 0 <= j < w.len() && w[j] == s[i];
                assert(b[a.len() + j] == w[j]);
            }
        }
    }
}

proof fn lemma_dedup(s: Seq<Candidate>)
    requires
        best_first(s),
    ensures
        best_first(dedup(s)),
        forall|i: int| 0 <= i < dedup(s).len() ==> s.contains(#[trigger] dedup(s)[i]),
        forall|i: int| 0 <= i < s.len() ==> dedup(s).contains(#[trigger] s[i]),
        forall|i: int| 0 <= i < dedup(s).len() - 1 ==> #[trigger] dedup(s)[i] != dedup(s)[i + 1],
    decreases s.len(),
{
    if s.len() > 0 {
        let t = s.drop_last();
        assert(best_first(t)) by {
            assert forall|i: int, j: int| 0 <= i < j < t.len() implies dial_key(t[i]) <= dial_key(
                t[j],
            ) by {
                assert(t[i] == s[i] && t[j] == s[j]);
            }
        }
        lemma_dedup(t);
        let d = dedup(s);
        let e = dedup(t);
        let x = s.last();
        if t.len() > 0 {
            lemma_dedup_last(t);
        }
        assert forall|i: int| 0 <= i < e.len() implies s.contains(#[trigger] e[i])
            && dial_key(e[i]) <= dial_key(x) by {
            let j = choose|j: int| 0 <= j < t.len() && t[j] == e[i];
            assert(s[j] == t[j]);
        }
        if s.len() >= 2 && s[s.len() - 2] == x {
            assert forall|i: int| 0 <= i < s.len() implies d.contains(#[trigger] s[i]) by {
                if i < s.len() - 1 {
                    assert(t[i] == s[i]);
                } else {
                    assert(e[e.len() - 1] == t[t.len() - 1]);
                }
            }
        } else {
            assert(d == e.push(x));
            assert forall|i: int, j: int| 0 <= i < j < d.len() implies dial_key(d[i]) <= dial_key(
                d[j],
            ) by {
                assert(d[i] == e[i]);
                if j < e.len() {
                    assert(d[j] == e[j]);
                }
            }
            assert forall|i: int| 0 <= i < d.len() implies s.contains(#[trigger] d[i]) by {
                if i < e.len() {
                    assert(d[i] == e[i]);
                } else {
                    assert(s[s.len() - 1] == d[i]);
                }
            }
            assert forall|i: int| 0 <= i < s.len() implies d.contains(#[trigger] s[i]) by {
                if i < s.len() - 1 {
                    assert(t[i] == s[i]);
                    let j = choose|j: int| 0 <= j < e.len() && e[j] == t[i];
                    assert(d[j] == e[j]);
                } else {
                    assert(d[d.len() - 1] == s[i]);
                }
            }
            assert forall|i: int| 0 <= i < d.len() - 1 implies #[trigger] d[i] != d[i + 1] by {
                if i + 1 < e.len() {
                    assert(d[i] == e[i] && d[i + 1] == e[i + 1]);
                } else {
                    assert(d[i] == e[e.len() - 1]);
                }
            }
        }
    }
}

/// The dial order is best-first; it holds only candidates worth dialling (loopback only when
/// allowed) and every one of them, each once in a row.
pub proof fn lemma_dial_order(s: Seq<Candidate>, include_loopback: bool)
    ensures
        best_first(dial_order(s, include_loopback)),
        forall|i: int|
            0 <= i < dial_order(s, include_loopback).len() ==> dialable(
                (#[trigger] dial_order(s, include_loopback)[i]).endpoint,
                include_loopback,
            ) && s.contains(dial_order(s, include_loopback)[i]),
        forall|i: int|
            0 <= i < s.len() && dialable((#[trigger] s[i]).endpoint, include_loopback)
                ==> dial_order(s, include_loopback).contains(s[i]),
        forall|i: int|
            0 <= i < dial_order(s, include_loopback).len() - 1 ==> #[trigger] dial_order(
                s,
                include_loopback,
            )[i] != dial_order(s, include_loopback)[i + 1],
{
    let u = dialable_of(s, include_loopback);
    let b = by_key(u, 256);
    let r = dial_order(s, include_loopback);
    lemma_dialable_of(s, include_loopback);
    lemma_by_key(u, 256);
    lemma_dedup(b);
    assert forall|i: int| 0 <= i < r.len() implies dialable(
        (#[trigger] r[i]).endpoint,
        include_loopback,
    ) && s.contains(r[i]) by {
        let j = choose|j: int| 0 <= j < b.len() && b[j] == r[i];
        let k = choose|k: int| 0 <= k < u.len() && u[k] == b[j];
    }
    assert forall|i: int| 0 <= i < s.len() && dialable((#[trigger] s[i]).endpoint, include_loopback)
        implies r.contains(s[i]) by {
        let j = choose|j: int| 0 <= j < u.len() && u[j] == s[i];
        assert(dial_key(u[j]) < 256);
        let k = choose|k: int| 0 <= k < b.len() && b[k] == u[j];
        assert(r.contains(b[k]));
    }
}

/// Order dial candidates best-first. Loopback is kept only when `include_loopback` is set.
pub fn sort_candidates(addrs: &mut Vec<Candidate>, include_loopback: bool)
    ensures
        final(addrs)@ == dial_order(old(addrs)@, include_loopback),
{
    let ghost input = addrs@;
    let mut kept: Vec<Candidate> = Vec::new();
    let mut i: usize = 0;
    while i < addrs.len()
        invariant
            addrs@ == input,
            i <= input.len(),
            kept@ == dialable_of(input.subrange(0, i as int), include_loopback),
        decreases input.len() - i,
    {
        let c = addrs[i];
        let e = c.endpoint;
        let link_local_unscoped = match e.ip {
            Address::V6(x) => 0xfe80_0000_0000_0000_0000_0000_0000_0000 <= x
                && x < 0xfec0_0000_0000_0000_0000_0000_0000_0000 && e.scope_id == 0,
            Address::V4(_) => false,
        };
        if e.port != 0 && !link_local_unscoped && (include_loopback || !is_loopback(e.ip)) {
            kept.push(c);
        }
        assert(input.subrange(0, i + 1).drop_last() =~= input.subrange(0, i as int));
        i = i + 1;
    }
    assert(input.subrange(0, input.len() as int) =~= input);

    let mut sorted: Vec<Candidate> = Vec::new();
    let mut k: u16 = 0;
    while k < 256
        invariant
            k <= 256,
            sorted@ == by_key(kept@, k as nat),
        decreases 256 - k,
    {
        let ghost before = sorted@;
        let mut j: usize = 0;
        while j < kept.len()
            invariant
                k < 256,
                j <= kept@.len(),
                before == by_key(kept@, k as nat),
                sorted@ == before + with_key(kept@.subrange(0, j as int), k as nat),
            decreases kept@.len() - j,
        {
            let c = kept[j];
            assert(kept@.subrange(0, j + 1).drop_last() =~= kept@.subrange(0, j as int));
            if key_of(c) == k {
                sorted.push(c);
                assert(sorted@ =~= before + with_key(kept@.subrange(0, j + 1), k as nat));
            }
            j = j + 1;
        }
        assert(kept@.subrange(0, kept@.len() as int) =~= kept@);
        k = k + 1;
    }

    let mut out: Vec<Candidate> = Vec::new();
    let mut i: usize = 0;
    while i < sorted.len()
        invariant
            i <= sorted@.len(),
            out@ == dedup(sorted@.subrange(0, i as int)),
        decreases sorted@.len() - i,
    {
        let c = sorted[i];
        let ghost s = sorted@.subrange(0, i + 1);
        assert(s.drop_last() =~= sorted@.subrange(0, i as int));
        if i > 0 {
            proof {
                lemma_dedup_last(s.drop_last());
            }
        }
        if out.len() == 0 || out[out.len() - 1] != c {
            out.push(c);
        }
        i = i + 1;
    }
    assert(sorted@.subrange(0, sorted@.len() as int) =~= sorted@);
    *addrs = out;
}

/// When each raced attempt starts, in milliseconds after the race began: the best
/// [`MAX_CANDIDATES`] candidates, each [`CANDIDATE_STAGGER_MS`] after the one before, so a slow
/// best candidate still wins if it completes first.
pub fn race_schedule(candidates: usize) -> (delays: Vec<u64>)
    ensures
        delays@.len() == if candidates < MAX_CANDIDATES {
            candidates
        } else {
            MAX_CANDIDATES
        },
        forall|i: int| 0 <= i < delays@.len() ==> delays@[i] == CANDIDATE_STAGGER_MS * i,
{
    let n = if candidates < MAX_CANDIDATES {
        candidates
    } else {
        MAX_CANDIDATES
    };
    let mut delays: Vec<u64> = Vec::new();
    let mut i: usize = 0;
    while i < n
        invariant
            i <= n <= MAX_CANDIDATES,
            delays@.len() == i,
            forall|j: int| 0 <= j < i ==> delays@[j] == CANDIDATE_STAGGER_MS * j,
        decreases n - i,
    {
        delays.push(CANDIDATE_STAGGER_MS * (i as u64));
        i = i + 1;
    }
    delays
}

/// The failure a race reports so far: the one of the best-ranked attempt (lowest index), the
/// first to arrive among equals.
pub open spec fn next_best(
    best: Option<(usize, EngineError)>,
    index: usize,
    error: EngineError,
) -> Option<(usize, EngineError)> {
    match best {
        Some((b, _)) => if b <= index {
            best
        } else {
            Some((index, error))
        },
        None => Some((index, error)),
    }
}

/// The failure kept after `failures` arrived in this order.
pub open spec fn best_after(failures: Seq<(usize, EngineError)>) -> Option<(usize, EngineError)>
    decreases failures.len(),
{
    if failures.len() == 0 {
        None
    } else {
        next_best(best_after(failures.drop_last()), failures.last().0, failures.last().1)
    }
}

/// What a race whose attempts all failed reports.
pub open spec fn race_error(best: Option<(usize, EngineError)>) -> EngineError {
    match best {
        Some((_, e)) => e,
        None => EngineError::Unreachable,
    }
}

/// The decisions of a dial race whose attempts the shell runs: the first success wins outright;
/// failures are collected so that, when every attempt failed, the best-ranked candidate's
/// error is reported (it is the one the user's network is expected to use).
#[derive(Debug)]
pub struct DialRace {
    pub best: Option<(usize, EngineError)>,
}

impl DialRace {
    pub fn new() -> (r: DialRace)
        ensures
            r.best.is_none(),
    {
        DialRace { best: None }
    }

    /// Attempt `index` (its place in the dial order) failed with `error`.
    pub fn failed(&mut self, index: usize, error: EngineError)
        ensures
            final(self).best == next_best(old(self).best, index, error),
    {
        let keep = match &self.best {
            Some((b, _)) => *b <= index,
            None => false,
        };
        if !keep {
            self.best = Some((index, error));
        }
    }

    /// The error of a race in which no attempt succeeded: the kept failure, or
    /// [`EngineError::Unreachable`] when there was nothing to dial.
    pub fn outcome(self) -> (e: EngineError)
        ensures
            e == race_error(self.best),
    {
        match self.best {
            Some((_, e)) => e,
            None => EngineError::Unreachable,
        }
    }
}

/// Whatever order the failures arrive in, the race reports the best-ranked attempt's error.
pub proof fn lemma_best_candidate_error_wins(failures: Seq<(usize, EngineError)>)
    requires
        failures.len() > 0,
    ensures
        best_after(failures) is Some,
        failures.contains(best_after(failures)->0),
        forall|j: int|
            0 <= j < failures.len() ==> (best_after(failures)->0).0 <= (#[trigger] failures[j]).0,
    decreases failures.len(),
{
    let t = failures.drop_last();
    let x = failures.last();
    if t.len() == 0 {
        assert(failures[0] == x);
    } else {
        lemma_best_candidate_error_wins(t);
        let b = best_after(t)->0;
        let j0 = choose|j: int| 0 <= j < t.len() && t[j] == b;
        assert(failures[j0] == t[j0]);
        assert forall|j: int| 0 <= j < failures.len() implies (best_after(failures)->0).0 <= (
        #[trigger] failures[j]).0 by {
            if j < t.len() {
                assert(failures[j] == t[j]);
            }
        }
        if b.0 > x.0 {
            assert(failures[failures.len() - 1] == x);
        }
    }
}

} // verus!
