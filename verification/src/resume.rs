//! Session resume tokens.
//!
//! After a session is established each side issues the peer an opaque 256-bit token. The next
//! connection presents it. A token is bound to the peer's full public key, valid for ten
//! minutes, and single use: it is removed the first time it is presented, whether or not it
//! matched. Redeeming a token never replaces authentication or trust checks; it only lets the
//! engine restore routes the user already approved during a short grant. Times are
//! milliseconds on a monotonic clock.

use vstd::prelude::*;
use bytes::Bytes;
use crate::rng::os_random_32;

verus! {

#[verifier::external_type_specification]
#[verifier::external_body]
pub struct ExBytes(Bytes);

/// The bytes a `Bytes` buffer holds.
pub uninterp spec fn bytes_content(b: Bytes) -> Seq<u8>;

/// `Bytes::len`: the number of bytes the buffer holds.
#[verifier::external_body]
fn bytes_len(b: &Bytes) -> (r: usize)
    ensures
        r == bytes_content(*b).len(),
{
    b.len()
}

/// `Bytes::clone`: another handle on the same bytes.
#[verifier::external_body]
fn bytes_clone(b: &Bytes) -> (r: Bytes)
    ensures
        bytes_content(r) == bytes_content(*b),
{
    b.clone()
}

pub const TOKEN_LEN: usize = 32;
pub const TOKEN_LIFETIME_MS: u64 = 600_000;
/// How long a redeemed token lets paused routes restart without prompting again.
pub const RESUME_GRANT_MS: u64 = 30_000;
/// Bound on stored tokens (one per trusted peer in practice).
pub const MAX_TOKENS: usize = 64;

/// A device id (the 128-bit value of its 16 bytes).
#[derive(Debug, Clone, Copy, PartialEq, Eq, Structural)]
pub struct DeviceId(pub u128);

/// A token this device issued.
#[derive(Debug, Clone, Copy)]
pub struct Issued {
    pub token: [u8; 32],
    pub peer_key: [u8; 32],
    /// Device id of the peer the token was issued to.
    pub peer: DeviceId,
    pub expires: u64,
}

/// A token a peer issued to this device.
pub struct Held {
    pub peer: DeviceId,
    pub token: Bytes,
    pub expires: u64,
}

pub ghost struct IssuedView {
    pub token: Seq<u8>,
    pub peer_key: Seq<u8>,
    pub peer: DeviceId,
    pub expires: u64,
}

pub ghost struct HeldView {
    pub peer: DeviceId,
    pub token: Seq<u8>,
    pub expires: u64,
}

pub ghost struct ResumeView {
    pub issued: Seq<IssuedView>,
    pub held: Seq<HeldView>,
    /// Peers whose last connection resumed a session, until the grant expires.
    pub grants: Seq<(DeviceId, u64)>,
}

pub open spec fn issued_view(i: Issued) -> IssuedView {
    IssuedView { token: i.token@, peer_key: i.peer_key@, peer: i.peer, expires: i.expires }
}

pub open spec fn held_view(h: Held) -> HeldView {
    HeldView { peer: h.peer, token: bytes_content(h.token), expires: h.expires }
}

/// Tokens issued, tickets held and resume grants. Each is a vector with distinct keys (token,
/// peer, peer) rather than a hash map: they hold at most [`MAX_TOKENS`] entries, so a linear
/// search is cheap, and a vector's order is plain to state (which token is closest to expiry,
/// what stays when one is dropped), where a hash map's walk order is not.
pub struct ResumeTokens {
    issued: Vec<Issued>,
    held: Vec<Held>,
    grants: Vec<(DeviceId, u64)>,
}

impl View for ResumeTokens {
    type V = ResumeView;

    closed spec fn view(&self) -> ResumeView {
        ResumeView {
            issued: self.issued@.map_values(|i: Issued| issued_view(i)),
            held: self.held@.map_values(|h: Held| held_view(h)),
            grants: self.grants@,
        }
    }
}

pub open spec fn sat_add(a: u64, b: u64) -> u64 {
    if a + b > u64::MAX {
        u64::MAX
    } else {
        (a + b) as u64
    }
}

/// Everything still valid at `now`.
pub open spec fn pruned(m: ResumeView, now: u64) -> ResumeView {
    ResumeView {
        issued: m.issued.filter(|i: IssuedView| now < i.expires),
        held: m.held.filter(|h: HeldView| now < h.expires),
        grants: m.grants.filter(grant_live(now)),
    }
}

/// The first issued token closest to expiry.
pub open spec fn soonest_index(s: Seq<IssuedView>) -> int
    decreases s.len(),
{
    if s.len() <= 1 {
        0
    } else {
        let j = soonest_index(s.drop_last());
        if s.last().expires < s[j].expires {
            s.len() - 1
        } else {
            j
        }
    }
}

/// Issue `token` to the peer with `peer_key` (device id `peer`), replacing any earlier token
/// for the same key; when the table is full the token closest to expiry makes room.
pub open spec fn issue_step(m: ResumeView, peer_key: Seq<u8>, peer: DeviceId, token: Seq<u8>, now: u64) -> ResumeView {
    let m1 = pruned(m, now);
    let others = m1.issued.filter(|i: IssuedView| i.peer_key != peer_key);
    let room = if others.len() >= MAX_TOKENS {
        others.remove(soonest_index(others))
    } else {
        others
    };
    ResumeView {
        issued: room.filter(|i: IssuedView| i.token != token).push(
            IssuedView { token, peer_key, peer, expires: sat_add(now, TOKEN_LIFETIME_MS) },
        ),
        ..m1
    }
}

pub open spec fn has_token(s: Seq<IssuedView>, token: Seq<u8>) -> bool {
    exists|i: int| 0 <= i < s.len() && s[i].token == token
}

pub open spec fn token_index(s: Seq<IssuedView>, token: Seq<u8>) -> int {
    choose|i: int| 0 <= i < s.len() && s[i].token == token
}

/// Grants still running at `now`.
pub open spec fn grant_live(now: u64) -> spec_fn((DeviceId, u64)) -> bool {
    |g: (DeviceId, u64)| now < g.1
}

/// Grants for peers other than `peer`.
pub open spec fn grant_not_of(peer: DeviceId) -> spec_fn((DeviceId, u64)) -> bool {
    |g: (DeviceId, u64)| g.0 != peer
}

/// `grants` with `peer`'s grant set to `until`.
pub open spec fn grant(grants: Seq<(DeviceId, u64)>, peer: DeviceId, until: u64) -> Seq<(DeviceId, u64)> {
    grants.filter(grant_not_of(peer)).push((peer, until))
}

/// Check a token presented by an authenticated peer (`peer_key`, device id `peer`). Consumes
/// it either way.
pub open spec fn redeem_step(m: ResumeView, peer_key: Seq<u8>, peer: DeviceId, token: Seq<u8>, now: u64) -> (
    ResumeView,
    bool,
) {
    if token.len() != TOKEN_LEN || !has_token(m.issued, token) {
        (m, false)
    } else {
        let k = token_index(m.issued, token);
        let e = m.issued[k];
        let valid = e.peer_key == peer_key && now < e.expires;
        (
            ResumeView {
                issued: m.issued.remove(k),
                grants: if valid {
                    grant(m.grants, peer, sat_add(now, RESUME_GRANT_MS))
                } else {
                    m.grants
                },
                ..m
            },
            valid,
        )
    }
}

pub open spec fn has_held(s: Seq<HeldView>, peer: DeviceId) -> bool {
    exists|i: int| 0 <= i < s.len() && s[i].peer == peer
}

/// Store a ticket received from a trusted peer: only whole tokens, lifetime capped, at most
/// [`MAX_TOKENS`] peers.
pub open spec fn hold_step(m: ResumeView, peer: DeviceId, token: Seq<u8>, lifetime_secs: u32, now: u64) -> ResumeView {
    if token.len() != TOKEN_LEN {
        m
    } else if !has_held(m.held, peer) && m.held.len() >= MAX_TOKENS {
        m
    } else {
        let lifetime: u64 = if lifetime_secs * 1000 < TOKEN_LIFETIME_MS {
            (lifetime_secs * 1000) as u64
        } else {
            TOKEN_LIFETIME_MS
        };
        ResumeView {
            held: m.held.filter(|h: HeldView| h.peer != peer).push(
                HeldView { peer, token, expires: sat_add(now, lifetime) },
            ),
            ..m
        }
    }
}

/// Drop every token and grant for a peer.
pub open spec fn forget_step(m: ResumeView, peer: DeviceId) -> ResumeView {
    ResumeView {
        issued: m.issued.filter(|i: IssuedView| i.peer != peer),
        held: m.held.filter(|h: HeldView| h.peer != peer),
        grants: m.grants.filter(grant_not_of(peer)),
    }
}

/// Tokens are distinct, held tokens and grants are one per peer, and every table is bounded.
pub open spec fn resume_wf(m: ResumeView) -> bool {
    &&& forall|i: int, j: int| 0 <= i < j < m.issued.len() ==> m.issued[i].token != m.issued[j].token
    &&& forall|i: int, j: int| 0 <= i < j < m.held.len() ==> m.held[i].peer != m.held[j].peer
    &&& forall|i: int, j: int| 0 <= i < j < m.grants.len() ==> m.grants[i].0 != m.grants[j].0
    &&& m.issued.len() <= MAX_TOKENS
    &&& m.held.len() <= MAX_TOKENS
}

/// Two 32-byte values are equal.
fn bytes_eq(a: &[u8; 32], b: &[u8; 32]) -> (r: bool)
    ensures
        r == (a@ == b@),
{
    let mut i: usize = 0;
    while i < 32
        invariant
            i <= 32,
            a@.len() == 32,
            b@.len() == 32,
            forall|j: int| 0 <= j < i ==> a@[j] == b@[j],
        decreases 32 - i,
    {
        if a[i] != b[i] {
            return false;
        }
        i = i + 1;
    }
    assert(a@ =~= b@);
    true
}

/// A 32-byte slice as an array, when it has exactly 32 bytes.
fn token_array(token: &[u8]) -> (r: Option<[u8; 32]>)
    ensures
        token@.len() == TOKEN_LEN <==> r is Some,
        r matches Some(a) ==> a@ == token@,
{
    if token.len() != TOKEN_LEN {
        return None;
    }
    let mut a = [0u8; 32];
    let mut i: usize = 0;
    while i < 32
        invariant
            i <= 32,
            token@.len() == 32,
            a@.len() == 32,
            forall|j: int| 0 <= j < i ==> a@[j] == token@[j],
        decreases 32 - i,
    {
        a.set(i, token[i]);
        i = i + 1;
    }
    assert(a@ =~= token@);
    Some(a)
}


/// Where the issued token `t` stands, if anywhere.
fn find_issued(v: &Vec<Issued>, t: &[u8; 32]) -> (r: Option<usize>)
    ensures
        match r {
            Some(k) => k < v@.len() && v@[k as int].token@ == t@,
            None => forall|j: int| 0 <= j < v@.len() ==> v@[j].token@ != t@,
        },
{
    let mut k: usize = 0;
    while k < v.len()
        invariant
            k <= v@.len(),
            forall|j: int| 0 <= j < k ==> v@[j].token@ != t@,
        decreases v@.len() - k,
    {
        if bytes_eq(&v[k].token, t) {
            return Some(k);
        }
        k = k + 1;
    }
    None
}

/// Where the token held for `peer` stands, if anywhere.
fn find_held(v: &Vec<Held>, peer: DeviceId) -> (r: Option<usize>)
    ensures
        match r {
            Some(k) => k < v@.len() && v@[k as int].peer == peer,
            None => forall|j: int| 0 <= j < v@.len() ==> v@[j].peer != peer,
        },
{
    let mut k: usize = 0;
    while k < v.len()
        invariant
            k <= v@.len(),
            forall|j: int| 0 <= j < k ==> v@[j].peer != peer,
        decreases v@.len() - k,
    {
        if v[k].peer == peer {
            return Some(k);
        }
        k = k + 1;
    }
    None
}

/// Which issued tokens a filter keeps.
enum IssuedKeep {
    /// Not expired at this time.
    Live(u64),
    /// Issued to another key.
    OtherKey([u8; 32]),
    /// Another token.
    OtherToken([u8; 32]),
    /// Issued to another device.
    OtherPeer(DeviceId),
}

spec fn issued_keeps(k: IssuedKeep, i: IssuedView) -> bool {
    match k {
        IssuedKeep::Live(now) => now < i.expires,
        IssuedKeep::OtherKey(key) => i.peer_key != key@,
        IssuedKeep::OtherToken(t) => i.token != t@,
        IssuedKeep::OtherPeer(p) => i.peer != p,
    }
}

fn issued_keep_test(k: &IssuedKeep, i: &Issued) -> (r: bool)
    ensures
        r == issued_keeps(*k, issued_view(*i)),
{
    match k {
        IssuedKeep::Live(now) => *now < i.expires,
        IssuedKeep::OtherKey(key) => !bytes_eq(&i.peer_key, key),
        IssuedKeep::OtherToken(t) => !bytes_eq(&i.token, t),
        IssuedKeep::OtherPeer(p) => i.peer != *p,
    }
}

fn filter_issued(v: &Vec<Issued>, k: IssuedKeep) -> (r: Vec<Issued>)
    ensures
        r@.map_values(|i: Issued| issued_view(i)) == v@.map_values(|i: Issued| issued_view(i)).filter(
            |i: IssuedView| issued_keeps(k, i),
        ),
{
    let ghost vv = v@.map_values(|i: Issued| issued_view(i));
    let ghost keep = |i: IssuedView| issued_keeps(k, i);
    let mut out: Vec<Issued> = Vec::new();
    let mut j: usize = 0;
    while j < v.len()
        invariant
            j <= v@.len(),
            vv == v@.map_values(|i: Issued| issued_view(i)),
            keep == (|i: IssuedView| issued_keeps(k, i)),
            out@.map_values(|i: Issued| issued_view(i)) == vv.subrange(0, j as int).filter(keep),
        decreases v@.len() - j,
    {
        let e = v[j];
        proof {
            assert(vv.subrange(0, j + 1) =~= vv.subrange(0, j as int).push(issued_view(e)));
            vv.subrange(0, j as int).lemma_filter_push(issued_view(e), keep);
        }
        if issued_keep_test(&k, &e) {
            let ghost before = out@;
            out.push(e);
            assert(out@.map_values(|i: Issued| issued_view(i)) =~= before.map_values(
                |i: Issued| issued_view(i),
            ).push(issued_view(e)));
        }
        j = j + 1;
    }
    assert(vv.subrange(0, vv.len() as int) =~= vv);
    out
}

/// Which held tokens a filter keeps.
enum HeldKeep {
    Live(u64),
    OtherPeer(DeviceId),
}

spec fn held_keeps(k: HeldKeep, h: HeldView) -> bool {
    match k {
        HeldKeep::Live(now) => now < h.expires,
        HeldKeep::OtherPeer(p) => h.peer != p,
    }
}

fn filter_held(v: Vec<Held>, k: HeldKeep) -> (r: Vec<Held>)
    ensures
        r@.map_values(|h: Held| held_view(h)) == v@.map_values(|h: Held| held_view(h)).filter(
            |h: HeldView| held_keeps(k, h),
        ),
{
    let ghost vv = v@.map_values(|h: Held| held_view(h));
    let ghost keep = |h: HeldView| held_keeps(k, h);
    let n = v.len();
    let mut v = v;
    let mut rev: Vec<Held> = Vec::new();
    while v.len() > 0
        invariant
            v@.len() + rev@.len() == n,
            vv.len() == n,
            forall|j: int| 0 <= j < v@.len() ==> held_view(#[trigger] v@[j]) == vv[j],
            forall|j: int| 0 <= j < rev@.len() ==> held_view(#[trigger] rev@[j]) == vv[n - 1 - j],
        decreases v@.len(),
    {
        let e = v.pop().unwrap();
        rev.push(e);
    }
    let mut out: Vec<Held> = Vec::new();
    let mut j: usize = 0;
    while j < n
        invariant
            j <= n,
            rev@.len() == n - j,
            vv.len() == n,
            keep == (|h: HeldView| held_keeps(k, h)),
            forall|i: int| 0 <= i < rev@.len() ==> held_view(#[trigger] rev@[i]) == vv[n - 1 - i],
            out@.map_values(|h: Held| held_view(h)) == vv.subrange(0, j as int).filter(keep),
        decreases n - j,
    {
        let e = rev.pop().unwrap();
        let ghost x = vv[j as int];
        proof {
            assert(vv.subrange(0, j + 1) =~= vv.subrange(0, j as int).push(x));
            vv.subrange(0, j as int).lemma_filter_push(x, keep);
        }
        let keeps = match k {
            HeldKeep::Live(now) => now < e.expires,
            HeldKeep::OtherPeer(p) => e.peer != p,
        };
        if keeps {
            let ghost before = out@;
            out.push(e);
            assert(out@.map_values(|h: Held| held_view(h)) =~= before.map_values(
                |h: Held| held_view(h),
            ).push(x));
        }
        j = j + 1;
    }
    assert(vv.subrange(0, n as int) =~= vv);
    out
}

/// Which grants a filter keeps.
enum GrantKeep {
    Live(u64),
    OtherPeer(DeviceId),
}

spec fn grant_filter(k: GrantKeep) -> spec_fn((DeviceId, u64)) -> bool {
    match k {
        GrantKeep::Live(now) => grant_live(now),
        GrantKeep::OtherPeer(p) => grant_not_of(p),
    }
}

fn filter_grants(v: &Vec<(DeviceId, u64)>, k: GrantKeep) -> (r: Vec<(DeviceId, u64)>)
    ensures
        r@ == v@.filter(grant_filter(k)),
{
    let ghost keep = grant_filter(k);
    let mut out: Vec<(DeviceId, u64)> = Vec::new();
    let mut j: usize = 0;
    while j < v.len()
        invariant
            j <= v@.len(),
            keep == grant_filter(k),
            out@ == v@.subrange(0, j as int).filter(keep),
        decreases v@.len() - j,
    {
        let e = v[j];
        proof {
            assert(v@.subrange(0, j + 1) =~= v@.subrange(0, j as int).push(e));
            v@.subrange(0, j as int).lemma_filter_push(e, keep);
        }
        let keeps = match k {
            GrantKeep::Live(now) => now < e.1,
            GrantKeep::OtherPeer(p) => e.0 != p,
        };
        if keeps {
            out.push(e);
        }
        j = j + 1;
    }
    assert(v@.subrange(0, v@.len() as int) =~= v@);
    out
}


proof fn lemma_filter_distinct_by<A, K>(s: Seq<A>, keep: spec_fn(A) -> bool, key: spec_fn(A) -> K)
    requires
        forall|i: int, j: int| 0 <= i < j < s.len() ==> key(s[i]) != key(s[j]),
    ensures
        forall|i: int, j: int|
            0 <= i < j < s.filter(keep).len() ==> key(s.filter(keep)[i]) != key(s.filter(keep)[j]),
        s.filter(keep).len() <= s.len(),
    decreases s.len(),
{
    reveal(Seq::filter);
    s.lemma_filter_len(keep);
    if s.len() > 0 {
        let p = s.drop_last();
        assert forall|i: int, j: int| 0 <= i < j < p.len() implies key(p[i]) != key(p[j]) by {
            assert(p[i] == s[i] && p[j] == s[j]);
        }
        lemma_filter_distinct_by(p, keep, key);
        if keep(s.last()) {
            assert forall|i: int| 0 <= i < p.filter(keep).len() implies key(p.filter(keep)[i])
                != key(s.last()) by {
                assert(p.filter(keep).contains(p.filter(keep)[i]));
                p.lemma_filter_contains_rev(keep, p.filter(keep)[i]);
                let k = choose|k: int| 0 <= k < p.len() && p[k] == p.filter(keep)[i];
                assert(s[k] == p[k]);
            }
        }
    }
}

/// Filtering keeps only what the filter keeps.
proof fn lemma_filter_all<A>(s: Seq<A>, keep: spec_fn(A) -> bool)
    ensures
        forall|i: int| 0 <= i < s.filter(keep).len() ==> keep(#[trigger] s.filter(keep)[i]),
{
    assert forall|i: int| 0 <= i < s.filter(keep).len() implies keep(#[trigger] s.filter(keep)[i]) by {
        s.lemma_filter_pred(keep, i);
    }
}

impl Default for ResumeTokens {
    fn default() -> (r: ResumeTokens)
        ensures
            r@ == (ResumeView { issued: Seq::empty(), held: Seq::empty(), grants: Seq::empty() }),
            resume_wf(r@),
            r.wf(),
    {
        let r = ResumeTokens { issued: Vec::new(), held: Vec::new(), grants: Vec::new() };
        assert(r@.issued =~= Seq::<IssuedView>::empty());
        assert(r@.held =~= Seq::<HeldView>::empty());
        r
    }
}

impl ResumeTokens {
    pub closed spec fn wf(&self) -> bool {
        resume_wf(self@)
    }

    /// Drop what has expired.
    pub fn prune(&mut self, now: u64)
        requires
            old(self).wf(),
        ensures
            final(self).wf(),
            final(self)@ == pruned(old(self)@, now),
    {
        let ghost m = self@;
        self.issued = filter_issued(&self.issued, IssuedKeep::Live(now));
        let mut held = Vec::new();
        std::mem::swap(&mut held, &mut self.held);
        self.held = filter_held(held, HeldKeep::Live(now));
        self.grants = filter_grants(&self.grants, GrantKeep::Live(now));
        proof {
            let ki = |i: IssuedView| now < i.expires;
            let kh = |h: HeldView| now < h.expires;
            let kg = grant_live(now);
            assert((|i: IssuedView| issued_keeps(IssuedKeep::Live(now), i)) =~= ki);
            assert((|h: HeldView| held_keeps(HeldKeep::Live(now), h)) =~= kh);
            lemma_filter_distinct_by(m.issued, ki, |i: IssuedView| i.token);
            lemma_filter_distinct_by(m.held, kh, |h: HeldView| h.peer);
            lemma_filter_distinct_by(m.grants, kg, |g: (DeviceId, u64)| g.0);
        }
    }

    /// Index of the issued token closest to expiry.
    fn soonest(&self) -> (r: usize)
        requires
            self.issued@.len() > 0,
        ensures
            r == soonest_index(self@.issued),
            r < self@.issued.len(),
    {
        let ghost s = self@.issued;
        let mut best: usize = 0;
        let mut i: usize = 1;
        while i < self.issued.len()
            invariant
                1 <= i <= self.issued@.len(),
                s == self@.issued,
                best < i,
                best == soonest_index(s.subrange(0, i as int)),
            decreases self.issued@.len() - i,
        {
            proof {
                assert(s.subrange(0, i + 1).drop_last() =~= s.subrange(0, i as int));
            }
            if self.issued[i].expires < self.issued[best].expires {
                best = i;
            }
            i = i + 1;
        }
        assert(s.subrange(0, s.len() as int) =~= s);
        best
    }

    /// Issue `token` for `peer_key` (device id `peer`, the id the caller derived from that key),
    /// replacing any earlier one for the same key.
    pub fn issue_token(&mut self, peer_key: [u8; 32], peer: DeviceId, token: [u8; 32], now: u64)
        requires
            old(self).wf(),
        ensures
            final(self).wf(),
            final(self)@ == issue_step(old(self)@, peer_key@, peer, token@, now),
    {
        let ghost m = self@;
        self.prune(now);
        let ghost m1 = self@;
        self.issued = filter_issued(&self.issued, IssuedKeep::OtherKey(peer_key));
        let ghost others = self@.issued;
        proof {
            let kk = |i: IssuedView| i.peer_key != peer_key@;
            assert((|i: IssuedView| issued_keeps(IssuedKeep::OtherKey(peer_key), i)) =~= kk);
            lemma_filter_distinct_by(m1.issued, kk, |i: IssuedView| i.token);
        }
        if self.issued.len() >= MAX_TOKENS {
            let o = self.soonest();
            let ghost before = self@.issued;
            self.issued.remove(o);
            assert(self@.issued =~= before.remove(o as int));
            assert forall|a: int, b: int| 0 <= a < b < self@.issued.len() implies self@.issued[a].token
                != self@.issued[b].token by {
                let a2 = if a < o {
                    a
                } else {
                    a + 1
                };
                let b2 = if b < o {
                    b
                } else {
                    b + 1
                };
                assert(self@.issued[a] == before[a2]);
                assert(self@.issued[b] == before[b2]);
            }
        }
        let ghost room = self@.issued;
        self.issued = filter_issued(&self.issued, IssuedKeep::OtherToken(token));
        let ghost kept = self@.issued;
        proof {
            let kt = |i: IssuedView| i.token != token@;
            assert((|i: IssuedView| issued_keeps(IssuedKeep::OtherToken(token), i)) =~= kt);
            lemma_filter_distinct_by(room, kt, |i: IssuedView| i.token);
            lemma_filter_all(room, kt);
        }
        self.issued.push(Issued { token, peer_key, peer, expires: now.saturating_add(TOKEN_LIFETIME_MS) });
        proof {
            assert(self@.issued =~= kept.push(
                IssuedView {
                    token: token@,
                    peer_key: peer_key@,
                    peer,
                    expires: sat_add(now, TOKEN_LIFETIME_MS),
                },
            ));
            assert forall|a: int, b: int| 0 <= a < b < self@.issued.len() implies self@.issued[a].token
                != self@.issued[b].token by {
                if b == self@.issued.len() - 1 {
                    assert(kept[a].token != token@);
                }
            }
            assert(self@.grants == m1.grants);
            assert(self@.held == m1.held);
            assert(kept.len() < MAX_TOKENS);
        }
    }

    /// Issue a fresh random token for `peer_key` (device id `peer`), replacing any earlier one
    /// for the same key. `None` when the operating system has no randomness to give; nothing
    /// changes then. `peer` is the device id the caller derived from `peer_key`: the two must
    /// belong together, as this store does not derive one from the other.
    pub fn issue(&mut self, peer_key: [u8; 32], peer: DeviceId, now: u64) -> (r: Option<[u8; 32]>)
        requires
            old(self).wf(),
        ensures
            final(self).wf(),
            r matches Some(t) ==> final(self)@ == issue_step(old(self)@, peer_key@, peer, t@, now),
            r is None ==> final(self)@ == old(self)@,
    {
        match os_random_32() {
            Some(token) => {
                self.issue_token(peer_key, peer, token, now);
                Some(token)
            },
            None => None,
        }
    }

    /// Check a token presented by an authenticated peer (`peer_key`, device id `peer`, the id
    /// the caller derived from that key). Consumes it either way.
    pub fn redeem(&mut self, peer_key: &[u8; 32], peer: DeviceId, token: &[u8], now: u64) -> (valid:
        bool)
        requires
            old(self).wf(),
        ensures
            final(self).wf(),
            (final(self)@, valid) == redeem_step(old(self)@, peer_key@, peer, token@, now),
    {
        let ghost m = self@;
        let t = match token_array(token) {
            Some(t) => t,
            None => return false,
        };
        let k = match find_issued(&self.issued, &t) {
            Some(k) => k,
            None => {
                assert forall|i: int| 0 <= i < m.issued.len() implies m.issued[i].token != token@ by {
                    assert(m.issued[i] == issued_view(self.issued@[i]));
                }
                return false;
            },
        };
        proof {
            assert(m.issued[k as int] == issued_view(self.issued@[k as int]));
            assert(m.issued[k as int].token == token@);
            assert(has_token(m.issued, token@));
            let c = token_index(m.issued, token@);
            if c != k {
                if c < k {
                    assert(m.issued[c].token != m.issued[k as int].token);
                } else {
                    assert(m.issued[k as int].token != m.issued[c].token);
                }
            }
        }
        let e = self.issued.remove(k);
        assert(self@.issued =~= m.issued.remove(k as int));
        let valid = bytes_eq(&e.peer_key, peer_key) && now < e.expires;
        if valid {
            let until = now.saturating_add(RESUME_GRANT_MS);
            self.grants = filter_grants(&self.grants, GrantKeep::OtherPeer(peer));
            let ghost g = self@.grants;
            proof {
                let kp = grant_not_of(peer);
                lemma_filter_distinct_by(m.grants, kp, |x: (DeviceId, u64)| x.0);
                lemma_filter_all(m.grants, kp);
            }
            self.grants.push((peer, until));
            proof {
                assert forall|a: int, b: int| 0 <= a < b < self@.grants.len() implies self@.grants[a].0
                    != self@.grants[b].0 by {
                    if b == self@.grants.len() - 1 {
                        assert(g[a].0 != peer);
                    }
                }
            }
        }
        proof {
            assert(m.issued[k as int] == issued_view(e));
            assert(valid == (m.issued[k as int].peer_key == peer_key@ && now < m.issued[k as int].expires));
            assert(self@.held == m.held);
            if valid {
                assert(self@.grants =~= grant(m.grants, peer, sat_add(now, RESUME_GRANT_MS)));
            } else {
                assert(self@.grants == m.grants);
            }
            assert forall|a: int, b: int| 0 <= a < b < self@.issued.len() implies self@.issued[a].token
                != self@.issued[b].token by {
                let a2 = if a < k {
                    a
                } else {
                    a + 1
                };
                let b2 = if b < k {
                    b
                } else {
                    b + 1
                };
                assert(self@.issued[a] == m.issued[a2]);
                assert(self@.issued[b] == m.issued[b2]);
            }
        }
        valid
    }

    /// Store a ticket received from a trusted peer.
    pub fn hold(&mut self, peer: DeviceId, token: Bytes, lifetime_secs: u32, now: u64)
        requires
            old(self).wf(),
        ensures
            final(self).wf(),
            final(self)@ == hold_step(old(self)@, peer, bytes_content(token), lifetime_secs, now),
    {
        let ghost m = self@;
        if bytes_len(&token) != TOKEN_LEN {
            return;
        }
        let found = find_held(&self.held, peer);
        proof {
            match found {
                Some(k) => {
                    assert(m.held[k as int] == held_view(self.held@[k as int]));
                    assert(has_held(m.held, peer));
                },
                None => {
                    assert forall|i: int| 0 <= i < m.held.len() implies m.held[i].peer != peer by {
                        assert(m.held[i] == held_view(self.held@[i]));
                    }
                },
            }
        }
        if found.is_none() && self.held.len() >= MAX_TOKENS {
            return;
        }
        let lifetime: u64 = if (lifetime_secs as u64) * 1000 < TOKEN_LIFETIME_MS {
            (lifetime_secs as u64) * 1000
        } else {
            TOKEN_LIFETIME_MS
        };
        let mut held = Vec::new();
        std::mem::swap(&mut held, &mut self.held);
        self.held = filter_held(held, HeldKeep::OtherPeer(peer));
        let ghost h = self@.held;
        proof {
            let kp = |x: HeldView| x.peer != peer;
            assert((|x: HeldView| held_keeps(HeldKeep::OtherPeer(peer), x)) =~= kp);
            lemma_filter_distinct_by(m.held, kp, |x: HeldView| x.peer);
            lemma_filter_all(m.held, kp);
            if let Some(k) = found {
                assert(!kp(m.held[k as int]));
                lemma_filter_drops_one(m.held, kp, k as int);
            }
        }
        let ghost tv = bytes_content(token);
        self.held.push(Held { peer, token, expires: now.saturating_add(lifetime) });
        proof {
            assert(self@.held =~= h.push(HeldView { peer, token: tv, expires: sat_add(now, lifetime) }));
            assert forall|a: int, b: int| 0 <= a < b < self@.held.len() implies self@.held[a].peer
                != self@.held[b].peer by {
                if b == self@.held.len() - 1 {
                    assert(h[a].peer != peer);
                }
            }
            assert(self@.issued == m.issued);
            assert(self@.grants == m.grants);
            assert(h.len() < MAX_TOKENS);
        }
    }

    /// Token to present to `peer` on a new connection, while it is valid. It stays held until
    /// the peer issues a new one: both directions of a simultaneous dial may present it, and the
    /// issuer accepts it once.
    pub fn held_for(&self, peer: DeviceId, now: u64) -> (r: Option<Bytes>)
        requires
            self.wf(),
        ensures
            match r {
                Some(t) => exists|i: int|
                    0 <= i < self@.held.len() && self@.held[i].peer == peer && now
                        < self@.held[i].expires && self@.held[i].token == bytes_content(t),
                None => forall|i: int|
                    0 <= i < self@.held.len() && self@.held[i].peer == peer ==> now
                        >= self@.held[i].expires,
            },
    {
        match find_held(&self.held, peer) {
            Some(k) => {
                assert(self@.held[k as int] == held_view(self.held@[k as int]));
                if now < self.held[k].expires {
                    let t = bytes_clone(&self.held[k].token);
                    assert(self@.held[k as int].token == bytes_content(t));
                    Some(t)
                } else {
                    assert forall|i: int| 0 <= i < self@.held.len() && self@.held[i].peer == peer
                        implies now >= self@.held[i].expires by {
                        if i != k {
                            if i < k {
                                assert(self@.held[i].peer != self@.held[k as int].peer);
                            } else {
                                assert(self@.held[k as int].peer != self@.held[i].peer);
                            }
                        }
                    }
                    None
                }
            },
            None => {
                assert forall|i: int| 0 <= i < self@.held.len() implies self@.held[i].peer != peer by {
                    assert(self@.held[i] == held_view(self.held@[i]));
                }
                None
            },
        }
    }

    /// True while `peer`'s last connection resumed its session.
    pub fn resumed_recently(&self, peer: DeviceId, now: u64) -> (r: bool)
        ensures
            r == exists|i: int|
                0 <= i < self@.grants.len() && self@.grants[i].0 == peer && now
                    < self@.grants[i].1,
    {
        let mut k: usize = 0;
        while k < self.grants.len()
            invariant
                k <= self.grants@.len(),
                forall|j: int| 0 <= j < k ==> !(self@.grants[j].0 == peer && now < self@.grants[j].1),
            decreases self.grants@.len() - k,
        {
            let (p, until) = self.grants[k];
            if p == peer && now < until {
                assert(self@.grants[k as int].0 == peer && now < self@.grants[k as int].1);
                return true;
            }
            k = k + 1;
        }
        false
    }

    /// Number of tokens this device has issued and still holds.
    pub fn issued_count(&self) -> (r: usize)
        ensures
            r == self@.issued.len(),
    {
        self.issued.len()
    }

    /// Number of tokens peers issued to this device that are held.
    pub fn held_count(&self) -> (r: usize)
        ensures
            r == self@.held.len(),
    {
        self.held.len()
    }

    /// Drop every token and grant for a peer (forgotten, blocked or revoked).
    pub fn forget(&mut self, peer: DeviceId)
        requires
            old(self).wf(),
        ensures
            final(self).wf(),
            final(self)@ == forget_step(old(self)@, peer),
    {
        let ghost m = self@;
        self.issued = filter_issued(&self.issued, IssuedKeep::OtherPeer(peer));
        let mut held = Vec::new();
        std::mem::swap(&mut held, &mut self.held);
        self.held = filter_held(held, HeldKeep::OtherPeer(peer));
        self.grants = filter_grants(&self.grants, GrantKeep::OtherPeer(peer));
        proof {
            let ki = |i: IssuedView| i.peer != peer;
            let kh = |h: HeldView| h.peer != peer;
            let kg = grant_not_of(peer);
            assert((|i: IssuedView| issued_keeps(IssuedKeep::OtherPeer(peer), i)) =~= ki);
            assert((|h: HeldView| held_keeps(HeldKeep::OtherPeer(peer), h)) =~= kh);
            lemma_filter_distinct_by(m.issued, ki, |i: IssuedView| i.token);
            lemma_filter_distinct_by(m.held, kh, |h: HeldView| h.peer);
            lemma_filter_distinct_by(m.grants, kg, |g: (DeviceId, u64)| g.0);
            assert(self@.issued == m.issued.filter(ki));
            assert(self@.held == m.held.filter(kh));
            assert(self@.grants == m.grants.filter(kg));
            assert(self@.issued =~= forget_step(m, peer).issued);
            assert(self@.held =~= forget_step(m, peer).held);
            assert(self@.grants =~= forget_step(m, peer).grants);
        }
    }
}

/// Filtering out an element that is present makes the sequence shorter.
proof fn lemma_filter_drops_one<A>(s: Seq<A>, keep: spec_fn(A) -> bool, k: int)
    requires
        0 <= k < s.len(),
        !keep(s[k]),
    ensures
        s.filter(keep).len() < s.len(),
    decreases s.len(),
{
    reveal(Seq::filter);
    let p = s.drop_last();
    p.lemma_filter_len(keep);
    if k < s.len() - 1 {
        assert(p[k] == s[k]);
        lemma_filter_drops_one(p, keep, k);
    }
}

/// A token is single use: once presented, it is gone, whether or not it was accepted.
pub proof fn lemma_tokens_single_use(m: ResumeView, peer_key: Seq<u8>, peer: DeviceId, token: Seq<u8>, now: u64)
    requires
        resume_wf(m),
    ensures
        !has_token(redeem_step(m, peer_key, peer, token, now).0.issued, token) || !has_token(
            m.issued,
            token,
        ) || token.len() != TOKEN_LEN,
{
    if token.len() == TOKEN_LEN && has_token(m.issued, token) {
        let k = token_index(m.issued, token);
        let r = m.issued.remove(k);
        assert forall|i: int| 0 <= i < r.len() implies r[i].token != token by {
            if i < k {
                assert(r[i] == m.issued[i]);
                assert(m.issued[i].token != m.issued[k].token);
            } else {
                assert(r[i] == m.issued[i + 1]);
                assert(m.issued[k].token != m.issued[i + 1].token);
            }
        }
    }
}

/// A token is bound to the key it was issued to and expires: it is accepted only from that
/// key and before its expiry.
pub proof fn lemma_tokens_bound_and_expire(m: ResumeView, peer_key: Seq<u8>, peer: DeviceId, token: Seq<u8>, now: u64)
    ensures
        redeem_step(m, peer_key, peer, token, now).1 ==> has_token(m.issued, token) && m.issued[token_index(
            m.issued,
            token,
        )].peer_key == peer_key && now < m.issued[token_index(m.issued, token)].expires,
{
}

/// The token closest to expiry is one of the tokens.
proof fn lemma_soonest_in_range(s: Seq<IssuedView>)
    requires
        s.len() > 0,
    ensures
        0 <= soonest_index(s) < s.len(),
    decreases s.len(),
{
    if s.len() > 1 {
        lemma_soonest_in_range(s.drop_last());
    }
}

/// Issuing a token for a key replaces any earlier token for that key.
pub proof fn lemma_reissue_replaces(m: ResumeView, peer_key: Seq<u8>, peer: DeviceId, token: Seq<u8>, now: u64)
    ensures
        ({
            let t = issue_step(m, peer_key, peer, token, now).issued;
            &&& t.last().token == token && t.last().peer_key == peer_key
            &&& forall|i: int| 0 <= i < t.len() - 1 ==> t[i].peer_key != peer_key
        }),
{
    let m1 = pruned(m, now);
    let kk = |i: IssuedView| i.peer_key != peer_key;
    let others = m1.issued.filter(kk);
    lemma_filter_all(m1.issued, kk);
    let room = if others.len() >= MAX_TOKENS {
        others.remove(soonest_index(others))
    } else {
        others
    };
    if others.len() >= MAX_TOKENS {
        lemma_soonest_in_range(others);
    }
    assert forall|i: int| 0 <= i < room.len() implies room[i].peer_key != peer_key by {
        if others.len() >= MAX_TOKENS {
            let o = soonest_index(others);
            if i < o {
                assert(room[i] == others[i]);
            } else {
                assert(room[i] == others[i + 1]);
            }
        } else {
            assert(room[i] == others[i]);
        }
    }
    let kt = |i: IssuedView| i.token != token;
    let kept = room.filter(kt);
    assert forall|i: int| 0 <= i < kept.len() implies kept[i].peer_key != peer_key by {
        assert(kept.contains(kept[i]));
        room.lemma_filter_contains_rev(kt, kept[i]);
    }
}

/// A token accepted from a peer opens that peer's resume grant for [`RESUME_GRANT_MS`], and
/// leaves no other grant for it.
pub proof fn lemma_redeem_grants_a_window(m: ResumeView, peer_key: Seq<u8>, peer: DeviceId, token: Seq<u8>, now: u64)
    ensures
        ({
            let (m2, valid) = redeem_step(m, peer_key, peer, token, now);
            valid ==> {
                &&& m2.grants.last() == (peer, sat_add(now, RESUME_GRANT_MS))
                &&& forall|i: int| 0 <= i < m2.grants.len() - 1 ==> m2.grants[i].0 != peer
            }
        }),
{
    let (m2, valid) = redeem_step(m, peer_key, peer, token, now);
    if valid {
        lemma_filter_all(m.grants, grant_not_of(peer));
    }
}

/// A freshly issued token is accepted once: from the key it was issued to and before its
/// lifetime ends, and then never again.
pub proof fn lemma_issue_then_redeem(
    m: ResumeView,
    peer_key: Seq<u8>,
    peer: DeviceId,
    token: Seq<u8>,
    now: u64,
    presenter: Seq<u8>,
    later: u64,
    again_key: Seq<u8>,
    again: u64,
)
    requires
        token.len() == TOKEN_LEN,
    ensures
        ({
            let m1 = issue_step(m, peer_key, peer, token, now);
            let (m2, valid) = redeem_step(m1, presenter, peer, token, later);
            &&& valid == (presenter == peer_key && later < sat_add(now, TOKEN_LIFETIME_MS))
            &&& !redeem_step(m2, again_key, peer, token, again).1
        }),
{
    let m0 = pruned(m, now);
    let others = m0.issued.filter(|i: IssuedView| i.peer_key != peer_key);
    let room = if others.len() >= MAX_TOKENS {
        others.remove(soonest_index(others))
    } else {
        others
    };
    let kt = |i: IssuedView| i.token != token;
    let kept = room.filter(kt);
    lemma_filter_all(room, kt);
    let e = IssuedView { token, peer_key, peer, expires: sat_add(now, TOKEN_LIFETIME_MS) };
    let m1 = issue_step(m, peer_key, peer, token, now);
    let t = m1.issued;
    assert(t == kept.push(e));
    let n = t.len() - 1;
    assert(t[n] == e);
    assert(has_token(t, token));
    let k = token_index(t, token);
    if k != n {
        assert(t[k] == kept[k]);
        assert(kt(kept[k]));
    }
    assert(k == n);
    let m2 = redeem_step(m1, presenter, peer, token, later).0;
    assert(m2.issued =~= kept);
    assert forall|i: int| 0 <= i < m2.issued.len() implies m2.issued[i].token != token by {
        assert(kt(kept[i]));
    }
}
/// A call on the store, for stating what a sequence of calls does.
pub ghost enum TokenOp {
    Issue { peer_key: Seq<u8>, peer: DeviceId, token: Seq<u8>, now: u64 },
    Redeem { peer_key: Seq<u8>, peer: DeviceId, token: Seq<u8>, now: u64 },
    Hold { peer: DeviceId, token: Seq<u8>, lifetime_secs: u32, now: u64 },
    Forget { peer: DeviceId },
    Prune { now: u64 },
}

pub open spec fn apply_op(m: ResumeView, op: TokenOp) -> ResumeView {
    match op {
        TokenOp::Issue { peer_key, peer, token, now } => issue_step(m, peer_key, peer, token, now),
        TokenOp::Redeem { peer_key, peer, token, now } => redeem_step(m, peer_key, peer, token, now).0,
        TokenOp::Hold { peer, token, lifetime_secs, now } => hold_step(m, peer, token, lifetime_secs, now),
        TokenOp::Forget { peer } => forget_step(m, peer),
        TokenOp::Prune { now } => pruned(m, now),
    }
}

pub open spec fn apply_ops(m: ResumeView, ops: Seq<TokenOp>) -> ResumeView
    decreases ops.len(),
{
    if ops.len() == 0 {
        m
    } else {
        apply_op(apply_ops(m, ops.drop_last()), ops.last())
    }
}

/// Issue calls among `ops`.
pub open spec fn issues_in(ops: Seq<TokenOp>) -> nat
    decreases ops.len(),
{
    if ops.len() == 0 {
        0
    } else {
        issues_in(ops.drop_last()) + if ops.last() is Issue { 1nat } else { 0nat }
    }
}

/// A call that leaves the token `token` of `peer_key` (device `peer`) alone: no issue for the
/// same key or of the same token, no presenting of the token, no forgetting of the device,
/// and no time later than `until`.
pub open spec fn leaves_token(op: TokenOp, peer_key: Seq<u8>, peer: DeviceId, token: Seq<u8>, until: u64) -> bool {
    match op {
        TokenOp::Issue { peer_key: k, token: t, now, .. } => k != peer_key && t != token && now <= until,
        TokenOp::Redeem { token: t, now, .. } => t != token && now <= until,
        TokenOp::Hold { now, .. } => now <= until,
        TokenOp::Forget { peer: p } => p != peer,
        TokenOp::Prune { now } => now <= until,
    }
}

/// The token appears at most once, as `e`.
pub open spec fn only_as(s: Seq<IssuedView>, e: IssuedView) -> bool {
    forall|i: int, j: int|
        0 <= i < s.len() && 0 <= j < s.len() && s[i].token == e.token && s[j].token == e.token
            ==> i == j && s[i] == e
}

proof fn lemma_only_as_filter(s: Seq<IssuedView>, e: IssuedView, f: spec_fn(IssuedView) -> bool)
    requires
        only_as(s, e),
    ensures
        only_as(s.filter(f), e),
        has_token(s, e.token) && f(e) ==> has_token(s.filter(f), e.token),
        s.filter(f).len() <= s.len(),
    decreases s.len(),
{
    reveal(Seq::filter);
    if s.len() > 0 {
        let q = s.drop_last();
        assert(only_as(q, e)) by {
            assert forall|i: int, j: int|
                0 <= i < q.len() && 0 <= j < q.len() && q[i].token == e.token && q[j].token
                    == e.token implies i == j && q[i] == e by {
                assert(q[i] == s[i] && q[j] == s[j]);
            }
        }
        lemma_only_as_filter(q, e, f);
        let fq = q.filter(f);
        if f(s.last()) {
            let g = s.filter(f);
            assert(g == fq.push(s.last()));
            if s.last().token == e.token {
                // The last is the only one with the token: none of the earlier ones has it.
                assert forall|i: int| 0 <= i < fq.len() implies fq[i].token != e.token by {
                    q.lemma_filter_contains_rev(f, fq[i]);
                    assert(fq.contains(fq[i]));
                    q.lemma_filter_contains_rev(f, fq[i]);
                    let k = choose|k: int| 0 <= k < q.len() && q[k] == fq[i];
                    if fq[i].token == e.token {
                        assert(s[k] == q[k]);
                        assert(s[s.len() - 1].token == e.token);
                    }
                }
            }
            assert forall|i: int, j: int|
                0 <= i < g.len() && 0 <= j < g.len() && g[i].token == e.token && g[j].token
                    == e.token implies i == j && g[i] == e by {
                if i < fq.len() && j < fq.len() {
                    assert(g[i] == fq[i] && g[j] == fq[j]);
                } else if i == g.len() - 1 && j == g.len() - 1 {
                    assert(s[s.len() - 1] == g[i]);
                } else if i == g.len() - 1 {
                    assert(g[j] == fq[j]);
                } else {
                    assert(g[i] == fq[i]);
                }
            }
            if has_token(s, e.token) && f(e) {
                assert(g[g.len() - 1] == s.last());
                if s.last().token != e.token {
                    let k = choose|k: int| 0 <= k < s.len() && s[k].token == e.token;
                    assert(k < s.len() - 1);
                    assert(q[k] == s[k]);
                    assert(s[k] == e);
                    assert(has_token(fq, e.token));
                    let w = choose|w: int| 0 <= w < fq.len() && fq[w].token == e.token;
                    assert(g[w] == fq[w]);
                }
            }
        } else {
            assert(s.filter(f) == fq);
            if has_token(s, e.token) && f(e) {
                let k = choose|k: int| 0 <= k < s.len() && s[k].token == e.token;
                assert(s[k] == e);
                if k == s.len() - 1 {
                    assert(false);
                }
                assert(q[k] == s[k]);
            }
        }
    }
}

proof fn lemma_only_as_remove(s: Seq<IssuedView>, e: IssuedView, k: int)
    requires
        only_as(s, e),
        0 <= k < s.len(),
        s[k].token != e.token,
    ensures
        only_as(s.remove(k), e),
        has_token(s, e.token) ==> has_token(s.remove(k), e.token),
{
    let r = s.remove(k);
    assert forall|i: int, j: int|
        0 <= i < r.len() && 0 <= j < r.len() && r[i].token == e.token && r[j].token == e.token
            implies i == j && r[i] == e by {
        let i2 = if i < k { i } else { i + 1 };
        let j2 = if j < k { j } else { j + 1 };
        assert(r[i] == s[i2] && r[j] == s[j2]);
    }
    if has_token(s, e.token) {
        let w = choose|w: int| 0 <= w < s.len() && s[w].token == e.token;
        if w < k {
            assert(r[w] == s[w]);
        } else {
            assert(w > k);
            assert(r[w - 1] == s[w]);
        }
    }
}

/// After the token was issued, calls that leave it alone keep it (once, as issued) unless it
/// expired, and keep the table below its bound.
proof fn lemma_token_survives(
    m: ResumeView,
    e: IssuedView,
    peer_key: Seq<u8>,
    peer: DeviceId,
    ops: Seq<TokenOp>,
    until: u64,
)
    requires
        only_as(m.issued, e),
        has_token(m.issued, e.token),
        e.peer_key == peer_key,
        e.peer == peer,
        m.issued.len() + issues_in(ops) <= MAX_TOKENS,
        forall|i: int| 0 <= i < ops.len() ==> leaves_token(#[trigger] ops[i], peer_key, peer, e.token, until),
    ensures
        only_as(apply_ops(m, ops).issued, e),
        has_token(apply_ops(m, ops).issued, e.token) || e.expires <= until,
        apply_ops(m, ops).issued.len() <= m.issued.len() + issues_in(ops),
    decreases ops.len(),
{
    if ops.len() > 0 {
        let p = ops.drop_last();
        assert forall|i: int| 0 <= i < p.len() implies leaves_token(#[trigger] p[i], peer_key, peer, e.token, until) by {
            assert(p[i] == ops[i]);
        }
        lemma_token_survives(m, e, peer_key, peer, p, until);
        let u = apply_ops(m, p);
        let op = ops.last();
        assert(leaves_token(op, peer_key, peer, e.token, until)) by {
            assert(ops[ops.len() - 1] == op);
        }
        match op {
            TokenOp::Issue { peer_key: k2, peer: p2, token: t2, now } => {
                let m1 = pruned(u, now);
                let f1 = |i: IssuedView| now < i.expires;
                lemma_only_as_filter(u.issued, e, f1);
                let f2 = |i: IssuedView| i.peer_key != k2;
                lemma_only_as_filter(m1.issued, e, f2);
                let others = m1.issued.filter(f2);
                assert(others.len() < MAX_TOKENS);
                let f3 = |i: IssuedView| i.token != t2;
                lemma_only_as_filter(others, e, f3);
                let kept = others.filter(f3);
                let n = IssuedView { token: t2, peer_key: k2, peer: p2, expires: sat_add(now, TOKEN_LIFETIME_MS) };
                let r = kept.push(n);
                assert(apply_op(u, op).issued == r);
                assert(only_as(r, e)) by {
                    assert forall|i: int, j: int|
                        0 <= i < r.len() && 0 <= j < r.len() && r[i].token == e.token && r[j].token
                            == e.token implies i == j && r[i] == e by {
                        if i < kept.len() && j < kept.len() {
                            assert(r[i] == kept[i] && r[j] == kept[j]);
                        } else if i < kept.len() {
                            assert(r[j] == n);
                        } else {
                            assert(r[i] == n);
                        }
                    }
                }
                if has_token(u.issued, e.token) && now < e.expires {
                    let w = choose|w: int| 0 <= w < kept.len() && kept[w].token == e.token;
                    assert(r[w] == kept[w]);
                }
            },
            TokenOp::Redeem { peer_key: k2, peer: p2, token: t2, now } => {
                if t2.len() == TOKEN_LEN && has_token(u.issued, t2) {
                    let k = token_index(u.issued, t2);
                    lemma_only_as_remove(u.issued, e, k);
                }
            },
            TokenOp::Hold { .. } => {},
            TokenOp::Forget { peer: p2 } => {
                lemma_only_as_filter(u.issued, e, |i: IssuedView| i.peer != p2);
            },
            TokenOp::Prune { now } => {
                lemma_only_as_filter(u.issued, e, |i: IssuedView| now < i.expires);
            },
        }
    }
}

/// A token is good for one resume, whatever happens in between: issued for `peer_key`, then
/// calls that leave it alone (not reissuing for that key, not presenting it, not forgetting the
/// device, the table never full), then presented at `now` (no earlier than those calls) by
/// `presenter` — it is accepted exactly when the presenter holds the key it was issued to and
/// its lifetime has not run out, and it is gone afterwards either way.
pub proof fn lemma_token_redeemed_after_other_calls(
    m: ResumeView,
    peer_key: Seq<u8>,
    peer: DeviceId,
    token: Seq<u8>,
    issued_at: u64,
    ops: Seq<TokenOp>,
    presenter: Seq<u8>,
    now: u64,
)
    requires
        token.len() == TOKEN_LEN,
        m.issued.len() + 1 + issues_in(ops) <= MAX_TOKENS,
        forall|i: int| 0 <= i < ops.len() ==> leaves_token(#[trigger] ops[i], peer_key, peer, token, now),
    ensures
        ({
            let m1 = apply_ops(issue_step(m, peer_key, peer, token, issued_at), ops);
            let (m2, valid) = redeem_step(m1, presenter, peer, token, now);
            &&& valid == (presenter == peer_key && now < sat_add(issued_at, TOKEN_LIFETIME_MS))
            &&& !has_token(m2.issued, token)
        }),
{
    let e = IssuedView { token, peer_key, peer, expires: sat_add(issued_at, TOKEN_LIFETIME_MS) };
    let m0 = issue_step(m, peer_key, peer, token, issued_at);
    let p0 = pruned(m, issued_at);
    lemma_filter_all(p0.issued, |i: IssuedView| i.peer_key != peer_key);
    let others = p0.issued.filter(|i: IssuedView| i.peer_key != peer_key);
    m.issued.lemma_filter_len(|i: IssuedView| issued_at < i.expires);
    p0.issued.lemma_filter_len(|i: IssuedView| i.peer_key != peer_key);
    let room = if others.len() >= MAX_TOKENS {
        others.remove(soonest_index(others))
    } else {
        others
    };
    if others.len() >= MAX_TOKENS {
        lemma_soonest_in_range(others);
    }
    let kt = |i: IssuedView| i.token != token;
    lemma_filter_all(room, kt);
    room.lemma_filter_len(kt);
    let kept = room.filter(kt);
    assert(m0.issued == kept.push(e));
    assert(only_as(m0.issued, e)) by {
        assert forall|i: int, j: int|
            0 <= i < m0.issued.len() && 0 <= j < m0.issued.len() && m0.issued[i].token == token
                && m0.issued[j].token == token implies i == j && m0.issued[i] == e by {
            if i < kept.len() {
                assert(kt(kept[i]));
            }
            if j < kept.len() {
                assert(kt(kept[j]));
            }
        }
    }
    assert(m0.issued[m0.issued.len() - 1] == e);
    assert(has_token(m0.issued, token));
    lemma_token_survives(m0, e, peer_key, peer, ops, now);
    let m1 = apply_ops(m0, ops);
    if has_token(m1.issued, token) {
        let k = token_index(m1.issued, token);
        assert(m1.issued[k] == e);
        let r = m1.issued.remove(k);
        assert forall|i: int| 0 <= i < r.len() implies r[i].token != token by {
            let i2 = if i < k { i } else { i + 1 };
            assert(r[i] == m1.issued[i2]);
        }
    }
}
} // verus!
