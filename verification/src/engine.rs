//! The engine's once-a-second timeouts.
//!
//! The engine ticks every second; among other work it ends what has waited too long: a route
//! whose start deadline passed, a route paused for more than two minutes that was not asked to
//! keep running, a route request nobody answered in time, a connection that never identified
//! itself, and a pairing left open for more than two minutes. The shell keeps the timers in an
//! [`EngineModel`], asks [`tick_step`] what is due, and carries out the returned actions (stop
//! the route with a timeout and answer its caller, reject the request, close the connection).
//! Times are milliseconds on a monotonic clock.

use vstd::prelude::*;
use crate::pairing_limit::elapsed;

verus! {

/// A paused route that was not asked to keep running stops after this long.
pub const PAUSED_ROUTE_LIMIT_MS: u64 = 120_000;
/// A connection that has not identified itself is closed after this long.
pub const UNPAIRED_LIMIT_MS: u64 = 30_000;
/// A pairing left open is closed after this long.
pub const PAIRING_LIMIT_MS: u64 = 120_000;

/// A route's timers. `key` is the shell's handle for the route.
#[derive(Debug, Clone, Copy, PartialEq, Eq, Structural)]
pub struct RouteTimer {
    pub key: u64,
    /// The route must be running by then (set while it starts).
    pub deadline: Option<u64>,
    pub paused: bool,
    pub keep_running: bool,
    pub paused_at: Option<u64>,
    /// A caller waits for the route to start, and is answered if it times out.
    pub awaiting_reply: bool,
}

/// Something waiting with a time: a route request (`at` is when it expires), a connection that
/// has not identified itself (`at` is when it arrived), a pairing (`at` is when it opened; `id`
/// is the peer's device id).
#[derive(Debug, Clone, Copy, PartialEq, Eq, Structural)]
pub struct Pending {
    pub id: u128,
    pub at: u64,
}

/// What the engine's timeouts read.
#[derive(Debug, Clone)]
pub struct EngineModel {
    pub routes: Vec<RouteTimer>,
    pub requests: Vec<Pending>,
    pub unpaired: Vec<Pending>,
    pub pairings: Vec<Pending>,
}

pub struct EngineModelView {
    pub routes: Seq<RouteTimer>,
    pub requests: Seq<Pending>,
    pub unpaired: Seq<Pending>,
    pub pairings: Seq<Pending>,
}

impl View for EngineModel {
    type V = EngineModelView;

    open spec fn view(&self) -> EngineModelView {
        EngineModelView {
            routes: self.routes@,
            requests: self.requests@,
            unpaired: self.unpaired@,
            pairings: self.pairings@,
        }
    }
}

/// What the shell does for a timeout.
#[derive(Debug, Clone, Copy, PartialEq, Eq, Structural)]
pub enum Action {
    /// Stop the route with the reason "timeout"; answer its waiting caller "unreachable".
    StopRoute { key: u64, answer_unreachable: bool },
    /// Reject the route request with the reason "timeout".
    RejectRequest { id: u128 },
    /// Close the connection that never identified itself, with the reason "timeout".
    CloseUnpaired { id: u128 },
    /// Close the pairing with the peer, with the reason "timeout".
    ClosePairing { id: u128 },
}

/// A route stops at `now`: its deadline passed, or it has been paused for more than
/// [`PAUSED_ROUTE_LIMIT_MS`] without being asked to keep running.
pub open spec fn route_expired(r: RouteTimer, now: u64) -> bool {
    let past_deadline = match r.deadline {
        Some(d) => now > d,
        None => false,
    };
    let paused_too_long = match r.paused_at {
        Some(p) => r.paused && !r.keep_running && elapsed(now, p) > PAUSED_ROUTE_LIMIT_MS,
        None => false,
    };
    past_deadline || paused_too_long
}

/// More than `limit` has passed since `p.at`.
pub open spec fn overdue(p: Pending, now: u64, limit: u64) -> bool {
    elapsed(now, p.at) > limit
}

pub open spec fn stop_action(r: RouteTimer) -> Action {
    Action::StopRoute { key: r.key, answer_unreachable: r.awaiting_reply }
}

/// The model after a tick at `now`, and what the shell must do, in this order: the expired
/// routes, the expired requests, the stale connections, the stale pairings (each in the order
/// the model holds them).
pub open spec fn tick_spec(m: EngineModelView, now: u64) -> (EngineModelView, Seq<Action>) {
    let routes_gone = m.routes.filter(|r: RouteTimer| route_expired(r, now));
    let requests_gone = m.requests.filter(|p: Pending| overdue(p, now, 0));
    let unpaired_gone = m.unpaired.filter(|p: Pending| overdue(p, now, UNPAIRED_LIMIT_MS));
    let pairings_gone = m.pairings.filter(|p: Pending| overdue(p, now, PAIRING_LIMIT_MS));
    (
        EngineModelView {
            routes: m.routes.filter(|r: RouteTimer| !route_expired(r, now)),
            requests: m.requests.filter(|p: Pending| !overdue(p, now, 0)),
            unpaired: m.unpaired.filter(|p: Pending| !overdue(p, now, UNPAIRED_LIMIT_MS)),
            pairings: m.pairings.filter(|p: Pending| !overdue(p, now, PAIRING_LIMIT_MS)),
        },
        routes_gone.map_values(|r: RouteTimer| stop_action(r)) + requests_gone.map_values(
            |p: Pending| Action::RejectRequest { id: p.id },
        ) + unpaired_gone.map_values(|p: Pending| Action::CloseUnpaired { id: p.id })
            + pairings_gone.map_values(|p: Pending| Action::ClosePairing { id: p.id }),
    )
}

fn is_route_expired(r: RouteTimer, now: u64) -> (b: bool)
    ensures
        b == route_expired(r, now),
{
    let past_deadline = match r.deadline {
        Some(d) => now > d,
        None => false,
    };
    let paused_too_long = r.paused && !r.keep_running && match r.paused_at {
        Some(p) => now >= p && now - p > PAUSED_ROUTE_LIMIT_MS,
        None => false,
    };
    past_deadline || paused_too_long
}

fn split_routes(v: &Vec<RouteTimer>, now: u64) -> (r: (Vec<RouteTimer>, Vec<RouteTimer>))
    ensures
        r.0@ == v@.filter(|t: RouteTimer| !route_expired(t, now)),
        r.1@ == v@.filter(|t: RouteTimer| route_expired(t, now)),
{
    let ghost keep = |t: RouteTimer| !route_expired(t, now);
    let ghost gone = |t: RouteTimer| route_expired(t, now);
    let mut kept: Vec<RouteTimer> = Vec::new();
    let mut out: Vec<RouteTimer> = Vec::new();
    let mut i: usize = 0;
    while i < v.len()
        invariant
            i <= v@.len(),
            keep == (|t: RouteTimer| !route_expired(t, now)),
            gone == (|t: RouteTimer| route_expired(t, now)),
            kept@ == v@.subrange(0, i as int).filter(keep),
            out@ == v@.subrange(0, i as int).filter(gone),
        decreases v@.len() - i,
    {
        let t = v[i];
        proof {
            assert(v@.subrange(0, i + 1) =~= v@.subrange(0, i as int).push(t));
            v@.subrange(0, i as int).lemma_filter_push(t, keep);
            v@.subrange(0, i as int).lemma_filter_push(t, gone);
        }
        if is_route_expired(t, now) {
            out.push(t);
        } else {
            kept.push(t);
        }
        i = i + 1;
    }
    assert(v@.subrange(0, v@.len() as int) =~= v@);
    (kept, out)
}

fn split_pending(v: &Vec<Pending>, now: u64, limit: u64) -> (r: (Vec<Pending>, Vec<Pending>))
    ensures
        r.0@ == v@.filter(|p: Pending| !overdue(p, now, limit)),
        r.1@ == v@.filter(|p: Pending| overdue(p, now, limit)),
{
    let ghost keep = |p: Pending| !overdue(p, now, limit);
    let ghost gone = |p: Pending| overdue(p, now, limit);
    let mut kept: Vec<Pending> = Vec::new();
    let mut out: Vec<Pending> = Vec::new();
    let mut i: usize = 0;
    while i < v.len()
        invariant
            i <= v@.len(),
            keep == (|p: Pending| !overdue(p, now, limit)),
            gone == (|p: Pending| overdue(p, now, limit)),
            kept@ == v@.subrange(0, i as int).filter(keep),
            out@ == v@.subrange(0, i as int).filter(gone),
        decreases v@.len() - i,
    {
        let p = v[i];
        proof {
            assert(v@.subrange(0, i + 1) =~= v@.subrange(0, i as int).push(p));
            v@.subrange(0, i as int).lemma_filter_push(p, keep);
            v@.subrange(0, i as int).lemma_filter_push(p, gone);
        }
        if now >= p.at && now - p.at > limit {
            out.push(p);
        } else {
            kept.push(p);
        }
        i = i + 1;
    }
    assert(v@.subrange(0, v@.len() as int) =~= v@);
    (kept, out)
}

/// The pending items' actions of one kind (0: reject a request, 1: close a connection, 2: close
/// a pairing).
pub open spec fn pending_action(kind: u8, p: Pending) -> Action {
    if kind == 0 {
        Action::RejectRequest { id: p.id }
    } else if kind == 1 {
        Action::CloseUnpaired { id: p.id }
    } else {
        Action::ClosePairing { id: p.id }
    }
}

fn push_pending_actions(actions: &mut Vec<Action>, items: &Vec<Pending>, kind: u8)
    ensures
        final(actions)@ == old(actions)@ + items@.map_values(|p: Pending| pending_action(kind, p)),
{
    let ghost start = actions@;
    let mut i: usize = 0;
    while i < items.len()
        invariant
            i <= items@.len(),
            actions@ == start + items@.subrange(0, i as int).map_values(
                |p: Pending| pending_action(kind, p),
            ),
        decreases items@.len() - i,
    {
        let p = items[i];
        let a = if kind == 0 {
            Action::RejectRequest { id: p.id }
        } else if kind == 1 {
            Action::CloseUnpaired { id: p.id }
        } else {
            Action::ClosePairing { id: p.id }
        };
        actions.push(a);
        i = i + 1;
        assert(actions@ =~= start + items@.subrange(0, i as int).map_values(
            |p: Pending| pending_action(kind, p),
        ));
    }
    assert(items@.subrange(0, items@.len() as int) =~= items@);
}

/// One tick at `now`: what has waited too long ends.
pub fn tick_step(state: &EngineModel, now_ms: u64) -> (r: (EngineModel, Vec<Action>))
    ensures
        (r.0@, r.1@) == tick_spec(state@, now_ms),
{
    let (routes, routes_gone) = split_routes(&state.routes, now_ms);
    let (requests, requests_gone) = split_pending(&state.requests, now_ms, 0);
    let (unpaired, unpaired_gone) = split_pending(&state.unpaired, now_ms, UNPAIRED_LIMIT_MS);
    let (pairings, pairings_gone) = split_pending(&state.pairings, now_ms, PAIRING_LIMIT_MS);
    let mut actions: Vec<Action> = Vec::new();
    let mut i: usize = 0;
    while i < routes_gone.len()
        invariant
            i <= routes_gone@.len(),
            actions@ == routes_gone@.subrange(0, i as int).map_values(
                |r: RouteTimer| stop_action(r),
            ),
        decreases routes_gone@.len() - i,
    {
        let t = routes_gone[i];
        actions.push(Action::StopRoute { key: t.key, answer_unreachable: t.awaiting_reply });
        i = i + 1;
        assert(actions@ =~= routes_gone@.subrange(0, i as int).map_values(
            |r: RouteTimer| stop_action(r),
        ));
    }
    assert(routes_gone@.subrange(0, routes_gone@.len() as int) =~= routes_gone@);
    let ghost a1 = actions@;
    push_pending_actions(&mut actions, &requests_gone, 0);
    let ghost a2 = actions@;
    push_pending_actions(&mut actions, &unpaired_gone, 1);
    let ghost a3 = actions@;
    push_pending_actions(&mut actions, &pairings_gone, 2);
    proof {
        let s = tick_spec(state@, now_ms);
        assert(requests_gone@.map_values(|p: Pending| pending_action(0, p)) =~= requests_gone@.map_values(
            |p: Pending| Action::RejectRequest { id: p.id },
        ));
        assert(unpaired_gone@.map_values(|p: Pending| pending_action(1, p)) =~= unpaired_gone@.map_values(
            |p: Pending| Action::CloseUnpaired { id: p.id },
        ));
        assert(pairings_gone@.map_values(|p: Pending| pending_action(2, p)) =~= pairings_gone@.map_values(
            |p: Pending| Action::ClosePairing { id: p.id },
        ));
        assert(actions@ =~= s.1);
    }
    (EngineModel { routes, requests, unpaired, pairings }, actions)
}

/// After a tick nothing overdue is left: every route still held has neither passed its
/// deadline nor been paused too long, and every request, connection and pairing still held is
/// within its time. Whatever was dropped got its action.
pub proof fn lemma_tick_leaves_nothing_overdue(m: EngineModelView, now: u64)
    ensures
        forall|i: int|
            0 <= i < tick_spec(m, now).0.routes.len() ==> !route_expired(
                #[trigger] tick_spec(m, now).0.routes[i],
                now,
            ),
        forall|i: int|
            0 <= i < tick_spec(m, now).0.pairings.len() ==> !overdue(
                #[trigger] tick_spec(m, now).0.pairings[i],
                now,
                PAIRING_LIMIT_MS,
            ),
        forall|i: int|
            0 <= i < tick_spec(m, now).0.unpaired.len() ==> !overdue(
                #[trigger] tick_spec(m, now).0.unpaired[i],
                now,
                UNPAIRED_LIMIT_MS,
            ),
        forall|i: int|
            0 <= i < tick_spec(m, now).0.requests.len() ==> !overdue(
                #[trigger] tick_spec(m, now).0.requests[i],
                now,
                0,
            ),
        forall|i: int|
            0 <= i < m.routes.len() && route_expired(#[trigger] m.routes[i], now)
                ==> tick_spec(m, now).1.contains(stop_action(m.routes[i])),
{
    let kr = |r: RouteTimer| !route_expired(r, now);
    let gr = |r: RouteTimer| route_expired(r, now);
    broadcast use Seq::lemma_filter_pred;
    assert forall|i: int| 0 <= i < m.routes.len() && route_expired(#[trigger] m.routes[i], now)
        implies tick_spec(m, now).1.contains(stop_action(m.routes[i])) by {
        m.routes.lemma_filter_contains(gr, i);
        let g = m.routes.filter(gr);
        let j = choose|j: int| 0 <= j < g.len() && g[j] == m.routes[i];
        let acts = tick_spec(m, now).1;
        let first = g.map_values(|r: RouteTimer| stop_action(r));
        assert(acts[j] == first[j]);
    }
}

} // verus!
