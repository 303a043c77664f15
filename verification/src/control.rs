//! Control messages from a connection: who may say what.
//!
//! A connection that has not identified itself may only ask to pair; a connection in the middle
//! of pairing may only answer the pairing; everything else needs a session with a trusted
//! device. [`control_step`] decides what a message leads to; the shell carries it out.

use vstd::prelude::*;
use crate::error::{EngineError, StopReason};
use crate::net::{is_loopback, loopback, Endpoint};

verus! {

/// What the engine knows of the connection a message came on.
#[derive(Debug, Clone, Copy, PartialEq, Eq, Structural)]
pub enum ConnRole {
    /// Connected, not identified as trusted, no pairing begun.
    Unpaired,
    /// Pairing with `peer`. `qr_scanner`: this device scanned the other's code;
    /// `local_confirmed`: this device's user already accepted.
    Pairing { peer: u128, qr_scanner: bool, local_confirmed: bool },
    /// The session with a trusted device.
    Session(u128),
    /// Nothing known (already closed).
    Unknown,
}

/// The messages these rules tell apart.
#[derive(Debug, Clone, Copy, PartialEq, Eq, Structural)]
pub enum ControlBody {
    PairRequest,
    /// The other side's answer to the pairing.
    PairResult { accepted: bool },
    /// The peer stopped one of its routes with this device.
    RouteStop { route: u8 },
    /// Any other message: it belongs to a session.
    Other,
}

#[derive(Debug, Clone, PartialEq, Eq)]
pub enum ControlAction {
    /// Answer the pairing request (see `pairing::pair_request`).
    HandlePairRequest,
    /// Close this connection.
    Close(StopReason),
    /// The peer refused the pairing: audit it ("peer"), close the pairing with "permission
    /// denied", tell the user.
    PeerRefusedPairing(u128),
    Notice(EngineError),
    /// Note that the peer accepted.
    PeerConfirmed(u128),
    /// Tell the displaying device we accept (this device scanned its code).
    SendPairAccepted,
    /// Both sides accepted: the device becomes trusted and the session starts.
    CompletePairing(u128),
    /// Stop the route the peer stopped, without telling it back.
    StopRoute { peer: u128, route: u8, reason: StopReason, notify: bool },
    /// Handled by the session's own message handlers.
    SessionMessage(u128),
}

/// What a message on a connection in `role` leads to.
pub open spec fn control_spec(role: ConnRole, body: ControlBody) -> Seq<ControlAction> {
    match role {
        ConnRole::Unpaired => if body == ControlBody::PairRequest {
            seq![ControlAction::HandlePairRequest]
        } else {
            seq![ControlAction::Close(StopReason::PermissionDenied)]
        },
        ConnRole::Pairing { peer, qr_scanner, local_confirmed } => match body {
            ControlBody::PairResult { accepted } => if !accepted {
                seq![
                    ControlAction::PeerRefusedPairing(peer),
                    ControlAction::Notice(EngineError::PairingRejected),
                ]
            } else if qr_scanner {
                seq![
                    ControlAction::PeerConfirmed(peer),
                    ControlAction::SendPairAccepted,
                    ControlAction::CompletePairing(peer),
                ]
            } else if local_confirmed {
                seq![ControlAction::PeerConfirmed(peer), ControlAction::CompletePairing(peer)]
            } else {
                seq![ControlAction::PeerConfirmed(peer)]
            },
            _ => Seq::empty(),
        },
        ConnRole::Session(peer) => match body {
            ControlBody::RouteStop { route } => seq![
                ControlAction::StopRoute {
                    peer,
                    route,
                    reason: StopReason::PeerStopped,
                    notify: false,
                },
            ],
            ControlBody::Other => seq![ControlAction::SessionMessage(peer)],
            _ => Seq::empty(),
        },
        ConnRole::Unknown => Seq::empty(),
    }
}

pub fn control_step(role: ConnRole, body: ControlBody) -> (r: Vec<ControlAction>)
    ensures
        r@ == control_spec(role, body),
{
    let mut out: Vec<ControlAction> = Vec::new();
    match role {
        ConnRole::Unpaired => {
            if matches!(body, ControlBody::PairRequest) {
                out.push(ControlAction::HandlePairRequest);
            } else {
                out.push(ControlAction::Close(StopReason::PermissionDenied));
            }
        },
        ConnRole::Pairing { peer, qr_scanner, local_confirmed } => {
            if let ControlBody::PairResult { accepted } = body {
                if !accepted {
                    out.push(ControlAction::PeerRefusedPairing(peer));
                    out.push(ControlAction::Notice(EngineError::PairingRejected));
                } else {
                    out.push(ControlAction::PeerConfirmed(peer));
                    if qr_scanner {
                        out.push(ControlAction::SendPairAccepted);
                        out.push(ControlAction::CompletePairing(peer));
                    } else if local_confirmed {
                        out.push(ControlAction::CompletePairing(peer));
                    }
                }
            }
        },
        ConnRole::Session(peer) => {
            match body {
                ControlBody::RouteStop { route } => {
                    out.push(
                        ControlAction::StopRoute {
                            peer,
                            route,
                            reason: StopReason::PeerStopped,
                            notify: false,
                        },
                    );
                },
                ControlBody::Other => {
                    out.push(ControlAction::SessionMessage(peer));
                },
                _ => {},
            }
        },
        ConnRole::Unknown => {},
    }
    assert(out@ =~= control_spec(role, body));
    out
}

/// Nothing reaches a session from a connection that is not one: an unidentified connection
/// can only ask to pair (anything else closes it), and one that is pairing can only answer the
/// pairing.
pub proof fn lemma_only_sessions_carry_session_messages(role: ConnRole, body: ControlBody)
    requires
        !(role is Session),
    ensures
        forall|i: int|
            0 <= i < control_spec(role, body).len() ==> !(#[trigger] control_spec(role, body)[i] is SessionMessage)
                && !(control_spec(role, body)[i] is StopRoute),
{
}

/// A pairing completes on the peer's answer only when this side has accepted too (or this
/// side scanned the code, whose holder checked it).
pub proof fn lemma_pairing_needs_both(peer: u128, qr_scanner: bool, local_confirmed: bool, body: ControlBody)
    ensures
        control_spec(ConnRole::Pairing { peer, qr_scanner, local_confirmed }, body).contains(
            ControlAction::CompletePairing(peer),
        ) ==> (qr_scanner || local_confirmed) && body == (ControlBody::PairResult { accepted: true }),
{
}

/// A message reaches a session's handlers exactly when it came on that session's connection
/// and is neither a route stop nor a pairing message; it then reaches them once and nothing
/// else happens. A route stop on a session stops that route of that peer, quietly.
pub proof fn lemma_session_messages_are_forwarded(role: ConnRole, body: ControlBody, q: u128)
    ensures
        control_spec(role, body).contains(ControlAction::SessionMessage(q)) <==> role
            == ConnRole::Session(q) && body == ControlBody::Other,
        role == ConnRole::Session(q) && body == ControlBody::Other ==> control_spec(role, body)
            == seq![ControlAction::SessionMessage(q)],
        role == ConnRole::Session(q) && body is RouteStop ==> control_spec(role, body) == seq![
            ControlAction::StopRoute {
                peer: q,
                route: body->route,
                reason: StopReason::PeerStopped,
                notify: false,
            },
        ],
{
    let c = control_spec(role, body);
    if c.contains(ControlAction::SessionMessage(q)) {
        let i = choose|i: int| 0 <= i < c.len() && c[i] == ControlAction::SessionMessage(q);
        assert(c[i] == ControlAction::SessionMessage(q));
    }
    if role == ConnRole::Session(q) && body == ControlBody::Other {
        assert(c[0] == ControlAction::SessionMessage(q));
    }
}

/// What becomes of a device's routes when its session ends.
#[derive(Debug, Clone, Copy, PartialEq, Eq, Structural)]
pub enum RoutesAfterClose {
    /// Stopped for good.
    Removed,
    /// Paused, to resume when the device is back.
    Paused,
}

/// What the engine does when the session with a trusted device closed for `reason`.
#[derive(Debug, Clone, Copy, PartialEq, Eq, Structural)]
pub struct ClosePlan {
    pub routes: RoutesAfterClose,
    /// Stop dialling the device and turn its auto-connect off: it no longer trusts this one.
    pub stop_trying: bool,
    /// Tell the user the peer forgot this device (pair again).
    pub peer_forgot_us: bool,
    /// Count the drop towards flapping.
    pub count_drop: bool,
    /// Dial again with a fresh backoff.
    pub redial: bool,
}

/// The session with a device ended for `reason`; `auto_connect`: the device is trusted with
/// auto-connect on. A refusal by the peer stops everything and the retries; the user stopping
/// it removes its routes; anything else pauses them, counts a drop (unless the connection was
/// replaced on purpose) and redials an auto-connect device.
pub open spec fn close_plan_spec(reason: StopReason, auto_connect: bool) -> ClosePlan {
    if reason == StopReason::PermissionDenied || reason == StopReason::PermissionRevoked {
        ClosePlan {
            routes: RoutesAfterClose::Removed,
            stop_trying: true,
            peer_forgot_us: true,
            count_drop: false,
            redial: false,
        }
    } else if reason == StopReason::UserStopped {
        ClosePlan {
            routes: RoutesAfterClose::Removed,
            stop_trying: false,
            peer_forgot_us: false,
            count_drop: false,
            redial: false,
        }
    } else {
        ClosePlan {
            routes: RoutesAfterClose::Paused,
            stop_trying: false,
            peer_forgot_us: false,
            count_drop: reason != StopReason::Superseded,
            redial: auto_connect,
        }
    }
}

pub fn session_closed(reason: StopReason, auto_connect: bool) -> (r: ClosePlan)
    ensures
        r == close_plan_spec(reason, auto_connect),
{
    match reason {
        StopReason::PermissionDenied | StopReason::PermissionRevoked => ClosePlan {
            routes: RoutesAfterClose::Removed,
            stop_trying: true,
            peer_forgot_us: true,
            count_drop: false,
            redial: false,
        },
        StopReason::UserStopped => ClosePlan {
            routes: RoutesAfterClose::Removed,
            stop_trying: false,
            peer_forgot_us: false,
            count_drop: false,
            redial: false,
        },
        _ => ClosePlan {
            routes: RoutesAfterClose::Paused,
            stop_trying: false,
            peer_forgot_us: false,
            count_drop: !matches!(reason, StopReason::Superseded),
            redial: auto_connect,
        },
    }
}

/// The error the user is told when a pairing connection closed for `reason`, if any.
pub open spec fn pairing_close_notice_spec(reason: StopReason) -> Option<EngineError> {
    if reason == StopReason::PermissionDenied {
        Some(EngineError::PairingRejected)
    } else if reason == StopReason::RateLimited {
        Some(EngineError::PairingRateLimited)
    } else {
        None
    }
}

pub fn pairing_close_notice(reason: StopReason) -> (r: Option<EngineError>)
    ensures
        r == pairing_close_notice_spec(reason),
{
    match reason {
        StopReason::PermissionDenied => Some(EngineError::PairingRejected),
        StopReason::RateLimited => Some(EngineError::PairingRateLimited),
        _ => None,
    }
}

/// A counted drop: a device already held on the Stable profile has its hold renewed; one that
/// starts flapping is put on it, and the user is told (the second result).
pub open spec fn drop_spec(stabilized: bool, flapping: bool) -> (bool, bool) {
    if stabilized {
        (true, false)
    } else {
        (flapping, flapping)
    }
}

/// `(held on Stable from now, tell the user)` after a counted drop.
pub fn counted_drop(stabilized: bool, flapping: bool) -> (r: (bool, bool))
    ensures
        r == drop_spec(stabilized, flapping),
{
    if stabilized {
        (true, false)
    } else {
        (flapping, flapping)
    }
}

/// A refused session never redials: the retries would only repeat the refusal.
pub proof fn lemma_refusal_stops_retries(reason: StopReason, auto_connect: bool)
    requires
        reason == StopReason::PermissionDenied || reason == StopReason::PermissionRevoked,
    ensures
        !close_plan_spec(reason, auto_connect).redial,
        close_plan_spec(reason, auto_connect).stop_trying,
{
}
/// Something the engine's own tasks report.
#[derive(Debug, Clone, PartialEq, Eq)]
pub enum InternalEvent {
    /// A connection arrived (`dialed` false) or a dial connected (`dialed` true).
    Connected { dialed: bool },
    /// A dial failed; `has_target`: it was a dial to a known device (not a pairing dial).
    DialFailed { has_target: bool, error: EngineError },
    /// Discovery saw a device; `dialing`: a dial to it is kept.
    DiscoveryUpdated { dialing: bool },
    DiscoveryLost,
    /// A route's audio device failed; `reopened`: it moved to the system default device.
    AudioFailed { reopened: bool, error: EngineError },
    /// The address typed for pairing resolved to these endpoints.
    PairAddressResolved { addrs: Vec<Endpoint> },
}

/// What the engine does about it.
#[derive(Debug, Clone, PartialEq, Eq)]
pub enum InternalAction {
    /// Run the session handshake on the connection.
    StartSession { dialed: bool },
    /// The trusted device is dialled again after its backoff's next delay.
    ScheduleRedial,
    /// Tell the user.
    Notice(EngineError),
    /// Start the device's backoff over and dial now.
    RetryNow,
    /// Just note the advertisement (or its loss).
    Record,
    /// Nothing more: the route already moved to the default device.
    Nothing,
    /// Tell the user and stop the route ("audio device lost", telling the peer).
    StopRoute(EngineError),
    /// Dial the addresses to pair; `usb_port`: a loopback address's port on a phone (a USB
    /// forward to a computer).
    PairDial { usb_port: Option<u16> },
    /// Answer the pairing request: the address was not usable (`InvalidInput("address")`).
    BadAddress,
}

/// The port of the first loopback endpoint, if any.
pub open spec fn first_loopback_port(addrs: Seq<Endpoint>) -> Option<u16>
    decreases addrs.len(),
{
    if addrs.len() == 0 {
        None
    } else if loopback(addrs[0].ip) {
        Some(addrs[0].port)
    } else {
        first_loopback_port(addrs.drop_first())
    }
}

/// The decision for an internal event: `target_trusted` (the failed dial's device is trusted),
/// `in_flight` (a dial attempt to the discovered device is running), `android` (this device is
/// a phone).
pub open spec fn internal_plan(ev: InternalEvent, target_trusted: bool, in_flight: bool, android: bool) -> InternalAction {
    match ev {
        InternalEvent::Connected { dialed } => InternalAction::StartSession { dialed },
        InternalEvent::DialFailed { has_target, error } => if has_target && target_trusted {
            InternalAction::ScheduleRedial
        } else {
            InternalAction::Notice(error)
        },
        InternalEvent::DiscoveryUpdated { dialing } => if dialing && !in_flight {
            InternalAction::RetryNow
        } else {
            InternalAction::Record
        },
        InternalEvent::DiscoveryLost => InternalAction::Record,
        InternalEvent::AudioFailed { reopened, error } => if reopened {
            InternalAction::Nothing
        } else {
            InternalAction::StopRoute(error)
        },
        InternalEvent::PairAddressResolved { addrs } => if addrs@.len() == 0 {
            InternalAction::BadAddress
        } else {
            InternalAction::PairDial {
                usb_port: if android {
                    first_loopback_port(addrs@)
                } else {
                    None
                },
            }
        },
    }
}

fn loopback_port(addrs: &Vec<Endpoint>) -> (r: Option<u16>)
    ensures
        r == first_loopback_port(addrs@),
{
    let mut i: usize = 0;
    assert(addrs@.subrange(0, addrs@.len() as int) =~= addrs@);
    while i < addrs.len()
        invariant
            i <= addrs@.len(),
            first_loopback_port(addrs@) == first_loopback_port(
                addrs@.subrange(i as int, addrs@.len() as int),
            ),
        decreases addrs@.len() - i,
    {
        let e = addrs[i];
        assert(addrs@.subrange(i as int, addrs@.len() as int)[0] == e);
        if is_loopback(e.ip) {
            return Some(e.port);
        }
        assert(addrs@.subrange(i as int, addrs@.len() as int).drop_first() =~= addrs@.subrange(
            i + 1,
            addrs@.len() as int,
        ));
        i = i + 1;
    }
    None
}

/// See [`internal_plan`].
pub fn internal_step(ev: InternalEvent, target_trusted: bool, in_flight: bool, android: bool) -> (a:
    InternalAction)
    ensures
        a == internal_plan(ev, target_trusted, in_flight, android),
{
    match ev {
        InternalEvent::Connected { dialed } => InternalAction::StartSession { dialed },
        InternalEvent::DialFailed { has_target, error } => if has_target && target_trusted {
            InternalAction::ScheduleRedial
        } else {
            InternalAction::Notice(error)
        },
        InternalEvent::DiscoveryUpdated { dialing } => if dialing && !in_flight {
            InternalAction::RetryNow
        } else {
            InternalAction::Record
        },
        InternalEvent::DiscoveryLost => InternalAction::Record,
        InternalEvent::AudioFailed { reopened, error } => if reopened {
            InternalAction::Nothing
        } else {
            InternalAction::StopRoute(error)
        },
        InternalEvent::PairAddressResolved { addrs } => if addrs.len() == 0 {
            InternalAction::BadAddress
        } else {
            let usb_port = if android {
                loopback_port(&addrs)
            } else {
                None
            };
            InternalAction::PairDial { usb_port }
        },
    }
}
/// A peer that keeps flooding after this many dropped control messages is disconnected.
pub const MAX_DROPPED_CONTROL: u32 = 1000;

/// What becomes of a control message from the peer.
#[derive(Debug, Clone, Copy, PartialEq, Eq, Structural)]
pub enum ControlFate {
    /// Within the rate: handed to the engine.
    Forward,
    /// Over the rate: dropped; `warn` on the first one dropped, so the log says it once.
    Drop { warn: bool },
    /// Still flooding after [`MAX_DROPPED_CONTROL`] dropped messages: close the session.
    Disconnect,
}

/// A control message arrived; `allowed`: the session's rate limit let it through;
/// `dropped`: messages dropped so far. The fate, and the new count.
pub open spec fn flood_spec(allowed: bool, dropped: u32) -> (ControlFate, u32) {
    if allowed {
        (ControlFate::Forward, dropped)
    } else {
        let n: u32 = if dropped == u32::MAX {
            u32::MAX
        } else {
            (dropped + 1) as u32
        };
        if n > MAX_DROPPED_CONTROL {
            (ControlFate::Disconnect, n)
        } else {
            (ControlFate::Drop { warn: n == 1 }, n)
        }
    }
}

pub fn flood_step(allowed: bool, dropped: u32) -> (r: (ControlFate, u32))
    ensures
        r == flood_spec(allowed, dropped),
{
    if allowed {
        (ControlFate::Forward, dropped)
    } else {
        let n = dropped.saturating_add(1);
        if n > MAX_DROPPED_CONTROL {
            (ControlFate::Disconnect, n)
        } else {
            (ControlFate::Drop { warn: n == 1 }, n)
        }
    }
}

/// The fates of messages whose rate-limit answers were `allowed`, in order, from no drops.
pub open spec fn fates(allowed: Seq<bool>) -> (Seq<ControlFate>, u32)
    decreases allowed.len(),
{
    if allowed.len() == 0 {
        (Seq::empty(), 0)
    } else {
        let (f, n) = fates(allowed.drop_last());
        let (g, m) = flood_spec(allowed.last(), n);
        (f.push(g), m)
    }
}

/// Messages refused by the rate limit among `allowed`.
pub open spec fn refused_count(allowed: Seq<bool>) -> nat
    decreases allowed.len(),
{
    if allowed.len() == 0 {
        0
    } else {
        refused_count(allowed.drop_last()) + if allowed.last() { 0nat } else { 1nat }
    }
}

/// A flooding peer is warned about once, on its first dropped message, and disconnected on
/// exactly the message that brings the dropped count past [`MAX_DROPPED_CONTROL`]; messages
/// within the rate always go through.
pub proof fn lemma_flood_cut_off(allowed: Seq<bool>)
    requires
        refused_count(allowed) <= MAX_DROPPED_CONTROL + 1,
    ensures
        fates(allowed).1 == refused_count(allowed),
        fates(allowed).0.len() == allowed.len(),
        forall|k: int|
            0 <= k < allowed.len() ==> {
                let before = refused_count(allowed.subrange(0, k));
                &&& allowed[k] ==> #[trigger] fates(allowed).0[k] == ControlFate::Forward
                &&& !allowed[k] && before + 1 > MAX_DROPPED_CONTROL ==> fates(allowed).0[k]
                    == ControlFate::Disconnect
                &&& !allowed[k] && before + 1 <= MAX_DROPPED_CONTROL ==> fates(allowed).0[k]
                    == (ControlFate::Drop { warn: before == 0 })
            },
    decreases allowed.len(),
{
    if allowed.len() > 0 {
        let p = allowed.drop_last();
        assert(refused_count(p) <= refused_count(allowed));
        lemma_flood_cut_off(p);
        let k0 = allowed.len() - 1;
        assert(allowed.subrange(0, k0) =~= p);
        assert forall|k: int| 0 <= k < allowed.len() implies {
            let before = refused_count(allowed.subrange(0, k));
            &&& allowed[k] ==> #[trigger] fates(allowed).0[k] == ControlFate::Forward
            &&& !allowed[k] && before + 1 > MAX_DROPPED_CONTROL ==> fates(allowed).0[k]
                == ControlFate::Disconnect
            &&& !allowed[k] && before + 1 <= MAX_DROPPED_CONTROL ==> fates(allowed).0[k]
                == (ControlFate::Drop { warn: before == 0 })
        } by {
            if k < k0 {
                assert(allowed.subrange(0, k) =~= p.subrange(0, k));
                assert(allowed[k] == p[k]);
                assert(fates(allowed).0[k] == fates(p).0[k]);
            }
        }
    }
}
} // verus!
