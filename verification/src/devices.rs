//! The user's commands about devices: connect, disconnect, forget, block, auto-connect,
//! permissions, pairing mode, network changes and going to the background.
//!
//! The engine keeps the trusted devices, the open sessions, the devices being dialled and the
//! routes; [`command_step`] decides what a command does to them and which actions the shell
//! carries out (dial, close a session, stop a route, write the audit log, ...). Device ids are
//! the 128-bit values of their 16 bytes.

use vstd::prelude::*;
use crate::audit::{AuditKind, PermissionKind, Policy};
use crate::error::{EngineError, StopReason};
use crate::state::{route_is_mic, route_local_is_source, RouteKind};

verus! {

/// What a trusted device may do with this one.
#[derive(Debug, Clone, Copy, PartialEq, Eq, Structural)]
pub struct Permissions {
    pub receive_my_audio: Policy,
    pub use_my_microphone: Policy,
    pub send_audio_to_me: Policy,
    pub control_me: Policy,
}

pub open spec fn policy_of(p: Permissions, kind: PermissionKind) -> Policy {
    match kind {
        PermissionKind::ReceiveMyAudio => p.receive_my_audio,
        PermissionKind::UseMyMicrophone => p.use_my_microphone,
        PermissionKind::SendAudioToMe => p.send_audio_to_me,
        PermissionKind::ControlMe => p.control_me,
    }
}

pub open spec fn with_policy(p: Permissions, kind: PermissionKind, policy: Policy) -> Permissions {
    match kind {
        PermissionKind::ReceiveMyAudio => Permissions { receive_my_audio: policy, ..p },
        PermissionKind::UseMyMicrophone => Permissions { use_my_microphone: policy, ..p },
        PermissionKind::SendAudioToMe => Permissions { send_audio_to_me: policy, ..p },
        PermissionKind::ControlMe => Permissions { control_me: policy, ..p },
    }
}

/// A paired device.
#[derive(Debug, Clone, Copy, PartialEq, Eq, Structural)]
pub struct TrustedDevice {
    pub id: u128,
    pub auto_connect: bool,
    pub blocked: bool,
    pub permissions: Permissions,
}

/// A route, as these commands see it.
#[derive(Debug, Clone, Copy, PartialEq, Eq, Structural)]
pub struct RouteRef {
    /// The shell's handle for the route.
    pub key: u64,
    pub peer: u128,
    pub kind: RouteKind,
    /// This device asked for the route (rather than granting the peer's request).
    pub requested_locally: bool,
    /// The route is running (not starting, paused or stopped).
    pub active: bool,
    /// "Keep running after restart" is on.
    pub keep_running: bool,
}

/// A route saved to start again after a restart.
#[derive(Debug, Clone, Copy, PartialEq, Eq, Structural)]
pub struct SavedRouteRef {
    pub peer: u128,
    pub kind: RouteKind,
    /// Chosen explicitly ("Keep running"), rather than saved by "Resume streams after restart".
    pub keep: bool,
}

/// What the device commands read and change.
#[derive(Debug, Clone)]
pub struct DeviceModel {
    pub trusted: Vec<TrustedDevice>,
    /// Devices with an open session.
    pub sessions: Vec<u128>,
    /// Devices being dialled.
    pub dials: Vec<u128>,
    pub routes: Vec<RouteRef>,
    /// The pairing QR code is shown (pairing mode).
    pub qr_open: bool,
    pub foreground: bool,
    pub saved_routes: Vec<SavedRouteRef>,
    /// The "Resume streams after restart" setting.
    pub resume_routes_on_start: bool,
    /// The app says the device can afford uncompressed audio now.
    pub prefer_lossless: bool,
    /// Ids of the notices shown.
    pub notices: Vec<u64>,
}

pub struct DeviceModelView {
    pub trusted: Seq<TrustedDevice>,
    pub sessions: Seq<u128>,
    pub dials: Seq<u128>,
    pub routes: Seq<RouteRef>,
    pub qr_open: bool,
    pub foreground: bool,
    pub saved_routes: Seq<SavedRouteRef>,
    pub resume_routes_on_start: bool,
    pub prefer_lossless: bool,
    pub notices: Seq<u64>,
}

impl View for DeviceModel {
    type V = DeviceModelView;

    open spec fn view(&self) -> DeviceModelView {
        DeviceModelView {
            trusted: self.trusted@,
            sessions: self.sessions@,
            dials: self.dials@,
            routes: self.routes@,
            qr_open: self.qr_open,
            foreground: self.foreground,
            saved_routes: self.saved_routes@,
            resume_routes_on_start: self.resume_routes_on_start,
            prefer_lossless: self.prefer_lossless,
            notices: self.notices@,
        }
    }
}

#[derive(Debug, Clone, Copy, PartialEq, Eq, Structural)]
pub enum Command {
    Connect(u128),
    Disconnect(u128),
    Forget(u128),
    SetBlocked(u128, bool),
    SetAutoConnect(u128, bool),
    SetPermission(u128, PermissionKind, Policy),
    StopPairing,
    NetworkChanged,
    SetForeground(bool),
    /// "Keep running after restart" for the route with this key.
    SetRouteKeepRunning(u64, bool),
    PreferLossless(bool),
    DismissNotice(u64),
}

/// What the shell carries out, in order.
#[derive(Debug, Clone, PartialEq, Eq)]
pub enum Action {
    /// Dial the trusted device now, with a fresh backoff.
    Dial(u128),
    /// Start the backoff of the device's dial over.
    ResetBackoff(u128),
    /// Every dial starts its backoff over and retries now.
    ResetAllBackoffs,
    /// Abort a dial attempt in flight.
    CancelDial(u128),
    CloseSession(u128, StopReason),
    /// Stop the route; `notify`: tell the peer.
    StopRoute { key: u64, reason: StopReason, notify: bool },
    /// End a running network test with the peer with this error.
    EndNetworkTest(u128, EngineError),
    /// Forget the resume tokens and grants of the device.
    ForgetResume(u128),
    Audit(AuditKind, u128),
    AuditPermission(u128, PermissionKind, Policy),
    /// Drop the device's profile and saved routes from the settings (saving them if that
    /// changed anything).
    DropDeviceSettings(u128),
    /// Re-announce this device (pairing mode changed, or the network did).
    UpdateDiscovery,
    RefreshLocalAddresses,
    /// Write the trust store now: a backgrounded phone app may be killed without warning.
    FlushTrust,
    SaveSettings,
    /// Propose the route's profile again ("Auto" quality resolves differently now).
    ReconfigureRoute(u64),
}

/// Every id but `id`.
pub open spec fn other_than(id: u128) -> spec_fn(u128) -> bool {
    |d: u128| d != id
}

/// The (first) trusted entry of `id`.
pub open spec fn trusted_lookup(s: Seq<TrustedDevice>, id: u128) -> Option<TrustedDevice>
    decreases s.len(),
{
    if s.len() == 0 {
        None
    } else if s[0].id == id {
        Some(s[0])
    } else {
        trusted_lookup(s.drop_first(), id)
    }
}

/// A change to a trusted device's entry.
#[derive(Debug, Clone, Copy, PartialEq, Eq, Structural)]
pub enum TrustEdit {
    AutoConnect(bool),
    Blocked(bool),
    Permission(PermissionKind, Policy),
}

pub open spec fn edited(e: TrustEdit, d: TrustedDevice) -> TrustedDevice {
    match e {
        TrustEdit::AutoConnect(on) => TrustedDevice { auto_connect: on, ..d },
        TrustEdit::Blocked(b) => TrustedDevice { blocked: b, ..d },
        TrustEdit::Permission(kind, policy) => TrustedDevice {
            permissions: with_policy(d.permissions, kind, policy),
            ..d
        },
    }
}

/// The trusted devices with the entries of `id` changed by `e`.
pub open spec fn edit_trusted(s: Seq<TrustedDevice>, id: u128, e: TrustEdit) -> Seq<TrustedDevice> {
    s.map_values(|d: TrustedDevice| if d.id == id { edited(e, d) } else { d })
}

/// The (first) route with this key.
pub open spec fn route_lookup(s: Seq<RouteRef>, key: u64) -> Option<RouteRef>
    decreases s.len(),
{
    if s.len() == 0 {
        None
    } else if s[0].key == key {
        Some(s[0])
    } else {
        route_lookup(s.drop_first(), key)
    }
}

pub open spec fn not_saved_as(peer: u128, kind: RouteKind) -> spec_fn(SavedRouteRef) -> bool {
    |x: SavedRouteRef| !(x.peer == peer && x.kind == kind)
}

pub open spec fn reconfigured(r: RouteRef) -> bool {
    r.active && r.requested_locally
}

/// The permission a route with the peer depends on.
pub open spec fn route_permission(kind: RouteKind) -> PermissionKind {
    if route_local_is_source(kind) {
        if route_is_mic(kind) {
            PermissionKind::UseMyMicrophone
        } else {
            PermissionKind::ReceiveMyAudio
        }
    } else {
        PermissionKind::SendAudioToMe
    }
}

pub open spec fn of_peer(r: RouteRef, id: u128) -> bool {
    r.peer == id
}

/// A route the peer asked for that `perms` now deny.
pub open spec fn denied(r: RouteRef, id: u128, perms: Permissions) -> bool {
    r.peer == id && !r.requested_locally && policy_of(perms, route_permission(r.kind))
        == Policy::Deny
}

pub open spec fn stop_quietly(r: RouteRef) -> Action {
    Action::StopRoute { key: r.key, reason: StopReason::Unspecified, notify: false }
}

pub open spec fn stop_revoked(r: RouteRef) -> Action {
    Action::StopRoute { key: r.key, reason: StopReason::PermissionRevoked, notify: true }
}

/// Everything of `id` ends: its routes (quietly), its dial, its resume tokens, a running
/// network test (with `Revoked`), its session (with `PermissionRevoked`).
pub open spec fn revoke_spec(m: DeviceModelView, id: u128) -> (DeviceModelView, Seq<Action>) {
    (
        DeviceModelView {
            routes: m.routes.filter(|r: RouteRef| !of_peer(r, id)),
            dials: m.dials.filter(other_than(id)),
            sessions: m.sessions.filter(other_than(id)),
            ..m
        },
        m.routes.filter(|r: RouteRef| of_peer(r, id)).map_values(|r: RouteRef| stop_quietly(r))
            + seq![
            Action::CancelDial(id),
            Action::ForgetResume(id),
            Action::EndNetworkTest(id, EngineError::Revoked),
        ] + if m.sessions.contains(id) {
            seq![Action::CloseSession(id, StopReason::PermissionRevoked)]
        } else {
            Seq::empty()
        },
    )
}

/// What a command does.
pub open spec fn command_spec(m: DeviceModelView, cmd: Command) -> (DeviceModelView, Seq<Action>) {
    match cmd {
        Command::Connect(id) => {
            let dials = if m.dials.contains(id) { m.dials } else { m.dials.push(id) };
            let dial_now = !m.sessions.contains(id) && match trusted_lookup(m.trusted, id) {
                Some(d) => !d.blocked,
                None => false,
            };
            (
                DeviceModelView { dials, ..m },
                seq![Action::ResetBackoff(id)] + if dial_now {
                    seq![Action::Dial(id)]
                } else {
                    Seq::empty()
                },
            )
        },
        Command::Disconnect(id) => (
            DeviceModelView {
                dials: m.dials.filter(other_than(id)),
                sessions: m.sessions.filter(other_than(id)),
                routes: m.routes.filter(|r: RouteRef| !of_peer(r, id)),
                trusted: edit_trusted(m.trusted, id, TrustEdit::AutoConnect(false)),
                ..m
            },
            seq![Action::CancelDial(id)] + (if m.sessions.contains(id) {
                seq![Action::CloseSession(id, StopReason::UserStopped)]
            } else {
                Seq::empty()
            }) + m.routes.filter(|r: RouteRef| of_peer(r, id)).map_values(
                |r: RouteRef| stop_quietly(r),
            ) + seq![Action::EndNetworkTest(id, EngineError::Unreachable)],
        ),
        Command::Forget(id) => {
            let (m1, acts) = revoke_spec(m, id);
            (
                DeviceModelView {
                    trusted: m1.trusted.filter(|d: TrustedDevice| d.id != id),
                    ..m1
                },
                acts + (if trusted_lookup(m.trusted, id) is Some {
                    seq![Action::Audit(AuditKind::DeviceForgotten, id)]
                } else {
                    Seq::empty()
                }) + seq![Action::DropDeviceSettings(id)],
            )
        },
        Command::SetBlocked(id, blocked) => {
            let m0 = DeviceModelView {
                trusted: edit_trusted(m.trusted, id, TrustEdit::Blocked(blocked)),
                ..m
            };
            let (m1, acts) = if blocked {
                revoke_spec(m0, id)
            } else {
                (m0, Seq::empty())
            };
            (
                m1,
                acts + if trusted_lookup(m.trusted, id) is Some {
                    seq![
                        Action::Audit(
                            if blocked {
                                AuditKind::DeviceBlocked
                            } else {
                                AuditKind::DeviceUnblocked
                            },
                            id,
                        ),
                    ]
                } else {
                    Seq::empty()
                },
            )
        },
        Command::SetAutoConnect(id, enabled) => (
            DeviceModelView {
                trusted: edit_trusted(m.trusted, id, TrustEdit::AutoConnect(enabled)),
                ..m
            },
            Seq::empty(),
        ),
        Command::SetPermission(id, kind, policy) => {
            let trusted = edit_trusted(m.trusted, id, TrustEdit::Permission(kind, policy));
            let audit = if trusted_lookup(m.trusted, id) is Some {
                seq![Action::AuditPermission(id, kind, policy)]
            } else {
                Seq::empty()
            };
            if policy == Policy::Deny && trusted_lookup(m.trusted, id) is Some {
                let perms = trusted_lookup(trusted, id)->0.permissions;
                (
                    DeviceModelView {
                        trusted,
                        routes: m.routes.filter(|r: RouteRef| !denied(r, id, perms)),
                        ..m
                    },
                    audit + m.routes.filter(|r: RouteRef| denied(r, id, perms)).map_values(
                        |r: RouteRef| stop_revoked(r),
                    ),
                )
            } else {
                (DeviceModelView { trusted, ..m }, audit)
            }
        },
        Command::StopPairing => (
            DeviceModelView { qr_open: false, ..m },
            seq![Action::UpdateDiscovery],
        ),
        Command::NetworkChanged => (
            m,
            seq![Action::ResetAllBackoffs, Action::RefreshLocalAddresses, Action::UpdateDiscovery],
        ),
        Command::SetForeground(foreground) => (
            DeviceModelView { foreground, ..m },
            if foreground {
                Seq::empty()
            } else {
                seq![Action::FlushTrust]
            },
        ),
        Command::SetRouteKeepRunning(key, keep) => match route_lookup(m.routes, key) {
            Some(r) => {
                let kept = m.saved_routes.filter(not_saved_as(r.peer, r.kind));
                let auto = r.requested_locally && m.resume_routes_on_start;
                (
                    DeviceModelView {
                        routes: m.routes.map_values(
                            |x: RouteRef| if x.key == key { RouteRef { keep_running: keep, ..x } } else { x },
                        ),
                        saved_routes: if keep || auto {
                            kept.push(SavedRouteRef { peer: r.peer, kind: r.kind, keep })
                        } else {
                            kept
                        },
                        ..m
                    },
                    seq![Action::SaveSettings],
                )
            },
            None => (m, Seq::empty()),
        },
        Command::PreferLossless(prefer) => if prefer == m.prefer_lossless {
            (m, Seq::empty())
        } else {
            (
                DeviceModelView { prefer_lossless: prefer, ..m },
                m.routes.filter(|r: RouteRef| reconfigured(r)).map_values(
                    |r: RouteRef| Action::ReconfigureRoute(r.key),
                ),
            )
        },
        Command::DismissNotice(id) => (
            DeviceModelView { notices: m.notices.filter(|n: u64| n != id), ..m },
            Seq::empty(),
        ),
    }
}

fn lookup_trusted(v: &Vec<TrustedDevice>, id: u128) -> (r: Option<TrustedDevice>)
    ensures
        r == trusted_lookup(v@, id),
{
    let mut i: usize = 0;
    assert(v@.subrange(0, v@.len() as int) =~= v@);
    while i < v.len()
        invariant
            i <= v@.len(),
            trusted_lookup(v@, id) == trusted_lookup(v@.subrange(i as int, v@.len() as int), id),
        decreases v@.len() - i,
    {
        let d = v[i];
        assert(v@.subrange(i as int, v@.len() as int)[0] == d);
        if d.id == id {
            return Some(d);
        }
        assert(v@.subrange(i as int, v@.len() as int).drop_first() =~= v@.subrange(
            i + 1,
            v@.len() as int,
        ));
        i = i + 1;
    }
    None
}

fn edit_entries(v: &Vec<TrustedDevice>, id: u128, e: TrustEdit) -> (r: Vec<TrustedDevice>)
    ensures
        r@ == edit_trusted(v@, id, e),
{
    let mut out: Vec<TrustedDevice> = Vec::new();
    let mut i: usize = 0;
    while i < v.len()
        invariant
            i <= v@.len(),
            out@ == edit_trusted(v@.subrange(0, i as int), id, e),
        decreases v@.len() - i,
    {
        let d = v[i];
        let n = if d.id == id {
            match e {
                TrustEdit::AutoConnect(on) => TrustedDevice { auto_connect: on, ..d },
                TrustEdit::Blocked(b) => TrustedDevice { blocked: b, ..d },
                TrustEdit::Permission(kind, policy) => {
                    let p = d.permissions;
                    let permissions = match kind {
                        PermissionKind::ReceiveMyAudio => Permissions { receive_my_audio: policy, ..p },
                        PermissionKind::UseMyMicrophone => Permissions {
                            use_my_microphone: policy,
                            ..p
                        },
                        PermissionKind::SendAudioToMe => Permissions { send_audio_to_me: policy, ..p },
                        PermissionKind::ControlMe => Permissions { control_me: policy, ..p },
                    };
                    TrustedDevice { permissions, ..d }
                },
            }
        } else {
            d
        };
        out.push(n);
        i = i + 1;
        assert(out@ =~= edit_trusted(v@.subrange(0, i as int), id, e));
    }
    assert(v@.subrange(0, v@.len() as int) =~= v@);
    out
}

fn without_trusted(v: &Vec<TrustedDevice>, id: u128) -> (r: Vec<TrustedDevice>)
    ensures
        r@ == v@.filter(|d: TrustedDevice| d.id != id),
{
    let ghost keep = |d: TrustedDevice| d.id != id;
    let mut out: Vec<TrustedDevice> = Vec::new();
    let mut i: usize = 0;
    while i < v.len()
        invariant
            i <= v@.len(),
            keep == (|d: TrustedDevice| d.id != id),
            out@ == v@.subrange(0, i as int).filter(keep),
        decreases v@.len() - i,
    {
        let d = v[i];
        proof {
            assert(v@.subrange(0, i + 1) =~= v@.subrange(0, i as int).push(d));
            v@.subrange(0, i as int).lemma_filter_push(d, keep);
        }
        if d.id != id {
            out.push(d);
        }
        i = i + 1;
    }
    assert(v@.subrange(0, v@.len() as int) =~= v@);
    out
}

fn without_id(v: &Vec<u128>, id: u128) -> (r: Vec<u128>)
    ensures
        r@ == v@.filter(other_than(id)),
{
    let ghost keep = other_than(id);
    let mut out: Vec<u128> = Vec::new();
    let mut i: usize = 0;
    while i < v.len()
        invariant
            i <= v@.len(),
            keep == other_than(id),
            out@ == v@.subrange(0, i as int).filter(keep),
        decreases v@.len() - i,
    {
        let d = v[i];
        proof {
            assert(v@.subrange(0, i + 1) =~= v@.subrange(0, i as int).push(d));
            v@.subrange(0, i as int).lemma_filter_push(d, keep);
        }
        if d != id {
            out.push(d);
        }
        i = i + 1;
    }
    assert(v@.subrange(0, v@.len() as int) =~= v@);
    out
}

fn has_id(v: &Vec<u128>, id: u128) -> (r: bool)
    ensures
        r == v@.contains(id),
{
    let mut i: usize = 0;
    while i < v.len()
        invariant
            i <= v@.len(),
            forall|j: int| 0 <= j < i ==> v@[j] != id,
        decreases v@.len() - i,
    {
        if v[i] == id {
            return true;
        }
        i = i + 1;
    }
    false
}

/// Which routes a command stops.
#[derive(Debug, Clone, Copy)]
enum RouteCut {
    OfPeer(u128),
    Denied(u128, Permissions),
}

spec fn cut(c: RouteCut, r: RouteRef) -> bool {
    match c {
        RouteCut::OfPeer(id) => of_peer(r, id),
        RouteCut::Denied(id, perms) => denied(r, id, perms),
    }
}

fn route_permission_of(kind: RouteKind) -> (k: PermissionKind)
    ensures
        k == route_permission(kind),
{
    if kind.local_is_source() {
        if kind.is_mic() {
            PermissionKind::UseMyMicrophone
        } else {
            PermissionKind::ReceiveMyAudio
        }
    } else {
        PermissionKind::SendAudioToMe
    }
}

fn policy_for(p: Permissions, kind: PermissionKind) -> (r: Policy)
    ensures
        r == policy_of(p, kind),
{
    match kind {
        PermissionKind::ReceiveMyAudio => p.receive_my_audio,
        PermissionKind::UseMyMicrophone => p.use_my_microphone,
        PermissionKind::SendAudioToMe => p.send_audio_to_me,
        PermissionKind::ControlMe => p.control_me,
    }
}

fn is_cut(c: RouteCut, r: RouteRef) -> (b: bool)
    ensures
        b == cut(c, r),
{
    match c {
        RouteCut::OfPeer(id) => r.peer == id,
        RouteCut::Denied(id, perms) => r.peer == id && !r.requested_locally && matches!(
            policy_for(perms, route_permission_of(r.kind)),
            Policy::Deny
        ),
    }
}

fn split_routes(v: &Vec<RouteRef>, c: RouteCut) -> (r: (Vec<RouteRef>, Vec<RouteRef>))
    ensures
        r.0@ == v@.filter(|x: RouteRef| !cut(c, x)),
        r.1@ == v@.filter(|x: RouteRef| cut(c, x)),
{
    let ghost keep = |x: RouteRef| !cut(c, x);
    let ghost gone = |x: RouteRef| cut(c, x);
    let mut kept: Vec<RouteRef> = Vec::new();
    let mut out: Vec<RouteRef> = Vec::new();
    let mut i: usize = 0;
    while i < v.len()
        invariant
            i <= v@.len(),
            keep == (|x: RouteRef| !cut(c, x)),
            gone == (|x: RouteRef| cut(c, x)),
            kept@ == v@.subrange(0, i as int).filter(keep),
            out@ == v@.subrange(0, i as int).filter(gone),
        decreases v@.len() - i,
    {
        let x = v[i];
        proof {
            assert(v@.subrange(0, i + 1) =~= v@.subrange(0, i as int).push(x));
            v@.subrange(0, i as int).lemma_filter_push(x, keep);
            v@.subrange(0, i as int).lemma_filter_push(x, gone);
        }
        if is_cut(c, x) {
            out.push(x);
        } else {
            kept.push(x);
        }
        i = i + 1;
    }
    assert(v@.subrange(0, v@.len() as int) =~= v@);
    (kept, out)
}

spec fn stop_of(revoked: bool, r: RouteRef) -> Action {
    if revoked {
        stop_revoked(r)
    } else {
        stop_quietly(r)
    }
}

fn push_stops(actions: &mut Vec<Action>, routes: &Vec<RouteRef>, revoked: bool)
    ensures
        final(actions)@ == old(actions)@ + routes@.map_values(|r: RouteRef| stop_of(revoked, r)),
{
    let ghost start = actions@;
    let mut i: usize = 0;
    while i < routes.len()
        invariant
            i <= routes@.len(),
            actions@ == start + routes@.subrange(0, i as int).map_values(
                |r: RouteRef| stop_of(revoked, r),
            ),
        decreases routes@.len() - i,
    {
        let r = routes[i];
        let a = if revoked {
            Action::StopRoute { key: r.key, reason: StopReason::PermissionRevoked, notify: true }
        } else {
            Action::StopRoute { key: r.key, reason: StopReason::Unspecified, notify: false }
        };
        actions.push(a);
        i = i + 1;
        assert(actions@ =~= start + routes@.subrange(0, i as int).map_values(
            |r: RouteRef| stop_of(revoked, r),
        ));
    }
    assert(routes@.subrange(0, routes@.len() as int) =~= routes@);
}

proof fn lemma_stops_quiet(s: Seq<RouteRef>)
    ensures
        s.map_values(|r: RouteRef| stop_of(false, r)) == s.map_values(|r: RouteRef| stop_quietly(r)),
        s.map_values(|r: RouteRef| stop_of(true, r)) == s.map_values(|r: RouteRef| stop_revoked(r)),
{
    assert(s.map_values(|r: RouteRef| stop_of(false, r)) =~= s.map_values(
        |r: RouteRef| stop_quietly(r),
    ));
    assert(s.map_values(|r: RouteRef| stop_of(true, r)) =~= s.map_values(
        |r: RouteRef| stop_revoked(r),
    ));
}

fn revoke(m: DeviceModel, id: u128) -> (r: (DeviceModel, Vec<Action>))
    ensures
        (r.0@, r.1@) == revoke_spec(m@, id),
{
    let (routes, gone) = split_routes(&m.routes, RouteCut::OfPeer(id));
    let mut actions: Vec<Action> = Vec::new();
    push_stops(&mut actions, &gone, false);
    actions.push(Action::CancelDial(id));
    actions.push(Action::ForgetResume(id));
    actions.push(Action::EndNetworkTest(id, EngineError::Revoked));
    let had_session = has_id(&m.sessions, id);
    if had_session {
        actions.push(Action::CloseSession(id, StopReason::PermissionRevoked));
    }
    let dials = without_id(&m.dials, id);
    let sessions = without_id(&m.sessions, id);
    proof {
        lemma_stops_quiet(gone@);
        assert((|x: RouteRef| !cut(RouteCut::OfPeer(id), x)) =~= (|r: RouteRef| !of_peer(r, id)));
        assert((|x: RouteRef| cut(RouteCut::OfPeer(id), x)) =~= (|r: RouteRef| of_peer(r, id)));
        let spec = revoke_spec(m@, id);
        assert(routes@ == m@.routes.filter(|r: RouteRef| !of_peer(r, id)));
        assert(gone@ == m@.routes.filter(|r: RouteRef| of_peer(r, id)));
        assert(actions@ =~= spec.1);
        assert(dials@ == spec.0.dials);
        assert(sessions@ == spec.0.sessions);
    }
    let r = DeviceModel { routes, dials, sessions, ..m };
    assert(r@.routes == revoke_spec(m@, id).0.routes);
    assert(r@.trusted == revoke_spec(m@, id).0.trusted);
    (r, actions)
}

fn copy_vec<T: Copy>(v: &Vec<T>) -> (r: Vec<T>)
    ensures
        r@ == v@,
{
    let mut out: Vec<T> = Vec::new();
    let mut i: usize = 0;
    while i < v.len()
        invariant
            i <= v@.len(),
            out@ == v@.subrange(0, i as int),
        decreases v@.len() - i,
    {
        out.push(v[i]);
        i = i + 1;
        assert(out@ =~= v@.subrange(0, i as int));
    }
    assert(v@.subrange(0, v@.len() as int) =~= v@);
    out
}

fn copy_model(m: &DeviceModel) -> (r: DeviceModel)
    ensures
        r@ == m@,
{
    DeviceModel {
        trusted: copy_vec(&m.trusted),
        sessions: copy_vec(&m.sessions),
        dials: copy_vec(&m.dials),
        routes: copy_vec(&m.routes),
        qr_open: m.qr_open,
        foreground: m.foreground,
        saved_routes: copy_vec(&m.saved_routes),
        resume_routes_on_start: m.resume_routes_on_start,
        prefer_lossless: m.prefer_lossless,
        notices: copy_vec(&m.notices),
    }
}

fn lookup_route(v: &Vec<RouteRef>, key: u64) -> (r: Option<RouteRef>)
    ensures
        r == route_lookup(v@, key),
{
    let mut i: usize = 0;
    assert(v@.subrange(0, v@.len() as int) =~= v@);
    while i < v.len()
        invariant
            i <= v@.len(),
            route_lookup(v@, key) == route_lookup(v@.subrange(i as int, v@.len() as int), key),
        decreases v@.len() - i,
    {
        let d = v[i];
        assert(v@.subrange(i as int, v@.len() as int)[0] == d);
        if d.key == key {
            return Some(d);
        }
        assert(v@.subrange(i as int, v@.len() as int).drop_first() =~= v@.subrange(
            i + 1,
            v@.len() as int,
        ));
        i = i + 1;
    }
    None
}

fn set_keep_running(v: &Vec<RouteRef>, key: u64, keep: bool) -> (r: Vec<RouteRef>)
    ensures
        r@ == v@.map_values(
            |x: RouteRef| if x.key == key { RouteRef { keep_running: keep, ..x } } else { x },
        ),
{
    let ghost f = |x: RouteRef| if x.key == key { RouteRef { keep_running: keep, ..x } } else { x };
    let mut out: Vec<RouteRef> = Vec::new();
    let mut i: usize = 0;
    while i < v.len()
        invariant
            i <= v@.len(),
            f == (|x: RouteRef| if x.key == key { RouteRef { keep_running: keep, ..x } } else { x }),
            out@ == v@.subrange(0, i as int).map_values(f),
        decreases v@.len() - i,
    {
        let x = v[i];
        out.push(if x.key == key { RouteRef { keep_running: keep, ..x } } else { x });
        i = i + 1;
        assert(out@ =~= v@.subrange(0, i as int).map_values(f));
    }
    assert(v@.subrange(0, v@.len() as int) =~= v@);
    out
}

fn without_saved(v: &Vec<SavedRouteRef>, peer: u128, kind: RouteKind) -> (r: Vec<SavedRouteRef>)
    ensures
        r@ == v@.filter(not_saved_as(peer, kind)),
{
    let ghost keep = not_saved_as(peer, kind);
    let mut out: Vec<SavedRouteRef> = Vec::new();
    let mut i: usize = 0;
    while i < v.len()
        invariant
            i <= v@.len(),
            keep == not_saved_as(peer, kind),
            out@ == v@.subrange(0, i as int).filter(keep),
        decreases v@.len() - i,
    {
        let x = v[i];
        proof {
            assert(v@.subrange(0, i + 1) =~= v@.subrange(0, i as int).push(x));
            v@.subrange(0, i as int).lemma_filter_push(x, keep);
        }
        if !(x.peer == peer && x.kind == kind) {
            out.push(x);
        }
        i = i + 1;
    }
    assert(v@.subrange(0, v@.len() as int) =~= v@);
    out
}

fn reconfigure_actions(v: &Vec<RouteRef>) -> (r: Vec<Action>)
    ensures
        r@ == v@.filter(|r: RouteRef| reconfigured(r)).map_values(
            |r: RouteRef| Action::ReconfigureRoute(r.key),
        ),
{
    let ghost keep = |r: RouteRef| reconfigured(r);
    let ghost f = |r: RouteRef| Action::ReconfigureRoute(r.key);
    let mut out: Vec<Action> = Vec::new();
    let mut i: usize = 0;
    while i < v.len()
        invariant
            i <= v@.len(),
            keep == (|r: RouteRef| reconfigured(r)),
            f == (|r: RouteRef| Action::ReconfigureRoute(r.key)),
            out@ == v@.subrange(0, i as int).filter(keep).map_values(f),
        decreases v@.len() - i,
    {
        let x = v[i];
        proof {
            assert(v@.subrange(0, i + 1) =~= v@.subrange(0, i as int).push(x));
            v@.subrange(0, i as int).lemma_filter_push(x, keep);
        }
        if x.active && x.requested_locally {
            out.push(Action::ReconfigureRoute(x.key));
            assert(out@ =~= v@.subrange(0, i + 1).filter(keep).map_values(f));
        } else {
            assert(out@ =~= v@.subrange(0, i + 1).filter(keep).map_values(f));
        }
        i = i + 1;
    }
    assert(v@.subrange(0, v@.len() as int) =~= v@);
    out
}

fn without_notice(v: &Vec<u64>, id: u64) -> (r: Vec<u64>)
    ensures
        r@ == v@.filter(|n: u64| n != id),
{
    let ghost keep = |n: u64| n != id;
    let mut out: Vec<u64> = Vec::new();
    let mut i: usize = 0;
    while i < v.len()
        invariant
            i <= v@.len(),
            keep == (|n: u64| n != id),
            out@ == v@.subrange(0, i as int).filter(keep),
        decreases v@.len() - i,
    {
        let x = v[i];
        proof {
            assert(v@.subrange(0, i + 1) =~= v@.subrange(0, i as int).push(x));
            v@.subrange(0, i as int).lemma_filter_push(x, keep);
        }
        if x != id {
            out.push(x);
        }
        i = i + 1;
    }
    assert(v@.subrange(0, v@.len() as int) =~= v@);
    out
}

/// What the command `cmd` does: the devices, sessions, dials and routes afterwards, and the
/// actions the shell carries out, in order.
pub fn command_step(state: &DeviceModel, cmd: Command) -> (r: (DeviceModel, Vec<Action>))
    ensures
        (r.0@, r.1@) == command_spec(state@, cmd),
{
    let m = copy_model(state);
    match cmd {
        Command::Connect(id) => {
            let mut dials = copy_vec(&m.dials);
            if !has_id(&m.dials, id) {
                dials.push(id);
            }
            let mut actions: Vec<Action> = Vec::new();
            actions.push(Action::ResetBackoff(id));
            let dial_now = !has_id(&m.sessions, id) && match lookup_trusted(&m.trusted, id) {
                Some(d) => !d.blocked,
                None => false,
            };
            if dial_now {
                actions.push(Action::Dial(id));
            }
            proof {
                let spec = command_spec(state@, cmd);
                assert(actions@ =~= spec.1);
            }
            (DeviceModel { dials, ..m }, actions)
        },
        Command::Disconnect(id) => {
            let mut actions: Vec<Action> = Vec::new();
            actions.push(Action::CancelDial(id));
            if has_id(&m.sessions, id) {
                actions.push(Action::CloseSession(id, StopReason::UserStopped));
            }
            let (routes, gone) = split_routes(&m.routes, RouteCut::OfPeer(id));
            push_stops(&mut actions, &gone, false);
            actions.push(Action::EndNetworkTest(id, EngineError::Unreachable));
            let dials = without_id(&m.dials, id);
            let sessions = without_id(&m.sessions, id);
            let trusted = edit_entries(&m.trusted, id, TrustEdit::AutoConnect(false));
            proof {
                lemma_stops_quiet(gone@);
                assert((|x: RouteRef| !cut(RouteCut::OfPeer(id), x)) =~= (|r: RouteRef|
                    !of_peer(r, id)));
                assert((|x: RouteRef| cut(RouteCut::OfPeer(id), x)) =~= (|r: RouteRef|
                    of_peer(r, id)));
                let spec = command_spec(state@, cmd);
                assert(actions@ =~= spec.1);
            }
            (DeviceModel { routes, dials, sessions, trusted, ..m }, actions)
        },
        Command::Forget(id) => {
            let was_trusted = lookup_trusted(&m.trusted, id).is_some();
            let (m1, mut actions) = revoke(m, id);
            if was_trusted {
                actions.push(Action::Audit(AuditKind::DeviceForgotten, id));
            }
            actions.push(Action::DropDeviceSettings(id));
            let trusted = without_trusted(&m1.trusted, id);
            proof {
                let spec = command_spec(state@, cmd);
                assert(actions@ =~= spec.1);
            }
            (DeviceModel { trusted, ..m1 }, actions)
        },
        Command::SetBlocked(id, blocked) => {
            let was_trusted = lookup_trusted(&m.trusted, id).is_some();
            let trusted = edit_entries(&m.trusted, id, TrustEdit::Blocked(blocked));
            let m0 = DeviceModel { trusted, ..m };
            let (m1, mut actions) = if blocked {
                revoke(m0, id)
            } else {
                (m0, Vec::new())
            };
            if was_trusted {
                actions.push(
                    Action::Audit(
                        if blocked {
                            AuditKind::DeviceBlocked
                        } else {
                            AuditKind::DeviceUnblocked
                        },
                        id,
                    ),
                );
            }
            proof {
                let spec = command_spec(state@, cmd);
                assert(actions@ =~= spec.1);
            }
            (m1, actions)
        },
        Command::SetAutoConnect(id, enabled) => {
            let trusted = edit_entries(&m.trusted, id, TrustEdit::AutoConnect(enabled));
            let actions: Vec<Action> = Vec::new();
            proof {
                let spec = command_spec(state@, cmd);
                assert(actions@ =~= spec.1);
            }
            (DeviceModel { trusted, ..m }, actions)
        },
        Command::SetPermission(id, kind, policy) => {
            let was_trusted = lookup_trusted(&m.trusted, id).is_some();
            let trusted = edit_entries(&m.trusted, id, TrustEdit::Permission(kind, policy));
            let mut actions: Vec<Action> = Vec::new();
            if was_trusted {
                actions.push(Action::AuditPermission(id, kind, policy));
            }
            if matches!(policy, Policy::Deny) && was_trusted {
                let perms = match lookup_trusted(&trusted, id) {
                    Some(d) => d.permissions,
                    None => Permissions {
                        receive_my_audio: Policy::Deny,
                        use_my_microphone: Policy::Deny,
                        send_audio_to_me: Policy::Deny,
                        control_me: Policy::Deny,
                    },
                };
                let (routes, gone) = split_routes(&m.routes, RouteCut::Denied(id, perms));
                push_stops(&mut actions, &gone, true);
                proof {
                    lemma_edit_keeps_lookup(m.trusted@, id, TrustEdit::Permission(kind, policy));
                    lemma_stops_quiet(gone@);
                    assert((|x: RouteRef| !cut(RouteCut::Denied(id, perms), x)) =~= (|r: RouteRef|
                        !denied(r, id, perms)));
                    assert((|x: RouteRef| cut(RouteCut::Denied(id, perms), x)) =~= (|r: RouteRef|
                        denied(r, id, perms)));
                    let spec = command_spec(state@, cmd);
                    assert(actions@ =~= spec.1);
                }
                (DeviceModel { trusted, routes, ..m }, actions)
            } else {
                proof {
                    let spec = command_spec(state@, cmd);
                    assert(actions@ =~= spec.1);
                }
                (DeviceModel { trusted, ..m }, actions)
            }
        },
        Command::StopPairing => {
            let mut actions: Vec<Action> = Vec::new();
            actions.push(Action::UpdateDiscovery);
            proof {
                let spec = command_spec(state@, cmd);
                assert(actions@ =~= spec.1);
            }
            (DeviceModel { qr_open: false, ..m }, actions)
        },
        Command::NetworkChanged => {
            let mut actions: Vec<Action> = Vec::new();
            actions.push(Action::ResetAllBackoffs);
            actions.push(Action::RefreshLocalAddresses);
            actions.push(Action::UpdateDiscovery);
            proof {
                let spec = command_spec(state@, cmd);
                assert(actions@ =~= spec.1);
            }
            (m, actions)
        },
        Command::SetForeground(foreground) => {
            let mut actions: Vec<Action> = Vec::new();
            if !foreground {
                actions.push(Action::FlushTrust);
            }
            proof {
                let spec = command_spec(state@, cmd);
                assert(actions@ =~= spec.1);
            }
            (DeviceModel { foreground, ..m }, actions)
        },
        Command::SetRouteKeepRunning(key, keep) => {
            match lookup_route(&m.routes, key) {
                Some(r) => {
                    let routes = set_keep_running(&m.routes, key, keep);
                    let mut saved = without_saved(&m.saved_routes, r.peer, r.kind);
                    let auto = r.requested_locally && m.resume_routes_on_start;
                    if keep || auto {
                        saved.push(SavedRouteRef { peer: r.peer, kind: r.kind, keep });
                    }
                    let mut actions: Vec<Action> = Vec::new();
                    actions.push(Action::SaveSettings);
                    proof {
                        let spec = command_spec(state@, cmd);
                        assert(actions@ =~= spec.1);
                    }
                    (DeviceModel { routes, saved_routes: saved, ..m }, actions)
                },
                None => {
                    let actions: Vec<Action> = Vec::new();
                    proof {
                        let spec = command_spec(state@, cmd);
                        assert(actions@ =~= spec.1);
                    }
                    (m, actions)
                },
            }
        },
        Command::PreferLossless(prefer) => {
            if prefer == m.prefer_lossless {
                let actions: Vec<Action> = Vec::new();
                proof {
                    let spec = command_spec(state@, cmd);
                    assert(actions@ =~= spec.1);
                }
                (m, actions)
            } else {
                let actions = reconfigure_actions(&m.routes);
                (DeviceModel { prefer_lossless: prefer, ..m }, actions)
            }
        },
        Command::DismissNotice(id) => {
            let notices = without_notice(&m.notices, id);
            let actions: Vec<Action> = Vec::new();
            proof {
                let spec = command_spec(state@, cmd);
                assert(actions@ =~= spec.1);
            }
            (DeviceModel { notices, ..m }, actions)
        },
    }
}

/// Editing the entries of `id` keeps it trusted (or not), and the first entry found is the
/// edited one.
proof fn lemma_edit_keeps_lookup(s: Seq<TrustedDevice>, id: u128, e: TrustEdit)
    ensures
        trusted_lookup(edit_trusted(s, id, e), id) == match trusted_lookup(s, id) {
            Some(d) => Some(edited(e, d)),
            None => None,
        },
    decreases s.len(),
{
    let t = edit_trusted(s, id, e);
    if s.len() > 0 {
        assert(t[0] == (if s[0].id == id { edited(e, s[0]) } else { s[0] }));
        assert(t.drop_first() =~= edit_trusted(s.drop_first(), id, e));
        lemma_edit_keeps_lookup(s.drop_first(), id, e);
    }
}
proof fn lemma_lookup_absent(s: Seq<TrustedDevice>, id: u128)
    requires
        forall|i: int| 0 <= i < s.len() ==> (#[trigger] s[i]).id != id,
    ensures
        trusted_lookup(s, id).is_none(),
    decreases s.len(),
{
    if s.len() > 0 {
        assert forall|i: int| 0 <= i < s.drop_first().len() implies (#[trigger] s.drop_first()[i]).id
            != id by {
            assert(s.drop_first()[i] == s[i + 1]);
        }
        lemma_lookup_absent(s.drop_first(), id);
    }
}

/// Forgetting a device leaves nothing of it: it is no longer trusted, and it has no session,
/// no dial and no route left. Blocking it ends its session, dial and routes the same way.
pub proof fn lemma_forget_leaves_nothing(m: DeviceModelView, id: u128)
    ensures
        ({
            let f = command_spec(m, Command::Forget(id)).0;
            &&& trusted_lookup(f.trusted, id).is_none()
            &&& !f.sessions.contains(id)
            &&& !f.dials.contains(id)
            &&& forall|i: int| 0 <= i < f.routes.len() ==> (#[trigger] f.routes[i]).peer != id
        }),
        ({
            let b = command_spec(m, Command::SetBlocked(id, true)).0;
            &&& !b.sessions.contains(id)
            &&& !b.dials.contains(id)
            &&& forall|i: int| 0 <= i < b.routes.len() ==> (#[trigger] b.routes[i]).peer != id
        }),
{
    broadcast use Seq::lemma_filter_pred;
    let f = command_spec(m, Command::Forget(id)).0;
    assert forall|i: int| 0 <= i < f.trusted.len() implies (#[trigger] f.trusted[i]).id != id by {
        m.trusted.lemma_filter_pred(|d: TrustedDevice| d.id != id, i);
    }
    lemma_lookup_absent(f.trusted, id);
    assert forall|i: int| 0 <= i < f.sessions.len() implies f.sessions[i] != id by {
        m.sessions.lemma_filter_pred(other_than(id), i);
    }
    assert forall|i: int| 0 <= i < f.dials.len() implies f.dials[i] != id by {
        m.dials.lemma_filter_pred(other_than(id), i);
    }
    assert forall|i: int| 0 <= i < f.routes.len() implies (#[trigger] f.routes[i]).peer != id by {
        m.routes.lemma_filter_pred(|r: RouteRef| !of_peer(r, id), i);
    }
}

/// Each route with a peer depends on one permission: one on which this device sends its
/// microphone on "use my microphone", one on which it sends other audio on "receive my audio",
/// and one on which it receives audio on "send audio to me". Denying a permission stops every
/// route the peer asked for that depends on it (telling the peer the permission was revoked)
/// and removes it. Routes of other devices, and routes this device asked for, stay.
pub proof fn lemma_denying_a_permission_stops_its_routes(
    m: DeviceModelView,
    id: u128,
    kind: PermissionKind,
)
    requires
        trusted_lookup(m.trusted, id) is Some,
    ensures
        ({
            let (after, acts) = command_spec(m, Command::SetPermission(id, kind, Policy::Deny));
            &&& forall|r: RouteRef|
                #![trigger m.routes.contains(r)]
                m.routes.contains(r) && r.peer == id && !r.requested_locally && (if route_local_is_source(
                    r.kind,
                ) {
                    if route_is_mic(r.kind) {
                        kind == PermissionKind::UseMyMicrophone
                    } else {
                        kind == PermissionKind::ReceiveMyAudio
                    }
                } else {
                    kind == PermissionKind::SendAudioToMe
                }) ==> acts.contains(
                    Action::StopRoute { key: r.key, reason: StopReason::PermissionRevoked, notify: true },
                ) && !after.routes.contains(r)
            &&& forall|r: RouteRef|
                #![trigger m.routes.contains(r)]
                m.routes.contains(r) && (r.peer != id || r.requested_locally)
                    ==> after.routes.contains(r)
        }),
{
    broadcast use Seq::lemma_filter_contains_rev;
    let e = TrustEdit::Permission(kind, Policy::Deny);
    let trusted = edit_trusted(m.trusted, id, e);
    lemma_edit_keeps_lookup(m.trusted, id, e);
    let perms = trusted_lookup(trusted, id)->0.permissions;
    assert(policy_of(perms, kind) == Policy::Deny);
    let (after, acts) = command_spec(m, Command::SetPermission(id, kind, Policy::Deny));
    let audit = seq![Action::AuditPermission(id, kind, Policy::Deny)];
    let stopped = m.routes.filter(|r: RouteRef| denied(r, id, perms));
    let stops = stopped.map_values(|r: RouteRef| stop_revoked(r));
    assert(acts == audit + stops);
    assert forall|r: RouteRef|
        #![trigger m.routes.contains(r)]
        m.routes.contains(r) && r.peer == id && !r.requested_locally && (if route_local_is_source(
            r.kind,
        ) {
            if route_is_mic(r.kind) {
                kind == PermissionKind::UseMyMicrophone
            } else {
                kind == PermissionKind::ReceiveMyAudio
            }
        } else {
            kind == PermissionKind::SendAudioToMe
        }) implies acts.contains(
            Action::StopRoute { key: r.key, reason: StopReason::PermissionRevoked, notify: true },
        ) && !after.routes.contains(r) by {
        assert(route_permission(r.kind) == kind);
        assert(denied(r, id, perms));
        m.routes.lemma_filter_contains_rev(|r: RouteRef| denied(r, id, perms), r);
        assert(stopped.contains(r));
        let j = choose|j: int| 0 <= j < stopped.len() && stopped[j] == r;
        assert(stops[j] == stop_revoked(r));
        assert((audit + stops)[1 + j] == stops[j]);
        if after.routes.contains(r) {
            let k = choose|k: int| 0 <= k < after.routes.len() && after.routes[k] == r;
            m.routes.lemma_filter_pred(|r: RouteRef| !denied(r, id, perms), k);
        }
    }
    assert forall|r: RouteRef|
        #![trigger m.routes.contains(r)]
        m.routes.contains(r) && (r.peer != id || r.requested_locally) implies after.routes.contains(
            r,
        ) by {
        m.routes.lemma_filter_contains_rev(|r: RouteRef| !denied(r, id, perms), r);
    }
}
} // verus!
