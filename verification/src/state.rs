//! The state snapshot rendered by every UI, and the route kinds it is made of.
//!
//! UIs contain no business logic: they display the snapshot and send commands.

use vstd::prelude::*;
use crate::error::{ErrorView, Severity};
use crate::text::{chars_of, str_eq};
use crate::crash::{chars_less, chars_lt, lemma_chars_lt_asymmetric, lemma_chars_lt_transitive};

verus! {

#[derive(Debug, Clone, Default)]
pub struct LocalDevice {
    pub device_id: String,
    pub display_code: String,
    pub name: String,
    pub platform: String,
    pub port: u16,
    /// Loopback TLS-over-TCP port for USB via `adb reverse` (0 = not listening).
    pub tcp_port: u16,
    pub addresses: Vec<String>,
    pub app_version: String,
}

#[derive(Debug, Clone, Default)]
pub struct LocalCapabilities {
    pub system_audio: bool,
    pub app_audio: bool,
    pub microphone: bool,
    pub speaker: bool,
    pub virtual_mic: bool,
    /// Playback device the phone microphone is fed into.
    pub virtual_mic_device: Option<String>,
    /// What other apps select as their microphone.
    pub virtual_mic_input: Option<String>,
}

#[derive(Debug, Clone, Copy, PartialEq, Eq, Structural, Default)]
pub enum ConnectionStatus {
    #[default]
    Disconnected,
    Connecting,
    PairingRequired,
    Connected,
    /// Connected, but loss or jitter stayed above the threshold. Routes keep running.
    Degraded,
    Reconnecting,
    WaitingForDevice,
    Incompatible,
}

/// The connection state a peer's card shows, from what the engine knows of the peer:
/// `session` is `Some(degraded)` while a session with it is up; `pairing` while a pairing with
/// it is open; `dial` is `Some((in_flight, slow_phase))` while it is being dialled (an attempt
/// running; the backoff in its slow phase); `auto_connect` when it is trusted with
/// auto-connect on. A session outranks a pairing, which outranks a dial.
pub open spec fn status_ladder(
    session: Option<bool>,
    pairing: bool,
    dial: Option<(bool, bool)>,
    auto_connect: bool,
) -> ConnectionStatus {
    match session {
        Some(degraded) => if degraded {
            ConnectionStatus::Degraded
        } else {
            ConnectionStatus::Connected
        },
        None => if pairing {
            ConnectionStatus::PairingRequired
        } else {
            match dial {
                Some((in_flight, slow_phase)) => if in_flight {
                    ConnectionStatus::Connecting
                } else if slow_phase {
                    ConnectionStatus::WaitingForDevice
                } else if auto_connect {
                    ConnectionStatus::Reconnecting
                } else {
                    ConnectionStatus::Disconnected
                },
                None => ConnectionStatus::Disconnected,
            }
        },
    }
}

pub fn connection_status(
    degraded: Option<bool>,
    pairing: bool,
    dial: Option<(bool, bool)>,
    auto_connect: bool,
) -> (r: ConnectionStatus)
    ensures
        r == status_ladder(degraded, pairing, dial, auto_connect),
{
    match degraded {
        Some(d) => if d {
            ConnectionStatus::Degraded
        } else {
            ConnectionStatus::Connected
        },
        None => if pairing {
            ConnectionStatus::PairingRequired
        } else {
            match dial {
                Some((in_flight, slow_phase)) => if in_flight {
                    ConnectionStatus::Connecting
                } else if slow_phase {
                    ConnectionStatus::WaitingForDevice
                } else if auto_connect {
                    ConnectionStatus::Reconnecting
                } else {
                    ConnectionStatus::Disconnected
                },
                None => ConnectionStatus::Disconnected,
            }
        },
    }
}

/// A peer shows as connected exactly while a session with it is up, and the card never shows
/// `Incompatible` from these facts.
pub proof fn lemma_connected_iff_session(
    session: Option<bool>,
    pairing: bool,
    dial: Option<(bool, bool)>,
    auto_connect: bool,
)
    ensures
        (status_ladder(session, pairing, dial, auto_connect) == ConnectionStatus::Connected
            || status_ladder(session, pairing, dial, auto_connect) == ConnectionStatus::Degraded)
            == session.is_some(),
        status_ladder(session, pairing, dial, auto_connect) != ConnectionStatus::Incompatible,
{
}

/// The name a peer's card shows: the trusted device's display name, else the name its session
/// announced, else a non-empty name from discovery, else its display code.
pub open spec fn shown_name(
    trusted: Option<Seq<char>>,
    session: Option<Seq<char>>,
    advert: Option<Seq<char>>,
    code: Seq<char>,
) -> Seq<char> {
    match trusted {
        Some(n) => n,
        None => match session {
            Some(n) => n,
            None => match advert {
                Some(n) => if n.len() > 0 {
                    n
                } else {
                    code
                },
                None => code,
            },
        },
    }
}

pub fn peer_name(trusted: Option<&str>, session: Option<&str>, advert: Option<&str>, code: &str) -> (r:
    String)
    ensures
        r@ == shown_name(
            match trusted {
                Some(n) => Some(n@),
                None => None,
            },
            match session {
                Some(n) => Some(n@),
                None => None,
            },
            match advert {
                Some(n) => Some(n@),
                None => None,
            },
            code@,
        ),
{
    match trusted {
        Some(n) => n.to_owned(),
        None => match session {
            Some(n) => n.to_owned(),
            None => match advert {
                Some(n) => if n.unicode_len() > 0 {
                    n.to_owned()
                } else {
                    code.to_owned()
                },
                None => code.to_owned(),
            },
        },
    }
}

/// A device in the list the apps show.
#[derive(Debug)]
pub struct PeerEntry {
    pub id: u128,
    pub trusted: bool,
    pub online: bool,
    pub name: String,
}

/// What orders a device in the list.
pub struct PeerKey {
    pub id: u128,
    pub trusted: bool,
    pub online: bool,
    pub name: Seq<char>,
}

pub open spec fn peer_key(p: PeerEntry) -> PeerKey {
    PeerKey { id: p.id, trusted: p.trusted, online: p.online, name: p.name@ }
}

pub open spec fn peer_keys(v: Seq<PeerEntry>) -> Seq<PeerKey> {
    v.map_values(|p: PeerEntry| peer_key(p))
}

/// Trusted devices first, then those online, then by name.
pub open spec fn listed_before(a: PeerKey, b: PeerKey) -> bool {
    (a.trusted && !b.trusted) || (a.trusted == b.trusted && ((a.online && !b.online) || (a.online
        == b.online && chars_lt(a.name, b.name))))
}

/// No device is listed after one that belongs before it.
pub open spec fn listed_in_order(s: Seq<PeerKey>) -> bool {
    forall|i: int, j: int| 0 <= i < j < s.len() ==> !listed_before(#[trigger] s[j], #[trigger] s[i])
}

proof fn lemma_listed_before_order(x: PeerKey, y: PeerKey, z: PeerKey)
    requires
        listed_before(x, y),
        y == z || !listed_before(z, y),
    ensures
        !listed_before(z, x),
{
    lemma_chars_lt_asymmetric(x.name, y.name);
    lemma_chars_lt_asymmetric(z.name, x.name);
    lemma_chars_lt_transitive(z.name, x.name, y.name);
}

/// Devices that rank the same: trusted and online alike, with the same name.
pub open spec fn same_rank(c: PeerKey) -> spec_fn(PeerKey) -> bool {
    |k: PeerKey| k.trusted == c.trusted && k.online == c.online && k.name == c.name
}

proof fn lemma_chars_lt_total(a: Seq<char>, b: Seq<char>)
    ensures
        !chars_lt(a, b) && !chars_lt(b, a) ==> a == b,
        !chars_lt(a, a),
    decreases a.len(),
{
    if a.len() > 0 && b.len() > 0 {
        lemma_chars_lt_total(a.drop_first(), b.drop_first());
        if a[0] == b[0] && a.drop_first() == b.drop_first() {
            assert(a =~= seq![a[0]] + a.drop_first());
            assert(b =~= seq![b[0]] + b.drop_first());
        }
    }
    if a.len() > 0 {
        lemma_chars_lt_total(a.drop_first(), a.drop_first());
    }
}

/// Something listed before `y` is listed before anything not listed before `y`.
proof fn lemma_listed_before_chain(x: PeerKey, y: PeerKey, z: PeerKey)
    requires
        listed_before(x, y),
        !listed_before(z, y),
    ensures
        listed_before(x, z),
{
    lemma_chars_lt_total(z.name, y.name);
    lemma_chars_lt_transitive(x.name, y.name, z.name);
}

proof fn lemma_filter_insert(s: Seq<PeerKey>, p: int, x: PeerKey, f: spec_fn(PeerKey) -> bool)
    requires
        0 <= p <= s.len(),
        f(x) ==> forall|q: int| p <= q < s.len() ==> !f(#[trigger] s[q]),
    ensures
        s.insert(p, x).filter(f) == (if f(x) {
            s.filter(f).push(x)
        } else {
            s.filter(f)
        }),
{
    broadcast use Seq::filter_distributes_over_add, Seq::lemma_filter_push;
    let a = s.subrange(0, p);
    let b = s.subrange(p, s.len() as int);
    assert(s.insert(p, x) =~= a.push(x) + b);
    assert(s =~= a + b);
    if f(x) {
        assert forall|q: int| 0 <= q < b.len() implies !f(#[trigger] b[q]) by {
            assert(b[q] == s[p + q]);
        }
        lemma_filter_none(b, f);
        assert(a.push(x).filter(f) == a.filter(f).push(x));
        assert(s.filter(f) == a.filter(f) + b.filter(f));
        assert(a.filter(f) + Seq::<PeerKey>::empty() =~= a.filter(f));
        assert(a.filter(f).push(x) + Seq::<PeerKey>::empty() =~= a.filter(f).push(x));
    } else {
        assert(a.push(x).filter(f) == a.filter(f));
    }
}

proof fn lemma_filter_none(b: Seq<PeerKey>, f: spec_fn(PeerKey) -> bool)
    requires
        forall|q: int| 0 <= q < b.len() ==> !f(#[trigger] b[q]),
    ensures
        b.filter(f) == Seq::<PeerKey>::empty(),
    decreases b.len(),
{
    reveal(Seq::filter);
    if b.len() > 0 {
        assert forall|q: int| 0 <= q < b.drop_last().len() implies !f(#[trigger] b.drop_last()[q]) by {
            assert(b.drop_last()[q] == b[q]);
        }
        lemma_filter_none(b.drop_last(), f);
        assert(!f(b[b.len() - 1]));
    }
}

fn before(a: &PeerEntry, b: &PeerEntry) -> (r: bool)
    ensures
        r == listed_before(peer_key(*a), peer_key(*b)),
{
    if a.trusted != b.trusted {
        return a.trusted;
    }
    if a.online != b.online {
        return a.online;
    }
    chars_less(&chars_of(a.name.as_str()), &chars_of(b.name.as_str()))
}

/// The device list in the order the apps show it: trusted devices first, then those online,
/// then by name; devices that tie keep their order.
pub fn sort_peers(peers: Vec<PeerEntry>) -> (r: Vec<PeerEntry>)
    ensures
        peer_keys(r@).to_multiset() == peer_keys(peers@).to_multiset(),
        listed_in_order(peer_keys(r@)),
        forall|c: PeerKey|
            #[trigger] peer_keys(r@).filter(same_rank(c)) == peer_keys(peers@).filter(same_rank(c)),
{
    let ghost vs = peer_keys(peers@);
    let mut rest = peers;
    let mut out: Vec<PeerEntry> = Vec::new();
    let ghost n = vs.len();
    assert(peer_keys(out@) =~= vs.subrange(0, 0));
    assert(peer_keys(rest@) =~= vs.subrange(0, n as int));
    assert forall|c: PeerKey| #[trigger] peer_keys(out@).filter(same_rank(c)) == vs.subrange(0, 0).filter(
        same_rank(c),
    ) by {
        assert(peer_keys(out@) == vs.subrange(0, 0));
    }
    while rest.len() > 0
        invariant
            n == vs.len(),
            rest@.len() <= n,
            peer_keys(rest@) == vs.subrange(n - rest@.len(), n as int),
            peer_keys(out@).to_multiset() == vs.subrange(0, n - rest@.len()).to_multiset(),
            listed_in_order(peer_keys(out@)),
            forall|c: PeerKey|
                #[trigger] peer_keys(out@).filter(same_rank(c)) == vs.subrange(0, n - rest@.len()).filter(
                    same_rank(c),
                ),
        decreases rest@.len(),
    {
        let ghost i = n - rest@.len();
        let ghost rest0 = rest@;
        let x = rest.remove(0);
        proof {
            assert(peer_keys(rest@) =~= peer_keys(rest0).drop_first());
            assert(x == rest0[0]);
            assert(peer_keys(rest0)[0] == peer_key(rest0[0]));
            assert(vs.subrange(i, n as int)[0] == vs[i]);
            assert(peer_key(x) == vs[i]);
        }
        let mut p: usize = 0;
        while p < out.len() && !before(&x, &out[p])
            invariant
                p <= out@.len(),
                forall|k: int| 0 <= k < p ==> !listed_before(peer_key(x), #[trigger] peer_keys(out@)[k]),
            decreases out@.len() - p,
        {
            p = p + 1;
        }
        let ghost prev = peer_keys(out@);
        let ghost kx = peer_key(x);
        out.insert(p, x);
        proof {
            assert(peer_keys(out@) =~= prev.insert(p as int, kx));
            assert(vs.subrange(0, i + 1) =~= vs.subrange(0, i).push(kx));
            vstd::seq_lib::to_multiset_build(vs.subrange(0, i), kx);
            vstd::seq_lib::to_multiset_insert(prev, p as int, kx);
            let after = peer_keys(out@);
            assert forall|a: int, b: int| 0 <= a < b < after.len() implies !listed_before(
                #[trigger] after[b],
                #[trigger] after[a],
            ) by {
                if a < p && b < p {
                    assert(after[a] == prev[a] && after[b] == prev[b]);
                } else if a < p && b == p {
                    assert(after[a] == prev[a]);
                } else if a < p && b > p {
                    assert(after[a] == prev[a] && after[b] == prev[b - 1]);
                } else if a == p {
                    assert(after[b] == prev[b - 1]);
                    assert(listed_before(kx, prev[p as int]));
                    if b - 1 > p {
                        assert(!listed_before(prev[b - 1], prev[p as int]));
                    }
                    lemma_listed_before_order(kx, prev[p as int], prev[b - 1]);
                } else {
                    assert(after[a] == prev[a - 1] && after[b] == prev[b - 1]);
                }
            }
            assert forall|q: int| p <= q < prev.len() implies listed_before(kx, #[trigger] prev[q]) by {
                if q > p {
                    assert(!listed_before(prev[q], prev[p as int]));
                    lemma_listed_before_chain(kx, prev[p as int], prev[q]);
                }
            }
            assert forall|c: PeerKey| #[trigger] after.filter(same_rank(c)) == vs.subrange(0, i + 1).filter(
                same_rank(c),
            ) by {
                let f = same_rank(c);
                if f(kx) {
                    assert forall|q: int| p <= q < prev.len() implies !f(#[trigger] prev[q]) by {
                        if f(prev[q]) {
                            assert(listed_before(kx, prev[q]));
                            lemma_chars_lt_total(kx.name, kx.name);
                        }
                    }
                }
                lemma_filter_insert(prev, p as int, kx, f);
                vs.subrange(0, i).lemma_filter_push(kx, f);
            }
        }
    }
    assert(vs.subrange(0, n as int) =~= vs);
    out
}

impl ConnectionStatus {
    /// A session exists (`Connected` or `Degraded`).
    pub fn is_connected(self) -> (r: bool)
        ensures
            r == (self == ConnectionStatus::Connected || self == ConnectionStatus::Degraded),
    {
        match self {
            ConnectionStatus::Connected | ConnectionStatus::Degraded => true,
            _ => false,
        }
    }
}

#[derive(Debug, Clone, Copy, PartialEq, Eq, Structural, Default)]
pub enum LinkQuality {
    #[default]
    Unknown,
    Excellent,
    Good,
    Poor,
}

/// User-level route type. Named from the local device's perspective.
#[derive(Debug, Clone, Copy, PartialEq, Eq, Hash, Structural)]
pub enum RouteKind {
    /// This device's system audio plays on the peer.
    SendSystemAudio,
    /// This device's app audio (Android playback capture) plays on the peer.
    SendAppAudio,
    /// This device's microphone becomes the peer's virtual mic.
    SendMicToVirtualMic,
    /// This device's microphone plays on the peer's speakers.
    SendMicToSpeaker,
    /// The peer's system audio plays here.
    ReceiveSystemAudio,
    /// The peer's app audio plays here.
    ReceiveAppAudio,
    /// The peer's microphone becomes this device's virtual mic.
    ReceiveMicToVirtualMic,
    /// The peer's microphone plays on this device's speakers.
    ReceiveMicToSpeaker,
}

pub open spec fn route_local_is_source(k: RouteKind) -> bool {
    match k {
        RouteKind::SendSystemAudio
        | RouteKind::SendAppAudio
        | RouteKind::SendMicToVirtualMic
        | RouteKind::SendMicToSpeaker => true,
        _ => false,
    }
}

pub open spec fn route_is_mic(k: RouteKind) -> bool {
    match k {
        RouteKind::SendMicToVirtualMic
        | RouteKind::SendMicToSpeaker
        | RouteKind::ReceiveMicToVirtualMic
        | RouteKind::ReceiveMicToSpeaker => true,
        _ => false,
    }
}

/// Wire endpoint ids (source, sink) of a route kind.
pub open spec fn route_endpoints(k: RouteKind) -> (Seq<char>, Seq<char>) {
    match k {
        RouteKind::SendSystemAudio | RouteKind::ReceiveSystemAudio => ("system"@, "speaker"@),
        RouteKind::SendAppAudio | RouteKind::ReceiveAppAudio => ("apps"@, "speaker"@),
        RouteKind::SendMicToVirtualMic | RouteKind::ReceiveMicToVirtualMic => (
            "mic"@,
            "virtual-mic"@,
        ),
        RouteKind::SendMicToSpeaker | RouteKind::ReceiveMicToSpeaker => ("mic"@, "speaker"@),
    }
}

/// The same route seen from the other device.
pub open spec fn route_mirrored(k: RouteKind) -> RouteKind {
    match k {
        RouteKind::SendSystemAudio => RouteKind::ReceiveSystemAudio,
        RouteKind::SendAppAudio => RouteKind::ReceiveAppAudio,
        RouteKind::SendMicToVirtualMic => RouteKind::ReceiveMicToVirtualMic,
        RouteKind::SendMicToSpeaker => RouteKind::ReceiveMicToSpeaker,
        RouteKind::ReceiveSystemAudio => RouteKind::SendSystemAudio,
        RouteKind::ReceiveAppAudio => RouteKind::SendAppAudio,
        RouteKind::ReceiveMicToVirtualMic => RouteKind::SendMicToVirtualMic,
        RouteKind::ReceiveMicToSpeaker => RouteKind::SendMicToSpeaker,
    }
}

/// The sending route kind whose endpoints are `(source, sink)`, if any.
pub open spec fn send_kind_of(source: Seq<char>, sink: Seq<char>) -> Option<RouteKind> {
    if source == "system"@ && sink == "speaker"@ {
        Some(RouteKind::SendSystemAudio)
    } else if source == "apps"@ && sink == "speaker"@ {
        Some(RouteKind::SendAppAudio)
    } else if source == "mic"@ && sink == "virtual-mic"@ {
        Some(RouteKind::SendMicToVirtualMic)
    } else if source == "mic"@ && sink == "speaker"@ {
        Some(RouteKind::SendMicToSpeaker)
    } else {
        None
    }
}

/// The route kind with endpoints `(source, sink)`, seen from the source when
/// `local_is_source`, else from the sink.
pub open spec fn route_from_endpoints(source: Seq<char>, sink: Seq<char>, local_is_source: bool) -> Option<
    RouteKind,
> {
    match send_kind_of(source, sink) {
        Some(k) => Some(
            if local_is_source {
                k
            } else {
                route_mirrored(k)
            },
        ),
        None => None,
    }
}

impl RouteKind {
    pub fn local_is_source(self) -> (r: bool)
        ensures
            r == route_local_is_source(self),
    {
        match self {
            RouteKind::SendSystemAudio
            | RouteKind::SendAppAudio
            | RouteKind::SendMicToVirtualMic
            | RouteKind::SendMicToSpeaker => true,
            _ => false,
        }
    }

    /// Wire endpoint ids (source, sink).
    pub fn endpoints(self) -> (r: (&'static str, &'static str))
        ensures
            (r.0@, r.1@) == route_endpoints(self),
    {
        match self {
            RouteKind::SendSystemAudio | RouteKind::ReceiveSystemAudio => ("system", "speaker"),
            RouteKind::SendAppAudio | RouteKind::ReceiveAppAudio => ("apps", "speaker"),
            RouteKind::SendMicToVirtualMic | RouteKind::ReceiveMicToVirtualMic => (
                "mic",
                "virtual-mic",
            ),
            RouteKind::SendMicToSpeaker | RouteKind::ReceiveMicToSpeaker => ("mic", "speaker"),
        }
    }

    /// The same route seen from the other device.
    pub fn mirrored(self) -> (r: RouteKind)
        ensures
            r == route_mirrored(self),
    {
        match self {
            RouteKind::SendSystemAudio => RouteKind::ReceiveSystemAudio,
            RouteKind::SendAppAudio => RouteKind::ReceiveAppAudio,
            RouteKind::SendMicToVirtualMic => RouteKind::ReceiveMicToVirtualMic,
            RouteKind::SendMicToSpeaker => RouteKind::ReceiveMicToSpeaker,
            RouteKind::ReceiveSystemAudio => RouteKind::SendSystemAudio,
            RouteKind::ReceiveAppAudio => RouteKind::SendAppAudio,
            RouteKind::ReceiveMicToVirtualMic => RouteKind::SendMicToVirtualMic,
            RouteKind::ReceiveMicToSpeaker => RouteKind::SendMicToSpeaker,
        }
    }

    pub fn from_endpoints(source: &str, sink: &str, local_is_source: bool) -> (r: Option<RouteKind>)
        ensures
            r == route_from_endpoints(source@, sink@, local_is_source),
    {
        let send = if str_eq(source, "system") && str_eq(sink, "speaker") {
            RouteKind::SendSystemAudio
        } else if str_eq(source, "apps") && str_eq(sink, "speaker") {
            RouteKind::SendAppAudio
        } else if str_eq(source, "mic") && str_eq(sink, "virtual-mic") {
            RouteKind::SendMicToVirtualMic
        } else if str_eq(source, "mic") && str_eq(sink, "speaker") {
            RouteKind::SendMicToSpeaker
        } else {
            return None;
        };
        Some(
            if local_is_source {
                send
            } else {
                send.mirrored()
            },
        )
    }

    pub fn is_mic(self) -> (r: bool)
        ensures
            r == route_is_mic(self),
    {
        match self {
            RouteKind::SendMicToVirtualMic
            | RouteKind::SendMicToSpeaker
            | RouteKind::ReceiveMicToVirtualMic
            | RouteKind::ReceiveMicToSpeaker => true,
            _ => false,
        }
    }
}

/// Mirroring a route twice gives it back; it swaps which device is the source and keeps
/// the endpoints and whether a microphone is involved.
pub proof fn lemma_mirror_involution(k: RouteKind)
    ensures
        route_mirrored(route_mirrored(k)) == k,
        route_local_is_source(route_mirrored(k)) == !route_local_is_source(k),
        route_endpoints(route_mirrored(k)) == route_endpoints(k),
        route_is_mic(route_mirrored(k)) == route_is_mic(k),
{
}

/// A route kind is found again from its own endpoints, seen from either device.
pub proof fn lemma_endpoints_round_trip(k: RouteKind)
    ensures
        route_from_endpoints(route_endpoints(k).0, route_endpoints(k).1, route_local_is_source(k))
            == Some(k),
        route_from_endpoints(
            route_endpoints(k).0,
            route_endpoints(k).1,
            !route_local_is_source(k),
        ) == Some(route_mirrored(k)),
{
    reveal_strlit("system");
    reveal_strlit("apps");
    reveal_strlit("mic");
    reveal_strlit("speaker");
    reveal_strlit("virtual-mic");
    assert("system"@ != "apps"@ && "system"@ != "mic"@ && "apps"@ != "mic"@) by {
        assert("system"@[0] != "apps"@[0]);
        assert("system"@[0] != "mic"@[0]);
        assert("apps"@[0] != "mic"@[0]);
    }
    assert("speaker"@ != "virtual-mic"@) by {
        assert("speaker"@[0] != "virtual-mic"@[0]);
    }
}

#[derive(Debug, Clone, Copy, PartialEq, Eq, Structural)]
pub enum RouteStatus {
    Requesting,
    WaitingForApproval,
    Starting,
    Active,
    Paused,
    Stopped,
}

#[derive(Debug, Clone, Default)]
pub struct PairingView {
    /// Present while "Pair a device" is open on this device.
    pub qr_uri: Option<String>,
    pub qr_expires_unix: u64,
    /// Code comparisons waiting for the user.
    pub prompts: Vec<PairingPrompt>,
}

#[derive(Debug, Clone)]
pub struct PairingPrompt {
    pub peer_id: String,
    pub peer_name: String,
    pub platform: String,
    pub code: String,
    /// True when the other side already confirmed.
    pub peer_confirmed: bool,
}

#[derive(Debug, Clone)]
pub struct RouteRequestPrompt {
    pub request_id: u64,
    pub peer_id: String,
    pub peer_name: String,
    pub kind: RouteKind,
    pub expires_unix: u64,
}

#[derive(Debug, Clone)]
pub struct NoticeView {
    pub id: u64,
    pub key: String,
    pub args: Vec<String>,
    pub severity: Severity,
    pub error: Option<ErrorView>,
    pub created_unix: u64,
}

#[derive(Debug, Clone)]
pub struct AudioDeviceView {
    pub id: String,
    pub name: String,
    pub is_input: bool,
    pub is_default: bool,
    /// Playback side of a virtual cable that can act as a microphone for other apps.
    pub virtual_cable: bool,
}

} // verus!
