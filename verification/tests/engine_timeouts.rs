use sound_push_core::engine::{tick_step, Action, EngineModel, Pending, RouteTimer};
use sound_push_core::settings::{
    clamp_av_offset, migrated_keep, migration, sanitize_lists, MAX_DISMISSED_TIPS,
    MAX_SAVED_ROUTES,
};
use sound_push_core::state::{connection_status, peer_name, ConnectionStatus};

fn route(key: u64) -> RouteTimer {
    RouteTimer {
        key,
        deadline: None,
        paused: false,
        keep_running: false,
        paused_at: None,
        awaiting_reply: false,
    }
}

#[test]
fn overdue_routes_requests_and_pairings_time_out() {
    let now: u64 = 1_000_000;
    let starting = RouteTimer { deadline: Some(now - 1), awaiting_reply: true, ..route(1) };
    let on_time = RouteTimer { deadline: Some(now), ..route(2) };
    let paused_long = RouteTimer { paused: true, paused_at: Some(now - 120_001), ..route(3) };
    let paused_short = RouteTimer { paused: true, paused_at: Some(now - 120_000), ..route(4) };
    let kept_running =
        RouteTimer { paused: true, keep_running: true, paused_at: Some(0), ..route(5) };
    let model = EngineModel {
        routes: vec![starting, on_time, paused_long, paused_short, kept_running],
        requests: vec![Pending { id: 7, at: now - 1 }, Pending { id: 8, at: now }],
        unpaired: vec![Pending { id: 9, at: now - 30_001 }, Pending { id: 10, at: now - 30_000 }],
        pairings: vec![Pending { id: 11, at: now - 120_001 }, Pending { id: 12, at: now }],
    };
    let (after, actions) = tick_step(&model, now);
    assert_eq!(
        actions,
        vec![
            Action::StopRoute { key: 1, answer_unreachable: true },
            Action::StopRoute { key: 3, answer_unreachable: false },
            Action::RejectRequest { id: 7 },
            Action::CloseUnpaired { id: 9 },
            Action::ClosePairing { id: 11 },
        ]
    );
    assert_eq!(after.routes, vec![on_time, paused_short, kept_running]);
    assert_eq!(after.requests, vec![Pending { id: 8, at: now }]);
    assert_eq!(after.unpaired, vec![Pending { id: 10, at: now - 30_000 }]);
    assert_eq!(after.pairings, vec![Pending { id: 12, at: now }]);
    // Nothing is due a second time.
    let (_, again) = tick_step(&after, now);
    assert!(again.is_empty());
}

#[test]
fn the_connection_ladder() {
    assert_eq!(connection_status(Some(false), true, Some((true, true)), true), ConnectionStatus::Connected);
    assert_eq!(connection_status(Some(true), false, None, false), ConnectionStatus::Degraded);
    assert_eq!(connection_status(None, true, Some((true, false)), true), ConnectionStatus::PairingRequired);
    assert_eq!(connection_status(None, false, Some((true, true)), true), ConnectionStatus::Connecting);
    assert_eq!(connection_status(None, false, Some((false, true)), true), ConnectionStatus::WaitingForDevice);
    assert_eq!(connection_status(None, false, Some((false, false)), true), ConnectionStatus::Reconnecting);
    assert_eq!(connection_status(None, false, Some((false, false)), false), ConnectionStatus::Disconnected);
    assert_eq!(connection_status(None, false, None, true), ConnectionStatus::Disconnected);
}

#[test]
fn a_peer_is_named_by_the_best_source_known() {
    assert_eq!(peer_name(Some("Desk"), Some("PC"), Some("pc"), "AB12-CD34"), "Desk");
    assert_eq!(peer_name(None, Some("PC"), Some("pc"), "AB12-CD34"), "PC");
    assert_eq!(peer_name(None, None, Some("pc"), "AB12-CD34"), "pc");
    assert_eq!(peer_name(None, None, Some(""), "AB12-CD34"), "AB12-CD34");
    assert_eq!(peer_name(None, None, None, "AB12-CD34"), "AB12-CD34");
}

#[test]
fn settings_lists_and_offsets_are_bounded() {
    assert_eq!(clamp_av_offset(-900), -500);
    assert_eq!(clamp_av_offset(900), 500);
    assert_eq!(clamp_av_offset(-120), -120);
    let mut tips: Vec<u32> = (0..300).collect();
    let mut routes: Vec<u32> = (0..10).collect();
    sanitize_lists(&mut tips, &mut routes);
    assert_eq!(tips.len(), MAX_DISMISSED_TIPS);
    assert_eq!(tips[MAX_DISMISSED_TIPS - 1], (MAX_DISMISSED_TIPS - 1) as u32);
    assert_eq!(routes, (0..10).collect::<Vec<u32>>());
    let mut many: Vec<u32> = (0..40).collect();
    sanitize_lists(&mut Vec::<u32>::new(), &mut many);
    assert_eq!(many.len(), MAX_SAVED_ROUTES);
}

#[test]
fn old_documents_keep_their_explicit_routes_running() {
    assert_eq!(migration(0), (true, true));
    assert_eq!(migration(1), (true, true));
    assert_eq!(migration(2), (false, false));
    assert_eq!(migration(7), (false, false));
    assert!(migrated_keep(None));
    assert!(!migrated_keep(Some(false)));
}

use sound_push_core::state::{sort_peers, PeerEntry};

fn peer(id: u128, trusted: bool, online: bool, name: &str) -> PeerEntry {
    PeerEntry { id, trusted, online, name: name.to_string() }
}

#[test]
fn the_device_list_shows_trusted_then_online_then_by_name() {
    let sorted = sort_peers(vec![
        peer(1, false, true, "Alpha"),
        peer(2, true, false, "Zed"),
        peer(3, true, true, "Mia"),
        peer(4, true, true, "Ann"),
        peer(5, false, false, "Bob"),
        peer(6, true, true, "Ann"),
    ]);
    let ids: Vec<u128> = sorted.iter().map(|p| p.id).collect();
    assert_eq!(ids, vec![4, 6, 3, 2, 1, 5]);
    assert!(sort_peers(Vec::new()).is_empty());
}
