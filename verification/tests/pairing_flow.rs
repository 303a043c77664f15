use sound_push_core::pairing::{
    confirm, keeps_old, pair_request, Confirmation, PairDecision, QrState, RejectReason,
};

const OPEN: QrState = QrState { open: true, expired: false };
const CLOSED: QrState = QrState { open: false, expired: false };

#[test]
fn a_scanned_code_pairs_once() {
    let (after, d) = pair_request(OPEN, Some(true));
    assert_eq!(d, PairDecision::PairedByQr);
    assert_eq!(after, CLOSED);
    assert_eq!(pair_request(after, Some(true)).1, PairDecision::Reject(RejectReason::Closed));
}

#[test]
fn wrong_or_expired_proofs_and_closed_mode_are_refused() {
    assert_eq!(pair_request(OPEN, Some(false)), (OPEN, PairDecision::Reject(RejectReason::Proof)));
    let expired = QrState { open: true, expired: true };
    assert_eq!(pair_request(expired, Some(true)).1, PairDecision::Reject(RejectReason::Proof));
    assert_eq!(pair_request(CLOSED, None).1, PairDecision::Reject(RejectReason::Closed));
    assert_eq!(pair_request(OPEN, None), (OPEN, PairDecision::AskUser));
}

#[test]
fn both_users_confirm() {
    assert_eq!(confirm(true, true), Confirmation::Complete);
    assert_eq!(confirm(true, false), Confirmation::Waiting);
    assert_eq!(confirm(false, true), Confirmation::Refused);
}

#[test]
fn simultaneous_dials_settle_on_one_connection() {
    // This device (id 1) is the lower: its own dial is preferred.
    assert!(keeps_old(1, 2, true, false, 1_000));
    assert!(!keeps_old(1, 2, false, true, 1_000));
    assert!(!keeps_old(1, 2, true, false, 5_000));
    // The other device agrees.
    assert!(keeps_old(2, 1, false, true, 1_000));
}

use sound_push_core::control::{control_step, ConnRole, ControlAction, ControlBody};
use sound_push_core::error::{EngineError, StopReason};

#[test]
fn unidentified_connections_may_only_ask_to_pair() {
    assert_eq!(control_step(ConnRole::Unpaired, ControlBody::PairRequest), vec![ControlAction::HandlePairRequest]);
    assert_eq!(
        control_step(ConnRole::Unpaired, ControlBody::Other),
        vec![ControlAction::Close(StopReason::PermissionDenied)]
    );
    assert!(control_step(ConnRole::Unknown, ControlBody::Other).is_empty());
}

#[test]
fn the_peers_answer_completes_or_ends_the_pairing() {
    let pairing = |qr_scanner, local_confirmed| ConnRole::Pairing { peer: 5, qr_scanner, local_confirmed };
    assert_eq!(
        control_step(pairing(false, true), ControlBody::PairResult { accepted: false }),
        vec![ControlAction::PeerRefusedPairing(5), ControlAction::Notice(EngineError::PairingRejected)]
    );
    assert_eq!(
        control_step(pairing(true, false), ControlBody::PairResult { accepted: true }),
        vec![ControlAction::PeerConfirmed(5), ControlAction::SendPairAccepted, ControlAction::CompletePairing(5)]
    );
    assert_eq!(
        control_step(pairing(false, true), ControlBody::PairResult { accepted: true }),
        vec![ControlAction::PeerConfirmed(5), ControlAction::CompletePairing(5)]
    );
    assert_eq!(
        control_step(pairing(false, false), ControlBody::PairResult { accepted: true }),
        vec![ControlAction::PeerConfirmed(5)]
    );
    assert!(control_step(pairing(false, false), ControlBody::Other).is_empty());
    assert_eq!(
        control_step(ConnRole::Session(5), ControlBody::RouteStop { route: 3 }),
        vec![ControlAction::StopRoute { peer: 5, route: 3, reason: StopReason::PeerStopped, notify: false }]
    );
}

use sound_push_core::control::{counted_drop, pairing_close_notice, session_closed, ClosePlan, RoutesAfterClose};

#[test]
fn a_closed_session_pauses_removes_or_gives_up() {
    let refused = session_closed(StopReason::PermissionRevoked, true);
    assert_eq!(
        refused,
        ClosePlan { routes: RoutesAfterClose::Removed, stop_trying: true, peer_forgot_us: true, count_drop: false, redial: false }
    );
    assert_eq!(session_closed(StopReason::UserStopped, true).routes, RoutesAfterClose::Removed);
    let dropped = session_closed(StopReason::NetworkLost, true);
    assert!(dropped.count_drop && dropped.redial && dropped.routes == RoutesAfterClose::Paused);
    let replaced = session_closed(StopReason::Superseded, false);
    assert!(!replaced.count_drop && !replaced.redial);
    assert_eq!(pairing_close_notice(StopReason::RateLimited), Some(EngineError::PairingRateLimited));
    assert_eq!(pairing_close_notice(StopReason::Timeout), None);
    assert_eq!(counted_drop(true, true), (true, false));
    assert_eq!(counted_drop(false, true), (true, true));
    assert_eq!(counted_drop(false, false), (false, false));
}

use sound_push_core::addr::Address;
use sound_push_core::control::{flood_step, internal_step, ControlFate, InternalAction, InternalEvent, MAX_DROPPED_CONTROL};
use sound_push_core::net::Endpoint;

fn at(ip: Address, port: u16) -> Endpoint {
    Endpoint { ip, port, flowinfo: 0, scope_id: 0 }
}

#[test]
fn internal_events_decide_redials_notices_and_pairing_dials() {
    let err = EngineError::Unreachable;
    assert_eq!(
        internal_step(InternalEvent::DialFailed { has_target: true, error: err.clone() }, true, false, false),
        InternalAction::ScheduleRedial
    );
    assert_eq!(
        internal_step(InternalEvent::DialFailed { has_target: true, error: err.clone() }, false, false, false),
        InternalAction::Notice(err.clone())
    );
    assert_eq!(internal_step(InternalEvent::DiscoveryUpdated { dialing: true }, false, false, false), InternalAction::RetryNow);
    assert_eq!(internal_step(InternalEvent::DiscoveryUpdated { dialing: true }, false, true, false), InternalAction::Record);
    assert_eq!(internal_step(InternalEvent::Connected { dialed: true }, false, false, false), InternalAction::StartSession { dialed: true });
    assert_eq!(
        internal_step(InternalEvent::AudioFailed { reopened: false, error: err.clone() }, false, false, false),
        InternalAction::StopRoute(err)
    );
    assert_eq!(internal_step(InternalEvent::PairAddressResolved { addrs: vec![] }, false, false, true), InternalAction::BadAddress);
    let addrs = vec![at(Address::V4(0xc0a8_0102), 47650), at(Address::V4(0x7f00_0001), 5555)];
    assert_eq!(
        internal_step(InternalEvent::PairAddressResolved { addrs: addrs.clone() }, false, false, true),
        InternalAction::PairDial { usb_port: Some(5555) }
    );
    assert_eq!(
        internal_step(InternalEvent::PairAddressResolved { addrs }, false, false, false),
        InternalAction::PairDial { usb_port: None }
    );
}

#[test]
fn a_flooding_peer_is_warned_once_then_cut_off() {
    assert_eq!(flood_step(true, 7), (ControlFate::Forward, 7));
    assert_eq!(flood_step(false, 0), (ControlFate::Drop { warn: true }, 1));
    assert_eq!(flood_step(false, 1), (ControlFate::Drop { warn: false }, 2));
    assert_eq!(flood_step(false, MAX_DROPPED_CONTROL - 1), (ControlFate::Drop { warn: false }, MAX_DROPPED_CONTROL));
    assert_eq!(flood_step(false, MAX_DROPPED_CONTROL), (ControlFate::Disconnect, MAX_DROPPED_CONTROL + 1));
    assert_eq!(flood_step(false, u32::MAX), (ControlFate::Disconnect, u32::MAX));
}
