use sound_push_core::audit::{AuditKind, PermissionKind, Policy};
use sound_push_core::devices::{
    command_step, Action, Command, DeviceModel, Permissions, RouteRef, SavedRouteRef, TrustedDevice,
};
use sound_push_core::error::{EngineError, StopReason};
use sound_push_core::state::RouteKind;

const PHONE: u128 = 0x11;
const LAPTOP: u128 = 0x22;

fn perms(p: Policy) -> Permissions {
    Permissions { receive_my_audio: p, use_my_microphone: p, send_audio_to_me: p, control_me: p }
}

fn device(id: u128) -> TrustedDevice {
    TrustedDevice { id, auto_connect: true, blocked: false, permissions: perms(Policy::Ask) }
}

fn model() -> DeviceModel {
    DeviceModel {
        trusted: vec![device(PHONE), device(LAPTOP)],
        sessions: vec![PHONE],
        dials: vec![LAPTOP],
        routes: vec![
            RouteRef { key: 1, peer: PHONE, kind: RouteKind::SendSystemAudio, requested_locally: false, active: true, keep_running: false },
            RouteRef { key: 2, peer: PHONE, kind: RouteKind::SendMicToSpeaker, requested_locally: true, active: true, keep_running: false },
            RouteRef { key: 3, peer: LAPTOP, kind: RouteKind::SendSystemAudio, requested_locally: false, active: true, keep_running: false },
        ],
        qr_open: true,
        foreground: true,
        saved_routes: vec![SavedRouteRef { peer: PHONE, kind: RouteKind::SendMicToSpeaker, keep: false }],
        resume_routes_on_start: false,
        prefer_lossless: false,
        notices: vec![7, 8],
    }
}

#[test]
fn forgetting_a_device_ends_everything_of_it() {
    let (m, actions) = command_step(&model(), Command::Forget(PHONE));
    assert_eq!(m.trusted, vec![device(LAPTOP)]);
    assert!(m.sessions.is_empty());
    assert_eq!(m.routes.len(), 1);
    assert_eq!(
        actions,
        vec![
            Action::StopRoute { key: 1, reason: StopReason::Unspecified, notify: false },
            Action::StopRoute { key: 2, reason: StopReason::Unspecified, notify: false },
            Action::CancelDial(PHONE),
            Action::ForgetResume(PHONE),
            Action::EndNetworkTest(PHONE, EngineError::Revoked),
            Action::CloseSession(PHONE, StopReason::PermissionRevoked),
            Action::Audit(AuditKind::DeviceForgotten, PHONE),
            Action::DropDeviceSettings(PHONE),
        ]
    );
}

#[test]
fn disconnecting_turns_auto_connect_off() {
    let (m, actions) = command_step(&model(), Command::Disconnect(PHONE));
    assert!(!m.trusted[0].auto_connect && m.trusted[1].auto_connect);
    assert!(m.sessions.is_empty());
    assert_eq!(actions[1], Action::CloseSession(PHONE, StopReason::UserStopped));
    assert_eq!(actions.last(), Some(&Action::EndNetworkTest(PHONE, EngineError::Unreachable)));
}

#[test]
fn connect_dials_only_a_trusted_unblocked_device_without_a_session() {
    let (m, actions) = command_step(&model(), Command::Connect(LAPTOP));
    assert_eq!(m.dials, vec![LAPTOP]);
    assert_eq!(actions, vec![Action::ResetBackoff(LAPTOP), Action::Dial(LAPTOP)]);
    let (_, actions) = command_step(&model(), Command::Connect(PHONE));
    assert_eq!(actions, vec![Action::ResetBackoff(PHONE)]);
    let (m, _) = command_step(&model(), Command::SetBlocked(LAPTOP, true));
    assert!(m.dials.is_empty());
    let (_, actions) = command_step(&m, Command::Connect(LAPTOP));
    assert_eq!(actions, vec![Action::ResetBackoff(LAPTOP)]);
    let (m, actions) = command_step(&model(), Command::Connect(0x99));
    assert_eq!(m.dials, vec![LAPTOP, 0x99]);
    assert_eq!(actions, vec![Action::ResetBackoff(0x99)]);
}

#[test]
fn denying_a_permission_stops_the_routes_it_covered() {
    let (m, actions) = command_step(
        &model(),
        Command::SetPermission(PHONE, PermissionKind::ReceiveMyAudio, Policy::Deny),
    );
    assert_eq!(m.trusted[0].permissions.receive_my_audio, Policy::Deny);
    assert_eq!(
        actions,
        vec![
            Action::AuditPermission(PHONE, PermissionKind::ReceiveMyAudio, Policy::Deny),
            Action::StopRoute { key: 1, reason: StopReason::PermissionRevoked, notify: true },
        ]
    );
    assert_eq!(m.routes.iter().map(|r| r.key).collect::<Vec<_>>(), vec![2, 3]);
    // Allowing changes the entry and stops nothing.
    let (_, actions) = command_step(
        &model(),
        Command::SetPermission(PHONE, PermissionKind::ReceiveMyAudio, Policy::Allow),
    );
    assert_eq!(actions.len(), 1);
}

#[test]
fn pairing_mode_network_and_background() {
    let (m, actions) = command_step(&model(), Command::StopPairing);
    assert!(!m.qr_open);
    assert_eq!(actions, vec![Action::UpdateDiscovery]);
    let (_, actions) = command_step(&model(), Command::NetworkChanged);
    assert_eq!(
        actions,
        vec![Action::ResetAllBackoffs, Action::RefreshLocalAddresses, Action::UpdateDiscovery]
    );
    let (m, actions) = command_step(&model(), Command::SetForeground(false));
    assert!(!m.foreground);
    assert_eq!(actions, vec![Action::FlushTrust]);
    let (m, actions) = command_step(&model(), Command::SetAutoConnect(LAPTOP, false));
    assert!(!m.trusted[1].auto_connect && actions.is_empty());
    let (_, actions) = command_step(&model(), Command::SetBlocked(LAPTOP, false));
    assert_eq!(actions, vec![Action::Audit(AuditKind::DeviceUnblocked, LAPTOP)]);
}

#[test]
fn keep_running_saves_or_unsaves_the_route() {
    let (m, actions) = command_step(&model(), Command::SetRouteKeepRunning(2, true));
    assert_eq!(actions, vec![Action::SaveSettings]);
    assert!(m.routes[1].keep_running && !m.routes[0].keep_running);
    assert_eq!(m.saved_routes, vec![SavedRouteRef { peer: PHONE, kind: RouteKind::SendMicToSpeaker, keep: true }]);
    let (m, _) = command_step(&m, Command::SetRouteKeepRunning(2, false));
    assert!(m.saved_routes.is_empty());
    // With "Resume streams after restart" on, a route started here stays saved, not kept.
    let mut resuming = model();
    resuming.resume_routes_on_start = true;
    let (m, _) = command_step(&resuming, Command::SetRouteKeepRunning(2, false));
    assert_eq!(m.saved_routes, vec![SavedRouteRef { peer: PHONE, kind: RouteKind::SendMicToSpeaker, keep: false }]);
    let (_, actions) = command_step(&model(), Command::SetRouteKeepRunning(99, true));
    assert!(actions.is_empty());
}

#[test]
fn lossless_preference_reconfigures_routes_started_here() {
    let (m, actions) = command_step(&model(), Command::PreferLossless(true));
    assert!(m.prefer_lossless);
    assert_eq!(actions, vec![Action::ReconfigureRoute(2)]);
    let (_, actions) = command_step(&model(), Command::PreferLossless(false));
    assert!(actions.is_empty());
    let (m, _) = command_step(&model(), Command::DismissNotice(7));
    assert_eq!(m.notices, vec![8]);
}
