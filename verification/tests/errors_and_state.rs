use sound_push_core::error::{stop_reason_code, EngineError, ErrorView, FixAction, Severity, StopReason};
use sound_push_core::state::{ConnectionStatus, RouteKind};

/// Codes are public API: a missing, duplicated or reshaped one breaks support links.
#[test]
fn every_error_has_its_own_well_formed_code() {
    let errors = [
        EngineError::DeviceNotFound,
        EngineError::Unreachable,
        EngineError::NetworkBlocked,
        EngineError::FirewallBlocked,
        EngineError::NotPaired,
        EngineError::PairingRejected,
        EngineError::PairingExpired,
        EngineError::PairingRateLimited,
        EngineError::Revoked,
        EngineError::IncompatibleVersion,
        EngineError::PeerDenied,
        EngineError::MicPermissionDenied,
        EngineError::AudioDevice(String::new()),
        EngineError::LoopbackUnsupported,
        EngineError::VirtualMicMissing,
        EngineError::RouteNotFound,
        EngineError::InvalidInput(String::new()),
        EngineError::Storage(String::new()),
        EngineError::Stopped,
        EngineError::Starting,
        EngineError::Cancelled,
        EngineError::Internal(String::new()),
    ];
    let mut codes: Vec<&str> = errors.iter().map(EngineError::code).collect();
    let total = codes.len();
    codes.sort_unstable();
    codes.dedup();
    assert_eq!(codes.len(), total, "two errors share a code");
    for code in &codes {
        let parts: Vec<&str> = code.split('-').collect();
        assert_eq!(parts.len(), 3, "{code}");
        assert_eq!(parts[0], "SP");
        assert!(parts[1].len() == 3 && parts[1].bytes().all(|b| b.is_ascii_uppercase()));
        assert!(parts[2].len() == 3 && parts[2].bytes().all(|b| b.is_ascii_digit()));
    }
    assert_eq!(ErrorView::from(&EngineError::NetworkBlocked).code, "SP-NET-004");
}

#[test]
fn stop_reason_codes_carry_the_wire_value() {
    for reason in [
        StopReason::Unspecified,
        StopReason::UserStopped,
        StopReason::PeerStopped,
        StopReason::PermissionDenied,
        StopReason::PermissionRevoked,
        StopReason::DeviceBusy,
        StopReason::AudioDeviceLost,
        StopReason::CallInterruption,
        StopReason::Superseded,
        StopReason::IncompatibleVersion,
        StopReason::NetworkLost,
        StopReason::UnsupportedEndpoint,
        StopReason::Timeout,
        StopReason::RateLimited,
    ] {
        assert_eq!(stop_reason_code(reason), format!("SP-SES-{:03}", reason.wire_value()));
    }
}

#[test]
fn error_views_carry_every_field_of_the_error() {
    let v = ErrorView::of(&EngineError::AudioDevice("USB Mic".to_string()));
    assert_eq!(v.code, "SP-AUD-001");
    assert_eq!(v.fix, Some(FixAction::ChooseAnotherDevice));
    assert!(v.message.contains("USB Mic"));
    let v = ErrorView::of(&EngineError::Unreachable);
    assert_eq!(v.fix, Some(FixAction::RetryConnection));
    assert_eq!(v.severity, EngineError::Unreachable.severity());
    assert_eq!(v.retryable, EngineError::Unreachable.retryable());
    assert_eq!(EngineError::Cancelled.fix(), None);
    assert_ne!(EngineError::Internal(String::new()).severity(), Severity::Info);
}

#[test]
fn route_kinds_mirror_and_map_endpoints() {
    for kind in [
        RouteKind::SendSystemAudio,
        RouteKind::SendAppAudio,
        RouteKind::SendMicToVirtualMic,
        RouteKind::SendMicToSpeaker,
    ] {
        let (src, sink) = kind.endpoints();
        assert_eq!(RouteKind::from_endpoints(src, sink, true), Some(kind));
        assert_eq!(RouteKind::from_endpoints(src, sink, false), Some(kind.mirrored()));
        assert_eq!(kind.mirrored().mirrored(), kind);
        assert!(kind.local_is_source());
        assert!(!kind.mirrored().local_is_source());
    }
    assert_eq!(RouteKind::from_endpoints("x", "y", true), None);
}

#[test]
fn microphone_routes_are_the_mic_kinds() {
    assert!(RouteKind::SendMicToVirtualMic.is_mic());
    assert!(RouteKind::ReceiveMicToSpeaker.is_mic());
    assert!(!RouteKind::SendSystemAudio.is_mic());
    assert!(ConnectionStatus::Connected.is_connected());
    assert!(!ConnectionStatus::Disconnected.is_connected());
}
