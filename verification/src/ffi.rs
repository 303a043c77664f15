//! The mobile binding surface: errors as the apps see them, the names they send for route
//! kinds, permissions and policies, and the callbacks they implement.
//!
//! Commands take simple values; the engine state crosses the boundary as JSON.

use vstd::prelude::*;
use crate::audit::{permission_label, policy_label, PermissionKind, Policy};
use crate::error::{error_fix, error_key, error_message, EngineError, FixAction};
use crate::state::RouteKind;
use crate::text::str_eq;

verus! {

/// An engine error as the apps receive it.
#[derive(Debug, Clone)]
pub enum FfiError {
    // Not named `message`: Kotlin exceptions already define that property.
    Engine { key: String, detail: String, fix: Option<String> },
}

/// Implemented by the app (Kotlin/Swift).
pub trait MobilePlatform: Send + Sync {
    /// Absolute path of the app's private files directory.
    fn data_dir(&self) -> String;

    /// 32 random bytes protected by the OS keystore.
    fn storage_key(&self) -> Vec<u8>;

    fn device_name(&self) -> String;

    fn microphone_permitted(&self) -> bool;

    /// Whether app-audio capture (Android 10+ playback capture) can be offered.
    fn app_audio_supported(&self) -> bool;

    /// Start/update/stop the foreground service with these activity types.
    fn keep_alive(&self, playback: bool, microphone: bool, app_audio: bool);

    /// A prompt needs the user while the app may be in the background.
    fn attention_needed(&self, key: String, peer_name: String);
}

/// Receives state updates as JSON.
pub trait StateListener: Send + Sync {
    fn on_state(&self, state_json: String);
}

/// The name the apps use for a fix action.
pub open spec fn fix_label(f: FixAction) -> Seq<char> {
    match f {
        FixAction::OpenMicPermissionSettings => "openMicPermissionSettings"@,
        FixAction::InstallVirtualMic => "installVirtualMic"@,
        FixAction::OpenFirewallFix => "openFirewallFix"@,
        FixAction::SwitchToUsb => "switchToUsb"@,
        FixAction::UpdatePeerApp => "updatePeerApp"@,
        FixAction::RetryConnection => "retryConnection"@,
        FixAction::PairAgain => "pairAgain"@,
        FixAction::OpenBatterySettings => "openBatterySettings"@,
        FixAction::ChooseAnotherDevice => "chooseAnotherDevice"@,
    }
}

/// The name the apps use for a fix action.
pub fn fix_name(f: FixAction) -> (r: &'static str)
    ensures
        r@ == fix_label(f),
{
    match f {
        FixAction::OpenMicPermissionSettings => "openMicPermissionSettings",
        FixAction::InstallVirtualMic => "installVirtualMic",
        FixAction::OpenFirewallFix => "openFirewallFix",
        FixAction::SwitchToUsb => "switchToUsb",
        FixAction::UpdatePeerApp => "updatePeerApp",
        FixAction::RetryConnection => "retryConnection",
        FixAction::PairAgain => "pairAgain",
        FixAction::OpenBatterySettings => "openBatterySettings",
        FixAction::ChooseAnotherDevice => "chooseAnotherDevice",
    }
}

/// The error the apps receive for `e`: its localization key, its message, and the name of the
/// fix the UI can offer.
pub open spec fn is_ffi_error_of(r: FfiError, e: EngineError) -> bool {
    match r {
        FfiError::Engine { key, detail, fix } => {
            &&& key@ == error_key(e)
            &&& detail@ == error_message(e)
            &&& match (fix, error_fix(e)) {
                (Some(name), Some(f)) => name@ == fix_label(f),
                (None, None) => true,
                _ => false,
            }
        },
    }
}

impl FfiError {
    /// The error the apps receive for an engine error.
    pub fn of(e: &EngineError) -> (r: FfiError)
        ensures
            is_ffi_error_of(r, *e),
    {
        let fix = match e.fix() {
            Some(f) => Some(fix_name(f).to_owned()),
            None => None,
        };
        FfiError::Engine { key: e.key().to_owned(), detail: e.message(), fix }
    }
}

impl From<EngineError> for FfiError {
    fn from(e: EngineError) -> (r: FfiError)
        ensures
            is_ffi_error_of(r, e),
    {
        FfiError::of(&e)
    }
}

impl vstd::std_specs::convert::FromSpecImpl<EngineError> for FfiError {
    /// The error holds strings, whose identity is not fixed by their contents: what `from`
    /// returns is stated by its own `ensures` (the same as [`FfiError::of`]'s).
    open spec fn obeys_from_spec() -> bool {
        false
    }

    open spec fn from_spec(v: EngineError) -> FfiError {
        arbitrary()
    }
}

/// An input the apps sent cannot be used.
pub fn invalid(what: &str) -> (r: FfiError)
    ensures
        match r {
            FfiError::Engine { key, detail, fix } => {
                &&& key@ == "error.input.invalid"@
                &&& detail@ == "invalid input: "@ + what@
                &&& fix is None
            },
        },
{
    let e = EngineError::InvalidInput(what.to_owned());
    FfiError::of(&e)
}

/// `r` is the error for an unusable input, naming `what`.
pub open spec fn invalid_input(r: FfiError, what: Seq<char>) -> bool {
    match r {
        FfiError::Engine { key, detail, fix } => {
            &&& key@ == "error.input.invalid"@
            &&& detail@ == "invalid input: "@ + what
            &&& fix is None
        },
    }
}

/// The name the apps use for a route kind.
pub open spec fn route_kind_label(k: RouteKind) -> Seq<char> {
    match k {
        RouteKind::SendSystemAudio => "sendSystemAudio"@,
        RouteKind::SendAppAudio => "sendAppAudio"@,
        RouteKind::SendMicToVirtualMic => "sendMicToVirtualMic"@,
        RouteKind::SendMicToSpeaker => "sendMicToSpeaker"@,
        RouteKind::ReceiveSystemAudio => "receiveSystemAudio"@,
        RouteKind::ReceiveAppAudio => "receiveAppAudio"@,
        RouteKind::ReceiveMicToVirtualMic => "receiveMicToVirtualMic"@,
        RouteKind::ReceiveMicToSpeaker => "receiveMicToSpeaker"@,
    }
}

/// A route kind from the name the apps use.
pub fn parse_kind(kind: &str) -> (r: Result<RouteKind, FfiError>)
    ensures
        match r {
            Ok(k) => kind@ == route_kind_label(k),
            Err(e) => (forall|k: RouteKind| kind@ != route_kind_label(k)) && invalid_input(
                e,
                "route kind"@,
            ),
        },
{
    if str_eq(kind, "sendSystemAudio") {
        Ok(RouteKind::SendSystemAudio)
    } else if str_eq(kind, "sendAppAudio") {
        Ok(RouteKind::SendAppAudio)
    } else if str_eq(kind, "sendMicToVirtualMic") {
        Ok(RouteKind::SendMicToVirtualMic)
    } else if str_eq(kind, "sendMicToSpeaker") {
        Ok(RouteKind::SendMicToSpeaker)
    } else if str_eq(kind, "receiveSystemAudio") {
        Ok(RouteKind::ReceiveSystemAudio)
    } else if str_eq(kind, "receiveAppAudio") {
        Ok(RouteKind::ReceiveAppAudio)
    } else if str_eq(kind, "receiveMicToVirtualMic") {
        Ok(RouteKind::ReceiveMicToVirtualMic)
    } else if str_eq(kind, "receiveMicToSpeaker") {
        Ok(RouteKind::ReceiveMicToSpeaker)
    } else {
        Err(invalid("route kind"))
    }
}

/// A permission from the name the apps use.
pub fn parse_permission(kind: &str) -> (r: Result<PermissionKind, FfiError>)
    ensures
        match r {
            Ok(k) => kind@ == permission_label(k),
            Err(e) => (forall|k: PermissionKind| kind@ != permission_label(k)) && invalid_input(
                e,
                "permission"@,
            ),
        },
{
    if str_eq(kind, "receiveMyAudio") {
        Ok(PermissionKind::ReceiveMyAudio)
    } else if str_eq(kind, "useMyMicrophone") {
        Ok(PermissionKind::UseMyMicrophone)
    } else if str_eq(kind, "sendAudioToMe") {
        Ok(PermissionKind::SendAudioToMe)
    } else if str_eq(kind, "controlMe") {
        Ok(PermissionKind::ControlMe)
    } else {
        Err(invalid("permission"))
    }
}

/// A policy from the name the apps use.
pub fn parse_policy(policy: &str) -> (r: Result<Policy, FfiError>)
    ensures
        match r {
            Ok(p) => policy@ == policy_label(p),
            Err(e) => (forall|p: Policy| policy@ != policy_label(p)) && invalid_input(
                e,
                "policy"@,
            ),
        },
{
    if str_eq(policy, "allow") {
        Ok(Policy::Allow)
    } else if str_eq(policy, "ask") {
        Ok(Policy::Ask)
    } else if str_eq(policy, "deny") {
        Ok(Policy::Deny)
    } else {
        Err(invalid("policy"))
    }
}

} // verus!
