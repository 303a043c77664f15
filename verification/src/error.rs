//! Engine error taxonomy shared by every platform.
//!
//! Each error maps to a stable message key (localized by the UI), a stable support code, a
//! severity, whether retrying can help, and an optional one-tap fix action.
//!
//! Codes never change: `SP-<AREA>-<NNN>` identifies one failure whatever language the app
//! runs in, so a user can quote it and a maintainer can look it up.

use vstd::prelude::*;

verus! {

#[derive(Debug, Clone, Copy, PartialEq, Eq, Structural)]
pub enum Severity {
    Info,
    Warning,
    Error,
}

/// A fix the UI can offer as the primary button.
#[derive(Debug, Clone, Copy, PartialEq, Eq, Structural)]
pub enum FixAction {
    OpenMicPermissionSettings,
    InstallVirtualMic,
    OpenFirewallFix,
    SwitchToUsb,
    UpdatePeerApp,
    RetryConnection,
    PairAgain,
    OpenBatterySettings,
    ChooseAnotherDevice,
}

#[derive(Debug, Clone, PartialEq, Eq)]
pub enum EngineError {
    DeviceNotFound,
    Unreachable,
    NetworkBlocked,
    FirewallBlocked,
    NotPaired,
    PairingRejected,
    PairingExpired,
    PairingRateLimited,
    Revoked,
    IncompatibleVersion,
    PeerDenied,
    MicPermissionDenied,
    AudioDevice(String),
    LoopbackUnsupported,
    VirtualMicMissing,
    RouteNotFound,
    InvalidInput(String),
    Storage(String),
    Stopped,
    Starting,
    Cancelled,
    Internal(String),
}

/// Stable support code of an error.
pub open spec fn error_code(e: EngineError) -> Seq<char> {
    match e {
        EngineError::Unreachable => "SP-NET-001"@,
        EngineError::DeviceNotFound => "SP-NET-002"@,
        EngineError::FirewallBlocked => "SP-NET-003"@,
        EngineError::NetworkBlocked => "SP-NET-004"@,
        EngineError::NotPaired => "SP-SEC-001"@,
        EngineError::PairingRejected => "SP-SEC-002"@,
        EngineError::PairingExpired => "SP-SEC-003"@,
        EngineError::PairingRateLimited => "SP-SEC-004"@,
        EngineError::Revoked => "SP-SEC-005"@,
        EngineError::IncompatibleVersion => "SP-CMP-001"@,
        EngineError::PeerDenied => "SP-PRM-001"@,
        EngineError::MicPermissionDenied => "SP-PRM-002"@,
        EngineError::AudioDevice(_) => "SP-AUD-001"@,
        EngineError::LoopbackUnsupported => "SP-AUD-002"@,
        EngineError::VirtualMicMissing => "SP-AUD-003"@,
        EngineError::RouteNotFound => "SP-CFG-001"@,
        EngineError::InvalidInput(_) => "SP-CFG-002"@,
        EngineError::Storage(_) => "SP-SYS-001"@,
        EngineError::Stopped => "SP-SYS-002"@,
        EngineError::Starting => "SP-SYS-003"@,
        EngineError::Cancelled => "SP-SYS-004"@,
        EngineError::Internal(_) => "SP-SYS-005"@,
    }
}

/// Stable localization key of an error.
pub open spec fn error_key(e: EngineError) -> Seq<char> {
    match e {
        EngineError::DeviceNotFound => "error.device.notFound"@,
        EngineError::Unreachable => "error.network.unreachable"@,
        EngineError::NetworkBlocked => "error.network.blocked"@,
        EngineError::FirewallBlocked => "error.network.firewall"@,
        EngineError::NotPaired => "error.security.notPaired"@,
        EngineError::PairingRejected => "error.security.pairingRejected"@,
        EngineError::PairingExpired => "error.security.pairingExpired"@,
        EngineError::PairingRateLimited => "error.security.pairingRateLimited"@,
        EngineError::Revoked => "error.security.revoked"@,
        EngineError::IncompatibleVersion => "error.compat.version"@,
        EngineError::PeerDenied => "error.permission.peerDenied"@,
        EngineError::MicPermissionDenied => "error.permission.mic"@,
        EngineError::AudioDevice(_) => "error.audio.device"@,
        EngineError::LoopbackUnsupported => "error.audio.loopbackUnsupported"@,
        EngineError::VirtualMicMissing => "error.audio.virtualMicMissing"@,
        EngineError::RouteNotFound => "error.route.notFound"@,
        EngineError::InvalidInput(_) => "error.input.invalid"@,
        EngineError::Storage(_) => "error.storage"@,
        EngineError::Stopped => "error.engine.stopped"@,
        EngineError::Starting => "error.engine.starting"@,
        EngineError::Cancelled => "error.cancelled"@,
        EngineError::Internal(_) => "error.internal"@,
    }
}

/// Human-readable message of an error (English; the UI localizes by key).
pub open spec fn error_message(e: EngineError) -> Seq<char> {
    match e {
        EngineError::DeviceNotFound => "device not found"@,
        EngineError::Unreachable => "device unreachable"@,
        EngineError::NetworkBlocked => "network blocks local devices"@,
        EngineError::FirewallBlocked => "firewall blocks incoming connections"@,
        EngineError::NotPaired => "device is not paired"@,
        EngineError::PairingRejected => "pairing rejected"@,
        EngineError::PairingExpired => "pairing code expired"@,
        EngineError::PairingRateLimited => "too many pairing attempts; try again in a minute"@,
        EngineError::Revoked => "device was removed or blocked"@,
        EngineError::IncompatibleVersion => "peer runs an incompatible version"@,
        EngineError::PeerDenied => "permission denied by the other device"@,
        EngineError::MicPermissionDenied => "microphone permission denied"@,
        EngineError::AudioDevice(s) => "audio device unavailable: "@ + s@,
        EngineError::LoopbackUnsupported => "system audio capture unsupported"@,
        EngineError::VirtualMicMissing => "virtual microphone not installed"@,
        EngineError::RouteNotFound => "route not found"@,
        EngineError::InvalidInput(s) => "invalid input: "@ + s@,
        EngineError::Storage(s) => "storage error: "@ + s@,
        EngineError::Stopped => "engine stopped"@,
        EngineError::Starting => "engine is starting"@,
        EngineError::Cancelled => "cancelled"@,
        EngineError::Internal(s) => "internal error: "@ + s@,
    }
}

pub open spec fn error_severity(e: EngineError) -> Severity {
    match e {
        EngineError::DeviceNotFound
        | EngineError::RouteNotFound
        | EngineError::InvalidInput(_)
        | EngineError::PairingRateLimited
        | EngineError::Cancelled => Severity::Warning,
        _ => Severity::Error,
    }
}

pub open spec fn error_retryable(e: EngineError) -> bool {
    match e {
        EngineError::Unreachable
        | EngineError::NetworkBlocked
        | EngineError::FirewallBlocked
        | EngineError::AudioDevice(_) => true,
        _ => false,
    }
}

pub open spec fn error_fix(e: EngineError) -> Option<FixAction> {
    match e {
        EngineError::Unreachable => Some(FixAction::RetryConnection),
        EngineError::NetworkBlocked => Some(FixAction::SwitchToUsb),
        EngineError::FirewallBlocked => Some(FixAction::OpenFirewallFix),
        EngineError::NotPaired | EngineError::Revoked | EngineError::PairingExpired => Some(
            FixAction::PairAgain,
        ),
        EngineError::IncompatibleVersion => Some(FixAction::UpdatePeerApp),
        EngineError::MicPermissionDenied => Some(FixAction::OpenMicPermissionSettings),
        EngineError::AudioDevice(_) => Some(FixAction::ChooseAnotherDevice),
        EngineError::VirtualMicMissing => Some(FixAction::InstallVirtualMic),
        _ => None,
    }
}

impl EngineError {
    /// Stable support code, e.g. `SP-NET-004`.
    pub fn code(&self) -> (r: &'static str)
        ensures
            r@ == error_code(*self),
    {
        match self {
            EngineError::Unreachable => "SP-NET-001",
            EngineError::DeviceNotFound => "SP-NET-002",
            EngineError::FirewallBlocked => "SP-NET-003",
            EngineError::NetworkBlocked => "SP-NET-004",
            EngineError::NotPaired => "SP-SEC-001",
            EngineError::PairingRejected => "SP-SEC-002",
            EngineError::PairingExpired => "SP-SEC-003",
            EngineError::PairingRateLimited => "SP-SEC-004",
            EngineError::Revoked => "SP-SEC-005",
            EngineError::IncompatibleVersion => "SP-CMP-001",
            EngineError::PeerDenied => "SP-PRM-001",
            EngineError::MicPermissionDenied => "SP-PRM-002",
            EngineError::AudioDevice(_) => "SP-AUD-001",
            EngineError::LoopbackUnsupported => "SP-AUD-002",
            EngineError::VirtualMicMissing => "SP-AUD-003",
            EngineError::RouteNotFound => "SP-CFG-001",
            EngineError::InvalidInput(_) => "SP-CFG-002",
            EngineError::Storage(_) => "SP-SYS-001",
            EngineError::Stopped => "SP-SYS-002",
            EngineError::Starting => "SP-SYS-003",
            EngineError::Cancelled => "SP-SYS-004",
            EngineError::Internal(_) => "SP-SYS-005",
        }
    }
}


impl EngineError {
    /// Stable localization key, e.g. `error.network.unreachable`.
    pub fn key(&self) -> (r: &'static str)
        ensures
            r@ == error_key(*self),
    {
        match self {
            EngineError::DeviceNotFound => "error.device.notFound",
            EngineError::Unreachable => "error.network.unreachable",
            EngineError::NetworkBlocked => "error.network.blocked",
            EngineError::FirewallBlocked => "error.network.firewall",
            EngineError::NotPaired => "error.security.notPaired",
            EngineError::PairingRejected => "error.security.pairingRejected",
            EngineError::PairingExpired => "error.security.pairingExpired",
            EngineError::PairingRateLimited => "error.security.pairingRateLimited",
            EngineError::Revoked => "error.security.revoked",
            EngineError::IncompatibleVersion => "error.compat.version",
            EngineError::PeerDenied => "error.permission.peerDenied",
            EngineError::MicPermissionDenied => "error.permission.mic",
            EngineError::AudioDevice(_) => "error.audio.device",
            EngineError::LoopbackUnsupported => "error.audio.loopbackUnsupported",
            EngineError::VirtualMicMissing => "error.audio.virtualMicMissing",
            EngineError::RouteNotFound => "error.route.notFound",
            EngineError::InvalidInput(_) => "error.input.invalid",
            EngineError::Storage(_) => "error.storage",
            EngineError::Stopped => "error.engine.stopped",
            EngineError::Starting => "error.engine.starting",
            EngineError::Cancelled => "error.cancelled",
            EngineError::Internal(_) => "error.internal",
        }
    }

    pub fn severity(&self) -> (r: Severity)
        ensures
            r == error_severity(*self),
    {
        match self {
            EngineError::DeviceNotFound
            | EngineError::RouteNotFound
            | EngineError::InvalidInput(_)
            | EngineError::PairingRateLimited
            | EngineError::Cancelled => Severity::Warning,
            _ => Severity::Error,
        }
    }

    pub fn retryable(&self) -> (r: bool)
        ensures
            r == error_retryable(*self),
    {
        match self {
            EngineError::Unreachable
            | EngineError::NetworkBlocked
            | EngineError::FirewallBlocked
            | EngineError::AudioDevice(_) => true,
            _ => false,
        }
    }

    pub fn fix(&self) -> (r: Option<FixAction>)
        ensures
            r == error_fix(*self),
    {
        match self {
            EngineError::Unreachable => Some(FixAction::RetryConnection),
            EngineError::NetworkBlocked => Some(FixAction::SwitchToUsb),
            EngineError::FirewallBlocked => Some(FixAction::OpenFirewallFix),
            EngineError::NotPaired | EngineError::Revoked | EngineError::PairingExpired => Some(
                FixAction::PairAgain,
            ),
            EngineError::IncompatibleVersion => Some(FixAction::UpdatePeerApp),
            EngineError::MicPermissionDenied => Some(FixAction::OpenMicPermissionSettings),
            EngineError::AudioDevice(_) => Some(FixAction::ChooseAnotherDevice),
            EngineError::VirtualMicMissing => Some(FixAction::InstallVirtualMic),
            _ => None,
        }
    }

    /// The error's message, as the error's display text reads.
    pub fn message(&self) -> (r: String)
        ensures
            r@ == error_message(*self),
    {
        match self {
            EngineError::DeviceNotFound => String::from_str("device not found"),
            EngineError::Unreachable => String::from_str("device unreachable"),
            EngineError::NetworkBlocked => String::from_str("network blocks local devices"),
            EngineError::FirewallBlocked => String::from_str(
                "firewall blocks incoming connections",
            ),
            EngineError::NotPaired => String::from_str("device is not paired"),
            EngineError::PairingRejected => String::from_str("pairing rejected"),
            EngineError::PairingExpired => String::from_str("pairing code expired"),
            EngineError::PairingRateLimited => String::from_str(
                "too many pairing attempts; try again in a minute",
            ),
            EngineError::Revoked => String::from_str("device was removed or blocked"),
            EngineError::IncompatibleVersion => String::from_str(
                "peer runs an incompatible version",
            ),
            EngineError::PeerDenied => String::from_str("permission denied by the other device"),
            EngineError::MicPermissionDenied => String::from_str("microphone permission denied"),
            EngineError::AudioDevice(s) => {
                let mut m = String::from_str("audio device unavailable: ");
                m.append(s.as_str());
                m
            },
            EngineError::LoopbackUnsupported => String::from_str(
                "system audio capture unsupported",
            ),
            EngineError::VirtualMicMissing => String::from_str("virtual microphone not installed"),
            EngineError::RouteNotFound => String::from_str("route not found"),
            EngineError::InvalidInput(s) => {
                let mut m = String::from_str("invalid input: ");
                m.append(s.as_str());
                m
            },
            EngineError::Storage(s) => {
                let mut m = String::from_str("storage error: ");
                m.append(s.as_str());
                m
            },
            EngineError::Stopped => String::from_str("engine stopped"),
            EngineError::Starting => String::from_str("engine is starting"),
            EngineError::Cancelled => String::from_str("cancelled"),
            EngineError::Internal(s) => {
                let mut m = String::from_str("internal error: ");
                m.append(s.as_str());
                m
            },
        }
    }
}

/// Serializable error for UIs.
#[derive(Debug, Clone)]
pub struct ErrorView {
    /// Stable support code, e.g. `SP-NET-004`. Shown next to the message and in diagnostics.
    pub code: &'static str,
    pub key: &'static str,
    pub message: String,
    pub severity: Severity,
    pub retryable: bool,
    pub fix: Option<FixAction>,
}

/// The view a UI shows for an error: every field is the error's own.
pub open spec fn error_view_of(view: ErrorView, e: EngineError) -> bool {
    &&& view.code@ == error_code(e)
    &&& view.key@ == error_key(e)
    &&& view.message@ == error_message(e)
    &&& view.severity == error_severity(e)
    &&& view.retryable == error_retryable(e)
    &&& view.fix == error_fix(e)
}

impl ErrorView {
    pub fn of(e: &EngineError) -> (r: ErrorView)
        ensures
            error_view_of(r, *e),
    {
        ErrorView {
            code: e.code(),
            key: e.key(),
            message: e.message(),
            severity: e.severity(),
            retryable: e.retryable(),
            fix: e.fix(),
        }
    }
}


impl<'a> From<&'a EngineError> for ErrorView {
    fn from(e: &'a EngineError) -> (r: ErrorView)
        ensures
            error_view_of(r, *e),
    {
        ErrorView::of(e)
    }
}

impl<'a> vstd::std_specs::convert::FromSpecImpl<&'a EngineError> for ErrorView {
    /// The view holds strings, whose identity is not fixed by their contents: what `from`
    /// returns is stated by its own `ensures` (the same as [`ErrorView::of`]'s).
    open spec fn obeys_from_spec() -> bool {
        false
    }

    open spec fn from_spec(v: &'a EngineError) -> ErrorView {
        arbitrary()
    }
}


/// A well-formed support code: `SP-`, three capital letters, `-`, three digits.
pub open spec fn well_formed_code(c: Seq<char>) -> bool {
    &&& c.len() == 10
    &&& c[0] == 'S' && c[1] == 'P' && c[2] == '-'
    &&& 'A' <= c[3] <= 'Z' && 'A' <= c[4] <= 'Z' && 'A' <= c[5] <= 'Z'
    &&& c[6] == '-'
    &&& '0' <= c[7] <= '9' && '0' <= c[8] <= '9' && '0' <= c[9] <= '9'
}

/// Which of the error kinds `e` is, whatever text it carries.
pub open spec fn error_kind_index(e: EngineError) -> int {
    match e {
        EngineError::Unreachable => 0,
        EngineError::DeviceNotFound => 1,
        EngineError::FirewallBlocked => 2,
        EngineError::NetworkBlocked => 3,
        EngineError::NotPaired => 4,
        EngineError::PairingRejected => 5,
        EngineError::PairingExpired => 6,
        EngineError::PairingRateLimited => 7,
        EngineError::Revoked => 8,
        EngineError::IncompatibleVersion => 9,
        EngineError::PeerDenied => 10,
        EngineError::MicPermissionDenied => 11,
        EngineError::AudioDevice(_) => 12,
        EngineError::LoopbackUnsupported => 13,
        EngineError::VirtualMicMissing => 14,
        EngineError::RouteNotFound => 15,
        EngineError::InvalidInput(_) => 16,
        EngineError::Storage(_) => 17,
        EngineError::Stopped => 18,
        EngineError::Starting => 19,
        EngineError::Cancelled => 20,
        EngineError::Internal(_) => 21,
    }
}

/// The characters of a code that tell codes apart (area letters and last digit).
spec fn code_signature(c: Seq<char>) -> int {
    (c[3] as int) * 1000000 + (c[4] as int) * 1000 + (c[9] as int)
}

spec fn expected_signature(e: EngineError) -> int {
    match e {
        EngineError::Unreachable => 78069049,
        EngineError::DeviceNotFound => 78069050,
        EngineError::FirewallBlocked => 78069051,
        EngineError::NetworkBlocked => 78069052,
        EngineError::NotPaired => 83069049,
        EngineError::PairingRejected => 83069050,
        EngineError::PairingExpired => 83069051,
        EngineError::PairingRateLimited => 83069052,
        EngineError::Revoked => 83069053,
        EngineError::IncompatibleVersion => 67077049,
        EngineError::PeerDenied => 80082049,
        EngineError::MicPermissionDenied => 80082050,
        EngineError::AudioDevice(_) => 65085049,
        EngineError::LoopbackUnsupported => 65085050,
        EngineError::VirtualMicMissing => 65085051,
        EngineError::RouteNotFound => 67070049,
        EngineError::InvalidInput(_) => 67070050,
        EngineError::Storage(_) => 83089049,
        EngineError::Stopped => 83089050,
        EngineError::Starting => 83089051,
        EngineError::Cancelled => 83089052,
        EngineError::Internal(_) => 83089053,
    }
}

proof fn lemma_code_signature(e: EngineError)
    ensures
        well_formed_code(error_code(e)),
        code_signature(error_code(e)) == expected_signature(e),
{
    match e {
            EngineError::Unreachable => { reveal_strlit("SP-NET-001"); },
            EngineError::DeviceNotFound => { reveal_strlit("SP-NET-002"); },
            EngineError::FirewallBlocked => { reveal_strlit("SP-NET-003"); },
            EngineError::NetworkBlocked => { reveal_strlit("SP-NET-004"); },
            EngineError::NotPaired => { reveal_strlit("SP-SEC-001"); },
            EngineError::PairingRejected => { reveal_strlit("SP-SEC-002"); },
            EngineError::PairingExpired => { reveal_strlit("SP-SEC-003"); },
            EngineError::PairingRateLimited => { reveal_strlit("SP-SEC-004"); },
            EngineError::Revoked => { reveal_strlit("SP-SEC-005"); },
            EngineError::IncompatibleVersion => { reveal_strlit("SP-CMP-001"); },
            EngineError::PeerDenied => { reveal_strlit("SP-PRM-001"); },
            EngineError::MicPermissionDenied => { reveal_strlit("SP-PRM-002"); },
            EngineError::AudioDevice(_) => { reveal_strlit("SP-AUD-001"); },
            EngineError::LoopbackUnsupported => { reveal_strlit("SP-AUD-002"); },
            EngineError::VirtualMicMissing => { reveal_strlit("SP-AUD-003"); },
            EngineError::RouteNotFound => { reveal_strlit("SP-CFG-001"); },
            EngineError::InvalidInput(_) => { reveal_strlit("SP-CFG-002"); },
            EngineError::Storage(_) => { reveal_strlit("SP-SYS-001"); },
            EngineError::Stopped => { reveal_strlit("SP-SYS-002"); },
            EngineError::Starting => { reveal_strlit("SP-SYS-003"); },
            EngineError::Cancelled => { reveal_strlit("SP-SYS-004"); },
            EngineError::Internal(_) => { reveal_strlit("SP-SYS-005"); },
    }
}

/// Support codes are well formed, and two errors share a code only when they are the same
/// kind of error.
pub proof fn lemma_error_codes_distinct(e1: EngineError, e2: EngineError)
    ensures
        well_formed_code(error_code(e1)),
        error_code(e1) == error_code(e2) ==> error_kind_index(e1) == error_kind_index(e2),
{
    lemma_code_signature(e1);
    lemma_code_signature(e2);
}


/// What tells the message keys apart: length, last character, seventh character and the one
/// before last.
pub open spec fn key_signature(k: Seq<char>) -> (nat, char, char, char) {
    (k.len(), k[k.len() - 1], k[6], k[k.len() - 2])
}

spec fn expected_key_signature(e: EngineError) -> (nat, char, char, char) {
    match e {
        EngineError::DeviceNotFound => (21, 'd', 'd', 'n'),
        EngineError::Unreachable => (25, 'e', 'n', 'l'),
        EngineError::NetworkBlocked => (21, 'd', 'n', 'e'),
        EngineError::FirewallBlocked => (22, 'l', 'n', 'l'),
        EngineError::NotPaired => (24, 'd', 's', 'e'),
        EngineError::PairingRejected => (30, 'd', 's', 'e'),
        EngineError::PairingExpired => (29, 'd', 's', 'e'),
        EngineError::PairingRateLimited => (33, 'd', 's', 'e'),
        EngineError::Revoked => (22, 'd', 's', 'e'),
        EngineError::IncompatibleVersion => (20, 'n', 'c', 'o'),
        EngineError::PeerDenied => (27, 'd', 'p', 'e'),
        EngineError::MicPermissionDenied => (20, 'c', 'p', 'i'),
        EngineError::AudioDevice(_) => (18, 'e', 'a', 'c'),
        EngineError::LoopbackUnsupported => (31, 'd', 'a', 'e'),
        EngineError::VirtualMicMissing => (29, 'g', 'a', 'n'),
        EngineError::RouteNotFound => (20, 'd', 'r', 'n'),
        EngineError::InvalidInput(_) => (19, 'd', 'i', 'i'),
        EngineError::Storage(_) => (13, 'e', 's', 'g'),
        EngineError::Stopped => (20, 'd', 'e', 'e'),
        EngineError::Starting => (21, 'g', 'e', 'n'),
        EngineError::Cancelled => (15, 'd', 'c', 'e'),
        EngineError::Internal(_) => (14, 'l', 'i', 'a'),
    }
}

proof fn lemma_key_signature(e: EngineError)
    ensures
        error_key(e).len() > 6,
        error_key(e).subrange(0, 6) == "error."@,
        key_signature(error_key(e)) == expected_key_signature(e),
{
    reveal_strlit("error.");
    match e {
        EngineError::DeviceNotFound => { reveal_strlit("error.device.notFound"); },
        EngineError::Unreachable => { reveal_strlit("error.network.unreachable"); },
        EngineError::NetworkBlocked => { reveal_strlit("error.network.blocked"); },
        EngineError::FirewallBlocked => { reveal_strlit("error.network.firewall"); },
        EngineError::NotPaired => { reveal_strlit("error.security.notPaired"); },
        EngineError::PairingRejected => { reveal_strlit("error.security.pairingRejected"); },
        EngineError::PairingExpired => { reveal_strlit("error.security.pairingExpired"); },
        EngineError::PairingRateLimited => { reveal_strlit("error.security.pairingRateLimited"); },
        EngineError::Revoked => { reveal_strlit("error.security.revoked"); },
        EngineError::IncompatibleVersion => { reveal_strlit("error.compat.version"); },
        EngineError::PeerDenied => { reveal_strlit("error.permission.peerDenied"); },
        EngineError::MicPermissionDenied => { reveal_strlit("error.permission.mic"); },
        EngineError::AudioDevice(_) => { reveal_strlit("error.audio.device"); },
        EngineError::LoopbackUnsupported => { reveal_strlit("error.audio.loopbackUnsupported"); },
        EngineError::VirtualMicMissing => { reveal_strlit("error.audio.virtualMicMissing"); },
        EngineError::RouteNotFound => { reveal_strlit("error.route.notFound"); },
        EngineError::InvalidInput(_) => { reveal_strlit("error.input.invalid"); },
        EngineError::Storage(_) => { reveal_strlit("error.storage"); },
        EngineError::Stopped => { reveal_strlit("error.engine.stopped"); },
        EngineError::Starting => { reveal_strlit("error.engine.starting"); },
        EngineError::Cancelled => { reveal_strlit("error.cancelled"); },
        EngineError::Internal(_) => { reveal_strlit("error.internal"); },
    }
    assert(error_key(e).subrange(0, 6) =~= "error."@);
}

/// Message keys all start with `error.`, and two errors share a key only when they are the
/// same kind of error; `Unreachable`'s key is `error.network.unreachable`.
pub proof fn lemma_error_keys_distinct(e1: EngineError, e2: EngineError)
    ensures
        error_key(e1).len() > 6,
        error_key(e1).subrange(0, 6) == "error."@,
        error_key(e1) == error_key(e2) <==> error_kind_index(e1) == error_kind_index(e2),
        error_key(EngineError::Unreachable) == "error.network.unreachable"@,
{
    lemma_key_signature(e1);
    lemma_key_signature(e2);
}

/// Why a route or session ended, as the peer reports it on the wire.
#[derive(Debug, Clone, Copy, PartialEq, Eq, Structural)]
pub enum StopReason {
    Unspecified,
    UserStopped,
    PeerStopped,
    PermissionDenied,
    PermissionRevoked,
    DeviceBusy,
    AudioDeviceLost,
    CallInterruption,
    Superseded,
    IncompatibleVersion,
    NetworkLost,
    UnsupportedEndpoint,
    Timeout,
    RateLimited,
}

/// The wire value of a stop reason.
pub open spec fn stop_reason_value(r: StopReason) -> int {
    match r {
        StopReason::Unspecified => 0,
        StopReason::UserStopped => 1,
        StopReason::PeerStopped => 2,
        StopReason::PermissionDenied => 3,
        StopReason::PermissionRevoked => 4,
        StopReason::DeviceBusy => 5,
        StopReason::AudioDeviceLost => 6,
        StopReason::CallInterruption => 7,
        StopReason::Superseded => 8,
        StopReason::IncompatibleVersion => 9,
        StopReason::NetworkLost => 10,
        StopReason::UnsupportedEndpoint => 11,
        StopReason::Timeout => 12,
        StopReason::RateLimited => 13,
    }
}

impl StopReason {
    /// The value the reason has on the wire.
    pub fn wire_value(self) -> (v: i32)
        ensures
            v == stop_reason_value(self),
    {
        match self {
            StopReason::Unspecified => 0,
            StopReason::UserStopped => 1,
            StopReason::PeerStopped => 2,
            StopReason::PermissionDenied => 3,
            StopReason::PermissionRevoked => 4,
            StopReason::DeviceBusy => 5,
            StopReason::AudioDeviceLost => 6,
            StopReason::CallInterruption => 7,
            StopReason::Superseded => 8,
            StopReason::IncompatibleVersion => 9,
            StopReason::NetworkLost => 10,
            StopReason::UnsupportedEndpoint => 11,
            StopReason::Timeout => 12,
            StopReason::RateLimited => 13,
        }
    }
}

pub open spec fn stop_code(r: StopReason) -> Seq<char> {
    match r {
        StopReason::Unspecified => "SP-SES-000"@,
        StopReason::UserStopped => "SP-SES-001"@,
        StopReason::PeerStopped => "SP-SES-002"@,
        StopReason::PermissionDenied => "SP-SES-003"@,
        StopReason::PermissionRevoked => "SP-SES-004"@,
        StopReason::DeviceBusy => "SP-SES-005"@,
        StopReason::AudioDeviceLost => "SP-SES-006"@,
        StopReason::CallInterruption => "SP-SES-007"@,
        StopReason::Superseded => "SP-SES-008"@,
        StopReason::IncompatibleVersion => "SP-SES-009"@,
        StopReason::NetworkLost => "SP-SES-010"@,
        StopReason::UnsupportedEndpoint => "SP-SES-011"@,
        StopReason::Timeout => "SP-SES-012"@,
        StopReason::RateLimited => "SP-SES-013"@,
    }
}

/// Stable support code for a route or session that the peer ended. The number is the reason's
/// wire value, so a code read from a log always maps back to the same reason.
pub fn stop_reason_code(reason: StopReason) -> (r: &'static str)
    ensures
        r@ == stop_code(reason),
{
    match reason {
        StopReason::Unspecified => "SP-SES-000",
        StopReason::UserStopped => "SP-SES-001",
        StopReason::PeerStopped => "SP-SES-002",
        StopReason::PermissionDenied => "SP-SES-003",
        StopReason::PermissionRevoked => "SP-SES-004",
        StopReason::DeviceBusy => "SP-SES-005",
        StopReason::AudioDeviceLost => "SP-SES-006",
        StopReason::CallInterruption => "SP-SES-007",
        StopReason::Superseded => "SP-SES-008",
        StopReason::IncompatibleVersion => "SP-SES-009",
        StopReason::NetworkLost => "SP-SES-010",
        StopReason::UnsupportedEndpoint => "SP-SES-011",
        StopReason::Timeout => "SP-SES-012",
        StopReason::RateLimited => "SP-SES-013",
    }
}

/// The decimal digit `d` (0 to 9) as a character.
pub open spec fn digit_char(d: int) -> char {
    ('0' as int + d) as char
}

/// `n` (0 to 999) written with exactly three digits.
pub open spec fn three_digits(n: int) -> Seq<char> {
    seq![digit_char(n / 100), digit_char((n / 10) % 10), digit_char(n % 10)]
}

/// A stop code is `SP-SES-` followed by the reason's wire value in three digits.
pub proof fn lemma_stop_code_carries_wire_value(r: StopReason)
    ensures
        stop_code(r) == "SP-SES-"@ + three_digits(stop_reason_value(r)),
{
    reveal_strlit("SP-SES-");
    match r {
        StopReason::Unspecified => { reveal_strlit("SP-SES-000"); },
        StopReason::UserStopped => { reveal_strlit("SP-SES-001"); },
        StopReason::PeerStopped => { reveal_strlit("SP-SES-002"); },
        StopReason::PermissionDenied => { reveal_strlit("SP-SES-003"); },
        StopReason::PermissionRevoked => { reveal_strlit("SP-SES-004"); },
        StopReason::DeviceBusy => { reveal_strlit("SP-SES-005"); },
        StopReason::AudioDeviceLost => { reveal_strlit("SP-SES-006"); },
        StopReason::CallInterruption => { reveal_strlit("SP-SES-007"); },
        StopReason::Superseded => { reveal_strlit("SP-SES-008"); },
        StopReason::IncompatibleVersion => { reveal_strlit("SP-SES-009"); },
        StopReason::NetworkLost => { reveal_strlit("SP-SES-010"); },
        StopReason::UnsupportedEndpoint => { reveal_strlit("SP-SES-011"); },
        StopReason::Timeout => { reveal_strlit("SP-SES-012"); },
        StopReason::RateLimited => { reveal_strlit("SP-SES-013"); },
    }
    assert(stop_code(r) =~= "SP-SES-"@ + three_digits(stop_reason_value(r)));
}

} // verus!
