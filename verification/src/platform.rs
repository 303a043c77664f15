//! What the engine asks of the platform it runs on.

use vstd::prelude::*;

verus! {

/// Why the engine needs the OS to keep it alive (Android foreground-service types).
#[derive(Debug, Clone, Copy, PartialEq, Eq, Structural)]
pub struct KeepAlive {
    pub playback: bool,
    pub microphone: bool,
    pub app_audio_capture: bool,
}

impl Default for KeepAlive {
    fn default() -> (r: KeepAlive)
        ensures
            !r.playback && !r.microphone && !r.app_audio_capture,
    {
        KeepAlive { playback: false, microphone: false, app_audio_capture: false }
    }
}

impl KeepAlive {
    /// Some activity needs the engine kept alive.
    pub fn any(self) -> (r: bool)
        ensures
            r == (self.playback || self.microphone || self.app_audio_capture),
    {
        self.playback || self.microphone || self.app_audio_capture
    }
}

/// Engine start-up options.
#[derive(Debug, Clone)]
pub struct EngineConfig {
    pub app_version: String,
    /// Preferred UDP port (0 = ephemeral).
    pub port: u16,
    /// Run mDNS and beacon discovery.
    pub discovery: bool,
    /// Include loopback addresses in pairing codes (tests only).
    pub include_loopback: bool,
    /// Accept TLS-over-TCP connections on loopback, where `adb reverse` delivers a phone's USB
    /// connection. Desktop builds; phones only dial.
    pub tcp_listener: bool,
}

impl EngineConfig {
    /// The usual options for an app of the given version listening on `port`: discovery on,
    /// loopback addresses left out of pairing codes, the USB listener on.
    pub fn new(app_version: String, port: u16) -> (r: EngineConfig)
        ensures
            r.app_version@ == app_version@,
            r.port == port,
            r.discovery,
            !r.include_loopback,
            r.tcp_listener,
    {
        EngineConfig { app_version, port, discovery: true, include_loopback: false, tcp_listener: true }
    }
}

/// A media datagram was not sent. Media is best effort: callers count these and move on.
#[derive(Debug, Clone, Copy, PartialEq, Eq, Structural)]
pub struct SendFailed;

} // verus!
