//! Route plumbing decisions: which routes share an encoder, which follow the system default
//! device when it changes, and how a session numbers its routes.

use vstd::prelude::*;
use crate::media::profile::StreamProfile;
use crate::settings::CaptureSettings;
use crate::state::{route_endpoints, route_local_is_source, RouteKind};

verus! {

/// Where a sender's audio comes from.
#[derive(Debug, Clone, PartialEq, Eq)]
pub enum CaptureSource {
    /// What an output device plays (`None`: the system default output).
    SystemLoopback(Option<String>),
    /// One application's audio, or everything but it.
    Application { process: String, exclude: bool },
    /// A named input device.
    Input(String),
    /// The system default input.
    DefaultInput,
}

/// What an encoder group captures.
#[derive(Debug, Clone, PartialEq, Eq)]
pub enum SourceKey {
    System(Option<String>),
    /// Per-app capture of this computer's audio (one app, or all but one).
    Application { process: String, exclude: bool },
    Apps,
    Mic(Option<String>),
}

/// Routes with equal keys share one capture and encoder.
#[derive(Debug, Clone, PartialEq, Eq)]
pub struct EncoderKey {
    pub source: SourceKey,
    pub codec: u32,
    pub bitrate: u32,
    pub channels: u32,
    pub frame_us: u32,
}

pub ghost enum SourceKeyView {
    System(Option<Seq<char>>),
    Application { process: Seq<char>, exclude: bool },
    Apps,
    Mic(Option<Seq<char>>),
}

pub open spec fn opt_view(o: Option<String>) -> Option<Seq<char>> {
    match o {
        Some(s) => Some(s@),
        None => None,
    }
}

impl View for SourceKey {
    type V = SourceKeyView;

    open spec fn view(&self) -> SourceKeyView {
        match self {
            SourceKey::System(d) => SourceKeyView::System(opt_view(*d)),
            SourceKey::Application { process, exclude } => SourceKeyView::Application {
                process: process@,
                exclude: *exclude,
            },
            SourceKey::Apps => SourceKeyView::Apps,
            SourceKey::Mic(d) => SourceKeyView::Mic(opt_view(*d)),
        }
    }
}

/// The encoder group a route joins: captures of the same thing with the same encoding share one.
/// App audio (`apps`) is its own group; an input device feeds a microphone group only for
/// microphone routes.
pub open spec fn source_key_of(source: CaptureSource, is_mic: bool, apps: bool) -> SourceKeyView {
    if apps {
        SourceKeyView::Apps
    } else {
        match source {
            CaptureSource::SystemLoopback(d) => SourceKeyView::System(opt_view(d)),
            CaptureSource::Application { process, exclude } => SourceKeyView::Application {
                process: process@,
                exclude,
            },
            CaptureSource::Input(d) => if is_mic {
                SourceKeyView::Mic(Some(d@))
            } else {
                SourceKeyView::System(Some(d@))
            },
            CaptureSource::DefaultInput => SourceKeyView::Mic(None),
        }
    }
}

fn copy_opt(o: &Option<String>) -> (r: Option<String>)
    ensures
        opt_view(r) == opt_view(*o),
{
    match o {
        Some(s) => Some(s.clone()),
        None => None,
    }
}

impl EncoderKey {
    pub fn new(source: &CaptureSource, is_mic: bool, apps: bool, profile: &StreamProfile) -> (r:
        EncoderKey)
        ensures
            r.source@ == source_key_of(*source, is_mic, apps),
            r.codec == profile.codec,
            r.bitrate == profile.bitrate,
            r.channels == profile.channels,
            r.frame_us == profile.frame_us,
    {
        let source = if apps {
            SourceKey::Apps
        } else {
            match source {
                CaptureSource::SystemLoopback(device) => SourceKey::System(copy_opt(device)),
                CaptureSource::Application { process, exclude } => SourceKey::Application {
                    process: process.clone(),
                    exclude: *exclude,
                },
                CaptureSource::Input(device) => if is_mic {
                    SourceKey::Mic(Some(device.clone()))
                } else {
                    SourceKey::System(Some(device.clone()))
                },
                CaptureSource::DefaultInput => SourceKey::Mic(None),
            }
        };
        EncoderKey {
            source,
            codec: profile.codec,
            bitrate: profile.bitrate,
            channels: profile.channels,
            frame_us: profile.frame_us,
        }
    }

    /// The group captures a microphone.
    pub fn is_mic(&self) -> (r: bool)
        ensures
            r == (self.source@ is Mic),
    {
        match self.source {
            SourceKey::Mic(_) => true,
            _ => false,
        }
    }
}

/// Whether a route's audio on this device uses the system default device of a changed
/// direction. Routes pinned to a named device, per-app capture and the virtual microphone never
/// follow it. `mic_device` and `output_device` are the chosen input and output (`None`: the
/// system default).
pub open spec fn route_follows_default(
    kind: RouteKind,
    capture: CaptureSettings,
    mic_device: Option<String>,
    output_device: Option<String>,
    input_changed: bool,
    output_changed: bool,
) -> bool {
    let (source, sink) = route_endpoints(kind);
    if route_local_is_source(kind) {
        if source == "system"@ {
            output_changed && capture.system_device is None && capture.app is None
        } else if source == "mic"@ {
            input_changed && mic_device is None
        } else {
            false
        }
    } else {
        sink == "speaker"@ && output_changed && output_device is None
    }
}

pub fn follows_default(
    kind: RouteKind,
    capture: &CaptureSettings,
    mic_device: &Option<String>,
    output_device: &Option<String>,
    input_changed: bool,
    output_changed: bool,
) -> (r: bool)
    ensures
        r == route_follows_default(
            kind,
            *capture,
            *mic_device,
            *output_device,
            input_changed,
            output_changed,
        ),
{
    let (source, sink) = kind.endpoints();
    if kind.local_is_source() {
        if crate::text::str_eq(source, "system") {
            output_changed && capture.system_device.is_none() && capture.app.is_none()
        } else if crate::text::str_eq(source, "mic") {
            input_changed && mic_device.is_none()
        } else {
            false
        }
    } else {
        crate::text::str_eq(sink, "speaker") && output_changed && output_device.is_none()
    }
}

/// Route ids a session hands out: each side uses one parity, so ids never collide; 0 and 1
/// are never used, and the counter wraps past 255 back to the first id of its parity.
pub open spec fn next_route_after(next: u8) -> u8 {
    let n = (next + 2) % 256;
    if n < 2 {
        (n + 2) as u8
    } else {
        n as u8
    }
}

/// The id to use now, and the next one.
pub fn alloc_route(next: u8) -> (r: (u8, u8))
    ensures
        r.0 == next,
        r.1 == next_route_after(next),
{
    let id = next;
    let mut n = next.wrapping_add(2);
    if n < 2 {
        n = n + 2;
    }
    (id, n)
}

/// Allocation keeps a side's parity and never hands out 0 or 1 once started above them.
pub proof fn lemma_route_ids_keep_parity(next: u8)
    ensures
        next_route_after(next) % 2 == next % 2,
        next_route_after(next) >= 2,
{
}

} // verus!
