//! Persistent settings: the parts of the schema made of whole numbers, flags and text, and
//! the rules that keep them valid.
//!
//! Stored as JSON by the application shell; unknown fields are ignored and missing fields take
//! defaults. What a hand-edited or older file holds is brought back into range here.

use vstd::prelude::*;
use crate::media::profile::{LatencyProfile, Quality, clamp, clamp_u32};
use crate::state::RouteKind;
use crate::text::{str_eq, is_hex_digit};

verus! {

/// 2: `savedRoutes[].keep` is always written; microphone high-pass filter.
pub const SETTINGS_VERSION: u32 = 2;
/// Paired devices can each have a profile; more than this is a hand-edited file.
pub const MAX_DEVICE_PROFILES: usize = 64;
/// Debug logging switches itself off after this long.
pub const DEBUG_LOGGING_SECS: u64 = 86_400;
/// Saved routes kept.
pub const MAX_SAVED_ROUTES: usize = 32;
/// Dismissed tips kept.
pub const MAX_DISMISSED_TIPS: usize = 256;

#[derive(Debug, Clone, Copy, PartialEq, Eq, Structural, Default)]
pub enum Theme {
    #[default]
    System,
    Light,
    Dark,
}

#[derive(Debug, Clone, Copy, PartialEq, Eq, Structural, Default)]
pub enum Visibility {
    Everyone,
    #[default]
    TrustedOnly,
    Hidden,
}

#[derive(Debug, Clone, Copy, PartialEq, Eq, Structural, Default)]
pub enum LatencyMode {
    LowLatency,
    #[default]
    Balanced,
    Stable,
    Custom,
}

#[derive(Debug, Clone, Copy, PartialEq, Eq, Structural, Default)]
pub enum QualityMode {
    #[default]
    Auto,
    Opus,
    Lossless,
}

#[derive(Debug, Clone, Copy, PartialEq, Eq, Structural, Default)]
pub enum AudioFocusMode {
    /// Pause when another app plays; resume afterwards.
    #[default]
    Pause,
    /// Lower SoundPush volume while another app plays.
    Duck,
    /// Keep playing alongside other apps.
    Mix,
    /// Keep playing, including during phone calls (not guaranteed on every device).
    MixDuringCalls,
}

/// Android microphone input presets.
#[derive(Debug, Clone, Copy, PartialEq, Eq, Structural, Default)]
pub enum MicMode {
    Default,
    #[default]
    VoiceCommunication,
    Raw,
    VoicePerformance,
    VoiceRecognition,
    Camcorder,
    Mic,
}

/// Desktop update channel.
#[derive(Debug, Clone, Copy, PartialEq, Eq, Structural, Default)]
pub enum UpdateChannel {
    /// Pre-releases as soon as they are published, and every stable release.
    Beta,
    /// Published releases, reaching installs in stages. Also used for unknown values from
    /// newer versions.
    #[default]
    Stable,
}

#[derive(Debug, Clone, Copy, PartialEq, Eq, Structural)]
pub struct StreamSettings {
    pub latency: LatencyMode,
    pub custom_min_ms: u32,
    pub custom_max_ms: u32,
    pub quality: QualityMode,
    /// Used when `quality == Opus`.
    pub opus_bitrate: u32,
    pub redundancy: bool,
}

pub open spec fn default_stream() -> StreamSettings {
    StreamSettings {
        latency: LatencyMode::Balanced,
        custom_min_ms: 30,
        custom_max_ms: 120,
        quality: QualityMode::Auto,
        opus_bitrate: 128_000,
        redundancy: false,
    }
}

impl Default for StreamSettings {
    fn default() -> (r: StreamSettings)
        ensures
            r == default_stream(),
    {
        StreamSettings {
            latency: LatencyMode::Balanced,
            custom_min_ms: 30,
            custom_max_ms: 120,
            quality: QualityMode::Auto,
            opus_bitrate: 128_000,
            redundancy: false,
        }
    }
}

pub open spec fn stream_latency_profile(s: StreamSettings) -> LatencyProfile {
    match s.latency {
        LatencyMode::LowLatency => LatencyProfile::LowLatency,
        LatencyMode::Balanced => LatencyProfile::Balanced,
        LatencyMode::Stable => LatencyProfile::Stable,
        LatencyMode::Custom => LatencyProfile::Custom {
            min_ms: s.custom_min_ms,
            max_ms: s.custom_max_ms,
        },
    }
}

pub open spec fn stream_quality(s: StreamSettings) -> Quality {
    match s.quality {
        QualityMode::Auto => Quality::Auto,
        QualityMode::Opus => Quality::Opus(s.opus_bitrate),
        QualityMode::Lossless => Quality::Lossless,
    }
}

impl StreamSettings {
    pub fn latency_profile(&self) -> (r: LatencyProfile)
        ensures
            r == stream_latency_profile(*self),
    {
        match self.latency {
            LatencyMode::LowLatency => LatencyProfile::LowLatency,
            LatencyMode::Balanced => LatencyProfile::Balanced,
            LatencyMode::Stable => LatencyProfile::Stable,
            LatencyMode::Custom => LatencyProfile::Custom {
                min_ms: self.custom_min_ms,
                max_ms: self.custom_max_ms,
            },
        }
    }

    pub fn quality(&self) -> (r: Quality)
        ensures
            r == stream_quality(*self),
    {
        match self.quality {
            QualityMode::Auto => Quality::Auto,
            QualityMode::Opus => Quality::Opus(self.opus_bitrate),
            QualityMode::Lossless => Quality::Lossless,
        }
    }
}

/// The stream settings brought into range: bitrate within Opus's range, custom bounds within
/// 5 ms – 1 s with the maximum not below the minimum.
pub open spec fn sanitized_stream(s: StreamSettings) -> StreamSettings {
    let min = clamp(s.custom_min_ms, 5, 500);
    StreamSettings {
        opus_bitrate: clamp(s.opus_bitrate, 6_000, 510_000),
        custom_min_ms: min,
        custom_max_ms: clamp(s.custom_max_ms, min, 1000),
        ..s
    }
}

/// Clamp the stream settings into valid ranges (protects against hand-edited files).
pub fn sanitize_stream(s: &mut StreamSettings)
    ensures
        *final(s) == sanitized_stream(*old(s)),
{
    s.opus_bitrate = clamp_u32(s.opus_bitrate, 6_000, 510_000);
    s.custom_min_ms = clamp_u32(s.custom_min_ms, 5, 500);
    s.custom_max_ms = clamp_u32(s.custom_max_ms, s.custom_min_ms, 1000);
}

#[derive(Debug, Clone, PartialEq, Eq, Default)]
pub struct CaptureSettings {
    /// Output device whose audio is sent (`None` = system default).
    pub system_device: Option<String>,
    /// Keep the stream at full level while muting local speakers.
    pub mute_local_speakers: bool,
    /// Send only this app's audio (executable name); `None` sends everything.
    pub app: Option<String>,
    /// Send everything except `app` instead of only `app`.
    pub exclude_app: bool,
}

#[derive(Debug, Clone, PartialEq, Eq)]
pub struct DesktopSettings {
    pub launch_at_login: bool,
    pub start_minimized: bool,
    pub close_to_tray: bool,
    pub prevent_sleep_while_streaming: bool,
    pub mute_hotkey: Option<String>,
    pub push_to_talk_hotkey: Option<String>,
    /// Output device used as the virtual microphone feed (compatibility mode).
    pub virtual_mic_device: Option<String>,
    /// Start the phone microphone when another app opens the virtual microphone.
    pub auto_start_mic: bool,
    /// Device the phone microphone was last used with; `auto_start_mic` prefers it.
    pub last_mic_peer: Option<String>,
}

impl Default for DesktopSettings {
    fn default() -> (r: DesktopSettings)
        ensures
            r.launch_at_login && r.start_minimized && r.close_to_tray,
            !r.prevent_sleep_while_streaming && !r.auto_start_mic,
            r.mute_hotkey is None && r.push_to_talk_hotkey is None,
            r.virtual_mic_device is None && r.last_mic_peer is None,
    {
        DesktopSettings {
            launch_at_login: true,
            start_minimized: true,
            close_to_tray: true,
            prevent_sleep_while_streaming: false,
            mute_hotkey: None,
            push_to_talk_hotkey: None,
            virtual_mic_device: None,
            auto_start_mic: false,
            last_mic_peer: None,
        }
    }
}

#[derive(Debug, Clone, Copy, PartialEq, Eq, Structural, Default)]
pub struct MobileSettings {
    pub stay_available: bool,
    pub remind_after_restart: bool,
}

/// A route restored when its device connects after a restart.
#[derive(Debug, Clone, PartialEq, Eq)]
pub struct SavedRoute {
    pub peer_id: String,
    pub kind: RouteKind,
    /// True when the user chose "Keep running after restart" for this route. False when it was
    /// saved because "Resume streams after restart" is on.
    pub keep: bool,
}

/// The A/V offset kept: within -500 ms to 500 ms.
pub fn clamp_av_offset(ms: i32) -> (r: i32)
    ensures
        r == (if ms < -500 {
            -500int
        } else if ms > 500 {
            500int
        } else {
            ms as int
        }),
{
    if ms < -500 {
        -500
    } else if ms > 500 {
        500
    } else {
        ms
    }
}

/// Keep the first `max` items of `v` (all of them when there are fewer).
fn keep_first<T>(v: &mut Vec<T>, max: usize)
    ensures
        final(v)@ == (if old(v)@.len() <= max {
            old(v)@
        } else {
            old(v)@.subrange(0, max as int)
        }),
{
    let ghost orig = v@;
    while v.len() > max
        invariant
            v@.len() >= max || v@ == orig,
            orig.len() > max ==> v@ == orig.subrange(0, v@.len() as int),
            orig.len() <= max ==> v@ == orig,
            v@.len() <= orig.len(),
        decreases v@.len(),
    {
        let ghost before = v@;
        v.pop();
        assert(v@ =~= before.drop_last());
        assert(orig.len() > max ==> v@ =~= orig.subrange(0, v@.len() as int));
    }
    assert(orig.len() > max ==> v@ =~= orig.subrange(0, max as int));
}

/// The list limits of a settings document: at most [`MAX_DISMISSED_TIPS`] dismissed tips and
/// [`MAX_SAVED_ROUTES`] saved routes, the first ones kept.
pub fn sanitize_lists<A, B>(dismissed_tips: &mut Vec<A>, saved_routes: &mut Vec<B>)
    ensures
        final(dismissed_tips)@ == (if old(dismissed_tips)@.len() <= MAX_DISMISSED_TIPS {
            old(dismissed_tips)@
        } else {
            old(dismissed_tips)@.subrange(0, MAX_DISMISSED_TIPS as int)
        }),
        final(saved_routes)@ == (if old(saved_routes)@.len() <= MAX_SAVED_ROUTES {
            old(saved_routes)@
        } else {
            old(saved_routes)@.subrange(0, MAX_SAVED_ROUTES as int)
        }),
{
    keep_first(dismissed_tips, MAX_DISMISSED_TIPS);
    keep_first(saved_routes, MAX_SAVED_ROUTES);
}

/// How a settings document written with schema `from` is brought up to
/// [`SETTINGS_VERSION`]: whether its saved routes without `keep` get `keep: true` (the step
/// from schema 1), and whether anything changes at all (not for current or newer documents,
/// which are left alone; the version written is then [`SETTINGS_VERSION`]).
pub open spec fn migration_of(from: u32) -> (bool, bool) {
    let version = if from < 1 {
        1
    } else {
        from
    };
    if version >= SETTINGS_VERSION {
        (false, false)
    } else {
        (version <= 1, true)
    }
}

/// `(add_keep, changed)` for a document of schema `from`: see [`migration_of`].
pub fn migration(from: u32) -> (r: (bool, bool))
    ensures
        r == migration_of(from),
{
    let version = if from < 1 {
        1
    } else {
        from
    };
    if version >= SETTINGS_VERSION {
        (false, false)
    } else {
        (version <= 1, true)
    }
}

/// A saved route's `keep` after migrating a schema-1 document: a route saved without it was
/// chosen explicitly ("Keep running"), so it keeps running; a stated value stays.
pub fn migrated_keep(keep: Option<bool>) -> (r: bool)
    ensures
        r == match keep {
            Some(k) => k,
            None => true,
        },
{
    match keep {
        Some(k) => k,
        None => true,
    }
}

/// What a saved route without a `keep` field means: it was chosen explicitly.
pub fn default_true() -> (r: bool)
    ensures
        r,
{
    true
}

impl SavedRoute {
    pub fn matches(&self, peer_id: &str, kind: RouteKind) -> (r: bool)
        ensures
            r == (self.peer_id@ == peer_id@ && self.kind == kind),
    {
        str_eq(self.peer_id.as_str(), peer_id) && self.kind == kind
    }
}

/// Per-device overrides of the stream settings. `None` follows the global setting.
#[derive(Debug, Clone, Copy, PartialEq, Eq, Structural, Default)]
pub struct DeviceProfile {
    pub latency: Option<LatencyMode>,
    pub custom_min_ms: Option<u32>,
    pub custom_max_ms: Option<u32>,
    pub quality: Option<QualityMode>,
    pub opus_bitrate: Option<u32>,
    pub redundancy: Option<bool>,
}

pub open spec fn profile_is_empty(p: DeviceProfile) -> bool {
    &&& p.latency is None
    &&& p.custom_min_ms is None
    &&& p.custom_max_ms is None
    &&& p.quality is None
    &&& p.opus_bitrate is None
    &&& p.redundancy is None
}

pub open spec fn override_or<T>(v: Option<T>, base: T) -> T {
    match v {
        Some(x) => x,
        None => base,
    }
}

/// The global stream settings with a profile's overrides applied, brought into range.
pub open spec fn applied_profile(p: DeviceProfile, base: StreamSettings) -> StreamSettings {
    sanitized_stream(
        StreamSettings {
            latency: override_or(p.latency, base.latency),
            custom_min_ms: override_or(p.custom_min_ms, base.custom_min_ms),
            custom_max_ms: override_or(p.custom_max_ms, base.custom_max_ms),
            quality: override_or(p.quality, base.quality),
            opus_bitrate: override_or(p.opus_bitrate, base.opus_bitrate),
            redundancy: override_or(p.redundancy, base.redundancy),
        },
    )
}

pub open spec fn clamp_opt(v: Option<u32>, lo: u32, hi: u32) -> Option<u32> {
    match v {
        Some(x) => Some(clamp(x, lo, hi)),
        None => None,
    }
}

/// A profile with its values brought into range; unset values stay unset.
pub open spec fn sanitized_device_profile(p: DeviceProfile) -> DeviceProfile {
    DeviceProfile {
        opus_bitrate: clamp_opt(p.opus_bitrate, 6_000, 510_000),
        custom_min_ms: clamp_opt(p.custom_min_ms, 5, 500),
        custom_max_ms: clamp_opt(p.custom_max_ms, 5, 1000),
        ..p
    }
}

fn clamp_option(v: Option<u32>, lo: u32, hi: u32) -> (r: Option<u32>)
    requires
        lo <= hi,
    ensures
        r == clamp_opt(v, lo, hi),
{
    match v {
        Some(x) => Some(clamp_u32(x, lo, hi)),
        None => None,
    }
}

impl DeviceProfile {
    pub fn is_empty(&self) -> (r: bool)
        ensures
            r == profile_is_empty(*self),
    {
        self.latency.is_none() && self.custom_min_ms.is_none() && self.custom_max_ms.is_none()
            && self.quality.is_none() && self.opus_bitrate.is_none() && self.redundancy.is_none()
    }

    /// The global stream settings with this profile's overrides applied.
    pub fn apply(&self, base: &StreamSettings) -> (r: StreamSettings)
        ensures
            r == applied_profile(*self, *base),
    {
        let mut s = *base;
        if let Some(v) = self.latency {
            s.latency = v;
        }
        if let Some(v) = self.custom_min_ms {
            s.custom_min_ms = v;
        }
        if let Some(v) = self.custom_max_ms {
            s.custom_max_ms = v;
        }
        if let Some(v) = self.quality {
            s.quality = v;
        }
        if let Some(v) = self.opus_bitrate {
            s.opus_bitrate = v;
        }
        if let Some(v) = self.redundancy {
            s.redundancy = v;
        }
        sanitize_stream(&mut s);
        s
    }

    /// Bring the set values into range.
    pub fn sanitize(&mut self)
        ensures
            *final(self) == sanitized_device_profile(*old(self)),
    {
        self.opus_bitrate = clamp_option(self.opus_bitrate, 6_000, 510_000);
        self.custom_min_ms = clamp_option(self.custom_min_ms, 5, 500);
        self.custom_max_ms = clamp_option(self.custom_max_ms, 5, 1000);
    }
}

/// An empty profile changes nothing but out-of-range values.
pub proof fn lemma_empty_profile_follows_global(p: DeviceProfile, base: StreamSettings)
    requires
        profile_is_empty(p),
    ensures
        applied_profile(p, base) == sanitized_stream(base),
{
}

/// Applying a profile gives stream settings already in range.
pub proof fn lemma_applied_profile_in_range(p: DeviceProfile, base: StreamSettings)
    ensures
        sanitized_stream(applied_profile(p, base)) == applied_profile(p, base),
        5 <= applied_profile(p, base).custom_min_ms <= applied_profile(p, base).custom_max_ms
            <= 1000,
        6_000 <= applied_profile(p, base).opus_bitrate <= 510_000,
{
}

/// A profile's set values win over the global settings and its unset values follow them:
/// quality, latency mode and redundancy are taken as set, and a set bitrate or delay bound
/// that is already in range is taken unchanged.
pub proof fn lemma_profile_overrides_win(p: DeviceProfile, base: StreamSettings)
    ensures
        ({
            let r = applied_profile(p, base);
            &&& (p.quality matches Some(q) ==> r.quality == q)
            &&& (p.quality is None ==> r.quality == base.quality)
            &&& (p.latency matches Some(l) ==> r.latency == l)
            &&& (p.latency is None ==> r.latency == base.latency)
            &&& (p.redundancy matches Some(b) ==> r.redundancy == b)
            &&& (p.redundancy is None ==> r.redundancy == base.redundancy)
            &&& (p.opus_bitrate is Some && 6_000 <= p.opus_bitrate->0 <= 510_000
                ==> r.opus_bitrate == p.opus_bitrate->0)
            &&& (p.custom_min_ms is Some && 5 <= p.custom_min_ms->0 <= 500 ==> r.custom_min_ms
                == p.custom_min_ms->0)
            &&& (p.custom_max_ms is Some && r.custom_min_ms <= p.custom_max_ms->0 <= 1000
                ==> r.custom_max_ms == p.custom_max_ms->0)
        }),
{
}

/// A device id as stored in the profile table: 32 hexadecimal digits.
pub open spec fn valid_device_id(id: Seq<char>) -> bool {
    id.len() == 32 && forall|i: int| 0 <= i < id.len() ==> #[trigger] crate::text::hex_digit(id[i])
}

pub fn is_valid_device_id(id: &str) -> (r: bool)
    ensures
        r == valid_device_id(id@),
{
    let n = id.unicode_len();
    if n != 32 {
        return false;
    }
    let mut i: usize = 0;
    while i < n
        invariant
            n == id@.len(),
            i <= n,
            forall|j: int| 0 <= j < i ==> #[trigger] crate::text::hex_digit(id@[j]),
        decreases n - i,
    {
        if !is_hex_digit(id.get_char(i)) {
            return false;
        }
        i = i + 1;
    }
    true
}

/// A profile entry kept by sanitizing: a valid device id and at least one override.
pub open spec fn profile_entry_kept(e: (Seq<char>, DeviceProfile)) -> bool {
    valid_device_id(e.0) && !profile_is_empty(e.1)
}

/// The view of a profile table entry.
pub open spec fn entry_view(e: (String, DeviceProfile)) -> (Seq<char>, DeviceProfile) {
    (e.0@, e.1)
}

/// The entries of a profile table, in key order, kept by sanitizing (at most
/// [`MAX_DEVICE_PROFILES`], each sanitized).
pub open spec fn sanitized_profile_table(entries: Seq<(Seq<char>, DeviceProfile)>) -> Seq<
    (Seq<char>, DeviceProfile),
> {
    let kept = entries.filter(|e: (Seq<char>, DeviceProfile)| profile_entry_kept(e)).map_values(
        |e: (Seq<char>, DeviceProfile)| (e.0, sanitized_device_profile(e.1)),
    );
    if kept.len() > MAX_DEVICE_PROFILES {
        kept.take(MAX_DEVICE_PROFILES as int)
    } else {
        kept
    }
}

/// Sanitize a profile table given in key order: drop invalid ids and empty profiles, bring the
/// rest into range, keep the first [`MAX_DEVICE_PROFILES`].
pub fn sanitize_profile_table(entries: Vec<(String, DeviceProfile)>) -> (r: Vec<(String, DeviceProfile)>)
    ensures
        r@.map_values(|e: (String, DeviceProfile)| entry_view(e)) == sanitized_profile_table(
            entries@.map_values(|e: (String, DeviceProfile)| entry_view(e)),
        ),
{
    let ghost ev = entries@.map_values(|e: (String, DeviceProfile)| entry_view(e));
    let ghost keep = |e: (Seq<char>, DeviceProfile)| profile_entry_kept(e);
    let ghost fix = |e: (Seq<char>, DeviceProfile)| (e.0, sanitized_device_profile(e.1));
    let mut out: Vec<(String, DeviceProfile)> = Vec::new();
    let mut entries = entries;
    let n = entries.len();
    let mut rest: Vec<(String, DeviceProfile)> = Vec::new();
    // Reverse so that entries can be taken from the back in the order given.
    while entries.len() > 0
        invariant
            entries@.len() + rest@.len() == n,
            ev.len() == n,
            forall|j: int|
                0 <= j < entries@.len() ==> entry_view(#[trigger] entries@[j]) == ev[j],
            forall|j: int|
                0 <= j < rest@.len() ==> entry_view(#[trigger] rest@[j]) == ev[n - 1 - j],
        decreases entries@.len(),
    {
        let e = entries.pop().unwrap();
        rest.push(e);
    }
    let mut i: usize = 0;
    while i < n
        invariant
            i <= n,
            rest@.len() == n - i,
            ev.len() == n,
            keep == (|e: (Seq<char>, DeviceProfile)| profile_entry_kept(e)),
            fix == (|e: (Seq<char>, DeviceProfile)| (e.0, sanitized_device_profile(e.1))),
            forall|j: int|
                0 <= j < rest@.len() ==> entry_view(#[trigger] rest@[j]) == ev[n - 1 - j],
            out@.map_values(|e: (String, DeviceProfile)| entry_view(e)) == ev.subrange(
                0,
                i as int,
            ).filter(keep).map_values(fix),
        decreases n - i,
    {
        let (id, mut p) = rest.pop().unwrap();
        let ghost x = ev[i as int];
        assert(entry_view((id, p)) == x);
        proof {
            assert(ev.subrange(0, i + 1) =~= ev.subrange(0, i as int).push(x));
            ev.subrange(0, i as int).lemma_filter_push(x, keep);
        }
        if is_valid_device_id(id.as_str()) && !p.is_empty() {
            p.sanitize();
            let ghost before = out@;
            out.push((id, p));
            proof {
                assert(out@.map_values(|e: (String, DeviceProfile)| entry_view(e)) =~= before.map_values(
                    |e: (String, DeviceProfile)| entry_view(e),
                ).push(fix(x)));
                assert(ev.subrange(0, i as int).filter(keep).push(x).map_values(fix)
                    =~= ev.subrange(0, i as int).filter(keep).map_values(fix).push(fix(x)));
            }
        }
        i = i + 1;
    }
    assert(ev.subrange(0, n as int) =~= ev);
    if out.len() > MAX_DEVICE_PROFILES {
        let ghost before = out@;
        out.truncate(MAX_DEVICE_PROFILES);
        assert(out@.map_values(|e: (String, DeviceProfile)| entry_view(e)) =~= before.map_values(
            |e: (String, DeviceProfile)| entry_view(e),
        ).take(MAX_DEVICE_PROFILES as int));
    }
    out
}

/// Stream settings for routes with `peer_id` (hex): the global settings plus the device's
/// profile, looked up in a table of distinct ids.
pub open spec fn stream_for_peer(
    table: Seq<(Seq<char>, DeviceProfile)>,
    base: StreamSettings,
    peer_id: Seq<char>,
) -> StreamSettings {
    if exists|i: int| 0 <= i < table.len() && table[i].0 == peer_id {
        applied_profile(
            table[choose|i: int| 0 <= i < table.len() && table[i].0 == peer_id].1,
            base,
        )
    } else {
        base
    }
}

/// Ids appear at most once in the table.
pub open spec fn distinct_ids(table: Seq<(Seq<char>, DeviceProfile)>) -> bool {
    forall|i: int, j: int| 0 <= i < j < table.len() ==> table[i].0 != table[j].0
}

pub fn stream_for(table: &Vec<(String, DeviceProfile)>, base: &StreamSettings, peer_id: &str) -> (r:
    StreamSettings)
    requires
        distinct_ids(table@.map_values(|e: (String, DeviceProfile)| entry_view(e))),
    ensures
        r == stream_for_peer(
            table@.map_values(|e: (String, DeviceProfile)| entry_view(e)),
            *base,
            peer_id@,
        ),
{
    let ghost tv = table@.map_values(|e: (String, DeviceProfile)| entry_view(e));
    let mut i: usize = 0;
    while i < table.len()
        invariant
            i <= table@.len(),
            tv == table@.map_values(|e: (String, DeviceProfile)| entry_view(e)),
            forall|j: int| 0 <= j < i ==> tv[j].0 != peer_id@,
            distinct_ids(tv),
        decreases table@.len() - i,
    {
        if str_eq(table[i].0.as_str(), peer_id) {
            assert(tv[i as int].0 == peer_id@);
            assert(forall|j: int| 0 <= j < tv.len() && tv[j].0 == peer_id@ ==> j == i);
            return table[i].1.apply(base);
        }
        i = i + 1;
    }
    *base
}

/// When debug logging switches itself off: a day after it was switched on, never later
/// whatever a client sends; 0 while it is off. `was_on` is the setting before this change.
pub open spec fn debug_logging_end(enabled: bool, until: u64, was_on: bool, now: u64) -> u64 {
    let latest: u64 = if now + DEBUG_LOGGING_SECS > u64::MAX {
        u64::MAX
    } else {
        (now + DEBUG_LOGGING_SECS) as u64
    };
    if !enabled {
        0
    } else if !was_on || until == 0 {
        latest
    } else if until < latest {
        until
    } else {
        latest
    }
}

/// The end time for debug logging after a settings change (see [`debug_logging_end`]).
pub fn schedule_debug_logging(enabled: bool, until: u64, was_on: bool, now_unix: u64) -> (r: u64)
    ensures
        r == debug_logging_end(enabled, until, was_on, now_unix),
{
    let latest = now_unix.saturating_add(DEBUG_LOGGING_SECS);
    if !enabled {
        0
    } else if !was_on || until == 0 {
        latest
    } else if until < latest {
        until
    } else {
        latest
    }
}

/// Switch debug logging off once its time is up: the new (enabled, end time), and whether it
/// changed.
pub fn expire_debug_logging(enabled: bool, until: u64, now_unix: u64) -> (r: (bool, u64, bool))
    ensures
        r == (if enabled && now_unix >= until {
            (false, 0u64, true)
        } else {
            (enabled, until, false)
        }),
{
    if enabled && now_unix >= until {
        (false, 0, true)
    } else {
        (enabled, until, false)
    }
}

/// Debug logging never runs more than a day past the latest change, a later change never
/// pushes an existing end further out, it is on for a while once switched on, and off stays off.
pub proof fn lemma_debug_logging_bounded(enabled: bool, until: u64, was_on: bool, now: u64)
    ensures
        debug_logging_end(enabled, until, was_on, now) <= now + DEBUG_LOGGING_SECS,
        !enabled ==> debug_logging_end(enabled, until, was_on, now) == 0,
        enabled ==> debug_logging_end(enabled, until, was_on, now) > 0,
        enabled && was_on && until != 0 ==> debug_logging_end(enabled, until, was_on, now)
            <= until,
{
}

/// `char::is_whitespace`: the Unicode White_Space property.
pub open spec fn is_white_space(c: char) -> bool {
    ||| '\u{9}' <= c <= '\u{d}'
    ||| c == ' ' || c == '\u{85}' || c == '\u{a0}' || c == '\u{1680}'
    ||| '\u{2000}' <= c <= '\u{200a}'
    ||| c == '\u{2028}' || c == '\u{2029}' || c == '\u{202f}' || c == '\u{205f}' || c == '\u{3000}'
}

fn white_space(c: char) -> (r: bool)
    ensures
        r == is_white_space(c),
{
    ('\u{9}' <= c && c <= '\u{d}') || c == ' ' || c == '\u{85}' || c == '\u{a0}' || c == '\u{1680}'
        || ('\u{2000}' <= c && c <= '\u{200a}') || c == '\u{2028}' || c == '\u{2029}' || c
        == '\u{202f}' || c == '\u{205f}' || c == '\u{3000}'
}

/// Number of white-space characters `s` starts with.
pub open spec fn leading_space(s: Seq<char>) -> int
    decreases s.len(),
{
    if s.len() > 0 && is_white_space(s[0]) {
        1 + leading_space(s.drop_first())
    } else {
        0
    }
}

/// Number of white-space characters `s` ends with.
pub open spec fn trailing_space(s: Seq<char>) -> int
    decreases s.len(),
{
    if s.len() > 0 && is_white_space(s.last()) {
        1 + trailing_space(s.drop_last())
    } else {
        0
    }
}

/// `str::trim`: `s` without leading and trailing white space.
pub open spec fn trimmed(s: Seq<char>) -> Seq<char> {
    let a = leading_space(s);
    if a >= s.len() {
        Seq::empty()
    } else {
        s.subrange(a, s.len() - trailing_space(s))
    }
}

/// At most the first `n` characters of `s`.
pub open spec fn first_chars(s: Seq<char>, n: int) -> Seq<char> {
    if s.len() <= n {
        s
    } else {
        s.take(n)
    }
}

proof fn lemma_leading_space(t: Seq<char>, k: int)
    requires
        0 <= k <= t.len(),
        forall|j: int| 0 <= j < k ==> is_white_space(#[trigger] t[j]),
        k < t.len() ==> !is_white_space(t[k]),
    ensures
        leading_space(t) == k,
    decreases k,
{
    if k > 0 {
        let d = t.drop_first();
        assert forall|j: int| 0 <= j < k - 1 implies is_white_space(#[trigger] d[j]) by {
            assert(d[j] == t[j + 1]);
        }
        if k - 1 < d.len() {
            assert(d[k - 1] == t[k]);
        }
        lemma_leading_space(d, k - 1);
        assert(is_white_space(t[0]));
    }
}

proof fn lemma_trailing_space(t: Seq<char>, m: int)
    requires
        0 <= m <= t.len(),
        forall|j: int| m <= j < t.len() ==> is_white_space(#[trigger] t[j]),
        m > 0 ==> !is_white_space(t[m - 1]),
    ensures
        trailing_space(t) == t.len() - m,
    decreases t.len() - m,
{
    if m < t.len() {
        let d = t.drop_last();
        assert(is_white_space(t[t.len() - 1]));
        assert forall|j: int| m <= j < d.len() implies is_white_space(#[trigger] d[j]) by {
            assert(d[j] == t[j]);
        }
        if m > 0 {
            assert(d[m - 1] == t[m - 1]);
        }
        lemma_trailing_space(d, m);
    }
}

/// `s` trimmed, then cut to at most `max` characters: how names from a settings file are kept.
pub fn trim_to(s: &str, max: usize) -> (r: String)
    ensures
        r@ == first_chars(trimmed(s@), max as int),
{
    let cs = crate::text::chars_of(s);
    let n = cs.len();
    let mut a: usize = 0;
    while a < n && white_space(cs[a])
        invariant
            a <= n == cs@.len(),
            cs@ == s@,
            forall|j: int| 0 <= j < a ==> is_white_space(#[trigger] cs@[j]),
        decreases n - a,
    {
        a = a + 1;
    }
    proof {
        lemma_leading_space(cs@, a as int);
    }
    let mut out = String::new();
    if a >= n {
        assert(first_chars(Seq::<char>::empty(), max as int) =~= Seq::<char>::empty());
        return out;
    }
    let mut b: usize = n;
    while b > a && white_space(cs[b - 1])
        invariant
            a < b <= n == cs@.len(),
            !is_white_space(cs@[a as int]),
            forall|j: int| b <= j < n ==> is_white_space(#[trigger] cs@[j]),
        decreases b,
    {
        b = b - 1;
    }
    proof {
        lemma_trailing_space(cs@, b as int);
    }
    let ghost t = cs@.subrange(a as int, b as int);
    let end = if b - a > max {
        a + max
    } else {
        b
    };
    let mut i = a;
    while i < end
        invariant
            a <= i <= end <= b <= cs@.len(),
            out@ == cs@.subrange(a as int, i as int),
        decreases end - i,
    {
        crate::text::push_char(&mut out, cs[i]);
        assert(cs@.subrange(a as int, i + 1) =~= cs@.subrange(a as int, i as int).push(cs@[i as int]));
        i = i + 1;
    }
    assert(out@ =~= first_chars(t, max as int));
    out
}

/// The app a capture is limited to, as kept from a settings file: trimmed, at most 260
/// characters, and none when nothing is left.
pub fn sanitize_app(app: Option<String>) -> (r: Option<String>)
    ensures
        match (app, r) {
            (Some(a), Some(b)) => b@ == first_chars(trimmed(a@), 260) && b@.len() > 0,
            (Some(a), None) => first_chars(trimmed(a@), 260).len() == 0,
            (None, None) => true,
            (None, Some(_)) => false,
        },
{
    match app {
        Some(a) => {
            let t = trim_to(a.as_str(), 260);
            if t.as_str().unicode_len() == 0 {
                None
            } else {
                Some(t)
            }
        },
        None => None,
    }
}

} // verus!
