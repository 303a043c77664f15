//! User-facing latency and quality profiles mapped to concrete stream parameters, and the
//! rules that keep a stream profile within safe bounds.

use vstd::prelude::*;
use super::{frame_samples, samples_per_frame};

verus! {

/// Audio codec of a stream.
#[derive(Debug, Clone, Copy, PartialEq, Eq, Structural)]
pub enum Codec {
    Opus,
    PcmS16Le,
}

/// Wire value of the Opus codec in a stream profile.
pub const CODEC_OPUS: u32 = 0;
/// Wire value of uncompressed 16-bit little-endian PCM in a stream profile.
pub const CODEC_PCM_S16LE: u32 = 1;

impl Codec {
    pub fn wire_value(self) -> (v: u32)
        ensures
            v == (match self {
                Codec::Opus => CODEC_OPUS,
                Codec::PcmS16Le => CODEC_PCM_S16LE,
            }),
    {
        match self {
            Codec::Opus => CODEC_OPUS,
            Codec::PcmS16Le => CODEC_PCM_S16LE,
        }
    }

    /// The codec a wire value names, if any.
    pub fn from_wire(v: u32) -> (r: Option<Codec>)
        ensures
            r == (if v == CODEC_OPUS {
                Some(Codec::Opus)
            } else if v == CODEC_PCM_S16LE {
                Some(Codec::PcmS16Le)
            } else {
                None
            }),
    {
        if v == CODEC_OPUS {
            Some(Codec::Opus)
        } else if v == CODEC_PCM_S16LE {
            Some(Codec::PcmS16Le)
        } else {
            None
        }
    }
}

/// Largest media payload a sender puts in one datagram, in bytes.
pub const MAX_MEDIA_PAYLOAD: usize = 1200;

/// The parameters both ends of a route agree on.
#[derive(Debug, Clone, Copy, PartialEq, Eq, Structural)]
pub struct StreamProfile {
    pub codec: u32,
    pub bitrate: u32,
    pub channels: u32,
    pub frame_us: u32,
    pub jitter_min_ms: u32,
    pub jitter_max_ms: u32,
    pub redundancy: bool,
    pub adaptive_bitrate: bool,
    /// Where noise suppression runs is a microphone setting; the engine fills it in.
    pub denoise: bool,
}

#[derive(Debug, Clone, Copy, PartialEq, Eq, Structural)]
pub enum LatencyProfile {
    LowLatency,
    Balanced,
    Stable,
    Custom { min_ms: u32, max_ms: u32 },
}

/// `v` clamped into `lo..=hi` (`lo <= hi`).
pub open spec fn clamp(v: u32, lo: u32, hi: u32) -> u32 {
    if v < lo {
        lo
    } else if v > hi {
        hi
    } else {
        v
    }
}

pub fn clamp_u32(v: u32, lo: u32, hi: u32) -> (r: u32)
    requires
        lo <= hi,
    ensures
        r == clamp(v, lo, hi),
{
    if v < lo {
        lo
    } else if v > hi {
        hi
    } else {
        v
    }
}

/// (jitter min ms, jitter max ms, frame duration µs) of a latency profile.
pub open spec fn latency_params(l: LatencyProfile) -> (u32, u32, u32) {
    match l {
        LatencyProfile::LowLatency => (10, 40, 5_000),
        LatencyProfile::Balanced => (20, 80, 10_000),
        LatencyProfile::Stable => (60, 250, 20_000),
        LatencyProfile::Custom { min_ms, max_ms } => {
            let min = clamp(min_ms, 5, 500);
            (min, clamp(max_ms, min, 1000), 10_000)
        },
    }
}

impl LatencyProfile {
    /// (jitter min ms, jitter max ms, frame duration µs)
    pub fn params(self) -> (r: (u32, u32, u32))
        ensures
            r == latency_params(self),
    {
        match self {
            LatencyProfile::LowLatency => (10, 40, 5_000),
            LatencyProfile::Balanced => (20, 80, 10_000),
            LatencyProfile::Stable => (60, 250, 20_000),
            LatencyProfile::Custom { min_ms, max_ms } => {
                let min = clamp_u32(min_ms, 5, 500);
                (min, clamp_u32(max_ms, min, 1000), 10_000)
            },
        }
    }
}

/// Every latency profile has sane bounds: the minimum at least 5 ms and at most the maximum,
/// the maximum at most a second.
pub proof fn lemma_latency_bounds_sane(l: LatencyProfile)
    ensures
        5 <= latency_params(l).0 <= latency_params(l).1 <= 1000,
{
}

#[derive(Debug, Clone, Copy, PartialEq, Eq, Structural)]
pub enum Quality {
    /// Opus with adaptive bitrate starting at 128 kb/s.
    Auto,
    /// Fixed Opus bitrate in bits/s (6 000 – 510 000).
    Opus(u32),
    /// Uncompressed 16-bit PCM.
    Lossless,
}

/// Bitrate presets shown in the UI.
pub const OPUS_BITRATE_STEPS: [u32; 13] = [
    10_000,
    16_000,
    24_000,
    32_000,
    48_000,
    64_000,
    96_000,
    128_000,
    192_000,
    256_000,
    320_000,
    450_000,
    510_000,
];

pub open spec fn opus_bitrate_steps() -> Seq<u32> {
    seq![
        10_000u32,
        16_000,
        24_000,
        32_000,
        48_000,
        64_000,
        96_000,
        128_000,
        192_000,
        256_000,
        320_000,
        450_000,
        510_000,
    ]
}

/// The profile built from the user's latency and quality choices.
pub open spec fn built_profile(latency: LatencyProfile, quality: Quality, channels: u32, redundancy: bool) -> StreamProfile {
    let (jitter_min_ms, jitter_max_ms, frame_us) = latency_params(latency);
    let (codec, bitrate, adaptive) = match quality {
        Quality::Auto => (CODEC_OPUS, 128_000u32, true),
        Quality::Opus(bps) => (CODEC_OPUS, clamp(bps, 6_000, 510_000), false),
        Quality::Lossless => (CODEC_PCM_S16LE, 0u32, false),
    };
    let pcm_max: u32 = if channels > 1 {
        5_000
    } else {
        10_000
    };
    let frame_us = if codec == CODEC_PCM_S16LE && frame_us > pcm_max {
        pcm_max
    } else {
        frame_us
    };
    StreamProfile {
        codec,
        bitrate,
        channels: clamp(channels, 1, 2),
        frame_us,
        jitter_min_ms,
        jitter_max_ms,
        redundancy,
        adaptive_bitrate: adaptive,
        denoise: false,
    }
}

pub fn build_profile(latency: LatencyProfile, quality: Quality, channels: u32, redundancy: bool) -> (r:
    StreamProfile)
    ensures
        r == built_profile(latency, quality, channels, redundancy),
{
    let (jitter_min_ms, jitter_max_ms, frame_us) = latency.params();
    let (codec, bitrate, adaptive) = match quality {
        Quality::Auto => (CODEC_OPUS, 128_000u32, true),
        Quality::Opus(bps) => (CODEC_OPUS, clamp_u32(bps, 6_000, 510_000), false),
        Quality::Lossless => (CODEC_PCM_S16LE, 0u32, false),
    };
    // PCM frames must fit in one datagram: 5 ms stereo or 10 ms mono = 960 bytes.
    let pcm_max: u32 = if channels > 1 {
        5_000
    } else {
        10_000
    };
    let frame_us = if codec == CODEC_PCM_S16LE && frame_us > pcm_max {
        pcm_max
    } else {
        frame_us
    };
    StreamProfile {
        codec,
        bitrate,
        channels: clamp_u32(channels, 1, 2),
        frame_us,
        jitter_min_ms,
        jitter_max_ms,
        redundancy,
        adaptive_bitrate: adaptive,
        denoise: false,
    }
}

/// A lossless frame of a built profile fits in one datagram payload (at most 960 bytes).
pub proof fn lemma_pcm_frames_fit_in_datagram(latency: LatencyProfile, channels: u32, redundancy: bool)
    ensures
        ({
            let p = built_profile(latency, Quality::Lossless, channels, redundancy);
            frame_samples(p.frame_us) * p.channels * 2 <= 960
        }),
{
    let p = built_profile(latency, Quality::Lossless, channels, redundancy);
    assert(p.frame_us <= 10_000);
    assert(p.channels == 2 ==> p.frame_us <= 5_000);
    assert(frame_samples(p.frame_us) <= 480) by (nonlinear_arith)
        requires
            p.frame_us <= 10_000,
            frame_samples(p.frame_us) == 48_000 * p.frame_us / 1_000_000,
    ;
    assert(p.channels == 2 ==> frame_samples(p.frame_us) <= 240) by (nonlinear_arith)
        requires
            p.channels == 2 ==> p.frame_us <= 5_000,
            frame_samples(p.frame_us) == 48_000 * p.frame_us / 1_000_000,
    ;
    if p.channels == 1 {
        assert(frame_samples(p.frame_us) * p.channels * 2 <= 960);
    } else {
        assert(p.channels == 2);
        assert(frame_samples(p.frame_us) * p.channels * 2 <= 960);
    }
}

/// A profile within safe bounds.
pub open spec fn profile_sane(p: StreamProfile) -> bool {
    &&& 1 <= p.channels <= 2
    &&& (p.frame_us == 2_500 || p.frame_us == 5_000 || p.frame_us == 10_000 || p.frame_us == 20_000)
    &&& (p.codec == CODEC_PCM_S16LE ==> p.frame_us <= (if p.channels == 2 {
        5_000u32
    } else {
        10_000u32
    }))
    &&& (p.codec == CODEC_PCM_S16LE || p.codec == CODEC_OPUS)
    &&& 6_000 <= p.bitrate <= 510_000
    &&& 5 <= p.jitter_min_ms <= 500
    &&& p.jitter_min_ms <= p.jitter_max_ms <= 1000
}

/// A peer-supplied profile clamped to safe values.
pub open spec fn sanitized_profile(p: StreamProfile) -> StreamProfile {
    let channels = clamp(p.channels, 1, 2);
    let frame_us: u32 = if p.frame_us == 2_500 || p.frame_us == 5_000 || p.frame_us == 10_000
        || p.frame_us == 20_000 {
        p.frame_us
    } else {
        10_000
    };
    let pcm_max: u32 = if channels == 2 {
        5_000
    } else {
        10_000
    };
    let frame_us = if p.codec == CODEC_PCM_S16LE && frame_us > pcm_max {
        pcm_max
    } else {
        frame_us
    };
    let codec = if p.codec != CODEC_PCM_S16LE && p.codec != CODEC_OPUS {
        CODEC_OPUS
    } else {
        p.codec
    };
    let jitter_min_ms = clamp(p.jitter_min_ms, 5, 500);
    StreamProfile {
        codec,
        channels,
        frame_us,
        bitrate: clamp(p.bitrate, 6_000, 510_000),
        jitter_min_ms,
        jitter_max_ms: clamp(p.jitter_max_ms, jitter_min_ms, 1000),
        ..p
    }
}

/// Clamp a peer-supplied profile to safe values.
pub fn sanitize_profile(p: &mut StreamProfile)
    ensures
        *final(p) == sanitized_profile(*old(p)),
        profile_sane(*final(p)),
{
    p.channels = clamp_u32(p.channels, 1, 2);
    if !(p.frame_us == 2_500 || p.frame_us == 5_000 || p.frame_us == 10_000 || p.frame_us
        == 20_000) {
        p.frame_us = 10_000;
    }
    // PCM frames must fit one datagram: 5 ms stereo or 10 ms mono at 48 kHz.
    if p.codec == CODEC_PCM_S16LE {
        let pcm_max: u32 = if p.channels == 2 {
            5_000
        } else {
            10_000
        };
        if p.frame_us > pcm_max {
            p.frame_us = pcm_max;
        }
    }
    if p.codec != CODEC_PCM_S16LE && p.codec != CODEC_OPUS {
        p.codec = CODEC_OPUS;
    }
    p.bitrate = clamp_u32(p.bitrate, 6_000, 510_000);
    p.jitter_min_ms = clamp_u32(p.jitter_min_ms, 5, 500);
    p.jitter_max_ms = clamp_u32(p.jitter_max_ms, p.jitter_min_ms, 1000);
}

/// Sanitizing leaves a sane profile alone, so sanitizing twice is sanitizing once.
pub proof fn lemma_sanitize_idempotent(p: StreamProfile)
    ensures
        profile_sane(p) ==> sanitized_profile(p) == p,
        sanitized_profile(sanitized_profile(p)) == sanitized_profile(p),
{
}

/// A change of codec, channels or frame size: the pipelines must be rebuilt.
pub open spec fn encoding_differs(a: StreamProfile, b: StreamProfile) -> bool {
    a.codec != b.codec || a.channels != b.channels || a.frame_us != b.frame_us
}

/// Any change the sender of a route must be told about.
pub open spec fn quality_differs(a: StreamProfile, b: StreamProfile) -> bool {
    encoding_differs(a, b) || a.bitrate != b.bitrate || a.redundancy != b.redundancy
        || a.adaptive_bitrate != b.adaptive_bitrate
}

pub fn encoding_changed(a: &StreamProfile, b: &StreamProfile) -> (r: bool)
    ensures
        r == encoding_differs(*a, *b),
{
    a.codec != b.codec || a.channels != b.channels || a.frame_us != b.frame_us
}

pub fn quality_changed(a: &StreamProfile, b: &StreamProfile) -> (r: bool)
    ensures
        r == quality_differs(*a, *b),
{
    encoding_changed(a, b) || a.bitrate != b.bitrate || a.redundancy != b.redundancy
        || a.adaptive_bitrate != b.adaptive_bitrate
}

/// Share of the header in a packet, in percent of the media bytes.
pub const PACKET_OVERHEAD_PCT: u32 = 12;
/// CPU share of an Opus encoder, in percent.
pub const ENCODER_CPU_PCT: u32 = 2;
/// CPU share of a PCM encoder, in percent.
pub const PCM_ENCODER_CPU_PCT: u32 = 1;

/// Media bandwidth one stream with this profile needs, in kb/s, headers included.
pub open spec fn stream_kbps(p: StreamProfile) -> int {
    let media: int = if p.codec == CODEC_PCM_S16LE {
        48 * 16 * (clamp(p.channels, 1, 2) as int)
    } else {
        (p.bitrate / 1000) as int
    };
    let media = if p.redundancy {
        media * 2
    } else {
        media
    };
    media + media * PACKET_OVERHEAD_PCT / 100
}

/// Media bandwidth one stream with this profile needs, in kb/s, headers included.
pub fn profile_kbps(p: &StreamProfile) -> (r: u32)
    ensures
        r == stream_kbps(*p),
{
    // 48 kHz × 16 bit × channels for PCM; the negotiated bitrate for Opus.
    let media: u32 = if p.codec == CODEC_PCM_S16LE {
        48 * 16 * clamp_u32(p.channels, 1, 2)
    } else {
        p.bitrate / 1000
    };
    // Redundancy repeats the previous frame in every packet.
    let media = if p.redundancy {
        media * 2
    } else {
        media
    };
    media + media * PACKET_OVERHEAD_PCT / 100
}

pub fn encoder_cpu_pct(p: &StreamProfile) -> (r: u32)
    ensures
        r == (if p.codec == CODEC_PCM_S16LE {
            PCM_ENCODER_CPU_PCT
        } else {
            ENCODER_CPU_PCT
        }),
{
    if p.codec == CODEC_PCM_S16LE {
        PCM_ENCODER_CPU_PCT
    } else {
        ENCODER_CPU_PCT
    }
}

/// Opus application mode.
#[derive(Debug, Clone, Copy, PartialEq, Eq, Structural)]
pub enum OpusApplication {
    /// Lowest delay; best for music, games, system audio.
    LowDelay,
    /// Speech-optimized; used for microphone routes.
    Voip,
}

/// Samples per channel in one frame of a profile, for the codec that carries it.
pub fn profile_frame_samples(p: &StreamProfile) -> (r: usize)
    ensures
        r == frame_samples(p.frame_us),
{
    samples_per_frame(p.frame_us)
}

} // verus!
