use rand::{Rng, SeedableRng};
use sound_push_core::media::jitter::{JitterBuffer, JitterConfig, PopStatus, MAX_FRAMES};
use sound_push_core::media::pcm::{PcmDecoder, PcmEncoder};
use sound_push_core::media::profile::{
    build_profile, encoding_changed, profile_kbps, quality_changed, sanitize_profile, LatencyProfile,
    Quality, CODEC_OPUS, CODEC_PCM_S16LE, MAX_MEDIA_PAYLOAD,
};
use sound_push_core::media::{ms_to_samples, samples_per_frame, MediaError};

#[test]
fn pcm_frames_fit_in_datagram() {
    for lat in [LatencyProfile::LowLatency, LatencyProfile::Balanced, LatencyProfile::Stable] {
        for channels in [1, 2] {
            let p = build_profile(lat, Quality::Lossless, channels, false);
            let bytes = samples_per_frame(p.frame_us) * p.channels as usize * 2;
            assert!(bytes <= MAX_MEDIA_PAYLOAD, "{lat:?} {channels} ch -> {bytes}");
        }
    }
}

#[test]
fn custom_bounds_are_sane() {
    let (min, max, _) = LatencyProfile::Custom { min_ms: 1, max_ms: 0 }.params();
    assert_eq!(min, 5);
    assert!(max >= min);
}

#[test]
fn frame_and_millisecond_conversions_at_48_khz() {
    assert_eq!(samples_per_frame(10_000), 480);
    assert_eq!(samples_per_frame(20_000), 960);
    assert_eq!(ms_to_samples(20), 960);
}

#[test]
fn profiles_follow_the_chosen_quality() {
    let auto = build_profile(LatencyProfile::Balanced, Quality::Auto, 2, false);
    assert_eq!(auto.codec, CODEC_OPUS);
    assert_eq!(auto.bitrate, 128_000);
    assert!(auto.adaptive_bitrate);
    let fixed = build_profile(LatencyProfile::Balanced, Quality::Opus(1), 2, false);
    assert_eq!(fixed.bitrate, 6_000, "bitrates are clamped to what Opus accepts");
    let lossless = build_profile(LatencyProfile::Balanced, Quality::Lossless, 2, false);
    assert_eq!(lossless.codec, CODEC_PCM_S16LE);
    assert!(encoding_changed(&auto, &lossless));
    assert!(quality_changed(&auto, &fixed));
    assert!(!encoding_changed(&auto, &auto.clone()));
    assert!(profile_kbps(&lossless) > profile_kbps(&auto));

    let mut odd = auto.clone();
    odd.jitter_min_ms = 900;
    odd.jitter_max_ms = 10;
    sanitize_profile(&mut odd);
    assert!(odd.jitter_max_ms >= odd.jitter_min_ms);
}

fn sine(frames: usize, channels: usize) -> Vec<i16> {
    (0..frames * channels)
        .map(|i| ((i as f64 * 0.0575).sin() * 20_000.0) as i16)
        .collect()
}

#[test]
fn pcm_roundtrip_is_near_lossless() {
    let profile = build_profile(LatencyProfile::LowLatency, Quality::Lossless, 2, false);
    let frame = samples_per_frame(profile.frame_us);
    let enc = PcmEncoder::new(&profile);
    let dec = PcmDecoder::new(&profile);
    let input = sine(frame, 2);
    let mut packet = Vec::new();
    enc.encode(&input, &mut packet).unwrap();
    let mut out = vec![0i16; frame * 2];
    assert_eq!(dec.decode(&packet, &mut out).unwrap(), frame);
    assert_eq!(input, out);
}

#[test]
fn decoders_reject_bad_payloads() {
    let profile = build_profile(LatencyProfile::Balanced, Quality::Lossless, 1, false);
    let dec = PcmDecoder::new(&profile);
    let mut out = vec![0i16; 10];
    assert!(dec.decode(&[1, 2, 3], &mut out).is_err());
    let enc = PcmEncoder::new(&profile);
    let mut packet = Vec::new();
    assert_eq!(
        enc.encode(&vec![0i16; MAX_MEDIA_PAYLOAD], &mut packet),
        Err(MediaError::InvalidParameter("pcm frame size"))
    );
}

const FRAME: usize = 480;

fn cfg(min: u32, max: u32) -> JitterConfig {
    JitterConfig { channels: 1, frame_samples: FRAME, min_delay_ms: min, max_delay_ms: max }
}

fn frame(ts: u64) -> Vec<f32> {
    vec![(ts / FRAME as u64) as f32; FRAME]
}

#[test]
fn buffers_then_plays_in_order() {
    let mut jb = JitterBuffer::new(cfg(20, 80));
    let mut out = vec![0.0f32; FRAME];
    for i in 0..3u64 {
        jb.push(i * FRAME as u64, frame(i * FRAME as u64), i * FRAME as u64);
    }
    assert_eq!(jb.pop(&mut out, 0.0), PopStatus::Played);
    assert_eq!(out[0], 0.0);
    assert_eq!(jb.pop(&mut out, 0.0), PopStatus::Played);
    assert_eq!(out[0], 1.0);
}

#[test]
fn reordered_packets_play_in_order_and_gaps_conceal() {
    let mut jb = JitterBuffer::new(cfg(30, 80));
    let mut out = vec![0.0f32; FRAME];
    for i in [1u64, 0, 3, 2, 5] {
        jb.push(i * FRAME as u64, frame(i * FRAME as u64), 0);
    }
    let mut seen = Vec::new();
    for _ in 0..5 {
        match jb.pop(&mut out, 0.0) {
            PopStatus::Played => seen.push(out[0] as u64),
            PopStatus::Missing => seen.push(99),
            PopStatus::Buffering => {}
        }
    }
    assert_eq!(seen, vec![0, 1, 2, 3, 99]);
}

#[test]
fn late_packets_are_dropped() {
    let mut jb = JitterBuffer::new(cfg(20, 80));
    let mut out = vec![0.0f32; FRAME];
    for i in 0..4u64 {
        jb.push(i * FRAME as u64, frame(i * FRAME as u64), 0);
    }
    jb.pop(&mut out, 0.0);
    jb.pop(&mut out, 0.0);
    jb.push(0, frame(0), 0);
    assert_eq!(jb.stats().late, 1);
}

#[test]
fn hostile_timestamps_never_panic_and_stay_bounded() {
    let mut rng = rand::rngs::StdRng::seed_from_u64(11);
    let mut jb = JitterBuffer::new(cfg(20, 1000));
    let mut out = vec![0.0f32; FRAME];
    for i in 0..20_000u64 {
        let ts = match i % 4 {
            0 => u64::MAX - rng.gen_range(0..1000),
            1 => rng.gen::<u64>(),
            2 => i * 7,
            _ => rng.gen_range(0..u64::MAX / 2),
        };
        let arrival = if i % 3 == 0 { u64::MAX } else { rng.gen() };
        jb.push(ts, frame(0), arrival);
        assert!(jb.frame_count() <= MAX_FRAMES);
        if i % 5 == 0 {
            jb.pop(&mut out, 0.0);
        }
        if i % 97 == 0 {
            jb.adapt();
        }
    }
    let _ = jb.stats();
}

#[test]
fn random_jitter_within_bounds_has_no_underruns_after_warmup() {
    let mut rng = rand::rngs::StdRng::seed_from_u64(7);
    let mut jb = JitterBuffer::new(cfg(20, 120));
    let mut out = vec![0.0f32; FRAME];
    // Packets sent every 10 ms, delayed by 0–30 ms; receiver pops every 10 ms.
    let mut pending: Vec<(u64, u64)> = Vec::new();
    let total = 3000u64;
    for tick in 0..total {
        let ts = tick * FRAME as u64;
        let delay = rng.gen_range(0..=(30 * 48));
        pending.push((ts + delay, ts));
        let now = ts;
        pending.sort_unstable();
        while let Some(&(arrive, sts)) = pending.first() {
            if arrive <= now {
                jb.push(sts, frame(sts), arrive);
                pending.remove(0);
            } else {
                break;
            }
        }
        jb.pop(&mut out, 0.0);
        if tick % 100 == 0 {
            jb.adapt();
        }
    }
    let stats = jb.stats();
    assert!(stats.underruns <= 3, "underruns {}", stats.underruns);
    assert!(stats.played as f64 > total as f64 * 0.95, "played {}", stats.played);
    assert!(stats.target_samples <= 120 * 48);
}
