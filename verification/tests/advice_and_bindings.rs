use sound_push_core::error::EngineError;
use sound_push_core::ffi::{fix_name, invalid, parse_kind, parse_permission, parse_policy, FfiError};
use sound_push_core::audit::{PermissionKind, Policy};
use sound_push_core::logging::{
    file_name, file_names, is_daily_log, must_rotate, rotation_limits, rotation_renames, LogConfig,
};
use sound_push_core::media::profile::OPUS_BITRATE_STEPS;
use sound_push_core::nettest::{recommend_for, LinkSigns, TestPlan};
use sound_push_core::platform::{EngineConfig, KeepAlive};
use sound_push_core::settings::{LatencyMode, QualityMode};
use sound_push_core::state::RouteKind;
use std::path::PathBuf;

// The shell compares its floating-point measurements with these thresholds.
fn signs(rtt_p95_ms: f64, jitter_ms: f64, loss_pct: f64) -> LinkSigns {
    LinkSigns {
        heavy_loss: loss_pct > 3.0,
        heavy_jitter: jitter_ms > 20.0,
        slow: rtt_p95_ms > 60.0,
        some_loss: loss_pct > 0.5,
        some_jitter: jitter_ms > 6.0,
        some_delay: rtt_p95_ms > 15.0,
        lossy: loss_pct > 1.0,
        clean: loss_pct < 0.2,
    }
}

#[test]
fn recommendations_follow_the_link() {
    let lan = recommend_for(signs(3.0, 1.0, 0.0), 1600);
    assert_eq!(lan.latency, LatencyMode::LowLatency);
    assert!(!lan.redundancy);
    assert_eq!(lan.tips[0], "nettest.tip.good");
    assert!(lan.tips.contains(&"nettest.tip.losslessOk".to_string()));

    let busy = recommend_for(signs(25.0, 8.0, 1.5), 640);
    assert_eq!(busy.latency, LatencyMode::Balanced);
    assert!(busy.redundancy);

    let weak = recommend_for(signs(120.0, 35.0, 8.0), 128);
    assert_eq!(weak.latency, LatencyMode::Stable);
    assert_eq!(weak.quality, QualityMode::Opus);
    assert!(weak.opus_bitrate <= 64_000);
    assert!(weak.tips.contains(&"nettest.tip.loss".to_string()));
    assert!(weak.tips.contains(&"nettest.tip.bandwidth".to_string()));

    let dead = recommend_for(signs(0.0, 0.0, 100.0), 0);
    assert_eq!(dead.opus_bitrate, OPUS_BITRATE_STEPS[0]);
}

#[test]
fn a_narrow_link_gets_the_largest_preset_within_half_its_capacity() {
    // 128 kb/s leaves 64 kb/s.
    assert_eq!(recommend_for(signs(0.0, 0.0, 0.0), 128).opus_bitrate, 64_000);
    // 300 kb/s leaves 150 kb/s: 128 kb/s is the largest preset below.
    assert_eq!(recommend_for(signs(0.0, 0.0, 0.0), 300).opus_bitrate, 128_000);
    let good = recommend_for(signs(0.0, 0.0, 0.0), 320);
    assert_eq!(good.quality, QualityMode::Auto);
    assert_eq!(good.tips, vec!["nettest.tip.good".to_string()]);
    let plan = TestPlan::default();
    assert_eq!(plan.steps_kbps, vec![128, 320, 640, 1100, 1600]);
    assert_eq!(plan.latency_probes, 150);
}

#[test]
fn log_files_are_named_newest_first_and_old_daily_files_are_recognized() {
    assert_eq!(file_name(0), "soundpush.log");
    assert_eq!(file_name(1), "soundpush.1.log");
    assert_eq!(file_name(12), "soundpush.12.log");
    assert_eq!(file_names(0), vec!["soundpush.log".to_string()]);
    assert_eq!(file_names(3).len(), 3);
    assert!(is_daily_log("soundpush.2026-09-14.log"));
    assert!(!is_daily_log("soundpush.log"));
    assert!(!is_daily_log("soundpush.1.log"));
    assert!(!is_daily_log("other.log"));
    assert!(!is_daily_log("soundpush.2026-0914-.log"));
}

#[test]
fn rotation_moves_every_file_up_one_and_limits_are_sane() {
    assert_eq!(rotation_renames(3), vec![(1, 2), (0, 1)]);
    assert_eq!(rotation_renames(1), Vec::<(usize, usize)>::new());
    assert_eq!(rotation_limits(10, 0), (1024, 1));
    assert!(must_rotate(1000, 100, 1024));
    assert!(!must_rotate(0, 5000, 1024), "an empty file takes the write whole");
    assert!(!must_rotate(900, 124, 1024));
    let desktop = LogConfig::desktop(PathBuf::from("/tmp/logs"));
    assert_eq!((desktop.max_bytes, desktop.max_files), (10 * 1024 * 1024, 5));
    let android = LogConfig::android(PathBuf::from("/tmp/logs"));
    assert_eq!((android.max_bytes, android.max_files), (2 * 1024 * 1024, 3));
    assert!(!android.bridge_log_crate);
}

#[test]
fn apps_receive_errors_and_send_names() {
    let FfiError::Engine { key, detail, fix } = FfiError::from(EngineError::NetworkBlocked);
    assert_eq!(key, "error.network.blocked");
    assert_eq!(detail, "network blocks local devices");
    assert_eq!(fix.as_deref(), Some("switchToUsb"));
    let FfiError::Engine { detail, fix, .. } = invalid("route kind");
    assert_eq!(detail, "invalid input: route kind");
    assert_eq!(fix, None);
    assert_eq!(parse_kind("sendMicToSpeaker").unwrap(), RouteKind::SendMicToSpeaker);
    assert!(parse_kind("SendMicToSpeaker").is_err());
    assert_eq!(parse_permission("useMyMicrophone").unwrap(), PermissionKind::UseMyMicrophone);
    assert!(parse_permission("everything").is_err());
    assert_eq!(parse_policy("deny").unwrap(), Policy::Deny);
    assert!(parse_policy("maybe").is_err());
    assert_eq!(fix_name(sound_push_core::error::FixAction::PairAgain), "pairAgain");
}

#[test]
fn keep_alive_and_engine_options() {
    assert!(!KeepAlive::default().any());
    assert!(KeepAlive { playback: false, microphone: true, app_audio_capture: false }.any());
    let cfg = EngineConfig::new("1.2.3".to_string(), 47650);
    assert!(cfg.discovery && cfg.tcp_listener && !cfg.include_loopback);
    assert_eq!(cfg.port, 47650);
}
