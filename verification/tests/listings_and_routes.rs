use sound_push_core::crash::{
    dump_name, is_report, older_report, orphan_dumps, redact_tokens, select_reports, sort_reports,
    stale_count, unseen_count, KEEP,
};
use sound_push_core::logging::file_name;
use sound_push_core::media::profile::{build_profile, LatencyProfile, Quality};
use sound_push_core::routes::{alloc_route, follows_default, CaptureSource, EncoderKey, SourceKey};
use sound_push_core::settings::{sanitize_app, trim_to, CaptureSettings};
use sound_push_core::state::RouteKind;

fn strings(names: &[&str]) -> Vec<String> {
    names.iter().map(|s| s.to_string()).collect()
}

#[test]
fn reports_are_listed_pruned_and_seen_once() {
    let mut names: Vec<String> = (0..12).map(|i| format!("panic-{i:012}-00000001.txt")).collect();
    names.push("last-seen".to_string());
    names.push("notes.txt".to_string());
    let reports = sort_reports(select_reports(names));
    assert_eq!(reports.len(), 12);
    let stale = stale_count(reports.len());
    assert_eq!(stale, 2);
    let kept: Vec<String> = reports[stale..].to_vec();
    assert_eq!(kept.len(), KEEP);
    assert_eq!(kept[0], "panic-000000000002-00000001.txt", "the oldest went");
    assert_eq!(unseen_count(&kept, ""), KEEP);
    let newest = kept.last().unwrap().clone();
    assert_eq!(unseen_count(&kept, &newest), 0, "surfaced once");
}

#[test]
fn handled_crashes_are_ordered_with_panics_and_take_their_minidump_along() {
    let names = strings(&[
        "panic-000000000200-00000001.txt",
        "crash-000000000100-00000001.txt",
        "panic-000000000050-00000001.txt",
        "crash-000000000100-00000001.dmp",
        "crash-000000000009-00000002.dmp",
    ]);
    let reports = sort_reports(select_reports(names.clone()));
    // A panic from a later second is the newer report although "crash" sorts before "panic".
    assert_eq!(
        reports,
        strings(&[
            "panic-000000000050-00000001.txt",
            "crash-000000000100-00000001.txt",
            "panic-000000000200-00000001.txt",
        ])
    );
    assert_eq!(unseen_count(&reports, "crash-000000000100-00000001.txt"), 1, "only the newer one is new");
    assert_eq!(dump_name("crash-000000000100-00000001.txt"), "crash-000000000100-00000001.dmp");
    // A dump whose report never appeared does not linger; one with its report stays.
    assert_eq!(orphan_dumps(&names, &reports), strings(&["crash-000000000009-00000002.dmp"]));
    assert!(older_report("panic-000000000050-00000001.txt", "crash-000000000100-00000001.txt"));
    assert!(!older_report("crash-000000000100-00000001.txt", "crash-000000000100-00000001.txt"));
    assert!(is_report("crash-1-2.txt") && !is_report("crash-1-2.dmp") && !is_report("x-1.txt"));
}

#[test]
fn redaction_never_makes_text_longer() {
    for text in [
        "1.2.3.4",
        "::1",
        "fe80::1:2:3",
        "....",
        "deadbeefdeadbeefdeadbeef",
        "a:b",
        "10.0.0.1:8080 and 10.0.0.2",
        "",
    ] {
        let r = redact_tokens(text);
        assert!(r.chars().count() <= text.chars().count(), "{text} -> {r}");
    }
    assert_eq!(redact_tokens("::1"), "::1", "too short for an IPv6 address");
    assert_eq!(redact_tokens("fe80::1:2:3"), "<ip>");
}

#[test]
fn encoder_groups_follow_what_is_captured() {
    let p = build_profile(LatencyProfile::Balanced, Quality::Auto, 2, false);
    let mic = EncoderKey::new(&CaptureSource::Input("USB Mic".to_string()), true, false, &p);
    assert_eq!(mic.source, SourceKey::Mic(Some("USB Mic".to_string())));
    assert!(mic.is_mic());
    let line_in = EncoderKey::new(&CaptureSource::Input("Line".to_string()), false, false, &p);
    assert_eq!(line_in.source, SourceKey::System(Some("Line".to_string())));
    assert!(!line_in.is_mic());
    let apps = EncoderKey::new(&CaptureSource::DefaultInput, true, true, &p);
    assert_eq!(apps.source, SourceKey::Apps);
    assert_eq!((apps.codec, apps.bitrate, apps.channels, apps.frame_us), (p.codec, p.bitrate, p.channels, p.frame_us));
    assert_eq!(EncoderKey::new(&CaptureSource::DefaultInput, true, false, &p).source, SourceKey::Mic(None));
}

#[test]
fn only_routes_on_the_default_device_follow_it() {
    // The settings the check reads: what is captured, the chosen input and the chosen output.
    let mut capture = CaptureSettings::default();
    let mut mic_device: Option<String> = None;
    let mut output_device: Option<String> = None;
    assert!(follows_default(RouteKind::SendSystemAudio, &capture, &mic_device, &output_device, false, true));
    assert!(!follows_default(RouteKind::SendSystemAudio, &capture, &mic_device, &output_device, true, false));
    assert!(follows_default(RouteKind::SendMicToVirtualMic, &capture, &mic_device, &output_device, true, false));
    assert!(follows_default(RouteKind::ReceiveSystemAudio, &capture, &mic_device, &output_device, false, true));
    // The virtual microphone is a named cable, never the default output.
    assert!(!follows_default(RouteKind::ReceiveMicToVirtualMic, &capture, &mic_device, &output_device, true, true));

    output_device = Some("Headphones".into());
    capture.app = Some("spotify.exe".into());
    mic_device = Some("USB Mic".into());
    assert!(!follows_default(RouteKind::ReceiveSystemAudio, &capture, &mic_device, &output_device, true, true));
    assert!(!follows_default(RouteKind::SendSystemAudio, &capture, &mic_device, &output_device, true, true));
    assert!(!follows_default(RouteKind::SendMicToSpeaker, &capture, &mic_device, &output_device, true, true));
}

#[test]
fn a_pinned_capture_device_or_app_keeps_system_audio_where_it_is() {
    let pinned = CaptureSettings { system_device: Some("Headphones".to_string()), ..CaptureSettings::default() };
    assert!(!follows_default(RouteKind::SendSystemAudio, &pinned, &None, &None, false, true));
    let capture = CaptureSettings::default();
    assert!(!follows_default(RouteKind::SendAppAudio, &capture, &None, &None, true, true));
}

#[test]
fn route_ids_keep_their_parity_and_skip_zero_and_one() {
    let mut next = 250u8;
    let mut seen = Vec::new();
    for _ in 0..6 {
        let (id, n) = alloc_route(next);
        seen.push(id);
        next = n;
    }
    assert_eq!(seen, vec![250, 252, 254, 2, 4, 6]);
    assert_eq!(alloc_route(255), (255, 3));
}

#[test]
fn names_from_a_settings_file_are_trimmed_and_bounded() {
    assert_eq!(trim_to("  Desk \u{3000}", 64), "Desk");
    assert_eq!(trim_to(&"é".repeat(100), 64).chars().count(), 64);
    assert_eq!(trim_to(" \t ", 64), "");
    assert_eq!(sanitize_app(Some("  spotify.exe ".to_string())), Some("spotify.exe".to_string()));
    assert_eq!(sanitize_app(Some("   ".to_string())), None);
    assert_eq!(sanitize_app(None), None);
}

#[test]
fn every_log_file_has_its_own_name() {
    let names: Vec<String> = (0..200).map(file_name).collect();
    let mut sorted = names.clone();
    sorted.sort();
    sorted.dedup();
    assert_eq!(sorted.len(), names.len());
}
