use sound_push_core::audit::{
    clip, permission_name, policy_name, AuditEntry, AuditKind, AuditLog, PermissionKind, Policy,
    WriteAction, MAX_FIELD_CHARS, RETENTION_SECS,
};
use sound_push_core::crash::{
    crash_stem, flush_token, is_report, order, panic_report_name, redact, redact_tokens, truncate,
};
use sound_push_core::state::RouteKind;

const NOW: u64 = 1_800_000_000;

fn entry(t: u64, kind: AuditKind) -> AuditEntry {
    AuditEntry::new(t, kind).peer("Phone", "SP-1234-5678-9ABC".to_string())
}

/// What the shell hands back on the next start: the lines it stored, read again.
fn reload(log: &AuditLog, now: u64) -> AuditLog {
    let lines: Vec<Option<AuditEntry>> = log.stored().into_iter().map(Some).collect();
    AuditLog::open(&lines, now)
}

#[test]
fn clearing_leaves_a_trace() {
    let mut log = AuditLog::open(&Vec::new(), NOW);
    log.record(entry(NOW, AuditKind::PairingAttempt).detail("192.168.1.9"));
    log.clear(NOW + 5);
    let entries = reload(&log, NOW + 6).entries();
    assert_eq!(entries.len(), 1);
    assert_eq!(entries[0].kind, AuditKind::LogCleared);
    // Clearing an empty log works too.
    let mut other = AuditLog::open(&Vec::new(), NOW);
    assert_eq!(other.clear(NOW), WriteAction::Append);
}

#[test]
fn records_persist_and_reload_newest_first() {
    let mut log = AuditLog::open(&Vec::new(), NOW);
    log.record(entry(NOW, AuditKind::PairingSucceeded));
    log.record(entry(NOW + 1, AuditKind::RouteStarted).route(RouteKind::SendMicToVirtualMic));
    let detail = format!("{}=deny", permission_name(PermissionKind::UseMyMicrophone));
    log.record(entry(NOW + 2, AuditKind::PermissionChanged).detail(&detail));

    let reloaded = reload(&log, NOW + 3).entries();
    assert_eq!(reloaded.len(), 3);
    assert_eq!(reloaded[0].kind, AuditKind::PermissionChanged);
    assert_eq!(reloaded[0].detail, "useMyMicrophone=deny");
    assert_eq!(reloaded[1].route, Some(RouteKind::SendMicToVirtualMic));
}

#[test]
fn bounded_by_count_and_age_and_skips_damaged_lines() {
    let lines = vec![
        Some(entry(NOW - RETENTION_SECS - 10, AuditKind::DeviceBlocked)),
        None,
        None,
        Some(entry(NOW - 10, AuditKind::DeviceUnblocked)),
    ];
    let mut log = AuditLog::open_with_limit(&lines, NOW, 10);
    assert_eq!(log.entries().len(), 1, "old and damaged lines dropped");
    assert!(log.compaction_due(), "compacted on load");
    log.compacted();
    assert!(!log.compaction_due());

    let mut rewrites = 0;
    for i in 0..35 {
        let action = log.record(entry(NOW + i, AuditKind::RouteStopped).detail(&"x".repeat(500)));
        match action {
            WriteAction::Append => log.appended(),
            WriteAction::Compact => {
                rewrites += 1;
                log.compacted();
            }
        }
    }
    assert!(rewrites > 0, "the file is rewritten before it reaches twice the limit");
    let entries = log.entries();
    assert_eq!(entries.len(), 10);
    assert_eq!(entries[0].time_unix, NOW + 34);
    assert_eq!(entries[0].detail.chars().count(), MAX_FIELD_CHARS);
    assert_eq!(reload(&log, NOW + 40).entries(), entries);
}

#[test]
fn stored_text_loses_control_characters_and_is_clipped() {
    assert_eq!(clip("Pho\u{7}ne\n"), "Phone");
    assert_eq!(clip(&"é".repeat(300)).chars().count(), MAX_FIELD_CHARS);
    assert_eq!(policy_name(Policy::Ask), "ask");
    assert_eq!(permission_name(PermissionKind::ControlMe), "controlMe");
}

#[test]
fn truncation_respects_char_boundaries() {
    let s = "ééééé";
    assert!(truncate(s, 3).starts_with('é'));
}

#[test]
fn truncation_marks_cut_text() {
    assert_eq!(truncate("ééééé", 3), "é…");
    assert_eq!(truncate("hello", 5), "hello");
    assert_eq!(truncate("hello", 4), "hell…");
    assert_eq!(truncate("héllo", 2), "h…");
}

#[test]
fn redaction_removes_addresses_and_identifiers() {
    let text = "dial 192.168.1.20:47650 failed for peer 0123456789abcdef0123456789abcdef, v6 [fe80::1:2]:5 at line 42 in 3.14";
    let r = redact(text, &Vec::new());
    assert!(!r.contains("192.168"), "{r}");
    assert!(!r.contains("fe80"), "{r}");
    assert!(r.contains("01234567…"), "{r}");
    assert!(!r.contains("89abcdef0123"), "{r}");
    assert!(r.contains("line 42 in 3.14"), "{r}");
    assert_eq!(redact("plain words", &Vec::new()), "plain words");
}

#[test]
fn redaction_removes_the_home_directory_and_keeps_separators() {
    let homes = vec!["/home/ana".to_string(), "/r".to_string()];
    assert_eq!(redact("open /home/ana/x failed in /r", &homes), "open ~/x failed in /r");
    assert_eq!(redact_tokens("at ..10.0.0.1.. now"), "at ..<ip>.. now");
    assert_eq!(redact_tokens("id abcdef0123456789abcd."), "id abcdef01….");
    assert_eq!(redact_tokens("v1.2.3"), "v1.2.3");
}

#[test]
fn reports_order_by_the_time_their_name_embeds() {
    assert_eq!(order("crash-000000000100-00000001.txt").0, 100);
    assert_eq!(order("panic-000000000050-00000001.txt").0, 50);
    assert!(order("panic-000000000050-00000001.txt") < order("crash-000000000100-00000001.txt"));
    assert_eq!(order("last-seen").0, 0);
    assert_eq!(order("x-99999999999999999999-1").0, 0, "too large for 64 bits");
    assert_eq!(order("x-+7").0, 7);
}

#[test]
fn report_names_pad_time_and_process() {
    assert_eq!(crash_stem(100, 1), "crash-000000000100-00000001");
    assert_eq!(panic_report_name(5, 42), "panic-000000000005-00000042.txt");
    // Wider numbers are written whole, never cut.
    assert_eq!(crash_stem(1_234_567_890_123, 123_456_789), "crash-1234567890123-123456789");
}

#[test]
fn named_reports_order_by_the_second_they_were_written() {
    for (now, pid) in [(0u64, 0u32), (7, 99), (1_800_000_000, 4242), (u64::MAX, u32::MAX)] {
        let panic = panic_report_name(now, pid);
        let crash = format!("{}.txt", crash_stem(now, pid));
        assert!(is_report(&panic) && is_report(&crash));
        assert_eq!(order(&panic).0, now);
        assert_eq!(order(&crash).0, now);
    }
}

#[test]
fn flushing_a_token_redacts_it_and_empties_it() {
    let mut token: Vec<char> = "192.168.1.20:47650".chars().collect();
    let mut out = String::from("dial ");
    flush_token(&mut token, &mut out);
    assert_eq!(out, "dial <ip>");
    assert!(token.is_empty());
    let mut short: Vec<char> = "abc".chars().collect();
    flush_token(&mut short, &mut out);
    assert_eq!(out, "dial <ip>abc");
    assert!(short.is_empty());
}
