use bytes::Bytes;
use sound_push_core::resume::{DeviceId, ResumeTokens, MAX_TOKENS, RESUME_GRANT_MS, TOKEN_LEN, TOKEN_LIFETIME_MS};
use sound_push_core::settings::{
    expire_debug_logging, sanitize_profile_table, sanitize_stream, schedule_debug_logging, stream_for,
    DeviceProfile, LatencyMode, StreamSettings, DEBUG_LOGGING_SECS,
};

#[test]
fn debug_logging_switches_itself_off_after_a_day() {
    let now: u64 = 1_800_000_000;
    // Switched on (it was off before).
    let mut enabled = true;
    let mut until = schedule_debug_logging(enabled, 0, false, now);
    assert_eq!(until, now + DEBUG_LOGGING_SECS);
    // Later changes keep the end; a client cannot push it further out.
    until = u64::MAX;
    until = schedule_debug_logging(enabled, until, true, now + 60);
    assert_eq!(until, now + 60 + DEBUG_LOGGING_SECS);
    until = schedule_debug_logging(enabled, until, true, now + 120);
    assert_eq!(until, now + 60 + DEBUG_LOGGING_SECS);

    let (e, u, changed) = expire_debug_logging(enabled, until, now + 3600);
    assert!(!changed);
    assert_eq!((e, u), (enabled, until));
    let (e, u, changed) = expire_debug_logging(enabled, until, now + 60 + DEBUG_LOGGING_SECS);
    assert!(changed);
    enabled = e;
    until = u;
    assert!(!enabled);
    assert_eq!(until, 0);
    until = schedule_debug_logging(enabled, until, false, now);
    assert_eq!(until, 0, "off stays off");
}

#[test]
fn sanitize_clamps() {
    let mut s = StreamSettings::default();
    s.custom_min_ms = 900;
    s.custom_max_ms = 10;
    sanitize_stream(&mut s);
    assert!(s.custom_max_ms >= s.custom_min_ms);
    assert_eq!(s.custom_min_ms, 500);
}

#[test]
fn device_profiles_override_and_sanitize() {
    let peer = "0123456789abcdef0123456789abcdef".to_string();
    let base = StreamSettings::default();
    // In key order, as the settings file's map holds them.
    let table = vec![
        (peer.clone(), DeviceProfile { latency: Some(LatencyMode::Stable), opus_bitrate: Some(1), ..DeviceProfile::default() }),
        ("fedcba9876543210fedcba9876543210".to_string(), DeviceProfile::default()),
        ("not-a-device".to_string(), DeviceProfile { redundancy: Some(true), ..DeviceProfile::default() }),
    ];
    let table = sanitize_profile_table(table);
    assert_eq!(table.len(), 1, "invalid ids and empty profiles are dropped");
    let stream = stream_for(&table, &base, &peer);
    assert_eq!(stream.latency, LatencyMode::Stable);
    assert_eq!(stream.opus_bitrate, 6_000);
    assert_eq!(stream.quality, base.quality, "unset fields follow the global setting");
    assert_eq!(stream_for(&table, &base, "other"), base);
}

fn key(n: u8) -> [u8; 32] {
    [n; 32]
}

#[test]
fn tokens_are_bound_single_use_and_expire() {
    let alice_key = key(1);
    let alice = DeviceId(1);
    let mallory_key = key(2);
    let mallory = DeviceId(2);
    let now: u64 = 50_000_000;
    let mut store = ResumeTokens::default();

    let token = store.issue(alice_key, alice, now).unwrap();
    // Another authenticated device cannot use it, and the attempt burns it.
    assert!(!store.redeem(&mallory_key, mallory, &token, now));
    assert!(!store.redeem(&alice_key, alice, &token, now));

    let token = store.issue(alice_key, alice, now).unwrap();
    assert!(store.redeem(&alice_key, alice, &token, now));
    assert!(store.resumed_recently(alice, now));
    assert!(!store.redeem(&alice_key, alice, &token, now), "single use");
    assert!(!store.resumed_recently(alice, now + RESUME_GRANT_MS));

    let token = store.issue(alice_key, alice, now).unwrap();
    assert!(!store.redeem(&alice_key, alice, &token, now + TOKEN_LIFETIME_MS));

    // Re-issuing replaces the previous token for the same peer.
    let first = store.issue(alice_key, alice, now).unwrap();
    let second = store.issue(alice_key, alice, now).unwrap();
    assert!(!store.redeem(&alice_key, alice, &first, now));
    assert!(store.redeem(&alice_key, alice, &second, now));
    assert!(!store.redeem(&alice_key, alice, &[1, 2, 3], now));
}

#[test]
fn held_tokens_are_validated_bounded_and_forgotten() {
    let peer = DeviceId(7);
    let now: u64 = 50_000_000;
    let mut store = ResumeTokens::default();
    store.hold(peer, Bytes::from_static(&[1; 5]), 600, now);
    assert!(store.held_for(peer, now).is_none(), "wrong length ignored");
    store.hold(peer, Bytes::from_static(&[1; TOKEN_LEN]), u32::MAX, now);
    assert!(store.held_for(peer, now).is_some());
    assert!(store.held_for(peer, now + TOKEN_LIFETIME_MS).is_none(), "lifetime capped");
    for i in 0..200u128 {
        store.hold(DeviceId(1000 + i), Bytes::from_static(&[2; TOKEN_LEN]), 60, now);
        let k = [(i % 250) as u8 + 3; 32];
        store.issue(k, DeviceId(5000 + i), now);
    }
    assert!(store.held_count() <= MAX_TOKENS && store.issued_count() <= MAX_TOKENS);
    store.forget(peer);
    assert!(store.held_for(peer, now).is_none());
}

#[test]
fn a_held_token_is_handed_back_unchanged() {
    let peer = DeviceId(9);
    let mut store = ResumeTokens::default();
    let bytes: Vec<u8> = (0..TOKEN_LEN as u8).collect();
    store.hold(peer, Bytes::from(bytes.clone()), 60, 0);
    assert_eq!(store.held_for(peer, 59_999).unwrap().to_vec(), bytes);
    assert!(store.held_for(peer, 60_000).is_none());
}

#[test]
fn an_accepted_token_opens_a_short_grant() {
    let key = [4u8; 32];
    let peer = DeviceId(44);
    let now: u64 = 1_000_000;
    let mut store = ResumeTokens::default();
    let token = store.issue(key, peer, now).unwrap();
    assert!(!store.resumed_recently(peer, now));
    assert!(store.redeem(&key, peer, &token, now));
    assert!(store.resumed_recently(peer, now + RESUME_GRANT_MS - 1));
    assert!(!store.resumed_recently(peer, now + RESUME_GRANT_MS));
    assert!(!store.resumed_recently(DeviceId(45), now));
}

#[test]
fn a_token_is_redeemed_after_other_devices_come_and_go() {
    let alice_key = key(1);
    let alice = DeviceId(1);
    let now: u64 = 70_000_000;
    let mut store = ResumeTokens::default();
    let token = store.issue(alice_key, alice, now).unwrap();
    let _ = store.issue(key(3), DeviceId(3), now + 1_000).unwrap();
    store.hold(DeviceId(4), Bytes::from(vec![9u8; 32]), 60, now + 2_000);
    store.forget(DeviceId(3));
    store.prune(now + 3_000);
    assert!(store.redeem(&alice_key, alice, &token, now + 4_000));
    assert!(!store.redeem(&alice_key, alice, &token, now + 4_000));
}
