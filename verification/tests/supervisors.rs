use sound_push_core::addr::Address;
use sound_push_core::denoise::{DenoiseChange, DenoiseSupervisor, RECOVERY_STEPS};
use sound_push_core::health::{LinkHealth, QualityFallback, FALLBACK_RECOVER_SECS, FALLBACK_SECS};
use sound_push_core::pairing_limit::{Decision, PairingLimiter, MAX_SOURCES};
use sound_push_core::reconnect::{jittered, Backoff, FlapDetector};
use sound_push_core::refused::{RefusedHandshakes, BEFORE_NOTICE, WINDOW_MS};

#[test]
fn suspends_after_overruns_and_recovers_when_capture_is_healthy() {
    let mut s = DenoiseSupervisor::default();
    // A healthy capture never trips it, whatever the starting count.
    assert_eq!(s.step(1_000, true), None);
    for _ in 0..50 {
        assert_eq!(s.step(1_000, true), None);
    }
    assert!(!s.suspended());

    // Overruns pile up: off once, then quiet however long it lasts.
    assert_eq!(s.step(1_020, true), Some(DenoiseChange::Suspended));
    assert!(s.suspended());
    assert_eq!(s.step(1_040, true), None);

    // Clean again, but not for long enough yet.
    for _ in 0..(RECOVERY_STEPS - 1) {
        assert_eq!(s.step(1_040, true), None);
        assert!(s.suspended());
    }
    assert_eq!(s.step(1_040, true), Some(DenoiseChange::Resumed));
    assert!(!s.suspended());

    // A few overruns while a device changes are not enough to trip it.
    assert_eq!(s.step(1_043, true), None);
    assert!(!s.suspended());
}

#[test]
fn a_group_going_away_is_not_progress_and_the_setting_wins() {
    let mut s = DenoiseSupervisor::default();
    assert_eq!(s.step(500, true), None, "the first step only takes stock");
    // The only microphone route stopped, so the total went backwards.
    assert_eq!(s.step(0, true), None);
    assert!(!s.suspended());

    assert_eq!(s.step(100, true), Some(DenoiseChange::Suspended));
    // Switching the setting off clears the suspension without a second notice.
    assert_eq!(s.step(100, false), None);
    assert!(!s.suspended());
    assert_eq!(s.step(100, true), None, "back on because the user said so");
    assert!(!s.suspended());
}

#[test]
fn backoff_grows_caps_and_slows() {
    let mut b = Backoff::default();
    let first = b.next_delay();
    assert!(first <= 500);
    for _ in 0..8 {
        assert!(b.next_delay() <= 8_000);
    }
    b.next_delay();
    assert!(b.in_slow_phase());
    assert_eq!(b.next_delay(), 30_000);
    b.reset();
    assert!(!b.in_slow_phase());
}

#[test]
fn flapping_detected() {
    let mut f = FlapDetector::default();
    let t: u64 = 1_000_000;
    for i in 0..5 {
        assert!(!f.record(t + i * 1_000));
    }
    assert!(f.record(t + 6_000));
}

#[test]
fn reconnects_outside_the_window_are_forgotten() {
    let mut f = FlapDetector::default();
    for i in 0..5u64 {
        assert!(!f.record(i * 1_000));
    }
    // Two minutes after the first one, the early reconnects no longer count.
    assert!(!f.record(200_000));
}

fn ip(last: u8) -> Address {
    Address::V4(u32::from_be_bytes([192, 168, 68, last]))
}

#[test]
fn one_failure_is_not_worth_reporting_but_a_run_is() {
    let mut refused = RefusedHandshakes::default();
    let now: u64 = 5_000_000;
    assert!(!refused.record(ip(100), now), "a single failure is noise");
    assert!(!refused.record(ip(100), now));
    assert!(refused.record(ip(100), now), "the third makes it a pattern");
    // Still trying: counted, but the user has already been told.
    for _ in 0..10 {
        assert!(!refused.record(ip(100), now));
    }
}

#[test]
fn each_address_is_counted_on_its_own() {
    let mut refused = RefusedHandshakes::default();
    let now: u64 = 5_000_000;
    for _ in 0..BEFORE_NOTICE - 1 {
        assert!(!refused.record(ip(100), now));
        assert!(!refused.record(ip(101), now));
    }
    assert!(refused.record(ip(100), now));
    assert!(refused.record(ip(101), now));
}

#[test]
fn a_device_that_went_away_and_came_back_is_reported_again() {
    let mut refused = RefusedHandshakes::default();
    let start: u64 = 5_000_000;
    for _ in 0..BEFORE_NOTICE {
        refused.record(ip(100), start);
    }
    let later = start + WINDOW_MS + 1_000;
    assert!(!refused.record(ip(100), later), "a new run starts over");
    assert!(!refused.record(ip(100), later));
    assert!(refused.record(ip(100), later));
}

#[test]
fn a_device_still_retrying_is_reported_once_for_the_whole_streak() {
    let mut refused = RefusedHandshakes::default();
    let t: u64 = 5_000_000;
    let times = [t, t + 1, t + 2, t + 500_000, t + 1_000_000, t + 1_000_001, t + 1_000_002];
    let reports: Vec<bool> = times.iter().map(|&at| refused.record(ip(100), at)).collect();
    assert_eq!(reports, vec![false, false, true, false, false, false, false]);
    // Quiet for a whole window since its last failure: a fresh run, reported again.
    let back = t + 1_000_002 + WINDOW_MS;
    assert!(!refused.record(ip(100), back));
    assert!(!refused.record(ip(100), back + 1));
    assert!(refused.record(ip(100), back + 2));
}

#[test]
fn the_same_address_written_two_ways_is_one_address() {
    let mut refused = RefusedHandshakes::default();
    let now: u64 = 5_000_000;
    // What an IPv4 peer looks like on the dual-stack socket, and on its own.
    let mapped = Address::V6(0xffff_0000_0000 | u128::from(u32::from_be_bytes([192, 168, 68, 100])));
    assert!(!refused.record(mapped, now));
    assert!(!refused.record(ip(100), now));
    assert!(refused.record(mapped, now));
}

#[test]
fn five_per_minute_per_address() {
    let mut limiter = PairingLimiter::default();
    let t: u64 = 10_000_000;
    let a = Address::V4(u32::from_be_bytes([192, 168, 1, 20]));
    let b = Address::V4(u32::from_be_bytes([192, 168, 1, 21]));
    for i in 0..5 {
        assert_eq!(limiter.check(a, t + i * 1_000), Decision::Allowed);
    }
    assert_eq!(limiter.check(a, t + 10_000), Decision::Refused { first: true });
    // The same host through a dual-stack socket is the same source.
    let mapped = Address::V6(0xffff_0000_0000 | u128::from(u32::from_be_bytes([192, 168, 1, 20])));
    assert_eq!(limiter.check(mapped, t + 11_000), Decision::Refused { first: false });
    assert_eq!(limiter.check(b, t + 11_000), Decision::Allowed);
    // A minute after the first attempt, one slot is free again.
    assert_eq!(limiter.check(a, t + 60_000), Decision::Allowed);
    assert_eq!(limiter.check(a, t + 60_000), Decision::Refused { first: true });
}

#[test]
fn tracked_addresses_stay_bounded() {
    let mut limiter = PairingLimiter::default();
    let t: u64 = 10_000_000;
    for i in 0..2000u32 {
        let ip = Address::V6(u128::from(i) + 1);
        assert_eq!(limiter.check(ip, t), Decision::Allowed);
    }
    assert!(limiter.source_count() <= MAX_SOURCES);
}

// The shell turns measured loss (percent) and jitter (milliseconds) into these signs with the
// thresholds below; the state machines only see the signs.
fn link(h: &mut LinkHealth, loss_pct: f64, jitter_ms: f64) -> bool {
    let bad = loss_pct > 3.0 || jitter_ms > 30.0;
    let good = loss_pct < 1.0 && jitter_ms < 15.0;
    h.update(bad, good)
}

fn fallback(f: &mut QualityFallback, loss_pct: f64) -> bool {
    f.update(loss_pct > 2.0, loss_pct < 0.5)
}

#[test]
fn enters_after_sustained_trouble_and_recovers_with_hysteresis() {
    let mut h = LinkHealth::default();
    // Short spikes do not count.
    assert!(!link(&mut h, 10.0, 0.0));
    assert!(!link(&mut h, 10.0, 0.0));
    assert!(!link(&mut h, 0.0, 0.0));
    assert!(!h.is_degraded());

    // Three bad seconds in a row (loss or jitter).
    assert!(!link(&mut h, 5.0, 0.0));
    assert!(!link(&mut h, 0.0, 45.0));
    assert!(link(&mut h, 4.0, 0.0));
    assert!(h.is_degraded());

    // In between the thresholds: stays degraded however long it lasts.
    for _ in 0..20 {
        assert!(!link(&mut h, 2.0, 20.0));
    }
    assert!(h.is_degraded());

    // Five clean seconds, interrupted once, then five in a row.
    for _ in 0..4 {
        link(&mut h, 0.0, 5.0);
    }
    link(&mut h, 1.5, 5.0);
    for _ in 0..4 {
        assert!(!link(&mut h, 0.2, 5.0));
    }
    assert!(link(&mut h, 0.2, 5.0));
    assert!(!h.is_degraded());

    assert!(!link(&mut h, f64::NAN, f64::NAN));
}

#[test]
fn lossless_falls_back_only_on_sustained_loss_and_comes_back_slowly() {
    let mut f = QualityFallback::default();
    // A burst of loss that passes is not enough.
    for _ in 0..FALLBACK_SECS - 1 {
        assert!(!fallback(&mut f, 5.0));
    }
    assert!(!fallback(&mut f, 0.0));
    assert!(!f.is_active());

    // Five seconds above 2 % switch it on.
    for _ in 0..FALLBACK_SECS - 1 {
        assert!(!fallback(&mut f, 2.5));
    }
    assert!(fallback(&mut f, 10.0));
    assert!(f.is_active());

    // Between the thresholds it stays on, however long that lasts.
    for _ in 0..30 {
        assert!(!fallback(&mut f, 1.0));
    }
    assert!(f.is_active());

    // A clean run interrupted once starts again.
    for _ in 0..FALLBACK_RECOVER_SECS - 1 {
        assert!(!fallback(&mut f, 0.0));
    }
    assert!(!fallback(&mut f, 1.0));
    for _ in 0..FALLBACK_RECOVER_SECS - 1 {
        assert!(!fallback(&mut f, 0.1));
    }
    assert!(fallback(&mut f, 0.0));
    assert!(!f.is_active());

    assert!(!fallback(&mut f, f64::NAN));
    f.reset();
    assert!(!f.is_active());
}

#[test]
fn a_draw_spreads_over_the_range_and_no_draw_waits_longest() {
    assert_eq!(jittered(250, 500, Some(0)), 250);
    assert_eq!(jittered(250, 500, Some(250)), 500);
    assert_eq!(jittered(250, 500, Some(251)), 250);
    assert_eq!(jittered(250, 500, Some(u64::MAX)), 250 + u64::MAX % 251);
    assert_eq!(jittered(250, 500, None), 500);
    assert_eq!(jittered(7, 7, Some(12345)), 7);
}

#[test]
fn other_addresses_checked_in_between_do_not_change_an_address_budget() {
    let mut limiter = PairingLimiter::default();
    let t: u64 = 20_000_000;
    let a = Address::V4(u32::from_be_bytes([10, 0, 0, 1]));
    let b = Address::V4(u32::from_be_bytes([10, 0, 0, 2]));
    let c = Address::V4(u32::from_be_bytes([10, 0, 0, 3]));
    for i in 0..5 {
        assert_eq!(limiter.check(a, t + i * 2_000), Decision::Allowed);
        assert_eq!(limiter.check(b, t + i * 2_000 + 500), Decision::Allowed);
        assert_eq!(limiter.check(c, t + i * 2_000 + 700), Decision::Allowed);
    }
    assert_eq!(limiter.check(a, t + 20_000), Decision::Refused { first: true });
    assert_eq!(limiter.check(b, t + 20_000), Decision::Refused { first: true });
    assert_eq!(limiter.check(a, t + 21_000), Decision::Refused { first: false });
    assert_eq!(limiter.check(a, t + 60_000), Decision::Allowed);
}
