use sound_push_core::media::frames::{
    after_frame, can_add_redundancy, choose_variant, frame_redundant, highest_loss,
    lowest_bitrate, needs_audio, refresh_flags, split_redundant, FrameClock, TargetFlags, Variant,
};
use sound_push_core::media::profile::MAX_MEDIA_PAYLOAD;

fn target(understands_dtx: bool) -> TargetFlags {
    TargetFlags { muted: false, understands_dtx, redundancy: false, first: true, restart: false }
}

/// Runs `frames` silent 10 ms frames for a receiver that understands DTX and one that does not;
/// returns the variants each got.
fn silent_stream(frames: usize) -> (Vec<Variant>, Vec<Variant>) {
    let mut clock = FrameClock::new(480, true);
    let mut targets = [target(true), target(false)];
    let (mut dtx, mut legacy) = (Vec::new(), Vec::new());
    let mut previous_len = 0;
    for _ in 0..frames {
        let info = clock.next_frame(true);
        let audio = needs_audio(&targets, info.dtx);
        let redundancy_ok = can_add_redundancy(true, audio, 80, previous_len);
        for (i, t) in targets.iter_mut().enumerate() {
            let v = choose_variant(*t, info.dtx, info.dtx_signal, redundancy_ok);
            if v != Variant::Nothing {
                if i == 0 {
                    dtx.push(v);
                } else {
                    legacy.push(v);
                }
            }
            *t = after_frame(*t, v, true);
        }
        previous_len = if audio { 80 } else { 0 };
    }
    (dtx, legacy)
}

#[test]
fn silence_becomes_dtx_only_for_receivers_that_understand_it() {
    let (pd, pl) = silent_stream(150);
    assert!(pl.len() > 100, "no DTX: every frame ({})", pl.len());
    assert!(pl.iter().all(|v| *v != Variant::Dtx));
    // 200 ms of hangover audio, two DTX packets, then a keep-alive every 400 ms.
    assert!(pd.len() < 40, "silence costs a few packets ({})", pd.len());
    let silent = pd.iter().filter(|v| **v == Variant::Dtx).count();
    assert!(silent >= 3, "DTX packets: {silent}");
    assert_eq!(pd.len(), 25);
    assert_eq!(silent, 5);
}

#[test]
fn frames_advance_the_timeline_and_wrap_the_sequence() {
    let mut clock = FrameClock::new(480, false);
    assert_eq!(clock.hangover, 20);
    assert_eq!(clock.keepalive, 40);
    let a = clock.next_frame(false);
    let b = clock.next_frame(true);
    assert_eq!((a.timestamp, a.seq), (0, 0));
    assert_eq!((b.timestamp, b.seq), (480, 1));
    assert_eq!(clock.timestamp, 960);
    clock.seq = u32::MAX;
    assert_eq!(clock.next_frame(false).seq, u32::MAX);
    assert_eq!(clock.seq, 0);
    // PCM streams never go into DTX.
    for _ in 0..100 {
        assert!(!clock.next_frame(true).dtx);
    }
    // A zero frame length counts as one sample.
    let odd = FrameClock::new(0, true);
    assert_eq!((odd.hangover, odd.keepalive), (9_600, 19_200));
    // Frames longer than the keep-alive interval still send keep-alives.
    assert_eq!(FrameClock::new(48_000, true).keepalive, 1);
}

#[test]
fn muted_receivers_get_nothing_and_restart_when_unmuted() {
    let mut t = target(false);
    let v = choose_variant(t, false, false, false);
    assert_eq!(v, Variant::Plain);
    t = after_frame(t, v, true);
    assert!(!t.first && !t.restart);
    t.muted = true;
    let v = choose_variant(t, false, false, false);
    assert_eq!(v, Variant::Nothing);
    t = after_frame(t, v, true);
    assert!(t.restart);
    t.muted = false;
    // A failed send keeps the discontinuity pending.
    let v = choose_variant(t, false, false, false);
    t = after_frame(t, v, false);
    assert!(t.restart);
    t = after_frame(t, v, true);
    assert!(!t.restart);
}

#[test]
fn redundancy_needs_room_and_a_previous_frame() {
    let mut t = target(false);
    t.redundancy = true;
    assert!(can_add_redundancy(true, true, 100, 100));
    assert!(!can_add_redundancy(true, true, 100, 0));
    assert!(!can_add_redundancy(false, true, 100, 100));
    assert!(!can_add_redundancy(true, false, 100, 100));
    assert!(can_add_redundancy(true, true, 600, MAX_MEDIA_PAYLOAD - 602));
    assert!(!can_add_redundancy(true, true, 600, MAX_MEDIA_PAYLOAD - 601));
    assert_eq!(choose_variant(t, false, false, true), Variant::Redundant);
    assert_eq!(choose_variant(t, false, false, false), Variant::Plain);
}

#[test]
fn a_redundant_payload_splits_into_the_frames_it_was_built_from() {
    let primary: Vec<u8> = (0..300).map(|i| (i % 251) as u8).collect();
    let previous = vec![9u8, 8, 7];
    let payload = frame_redundant(&primary, &previous);
    assert_eq!(&payload[..2], &[1, 44]);
    assert_eq!(payload.len(), 2 + 300 + 3);
    let (p, q) = split_redundant(&payload, true);
    assert_eq!(p, primary);
    assert_eq!(q, Some(previous));
    // Without the flag, or with a length that does not fit, the payload is one frame.
    assert_eq!(split_redundant(&payload, false), (payload.clone(), None));
    let bad = vec![0xff, 0xff, 1, 2, 3];
    assert_eq!(split_redundant(&bad, true), (bad.clone(), None));
    assert_eq!(split_redundant(&[7], true), (vec![7], None));
    // An empty copy of the previous frame is still a (useless) copy.
    assert_eq!(split_redundant(&[0, 1, 5], true), (vec![5], Some(vec![])));
}

#[test]
fn a_shared_encoder_follows_its_most_constrained_receiver() {
    assert_eq!(lowest_bitrate(&[]), None);
    assert_eq!(lowest_bitrate(&[96_000, 48_000, 128_000]), Some(48_000));
    assert_eq!(highest_loss(&[]), 0);
    assert_eq!(highest_loss(&[3, 12, 0]), 12);
    let targets = [target(true), target(true)];
    assert!(!needs_audio(&targets, true));
    assert!(needs_audio(&targets, false));
    assert!(needs_audio(&[target(true), target(false)], true));
}

#[test]
fn receivers_keep_their_state_when_the_list_changes() {
    let known = [(3u64, true, false), (5, false, false)];
    // 5 stays, 3 left, 9 is new.
    assert_eq!(refresh_flags(&[5, 9], &known), vec![(false, false), (false, true)]);
    assert_eq!(refresh_flags(&[3], &known), vec![(true, false)]);
    assert!(refresh_flags(&[], &known).is_empty());
    assert_eq!(refresh_flags(&[1], &[]), vec![(false, true)]);
}
