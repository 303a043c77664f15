//! Adaptive jitter buffer.
//!
//! Holds decoded frames ordered by sender sample timestamp and plays them out at the
//! receiver's render pace. The target delay adapts to measured network jitter within
//! `[min_delay, max_delay]`: it grows immediately after an underrun and shrinks slowly.
//!
//! The buffer is generic over the sample type: it only moves samples around. Frames are kept
//! in a vector sorted by timestamp.

use vstd::prelude::*;
use super::{ms_samples, ms_to_samples};
use super::sort::{sorted_copy, sorted_values};

verus! {

/// Deviations kept for the percentile estimate.
pub const WINDOW: usize = 512;
/// Frames of concealment before falling back to rebuffering.
pub const MAX_CONCEAL_FRAMES: u32 = 5;
/// Hard cap on buffered frames, whatever timestamps a sender invents.
pub const MAX_FRAMES: usize = 1024;

#[derive(Debug, Clone, Copy, PartialEq, Eq, Structural)]
pub struct JitterConfig {
    pub channels: usize,
    /// Samples per channel in one frame.
    pub frame_samples: usize,
    pub min_delay_ms: u32,
    pub max_delay_ms: u32,
}

/// What the buffer produced for one output frame.
#[derive(Debug, Clone, Copy, PartialEq, Eq, Structural)]
pub enum PopStatus {
    /// A received frame was played.
    Played,
    /// The frame was missing; the caller should run packet loss concealment.
    Missing,
    /// Not enough audio buffered yet; output is silence.
    Buffering,
}

/// Counters of what happened to frames, and the current delays in samples.
#[derive(Debug, Clone, Copy, Default, PartialEq, Eq, Structural)]
pub struct JitterStats {
    pub received: u64,
    pub played: u64,
    pub missing: u64,
    pub late: u64,
    pub underruns: u64,
    pub target_samples: u64,
    pub buffered_samples: u64,
}

pub open spec fn sat_add(a: u64, b: u64) -> u64 {
    if a + b > u64::MAX {
        u64::MAX
    } else {
        (a + b) as u64
    }
}

pub open spec fn sat_sub(a: u64, b: u64) -> u64 {
    if a >= b {
        (a - b) as u64
    } else {
        0
    }
}

pub open spec fn inc(a: u64) -> u64 {
    sat_add(a, 1)
}

pub open spec fn inc32(a: u32) -> u32 {
    if a == u32::MAX {
        a
    } else {
        (a + 1) as u32
    }
}

/// `a - b` modulo 2^64.
pub open spec fn wrap_sub(a: u64, b: u64) -> u64 {
    if a >= b {
        (a - b) as u64
    } else {
        (a - b + 0x1_0000_0000_0000_0000) as u64
    }
}

pub open spec fn max64(a: u64, b: u64) -> u64 {
    if a >= b {
        a
    } else {
        b
    }
}

/// Channels counted for frame lengths (at least one).
pub open spec fn chans(cfg: JitterConfig) -> nat {
    if cfg.channels == 0 {
        1
    } else {
        cfg.channels as nat
    }
}

/// Smallest target delay, in samples.
pub open spec fn target_min(cfg: JitterConfig) -> u64 {
    max64(ms_samples(cfg.min_delay_ms) as u64, cfg.frame_samples as u64)
}

/// Largest target delay, in samples.
pub open spec fn target_max(cfg: JitterConfig) -> u64 {
    max64(ms_samples(cfg.max_delay_ms) as u64, target_min(cfg))
}

/// `s` clamped into the target bounds of `cfg`.
pub open spec fn clamp_target(cfg: JitterConfig, s: u64) -> u64 {
    if s < target_min(cfg) {
        target_min(cfg)
    } else if s > target_max(cfg) {
        target_max(cfg)
    } else {
        s
    }
}

/// What the buffer holds.
pub ghost struct JitterView<S> {
    pub cfg: JitterConfig,
    /// Frames by sender timestamp, in increasing timestamp order.
    pub frames: Seq<(u64, Seq<S>)>,
    /// Sender timestamp of the next frame to play.
    pub play_ts: Option<u64>,
    /// Highest end timestamp received.
    pub newest_end_ts: u64,
    pub buffering: bool,
    pub consecutive_missing: u32,
    pub target_samples: u64,
    /// Last transit time (arrival minus sender timestamp, modulo 2^64).
    pub last_transit: Option<u64>,
    /// Recent transit deviations, a ring of at most `WINDOW` entries.
    pub deviations: Seq<u32>,
    pub dev_cursor: int,
    pub stats: JitterStats,
}

/// Timestamps strictly increase along the frames.
pub open spec fn keys_sorted<S>(frames: Seq<(u64, Seq<S>)>) -> bool {
    forall|i: int, j: int| 0 <= i < j < frames.len() ==> frames[i].0 < frames[j].0
}

/// Number of leading frames with a timestamp below `ts`.
pub open spec fn lower_bound<S>(frames: Seq<(u64, Seq<S>)>, ts: u64) -> nat
    decreases frames.len(),
{
    if frames.len() == 0 {
        0
    } else if frames[0].0 < ts {
        1 + lower_bound(frames.drop_first(), ts)
    } else {
        0
    }
}

/// `frames` with a frame at `ts` added, replacing one already at `ts`.
pub open spec fn insert_frame<S>(frames: Seq<(u64, Seq<S>)>, ts: u64, samples: Seq<S>) -> Seq<
    (u64, Seq<S>),
> {
    let p = lower_bound(frames, ts) as int;
    if p < frames.len() && frames[p].0 == ts {
        frames.update(p, (ts, samples))
    } else {
        frames.insert(p, (ts, samples))
    }
}

/// The frames at or after `ts`.
pub open spec fn frames_from<S>(frames: Seq<(u64, Seq<S>)>, ts: u64) -> Seq<(u64, Seq<S>)> {
    frames.subrange(lower_bound(frames, ts) as int, frames.len() as int)
}

/// Samples buffered ahead of the play position.
pub open spec fn buffered<S>(m: JitterView<S>) -> u64 {
    match m.play_ts {
        Some(play) => sat_sub(m.newest_end_ts, play),
        None => if m.frames.len() > 0 {
            sat_sub(m.newest_end_ts, m.frames[0].0)
        } else {
            0
        },
    }
}

/// Deviation between two transit times: the magnitude of their difference taken as a signed
/// 64-bit value.
pub open spec fn transit_deviation(transit: u64, last: u64) -> u64 {
    let diff = wrap_sub(transit, last);
    if diff <= 0x8000_0000_0000_0000 {
        diff
    } else {
        wrap_sub(0, diff)
    }
}

/// Record an arrival: the transit time, and the deviation from the previous one.
pub open spec fn arrival_step<S>(m: JitterView<S>, sender_ts: u64, arrival: u64) -> (
    JitterView<S>,
    Option<u64>,
) {
    let transit = wrap_sub(arrival, sender_ts);
    match m.last_transit {
        None => (JitterView { last_transit: Some(transit), ..m }, None),
        Some(last) => {
            let d = transit_deviation(transit, last);
            let dd: u32 = if d > u32::MAX {
                u32::MAX
            } else {
                d as u32
            };
            if m.deviations.len() < WINDOW {
                (
                    JitterView {
                        last_transit: Some(transit),
                        deviations: m.deviations.push(dd),
                        ..m
                    },
                    Some(d),
                )
            } else {
                (
                    JitterView {
                        last_transit: Some(transit),
                        deviations: m.deviations.update(m.dev_cursor, dd),
                        dev_cursor: (m.dev_cursor + 1) % (WINDOW as int),
                        ..m
                    },
                    Some(d),
                )
            }
        },
    }
}

/// Insert a frame received at `arrival` with sender timestamp `sender_ts`.
pub open spec fn push_step<S>(m: JitterView<S>, sender_ts: u64, samples: Seq<S>, arrival: u64) -> (
    JitterView<S>,
    Option<u64>,
) {
    let m1 = JitterView { stats: JitterStats { received: inc(m.stats.received), ..m.stats }, ..m };
    let (m2, dev) = arrival_step(m1, sender_ts, arrival);
    if m2.play_ts is Some && sender_ts < m2.play_ts->0 {
        (JitterView { stats: JitterStats { late: inc(m2.stats.late), ..m2.stats }, ..m2 }, dev)
    } else {
        let frame_len = samples.len() / chans(m.cfg);
        let newest = max64(m2.newest_end_ts, sat_add(sender_ts, frame_len as u64));
        let inserted = insert_frame(m2.frames, sender_ts, samples);
        let overfull = inserted.len() > MAX_FRAMES;
        let frames = if overfull {
            inserted.drop_first()
        } else {
            inserted
        };
        let late = if overfull {
            inc(m2.stats.late)
        } else {
            m2.stats.late
        };
        let m3 = JitterView {
            newest_end_ts: newest,
            frames,
            stats: JitterStats { late, ..m2.stats },
            ..m2
        };
        let limit = ms_samples(m.cfg.max_delay_ms) + ms_samples(200);
        if m3.play_ts is Some && sat_sub(newest, m3.play_ts->0) > limit {
            // Far too much buffered (e.g. the receiver stalled): jump forward.
            let rest = frames_from(frames, sat_sub(newest, m3.target_samples));
            (
                JitterView {
                    frames: rest,
                    play_ts: if rest.len() > 0 {
                        Some(rest[0].0)
                    } else {
                        None
                    },
                    ..m3
                },
                dev,
            )
        } else {
            (m3, dev)
        }
    }
}

/// Produce the next output frame from `out` (its length is kept); `silence` fills what no
/// frame covers.
pub open spec fn pop_step<S>(m: JitterView<S>, out: Seq<S>, silence: S) -> (
    JitterView<S>,
    PopStatus,
    Seq<S>,
) {
    let silent = Seq::new(out.len(), |i: int| silence);
    if m.buffering && (buffered(m) < m.target_samples || m.frames.len() == 0) {
        (m, PopStatus::Buffering, silent)
    } else {
        let m1 = if m.buffering {
            JitterView {
                buffering: false,
                play_ts: if m.play_ts is None {
                    Some(m.frames[0].0)
                } else {
                    m.play_ts
                },
                ..m
            }
        } else {
            m
        };
        match m1.play_ts {
            None => (m1, PopStatus::Buffering, silent),
            Some(play) => {
                // Drop anything older than the play position.
                let dropped = lower_bound(m1.frames, play);
                let frames = frames_from(m1.frames, play);
                let m2 = JitterView {
                    frames,
                    stats: JitterStats { late: sat_add(m1.stats.late, dropped as u64), ..m1.stats },
                    ..m1
                };
                let advance = m.cfg.frame_samples as u64;
                if frames.len() > 0 && frames[0].0 == play {
                    let frame = frames[0].1;
                    let n = if frame.len() < out.len() {
                        frame.len()
                    } else {
                        out.len()
                    };
                    (
                        JitterView {
                            frames: frames.drop_first(),
                            play_ts: Some(sat_add(play, (frame.len() / chans(m.cfg)) as u64)),
                            consecutive_missing: 0,
                            stats: JitterStats { played: inc(m2.stats.played), ..m2.stats },
                            ..m2
                        },
                        PopStatus::Played,
                        Seq::new(
                            out.len(),
                            |i: int|
                                if i < n {
                                    frame[i]
                                } else {
                                    silence
                                },
                        ),
                    )
                } else {
                    let cm = inc32(m2.consecutive_missing);
                    let m3 = JitterView {
                        consecutive_missing: cm,
                        stats: JitterStats { missing: inc(m2.stats.missing), ..m2.stats },
                        ..m2
                    };
                    if sat_add(buffered(m3), advance) <= m3.target_samples && cm
                        <= MAX_CONCEAL_FRAMES {
                        // Below target: hold the play position so the late packet can still play.
                        (m3, PopStatus::Missing, out)
                    } else if frames.len() == 0 && cm > MAX_CONCEAL_FRAMES {
                        // Genuine underrun: rebuffer with a larger target.
                        (
                            JitterView {
                                stats: JitterStats {
                                    underruns: inc(m3.stats.underruns),
                                    ..m3.stats
                                },
                                target_samples: clamp_target(
                                    m.cfg,
                                    sat_add(m3.target_samples, (2 * advance) as u64),
                                ),
                                buffering: true,
                                play_ts: None,
                                consecutive_missing: 0,
                                ..m3
                            },
                            PopStatus::Buffering,
                            silent,
                        )
                    } else {
                        (
                            JitterView { play_ts: Some(sat_add(play, advance)), ..m3 },
                            PopStatus::Missing,
                            out,
                        )
                    }
                }
            },
        }
    }
}

/// Index of the 98th percentile in a sorted window of `len` values, rounded to nearest.
pub open spec fn percentile_index(len: int) -> int {
    ((len - 1) * 98 + 50) / 100
}

/// The 98th percentile of the deviations, 0 when there are none.
pub open spec fn deviation_percentile(devs: Seq<u32>) -> u32 {
    if devs.len() == 0 {
        0
    } else {
        sorted_values(devs)[percentile_index(devs.len() as int)]
    }
}

/// Move the target towards what the measured jitter needs: up at once, down by at most 1 ms.
pub open spec fn adapt_step<S>(m: JitterView<S>) -> JitterView<S> {
    let needed = clamp_target(
        m.cfg,
        sat_add((2 * deviation_percentile(m.deviations)) as u64, m.cfg.frame_samples as u64),
    );
    let target = if needed > m.target_samples {
        needed
    } else {
        clamp_target(m.cfg, max64(sat_sub(m.target_samples, ms_samples(1) as u64), needed))
    };
    JitterView { target_samples: target, ..m }
}

pub struct JitterBuffer<S> {
    cfg: JitterConfig,
    frames: Vec<(u64, Vec<S>)>,
    play_ts: Option<u64>,
    newest_end_ts: u64,
    buffering: bool,
    consecutive_missing: u32,
    target_samples: u64,
    last_transit: Option<u64>,
    deviations: Vec<u32>,
    dev_cursor: usize,
    stats: JitterStats,
}

pub open spec fn frame_view<S>(f: (u64, Vec<S>)) -> (u64, Seq<S>) {
    (f.0, f.1@)
}

impl<S> View for JitterBuffer<S> {
    type V = JitterView<S>;

    closed spec fn view(&self) -> JitterView<S> {
        JitterView {
            cfg: self.cfg,
            frames: self.frames@.map_values(|f: (u64, Vec<S>)| frame_view(f)),
            play_ts: self.play_ts,
            newest_end_ts: self.newest_end_ts,
            buffering: self.buffering,
            consecutive_missing: self.consecutive_missing,
            target_samples: self.target_samples,
            last_transit: self.last_transit,
            deviations: self.deviations@,
            dev_cursor: self.dev_cursor as int,
            stats: self.stats,
        }
    }
}

/// The buffer's invariant: frames in strictly increasing timestamp order, never more than
/// [`MAX_FRAMES`] of them whatever timestamps a sender invents, a bounded deviation window,
/// and a target delay within the configured bounds. Every operation keeps it.
pub open spec fn jitter_wf<S>(m: JitterView<S>) -> bool {
    &&& keys_sorted(m.frames)
    &&& m.frames.len() <= MAX_FRAMES
    &&& m.deviations.len() <= WINDOW
    &&& 0 <= m.dev_cursor < WINDOW
    &&& m.deviations.len() < WINDOW ==> m.dev_cursor == 0
    &&& m.cfg.frame_samples <= u64::MAX / 2
    &&& target_min(m.cfg) <= m.target_samples <= target_max(m.cfg)
}

proof fn lemma_lower_bound_at<S>(s: Seq<(u64, Seq<S>)>, ts: u64, pos: int)
    requires
        0 <= pos <= s.len(),
        forall|i: int| 0 <= i < pos ==> s[i].0 < ts,
        pos < s.len() ==> s[pos].0 >= ts,
    ensures
        lower_bound(s, ts) == pos,
    decreases pos,
{
    if pos > 0 {
        assert forall|i: int| 0 <= i < pos - 1 implies s.drop_first()[i].0 < ts by {
            assert(s.drop_first()[i] == s[i + 1]);
        }
        if pos - 1 < s.drop_first().len() {
            assert(s.drop_first()[pos - 1] == s[pos]);
        }
        lemma_lower_bound_at(s.drop_first(), ts, pos - 1);
    }
}

impl<S: Copy> JitterBuffer<S> {
    pub closed spec fn wf(&self) -> bool {
        jitter_wf(self@)
    }

    pub fn new(cfg: JitterConfig) -> (r: JitterBuffer<S>)
        requires
            cfg.frame_samples <= u64::MAX / 2,
        ensures
            r.wf(),
            r@ == (JitterView::<S> {
                cfg,
                frames: Seq::empty(),
                play_ts: None,
                newest_end_ts: 0,
                buffering: true,
                consecutive_missing: 0,
                target_samples: target_min(cfg),
                last_transit: None,
                deviations: Seq::empty(),
                dev_cursor: 0,
                stats: JitterStats {
                    received: 0,
                    played: 0,
                    missing: 0,
                    late: 0,
                    underruns: 0,
                    target_samples: 0,
                    buffered_samples: 0,
                },
            }),
    {
        let min = ms_to_samples(cfg.min_delay_ms);
        let frame = cfg.frame_samples as u64;
        let r = JitterBuffer {
            cfg,
            frames: Vec::new(),
            play_ts: None,
            newest_end_ts: 0,
            buffering: true,
            consecutive_missing: 0,
            target_samples: if min >= frame {
                min
            } else {
                frame
            },
            last_transit: None,
            deviations: Vec::new(),
            dev_cursor: 0,
            stats: JitterStats {
                received: 0,
                played: 0,
                missing: 0,
                late: 0,
                underruns: 0,
                target_samples: 0,
                buffered_samples: 0,
            },
        };
        assert(r@.frames =~= Seq::<(u64, Seq<S>)>::empty());
        assert(r@.deviations =~= Seq::<u32>::empty());
        r
    }

    pub fn config(&self) -> (r: JitterConfig)
        ensures
            r == self@.cfg,
    {
        self.cfg
    }

    fn clamp_target(&self, samples: u64) -> (r: u64)
        ensures
            r == clamp_target(self@.cfg, samples),
    {
        let a = ms_to_samples(self.cfg.min_delay_ms);
        let f = self.cfg.frame_samples as u64;
        let min = if a >= f {
            a
        } else {
            f
        };
        let b = ms_to_samples(self.cfg.max_delay_ms);
        let max = if b >= min {
            b
        } else {
            min
        };
        if samples < min {
            min
        } else if samples > max {
            max
        } else {
            samples
        }
    }

    /// Change the delay bounds live (latency profile change).
    pub fn set_bounds(&mut self, min_delay_ms: u32, max_delay_ms: u32)
        requires
            old(self).wf(),
        ensures
            final(self).wf(),
            ({
                let cfg = JitterConfig {
                    min_delay_ms,
                    max_delay_ms: if max_delay_ms >= min_delay_ms {
                        max_delay_ms
                    } else {
                        min_delay_ms
                    },
                    ..old(self)@.cfg
                };
                final(self)@ == JitterView {
                    cfg,
                    target_samples: clamp_target(cfg, old(self)@.target_samples),
                    ..old(self)@
                }
            }),
    {
        self.cfg.min_delay_ms = min_delay_ms;
        self.cfg.max_delay_ms = if max_delay_ms >= min_delay_ms {
            max_delay_ms
        } else {
            min_delay_ms
        };
        self.target_samples = self.clamp_target(self.target_samples);
    }

    /// Samples currently buffered ahead of the play position.
    pub fn buffered_samples(&self) -> (r: u64)
        ensures
            r == buffered(self@),
    {
        match self.play_ts {
            Some(play) => self.newest_end_ts.saturating_sub(play),
            None => if self.frames.len() > 0 {
                self.newest_end_ts.saturating_sub(self.frames[0].0)
            } else {
                0
            },
        }
    }

    pub fn target_samples(&self) -> (r: u64)
        ensures
            r == self@.target_samples,
    {
        self.target_samples
    }

    /// Counters, with the current target and buffered delay.
    pub fn stats(&self) -> (r: JitterStats)
        ensures
            r == (JitterStats {
                target_samples: self@.target_samples,
                buffered_samples: buffered(self@),
                ..self@.stats
            }),
    {
        JitterStats {
            target_samples: self.target_samples,
            buffered_samples: self.buffered_samples(),
            ..self.stats
        }
    }

    /// Clear everything (e.g. after a discontinuity). Counters and the jitter estimate's
    /// history are kept.
    pub fn reset(&mut self)
        requires
            old(self).wf(),
        ensures
            final(self).wf(),
            final(self)@ == (JitterView {
                frames: Seq::empty(),
                play_ts: None,
                newest_end_ts: 0,
                buffering: true,
                consecutive_missing: 0,
                last_transit: None,
                ..old(self)@
            }),
    {
        self.frames = Vec::new();
        self.play_ts = None;
        self.newest_end_ts = 0;
        self.buffering = true;
        self.consecutive_missing = 0;
        self.last_transit = None;
        assert(self@.frames =~= Seq::<(u64, Seq<S>)>::empty());
    }

    /// Index of the first frame at or after `ts`.
    fn lower_bound(&self, ts: u64) -> (r: usize)
        requires
            self.wf(),
        ensures
            r == lower_bound(self@.frames, ts),
            r <= self.frames@.len(),
    {
        let mut i: usize = 0;
        while i < self.frames.len() && self.frames[i].0 < ts
            invariant
                i <= self.frames@.len(),
                forall|j: int| 0 <= j < i ==> self@.frames[j].0 < ts,
            decreases self.frames@.len() - i,
        {
            i = i + 1;
        }
        proof {
            if i < self.frames@.len() {
                assert(self@.frames[i as int].0 == self.frames@[i as int].0);
            }
            lemma_lower_bound_at(self@.frames, ts, i as int);
        }
        i
    }

    /// Number of frames held.
    pub fn frame_count(&self) -> (r: usize)
        requires
            self.wf(),
        ensures
            r == self@.frames.len(),
    {
        self.frames.len()
    }

    /// True when a frame at `ts` is already buffered or has already been played.
    pub fn has(&self, ts: u64) -> (r: bool)
        requires
            self.wf(),
        ensures
            r == ((exists|i: int| 0 <= i < self@.frames.len() && self@.frames[i].0 == ts) || (
            self@.play_ts is Some && ts < self@.play_ts->0)),
    {
        let i = self.lower_bound(ts);
        let found = i < self.frames.len() && self.frames[i].0 == ts;
        proof {
            if !found {
                assert forall|j: int| 0 <= j < self@.frames.len() implies self@.frames[j].0 != ts by {
                    lemma_lower_bound_char(self@.frames, ts);
                    if j > i {
                        assert(self@.frames[i as int].0 < self@.frames[j].0);
                    }
                }
            } else {
                assert(self@.frames[i as int].0 == ts);
            }
        }
        found || match self.play_ts {
            Some(p) => ts < p,
            None => false,
        }
    }
}

impl<S: Copy> JitterBuffer<S> {
    /// Record the transit time of an arrival and the deviation from the previous one.
    fn note_arrival(&mut self, sender_ts: u64, arrival: u64) -> (dev: Option<u64>)
        requires
            old(self).wf(),
        ensures
            final(self).wf(),
            (final(self)@, dev) == arrival_step(old(self)@, sender_ts, arrival),
    {
        // Wrapping arithmetic: a hostile timestamp must not overflow (it only skews the estimate).
        let transit = arrival.wrapping_sub(sender_ts);
        match self.last_transit {
            None => {
                self.last_transit = Some(transit);
                None
            },
            Some(last) => {
                let diff = transit.wrapping_sub(last);
                let d = if diff <= 0x8000_0000_0000_0000 {
                    diff
                } else {
                    0u64.wrapping_sub(diff)
                };
                let dd: u32 = if d > 0xffff_ffff {
                    0xffff_ffff
                } else {
                    d as u32
                };
                if self.deviations.len() < WINDOW {
                    self.deviations.push(dd);
                } else {
                    self.deviations.set(self.dev_cursor, dd);
                    self.dev_cursor = (self.dev_cursor + 1) % WINDOW;
                }
                self.last_transit = Some(transit);
                Some(d)
            },
        }
    }

    /// Put a frame in its place by timestamp, replacing one at the same timestamp.
    fn insert_frame(&mut self, ts: u64, samples: Vec<S>)
        requires
            old(self).wf(),
        ensures
            final(self)@ == (JitterView {
                frames: insert_frame(old(self)@.frames, ts, samples@),
                ..old(self)@
            }),
            keys_sorted(final(self)@.frames),
            final(self)@.frames.len() <= MAX_FRAMES + 1,
            jitter_wf(JitterView { frames: old(self)@.frames, ..final(self)@ }),
    {
        let ghost before = self@.frames;
        let p = self.lower_bound(ts);
        proof {
            lemma_lower_bound_char(before, ts);
        }
        let ghost sv = samples@;
        if p < self.frames.len() && self.frames[p].0 == ts {
            self.frames.set(p, (ts, samples));
            assert(self@.frames =~= before.update(p as int, (ts, sv)));
        } else {
            self.frames.insert(p, (ts, samples));
            assert(self@.frames =~= before.insert(p as int, (ts, sv)));
            assert forall|i: int, j: int| 0 <= i < j < self@.frames.len() implies self@.frames[i].0
                < self@.frames[j].0 by {
                if j < p {
                } else if i < p && j == p {
                } else if i < p && j > p {
                    assert(before[j - 1].0 >= ts);
                } else if i == p {
                    assert(before[p as int].0 >= ts);
                    assert(before[p as int].0 != ts);
                    if j - 1 > p {
                        assert(before[p as int].0 < before[j - 1].0);
                    }
                } else {
                    assert(before[i - 1].0 < before[j - 1].0);
                }
            }
        }
    }

    /// Insert a decoded frame. `arrival_samples` is the receiver's local clock expressed in
    /// samples. Returns the new transit deviation, if there is one.
    #[verifier::rlimit(50)]
    pub fn push(&mut self, sender_ts: u64, samples: Vec<S>, arrival_samples: u64) -> (dev: Option<
        u64,
    >)
        requires
            old(self).wf(),
        ensures
            final(self).wf(),
            (final(self)@, dev) == push_step(old(self)@, sender_ts, samples@, arrival_samples),
    {
        self.stats.received = self.stats.received.saturating_add(1);
        let dev = self.note_arrival(sender_ts, arrival_samples);
        if let Some(play) = self.play_ts {
            if sender_ts < play {
                self.stats.late = self.stats.late.saturating_add(1);
                return dev;
            }
        }
        let ch: usize = if self.cfg.channels == 0 {
            1
        } else {
            self.cfg.channels
        };
        let frame_len = (samples.len() / ch) as u64;
        // Timestamps are untrusted: never let them overflow.
        let end = sender_ts.saturating_add(frame_len);
        if end > self.newest_end_ts {
            self.newest_end_ts = end;
        }
        self.insert_frame(sender_ts, samples);
        if self.frames.len() > MAX_FRAMES {
            let ghost before = self@.frames;
            self.frames.remove(0);
            assert(self@.frames =~= before.drop_first());
            self.stats.late = self.stats.late.saturating_add(1);
        }
        // Far too much buffered (e.g. the receiver stalled): jump forward.
        let limit = ms_to_samples(self.cfg.max_delay_ms) + ms_to_samples(200);
        if let Some(play) = self.play_ts {
            if self.newest_end_ts.saturating_sub(play) > limit {
                let new_play = self.newest_end_ts.saturating_sub(self.target_samples);
                let j = self.lower_bound(new_play);
                let ghost before = self@.frames;
                let rest = self.frames.split_off(j);
                self.frames = rest;
                assert(self@.frames =~= before.subrange(j as int, before.len() as int));
                self.play_ts = if self.frames.len() > 0 {
                    Some(self.frames[0].0)
                } else {
                    None
                };
            }
        }
        dev
    }

    /// Silence in every sample of `out`.
    fn fill(out: &mut Vec<S>, silence: S)
        ensures
            final(out)@ == Seq::new(old(out)@.len(), |i: int| silence),
    {
        let mut i: usize = 0;
        while i < out.len()
            invariant
                i <= out@.len(),
                out@.len() == old(out)@.len(),
                forall|j: int| 0 <= j < i ==> out@[j] == silence,
            decreases out@.len() - i,
        {
            out.set(i, silence);
            i = i + 1;
        }
        assert(out@ =~= Seq::new(old(out)@.len(), |i: int| silence));
    }

    /// `frame` at the start of `out`, silence after it.
    fn copy_frame(out: &mut Vec<S>, frame: &Vec<S>, silence: S)
        ensures
            final(out)@ == Seq::new(
                old(out)@.len(),
                |i: int|
                    if i < (if frame@.len() < old(out)@.len() {
                        frame@.len()
                    } else {
                        old(out)@.len()
                    }) {
                        frame@[i]
                    } else {
                        silence
                    },
            ),
    {
        let n = if frame.len() < out.len() {
            frame.len()
        } else {
            out.len()
        };
        let mut i: usize = 0;
        while i < out.len()
            invariant
                i <= out@.len(),
                out@.len() == old(out)@.len(),
                n <= frame@.len(),
                n <= out@.len(),
                n == (if frame@.len() < old(out)@.len() {
                    frame@.len()
                } else {
                    old(out)@.len()
                }),
                forall|j: int| 0 <= j < i ==> out@[j] == (if j < n {
                    frame@[j]
                } else {
                    silence
                }),
            decreases out@.len() - i,
        {
            if i < n {
                out.set(i, frame[i]);
            } else {
                out.set(i, silence);
            }
            i = i + 1;
        }
        assert(out@ =~= Seq::new(
            old(out)@.len(),
            |i: int|
                if i < n {
                    frame@[i]
                } else {
                    silence
                },
        ));
    }

    /// Produce the next frame into `out` (length = frame samples × channels); `silence` is the
    /// value of a silent sample.
    pub fn pop(&mut self, out: &mut Vec<S>, silence: S) -> (status: PopStatus)
        requires
            old(self).wf(),
        ensures
            final(self).wf(),
            (final(self)@, status, final(out)@) == pop_step(old(self)@, old(out)@, silence),
    {
        if self.buffering {
            if self.buffered_samples() < self.target_samples || self.frames.len() == 0 {
                Self::fill(out, silence);
                return PopStatus::Buffering;
            }
            self.buffering = false;
            if self.play_ts.is_none() {
                self.play_ts = Some(self.frames[0].0);
            }
        }
        let play = match self.play_ts {
            Some(p) => p,
            None => {
                Self::fill(out, silence);
                return PopStatus::Buffering;
            },
        };
        // Drop anything older than the play position.
        let dropped = self.lower_bound(play);
        let ghost before = self@.frames;
        let rest = self.frames.split_off(dropped);
        self.frames = rest;
        assert(self@.frames =~= before.subrange(dropped as int, before.len() as int));
        self.stats.late = self.stats.late.saturating_add(dropped as u64);
        let advance = self.cfg.frame_samples as u64;
        if self.frames.len() > 0 && self.frames[0].0 == play {
            let ghost before_play = self@.frames;
            let (_, frame) = self.frames.remove(0);
            assert(self@.frames =~= before_play.drop_first());
            Self::copy_frame(out, &frame, silence);
            let ch: usize = if self.cfg.channels == 0 {
                1
            } else {
                self.cfg.channels
            };
            self.play_ts = Some(play.saturating_add((frame.len() / ch) as u64));
            self.consecutive_missing = 0;
            self.stats.played = self.stats.played.saturating_add(1);
            return PopStatus::Played;
        }
        // Missing frame.
        self.stats.missing = self.stats.missing.saturating_add(1);
        self.consecutive_missing = self.consecutive_missing.saturating_add(1);
        let have_future = self.frames.len() > 0;
        // Buffer is below target: hold the play position (conceal without advancing).
        if self.buffered_samples().saturating_add(advance) <= self.target_samples
            && self.consecutive_missing <= MAX_CONCEAL_FRAMES {
            return PopStatus::Missing;
        }
        if !have_future && self.consecutive_missing > MAX_CONCEAL_FRAMES {
            // Genuine underrun: rebuffer with a larger target.
            self.stats.underruns = self.stats.underruns.saturating_add(1);
            self.target_samples = self.clamp_target(self.target_samples.saturating_add(2 * advance));
            self.buffering = true;
            self.play_ts = None;
            self.consecutive_missing = 0;
            Self::fill(out, silence);
            return PopStatus::Buffering;
        }
        self.play_ts = Some(play.saturating_add(advance));
        PopStatus::Missing
    }

    /// The 98th percentile of the recent deviations.
    fn percentile_deviation(&self) -> (r: u32)
        requires
            self.wf(),
        ensures
            r == deviation_percentile(self@.deviations),
    {
        if self.deviations.len() == 0 {
            return 0;
        }
        let sorted = sorted_copy(&self.deviations);
        let len = sorted.len();
        let idx = ((len - 1) * 98 + 50) / 100;
        let idx = if idx < len - 1 {
            idx
        } else {
            len - 1
        };
        assert(percentile_index(len as int) <= len - 1);
        sorted[idx]
    }

    /// Slowly converge the target towards what the measured jitter needs. Call about once per
    /// second.
    pub fn adapt(&mut self)
        requires
            old(self).wf(),
        ensures
            final(self).wf(),
            final(self)@ == adapt_step(old(self)@),
    {
        let p = self.percentile_deviation();
        let needed = self.clamp_target(((p as u64) * 2).saturating_add(self.cfg.frame_samples as u64));
        if needed > self.target_samples {
            self.target_samples = needed;
        } else {
            // Shrink by at most 1 ms per call.
            let step = ms_to_samples(1);
            let t = self.target_samples.saturating_sub(step);
            let t = if t >= needed {
                t
            } else {
                needed
            };
            self.target_samples = self.clamp_target(t);
        }
    }
}

/// A frame older than the play position is counted late and changes nothing else that is
/// buffered.
pub proof fn lemma_late_frames_dropped<S>(m: JitterView<S>, ts: u64, samples: Seq<S>, arrival: u64)
    requires
        m.play_ts is Some,
        ts < m.play_ts->0,
    ensures
        push_step(m, ts, samples, arrival).0.frames == m.frames,
        push_step(m, ts, samples, arrival).0.play_ts == m.play_ts,
        push_step(m, ts, samples, arrival).0.stats.late == inc(m.stats.late),
{
}

/// Adapting raises the target at once but lowers it by at most one millisecond of samples,
/// and never leaves the configured bounds.
pub proof fn lemma_adapt_shrinks_slowly<S>(m: JitterView<S>)
    requires
        jitter_wf(m),
    ensures
        adapt_step(m).target_samples + ms_samples(1) >= m.target_samples,
        target_min(m.cfg) <= adapt_step(m).target_samples <= target_max(m.cfg),
{
}

/// Frames are played in timestamp order: what stays buffered after a frame is played is all
/// later than that frame.
pub proof fn lemma_played_in_order<S>(m: JitterView<S>, out: Seq<S>, silence: S)
    requires
        jitter_wf(m),
        pop_step(m, out, silence).1 == PopStatus::Played,
    ensures
        ({
            let played_ts = if m.play_ts is Some {
                m.play_ts->0
            } else {
                m.frames[0].0
            };
            let rest = pop_step(m, out, silence).0.frames;
            forall|i: int| 0 <= i < rest.len() ==> rest[i].0 > played_ts
        }),
{
    let play = if m.play_ts is Some {
        m.play_ts->0
    } else {
        m.frames[0].0
    };
    lemma_lower_bound_char(m.frames, play);
    let from = frames_from(m.frames, play);
    let lb = lower_bound(m.frames, play) as int;
    assert forall|i: int| 0 <= i < from.len() - 1 implies from.drop_first()[i].0 > play by {
        assert(from.drop_first()[i] == m.frames[lb + 1 + i]);
        assert(m.frames[lb].0 < m.frames[lb + 1 + i].0);
    }
}

/// When the frame at the play position is missing while the buffer (with one more frame) is
/// still within its target and the concealment limit is not reached, the pop conceals without
/// moving the play position, whether or not later frames are buffered, so that the late frame
/// can still play. Nothing buffered at or after the play position is lost.
pub proof fn lemma_missing_frame_holds_play_position<S>(
    m: JitterView<S>,
    out: Seq<S>,
    silence: S,
    play: u64,
)
    requires
        jitter_wf(m),
        !m.buffering,
        m.play_ts == Some(play),
        forall|i: int| 0 <= i < m.frames.len() ==> (#[trigger] m.frames[i]).0 != play,
        buffered(m) + m.cfg.frame_samples <= m.target_samples,
        m.consecutive_missing < MAX_CONCEAL_FRAMES,
    ensures
        ({
            let (after, status, played) = pop_step(m, out, silence);
            &&& status == PopStatus::Missing
            &&& after.play_ts == Some(play)
            &&& played == out
            &&& after.consecutive_missing == m.consecutive_missing + 1
            &&& !after.buffering
            &&& forall|i: int|
                0 <= i < m.frames.len() && (#[trigger] m.frames[i]).0 > play ==> after.frames.contains(
                    m.frames[i],
                )
        }),
{
    lemma_lower_bound_char(m.frames, play);
    let lb = lower_bound(m.frames, play) as int;
    let from = frames_from(m.frames, play);
    assert forall|i: int|
        0 <= i < m.frames.len() && (#[trigger] m.frames[i]).0 > play implies from.contains(
            m.frames[i],
        ) by {
        assert(i >= lb);
        assert(from[i - lb] == m.frames[i]);
    }
    if from.len() > 0 {
        assert(from[0] == m.frames[lb]);
    }
}

/// A frame buffered at the play position is the one played next: its samples go out (as many
/// as fit), the play position moves past it, and it leaves the buffer.
pub proof fn lemma_frame_at_play_position_is_played<S>(
    m: JitterView<S>,
    out: Seq<S>,
    silence: S,
    play: u64,
    k: int,
)
    requires
        jitter_wf(m),
        !m.buffering,
        m.play_ts == Some(play),
        0 <= k < m.frames.len(),
        m.frames[k].0 == play,
    ensures
        ({
            let (after, status, played) = pop_step(m, out, silence);
            let frame = m.frames[k].1;
            &&& status == PopStatus::Played
            &&& played.len() == out.len()
            &&& forall|i: int| 0 <= i < out.len() && i < frame.len() ==> played[i] == frame[i]
            &&& forall|i: int| frame.len() <= i < out.len() ==> played[i] == silence
            &&& after.play_ts == Some(sat_add(play, (frame.len() / chans(m.cfg)) as u64))
            &&& !after.frames.contains(m.frames[k])
        }),
{
    lemma_lower_bound_char(m.frames, play);
    let lb = lower_bound(m.frames, play) as int;
    let from = frames_from(m.frames, play);
    if lb < k {
        assert(m.frames[lb].0 < m.frames[k].0);
    }
    if lb > k {
        assert(m.frames[k].0 < play);
    }
    assert(lb == k);
    assert(from[0] == m.frames[k]);
    let after = pop_step(m, out, silence).0;
    if after.frames.contains(m.frames[k]) {
        let j = choose|j: int| 0 <= j < after.frames.len() && after.frames[j] == m.frames[k];
        assert(after.frames[j] == m.frames[k + 1 + j]);
        assert(m.frames[k].0 < m.frames[k + 1 + j].0);
    }
}

/// Every frame before the lower bound is older than `ts`, every frame from it on is not.
proof fn lemma_lower_bound_char<S>(s: Seq<(u64, Seq<S>)>, ts: u64)
    ensures
        lower_bound(s, ts) <= s.len(),
        forall|i: int| 0 <= i < lower_bound(s, ts) ==> s[i].0 < ts,
        lower_bound(s, ts) < s.len() ==> s[lower_bound(s, ts) as int].0 >= ts,
    decreases s.len(),
{
    if s.len() > 0 && s[0].0 < ts {
        lemma_lower_bound_char(s.drop_first(), ts);
        assert forall|i: int| 0 <= i < lower_bound(s, ts) implies s[i].0 < ts by {
            if i > 0 {
                assert(s[i] == s.drop_first()[i - 1]);
            }
        }
        if lower_bound(s, ts) < s.len() {
            assert(s[lower_bound(s, ts) as int] == s.drop_first()[lower_bound(s, ts) - 1]);
        }
    }
}

} // verus!
