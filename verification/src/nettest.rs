//! Network self-test between two connected devices: the plan and the advice.
//!
//! The test runs over the datagram path the audio uses. A latency phase sends small probes the
//! peer echoes; a throughput phase sends bursts at increasing rates, and the highest rate
//! delivered with at least 97 % of probes echoed is the achievable bitrate. The measuring
//! itself (timers, sockets, floating-point statistics) runs in the shell; this module holds the
//! plan and turns what was measured into suggested settings.

use vstd::prelude::*;
use crate::media::profile::{opus_bitrate_steps, OPUS_BITRATE_STEPS};
use crate::settings::{LatencyMode, QualityMode};

verus! {

/// How long a responder keeps echoing after accepting a test.
pub const RESPONDER_WINDOW_MS: u64 = 15_000;

/// What a test sends and when.
#[derive(Debug, Clone)]
pub struct TestPlan {
    pub latency_probes: u32,
    pub probe_interval_ms: u64,
    pub steps_kbps: Vec<u32>,
    pub step_duration_ms: u64,
    pub probe_bytes: usize,
    /// Time to wait for late echoes after each phase.
    pub linger_ms: u64,
}

impl Default for TestPlan {
    fn default() -> (r: TestPlan)
        ensures
            r.latency_probes == 150,
            r.probe_interval_ms == 20,
            r.steps_kbps@ == seq![128u32, 320, 640, 1100, 1600],
            r.step_duration_ms == 800,
            r.probe_bytes == 1000,
            r.linger_ms == 400,
    {
        let steps: Vec<u32> = vec![128, 320, 640, 1100, 1600];
        assert(steps@ =~= seq![128u32, 320, 640, 1100, 1600]);
        TestPlan {
            latency_probes: 150,
            probe_interval_ms: 20,
            steps_kbps: steps,
            step_duration_ms: 800,
            probe_bytes: 1000,
            linger_ms: 400,
        }
    }
}

#[derive(Debug, Clone, Copy, PartialEq, Eq, Structural)]
pub enum NetworkTestStatus {
    Running,
    Done,
    Failed,
    Cancelled,
}

/// Advice shown after a test, most important first.
#[derive(Debug, Clone, Copy, PartialEq, Eq, Structural)]
pub enum Tip {
    Good,
    Loss,
    Jitter,
    Latency,
    Bandwidth,
    LosslessOk,
}

/// Localization key of a tip.
pub open spec fn tip_key(t: Tip) -> Seq<char> {
    match t {
        Tip::Good => seq!['n','e','t','t','e','s','t','.','t','i','p','.','g','o','o','d'],
        Tip::Loss => seq!['n','e','t','t','e','s','t','.','t','i','p','.','l','o','s','s'],
        Tip::Jitter => seq!['n','e','t','t','e','s','t','.','t','i','p','.','j','i','t','t','e','r'],
        Tip::Latency => seq!['n','e','t','t','e','s','t','.','t','i','p','.','l','a','t','e','n','c','y'],
        Tip::Bandwidth => seq!['n','e','t','t','e','s','t','.','t','i','p','.','b','a','n','d','w','i','d','t','h'],
        Tip::LosslessOk => seq!['n','e','t','t','e','s','t','.','t','i','p','.','l','o','s','s','l','e','s','s','O','k'],
    }
}

/// The localization key of a tip (`nettest.tip.*`).
pub fn tip_name(t: Tip) -> (r: String)
    ensures
        r@ == tip_key(t),
{
    match t {
        Tip::Good => {
            proof { reveal_strlit("nettest.tip.good"); }
            "nettest.tip.good".to_owned()
        },
        Tip::Loss => {
            proof { reveal_strlit("nettest.tip.loss"); }
            "nettest.tip.loss".to_owned()
        },
        Tip::Jitter => {
            proof { reveal_strlit("nettest.tip.jitter"); }
            "nettest.tip.jitter".to_owned()
        },
        Tip::Latency => {
            proof { reveal_strlit("nettest.tip.latency"); }
            "nettest.tip.latency".to_owned()
        },
        Tip::Bandwidth => {
            proof { reveal_strlit("nettest.tip.bandwidth"); }
            "nettest.tip.bandwidth".to_owned()
        },
        Tip::LosslessOk => {
            proof { reveal_strlit("nettest.tip.losslessOk"); }
            "nettest.tip.losslessOk".to_owned()
        },
    }
}

/// Which thresholds a measured link crosses. The shell compares its floating-point
/// measurements (loss in percent, jitter and 95th-percentile round trip in milliseconds).
#[derive(Debug, Clone, Copy, PartialEq, Eq, Structural)]
pub struct LinkSigns {
    /// Loss above 3 %.
    pub heavy_loss: bool,
    /// Jitter above 20 ms.
    pub heavy_jitter: bool,
    /// Round trip above 60 ms.
    pub slow: bool,
    /// Loss above 0.5 %.
    pub some_loss: bool,
    /// Jitter above 6 ms.
    pub some_jitter: bool,
    /// Round trip above 15 ms.
    pub some_delay: bool,
    /// Loss above 1 %: worth sending redundant audio.
    pub lossy: bool,
    /// Loss below 0.2 %.
    pub clean: bool,
}

/// Settings the test suggests for this device. The UI can apply them as the device's profile.
#[derive(Debug, Clone)]
pub struct Recommendation {
    pub latency: LatencyMode,
    pub quality: QualityMode,
    pub opus_bitrate: u32,
    pub redundancy: bool,
    /// Localization keys (`nettest.tip.*`), most important first.
    pub tips: Vec<String>,
}

pub open spec fn advised_latency(s: LinkSigns) -> LatencyMode {
    if s.heavy_loss || s.heavy_jitter || s.slow {
        LatencyMode::Stable
    } else if s.some_loss || s.some_jitter || s.some_delay {
        LatencyMode::Balanced
    } else {
        LatencyMode::LowLatency
    }
}

/// How cautious a latency mode is: low latency, balanced, stable.
pub open spec fn caution(l: LatencyMode) -> int {
    match l {
        LatencyMode::LowLatency => 0,
        LatencyMode::Balanced => 1,
        LatencyMode::Stable => 2,
        _ => 3,
    }
}

/// Any heavy sign (heavy loss, heavy jitter or a slow round trip) makes the advice Stable,
/// and only a heavy sign does; a link showing no sign of trouble gets low latency.
pub proof fn lemma_heavy_signs_advise_stable(s: LinkSigns)
    ensures
        (s.heavy_loss || s.heavy_jitter || s.slow) <==> advised_latency(s) == LatencyMode::Stable,
        !s.heavy_loss && !s.heavy_jitter && !s.slow && (s.some_loss || s.some_jitter
            || s.some_delay) <==> advised_latency(s) == LatencyMode::Balanced,
        !s.heavy_loss && !s.heavy_jitter && !s.slow && !s.some_loss && !s.some_jitter
            && !s.some_delay <==> advised_latency(s) == LatencyMode::LowLatency,
{
}

/// A link that shows every sign another link shows (and maybe more) is never advised a less
/// cautious latency mode.
pub proof fn lemma_worse_link_never_less_cautious(a: LinkSigns, b: LinkSigns)
    requires
        a.heavy_loss ==> b.heavy_loss,
        a.heavy_jitter ==> b.heavy_jitter,
        a.slow ==> b.slow,
        a.some_loss ==> b.some_loss,
        a.some_jitter ==> b.some_jitter,
        a.some_delay ==> b.some_delay,
    ensures
        caution(advised_latency(a)) <= caution(advised_latency(b)),
        caution(advised_latency(b)) <= 2,
{
}

/// Automatic quality adapts to the link when there is room for its 128 kb/s start.
pub open spec fn room_for_auto(achievable_kbps: u32) -> bool {
    achievable_kbps >= 320
}

/// Half the measured capacity, in bits/s: the rest is left for retransmissions and other
/// traffic.
pub open spec fn opus_budget(achievable_kbps: u32) -> int {
    (if achievable_kbps * 1000 > u32::MAX {
        u32::MAX as int
    } else {
        achievable_kbps * 1000
    }) / 2
}

/// `b` is the largest bitrate preset within `budget`, or the smallest preset when none is.
pub open spec fn best_step(b: u32, budget: int) -> bool {
    let s = opus_bitrate_steps();
    &&& s.contains(b)
    &&& (b <= budget || (budget < s[0] && b == s[0]))
    &&& forall|i: int| 0 <= i < s.len() && s[i] <= budget ==> s[i] <= b
}

/// The tips for a link, most important first.
pub open spec fn advised_tips(s: LinkSigns, achievable_kbps: u32) -> Seq<Tip> {
    let t = Seq::<Tip>::empty()
        + (if s.heavy_loss { seq![Tip::Loss] } else { Seq::empty() })
        + (if s.heavy_jitter { seq![Tip::Jitter] } else { Seq::empty() })
        + (if s.slow { seq![Tip::Latency] } else { Seq::empty() })
        + (if room_for_auto(achievable_kbps) { Seq::empty() } else { seq![Tip::Bandwidth] })
        + (if achievable_kbps >= 1600 && s.clean { seq![Tip::LosslessOk] } else { Seq::empty() });
    if t.len() == 0 || t == seq![Tip::LosslessOk] {
        seq![Tip::Good] + t
    } else {
        t
    }
}

/// A bitrate preset by index.
fn opus_step(i: usize) -> (r: u32)
    requires
        i < opus_bitrate_steps().len(),
    ensures
        r == opus_bitrate_steps()[i as int],
{
    let steps = OPUS_BITRATE_STEPS;
    assert(steps@ =~= opus_bitrate_steps());
    steps[i]
}

/// The largest bitrate preset within `budget` bits/s, or the smallest preset when none is.
fn best_opus_step(budget: u32) -> (r: u32)
    ensures
        best_step(r, budget as int),
{
    let ghost s = opus_bitrate_steps();
    let mut best: u32 = 0;
    let mut found = false;
    let mut i: usize = 0;
    while i < 13
        invariant
            i <= 13,
            s == opus_bitrate_steps(),
            found ==> s.contains(best) && best <= budget,
            forall|j: int| 0 <= j < i && s[j] <= budget ==> found && s[j] <= best,
        decreases 13 - i,
    {
        let b = opus_step(i);
        if b <= budget && (!found || b > best) {
            best = b;
            found = true;
        }
        i = i + 1;
    }
    if found {
        best
    } else {
        let first = opus_step(0);
        assert(s.contains(first));
        first
    }
}

/// Turn what the test measured into suggested settings.
pub fn recommend_for(signs: LinkSigns, achievable_kbps: u32) -> (r: Recommendation)
    ensures
        r.latency == advised_latency(signs),
        r.quality == (if room_for_auto(achievable_kbps) {
            QualityMode::Auto
        } else {
            QualityMode::Opus
        }),
        room_for_auto(achievable_kbps) ==> r.opus_bitrate == 128_000,
        !room_for_auto(achievable_kbps) ==> best_step(r.opus_bitrate, opus_budget(achievable_kbps)),
        r.redundancy == signs.lossy,
        r.tips@.map_values(|t: String| t@) == advised_tips(signs, achievable_kbps).map_values(
            |t: Tip| tip_key(t),
        ),
{
    let latency = if signs.heavy_loss || signs.heavy_jitter || signs.slow {
        LatencyMode::Stable
    } else if signs.some_loss || signs.some_jitter || signs.some_delay {
        LatencyMode::Balanced
    } else {
        LatencyMode::LowLatency
    };
    let mut tips: Vec<Tip> = Vec::new();
    if signs.heavy_loss {
        tips.push(Tip::Loss);
    }
    if signs.heavy_jitter {
        tips.push(Tip::Jitter);
    }
    if signs.slow {
        tips.push(Tip::Latency);
    }
    let (quality, opus_bitrate) = if achievable_kbps >= 320 {
        (QualityMode::Auto, 128_000u32)
    } else {
        let capacity: u32 = if achievable_kbps > u32::MAX / 1000 {
            u32::MAX
        } else {
            achievable_kbps * 1000
        };
        let budget = capacity / 2;
        let bitrate = best_opus_step(budget);
        tips.push(Tip::Bandwidth);
        (QualityMode::Opus, bitrate)
    };
    if achievable_kbps >= 1600 && signs.clean {
        tips.push(Tip::LosslessOk);
    }
    let only_lossless = tips.len() == 1 && tips[0] == Tip::LosslessOk;
    let mut ordered: Vec<Tip> = Vec::new();
    if tips.len() == 0 || only_lossless {
        ordered.push(Tip::Good);
    }
    let mut i: usize = 0;
    while i < tips.len()
        invariant
            i <= tips@.len(),
            ordered@ == (if tips@.len() == 0 || tips@ == seq![Tip::LosslessOk] {
                seq![Tip::Good]
            } else {
                Seq::empty()
            }) + tips@.subrange(0, i as int),
        decreases tips@.len() - i,
    {
        ordered.push(tips[i]);
        i = i + 1;
    }
    let ghost t = advised_tips(signs, achievable_kbps);
    proof {
        assert(only_lossless == (tips@ == seq![Tip::LosslessOk])) by {
            if tips@ == seq![Tip::LosslessOk] {
                assert(tips@[0] == Tip::LosslessOk);
            }
            if only_lossless {
                assert(tips@ =~= seq![Tip::LosslessOk]);
            }
        }
        assert(tips@.subrange(0, tips@.len() as int) =~= tips@);
        assert(ordered@ =~= t);
    }
    let mut names: Vec<String> = Vec::new();
    let mut k: usize = 0;
    while k < ordered.len()
        invariant
            k <= ordered@.len(),
            names@.map_values(|s: String| s@) == ordered@.subrange(0, k as int).map_values(
                |t: Tip| tip_key(t),
            ),
        decreases ordered@.len() - k,
    {
        let ghost before = names@;
        let name = tip_name(ordered[k]);
        names.push(name);
        assert(ordered@.subrange(0, k + 1) =~= ordered@.subrange(0, k as int).push(ordered@[k as int]));
        assert(names@.map_values(|s: String| s@) =~= before.map_values(|s: String| s@).push(name@));
        assert(names@.map_values(|s: String| s@) =~= ordered@.subrange(0, k + 1).map_values(
            |t: Tip| tip_key(t),
        ));
        k = k + 1;
    }
    assert(ordered@.subrange(0, ordered@.len() as int) =~= ordered@);
    Recommendation { latency, quality, opus_bitrate, redundancy: signs.lossy, tips: names }
}

/// The advice always says something, and says the link is good when nothing is wrong with it.
pub proof fn lemma_tips_never_empty(s: LinkSigns, achievable_kbps: u32)
    ensures
        advised_tips(s, achievable_kbps).len() >= 1,
        !s.heavy_loss && !s.heavy_jitter && !s.slow && room_for_auto(achievable_kbps) ==> advised_tips(
            s,
            achievable_kbps,
        )[0] == Tip::Good,
{
    let t = Seq::<Tip>::empty()
        + (if s.heavy_loss { seq![Tip::Loss] } else { Seq::empty() })
        + (if s.heavy_jitter { seq![Tip::Jitter] } else { Seq::empty() })
        + (if s.slow { seq![Tip::Latency] } else { Seq::empty() })
        + (if room_for_auto(achievable_kbps) { Seq::empty() } else { seq![Tip::Bandwidth] })
        + (if achievable_kbps >= 1600 && s.clean { seq![Tip::LosslessOk] } else { Seq::empty() });
    if !s.heavy_loss && !s.heavy_jitter && !s.slow && room_for_auto(achievable_kbps) {
        if achievable_kbps >= 1600 && s.clean {
            assert(t =~= seq![Tip::LosslessOk]);
        } else {
            assert(t =~= Seq::<Tip>::empty());
        }
    }
}

} // verus!
