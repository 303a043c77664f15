//! Connection health: the `Degraded` state of a session, and the lossless quality fallback.
//!
//! Separate thresholds and durations for entering and leaving keep a link that hovers around
//! one value from flipping every second. The thresholds themselves compare measured loss and
//! jitter (fractional numbers) and are applied by the caller: each second it reports whether
//! the second was bad (above the entering threshold) and whether it was good (below the
//! leaving one). A second can be neither.

use vstd::prelude::*;

verus! {

/// Bad seconds in a row that make a session `Degraded`.
pub const ENTER_SECS: u32 = 3;
/// Good seconds in a row that make it `Connected` again.
pub const RECOVER_SECS: u32 = 5;
/// Seconds of loss above the fallback threshold that take a lossless stream down to Opus.
pub const FALLBACK_SECS: u32 = 5;
/// Seconds of loss below the recovery threshold that put lossless back.
pub const FALLBACK_RECOVER_SECS: u32 = 15;
/// Bitrate the fallback encodes at.
pub const FALLBACK_BITRATE: u32 = 256_000;

/// What a hysteresis counter holds: whether it is switched on, and the current runs of bad and
/// good seconds.
#[derive(Debug, Clone, Copy, PartialEq, Eq, Structural)]
pub struct RunState {
    pub on: bool,
    pub bad_secs: u32,
    pub good_secs: u32,
}

/// Adds one, staying at the maximum.
pub open spec fn saturating_inc(x: u32) -> u32 {
    if x == u32::MAX {
        x
    } else {
        (x + 1) as u32
    }
}

/// One second of a hysteresis counter that switches on after `enter` bad seconds in a row and
/// off after `leave` good seconds in a row. With `reset_on_change`, both runs start over when it
/// switches.
pub open spec fn run_step(
    s: RunState,
    bad: bool,
    good: bool,
    enter: u32,
    leave: u32,
    reset_on_change: bool,
) -> RunState {
    let bad_secs = if bad {
        saturating_inc(s.bad_secs)
    } else {
        0u32
    };
    let good_secs = if good {
        saturating_inc(s.good_secs)
    } else {
        0u32
    };
    let next = if s.on {
        good_secs < leave
    } else {
        bad_secs >= enter
    };
    if reset_on_change && next != s.on {
        RunState { on: next, bad_secs: 0, good_secs: 0 }
    } else {
        RunState { on: next, bad_secs, good_secs }
    }
}

fn next_run(s: RunState, bad: bool, good: bool, enter: u32, leave: u32, reset_on_change: bool) -> (r:
    RunState)
    ensures
        r == run_step(s, bad, good, enter, leave, reset_on_change),
{
    let bad_secs = if bad {
        s.bad_secs.saturating_add(1)
    } else {
        0
    };
    let good_secs = if good {
        s.good_secs.saturating_add(1)
    } else {
        0
    };
    let next = if s.on {
        good_secs < leave
    } else {
        bad_secs >= enter
    };
    if reset_on_change && next != s.on {
        RunState { on: next, bad_secs: 0, good_secs: 0 }
    } else {
        RunState { on: next, bad_secs, good_secs }
    }
}

/// Whether a lossless route is currently held on Opus because the link keeps losing packets.
#[derive(Debug, Clone)]
pub struct QualityFallback {
    state: RunState,
}

impl View for QualityFallback {
    type V = RunState;

    closed spec fn view(&self) -> RunState {
        self.state
    }
}

impl Default for QualityFallback {
    fn default() -> (r: QualityFallback)
        ensures
            r@ == (RunState { on: false, bad_secs: 0, good_secs: 0 }),
    {
        QualityFallback { state: RunState { on: false, bad_secs: 0, good_secs: 0 } }
    }
}

impl QualityFallback {
    pub fn is_active(&self) -> (r: bool)
        ensures
            r == self@.on,
    {
        self.state.on
    }

    /// Forget the measurements (the route no longer asks for lossless).
    pub fn reset(&mut self)
        ensures
            final(self)@ == (RunState { on: false, bad_secs: 0, good_secs: 0 }),
    {
        self.state = RunState { on: false, bad_secs: 0, good_secs: 0 };
    }

    /// Feed one second: `lossy` when loss was above the fallback threshold, `clean` when it was
    /// below the recovery threshold. Returns true when the fallback switched on or off.
    pub fn update(&mut self, lossy: bool, clean: bool) -> (changed: bool)
        ensures
            final(self)@ == run_step(old(self)@, lossy, clean, FALLBACK_SECS, FALLBACK_RECOVER_SECS, true),
            changed == (final(self)@.on != old(self)@.on),
    {
        let before = self.state.on;
        self.state = next_run(self.state, lossy, clean, FALLBACK_SECS, FALLBACK_RECOVER_SECS, true);
        self.state.on != before
    }
}

#[derive(Debug, Clone)]
pub struct LinkHealth {
    state: RunState,
}

impl View for LinkHealth {
    type V = RunState;

    closed spec fn view(&self) -> RunState {
        self.state
    }
}

impl Default for LinkHealth {
    fn default() -> (r: LinkHealth)
        ensures
            r@ == (RunState { on: false, bad_secs: 0, good_secs: 0 }),
    {
        LinkHealth { state: RunState { on: false, bad_secs: 0, good_secs: 0 } }
    }
}

impl LinkHealth {
    pub fn is_degraded(&self) -> (r: bool)
        ensures
            r == self@.on,
    {
        self.state.on
    }

    /// Feed one second of measurements (the worst of the path and the session's routes):
    /// `bad` when loss or jitter was above the degraded thresholds, `good` when both were below
    /// the recovered ones. Returns true when the state changed.
    pub fn update(&mut self, bad: bool, good: bool) -> (changed: bool)
        ensures
            final(self)@ == run_step(old(self)@, bad, good, ENTER_SECS, RECOVER_SECS, false),
            changed == (final(self)@.on != old(self)@.on),
    {
        let before = self.state.on;
        self.state = next_run(self.state, bad, good, ENTER_SECS, RECOVER_SECS, false);
        self.state.on != before
    }
}

/// A healthy link turns `Degraded` exactly on the third bad second in a row, and not before.
pub proof fn lemma_degraded_after_three_bad_seconds(s: RunState)
    requires
        !s.on,
        s.bad_secs == 0,
    ensures
        !run_step(s, true, false, ENTER_SECS, RECOVER_SECS, false).on,
        !run_step(run_step(s, true, false, ENTER_SECS, RECOVER_SECS, false), true, false, ENTER_SECS, RECOVER_SECS, false).on,
        run_step(
            run_step(run_step(s, true, false, ENTER_SECS, RECOVER_SECS, false), true, false, ENTER_SECS, RECOVER_SECS, false),
            true,
            false,
            ENTER_SECS,
            RECOVER_SECS,
            false,
        ).on,
{
}

/// A second that is neither bad nor good never changes whether a link is degraded, nor
/// whether the lossless fallback is active.
pub proof fn lemma_in_between_seconds_hold(s: RunState)
    ensures
        s.on ==> run_step(s, false, false, ENTER_SECS, RECOVER_SECS, false).on,
        !s.on ==> !run_step(s, false, false, ENTER_SECS, RECOVER_SECS, false).on,
        run_step(s, false, false, FALLBACK_SECS, FALLBACK_RECOVER_SECS, true).on == s.on,
{
}

/// The fallback switches on only after a full run of lossy seconds and off only after a full
/// run of clean ones, and every switch starts both runs over.
pub proof fn lemma_fallback_switches_only_after_full_runs(s: RunState, lossy: bool, clean: bool)
    ensures
        ({
            let t = run_step(s, lossy, clean, FALLBACK_SECS, FALLBACK_RECOVER_SECS, true);
            &&& (!s.on && t.on) ==> lossy && s.bad_secs + 1 >= FALLBACK_SECS
            &&& (s.on && !t.on) ==> clean && s.good_secs + 1 >= FALLBACK_RECOVER_SECS
            &&& t.on != s.on ==> t.bad_secs == 0 && t.good_secs == 0
        }),
{
}

} // verus!
