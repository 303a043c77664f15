//! Supervision of microphone noise suppression.
//!
//! Noise suppression is the most expensive stage in the capture chain. When the machine stops
//! keeping up, the capture ring overruns and the stream stutters. Rather than let that happen,
//! noise suppression switches itself off, the user is told once, and it comes back after a
//! stretch of clean capture. Nothing is written to the settings.

use vstd::prelude::*;

verus! {

/// Capture overruns within one supervision step that mean the machine cannot keep up.
pub const OVERRUN_LIMIT: u64 = 10;
/// Clean steps before a suspension is lifted.
pub const RECOVERY_STEPS: u32 = 20;

/// What a supervision step decided.
#[derive(Debug, Clone, Copy, PartialEq, Eq, Structural)]
pub enum DenoiseChange {
    /// Noise suppression just switched itself off; tell the user.
    Suspended,
    /// Capture is healthy again; noise suppression is back on.
    Resumed,
}

/// What the supervisor holds.
#[derive(Debug, Clone, Copy, PartialEq, Eq, Structural)]
pub struct DenoiseState {
    /// Total capture overruns seen at the previous step, once one has been seen.
    pub overruns: Option<u64>,
    pub healthy_steps: u32,
    pub suspended: bool,
}

/// One supervision step: the next state and the change worth reporting.
pub open spec fn denoise_step(s: DenoiseState, overruns: u64, enabled: bool) -> (
    DenoiseState,
    Option<DenoiseChange>,
) {
    let previous = match s.overruns {
        Some(p) => p,
        None => overruns,
    };
    let missed: int = if overruns >= previous {
        overruns - previous
    } else {
        0
    };
    if !enabled {
        (DenoiseState { overruns: Some(overruns), healthy_steps: 0, suspended: false }, None)
    } else if missed >= OVERRUN_LIMIT {
        (
            DenoiseState { overruns: Some(overruns), healthy_steps: 0, suspended: true },
            if s.suspended {
                None
            } else {
                Some(DenoiseChange::Suspended)
            },
        )
    } else if !s.suspended {
        (DenoiseState { overruns: Some(overruns), ..s }, None)
    } else if s.healthy_steps + 1 < RECOVERY_STEPS {
        (
            DenoiseState {
                overruns: Some(overruns),
                healthy_steps: (s.healthy_steps + 1) as u32,
                suspended: true,
            },
            None,
        )
    } else {
        (
            DenoiseState { overruns: Some(overruns), healthy_steps: 0, suspended: false },
            Some(DenoiseChange::Resumed),
        )
    }
}

#[derive(Debug)]
pub struct DenoiseSupervisor {
    state: DenoiseState,
}

impl View for DenoiseSupervisor {
    type V = DenoiseState;

    closed spec fn view(&self) -> DenoiseState {
        self.state
    }
}

/// The supervisor's invariant: healthy steps only count while suspended, and stay below the
/// recovery run.
pub open spec fn denoise_wf(s: DenoiseState) -> bool {
    &&& s.healthy_steps < RECOVERY_STEPS
    &&& !s.suspended ==> s.healthy_steps == 0
}

impl Default for DenoiseSupervisor {
    fn default() -> (r: DenoiseSupervisor)
        ensures
            r@ == (DenoiseState { overruns: None, healthy_steps: 0, suspended: false }),
    {
        DenoiseSupervisor {
            state: DenoiseState { overruns: None, healthy_steps: 0, suspended: false },
        }
    }
}

impl DenoiseSupervisor {
    /// One step (the engine calls this once a second). `overruns` is the running total across
    /// every microphone capture, `enabled` the user's setting. Returns a change worth reporting.
    /// A total that went down (a capture group went away) is not progress, and the first step
    /// only records where the count stands.
    pub fn step(&mut self, overruns: u64, enabled: bool) -> (r: Option<DenoiseChange>)
        requires
            denoise_wf(old(self)@),
        ensures
            (final(self)@, r) == denoise_step(old(self)@, overruns, enabled),
            denoise_wf(final(self)@),
    {
        let previous = match self.state.overruns {
            Some(p) => p,
            None => overruns,
        };
        self.state.overruns = Some(overruns);
        let missed = overruns.saturating_sub(previous);
        if !enabled {
            self.reset();
            self.state.overruns = Some(overruns);
            return None;
        }
        if missed >= OVERRUN_LIMIT {
            self.state.healthy_steps = 0;
            let was = self.state.suspended;
            self.state.suspended = true;
            return if was {
                None
            } else {
                Some(DenoiseChange::Suspended)
            };
        }
        if !self.state.suspended {
            return None;
        }
        self.state.healthy_steps = self.state.healthy_steps + 1;
        if self.state.healthy_steps < RECOVERY_STEPS {
            return None;
        }
        self.state.healthy_steps = 0;
        self.state.suspended = false;
        Some(DenoiseChange::Resumed)
    }

    pub fn suspended(&self) -> (r: bool)
        ensures
            r == self@.suspended,
    {
        self.state.suspended
    }

    /// Forget a suspension (the user changed the setting, so the next switch-on must take
    /// effect).
    pub fn reset(&mut self)
        ensures
            final(self)@ == (DenoiseState { overruns: None, healthy_steps: 0, suspended: false }),
    {
        self.state = DenoiseState { overruns: None, healthy_steps: 0, suspended: false };
    }
}

/// The user's setting wins: with noise suppression switched off nothing is ever reported and
/// no suspension remains.
pub proof fn lemma_disabled_never_reports(s: DenoiseState, overruns: u64)
    ensures
        denoise_step(s, overruns, false).1 == None::<DenoiseChange>,
        !denoise_step(s, overruns, false).0.suspended,
{
}

/// A suspension is reported once: a step that finds the supervisor already suspended never
/// reports `Suspended` again, and `Resumed` only ends a suspension.
pub proof fn lemma_changes_alternate(s: DenoiseState, overruns: u64, enabled: bool)
    ensures
        denoise_step(s, overruns, enabled).1 == Some(DenoiseChange::Suspended) ==> !s.suspended
            && denoise_step(s, overruns, enabled).0.suspended,
        denoise_step(s, overruns, enabled).1 == Some(DenoiseChange::Resumed) ==> s.suspended
            && !denoise_step(s, overruns, enabled).0.suspended,
{
}

/// The first step, and a total that went backwards, never count as overruns.
pub proof fn lemma_no_progress_is_not_overrun(s: DenoiseState, overruns: u64)
    requires
        s.overruns is None || overruns <= s.overruns->0,
    ensures
        denoise_step(s, overruns, true).1 != Some(DenoiseChange::Suspended),
{
}

} // verus!
