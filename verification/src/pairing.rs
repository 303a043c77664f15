//! Pairing decisions: what a pairing request is answered, when a pairing completes, and which
//! of two connections with the same device is kept.
//!
//! Pairing is opened on this device ("Pair" shows a QR code). A phone that scanned the code
//! proves it knows the code's secret, and is paired at once; a device without the proof asks,
//! and both users confirm. Checking a proof is cryptography the shell does with the security
//! crate; these functions take its verdict.

use vstd::prelude::*;

verus! {

/// This device's pairing mode.
#[derive(Debug, Clone, Copy, PartialEq, Eq, Structural)]
pub struct QrState {
    /// The QR code is shown.
    pub open: bool,
    /// It is shown but its time is up.
    pub expired: bool,
}

/// Why a pairing request was refused (the audit log's detail).
#[derive(Debug, Clone, Copy, PartialEq, Eq, Structural)]
pub enum RejectReason {
    /// Wrong or expired QR proof.
    Proof,
    /// Pairing mode was not open.
    Closed,
}

/// The answer to a pairing request.
#[derive(Debug, Clone, Copy, PartialEq, Eq, Structural)]
pub enum PairDecision {
    /// The QR proof holds: pair now (both sides count as confirmed); the code is used up.
    PairedByQr,
    /// No proof, pairing mode open: ask the user to confirm.
    AskUser,
    /// Refuse, audit why, and close the connection ("permission denied").
    Reject(RejectReason),
}

/// A pairing request: `evidence` is `None` without a QR proof, else whether the proof checked out
/// against the shown code's secret (only asked while the code is open and not expired).
pub open spec fn pair_request_spec(qr: QrState, evidence: Option<bool>) -> (QrState, PairDecision) {
    match evidence {
        Some(valid) => {
            if qr.open && !qr.expired {
                if valid {
                    (QrState { open: false, expired: false }, PairDecision::PairedByQr)
                } else {
                    (qr, PairDecision::Reject(RejectReason::Proof))
                }
            } else if qr.open {
                (qr, PairDecision::Reject(RejectReason::Proof))
            } else {
                (qr, PairDecision::Reject(RejectReason::Closed))
            }
        },
        None => {
            if qr.open {
                (qr, PairDecision::AskUser)
            } else {
                (qr, PairDecision::Reject(RejectReason::Closed))
            }
        },
    }
}

pub fn pair_request(qr: QrState, evidence: Option<bool>) -> (r: (QrState, PairDecision))
    ensures
        r == pair_request_spec(qr, evidence),
{
    match evidence {
        Some(valid) => {
            if qr.open && !qr.expired {
                if valid {
                    (QrState { open: false, expired: false }, PairDecision::PairedByQr)
                } else {
                    (qr, PairDecision::Reject(RejectReason::Proof))
                }
            } else if qr.open {
                (qr, PairDecision::Reject(RejectReason::Proof))
            } else {
                (qr, PairDecision::Reject(RejectReason::Closed))
            }
        },
        None => {
            if qr.open {
                (qr, PairDecision::AskUser)
            } else {
                (qr, PairDecision::Reject(RejectReason::Closed))
            }
        },
    }
}

/// Where a pairing that asks the users stands after this device's user answered.
#[derive(Debug, Clone, Copy, PartialEq, Eq, Structural)]
pub enum Confirmation {
    /// Both accepted: the device becomes trusted and the session starts.
    Complete,
    /// Accepted here; waiting for the other side.
    Waiting,
    /// Refused here: audit ("local"), close with "permission denied".
    Refused,
}

/// This device's user answered `accept`; `peer_confirmed`: the other side already accepted.
pub open spec fn confirmation_spec(accept: bool, peer_confirmed: bool) -> Confirmation {
    if !accept {
        Confirmation::Refused
    } else if peer_confirmed {
        Confirmation::Complete
    } else {
        Confirmation::Waiting
    }
}

pub fn confirm(accept: bool, peer_confirmed: bool) -> (r: Confirmation)
    ensures
        r == confirmation_spec(accept, peer_confirmed),
{
    if !accept {
        Confirmation::Refused
    } else if peer_confirmed {
        Confirmation::Complete
    } else {
        Confirmation::Waiting
    }
}

/// Connections with a device that both sides dialled at once settle on one: the one dialled by
/// the device with the lower id is preferred. The session already open stays (and the new
/// connection is closed as superseded) only when it is the preferred one, the new one is not,
/// and the old one is less than 5 s old; otherwise the new one replaces it.
pub open spec fn keeps_old_spec(
    local_id: u128,
    peer_id: u128,
    old_dialed: bool,
    new_dialed: bool,
    old_age_ms: u64,
) -> bool {
    let local_lower = local_id < peer_id;
    old_dialed == local_lower && new_dialed != local_lower && old_age_ms < 5_000
}

pub fn keeps_old(local_id: u128, peer_id: u128, old_dialed: bool, new_dialed: bool, old_age_ms: u64) -> (r:
    bool)
    ensures
        r == keeps_old_spec(local_id, peer_id, old_dialed, new_dialed, old_age_ms),
{
    let local_lower = local_id < peer_id;
    old_dialed == local_lower && new_dialed != local_lower && old_age_ms < 5_000
}

/// A QR code pairs one device: after a proof is accepted the code is gone, so a second
/// request, even with a proof that would check out, is refused as "pairing mode closed".
pub proof fn lemma_qr_single_use(qr: QrState, second: Option<bool>)
    requires
        pair_request_spec(qr, Some(true)).1 == PairDecision::PairedByQr,
    ensures
        pair_request_spec(pair_request_spec(qr, Some(true)).0, second).1 == PairDecision::Reject(
            RejectReason::Closed,
        ),
{
}

/// Without pairing mode open nothing pairs: every request is refused as "closed".
pub proof fn lemma_closed_mode_refuses(qr: QrState, evidence: Option<bool>)
    requires
        !qr.open,
    ensures
        pair_request_spec(qr, evidence).1 == PairDecision::Reject(RejectReason::Closed),
{
}

/// Both ends of a simultaneous dial pick the same connection: seen from the other device
/// (ids swapped, the same two connections with their roles swapped), the connection this one
/// keeps is the one it keeps too, within the first 5 s.
pub proof fn lemma_tie_break_agrees(a: u128, b: u128, a_dialed_old: bool, age: u64)
    requires
        a != b,
        age < 5_000,
    ensures
        keeps_old_spec(a, b, a_dialed_old, !a_dialed_old, age) == keeps_old_spec(
            b,
            a,
            !a_dialed_old,
            a_dialed_old,
            age,
        ),
{
}

} // verus!
