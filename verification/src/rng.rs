//! Randomness from the operating system, through the `rand` crate. Nothing can be promised of a
//! random value, and the source may fail: callers say what they do then.

use vstd::prelude::*;
use rand::RngCore;

verus! {

/// Calls `rand::rngs::OsRng.try_fill_bytes` on 32 bytes: random bytes from the operating
/// system, or `None` when the operating system's source fails. Nothing is claimed of the bytes.
#[verifier::external_body]
pub(crate) fn os_random_32() -> (r: Option<[u8; 32]>) {
    let mut bytes = [0u8; 32];
    match rand::rngs::OsRng.try_fill_bytes(&mut bytes) {
        Ok(()) => Some(bytes),
        Err(_) => None,
    }
}

} // verus!
