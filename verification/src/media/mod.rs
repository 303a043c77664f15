//! Media processing rules. Wire format is always 48 kHz.


pub mod frames;
pub mod jitter;
pub mod pcm;
pub mod profile;
pub mod sort;

use vstd::prelude::*;

verus! {

/// Sample rate used on the wire and inside the pipeline.
pub const SAMPLE_RATE: u32 = 48_000;

/// Samples per channel in a frame of `frame_us` microseconds.
pub open spec fn frame_samples(frame_us: u32) -> int {
    SAMPLE_RATE * frame_us / 1_000_000
}

/// Samples per channel in `ms` milliseconds.
pub open spec fn ms_samples(ms: u32) -> int {
    SAMPLE_RATE * ms / 1000
}

/// Number of samples per channel for a frame of `frame_us` microseconds.
pub fn samples_per_frame(frame_us: u32) -> (r: usize)
    ensures
        r == frame_samples(frame_us),
{
    let n: u64 = 48_000u64 * (frame_us as u64) / 1_000_000;
    proof {
        vstd::arithmetic::div_mod::lemma_div_is_ordered(
            48_000 * (frame_us as int),
            206_158_431int * 1_000_000,
            1_000_000,
        );
        vstd::arithmetic::div_mod::lemma_div_by_multiple(206_158_431, 1_000_000);
    }
    assert(n <= 206_158_431);
    n as usize
}

/// Convert milliseconds to samples (per channel) at 48 kHz.
pub fn ms_to_samples(ms: u32) -> (r: u64)
    ensures
        r == ms_samples(ms),
{
    (SAMPLE_RATE as u64) * (ms as u64) / 1000
}

#[derive(Debug, PartialEq, Eq)]
pub enum MediaError {
    Codec(String),
    InvalidParameter(&'static str),
    WrongPayloadSize { got: usize, expected: usize },
}

} // verus!
