//! Uncompressed 16-bit little-endian PCM on the wire.
//!
//! Samples reach this layer already scaled to 16-bit integers; converting them from and to
//! the pipeline's fractional samples happens where the audio is processed.

use vstd::prelude::*;
use super::MediaError;
use super::profile::{StreamProfile, MAX_MEDIA_PAYLOAD, clamp, clamp_u32};
use super::{frame_samples, samples_per_frame};

verus! {

/// The two little-endian bytes of a sample.
pub open spec fn sample_bytes(s: i16) -> Seq<u8> {
    let u = s as u16;
    seq![(u % 256) as u8, (u / 256) as u8]
}

/// The sample two little-endian bytes hold.
pub open spec fn sample_of(lo: u8, hi: u8) -> i16 {
    (hi as u16 * 256 + lo as u16) as u16 as i16
}

/// The payload of a frame: every sample's bytes, in order.
pub open spec fn payload_of(pcm: Seq<i16>) -> Seq<u8>
    decreases pcm.len(),
{
    if pcm.len() == 0 {
        Seq::empty()
    } else {
        payload_of(pcm.drop_last()) + sample_bytes(pcm.last())
    }
}

proof fn lemma_payload_len(pcm: Seq<i16>)
    ensures
        payload_of(pcm).len() == 2 * pcm.len(),
    decreases pcm.len(),
{
    if pcm.len() > 0 {
        lemma_payload_len(pcm.drop_last());
    }
}

proof fn lemma_sample_round_trip(s: i16)
    ensures
        sample_of(sample_bytes(s)[0], sample_bytes(s)[1]) == s,
{
    let u = s as u16;
    assert(((((u / 256) as u8) as u16) * 256 + (((u % 256) as u8) as u16)) as u16 as i16 == s)
        by (bit_vector)
        requires
            u == s as u16,
    ;
}

proof fn lemma_payload_index(pcm: Seq<i16>, i: int)
    requires
        0 <= i < pcm.len(),
    ensures
        payload_of(pcm)[2 * i] == sample_bytes(pcm[i])[0],
        payload_of(pcm)[2 * i + 1] == sample_bytes(pcm[i])[1],
    decreases pcm.len(),
{
    lemma_payload_len(pcm.drop_last());
    if i < pcm.len() - 1 {
        lemma_payload_index(pcm.drop_last(), i);
    }
}

/// Decoding the payload of a frame gives back every sample of the frame.
pub proof fn lemma_pcm_round_trip(pcm: Seq<i16>)
    ensures
        payload_of(pcm).len() == 2 * pcm.len(),
        forall|i: int|
            0 <= i < pcm.len() ==> sample_of(payload_of(pcm)[2 * i], payload_of(pcm)[2 * i + 1])
                == pcm[i],
{
    lemma_payload_len(pcm);
    assert forall|i: int| 0 <= i < pcm.len() implies sample_of(
        payload_of(pcm)[2 * i],
        payload_of(pcm)[2 * i + 1],
    ) == pcm[i] by {
        lemma_payload_index(pcm, i);
        lemma_sample_round_trip(pcm[i]);
    }
}

pub struct PcmEncoder {
    channels: usize,
}

impl PcmEncoder {
    /// An encoder for the channels of a profile (clamped to mono or stereo).
    pub fn new(profile: &StreamProfile) -> (r: PcmEncoder)
        ensures
            r.channels() == clamp(profile.channels, 1, 2),
    {
        PcmEncoder { channels: clamp_u32(profile.channels, 1, 2) as usize }
    }

    pub closed spec fn channels(&self) -> nat {
        self.channels as nat
    }

    /// Encode exactly one frame of interleaved samples into `out` (cleared first).
    pub fn encode(&self, pcm: &[i16], out: &mut Vec<u8>) -> (r: Result<(), MediaError>)
        requires
            1 <= self.channels() <= 2,
        ensures
            r is Ok <==> pcm@.len() % self.channels() == 0 && pcm@.len() * 2
                <= MAX_MEDIA_PAYLOAD,
            r is Ok ==> final(out)@ == payload_of(pcm@),
            r is Err ==> r == Err::<(), MediaError>(MediaError::InvalidParameter("pcm frame size"))
                && final(out)@ == old(out)@,
    {
        if pcm.len() % self.channels != 0 || pcm.len() > MAX_MEDIA_PAYLOAD / 2 {
            return Err(MediaError::InvalidParameter("pcm frame size"));
        }
        out.clear();
        let mut i: usize = 0;
        while i < pcm.len()
            invariant
                i <= pcm@.len(),
                out@ == payload_of(pcm@.subrange(0, i as int)),
            decreases pcm@.len() - i,
        {
            let u = pcm[i] as u16;
            out.push((u % 256) as u8);
            out.push((u / 256) as u8);
            proof {
                let pre = pcm@.subrange(0, i as int);
                let next = pcm@.subrange(0, i + 1);
                assert(next.drop_last() =~= pre);
                assert(next.last() == pcm@[i as int]);
            }
            i = i + 1;
        }
        assert(pcm@.subrange(0, pcm@.len() as int) =~= pcm@);
        Ok(())
    }
}

pub struct PcmDecoder {
    channels: usize,
    frame: usize,
}

impl PcmDecoder {
    /// A decoder for the channels and frame size of a profile.
    pub fn new(profile: &StreamProfile) -> (r: PcmDecoder)
        ensures
            r.channels() == clamp(profile.channels, 1, 2),
            r.frame() == frame_samples(profile.frame_us),
    {
        PcmDecoder {
            channels: clamp_u32(profile.channels, 1, 2) as usize,
            frame: samples_per_frame(profile.frame_us),
        }
    }

    pub closed spec fn channels(&self) -> nat {
        self.channels as nat
    }

    pub closed spec fn frame(&self) -> nat {
        self.frame as nat
    }

    /// Decode one packet into the start of `out`. Returns samples per channel written. A
    /// payload that is not whole samples of whole frames, or does not fit `out`, is refused
    /// and leaves `out` alone.
    pub fn decode(&self, payload: &[u8], out: &mut Vec<i16>) -> (r: Result<usize, MediaError>)
        requires
            1 <= self.channels() <= 2,
        ensures
            ({
                let samples = payload@.len() / 2;
                let valid = payload@.len() % 2 == 0 && samples % self.channels() == 0
                    && samples <= old(out)@.len();
                &&& valid ==> r == Ok::<usize, MediaError>((samples / self.channels()) as usize)
                &&& valid ==> final(out)@.len() == old(out)@.len()
                &&& valid ==> forall|i: int|
                    0 <= i < old(out)@.len() ==> final(out)@[i] == if i < samples {
                        sample_of(payload@[2 * i], payload@[2 * i + 1])
                    } else {
                        old(out)@[i]
                    }
                &&& !valid ==> r == Err::<usize, MediaError>(
                    MediaError::WrongPayloadSize {
                        got: payload@.len() as usize,
                        expected: if old(out)@.len() <= usize::MAX / 2 {
                            (2 * old(out)@.len()) as usize
                        } else {
                            0
                        },
                    },
                ) && final(out)@ == old(out)@
            }),
    {
        let samples = payload.len() / 2;
        if payload.len() % 2 != 0 || samples % self.channels != 0 || samples > out.len() {
            return Err(
                MediaError::WrongPayloadSize {
                    got: payload.len(),
                    expected: if out.len() <= usize::MAX / 2 {
                        out.len() * 2
                    } else {
                        0
                    },
                },
            );
        }
        let plen = payload.len();
        let mut i: usize = 0;
        while i < samples
            invariant
                i <= samples,
                plen == payload@.len(),
                samples == payload@.len() / 2,
                samples <= out@.len(),
                out@.len() == old(out)@.len(),
                forall|j: int|
                    0 <= j < out@.len() ==> out@[j] == if j < i {
                        sample_of(payload@[2 * j], payload@[2 * j + 1])
                    } else {
                        old(out)@[j]
                    },
            decreases samples - i,
        {
            assert(2 * i + 1 < plen);
            let lo = payload[2 * i];
            let hi = payload[2 * i + 1];
            out.set(i, #[verifier::truncate] (((hi as u16) * 256 + (lo as u16)) as i16));
            i = i + 1;
        }
        Ok(samples / self.channels)
    }
}

} // verus!
