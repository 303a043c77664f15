//! What each encoded frame becomes for every receiver of a stream, and what a received payload
//! yields.
//!
//! The encode thread captures, processes and encodes; per frame it asks this module for the
//! frame's timestamp and sequence number, whether the stream is in DTX (discontinuous
//! transmission during silence), which variant of the packet each receiver gets, and how the
//! redundant variant frames its two payloads. A receiver splits that framing again.

use vstd::prelude::*;
use super::profile::MAX_MEDIA_PAYLOAD;

verus! {

/// Silence lasting this long (ms) starts DTX. The hangover keeps word endings and short pauses
/// as real audio.
pub const DTX_HANGOVER_MS: u64 = 200;
/// DTX packets go out for this many frames when silence starts and then once per keep-alive
/// interval, so a receiver that lost the first ones still learns the sender is silent.
pub const DTX_SIGNAL_FRAMES: u64 = 2;
/// Interval between DTX keep-alive packets, in ms.
pub const DTX_KEEPALIVE_MS: u64 = 400;

/// Whole frames of `frame` samples (48 per ms) in `ms` milliseconds; a zero frame counts as one.
pub open spec fn frames_in(ms: u64, frame: nat) -> nat {
    ((ms * 48) / (if frame == 0 { 1int } else { frame as int })) as nat
}

/// Per-stream sender state across frames.
#[derive(Debug, Clone, Copy)]
pub struct FrameClock {
    /// Timestamp (in samples per channel) of the next frame.
    pub timestamp: u64,
    /// Sequence number of the next frame.
    pub seq: u32,
    /// Silent frames in a row, up to the current one.
    pub silent_frames: u64,
    /// Silent frames before DTX starts.
    pub hangover: u64,
    /// Frames between DTX keep-alive packets (at least 1).
    pub keepalive: u64,
    /// Samples per channel in a frame.
    pub frame: u64,
    /// The stream's codec is Opus: only Opus streams use DTX.
    pub opus: bool,
}

/// What the encode thread does with one frame.
#[derive(Debug, Clone, Copy, PartialEq, Eq, Structural)]
pub struct FrameInfo {
    pub timestamp: u64,
    pub seq: u32,
    /// Receivers that understand DTX get no encoded audio for this frame.
    pub dtx: bool,
    /// ... but a header-only DTX packet goes out for this frame.
    pub dtx_signal: bool,
}

/// DTX after the hangover, for Opus streams.
pub open spec fn in_dtx(silent_frames: u64, hangover: u64, opus: bool) -> bool {
    opus && silent_frames > hangover
}

/// In DTX, a header-only packet goes out for the first frames and then once per keep-alive.
pub open spec fn dtx_signal(silent_frames: u64, hangover: u64, keepalive: u64, opus: bool) -> bool {
    in_dtx(silent_frames, hangover, opus) && {
        let n = silent_frames - hangover - 1;
        n < DTX_SIGNAL_FRAMES || n % (keepalive as int) == 0
    }
}

impl FrameClock {
    pub open spec fn wf(self) -> bool {
        self.keepalive >= 1
    }

    /// The state at the start of a stream with frames of `frame` samples per channel.
    pub fn new(frame: usize, opus: bool) -> (r: FrameClock)
        ensures
            r.wf(),
            r.timestamp == 0,
            r.seq == 0,
            r.silent_frames == 0,
            r.hangover == frames_in(DTX_HANGOVER_MS, frame as nat),
            r.keepalive == (if frames_in(DTX_KEEPALIVE_MS, frame as nat) > 0 {
                frames_in(DTX_KEEPALIVE_MS, frame as nat)
            } else {
                1
            }),
            r.frame == frame,
            r.opus == opus,
    {
        let per = if frame > 0 {
            frame as u64
        } else {
            1
        };
        let keepalive = DTX_KEEPALIVE_MS * 48 / per;
        FrameClock {
            timestamp: 0,
            seq: 0,
            silent_frames: 0,
            hangover: DTX_HANGOVER_MS * 48 / per,
            keepalive: if keepalive > 0 {
                keepalive
            } else {
                1
            },
            frame: frame as u64,
            opus,
        }
    }

    /// The next frame was captured: `silent` when every sample is below the silence threshold.
    /// Returns its timestamp and sequence number and whether it is sent as DTX.
    pub fn next_frame(&mut self, silent: bool) -> (r: FrameInfo)
        requires
            old(self).wf(),
            old(self).timestamp + old(self).frame <= u64::MAX,
        ensures
            final(self).wf(),
            final(self).timestamp == old(self).timestamp + old(self).frame,
            final(self).seq == (if old(self).seq == u32::MAX {
                0
            } else {
                old(self).seq + 1
            }) as int,
            final(self).silent_frames == (if !silent {
                0
            } else if old(self).silent_frames == u64::MAX {
                u64::MAX as int
            } else {
                old(self).silent_frames + 1
            }),
            final(self).hangover == old(self).hangover,
            final(self).keepalive == old(self).keepalive,
            final(self).frame == old(self).frame,
            final(self).opus == old(self).opus,
            r.timestamp == old(self).timestamp,
            r.seq == old(self).seq,
            r.dtx == in_dtx(final(self).silent_frames, old(self).hangover, old(self).opus),
            r.dtx_signal == dtx_signal(
                final(self).silent_frames,
                old(self).hangover,
                old(self).keepalive,
                old(self).opus,
            ),
    {
        let timestamp = self.timestamp;
        let seq = self.seq;
        self.timestamp = self.timestamp + self.frame;
        self.seq = self.seq.wrapping_add(1);
        self.silent_frames = if silent {
            self.silent_frames.saturating_add(1)
        } else {
            0
        };
        let dtx = self.opus && self.silent_frames > self.hangover;
        let signal = dtx && {
            let n = self.silent_frames - self.hangover - 1;
            n < DTX_SIGNAL_FRAMES || n % self.keepalive == 0
        };
        FrameInfo { timestamp, seq, dtx, dtx_signal: signal }
    }
}

/// One receiver of the stream, as the encode thread sees it.
#[derive(Debug, Clone, Copy, PartialEq, Eq, Structural)]
pub struct TargetFlags {
    /// Nothing is sent to a muted receiver; it resynchronizes when unmuted.
    pub muted: bool,
    /// The receiver understands DTX packets; others always get encoded audio.
    pub understands_dtx: bool,
    /// The receiver asked for redundancy (each packet also carries the previous frame).
    pub redundancy: bool,
    /// No packet has reached it yet: the next one carries the marker flag.
    pub first: bool,
    /// Its stream must restart: the next packet carries the discontinuity flag.
    pub restart: bool,
}

/// The packet a receiver gets for a frame.
#[derive(Debug, Clone, Copy, PartialEq, Eq, Structural)]
pub enum Variant {
    Nothing,
    /// Header only: "silent from this timestamp".
    Dtx,
    /// `[u16 primary length][primary][previous frame]`.
    Redundant,
    Plain,
}

/// Some receiver needs encoded audio for this frame: there is no DTX, or a receiver does not
/// understand it.
pub open spec fn audio_needed(targets: Seq<TargetFlags>, dtx: bool) -> bool {
    !dtx || exists|i: int| 0 <= i < targets.len() && !(#[trigger] targets[i]).understands_dtx
}

pub fn needs_audio(targets: &[TargetFlags], dtx: bool) -> (r: bool)
    ensures
        r == audio_needed(targets@, dtx),
{
    if !dtx {
        return true;
    }
    let mut i: usize = 0;
    while i < targets.len()
        invariant
            i <= targets@.len(),
            forall|j: int| 0 <= j < i ==> (#[trigger] targets@[j]).understands_dtx,
        decreases targets@.len() - i,
    {
        if !targets[i].understands_dtx {
            return true;
        }
        i = i + 1;
    }
    false
}

/// Redundancy (Opus only) needs audio this frame, a previous frame, and room for both and the
/// length prefix in one payload.
pub open spec fn redundancy_fits(opus: bool, audio: bool, packet_len: nat, previous_len: nat) -> bool {
    opus && audio && previous_len > 0 && 2 + packet_len + previous_len <= MAX_MEDIA_PAYLOAD
}

pub fn can_add_redundancy(opus: bool, audio: bool, packet_len: usize, previous_len: usize) -> (r:
    bool)
    ensures
        r == redundancy_fits(opus, audio, packet_len as nat, previous_len as nat),
{
    opus && audio && previous_len > 0 && packet_len <= MAX_MEDIA_PAYLOAD && previous_len
        <= MAX_MEDIA_PAYLOAD && 2 + packet_len + previous_len <= MAX_MEDIA_PAYLOAD
}

/// The variant `t` gets for a frame.
pub open spec fn variant_for(t: TargetFlags, dtx: bool, signal: bool, redundancy_ok: bool) -> Variant {
    if t.muted {
        Variant::Nothing
    } else if dtx && t.understands_dtx {
        if signal {
            Variant::Dtx
        } else {
            Variant::Nothing
        }
    } else if redundancy_ok && t.redundancy {
        Variant::Redundant
    } else {
        Variant::Plain
    }
}

pub fn choose_variant(t: TargetFlags, dtx: bool, signal: bool, redundancy_ok: bool) -> (r: Variant)
    ensures
        r == variant_for(t, dtx, signal, redundancy_ok),
{
    if t.muted {
        Variant::Nothing
    } else if dtx && t.understands_dtx {
        if signal {
            Variant::Dtx
        } else {
            Variant::Nothing
        }
    } else if redundancy_ok && t.redundancy {
        Variant::Redundant
    } else {
        Variant::Plain
    }
}

/// The receiver after a frame: a muted one restarts when unmuted; one that was sent a packet
/// (`delivered`) has had its first packet and its restart.
pub open spec fn flags_after(t: TargetFlags, v: Variant, delivered: bool) -> TargetFlags {
    if t.muted {
        TargetFlags { restart: true, ..t }
    } else if v != Variant::Nothing && delivered {
        TargetFlags { first: false, restart: false, ..t }
    } else {
        t
    }
}

pub fn after_frame(t: TargetFlags, v: Variant, delivered: bool) -> (r: TargetFlags)
    ensures
        r == flags_after(t, v, delivered),
{
    if t.muted {
        TargetFlags { restart: true, ..t }
    } else if !matches!(v, Variant::Nothing) && delivered {
        TargetFlags { first: false, restart: false, ..t }
    } else {
        t
    }
}

/// A shared encoder follows its most constrained receiver: the lowest bitrate asked for.
pub fn lowest_bitrate(bitrates: &[u32]) -> (r: Option<u32>)
    ensures
        bitrates@.len() == 0 ==> r.is_none(),
        bitrates@.len() > 0 ==> r.is_some() && bitrates@.contains(r.unwrap()) && forall|i: int|
            0 <= i < bitrates@.len() ==> r.unwrap() <= #[trigger] bitrates@[i],
{
    if bitrates.len() == 0 {
        return None;
    }
    let mut best = bitrates[0];
    let mut i: usize = 1;
    while i < bitrates.len()
        invariant
            1 <= i <= bitrates@.len(),
            bitrates@.contains(best),
            forall|j: int| 0 <= j < i ==> best <= #[trigger] bitrates@[j],
        decreases bitrates@.len() - i,
    {
        if bitrates[i] < best {
            best = bitrates[i];
        }
        i = i + 1;
    }
    Some(best)
}

/// ... and the highest packet loss any receiver expects (0 without receivers).
pub fn highest_loss(losses: &[u32]) -> (r: u32)
    ensures
        forall|i: int| 0 <= i < losses@.len() ==> #[trigger] losses@[i] <= r,
        losses@.len() == 0 ==> r == 0,
        losses@.len() > 0 ==> losses@.contains(r),
{
    let mut best: u32 = 0;
    let mut i: usize = 0;
    while i < losses.len()
        invariant
            i <= losses@.len(),
            forall|j: int| 0 <= j < i ==> #[trigger] losses@[j] <= best,
            i == 0 ==> best == 0,
            i > 0 ==> losses@.contains(best),
        decreases losses@.len() - i,
    {
        if i == 0 || losses[i] > best {
            best = losses[i];
        }
        i = i + 1;
    }
    best
}

/// The `(restart, first)` state of the receiver `id` among `known`: that of the first entry with
/// this id, or a fresh start (no restart pending, first packet still to come) for a new one.
pub open spec fn carried(known: Seq<(u64, bool, bool)>, id: u64) -> (bool, bool)
    decreases known.len(),
{
    if known.len() == 0 {
        (false, true)
    } else if known[0].0 == id {
        (known[0].1, known[0].2)
    } else {
        carried(known.drop_first(), id)
    }
}

/// The receivers' state after the subscriber list changed to `ids`: each keeps its own, a new
/// one starts fresh.
pub fn refresh_flags(ids: &[u64], known: &[(u64, bool, bool)]) -> (r: Vec<(bool, bool)>)
    ensures
        r@.len() == ids@.len(),
        forall|i: int| 0 <= i < ids@.len() ==> #[trigger] r@[i] == carried(known@, ids@[i]),
{
    let mut out: Vec<(bool, bool)> = Vec::new();
    let mut i: usize = 0;
    while i < ids.len()
        invariant
            i <= ids@.len(),
            out@.len() == i,
            forall|j: int| 0 <= j < i ==> #[trigger] out@[j] == carried(known@, ids@[j]),
        decreases ids@.len() - i,
    {
        let id = ids[i];
        let mut k: usize = 0;
        assert(known@.subrange(0, known@.len() as int) =~= known@);
        while k < known.len() && known[k].0 != id
            invariant
                k <= known@.len(),
                carried(known@, id) == carried(known@.subrange(k as int, known@.len() as int), id),
            decreases known@.len() - k,
        {
            assert(known@.subrange(k as int, known@.len() as int).drop_first() =~= known@.subrange(
                k + 1,
                known@.len() as int,
            ));
            k = k + 1;
        }
        let found: (bool, bool) = if k < known.len() {
            (known[k].1, known[k].2)
        } else {
            (false, true)
        };
        assert(found == carried(known@, id));
        out.push(found);
        i = i + 1;
    }
    out
}

/// The redundant payload: the primary frame's length as two big-endian bytes, the primary frame,
/// then the previous frame.
pub open spec fn redundant_payload(primary: Seq<u8>, previous: Seq<u8>) -> Seq<u8> {
    seq![(primary.len() / 256) as u8, (primary.len() % 256) as u8] + primary + previous
}

pub fn frame_redundant(primary: &[u8], previous: &[u8]) -> (r: Vec<u8>)
    requires
        primary@.len() <= u16::MAX,
    ensures
        r@ == redundant_payload(primary@, previous@),
{
    let n = primary.len();
    let mut out: Vec<u8> = Vec::new();
    out.push((n / 256) as u8);
    out.push((n % 256) as u8);
    let mut i: usize = 0;
    while i < primary.len()
        invariant
            n == primary@.len(),
            i <= n,
            out@ == seq![(n / 256) as u8, (n % 256) as u8] + primary@.subrange(0, i as int),
        decreases n - i,
    {
        out.push(primary[i]);
        i = i + 1;
        assert(out@ =~= seq![(n / 256) as u8, (n % 256) as u8] + primary@.subrange(0, i as int));
    }
    let ghost head = out@;
    let mut j: usize = 0;
    while j < previous.len()
        invariant
            j <= previous@.len(),
            out@ == head + previous@.subrange(0, j as int),
        decreases previous@.len() - j,
    {
        out.push(previous[j]);
        j = j + 1;
        assert(out@ =~= head + previous@.subrange(0, j as int));
    }
    assert(primary@.subrange(0, n as int) =~= primary@);
    assert(previous@.subrange(0, previous@.len() as int) =~= previous@);
    assert(out@ =~= redundant_payload(primary@, previous@));
    out
}

/// What a receiver takes out of a payload: with the redundant flag and a length prefix that
/// fits, the primary frame and the copy of the previous one; otherwise the whole payload.
pub open spec fn split_payload(bytes: Seq<u8>, redundant: bool) -> (Seq<u8>, Option<Seq<u8>>) {
    if redundant && bytes.len() >= 2 {
        let n = bytes[0] as int * 256 + bytes[1] as int;
        let rest = bytes.subrange(2, bytes.len() as int);
        if n <= rest.len() {
            (rest.subrange(0, n), Some(rest.subrange(n, rest.len() as int)))
        } else {
            (bytes, None)
        }
    } else {
        (bytes, None)
    }
}

fn copy_range(bytes: &[u8], from: usize, to: usize) -> (r: Vec<u8>)
    requires
        from <= to <= bytes@.len(),
    ensures
        r@ == bytes@.subrange(from as int, to as int),
{
    let mut out: Vec<u8> = Vec::new();
    let mut i = from;
    while i < to
        invariant
            from <= i <= to <= bytes@.len(),
            out@ == bytes@.subrange(from as int, i as int),
        decreases to - i,
    {
        out.push(bytes[i]);
        i = i + 1;
        assert(out@ =~= bytes@.subrange(from as int, i as int));
    }
    out
}

/// Split a received payload: `(primary, copy of the previous frame)`.
pub fn split_redundant(bytes: &[u8], redundant: bool) -> (r: (Vec<u8>, Option<Vec<u8>>))
    ensures
        r.0@ == split_payload(bytes@, redundant).0,
        match r.1 {
            Some(v) => split_payload(bytes@, redundant).1 == Some(v@),
            None => split_payload(bytes@, redundant).1.is_none(),
        },
{
    let len = bytes.len();
    if redundant && len >= 2 {
        let n = (bytes[0] as usize) * 256 + (bytes[1] as usize);
        if n <= len - 2 {
            let ghost rest = bytes@.subrange(2, len as int);
            let primary = copy_range(bytes, 2, 2 + n);
            let copy = copy_range(bytes, 2 + n, len);
            assert(primary@ =~= rest.subrange(0, n as int));
            assert(copy@ =~= rest.subrange(n as int, rest.len() as int));
            return (primary, Some(copy));
        }
    }
    (copy_range(bytes, 0, len), None)
}

/// A receiver takes out of a redundant payload exactly the two frames the sender put in.
pub proof fn lemma_redundancy_round_trip(primary: Seq<u8>, previous: Seq<u8>)
    requires
        primary.len() <= u16::MAX,
    ensures
        split_payload(redundant_payload(primary, previous), true) == (primary, Some(previous)),
{
    let b = redundant_payload(primary, previous);
    let n = primary.len();
    assert(((n / 256) as u8) as int * 256 + ((n % 256) as u8) as int == n);
    let rest = b.subrange(2, b.len() as int);
    assert(rest =~= primary + previous);
    assert(rest.subrange(0, n as int) =~= primary);
    assert(rest.subrange(n as int, rest.len() as int) =~= previous);
}

/// A packet that carries audio only goes out in a frame the encoder ran for: whenever some
/// receiver gets the plain or the redundant variant, audio was needed.
pub proof fn lemma_audio_only_when_encoded(
    targets: Seq<TargetFlags>,
    dtx: bool,
    signal: bool,
    redundancy_ok: bool,
    i: int,
)
    requires
        0 <= i < targets.len(),
        variant_for(targets[i], dtx, signal, redundancy_ok) == Variant::Plain || variant_for(
            targets[i],
            dtx,
            signal,
            redundancy_ok,
        ) == Variant::Redundant,
    ensures
        audio_needed(targets, dtx),
{
    if dtx {
        assert(!targets[i].understands_dtx);
    }
}

/// A receiver that does not understand DTX is never left without audio: unless muted, it gets
/// an audio packet for every frame.
pub proof fn lemma_dtx_only_for_receivers_that_understand_it(
    t: TargetFlags,
    dtx: bool,
    signal: bool,
    redundancy_ok: bool,
)
    requires
        !t.muted,
        !t.understands_dtx,
    ensures
        variant_for(t, dtx, signal, redundancy_ok) == Variant::Plain || variant_for(
            t,
            dtx,
            signal,
            redundancy_ok,
        ) == Variant::Redundant,
{
}

/// A redundant payload that the sender decided to build fits in one datagram, and its length
/// prefix can hold the primary frame's length.
pub proof fn lemma_redundant_payload_fits(
    primary: Seq<u8>,
    previous: Seq<u8>,
    opus: bool,
    audio: bool,
)
    requires
        redundancy_fits(opus, audio, primary.len(), previous.len()),
    ensures
        primary.len() <= u16::MAX,
        redundant_payload(primary, previous).len() <= MAX_MEDIA_PAYLOAD,
{
}

/// While a stream stays in DTX, receivers keep hearing that it is silent: among any
/// `keepalive` frames in a row, one carries a DTX packet.
pub proof fn lemma_dtx_keepalive(silent_frames: u64, hangover: u64, keepalive: u64)
    requires
        keepalive >= 1,
        silent_frames > hangover,
        silent_frames + keepalive <= u64::MAX,
    ensures
        exists|k: u64|
            silent_frames <= k < silent_frames + keepalive && #[trigger] dtx_signal(
                k,
                hangover,
                keepalive,
                true,
            ),
{
    let n = (silent_frames - hangover - 1) as int;
    let ka = keepalive as int;
    let gap = (ka - n % ka) % ka;
    assert(0 <= n % ka < ka) by (nonlinear_arith)
        requires
            ka >= 1,
            n >= 0,
    ;
    assert(0 <= gap < ka);
    assert((n + gap) % ka == 0) by (nonlinear_arith)
        requires
            ka >= 1,
            n >= 0,
            gap == (ka - n % ka) % ka,
    {
        vstd::arithmetic::div_mod::lemma_fundamental_div_mod(n, ka);
        if n % ka == 0 {
            vstd::arithmetic::div_mod::lemma_mod_self_0(ka);
            assert(gap == 0);
        } else {
            vstd::arithmetic::div_mod::lemma_small_mod((ka - n % ka) as nat, ka as nat);
            assert(n + gap == (n / ka + 1) * ka);
            vstd::arithmetic::div_mod::lemma_mod_multiples_basic(n / ka + 1, ka);
        }
    }
    let k = (silent_frames + gap) as u64;
    assert(k - hangover - 1 == n + gap);
    assert(dtx_signal(k, hangover, keepalive, true));
}

} // verus!
