use vstd::prelude::*;

verus! {

/// Number of interleaved channels the mixer works with.
pub const MIXER_CHANNELS: usize = 2;

/// A sum of samples clamped to the range of a 16-bit sample.
pub open spec fn clamp_spec(x: int) -> int {
    if x < -32768 {
        -32768
    } else if x > 32767 {
        32767
    } else {
        x
    }
}

/// Clamps a mixed sample to the range of a 16-bit sample.
pub fn clamp_sample(sum: i32) -> (out: i16)
    ensures
        out as int == clamp_spec(sum as int),
{
    if sum < -32768 {
        -32768
    } else if sum > 32767 {
        32767
    } else {
        sum as i16
    }
}

/// Sample `i` of `s`, and silence past its end.
pub open spec fn sample_at(s: Seq<i16>, i: int) -> int {
    if 0 <= i < s.len() {
        s[i] as int
    } else {
        0
    }
}

/// The unclamped sum at position `i` of several sample streams.
pub open spec fn mix_sum(parts: Seq<Seq<i16>>, i: int) -> int
    decreases parts.len(),
{
    if parts.len() == 0 {
        0
    } else {
        mix_sum(parts.drop_last(), i) + sample_at(parts.last(), i)
    }
}

pub proof fn lemma_mix_sum_push(parts: Seq<Seq<i16>>, s: Seq<i16>, i: int)
    ensures
        mix_sum(parts.push(s), i) == mix_sum(parts, i) + sample_at(s, i),
{
    assert(parts.push(s).drop_last() =~= parts);
}

pub proof fn lemma_mix_sum_bounds(parts: Seq<Seq<i16>>, i: int)
    ensures
        -32768 * parts.len() <= mix_sum(parts, i) <= 32767 * parts.len(),
    decreases parts.len(),
{
    if parts.len() > 0 {
        lemma_mix_sum_bounds(parts.drop_last(), i);
    }
}

/// Stereo frames by which playing `filled` samples moves a position on.
pub open spec fn frames_step(filled: nat) -> int {
    if filled > 0 { filled as int / MIXER_CHANNELS as int } else { 0 }
}

/// Stereo frames by which playing `filled` samples moves a position on.
pub open spec fn frames_step_usize(filled: usize) -> int {
    frames_step(filled as nat)
}

/// Stereo frames in one passthrough packet.
pub open spec fn passthrough_step() -> int {
    crate::pcm::FRAME_SIZE_SAMPLES as int / MIXER_CHANNELS as int
}

/// Number of stereo frames in `samples` interleaved samples.
pub fn sample_frames(samples: usize) -> (frames: u64)
    ensures
        frames == samples / MIXER_CHANNELS,
{
    (samples / MIXER_CHANNELS) as u64
}

/// Mixing a single stream reproduces it: every sample of a 16-bit stream survives the
/// clamp unchanged, and silence follows its end.
pub proof fn law_single_stream_mix_is_copy(s: Seq<i16>, i: int)
    ensures
        clamp_spec(mix_sum(seq![s], i)) == sample_at(s, i),
{
    lemma_mix_sum_push(Seq::<Seq<i16>>::empty(), s, i);
    assert(Seq::<Seq<i16>>::empty().push(s) =~= seq![s]);
}

/// The order in which two streams are mixed does not matter.
pub proof fn law_mix_order_irrelevant(parts: Seq<Seq<i16>>, a: Seq<i16>, b: Seq<i16>, i: int)
    ensures
        mix_sum(parts.push(a).push(b), i) == mix_sum(parts.push(b).push(a), i),
{
    lemma_mix_sum_push(parts, a, i);
    lemma_mix_sum_push(parts.push(a), b, i);
    lemma_mix_sum_push(parts, b, i);
    lemma_mix_sum_push(parts.push(b), a, i);
}

/// A silent stream leaves a mix unchanged.
pub proof fn law_silence_is_neutral(parts: Seq<Seq<i16>>, i: int)
    ensures
        mix_sum(parts.push(Seq::<i16>::empty()), i) == mix_sum(parts, i),
{
    lemma_mix_sum_push(parts, Seq::<i16>::empty(), i);
}

/// Clamping keeps a sum that fits in 16 bits and saturates any other at the nearer
/// bound.
pub proof fn law_clamp_saturates(x: int)
    ensures
        -32768 <= x <= 32767 ==> clamp_spec(x) == x,
        x > 32767 ==> clamp_spec(x) == 32767,
        x < -32768 ==> clamp_spec(x) == -32768,
        -32768 <= clamp_spec(x) <= 32767,
{
}

} // verus!
