use vstd::prelude::*;

verus! {

/// Number of whole frames in an interleaved block of `len` samples.
pub open spec fn frame_count(len: nat, channels: nat) -> int {
    len as int / channels as int
}

/// The sample of channel `c` at frame `f` of the interleaved block `input`, where frame -1
/// is the last frame of the previous block (`last`) and frames past the end repeat the
/// block's last frame.
pub open spec fn history_sample(input: Seq<i16>, last: Seq<i16>, channels: nat, f: int, c: int) -> i16 {
    let frames = frame_count(input.len(), channels);
    if f < 0 {
        last[c]
    } else if f < frames {
        input[f * channels + c]
    } else {
        input[(frames - 1) * channels + c]
    }
}

proof fn lemma_sample_index(f: int, c: int, channels: int, len: int)
    by (nonlinear_arith)
    requires
        channels > 0,
        0 <= c < channels,
        0 <= f < len / channels,
        len >= 0,
    ensures
        0 <= f * channels + c < len,
        0 <= f * channels,
        f * channels + channels <= len,
{
}

/// The sample of channel `c` at frame `f` of `input`, for `f` within the block.
fn sample_of(input: &[i16], channels: usize, f: usize, c: usize) -> (s: i16)
    requires
        channels > 0,
        c < channels,
        f < frame_count(input@.len(), channels as nat),
    ensures
        s == input@[f * channels + c],
{
    let len = input.len();
    proof {
        lemma_sample_index(f as int, c as int, channels as int, len as int);
    }
    input[f * channels + c]
}

/// The two samples of channel `c` that linear interpolation at frame `idx` blends:
/// those of frames `idx - 1` and `idx`.
pub fn linear_neighbours(input: &[i16], last_samples: &[i16], channels: usize, idx: usize, c: usize) -> (r: (i16, i16))
    requires
        channels > 0,
        c < channels,
        last_samples@.len() == channels,
        idx < frame_count(input@.len(), channels as nat),
    ensures
        r.0 == history_sample(input@, last_samples@, channels as nat, idx - 1, c as int),
        r.1 == history_sample(input@, last_samples@, channels as nat, idx as int, c as int),
{
    let num_frames = input.len() / channels;
    let s1 = if idx == 0 {
        last_samples[c]
    } else {
        sample_of(input, channels, idx - 1, c)
    };
    let s2 = if idx < num_frames {
        sample_of(input, channels, idx, c)
    } else {
        sample_of(input, channels, num_frames - 1, c)
    };
    (s1, s2)
}

/// The four samples of channel `c` that cubic Hermite interpolation at frame `idx` uses:
/// those of frames `idx - 1` to `idx + 2`.
pub fn hermite_neighbours(input: &[i16], last_samples: &[i16], channels: usize, idx: usize, c: usize)
    -> (r: (i16, i16, i16, i16))
    requires
        channels > 0,
        c < channels,
        last_samples@.len() == channels,
        idx < frame_count(input@.len(), channels as nat),
    ensures
        r.0 == history_sample(input@, last_samples@, channels as nat, idx - 1, c as int),
        r.1 == history_sample(input@, last_samples@, channels as nat, idx as int, c as int),
        r.2 == history_sample(input@, last_samples@, channels as nat, idx + 1, c as int),
        r.3 == history_sample(input@, last_samples@, channels as nat, idx + 2, c as int),
{
    let num_frames = input.len() / channels;
    let p0 = if idx == 0 {
        last_samples[c]
    } else {
        sample_of(input, channels, idx - 1, c)
    };
    let p1 = sample_of(input, channels, idx, c);
    let p2 = if num_frames - idx > 1 {
        sample_of(input, channels, idx + 1, c)
    } else {
        sample_of(input, channels, num_frames - 1, c)
    };
    let p3 = if num_frames - idx > 2 {
        sample_of(input, channels, idx + 2, c)
    } else {
        sample_of(input, channels, num_frames - 1, c)
    };
    (p0, p1, p2, p3)
}

/// Keeps the last frame of `input` as the history for the next block; a block without a
/// whole frame leaves the history as it was.
pub fn remember_last_frame(last_samples: &mut [i16], input: &[i16], channels: usize)
    requires
        channels > 0,
        old(last_samples)@.len() == channels,
    ensures
        frame_count(input@.len(), channels as nat) == 0 ==> final(last_samples)@ == old(last_samples)@,
        frame_count(input@.len(), channels as nat) > 0 ==> final(last_samples)@ == input@.subrange(
            (frame_count(input@.len(), channels as nat) - 1) * channels,
            (frame_count(input@.len(), channels as nat)) * channels,
        ),
{
    let len = input.len();
    let num_frames = len / channels;
    if num_frames > 0 {
        proof {
            lemma_sample_index((num_frames - 1) as int, 0, channels as int, input@.len() as int);
        }
        let base = (num_frames - 1) * channels;
        let mut c: usize = 0;
        while c < channels
            invariant
                last_samples@.len() == channels,
                c <= channels,
                base + channels <= input@.len(),
                input@.len() == len,
                base == (num_frames - 1) * channels,
                num_frames == frame_count(input@.len(), channels as nat),
                num_frames > 0,
                forall|k: int| 0 <= k < c ==> last_samples@[k] == input@[base + k],
            decreases channels - c,
        {
            last_samples[c] = input[base + c];
            c = c + 1;
        }
        assert(last_samples@ =~= input@.subrange(base as int, base + channels));
        assert(base + channels == num_frames * channels) by (nonlinear_arith)
            requires base == (num_frames - 1) * channels, num_frames > 0;
    }
}

/// The history kept at the end of one block makes frame -1 of the next block the last
/// frame of that block, so interpolation runs on across block boundaries.
pub proof fn law_history_carries_over(prev: Seq<i16>, last: Seq<i16>, next: Seq<i16>, channels: nat, c: int)
    requires
        channels > 0,
        0 <= c < channels,
        frame_count(prev.len(), channels) > 0,
    ensures
        history_sample(
            next,
            prev.subrange((frame_count(prev.len(), channels) - 1) * channels, frame_count(prev.len(), channels) * channels),
            channels,
            -1,
            c,
        ) == history_sample(prev, last, channels, frame_count(prev.len(), channels) - 1, c),
{
    let n = frame_count(prev.len(), channels);
    lemma_sample_index(n - 1, c, channels as int, prev.len() as int);
    assert((n - 1) * channels + channels == n * channels) by (nonlinear_arith)
        requires n > 0;
}

/// Position, counted from the oldest, of the sample in ring slot `j` when the oldest
/// sample sits in slot `head`.
pub open spec fn slot_age(j: int, head: int, taps: int) -> int {
    if j >= head {
        j - head
    } else {
        j + taps - head
    }
}

/// `n` silent samples.
pub open spec fn zeros(n: nat) -> Seq<i16> {
    Seq::new(n, |i: int| 0i16)
}

proof fn lemma_push_keeps_ring(ring: Seq<i16>, old_h: Seq<i16>, v: i16, head: int, taps: int)
    requires
        taps > 0,
        0 <= head < taps,
        ring.len() == 2 * taps,
        old_h.len() == taps,
        forall|j: int| 0 <= j < taps && j != head ==> {
            &&& #[trigger] ring[j] == old_h[slot_age(j, head, taps)]
            &&& ring[j + taps] == old_h[slot_age(j, head, taps)]
        },
        ring[head] == v,
        ring[head + taps] == v,
    ensures
        old_h.skip(1).push(v).len() == taps,
        forall|j: int| 0 <= j < taps ==> {
            &&& #[trigger] ring[j] == old_h.skip(1).push(v)[slot_age(j, if head + 1 == taps { 0 } else { head + 1 }, taps)]
            &&& ring[j + taps] == old_h.skip(1).push(v)[slot_age(j, if head + 1 == taps { 0 } else { head + 1 }, taps)]
        },
{
    let nh = if head + 1 == taps { 0 } else { head + 1 };
    let nw = old_h.skip(1).push(v);
    assert forall|j: int| 0 <= j < taps implies {
        &&& #[trigger] ring[j] == nw[slot_age(j, nh, taps)]
        &&& ring[j + taps] == nw[slot_age(j, nh, taps)]
    } by {
        if j == head {
            assert(slot_age(j, nh, taps) == taps - 1);
        } else {
            let a = slot_age(j, head, taps);
            assert(slot_age(j, nh, taps) == a - 1);
            assert(ring[j] == old_h[a]);
        }
    }
}

/// The last `taps` samples of each channel, kept so that they can be read as one
/// contiguous window: every ring holds its samples twice in a row.
pub struct SincHistory {
    taps: usize,
    head: usize,
    rings: Vec<Vec<i16>>,
    history: Ghost<Seq<Seq<i16>>>,
}

impl View for SincHistory {
    type V = Seq<Seq<i16>>;

    /// For each channel, its last `taps` samples, oldest first.
    closed spec fn view(&self) -> Seq<Seq<i16>> {
        self.history@
    }
}

impl SincHistory {
    pub closed spec fn wf(&self) -> bool {
        &&& self.taps > 0
        &&& 2 * self.taps <= usize::MAX
        &&& self.head < self.taps
        &&& self.rings@.len() == self.history@.len()
        &&& forall|c: int| 0 <= c < self.rings@.len() ==> {
            &&& (#[trigger] self.rings@[c])@.len() == 2 * self.taps
            &&& self.history@[c].len() == self.taps
            &&& forall|j: int| 0 <= j < self.taps ==> {
                &&& #[trigger] self.rings@[c]@[j] == self.history@[c][slot_age(j, self.head as int, self.taps as int)]
                &&& self.rings@[c]@[j + self.taps] == self.history@[c][slot_age(j, self.head as int, self.taps as int)]
            }
        }
    }

    /// Length of each channel's window.
    pub closed spec fn taps(&self) -> nat {
        self.taps as nat
    }

    /// A silent history of `taps` samples for each of `channels` channels.
    pub fn new(channels: usize, taps: usize) -> (h: SincHistory)
        requires
            taps > 0,
            2 * taps <= usize::MAX,
        ensures
            h.wf(),
            h.taps() == taps,
            h@ == Seq::new(channels as nat, |c: int| zeros(taps as nat)),
    {
        let mut rings: Vec<Vec<i16>> = Vec::new();
        let mut c: usize = 0;
        while c < channels
            invariant
                c <= channels,
                2 * taps <= usize::MAX,
                rings@.len() == c,
                forall|k: int| 0 <= k < c ==> (#[trigger] rings@[k])@ == zeros((2 * taps) as nat),
            decreases channels - c,
        {
            let mut ring: Vec<i16> = Vec::new();
            ring.resize(2 * taps, 0);
            assert(ring@ =~= zeros((2 * taps) as nat));
            rings.push(ring);
            c = c + 1;
        }
        let h = SincHistory {
            taps,
            head: 0,
            rings,
            history: Ghost(Seq::new(channels as nat, |c: int| zeros(taps as nat))),
        };
        assert(h@ =~= Seq::new(channels as nat, |c: int| zeros(taps as nat)));
        h
    }

    /// Number of channels.
    pub fn channels(&self) -> (n: usize)
        requires
            self.wf(),
        ensures
            n == self@.len(),
    {
        self.rings.len()
    }

    /// Sample `i` of the window of channel `c`, oldest first.
    pub fn window_sample(&self, c: usize, i: usize) -> (s: i16)
        requires
            self.wf(),
            c < self@.len(),
            i < self.taps(),
        ensures
            s == self@[c as int][i as int],
    {
        let ring = &self.rings[c];
        assert(ring@.len() == 2 * self.taps);
        let j = self.head + i;
        proof {
            if j < self.taps {
                assert(slot_age(j as int, self.head as int, self.taps as int) == i);
            } else {
                let k = j - self.taps;
                assert(ring@[k] == self@[c as int][slot_age(k, self.head as int, self.taps as int)]);
                assert(ring@[k + self.taps] == self@[c as int][slot_age(k, self.head as int, self.taps as int)]);
            }
        }
        ring[j]
    }

    /// Takes in one frame of `input`: each channel's window drops its oldest sample and
    /// ends with the frame's sample.
    pub fn push_frame(&mut self, input: &[i16], frame: usize)
        requires
            old(self).wf(),
            old(self)@.len() > 0,
            frame < frame_count(input@.len(), old(self)@.len()),
        ensures
            final(self).wf(),
            final(self).taps() == old(self).taps(),
            final(self)@.len() == old(self)@.len(),
            forall|c: int| 0 <= c < old(self)@.len() ==> #[trigger] final(self)@[c]
                == old(self)@[c].skip(1).push(input@[frame * old(self)@.len() + c]),
    {
        let channels = self.rings.len();
        let taps = self.taps;
        let head = self.head;
        let ghost old_hist = self.history@;
        let ghost new_hist = Seq::new(old_hist.len(), |c: int| old_hist[c].skip(1).push(input@[frame * channels + c]));
        let mut c: usize = 0;
        while c < channels
            invariant
                channels == self.rings@.len(),
                channels == old_hist.len(),
                channels > 0,
                taps == self.taps,
                head == self.head,
                taps > 0,
                2 * taps <= usize::MAX,
                head < taps,
                self.history@ == old_hist,
                frame < frame_count(input@.len(), channels as nat),
                new_hist == Seq::new(old_hist.len(), |c: int| old_hist[c].skip(1).push(input@[frame * channels + c])),
                c <= channels,
                forall|k: int| 0 <= k < channels ==> (#[trigger] self.rings@[k])@.len() == 2 * taps && old_hist[k].len() == taps,
                forall|k: int, j: int| 0 <= k < channels && 0 <= j < taps && !(k < c && j == head) ==> {
                    &&& #[trigger] self.rings@[k]@[j] == old_hist[k][slot_age(j, head as int, taps as int)]
                    &&& self.rings@[k]@[j + taps] == old_hist[k][slot_age(j, head as int, taps as int)]
                },
                forall|k: int| 0 <= k < c ==> {
                    &&& #[trigger] self.rings@[k]@[head as int] == input@[frame * channels + k]
                    &&& self.rings@[k]@[head + taps] == input@[frame * channels + k]
                },
            decreases channels - c,
        {
            let v = sample_of(input, channels, frame, c);
            let ghost rings_before = self.rings@;
            let ring = &mut self.rings[c];
            ring.set(head, v);
            ring.set(head + taps, v);
            proof {
                assert forall|k: int| 0 <= k < channels && k != c implies #[trigger] self.rings@[k] == rings_before[k] by {}
            }
            c = c + 1;
        }
        self.head = if head + 1 == taps { 0 } else { head + 1 };
        self.history = Ghost(new_hist);
        proof {
            let nh = self.head as int;
            assert forall|k: int| 0 <= k < self.rings@.len() implies {
                &&& (#[trigger] self.rings@[k])@.len() == 2 * self.taps
                &&& self.history@[k].len() == self.taps
                &&& forall|j: int| 0 <= j < self.taps ==> {
                    &&& #[trigger] self.rings@[k]@[j] == self.history@[k][slot_age(j, nh, self.taps as int)]
                    &&& self.rings@[k]@[j + self.taps] == self.history@[k][slot_age(j, nh, self.taps as int)]
                }
            } by {
                lemma_sample_index(frame as int, k, channels as int, input@.len() as int);
                assert(self.rings@[k]@.len() == 2 * taps);
                assert(self.history@[k] == old_hist[k].skip(1).push(input@[frame * channels + k]));
                assert forall|j: int| 0 <= j < taps && j != head implies {
                    &&& #[trigger] self.rings@[k]@[j] == old_hist[k][slot_age(j, head as int, taps as int)]
                    &&& self.rings@[k]@[j + taps] == old_hist[k][slot_age(j, head as int, taps as int)]
                } by {
                    assert(!(k < c && j == head));
                }
                assert(self.rings@[k]@[head as int] == input@[frame * channels + k]);
                lemma_push_keeps_ring(self.rings@[k]@, old_hist[k], input@[frame * channels + k], head as int, taps as int);
            }
            assert(self.head < self.taps);
            assert(self.history@.len() == self.rings@.len());
            assert(self.wf());
        }
    }

    /// Silences every window.
    pub fn reset(&mut self)
        requires
            old(self).wf(),
        ensures
            final(self).wf(),
            final(self).taps() == old(self).taps(),
            final(self)@ == Seq::new(old(self)@.len(), |c: int| zeros(old(self).taps())),
    {
        let channels = self.rings.len();
        let taps = self.taps;
        let mut c: usize = 0;
        while c < channels
            invariant
                channels == self.rings@.len(),
                taps == self.taps,
                taps > 0,
                2 * taps <= usize::MAX,
                c <= channels,
                forall|k: int| 0 <= k < channels ==> (#[trigger] self.rings@[k])@.len() == 2 * taps,
                forall|k: int| 0 <= k < c ==> (#[trigger] self.rings@[k])@ == zeros((2 * taps) as nat),
            decreases channels - c,
        {
            let ghost rings_before = self.rings@;
            let ring = &mut self.rings[c];
            let mut j: usize = 0;
            while j < 2 * taps
                invariant
                    ring@.len() == 2 * taps,
                    2 * taps <= usize::MAX,
                    j <= 2 * taps,
                    forall|i: int| 0 <= i < j ==> ring@[i] == 0,
                decreases 2 * taps - j,
            {
                ring.set(j, 0);
                j = j + 1;
            }
            assert(ring@ =~= zeros((2 * taps) as nat));
            proof {
                assert forall|k: int| 0 <= k < channels && k != c implies #[trigger] self.rings@[k] == rings_before[k] by {}
            }
            c = c + 1;
        }
        self.head = 0;
        self.history = Ghost(Seq::new(channels as nat, |c: int| zeros(taps as nat)));
    }
}

} // verus!
