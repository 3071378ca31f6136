use vstd::prelude::*;

verus! {

/// Number of interleaved samples in one frame: 20 ms of 48 kHz stereo.
pub const FRAME_SIZE_SAMPLES: usize = 1920;

/// `n` silent samples.
pub open spec fn silence(n: nat) -> Seq<i16> {
    Seq::new(n, |i: int| 0i16)
}

/// A queue of interleaved PCM samples from which fixed-size frames are cut.
///
/// Consumed samples are not removed at once: a read position moves forward
/// and the storage is compacted from time to time.
pub struct PcmQueue {
    samples: Vec<i16>,
    pos: usize,
}

impl View for PcmQueue {
    type V = Seq<i16>;

    /// The samples that are waiting, oldest first.
    closed spec fn view(&self) -> Seq<i16> {
        self.samples@.subrange(self.pos as int, self.samples@.len() as int)
    }
}

impl PcmQueue {
    /// Internal consistency: the read position lies within the storage.
    pub closed spec fn wf(&self) -> bool {
        self.pos <= self.samples@.len()
    }

    /// Whether the storage is compacted (no consumed samples are kept).
    pub closed spec fn is_compact(&self) -> bool {
        self.pos == 0
    }

    pub fn new() -> (q: PcmQueue)
        ensures
            q.wf(),
            q@ == Seq::<i16>::empty(),
    {
        let q = PcmQueue { samples: Vec::with_capacity(FRAME_SIZE_SAMPLES * 2), pos: 0 };
        assert(q@ =~= Seq::<i16>::empty());
        q
    }

    /// Number of samples waiting.
    pub fn pending_len(&self) -> (n: usize)
        requires
            self.wf(),
        ensures
            n == self@.len(),
    {
        self.samples.len() - self.pos
    }

    /// Moves the waiting samples to the front of the storage.
    pub fn compact_pending(&mut self)
        requires
            old(self).wf(),
        ensures
            final(self).wf(),
            final(self).is_compact(),
            final(self)@ == old(self)@,
    {
        if self.pos > 0 {
            let start = self.pos;
            let len = self.samples.len();
            let n = len - start;
            let ghost waiting = self@;
            let mut i: usize = 0;
            while i < n
                invariant
                    start + n == self.samples@.len(),
                    start + n <= usize::MAX,
                    i <= n,
                    waiting == old(self)@,
                    waiting.len() == n,
                    forall|k: int| 0 <= k < i ==> self.samples@[k] == waiting[k],
                    forall|k: int| start + i <= k < start + n ==> self.samples@[k] == waiting[k - start],
                    self.pos == start,
                    start > 0,
                decreases n - i,
            {
                let v = self.samples[start + i];
                self.samples.set(i, v);
                i = i + 1;
            }
            self.samples.truncate(n);
            self.pos = 0;
            assert(self@ =~= waiting);
        }
    }

    /// Appends samples behind the waiting ones.
    pub fn extend(&mut self, chunk: &[i16])
        requires
            old(self).wf(),
        ensures
            final(self).wf(),
            final(self)@ == old(self)@ + chunk@,
    {
        self.compact_pending();
        let ghost before = self.samples@;
        let mut i: usize = 0;
        while i < chunk.len()
            invariant
                self.wf(),
                self.pos == 0,
                i <= chunk@.len(),
                self.samples@ == before + chunk@.subrange(0, i as int),
            decreases chunk@.len() - i,
        {
            self.samples.push(chunk[i]);
            i = i + 1;
            assert(self.samples@ =~= before + chunk@.subrange(0, i as int));
        }
        assert(chunk@.subrange(0, chunk@.len() as int) =~= chunk@);
        assert(self@ =~= self.samples@);
    }

    /// Drops every waiting sample.
    pub fn clear(&mut self)
        ensures
            final(self).wf(),
            final(self)@ == Seq::<i16>::empty(),
    {
        self.samples.clear();
        self.pos = 0;
        assert(self@ =~= Seq::<i16>::empty());
    }

    /// Cuts the oldest full frame off the queue.
    pub fn take_frame(&mut self) -> (frame: Vec<i16>)
        requires
            old(self).wf(),
            old(self)@.len() >= FRAME_SIZE_SAMPLES,
        ensures
            final(self).wf(),
            frame@ == old(self)@.take(FRAME_SIZE_SAMPLES as int),
            final(self)@ == old(self)@.skip(FRAME_SIZE_SAMPLES as int),
    {
        let len = self.samples.len();
        assert(self.pos + FRAME_SIZE_SAMPLES <= len);
        let end = self.pos + FRAME_SIZE_SAMPLES;
        let mut frame: Vec<i16> = Vec::with_capacity(FRAME_SIZE_SAMPLES);
        let mut i: usize = self.pos;
        while i < end
            invariant
                self.wf(),
                self.pos <= i <= end,
                end == self.pos + FRAME_SIZE_SAMPLES,
                end <= self.samples@.len(),
                frame@ == self.samples@.subrange(self.pos as int, i as int),
                self@ == old(self)@,
            decreases end - i,
        {
            frame.push(self.samples[i]);
            i = i + 1;
            assert(frame@ =~= self.samples@.subrange(self.pos as int, i as int));
        }
        self.pos = end;
        assert(frame@ =~= old(self)@.take(FRAME_SIZE_SAMPLES as int));
        assert(self@ =~= old(self)@.skip(FRAME_SIZE_SAMPLES as int));
        if self.pos > self.samples.len() / 2 {
            self.compact_pending();
        }
        frame
    }

    /// Empties the queue into one frame, filled up with silence.
    pub fn take_padded_frame(&mut self) -> (frame: Vec<i16>)
        requires
            old(self).wf(),
            old(self)@.len() <= FRAME_SIZE_SAMPLES,
        ensures
            final(self).wf(),
            frame@ == old(self)@ + silence((FRAME_SIZE_SAMPLES - old(self)@.len()) as nat),
            final(self)@ == Seq::<i16>::empty(),
    {
        self.compact_pending();
        let remaining = self.samples.len();
        let mut frame: Vec<i16> = Vec::with_capacity(FRAME_SIZE_SAMPLES);
        let mut i: usize = 0;
        while i < remaining
            invariant
                self.wf(),
                self.pos == 0,
                remaining == self.samples@.len(),
                i <= remaining,
                frame@ == self.samples@.subrange(0, i as int),
            decreases remaining - i,
        {
            frame.push(self.samples[i]);
            i = i + 1;
            assert(frame@ =~= self.samples@.subrange(0, i as int));
        }
        let ghost taken = frame@;
        assert(taken =~= old(self)@);
        while frame.len() < FRAME_SIZE_SAMPLES
            invariant
                remaining <= frame@.len() <= FRAME_SIZE_SAMPLES,
                frame@ == taken + silence((frame@.len() - remaining) as nat),
                taken.len() == remaining,
            decreases FRAME_SIZE_SAMPLES - frame@.len(),
        {
            frame.push(0);
            assert(frame@ =~= taken + silence((frame@.len() - remaining) as nat));
        }
        self.clear();
        frame
    }
}

/// Two frames cut one after the other are the first two frames' worth of the waiting
/// samples, in order.
pub proof fn law_consecutive_frames_concatenate(waiting: Seq<i16>)
    requires
        waiting.len() >= 2 * FRAME_SIZE_SAMPLES,
    ensures
        waiting.take(FRAME_SIZE_SAMPLES as int) + waiting.skip(FRAME_SIZE_SAMPLES as int).take(FRAME_SIZE_SAMPLES as int)
            == waiting.take(2 * FRAME_SIZE_SAMPLES),
{
    assert(waiting.take(FRAME_SIZE_SAMPLES as int) + waiting.skip(FRAME_SIZE_SAMPLES as int).take(FRAME_SIZE_SAMPLES as int)
        =~= waiting.take(2 * FRAME_SIZE_SAMPLES));
}

/// Cutting a frame loses and adds nothing: the frame followed by what stays is what
/// was waiting.
pub proof fn law_frame_and_rest_rebuild_queue(waiting: Seq<i16>)
    requires
        waiting.len() >= FRAME_SIZE_SAMPLES,
    ensures
        waiting.take(FRAME_SIZE_SAMPLES as int) + waiting.skip(FRAME_SIZE_SAMPLES as int) == waiting,
{
    assert(waiting.take(FRAME_SIZE_SAMPLES as int) + waiting.skip(FRAME_SIZE_SAMPLES as int) =~= waiting);
}

} // verus!
