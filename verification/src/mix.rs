use vstd::prelude::*;
use std::sync::Arc;
use std::sync::atomic::{AtomicBool, AtomicU64, Ordering};
use crate::flow::{FlowController, OpusDecoder, packet_view, extends};
use crate::pcm::FRAME_SIZE_SAMPLES;
use crate::samples::{clamp_spec, clamp_sample, sample_at, mix_sum, lemma_mix_sum_bounds, lemma_mix_sum_push,
    law_single_stream_mix_is_copy, sample_frames, MIXER_CHANNELS, frames_step, frames_step_usize,
    passthrough_step};

verus! {

/// A track of the mixer: a flow controller, the part of its last frame that did not fit
/// into the previous output buffer, and the shared counters that report its progress.
pub(crate) struct MixerTrack<D> {
    flow: FlowController<D>,
    pending: Vec<i16>,
    pending_pos: usize,
    position: Arc<AtomicU64>,
    is_buffering: Arc<AtomicBool>,
    finished: bool,
    frames_reported: Ghost<int>,
    buffering_reported: Ghost<Option<bool>>,
}

impl<D: OpusDecoder> MixerTrack<D> {
    pub closed spec fn wf(&self) -> bool {
        &&& self.flow.wf()
        &&& self.pending_pos <= self.pending@.len()
        &&& (self.pending_pos < self.pending@.len() || self.pending@.len() == 0)
    }

    /// The samples of the last frame that are still to be played.
    pub closed spec fn leftover(&self) -> Seq<i16> {
        self.pending@.subrange(self.pending_pos as int, self.pending@.len() as int)
    }

    /// The Opus packet the track's flow keeps for passthrough.
    pub closed spec fn latest_opus(&self) -> Option<Seq<u8>> {
        self.flow.latest_opus()
    }

    /// Whether the track's decoder has finished and every sample was handed out.
    pub closed spec fn finished(&self) -> bool {
        self.finished
    }

    /// Every sample the track's flow has handed out, in order.
    pub closed spec fn handed_out(&self) -> Seq<i16> {
        self.flow.handed_out()
    }

    /// The samples waiting in the track's flow.
    pub closed spec fn flow_pending(&self) -> Seq<i16> {
        self.flow.pending()
    }

    /// Whether the track's decoder has hung up.
    pub closed spec fn flow_done(&self) -> bool {
        self.flow.decoder_done()
    }

    /// The stereo frames this track has handed to `fetch_add` on its shared position so
    /// far. The position itself is shared with other threads, so its value is not
    /// followed.
    pub closed spec fn frames_reported(&self) -> int {
        self.frames_reported@
    }

    /// The value this track last handed to `store` on its shared buffering flag, if any.
    pub closed spec fn buffering_reported(&self) -> Option<bool> {
        self.buffering_reported@
    }

    pub(crate) fn new(flow: FlowController<D>, position: Arc<AtomicU64>, is_buffering: Arc<AtomicBool>) -> (t: Self)
        requires
            flow.wf(),
        ensures
            t.wf(),
            t.leftover() == Seq::<i16>::empty(),
            !t.finished(),
            t.handed_out() == flow.handed_out(),
            t.frames_reported() == 0,
            t.buffering_reported() == Option::<bool>::None,
            t.flow_pending() == flow.pending(),
            t.flow_done() == flow.decoder_done(),
    {
        let t = MixerTrack {
            flow,
            pending: Vec::new(),
            pending_pos: 0,
            position,
            is_buffering,
            finished: false,
            frames_reported: Ghost(0),
            buffering_reported: Ghost(None),
        };
        assert(t.leftover() =~= Seq::<i16>::empty());
        t
    }

    /// Takes up to `want` samples: first the leftover of the last frame, then new frames
    /// from the flow, until `want` samples are there, the flow has nothing ready or the
    /// stream has finished. What does not fit of the last frame is kept.
    pub(crate) fn pull_samples(&mut self, want: usize) -> (r: (Vec<i16>, Ghost<Seq<i16>>))
        requires
            old(self).wf(),
        ensures
            final(self).wf(),
            r.0@.len() <= want,
            r.0@ + final(self).leftover() == old(self).leftover() + r.1@,
            r.0@.len() < want ==> final(self).leftover().len() == 0,
            old(self).finished() ==> final(self).finished() && r.1@ == Seq::<i16>::empty(),
            final(self).handed_out() == old(self).handed_out() + r.1@,
            r.0@.len() < want ==> final(self).finished()
                || (!final(self).flow_done() && final(self).flow_pending().len() < FRAME_SIZE_SAMPLES),
            final(self).frames_reported() == old(self).frames_reported(),
            final(self).buffering_reported() == old(self).buffering_reported(),
    {
        let mut out: Vec<i16> = Vec::new();
        let ghost start = self.leftover();
        if self.pending_pos < self.pending.len() {
            let avail = self.pending.len() - self.pending_pos;
            let n = if want < avail { want } else { avail };
            let mut i: usize = 0;
            while i < n
                invariant
                    self.wf(),
                    self.leftover() == start,
                    self.flow == old(self).flow,
                    self.frames_reported == old(self).frames_reported,
                    self.buffering_reported == old(self).buffering_reported,
                    self.finished == old(self).finished,
                    n <= avail,
                    avail == self.pending@.len() - self.pending_pos,
                    self.pending@.len() <= usize::MAX,
                    i <= n,
                    out@ == start.take(i as int),
                decreases n - i,
            {
                out.push(self.pending[self.pending_pos + i]);
                i = i + 1;
                assert(out@ =~= start.take(i as int));
            }
            self.pending_pos = self.pending_pos + n;
            if self.pending_pos >= self.pending.len() {
                self.pending.clear();
                self.pending_pos = 0;
            }
            assert(out@ + self.leftover() =~= start);
        } else {
            assert(out@ + self.leftover() =~= start);
        }
        let ghost mut popped: Seq<i16> = Seq::empty();
        assert(start + popped =~= start);
        assert(old(self).flow.handed_out() + popped =~= old(self).flow.handed_out());
        while out.len() < want && !self.finished
            invariant
                self.wf(),
                out@.len() <= want,
                out@ + self.leftover() == start + popped,
                out@.len() < want ==> self.leftover().len() == 0,
                old(self).finished() ==> self.finished() && popped == Seq::<i16>::empty() && self.flow == old(self).flow,
                self.flow.handed_out() == old(self).flow.handed_out() + popped,
                self.frames_reported == old(self).frames_reported,
                self.buffering_reported == old(self).buffering_reported,
            ensures
                self.wf(),
                out@.len() <= want,
                out@ + self.leftover() == start + popped,
                out@.len() < want ==> self.leftover().len() == 0,
                old(self).finished() ==> self.finished() && popped == Seq::<i16>::empty() && self.flow == old(self).flow,
                self.flow.handed_out() == old(self).flow.handed_out() + popped,
                self.frames_reported == old(self).frames_reported,
                self.buffering_reported == old(self).buffering_reported,
                out@.len() < want ==> self.finished()
                    || (!self.flow.decoder_done() && self.flow.pending().len() < FRAME_SIZE_SAMPLES),
            decreases want - out@.len(),
        {
            match self.flow.try_pop_frame() {
                Ok(Some(frame)) => {
                    let room = want - out.len();
                    let n = if frame.len() < room { frame.len() } else { room };
                    let ghost before = out@;
                    let mut i: usize = 0;
                    while i < n
                        invariant
                            n <= frame@.len(),
                            i <= n,
                            out@ == before + frame@.take(i as int),
                            before.len() + n <= want,
                        decreases n - i,
                    {
                        out.push(frame[i]);
                        i = i + 1;
                        assert(out@ =~= before + frame@.take(i as int));
                    }
                    let ghost handed_now = self.flow.handed_out();
                    if n < frame.len() {
                        assert(self.pending@.len() == 0);
                        let rest = frame.len() - n;
                        let mut j: usize = 0;
                        while j < rest
                            invariant
                                n + rest == frame@.len(),
                                frame@.len() <= usize::MAX,
                                j <= rest,
                                self.pending@ == frame@.subrange(n as int, n + j),
                                self.pending_pos == 0,
                                self.flow.wf(),
                                self.flow.handed_out() == handed_now,
                                self.frames_reported == old(self).frames_reported,
                                self.buffering_reported == old(self).buffering_reported,
                                old(self).finished() ==> self.flow == old(self).flow,
                                self.finished == false,
                            decreases rest - j,
                        {
                            self.pending.push(frame[n + j]);
                            j = j + 1;
                            assert(self.pending@ =~= frame@.subrange(n as int, n + j));
                        }
                        self.pending_pos = 0;
                    }
                    proof {
                        assert(out@ + self.leftover() =~= before + frame@);
                        assert(handed_now == old(self).flow.handed_out() + popped + frame@);
                        assert(old(self).flow.handed_out() + popped + frame@ =~= old(self).flow.handed_out() + (popped + frame@));
                        popped = popped + frame@;
                        assert(start + popped =~= (start + (popped.take(popped.len() - frame@.len()))) + frame@);
                    }
                },
                Ok(None) => {
                    assert(self.flow.handed_out() =~= old(self).flow.handed_out() + popped);
                    break;
                },
                Err(_) => {
                    assert(self.flow.handed_out() =~= old(self).flow.handed_out() + popped);
                    self.finished = true;
                    break;
                },
            }
        }
        (out, Ghost(popped))
    }

    /// Reports that `filled` samples were played: the position moves on by as many stereo
    /// frames and the track no longer counts as buffering; with nothing played, a track
    /// that has not finished counts as buffering.
    fn record_progress(&mut self, filled: usize)
        ensures
            final(self).wf() == old(self).wf(),
            final(self).flow == old(self).flow,
            final(self).leftover() == old(self).leftover(),
            final(self).finished() == old(self).finished(),
            final(self).frames_reported() == old(self).frames_reported() + frames_step_usize(filled),
            final(self).buffering_reported() == if filled > 0 {
                Some(false)
            } else if !old(self).finished() {
                Some(true)
            } else {
                old(self).buffering_reported()
            },
    {
        if filled > 0 {
            self.add_to_position(sample_frames(filled));
            self.set_buffering(false);
        } else if !self.finished {
            self.set_buffering(true);
        }
    }

    /// Adds `frames` to the shared position, recording the amount handed over.
    fn add_to_position(&mut self, frames: u64)
        ensures
            final(self).flow == old(self).flow,
            final(self).pending == old(self).pending,
            final(self).pending_pos == old(self).pending_pos,
            final(self).finished == old(self).finished,
            final(self).buffering_reported == old(self).buffering_reported,
            final(self).frames_reported() == old(self).frames_reported() + frames,
    {
        self.position.fetch_add(frames, Ordering::Relaxed);
        self.frames_reported = Ghost(self.frames_reported@ + frames);
    }

    /// Stores `buffering` into the shared buffering flag, recording the value handed over.
    fn set_buffering(&mut self, buffering: bool)
        ensures
            final(self).flow == old(self).flow,
            final(self).pending == old(self).pending,
            final(self).pending_pos == old(self).pending_pos,
            final(self).finished == old(self).finished,
            final(self).frames_reported == old(self).frames_reported,
            final(self).buffering_reported() == Some(buffering),
    {
        self.is_buffering.store(buffering, Ordering::Relaxed);
        self.buffering_reported = Ghost(Some(buffering));
    }

    /// Hands out an Opus packet of the track's flow for passthrough; a packet moves the
    /// position on by one frame.
    pub(crate) fn take_opus(&mut self) -> (packet: Option<Vec<u8>>)
        requires
            old(self).wf(),
        ensures
            final(self).wf(),
            final(self).leftover() == old(self).leftover(),
            final(self).latest_opus() == Option::<Seq<u8>>::None,
            old(self).latest_opus().is_some() ==> packet_view(packet) == old(self).latest_opus(),
            final(self).finished() == old(self).finished(),
            final(self).handed_out() == old(self).handed_out(),
            final(self).buffering_reported() == old(self).buffering_reported(),
            final(self).frames_reported() == old(self).frames_reported()
                + if packet.is_some() { passthrough_step() } else { 0 },
    {
        let packet = self.flow.take_opus();
        match &packet {
            Some(_) => {
                self.add_to_position(sample_frames(FRAME_SIZE_SAMPLES));
            },
            None => {},
        }
        packet
    }

    /// Plays the track alone into `buf`: its next samples, then silence. Says whether it
    /// had any sample, and gives the samples it played and those its flow handed out.
    pub(crate) fn render(&mut self, buf: &mut [i16]) -> (r: (bool, Ghost<Seq<i16>>, Ghost<Seq<i16>>))
        requires
            old(self).wf(),
        ensures
            final(self).wf(),
            r.1@.len() <= old(buf)@.len(),
            r.1@ + final(self).leftover() == old(self).leftover() + r.2@,
            r.1@.len() < old(buf)@.len() ==> final(self).leftover().len() == 0,
            r.0 == (r.1@.len() > 0),
            final(buf)@.len() == old(buf)@.len(),
            forall|i: int| 0 <= i < final(buf)@.len() ==> #[trigger] final(buf)@[i] as int == sample_at(r.1@, i),
            final(self).handed_out() == old(self).handed_out() + r.2@,
            old(self).finished() ==> final(self).finished() && r.2@ == Seq::<i16>::empty(),
            r.1@.len() < old(buf)@.len() ==> final(self).finished()
                || (!final(self).flow_done() && final(self).flow_pending().len() < FRAME_SIZE_SAMPLES),
            final(self).frames_reported() == old(self).frames_reported() + frames_step(r.1@.len()),
            final(self).buffering_reported() == if r.1@.len() > 0 {
                Some(false)
            } else if !final(self).finished() {
                Some(true)
            } else {
                old(self).buffering_reported()
            },
    {
        let buf_len = buf.len();
        let (samples, Ghost(popped)) = self.pull_samples(buf_len);
        let filled = samples.len();
        let mut i: usize = 0;
        while i < buf_len
            invariant
                buf@.len() == buf_len,
                samples@.len() == filled,
                filled <= buf_len,
                i <= buf_len,
                forall|k: int| 0 <= k < i ==> #[trigger] buf@[k] as int == sample_at(samples@, k),
            decreases buf_len - i,
        {
            if i < filled {
                buf[i] = samples[i];
            } else {
                buf[i] = 0;
            }
            i = i + 1;
        }
        self.record_progress(filled);
        (filled > 0, Ghost(samples@), Ghost(popped))
    }

    /// Adds the track's next `out_len` samples into `mix`. Says whether it had any
    /// sample, and gives the samples it added and those its flow handed out.
    pub(crate) fn render_into_mix(&mut self, mix: &mut Vec<i32>, out_len: usize) -> (r: (bool, Ghost<Seq<i16>>, Ghost<Seq<i16>>))
        requires
            old(self).wf(),
            out_len <= old(mix)@.len(),
            forall|i: int| 0 <= i < out_len ==> -2147450880 <= #[trigger] old(mix)@[i] <= 2147450880,
        ensures
            final(self).wf(),
            r.1@.len() <= out_len,
            r.1@ + final(self).leftover() == old(self).leftover() + r.2@,
            r.1@.len() < out_len ==> final(self).leftover().len() == 0,
            r.0 == (r.1@.len() > 0),
            final(mix)@.len() == old(mix)@.len(),
            forall|i: int| 0 <= i < out_len ==> #[trigger] final(mix)@[i] == old(mix)@[i] + sample_at(r.1@, i),
            forall|i: int| out_len <= i < final(mix)@.len() ==> #[trigger] final(mix)@[i] == old(mix)@[i],
            final(self).handed_out() == old(self).handed_out() + r.2@,
            old(self).finished() ==> final(self).finished() && r.2@ == Seq::<i16>::empty(),
            r.1@.len() < out_len ==> final(self).finished()
                || (!final(self).flow_done() && final(self).flow_pending().len() < FRAME_SIZE_SAMPLES),
            final(self).frames_reported() == old(self).frames_reported() + frames_step(r.1@.len()),
            final(self).buffering_reported() == if r.1@.len() > 0 {
                Some(false)
            } else if !final(self).finished() {
                Some(true)
            } else {
                old(self).buffering_reported()
            },
    {
        let (samples, Ghost(popped)) = self.pull_samples(out_len);
        let filled = samples.len();
        let mut i: usize = 0;
        while i < filled
            invariant
                mix@.len() == old(mix)@.len(),
                samples@.len() == filled,
                filled <= out_len,
                out_len <= old(mix)@.len(),
                i <= filled,
                forall|k: int| 0 <= k < out_len ==> -2147450880 <= #[trigger] old(mix)@[k] <= 2147450880,
                forall|k: int| 0 <= k < i ==> #[trigger] mix@[k] == old(mix)@[k] + samples@[k],
                forall|k: int| i <= k < mix@.len() ==> #[trigger] mix@[k] == old(mix)@[k],
            decreases filled - i,
        {
            let v = mix[i] + samples[i] as i32;
            mix.set(i, v);
            i = i + 1;
        }
        self.record_progress(filled);
        (filled > 0, Ghost(samples@), Ghost(popped))
    }
}

/// Whether `active` lists distinct tracks among `n`, in increasing order.
pub open spec fn valid_selection(active: Seq<usize>, n: nat) -> bool {
    &&& forall|i: int| 0 <= i < active.len() ==> active[i] < n
    &&& forall|i: int, j: int| 0 <= i < j < active.len() ==> active[i] < active[j]
}

/// Whether track `i` is absent from the first `upto` entries of `active`.
pub open spec fn unselected(active: Seq<usize>, upto: int, i: int) -> bool {
    forall|u: int| 0 <= u < upto ==> active[u] as int != i
}

/// `out` is `parts` mixed down: the clamped sum at each position.
pub open spec fn mixed_down(out: Seq<i16>, parts: Seq<Seq<i16>>) -> bool {
    forall|i: int| 0 <= i < out.len() ==> out[i] as int == clamp_spec(#[trigger] mix_sum(parts, i))
}

/// Whether any of `parts` holds a sample.
pub open spec fn any_audio(parts: Seq<Seq<i16>>) -> bool {
    exists|t: int| 0 <= t < parts.len() && #[trigger] parts[t].len() > 0
}

/// Mixes the tracks of several players into one stream.
pub struct Mixer<D> {
    tracks: Vec<MixerTrack<D>>,
    mix_buf: Vec<i32>,
    opus_passthrough_track: Option<usize>,
}

impl<D: OpusDecoder> Mixer<D> {
    pub closed spec fn wf(&self) -> bool {
        forall|i: int| 0 <= i < self.tracks@.len() ==> #[trigger] self.tracks@[i].wf()
    }

    /// Number of tracks.
    pub closed spec fn track_count(&self) -> nat {
        self.tracks@.len()
    }

    /// The samples of the last frame of track `i` that are still to be played.
    pub closed spec fn track_leftover(&self, i: int) -> Seq<i16> {
        self.tracks@[i].leftover()
    }

    /// Every sample the flow of track `i` has handed out, in order.
    pub closed spec fn track_handed_out(&self, i: int) -> Seq<i16> {
        self.tracks@[i].handed_out()
    }

    /// Whether track `i` has finished.
    pub closed spec fn track_finished(&self, i: int) -> bool {
        self.tracks@[i].finished()
    }

    /// The samples waiting in the flow of track `i`.
    pub closed spec fn track_flow_pending(&self, i: int) -> Seq<i16> {
        self.tracks@[i].flow_pending()
    }

    /// Whether the decoder of track `i` has hung up.
    pub closed spec fn track_flow_done(&self, i: int) -> bool {
        self.tracks@[i].flow_done()
    }

    /// The stereo frames track `i` has handed to `fetch_add` on its shared position.
    pub closed spec fn track_frames_reported(&self, i: int) -> int {
        self.tracks@[i].frames_reported()
    }

    /// The value track `i` last handed to `store` on its shared buffering flag, if any.
    pub closed spec fn track_buffering_reported(&self, i: int) -> Option<bool> {
        self.tracks@[i].buffering_reported()
    }

    /// Whether track `j` is exactly track `i` of `other`.
    pub closed spec fn same_track_at(&self, other: &Self, j: int, i: int) -> bool {
        0 <= i < other.tracks@.len() && self.tracks@[j] == other.tracks@[i]
    }

    /// Whether track `i` is exactly as in `other`.
    pub closed spec fn same_track(&self, other: &Self, i: int) -> bool {
        self.tracks@[i] == other.tracks@[i]
    }

    /// The Opus packet that track `i` keeps for passthrough.
    pub closed spec fn track_latest_opus(&self, i: int) -> Option<Seq<u8>> {
        self.tracks@[i].latest_opus()
    }

    /// The track chosen for Opus passthrough.
    pub closed spec fn passthrough_track(&self) -> Option<usize> {
        self.opus_passthrough_track
    }

    pub fn new() -> (m: Self)
        ensures
            m.wf(),
            m.track_count() == 0,
            m.passthrough_track() == Option::<usize>::None,
    {
        let mut mix_buf: Vec<i32> = Vec::with_capacity(1920);
        mix_buf.resize(1920, 0);
        Mixer { tracks: Vec::new(), mix_buf, opus_passthrough_track: None }
    }

    /// Adds a track that pulls its frames from `flow` and reports its progress through
    /// `position` (in stereo frames) and `is_buffering`.
    pub fn add_track(&mut self, flow: FlowController<D>, position: Arc<AtomicU64>, is_buffering: Arc<AtomicBool>)
        requires
            old(self).wf(),
            flow.wf(),
        ensures
            final(self).wf(),
            final(self).track_count() == old(self).track_count() + 1,
            forall|i: int| 0 <= i < old(self).track_count() ==> final(self).track_leftover(i) == old(self).track_leftover(i),
            final(self).track_leftover(old(self).track_count() as int) == Seq::<i16>::empty(),
            final(self).track_handed_out(old(self).track_count() as int) == flow.handed_out(),
            final(self).track_flow_pending(old(self).track_count() as int) == flow.pending(),
            final(self).track_flow_done(old(self).track_count() as int) == flow.decoder_done(),
            !final(self).track_finished(old(self).track_count() as int),
            final(self).track_frames_reported(old(self).track_count() as int) == 0,
            final(self).track_buffering_reported(old(self).track_count() as int) == Option::<bool>::None,
            forall|i: int| 0 <= i < old(self).track_count() ==> #[trigger] final(self).same_track(&*old(self), i),
            final(self).passthrough_track() == old(self).passthrough_track(),
    {
        let track = MixerTrack::new(flow, position, is_buffering);
        self.tracks.push(track);
        assert forall|i: int| 0 <= i < self.tracks@.len() implies #[trigger] self.tracks@[i].wf() by {
            if i < old(self).tracks@.len() {
                assert(self.tracks@[i] == old(self).tracks@[i]);
            }
        }
    }

    /// Chooses the track whose Opus packets are passed through.
    pub fn set_passthrough_track(&mut self, track_index: usize)
        requires
            old(self).wf(),
        ensures
            final(self).wf(),
            final(self).passthrough_track() == Some(track_index),
            final(self).track_count() == old(self).track_count(),
            forall|i: int| 0 <= i < old(self).track_count() ==> final(self).track_leftover(i) == old(self).track_leftover(i),
    {
        self.opus_passthrough_track = Some(track_index);
    }

    /// Keeps the tracks `i` with `keep[i]` and drops the others, such as those whose
    /// playback has stopped; the tracks kept stay in their order.
    pub fn retain_tracks(&mut self, keep: &[bool])
        requires
            old(self).wf(),
            keep@.len() == old(self).track_count(),
        ensures
            final(self).wf(),
            final(self).track_count() == kept_positions(keep@).len(),
            forall|j: int| 0 <= j < final(self).track_count()
                ==> #[trigger] final(self).same_track_at(&*old(self), j, kept_positions(keep@)[j]),
            final(self).passthrough_track() == old(self).passthrough_track(),
    {
        let ghost old_tracks = self.tracks@;
        let mut i: usize = self.tracks.len();
        proof {
            assert(old_tracks.skip(i as int) =~= Seq::<MixerTrack<D>>::empty());
            assert(old_tracks.take(i as int) =~= old_tracks);
            assert(old_tracks =~= old_tracks.take(i as int) + kept_tracks(old_tracks.skip(i as int), keep@.skip(i as int)));
        }
        while i > 0
            invariant
                i <= old_tracks.len(),
                keep@.len() == old_tracks.len(),
                self.tracks@ == old_tracks.take(i as int) + kept_tracks(old_tracks.skip(i as int), keep@.skip(i as int)),
                forall|k: int| 0 <= k < old_tracks.len() ==> #[trigger] old_tracks[k].wf(),
                self.opus_passthrough_track == old(self).opus_passthrough_track,
            decreases i,
        {
            i = i - 1;
            proof {
                assert(old_tracks.skip(i as int).skip(1) =~= old_tracks.skip(i + 1));
                assert(keep@.skip(i as int).skip(1) =~= keep@.skip(i + 1));
                assert(old_tracks.skip(i as int)[0] == old_tracks[i as int]);
                assert(keep@.skip(i as int)[0] == keep@[i as int]);
            }
            if !keep[i] {
                self.tracks.remove(i);
                proof {
                    assert(self.tracks@ =~= old_tracks.take(i as int) + kept_tracks(old_tracks.skip(i as int), keep@.skip(i as int)));
                }
            } else {
                proof {
                    assert(old_tracks.take(i + 1) =~= old_tracks.take(i as int).push(old_tracks[i as int]));
                    assert(self.tracks@ =~= old_tracks.take(i as int) + kept_tracks(old_tracks.skip(i as int), keep@.skip(i as int)));
                }
            }
        }
        proof {
            assert(old_tracks.skip(0) =~= old_tracks);
            assert(keep@.skip(0) =~= keep@);
            assert(self.tracks@ =~= kept_tracks(old_tracks, keep@));
            lemma_kept_tracks(old_tracks, keep@);
            assert forall|k: int| 0 <= k < self.tracks@.len() implies #[trigger] self.tracks@[k].wf() by {
                assert(0 <= kept_positions(keep@)[k] < old_tracks.len());
            }
        }
    }

    /// Drops every track.
    pub fn stop_all(&mut self)
        ensures
            final(self).wf(),
            final(self).track_count() == 0,
            final(self).passthrough_track() == old(self).passthrough_track(),
    {
        self.tracks.clear();
        self.mix_buf.clear();
    }

    /// Passes through the next Opus packet of the single playing track. `playing_tracks`
    /// lists the tracks whose playback state lets them play; `unit_gain` tells whether
    /// that single track plays at full volume without a fade. With any other number of
    /// playing tracks, or below full volume, there is nothing to pass through. A packet
    /// moves the track's position on by one frame.
    pub fn take_opus_frame(&mut self, playing_tracks: &[usize], unit_gain: bool) -> (packet: Option<Vec<u8>>)
        requires
            old(self).wf(),
            valid_selection(playing_tracks@, old(self).track_count()),
        ensures
            final(self).wf(),
            final(self).track_count() == old(self).track_count(),
            final(self).passthrough_track() == old(self).passthrough_track(),
            playing_tracks@.len() != 1 || !unit_gain ==> packet.is_none() && *final(self) == *old(self),
            playing_tracks@.len() == 1 && unit_gain ==> {
                let t = playing_tracks@[0] as int;
                &&& old(self).track_latest_opus(t).is_some() ==> packet_view(packet) == old(self).track_latest_opus(t)
                &&& final(self).track_latest_opus(t) == Option::<Seq<u8>>::None
                &&& final(self).track_handed_out(t) == old(self).track_handed_out(t)
                &&& final(self).track_frames_reported(t) == old(self).track_frames_reported(t)
                    + if packet.is_some() { passthrough_step() } else { 0 }
                &&& final(self).track_buffering_reported(t) == old(self).track_buffering_reported(t)
                &&& final(self).track_finished(t) == old(self).track_finished(t)
                &&& forall|i: int| 0 <= i < old(self).track_count() && i != t
                    ==> #[trigger] final(self).same_track(&*old(self), i)
            },
            forall|i: int| 0 <= i < old(self).track_count() ==> final(self).track_leftover(i) == old(self).track_leftover(i),
    {
        if playing_tracks.len() != 1 || !unit_gain {
            return None;
        }
        let idx = playing_tracks[0];
        assert(self.tracks@[idx as int].wf());
        let packet = self.tracks[idx].take_opus();
        proof {
            assert forall|i: int| 0 <= i < self.tracks@.len() implies #[trigger] self.tracks@[i].wf() by {
                if i != idx {
                    assert(self.tracks@[i] == old(self).tracks@[i]);
                }
            }
        }
        packet
    }

    /// Plays track `track_idx` alone into `buf`: its samples, then silence.
    fn process_single_track(&mut self, track_idx: usize, buf: &mut [i16]) -> (r: (bool, Ghost<Seq<i16>>))
        requires
            old(self).wf(),
            track_idx < old(self).track_count(),
        ensures
            final(self).wf(),
            final(self).track_count() == old(self).track_count(),
            final(self).passthrough_track() == old(self).passthrough_track(),
            forall|i: int| 0 <= i < old(self).track_count() && i != track_idx
                ==> #[trigger] final(self).tracks@[i] == old(self).tracks@[i],
            track_played(*old(self), *final(self), track_idx as int, r.1@, old(buf)@.len()),
            r.0 == (r.1@.len() > 0),
            final(buf)@.len() == old(buf)@.len(),
            forall|i: int| 0 <= i < final(buf)@.len() ==> #[trigger] final(buf)@[i] as int == sample_at(r.1@, i),
    {
        assert(self.tracks@[track_idx as int].wf());
        let ghost old_track = self.tracks@[track_idx as int];
        let (has_audio, Ghost(played), Ghost(popped)) = self.tracks[track_idx].render(buf);
        proof {
            let new_track = self.tracks@[track_idx as int];
            assert forall|k: int| 0 <= k < self.tracks@.len() implies #[trigger] self.tracks@[k].wf() by {
                if k != track_idx {
                    assert(self.tracks@[k] == old(self).tracks@[k]);
                }
            }
            assert(new_track.handed_out().skip(old_track.handed_out().len() as int) =~= popped);
            assert(new_track.handed_out().take(old_track.handed_out().len() as int) =~= old_track.handed_out());
        }
        (has_audio, Ghost(played))
    }

    /// Adds the next `out_len` samples of track `track_idx` into the mix buffer.
    fn process_track_to_mix(&mut self, track_idx: usize, out_len: usize) -> (r: (bool, Ghost<Seq<i16>>))
        requires
            old(self).wf(),
            track_idx < old(self).track_count(),
            out_len <= old(self).mix_buf@.len(),
            forall|i: int| 0 <= i < out_len ==> -2147450880 <= #[trigger] old(self).mix_buf@[i] <= 2147450880,
        ensures
            final(self).wf(),
            final(self).track_count() == old(self).track_count(),
            final(self).passthrough_track() == old(self).passthrough_track(),
            forall|i: int| 0 <= i < old(self).track_count() && i != track_idx
                ==> #[trigger] final(self).tracks@[i] == old(self).tracks@[i],
            track_played(*old(self), *final(self), track_idx as int, r.1@, out_len as nat),
            r.0 == (r.1@.len() > 0),
            final(self).mix_buf@.len() == old(self).mix_buf@.len(),
            forall|i: int| 0 <= i < out_len ==> #[trigger] final(self).mix_buf@[i] == old(self).mix_buf@[i] + sample_at(r.1@, i),
            forall|i: int| out_len <= i < old(self).mix_buf@.len() ==> #[trigger] final(self).mix_buf@[i] == old(self).mix_buf@[i],
    {
        assert(self.tracks@[track_idx as int].wf());
        let ghost old_track = self.tracks@[track_idx as int];
        let (has_audio, Ghost(played), Ghost(popped)) = self.tracks[track_idx].render_into_mix(&mut self.mix_buf, out_len);
        proof {
            let new_track = self.tracks@[track_idx as int];
            assert forall|k: int| 0 <= k < self.tracks@.len() implies #[trigger] self.tracks@[k].wf() by {
                if k != track_idx {
                    assert(self.tracks@[k] == old(self).tracks@[k]);
                }
            }
            assert(new_track.handed_out().skip(old_track.handed_out().len() as int) =~= popped);
            assert(new_track.handed_out().take(old_track.handed_out().len() as int) =~= old_track.handed_out());
        }
        (has_audio, Ghost(played))
    }

    /// Mixes the tracks listed in `active_tracks` into `buf` and says whether any of them
    /// had audio. With no active track nothing changes; one track is copied, then
    /// silence; several are summed and clamped to 16 bits. Every track plays the samples
    /// that follow those it played last: its leftover, then what its flow hands out now.
    pub fn mix(&mut self, active_tracks: &[usize], buf: &mut [i16]) -> (has_audio: bool)
        requires
            old(self).wf(),
            valid_selection(active_tracks@, old(self).track_count()),
            active_tracks@.len() <= 65536,
        ensures
            final(self).wf(),
            final(self).track_count() == old(self).track_count(),
            final(self).passthrough_track() == old(self).passthrough_track(),
            final(buf)@.len() == old(buf)@.len(),
            active_tracks@.len() == 0 ==> final(buf)@ == old(buf)@ && !has_audio && *final(self) == *old(self),
            active_tracks@.len() > 0 ==> exists|parts: Seq<Seq<i16>>| {
                &&& parts.len() == active_tracks@.len()
                &&& mixed_down(final(buf)@, parts)
                &&& has_audio == any_audio(parts)
                &&& forall|t: int| 0 <= t < parts.len()
                    ==> track_played(*old(self), *final(self), active_tracks@[t] as int, #[trigger] parts[t], old(buf)@.len())
            },
            forall|i: int| 0 <= i < old(self).track_count() && unselected(active_tracks@, active_tracks@.len() as int, i)
                ==> #[trigger] final(self).same_track(&*old(self), i),
    {
        let out_len = buf.len();
        if active_tracks.len() == 0 {
            return false;
        }
        if active_tracks.len() == 1 {
            let (has_audio, Ghost(s)) = self.process_single_track(active_tracks[0], buf);
            proof {
                let parts = seq![s];
                assert forall|i: int| 0 <= i < buf@.len() implies buf@[i] as int == clamp_spec(#[trigger] mix_sum(parts, i)) by {
                    law_single_stream_mix_is_copy(s, i);
                }
                assert(parts[0] == s);
                assert(has_audio == any_audio(parts)) by {
                    if has_audio {
                        assert(parts[0].len() > 0);
                    }
                }
                assert forall|t: int| 0 <= t < parts.len()
                    implies track_played(*old(self), *self, active_tracks@[t] as int, #[trigger] parts[t], old(buf)@.len()) by {
                    assert(t == 0);
                }
                assert forall|i: int| 0 <= i < old(self).track_count() && unselected(active_tracks@, active_tracks@.len() as int, i)
                    implies #[trigger] self.same_track(&*old(self), i) by {
                    assert(active_tracks@[0] as int != i);
                }
            }
            return has_audio;
        }
        if self.mix_buf.len() < out_len {
            self.mix_buf.resize(out_len, 0);
        }
        let mut z: usize = 0;
        while z < out_len
            invariant
                self.wf(),
                self.tracks == old(self).tracks,
                self.opus_passthrough_track == old(self).opus_passthrough_track,
                out_len <= self.mix_buf@.len(),
                z <= out_len,
                forall|k: int| 0 <= k < z ==> #[trigger] self.mix_buf@[k] == 0,
            decreases out_len - z,
        {
            self.mix_buf.set(z, 0);
            z = z + 1;
        }
        let ghost mut parts: Seq<Seq<i16>> = Seq::empty();
        assert forall|k: int| 0 <= k < out_len implies #[trigger] self.mix_buf@[k] == mix_sum(parts, k) by {}
        let mut has_audio = false;
        let mut t: usize = 0;
        while t < active_tracks.len()
            invariant
                self.wf(),
                self.track_count() == old(self).track_count(),
                self.opus_passthrough_track == old(self).opus_passthrough_track,
                valid_selection(active_tracks@, old(self).track_count()),
                active_tracks@.len() <= 65536,
                out_len == buf@.len(),
                out_len == old(buf)@.len(),
                buf@ == old(buf)@,
                out_len <= self.mix_buf@.len(),
                t <= active_tracks@.len(),
                parts.len() == t,
                forall|k: int| 0 <= k < out_len ==> #[trigger] self.mix_buf@[k] == mix_sum(parts, k),
                has_audio == any_audio(parts),
                forall|u: int| 0 <= u < t
                    ==> track_played(*old(self), *self, active_tracks@[u] as int, #[trigger] parts[u], out_len as nat),
                forall|i: int| 0 <= i < old(self).track_count() && unselected(active_tracks@, t as int, i)
                    ==> #[trigger] self.tracks@[i] == old(self).tracks@[i],
            decreases active_tracks@.len() - t,
        {
            let idx = active_tracks[t];
            proof {
                assert forall|k: int| 0 <= k < out_len implies -2147450880 <= #[trigger] self.mix_buf@[k] <= 2147450880 by {
                    lemma_mix_sum_bounds(parts, k);
                }
                assert(unselected(active_tracks@, t as int, idx as int)) by {
                    assert forall|u: int| 0 <= u < t implies active_tracks@[u] as int != idx as int by {
                        assert(active_tracks@[u] < active_tracks@[t as int]);
                    }
                }
            }
            let ghost self_before = *self;
            let (track_audio, Ghost(s)) = self.process_track_to_mix(idx, out_len);
            proof {
                assert forall|k: int| 0 <= k < out_len implies #[trigger] self.mix_buf@[k] == mix_sum(parts.push(s), k) by {
                    lemma_mix_sum_push(parts, s, k);
                }
                let old_parts = parts;
                parts = parts.push(s);
                assert(old(self).tracks@[idx as int] == self_before.tracks@[idx as int]);
                assert forall|u: int| 0 <= u < t + 1
                    implies track_played(*old(self), *self, active_tracks@[u] as int, #[trigger] parts[u], out_len as nat) by {
                    if u < t {
                        assert(parts[u] == old_parts[u]);
                        assert(active_tracks@[u] < active_tracks@[t as int]);
                        assert(self.tracks@[active_tracks@[u] as int] == self_before.tracks@[active_tracks@[u] as int]);
                        assert(track_played(*old(self), self_before, active_tracks@[u] as int, old_parts[u], out_len as nat));
                    } else {
                        assert(parts[u] == s);
                    }
                }
                assert forall|i: int| 0 <= i < old(self).track_count() && unselected(active_tracks@, t + 1, i)
                    implies #[trigger] self.tracks@[i] == old(self).tracks@[i] by {
                    assert(active_tracks@[t as int] as int != i);
                    assert(unselected(active_tracks@, t as int, i));
                    assert(self.tracks@[i] == self_before.tracks@[i]);
                }
                if track_audio {
                    assert(parts[t as int].len() > 0);
                } else if any_audio(old_parts) {
                    let u = choose|u: int| 0 <= u < old_parts.len() && #[trigger] old_parts[u].len() > 0;
                    assert(parts[u] == old_parts[u]);
                } else {
                    assert forall|u: int| 0 <= u < parts.len() implies !(#[trigger] parts[u].len() > 0) by {
                        if u < t {
                            assert(parts[u] == old_parts[u]);
                        }
                    }
                }
            }
            if track_audio {
                has_audio = true;
            }
            t = t + 1;
        }
        let mut i: usize = 0;
        while i < out_len
            invariant
                out_len == buf@.len(),
                out_len <= self.mix_buf@.len(),
                i <= out_len,
                forall|k: int| 0 <= k < out_len ==> #[trigger] self.mix_buf@[k] == mix_sum(parts, k),
                forall|k: int| 0 <= k < i ==> buf@[k] as int == clamp_spec(#[trigger] mix_sum(parts, k)),
            decreases out_len - i,
        {
            buf[i] = clamp_sample(self.mix_buf[i]);
            i = i + 1;
        }
        assert forall|k: int| 0 <= k < old(self).track_count() && unselected(active_tracks@, active_tracks@.len() as int, k)
            implies #[trigger] self.same_track(&*old(self), k) by {}
        has_audio
    }
}

/// The positions of `keep` that hold `true`, in increasing order.
pub open spec fn kept_positions(keep: Seq<bool>) -> Seq<int>
    decreases keep.len(),
{
    if keep.len() == 0 {
        Seq::empty()
    } else {
        let rest = kept_positions(keep.skip(1)).map_values(|p: int| p + 1);
        if keep[0] { seq![0int] + rest } else { rest }
    }
}

/// The tracks of `ts` whose entry in `keep` is `true`, in order.
pub open spec fn kept_tracks<T>(ts: Seq<T>, keep: Seq<bool>) -> Seq<T>
    decreases ts.len(),
{
    if ts.len() == 0 {
        Seq::empty()
    } else {
        let rest = kept_tracks(ts.skip(1), keep.skip(1));
        if keep[0] { seq![ts[0]] + rest } else { rest }
    }
}

proof fn lemma_kept_tracks<T>(ts: Seq<T>, keep: Seq<bool>)
    requires
        ts.len() == keep.len(),
    ensures
        kept_tracks(ts, keep).len() == kept_positions(keep).len(),
        forall|j: int| 0 <= j < kept_positions(keep).len() ==> {
            &&& 0 <= #[trigger] kept_positions(keep)[j] < ts.len()
            &&& kept_tracks(ts, keep)[j] == ts[kept_positions(keep)[j]]
        },
    decreases ts.len(),
{
    if ts.len() > 0 {
        lemma_kept_tracks(ts.skip(1), keep.skip(1));
        let rest_p = kept_positions(keep.skip(1));
        let rest_t = kept_tracks(ts.skip(1), keep.skip(1));
        let mapped = rest_p.map_values(|p: int| p + 1);
        assert forall|j: int| 0 <= j < kept_positions(keep).len() implies {
            &&& 0 <= #[trigger] kept_positions(keep)[j] < ts.len()
            &&& kept_tracks(ts, keep)[j] == ts[kept_positions(keep)[j]]
        } by {
            if keep[0] {
                if j > 0 {
                    assert(kept_positions(keep)[j] == mapped[j - 1]);
                    assert(mapped[j - 1] == rest_p[j - 1] + 1);
                    assert(kept_tracks(ts, keep)[j] == rest_t[j - 1]);
                    assert(ts.skip(1)[rest_p[j - 1]] == ts[rest_p[j - 1] + 1]);
                }
            } else {
                assert(kept_positions(keep)[j] == mapped[j]);
                assert(mapped[j] == rest_p[j] + 1);
                assert(ts.skip(1)[rest_p[j]] == ts[rest_p[j] + 1]);
            }
        }
    }
}

/// What track `t` did between `before` and `after` when it played `played` into a buffer
/// of `want` samples: `played` is its leftover followed by what its flow handed out
/// meanwhile, cut at `want`, and what did not fit is the new leftover; fewer than `want`
/// samples play only when the track has finished or its flow has no frame ready; a
/// finished track pops nothing; the stereo frames played are handed to the shared
/// position, and the buffering flag is handed `false` when something played, `true`
/// when nothing did and the track has not finished, and nothing otherwise.
pub open spec fn track_played<D: OpusDecoder>(before: Mixer<D>, after: Mixer<D>, t: int, played: Seq<i16>, want: nat) -> bool {
    let fresh = after.track_handed_out(t).skip(before.track_handed_out(t).len() as int);
    &&& played.len() <= want
    &&& extends(after.track_handed_out(t), before.track_handed_out(t))
    &&& played + after.track_leftover(t) == before.track_leftover(t) + fresh
    &&& played.len() < want ==> after.track_leftover(t).len() == 0
    &&& played.len() < want ==> after.track_finished(t)
        || (!after.track_flow_done(t) && after.track_flow_pending(t).len() < FRAME_SIZE_SAMPLES)
    &&& before.track_finished(t) ==> after.track_finished(t) && after.track_handed_out(t) == before.track_handed_out(t)
    &&& after.track_frames_reported(t) == before.track_frames_reported(t) + frames_step(played.len())
    &&& after.track_buffering_reported(t) == if played.len() > 0 {
        Some(false)
    } else if !after.track_finished(t) {
        Some(true)
    } else {
        before.track_buffering_reported(t)
    }
}

} // verus!
