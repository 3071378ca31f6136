use vstd::prelude::*;
use crate::pcm::{PcmQueue, FRAME_SIZE_SAMPLES, silence};

verus! {

/// One unit of audio travelling from a decoder to a flow controller.
#[derive(Debug)]
pub enum AudioFrame {
    /// Interleaved PCM samples; an empty chunk tells the receiver to drop what it holds.
    Pcm(Vec<i16>),
    /// One encoded Opus packet.
    Opus(Vec<u8>),
}

/// Errors of the audio pipeline.
#[derive(Debug, Clone, Copy, PartialEq, Eq, Structural)]
pub enum AudioError {
    /// The decoder has hung up and every sample it sent has been handed out.
    DecoderFinished,
}

#[verifier::external_type_specification]
#[verifier::external_body]
#[verifier::reject_recursive_types(T)]
pub struct ExReceiver<T>(flume::Receiver<T>);

#[verifier::external_type_specification]
#[verifier::external_body]
#[verifier::reject_recursive_types(T)]
pub struct ExSender<T>(flume::Sender<T>);

/// What one non-blocking poll of the frame channel gave.
pub enum Polled {
    Frame(AudioFrame),
    /// Nothing is waiting right now.
    Empty,
    /// Every sender is gone and nothing is waiting.
    Disconnected,
}

/// The log entry for one frame: its samples, or its packet.
pub open spec fn item_of(frame: AudioFrame) -> Sent {
    match frame {
        AudioFrame::Pcm(chunk) => Sent::Samples(chunk@),
        AudioFrame::Opus(packet) => Sent::Packet(packet@),
    }
}

/// The frames one poll took from the channel: the frame it gave, or none.
pub open spec fn polled_items(polled: Polled) -> Seq<Sent> {
    match polled {
        Polled::Frame(frame) => seq![item_of(frame)],
        _ => Seq::empty(),
    }
}

/// The receiving end of the frame channel, with the log of every frame taken from it
/// by a poll, in order.
struct Upstream {
    rx: flume::Receiver<AudioFrame>,
    log: Ghost<Seq<Sent>>,
}

/// The sending end of the downstream channel, with the log of every frame handed to it,
/// in order.
struct Downstream {
    tx: flume::Sender<AudioFrame>,
    log: Ghost<Seq<Sent>>,
}

/// Calls `flume::Receiver::try_recv` and tells its two errors apart.
/// What comes back depends on other threads; the log of `up` gains the frame that came
/// back, if one did.
#[verifier::external_body]
fn poll_frame(up: &mut Upstream) -> (polled: Polled)
    ensures
        final(up).log@ == old(up).log@ + polled_items(polled),
{
    match up.rx.try_recv() {
        Ok(frame) => Polled::Frame(frame),
        Err(flume::TryRecvError::Empty) => Polled::Empty,
        Err(flume::TryRecvError::Disconnected) => Polled::Disconnected,
    }
}

/// Calls `flume::Receiver::recv`, which blocks until a frame arrives; `None` when every
/// sender is gone. What comes back depends on other threads, so nothing is stated of it.
#[verifier::external_body]
fn wait_frame(rx: &flume::Receiver<AudioFrame>) -> Option<AudioFrame> {
    rx.recv().ok()
}

/// Calls `flume::Sender::send` with `frame`; `true` when the frame went into the channel,
/// `false` when every receiver is gone. Which of the two happens depends on other
/// threads; either way the log of `down` gains the frame handed to the call.
#[verifier::external_body]
fn send_frame(down: &mut Downstream, frame: AudioFrame) -> (delivered: bool)
    ensures
        final(down).log@ == old(down).log@.push(item_of(frame)),
{
    down.tx.send(frame).is_ok()
}

/// Decodes Opus packets into interleaved 48 kHz stereo samples.
///
/// A decoder keeps state from packet to packet, so nothing is promised of what one call
/// gives back: the flow controller is correct for every answer.
pub trait OpusDecoder {
    /// The samples of `packet`, or `None` when it could not be decoded.
    fn decode_packet(&mut self, packet: &[u8]) -> Option<Vec<i16>>;
}

/// The result of popping a frame from samples `pending` when the decoder has hung up
/// (`done`) or not: the frame handed out, and the samples that stay behind.
pub open spec fn pop_spec(pending: Seq<i16>, done: bool) -> (Result<Option<Seq<i16>>, AudioError>, Seq<i16>) {
    if pending.len() >= FRAME_SIZE_SAMPLES {
        (Ok(Some(pending.take(FRAME_SIZE_SAMPLES as int))), pending.skip(FRAME_SIZE_SAMPLES as int))
    } else if done {
        if pending.len() > 0 {
            (Ok(Some(pending + silence((FRAME_SIZE_SAMPLES - pending.len()) as nat))), Seq::empty())
        } else {
            (Err(AudioError::DecoderFinished), pending)
        }
    } else {
        (Ok(None), pending)
    }
}

/// The view of a popped frame.
pub open spec fn frame_view(r: Result<Option<Vec<i16>>, AudioError>) -> Result<Option<Seq<i16>>, AudioError> {
    match r {
        Ok(Some(f)) => Ok(Some(f@)),
        Ok(None) => Ok(None),
        Err(e) => Err(e),
    }
}

/// The view of an optional packet.
pub open spec fn packet_view(p: Option<Vec<u8>>) -> Option<Seq<u8>> {
    match p {
        Some(v) => Some(v@),
        None => None,
    }
}

/// Whether `after` begins with `before`.
pub open spec fn extends<T>(after: Seq<T>, before: Seq<T>) -> bool {
    before.len() <= after.len() && after.take(before.len() as int) == before
}

/// One item of a channel log: the samples of a PCM chunk or frame, or an Opus packet.
pub enum Sent {
    /// A frame of samples.
    Samples(Seq<i16>),
    /// An Opus packet passed through.
    Packet(Seq<u8>),
}

/// The samples of `items`, one frame after the other; packets contribute none.
pub open spec fn samples_of(items: Seq<Sent>) -> Seq<i16>
    decreases items.len(),
{
    if items.len() == 0 {
        Seq::empty()
    } else {
        samples_of(items.drop_last()) + match items.last() {
            Sent::Samples(f) => f,
            Sent::Packet(_) => Seq::<i16>::empty(),
        }
    }
}

/// Whether every frame among `items` holds exactly `FRAME_SIZE_SAMPLES` samples.
pub open spec fn whole_frames(items: Seq<Sent>) -> bool {
    forall|i: int| 0 <= i < items.len() ==> match #[trigger] items[i] {
        Sent::Samples(f) => f.len() == FRAME_SIZE_SAMPLES,
        Sent::Packet(_) => true,
    }
}

proof fn lemma_samples_of_push(items: Seq<Sent>, x: Sent)
    ensures
        samples_of(items.push(x)) == samples_of(items) + match x {
            Sent::Samples(f) => f,
            Sent::Packet(_) => Seq::<i16>::empty(),
        },
{
    assert(items.push(x).drop_last() =~= items);
}

/// How many packets `items` holds.
pub open spec fn packet_count(items: Seq<Sent>) -> nat
    decreases items.len(),
{
    if items.len() == 0 {
        0
    } else {
        packet_count(items.drop_last()) + if items.last() is Packet { 1nat } else { 0nat }
    }
}

/// The samples that `items`, taken from the channel in order, bring into the stream,
/// with `answers` what the decoder gave for their packets in order: a chunk brings its
/// own samples, a packet what the decoder gave for it.
pub open spec fn intake(items: Seq<Sent>, answers: Seq<Seq<i16>>) -> Seq<i16>
    decreases items.len(),
{
    if items.len() == 0 {
        Seq::empty()
    } else {
        match items.last() {
            Sent::Samples(chunk) => intake(items.drop_last(), answers) + chunk,
            Sent::Packet(_) => intake(items.drop_last(), answers.drop_last()) + answers.last(),
        }
    }
}

/// One poll taken in by `absorb` extends the fresh items and answers by what it took.
proof fn lemma_absorb_intake(t0: Seq<Sent>, d0: Seq<Seq<i16>>, nt: int, nd: int, polled: Polled, t1: Seq<Sent>, d1: Seq<Seq<i16>>)
    requires
        0 <= nt <= t0.len(),
        0 <= nd <= d0.len(),
        t1 == t0 + polled_items(polled),
        match polled {
            Polled::Frame(AudioFrame::Opus(_)) => d1.len() == d0.len() + 1 && d1.drop_last() == d0,
            _ => d1 == d0,
        },
    ensures
        packet_count(t1.skip(nt)) == packet_count(t0.skip(nt)) + if polled matches Polled::Frame(AudioFrame::Opus(_)) { 1int } else { 0int },
        d1.len() - nd == d0.len() - nd + if polled matches Polled::Frame(AudioFrame::Opus(_)) { 1int } else { 0int },
        match polled {
            Polled::Frame(AudioFrame::Pcm(chunk)) =>
                intake(t1.skip(nt), d1.skip(nd)) == intake(t0.skip(nt), d0.skip(nd)) + chunk@,
            Polled::Frame(AudioFrame::Opus(_)) =>
                intake(t1.skip(nt), d1.skip(nd)) == intake(t0.skip(nt), d0.skip(nd)) + d1.last(),
            _ => t1 == t0 && d1 == d0,
        },
{
    match polled {
        Polled::Frame(frame) => {
            assert(t1.skip(nt) =~= t0.skip(nt).push(item_of(frame)));
            assert(t1.skip(nt).drop_last() =~= t0.skip(nt));
            match frame {
                AudioFrame::Opus(_) => {
                    assert(d1.skip(nd).drop_last() =~= d0.skip(nd));
                },
                AudioFrame::Pcm(_) => {},
            }
        },
        _ => {
            assert(t1 =~= t0);
        },
    }
}

/// Whether every item of `items` is a chunk of samples.
pub open spec fn only_samples(items: Seq<Sent>) -> bool {
    forall|i: int| 0 <= i < items.len() ==> #[trigger] items[i] is Samples
}

/// The samples of a popped frame; none when no frame was popped.
pub open spec fn frame_samples(r: Result<Option<Seq<i16>>, AudioError>) -> Seq<i16> {
    match r {
        Ok(Some(f)) => f,
        _ => Seq::empty(),
    }
}

/// Cuts the samples coming from a decoder into frames of `FRAME_SIZE_SAMPLES` samples.
///
/// Besides the samples waiting, the controller keeps, for its contracts, the stream of
/// samples taken in since the last reset (an empty PCM chunk), how many of them were cut
/// into frames, every frame cut so far in order, how many resets there were, every item
/// polled from the frame channel and handed to the downstream channel, and what the
/// decoder gave for each packet.
pub struct FlowController<D> {
    pending: PcmQueue,
    decoder_done: bool,
    frame_rx: Upstream,
    frame_tx: Option<Downstream>,
    latest_opus: Option<Vec<u8>>,
    opus_decoder: D,
    stream: Ghost<Seq<i16>>,
    consumed: Ghost<nat>,
    handed_out: Ghost<Seq<i16>>,
    resets: Ghost<nat>,
    decodes: Ghost<Seq<Seq<i16>>>,
}

impl<D: OpusDecoder> FlowController<D> {
    pub closed spec fn wf(&self) -> bool {
        &&& self.pending.wf()
        &&& self.consumed@ <= self.stream@.len()
        &&& self.pending@ == self.stream@.skip(self.consumed@ as int)
        &&& whole_frames(self.sent())
    }

    /// Every item handed to the downstream channel so far, in order; none without one.
    pub closed spec fn sent(&self) -> Seq<Sent> {
        match self.frame_tx {
            Some(down) => down.log@,
            None => Seq::empty(),
        }
    }

    /// Every item taken from the frame channel by a poll so far, in order.
    pub closed spec fn taken(&self) -> Seq<Sent> {
        self.frame_rx.log@
    }

    /// The samples the decoder gave for each Opus packet decoded so far, in order; a
    /// packet it could not decode gave none.
    pub closed spec fn decodes(&self) -> Seq<Seq<i16>> {
        self.decodes@
    }

    /// The samples waiting to be cut into frames, oldest first.
    pub closed spec fn pending(&self) -> Seq<i16> {
        self.pending@
    }

    /// The samples taken in since the last reset, in arrival order.
    pub closed spec fn stream(&self) -> Seq<i16> {
        self.stream@
    }

    /// How many samples of `stream()` were cut into frames.
    pub closed spec fn consumed(&self) -> nat {
        self.consumed@
    }

    /// Every frame cut so far, returned or sent downstream, one after the other.
    pub closed spec fn handed_out(&self) -> Seq<i16> {
        self.handed_out@
    }

    /// How many times an empty PCM chunk dropped the stream.
    pub closed spec fn resets(&self) -> nat {
        self.resets@
    }

    /// Whether the decoder has hung up.
    pub closed spec fn decoder_done(&self) -> bool {
        self.decoder_done
    }

    /// The last Opus packet seen by `try_pop_frame` and not yet taken.
    pub closed spec fn latest_opus(&self) -> Option<Seq<u8>> {
        packet_view(self.latest_opus)
    }

    /// Whether frames are passed on to a downstream channel.
    pub closed spec fn forwards(&self) -> bool {
        self.frame_tx.is_some()
    }

    /// Where the stream after a change was read from: the old read position if there was
    /// no reset in between, the start otherwise.
    pub open spec fn read_from(&self, before: &Self) -> nat {
        if self.resets() == before.resets() { before.consumed() } else { 0 }
    }

    /// A controller that passes its frames on to `frame_tx`.
    pub fn new(frame_rx: flume::Receiver<AudioFrame>, frame_tx: flume::Sender<AudioFrame>, opus_decoder: D) -> (fc: Self)
        ensures
            fc.wf(),
            fc.pending() == Seq::<i16>::empty(),
            fc.stream() == Seq::<i16>::empty(),
            fc.consumed() == 0,
            fc.handed_out() == Seq::<i16>::empty(),
            fc.resets() == 0,
            fc.sent() == Seq::<Sent>::empty(),
            fc.taken() == Seq::<Sent>::empty(),
            fc.decodes() == Seq::<Seq<i16>>::empty(),
            !fc.decoder_done(),
            fc.latest_opus() == Option::<Seq<u8>>::None,
            fc.forwards(),
    {
        Self::build(frame_rx, Some(Downstream { tx: frame_tx, log: Ghost(Seq::empty()) }), opus_decoder)
    }

    /// A controller whose frames are pulled by a mixer.
    pub fn for_mixer(frame_rx: flume::Receiver<AudioFrame>, opus_decoder: D) -> (fc: Self)
        ensures
            fc.wf(),
            fc.pending() == Seq::<i16>::empty(),
            fc.stream() == Seq::<i16>::empty(),
            fc.consumed() == 0,
            fc.handed_out() == Seq::<i16>::empty(),
            fc.resets() == 0,
            fc.sent() == Seq::<Sent>::empty(),
            fc.taken() == Seq::<Sent>::empty(),
            fc.decodes() == Seq::<Seq<i16>>::empty(),
            !fc.decoder_done(),
            fc.latest_opus() == Option::<Seq<u8>>::None,
            !fc.forwards(),
    {
        Self::build(frame_rx, None, opus_decoder)
    }

    fn build(frame_rx: flume::Receiver<AudioFrame>, frame_tx: Option<Downstream>, opus_decoder: D) -> (fc: Self)
        requires
            frame_tx matches Some(down) ==> down.log@ == Seq::<Sent>::empty(),
        ensures
            fc.wf(),
            fc.pending() == Seq::<i16>::empty(),
            fc.stream() == Seq::<i16>::empty(),
            fc.consumed() == 0,
            fc.handed_out() == Seq::<i16>::empty(),
            fc.resets() == 0,
            fc.sent() == Seq::<Sent>::empty(),
            fc.taken() == Seq::<Sent>::empty(),
            fc.decodes() == Seq::<Seq<i16>>::empty(),
            !fc.decoder_done(),
            fc.latest_opus() == Option::<Seq<u8>>::None,
            fc.forwards() == frame_tx.is_some(),
    {
        let fc = FlowController {
            pending: PcmQueue::new(),
            decoder_done: false,
            frame_rx: Upstream { rx: frame_rx, log: Ghost(Seq::empty()) },
            frame_tx,
            latest_opus: None,
            opus_decoder,
            stream: Ghost(Seq::empty()),
            consumed: Ghost(0),
            handed_out: Ghost(Seq::empty()),
            resets: Ghost(0),
            decodes: Ghost(Seq::empty()),
        };
        assert(fc.stream@.skip(0) =~= Seq::<i16>::empty());
        fc
    }

    /// Number of samples waiting.
    pub fn pending_len(&self) -> (n: usize)
        requires
            self.wf(),
        ensures
            n == self.pending().len(),
    {
        self.pending.pending_len()
    }

    /// Whether the decoder has hung up.
    pub fn is_decoder_done(&self) -> (b: bool)
        ensures
            b == self.decoder_done(),
    {
        self.decoder_done
    }

    /// Appends samples to the queue and to the stream.
    fn take_in(&mut self, samples: &[i16])
        requires
            old(self).wf(),
        ensures
            final(self).sent() == old(self).sent(),
            final(self).taken() == old(self).taken(),
            final(self).decodes() == old(self).decodes(),
            final(self).wf(),
            final(self).pending() == old(self).pending() + samples@,
            final(self).stream() == old(self).stream() + samples@,
            final(self).consumed() == old(self).consumed(),
            final(self).handed_out() == old(self).handed_out(),
            final(self).resets() == old(self).resets(),
            final(self).decoder_done() == old(self).decoder_done(),
            final(self).latest_opus() == old(self).latest_opus(),
            final(self).forwards() == old(self).forwards(),
    {
        self.pending.extend(samples);
        let ghost grown = self.stream@ + samples@;
        self.stream = Ghost(grown);
        assert(self.pending@ =~= grown.skip(self.consumed@ as int));
    }

    /// Drops the queue and starts a new stream.
    fn reset_stream(&mut self)
        requires
            old(self).wf(),
        ensures
            final(self).sent() == old(self).sent(),
            final(self).taken() == old(self).taken(),
            final(self).decodes() == old(self).decodes(),
            final(self).wf(),
            final(self).pending() == Seq::<i16>::empty(),
            final(self).stream() == Seq::<i16>::empty(),
            final(self).consumed() == 0,
            final(self).handed_out() == old(self).handed_out(),
            final(self).resets() == old(self).resets() + 1,
            final(self).decoder_done() == old(self).decoder_done(),
            final(self).latest_opus() == old(self).latest_opus(),
            final(self).forwards() == old(self).forwards(),
    {
        self.pending.clear();
        self.stream = Ghost(Seq::empty());
        self.consumed = Ghost(0);
        self.resets = Ghost(self.resets@ + 1);
        assert(self.stream@.skip(0) =~= Seq::<i16>::empty());
    }

    /// Takes in one chunk of PCM samples: an empty chunk drops everything waiting, starts
    /// a new stream and clears the end-of-stream mark; any other chunk queues up behind
    /// what is waiting.
    pub fn push_chunk(&mut self, chunk: Vec<i16>)
        requires
            old(self).wf(),
        ensures
            final(self).sent() == old(self).sent(),
            final(self).taken() == old(self).taken(),
            final(self).decodes() == old(self).decodes(),
            final(self).wf(),
            chunk@.len() == 0 ==> {
                &&& final(self).pending() == Seq::<i16>::empty()
                &&& final(self).stream() == Seq::<i16>::empty()
                &&& final(self).consumed() == 0
                &&& final(self).resets() == old(self).resets() + 1
                &&& !final(self).decoder_done()
            },
            chunk@.len() > 0 ==> {
                &&& final(self).pending() == old(self).pending() + chunk@
                &&& final(self).stream() == old(self).stream() + chunk@
                &&& final(self).consumed() == old(self).consumed()
                &&& final(self).resets() == old(self).resets()
                &&& final(self).decoder_done() == old(self).decoder_done()
            },
            final(self).handed_out() == old(self).handed_out(),
            final(self).latest_opus() == old(self).latest_opus(),
            final(self).forwards() == old(self).forwards(),
    {
        if chunk.len() == 0 {
            self.reset_stream();
            self.decoder_done = false;
        } else {
            self.take_in(chunk.as_slice());
        }
    }

    /// Takes in an Opus packet together with what decoding it gave: the decoded samples
    /// queue up, and the packet is kept for `take_opus`.
    pub fn accept_decoded(&mut self, packet: Vec<u8>, decoded: Option<Vec<i16>>)
        requires
            old(self).wf(),
        ensures
            final(self).sent() == old(self).sent(),
            final(self).taken() == old(self).taken(),
            final(self).decodes() == old(self).decodes(),
            final(self).wf(),
            final(self).pending() == old(self).pending() + decoded_samples(decoded),
            final(self).stream() == old(self).stream() + decoded_samples(decoded),
            final(self).consumed() == old(self).consumed(),
            final(self).handed_out() == old(self).handed_out(),
            final(self).resets() == old(self).resets(),
            final(self).decoder_done() == old(self).decoder_done(),
            final(self).latest_opus() == Some(packet@),
            final(self).forwards() == old(self).forwards(),
    {
        match decoded {
            Some(samples) => {
                self.take_in(samples.as_slice());
            },
            None => {
                assert(self.pending() =~= old(self).pending() + Seq::<i16>::empty());
                assert(self.stream() =~= old(self).stream() + Seq::<i16>::empty());
            },
        }
        self.latest_opus = Some(packet);
    }

    /// Decodes one Opus packet and records what the decoder gave.
    fn decode(&mut self, packet: &[u8]) -> (decoded: Option<Vec<i16>>)
        requires
            old(self).wf(),
        ensures
            final(self).decodes() == old(self).decodes().push(decoded_samples(decoded)),
            final(self).sent() == old(self).sent(),
            final(self).taken() == old(self).taken(),
            final(self).wf(),
            final(self).pending() == old(self).pending(),
            final(self).stream() == old(self).stream(),
            final(self).consumed() == old(self).consumed(),
            final(self).handed_out() == old(self).handed_out(),
            final(self).resets() == old(self).resets(),
            final(self).decoder_done() == old(self).decoder_done(),
            final(self).latest_opus() == old(self).latest_opus(),
            final(self).forwards() == old(self).forwards(),
    {
        let decoded = self.opus_decoder.decode_packet(packet);
        self.decodes = Ghost(self.decodes@.push(decoded_samples(decoded)));
        decoded
    }

    /// Takes in what one poll of the channel gave, as `try_pop_frame` does, and says
    /// whether polling goes on.
    pub fn absorb(&mut self, polled: Polled) -> (keep_polling: bool)
        requires
            old(self).wf(),
        ensures
            final(self).sent() == old(self).sent(),
            final(self).taken() == old(self).taken(),
            final(self).wf(),
            final(self).forwards() == old(self).forwards(),
            final(self).handed_out() == old(self).handed_out(),
            !(polled matches Polled::Frame(AudioFrame::Opus(_))) ==> final(self).decodes() == old(self).decodes(),
            match polled {
                Polled::Frame(AudioFrame::Pcm(chunk)) => {
                    &&& keep_polling
                    &&& chunk@.len() == 0 ==> {
                        &&& final(self).stream() == Seq::<i16>::empty()
                        &&& final(self).consumed() == 0
                        &&& final(self).resets() == old(self).resets() + 1
                        &&& !final(self).decoder_done()
                    }
                    &&& chunk@.len() > 0 ==> {
                        &&& final(self).stream() == old(self).stream() + chunk@
                        &&& final(self).consumed() == old(self).consumed()
                        &&& final(self).resets() == old(self).resets()
                        &&& final(self).decoder_done() == old(self).decoder_done()
                    }
                    &&& final(self).latest_opus() == old(self).latest_opus()
                },
                Polled::Frame(AudioFrame::Opus(packet)) => {
                    &&& keep_polling
                    &&& final(self).decodes().len() == old(self).decodes().len() + 1
                    &&& final(self).decodes().drop_last() == old(self).decodes()
                    &&& final(self).stream() == old(self).stream() + final(self).decodes().last()
                    &&& final(self).pending() == old(self).pending() + final(self).decodes().last()
                    &&& extends(final(self).stream(), old(self).stream())
                    &&& final(self).consumed() == old(self).consumed()
                    &&& final(self).resets() == old(self).resets()
                    &&& final(self).decoder_done() == old(self).decoder_done()
                    &&& final(self).latest_opus() == Some(packet@)
                },
                Polled::Empty => {
                    &&& !keep_polling
                    &&& *final(self) == *old(self)
                },
                Polled::Disconnected => {
                    &&& !keep_polling
                    &&& final(self).pending() == old(self).pending()
                    &&& final(self).stream() == old(self).stream()
                    &&& final(self).consumed() == old(self).consumed()
                    &&& final(self).resets() == old(self).resets()
                    &&& final(self).decoder_done()
                    &&& final(self).latest_opus() == old(self).latest_opus()
                },
            },
    {
        match polled {
            Polled::Frame(AudioFrame::Pcm(chunk)) => {
                self.push_chunk(chunk);
                true
            },
            Polled::Frame(AudioFrame::Opus(packet)) => {
                let decoded = self.decode(packet.as_slice());
                self.accept_decoded(packet, decoded);
                assert(self.stream().take(old(self).stream().len() as int) =~= old(self).stream());
                true
            },
            Polled::Empty => false,
            Polled::Disconnected => {
                self.decoder_done = true;
                false
            },
        }
    }

    /// Pops a frame from the samples already received: a full frame when there is one; once
    /// the decoder has hung up, the rest filled up with silence, and then `DecoderFinished`.
    /// A popped frame is cut from the stream and joins the frames handed out.
    pub fn pop_ready_frame(&mut self) -> (result: Result<Option<Vec<i16>>, AudioError>)
        requires
            old(self).wf(),
        ensures
            final(self).sent() == old(self).sent(),
            final(self).taken() == old(self).taken(),
            final(self).decodes() == old(self).decodes(),
            final(self).wf(),
            frame_view(result) == pop_spec(old(self).pending(), old(self).decoder_done()).0,
            final(self).pending() == pop_spec(old(self).pending(), old(self).decoder_done()).1,
            final(self).stream() == old(self).stream(),
            final(self).consumed() == old(self).stream().len() - final(self).pending().len(),
            final(self).handed_out() == old(self).handed_out() + frame_samples(frame_view(result)),
            final(self).resets() == old(self).resets(),
            final(self).decoder_done() == old(self).decoder_done(),
            final(self).latest_opus() == old(self).latest_opus(),
            final(self).forwards() == old(self).forwards(),
            old(self).pending().len() >= FRAME_SIZE_SAMPLES ==> {
                &&& (result matches Ok(Some(f)) && f@ == old(self).pending().take(FRAME_SIZE_SAMPLES as int))
                &&& final(self).pending() == old(self).pending().skip(FRAME_SIZE_SAMPLES as int)
            },
            old(self).decoder_done() && 0 < old(self).pending().len() < FRAME_SIZE_SAMPLES ==> {
                &&& (result matches Ok(Some(f))
                    && f@ == old(self).pending() + silence((FRAME_SIZE_SAMPLES - old(self).pending().len()) as nat))
                &&& final(self).pending().len() == 0
            },
            old(self).decoder_done() && old(self).pending().len() == 0 ==> {
                &&& result matches Err(AudioError::DecoderFinished)
                &&& final(self).pending().len() == 0
            },
            !old(self).decoder_done() && old(self).pending().len() < FRAME_SIZE_SAMPLES ==> {
                &&& result matches Ok(None)
                &&& final(self).pending() == old(self).pending()
            },
    {
        if self.pending.pending_len() >= FRAME_SIZE_SAMPLES {
            let frame = self.pending.take_frame();
            self.consumed = Ghost(self.consumed@ + FRAME_SIZE_SAMPLES as nat);
            self.handed_out = Ghost(self.handed_out@ + frame@);
            assert(self.pending@ =~= self.stream@.skip(self.consumed@ as int));
            Ok(Some(frame))
        } else if self.decoder_done {
            if self.pending.pending_len() > 0 {
                let frame = self.pending.take_padded_frame();
                self.consumed = Ghost(self.stream@.len());
                self.handed_out = Ghost(self.handed_out@ + frame@);
                assert(self.pending@ =~= self.stream@.skip(self.consumed@ as int));
                Ok(Some(frame))
            } else {
                assert(self.handed_out@ =~= self.handed_out@ + Seq::<i16>::empty());
                Err(AudioError::DecoderFinished)
            }
        } else {
            assert(self.handed_out@ =~= self.handed_out@ + Seq::<i16>::empty());
            Ok(None)
        }
    }

    /// Receives from the channel until a full frame is waiting, the channel is empty or the
    /// decoder has hung up, then pops a frame as `pop_ready_frame` does. With a full frame
    /// already waiting, or once the decoder has hung up, nothing is received.
    ///
    /// The frame handed out is the next window of the stream: taken from where the last
    /// frame ended, or from the start of the stream after a reset. Every item received is
    /// taken in: without a reset, the stream grows by the samples of each chunk and what
    /// the decoder gave for each packet, in the order they came.
    ///
    /// Polling gives up after `u64::MAX` polls in one call.
    pub fn try_pop_frame(&mut self) -> (result: Result<Option<Vec<i16>>, AudioError>)
        requires
            old(self).wf(),
        ensures
            final(self).wf(),
            final(self).forwards() == old(self).forwards(),
            old(self).decoder_done() || old(self).pending().len() >= FRAME_SIZE_SAMPLES ==> {
                &&& frame_view(result) == pop_spec(old(self).pending(), old(self).decoder_done()).0
                &&& final(self).pending() == pop_spec(old(self).pending(), old(self).decoder_done()).1
                &&& final(self).stream() == old(self).stream()
                &&& final(self).resets() == old(self).resets()
                &&& final(self).decoder_done() == old(self).decoder_done()
                &&& final(self).latest_opus() == old(self).latest_opus()
            },
            final(self).resets() == old(self).resets() ==> extends(final(self).stream(), old(self).stream()),
            final(self).read_from(&*old(self)) <= final(self).stream().len(),
            frame_view(result) == pop_spec(final(self).stream().skip(final(self).read_from(&*old(self)) as int), final(self).decoder_done()).0,
            final(self).pending() == pop_spec(final(self).stream().skip(final(self).read_from(&*old(self)) as int), final(self).decoder_done()).1,
            final(self).handed_out() == old(self).handed_out() + frame_samples(frame_view(result)),
            match result {
                Ok(Some(frame)) => frame@.len() == FRAME_SIZE_SAMPLES,
                Ok(None) => !final(self).decoder_done() && final(self).pending().len() < FRAME_SIZE_SAMPLES,
                Err(AudioError::DecoderFinished) => final(self).decoder_done() && final(self).pending().len() == 0,
            },
            extends(final(self).taken(), old(self).taken()),
            extends(final(self).decodes(), old(self).decodes()),
            packet_count(final(self).taken().skip(old(self).taken().len() as int))
                == final(self).decodes().len() - old(self).decodes().len(),
            final(self).resets() == old(self).resets() ==> final(self).stream() == old(self).stream() + intake(
                final(self).taken().skip(old(self).taken().len() as int),
                final(self).decodes().skip(old(self).decodes().len() as int),
            ),
    {
        assert(self.stream().take(old(self).stream().len() as int) =~= old(self).stream());
        assert(self.taken().take(old(self).taken().len() as int) =~= old(self).taken());
        assert(self.decodes().take(old(self).decodes().len() as int) =~= old(self).decodes());
        assert(self.taken().skip(old(self).taken().len() as int) =~= Seq::<Sent>::empty());
        assert(self.decodes().skip(old(self).decodes().len() as int) =~= Seq::<Seq<i16>>::empty());
        assert(old(self).stream() + Seq::<i16>::empty() =~= old(self).stream());
        if !self.decoder_done {
            let mut budget: u64 = u64::MAX;
            while self.pending.pending_len() < FRAME_SIZE_SAMPLES && budget > 0
                invariant
                    self.wf(),
                    self.forwards() == old(self).forwards(),
                    self.handed_out() == old(self).handed_out(),
                    self.consumed() == self.read_from(&*old(self)),
                    self.resets() == old(self).resets() ==> extends(self.stream(), old(self).stream()),
                    self.resets() >= old(self).resets(),
                    old(self).pending().len() >= FRAME_SIZE_SAMPLES ==> *self == *old(self),
                    extends(self.taken(), old(self).taken()),
                    extends(self.decodes(), old(self).decodes()),
                    packet_count(self.taken().skip(old(self).taken().len() as int))
                        == self.decodes().len() - old(self).decodes().len(),
                    self.resets() == old(self).resets() ==> self.stream() == old(self).stream() + intake(
                        self.taken().skip(old(self).taken().len() as int),
                        self.decodes().skip(old(self).decodes().len() as int),
                    ),
                decreases budget,
            {
                budget = budget - 1;
                let ghost t0 = self.taken();
                let ghost d0 = self.decodes();
                let polled = poll_frame(&mut self.frame_rx);
                let ghost before = *self;
                let ghost gp = polled;
                let keep = self.absorb(polled);
                proof {
                    if self.resets() == old(self).resets() {
                        assert(before.resets() == old(self).resets());
                        assert(self.stream().take(old(self).stream().len() as int)
                            =~= before.stream().take(old(self).stream().len() as int));
                    }
                    lemma_absorb_intake(t0, d0, old(self).taken().len() as int, old(self).decodes().len() as int,
                        gp, self.taken(), self.decodes());
                    let nt = old(self).taken().len() as int;
                    let nd = old(self).decodes().len() as int;
                    assert(self.taken().take(nt) =~= t0.take(nt));
                    assert(self.decodes().take(nd) =~= d0.take(nd));
                    if self.resets() == old(self).resets() {
                        match gp {
                            Polled::Frame(AudioFrame::Pcm(chunk)) => {
                                assert(chunk@.len() > 0);
                                assert(self.stream() =~= old(self).stream() + intake(self.taken().skip(nt), self.decodes().skip(nd)));
                            },
                            Polled::Frame(AudioFrame::Opus(_)) => {
                                assert(self.stream() =~= old(self).stream() + intake(self.taken().skip(nt), self.decodes().skip(nd)));
                            },
                            _ => {},
                        }
                    }
                }
                if !keep {
                    break;
                }
            }
        }
        self.pop_ready_frame()
    }

    /// Hands out an Opus packet for passthrough: the one kept by `try_pop_frame` if any,
    /// else the first one taken from the channel, which ends the polling. PCM chunks met
    /// on the way are queued as `push_chunk` does.
    ///
    /// Polling gives up after `u64::MAX` polls in one call.
    pub fn take_opus(&mut self) -> (packet: Option<Vec<u8>>)
        requires
            old(self).wf(),
        ensures
            final(self).wf(),
            final(self).forwards() == old(self).forwards(),
            final(self).latest_opus() == Option::<Seq<u8>>::None,
            final(self).handed_out() == old(self).handed_out(),
            final(self).consumed() == final(self).read_from(&*old(self)),
            final(self).resets() == old(self).resets() ==> extends(final(self).stream(), old(self).stream()),
            old(self).latest_opus().is_some() ==> {
                &&& packet_view(packet) == old(self).latest_opus()
                &&& final(self).stream() == old(self).stream()
                &&& final(self).resets() == old(self).resets()
                &&& final(self).decoder_done() == old(self).decoder_done()
                &&& final(self).taken() == old(self).taken()
            },
            extends(final(self).taken(), old(self).taken()),
            old(self).latest_opus().is_none() ==> match packet {
                Some(p) => {
                    &&& final(self).taken().len() > old(self).taken().len()
                    &&& final(self).taken().last() == Sent::Packet(p@)
                    &&& only_samples(final(self).taken().subrange(old(self).taken().len() as int, final(self).taken().len() - 1))
                },
                None => only_samples(final(self).taken().skip(old(self).taken().len() as int)),
            },
            old(self).latest_opus().is_none() && final(self).resets() == old(self).resets() ==>
                final(self).stream() == old(self).stream() + samples_of(final(self).taken().skip(old(self).taken().len() as int)),
    {
        let kept = self.latest_opus.take();
        match kept {
            Some(packet) => {
                assert(self.stream().take(old(self).stream().len() as int) =~= old(self).stream());
                assert(self.taken().take(old(self).taken().len() as int) =~= old(self).taken());
                return Some(packet);
            },
            None => {},
        }
        assert(self.stream().take(old(self).stream().len() as int) =~= old(self).stream());
        assert(self.taken().take(old(self).taken().len() as int) =~= old(self).taken());
        assert(self.taken().skip(old(self).taken().len() as int) =~= Seq::<Sent>::empty());
        assert(old(self).stream() + Seq::<i16>::empty() =~= old(self).stream());
        let mut budget: u64 = u64::MAX;
        while budget > 0
            invariant
                self.wf(),
                self.forwards() == old(self).forwards(),
                self.latest_opus() == Option::<Seq<u8>>::None,
                self.handed_out() == old(self).handed_out(),
                self.consumed() == self.read_from(&*old(self)),
                self.resets() == old(self).resets() ==> extends(self.stream(), old(self).stream()),
                self.resets() >= old(self).resets(),
                old(self).latest_opus().is_none(),
                extends(self.taken(), old(self).taken()),
                only_samples(self.taken().skip(old(self).taken().len() as int)),
                self.resets() == old(self).resets() ==>
                    self.stream() == old(self).stream() + samples_of(self.taken().skip(old(self).taken().len() as int)),
            decreases budget,
        {
            budget = budget - 1;
            let ghost t0 = self.taken();
            let polled = poll_frame(&mut self.frame_rx);
            let ghost before = *self;
            let ghost pitems = polled_items(polled);
            let (more, packet) = self.take_opus_step(polled);
            proof {
                let n = old(self).taken().len() as int;
                if self.resets() == old(self).resets() {
                    assert(self.stream().take(old(self).stream().len() as int)
                        =~= before.stream().take(old(self).stream().len() as int));
                }
                assert(self.taken() == t0 + pitems);
                assert(self.taken().take(n) =~= t0.take(n));
                assert(self.taken().subrange(n, t0.len() as int) =~= t0.skip(n));
                if pitems.len() == 1 {
                    assert(self.taken().skip(n) =~= t0.skip(n).push(pitems[0]));
                    lemma_samples_of_push(t0.skip(n), pitems[0]);
                } else {
                    assert(self.taken() =~= t0);
                }
                if self.resets() == old(self).resets() {
                    assert(self.stream() =~= old(self).stream() + samples_of(self.taken().skip(n)));
                }
                if more || packet.is_none() {
                    assert forall|i: int| 0 <= i < self.taken().skip(n).len()
                        implies #[trigger] self.taken().skip(n)[i] is Samples by {
                        if n + i < t0.len() {
                            assert(self.taken().skip(n)[i] == t0.skip(n)[i]);
                        }
                    }
                }
            }
            if !more {
                return packet;
            }
        }
        None
    }

    /// Handles one poll of the channel as `take_opus` does, and says whether polling
    /// goes on: an Opus packet is handed out and ends the polling; a PCM chunk is taken
    /// in as `push_chunk` does; an empty or disconnected channel ends the polling with
    /// nothing to hand out.
    pub fn take_opus_step(&mut self, polled: Polled) -> (r: (bool, Option<Vec<u8>>))
        requires
            old(self).wf(),
        ensures
            final(self).wf(),
            final(self).forwards() == old(self).forwards(),
            final(self).sent() == old(self).sent(),
            final(self).taken() == old(self).taken(),
            final(self).decodes() == old(self).decodes(),
            final(self).handed_out() == old(self).handed_out(),
            final(self).latest_opus() == old(self).latest_opus(),
            match polled {
                Polled::Frame(AudioFrame::Opus(p)) => {
                    &&& !r.0
                    &&& packet_view(r.1) == Some(p@)
                    &&& *final(self) == *old(self)
                },
                Polled::Frame(AudioFrame::Pcm(chunk)) => {
                    &&& r.0
                    &&& r.1.is_none()
                    &&& chunk@.len() == 0 ==> {
                        &&& final(self).pending() == Seq::<i16>::empty()
                        &&& final(self).stream() == Seq::<i16>::empty()
                        &&& final(self).consumed() == 0
                        &&& final(self).resets() == old(self).resets() + 1
                        &&& !final(self).decoder_done()
                    }
                    &&& chunk@.len() > 0 ==> {
                        &&& final(self).pending() == old(self).pending() + chunk@
                        &&& final(self).stream() == old(self).stream() + chunk@
                        &&& final(self).consumed() == old(self).consumed()
                        &&& final(self).resets() == old(self).resets()
                        &&& final(self).decoder_done() == old(self).decoder_done()
                    }
                },
                _ => {
                    &&& !r.0
                    &&& r.1.is_none()
                    &&& *final(self) == *old(self)
                },
            },
    {
        match polled {
            Polled::Frame(AudioFrame::Opus(packet)) => (false, Some(packet)),
            Polled::Frame(AudioFrame::Pcm(chunk)) => {
                self.push_chunk(chunk);
                (true, None)
            },
            _ => (false, None),
        }
    }

    /// Sends every full frame waiting downstream; `false` when the downstream channel
    /// has closed. Each frame cut joins the frames handed out, whether or not it could
    /// be sent.
    fn forward_full_frames(&mut self) -> (open: bool)
        requires
            old(self).wf(),
        ensures
            final(self).wf(),
            final(self).forwards() == old(self).forwards(),
            final(self).decoder_done() == old(self).decoder_done(),
            final(self).latest_opus() == old(self).latest_opus(),
            final(self).stream() == old(self).stream(),
            final(self).resets() == old(self).resets(),
            old(self).consumed() <= final(self).consumed(),
            (final(self).consumed() - old(self).consumed()) % (FRAME_SIZE_SAMPLES as int) == 0,
            final(self).handed_out() == old(self).handed_out()
                + old(self).stream().subrange(old(self).consumed() as int, final(self).consumed() as int),
            open ==> final(self).pending().len() < FRAME_SIZE_SAMPLES,
            !old(self).forwards() ==> open && final(self).sent() == old(self).sent(),
            old(self).forwards() ==> {
                &&& extends(final(self).sent(), old(self).sent())
                &&& samples_of(final(self).sent()) == samples_of(old(self).sent())
                    + old(self).stream().subrange(old(self).consumed() as int, final(self).consumed() as int)
            },
            old(self).pending().len() < FRAME_SIZE_SAMPLES ==> open && *final(self) == *old(self),
    {
        proof {
            assert(old(self).sent().take(old(self).sent().len() as int) =~= old(self).sent());
            assert(samples_of(old(self).sent()) =~= samples_of(old(self).sent())
                + old(self).stream().subrange(old(self).consumed() as int, old(self).consumed() as int));
            assert(old(self).handed_out() =~= old(self).handed_out()
                + old(self).stream().subrange(old(self).consumed() as int, old(self).consumed() as int));
        }
        while self.pending.pending_len() >= FRAME_SIZE_SAMPLES
            invariant
                self.wf(),
                self.forwards() == old(self).forwards(),
                self.decoder_done() == old(self).decoder_done(),
                self.latest_opus() == old(self).latest_opus(),
                self.stream() == old(self).stream(),
                self.resets() == old(self).resets(),
                old(self).consumed() <= self.consumed(),
                (self.consumed() - old(self).consumed()) % (FRAME_SIZE_SAMPLES as int) == 0,
                self.handed_out() == old(self).handed_out()
                    + old(self).stream().subrange(old(self).consumed() as int, self.consumed() as int),
                !old(self).forwards() ==> self.sent() == old(self).sent(),
                old(self).forwards() ==> {
                    &&& extends(self.sent(), old(self).sent())
                    &&& samples_of(self.sent()) == samples_of(old(self).sent())
                        + old(self).stream().subrange(old(self).consumed() as int, self.consumed() as int)
                },
                old(self).pending().len() < FRAME_SIZE_SAMPLES ==> *self == *old(self),
            decreases self.pending().len(),
        {
            let ghost before = self.consumed();
            let frame = self.pop_ready_frame().unwrap().unwrap();
            proof {
                let k = before - old(self).consumed();
                assert((k + FRAME_SIZE_SAMPLES) % (FRAME_SIZE_SAMPLES as int) == 0) by {
                    vstd::arithmetic::div_mod::lemma_mod_add_multiples_vanish(k, FRAME_SIZE_SAMPLES as int);
                }
                assert(self.consumed() == before + FRAME_SIZE_SAMPLES);
                assert(frame@ =~= old(self).stream().subrange(before as int, self.consumed() as int));
                assert(self.handed_out() =~= old(self).handed_out()
                    + old(self).stream().subrange(old(self).consumed() as int, self.consumed() as int));
            }
            match self.frame_tx.take() {
                Some(mut down) => {
                    let ghost before_sent = down.log@;
                    let ghost cut_before = old(self).stream().subrange(old(self).consumed() as int, before as int);
                    let ghost fv = frame@;
                    let delivered = send_frame(&mut down, AudioFrame::Pcm(frame));
                    self.frame_tx = Some(down);
                    proof {
                        assert(self.sent() == before_sent.push(Sent::Samples(fv)));
                        lemma_samples_of_push(before_sent, Sent::Samples(fv));
                        assert(cut_before + fv =~= old(self).stream().subrange(old(self).consumed() as int, self.consumed() as int));
                        assert(self.sent().take(old(self).sent().len() as int) =~= before_sent.take(old(self).sent().len() as int));
                        assert forall|i: int| 0 <= i < self.sent().len() implies match #[trigger] self.sent()[i] {
                            Sent::Samples(f) => f.len() == FRAME_SIZE_SAMPLES,
                            Sent::Packet(_) => true,
                        } by {
                            if i < before_sent.len() {
                                assert(self.sent()[i] == before_sent[i]);
                            }
                        }
                    }
                    if !delivered {
                        return false;
                    }
                },
                None => {},
            }
        }
        true
    }

    /// Handles one item received by `run`, and gives whether downstream is still open.
    /// An empty PCM chunk drops what is waiting and starts a new stream; any other PCM
    /// chunk is queued and every whole frame is cut and handed downstream; an Opus packet
    /// is handed downstream as it is. Without a downstream channel frames are cut all the
    /// same and nothing is sent.
    pub fn forward_item(&mut self, item: AudioFrame) -> (open: bool)
        requires
            old(self).wf(),
        ensures
            final(self).wf(),
            final(self).forwards() == old(self).forwards(),
            final(self).decoder_done() == old(self).decoder_done(),
            final(self).latest_opus() == old(self).latest_opus(),
            open ==> final(self).pending().len() < FRAME_SIZE_SAMPLES || item is Opus,
            !old(self).forwards() ==> open && final(self).sent() == old(self).sent(),
            !old(self).forwards() && item is Opus ==> *final(self) == *old(self),
            match item {
                AudioFrame::Pcm(chunk) => {
                    &&& chunk@.len() == 0 ==> {
                        &&& open
                        &&& final(self).stream() == Seq::<i16>::empty()
                        &&& final(self).consumed() == 0
                        &&& final(self).resets() == old(self).resets() + 1
                        &&& final(self).handed_out() == old(self).handed_out()
                        &&& final(self).sent() == old(self).sent()
                    }
                    &&& chunk@.len() > 0 ==> {
                        &&& final(self).stream() == old(self).stream() + chunk@
                        &&& final(self).resets() == old(self).resets()
                        &&& old(self).consumed() <= final(self).consumed()
                        &&& (final(self).consumed() - old(self).consumed()) % (FRAME_SIZE_SAMPLES as int) == 0
                        &&& final(self).handed_out() == old(self).handed_out()
                            + final(self).stream().subrange(old(self).consumed() as int, final(self).consumed() as int)
                        &&& old(self).forwards() ==> {
                            &&& extends(final(self).sent(), old(self).sent())
                            &&& samples_of(final(self).sent()) == samples_of(old(self).sent())
                                + final(self).stream().subrange(old(self).consumed() as int, final(self).consumed() as int)
                        }
                    }
                },
                AudioFrame::Opus(packet) => {
                    &&& final(self).pending() == old(self).pending()
                    &&& final(self).stream() == old(self).stream()
                    &&& final(self).consumed() == old(self).consumed()
                    &&& final(self).resets() == old(self).resets()
                    &&& final(self).handed_out() == old(self).handed_out()
                    &&& old(self).forwards() ==> final(self).sent() == old(self).sent().push(Sent::Packet(packet@))
                },
            },
    {
        match item {
            AudioFrame::Pcm(chunk) => {
                if chunk.len() == 0 {
                    self.reset_stream();
                    true
                } else {
                    self.take_in(chunk.as_slice());
                    self.forward_full_frames()
                }
            },
            AudioFrame::Opus(packet) => {
                match self.frame_tx.take() {
                    Some(mut down) => {
                        let ghost before_sent = down.log@;
                        let ghost pv = packet@;
                        let delivered = send_frame(&mut down, AudioFrame::Opus(packet));
                        self.frame_tx = Some(down);
                        proof {
                            assert(self.sent() == before_sent.push(Sent::Packet(pv)));
                            assert forall|i: int| 0 <= i < self.sent().len() implies match #[trigger] self.sent()[i] {
                                Sent::Samples(f) => f.len() == FRAME_SIZE_SAMPLES,
                                Sent::Packet(_) => true,
                            } by {
                                if i < before_sent.len() {
                                    assert(self.sent()[i] == before_sent[i]);
                                }
                            }
                        }
                        delivered
                    },
                    None => true,
                }
            },
        }
    }

    /// Pumps the channel until the decoder hangs up or the downstream channel closes,
    /// handling each item as `forward_item` does. Every whole frame of the stream is cut
    /// and, with a downstream channel, handed to it in order, between the Opus packets
    /// passed through; without one, nothing is sent.
    ///
    /// Waiting gives up after `u64::MAX` frames in one call.
    pub fn run(&mut self)
        requires
            old(self).wf(),
        ensures
            final(self).wf(),
            final(self).forwards() == old(self).forwards(),
            final(self).decoder_done() == old(self).decoder_done(),
            final(self).latest_opus() == old(self).latest_opus(),
            final(self).resets() >= old(self).resets(),
            final(self).read_from(&*old(self)) <= final(self).consumed(),
            (final(self).consumed() - final(self).read_from(&*old(self))) % (FRAME_SIZE_SAMPLES as int) == 0,
            extends(final(self).handed_out(), old(self).handed_out()),
            final(self).resets() == old(self).resets() ==> {
                &&& extends(final(self).stream(), old(self).stream())
                &&& final(self).handed_out() == old(self).handed_out()
                    + final(self).stream().subrange(old(self).consumed() as int, final(self).consumed() as int)
            },
            !old(self).forwards() ==> final(self).sent() == old(self).sent(),
            old(self).forwards() ==> {
                &&& extends(final(self).sent(), old(self).sent())
                &&& samples_of(final(self).sent()) == samples_of(old(self).sent())
                    + final(self).handed_out().skip(old(self).handed_out().len() as int)
            },
            !old(self).forwards() ==> final(self).pending().len() < FRAME_SIZE_SAMPLES
                || *final(self) == *old(self),
    {
        proof {
            assert(old(self).stream().take(old(self).stream().len() as int) =~= old(self).stream());
            assert(old(self).handed_out().take(old(self).handed_out().len() as int) =~= old(self).handed_out());
            assert(old(self).sent().take(old(self).sent().len() as int) =~= old(self).sent());
            assert(old(self).handed_out() =~= old(self).handed_out()
                + old(self).stream().subrange(old(self).consumed() as int, old(self).consumed() as int));
            assert(samples_of(old(self).sent()) =~= samples_of(old(self).sent())
                + old(self).handed_out().skip(old(self).handed_out().len() as int));
        }
        let mut budget: u64 = u64::MAX;
        while budget > 0
            invariant
                self.wf(),
                self.forwards() == old(self).forwards(),
                self.decoder_done() == old(self).decoder_done(),
                self.latest_opus() == old(self).latest_opus(),
                self.resets() >= old(self).resets(),
                self.read_from(&*old(self)) <= self.consumed(),
                (self.consumed() - self.read_from(&*old(self))) % (FRAME_SIZE_SAMPLES as int) == 0,
                extends(self.handed_out(), old(self).handed_out()),
                self.resets() == old(self).resets() ==> {
                    &&& extends(self.stream(), old(self).stream())
                    &&& self.handed_out() == old(self).handed_out()
                        + self.stream().subrange(old(self).consumed() as int, self.consumed() as int)
                },
                !old(self).forwards() ==> self.sent() == old(self).sent(),
                old(self).forwards() ==> {
                    &&& extends(self.sent(), old(self).sent())
                    &&& samples_of(self.sent()) == samples_of(old(self).sent())
                        + self.handed_out().skip(old(self).handed_out().len() as int)
                },
                !old(self).forwards() ==> self.pending().len() < FRAME_SIZE_SAMPLES || *self == *old(self),
            decreases budget,
        {
            budget = budget - 1;
            match wait_frame(&self.frame_rx.rx) {
                Some(item) => {
                    let ghost before = *self;
                    let ghost it = item;
                    let open = self.forward_item(item);
                    proof {
                        assert(before.wf());
                        lemma_run_step(before, *self, *old(self), it);
                    }
                    if !open {
                        return;
                    }
                },
                None => {
                    return;
                },
            }
        }
    }
}

/// One item handled in `run` keeps what `run` states of its progress so far.
proof fn lemma_run_step<D: OpusDecoder>(before: FlowController<D>, after: FlowController<D>, origin: FlowController<D>, item: AudioFrame)
    requires
        before.forwards() == origin.forwards(),
        after.forwards() == before.forwards(),
        before.resets() >= origin.resets(),
        before.read_from(&origin) <= before.consumed(),
        (before.consumed() - before.read_from(&origin)) % (FRAME_SIZE_SAMPLES as int) == 0,
        extends(before.handed_out(), origin.handed_out()),
        before.resets() == origin.resets() ==> {
            &&& extends(before.stream(), origin.stream())
            &&& before.handed_out() == origin.handed_out()
                + before.stream().subrange(origin.consumed() as int, before.consumed() as int)
        },
        !origin.forwards() ==> before.sent() == origin.sent(),
        origin.forwards() ==> {
            &&& extends(before.sent(), origin.sent())
            &&& samples_of(before.sent()) == samples_of(origin.sent())
                + before.handed_out().skip(origin.handed_out().len() as int)
        },
        after.consumed() <= after.stream().len(),
        before.consumed() <= before.stream().len(),
        !before.forwards() ==> after.sent() == before.sent(),
        match item {
            AudioFrame::Pcm(chunk) => {
                &&& chunk@.len() == 0 ==> {
                    &&& after.stream() == Seq::<i16>::empty()
                    &&& after.consumed() == 0
                    &&& after.resets() == before.resets() + 1
                    &&& after.handed_out() == before.handed_out()
                    &&& after.sent() == before.sent()
                }
                &&& chunk@.len() > 0 ==> {
                    &&& after.stream() == before.stream() + chunk@
                    &&& after.resets() == before.resets()
                    &&& before.consumed() <= after.consumed()
                    &&& (after.consumed() - before.consumed()) % (FRAME_SIZE_SAMPLES as int) == 0
                    &&& after.handed_out() == before.handed_out()
                        + after.stream().subrange(before.consumed() as int, after.consumed() as int)
                    &&& before.forwards() ==> {
                        &&& extends(after.sent(), before.sent())
                        &&& samples_of(after.sent()) == samples_of(before.sent())
                            + after.stream().subrange(before.consumed() as int, after.consumed() as int)
                    }
                }
            },
            AudioFrame::Opus(packet) => {
                &&& after.stream() == before.stream()
                &&& after.consumed() == before.consumed()
                &&& after.resets() == before.resets()
                &&& after.handed_out() == before.handed_out()
                &&& before.forwards() ==> after.sent() == before.sent().push(Sent::Packet(packet@))
            },
        },
    ensures
        after.resets() >= origin.resets(),
        after.read_from(&origin) <= after.consumed(),
        (after.consumed() - after.read_from(&origin)) % (FRAME_SIZE_SAMPLES as int) == 0,
        extends(after.handed_out(), origin.handed_out()),
        after.resets() == origin.resets() ==> {
            &&& extends(after.stream(), origin.stream())
            &&& after.handed_out() == origin.handed_out()
                + after.stream().subrange(origin.consumed() as int, after.consumed() as int)
        },
        !origin.forwards() ==> after.sent() == origin.sent(),
        origin.forwards() ==> {
            &&& extends(after.sent(), origin.sent())
            &&& samples_of(after.sent()) == samples_of(origin.sent())
                + after.handed_out().skip(origin.handed_out().len() as int)
        },
{
    let f = FRAME_SIZE_SAMPLES as int;
    let hl = origin.handed_out().len() as int;
    match item {
        AudioFrame::Opus(packet) => {
            if origin.forwards() {
                lemma_samples_of_push(before.sent(), Sent::Packet(packet@));
                assert(samples_of(after.sent()) =~= samples_of(before.sent()));
                assert(after.sent().take(origin.sent().len() as int) =~= before.sent().take(origin.sent().len() as int));
            }
        },
        AudioFrame::Pcm(chunk) => {
            if chunk@.len() == 0 {
            } else {
                let delta = after.stream().subrange(before.consumed() as int, after.consumed() as int);
                let r0 = before.read_from(&origin);
                let d1 = before.consumed() - r0;
                let d2 = after.consumed() - before.consumed();
                vstd::arithmetic::div_mod::lemma_add_mod_noop(d1, d2, f);
                assert(after.handed_out().take(hl) =~= before.handed_out().take(hl));
                assert(after.handed_out().skip(hl) =~= before.handed_out().skip(hl) + delta);
                if origin.forwards() {
                    assert(after.sent().take(origin.sent().len() as int) =~= before.sent().take(origin.sent().len() as int));
                    assert(samples_of(after.sent()) =~= samples_of(origin.sent()) + after.handed_out().skip(hl));
                }
                if after.resets() == origin.resets() {
                    assert(after.stream().take(origin.stream().len() as int)
                        =~= before.stream().take(origin.stream().len() as int));
                    assert(before.stream().subrange(origin.consumed() as int, before.consumed() as int)
                        =~= after.stream().subrange(origin.consumed() as int, before.consumed() as int));
                    assert(after.stream().subrange(origin.consumed() as int, before.consumed() as int)
                        + after.stream().subrange(before.consumed() as int, after.consumed() as int)
                        =~= after.stream().subrange(origin.consumed() as int, after.consumed() as int));
                    assert(after.handed_out() =~= origin.handed_out()
                        + after.stream().subrange(origin.consumed() as int, after.consumed() as int));
                }
            }
        },
    }
}

/// The samples an optional decoding gave.
pub open spec fn decoded_samples(decoded: Option<Vec<i16>>) -> Seq<i16> {
    match decoded {
        Some(d) => d@,
        None => Seq::empty(),
    }
}

/// Every frame handed out holds exactly `FRAME_SIZE_SAMPLES` samples.
pub proof fn law_frames_are_whole(pending: Seq<i16>, done: bool)
    ensures
        match pop_spec(pending, done).0 {
            Ok(Some(f)) => f.len() == FRAME_SIZE_SAMPLES,
            _ => true,
        },
{
}

/// Popping keeps the order of the samples and loses none: the samples of the frame
/// handed out, followed by those that stay, are the samples that waited; whatever else
/// the frame holds is trailing silence.
pub proof fn law_pop_keeps_samples(pending: Seq<i16>, done: bool)
    ensures
        ({
            let (out, rest) = pop_spec(pending, done);
            let used = pending.len() - rest.len();
            &&& 0 <= used <= pending.len()
            &&& match out {
                Ok(Some(f)) => {
                    &&& f.take(used) + rest == pending
                    &&& f.skip(used) == silence((FRAME_SIZE_SAMPLES - used) as nat)
                },
                _ => rest == pending,
            }
        }),
{
    let (out, rest) = pop_spec(pending, done);
    if pending.len() >= FRAME_SIZE_SAMPLES {
        let f = pending.take(FRAME_SIZE_SAMPLES as int);
        assert(f.take(FRAME_SIZE_SAMPLES as int) + rest =~= pending);
        assert(f.skip(FRAME_SIZE_SAMPLES as int) =~= silence(0));
    } else if done && pending.len() > 0 {
        let f = pending + silence((FRAME_SIZE_SAMPLES - pending.len()) as nat);
        assert(f.take(pending.len() as int) + rest =~= pending);
        assert(f.skip(pending.len() as int) =~= silence((FRAME_SIZE_SAMPLES - pending.len()) as nat));
    }
}

/// Frames are consecutive windows of the stream: popping from read position `c` of a
/// stream that holds a full frame past `c` hands out exactly the samples from `c` to
/// `c + FRAME_SIZE_SAMPLES` and leaves those from `c + FRAME_SIZE_SAMPLES` on.
pub proof fn law_frames_are_consecutive_windows(stream: Seq<i16>, c: int, done: bool)
    requires
        0 <= c,
        c + FRAME_SIZE_SAMPLES <= stream.len(),
    ensures
        pop_spec(stream.skip(c), done) == (
            Result::<Option<Seq<i16>>, AudioError>::Ok(Some(stream.subrange(c, c + FRAME_SIZE_SAMPLES))),
            stream.skip(c + FRAME_SIZE_SAMPLES),
        ),
{
    assert(stream.skip(c).take(FRAME_SIZE_SAMPLES as int) =~= stream.subrange(c, c + FRAME_SIZE_SAMPLES));
    assert(stream.skip(c).skip(FRAME_SIZE_SAMPLES as int) =~= stream.skip(c + FRAME_SIZE_SAMPLES));
}

/// Once the decoder has hung up, popping empties the queue frame by frame and then
/// answers `DecoderFinished` for good.
pub proof fn law_finished_stream_drains(pending: Seq<i16>)
    ensures
        pending.len() > 0 ==> pop_spec(pending, true).1.len() < pending.len()
            && pop_spec(pending, true).0 is Ok,
        pending.len() == 0 ==> pop_spec(pending, true) == (Result::<Option<Seq<i16>>, AudioError>::Err(AudioError::DecoderFinished), pending),
{
}

proof fn lemma_samples_of_append(a: Seq<Sent>, b: Seq<Sent>)
    ensures
        samples_of(a + b) == samples_of(a) + samples_of(b),
    decreases b.len(),
{
    if b.len() == 0 {
        assert(a + b =~= a);
        assert(samples_of(a) + samples_of(b) =~= samples_of(a));
    } else {
        lemma_samples_of_append(a, b.drop_last());
        assert((a + b).drop_last() =~= a + b.drop_last());
        assert((a + b).last() == b.last());
        assert(samples_of(a + b) =~= samples_of(a) + samples_of(b));
    }
}

proof fn lemma_samples_of_len(items: Seq<Sent>)
    requires
        whole_frames(items),
    ensures
        samples_of(items).len() == (items.len() - packet_count(items)) * FRAME_SIZE_SAMPLES,
        packet_count(items) <= items.len(),
    decreases items.len(),
{
    if items.len() > 0 {
        let rest = items.drop_last();
        assert forall|j: int| 0 <= j < rest.len() implies match #[trigger] rest[j] {
            Sent::Samples(f) => f.len() == FRAME_SIZE_SAMPLES,
            Sent::Packet(_) => true,
        } by {
            assert(rest[j] == items[j]);
        }
        lemma_samples_of_len(rest);
        assert(items[items.len() - 1] == items.last());
    }
}

/// The frames handed to the downstream channel are consecutive windows of the samples
/// it was handed: the frame at position `i` of the log, with `k` frames before it, holds
/// samples `k * FRAME_SIZE_SAMPLES` up to `(k + 1) * FRAME_SIZE_SAMPLES` of them.
pub proof fn law_sent_frames_are_consecutive_windows(items: Seq<Sent>, i: int)
    requires
        whole_frames(items),
        0 <= i < items.len(),
        items[i] is Samples,
    ensures
        ({
            let k = i - packet_count(items.take(i));
            items[i] == Sent::Samples(samples_of(items).subrange(
                k * FRAME_SIZE_SAMPLES,
                (k + 1) * FRAME_SIZE_SAMPLES,
            ))
        }),
{
    let head = items.take(i);
    let f = items[i]->Samples_0;
    assert forall|j: int| 0 <= j < head.len() implies match #[trigger] head[j] {
        Sent::Samples(g) => g.len() == FRAME_SIZE_SAMPLES,
        Sent::Packet(_) => true,
    } by {
        assert(head[j] == items[j]);
    }
    lemma_samples_of_len(head);
    assert(f.len() == FRAME_SIZE_SAMPLES);
    lemma_samples_of_push(head, items[i]);
    assert(items.take(i + 1) =~= head.push(items[i]));
    assert(items =~= items.take(i + 1) + items.skip(i + 1));
    lemma_samples_of_append(items.take(i + 1), items.skip(i + 1));
    let k = i - packet_count(head);
    assert(samples_of(items).subrange(k * FRAME_SIZE_SAMPLES, (k + 1) * FRAME_SIZE_SAMPLES) =~= f);
}

/// Once the decoder has hung up, a queue shorter than a frame is handed out by one pop,
/// all its samples at the front of the frame and silence after them, and nothing stays
/// behind.
pub proof fn law_end_of_stream_pops_rest_at_once(pending: Seq<i16>)
    requires
        0 < pending.len() < FRAME_SIZE_SAMPLES,
    ensures
        pop_spec(pending, true) == (
            Result::<Option<Seq<i16>>, AudioError>::Ok(Some(pending + silence((FRAME_SIZE_SAMPLES - pending.len()) as nat))),
            Seq::<i16>::empty(),
        ),
{
}

/// While the decoder is running, a queue shorter than a frame hands out nothing and
/// keeps its samples.
pub proof fn law_short_queue_waits(pending: Seq<i16>)
    requires
        pending.len() < FRAME_SIZE_SAMPLES,
    ensures
        pop_spec(pending, false) == (Result::<Option<Seq<i16>>, AudioError>::Ok(None), pending),
{
}

} // verus!
