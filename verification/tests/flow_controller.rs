use lavende::{AudioError, AudioFrame, FlowController, OpusDecoder, Polled, FRAME_SIZE_SAMPLES};

/// Decodes every packet into as many samples as the packet has bytes, each equal to the
/// packet's first byte.
struct ByteDecoder;

impl OpusDecoder for ByteDecoder {
    fn decode_packet(&mut self, packet: &[u8]) -> Option<Vec<i16>> {
        if packet.is_empty() {
            None
        } else {
            Some(vec![packet[0] as i16; packet.len()])
        }
    }
}

fn mixer_flow() -> (flume::Sender<AudioFrame>, FlowController<ByteDecoder>) {
    let (tx, rx) = flume::unbounded();
    (tx, FlowController::for_mixer(rx, ByteDecoder))
}

#[test]
fn not_ready_until_a_full_frame() {
    let (tx, mut fc) = mixer_flow();
    tx.send(AudioFrame::Pcm(vec![1; 100])).unwrap();
    assert!(matches!(fc.try_pop_frame(), Ok(None)));
    assert_eq!(fc.pending_len(), 100);
}

#[test]
fn full_frame_from_several_chunks() {
    let (tx, mut fc) = mixer_flow();
    tx.send(AudioFrame::Pcm(vec![1; 1000])).unwrap();
    tx.send(AudioFrame::Pcm(vec![2; 1000])).unwrap();
    let frame = fc.try_pop_frame().ok().flatten().unwrap();
    assert_eq!(frame.len(), FRAME_SIZE_SAMPLES);
    assert!(frame[..1000].iter().all(|&s| s == 1));
    assert!(frame[1000..].iter().all(|&s| s == 2));
    assert_eq!(fc.pending_len(), 2000 - FRAME_SIZE_SAMPLES);
}

#[test]
fn empty_chunk_resets_pending() {
    let (tx, mut fc) = mixer_flow();
    tx.send(AudioFrame::Pcm(vec![1; 500])).unwrap();
    tx.send(AudioFrame::Pcm(vec![])).unwrap();
    tx.send(AudioFrame::Pcm(vec![3; 10])).unwrap();
    assert!(matches!(fc.try_pop_frame(), Ok(None)));
    assert_eq!(fc.pending_len(), 10);
}

#[test]
fn end_of_stream_pads_then_finishes() {
    let (tx, mut fc) = mixer_flow();
    tx.send(AudioFrame::Pcm(vec![5; FRAME_SIZE_SAMPLES + 4])).unwrap();
    drop(tx);
    let first = fc.try_pop_frame().ok().flatten().unwrap();
    assert!(first.iter().all(|&s| s == 5));
    let last = fc.try_pop_frame().ok().flatten().unwrap();
    assert_eq!(last.len(), FRAME_SIZE_SAMPLES);
    assert_eq!(last[..4], [5, 5, 5, 5]);
    assert!(last[4..].iter().all(|&s| s == 0));
    assert!(fc.is_decoder_done());
    assert!(matches!(fc.try_pop_frame(), Err(AudioError::DecoderFinished)));
    assert!(matches!(fc.try_pop_frame(), Err(AudioError::DecoderFinished)));
}

#[test]
fn opus_packets_are_decoded_and_kept() {
    let (tx, mut fc) = mixer_flow();
    tx.send(AudioFrame::Opus(vec![9; FRAME_SIZE_SAMPLES])).unwrap();
    let frame = fc.try_pop_frame().ok().flatten().unwrap();
    assert!(frame.iter().all(|&s| s == 9));
    assert_eq!(fc.take_opus(), Some(vec![9; FRAME_SIZE_SAMPLES]));
    assert_eq!(fc.take_opus(), None);
}

#[test]
fn undecodable_packet_adds_nothing() {
    let (tx, mut fc) = mixer_flow();
    tx.send(AudioFrame::Opus(vec![])).unwrap();
    assert!(matches!(fc.try_pop_frame(), Ok(None)));
    assert_eq!(fc.pending_len(), 0);
    assert_eq!(fc.take_opus(), Some(vec![]));
}

#[test]
fn take_opus_queues_pcm_on_the_way() {
    let (tx, mut fc) = mixer_flow();
    tx.send(AudioFrame::Pcm(vec![4; 30])).unwrap();
    tx.send(AudioFrame::Opus(vec![1, 2, 3])).unwrap();
    assert_eq!(fc.take_opus(), Some(vec![1, 2, 3]));
    assert_eq!(fc.pending_len(), 30);
}

#[test]
fn take_opus_on_empty_channel() {
    let (_tx, mut fc) = mixer_flow();
    assert_eq!(fc.take_opus(), None);
}

#[test]
fn absorb_steps() {
    let (_tx, mut fc) = mixer_flow();
    assert!(fc.absorb(Polled::Frame(AudioFrame::Pcm(vec![1, 2]))));
    assert_eq!(fc.pending_len(), 2);
    assert!(fc.absorb(Polled::Frame(AudioFrame::Opus(vec![7, 7, 7]))));
    assert_eq!(fc.pending_len(), 5);
    assert!(!fc.absorb(Polled::Empty));
    assert!(!fc.is_decoder_done());
    assert!(!fc.absorb(Polled::Disconnected));
    assert!(fc.is_decoder_done());
}

#[test]
fn pop_ready_frame_without_input() {
    let (_tx, mut fc) = mixer_flow();
    fc.push_chunk(vec![3; 10]);
    assert!(matches!(fc.pop_ready_frame(), Ok(None)));
    fc.accept_decoded(vec![0], Some(vec![4; FRAME_SIZE_SAMPLES]));
    let f = fc.pop_ready_frame().ok().flatten().unwrap();
    assert_eq!(f[..10], [3; 10]);
    assert_eq!(f[10], 4);
    assert_eq!(fc.pending_len(), 10);
}

#[test]
fn run_forwards_frames_and_packets() {
    let (in_tx, in_rx) = flume::unbounded();
    let (out_tx, out_rx) = flume::unbounded();
    let mut fc = FlowController::new(in_rx, out_tx, ByteDecoder);
    in_tx.send(AudioFrame::Pcm(vec![2; FRAME_SIZE_SAMPLES * 2 + 1])).unwrap();
    in_tx.send(AudioFrame::Opus(vec![8, 8])).unwrap();
    drop(in_tx);
    fc.run();
    let got: Vec<AudioFrame> = out_rx.try_iter().collect();
    assert_eq!(got.len(), 3);
    match &got[0] {
        AudioFrame::Pcm(f) => assert_eq!(f.len(), FRAME_SIZE_SAMPLES),
        _ => panic!("expected PCM"),
    }
    match &got[2] {
        AudioFrame::Opus(p) => assert_eq!(p, &vec![8, 8]),
        _ => panic!("expected Opus"),
    }
    assert_eq!(fc.pending_len(), 1);
}

#[test]
fn run_stops_when_downstream_closes() {
    let (in_tx, in_rx) = flume::unbounded();
    let (out_tx, out_rx) = flume::unbounded::<AudioFrame>();
    let mut fc = FlowController::new(in_rx, out_tx, ByteDecoder);
    drop(out_rx);
    in_tx.send(AudioFrame::Pcm(vec![1; FRAME_SIZE_SAMPLES])).unwrap();
    fc.run();
    assert_eq!(fc.pending_len(), 0);
}

#[test]
fn forward_item_cuts_and_sends_frames() {
    let (_in_tx, in_rx) = flume::unbounded();
    let (out_tx, out_rx) = flume::unbounded();
    let mut fc = FlowController::new(in_rx, out_tx, ByteDecoder);
    assert!(fc.forward_item(AudioFrame::Pcm(vec![3; FRAME_SIZE_SAMPLES + 5])));
    assert_eq!(fc.pending_len(), 5);
    assert!(fc.forward_item(AudioFrame::Opus(vec![4, 5])));
    assert!(fc.forward_item(AudioFrame::Pcm(vec![])));
    assert_eq!(fc.pending_len(), 0);
    let got: Vec<AudioFrame> = out_rx.try_iter().collect();
    assert_eq!(got.len(), 2);
    assert!(matches!(&got[0], AudioFrame::Pcm(f) if f.len() == FRAME_SIZE_SAMPLES && f.iter().all(|&s| s == 3)));
    assert!(matches!(&got[1], AudioFrame::Opus(p) if p == &vec![4, 5]));
}

#[test]
fn forward_item_without_downstream_cuts_frames() {
    let (_tx, mut fc) = mixer_flow();
    assert!(fc.forward_item(AudioFrame::Pcm(vec![1; 2 * FRAME_SIZE_SAMPLES + 1])));
    assert_eq!(fc.pending_len(), 1);
    assert!(fc.forward_item(AudioFrame::Opus(vec![9])));
    assert_eq!(fc.pending_len(), 1);
}

#[test]
fn take_opus_step_cases() {
    let (_tx, mut fc) = mixer_flow();
    let (more, p) = fc.take_opus_step(Polled::Frame(AudioFrame::Pcm(vec![2; 7])));
    assert!(more && p.is_none());
    assert_eq!(fc.pending_len(), 7);
    let (more, p) = fc.take_opus_step(Polled::Frame(AudioFrame::Opus(vec![6])));
    assert!(!more);
    assert_eq!(p, Some(vec![6]));
    let (more, p) = fc.take_opus_step(Polled::Empty);
    assert!(!more && p.is_none());
    let (more, p) = fc.take_opus_step(Polled::Disconnected);
    assert!(!more && p.is_none());
    assert!(!fc.is_decoder_done());
    assert_eq!(fc.pending_len(), 7);
}
