use lavende::{clamp_sample, AudioFrame, FlowController, Mixer, OpusDecoder, FRAME_SIZE_SAMPLES};
use std::sync::atomic::{AtomicBool, AtomicU64, Ordering};
use std::sync::Arc;

struct NoDecoder;

impl OpusDecoder for NoDecoder {
    fn decode_packet(&mut self, _packet: &[u8]) -> Option<Vec<i16>> {
        None
    }
}

struct Track {
    tx: flume::Sender<AudioFrame>,
    position: Arc<AtomicU64>,
    buffering: Arc<AtomicBool>,
}

fn add(mixer: &mut Mixer<NoDecoder>) -> Track {
    let (tx, rx) = flume::unbounded();
    let position = Arc::new(AtomicU64::new(0));
    let buffering = Arc::new(AtomicBool::new(false));
    mixer.add_track(FlowController::for_mixer(rx, NoDecoder), position.clone(), buffering.clone());
    Track { tx, position, buffering }
}

#[test]
fn clamp_keeps_and_saturates() {
    assert_eq!(clamp_sample(1234), 1234);
    assert_eq!(clamp_sample(-32768), -32768);
    assert_eq!(clamp_sample(40000), 32767);
    assert_eq!(clamp_sample(-40000), -32768);
}

#[test]
fn no_active_track_leaves_buffer() {
    let mut mixer: Mixer<NoDecoder> = Mixer::new();
    let _t = add(&mut mixer);
    let mut buf = vec![3i16; 8];
    assert!(!mixer.mix(&[], &mut buf));
    assert_eq!(buf, vec![3i16; 8]);
}

#[test]
fn single_track_is_copied_then_silence() {
    let mut mixer: Mixer<NoDecoder> = Mixer::new();
    let t = add(&mut mixer);
    t.tx.send(AudioFrame::Pcm(vec![7; FRAME_SIZE_SAMPLES])).unwrap();
    let mut buf = vec![1i16; FRAME_SIZE_SAMPLES + 10];
    assert!(mixer.mix(&[0], &mut buf));
    assert!(buf[..FRAME_SIZE_SAMPLES].iter().all(|&s| s == 7));
    assert!(buf[FRAME_SIZE_SAMPLES..].iter().all(|&s| s == 0));
    assert_eq!(t.position.load(Ordering::Relaxed), (FRAME_SIZE_SAMPLES / 2) as u64);
    assert!(!t.buffering.load(Ordering::Relaxed));
}

#[test]
fn leftover_of_a_frame_plays_next_time() {
    let mut mixer: Mixer<NoDecoder> = Mixer::new();
    let t = add(&mut mixer);
    let frame: Vec<i16> = (0..FRAME_SIZE_SAMPLES as i16).collect();
    t.tx.send(AudioFrame::Pcm(frame.clone())).unwrap();
    let mut first = vec![0i16; 1000];
    assert!(mixer.mix(&[0], &mut first));
    assert_eq!(first[..], frame[..1000]);
    let mut second = vec![0i16; 1000];
    assert!(mixer.mix(&[0], &mut second));
    assert_eq!(second[..FRAME_SIZE_SAMPLES - 1000], frame[1000..]);
    assert!(second[FRAME_SIZE_SAMPLES - 1000..].iter().all(|&s| s == 0));
}

#[test]
fn starving_track_reports_buffering() {
    let mut mixer: Mixer<NoDecoder> = Mixer::new();
    let t = add(&mut mixer);
    let mut buf = vec![5i16; 16];
    assert!(!mixer.mix(&[0], &mut buf));
    assert!(buf.iter().all(|&s| s == 0));
    assert!(t.buffering.load(Ordering::Relaxed));
    assert_eq!(t.position.load(Ordering::Relaxed), 0);
}

#[test]
fn two_tracks_sum_and_clamp() {
    let mut mixer: Mixer<NoDecoder> = Mixer::new();
    let a = add(&mut mixer);
    let b = add(&mut mixer);
    a.tx.send(AudioFrame::Pcm(vec![30000; FRAME_SIZE_SAMPLES])).unwrap();
    b.tx.send(AudioFrame::Pcm(vec![10000; FRAME_SIZE_SAMPLES])).unwrap();
    let mut buf = vec![0i16; 4];
    assert!(mixer.mix(&[0, 1], &mut buf));
    assert_eq!(buf, vec![32767; 4]);
}

#[test]
fn two_tracks_sum_within_range() {
    let mut mixer: Mixer<NoDecoder> = Mixer::new();
    let a = add(&mut mixer);
    let b = add(&mut mixer);
    a.tx.send(AudioFrame::Pcm(vec![-100; FRAME_SIZE_SAMPLES])).unwrap();
    b.tx.send(AudioFrame::Pcm(vec![250; FRAME_SIZE_SAMPLES])).unwrap();
    let mut buf = vec![0i16; 6];
    assert!(mixer.mix(&[0, 1], &mut buf));
    assert_eq!(buf, vec![150; 6]);
}

#[test]
fn mix_of_silent_tracks_has_no_audio() {
    let mut mixer: Mixer<NoDecoder> = Mixer::new();
    let _a = add(&mut mixer);
    let _b = add(&mut mixer);
    let mut buf = vec![9i16; 6];
    assert!(!mixer.mix(&[0, 1], &mut buf));
    assert_eq!(buf, vec![0; 6]);
}

#[test]
fn finished_track_is_not_buffering() {
    let mut mixer: Mixer<NoDecoder> = Mixer::new();
    let t = add(&mut mixer);
    t.tx.send(AudioFrame::Pcm(vec![4; 3])).unwrap();
    drop(t.tx);
    let mut buf = vec![1i16; FRAME_SIZE_SAMPLES];
    assert!(mixer.mix(&[0], &mut buf));
    assert_eq!(buf[..3], [4, 4, 4]);
    assert!(buf[3..].iter().all(|&s| s == 0));
    let mut again = vec![1i16; 6];
    assert!(!mixer.mix(&[0], &mut again));
    assert!(!t.buffering.load(Ordering::Relaxed));
}

#[test]
fn opus_passthrough_needs_exactly_one_track() {
    let mut mixer: Mixer<NoDecoder> = Mixer::new();
    let a = add(&mut mixer);
    let _b = add(&mut mixer);
    a.tx.send(AudioFrame::Opus(vec![1, 2])).unwrap();
    assert_eq!(mixer.take_opus_frame(&[0, 1], true), None);
    assert_eq!(mixer.take_opus_frame(&[0], false), None);
    assert_eq!(a.position.load(Ordering::Relaxed), 0);
    assert_eq!(mixer.take_opus_frame(&[0], true), Some(vec![1, 2]));
    assert_eq!(a.position.load(Ordering::Relaxed), 960);
    assert_eq!(mixer.take_opus_frame(&[0], true), None);
}

#[test]
fn stop_all_drops_tracks() {
    let mut mixer: Mixer<NoDecoder> = Mixer::new();
    let _a = add(&mut mixer);
    mixer.set_passthrough_track(0);
    mixer.stop_all();
    let mut buf = vec![2i16; 4];
    assert!(!mixer.mix(&[], &mut buf));
}

#[test]
fn silent_partner_leaves_mix_unchanged() {
    let mut mixer: Mixer<NoDecoder> = Mixer::new();
    let a = add(&mut mixer);
    let _silent = add(&mut mixer);
    let samples: Vec<i16> = (0..FRAME_SIZE_SAMPLES as i16).map(|i| i - 900).collect();
    a.tx.send(AudioFrame::Pcm(samples.clone())).unwrap();
    let mut buf = vec![0i16; FRAME_SIZE_SAMPLES];
    assert!(mixer.mix(&[0, 1], &mut buf));
    assert_eq!(buf, samples);
}

#[test]
fn mix_order_does_not_matter() {
    let run = |first: i16, second: i16| {
        let mut mixer: Mixer<NoDecoder> = Mixer::new();
        let a = add(&mut mixer);
        let b = add(&mut mixer);
        a.tx.send(AudioFrame::Pcm(vec![first; FRAME_SIZE_SAMPLES])).unwrap();
        b.tx.send(AudioFrame::Pcm(vec![second; FRAME_SIZE_SAMPLES])).unwrap();
        let mut buf = vec![0i16; 8];
        mixer.mix(&[0, 1], &mut buf);
        buf
    };
    assert_eq!(run(-20000, -20000), run(-20000, -20000));
    assert_eq!(run(1200, -300), run(-300, 1200));
    assert_eq!(run(1200, -300), vec![900; 8]);
    assert_eq!(run(-20000, -15000), vec![-32768; 8]);
}

#[test]
fn retain_tracks_keeps_order() {
    let mut mixer: Mixer<NoDecoder> = Mixer::new();
    let a = add(&mut mixer);
    let b = add(&mut mixer);
    let c = add(&mut mixer);
    a.tx.send(AudioFrame::Pcm(vec![1; FRAME_SIZE_SAMPLES])).unwrap();
    b.tx.send(AudioFrame::Pcm(vec![2; FRAME_SIZE_SAMPLES])).unwrap();
    c.tx.send(AudioFrame::Pcm(vec![3; FRAME_SIZE_SAMPLES])).unwrap();
    mixer.retain_tracks(&[true, false, true]);
    let mut buf = vec![0i16; 4];
    assert!(mixer.mix(&[1], &mut buf));
    assert_eq!(buf, vec![3; 4]);
    let mut buf = vec![0i16; 4];
    assert!(mixer.mix(&[0], &mut buf));
    assert_eq!(buf, vec![1; 4]);
}
