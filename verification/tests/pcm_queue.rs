use lavende::{PcmQueue, FRAME_SIZE_SAMPLES};

fn ramp(start: i16, n: usize) -> Vec<i16> {
    (0..n).map(|i| start.wrapping_add(i as i16)).collect()
}

#[test]
fn new_queue_is_empty() {
    let q = PcmQueue::new();
    assert_eq!(q.pending_len(), 0);
}

#[test]
fn extend_counts_samples() {
    let mut q = PcmQueue::new();
    q.extend(&[1, 2, 3]);
    q.extend(&[4]);
    assert_eq!(q.pending_len(), 4);
}

#[test]
fn take_frame_keeps_order_across_chunks() {
    let mut q = PcmQueue::new();
    let a = ramp(0, 1000);
    let b = ramp(1000, 1500);
    q.extend(&a);
    q.extend(&b);
    let frame = q.take_frame();
    assert_eq!(frame.len(), FRAME_SIZE_SAMPLES);
    let mut all = a.clone();
    all.extend_from_slice(&b);
    assert_eq!(frame[..], all[..FRAME_SIZE_SAMPLES]);
    assert_eq!(q.pending_len(), 2500 - FRAME_SIZE_SAMPLES);
}

#[test]
fn consecutive_frames_concatenate() {
    let mut q = PcmQueue::new();
    let all = ramp(-3000, 2 * FRAME_SIZE_SAMPLES + 7);
    q.extend(&all);
    let f1 = q.take_frame();
    let f2 = q.take_frame();
    let mut joined = f1.clone();
    joined.extend_from_slice(&f2);
    assert_eq!(joined[..], all[..2 * FRAME_SIZE_SAMPLES]);
    assert_eq!(q.pending_len(), 7);
}

#[test]
fn compaction_keeps_contents() {
    let mut q = PcmQueue::new();
    let all = ramp(5, FRAME_SIZE_SAMPLES + 10);
    q.extend(&all);
    let _ = q.take_frame();
    q.compact_pending();
    assert_eq!(q.pending_len(), 10);
    let padded = q.take_padded_frame();
    assert_eq!(padded[..10], all[FRAME_SIZE_SAMPLES..]);
}

#[test]
fn padded_frame_fills_with_silence() {
    let mut q = PcmQueue::new();
    q.extend(&[7, 8, 9]);
    let frame = q.take_padded_frame();
    assert_eq!(frame.len(), FRAME_SIZE_SAMPLES);
    assert_eq!(frame[..3], [7, 8, 9]);
    assert!(frame[3..].iter().all(|&s| s == 0));
    assert_eq!(q.pending_len(), 0);
}

#[test]
fn clear_drops_everything() {
    let mut q = PcmQueue::new();
    q.extend(&ramp(0, 50));
    q.clear();
    assert_eq!(q.pending_len(), 0);
}
