use lavende::{hermite_neighbours, linear_neighbours, remember_last_frame, SincHistory};

#[test]
fn linear_neighbours_use_history_at_start() {
    let input = [10, 20, 11, 21, 12, 22];
    let last = [1, 2];
    assert_eq!(linear_neighbours(&input, &last, 2, 0, 1), (2, 20));
    assert_eq!(linear_neighbours(&input, &last, 2, 2, 0), (11, 12));
}

#[test]
fn hermite_neighbours_repeat_last_frame() {
    let input = [10, 20, 11, 21, 12, 22];
    let last = [1, 2];
    assert_eq!(hermite_neighbours(&input, &last, 2, 0, 0), (1, 10, 11, 12));
    assert_eq!(hermite_neighbours(&input, &last, 2, 1, 1), (20, 21, 22, 22));
    assert_eq!(hermite_neighbours(&input, &last, 2, 2, 0), (11, 12, 12, 12));
}

#[test]
fn last_frame_is_remembered() {
    let mut last = [0i16, 0];
    remember_last_frame(&mut last, &[1, 2, 3, 4, 5], 2);
    assert_eq!(last, [3, 4]);
    remember_last_frame(&mut last, &[9], 2);
    assert_eq!(last, [3, 4]);
}

#[test]
fn sinc_window_holds_last_samples() {
    let mut h = SincHistory::new(2, 3);
    assert_eq!(h.channels(), 2);
    let input = [1, -1, 2, -2, 3, -3, 4, -4];
    for f in 0..4 {
        h.push_frame(&input, f);
    }
    let w0: Vec<i16> = (0..3).map(|i| h.window_sample(0, i)).collect();
    let w1: Vec<i16> = (0..3).map(|i| h.window_sample(1, i)).collect();
    assert_eq!(w0, vec![2, 3, 4]);
    assert_eq!(w1, vec![-2, -3, -4]);
}

#[test]
fn sinc_window_starts_silent_and_resets() {
    let mut h = SincHistory::new(1, 4);
    h.push_frame(&[7], 0);
    let w: Vec<i16> = (0..4).map(|i| h.window_sample(0, i)).collect();
    assert_eq!(w, vec![0, 0, 0, 7]);
    h.reset();
    let w: Vec<i16> = (0..4).map(|i| h.window_sample(0, i)).collect();
    assert_eq!(w, vec![0, 0, 0, 0]);
}

#[test]
fn history_carries_over_between_blocks() {
    let first = [1, 2, 3, 4, 5, 6];
    let mut last = [0i16, 0];
    remember_last_frame(&mut last, &first, 2);
    let second = [7, 8, 9, 10];
    assert_eq!(linear_neighbours(&second, &last, 2, 0, 0), (5, 7));
    assert_eq!(hermite_neighbours(&second, &last, 2, 0, 1), (6, 8, 10, 10));
}
