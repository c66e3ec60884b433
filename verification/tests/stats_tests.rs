use maptiles::stats::Stats;
use maptiles::stats::WINDOW;

#[test]
fn new_stats_hold_a_window_of_zeros() {
    let s = Stats::new();
    assert_eq!(WINDOW, 30);
    assert_eq!(s.frames(), 0);
    for i in 0..WINDOW {
        assert_eq!(s.frametime(i), 0);
    }
    assert_eq!(s.total_micros(), 0);
}

#[test]
fn recorded_frames_slide_through_the_window() {
    let mut s = Stats::new();
    s.record_frame(100);
    s.record_frame(250);
    assert_eq!(s.frames(), 2);
    assert_eq!(s.frametime(28), 100);
    assert_eq!(s.frametime(29), 250);
    assert_eq!(s.frametime(27), 0);
    assert_eq!(s.total_micros(), 350);
    for _ in 0..29 {
        s.record_frame(1);
    }
    assert_eq!(s.frametime(0), 250);
    assert_eq!(s.total_micros(), 279);
    assert_eq!(s.frames(), 31);
}

#[test]
fn total_does_not_overflow() {
    let mut s = Stats::new();
    for _ in 0..30 {
        s.record_frame(u64::MAX);
    }
    assert_eq!(s.total_micros(), 30u128 * (u64::MAX as u128));
}

#[test]
fn captured_frame_counts_and_moves_the_window() {
    let mut s = Stats::new();
    s.record_frame(5);
    s.capture_frame();
    assert_eq!(s.frames(), 2);
    assert_eq!(s.frametime(28), 5);
    assert_eq!(s.frametime(27), 0);
}
