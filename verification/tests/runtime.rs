use rustbow::config::Charset;
use rustbow::frame::FrameTracker;
use rustbow::render::Renderer;

#[test]
fn frame_tracker_sleeps_until_next_frame() {
    let mut t = FrameTracker::new(100, 1_000);
    assert_eq!(t.end_frame(1_030), 70);
    // The next frame is due 100 after 1_030.
    assert_eq!(t.end_frame(1_200), 0);
    assert_eq!(t.end_frame(1_250), 50);
}

#[test]
fn frame_tracker_zero_duration_never_sleeps() {
    let mut t = FrameTracker::new(0, 5);
    assert_eq!(t.end_frame(5), 0);
    assert_eq!(t.end_frame(6), 0);
}

#[test]
fn renderer_picks_from_charset_and_screen() {
    let mut r = Renderer::new(Charset::owned(vec!['q']), (1, 1));
    for _ in 0..10 {
        assert_eq!(r.next_char(), 'q');
        assert_eq!(r.next_pos(), (0, 0));
    }
    let mut r = Renderer::new(Charset::owned(vec!['a', 'b', 'c']), (3, 2));
    for _ in 0..100 {
        let c = r.next_char();
        assert!(['a', 'b', 'c'].contains(&c));
        let (x, y) = r.next_pos();
        assert!(x < 3 && y < 2);
    }
}
