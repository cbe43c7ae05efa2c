use render_core::app_control::{
    pick_fullscreen_mode, trail_removal_threshold, AppResult, ResizeAction, WindowState,
};
use render_core::frame_time::FrameTimeSample;
use render_core::profiler::{color_hue_byte, DenseEventTracker};
use std::cmp::Ordering;

#[test]
fn first_resize_is_ignored() {
    let mut w = WindowState::new();
    assert!(w.renders());
    assert!(!w.is_finished());
    assert_eq!(w.on_resized(800, 600), ResizeAction::Ignore);
    assert!(w.renders());
}

#[test]
fn zero_size_suspends_and_resize_resumes() {
    let mut w = WindowState::new();
    w.on_resized(800, 600);
    assert_eq!(w.on_resized(0, 600), ResizeAction::Suspend);
    assert!(!w.renders());
    assert_eq!(
        w.on_resized(1024, 768),
        ResizeAction::Resize { width: 1024, height: 768, update_aspect: false }
    );
    assert!(w.renders());
    assert_eq!(
        w.on_resized(640, 480),
        ResizeAction::Resize { width: 640, height: 480, update_aspect: true }
    );
}

#[test]
fn close_request_stops_rendering() {
    let mut w = WindowState::new();
    w.request_close();
    assert!(w.is_finished());
    assert!(!w.renders());
    assert_ne!(AppResult::Idle, AppResult::Exit);
}

#[test]
fn fullscreen_mode_widest_then_fastest() {
    assert_eq!(pick_fullscreen_mode(&[]), None);
    let modes = [(1280, 60000), (1920, 60000), (1920, 144000), (800, 240000)];
    assert_eq!(pick_fullscreen_mode(&modes), Some(2));
    let ties = [(1920, 60000), (1920, 60000)];
    assert_eq!(pick_fullscreen_mode(&ties), Some(1));
}

#[test]
fn trail_threshold_saturates() {
    assert_eq!(trail_removal_threshold(5000), 3000);
    assert_eq!(trail_removal_threshold(2000), 0);
    assert_eq!(trail_removal_threshold(1500), 0);
}

#[test]
fn hue_byte_is_first_digest_byte() {
    // SHA-256("") = e3b0c442..., SHA-256("abc") = ba7816bf...
    assert_eq!(color_hue_byte(""), 0xe3);
    assert_eq!(color_hue_byte("abc"), 0xba);
}

#[test]
fn dense_events_track_smallest_overhead() {
    let mut t = DenseEventTracker::new();
    assert_eq!(t.min_event_overhead(), None);
    t.dense_event(100);
    assert_eq!(t.min_event_overhead(), None);
    t.dense_event(150);
    assert_eq!(t.min_event_overhead(), Some(50));
    t.dense_event(170);
    assert_eq!(t.min_event_overhead(), Some(40));
    t.dense_event(200);
    assert_eq!(t.min_event_overhead(), Some(40));
}

fn sample(name: &str, dur: u64) -> FrameTimeSample {
    FrameTimeSample { name: name.to_string(), start: 0, dur, inner: Vec::new() }
}

#[test]
fn frame_samples_compare_by_name_and_order_by_duration() {
    assert!(sample("a", 1) == sample("a", 9));
    assert!(sample("a", 1) != sample("b", 1));
    assert_eq!(sample("a", 1).partial_cmp(&sample("b", 2)), Some(Ordering::Less));
    assert_eq!(sample("a", 2).partial_cmp(&sample("b", 2)), Some(Ordering::Equal));
    assert!(sample("a", 3) > sample("b", 2));
}

#[test]
fn dense_event_tracker_reports_last_event() {
    let mut t = DenseEventTracker::new();
    assert_eq!(t.prev_event(), None);
    t.dense_event(7);
    assert_eq!(t.prev_event(), Some(7));
    t.dense_event(9);
    assert_eq!(t.prev_event(), Some(9));
    assert_eq!(t.min_event_overhead(), Some(2));
}

#[test]
fn frame_sample_default_and_clone() {
    let d = FrameTimeSample::default();
    assert_eq!(d.name, "");
    assert_eq!((d.start, d.dur), (0, 0));
    assert!(d.inner.is_empty());
    let mut s = sample("frame", 16);
    s.start = 100;
    s.inner.push(sample("update", 4));
    let c = s.clone();
    assert_eq!(c.name, "frame");
    assert_eq!((c.start, c.dur), (100, 16));
    assert_eq!(c.inner.len(), 1);
    assert_eq!(c.inner[0].name, "update");
    assert_eq!(c.inner[0].dur, 4);
    assert!(c == s);
}

#[test]
fn reopened_window_does_not_ignore_its_first_resize_again() {
    let mut w = WindowState::new();
    assert_eq!(w.on_resized(800, 600), ResizeAction::Ignore);
    let mut again = w.reopened();
    assert!(again.renders());
    assert_eq!(
        again.on_resized(640, 480),
        ResizeAction::Resize { width: 640, height: 480, update_aspect: true }
    );
    let fresh = WindowState::new();
    let mut before_any = fresh.reopened();
    assert_eq!(before_any.on_resized(640, 480), ResizeAction::Ignore);
}

#[test]
fn frame_sample_clone_copies_every_level() {
    let mut leaf = sample("leaf", 1);
    leaf.start = 7;
    let mut mid = sample("mid", 2);
    mid.inner.push(leaf);
    let mut top = sample("top", 3);
    top.inner.push(mid);
    let c = top.clone();
    assert_eq!(c.inner[0].inner.len(), 1);
    assert_eq!(c.inner[0].inner[0].name, "leaf");
    assert_eq!((c.inner[0].inner[0].start, c.inner[0].inner[0].dur), (7, 1));
}
