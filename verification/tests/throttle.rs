use ambilight::dispatch::ThrottledDispatcher;
use ambilight::frame::Frame;
use ambilight::layout::LayoutConfig;
use ambilight::zones::check_frame_geometry;

fn cfg14() -> LayoutConfig {
    LayoutConfig {
        leds_top: 4,
        leds_left: 2,
        leds_right: 2,
        leds_bottom_left: 3,
        leds_bottom_right: 3,
        header: [0xA1, 0xB2, 0xC3, 0xD4],
        footer: [0x0F, 0x1E, 0x2D, 0x3C],
    }
}

fn gray_frame(width: usize, height: usize) -> Frame {
    let mut buf = Vec::with_capacity(width * height * 4);
    for _ in 0..width * height {
        buf.extend_from_slice(&[128, 128, 128, 255]);
    }
    Frame::new(width, height, buf).unwrap()
}

#[test]
fn throttle_emits_once_for_events_half_a_period_apart() {
    let cfg = cfg14();
    assert!(cfg.is_valid());
    assert!(check_frame_geometry(100, 60, &cfg));
    let frame = gray_frame(100, 60);
    let period = 100;
    let mut dispatcher = ThrottledDispatcher::new(cfg, period, 0);

    // Inside the first window: dropped.
    assert!(dispatcher.on_frame(50, &frame).is_none());
    // A full period after construction: emitted.
    let first = dispatcher.on_frame(100, &frame);
    assert!(first.is_some());
    assert_eq!(first.unwrap().len(), 50);
    // Half a period later: dropped, exactly one payload so far.
    assert!(dispatcher.on_frame(150, &frame).is_none());
    // Two periods after the emission: emitted again.
    assert!(dispatcher.on_frame(300, &frame).is_some());
}

#[test]
fn throttle_drop_leaves_state_unchanged() {
    let cfg = cfg14();
    let frame = gray_frame(100, 60);
    let mut dispatcher = ThrottledDispatcher::new(cfg, 100, 0);
    assert!(dispatcher.on_frame(99, &frame).is_none());
    // The dropped frame did not reset the window: the next event still
    // measures from construction time.
    assert!(dispatcher.on_frame(100, &frame).is_some());
}

#[test]
fn frame_validation() {
    assert!(Frame::new(2, 2, vec![0; 16]).is_some());
    assert!(Frame::new(2, 2, vec![0; 15]).is_none());
    assert!(Frame::new(0, 0, Vec::new()).is_some());
}

#[test]
fn layout_validation() {
    assert!(cfg14().is_valid());
    let mut asym = cfg14();
    asym.leds_bottom_left = 2;
    assert!(!asym.is_valid());
    let mut sides = cfg14();
    sides.leds_right = 5;
    assert!(!sides.is_valid());
}
