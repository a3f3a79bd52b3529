use tuxflow::ui::selection::ClickTracker;

/// A selection gesture with pointer coordinates: the distance tests are
/// made here, the press/release bookkeeping by `ClickTracker`.
struct SelectionGesture {
    tracker: ClickTracker,
    position: Option<(f64, f64)>,
    double_click_px: f64,
}

impl SelectionGesture {
    const DRAG_PX: f64 = 4.0;

    fn new(double_click_ms: u32, double_click_px: f64) -> Self {
        Self { tracker: ClickTracker::new(double_click_ms), position: None, double_click_px }
    }

    fn press(&mut self, x: f64, y: f64, time: u32) {
        let near = self.position.is_some_and(|(px, py)| {
            (x - px).abs() <= self.double_click_px && (y - py).abs() <= self.double_click_px
        });
        self.position = Some((x, y));
        self.tracker.press(time, near);
    }

    fn release(&mut self, x: f64, y: f64) -> bool {
        let moved = self.position.is_some_and(|(px, py)| {
            (x - px).abs() > Self::DRAG_PX || (y - py).abs() > Self::DRAG_PX
        });
        self.tracker.release(moved)
    }
}

/// GTK defaults, so the numbers below read like real interactions.
fn gesture() -> SelectionGesture {
    SelectionGesture::new(400, 5.0)
}

#[test]
fn a_plain_click_publishes_nothing() {
    let mut g = gesture();
    g.press(100.0, 100.0, 1_000);
    assert!(!g.release(100.0, 100.0));
    // Even with the hand shaking a little.
    g.press(100.0, 100.0, 5_000);
    assert!(!g.release(102.0, 97.0));
}

#[test]
fn a_drag_publishes() {
    let mut g = gesture();
    g.press(100.0, 100.0, 1_000);
    assert!(g.release(240.0, 100.0), "horizontal drag");
    g.press(100.0, 100.0, 5_000);
    assert!(g.release(100.0, 134.0), "drag down a few rows");
}

#[test]
fn a_click_sequence_publishes_from_the_second_click() {
    let mut g = gesture();
    g.press(100.0, 100.0, 1_000);
    assert!(!g.release(100.0, 100.0), "first click of the pair");
    g.press(101.0, 100.0, 1_200);
    assert!(g.release(101.0, 100.0), "double click");
    g.press(101.0, 100.0, 1_400);
    assert!(g.release(101.0, 100.0), "triple click");
}

#[test]
fn clicks_far_apart_in_time_or_space_stay_clicks() {
    let mut g = gesture();
    g.press(100.0, 100.0, 1_000);
    assert!(!g.release(100.0, 100.0));
    g.press(100.0, 100.0, 1_401);
    assert!(!g.release(100.0, 100.0), "past the double-click interval");

    let mut g = gesture();
    g.press(100.0, 100.0, 1_000);
    assert!(!g.release(100.0, 100.0));
    g.press(140.0, 100.0, 1_100);
    assert!(!g.release(140.0, 100.0), "past the double-click distance");
}

#[test]
fn a_release_needs_its_own_press() {
    let mut g = gesture();
    assert!(!g.release(400.0, 400.0), "no press at all");
    g.press(100.0, 100.0, 1_000);
    assert!(g.release(300.0, 100.0));
    assert!(!g.release(300.0, 100.0), "press already consumed");
}

#[test]
fn timestamps_may_wrap() {
    let mut g = gesture();
    g.press(100.0, 100.0, u32::MAX - 100);
    assert!(!g.release(100.0, 100.0));
    // 200ms later, on the other side of the wrap: still a double click.
    g.press(100.0, 100.0, 99);
    assert!(g.release(100.0, 100.0));
}
