use std::cell::Cell;

use vanling::drivers::input::{
    ft6x06_point_is_live, direction_between, isqrt_u32, swipe_classify, Button, ButtonEvent,
    ButtonScanner, DoubleClickAggregator, GestureEvent, InputEvent, PassThrough, PollEntry,
    SwipeDirection, TouchContinuity, TouchEvent, TouchGestures, TouchMap, TouchPoint, TouchStatus,
    BUTTON_SCAN_MS, DOUBLE_CLICK_WINDOW_MS, INPUT_BASE_MS, LONG_PRESS_MS, MAX_TOUCH_POINTS,
    MOVE_DEADBAND_PX, PENDING_PAIR_PX, PHANTOM_RADIUS_PX, PHANTOM_WINDOW_MS, RELEASE_CONFIRM_SAMPLES,
    SWIPE_MIN_DISTANCE_PX, TOUCH_SCAN_MS,
};
struct FakeButton<'a> {
    pressed: &'a Cell<bool>,
}

impl Button for FakeButton<'_> {
    fn is_pressed(&self) -> bool {
        self.pressed.get()
    }
}

/// Press the button, let it debounce to held at t=20, then release and
/// confirm a released edge after `hold` ms. Returns the resulting
/// gesture.
fn hold_and_release(hold_ms: u64) -> Option<ButtonEvent> {
    let pressed = Cell::new(false);
    let btn = FakeButton { pressed: &pressed };
    let mut scanner = ButtonScanner::new(btn);

    // Press down; debounce confirms press at t=20 (held_since=20).
    pressed.set(true);
    for ms in 0..=30 {
        scanner.poll(ms * 10);
    }

    // Release starting at t=hold; debounce confirms the released edge at
    // hold+20 (3 consecutive released samples), computing held=hold_ms.
    pressed.set(false);
    let mut outcome = None;
    for ms in 0..=20 {
        if let Some(InputEvent::Button(e)) = scanner.poll(hold_ms + ms * 10) {
            outcome = Some(e);
        }
    }
    outcome
}

#[test]
fn debounce_confirms_a_click_only_after_n_consecutive_samples() {
    // A released edge confirmed only after DEBOUNCE_SAMPLES consecutive
    // released samples reads as a click; the raw press follows the
    // same rule.
    let pressed = Cell::new(false);
    let mut scanner = ButtonScanner::new(FakeButton { pressed: &pressed });
    for ms in [0, 10, 20] {
        pressed.set(true);
        assert!(scanner.poll(ms).is_none());
    }
    pressed.set(true);
    assert!(scanner.poll(30).is_none());
    pressed.set(false);
    for ms in [40, 50] {
        assert!(scanner.poll(ms).is_none());
    }
    assert_eq!(
        scanner.poll(60),
        Some(InputEvent::Button(ButtonEvent::Click))
    );
    // A glitch shorter than the confirm window never flips the held
    // state: the scanner still reads released at the end.
    let pressed = Cell::new(false);
    let mut scanner = ButtonScanner::new(FakeButton { pressed: &pressed });
    pressed.set(true);
    assert!(scanner.poll(0).is_none());
    assert!(scanner.poll(10).is_none());
    pressed.set(false);
    assert!(scanner.poll(20).is_none());
    assert!(scanner.poll(30).is_none());
    assert!(!scanner.pressed(), "should still be released");
}

#[test]
fn long_press_threshold_splits_hold_duration_on_release() {
    // LONG_PRESS_MS = 600 is the inclusive boundary: a 600 ms hold is
    // a long-press, a 599 ms hold is still a click.
    assert_eq!(hold_and_release(599), Some(ButtonEvent::Click));
    assert_eq!(hold_and_release(600), Some(ButtonEvent::LongPress));
    assert_eq!(hold_and_release(610), Some(ButtonEvent::LongPress));
    assert_eq!(hold_and_release(800), Some(ButtonEvent::LongPress));
    assert_eq!(LONG_PRESS_MS, 600);
}

#[test]
fn button_cadence_and_windows_align_on_the_base_grid() {
    assert_eq!(BUTTON_SCAN_MS, 10);
    assert_eq!(BUTTON_SCAN_MS % INPUT_BASE_MS, 0);
    assert!(DOUBLE_CLICK_WINDOW_MS < LONG_PRESS_MS);
    assert_eq!(DOUBLE_CLICK_WINDOW_MS % INPUT_BASE_MS, 0);
}

#[test]
fn non_click_events_pass_through_immediately() {
    let mut passthrough = PassThrough;
    let click = InputEvent::Button(ButtonEvent::Click);
    assert_eq!(passthrough.feed(click, 100), Some(click));
    let mut agg = DoubleClickAggregator::new();
    let long = InputEvent::Button(ButtonEvent::LongPress);
    assert_eq!(
        agg.feed(long, 100),
        Some(long),
        "a long-press flushes and forwards"
    );
    assert_eq!(agg.tick(1000), None);
}

#[test]
fn double_click_buffers_pairs_and_flushes() {
    let click = InputEvent::Button(ButtonEvent::Click);
    // A first click parks; a second inside the window pairs.
    let mut agg = DoubleClickAggregator::new();
    assert_eq!(agg.feed(click, 100), None, "first click buffers");
    assert_eq!(
        agg.feed(click, 100 + DOUBLE_CLICK_WINDOW_MS),
        Some(InputEvent::Button(ButtonEvent::DoubleClick))
    );
    // A lone click waits out the window, then the tick flushes it.
    let mut agg = DoubleClickAggregator::new();
    assert_eq!(agg.feed(click, 100), None);
    assert_eq!(
        agg.tick(100 + DOUBLE_CLICK_WINDOW_MS),
        None,
        "window still open at the boundary"
    );
    assert_eq!(
        agg.tick(100 + DOUBLE_CLICK_WINDOW_MS + 1),
        Some(InputEvent::Button(ButtonEvent::Click)),
        "the tick past the window releases the lone click"
    );
    // A stale first click outlives an unticked gap: the new click
    // flushes it as a lone Click and parks itself as the new first.
    let mut agg = DoubleClickAggregator::new();
    assert_eq!(agg.feed(click, 100), None);
    assert_eq!(
        agg.feed(click, 100 + DOUBLE_CLICK_WINDOW_MS + 1),
        Some(InputEvent::Button(ButtonEvent::Click)),
        "stale pending click released"
    );
    assert_eq!(
        agg.tick(100 + 2 * (DOUBLE_CLICK_WINDOW_MS + 1)),
        Some(InputEvent::Button(ButtonEvent::Click)),
        "the new buffer expires as a lone click"
    );
    // A long-press between two clicks flushes the pending first click.
    let mut agg = DoubleClickAggregator::new();
    let long = InputEvent::Button(ButtonEvent::LongPress);
    assert_eq!(agg.feed(click, 100), None);
    assert_eq!(agg.feed(long, 100 + DOUBLE_CLICK_WINDOW_MS - 1), Some(long));
    assert_eq!(agg.tick(100 + 2 * DOUBLE_CLICK_WINDOW_MS), None);
}

#[test]
fn poll_entry_anchors_the_first_sample_on_the_cadence_grid() {
    // Leak an owned cell so the boxed, `'static` input source can share
    // the press state with the test drive loop.
    let pressed: &'static Cell<bool> = Box::leak(Box::new(Cell::new(false)));
    let mut entry = PollEntry::new(
        0,
        Box::new(ButtonScanner::new(FakeButton { pressed })),
        Box::new(PassThrough),
        BUTTON_SCAN_MS,
    );
    assert_eq!(entry.next_at_ms(), BUTTON_SCAN_MS);
    entry.advance_past(BUTTON_SCAN_MS);
    assert_eq!(entry.next_at_ms(), 2 * BUTTON_SCAN_MS);
    entry.advance_past(2 * BUTTON_SCAN_MS - 1);
    assert_eq!(entry.next_at_ms(), 2 * BUTTON_SCAN_MS);
    entry.advance_past(25);
    assert_eq!(entry.next_at_ms(), 3 * BUTTON_SCAN_MS);
}

#[test]
fn poll_entry_wires_scanner_into_the_double_click() {
    // PollEntry schedules and steps the source at its cadence; a plain
    // click forwards as Click once debounce confirms the release.
    let pressed: &'static Cell<bool> = Box::leak(Box::new(Cell::new(false)));
    let mut entry = PollEntry::new(
        0,
        Box::new(ButtonScanner::new(FakeButton { pressed })),
        Box::new(PassThrough),
        BUTTON_SCAN_MS,
    );
    for ms in [0, 10, 20] {
        pressed.set(true);
        assert!(entry.poll(ms).is_none());
    }
    pressed.set(false);
    assert!(entry.poll(40).is_none());
    assert!(entry.poll(50).is_none());
    assert_eq!(entry.poll(60), Some(InputEvent::Button(ButtonEvent::Click)));
    // Two clicks inside the window collapse through the aggregator.
    let pressed: &'static Cell<bool> = Box::leak(Box::new(Cell::new(false)));
    let mut entry = PollEntry::new(
        0,
        Box::new(ButtonScanner::new(FakeButton { pressed })),
        Box::new(DoubleClickAggregator::new()),
        BUTTON_SCAN_MS,
    );
    // First click: pressed 0-20 (debounce confirms press at 20),
    // released 30-40 (release confirmed at 50) → Click buffered.
    for ms in [0, 10, 20] {
        pressed.set(true);
        assert!(entry.poll(ms).is_none());
    }
    pressed.set(false);
    assert!(entry.poll(30).is_none());
    assert!(entry.poll(40).is_none());
    assert!(entry.poll(50).is_none());
    // Second click: pressed 60-80, released 90-100 → confirmed at 110,
    // still inside the window of the first one (t=50).
    for ms in [60, 70, 80] {
        pressed.set(true);
        assert!(entry.poll(ms).is_none());
    }
    pressed.set(false);
    assert!(entry.poll(90).is_none());
    assert!(entry.poll(100).is_none());
    assert_eq!(
        entry.poll(110),
        Some(InputEvent::Button(ButtonEvent::DoubleClick))
    );
}


#[test]
fn tracked_points_upsert_move_and_stay_quiet() {
    let mut c = TouchContinuity::new();
    let ev = c.update(&[(100, 200)], 1).unwrap();
    assert_eq!(ev.len, 1);
    assert_eq!(ev.contacts, 1);
    assert_eq!(
        ev.points[0],
        TouchPoint {
            id: 0,
            x: 100,
            y: 200,
            status: TouchStatus::Down,
        }
    );
    // A move keeps the id and upgrades to Contact.
    let ev = c.update(&[(120, 210)], 1).unwrap();
    assert_eq!(
        ev.points[0],
        TouchPoint {
            id: 0,
            x: 120,
            y: 210,
            status: TouchStatus::Contact,
        }
    );
    // An identical sample changes nothing.
    assert!(c.update(&[(120, 210)], 1).is_none());
}

#[test]
fn release_confirms_only_after_a_dropout_run_and_recycles_ids() {
    // One absent sample is a dropout, not a lift; two absences still
    // sit inside the confirm window, so the contact resumes the same
    // tracker and id.
    let mut c = TouchContinuity::new();
    c.update(&[(100, 200)], 1);
    assert!(c.update(&[], 0).is_none(), "one dropout is not a lift");
    assert!(c.update(&[], 0).is_none());
    let ev = c.update(&[(101, 201)], 1).unwrap();
    assert_eq!(ev.points[0].status, TouchStatus::Contact);
    assert_eq!(ev.points[0].id, 0);
    // A full confirm run is a release: one emission, then quiet.
    let mut c = TouchContinuity::new();
    c.update(&[(100, 200)], 1);
    for _ in 0..RELEASE_CONFIRM_SAMPLES - 1 {
        assert!(c.update(&[], 0).is_none());
    }
    let ev = c.update(&[], 0).unwrap();
    assert_eq!(
        ev.points[0],
        TouchPoint {
            id: 0,
            x: 100,
            y: 200,
            status: TouchStatus::Release,
        }
    );
    assert!(c.update(&[], 0).is_none());
    // The next contact after a confirmed release is a fresh Down.
    let mut c = TouchContinuity::new();
    c.update(&[(5, 5)], 1);
    for _ in 0..RELEASE_CONFIRM_SAMPLES {
        c.update(&[], 0);
    }
    let ev = c.update(&[(7, 7)], 1).unwrap();
    assert_eq!(ev.points[0].status, TouchStatus::Down);
}

#[test]
fn ids_follow_fingers_across_index_shuffles() {
    let mut c = TouchContinuity::new();
    let first = c.update(&[(10, 10), (300, 300)], 2).unwrap();
    assert_eq!(first.points[0].id, 0);
    assert_eq!(first.points[1].id, 1);
    // Register order swaps; ids must follow the fingers, not the
    // indices.
    let ev = c.update(&[(300, 301), (11, 12)], 2).unwrap();
    assert_eq!(ev.points[0].id, 1, "far point keeps its id at index 0");
    assert_eq!(ev.points[0].status, TouchStatus::Contact);
    assert_eq!(ev.points[1].id, 0, "near point keeps its id at index 1");
    assert_eq!(ev.points[1].status, TouchStatus::Contact);
}

#[test]
fn multi_contact_samples_keep_releases_and_raw_counts() {
    // A single sample can lift every tracked point at once.
    let mut c = TouchContinuity::new();
    c.update(&[(5, 5), (6, 6)], 2);
    for _ in 0..RELEASE_CONFIRM_SAMPLES - 1 {
        assert!(c.update(&[], 0).is_none());
    }
    let ev = c.update(&[], 0).unwrap();
    assert_eq!(ev.len, 2);
    assert!(
        ev.points[..ev.len as usize]
            .iter()
            .all(|p| p.status == TouchStatus::Release)
    );
    // The raw class count can outlive the parsed points during a
    // release.
    let mut c = TouchContinuity::new();
    let ev = c.update(&[(5, 5)], 2).unwrap();
    assert_eq!(ev.len, 1);
    assert_eq!(ev.contacts, 2);
}

#[test]
fn touch_map_identity_swap_and_mirror() {
    assert_eq!(TouchMap::identity().map((10, 20), 240, 320), (10, 20));
    let swap = TouchMap {
        swap_xy: true,
        mirror_x: false,
        mirror_y: false,
    };
    assert_eq!(swap.map((10, 20), 240, 320), (20, 10));
    let mirror = TouchMap {
        swap_xy: false,
        mirror_x: true,
        mirror_y: true,
    };
    assert_eq!(mirror.map((0, 0), 240, 320), (239, 319));
    let both = TouchMap {
        swap_xy: true,
        mirror_x: true,
        mirror_y: true,
    };
    assert_eq!(both.map((10, 20), 240, 320), (219, 309));
}

#[test]
fn tracker_and_gesture_constants_align_on_the_touch_grid() {
    // Cadence and windows are whole multiples of the shared base tick,
    // and the release-confirm span sits cleanly below the double-click
    // window.
    assert_eq!(TOUCH_SCAN_MS % INPUT_BASE_MS, 0);
    assert_eq!(DOUBLE_CLICK_WINDOW_MS % TOUCH_SCAN_MS, 0);
    assert_eq!(LONG_PRESS_MS % TOUCH_SCAN_MS, 0);
    assert!(LONG_PRESS_MS > DOUBLE_CLICK_WINDOW_MS);
    assert_eq!(RELEASE_CONFIRM_SAMPLES, 3);
    assert!(RELEASE_CONFIRM_SAMPLES as u64 * TOUCH_SCAN_MS == 30);
    assert!((RELEASE_CONFIRM_SAMPLES as u64 * TOUCH_SCAN_MS) < DOUBLE_CLICK_WINDOW_MS);
    assert!(MAX_TOUCH_POINTS == 16);
    // FT6x06 `XH[7:6]` event bits: down edges and held contacts carry
    // live coordinates; lift and reserved frames do not.
    assert!(ft6x06_point_is_live(0x00), "down edge");
    assert!(ft6x06_point_is_live(0x0F), "down with X high bits set");
    assert!(ft6x06_point_is_live(0x80), "contact with X=0");
    assert!(ft6x06_point_is_live(0x8F), "contact frame of a held finger");
    assert!(!ft6x06_point_is_live(0x40), "up/lift frame");
    assert!(!ft6x06_point_is_live(0x4F), "up with X high bits set");
    assert!(!ft6x06_point_is_live(0xC0), "reserved event");
    assert!(
        !ft6x06_point_is_live(0xFF),
        "reserved event with X high bits set"
    );
}


/// Builds a multi-point sample from `(status, id, x, y)` tuples, with
/// `contacts` the raw controller class count.
fn sample(points: &[(TouchStatus, u8, u16, u16)], contacts: u8) -> InputEvent {
    let mut pts = [TouchPoint {
        status: TouchStatus::Release,
        id: 0,
        x: 0,
        y: 0,
    }; MAX_TOUCH_POINTS];
    for (i, &(status, id, x, y)) in points.iter().take(MAX_TOUCH_POINTS).enumerate() {
        pts[i] = TouchPoint { status, id, x, y };
    }
    InputEvent::Touch(TouchEvent {
        points: pts,
        len: points.len().min(MAX_TOUCH_POINTS) as u8,
        contacts,
    })
}

/// A single-finger sample on id 0.
fn touch(status: TouchStatus, x: u16, y: u16) -> InputEvent {
    sample(&[(status, 0, x, y)], 1)
}

fn touch_contacts_dirty(status: TouchStatus, x: u16, y: u16) -> InputEvent {
    // Raw TD_STATUS reporting 2 while only one point is parsed: a
    // release (or floating second contact) counted in-flight by the
    // chip.
    let mut ev = match touch(status, x, y) {
        InputEvent::Touch(ev) => ev,
        _ => unreachable!(),
    };
    ev.contacts = 2;
    InputEvent::Touch(ev)
}

#[test]
fn press_fires_once_on_the_rise_edge() {
    // Only the transition into a held contact counts as a press;
    // contact follow-ups are silent and the lift defers the tap.
    let mut agg = TouchGestures::new();
    assert_eq!(
        agg.feed(touch(TouchStatus::Down, 10, 10), 0),
        Some(InputEvent::Gesture(GestureEvent::Press {
            id: 0,
            x: 10,
            y: 10
        }))
    );
    assert_eq!(
        agg.feed(touch(TouchStatus::Contact, 10, 10), 5),
        Some(touch(TouchStatus::Contact, 10, 10))
    );
    assert_eq!(
        agg.feed(touch(TouchStatus::Contact, 10, 10), 10),
        Some(touch(TouchStatus::Contact, 10, 10))
    );
    assert_eq!(
        agg.feed(touch(TouchStatus::Release, 10, 10), 15),
        Some(touch(TouchStatus::Release, 10, 10))
    );
    assert_eq!(
        agg.tick(316),
        Some(InputEvent::Gesture(GestureEvent::Tap {
            id: 0,
            x: 10,
            y: 10,
            held_ms: 15
        }))
    );
    // A panel that drops the Down frame still pulses the press on the
    // first contact it publishes.
    let mut agg = TouchGestures::new();
    assert_eq!(
        agg.feed(touch(TouchStatus::Contact, 10, 10), 5),
        Some(InputEvent::Gesture(GestureEvent::Press {
            id: 0,
            x: 10,
            y: 10
        }))
    );
    assert_eq!(
        agg.feed(touch(TouchStatus::Release, 10, 10), 10),
        Some(touch(TouchStatus::Release, 10, 10))
    );
    assert_eq!(
        agg.tick(311),
        Some(InputEvent::Gesture(GestureEvent::Tap {
            id: 0,
            x: 10,
            y: 10,
            held_ms: 5
        }))
    );
    // A lift that never saw a press parks nothing and forwards the
    // bare snapshot.
    let mut agg = TouchGestures::new();
    assert_eq!(
        agg.feed(touch(TouchStatus::Release, 10, 10), 10),
        Some(touch(TouchStatus::Release, 10, 10)),
        "an unpaired lift is forwarded as a bare snapshot"
    );
    assert!(
        agg.tick(400).is_none(),
        "no press ever parked a tap chamber"
    );
}

#[test]
fn a_short_lift_is_a_tap_at_its_lift_position() {
    let mut agg = TouchGestures::new();
    assert_eq!(
        agg.feed(touch(TouchStatus::Down, 100, 100), 0),
        Some(InputEvent::Gesture(GestureEvent::Press {
            id: 0,
            x: 100,
            y: 100
        }))
    );
    // A short lift with drift a swipe threshold never sees still
    // defers a tap, reported at the lift position.
    assert_eq!(
        agg.feed(touch(TouchStatus::Release, 120, 105), 10),
        Some(touch(TouchStatus::Release, 120, 105)),
        "a lift that parks a pending tap still forwards the raw snapshot"
    );
    assert!(
        agg.tick(310).is_none(),
        "the window stays open at exactly 300ms"
    );
    assert_eq!(
        agg.tick(311),
        Some(InputEvent::Gesture(GestureEvent::Tap {
            id: 0,
            x: 120,
            y: 105,
            held_ms: 10
        }))
    );
    // A dirty raw class count (2) with one parsed contact never
    // cancels the tap.
    let mut agg = TouchGestures::new();
    assert_eq!(
        agg.feed(touch_contacts_dirty(TouchStatus::Down, 10, 10), 0),
        Some(InputEvent::Gesture(GestureEvent::Press {
            id: 0,
            x: 10,
            y: 10
        }))
    );
    assert_eq!(
        agg.feed(touch_contacts_dirty(TouchStatus::Release, 10, 10), 10),
        Some(touch_contacts_dirty(TouchStatus::Release, 10, 10))
    );
    assert_eq!(
        agg.tick(311),
        Some(InputEvent::Gesture(GestureEvent::Tap {
            id: 0,
            x: 10,
            y: 10,
            held_ms: 10
        }))
    );
}

#[test]
fn hold_gap_monotonic_to_the_long_press_threshold() {
    // A lone stationary press sweeps the hold-time gap monotonically:
    // every gap below 600 ms is a deferred tap, 600 ms and beyond is a
    // long-press — the lift's own resolution, never the tick's.
    for gap in [300, 400, 500, 599] {
        let mut agg = TouchGestures::new();
        assert!(
            agg.feed(touch(TouchStatus::Down, 100, 100), 0).is_some(),
            "gap {gap}: down edge pulses Press"
        );
        assert_eq!(
            agg.feed(touch(TouchStatus::Release, 100, 100), gap),
            Some(touch(TouchStatus::Release, 100, 100)),
            "gap {gap}: the short lift defers its tap"
        );
        assert_eq!(
            agg.tick(gap + 311),
            Some(InputEvent::Gesture(GestureEvent::Tap {
                id: 0,
                x: 100,
                y: 100,
                held_ms: gap as u16
            })),
            "gap {gap}: the tick past the window releases the tap"
        );
    }
    for gap in [600, 610, 800] {
        let mut agg = TouchGestures::new();
        assert!(agg.feed(touch(TouchStatus::Down, 100, 100), 0).is_some());
        assert_eq!(
            agg.feed(touch(TouchStatus::Release, 100, 100), gap),
            Some(InputEvent::Gesture(GestureEvent::LongPress {
                id: 0,
                x: 100,
                y: 100,
                held_ms: gap as u16
            })),
            "gap {gap}: a hold to the threshold is a long-press on release"
        );
    }
}

#[test]
fn any_press_that_ever_traveled_the_slide_threshold_is_a_swipe() {
    // A quick flick crosses SWIPE_MIN_DISTANCE_PX on its release
    // publication.
    let mut agg = TouchGestures::new();
    assert!(
        agg.feed(touch(TouchStatus::Down, 20, 120), 0).is_some(),
        "down edge pulses Press"
    );
    assert_eq!(
        agg.feed(touch(TouchStatus::Release, 140, 125), 90),
        Some(InputEvent::Gesture(GestureEvent::Swipe {
            id: 0,
            direction: SwipeDirection::Right,
            x: 20,
            y: 120,
            end_x: 140,
            end_y: 125,
            held_ms: 90,
            distance_px: 120,
        }))
    );
    assert!(agg.tick(400).is_none(), "no tap is buffered after a swipe");
    // A slow slide that outlives the long-press window is still a
    // swipe: the ever-travelled measure decides, not the hold.
    let mut agg = TouchGestures::new();
    assert!(agg.feed(touch(TouchStatus::Down, 10, 10), 0).is_some());
    assert_eq!(
        agg.feed(touch(TouchStatus::Release, 110, 10), LONG_PRESS_MS + 1),
        Some(InputEvent::Gesture(GestureEvent::Swipe {
            id: 0,
            direction: SwipeDirection::Right,
            x: 10,
            y: 10,
            end_x: 110,
            end_y: 10,
            held_ms: LONG_PRESS_MS as u16 + 1,
            distance_px: 100,
        }))
    );
    // The one far coordinate published mid-hold decides even when the
    // lift returns to the origin.
    let mut agg = TouchGestures::new();
    assert!(agg.feed(touch(TouchStatus::Down, 20, 120), 0).is_some());
    let mid = agg.feed(touch(TouchStatus::Contact, 140, 125), 400);
    assert!(
        !matches!(mid, Some(InputEvent::Gesture(_))),
        "a mid-hold position is a silent Contact: {mid:?}"
    );
    assert_eq!(
        agg.feed(touch(TouchStatus::Release, 20, 120), LONG_PRESS_MS + 100),
        Some(InputEvent::Gesture(GestureEvent::Swipe {
            id: 0,
            direction: SwipeDirection::Right,
            x: 20,
            y: 120,
            end_x: 140,
            end_y: 125,
            held_ms: LONG_PRESS_MS as u16 + 100,
            distance_px: 120,
        }))
    );
}

#[test]
fn swipe_classify_reads_axes_bands_and_none_below_threshold() {
    // Straight axes read their cardinal direction and Euclidean
    // travel.
    for (x0, y0, x1, y1, direction, px) in [
        (10, 100, 90, 100, SwipeDirection::Right, 80),
        (90, 100, 10, 100, SwipeDirection::Left, 80),
        (100, 200, 100, 120, SwipeDirection::Up, 80),
        (100, 120, 100, 200, SwipeDirection::Down, 80),
    ] {
        assert_eq!(swipe_classify(x0, y0, x1, y1), Some((direction, px)));
    }
    // The ±22.5° diagonal band resolves to the diagonal octant; a 3:1
    // rake (≈71.6°) is steeper than the 67.5° edge and folds straight.
    for (x0, y0, x1, y1, direction) in [
        (0, 0, 60, 60, SwipeDirection::DownRight),
        (0, 60, 60, 0, SwipeDirection::UpRight),
        (60, 0, 0, 60, SwipeDirection::DownLeft),
        (60, 60, 0, 0, SwipeDirection::UpLeft),
    ] {
        assert_eq!(swipe_classify(x0, y0, x1, y1), Some((direction, 84)));
    }
    let (direction, _) = swipe_classify(0, 0, 20, 60).unwrap();
    assert_eq!(direction, SwipeDirection::Down);
    let (direction, distance) = swipe_classify(10, 10, 80, 80).unwrap();
    assert_eq!(direction, SwipeDirection::DownRight);
    assert_eq!(distance, 98, "sqrt(70²+70²) floors to 98");
    assert_eq!(swipe_classify(0, 0, 50, 0), None);
    assert_eq!(swipe_classify(0, 0, 0, 59), None);
}

#[test]
fn swipe_threshold_straddles_slop_monotonically() {
    // On the 240-px-wide panel a quarter is 60 px: the threshold never
    // exceeds it so a deliberate flick always crosses.
    let quarter_panel: u16 = 240 / 4;
    assert!(SWIPE_MIN_DISTANCE_PX <= quarter_panel);
    // Every octant classifies monotonically around the slop: 1 px under
    // the threshold is still no swipe, exactly at the threshold the
    // travel (60 px) reads its direction, and a far slide keeps the
    // same direction.
    for (label, (x0, y0), (x_below, y_below), (x_at, y_at), (x_far, y_far), direction) in [
        (
            "right",
            (0, 100),
            (59, 100),
            (60, 100),
            (80, 100),
            SwipeDirection::Right,
        ),
        (
            "left",
            (80, 100),
            (21, 100),
            (20, 100),
            (0, 100),
            SwipeDirection::Left,
        ),
        (
            "down",
            (100, 0),
            (100, 59),
            (100, 60),
            (100, 80),
            SwipeDirection::Down,
        ),
        (
            "up",
            (100, 80),
            (100, 21),
            (100, 20),
            (100, 0),
            SwipeDirection::Up,
        ),
        (
            "down-right",
            (0, 0),
            (50, 32),
            (50, 34),
            (80, 80),
            SwipeDirection::DownRight,
        ),
        (
            "up-right",
            (0, 80),
            (50, 48),
            (50, 46),
            (80, 0),
            SwipeDirection::UpRight,
        ),
        (
            "down-left",
            (80, 0),
            (30, 32),
            (30, 34),
            (0, 80),
            SwipeDirection::DownLeft,
        ),
        (
            "up-left",
            (80, 80),
            (30, 48),
            (30, 46),
            (0, 0),
            SwipeDirection::UpLeft,
        ),
    ] {
        assert_eq!(
            swipe_classify(x0, y0, x_below, y_below),
            None,
            "{label}: 59 px of travel is still a tap"
        );
        let (dir, px) = swipe_classify(x0, y0, x_at, y_at)
            .expect("{label}: 60 px crosses the slop threshold");
        assert_eq!(dir, direction);
        assert_eq!(px, 60);
        let (dir, px) = swipe_classify(x0, y0, x_far, y_far).unwrap();
        assert_eq!(dir, direction, "{label}: the far slide keeps its direction");
        assert!(px > 60, "{label}: travel keeps growing past the threshold");
    }
}

#[test]
fn direction_between_reads_axes_and_respects_the_deadband() {
    assert_eq!(
        direction_between(100, 200, 100, 120, MOVE_DEADBAND_PX),
        Some(SwipeDirection::Up)
    );
    assert_eq!(
        direction_between(100, 120, 100, 200, MOVE_DEADBAND_PX),
        Some(SwipeDirection::Down)
    );
    assert_eq!(
        direction_between(120, 100, 30, 100, MOVE_DEADBAND_PX),
        Some(SwipeDirection::Left)
    );
    assert_eq!(
        direction_between(30, 100, 90, 100, MOVE_DEADBAND_PX),
        Some(SwipeDirection::Right)
    );
    assert_eq!(
        direction_between(100, 100, 50, 150, MOVE_DEADBAND_PX),
        Some(SwipeDirection::DownLeft)
    );
    assert_eq!(
        direction_between(100, 150, 160, 60, MOVE_DEADBAND_PX),
        Some(SwipeDirection::UpRight)
    );
    assert_eq!(
        direction_between(10, 10, 80, 80, MOVE_DEADBAND_PX),
        Some(SwipeDirection::DownRight)
    );
    // Micro-drift within the deadband keeps the last axis instead of
    // flickering with a stationary contact.
    assert_eq!(direction_between(10, 10, 11, 10, MOVE_DEADBAND_PX), None);
    assert_eq!(direction_between(10, 10, 10, 11, MOVE_DEADBAND_PX), None);
    assert_eq!(direction_between(10, 10, 11, 11, MOVE_DEADBAND_PX), None);
}

#[test]
fn in_window_lifts_pair_into_a_double_tap() {
    // Two short lifts in the same spot inside the window pair into a
    // double-tap — keyed by proximity, never by id, since hardware
    // hands the second physical tap a fresh tracker id.
    let mut agg = TouchGestures::new();
    assert_eq!(
        agg.feed(sample(&[(TouchStatus::Down, 12, 40, 60)], 1), 0),
        Some(InputEvent::Gesture(GestureEvent::Press {
            id: 12,
            x: 40,
            y: 60
        }))
    );
    assert_eq!(
        agg.feed(sample(&[(TouchStatus::Release, 12, 40, 60)], 1), 10),
        Some(sample(&[(TouchStatus::Release, 12, 40, 60)], 1)),
        "the first lift parks the chamber and forwards its raw snapshot"
    );
    assert_eq!(
        agg.feed(sample(&[(TouchStatus::Down, 7, 45, 65)], 1), 90),
        Some(InputEvent::Gesture(GestureEvent::Press {
            id: 7,
            x: 45,
            y: 65
        })),
        "the second physical tap is a fresh tracker, never the old id"
    );
    assert_eq!(
        agg.feed(sample(&[(TouchStatus::Release, 7, 45, 65)], 1), 100),
        Some(InputEvent::Gesture(GestureEvent::DoubleTap {
            id: 7,
            x: 40,
            y: 60,
            end_x: 45,
            end_y: 65,
            held_ms: 10
        })),
        "the same-spot lift pairs by position, not by id"
    );
    // The same id works too, mirroring the button's double-click.
    let mut agg = TouchGestures::new();
    assert_eq!(
        agg.feed(touch(TouchStatus::Down, 10, 10), 0),
        Some(InputEvent::Gesture(GestureEvent::Press {
            id: 0,
            x: 10,
            y: 10
        }))
    );
    assert_eq!(
        agg.feed(touch(TouchStatus::Release, 10, 10), 10),
        Some(touch(TouchStatus::Release, 10, 10))
    );
    assert_eq!(
        agg.feed(touch(TouchStatus::Down, 30, 30), 100),
        Some(InputEvent::Gesture(GestureEvent::Press {
            id: 0,
            x: 30,
            y: 30
        }))
    );
    assert_eq!(
        agg.feed(touch(TouchStatus::Release, 40, 30), 170),
        Some(InputEvent::Gesture(GestureEvent::DoubleTap {
            id: 0,
            x: 10,
            y: 10,
            end_x: 40,
            end_y: 30,
            held_ms: 70
        }))
    );
}

#[test]
fn double_tap_gap_sweeps_the_chamber_window() {
    // Two short lifts separated by ≤ DOUBLE_CLICK_WINDOW_MS (300, the
    // inclusive boundary) pair; one past it releases as two taps, in
    // lift order.
    for gap in [200_u64, 290, 300] {
        let mut agg = TouchGestures::new();
        assert!(agg.feed(touch(TouchStatus::Down, 10, 10), 0).is_some());
        assert_eq!(
            agg.feed(touch(TouchStatus::Release, 10, 10), 10),
            Some(touch(TouchStatus::Release, 10, 10))
        );
        assert!(agg.feed(touch(TouchStatus::Down, 20, 20), gap).is_some());
        assert!(
            matches!(
                agg.feed(touch(TouchStatus::Release, 20, 20), gap + 10),
                Some(InputEvent::Gesture(GestureEvent::DoubleTap {
                    id: 0,
                    x: 10,
                    y: 10,
                    ..
                }))
            ),
            "gap {gap}: the second lift inside the window pairs"
        );
        assert!(
            agg.tick(400).is_none(),
            "gap {gap}: nothing remains pending after the pair"
        );
    }
    for gap in [301_u64, 400, 599] {
        let mut agg = TouchGestures::new();
        assert!(agg.feed(touch(TouchStatus::Down, 10, 10), 0).is_some());
        assert_eq!(
            agg.feed(touch(TouchStatus::Release, 10, 10), 10),
            Some(touch(TouchStatus::Release, 10, 10))
        );
        assert!(agg.feed(touch(TouchStatus::Down, 20, 20), gap).is_some());
        assert!(
            matches!(
                agg.feed(touch(TouchStatus::Release, 20, 20), gap + 10),
                Some(InputEvent::Gesture(GestureEvent::Tap {
                    id: 0,
                    x: 10,
                    y: 10,
                    ..
                }))
            ),
            "gap {gap}: the lapsed pending tap surfaces at its own lift first"
        );
        assert!(
            matches!(
                agg.tick(gap + 311),
                Some(InputEvent::Gesture(GestureEvent::Tap { id: 0, x: 20, .. }))
            ),
            "gap {gap}: the new tap parks and expires via tick"
        );
    }
}

#[test]
fn separated_lifts_release_as_independent_taps() {
    let mut agg = TouchGestures::new();
    assert!(agg.tick(100).is_none(), "a quiet clock parks nothing");
    // Lifts of the same finger more than the window apart are
    // independent taps, each released by a tick once its own window
    // closes.
    assert!(agg.feed(touch(TouchStatus::Down, 10, 10), 0).is_some());
    assert_eq!(
        agg.feed(touch(TouchStatus::Release, 10, 10), 10),
        Some(touch(TouchStatus::Release, 10, 10))
    );
    assert_eq!(
        agg.tick(311),
        Some(InputEvent::Gesture(GestureEvent::Tap {
            id: 0,
            x: 10,
            y: 10,
            held_ms: 10
        }))
    );
    assert!(agg.feed(touch(TouchStatus::Down, 20, 20), 400).is_some());
    assert_eq!(
        agg.feed(touch(TouchStatus::Release, 20, 20), 410),
        Some(touch(TouchStatus::Release, 20, 20))
    );
    assert_eq!(
        agg.tick(711),
        Some(InputEvent::Gesture(GestureEvent::Tap {
            id: 0,
            x: 20,
            y: 20,
            held_ms: 10
        }))
    );
}

#[test]
fn an_end_gesture_discards_the_pending_tap() {
    // Tap once, then slide: the swipe wins and drops the pending tap
    // instead of double-pairing with it.
    let mut agg = TouchGestures::new();
    assert!(agg.feed(touch(TouchStatus::Down, 10, 10), 0).is_some());
    assert_eq!(
        agg.feed(touch(TouchStatus::Release, 10, 10), 10),
        Some(touch(TouchStatus::Release, 10, 10))
    );
    assert!(agg.feed(touch(TouchStatus::Down, 10, 200), 400).is_some());
    assert_eq!(
        agg.feed(touch(TouchStatus::Release, 10, 100), 480),
        Some(InputEvent::Gesture(GestureEvent::Swipe {
            id: 0,
            direction: SwipeDirection::Up,
            x: 10,
            y: 200,
            end_x: 10,
            end_y: 100,
            held_ms: 80,
            distance_px: 100,
        }))
    );
    assert!(
        agg.tick(800).is_none(),
        "the swipe dropped the first tap's pending window"
    );
    // The same suite, ending in a long-press: the pending tap is
    // dropped too.
    let mut agg = TouchGestures::new();
    assert!(agg.feed(touch(TouchStatus::Down, 10, 10), 0).is_some());
    assert_eq!(
        agg.feed(touch(TouchStatus::Release, 10, 10), 10),
        Some(touch(TouchStatus::Release, 10, 10))
    );
    assert!(agg.feed(touch(TouchStatus::Down, 20, 20), 400).is_some());
    assert_eq!(
        agg.feed(touch(TouchStatus::Release, 20, 20), 1000),
        Some(InputEvent::Gesture(GestureEvent::LongPress {
            id: 0,
            x: 20,
            y: 20,
            held_ms: 600
        }))
    );
    assert!(
        agg.tick(1300).is_none(),
        "the long-press dropped the pending tap instead of double-pairing"
    );
}

#[test]
fn phantom_echoes_pulse_once_and_leave_the_finger_armed() {
    let mut agg = TouchGestures::new();
    assert_eq!(
        agg.feed(sample(&[(TouchStatus::Down, 0, 100, 100)], 1), 0),
        Some(InputEvent::Gesture(GestureEvent::Press {
            id: 0,
            x: 100,
            y: 100
        }))
    );
    // A second contact inside the first finger's down window and
    // within PHANTOM_RADIUS_PX is that finger's self-cap echo:
    // rejected, pulsed once as Ghost, and given no tracker of its own
    // — so a duplicate at press-in never pairs into a double-tap nor
    // collides with a genuinely concurrent second finger.
    assert_eq!(
        agg.feed(
            sample(
                &[
                    (TouchStatus::Contact, 0, 100, 100),
                    (TouchStatus::Down, 1, 110, 105)
                ],
                2,
            ),
            10,
        ),
        Some(InputEvent::Gesture(GestureEvent::GhostTouch))
    );
    // The echo's own lift reaches no tracker; the sole real finger
    // stays armed exactly as a single-finger press would.
    assert_eq!(
        agg.feed(sample(&[(TouchStatus::Release, 1, 110, 105)], 1), 20),
        Some(sample(&[(TouchStatus::Release, 1, 110, 105)], 1)),
    );
    assert_eq!(
        agg.feed(sample(&[(TouchStatus::Release, 0, 100, 100)], 1), 30),
        Some(sample(&[(TouchStatus::Release, 0, 100, 100)], 1)),
    );
    assert_eq!(
        agg.tick(331),
        Some(InputEvent::Gesture(GestureEvent::Tap {
            id: 0,
            x: 100,
            y: 100,
            held_ms: 30
        }))
    );
    // A second echo still inside the same down window collapses to the
    // same run: no re-pulse, and the untouched finger just forwards its
    // snapshot; a clean run closes it, so a fresh finger plus its echo
    // is a new Ghost.
    let mut agg = TouchGestures::new();
    assert!(
        agg.feed(sample(&[(TouchStatus::Down, 0, 30, 30)], 1), 0)
            .is_some()
    );
    assert_eq!(
        agg.feed(
            sample(
                &[
                    (TouchStatus::Contact, 0, 30, 30),
                    (TouchStatus::Down, 1, 35, 35)
                ],
                2
            ),
            5
        ),
        Some(InputEvent::Gesture(GestureEvent::GhostTouch))
    );
    assert_eq!(
        agg.feed(
            sample(
                &[
                    (TouchStatus::Contact, 0, 30, 30),
                    (TouchStatus::Down, 2, 36, 36)
                ],
                2
            ),
            9
        ),
        Some(sample(
            &[
                (TouchStatus::Contact, 0, 30, 30),
                (TouchStatus::Down, 2, 36, 36)
            ],
            2
        )),
    );
    assert_eq!(
        agg.feed(sample(&[(TouchStatus::Contact, 0, 30, 30)], 1), 50),
        Some(sample(&[(TouchStatus::Contact, 0, 30, 30)], 1)),
        "a clean one-contact sample closes the run"
    );
    assert_eq!(
        agg.feed(sample(&[(TouchStatus::Down, 3, 200, 200)], 1), 60),
        Some(InputEvent::Gesture(GestureEvent::Press {
            id: 3,
            x: 200,
            y: 200
        }))
    );
    assert_eq!(
        agg.feed(
            sample(
                &[
                    (TouchStatus::Contact, 3, 200, 200),
                    (TouchStatus::Down, 4, 205, 205)
                ],
                2
            ),
            65
        ),
        Some(InputEvent::Gesture(GestureEvent::GhostTouch)),
        "a genuinely new finger's echo is a fresh run, not a continuation"
    );
}

#[test]
fn concurrent_fingers_never_pair_into_one_gesture() {
    // Finger 0 lands first; finger 1 joins far away: two trackers own
    // two independent state machines. The slide resolves the moment
    // finger 0 lifts — even while finger 1 is still down — and finger
    // 1's short lift is its own tap.
    let mut agg = TouchGestures::new();
    assert_eq!(
        agg.feed(sample(&[(TouchStatus::Down, 0, 20, 120)], 1), 0),
        Some(InputEvent::Gesture(GestureEvent::Press {
            id: 0,
            x: 20,
            y: 120
        }))
    );
    assert_eq!(
        agg.feed(sample(&[(TouchStatus::Down, 1, 150, 200)], 1), 0),
        Some(InputEvent::Gesture(GestureEvent::Press {
            id: 1,
            x: 150,
            y: 200
        })),
        "a second faraway finger is genuine concurrency, not a phantom"
    );
    assert_eq!(
        agg.feed(sample(&[(TouchStatus::Release, 0, 140, 125)], 1), 90),
        Some(InputEvent::Gesture(GestureEvent::Swipe {
            id: 0,
            direction: SwipeDirection::Right,
            x: 20,
            y: 120,
            end_x: 140,
            end_y: 125,
            held_ms: 90,
            distance_px: 120,
        }))
    );
    assert_eq!(
        agg.feed(sample(&[(TouchStatus::Contact, 1, 150, 200)], 1), 95),
        Some(sample(&[(TouchStatus::Contact, 1, 150, 200)], 1)),
        "finger 1's hold is silent; only its snapshot passes through"
    );
    assert_eq!(
        agg.feed(sample(&[(TouchStatus::Release, 1, 150, 200)], 1), 100),
        Some(sample(&[(TouchStatus::Release, 1, 150, 200)], 1)),
    );
    assert_eq!(
        agg.tick(401),
        Some(InputEvent::Gesture(GestureEvent::Tap {
            id: 1,
            x: 150,
            y: 200,
            held_ms: 100
        })),
        "finger 1's tap did not pair with finger 0's swipe"
    );
    // Two taps far apart are two taps: the double-click pairing is
    // keyed by proximity, so a finger elsewhere never pairs into the
    // chambered tap.
    let mut agg = TouchGestures::new();
    assert!(
        agg.feed(sample(&[(TouchStatus::Down, 0, 10, 90)], 1), 0)
            .is_some()
    );
    assert!(
        agg.feed(sample(&[(TouchStatus::Down, 1, 150, 90)], 1), 0)
            .is_some()
    );
    assert_eq!(
        agg.feed(sample(&[(TouchStatus::Release, 0, 10, 90)], 1), 10),
        Some(sample(&[(TouchStatus::Release, 0, 10, 90)], 1)),
    );
    assert_eq!(
        agg.feed(sample(&[(TouchStatus::Release, 1, 150, 90)], 1), 20),
        Some(InputEvent::Gesture(GestureEvent::Tap {
            id: 0,
            x: 10,
            y: 90,
            held_ms: 10
        })),
        "the faraway finger flushes the chambered tap as its own lone Tap"
    );
    assert_eq!(agg.tick(311), None);
    assert_eq!(
        agg.tick(321),
        Some(InputEvent::Gesture(GestureEvent::Tap {
            id: 1,
            x: 150,
            y: 90,
            held_ms: 20
        }))
    );
}

#[test]
fn same_sample_lifts_buffer_the_second_in_fifo() {
    // Both genuine (far-apart) fingers slide and lift in one frame;
    // two swipes resolve, the classifier returns the first and buffers
    // the second on the single-event channel, drained FIFO by the next
    // poll.
    let mut agg = TouchGestures::new();
    assert!(
        agg.feed(sample(&[(TouchStatus::Down, 0, 20, 120)], 1), 0)
            .is_some()
    );
    assert!(
        agg.feed(sample(&[(TouchStatus::Down, 1, 150, 200)], 1), 0)
            .is_some()
    );
    let both_lift = sample(
        &[
            (TouchStatus::Release, 0, 140, 125),
            (TouchStatus::Release, 1, 80, 170),
        ],
        1,
    );
    assert_eq!(
        agg.feed(both_lift, 90),
        Some(InputEvent::Gesture(GestureEvent::Swipe {
            id: 0,
            direction: SwipeDirection::Right,
            x: 20,
            y: 120,
            end_x: 140,
            end_y: 125,
            held_ms: 90,
            distance_px: 120,
        }))
    );
    assert_eq!(
        agg.tick(100),
        Some(InputEvent::Gesture(GestureEvent::Swipe {
            id: 1,
            direction: SwipeDirection::UpLeft,
            x: 150,
            y: 200,
            end_x: 80,
            end_y: 170,
            held_ms: 90,
            distance_px: 76,
        })),
        "the second event waited in FIFO, not dropped"
    );
}

#[test]
fn companion_lift_never_cycles_a_clean_hold_still_does() {
    // This panel's self-cap parks a far, mirror-ish companion contact
    // while a real finger is down; it sits still well past
    // LONG_PRESS_MS then lifts. Its lift must never cycle the mode.
    // But the *real* finger's own later lift — a clean hold the panel
    // ended as a single contact — is a deliberate long-press and must
    // still cycle. Only the lift moment decides: transient press-in
    // companions must not veto a hold that then carried the panel
    // alone.
    let mut agg = TouchGestures::new();
    assert!(
        agg.feed(sample(&[(TouchStatus::Down, 0, 20, 120)], 2), 0)
            .is_some()
    );
    assert!(
        agg.feed(sample(&[(TouchStatus::Down, 1, 150, 150)], 2), 100)
            .is_some(),
        "a far second contact is genuine concurrency, not a phantom"
    );
    let ghost_lift = agg.feed(sample(&[(TouchStatus::Release, 1, 150, 150)], 2), 900);
    assert!(
        !matches!(
            ghost_lift,
            Some(InputEvent::Gesture(GestureEvent::LongPress { .. }))
        ),
        "the parked companion's 900 ms lift never reads as a long-press: {ghost_lift:?}"
    );
    assert_eq!(
        agg.feed(sample(&[(TouchStatus::Release, 0, 20, 120)], 2), 1100),
        Some(InputEvent::Gesture(GestureEvent::LongPress {
            id: 0,
            x: 20,
            y: 120,
            held_ms: 1100,
        })),
        "the real finger's clean hold, ended alone, is the deliberate long-press"
    );
}

#[test]
fn isqrt_u32_floors_perfect_and_imperfect_squares() {
    assert_eq!(isqrt_u32(0), 0);
    assert_eq!(isqrt_u32(1), 1);
    assert_eq!(isqrt_u32(4), 2);
    assert_eq!(isqrt_u32(65536), 256);
    assert_eq!(isqrt_u32(9800), 98);
    assert_eq!(isqrt_u32(u32::MAX), 65535);
}

#[test]
fn chip_gestures_pass_through_unmodified() {
    let mut agg = TouchGestures::new();
    assert_eq!(
        agg.feed(InputEvent::ChipGesture(0x10), 0),
        Some(InputEvent::ChipGesture(0x10))
    );
}



#[test]
fn swiping_back_reads_as_the_opposite_swipe() {
    assert_eq!(swipe_classify(10, 10, 110, 60), Some((SwipeDirection::DownRight, 111)));
    assert_eq!(swipe_classify(110, 60, 10, 10), Some((SwipeDirection::UpLeft, 111)));
    assert_eq!(swipe_classify(200, 50, 200, 130), Some((SwipeDirection::Down, 80)));
    assert_eq!(swipe_classify(200, 130, 200, 50), Some((SwipeDirection::Up, 80)));
    assert_eq!(direction_between(10, 10, 110, 60, 5), Some(SwipeDirection::DownRight));
    assert_eq!(swipe_classify(0, 0, 30, 30), None);
    assert_eq!(swipe_classify(30, 30, 0, 0), None);
}
