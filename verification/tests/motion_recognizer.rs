use vanling::drivers::motion::recognizer::{
    isqrt, MotionRecognizer, DWELL_MS, SHAKE_ON_MG, SHAKE_REFRACTORY_MS, SHAKE_WINDOW_MS,
    STILL_GRAVITY_DEV_MG, TAP_PEAK_MAG_MG2, TILT_ENTER_DEG_X10, TILT_EXIT_DEG_X10,
};
use vanling::drivers::motion::{MotionEvent, MotionEvents, MotionSample, TiltDir, MOTION_SCAN_MS};
fn sample(accel_mg: [i32; 3], tilt_deg_x10: [i16; 3]) -> MotionSample {
    MotionSample {
        accel_mg,
        tilt_deg_x10,
        valid: true,
        ..MotionSample::error()
    }
}

/// Where this recognizer's own time base currently stands, so a fixture
/// resumed after an earlier feed continues instead of restarting at zero.
fn cursor(recognizer: &MotionRecognizer) -> u64 {
    recognizer.last_poll_ms().unwrap_or_default() / MOTION_SCAN_MS + 1
}

fn feed(
    recognizer: &mut MotionRecognizer,
    sample: &MotionSample,
    polls: u64,
) -> Vec<MotionEvent> {
    let start = cursor(recognizer);
    feed_from(recognizer, sample, start, polls)
}

fn feed_from(
    recognizer: &mut MotionRecognizer,
    sample: &MotionSample,
    start: u64,
    polls: u64,
) -> Vec<MotionEvent> {
    let mut frame = *sample;
    let mut seen = Vec::new();
    for offset in 0..polls {
        seen.extend(
            recognizer
                .recognize(&mut frame, (start + offset) * MOTION_SCAN_MS)
                .iter(),
        );
    }
    seen
}

/// Alternates the per-axis offset every poll, so it reads as motion
/// rather than as a new orientation the estimate would absorb.
fn swinging(offsets: [i32; 3]) -> impl FnMut(usize) -> MotionSample {
    let mut polls = 0;
    move |_| {
        let sign = if polls % 2 == 0 { 1 } else { -1 };
        polls += 1;
        sample(
            [
                offsets[0] * sign,
                offsets[1] * sign,
                1_000 + offsets[2] * sign,
            ],
            [0; 3],
        )
    }
}

/// A sine on one axis at a fixed frequency, read off the recognizer's clock
/// rather than a poll counter so the same gesture is rate-independent.
fn tone(hz: f64, amplitude_mg: i32) -> impl FnMut(u64) -> MotionSample {
    move |now_ms| {
        let phase = 2.0 * core::f64::consts::PI * hz * now_ms as f64 / 1_000.0;
        sample(
            [(f64::from(amplitude_mg) * phase.sin()) as i32, 0, 1_000],
            [0; 3],
        )
    }
}

/// Gravity itself swinging, which is what deliberately turning the device
/// looks like: the reading stays near one g and only its direction changes.
fn turning(hz: f64, amplitude_mg: i32) -> impl FnMut(u64) -> MotionSample {
    move |now_ms| {
        let phase = 2.0 * core::f64::consts::PI * hz * now_ms as f64 / 1_000.0;
        let swing = f64::from(amplitude_mg) * phase.sin();
        let upright = (1_000.0 * 1_000.0 - swing * swing).max(0.0).sqrt();
        sample([swing as i32, 0, upright as i32], [0; 3])
    }
}

/// Settles a fresh recognizer on a device lying still, so a gesture starts
/// from a converged estimate rather than from the priming sample.
fn settled() -> (MotionRecognizer, u64) {
    let mut recognizer = MotionRecognizer::new();
    let still = sample([0, 0, 1_000], [0; 3]);
    feed(&mut recognizer, &still, 20);
    let start = recognizer.last_poll_ms().unwrap();
    (recognizer, start)
}

fn shake_in(events: MotionEvents) -> bool {
    events.iter().iter().any(|event| *event == MotionEvent::Shake)
}

/// The same question over a run of events gathered across many polls.
fn shook(events: &[MotionEvent]) -> bool {
    events.contains(&MotionEvent::Shake)
}

#[test]
fn a_flat_still_device_reports_nothing() {
    let mut recognizer = MotionRecognizer::new();
    let flat = sample([0, 0, 1_000], [0; 3]);
    assert!(
        feed(&mut recognizer, &flat, 100).is_empty(),
        "a resting device must stay silent"
    );
}

#[test]
fn tilt_enters_once_and_exits_only_past_the_inner_angle() {
    let mut recognizer = MotionRecognizer::new();
    let upright = sample([0, 0, 1_000], [0; 3]);
    feed(&mut recognizer, &upright, 10);

    let held = sample([0, 0, 1_000], [TILT_ENTER_DEG_X10, 0, 0]);
    assert_eq!(
        feed(&mut recognizer, &held, 5),
        [MotionEvent::TiltEnter(TiltDir::Right)]
    );

    let between = sample([0, 0, 1_000], [TILT_EXIT_DEG_X10 + 5, 0, 0]);
    assert!(
        feed(&mut recognizer, &between, 5).is_empty(),
        "hysteresis must not chatter"
    );

    let flat_again = sample([0, 0, 1_000], [0; 3]);
    assert_eq!(
        feed(&mut recognizer, &flat_again, 2),
        [MotionEvent::TiltExit(TiltDir::Right)]
    );
}

#[test]
fn a_flipped_axis_raises_tilt_exit_and_enter_in_one_poll() {
    let mut recognizer = MotionRecognizer::new();
    let right = sample([0, 0, 1_000], [200, 0, 0]);
    feed(&mut recognizer, &right, 2);
    let left = sample([0, 0, 1_000], [-200, 0, 0]);
    assert_eq!(
        feed(&mut recognizer, &left, 1),
        [
            MotionEvent::TiltExit(TiltDir::Right),
            MotionEvent::TiltEnter(TiltDir::Left)
        ]
    );
}

#[test]
fn the_first_sample_defines_the_orientation_instead_of_measuring_against_it() {
    let mut recognizer = MotionRecognizer::new();
    // A device picked up and shaken the instant it boots: with no estimate to
    // subtract, the very first reading is the orientation, not an impulse.
    let mut gesture = tone(5.0, 3_000);
    let mut first = gesture(0);
    let events = recognizer.recognize(&mut first, 0);
    assert!(
        !shake_in(events),
        "a boot-time gesture must not open with a phantom shake, got {:?}",
        events.iter()
    );
}

#[test]
fn a_hand_shake_is_reported_across_the_band_a_hand_produces() {
    // One gravity estimate cannot serve the rest and the shake test at once:
    // at the rest corner a 5 Hz 3 g shake arrives at a third of its amplitude.
    for hz in [3.0, 5.0, 8.0, 10.0] {
        let (mut recognizer, start) = settled();
        let mut gesture = tone(hz, 3_000);
        let polls = 250;
        let mut fired = 0;
        for index in 0..polls {
            let now = start + (index + 1) * MOTION_SCAN_MS;
            fired += usize::from(shake_in(recognizer.recognize(&mut gesture(now), now)));
        }
        assert!(
            fired > 0,
            "a {hz} Hz shake of 3 g must report, fired {fired} times"
        );
    }
}

#[test]
fn a_deliberate_turn_is_not_a_shake() {
    // Turning moves gravity without adding energy, so the gesture sits where
    // the shake estimate absorbs it as orientation.
    for hz in [0.5, 1.0, 2.0, 3.0] {
        let (mut recognizer, start) = settled();
        let mut gesture = turning(hz, 1_000);
        let mut seen = Vec::new();
        for index in 0..250 {
            let now = start + (index + 1) * MOTION_SCAN_MS;
            seen.extend(recognizer.recognize(&mut gesture(now), now).iter());
        }
        assert!(
            !shook(&seen),
            "turning the device at {hz} Hz is not a shake, got {seen:?}"
        );
    }
}

#[test]
fn a_knock_is_one_crossing_and_does_not_reach_the_peak_count() {
    let (mut recognizer, start) = settled();
    let mut seen = Vec::new();
    for index in 0..60 {
        let now = start + (index + 1) * MOTION_SCAN_MS;
        let struck = index == 2 || index == 3;
        let mut impulse = sample([if struck { 3_400 } else { 0 }, 0, 1_000], [0; 3]);
        seen.extend(recognizer.recognize(&mut impulse, now).iter());
    }
    assert!(
        !shook(&seen),
        "one knock crosses the line once and must stay a knock, got {seen:?}"
    );
}

#[test]
fn one_long_excursion_is_not_a_shake() {
    // Held and turned hard without reversing: one crossing, no gesture.
    let (mut recognizer, start) = settled();
    let mut seen = Vec::new();
    for index in 0..120 {
        let now = start + (index + 1) * MOTION_SCAN_MS;
        let mut held = sample([if index > 1 { 2_600 } else { 0 }, 0, 1_000], [0; 3]);
        seen.extend(recognizer.recognize(&mut held, now).iter());
    }
    assert!(
        !shook(&seen),
        "a sustained excursion has no reversals to count, got {seen:?}"
    );
}

#[test]
fn a_gentle_oscillation_stays_under_the_threshold() {
    let (mut recognizer, start) = settled();
    let mut gesture = tone(5.0, 1_000);
    let mut seen = Vec::new();
    for index in 0..250 {
        let now = start + (index + 1) * MOTION_SCAN_MS;
        seen.extend(recognizer.recognize(&mut gesture(now), now).iter());
    }
    assert!(
        !shook(&seen),
        "1 g of oscillation is not a shake, got {seen:?}"
    );
}

#[test]
fn a_magnitude_deviation_is_what_the_dwell_sees() {
    let mut recognizer = MotionRecognizer::new();
    let flat = sample([0, 0, 1_000], [0; 3]);
    feed(&mut recognizer, &flat, 5);

    // Picked up straight: gravity leaves one axis while the hand accelerates
    // it, pulling the magnitude off the one-g shell past the 150 mG band.
    let lifted = sample([0, 0, 500], [0; 3]);
    let moved = feed(&mut recognizer, &lifted, 10);
    assert!(moved.contains(&MotionEvent::Lift));
    assert!(!moved.contains(&MotionEvent::Place));

    let placed = feed(&mut recognizer, &flat, 10);
    assert!(placed.contains(&MotionEvent::Place));
}

#[test]
fn the_still_band_sits_exactly_on_still_gravity_deviation_mg() {
    // The band comes from the constant: just below is still, just above is lift.
    let mut recognizer = MotionRecognizer::new();
    let flat = sample([0, 0, 1_000], [0; 3]);
    feed(&mut recognizer, &flat, 5);

    let inside = sample([0, 0, 1_000 - STILL_GRAVITY_DEV_MG + 30], [0; 3]);
    let seen = feed(&mut recognizer, &inside, 10);
    assert!(
        !seen.contains(&MotionEvent::Lift),
        "{STILL_GRAVITY_DEV_MG} mG band must still hold {}, got {seen:?}",
        1_000 - STILL_GRAVITY_DEV_MG + 30,
    );

    let outside = sample([0, 0, 1_000 - STILL_GRAVITY_DEV_MG - 30], [0; 3]);
    let seen = feed(&mut recognizer, &outside, 10);
    assert!(
        seen.contains(&MotionEvent::Lift),
        "{STILL_GRAVITY_DEV_MG} mG band must have been broken at {}, got {seen:?}",
        1_000 - STILL_GRAVITY_DEV_MG - 30,
    );
}

#[test]
fn a_spin_keeps_the_magnitude_on_the_shell_and_reports_no_lift() {
    // Picked up without moving against gravity: magnitude stays on the shell.
    let mut recognizer = MotionRecognizer::new();
    let upright = sample([0, 0, 1_000], [0; 3]);
    feed(&mut recognizer, &upright, 10);
    let spun = sample([1_000, 0, 0], [0; 3]);
    let seen = feed(&mut recognizer, &spun, 10);
    assert!(
        !seen.contains(&MotionEvent::Lift) && !seen.contains(&MotionEvent::Place),
        "reorienting without leaving the shell is not a lift, got {seen:?}"
    );
}

#[test]
fn the_published_residuals_are_the_numbers_the_thresholds_decide_on() {
    // Both readouts must carry the quantity the thresholds actually compare.
    let (mut recognizer, start) = settled();
    let still = sample([0, 0, 1_000], [0; 3]);
    let mut reading = still;
    recognizer.recognize(&mut reading, start + MOTION_SCAN_MS);
    assert!(
        reading.gravity_deviation_mg < STILL_GRAVITY_DEV_MG,
        "a resting device must sit under the still band, got {}",
        reading.gravity_deviation_mg
    );
    assert_eq!(reading.gravity_deviation_mg, 0, "nothing off-shell at rest");

    let mut gesture = tone(5.0, 3_000);
    let mut peak = 0;
    for index in 0..100 {
        let now = start + (index + 1) * MOTION_SCAN_MS;
        let mut frame = gesture(now);
        recognizer.recognize(&mut frame, now);
        peak = peak.max(frame.shake_residual_mg);
    }
    assert!(
        peak > SHAKE_ON_MG,
        "a 3 g shake has to publish a residual above the threshold, peaked at {peak}"
    );
}

#[test]
fn one_gesture_reports_once_then_holds_the_refractory() {
    let (mut recognizer, start) = settled();
    let mut gesture = tone(5.0, 3_000);
    let mut seen = Vec::new();
    for index in 0..250 {
        let now = start + (index + 1) * MOTION_SCAN_MS;
        seen.extend(recognizer.recognize(&mut gesture(now), now).iter());
    }
    let fires = u64::try_from(seen.iter().filter(|e| **e == MotionEvent::Shake).count())
        .unwrap_or_default();
    // Five seconds of shaking, each event held for the refractory period, so
    // the count lands near one per refractory window, not one per poll.
    let span_polls = 250u64;
    let least = span_polls * MOTION_SCAN_MS / u64::from(SHAKE_REFRACTORY_MS + SHAKE_WINDOW_MS);
    let most = span_polls * MOTION_SCAN_MS / u64::from(SHAKE_REFRACTORY_MS);
    assert!(
        (least..=most).contains(&fires),
        "5 s of shaking gave {fires} events, expected {least}..={most}"
    );
}

#[test]
fn the_same_gesture_reports_at_any_poll_rate() {
    // The peak window runs on the clock, so a slow loop sees the same gesture
    // despite collecting fewer samples of it.
    let trigger = |step_ms: u64| {
        let mut recognizer = MotionRecognizer::new();
        let still = sample([0, 0, 1_000], [0; 3]);
        feed(&mut recognizer, &still, 20);
        let start = recognizer.last_poll_ms().unwrap();
        let mut gesture = tone(5.0, 3_000);
        for index in 0..60u64 {
            let now = start + (index + 1) * step_ms;
            if shake_in(recognizer.recognize(&mut gesture(now), now)) {
                return Some(now - start);
            }
        }
        None
    };
    let fast = trigger(MOTION_SCAN_MS);
    let slow = trigger(MOTION_SCAN_MS * 2);
    assert!(fast.is_some(), "20 ms polling must report the gesture");
    assert!(slow.is_some(), "40 ms polling must report the gesture");
    // Not the same instant at both rates — a reversal narrower than the poll
    // interval falls between samples — just within the window.
    assert!(
        fast.unwrap().abs_diff(slow.unwrap()) <= u64::from(SHAKE_WINDOW_MS),
        "20 ms reported at {:?} but 40 ms at {:?}, further apart than the peak window",
        fast,
        slow
    );
}

#[test]
fn a_reorientation_is_absorbed_and_does_not_read_as_a_shake() {
    let mut recognizer = MotionRecognizer::new();
    let still = sample([0, 0, 1_000], [0; 3]);
    feed(&mut recognizer, &still, 20);

    // Tipped onto its side: a one-off orientation change, not a gesture.
    let on_its_side = sample([1_000, 0, 0], [0; 3]);
    let seen = feed(&mut recognizer, &on_its_side, 25);
    assert!(
        !shook(&seen),
        "gravity moving into a new axis is not a shake, got {seen:?}"
    );
}

#[test]
fn resting_after_motion_reads_as_lift_then_place() {
    let mut recognizer = MotionRecognizer::new();
    let still = sample([0, 0, 1_000], [0; 3]);
    feed(&mut recognizer, &still, 20);

    // Carried, not set down: the reading keeps changing, which is the only
    // thing that separates "in use" from "left on the desk".
    let mut carried = swinging([0, 0, 400]);
    let start = recognizer.last_poll_ms().unwrap();
    let dwell = u64::from(DWELL_MS) / MOTION_SCAN_MS + 2;
    let mut seen = Vec::new();
    for index in 0..dwell {
        seen.extend(
            recognizer
                .recognize(
                    &mut carried(index as usize),
                    start + (index + 1) * MOTION_SCAN_MS,
                )
                .iter(),
        );
    }
    assert!(
        seen.contains(&MotionEvent::Lift),
        "sustained motion reads as a lift, got {seen:?}"
    );
    assert!(
        !seen.contains(&MotionEvent::Shake),
        "carrying is not shaking, got {seen:?}"
    );

    let seen = feed(&mut recognizer, &still, dwell);
    assert!(
        seen.contains(&MotionEvent::Place),
        "settling back down reads as a place, got {seen:?}"
    );
}

#[test]
fn posture_needs_an_in_plane_component() {
    let mut recognizer = MotionRecognizer::new();
    let flat = sample([0, 0, 1_000], [0; 3]);
    assert!(
        feed(&mut recognizer, &flat, 5).is_empty(),
        "flat has no posture"
    );

    let upright = sample([0, 900, 100], [0; 3]);
    assert_eq!(feed(&mut recognizer, &upright, 1), [MotionEvent::Portrait]);

    let sideways = sample([900, 0, 100], [0; 3]);
    assert_eq!(
        feed(&mut recognizer, &sideways, 1),
        [MotionEvent::Landscape]
    );
}

#[test]
fn an_invalid_sample_advances_nothing() {
    let mut recognizer = MotionRecognizer::new();
    let mut fault = MotionSample::error();
    assert!(recognizer.recognize(&mut fault, 0).is_empty());
}

/// Feeds a mid-band knock on X at the given poll indices, still otherwise;
/// the amplitude pins the strength under test (900 mG firm, 300 mG light).
fn blips(poll_indices: &[u64], amplitude_mg: i32) -> impl FnMut(u64, u64) -> MotionSample + '_ {
    move |index, _now| {
        let struck = poll_indices.contains(&index);
        sample([if struck { amplitude_mg } else { 0 }, 0, 1_000], [0; 3])
    }
}

fn taps_of(seen: &[MotionEvent]) -> Vec<u8> {
    seen.iter()
        .filter_map(|event| match event {
            MotionEvent::Tap { count } => Some(*count),
            _ => None,
        })
        .collect()
}

#[test]
fn a_single_knock_reports_a_one_count_once_the_window_passes() {
    let (mut recognizer, start) = settled();
    let mut seen = Vec::new();
    let mut gesture = blips(&[0, 1], 900);
    for index in 0..60 {
        let now = start + (index + 1) * MOTION_SCAN_MS;
        seen.extend(recognizer.recognize(&mut gesture(index, now), now).iter());
    }
    assert_eq!(
        taps_of(&seen),
        vec![1],
        "one transient is one knock, reported once: got {seen:?}"
    );
}

#[test]
fn a_light_knock_just_above_the_peak_bar_counts() {
    // The bar was eased from 300 to 250 mG so an ordinary tap crosses it.
    let (mut recognizer, start) = settled();
    let mut seen = Vec::new();
    let mut gesture = blips(&[0, 1], 300);
    for index in 0..60 {
        let now = start + (index + 1) * MOTION_SCAN_MS;
        seen.extend(recognizer.recognize(&mut gesture(index, now), now).iter());
    }
    assert_eq!(
        taps_of(&seen),
        vec![1],
        "a light tap above the peak bar counts as one knock: got {seen:?}"
    );
}

#[test]
fn a_double_knock_within_the_window_reports_a_two_count_once() {
    let (mut recognizer, start) = settled();
    let mut seen = Vec::new();
    // The second blow must land outside the 80 ms quiet window (ringing
    // tail) yet inside the 500 ms double window: 10 polls is 200 ms. A
    // double (two crossings) must not trip the shake's three-crossing count.
    let mut gesture = blips(&[0, 1, 10, 11], 900);
    for index in 0..70 {
        let now = start + (index + 1) * MOTION_SCAN_MS;
        seen.extend(recognizer.recognize(&mut gesture(index, now), now).iter());
    }
    assert_eq!(
        taps_of(&seen),
        vec![2],
        "two transients 200 ms apart are one double knock: got {seen:?}"
    );
}

#[test]
fn a_third_knock_rolls_into_a_triple_count() {
    let (mut recognizer, start) = settled();
    let mut seen = Vec::new();
    let mut gesture = blips(&[0, 1, 10, 11, 20, 21], 900);
    for index in 0..70 {
        let now = start + (index + 1) * MOTION_SCAN_MS;
        seen.extend(recognizer.recognize(&mut gesture(index, now), now).iter());
    }
    assert_eq!(
        taps_of(&seen),
        vec![3],
        "three transients inside the window resolve a triple: got {seen:?}"
    );
}

#[test]
fn a_sustained_excursion_is_not_a_tap() {
    // Held past the peak bar without decaying: the budget burns out before
    // the residual falls under the quiet bar — a press, not a blow.
    let (mut recognizer, start) = settled();
    let mut seen = Vec::new();
    for index in 0..120 {
        let now = start + (index + 1) * MOTION_SCAN_MS;
        let mut held = sample([if index > 1 { 2_600 } else { 0 }, 0, 1_000], [0; 3]);
        seen.extend(recognizer.recognize(&mut held, now).iter());
    }
    assert!(
        taps_of(&seen).is_empty(),
        "a sustained excursion has no decaying peak to count, got {seen:?}"
    );
}

#[test]
fn a_pickup_is_not_a_tap() {
    // A pick-up opens with a sharp step over the peak bar, then holds the
    // residual up longer than the 80 ms budget: the budget times out.
    let (mut recognizer, start) = settled();
    let mut seen = Vec::new();
    for index in 0..80 {
        let now = start + (index + 1) * MOTION_SCAN_MS;
        let held = if index < 60 { 320 } else { 0 };
        let mut frame = sample([held, 0, 1_000], [0; 3]);
        seen.extend(recognizer.recognize(&mut frame, now).iter());
    }
    assert!(
        taps_of(&seen).is_empty(),
        "a pick-up holds the residual over the quiet bar, got {seen:?}"
    );
}

#[test]
fn resting_noise_stays_under_the_quiet_bar() {
    // Resting noise (9-38 mG on the probe) against the 150 mG quiet bar must
    // never light the peak entry.
    let (mut recognizer, start) = settled();
    let mut seen = Vec::new();
    for index in 0..120 {
        let now = start + (index + 1) * MOTION_SCAN_MS;
        let jitter = [40, -20, 30][index as usize % 3];
        let mut frame = sample([jitter, 0, 1_000], [0; 3]);
        seen.extend(recognizer.recognize(&mut frame, now).iter());
    }
    assert!(
        taps_of(&seen).is_empty(),
        "resting jitter must never cross the peak bar, got {seen:?}"
    );
}

#[test]
fn a_deliberate_turn_is_not_a_tap() {
    // A turn's onset transient is knock-shaped (the silicon latched on it), so
    // it is caught over the whole gesture: a knock settles under the bar.
    for hz in [0.5, 1.0, 2.0, 3.0] {
        let (mut recognizer, start) = settled();
        let mut gesture = turning(hz, 1_000);
        let mut seen = Vec::new();
        for index in 0..300 {
            let now = start + (index + 1) * MOTION_SCAN_MS;
            seen.extend(recognizer.recognize(&mut gesture(now), now).iter());
        }
        assert!(
            taps_of(&seen).is_empty(),
            "turning the device at {hz} Hz is not a tap, got {seen:?}"
        );
    }
}

#[test]
fn a_shake_is_not_a_tap() {
    // A shake never spends a full quiet window below the bar, so none of its
    // crossings can confirm; the Shake event itself beats a tap.
    let (mut recognizer, start) = settled();
    let mut gesture = tone(5.0, 3_000);
    let mut seen = Vec::new();
    for index in 0..250 {
        let now = start + (index + 1) * MOTION_SCAN_MS;
        seen.extend(recognizer.recognize(&mut gesture(now), now).iter());
    }
    assert!(shook(&seen), "the fixture must actually shake");
    assert!(
        taps_of(&seen).is_empty(),
        "a continuous shake cannot confirm a quiet window, got {seen:?}"
    );
}

#[test]
fn a_reorientation_is_absorbed_and_does_not_read_as_a_tap() {
    let mut recognizer = MotionRecognizer::new();
    let still = sample([0, 0, 1_000], [0; 3]);
    feed(&mut recognizer, &still, 20);
    // Tipped onto its side and held: the tap analogue of the shake's
    // reorientation canary — a one-off orientation change, not a blow.
    let on_its_side = sample([1_000, 0, 0], [0; 3]);
    let seen = feed(&mut recognizer, &on_its_side, 25);
    assert!(
        taps_of(&seen).is_empty(),
        "gravity moving into a new axis is not a tap, got {seen:?}"
    );
}

#[test]
fn tap_residual_reports_the_quantity_the_peak_bar_decides_on() {
    let (mut recognizer, start) = settled();
    let mut resting = sample([0, 0, 1_000], [0; 3]);
    recognizer.recognize(&mut resting, start + MOTION_SCAN_MS);
    assert!(
        resting.tap_residual_mg < isqrt(TAP_PEAK_MAG_MG2 as i32),
        "a resting device must sit under the peak bar, got {}",
        resting.tap_residual_mg
    );

    let mut struck = sample([3_400, 0, 1_000], [0; 3]);
    recognizer.recognize(&mut struck, start + 2 * MOTION_SCAN_MS);
    assert!(
        struck.tap_residual_mg > isqrt(TAP_PEAK_MAG_MG2 as i32),
        "a 3.4 g knock has to publish a residual above the bar, got {}",
        struck.tap_residual_mg
    );
}


#[test]
fn the_default_sample_is_the_fault_frame() {
    assert_eq!(MotionSample::default(), MotionSample::error());
}
