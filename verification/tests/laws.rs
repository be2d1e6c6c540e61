use vanling::bsp::display_light::{
    brightness_of, direction_arrow, format_i32, format_pair, format_tenths, format_u16,
    invert_rgb565, mode_word, rgb565, write_u16, write_u64,
};
use vanling::bsp::qmi8658::{integrate_yaw, odr_samples};
use vanling::config::{AsrModel, LlmProvider, SecurityConfig, TtsModel, VadModel};
use vanling::drivers::input::{
    ButtonEvent, GestureEvent, InputEvent, SwipeDirection, TouchEvent, TouchGestures, TouchMap,
    TouchPoint, TouchStatus, MAX_TOUCH_POINTS,
};
use vanling::drivers::light::{rgb_hue, scale_brightness, Rgb};
use vanling::drivers::math::{isqrt_u32, isqrt_u64};
use vanling::drivers::motion::recognizer::MotionRecognizer;
use vanling::drivers::motion::{
    wrap_tenths, MotionError, MotionEvent, MotionInput, MotionReading, MotionSample, MotionSource,
};
use vanling::intent::{
    advance, advance_palette, advance_u8, cycle_mode, palette, recognize, retreat_palette,
    retreat_u8, shift_envelope, swipe, translate, BusinessIntent, BREATH_PERIODS_MS,
    SOLID_BRIGHTNESS_STEPS,
};
use vanling::render::{RenderController, SlotAppearance};
use vanling::state::{Breath, DeviceManager, DeviceState, LightState};

fn raw_touch(status: TouchStatus, x: u16, y: u16) -> TouchEvent {
    TouchEvent {
        points: [TouchPoint { id: 0, x, y, status }; MAX_TOUCH_POINTS],
        len: 1,
        contacts: 1,
    }
}

#[test]
fn the_mode_ring_closes_after_three_long_presses() {
    for start in [
        LightState::Off,
        LightState::boot(),
        LightState::Solid { color: Rgb(1, 2, 3), brightness: 9 },
    ] {
        let first = cycle_mode(start);
        assert_eq!(cycle_mode(cycle_mode(cycle_mode(first))), first);
    }
    assert_eq!(
        cycle_mode(cycle_mode(cycle_mode(LightState::Off))),
        LightState::Off
    );
}

#[test]
fn stepping_back_undoes_stepping_forward_on_every_table() {
    for color in palette() {
        assert_eq!(retreat_palette(advance_palette(color)), color);
        assert_eq!(advance_palette(retreat_palette(color)), color);
    }
    for level in SOLID_BRIGHTNESS_STEPS {
        assert_eq!(
            retreat_u8(&SOLID_BRIGHTNESS_STEPS, advance_u8(&SOLID_BRIGHTNESS_STEPS, level)),
            level
        );
    }
    assert_eq!(advance(&BREATH_PERIODS_MS, 8_000), 125);
}

#[test]
fn a_right_swipe_is_a_click_and_diagonals_keep_the_light() {
    let solid = LightState::Solid { color: palette()[3], brightness: 140 };
    let mut state = DeviceState::default();
    state.lights = [solid, solid];
    let click = translate(&recognize(InputEvent::Button(ButtonEvent::Click), 0), &state);
    assert_eq!(click, BusinessIntent::SetLight { instance: 0, state: swipe(solid, SwipeDirection::Right).unwrap() });
    assert_eq!(swipe(solid, SwipeDirection::UpLeft), Some(solid));
    assert_eq!(swipe(LightState::Off, SwipeDirection::Left), None);
}

#[test]
fn the_envelope_keeps_a_full_step_of_span_from_the_walls() {
    let low = Breath {
        min_brightness: 0,
        max_brightness: 32,
        ..match LightState::boot() {
            LightState::Breath(b) => b,
            _ => unreachable!(),
        }
    };
    let sunk = shift_envelope(low, false);
    assert_eq!((sunk.min_brightness, sunk.max_brightness), (0, 32));
    let high = Breath { min_brightness: 223, max_brightness: 255, ..low };
    let lifted = shift_envelope(high, true);
    assert_eq!((lifted.min_brightness, lifted.max_brightness), (223, 255));
}

#[test]
fn operations_never_move_a_light_and_invalid_is_a_no_op() {
    let mut manager = DeviceManager::new();
    let before = manager.state();
    for event in [
        InputEvent::Button(ButtonEvent::Click),
        InputEvent::Gesture(GestureEvent::GhostTouch),
        InputEvent::Gesture(GestureEvent::Tap { id: 0, x: 1, y: 1, held_ms: 5 }),
        InputEvent::ChipGesture(0x18),
        InputEvent::Touch(raw_touch(TouchStatus::Down, 3, 4)),
    ] {
        manager.apply_operation(recognize(event, 0));
        assert_eq!(manager.state().lights, before.lights);
    }
    let snapshot = manager.state();
    manager.apply_business(BusinessIntent::Invalid);
    assert_eq!(manager.state(), snapshot);
}

#[test]
fn a_motion_batch_records_the_frame_and_counts_each_semantic() {
    let mut manager = DeviceManager::new();
    let mut events = vanling::drivers::motion::MotionEvents::new();
    assert!(events.push(MotionEvent::Shake));
    assert!(events.push(MotionEvent::Tap { count: 2 }));
    let sample = MotionSample { valid: true, ..MotionSample::error() };
    manager.apply_operation(recognize(
        InputEvent::Motion(vanling::drivers::motion::MotionBatch { sample, events }),
        0,
    ));
    let state = manager.state();
    assert_eq!(state.motion, Some(sample));
    assert_eq!(state.motion_counts.shakes, 1);
    assert_eq!(state.motion_counts.double_taps, 1);
    assert_eq!(state.motion_counts.taps, 0);
}

#[test]
fn a_second_sync_of_the_same_state_is_silent() {
    let mut ctl = RenderController::new();
    let state = DeviceState::default();
    let mut seen = Vec::new();
    assert!(ctl.reconcile(&state, &mut seen));
    assert_eq!(seen.len(), 3);
    assert!(matches!(seen[0], SlotAppearance::Diagnostics(_)));
    let mut again = Vec::new();
    assert!(!ctl.reconcile(&state, &mut again));
    assert!(again.is_empty());
}

#[test]
fn non_touch_events_pass_the_classifier_untouched() {
    let mut gestures = TouchGestures::new();
    for event in [
        InputEvent::Button(ButtonEvent::DoubleClick),
        InputEvent::ChipGesture(7),
        InputEvent::Gesture(GestureEvent::GhostTouch),
    ] {
        assert_eq!(gestures.feed(event, 10), Some(event));
    }
    assert_eq!(gestures.tick(10_000), None);
}

#[test]
fn a_bare_snapshot_with_no_gesture_forwards_itself() {
    let mut gestures = TouchGestures::new();
    let down = raw_touch(TouchStatus::Down, 50, 60);
    assert_eq!(
        gestures.feed(InputEvent::Touch(down), 0),
        Some(InputEvent::Gesture(GestureEvent::Press { id: 0, x: 50, y: 60 }))
    );
    let held = raw_touch(TouchStatus::Contact, 51, 60);
    assert_eq!(gestures.feed(InputEvent::Touch(held), 10), Some(InputEvent::Touch(held)));
}

#[test]
fn an_invalid_frame_leaves_the_recognizer_unchanged() {
    let mut recognizer = MotionRecognizer::new();
    let mut fault = MotionSample::error();
    assert!(recognizer.recognize(&mut fault, 500).is_empty());
    assert_eq!(recognizer.last_poll_ms(), None);
    assert_eq!(fault, MotionSample::error());
}

#[test]
fn the_first_valid_frame_reads_as_rest_and_fills_the_readouts() {
    let mut recognizer = MotionRecognizer::new();
    let mut frame = MotionSample { accel_mg: [0, 0, 1_000], valid: true, ..MotionSample::error() };
    let events = recognizer.recognize(&mut frame, 0);
    assert!(events.is_empty());
    assert_eq!(frame.gravity_deviation_mg, 0);
    assert_eq!(frame.shake_residual_mg, 0);
    assert_eq!(frame.tap_residual_mg, 0);
    assert_eq!(recognizer.last_poll_ms(), Some(0));
}

struct Fixed(Result<Option<MotionReading>, MotionError>);

impl MotionSource for Fixed {
    fn sample(&mut self, _now_ms: u64) -> Result<Option<MotionReading>, MotionError> {
        self.0
    }
}

#[test]
fn a_strong_first_frame_defines_the_orientation() {
    let strong = MotionSample { accel_mg: [40_000, 0, 0], valid: true, ..MotionSample::error() };
    let mut input = MotionInput::new(Fixed(Ok(Some(MotionReading::new(strong)))));
    match input.poll(0) {
        Some(InputEvent::Motion(batch)) => {
            assert!(batch.sample.valid);
            assert_eq!(batch.sample.shake_residual_mg, 0);
            assert_eq!(batch.sample.tap_residual_mg, 0);
            assert_eq!(batch.sample.gravity_deviation_mg, 39_000);
        }
        other => panic!("expected a valid batch, got {other:?}"),
    }
}

#[test]
fn a_frame_past_the_integer_ranges_publishes_as_a_fault() {
    let wild = MotionSample { accel_mg: [i32::MAX, i32::MAX, i32::MAX], valid: true, ..MotionSample::error() };
    let mut input = MotionInput::new(Fixed(Ok(Some(MotionReading::new(wild)))));
    match input.poll(0) {
        Some(InputEvent::Motion(batch)) => {
            assert!(!batch.sample.valid);
            assert_eq!(batch.sample.accel_mg, [0, 0, 0]);
        }
        other => panic!("expected a fault batch, got {other:?}"),
    }
    let mut bus = MotionInput::new(Fixed(Err(MotionError::NotReady)));
    assert!(matches!(bus.poll(0), Some(InputEvent::Motion(b)) if !b.sample.valid));
    assert_eq!(bus.poll(20), None, "a held fault is not news");
}

#[test]
fn square_roots_floor_at_the_edges() {
    assert_eq!(isqrt_u64(0), 0);
    assert_eq!(isqrt_u64(2), 1);
    assert_eq!(isqrt_u64(u64::MAX), 4_294_967_295);
    assert_eq!(isqrt_u32(u32::MAX), 65_535);
    assert_eq!(isqrt_u32(99), 9);
}

#[test]
fn color_helpers_give_exact_values() {
    assert_eq!(scale_brightness(Rgb(255, 128, 0), 128), Rgb(128, 64, 0));
    assert_eq!(rgb_hue(Rgb(255, 0, 0)), 0);
    assert_eq!(rgb_hue(Rgb(0, 255, 0)), 85);
    assert_eq!(rgb_hue(Rgb(0, 0, 255)), 171);
    assert_eq!(rgb_hue(Rgb(9, 9, 9)), 0);
    assert_eq!(wrap_tenths(3_599), -1);
    assert_eq!(wrap_tenths(-1_801), 1_799);
    assert_eq!(TouchMap::identity().map((3, 4), 10, 10), (3, 4));
}

#[test]
fn overlay_text_is_exact() {
    let mut buf = [0u8; 12];
    let n = format_i32(i32::MIN, &mut buf);
    assert_eq!(&buf[..n], b"-2147483648");
    let n = format_i32(0, &mut buf);
    assert_eq!(&buf[..n], b"0");
    let n = format_tenths(-15, &mut buf);
    assert_eq!(&buf[..n], b"-1.5");
    let n = format_tenths(1234, &mut buf);
    assert_eq!(&buf[..n], b"123.4");
    let mut small = [0u8; 6];
    let n = format_u16(65_535, &mut small);
    assert_eq!(&small[..n], b"65535");
    let mut pair = [0u8; 8];
    let n = format_pair(Some((120, 7)), &mut pair);
    assert_eq!(&pair[..n], b"120 7");
    let n = format_pair(None, &mut pair);
    assert_eq!(&pair[..n], b"-");
    let mut row = [b'x'; 10];
    let end = write_u64(907, &mut row, 2);
    assert_eq!(end, 5);
    assert_eq!(&row, b"xx907xxxxx");
    let end = write_u16(0, &mut row, 9);
    assert_eq!((end, row[9]), (10, b'0'));
    assert_eq!(&mode_word(1), b"BRE");
    assert_eq!(&mode_word(2), b"SOL");
    assert_eq!(&mode_word(7), b"OFF");
    assert_eq!(direction_arrow(8), b'8');
    assert_eq!(direction_arrow(0), b'-');
    assert_eq!(direction_arrow(12), b'-');
    assert_eq!(brightness_of(Rgb(3, 200, 9)), 200);
}

#[test]
fn pixel_words_pack_and_invert_per_channel() {
    assert_eq!(rgb565(Rgb(255, 255, 255)), 0xFFFF);
    assert_eq!(rgb565(Rgb(255, 0, 0)), 0xF800);
    assert_eq!(rgb565(Rgb(0, 255, 0)), 0x07E0);
    assert_eq!(rgb565(Rgb(8, 4, 8)), 0x0821);
    assert_eq!(invert_rgb565(0xFFFF), 0);
    assert_eq!(invert_rgb565(0xF800), 0x07FF);
    assert_eq!(invert_rgb565(invert_rgb565(0x1234)), 0x1234);
}

#[test]
fn imu_conversions_round_and_wrap() {
    assert_eq!(odr_samples(0), 0);
    assert_eq!(odr_samples(100), 90);
    assert_eq!(odr_samples(1_000), 897);
    assert_eq!(integrate_yaw(-1_790, -1_000, 100), 1_710);
    assert_eq!(integrate_yaw(0, 5, 100), 0, "a step under a tenth truncates toward zero");
    assert_eq!(integrate_yaw(0, -5, 100), 0);
}

#[test]
fn server_config_defaults_match_the_documented_quotas() {
    let security = SecurityConfig::default();
    assert_eq!((security.auth_limit, security.auth_window_secs), (20, 900));
    assert_eq!((security.ota_limit, security.ota_window_secs), (30, 60));
    assert_eq!((security.core_limit, security.core_window_secs), (5_000, 3_600));
    assert_eq!(security.cleanup_interval_secs, 21_600);
    let custom = SecurityConfig::new(10, 60, 20, 120, 30, 180, 3, 60, 7, 3600, false, 7);
    assert_eq!(custom.auth_limit, 10);
    assert_eq!(custom.ota_window_secs, 120);
    assert!(!custom.api_access_log_enabled);
    assert_eq!(VadModel::default(), VadModel::Earshot);
    assert_eq!(AsrModel::default(), AsrModel::XAsr);
    assert_eq!(TtsModel::default(), TtsModel::MatchaTts);
    assert_eq!(LlmProvider::default(), LlmProvider::LocalQwen3);
}
