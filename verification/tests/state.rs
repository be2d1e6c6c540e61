use vanling::drivers::input::{
    FingerLast, GestureEvent, InputEvent, SwipeDirection, TouchEvent, TouchPoint, TouchStatus,
    FINGER_DOUBLE_TAP, FINGER_LONG_PRESS, FINGER_NONE, FINGER_SWIPE, FINGER_TAP, MAX_TOUCH_POINTS,
    MAX_TRACKED_POINTS,
};
use vanling::drivers::light::Rgb;
use vanling::intent::{translate, BusinessIntent, OperationIntent};
use vanling::state::{
    Breath, DeviceManager, DeviceState, LightState, LivePoint, SOLID_DEFAULT_BRIGHTNESS,
};
const BREATH: LightState = LightState::Breath(Breath {
    period_ms: 3_000,
    hue_period_ms: 60_000,
    hue_span: 255,
    min_brightness: 24,
    max_brightness: 80,
    saturation: 200,
    hue: 0,
    group: [16, 32, 3, 0, 0, 0, 0],
    group_len: 3,
});

fn op(event: InputEvent) -> OperationIntent {
    OperationIntent { source: 0, event }
}

fn tap() -> OperationIntent {
    op(InputEvent::Gesture(GestureEvent::Tap {
        id: 0,
        x: 1,
        y: 2,
        held_ms: 0,
    }))
}

fn double_tap() -> OperationIntent {
    op(InputEvent::Gesture(GestureEvent::DoubleTap {
        id: 0,
        x: 1,
        y: 2,
        end_x: 1,
        end_y: 2,
        held_ms: 0,
    }))
}

fn long_press() -> OperationIntent {
    op(InputEvent::Gesture(GestureEvent::LongPress {
        id: 0,
        x: 3,
        y: 4,
        held_ms: 0,
    }))
}

fn swipe() -> OperationIntent {
    op(InputEvent::Gesture(GestureEvent::Swipe {
        id: 0,
        x: 80,
        y: 30,
        end_x: 80,
        end_y: 60,
        direction: SwipeDirection::Down,
        held_ms: 42,
        distance_px: 73,
    }))
}

fn touch_event(status: TouchStatus) -> OperationIntent {
    op(InputEvent::Touch(TouchEvent {
        points: [TouchPoint {
            id: 0,
            x: 1,
            y: 2,
            status,
        }; MAX_TOUCH_POINTS],
        len: 1,
        contacts: 1,
    }))
}

fn set_light(instance: u8, state: LightState) -> BusinessIntent {
    BusinessIntent::SetLight { instance, state }
}

fn press(id: u8, x: u16, y: u16) -> OperationIntent {
    op(InputEvent::Gesture(GestureEvent::Press { id, x, y }))
}


    #[test]
    fn state_is_clean() {
        let manager = DeviceManager::new();
        assert_eq!(manager.light_state(), BREATH, "boot wakes to breathing");
        assert_eq!(DeviceState::default().lights[0], BREATH);
        assert_eq!(DeviceManager::default().light_state(), BREATH);
        let state = manager.state();
        assert_eq!(manager.touch_state(), None);
        assert_eq!(state.tap_count, 0);
        assert_eq!(state.press_count, 0);
        assert_eq!(state.double_tap_count, 0);
        assert_eq!(state.long_press_count, 0);
        assert_eq!(state.ghost_count, 0);
        assert_eq!(state.swipe_count, 0);
        assert_eq!(state.two_finger_runs, 0);
        assert_eq!(state.touch_frames, 0);
        assert_eq!(state.chip_gesture_id, 0);
        assert_eq!(state.last_swipe, None);
        assert_eq!(state.last_gesture_origin, None);
        assert_eq!(state.last_gesture_end, None);
    }


    #[test]
    fn set_light_replaces_state_and_snapshot() {
        let mut manager = DeviceManager::new();
        manager.apply_business(set_light(0, LightState::Off));
        assert_eq!(manager.light_state(), LightState::Off);
        let solid = LightState::Solid {
            color: Rgb(3, 4, 5),
            brightness: SOLID_DEFAULT_BRIGHTNESS,
        };
        manager.apply_business(set_light(0, solid));
        assert_eq!(manager.light_state(), solid);
        assert_eq!(
            manager.state().lights[0],
            solid,
            "the snapshot mirrors the applied target"
        );
        // Out-of-range instances clamp to the last installed surface.
        manager.apply_business(set_light(7, LightState::Off));
        assert_eq!(manager.light_state_at(1), LightState::Off);
        // An invalid intent is a no-op.
        manager.apply_business(BusinessIntent::Invalid);
        assert_eq!(manager.light_state(), solid, "an invalid intent is a no-op");
    }


    #[test]
    fn snapshots_store_and_replace_the_last_frame() {
        let mut manager = DeviceManager::new();
        let first = TouchEvent {
            points: [TouchPoint {
                id: 0,
                x: 1,
                y: 2,
                status: TouchStatus::Down,
            }; MAX_TOUCH_POINTS],
            len: 1,
            contacts: 1,
        };
        manager.apply_operation(op(InputEvent::Touch(first)));
        assert_eq!(manager.touch_state(), Some(first));
        assert_eq!(
            manager.state().press_count,
            0,
            "a raw frame is a snapshot, not the classifier press pulse"
        );
        assert_eq!(
            manager.light_state(),
            LightState::default(),
            "an operation snapshot never moves a light"
        );
        let second = TouchEvent {
            points: [TouchPoint {
                id: 1,
                x: 3,
                y: 4,
                status: TouchStatus::Contact,
            }; MAX_TOUCH_POINTS],
            len: 1,
            contacts: 1,
        };
        manager.apply_operation(op(InputEvent::Touch(second)));
        assert_eq!(
            manager.touch_state(),
            Some(second),
            "the latest frame replaces the previous snapshot"
        );
    }

    #[test]
    fn heartbeat_counts_only_applied_frames() {
        let mut manager = DeviceManager::new();
        assert_eq!(manager.state().touch_frames, 0);
        manager.apply_operation(op(InputEvent::Gesture(GestureEvent::Press {
            id: 0,
            x: 10,
            y: 20,
        })));
        assert_eq!(
            manager.state().touch_frames,
            0,
            "a classifier press pulse is not a raw frame"
        );
        manager.apply_operation(touch_event(TouchStatus::Down));
        manager.apply_operation(touch_event(TouchStatus::Contact));
        assert_eq!(
            manager.state().touch_frames,
            2,
            "every stored snapshot ticks the heartbeat once"
        );
        manager.apply_operation(tap());
        assert_eq!(
            manager.state().touch_frames,
            2,
            "resolved gestures never tick the raw-frame heartbeat"
        );
    }


    #[test]
    fn tap_tallies_stamps_origin_and_accumulates() {
        let mut manager = DeviceManager::new();
        for _ in 0..3 {
            manager.apply_operation(tap());
        }
        let state = manager.state();
        assert_eq!(state.tap_count, 3);
        assert_eq!(
            state.last_gesture_origin,
            Some((1, 2)),
            "the tap records its touch point as the gesture origin"
        );
        assert_eq!(
            manager.light_state(),
            LightState::default(),
            "the tally never moves the light; only the translated business intent does"
        );
    }

    #[test]
    fn double_tap_tallies_on_its_own_row() {
        let mut manager = DeviceManager::new();
        manager.apply_operation(double_tap());
        manager.apply_operation(op(InputEvent::Gesture(GestureEvent::DoubleTap {
            id: 0,
            x: 3,
            y: 4,
            end_x: 5,
            end_y: 6,
            held_ms: 0,
        })));
        assert_eq!(manager.state().double_tap_count, 2);
        assert_eq!(
            manager.state().tap_count,
            0,
            "a double-tap is its own tally, never counted as a tap"
        );
    }

    #[test]
    fn long_press_tallies_on_its_own_row() {
        let mut manager = DeviceManager::new();
        manager.apply_operation(long_press());
        assert_eq!(manager.state().long_press_count, 1);
        assert_eq!(
            manager.state().press_count,
            0,
            "the hold's down-edge press and the long-press are separate tallies"
        );
    }

    #[test]
    fn tap_count_wraps_at_255() {
        let mut manager = DeviceManager::new();
        for _ in 0..(u8::MAX as u32).saturating_add(1) {
            manager.apply_operation(tap());
        }
        assert_eq!(
            manager.state().tap_count,
            0,
            "255 taps wrap to 0, keeping the diagnostic digit bounded"
        );
    }

    #[test]
    fn press_pulse_tallies_upserts_and_wraps() {
        let mut manager = DeviceManager::new();
        manager.apply_operation(press(0, 12, 34));
        manager.apply_operation(press(0, 12, 34));
        assert_eq!(manager.state().press_count, 2);
        assert_eq!(
            manager.state().touch_points,
            [
                Some(LivePoint {
                    id: 0,
                    x: 12,
                    y: 34
                }),
                None
            ]
        );
        let mut wraps = DeviceManager::new();
        for _ in 0..(u8::MAX as u32).saturating_add(1) {
            wraps.apply_operation(press(0, 12, 34));
        }
        assert_eq!(
            wraps.state().press_count,
            0,
            "255 presses wrap to 0, keeping the diagnostic digit bounded"
        );
    }

    #[test]
    fn ghost_tallies_and_saturates() {
        let mut manager = DeviceManager::new();
        manager.apply_operation(op(InputEvent::Gesture(GestureEvent::GhostTouch)));
        manager.apply_operation(op(InputEvent::Gesture(GestureEvent::GhostTouch)));
        assert_eq!(manager.state().ghost_count, 2);
        for _ in 0..(u8::MAX as u32).saturating_add(1) {
            manager.apply_operation(op(InputEvent::Gesture(GestureEvent::GhostTouch)));
        }
        assert_eq!(
            manager.state().ghost_count,
            u8::MAX,
            "the ghost tally saturates instead of wrapping, preserving the record"
        );
    }

    #[test]
    fn swipe_tallies_records_travel_and_wraps() {
        let mut manager = DeviceManager::new();
        manager.apply_operation(swipe());
        let state = manager.state();
        assert_eq!(state.swipe_count, 1);
        assert_eq!(state.last_swipe, Some((SwipeDirection::Down, 73)));
        assert_eq!(state.last_gesture_origin, Some((80, 30)));
        assert_eq!(state.last_gesture_end, Some((80, 60)));
        assert_eq!(state.touch_held_ms, 42);
        assert_eq!(
            state.lights[0],
            LightState::default(),
            "the swipe op tallies; the light move is the translated business intent"
        );
        assert_eq!(
            state.touch_points,
            [None, None],
            "resolution frees the live slot"
        );
        assert_eq!(state.live_dir[0], 0, "resolution clears the movement arrow");
        let mut wraps = DeviceManager::new();
        for _ in 0..(u8::MAX as u32).saturating_add(1) {
            wraps.apply_operation(op(InputEvent::Gesture(GestureEvent::Swipe {
                id: 0,
                x: 3,
                y: 9,
                end_x: 9,
                end_y: 3,
                direction: SwipeDirection::Up,
                held_ms: 0,
                distance_px: 60,
            })));
        }
        assert_eq!(
            wraps.state().swipe_count,
            0,
            "255 swipes wrap to 0, keeping the diagnostic digit bounded"
        );
    }

    #[test]
    fn chip_gesture_stores_verbatim_without_touching_light() {
        let mut manager = DeviceManager::new();
        manager.apply_operation(op(InputEvent::ChipGesture(0x10)));
        assert_eq!(manager.state().chip_gesture_id, 0x10);
        assert_eq!(manager.light_state(), LightState::default());
    }


    #[test]
    fn light_moves_only_via_a_business_intent() {
        let mut manager = DeviceManager::new();
        // Operation-plane diagnostics never move the light.
        manager.apply_operation(tap());
        manager.apply_operation(op(InputEvent::Gesture(GestureEvent::GhostTouch)));
        manager.apply_operation(press(0, 12, 34));
        manager.apply_operation(touch_event(TouchStatus::Contact));
        manager.apply_operation(touch_event(TouchStatus::Release));
        assert_eq!(manager.light_state(), LightState::default());
        assert_eq!(manager.state().tap_count, 1);
        assert_eq!(manager.state().ghost_count, 1);
        assert_eq!(
            manager.state().press_count,
            1,
            "only a classifier press pulse earns a press tally, never a raw frame"
        );
        // A business intent is the only path to a new color.
        let target = LightState::Solid {
            color: Rgb(1, 2, 3),
            brightness: SOLID_DEFAULT_BRIGHTNESS,
        };
        manager.apply_business(set_light(0, target));
        assert_eq!(manager.light_state(), target);
        manager.apply_business(BusinessIntent::Invalid);
        assert_eq!(
            manager.light_state(),
            target,
            "an invalid intent is a no-op"
        );
        assert_eq!(
            manager.state().tap_count,
            1,
            "the business move never inflates the operation tally"
        );
    }

    #[test]
    fn off_tap_full_path_records_diagnostics_and_keeps_off() {
        // The dispatcher's sequence for an operation: record its operation
        // diagnostics, translate against the freshest state, apply the
        // business side. A tap on `Off` has no color step, so it resolves
        // `Invalid` — the light must not move while the physical input
        // still records.
        let mut manager = DeviceManager::new();
        manager.apply_business(set_light(0, LightState::Off));
        let op = tap();
        manager.apply_operation(op);
        let business = translate(&op, &manager.state());
        manager.apply_business(business);
        assert_eq!(business, BusinessIntent::Invalid);
        assert_eq!(manager.light_state(), LightState::Off);
        assert_eq!(manager.state().tap_count, 1);
        assert_eq!(manager.state().last_gesture_origin, Some((1, 2)));
    }

    #[test]
    fn off_swipe_full_path_records_diagnostics_and_keeps_off() {
        let mut manager = DeviceManager::new();
        manager.apply_business(set_light(0, LightState::Off));
        let op = swipe();
        manager.apply_operation(op);
        let business = translate(&op, &manager.state());
        manager.apply_business(business);
        assert_eq!(business, BusinessIntent::Invalid);
        assert_eq!(manager.light_state(), LightState::Off);
        assert_eq!(manager.state().swipe_count, 1);
        assert_eq!(manager.state().last_swipe, Some((SwipeDirection::Down, 73)));
    }


    #[test]
    fn live_points_follow_down_contact_release() {
        let mut manager = DeviceManager::new();
        manager.apply_operation(op(InputEvent::Touch(TouchEvent {
            points: [TouchPoint {
                id: 0,
                x: 10,
                y: 20,
                status: TouchStatus::Down,
            }; MAX_TOUCH_POINTS],
            len: 1,
            contacts: 1,
        })));
        manager.apply_operation(op(InputEvent::Touch(TouchEvent {
            points: [TouchPoint {
                id: 1,
                x: 150,
                y: 40,
                status: TouchStatus::Contact,
            }; MAX_TOUCH_POINTS],
            len: 1,
            contacts: 1,
        })));
        assert_eq!(
            manager.state().touch_points,
            [
                Some(LivePoint {
                    id: 0,
                    x: 10,
                    y: 20
                }),
                Some(LivePoint {
                    id: 1,
                    x: 150,
                    y: 40
                })
            ],
            "each tracker upserts into its own slot"
        );
        assert_eq!(
            manager.state().two_finger_runs,
            1,
            "two live slots in one transition counts one run"
        );
        manager.apply_operation(op(InputEvent::Touch(TouchEvent {
            points: [TouchPoint {
                id: 0,
                x: 0,
                y: 0,
                status: TouchStatus::Release,
            }; MAX_TOUCH_POINTS],
            len: 1,
            contacts: 1,
        })));
        assert_eq!(
            manager.state().touch_points,
            [
                None,
                Some(LivePoint {
                    id: 1,
                    x: 150,
                    y: 40
                })
            ],
            "a release frees only the tracker's own slot"
        );
        manager.apply_operation(op(InputEvent::Touch(TouchEvent {
            points: [TouchPoint {
                id: 1,
                x: 0,
                y: 0,
                status: TouchStatus::Release,
            }; MAX_TOUCH_POINTS],
            len: 1,
            contacts: 1,
        })));
        assert_eq!(manager.state().touch_points, [None, None]);
        assert_eq!(
            manager.state().two_finger_runs,
            1,
            "releasing a finger never grows the run counter"
        );
    }

    #[test]
    fn live_dir_tracks_moves_and_keeps_axis_under_deadband() {
        let mut manager = DeviceManager::new();
        manager.apply_operation(op(InputEvent::Gesture(GestureEvent::Press {
            id: 0,
            x: 100,
            y: 200,
        })));
        assert_eq!(
            manager.state().live_dir,
            [0, 0],
            "a fresh landing reads as still until the finger moves"
        );
        manager.apply_operation(touch_at(0, 100, 150, TouchStatus::Contact));
        assert_eq!(
            manager.state().live_dir[0],
            SwipeDirection::Up.code(),
            "climbing the panel is an up-move in framebuffer space"
        );
        manager.apply_operation(touch_at(0, 60, 150, TouchStatus::Contact));
        assert_eq!(manager.state().live_dir[0], SwipeDirection::Left.code());
        manager.apply_operation(touch_at(0, 61, 151, TouchStatus::Contact));
        assert_eq!(
            manager.state().live_dir[0],
            SwipeDirection::Left.code(),
            "sub-deadband jitter keeps the last axis instead of flickering to 0"
        );
    }

    #[test]
    fn live_dir_reads_each_finger_independently() {
        let mut manager = DeviceManager::new();
        manager.apply_operation(touch_at(0, 100, 200, TouchStatus::Down));
        manager.apply_operation(touch_at(1, 200, 200, TouchStatus::Down));
        manager.apply_operation(touch_at(1, 150, 200, TouchStatus::Contact));
        assert_eq!(
            manager.state().live_dir,
            [0, SwipeDirection::Left.code()],
            "each slot carries only its own finger's axis"
        );
        manager.apply_operation(touch_at(1, 0, 0, TouchStatus::Release));
        assert_eq!(
            manager.state().live_dir,
            [0, 0],
            "releasing a finger frees its slot back to still"
        );
    }

    #[test]
    fn simultaneous_presses_upsert_slots_and_count_runs() {
        let mut manager = DeviceManager::new();
        manager.apply_operation(press(0, 10, 20));
        assert_eq!(
            manager.state().touch_points,
            [
                Some(LivePoint {
                    id: 0,
                    x: 10,
                    y: 20
                }),
                None
            ],
            "the first press lands in the lowest free slot"
        );
        manager.apply_operation(press(1, 50, 60));
        assert_eq!(
            manager.state().two_finger_runs,
            1,
            "two live slots count one two-finger run"
        );
        manager.apply_operation(press(0, 11, 21));
        assert_eq!(
            manager.state().two_finger_runs,
            1,
            "an upsert over a live slot is not a new run"
        );
    }

    #[test]
    fn two_finger_runs_saturates_at_255() {
        let mut manager = DeviceManager::new();
        let down = [
            TouchPoint {
                id: 1,
                x: 10,
                y: 10,
                status: TouchStatus::Down,
            },
            TouchPoint {
                id: 2,
                x: 150,
                y: 90,
                status: TouchStatus::Down,
            },
        ];
        let up = [
            TouchPoint {
                id: 1,
                x: 0,
                y: 0,
                status: TouchStatus::Release,
            },
            TouchPoint {
                id: 2,
                x: 0,
                y: 0,
                status: TouchStatus::Release,
            },
        ];
        let mut down_snapshot = [down[0]; MAX_TOUCH_POINTS];
        down_snapshot[1] = down[1];
        let mut up_snapshot = [up[0]; MAX_TOUCH_POINTS];
        up_snapshot[1] = up[1];
        for _ in 0..(u8::MAX as u32).saturating_add(1) {
            manager.apply_operation(op(InputEvent::Touch(TouchEvent {
                points: down_snapshot,
                len: 2,
                contacts: 2,
            })));
            manager.apply_operation(op(InputEvent::Touch(TouchEvent {
                points: up_snapshot,
                len: 2,
                contacts: 0,
            })));
        }
        assert_eq!(
            manager.state().two_finger_runs,
            u8::MAX,
            "the run counter saturates instead of wrapping, preserving the record"
        );
    }

    #[test]
    fn gestures_stamp_their_own_slot_and_free_the_point() {
        let mut manager = DeviceManager::new();
        manager.apply_operation(press(0, 40, 50));
        manager.apply_operation(press(1, 120, 30));
        manager.apply_operation(op(InputEvent::Gesture(GestureEvent::Swipe {
            id: 0,
            x: 10,
            y: 200,
            end_x: 10,
            end_y: 50,
            direction: SwipeDirection::Up,
            held_ms: 30,
            distance_px: 77,
        })));
        manager.apply_operation(op(InputEvent::Gesture(GestureEvent::Tap {
            id: 1,
            x: 120,
            y: 40,
            held_ms: 90,
        })));
        assert_eq!(
            manager.state().touch_points,
            [None, None],
            "each resolved gesture frees only its own slot"
        );
        assert_eq!(
            manager.state().finger,
            [
                FingerLast {
                    kind: FINGER_SWIPE,
                    dir: SwipeDirection::Up.code(),
                    value: 77,
                },
                FingerLast {
                    kind: FINGER_TAP,
                    dir: 0,
                    value: 90,
                }
            ],
            "concurrent fingers record their own last gestures, slot-aligned"
        );
    }

    #[test]
    fn diagonal_swipe_frees_the_live_slot_and_arrow() {
        let mut manager = DeviceManager::new();
        manager.apply_operation(touch_at(0, 60, 60, TouchStatus::Down));
        manager.apply_operation(touch_at(0, 80, 80, TouchStatus::Contact));
        let light = manager.state().lights[0];
        assert_ne!(
            manager.state().live_dir[0],
            0,
            "the slide mints a diagonal arrow"
        );
        manager.apply_operation(op(InputEvent::Gesture(GestureEvent::Swipe {
            id: 0,
            x: 60,
            y: 60,
            end_x: 80,
            end_y: 80,
            direction: SwipeDirection::DownRight,
            held_ms: 40,
            distance_px: 28,
        })));
        let state = manager.state();
        assert_eq!(
            state.lights[0], light,
            "an operation never moves the light; the identity resolves in translate"
        );
        assert_eq!(state.swipe_count, 1, "the diagonal still tallies");
        assert_eq!(state.last_swipe, Some((SwipeDirection::DownRight, 28)));
        assert_eq!(
            state.touch_points[0], None,
            "resolution frees the live slot"
        );
        assert_eq!(state.live_dir[0], 0, "resolution clears the movement arrow");
    }

    #[test]
    fn last_gesture_points_follow_resolved_gestures() {
        let mut manager = DeviceManager::new();
        manager.apply_operation(swipe());
        assert_eq!(
            manager.state().last_gesture_origin,
            Some((80, 30)),
            "a swipe records its origin"
        );
        assert_eq!(manager.state().last_gesture_end, Some((80, 60)));

        manager.apply_operation(op(InputEvent::Gesture(GestureEvent::Tap {
            id: 0,
            x: 11,
            y: 12,
            held_ms: 0,
        })));
        assert_eq!(
            manager.state().last_gesture_origin,
            Some((11, 12)),
            "a tap stamps its own point as the origin"
        );
        assert_eq!(
            manager.state().last_gesture_end,
            None,
            "a single-point tap clears the previous trailing point"
        );

        manager.apply_operation(swipe());
        manager.apply_operation(op(InputEvent::Gesture(GestureEvent::LongPress {
            id: 0,
            x: 13,
            y: 14,
            held_ms: 0,
        })));
        assert_eq!(manager.state().last_gesture_origin, Some((13, 14)));
        assert_eq!(
            manager.state().last_gesture_end,
            None,
            "a single-point long-press clears the previous trailing point"
        );

        manager.apply_operation(swipe());
        manager.apply_operation(op(InputEvent::Gesture(GestureEvent::DoubleTap {
            id: 0,
            x: 21,
            y: 22,
            end_x: 23,
            end_y: 24,
            held_ms: 0,
        })));
        assert_eq!(
            manager.state().last_gesture_origin,
            Some((21, 22)),
            "a double-tap shows its first tap as the origin"
        );
        assert_eq!(
            manager.state().last_gesture_end,
            Some((23, 24)),
            "a double-tap shows its second tap as the trailing point"
        );
    }

fn touch_at(id: u8, x: u16, y: u16, status: TouchStatus) -> OperationIntent {
    op(InputEvent::Touch(TouchEvent {
        points: [TouchPoint { id, x, y, status }; MAX_TOUCH_POINTS],
        len: 1,
        contacts: 1,
    }))
}

