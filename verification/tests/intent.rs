use vanling::drivers::input::{
    ButtonEvent, GestureEvent, InputEvent, SwipeDirection, TouchEvent, TouchPoint, TouchStatus,
    MAX_TOUCH_POINTS,
};
use vanling::drivers::light::{Rgb, GROUP_CAPACITY, MAX_LIGHTS};
use vanling::intent::{
    advance, advance_color_group, advance_palette, advance_u8, color_groups, palette, recognize,
    retreat_palette, retreat_u8, shift_envelope, table_step, translate, BusinessIntent,
    OperationIntent, BREATH_PERIODS_MS, BRIGHTNESS_ENVELOPE_STEP, SOLID_BRIGHTNESS_STEPS,
};
use vanling::state::{
    Breath, DeviceState, LightState, DEFAULT_GROUP, DEFAULT_GROUP_LEN, DEFAULT_HUE,
    DEFAULT_HUE_PERIOD_MS, DEFAULT_HUE_SPAN, DEFAULT_MAX_BRIGHTNESS, DEFAULT_MIN_BRIGHTNESS,
    DEFAULT_PERIOD_MS, DEFAULT_SATURATION, SOLID_DEFAULT_BRIGHTNESS,
};
const DEFAULT_BREATH: LightState = LightState::Breath(BREATH_BASE);

const BREATH_BASE: Breath = Breath {
    period_ms: DEFAULT_PERIOD_MS,
    hue_period_ms: DEFAULT_HUE_PERIOD_MS,
    hue_span: DEFAULT_HUE_SPAN,
    min_brightness: DEFAULT_MIN_BRIGHTNESS,
    max_brightness: DEFAULT_MAX_BRIGHTNESS,
    saturation: DEFAULT_SATURATION,
    hue: DEFAULT_HUE,
    group: DEFAULT_GROUP,
    group_len: DEFAULT_GROUP_LEN,
};

fn state(light: LightState) -> DeviceState {
    DeviceState {
        lights: [light; MAX_LIGHTS],
        ..DeviceState::default()
    }
}

fn op(event: InputEvent) -> OperationIntent {
    recognize(event, 0)
}

/// The `SetLight` target `translate` yields for surface 0, or `None` when
/// the gesture is an `Invalid` no-op.
fn target(event: InputEvent, current: LightState) -> Option<LightState> {
    match translate(&op(event), &state(current)) {
        BusinessIntent::SetLight { state, .. } => Some(state),
        BusinessIntent::Invalid => None,
    }
}

fn tap_gesture(held_ms: u16) -> InputEvent {
    InputEvent::Gesture(GestureEvent::Tap {
        id: 0,
        x: 0,
        y: 0,
        held_ms,
    })
}

fn double_tap() -> InputEvent {
    InputEvent::Gesture(GestureEvent::DoubleTap {
        id: 0,
        x: 0,
        y: 0,
        end_x: 1,
        end_y: 1,
        held_ms: 0,
    })
}

fn swipe_event(direction: SwipeDirection) -> InputEvent {
    InputEvent::Gesture(GestureEvent::Swipe {
        id: 0,
        direction,
        x: 0,
        y: 0,
        end_x: 0,
        end_y: 0,
        held_ms: 0,
        distance_px: 80,
    })
}


    #[test]
    fn wraps_event_and_source() {
        let event = InputEvent::Button(ButtonEvent::Click);
        let intent = recognize(event, 3);
        assert_eq!(intent.source, 3);
        assert_eq!(intent.event, event);
    }

    #[test]
    fn carries_swipe_fields_verbatim() {
        let event = InputEvent::Gesture(GestureEvent::Swipe {
            id: 0,
            direction: SwipeDirection::Up,
            x: 10,
            y: 20,
            end_x: 10,
            end_y: 5,
            held_ms: 75,
            distance_px: 99,
        });
        let intent = recognize(event, 0);
        assert_eq!(intent.source, 0);
        assert_eq!(
            intent.event, event,
            "recognition keeps the gesture's tracking fields byte-for-byte"
        );
    }


    #[test]
    fn click_advances_color_in_every_mode() {
        // Off has no color a click can advance; only a long press turns it on.
        assert_eq!(
            translate(
                &op(InputEvent::Button(ButtonEvent::Click)),
                &state(LightState::Off)
            ),
            BusinessIntent::Invalid
        );
        // Breath walks the color groups; solid walks the palette.
        assert_eq!(
            translate(
                &op(InputEvent::Button(ButtonEvent::Click)),
                &state(DEFAULT_BREATH)
            ),
            BusinessIntent::SetLight {
                instance: 0,
                state: LightState::Breath(color_groups()[1].into_breath(BREATH_BASE)),
            }
        );
        assert_eq!(
            translate(
                &op(InputEvent::Button(ButtonEvent::Click)),
                &state(LightState::Solid {
                    color: palette()[2],
                    brightness: 140,
                })
            ),
            BusinessIntent::SetLight {
                instance: 0,
                state: LightState::Solid {
                    color: palette()[3],
                    brightness: 140,
                },
            }
        );
    }

    #[test]
    fn long_press_cycles_the_mode_ring() {
        // Off wakes to the default breath.
        assert_eq!(
            translate(
                &op(InputEvent::Button(ButtonEvent::LongPress)),
                &state(LightState::Off)
            ),
            BusinessIntent::SetLight {
                instance: 0,
                state: DEFAULT_BREATH,
            }
        );
        // The outgoing state's period and brightness never leak into solid.
        let slow = Breath {
            period_ms: 5_000,
            ..BREATH_BASE
        };
        assert_eq!(
            translate(
                &op(InputEvent::Button(ButtonEvent::LongPress)),
                &state(LightState::Breath(slow))
            ),
            BusinessIntent::SetLight {
                instance: 0,
                state: LightState::Solid {
                    color: palette()[0],
                    brightness: SOLID_DEFAULT_BRIGHTNESS,
                },
            }
        );
        // Solid powers back off from any brightness.
        assert_eq!(
            translate(
                &op(InputEvent::Button(ButtonEvent::LongPress)),
                &state(LightState::Solid {
                    color: palette()[0],
                    brightness: 255,
                })
            ),
            BusinessIntent::SetLight {
                instance: 0,
                state: LightState::Off,
            }
        );
        // A full ring returns home: off → breathing → solid → off.
        let mut light = LightState::Off;
        light = target(InputEvent::Button(ButtonEvent::LongPress), light).unwrap();
        assert!(matches!(light, LightState::Breath(_)));
        light = target(InputEvent::Button(ButtonEvent::LongPress), light).unwrap();
        assert!(matches!(light, LightState::Solid { .. }));
        light = target(InputEvent::Button(ButtonEvent::LongPress), light).unwrap();
        assert_eq!(light, LightState::Off);
    }

    #[test]
    fn double_click_steps_period_and_brightness() {
        // Off is a no-op.
        assert_eq!(
            translate(
                &op(InputEvent::Button(ButtonEvent::DoubleClick)),
                &state(LightState::Off)
            ),
            BusinessIntent::Invalid
        );
        // Breathing period steps 3000 → 5000...
        assert_eq!(
            translate(
                &op(InputEvent::Button(ButtonEvent::DoubleClick)),
                &state(DEFAULT_BREATH)
            ),
            BusinessIntent::SetLight {
                instance: 0,
                state: LightState::Breath(Breath {
                    period_ms: 5_000,
                    ..BREATH_BASE
                }),
            }
        );
        // ...then one full lap from the head (125): every slot in order,
        // wrapping back to the head.
        let mut breath = Breath {
            period_ms: BREATH_PERIODS_MS[0],
            ..BREATH_BASE
        };
        for i in 0..BREATH_PERIODS_MS.len() {
            let business = translate(
                &op(InputEvent::Button(ButtonEvent::DoubleClick)),
                &state(LightState::Breath(breath)),
            );
            let BusinessIntent::SetLight { state, .. } = business else {
                panic!("double click must stay in breathing");
            };
            assert!(
                matches!(state, LightState::Breath(_)),
                "double click must stay in breathing"
            );
            let LightState::Breath(next) = state else {
                unreachable!()
            };
            assert_eq!(
                next.period_ms,
                BREATH_PERIODS_MS[(i + 1) % BREATH_PERIODS_MS.len()],
                "step {i}: wrong period reached"
            );
            breath = next;
        }
        // Solid brightness steps 140 → 200 and wraps 255 → 32, color intact.
        assert_eq!(
            translate(
                &op(InputEvent::Button(ButtonEvent::DoubleClick)),
                &state(LightState::Solid {
                    color: palette()[0],
                    brightness: 140,
                })
            ),
            BusinessIntent::SetLight {
                instance: 0,
                state: LightState::Solid {
                    color: palette()[0],
                    brightness: 200,
                },
            }
        );
        assert_eq!(
            translate(
                &op(InputEvent::Button(ButtonEvent::DoubleClick)),
                &state(LightState::Solid {
                    color: palette()[0],
                    brightness: 255,
                })
            ),
            BusinessIntent::SetLight {
                instance: 0,
                state: LightState::Solid {
                    color: palette()[0],
                    brightness: 32,
                },
            }
        );
    }


    #[test]
    fn pulses_tally_without_moving_the_light() {
        // A raw touch snapshot is diagnostic-only, whatever the light mode.
        let touch = InputEvent::Touch(TouchEvent {
            points: [TouchPoint {
                id: 0,
                x: 10,
                y: 20,
                status: TouchStatus::Down,
            }; MAX_TOUCH_POINTS],
            len: 1,
            contacts: 2,
        });
        assert_eq!(
            translate(&op(touch), &state(LightState::Off)),
            BusinessIntent::Invalid
        );
        let release = InputEvent::Touch(TouchEvent {
            points: [TouchPoint {
                id: 3,
                x: 1,
                y: 2,
                status: TouchStatus::Release,
            }; MAX_TOUCH_POINTS],
            len: 1,
            contacts: 0,
        });
        assert_eq!(
            translate(&op(release), &state(DEFAULT_BREATH)),
            BusinessIntent::Invalid
        );
        // Press-down, ghost anomalies and chip read-backs tally on the
        // operation plane without ever moving a light.
        assert_eq!(
            translate(
                &op(InputEvent::Gesture(GestureEvent::Press {
                    id: 0,
                    x: 3,
                    y: 4
                })),
                &state(DEFAULT_BREATH)
            ),
            BusinessIntent::Invalid
        );
        assert_eq!(
            translate(
                &op(InputEvent::Gesture(GestureEvent::GhostTouch)),
                &state(DEFAULT_BREATH)
            ),
            BusinessIntent::Invalid
        );
        assert_eq!(
            translate(&op(InputEvent::ChipGesture(0x10)), &state(DEFAULT_BREATH)),
            BusinessIntent::Invalid
        );
    }

    #[test]
    fn tap_and_double_tap_mirror_the_button() {
        // No color, period or brightness to step on Off.
        assert_eq!(
            translate(&op(tap_gesture(0)), &state(LightState::Off)),
            BusinessIntent::Invalid
        );
        assert_eq!(
            translate(&op(double_tap()), &state(LightState::Off)),
            BusinessIntent::Invalid
        );
        // A tap walks the same color the button's click does: the color
        // group in breathing, the palette in solid.
        assert_eq!(
            target(tap_gesture(0), DEFAULT_BREATH),
            Some(LightState::Breath(color_groups()[1].into_breath(BREATH_BASE)))
        );
        assert_eq!(
            target(
                tap_gesture(0),
                LightState::Solid {
                    color: palette()[0],
                    brightness: 255,
                }
            ),
            Some(LightState::Solid {
                color: palette()[1],
                brightness: 255,
            })
        );
        // And the double-tap steps the same period table the button's
        // double-click does: 3000 → 5000.
        assert_eq!(
            target(double_tap(), DEFAULT_BREATH),
            Some(LightState::Breath(Breath {
                period_ms: 5_000,
                ..BREATH_BASE
            }))
        );
    }

    #[test]
    fn long_press_mirrors_the_button_mode_ring() {
        // A long press on Off is never a no-op: it is the way back on.
        assert_eq!(
            translate(
                &op(InputEvent::Gesture(GestureEvent::LongPress {
                    id: 0,
                    x: 0,
                    y: 0,
                    held_ms: 0
                })),
                &state(LightState::Off)
            ),
            BusinessIntent::SetLight {
                instance: 0,
                state: DEFAULT_BREATH,
            }
        );
        // From breathing it hands off to the same solid the button's long
        // press does.
        assert_eq!(
            target(
                InputEvent::Gesture(GestureEvent::LongPress {
                    id: 0,
                    x: 1,
                    y: 2,
                    held_ms: 0
                }),
                DEFAULT_BREATH
            ),
            Some(LightState::Solid {
                color: palette()[0],
                brightness: SOLID_DEFAULT_BRIGHTNESS,
            })
        );
    }


    #[test]
    fn step_color_and_brightness_per_axis() {
        let last = palette()[6];
        let breathe = LightState::Breath(BREATH_BASE);
        let cases: [(SwipeDirection, LightState, LightState, &str); 8] = [
            (
                SwipeDirection::Right,
                breathe,
                LightState::Breath(color_groups()[1].into_breath(BREATH_BASE)),
                "step right walks into the rainbow-seven group",
            ),
            (
                SwipeDirection::Left,
                breathe,
                LightState::Breath(color_groups()[3].into_breath(BREATH_BASE)),
                "step left from head wraps to the full-hue sweep",
            ),
            (
                SwipeDirection::Right,
                LightState::Solid {
                    color: palette()[0],
                    brightness: 140,
                },
                LightState::Solid {
                    color: palette()[1],
                    brightness: 140,
                },
                "step right advances the palette",
            ),
            (
                SwipeDirection::Left,
                LightState::Solid {
                    color: palette()[0],
                    brightness: 60,
                },
                LightState::Solid {
                    color: last,
                    brightness: 60,
                },
                "step left from head wraps to the last palette entry",
            ),
            (
                SwipeDirection::Up,
                LightState::Solid {
                    color: palette()[0],
                    brightness: 60,
                },
                LightState::Solid {
                    color: palette()[0],
                    brightness: 64,
                },
                "an unknown 60 falls back to head 32 and advances to 64",
            ),
            (
                SwipeDirection::Up,
                LightState::Solid {
                    color: palette()[0],
                    brightness: 255,
                },
                LightState::Solid {
                    color: palette()[0],
                    brightness: 32,
                },
                "the top step wraps to the floor",
            ),
            (
                SwipeDirection::Down,
                LightState::Solid {
                    color: palette()[0],
                    brightness: 140,
                },
                LightState::Solid {
                    color: palette()[0],
                    brightness: 100,
                },
                "step down the brightness ladder",
            ),
            (
                SwipeDirection::Down,
                LightState::Solid {
                    color: palette()[0],
                    brightness: 32,
                },
                LightState::Solid {
                    color: palette()[0],
                    brightness: 255,
                },
                "the floor wraps to the top step",
            ),
        ];
        for (direction, current, expected, why) in cases {
            assert_eq!(
                target(swipe_event(direction), current),
                Some(expected),
                "{why} ({direction:?})"
            );
        }
        // Every axis on Off is a no-op: no color or brightness to step.
        for direction in [
            SwipeDirection::Right,
            SwipeDirection::Left,
            SwipeDirection::Up,
            SwipeDirection::Down,
        ] {
            assert_eq!(
                translate(&op(swipe_event(direction)), &state(LightState::Off)),
                BusinessIntent::Invalid,
                "{direction:?} on Off has no table to step"
            );
        }
    }

    #[test]
    fn shift_the_brightness_envelope_together() {
        // Lifting and sinking move both bounds together from the defaults.
        assert_eq!(
            target(swipe_event(SwipeDirection::Up), DEFAULT_BREATH),
            Some(LightState::Breath(Breath {
                min_brightness: 24 + BRIGHTNESS_ENVELOPE_STEP,
                max_brightness: 80 + BRIGHTNESS_ENVELOPE_STEP,
                ..BREATH_BASE
            }))
        );
        assert_eq!(
            target(swipe_event(SwipeDirection::Down), DEFAULT_BREATH),
            Some(LightState::Breath(Breath {
                min_brightness: 0,
                max_brightness: 48,
                ..BREATH_BASE
            }))
        );
        // At the walls the bounds clamp while the guards keep the span.
        let at_bottom = Breath {
            min_brightness: 8,
            max_brightness: 40,
            ..BREATH_BASE
        };
        let sunk = shift_envelope(at_bottom, false);
        assert_eq!(sunk.min_brightness, 0, "floor clamps at 0");
        assert_eq!(
            sunk.max_brightness, BRIGHTNESS_ENVELOPE_STEP,
            "ceiling rides the wall guard so the envelope keeps its span"
        );
        let at_top = Breath {
            min_brightness: 240,
            max_brightness: 255,
            ..BREATH_BASE
        };
        let lifted = shift_envelope(at_top, true);
        assert_eq!(
            lifted.min_brightness,
            255 - BRIGHTNESS_ENVELOPE_STEP,
            "floor parks at 255-guard so the envelope keeps its span"
        );
        assert_eq!(lifted.max_brightness, 255, "ceiling clamps at 255");
        // Hammer both walls from a mid envelope: a full step of span must
        // survive every press, so `LO HI` never reads equal.
        let mut breath = Breath {
            min_brightness: 24,
            max_brightness: 80,
            ..BREATH_BASE
        };
        for _ in 0..32 {
            breath = shift_envelope(breath, true);
            assert!(
                breath.max_brightness as u16 - breath.min_brightness as u16
                    >= u16::from(BRIGHTNESS_ENVELOPE_STEP),
                "upward shifts keep at least a full step of span"
            );
        }
        for _ in 0..32 {
            breath = shift_envelope(breath, false);
            assert!(
                breath.max_brightness as u16 - breath.min_brightness as u16
                    >= u16::from(BRIGHTNESS_ENVELOPE_STEP),
                "downward shifts keep at least a full step of span"
            );
        }
    }

    #[test]
    fn diagonal_axis_targets_identity() {
        // The diagonals are recognized and tallied by the input stack and
        // resolve to an identity target — the current light unchanged — so
        // the tally sees them while a straight axis still owns each
        // adjustment.
        for direction in [
            SwipeDirection::UpLeft,
            SwipeDirection::UpRight,
            SwipeDirection::DownLeft,
            SwipeDirection::DownRight,
        ] {
            assert_eq!(
                target(swipe_event(direction), DEFAULT_BREATH),
                Some(DEFAULT_BREATH),
                "{direction:?} must not move the light"
            );
        }
    }


    fn two_lights() -> DeviceState {
        DeviceState {
            lights: [
                LightState::Off,
                LightState::Solid {
                    color: palette()[0],
                    brightness: 140,
                },
            ],
            ..state(LightState::Off)
        }
    }

    #[test]
    fn button_source_routes_to_its_light_surface() {
        // A click from wiring-order source 1 advances only surface 1.
        assert_eq!(
            translate(
                &recognize(InputEvent::Button(ButtonEvent::Click), 1),
                &two_lights()
            ),
            BusinessIntent::SetLight {
                instance: 1,
                state: LightState::Solid {
                    color: palette()[1],
                    brightness: 140,
                },
            },
            "each button drives the surface its wiring order names"
        );
        // A long press from source 1 cycles surface 1's own mode: solid off.
        assert_eq!(
            translate(
                &recognize(InputEvent::Button(ButtonEvent::LongPress), 1),
                &two_lights()
            ),
            BusinessIntent::SetLight {
                instance: 1,
                state: LightState::Off,
            },
            "the mode cycle walks surface 1 from its own solid head"
        );
    }

    #[test]
    fn out_of_range_source_clamps_to_last_surface() {
        // A source beyond the installed boards (e.g. a driver token
        // mismatch) must never panic the interpreter: it drives the last
        // surface.
        assert_eq!(
            translate(
                &recognize(InputEvent::Button(ButtonEvent::DoubleClick), 7),
                &two_lights()
            ),
            BusinessIntent::SetLight {
                instance: 1,
                state: LightState::Solid {
                    color: palette()[0],
                    brightness: 200,
                },
            },
            "out-of-range sources clamp to the last surface"
        );
    }

    #[test]
    fn panel_touches_only_the_first_surface() {
        // The device-level panel drives surface 0: a tap on an `Off` first
        // surface is a no-op there, never leaking onto surface 1.
        assert_eq!(
            translate(&op(tap_gesture(0)), &two_lights()),
            BusinessIntent::Invalid,
            "a tap on the panel touches only the first surface"
        );
    }


    #[test]
    fn advance_falls_back_to_head_when_current_not_in_table() {
        assert_eq!(advance(&BREATH_PERIODS_MS, 9999), BREATH_PERIODS_MS[1]);
        assert_eq!(advance_palette(Rgb(0, 0, 0)), palette()[1]);
        assert_eq!(
            advance_u8(&SOLID_BRIGHTNESS_STEPS, 7),
            SOLID_BRIGHTNESS_STEPS[1]
        );
        let unknown = Breath {
            group: [200, 250, 30, 0, 0, 0, 0],
            group_len: 3,
            ..BREATH_BASE
        };
        assert_eq!(advance_color_group(&unknown), color_groups()[1]);
    }

    #[test]
    fn retreat_and_table_step_wrap_backwards() {
        let last = palette()[6];
        assert_eq!(retreat_palette(palette()[0]), last);
        assert_eq!(advance_palette(last), palette()[0]);
        assert_eq!(retreat_u8(&SOLID_BRIGHTNESS_STEPS, 32), 255);
        assert_eq!(retreat_u8(&SOLID_BRIGHTNESS_STEPS, 140), 100);
        assert_eq!(table_step(&SOLID_BRIGHTNESS_STEPS, 7, -1), 255);
    }

    #[test]
    fn seven_color_preset_uses_every_hue_slot() {
        let expected: [u8; GROUP_CAPACITY] = [0, 21, 43, 85, 128, 170, 213];
        let rainbow = color_groups()[1];
        assert_eq!(rainbow.group_len, expected.len() as u8);
        assert_eq!(rainbow.group, expected);
    }

