# vanling

Verified core logic of an ambient-light device and its voice server, written
in Verus.

- `src/drivers/` — button debounce and double-click aggregation, touch
  tracking, the touch gesture classifier, the motion recognizer and event
  arbiter, and the board capability traits.
- `src/intent.rs`, `src/state.rs` — the intent interpreter and the device
  state manager.
- `src/render.rs`, `src/render_host.rs` — the appearance diff and the
  renderer registry that fans it out.
- `src/bsp/` — board-support logic: IMU unit conversions and status
  decoding, the panel overlay's digits and drawing (lines, circles, glyphs,
  the attitude dial, the attitude and diagnostics pages).
- `src/activation_pool.rs`, `src/splitter.rs`, `src/echo.rs`,
  `src/config.rs`, `src/chii.rs`, `src/matcha.rs` — the voice server's
  activation-code pool, streamed reply splitter, echo model, model-path
  configuration, prompt-budget history truncation, the per-step reply-stream decisions,
  speech-rule ordering and audio packet flags.
- `app/` — a host program around the library: floating-point sample and
  dial geometry, the global activation pool, the render bus, configuration
  entries read by serde, and a console loop driving the pipeline.
