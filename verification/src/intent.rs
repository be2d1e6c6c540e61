//! The intent interpreter: operations packaged from raw input, and their
//! translation into absolute business targets against the device state.
//! Buttons advance their own surface; touch gestures always move the first
//! surface; pulses and raw snapshots only ever record diagnostics.
use vstd::prelude::*;

use crate::drivers::input::{ButtonEvent, GestureEvent, InputEvent, SwipeDirection};
use crate::drivers::light::{Rgb, GROUP_CAPACITY, MAX_LIGHTS};
use crate::state::{boot_light, Breath, DeviceState, LightState, SOLID_DEFAULT_BRIGHTNESS};

verus! {

/// Breathing periods (ms) cycled by the double-click advance on breathing
/// mode, from a sub-second shimmer to a slow ambient drift; the boot default
/// (3 s) sits in the table.
pub const BREATH_PERIODS_MS: [u32; 10] = [125, 250, 375, 500, 750, 1_000, 2_000, 3_000, 5_000, 8_000];

/// Solid-mode brightness steps, dark to full.
pub const SOLID_BRIGHTNESS_STEPS: [u8; 6] = [32, 64, 100, 140, 200, 255];

/// One vertical swipe moves the breathing envelope this many levels; the
/// same width is the guard kept next to either 8-bit edge.
pub const BRIGHTNESS_ENVELOPE_STEP: u8 = 32;

/// Standard-color palette for solid mode: seven hues spanning the wheel
/// (red, orange, yellow, green, cyan, blue, purple).
pub open spec fn palette_spec() -> [Rgb; 7] {
    [
        Rgb(255, 64, 48),
        Rgb(255, 160, 48),
        Rgb(255, 224, 64),
        Rgb(80, 200, 96),
        Rgb(32, 200, 220),
        Rgb(72, 128, 255),
        Rgb(190, 96, 255),
    ]
}

/// The solid-mode palette, cycled by a single click or a horizontal swipe.
pub fn palette() -> (p: [Rgb; 7])
    ensures
        p == palette_spec(),
{
    [
        Rgb(255, 64, 48),
        Rgb(255, 160, 48),
        Rgb(255, 224, 64),
        Rgb(80, 200, 96),
        Rgb(32, 200, 220),
        Rgb(72, 128, 255),
        Rgb(190, 96, 255),
    ]
}

/// A color-group preset for breathing mode.
#[derive(Debug, Clone, Copy, PartialEq, Eq)]
pub struct ColorGroup {
    pub hue_span: u8,
    pub group: [u8; GROUP_CAPACITY],
    pub group_len: u8,
}

pub open spec fn with_group(c: ColorGroup, base: Breath) -> Breath {
    Breath { hue_span: c.hue_span, group: c.group, group_len: c.group_len, ..base }
}

impl ColorGroup {
    /// Overlay the group's hue path onto a base breath; the envelope and
    /// saturation ride along unchanged.
    pub fn into_breath(self, base: Breath) -> (b: Breath)
        ensures
            b == with_group(self, base),
    {
        Breath { hue_span: self.hue_span, group: self.group, group_len: self.group_len, ..base }
    }
}

/// Color-group presets cycled on breathing mode: warm sunset, rainbow
/// seven, standalone warm white, and the full-hue sweep.
pub open spec fn color_groups_spec() -> [ColorGroup; 4] {
    [
        ColorGroup { hue_span: 255, group: [16u8, 32, 3, 0, 0, 0, 0], group_len: 3 },
        ColorGroup { hue_span: 255, group: [0u8, 21, 43, 85, 128, 170, 213], group_len: 7 },
        ColorGroup { hue_span: 255, group: [28u8, 0, 0, 0, 0, 0, 0], group_len: 1 },
        ColorGroup { hue_span: 255, group: [0u8, 0, 0, 0, 0, 0, 0], group_len: 0 },
    ]
}

pub fn color_groups() -> (g: [ColorGroup; 4])
    ensures
        g == color_groups_spec(),
{
    [
        ColorGroup { hue_span: 255, group: [16, 32, 3, 0, 0, 0, 0], group_len: 3 },
        ColorGroup { hue_span: 255, group: [0, 21, 43, 85, 128, 170, 213], group_len: 7 },
        ColorGroup { hue_span: 255, group: [28, 0, 0, 0, 0, 0, 0], group_len: 1 },
        ColorGroup { hue_span: 255, group: [0, 0, 0, 0, 0, 0, 0], group_len: 0 },
    ]
}

/// A pure device-level operation: what an input source reported, carrying
/// the wiring-order source that raised it.
#[derive(Debug, Clone, Copy, PartialEq, Eq)]
pub struct OperationIntent {
    pub source: u8,
    pub event: InputEvent,
}

/// A business intent: an absolute target the device should move to.
#[derive(Debug, Clone, Copy, PartialEq, Eq)]
pub enum BusinessIntent {
    /// A no-op: the operation recorded its diagnostics but moves nothing.
    Invalid,
    /// Set the `instance`-th light surface to an absolute target state.
    SetLight { instance: u8, state: LightState },
}

/// The management-pipe message: one pipe carries both planes.
#[derive(Debug, Clone, Copy, PartialEq, Eq)]
pub enum Intent {
    Operation(OperationIntent),
    Business(BusinessIntent),
}

/// Stateless recognition: a raw event plus its wiring-order source.
pub fn recognize(event: InputEvent, source: u8) -> (op: OperationIntent)
    ensures
        op == (OperationIntent { source, event }),
{
    OperationIntent { source, event }
}

// ---------------------------------------------------------------------------
// Tables.

/// First index at or after `i` holding `v`.
pub open spec fn scan_table<T>(table: Seq<T>, v: T, i: int) -> Option<int>
    decreases table.len() - i,
{
    if i < 0 || i >= table.len() {
        None
    } else if table[i] == v {
        Some(i)
    } else {
        scan_table(table, v, i + 1)
    }
}

/// Where `v` sits in `table`, the head when it is absent.
pub open spec fn table_index<T>(table: Seq<T>, v: T) -> int {
    match scan_table(table, v, 0) {
        Some(i) => i,
        None => 0,
    }
}

/// The entry `dir` slots from `v`'s position (the head's when absent),
/// wrapping both ways.
pub open spec fn table_stepped<T>(table: Seq<T>, v: T, dir: int) -> T {
    table[(table_index(table, v) + dir) % (table.len() as int)]
}

proof fn lemma_scan_table_range<T>(table: Seq<T>, v: T, i: int)
    requires
        0 <= i,
    ensures
        scan_table(table, v, i) matches Some(k) ==> i <= k < table.len() && table[k] == v,
    decreases table.len() - i,
{
    if i < table.len() {
        lemma_scan_table_range(table, v, i + 1);
    }
}

fn find_u8(table: &[u8], v: u8) -> (idx: usize)
    ensures
        idx == table_index(table@, v),
        table@.len() > 0 ==> idx < table@.len(),
{
    let mut i: usize = 0;
    while i < table.len()
        invariant
            0 <= i <= table@.len(),
            scan_table(table@, v, 0) == scan_table(table@, v, i as int),
        decreases table@.len() - i,
    {
        if table[i] == v {
            return i;
        }
        i += 1;
    }
    0
}

fn find_u32(table: &[u32], v: u32) -> (idx: usize)
    ensures
        idx == table_index(table@, v),
        table@.len() > 0 ==> idx < table@.len(),
{
    let mut i: usize = 0;
    while i < table.len()
        invariant
            0 <= i <= table@.len(),
            scan_table(table@, v, 0) == scan_table(table@, v, i as int),
        decreases table@.len() - i,
    {
        if table[i] == v {
            return i;
        }
        i += 1;
    }
    0
}

/// The slot `dir` away from `idx`, wrapping both ways.
fn wrapped_slot(idx: usize, dir: isize, len: usize) -> (r: usize)
    requires
        idx < len,
        len <= isize::MAX,
        isize::MIN <= idx + dir <= isize::MAX,
    ensures
        r == (idx + dir) % (len as int),
        r < len,
{
    let s: isize = idx as isize + dir;
    if s >= 0 {
        (s as usize) % len
    } else {
        let k = ((-(s + 1)) as usize) % len;
        assert((s as int) % (len as int) == len - 1 - k) by {
            let n = -(s + 1);
            assert(n % (len as int) == k);
            assert(s == -n - 1);
            vstd::arithmetic::div_mod::lemma_fundamental_div_mod(n, len as int);
            let q = n / (len as int);
            assert(s == (-q - 1) * (len as int) + (len - 1 - k)) by (nonlinear_arith)
                requires
                    n == (len as int) * q + k,
                    s == -n - 1,
            ;
            vstd::arithmetic::div_mod::lemma_mod_multiples_vanish(-q - 1, len - 1 - k, len as int);
            vstd::arithmetic::div_mod::lemma_small_mod((len - 1 - k) as nat, len as nat);
        }
        len - 1 - k
    }
}

/// Look up `current` in `table` and move `dir` slots (wrapping); an unknown
/// value walks off the head.
pub fn table_step(table: &[u8], current: u8, dir: isize) -> (r: u8)
    requires
        0 < table@.len() <= isize::MAX,
        isize::MIN <= table_index(table@, current) + dir <= isize::MAX,
    ensures
        r == table_stepped(table@, current, dir as int),
{
    let idx = find_u8(table, current);
    table[wrapped_slot(idx, dir, table.len())]
}

/// The next entry after `current` (wrapping); the head's successor when
/// `current` is absent.
pub fn advance(table: &[u32], current: u32) -> (r: u32)
    requires
        0 < table@.len() <= isize::MAX,
    ensures
        r == table_stepped(table@, current, 1),
{
    let idx = find_u32(table, current);
    table[wrapped_slot(idx, 1, table.len())]
}

pub fn advance_u8(table: &[u8], current: u8) -> (r: u8)
    requires
        0 < table@.len() <= isize::MAX,
    ensures
        r == table_stepped(table@, current, 1),
{
    let idx = find_u8(table, current);
    table[wrapped_slot(idx, 1, table.len())]
}

pub fn retreat_u8(table: &[u8], current: u8) -> (r: u8)
    requires
        0 < table@.len() <= isize::MAX,
    ensures
        r == table_stepped(table@, current, -1),
{
    let idx = find_u8(table, current);
    table[wrapped_slot(idx, -1, table.len())]
}

fn find_color(table: &[Rgb; 7], v: Rgb) -> (idx: usize)
    ensures
        idx == table_index(table@, v),
        idx < 7,
{
    let mut i: usize = 0;
    while i < 7
        invariant
            0 <= i <= 7,
            scan_table(table@, v, 0) == scan_table(table@, v, i as int),
        decreases 7 - i,
    {
        if table[i] == v {
            return i;
        }
        i += 1;
    }
    0
}

/// The next palette color (wrapping), the head's successor when unknown.
pub fn advance_palette(current: Rgb) -> (r: Rgb)
    ensures
        r == table_stepped(palette_spec()@, current, 1),
{
    let table = palette();
    table[wrapped_slot(find_color(&table, current), 1, 7)]
}

pub fn retreat_palette(current: Rgb) -> (r: Rgb)
    ensures
        r == table_stepped(palette_spec()@, current, -1),
{
    let table = palette();
    table[wrapped_slot(find_color(&table, current), -1, 7)]
}

/// Whether a preset describes `breath`'s hue trajectory: matching keys on
/// the group and its length, the hue span riding along.
pub open spec fn group_matches(c: ColorGroup, breath: Breath) -> bool {
    c.group == breath.group && c.group_len == breath.group_len
}

pub open spec fn scan_groups(groups: Seq<ColorGroup>, breath: Breath, i: int) -> Option<int>
    decreases groups.len() - i,
{
    if i < 0 || i >= groups.len() {
        None
    } else if group_matches(groups[i], breath) {
        Some(i)
    } else {
        scan_groups(groups, breath, i + 1)
    }
}

/// The preset index of `breath`'s trajectory, the head when unknown.
pub open spec fn group_index(breath: Breath) -> int {
    match scan_groups(color_groups_spec()@, breath, 0) {
        Some(i) => i,
        None => 0,
    }
}

fn same_group(a: &[u8; GROUP_CAPACITY], b: &[u8; GROUP_CAPACITY]) -> (r: bool)
    ensures
        r == (*a == *b),
{
    let mut i: usize = 0;
    while i < GROUP_CAPACITY
        invariant
            0 <= i <= GROUP_CAPACITY,
            forall|k: int| 0 <= k < i ==> a[k] == b[k],
        decreases GROUP_CAPACITY - i,
    {
        if a[i] != b[i] {
            return false;
        }
        i += 1;
    }
    assert(*a =~= *b);
    true
}

fn color_group_idx(breath: &Breath) -> (idx: usize)
    ensures
        idx == group_index(*breath),
        idx < 4,
{
    let groups = color_groups();
    let mut i: usize = 0;
    while i < 4
        invariant
            0 <= i <= 4,
            groups == color_groups_spec(),
            scan_groups(groups@, *breath, 0) == scan_groups(groups@, *breath, i as int),
        decreases 4 - i,
    {
        let c = groups[i];
        if same_group(&c.group, &breath.group) && c.group_len == breath.group_len {
            return i;
        }
        i += 1;
    }
    0
}

/// The preset after `breath`'s (wrapping).
pub fn advance_color_group(breath: &Breath) -> (c: ColorGroup)
    ensures
        c == color_groups_spec()[(group_index(*breath) + 1) % 4],
{
    let idx = color_group_idx(breath);
    color_groups()[(idx + 1) % 4]
}

/// The preset before `breath`'s (wrapping).
pub fn retreat_color_group(breath: &Breath) -> (c: ColorGroup)
    ensures
        c == color_groups_spec()[(group_index(*breath) + 3) % 4],
{
    let idx = color_group_idx(breath);
    color_groups()[(idx + 4 - 1) % 4]
}

// ---------------------------------------------------------------------------
// Light moves.

/// The mode ring: off wakes to the boot breath, breathing hands over to the
/// first palette color at full brightness, solid powers off.
pub open spec fn cycled(current: LightState) -> LightState {
    match current {
        LightState::Off => boot_light(),
        LightState::Breath(_) => LightState::Solid { color: palette_spec()[0], brightness: SOLID_DEFAULT_BRIGHTNESS },
        LightState::Solid { .. } => LightState::Off,
    }
}

/// Step the color one slot either way: the color group in breath, the
/// palette in solid; nothing to step on `Off`.
pub open spec fn color_stepped(current: LightState, forward: bool) -> Option<LightState> {
    match current {
        LightState::Off => None,
        LightState::Breath(breath) => {
            let next = if forward {
                color_groups_spec()[(group_index(breath) + 1) % 4]
            } else {
                color_groups_spec()[(group_index(breath) + 3) % 4]
            };
            Some(LightState::Breath(with_group(next, breath)))
        },
        LightState::Solid { color, brightness } => Some(
            LightState::Solid { color: table_stepped(palette_spec()@, color, if forward { 1 } else { -1 }), brightness },
        ),
    }
}

/// Step the current mode's table forward: the breathing period, or the
/// solid brightness.
pub open spec fn step_advanced(current: LightState) -> Option<LightState> {
    match current {
        LightState::Off => None,
        LightState::Breath(breath) => Some(
            LightState::Breath(Breath { period_ms: table_stepped(BREATH_PERIODS_MS@, breath.period_ms, 1), ..breath }),
        ),
        LightState::Solid { color, brightness } => Some(
            LightState::Solid { color, brightness: table_stepped(SOLID_BRIGHTNESS_STEPS@, brightness, 1) },
        ),
    }
}

pub open spec fn clamp(v: int, lo: int, hi: int) -> int {
    if v < lo {
        lo
    } else if v > hi {
        hi
    } else {
        v
    }
}

/// The breathing envelope slid one step up or down, floor and ceiling
/// together, each held off its 8-bit wall by one step.
pub open spec fn envelope_shifted(breath: Breath, up: bool) -> Breath {
    let step: int = if up { BRIGHTNESS_ENVELOPE_STEP as int } else { -(BRIGHTNESS_ENVELOPE_STEP as int) };
    let guard = BRIGHTNESS_ENVELOPE_STEP as int;
    Breath {
        min_brightness: clamp(breath.min_brightness + step, 0, 255 - guard) as u8,
        max_brightness: clamp(breath.max_brightness + step, guard, 255) as u8,
        ..breath
    }
}

/// Brightness up or down: the envelope in breath, the step table in solid.
pub open spec fn brightness_stepped(current: LightState, up: bool) -> Option<LightState> {
    match current {
        LightState::Off => None,
        LightState::Breath(breath) => Some(LightState::Breath(envelope_shifted(breath, up))),
        LightState::Solid { color, brightness } => Some(
            LightState::Solid { color, brightness: table_stepped(SOLID_BRIGHTNESS_STEPS@, brightness, if up { 1 } else { -1 }) },
        ),
    }
}

/// A swipe's light move: horizontal steps the color, vertical the
/// brightness, the diagonals keep the light as it is.
pub open spec fn swiped(current: LightState, direction: SwipeDirection) -> Option<LightState> {
    match direction {
        SwipeDirection::Left => color_stepped(current, false),
        SwipeDirection::Right => color_stepped(current, true),
        SwipeDirection::Down => brightness_stepped(current, false),
        SwipeDirection::Up => brightness_stepped(current, true),
        _ => Some(current),
    }
}

pub open spec fn targeted(step: Option<LightState>, instance: int) -> BusinessIntent {
    match step {
        Some(state) => BusinessIntent::SetLight { instance: instance as u8, state },
        None => BusinessIntent::Invalid,
    }
}

/// The surface a source drives, clamped to the last installed one.
pub open spec fn slot_of_source(source: u8) -> int {
    if source < MAX_LIGHTS {
        source as int
    } else {
        MAX_LIGHTS - 1
    }
}

/// An operation interpreted against the device: buttons move the surface
/// their source names, touch gestures the first surface (read from the
/// source's), and everything diagnostic is `Invalid`.
pub open spec fn translated(op: OperationIntent, current: DeviceState) -> BusinessIntent {
    let slot = slot_of_source(op.source);
    let light = current.lights[slot];
    match op.event {
        InputEvent::Button(ButtonEvent::Click) => targeted(color_stepped(light, true), slot),
        InputEvent::Button(ButtonEvent::DoubleClick) => targeted(step_advanced(light), slot),
        InputEvent::Button(ButtonEvent::LongPress) => BusinessIntent::SetLight { instance: slot as u8, state: cycled(light) },
        InputEvent::Gesture(GestureEvent::Tap { .. }) => targeted(color_stepped(light, true), 0),
        InputEvent::Gesture(GestureEvent::DoubleTap { .. }) => targeted(step_advanced(light), 0),
        InputEvent::Gesture(GestureEvent::Swipe { direction, .. }) => targeted(swiped(light, direction), 0),
        InputEvent::Gesture(GestureEvent::LongPress { .. }) => BusinessIntent::SetLight { instance: 0, state: cycled(light) },
        _ => BusinessIntent::Invalid,
    }
}

/// Cycle the light mode one step; see [`cycled`].
pub fn cycle_mode(current: LightState) -> (l: LightState)
    ensures
        l == cycled(current),
{
    match current {
        LightState::Off => LightState::default(),
        LightState::Breath(_) => LightState::Solid { color: palette()[0], brightness: SOLID_DEFAULT_BRIGHTNESS },
        LightState::Solid { .. } => LightState::Off,
    }
}

pub fn swipe_color(current: LightState, forward: bool) -> (r: Option<LightState>)
    ensures
        r == color_stepped(current, forward),
{
    match current {
        LightState::Off => None,
        LightState::Breath(breath) => {
            let next_group = if forward {
                advance_color_group(&breath)
            } else {
                retreat_color_group(&breath)
            };
            Some(LightState::Breath(next_group.into_breath(breath)))
        },
        LightState::Solid { color, brightness } => {
            let next_color = if forward {
                advance_palette(color)
            } else {
                retreat_palette(color)
            };
            Some(LightState::Solid { color: next_color, brightness })
        },
    }
}

/// Advance the color one slot: the single click's action, exactly a
/// right swipe.
pub fn advance_color(current: LightState) -> (r: Option<LightState>)
    ensures
        r == color_stepped(current, true),
{
    swipe_color(current, true)
}

/// Step the current mode's table by one slot: the double click's action.
pub fn advance_step(current: LightState) -> (r: Option<LightState>)
    ensures
        r == step_advanced(current),
{
    match current {
        LightState::Off => None,
        LightState::Breath(breath) => {
            let next_period = advance(&BREATH_PERIODS_MS, breath.period_ms);
            Some(LightState::Breath(Breath { period_ms: next_period, ..breath }))
        },
        LightState::Solid { color, brightness } => {
            let next = advance_u8(&SOLID_BRIGHTNESS_STEPS, brightness);
            Some(LightState::Solid { color, brightness: next })
        },
    }
}

/// Slide a breathing envelope's floor and ceiling together; see
/// [`envelope_shifted`].
pub fn shift_envelope(breath: Breath, up: bool) -> (b: Breath)
    ensures
        b == envelope_shifted(breath, up),
{
    let step: i16 = if up {
        BRIGHTNESS_ENVELOPE_STEP as i16
    } else {
        -(BRIGHTNESS_ENVELOPE_STEP as i16)
    };
    let guard = BRIGHTNESS_ENVELOPE_STEP as i16;
    let raw_min = breath.min_brightness as i16 + step;
    let raw_max = breath.max_brightness as i16 + step;
    let min = if raw_min < 0 {
        0
    } else if raw_min > 255 - guard {
        255 - guard
    } else {
        raw_min
    };
    let max = if raw_max < guard {
        guard
    } else if raw_max > 255 {
        255
    } else {
        raw_max
    };
    Breath { min_brightness: min as u8, max_brightness: max as u8, ..breath }
}

pub fn swipe_brightness(current: LightState, up: bool) -> (r: Option<LightState>)
    ensures
        r == brightness_stepped(current, up),
{
    match current {
        LightState::Off => None,
        LightState::Breath(breath) => Some(LightState::Breath(shift_envelope(breath, up))),
        LightState::Solid { color, brightness } => {
            let next = if up {
                advance_u8(&SOLID_BRIGHTNESS_STEPS, brightness)
            } else {
                retreat_u8(&SOLID_BRIGHTNESS_STEPS, brightness)
            };
            Some(LightState::Solid { color, brightness: next })
        },
    }
}

/// A resolved swipe's light move; see [`swiped`].
pub fn swipe(current: LightState, direction: SwipeDirection) -> (r: Option<LightState>)
    ensures
        r == swiped(current, direction),
{
    match direction {
        SwipeDirection::Left => swipe_color(current, false),
        SwipeDirection::Right => swipe_color(current, true),
        SwipeDirection::Down => swipe_brightness(current, false),
        SwipeDirection::Up => swipe_brightness(current, true),
        SwipeDirection::UpLeft | SwipeDirection::UpRight | SwipeDirection::DownLeft
        | SwipeDirection::DownRight => Some(current),
    }
}

/// Fold an optional table step into a business intent.
pub fn target_for(step: Option<LightState>, instance: usize) -> (b: BusinessIntent)
    requires
        instance < 256,
    ensures
        b == targeted(step, instance as int),
{
    match step {
        Some(state) => BusinessIntent::SetLight { instance: instance as u8, state },
        None => BusinessIntent::Invalid,
    }
}

/// The light surface a wiring-order source drives, clamped to the last
/// installed surface.
pub fn light_slot(current: &DeviceState, source: u8) -> (slot: usize)
    ensures
        slot == slot_of_source(source),
        slot < MAX_LIGHTS,
{
    let last = current.lights.len() - 1;
    if (source as usize) < last {
        source as usize
    } else {
        last
    }
}

/// Interpret an operation against the current device state; see
/// [`translated`].
pub fn translate(op: &OperationIntent, current: &DeviceState) -> (b: BusinessIntent)
    ensures
        b == translated(*op, *current),
{
    let slot = light_slot(current, op.source);
    let light = current.lights[slot];
    match op.event {
        InputEvent::Button(ButtonEvent::Click) => target_for(advance_color(light), slot),
        InputEvent::Button(ButtonEvent::DoubleClick) => target_for(advance_step(light), slot),
        InputEvent::Button(ButtonEvent::LongPress) => BusinessIntent::SetLight {
            instance: slot as u8,
            state: cycle_mode(light),
        },
        InputEvent::Gesture(GestureEvent::Press { .. }) => BusinessIntent::Invalid,
        InputEvent::Gesture(GestureEvent::GhostTouch) => BusinessIntent::Invalid,
        InputEvent::ChipGesture(_) | InputEvent::Motion(_) => BusinessIntent::Invalid,
        InputEvent::Gesture(GestureEvent::Tap { .. }) => target_for(advance_color(light), 0),
        InputEvent::Gesture(GestureEvent::DoubleTap { .. }) => target_for(advance_step(light), 0),
        InputEvent::Gesture(GestureEvent::Swipe { direction, .. }) => target_for(swipe(light, direction), 0),
        InputEvent::Gesture(GestureEvent::LongPress { .. }) => BusinessIntent::SetLight { instance: 0, state: cycle_mode(light) },
        InputEvent::Touch(_) => BusinessIntent::Invalid,
    }
}

// ---------------------------------------------------------------------------
// Laws.

/// The long press's mode ring closes after three steps: from any light, the
/// first step lands on the ring (boot breath, full solid or off), and three
/// more steps return there.
pub proof fn lemma_mode_ring_closes(light: LightState)
    ensures
        cycled(cycled(cycled(cycled(light)))) == cycled(light),
        cycled(cycled(cycled(LightState::Off))) == LightState::Off,
{
}

/// A right swipe is exactly a click, a left swipe steps the color back, and
/// the diagonals keep the light as it is.
pub proof fn lemma_swipe_axes(light: LightState)
    ensures
        swiped(light, SwipeDirection::Right) == color_stepped(light, true),
        swiped(light, SwipeDirection::Left) == color_stepped(light, false),
        swiped(light, SwipeDirection::UpLeft) == Some(light),
        swiped(light, SwipeDirection::UpRight) == Some(light),
        swiped(light, SwipeDirection::DownLeft) == Some(light),
        swiped(light, SwipeDirection::DownRight) == Some(light),
{
}

/// `Off` has no color, period or brightness to step: every stepping move is
/// `None` there, so clicks, taps and straight swipes on it are `Invalid`.
pub proof fn lemma_off_steps_nothing(forward: bool, up: bool)
    ensures
        color_stepped(LightState::Off, forward) is None,
        step_advanced(LightState::Off) is None,
        brightness_stepped(LightState::Off, up) is None,
{
}

/// Sliding the envelope keeps at least a full step between floor and
/// ceiling, whichever way it goes, once the envelope has that span.
pub proof fn lemma_envelope_keeps_span(breath: Breath, up: bool)
    requires
        breath.max_brightness >= breath.min_brightness + BRIGHTNESS_ENVELOPE_STEP,
    ensures
        envelope_shifted(breath, up).max_brightness >= envelope_shifted(breath, up).min_brightness
            + BRIGHTNESS_ENVELOPE_STEP,
{
}

/// In a table without repeats, every entry is found at its own index.
proof fn lemma_distinct_index<T>(table: Seq<T>, i: int)
    requires
        0 <= i < table.len(),
        forall|a: int, b: int| 0 <= a < b < table.len() ==> table[a] != table[b],
    ensures
        table_index(table, table[i]) == i,
{
    assert forall|j: int| 0 <= j <= i implies scan_table(table, table[i], j) == Some(i) by {
        lemma_scan_from(table, i, j);
    }
}

proof fn lemma_scan_from<T>(table: Seq<T>, i: int, j: int)
    requires
        0 <= j <= i < table.len(),
        forall|a: int, b: int| 0 <= a < b < table.len() ==> table[a] != table[b],
    ensures
        scan_table(table, table[i], j) == Some(i),
    decreases i - j,
{
    if j < i {
        lemma_scan_from(table, i, j + 1);
    }
}

/// Stepping back undoes stepping forward, and the other way round, for every
/// entry of a table without repeats.
pub proof fn lemma_step_back_undoes<T>(table: Seq<T>, v: T)
    requires
        table.len() > 0,
        table.contains(v),
        forall|a: int, b: int| 0 <= a < b < table.len() ==> table[a] != table[b],
    ensures
        table_stepped(table, table_stepped(table, v, 1), -1) == v,
        table_stepped(table, table_stepped(table, v, -1), 1) == v,
{
    let n = table.len() as int;
    let i = choose|i: int| 0 <= i < n && table[i] == v;
    lemma_distinct_index(table, i);
    let up = (i + 1) % n;
    let down = (i - 1) % n;
    lemma_distinct_index(table, up);
    lemma_distinct_index(table, down);
    assert((up - 1) % n == i) by {
        if i + 1 < n {
            vstd::arithmetic::div_mod::lemma_small_mod((i + 1) as nat, n as nat);
            vstd::arithmetic::div_mod::lemma_small_mod(i as nat, n as nat);
        } else {
            vstd::arithmetic::div_mod::lemma_mod_self_0(n);
            vstd::arithmetic::div_mod::lemma_mod_add_multiples_vanish(-1, n);
            vstd::arithmetic::div_mod::lemma_small_mod((n - 1) as nat, n as nat);
        }
    }
    assert((down + 1) % n == i) by {
        if i > 0 {
            vstd::arithmetic::div_mod::lemma_small_mod((i - 1) as nat, n as nat);
            vstd::arithmetic::div_mod::lemma_small_mod(i as nat, n as nat);
        } else {
            vstd::arithmetic::div_mod::lemma_mod_add_multiples_vanish(-1, n);
            vstd::arithmetic::div_mod::lemma_small_mod((n - 1) as nat, n as nat);
            vstd::arithmetic::div_mod::lemma_mod_self_0(n);
        }
    }
}

/// A value the table does not hold counts as the head: stepping from it
/// lands `dir` slots from the head, wrapping both ways.
pub proof fn lemma_absent_steps_from_head<T>(table: Seq<T>, v: T, dir: int)
    requires
        table.len() > 0,
        !table.contains(v),
    ensures
        table_stepped(table, v, dir) == table[dir % (table.len() as int)],
{
    lemma_scan_table_range(table, v, 0);
    if scan_table(table, v, 0) is Some {
        let k = scan_table(table, v, 0).unwrap();
        assert(table[k] == v);
    }
}

/// The shipped tables have no repeats, so their steps undo each other.
pub proof fn lemma_tables_distinct()
    ensures
        forall|a: int, b: int| 0 <= a < b < 7 ==> palette_spec()@[a] != palette_spec()@[b],
        forall|a: int, b: int| 0 <= a < b < 6 ==> SOLID_BRIGHTNESS_STEPS@[a] != SOLID_BRIGHTNESS_STEPS@[b],
        forall|a: int, b: int| 0 <= a < b < 10 ==> BREATH_PERIODS_MS@[a] != BREATH_PERIODS_MS@[b],
{
    assert(palette_spec()@ =~= seq![
        Rgb(255, 64, 48),
        Rgb(255, 160, 48),
        Rgb(255, 224, 64),
        Rgb(80, 200, 96),
        Rgb(32, 200, 220),
        Rgb(72, 128, 255),
        Rgb(190, 96, 255),
    ]);
    assert(SOLID_BRIGHTNESS_STEPS@ =~= seq![32u8, 64, 100, 140, 200, 255]);
    assert(BREATH_PERIODS_MS@ =~= seq![125u32, 250, 375, 500, 750, 1_000, 2_000, 3_000, 5_000, 8_000]);
}

} // verus!
