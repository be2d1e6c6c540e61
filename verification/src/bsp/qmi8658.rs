//! Unit conversions and status decoding of the QMI8658 IMU driver.
use vstd::prelude::*;

use crate::drivers::motion::{MotionEvent, MotionEvents, MotionReading, MotionSample};
use crate::drivers::motion::event::slots_pushed;

verus! {

/// Output data rate the driver pins, in tenths of a hertz.
pub const ODR_HZ_X10: u32 = 8_968;

/// A window in milliseconds as the sample count the No-Motion engine
/// expects, rounded to nearest.
pub open spec fn samples_for(ms: u16) -> int {
    (ms * ODR_HZ_X10 + 5_000) / 10_000
}

pub fn odr_samples(ms: u16) -> (n: u16)
    ensures
        n == samples_for(ms),
{
    assert(ms as u32 * ODR_HZ_X10 + 5_000 <= 65_535 * 8_968 + 5_000);
    let total = ms as u32 * ODR_HZ_X10 + 5_000;
    assert(total / 10_000 <= 58_772) by (nonlinear_arith)
        requires
            total <= 65_535 * 8_968 + 5_000,
    ;
    (total / 10_000) as u16
}

/// Division truncating toward zero.
pub open spec fn div_trunc(a: int, d: int) -> int {
    if a >= 0 {
        a / d
    } else {
        -((-a) / d)
    }
}

/// The heading step a gyro rate produces over the elapsed time, which is
/// capped at one second so a stall cannot spin the heading away.
pub open spec fn yaw_step(gyro_z_dps_x10: i32, elapsed_ms: u64) -> int {
    let dt = if elapsed_ms < 1_000 { elapsed_ms as int } else { 1_000 };
    div_trunc(gyro_z_dps_x10 * dt, 1_000)
}

/// The heading after one step, folded into the half-turn range: the sum
/// taken modulo a full turn, moved down a turn past a half turn.
pub open spec fn yaw_integrated(current: i16, gyro_z_dps_x10: i32, elapsed_ms: u64) -> int {
    let r = (current + yaw_step(gyro_z_dps_x10, elapsed_ms)) % 3_600;
    if r > 1_800 {
        r - 3_600
    } else {
        r
    }
}

/// Integrates the gyro's z rate into a heading in tenths of a degree.
pub fn integrate_yaw(current: i16, gyro_z_dps_x10: i32, elapsed_ms: u64) -> (yaw: i16)
    requires
        i32::MIN <= current + yaw_step(gyro_z_dps_x10, elapsed_ms) <= i32::MAX,
    ensures
        yaw == yaw_integrated(current, gyro_z_dps_x10, elapsed_ms),
        -1_800 < yaw <= 1_800,
{
    let dt: i64 = if elapsed_ms < 1_000 { elapsed_ms as i64 } else { 1_000 };
    let product: i64 = gyro_z_dps_x10 as i64 * dt;
    assert(-2_147_483_648 * 1_000 <= product <= 2_147_483_647 * 1_000) by (nonlinear_arith)
        requires
            product == gyro_z_dps_x10 * dt,
            0 <= dt <= 1_000,
            -2_147_483_648 <= gyro_z_dps_x10 <= 2_147_483_647,
    ;
    let step: i64 = if product >= 0 {
        product / 1_000
    } else {
        -((-product) / 1_000)
    };
    let sum: i64 = current as i64 + step;
    let folded: i64 = if sum >= 0 {
        sum % 3_600
    } else {
        let k = (-(sum + 1)) % 3_600;
        3_599 - k
    };
    assert(folded == (current + yaw_step(gyro_z_dps_x10, elapsed_ms)) % 3_600) by {
        if sum < 0 {
            let n = -(sum + 1);
            vstd::arithmetic::div_mod::lemma_fundamental_div_mod(n as int, 3_600);
            let q = n / 3_600;
            let k = n % 3_600;
            assert(sum == (-q - 1) * 3_600 + (3_599 - k));
            vstd::arithmetic::div_mod::lemma_mod_multiples_vanish(-q - 1, 3_599 - k, 3_600);
            vstd::arithmetic::div_mod::lemma_small_mod((3_599 - k) as nat, 3_600);
        }
    }
    if folded > 1_800 {
        (folded - 3_600) as i16
    } else {
        folded as i16
    }
}


/// STATUS1 bit the no-motion engine raises while it judges the device still.
pub const STATUS1_NO_MOTION: u8 = 0x40;

/// Whether the no-motion bit rose between two STATUS1 readings. The bit is a
/// level, asserted every poll while the device stays still, so only its rise
/// is a transition worth an event.
pub open spec fn no_motion_rose(status: u8, last_status: u8) -> bool {
    status & STATUS1_NO_MOTION != 0 && last_status & STATUS1_NO_MOTION == 0
}

/// Decode a freshly read STATUS1 into motion events: `Still` on the rise of
/// the no-motion bit; the reading becomes the last one seen.
pub fn decode_events(last_status: &mut u8, status: u8, events: &mut MotionEvents) -> (r: u8)
    ensures
        r == status,
        *final(last_status) == status,
        no_motion_rose(status, *old(last_status)) ==> final(events).slots_view() == slots_pushed(
            old(events).slots_view(),
            MotionEvent::Still,
        ).0,
        !no_motion_rose(status, *old(last_status)) ==> final(events).slots_view() == old(
            events,
        ).slots_view(),
{
    if status & STATUS1_NO_MOTION != 0 && *last_status & STATUS1_NO_MOTION == 0 {
        events.push(MotionEvent::Still);
    }
    *last_status = status;
    status
}

/// Why the driver could not configure the part.
#[derive(Debug, Clone, Copy, PartialEq, Eq)]
pub enum Qmi8658Error<E> {
    /// The bus itself failed.
    Bus(E),
    /// `WHO_AM_I` read back something other than the part's identity.
    Identity(u8),
    /// The part never reported a completed soft reset, so nothing downstream
    /// can be trusted.
    ResetIncomplete,
    /// A motion engine refused its configuration.
    EngineConfig,
}

/// The little-endian signed word of two bytes.
pub open spec fn le_word(lo: u8, hi: u8) -> i16 {
    (hi * 256 + lo) as i16
}

/// The accelerometer then gyroscope axes of a data-register burst, each a
/// little-endian signed word.
pub fn decode_axes(data: [u8; 12]) -> (axes: ([i16; 3], [i16; 3]))
    ensures
        forall|i: int|
            0 <= i < 3 ==> axes.0@[i] == le_word(data@[2 * i], data@[2 * i + 1]) && axes.1@[i]
                == le_word(data@[6 + 2 * i], data@[7 + 2 * i]),
{
    let accel = [
        word_of(data[0], data[1]),
        word_of(data[2], data[3]),
        word_of(data[4], data[5]),
    ];
    let gyro = [
        word_of(data[6], data[7]),
        word_of(data[8], data[9]),
        word_of(data[10], data[11]),
    ];
    (accel, gyro)
}

fn word_of(lo: u8, hi: u8) -> (w: i16)
    ensures
        w == le_word(lo, hi),
{
    let unsigned: u16 = (hi as u16) * 256 + lo as u16;
    unsigned as i16
}

/// What a poll without a fresh data frame reports: nothing when no engine
/// fired; otherwise the engine events on the last sample (or on an error
/// sample before the first), carrying the status just read.
pub open spec fn quiet_reading(status: u8, events: MotionEvents, last: Option<MotionSample>) -> Option<MotionReading> {
    if events.events().len() == 0 {
        None
    } else {
        let base = match last {
            Some(sample) => sample,
            None => MotionSample::fault(),
        };
        Some(MotionReading { sample: MotionSample { status, ..base }, hardware: events })
    }
}

/// An engine can fire between data frames, so its events are still worth
/// publishing when the data plane has not moved.
pub fn reading_without_data(status: u8, events: MotionEvents, last: Option<MotionSample>) -> (r: Option<MotionReading>)
    ensures
        r == quiet_reading(status, events, last),
{
    if events.is_empty() {
        None
    } else {
        let base = match last {
            Some(sample) => sample,
            None => MotionSample::error(),
        };
        Some(MotionReading { sample: MotionSample { status, ..base }, hardware: events })
    }
}
} // verus!
