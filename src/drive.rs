//! Arcade-drive mixing of two receiver channels into wheel pulse widths.
use vstd::prelude::*;

verus! {

/// Pulse width, in microseconds, of a centred stick and of a stopped motor.
pub const PULSE_CENTER: u16 = 1500;

/// Shortest pulse width sent to a motor controller (full reverse).
pub const PULSE_MIN: u16 = 1000;

/// Longest pulse width sent to a motor controller (full forward).
pub const PULSE_MAX: u16 = 2000;

/// `x` limited to the pulse widths a motor controller accepts.
pub open spec fn clamp_pulse(x: int) -> int {
    if x < PULSE_MIN {
        PULSE_MIN as int
    } else if x > PULSE_MAX {
        PULSE_MAX as int
    } else {
        x
    }
}

/// Pulse width of the left wheels: throttle plus the steering offset.
pub open spec fn left_pulse(steering: int, throttle: int) -> int {
    clamp_pulse(throttle + steering - PULSE_CENTER)
}

/// Pulse width of the right wheels: throttle minus the steering offset.
pub open spec fn right_pulse(steering: int, throttle: int) -> int {
    clamp_pulse(throttle + PULSE_CENTER - steering)
}

fn clamp_to_pulse(x: i32) -> (r: u16)
    ensures
        r == clamp_pulse(x as int),
{
    if x < PULSE_MIN as i32 {
        PULSE_MIN
    } else if x > PULSE_MAX as i32 {
        PULSE_MAX
    } else {
        x as u16
    }
}

/// The (left, right) wheel pulse widths for decoded channel values, with
/// channel 0 the steering stick and channel 1 the throttle.
pub fn arcade_mix(channels: &[u16; 14]) -> (r: (u16, u16))
    ensures
        r.0 == left_pulse(channels[0] as int, channels[1] as int),
        r.1 == right_pulse(channels[0] as int, channels[1] as int),
{
    let steering = channels[0] as i32;
    let throttle = channels[1] as i32;
    let left = clamp_to_pulse(throttle + steering - PULSE_CENTER as i32);
    let right = clamp_to_pulse(throttle + PULSE_CENTER as i32 - steering);
    (left, right)
}

} // verus!
