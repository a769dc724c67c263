use vstd::prelude::*;

verus! {

/// Shortest high time, in microseconds, that is read as a `1` bit.
pub const ONE_MIN_US: u16 = 180;

/// Longest high time, in microseconds, that is read as a `1` bit.
pub const ONE_MAX_US: u16 = 500;

/// Shortest high time, in microseconds, that is read as a `0` bit.
pub const ZERO_MIN_US: u16 = 501;

/// Longest high time, in microseconds, that is read as a `0` bit.
pub const ZERO_MAX_US: u16 = 900;

/// The bit that a high pulse of `d` microseconds stands for, if any.
pub open spec fn pulse_bit(d: int) -> Option<bool> {
    if 180 <= d <= 500 {
        Some(true)
    } else if 501 <= d <= 900 {
        Some(false)
    } else {
        None
    }
}

/// Classifies one measured high time.
pub fn classify_pulse(duration: u16) -> (r: Option<bool>)
    ensures
        r == pulse_bit(duration as int),
{
    if duration < 100 {
        None
    } else if ONE_MIN_US <= duration && duration <= ONE_MAX_US {
        Some(true)
    } else if ZERO_MIN_US <= duration && duration <= ZERO_MAX_US {
        Some(false)
    } else {
        None
    }
}

} // verus!
