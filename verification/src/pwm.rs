//! Conversion between a fan duty in percent and the raw 8-bit PWM value.

use vstd::prelude::*;

verus! {

/// The raw PWM value of a duty in percent, to the nearest whole value; a duty
/// above 100 percent counts as 100.
pub open spec fn raw_of_percent(pct: int) -> int {
    let p = if pct > 100 {
        100
    } else {
        pct
    };
    (p * 255 + 50) / 100
}

/// The raw PWM value of a duty in percent.
pub fn percent_to_raw(pct: u8) -> (raw: u8)
    ensures
        raw == raw_of_percent(pct as int),
{
    let p: u32 = if pct > 100 {
        100
    } else {
        pct as u32
    };
    ((p * 255 + 50) / 100) as u8
}

/// The duty in percent of a raw PWM value, to the nearest whole percent.
pub open spec fn percent_of_raw(raw: int) -> int {
    (raw * 100 + 127) / 255
}

/// The duty in percent of a raw PWM value.
pub fn raw_to_percent(raw: u8) -> (pct: u8)
    ensures
        pct == percent_of_raw(raw as int),
        pct <= 100,
{
    ((raw as u32 * 100 + 127) / 255) as u8
}

/// Whether a header that reports control mode 0 runs at the full speed that was asked
/// for: some drivers report the manual mode at full scale that way.
pub open spec fn full_speed_alias(
    asked_pct: u8,
    shown_pct: Option<u8>,
    mode: Option<u8>,
) -> bool {
    mode == Some(0u8) && asked_pct >= 100 && shown_pct is Some && shown_pct->0 >= 100
}

/// Whether a header that reports control mode 0 runs at the full speed that was asked
/// for.
pub fn is_full_speed_alias(asked_pct: u8, shown_pct: Option<u8>, mode: Option<u8>) -> (r: bool)
    ensures
        r == full_speed_alias(asked_pct, shown_pct, mode),
{
    match (mode, shown_pct) {
        (Some(m), Some(shown)) => m == 0 && asked_pct >= 100 && shown >= 100,
        _ => false,
    }
}

/// A duty in percent survives the way to the raw value and back.
pub proof fn percent_survives_the_round_trip(pct: int)
    requires
        0 <= pct <= 100,
    ensures
        0 <= raw_of_percent(pct) <= 255,
        percent_of_raw(raw_of_percent(pct)) == pct,
{
}

/// A duty is converted to the nearest value on the other scale, never off by more than half
/// a step, and 0 and full scale stay what they are; what is beyond full scale counts as it.
pub proof fn duties_are_converted_to_the_nearest_value(pct: int, raw: int)
    requires
        0 <= pct,
        0 <= raw <= 255,
    ensures
        pct <= 100 ==> -50 <= raw_of_percent(pct) * 100 - pct * 255 <= 50,
        pct >= 100 ==> raw_of_percent(pct) == 255,
        raw_of_percent(0) == 0,
        -128 <= percent_of_raw(raw) * 255 - raw * 100 <= 127,
        percent_of_raw(0) == 0,
        percent_of_raw(255) == 100,
        0 <= percent_of_raw(raw) <= 100,
{
}

/// A higher duty never becomes a lower one.
pub proof fn duties_keep_their_order(a: int, b: int)
    requires
        0 <= a <= b,
    ensures
        raw_of_percent(a) <= raw_of_percent(b),
        b <= 255 ==> percent_of_raw(a) <= percent_of_raw(b),
{
}

/// Mode 0 stands for the asked speed only where full speed was asked for and is shown.
pub proof fn mode_zero_is_full_speed_only(asked_pct: u8, shown_pct: Option<u8>, mode: Option<u8>)
    ensures
        full_speed_alias(asked_pct, shown_pct, mode) ==> mode == Some(0u8) && asked_pct >= 100
            && shown_pct is Some && shown_pct->0 >= 100,
        full_speed_alias(100, Some(100), Some(0)),
{
}

} // verus!
