//! What every fan profile is held to.

use vstd::prelude::*;

verus! {

/// The lowest duty that a pump or processor fan of unknown make is driven to, in
/// percent.
pub const HARD_PUMP_CPU_FLOOR_PCT: i32 = 30;

} // verus!
