//! Which subsystems a refresh collects this tick. Gates mirror the meter
//! visibility; a gated-off subsystem keeps its last collected values. All
//! bits set means collect everything.

use vstd::prelude::*;

verus! {

pub const NET: u8 = 1;
pub const BATTERY: u8 = 2;
pub const CPU: u8 = 4;
pub const GPU: u8 = 8;
pub const NPU: u8 = 16;
pub const ALL: u8 = NET | BATTERY | CPU | GPU | NPU;

/// Gates that are on in `gates` but were off in `previous`: the subsystems
/// whose rate baselines are re-primed this tick.
pub fn newly_enabled(gates: u8, previous: u8) -> (r: u8)
    ensures
        r == gates & !previous,
{
    gates & !previous
}

/// Whether `gates` has `gate` switched on.
pub fn is_enabled(gates: u8, gate: u8) -> (r: bool)
    ensures
        r == (gates & gate != 0),
{
    gates & gate != 0
}

} // verus!
