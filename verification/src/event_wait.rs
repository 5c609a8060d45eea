//! Waiting helpers shared by the UI loop and the collector.

use vstd::prelude::*;
use std::time::Duration;

verus! {

/// Why a wait returned.
#[derive(Debug, Clone, Copy, PartialEq, Eq)]
pub enum Wake {
    /// The console input buffer has unread records.
    Input,
    /// The collector published a snapshot.
    Snapshot,
    /// The timeout elapsed.
    Timeout,
}

/// Ceiling of `nanos / 1_000_000`, clamped to `u32::MAX - 1`.
pub open spec fn spec_timeout_millis(nanos: nat) -> nat {
    let ms = (nanos + 999_999) / 1_000_000;
    if ms < u32::MAX - 1 { ms } else { (u32::MAX - 1) as nat }
}

/// Whole milliseconds for a wait of `nanos` nanoseconds, rounded up so a
/// sub-millisecond remainder waits 1 ms, and kept below `u32::MAX` (INFINITE).
pub fn timeout_millis_from_nanos(nanos: u128) -> (ms: u32)
    ensures
        ms as nat == spec_timeout_millis(nanos as nat),
{
    let whole = nanos / 1_000_000;
    let ms = if nanos % 1_000_000 == 0 { whole } else { whole + 1 };
    assert(ms as nat == (nanos + 999_999) / 1_000_000) by (nonlinear_arith)
        requires
            whole == nanos / 1_000_000,
            nanos % 1_000_000 == 0 ==> ms == whole,
            nanos % 1_000_000 != 0 ==> ms == whole + 1,
    {}
    if ms < (u32::MAX - 1) as u128 {
        ms as u32
    } else {
        u32::MAX - 1
    }
}

/// The length of `d` in whole nanoseconds.
pub uninterp spec fn duration_nanos(d: Duration) -> u128;

/// `Duration::as_nanos`: the length of `d` in whole nanoseconds, which
/// depends on `d` alone.
#[verifier::external_body]
pub(crate) fn duration_as_nanos(d: Duration) -> (r: u128)
    ensures
        r == duration_nanos(d),
{
    d.as_nanos()
}

/// Whole milliseconds for a Win32 wait, rounded up so a sub-millisecond
/// remainder waits 1 ms instead of spinning on 0 ms waits, and clamped below
/// `INFINITE` (`u32::MAX`).
pub fn timeout_millis(timeout: Duration) -> (ms: u32)
    ensures
        ms as nat == spec_timeout_millis(duration_nanos(timeout) as nat),
{
    timeout_millis_from_nanos(duration_as_nanos(timeout))
}

/// A wait never asks for `INFINITE`, rounds up, and waits no longer than
/// one millisecond past the request.
pub proof fn timeout_millis_bounds(nanos: nat)
    ensures
        spec_timeout_millis(nanos) < u32::MAX,
        spec_timeout_millis(nanos) < u32::MAX - 1 ==> spec_timeout_millis(nanos) * 1_000_000 >= nanos,
        spec_timeout_millis(nanos) * 1_000_000 < nanos + 1_000_000,
        nanos > 0 ==> spec_timeout_millis(nanos) >= 1,
{
    let ms = (nanos + 999_999) / 1_000_000;
    assert(ms * 1_000_000 >= nanos && ms * 1_000_000 < nanos + 1_000_000) by (nonlinear_arith)
        requires
            ms == (nanos + 999_999) / 1_000_000,
    {}
}

} // verus!
