//! The clocks of the operating systems in nanoseconds.

use vstd::prelude::*;

use crate::schedule::NS_PER_SECOND;

verus! {

/// The time of a clock that counts ticks, of which `timebase.1` take `timebase.0` nanoseconds
/// (modulo `2^64`). Without a usable timebase a tick counts as a nanosecond.
pub open spec fn time_of_ticks(ticks: u64, timebase: Option<(u32, u32)>) -> int {
    match timebase {
        Some(base) => if base.1 == 0 {
            ticks as int
        } else {
            (ticks * base.0 / base.1 as int) % 0x1_0000_0000_0000_0000
        },
        None => ticks as int,
    }
}

/// The time of a clock that counts ticks.
pub fn ns_of_ticks(ticks: u64, timebase: Option<(u32, u32)>) -> (ns: u64)
    ensures
        ns == time_of_ticks(ticks, timebase),
{
    match timebase {
        Some((numer, denom)) => {
            if denom == 0 {
                return ticks;
            }
            assert(ticks as u128 * numer as u128 <= u64::MAX * u32::MAX) by (nonlinear_arith)
                requires
                    ticks <= u64::MAX,
                    numer <= u32::MAX,
            ;
            let exact: u128 = ticks as u128 * numer as u128 / denom as u128;
            assert(exact as u64 as u128 == exact % 0x1_0000_0000_0000_0000u128) by (bit_vector);
            exact as u64
        },
        None => ticks,
    }
}

/// The time of a clock that counts seconds and nanoseconds.
pub fn ns_of_seconds(seconds: u64, nanoseconds: u64) -> (ns: u64)
    requires
        seconds * NS_PER_SECOND + nanoseconds <= u64::MAX,
    ensures
        ns == seconds * NS_PER_SECOND + nanoseconds,
{
    seconds * NS_PER_SECOND + nanoseconds
}

/// The time of a clock with a usable timebase is its ticks in nanoseconds, rounded down, as long as
/// that fits; without one it is the ticks themselves.
pub proof fn law_ticks_take_their_time(ticks: u64, numer: u32, denom: u32)
    ensures
        time_of_ticks(ticks, None) == ticks,
        time_of_ticks(ticks, Some((numer, 0))) == ticks,
        denom > 0 && ticks * numer < denom * 0x1_0000_0000_0000_0000 ==> {
            let ns = time_of_ticks(ticks, Some((numer, denom)));
            &&& ns * denom <= ticks * numer
            &&& ticks * numer < (ns + 1) * denom
        },
{
    if denom > 0 && ticks * numer < denom * 0x1_0000_0000_0000_0000 {
        let x = ticks * numer;
        let d = denom as int;
        assert(0 <= x) by (nonlinear_arith)
            requires
                x == ticks * numer,
        ;
        assert(0 <= x / d < 0x1_0000_0000_0000_0000) by (nonlinear_arith)
            requires
                d > 0,
                0 <= x < d * 0x1_0000_0000_0000_0000,
        ;
        assert(x / d * d <= x < (x / d + 1) * d) by (nonlinear_arith)
            requires
                d > 0,
        ;
    }
}

} // verus!
