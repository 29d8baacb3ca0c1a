//! Unix-time unit conversions, timeframe flooring, and the fixed-interval
//! scheduler arithmetic of the periodic flush task.

use vstd::prelude::*;

use crate::arith::div_trunc;
use crate::float_exp::i64_fits;
use crate::kline::floor_ms;

verus! {

#[derive(Clone, Copy, Debug, PartialEq, Eq, Structural)]
pub enum UnixTimeUnit {
    Second,
    MilliSecond,
    MicroSecond,
    NanoSecond,
}

impl UnixTimeUnit {
    /// A timestamp in this unit converted to milliseconds; conversions from
    /// finer units truncate toward zero.
    pub fn to_ms(&self, time: i64) -> (r: i64)
        requires
            *self == UnixTimeUnit::Second ==> i64_fits(time * 1000),
        ensures
            r == (match *self {
                UnixTimeUnit::Second => time * 1000,
                UnixTimeUnit::MilliSecond => time as int,
                UnixTimeUnit::MicroSecond => div_trunc(time as int, 1000),
                UnixTimeUnit::NanoSecond => div_trunc(div_trunc(time as int, 1000), 1000),
            }),
    {
        match self {
            UnixTimeUnit::Second => {
                let prod: i128 = (time as i128) * 1000;
                prod as i64
            },
            UnixTimeUnit::MilliSecond => time,
            UnixTimeUnit::MicroSecond => div_by_1000(time),
            UnixTimeUnit::NanoSecond => div_by_1000(div_by_1000(time)),
        }
    }

    /// A timestamp in this unit converted to nanoseconds.
    pub fn to_ns(&self, time: i64) -> (r: i64)
        requires
            *self == UnixTimeUnit::Second ==> i64_fits(time * 1000 * 1000 * 1000),
            *self == UnixTimeUnit::MilliSecond ==> i64_fits(time * 1000 * 1000),
            *self == UnixTimeUnit::MicroSecond ==> i64_fits(time * 1000),
        ensures
            r == (match *self {
                UnixTimeUnit::Second => time * 1000 * 1000 * 1000,
                UnixTimeUnit::MilliSecond => time * 1000 * 1000,
                UnixTimeUnit::MicroSecond => time * 1000,
                UnixTimeUnit::NanoSecond => time as int,
            }),
    {
        match self {
            UnixTimeUnit::Second => {
                let prod: i128 = (time as i128) * 1000 * 1000 * 1000;
                prod as i64
            },
            UnixTimeUnit::MilliSecond => {
                let prod: i128 = (time as i128) * 1000 * 1000;
                prod as i64
            },
            UnixTimeUnit::MicroSecond => {
                let prod: i128 = (time as i128) * 1000;
                prod as i64
            },
            UnixTimeUnit::NanoSecond => time,
        }
    }
}

/// Division by 1000, truncating toward zero (machine `/` semantics).
fn div_by_1000(time: i64) -> (r: i64)
    ensures
        r == div_trunc(time as int, 1000),
{
    let neg = time < 0;
    let mag: u64 = if neg {
        (-(time as i128)) as u64
    } else {
        time as u64
    };
    let q: u64 = mag / 1000;
    proof {
        vstd::arithmetic::div_mod::lemma_div_nonincreasing(mag as int, 1000);
        vstd::arithmetic::div_mod::lemma_div_pos_is_pos(mag as int, 1000);
    }
    if neg {
        (-(q as i128)) as i64
    } else {
        q as i64
    }
}

/// A periodic schedule: every `q` seconds, at remainder `r` within the
/// interval.
#[derive(Clone, Copy, Debug, PartialEq, Eq, Structural)]
pub struct ScheduleExpr {
    pub q: i64,
    pub r: i64,
}

impl ScheduleExpr {
    pub fn new(interval_sec: i64, rem_sec: i64) -> (s: ScheduleExpr)
        ensures
            s.q == interval_sec,
            s.r == rem_sec,
    {
        ScheduleExpr { q: interval_sec, r: rem_sec }
    }

    /// A schedule that fires `ahead` seconds before each interval boundary.
    pub fn new_ahead(interval_sec: i64, ahead_sec: i64) -> (s: ScheduleExpr)
        requires
            ahead_sec < interval_sec,
            i64_fits(interval_sec - ahead_sec),
        ensures
            s.q == interval_sec,
            s.r == interval_sec - ahead_sec,
    {
        ScheduleExpr { q: interval_sec, r: interval_sec - ahead_sec }
    }
}

/// The next firing time of a schedule, strictly after `curr_ms`.
pub open spec fn next_sleep_spec(curr_ms: int, q: int, r: int) -> int {
    let cs = curr_ms / 1000;
    let ns0 = (cs / q) * q + r;
    let ns = if ns0 <= cs {
        ns0 + q
    } else {
        ns0
    };
    ns * 1000 - curr_ms
}

/// Milliseconds to sleep until the schedule next fires: the current second
/// is floored to the interval grid, the remainder added, and a result not
/// in the future pushed one interval forward. Always positive.
pub fn next_sleep_duration_ms(curr_ms: i64, schedule: ScheduleExpr) -> (r: i64)
    requires
        0 <= curr_ms <= 4_000_000_000_000_000,
        1 <= schedule.q <= 4_000_000_000_000,
        0 <= schedule.r <= schedule.q,
    ensures
        r == next_sleep_spec(curr_ms as int, schedule.q as int, schedule.r as int),
        r >= 1,
{
    let cs: u64 = (curr_ms as u64) / 1000;
    let q: u64 = schedule.q as u64;
    proof {
        vstd::arithmetic::div_mod::lemma_fundamental_div_mod(cs as int, q as int);
        vstd::arithmetic::div_mod::lemma_mod_division_less_than_divisor(cs as int, q as int);
        vstd::arithmetic::div_mod::lemma_div_pos_is_pos(cs as int, q as int);
        vstd::arithmetic::mul::lemma_mul_is_commutative((cs as int) / (q as int), q as int);
        assert(((cs as int) / (q as int)) * (q as int) == cs - (cs as int) % (q as int));
        vstd::arithmetic::div_mod::lemma_fundamental_div_mod(curr_ms as int, 1000);
        vstd::arithmetic::div_mod::lemma_mod_division_less_than_divisor(curr_ms as int, 1000);
        vstd::arithmetic::div_mod::lemma_div_pos_is_pos(curr_ms as int, 1000);
    }
    let ns0: u64 = (cs / q) * q + (schedule.r as u64);
    let ns: u64 = if ns0 <= cs {
        ns0 + q
    } else {
        ns0
    };
    let sleep: u64 = ns * 1000 - (curr_ms as u64);
    sleep as i64
}

/// The opentime of the timeframe bucket holding `unix_sec`, shifted by
/// `unit_delta` whole buckets.
pub fn floor_time_sec(unix_sec: i64, timeframe_sec: i64, unit_delta: i64) -> (r: i64)
    requires
        0 <= unix_sec,
        1 <= timeframe_sec,
        i64_fits(unit_delta * timeframe_sec),
        i64_fits(floor_ms(unix_sec as int, timeframe_sec as int) + unit_delta * timeframe_sec),
    ensures
        r == floor_ms(unix_sec as int, timeframe_sec as int) + unit_delta * timeframe_sec,
{
    proof {
        let ts = unix_sec as int;
        let tf = timeframe_sec as int;
        vstd::arithmetic::div_mod::lemma_fundamental_div_mod(ts, tf);
        vstd::arithmetic::div_mod::lemma_mod_division_less_than_divisor(ts, tf);
        vstd::arithmetic::div_mod::lemma_div_pos_is_pos(ts, tf);
        vstd::arithmetic::mul::lemma_mul_is_commutative(ts / tf, tf);
        assert((ts / tf) * tf == ts - ts % tf);
    }
    let fl: u64 = ((unix_sec as u64) / (timeframe_sec as u64)) * (timeframe_sec as u64);
    let base: i64 = fl as i64;
    let delta: i128 = (unit_delta as i128) * (timeframe_sec as i128);
    ((base as i128) + delta) as i64
}

} // verus!
