use crate::merge::MergedData;
use vstd::prelude::*;

verus! {

/// Per-feature weights of the distance. Each defaults to 1.
#[derive(Clone, Copy, Debug, PartialEq, Eq, Structural)]
pub struct DistanceWeights {
    pub hour: u32,
    pub day: u32,
    pub month: u32,
    pub week_day: u32,
    pub holidays: u32,
    pub temperature: u32,
    pub precipitation: u32,
    pub wind_speed: u32,
}

impl DistanceWeights {
    /// Every weight 1.
    pub fn uniform() -> (r: DistanceWeights)
        ensures
            r == unit_weights(),
    {
        DistanceWeights {
            hour: 1,
            day: 1,
            month: 1,
            week_day: 1,
            holidays: 1,
            temperature: 1,
            precipitation: 1,
            wind_speed: 1,
        }
    }
}

/// The default weights: every feature weighs 1.
pub open spec fn unit_weights() -> DistanceWeights {
    DistanceWeights {
        hour: 1,
        day: 1,
        month: 1,
        week_day: 1,
        holidays: 1,
        temperature: 1,
        precipitation: 1,
        wind_speed: 1,
    }
}

impl Default for DistanceWeights {
    fn default() -> (r: DistanceWeights)
        ensures
            r == unit_weights(),
    {
        DistanceWeights::uniform()
    }
}

/// The distance is computed exactly, scaled by SCALE = 1_764_000_000, the
/// least common multiple of the squared normalisation divisors (24², 7², 12²,
/// 1², and 400², 1000², 1000² for the weather values, which are in tenths).
/// Each factor below is SCALE divided by one squared divisor.
pub const SCALE: u64 = 1_764_000_000;

pub const HOUR_FACTOR: u64 = 3_062_500;

pub const DAY_FACTOR: u64 = 36_000_000;

pub const MONTH_FACTOR: u64 = 12_250_000;

pub const WEEK_DAY_FACTOR: u64 = 36_000_000;

pub const HOLIDAYS_FACTOR: u64 = 1_764_000_000;

pub const TEMPERATURE_FACTOR: u64 = 11_025;

pub const PRECIPITATION_FACTOR: u64 = 1_764;

pub const WIND_SPEED_FACTOR: u64 = 1_764;

/// The square of `x`.
pub open spec fn sq(x: int) -> int {
    x * x
}

/// A flag coded 0/1.
pub open spec fn flag(b: bool) -> int {
    if b {
        1
    } else {
        0
    }
}

/// SCALE times the squared weighted distance between `a` and `b`:
///
///   w_hour·((Δhour)/24)² + w_day·((Δday)/7)² + w_month·((Δmonth)/12)²
///   + w_week_day·((Δweek_day)/7)² + w_holidays·(Δholidays)²
///   + w_temperature·((Δtemperature)/40 °C)² + w_precipitation·((Δprecipitation)/100 mm)²
///   + w_wind_speed·((Δwind_speed)/100 km/h)².
///
/// Day differences are raw, not taken modulo the month length. The number of
/// stands and of bikes is not a feature.
pub open spec fn distance_spec(a: MergedData, b: MergedData, w: DistanceWeights) -> int {
    w.hour * sq(a.hour - b.hour) * HOUR_FACTOR + w.day * sq(a.day - b.day) * DAY_FACTOR + w.month
        * sq(a.month - b.month) * MONTH_FACTOR + w.week_day * sq(a.week_day - b.week_day)
        * WEEK_DAY_FACTOR + w.holidays * sq(flag(a.holidays) - flag(b.holidays)) * HOLIDAYS_FACTOR
        + w.temperature * sq(a.temperature - b.temperature) * TEMPERATURE_FACTOR + w.precipitation
        * sq(a.precipitation - b.precipitation) * PRECIPITATION_FACTOR + w.wind_speed * sq(
        a.wind_speed - b.wind_speed,
    ) * WIND_SPEED_FACTOR
}

/// The distance between a vector and itself is zero.
pub proof fn lemma_distance_self(v: MergedData, w: DistanceWeights)
    ensures
        distance_spec(v, v, w) == 0,
{
    assert(sq(0) == 0);
    assert forall|x: int, f: int| #[trigger] (x * 0 * f) == 0 by {
        assert(x * 0 == 0);
    }
}

/// The distance is never negative, and does not depend on the order of its
/// arguments.
pub proof fn lemma_distance_nonneg_symmetric(a: MergedData, b: MergedData, w: DistanceWeights)
    ensures
        distance_spec(a, b, w) >= 0,
        distance_spec(a, b, w) == distance_spec(b, a, w),
{
    assert(forall|x: int, y: int| #![trigger sq(x - y)] sq(x - y) == sq(y - x) && sq(x - y) >= 0)
        by {
        assert forall|x: int, y: int| #![trigger sq(x - y)] sq(x - y) == sq(y - x) && sq(x - y)
            >= 0 by {
            assert((x - y) * (x - y) == (y - x) * (y - x)) by (nonlinear_arith);
            assert((x - y) * (x - y) >= 0) by (nonlinear_arith);
        }
    }
    assert forall|w: int, s: int, f: int| w >= 0 && s >= 0 && f >= 0 implies #[trigger] (w * s
        * f) >= 0 by {
        assert(w * s >= 0) by (nonlinear_arith)
            requires
                w >= 0,
                s >= 0,
        ;
        assert((w * s) * f >= 0) by (nonlinear_arith)
            requires
                w * s >= 0,
                f >= 0,
        ;
    }
}

/// 2⁹⁶ − 1: a bound on weight · d² for 32-bit weights and differences.
const MAX_TERM: u128 = 0xffff_ffff_ffff_ffff_ffff_ffff;

/// weight · d² · factor, for d < 2³².
fn weighted_square(weight: u32, d: u64, factor: u64) -> (r: u128)
    requires
        d <= u32::MAX,
        factor <= SCALE,
    ensures
        r == weight * (d * d) * factor,
        r <= MAX_TERM * factor,
{
    assert(d * d <= 0xffff_ffff_ffff_ffff) by (nonlinear_arith)
        requires
            d <= u32::MAX,
    ;
    let dd: u128 = d as u128 * d as u128;
    assert(weight * dd <= MAX_TERM) by (nonlinear_arith)
        requires
            weight <= u32::MAX,
            dd <= 0xffff_ffff_ffff_ffff,
    ;
    let wd: u128 = weight as u128 * dd;
    assert(wd * factor <= MAX_TERM * factor) by (nonlinear_arith)
        requires
            wd <= MAX_TERM,
            factor >= 0,
    ;
    assert(MAX_TERM * factor <= MAX_TERM * SCALE) by (nonlinear_arith)
        requires
            factor <= SCALE,
    ;
    wd * factor as u128
}

fn diff_u32(a: u32, b: u32) -> (r: u64)
    ensures
        r * r == sq(a - b),
        r <= u32::MAX,
{
    let r = if a >= b {
        (a - b) as u64
    } else {
        (b - a) as u64
    };
    assert(r * r == (a - b) * (a - b)) by (nonlinear_arith)
        requires
            r == a - b || r == b - a,
    ;
    r
}

fn diff_i32(a: i32, b: i32) -> (r: u64)
    ensures
        r * r == sq(a - b),
        r <= u32::MAX,
{
    let r = if a >= b {
        (a as i64 - b as i64) as u64
    } else {
        (b as i64 - a as i64) as u64
    };
    assert(r * r == (a - b) * (a - b)) by (nonlinear_arith)
        requires
            r == a - b || r == b - a,
    ;
    r
}

/// SCALE times the squared weighted distance between `a` and `b`; an exact
/// integer, so that comparing two distances is exact.
pub fn distance(a: &MergedData, b: &MergedData, weights: &DistanceWeights) -> (r: u128)
    ensures
        r == distance_spec(*a, *b, *weights),
{
    let holiday_diff: u64 = if a.holidays == b.holidays {
        0
    } else {
        1
    };
    let t1 = weighted_square(weights.hour, diff_u32(a.hour, b.hour), HOUR_FACTOR);
    let t2 = weighted_square(weights.day, diff_u32(a.day, b.day), DAY_FACTOR);
    let t3 = weighted_square(weights.month, diff_u32(a.month, b.month), MONTH_FACTOR);
    let t4 = weighted_square(weights.week_day, diff_u32(a.week_day, b.week_day), WEEK_DAY_FACTOR);
    let t5 = weighted_square(weights.holidays, holiday_diff, HOLIDAYS_FACTOR);
    let t6 = weighted_square(
        weights.temperature,
        diff_i32(a.temperature, b.temperature),
        TEMPERATURE_FACTOR,
    );
    let t7 = weighted_square(
        weights.precipitation,
        diff_i32(a.precipitation, b.precipitation),
        PRECIPITATION_FACTOR,
    );
    let t8 = weighted_square(
        weights.wind_speed,
        diff_i32(a.wind_speed, b.wind_speed),
        WIND_SPEED_FACTOR,
    );
    assert(holiday_diff * holiday_diff == sq(flag(a.holidays) - flag(b.holidays))) by {
        if a.holidays == b.holidays {
            assert(sq(0) == 0);
        } else {
            assert(sq(1) == 1 && sq(-1) == 1);
        }
    }
    t1 + t2 + t3 + t4 + t5 + t6 + t7 + t8
}

} // verus!
