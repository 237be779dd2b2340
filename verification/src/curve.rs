//! The fan curve: from the temperatures of the sensors of interest to a duty
//! cycle.

use crate::sensors::{cpu_zone_name, gpu_zone_name, reading, SystemInfo};
use crate::text::saturated;
use vstd::prelude::*;

verus! {

/// Temperature, in thousandths of a degree Celsius, at or below which the fan
/// is switched off.
pub const FAN_OFF_TEMP: i64 = 35000;

/// Temperature, in thousandths of a degree Celsius, at or above which the fan
/// runs at full speed.
pub const FAN_MAX_TEMP: i64 = 50000;

/// The hotter of two optional readings: a reading that is absent never wins
/// over one that is present.
pub open spec fn hottest(first: Option<i64>, second: Option<i64>) -> Option<i64> {
    match (first, second) {
        (Some(a), Some(b)) => Some(if a >= b { a } else { b }),
        (Some(a), None) => Some(a),
        (None, Some(b)) => Some(b),
        (None, None) => None,
    }
}

/// The point of the line through `(off, 0)` and `(max, 255)` at `temp`,
/// rounded down to a whole number.
pub open spec fn linear_duty(temp: int, off: int, max: int) -> int
    recommends
        off < max,
{
    255 * (temp - off) / (max - off)
}

/// The duty cycle for `temp` on the curve that is off at `off` and at full
/// speed at `max`: the line's value, held within a byte's range.
pub open spec fn duty_cycle(temp: int, off: int, max: int) -> int
    recommends
        off < max,
{
    let raw = linear_duty(temp, off, max);
    if raw < 0 {
        0
    } else if raw > 255 {
        255
    } else {
        raw
    }
}

/// At or below the lower threshold the fan is off.
pub proof fn lemma_duty_off(temp: int, off: int, max: int)
    requires
        off < max,
        temp <= off,
    ensures
        duty_cycle(temp, off, max) == 0,
{
    let width = max - off;
    let num = 255 * (temp - off);
    assert(num <= 0) by (nonlinear_arith)
        requires
            num == 255 * (temp - off),
            temp <= off,
    ;
    assert(num / width <= 0) by (nonlinear_arith)
        requires
            num <= 0,
            width > 0,
    ;
}

/// At or above the upper threshold the fan runs at full speed.
pub proof fn lemma_duty_full(temp: int, off: int, max: int)
    requires
        off < max,
        temp >= max,
    ensures
        duty_cycle(temp, off, max) == 255,
{
    let width = max - off;
    let num = 255 * (temp - off);
    assert(num >= 255 * width) by (nonlinear_arith)
        requires
            num == 255 * (temp - off),
            width == max - off,
            temp >= max,
    ;
    assert(num / width >= 255) by (nonlinear_arith)
        requires
            num >= 255 * width,
            width > 0,
    ;
}

/// The curve never falls: a hotter reading never gives a lower duty cycle.
pub proof fn lemma_duty_monotonic(cooler: int, hotter: int, off: int, max: int)
    requires
        off < max,
        cooler <= hotter,
    ensures
        duty_cycle(cooler, off, max) <= duty_cycle(hotter, off, max),
{
    let width = max - off;
    let low = 255 * (cooler - off);
    let high = 255 * (hotter - off);
    assert(low <= high) by (nonlinear_arith)
        requires
            low == 255 * (cooler - off),
            high == 255 * (hotter - off),
            cooler <= hotter,
    ;
    assert(low / width <= high / width) by (nonlinear_arith)
        requires
            low <= high,
            width > 0,
    ;
}

/// From one threshold to the other the duty cycle is the line's value
/// rounded down: the number of whole 255ths of the way from `off` to `max`
/// that `temp` has covered.
pub proof fn lemma_duty_linear(temp: int, off: int, max: int)
    requires
        off < max,
        off <= temp <= max,
    ensures
        duty_cycle(temp, off, max) == linear_duty(temp, off, max),
        duty_cycle(temp, off, max) * (max - off) <= 255 * (temp - off),
        255 * (temp - off) < (duty_cycle(temp, off, max) + 1) * (max - off),
{
    let width = max - off;
    let num = 255 * (temp - off);
    assert(0 <= num <= 255 * width) by (nonlinear_arith)
        requires
            num == 255 * (temp - off),
            width == max - off,
            off <= temp <= max,
    ;
    assert(0 <= num / width <= 255 && (num / width) * width <= num < (num / width + 1) * width)
        by (nonlinear_arith)
        requires
            0 <= num <= 255 * width,
            width > 0,
    ;
}

/// Strictly between the thresholds, two readings that lie a full step of
/// the curve apart give different duty cycles, the hotter one the higher.
pub proof fn lemma_duty_strictly_increasing(cooler: int, hotter: int, off: int, max: int)
    requires
        off < cooler < hotter < max,
        255 * (hotter - cooler) >= max - off,
    ensures
        duty_cycle(cooler, off, max) < duty_cycle(hotter, off, max),
{
    lemma_duty_linear(cooler, off, max);
    lemma_duty_linear(hotter, off, max);
    let width = max - off;
    let low = duty_cycle(cooler, off, max);
    let high = duty_cycle(hotter, off, max);
    assert(low < high) by (nonlinear_arith)
        requires
            width > 0,
            low * width <= 255 * (cooler - off),
            255 * (hotter - off) < (high + 1) * width,
            255 * (cooler - off) < (low + 1) * width,
            high * width <= 255 * (hotter - off),
            255 * (hotter - cooler) >= width,
    ;
}

/// The duty cycle for the temperature `num / den`, which need not be a
/// whole number: the line's value at that temperature, rounded down and
/// held within a byte's range.
pub open spec fn duty_cycle_of_ratio(num: int, den: int, off: int, max: int) -> int
    recommends
        den > 0,
        off < max,
{
    let raw = (255 * (num - off * den)) / ((max - off) * den);
    if raw < 0 {
        0
    } else if raw > 255 {
        255
    } else {
        raw
    }
}

/// A whole temperature written as a ratio has the duty cycle of the whole
/// temperature.
pub proof fn lemma_duty_of_whole_ratio(temp: int, den: int, off: int, max: int)
    requires
        den > 0,
        off < max,
    ensures
        duty_cycle_of_ratio(temp * den, den, off, max) == duty_cycle(temp, off, max),
{
    let width = max - off;
    let above = 255 * (temp - off);
    let quotient = above / width;
    let rest = above % width;
    vstd::arithmetic::div_mod::lemma_fundamental_div_mod(above, width);
    vstd::arithmetic::div_mod::lemma_mod_bound(above, width);
    assert(255 * (temp * den - off * den) == quotient * (width * den) + rest * den
        && 0 <= rest * den < width * den) by (nonlinear_arith)
        requires
            above == 255 * (temp - off),
            above == width * quotient + rest,
            0 <= rest < width,
            den > 0,
    ;
    vstd::arithmetic::div_mod::lemma_fundamental_div_mod_converse(
        255 * (temp * den - off * den),
        width * den,
        quotient,
        rest * den,
    );
}

/// The curve never falls on temperatures that are not whole either.
pub proof fn lemma_duty_of_ratio_monotonic(cooler: int, hotter: int, den: int, off: int, max: int)
    requires
        den > 0,
        off < max,
        cooler <= hotter,
    ensures
        duty_cycle_of_ratio(cooler, den, off, max) <= duty_cycle_of_ratio(hotter, den, off, max),
{
    let scale = (max - off) * den;
    let low = 255 * (cooler - off * den);
    let high = 255 * (hotter - off * den);
    assert(scale > 0) by (nonlinear_arith)
        requires
            scale == (max - off) * den,
            max - off > 0,
            den > 0,
    ;
    assert(low / scale <= high / scale) by (nonlinear_arith)
        requires
            low <= high,
            scale > 0,
    ;
}

/// What dropping the fraction of a temperature costs. Where `held` is the
/// whole part of the temperature `num / den`, the fraction dropped towards
/// zero, the duty cycle of `held` is that of the temperature itself or that
/// of a temperature less than one unit from it: it lies between the duty
/// cycles of `held` and of its whole neighbour on the temperature's side.
pub proof fn lemma_duty_of_dropped_fraction(held: int, num: int, den: int, off: int, max: int)
    requires
        den > 0,
        off < max,
        num >= 0 ==> held * den <= num < (held + 1) * den,
        num < 0 ==> (held - 1) * den < num <= held * den,
    ensures
        num >= 0 ==> duty_cycle(held, off, max) <= duty_cycle_of_ratio(num, den, off, max)
            <= duty_cycle(held + 1, off, max),
        num < 0 ==> duty_cycle(held - 1, off, max) <= duty_cycle_of_ratio(num, den, off, max)
            <= duty_cycle(held, off, max),
        num == held * den ==> duty_cycle_of_ratio(num, den, off, max) == duty_cycle(
            held,
            off,
            max,
        ),
{
    lemma_duty_of_whole_ratio(held, den, off, max);
    lemma_duty_of_whole_ratio(held + 1, den, off, max);
    lemma_duty_of_whole_ratio(held - 1, den, off, max);
    if num >= 0 {
        lemma_duty_of_ratio_monotonic(held * den, num, den, off, max);
        lemma_duty_of_ratio_monotonic(num, (held + 1) * den, den, off, max);
    } else {
        lemma_duty_of_ratio_monotonic((held - 1) * den, num, den, off, max);
        lemma_duty_of_ratio_monotonic(num, held * den, den, off, max);
    }
}

/// A reading that was held to the range of `i64` gives the duty cycle of
/// the value it stands for, on every curve whose thresholds are in that
/// range.
pub proof fn lemma_duty_of_saturated(value: int, off: i64, max: i64)
    requires
        off < max,
    ensures
        duty_cycle(saturated(value) as int, off as int, max as int) == duty_cycle(
            value,
            off as int,
            max as int,
        ),
{
    if value > i64::MAX {
        lemma_duty_full(value, off as int, max as int);
        lemma_duty_full(i64::MAX as int, off as int, max as int);
    } else if value < i64::MIN {
        lemma_duty_off(value, off as int, max as int);
        lemma_duty_off(i64::MIN as int, off as int, max as int);
    }
}

/// The duty cycle for `temp` on the curve that is off at `off` and at full
/// speed at `max`, all three in the same unit.
pub fn duty_for(temp: i64, off: i64, max: i64) -> (r: u8)
    requires
        off < max,
    ensures
        r == duty_cycle(temp as int, off as int, max as int),
        temp <= off ==> r == 0,
        temp >= max ==> r == 255,
{
    if temp <= off {
        proof {
            lemma_duty_off(temp as int, off as int, max as int);
        }
        0
    } else if temp >= max {
        proof {
            lemma_duty_full(temp as int, off as int, max as int);
        }
        255
    } else {
        let width: i128 = max as i128 - off as i128;
        let above: i128 = temp as i128 - off as i128;
        proof {
            lemma_duty_linear(temp as int, off as int, max as int);
        }
        let scaled: i128 = 255 * above;
        let raw: i128 = scaled / width;
        raw as u8
    }
}

/// The decision for a combined reading on the standard curve: none where
/// there is no reading.
pub open spec fn decision(combined: Option<i64>) -> Option<u8> {
    match combined {
        Some(temp) => Some(duty_cycle(temp as int, FAN_OFF_TEMP as int, FAN_MAX_TEMP as int) as u8),
        None => None,
    }
}

/// The duty cycle for a combined reading on the standard curve, or no
/// decision where there is no reading.
pub fn evaluate(combined: Option<i64>) -> (r: Option<u8>)
    ensures
        r == decision(combined),
        combined is None <==> r is None,
{
    match combined {
        Some(temp) => Some(duty_for(temp, FAN_OFF_TEMP, FAN_MAX_TEMP)),
        None => None,
    }
}

/// The readings of record of one cycle: those of the sensors of interest.
#[derive(Clone, Copy, Debug, PartialEq, Eq, Structural)]
pub struct PwmCalculator {
    /// The processor's temperature, if it was obtained.
    pub cpu_temp: Option<i64>,
    /// The graphics processor's temperature, if it was obtained.
    pub gpu_temp: Option<i64>,
}

impl PwmCalculator {
    /// The duty cycle that these readings call for.
    pub open spec fn pwm(self) -> Option<u8> {
        decision(hottest(self.cpu_temp, self.gpu_temp))
    }

    /// The readings of record of a snapshot.
    pub fn from_snapshot(info: &SystemInfo) -> (r: PwmCalculator)
        ensures
            r.cpu_temp == reading(info@.zones, cpu_zone_name()),
            r.gpu_temp == reading(info@.zones, gpu_zone_name()),
    {
        PwmCalculator { cpu_temp: info.get_cpu_temp(), gpu_temp: info.get_gpu_temp() }
    }

    /// The hotter of two optional readings; the one that is present where
    /// only one is; none where neither is.
    pub fn max(o1: Option<i64>, o2: Option<i64>) -> (r: Option<i64>)
        ensures
            r == hottest(o1, o2),
    {
        match (o1, o2) {
            (Some(f1), Some(f2)) => Some(if f1 >= f2 { f1 } else { f2 }),
            (Some(f1), _) => Some(f1),
            (_, Some(f2)) => Some(f2),
            _ => None,
        }
    }

    /// The duty cycle for the hottest of the readings of record, or no
    /// decision where no sensor of interest gave a reading.
    pub fn get_pwm(&self) -> (r: Option<u8>)
        ensures
            r == self.pwm(),
            r is None <==> self.cpu_temp is None && self.gpu_temp is None,
    {
        evaluate(PwmCalculator::max(self.cpu_temp, self.gpu_temp))
    }
}

} // verus!
