//! The frame rate of a track, as the settings ask for it.
use vstd::arithmetic::power::{lemma_pow_adds, lemma_pow_positive, pow};
use vstd::prelude::*;

use crate::config::FpsMode;
use crate::decimal::{are_digits, digits_of, doubled, exceeds, number_of};
use crate::fraction::{
    common_factors_cancel, exact_quotients_stay, held, large_quotients_are_not_held, lowest,
    lowest_is_reduced, lowest_keeps_the_value, nearest, nearest_is_nearest, rounded_quotient,
    rounded_terms, scale, scale_of_ten, small_quotients_are_zero, tiny_quotients_are_not_held,
};
use crate::timestamp::{units_per_second, Timestamp, INFINITY_BITS, UNIT_DOUBLINGS};

verus! {

/// The frames of a track over its exact duration, in frames per second, rounded
/// to some digits behind the point: the two sides of the fraction in lowest
/// terms. Over a duration without end they come to nothing.
pub open spec fn rate_terms(frames: u64, duration: Timestamp, digits: u32) -> (int, int) {
    if duration.is_infinite() {
        (0, 1)
    } else {
        rounded_terms(frames * units_per_second(), duration.units(), digits as nat)
    }
}

/// The frames of a track over its exact duration, rounded to some digits behind
/// the point. `None` where the track has no duration, or where a side of the
/// fraction is no 32-bit number.
pub open spec fn rounded_rate_of(frames: u64, duration: Timestamp, digits: u32) -> Option<
    (i32, i32),
> {
    if duration.key > 0 {
        held(rate_terms(frames, duration, digits))
    } else {
        None
    }
}

/// A rate is the multiple of the last digit nearest to the frames over the exact
/// duration, reduced: some whole number `n` of units of the last digit is off by
/// no more than half a unit, and the fraction has the value of `n` units.
pub proof fn rounded_rate_is_nearest(frames: u64, duration: Timestamp, digits: u32)
    requires
        duration.key > 0,
        !duration.is_infinite(),
    ensures
        ({
            let (p, q) = rate_terms(frames, duration, digits);
            let ten = pow(10, digits as nat);
            let exact = frames * units_per_second() * ten;
            let n = nearest(exact, duration.units());
            &&& p >= 0
            &&& q > 0
            &&& p * ten == n * q
            &&& -duration.units() <= 2 * (exact - n * duration.units()) < duration.units()
            &&& forall|d: int| d > 0 && #[trigger] (p % d) == 0 && q % d == 0 ==> d == 1
        }),
{
    let ten = pow(10, digits as nat);
    let dividend = frames * units_per_second();
    let exact = dividend * ten;
    let units = duration.units();
    units_are_positive(duration);
    lemma_pow_positive(2, UNIT_DOUBLINGS as nat);
    scale_of_ten(digits as nat);
    assert(exact >= 0) by (nonlinear_arith)
        requires
            exact == frames * units_per_second() * ten,
            frames >= 0,
            units_per_second() > 0,
            ten > 0,
    ;
    nearest_is_nearest(exact, units);
    let n = nearest(exact, units);
    lowest_keeps_the_value(n, digits as nat, digits as nat);
    let (p, i, j) = lowest(n, digits as nat, digits as nat);
    let q = scale(i, j);
    lemma_pow_positive(2, i);
    lemma_pow_positive(5, j);
    assert(q > 0) by (nonlinear_arith)
        requires
            q == pow(2, i) * pow(5, j),
            pow(2, i) > 0,
            pow(5, j) > 0,
    ;
    assert forall|d: int| d > 0 && #[trigger] (p % d) == 0 && q % d == 0 implies d == 1 by {
        lowest_is_reduced(n, digits as nat, digits as nat, d);
    }
}

/// A rate that some digits give exactly, as a whole number of units of the last
/// of them, is the same with any more digits.
pub proof fn exact_rates_take_any_digits(
    frames: u64,
    duration: Timestamp,
    digits: u32,
    more: u32,
    number: int,
)
    requires
        duration.key > 0,
        digits <= more,
        frames * units_per_second() * pow(10, digits as nat) == number * duration.units(),
    ensures
        rounded_rate_of(frames, duration, more) == rounded_rate_of(frames, duration, digits),
{
    units_are_positive(duration);
    exact_quotients_stay(
        frames * units_per_second(),
        duration.units(),
        digits as nat,
        (more - digits) as nat,
        number,
    );
}

proof fn units_are_positive(duration: Timestamp)
    requires
        duration.key > 0,
    ensures
        duration.units() > 0,
{
    lemma_pow_positive(2, duration.doublings() as nat);
    let s = duration.significand();
    let x = pow(2, duration.doublings() as nat);
    assert(s * x > 0) by (nonlinear_arith)
        requires
            s > 0,
            x > 0,
    ;
}

/// A number that is doubled some times, unless it passes a limit.
fn doubled_within(number: u128, times: u32, limit: u128) -> (res: Option<u128>)
    requires
        limit <= 0x1_0000_0000_0000_0000_0000_0000_0000,
    ensures
        match res {
            Some(product) => product == number * pow(2, times as nat) && product <= limit,
            None => number * pow(2, times as nat) > limit,
        },
{
    let ghost whole = number * pow(2, times as nat);
    let mut product: u128 = number;
    let mut left: u32 = times;
    while left > 0
        invariant
            limit <= 0x1_0000_0000_0000_0000_0000_0000_0000,
            product * pow(2, left as nat) == whole,
            whole == number * pow(2, times as nat),
        decreases left,
    {
        let ghost power = pow(2, left as nat);
        proof {
            lemma_pow_positive(2, left as nat);
        }
        if product > limit {
            proof {
                assert(whole > limit) by (nonlinear_arith)
                    requires
                        product * power == whole,
                        power > 0,
                        product > limit,
                ;
            }
            return None;
        }
        proof {
            reveal(pow);
            let less = pow(2, (left - 1) as nat);
            assert((product * 2) * less == whole) by (nonlinear_arith)
                requires
                    product * power == whole,
                    power == 2 * less,
            ;
        }
        product = product * 2;
        left = left - 1;
    }
    proof {
        reveal(pow);
        assert(product == whole) by (nonlinear_arith)
            requires
                product * pow(2, 0) == whole,
                pow(2, 0) == 1,
        ;
    }
    if product > limit {
        None
    } else {
        Some(product)
    }
}

/// Whether a number that is doubled some times is more than another number with
/// some zeros behind it.
fn doubled_exceeds(number: u64, times: u32, other: u128, zeros: u32) -> (res: bool)
    requires
        0 < other <= 0xffff_ffff_ffff_ffff_ffff_ffff,
    ensures
        res == (other * pow(10, zeros as nat) < number * pow(2, times as nat)),
{
    let mut digits: Vec<u8> = digits_of(number);
    let mut done: u32 = 0;
    proof {
        reveal(pow);
        assert(number * pow(2, 0) == number) by (nonlinear_arith)
            requires
                pow(2, 0) == 1,
        ;
    }
    while done < times
        invariant
            done <= times,
            are_digits(digits@),
            number_of(digits@) == number * pow(2, done as nat),
        decreases times - done,
    {
        digits = doubled(&digits);
        proof {
            reveal(pow);
            let power = pow(2, done as nat);
            assert(number * (2 * power) == 2 * (number * power)) by (nonlinear_arith);
        }
        done = done + 1;
    }
    exceeds(&digits, other, zeros)
}

proof fn same_quotient(
    dividend: int,
    divisor: int,
    factor: int,
    frames: u64,
    duration: Timestamp,
    digits: u32,
)
    requires
        divisor > 0,
        factor > 0,
        dividend * factor == frames * units_per_second(),
        divisor * factor == duration.units(),
        !duration.is_infinite(),
    ensures
        rate_terms(frames, duration, digits) == rounded_terms(dividend, divisor, digits as nat),
{
    common_factors_cancel(dividend, divisor, factor, digits as nat);
}

/// The frames of a track over its exact duration, in frames per second, rounded
/// to some digits behind the point and as a fraction in lowest terms.
pub fn rounded_rate(frames: u64, duration: Timestamp, digits: u32) -> (res: Option<(i32, i32)>)
    ensures
        res == rounded_rate_of(frames, duration, digits),
{
    if duration.key <= 0 {
        return None;
    }
    if duration.key >= INFINITY_BITS as i64 {
        return Some((0, 1));
    }
    let (significand, doublings) = duration.parts();
    let ghost unit = units_per_second();
    proof {
        units_are_positive(duration);
        lemma_pow_positive(2, UNIT_DOUBLINGS as nat);
    }
    if frames == 0 {
        proof {
            assert(frames * unit == 0) by (nonlinear_arith)
                requires
                    frames == 0,
            ;
            let ten = pow(10, digits as nat);
            assert(2 * 0 * ten == 0) by (nonlinear_arith);
            small_quotients_are_zero(0, duration.units(), digits as nat);
        }
        return Some((0, 1));
    }
    if doublings <= UNIT_DOUBLINGS {
        let times: u32 = UNIT_DOUBLINGS - doublings;
        let ghost dividend = frames * pow(2, times as nat);
        let ghost factor = pow(2, doublings as nat);
        proof {
            lemma_pow_positive(2, doublings as nat);
            lemma_pow_adds(2, times as nat, doublings as nat);
            let a = pow(2, times as nat);
            assert((frames * a) * factor == frames * (a * factor)) by (nonlinear_arith);
            same_quotient(dividend, significand as int, factor, frames, duration, digits);
        }
        match doubled_within(frames as u128, times, significand as u128 * 0x1_0000_0000) {
            Some(dividend) => rounded_quotient(dividend, significand as u128, digits),
            None => {
                proof {
                    large_quotients_are_not_held(dividend, significand as int, digits as nat);
                }
                None
            },
        }
    } else {
        let times: u32 = doublings - UNIT_DOUBLINGS;
        let ghost divisor = significand * pow(2, times as nat);
        proof {
            lemma_pow_adds(2, times as nat, UNIT_DOUBLINGS as nat);
            lemma_pow_positive(2, times as nat);
            let a = pow(2, times as nat);
            assert((significand * a) * unit == significand * (a * unit)) by (nonlinear_arith);
            assert(divisor > 0) by (nonlinear_arith)
                requires
                    divisor == significand * a,
                    significand > 0,
                    a > 0,
            ;
            same_quotient(frames as int, divisor, unit, frames, duration, digits);
        }
        match doubled_within(significand as u128, times, frames as u128 * 0x2_0000_0000) {
            Some(divisor) => rounded_quotient(frames as u128, divisor, digits),
            None => {
                if doubled_exceeds(significand, times, 2 * frames as u128, digits) {
                    proof {
                        small_quotients_are_zero(frames as int, divisor, digits as nat);
                    }
                    Some((0, 1))
                } else {
                    proof {
                        tiny_quotients_are_not_held(frames as int, divisor, digits as nat);
                    }
                    None
                }
            },
        }
    }
}

/// The rate that a mode takes: that of the stream as it is, or a rounded one.
pub fn chosen_rate(mode: FpsMode, stream_rate: (i32, i32), rounded: (i32, i32)) -> (res: (i32, i32))
    ensures
        mode is Metadata ==> res == stream_rate,
        mode is Real ==> res == rounded,
{
    match mode {
        FpsMode::Metadata => stream_rate,
        FpsMode::Real => rounded,
    }
}

/// The rate of a track: in the mode `Metadata` that which its stream states,
/// whatever the digits; in the mode `Real` its frames over its exact duration,
/// rounded to the digits.
pub fn track_rate_of(
    mode: FpsMode,
    digits: u32,
    stream_rate: (i32, i32),
    frames: u64,
    duration: Timestamp,
) -> (res: Option<(i32, i32)>)
    ensures
        mode is Metadata ==> res == Some(stream_rate),
        mode is Real ==> res == rounded_rate_of(frames, duration, digits),
{
    match mode {
        FpsMode::Metadata => Some(chosen_rate(mode, stream_rate, stream_rate)),
        FpsMode::Real => match rounded_rate(frames, duration, digits) {
            Some(rounded) => Some(chosen_rate(mode, stream_rate, rounded)),
            None => None,
        },
    }
}

/// A track has a rate exactly where it has a duration and both sides of the
/// fraction are 32-bit numbers; the rate then is that fraction. Over a duration
/// without end it is nothing.
pub proof fn track_with_a_duration_has_a_rate(frames: u64, duration: Timestamp, digits: u32)
    ensures
        ({
            let terms = rate_terms(frames, duration, digits);
            let rate = rounded_rate_of(frames, duration, digits);
            &&& rate is Some <==> duration.key > 0 && terms.0 <= i32::MAX && terms.1 <= i32::MAX
            &&& rate matches Some((p, q)) ==> p == terms.0 && q == terms.1
            &&& duration.is_infinite() ==> rate == Some((0i32, 1i32))
        }),
{
    if duration.key > 0 && !duration.is_infinite() {
        rounded_rate_is_nearest(frames, duration, digits);
    }
}

} // verus!
