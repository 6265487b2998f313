use vstd::prelude::*;
use vstd::arithmetic::div_mod::{
    lemma_basic_div,
    lemma_div_is_ordered,
    lemma_div_multiples_vanish_quotient,
    lemma_fundamental_div_mod,
    lemma_fundamental_div_mod_converse_div,
};

verus! {

/// The darkest luminance: colour gains scaled down to nothing.
pub const LUMINANCE_MIN: i8 = -100;

/// The brightest luminance: full backlight.
pub const LUMINANCE_MAX: i8 = 100;

/// By how much one step changes the luminance.
pub const LUMINANCE_STEP: i8 = 5;

/// Luminance is a percentage with a sign. From 0 up it is the strength of
/// the backlight. Below 0 the backlight is off and the number says by how
/// much the colour gains are scaled down.
pub open spec fn valid_luminance(luminance: int) -> bool {
    LUMINANCE_MIN <= luminance <= LUMINANCE_MAX
}

/// `luminance` brought into the valid range.
pub open spec fn clamp_luminance(luminance: int) -> int {
    if luminance < LUMINANCE_MIN {
        LUMINANCE_MIN as int
    } else if luminance > LUMINANCE_MAX {
        LUMINANCE_MAX as int
    } else {
        luminance
    }
}

/// The luminance one step up from `luminance`.
pub open spec fn step_up(luminance: int) -> int {
    clamp_luminance(luminance + LUMINANCE_STEP)
}

/// The luminance one step down from `luminance`.
pub open spec fn step_down(luminance: int) -> int {
    clamp_luminance(luminance - LUMINANCE_STEP)
}

/// The quotient `n / d` rounded to the nearest integer, a half rounded up.
pub open spec fn round_div(n: int, d: int) -> int {
    (2 * n + d) / (2 * d)
}

/// The brightness that stands for a luminance from 0 to 100 on a backlight
/// whose register goes up to `max`: that percentage of `max`, rounded.
pub open spec fn backlight_brightness(max: u16, luminance: int) -> int {
    round_div(max * luminance, 100)
}

/// The gain of one colour channel for a luminance below 0.
///
/// The share of light that is left is `(100 + luminance) / 100`. The
/// channel's calibration factor, as a part of `factor_max`, is scaled by
/// that share, and the gain is that part of `gain_max`, rounded once at the
/// end. A factor above `factor_max` can ask for more than a register holds:
/// the gain then stays at the largest 16-bit value.
pub open spec fn dimmed_gain(gain_max: u16, factor: u16, factor_max: u16, luminance: int) -> int {
    let exact = round_div(gain_max * factor * (100 + luminance), 100 * factor_max);
    if exact > u16::MAX {
        u16::MAX as int
    } else {
        exact
    }
}

/// `round_div` picks the nearest integer: the quotient times `d` is no more
/// than half of `d` away from `n`, and exactly half only from below.
pub proof fn lemma_round_div_nearest(n: int, d: int)
    requires
        d > 0,
    ensures
        -d <= 2 * (n - round_div(n, d) * d) < d,
{
    let q = round_div(n, d);
    lemma_fundamental_div_mod(2 * n + d, 2 * d);
    assert(0 <= (2 * n + d) % (2 * d) < 2 * d);
    assert((2 * d) * q == 2 * (q * d)) by (nonlinear_arith);
}

/// A quotient that is a whole number is its own rounding.
pub proof fn lemma_round_div_exact(q: int, d: int)
    requires
        d > 0,
    ensures
        round_div(q * d, d) == q,
{
    assert(2 * (q * d) + d == q * (2 * d) + d) by (nonlinear_arith);
    lemma_fundamental_div_mod_converse_div(2 * (q * d) + d, 2 * d, q, d);
}

/// Rounding keeps the order of the numerators.
pub proof fn lemma_round_div_ordered(n1: int, n2: int, d: int)
    requires
        n1 <= n2,
        d > 0,
    ensures
        round_div(n1, d) <= round_div(n2, d),
{
    lemma_div_is_ordered(2 * n1 + d, 2 * n2 + d, 2 * d);
}

/// A common factor of numerator and denominator does not change the
/// rounded quotient.
pub proof fn lemma_round_div_cancel(n: int, d: int, k: int)
    requires
        n >= 0,
        d > 0,
        k > 0,
    ensures
        round_div(n * k, d * k) == round_div(n, d),
{
    assert(2 * (n * k) + d * k == k * (2 * n + d)) by (nonlinear_arith);
    assert(2 * (d * k) == k * (2 * d)) by (nonlinear_arith);
    lemma_div_multiples_vanish_quotient(k, 2 * n + d, 2 * d);
}

/// In the backlight range the brightness is 0 at luminance 0, the
/// register's maximum at luminance 100, and never leaves the register's
/// range in between.
pub proof fn lemma_backlight_range(max: u16, luminance: int)
    requires
        0 <= luminance <= 100,
    ensures
        0 <= backlight_brightness(max, luminance) <= max,
        backlight_brightness(max, 0) == 0,
        backlight_brightness(max, 100) == max,
{
    assert(max * 0int == 0int * 100) by (nonlinear_arith);
    lemma_round_div_exact(0, 100);
    lemma_round_div_exact(max as int, 100);
    assert(0 <= max * luminance <= max * 100) by (nonlinear_arith)
        requires
            0 <= luminance <= 100,
            0 <= max,
    ;
    lemma_round_div_ordered(0, max * luminance, 100);
    lemma_round_div_ordered(max * luminance, max * 100, 100);
}

/// In the backlight range a higher luminance never gives a lower
/// brightness.
pub proof fn lemma_backlight_monotonic(max: u16, low: int, high: int)
    requires
        0 <= low <= high <= 100,
    ensures
        backlight_brightness(max, low) <= backlight_brightness(max, high),
{
    assert(max * low <= max * high) by (nonlinear_arith)
        requires
            low <= high,
            0 <= max,
    ;
    lemma_round_div_ordered(max * low, max * high, 100);
}

/// In the dimmed range a gain is a 16-bit value, and it is 0 at luminance
/// -100.
pub proof fn lemma_dimmed_gain_range(gain_max: u16, factor: u16, factor_max: u16, luminance: int)
    requires
        factor_max > 0,
        -100 <= luminance < 0,
    ensures
        0 <= dimmed_gain(gain_max, factor, factor_max, luminance) <= u16::MAX,
        dimmed_gain(gain_max, factor, factor_max, -100) == 0,
{
    let d = 100 * factor_max;
    assert(gain_max * factor * 0 == 0) by (nonlinear_arith);
    lemma_basic_div(d, 2 * d);
    assert(0 <= gain_max * factor * (100 + luminance)) by (nonlinear_arith)
        requires
            0 <= gain_max,
            0 <= factor,
            0 <= 100 + luminance,
    ;
    lemma_round_div_ordered(0, gain_max * factor * (100 + luminance), d);
}

/// A calibration factor that is no more than `factor_max` keeps the gain
/// within the maximum of its register.
pub proof fn lemma_dimmed_gain_within_max(
    gain_max: u16,
    factor: u16,
    factor_max: u16,
    luminance: int,
)
    requires
        0 < factor_max,
        factor <= factor_max,
        -100 <= luminance < 0,
    ensures
        dimmed_gain(gain_max, factor, factor_max, luminance) <= gain_max,
{
    let d = 100 * factor_max;
    let n = gain_max * factor * (100 + luminance);
    assert(n <= gain_max * d) by (nonlinear_arith)
        requires
            n == gain_max * factor * (100 + luminance),
            d == 100 * factor_max,
            0 <= gain_max,
            0 <= factor <= factor_max,
            0 <= 100 + luminance <= 100,
    ;
    lemma_round_div_ordered(n, gain_max * d, d);
    lemma_round_div_exact(gain_max as int, d);
}

/// In the dimmed range a higher luminance never gives a lower gain.
pub proof fn lemma_dimmed_gain_monotonic(
    gain_max: u16,
    factor: u16,
    factor_max: u16,
    low: int,
    high: int,
)
    requires
        factor_max > 0,
        -100 <= low <= high < 0,
    ensures
        dimmed_gain(gain_max, factor, factor_max, low) <= dimmed_gain(
            gain_max,
            factor,
            factor_max,
            high,
        ),
{
    assert(gain_max * factor * (100 + low) <= gain_max * factor * (100 + high))
        by (nonlinear_arith)
        requires
            low <= high,
            0 <= gain_max,
            0 <= factor,
    ;
    lemma_round_div_ordered(
        gain_max * factor * (100 + low),
        gain_max * factor * (100 + high),
        100 * factor_max,
    );
}

/// Where the scaled calibration factor `factor * (100 + luminance) / 100`
/// is a whole number, the gain can be had in two roundings: of the scaled
/// factor first, and then of that part of `gain_max`.
pub proof fn lemma_dimmed_gain_in_two_roundings(
    gain_max: u16,
    factor: u16,
    factor_max: u16,
    luminance: int,
)
    requires
        factor_max > 0,
        -100 <= luminance < 0,
        (factor * (100 + luminance)) % 100 == 0,
    ensures
        dimmed_gain(gain_max, factor, factor_max, luminance) == ({
            let scaled = round_div(factor * (100 + luminance), 100);
            let gain = round_div(gain_max * scaled, factor_max as int);
            if gain > u16::MAX {
                u16::MAX as int
            } else {
                gain
            }
        }),
{
    let scaled = factor * (100 + luminance);
    let k = scaled / 100;
    assert(0 <= scaled) by (nonlinear_arith)
        requires
            scaled == factor * (100 + luminance),
            0 <= factor,
            0 <= 100 + luminance,
    ;
    assert(scaled == k * 100);
    lemma_round_div_exact(k, 100);
    assert(gain_max * factor * (100 + luminance) == (gain_max * k) * 100) by (nonlinear_arith)
        requires
            factor * (100 + luminance) == k * 100,
    ;
    assert(0 <= gain_max * k) by (nonlinear_arith)
        requires
            0 <= gain_max,
            0 <= k,
    ;
    lemma_round_div_cancel(gain_max * k, factor_max as int, 100);
}

/// The luminance one step up from `luminance`, held to the valid range.
pub fn increased(luminance: i8) -> (r: i8)
    ensures
        r == step_up(luminance as int),
        valid_luminance(r as int),
{
    let raised: i16 = luminance as i16 + LUMINANCE_STEP as i16;
    if raised > LUMINANCE_MAX as i16 {
        LUMINANCE_MAX
    } else if raised < LUMINANCE_MIN as i16 {
        LUMINANCE_MIN
    } else {
        raised as i8
    }
}

/// The luminance one step down from `luminance`, held to the valid range.
pub fn decreased(luminance: i8) -> (r: i8)
    ensures
        r == step_down(luminance as int),
        valid_luminance(r as int),
{
    let lowered: i16 = luminance as i16 - LUMINANCE_STEP as i16;
    if lowered > LUMINANCE_MAX as i16 {
        LUMINANCE_MAX
    } else if lowered < LUMINANCE_MIN as i16 {
        LUMINANCE_MIN
    } else {
        lowered as i8
    }
}

/// The brightness to write for a luminance from 0 to 100.
pub fn brightness_level(max: u16, luminance: i8) -> (level: u16)
    requires
        0 <= luminance <= 100,
    ensures
        level == backlight_brightness(max, luminance as int),
        level <= max,
{
    proof {
        lemma_backlight_range(max, luminance as int);
        assert(0 <= max * luminance <= max * 100) by (nonlinear_arith)
            requires
                0 <= luminance <= 100,
                0 <= max,
        ;
    }
    let n: u32 = max as u32 * luminance as u32;
    let level: u32 = (2 * n + 100) / 200;
    level as u16
}

/// The gain to write to one colour channel for a luminance below 0.
pub fn gain_level(gain_max: u16, factor: u16, factor_max: u16, luminance: i8) -> (level: u16)
    requires
        factor_max > 0,
        -100 <= luminance < 0,
    ensures
        level == dimmed_gain(gain_max, factor, factor_max, luminance as int),
{
    let share: u64 = (100 + luminance as i16) as u64;
    proof {
        lemma_dimmed_gain_range(gain_max, factor, factor_max, luminance as int);
        assert(0 <= gain_max * factor <= 0xffff * 0xffff) by (nonlinear_arith)
            requires
                0 <= gain_max <= 0xffff,
                0 <= factor <= 0xffff,
        ;
        assert(0 <= gain_max * factor * share <= 0xffff * 0xffff * 100) by (nonlinear_arith)
            requires
                0 <= gain_max * factor <= 0xffff * 0xffff,
                0 <= share <= 100,
        ;
    }
    let n: u64 = gain_max as u64 * factor as u64 * share;
    let d: u64 = 100 * factor_max as u64;
    let exact: u64 = (2 * n + d) / (2 * d);
    if exact > u16::MAX as u64 {
        u16::MAX
    } else {
        exact as u16
    }
}

} // verus!
