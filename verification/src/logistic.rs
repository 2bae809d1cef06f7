//! The logistic curve behind every fitness value, in fixed point.
//!
//! The decaying exponential is put together from tables, digit by digit of
//! its exponent, in such a way that it never rises as the exponent grows.

use vstd::prelude::*;
use vstd::arithmetic::div_mod::lemma_div_is_ordered;
use vstd::arithmetic::div_mod::lemma_fundamental_div_mod;
use vstd::arithmetic::div_mod::lemma_mod_bound;
use crate::units::UNIT;
use crate::units::lemma_scaled_monotone;
use crate::units::scaled;

verus! {

/// The integer that stands for one while the exponential is put together:
/// a millionth of a millionth is the unit.
pub const FINE: u128 = 1_000_000_000_000;

/// Beyond this exponent the decaying exponential stands at zero.
pub const DECAY_HORIZON: u64 = 15_000_000;

/// `e^-m` in units of `10^-12`, rounded, for a whole number `m` up to fifteen.
pub open spec fn wholes(m: int) -> int {
    if m <= 0 {
        1_000_000_000_000
    } else if m == 1 {
        367_879_441_171
    } else if m == 2 {
        135_335_283_237
    } else if m == 3 {
        49_787_068_368
    } else if m == 4 {
        18_315_638_889
    } else if m == 5 {
        6_737_946_999
    } else if m == 6 {
        2_478_752_177
    } else if m == 7 {
        911_881_966
    } else if m == 8 {
        335_462_628
    } else if m == 9 {
        123_409_804
    } else if m == 10 {
        45_399_930
    } else if m == 11 {
        16_701_701
    } else if m == 12 {
        6_144_212
    } else if m == 13 {
        2_260_329
    } else if m == 14 {
        831_529
    } else {
        305_902
    }
}

/// `e^-(m/10)` in units of `10^-12`, rounded, for `m` up to ten.
pub open spec fn tenths(m: int) -> int {
    if m <= 0 {
        1_000_000_000_000
    } else if m == 1 {
        904_837_418_036
    } else if m == 2 {
        818_730_753_078
    } else if m == 3 {
        740_818_220_682
    } else if m == 4 {
        670_320_046_036
    } else if m == 5 {
        606_530_659_713
    } else if m == 6 {
        548_811_636_094
    } else if m == 7 {
        496_585_303_791
    } else if m == 8 {
        449_328_964_117
    } else if m == 9 {
        406_569_659_741
    } else {
        367_879_441_171
    }
}

/// `e^-(m/100)` in units of `10^-12`, rounded, for `m` up to ten.
pub open spec fn hundredths(m: int) -> int {
    if m <= 0 {
        1_000_000_000_000
    } else if m == 1 {
        990_049_833_749
    } else if m == 2 {
        980_198_673_307
    } else if m == 3 {
        970_445_533_549
    } else if m == 4 {
        960_789_439_152
    } else if m == 5 {
        951_229_424_501
    } else if m == 6 {
        941_764_533_584
    } else if m == 7 {
        932_393_819_906
    } else if m == 8 {
        923_116_346_387
    } else if m == 9 {
        913_931_185_271
    } else {
        904_837_418_036
    }
}

/// `e^-(m/1000)` in units of `10^-12`, rounded, for `m` up to ten.
pub open spec fn thousandths(m: int) -> int {
    if m <= 0 {
        1_000_000_000_000
    } else if m == 1 {
        999_000_499_833
    } else if m == 2 {
        998_001_998_667
    } else if m == 3 {
        997_004_495_503
    } else if m == 4 {
        996_007_989_344
    } else if m == 5 {
        995_012_479_193
    } else if m == 6 {
        994_017_964_054
    } else if m == 7 {
        993_024_442_933
    } else if m == 8 {
        992_031_914_837
    } else if m == 9 {
        991_040_378_773
    } else {
        990_049_833_749
    }
}

/// `e^-(m/10000)` in units of `10^-12`, rounded, for `m` up to ten.
pub open spec fn tenthousandths(m: int) -> int {
    if m <= 0 {
        1_000_000_000_000
    } else if m == 1 {
        999_900_005_000
    } else if m == 2 {
        999_800_019_999
    } else if m == 3 {
        999_700_044_996
    } else if m == 4 {
        999_600_079_989
    } else if m == 5 {
        999_500_124_979
    } else if m == 6 {
        999_400_179_964
    } else if m == 7 {
        999_300_244_943
    } else if m == 8 {
        999_200_319_915
    } else if m == 9 {
        999_100_404_879
    } else {
        999_000_499_833
    }
}

/// `e^-g` in units of `10^-12` for an exponent of `g` millionths below a
/// ten-thousandth: so close to zero the curve is taken as the straight line
/// `1 - g`.
pub open spec fn straight(g: int) -> int {
    FINE - g * 1_000_000
}

/// One digit more of the exponent: with `m` the digit of `x` that counts
/// `width`s and `r` what is left of `x`, the value is `table(m)` times
/// `inner(r)`, rounded down, but no less than `table(m + 1)`, the value at
/// the start of the next digit.
pub open spec fn refined(
    table: spec_fn(int) -> int,
    inner: spec_fn(int) -> int,
    width: int,
    x: int,
) -> int {
    let m = x / width;
    let r = x % width;
    let product = (table(m) * inner(r)) / (FINE as int);
    if product >= table(m + 1) {
        product
    } else {
        table(m + 1)
    }
}

/// `e^-x` in units of `10^-12` for `x` millionths below a thousandth.
pub open spec fn decay_small(x: int) -> int {
    refined(|m: int| tenthousandths(m), |g: int| straight(g), 100, x)
}

/// `e^-x` in units of `10^-12` for `x` millionths below a hundredth.
pub open spec fn decay_milli(x: int) -> int {
    refined(|m: int| thousandths(m), |r: int| decay_small(r), 1_000, x)
}

/// `e^-x` in units of `10^-12` for `x` millionths below a tenth.
pub open spec fn decay_centi(x: int) -> int {
    refined(|m: int| hundredths(m), |r: int| decay_milli(r), 10_000, x)
}

/// `e^-x` in units of `10^-12` for `x` millionths below one.
pub open spec fn decay_deci(x: int) -> int {
    refined(|m: int| tenths(m), |r: int| decay_centi(r), 100_000, x)
}

/// `e^-x` in units of `10^-12` for `x` millionths below fifteen.
pub open spec fn decay_fine(x: int) -> int {
    refined(|m: int| wholes(m), |r: int| decay_deci(r), 1_000_000, x)
}

/// `e^-u` in millionths, rounded down, for an exponent `u` given in
/// millionths; zero from fifteen on.
#[verifier::opaque]
pub open spec fn decay(u: int) -> int {
    if u >= DECAY_HORIZON {
        0
    } else {
        decay_fine(u) / 1_000_000
    }
}

/// The exponent `phi * |x - x_half|` of the logistic curve, in millionths.
pub open spec fn steepness(x: int, x_half: int, phi: int) -> int {
    if x >= x_half {
        scaled(phi, x - x_half)
    } else {
        scaled(phi, x_half - x)
    }
}

/// The logistic curve `1 / (1 + e^(sgn * phi * (x - x_half)))` in millionths.
///
/// Where the exponent is negative the value is `1 / (1 + e^-u)`, elsewhere
/// `e^-u / (1 + e^-u)`, with `u` the size of the exponent: both forms need
/// the decaying exponential only.
pub open spec fn logistic(sgn: int, x: int, x_half: int, phi: int) -> int {
    let d = decay(steepness(x, x_half, phi));
    if (sgn > 0 && x < x_half) || (sgn < 0 && x > x_half) {
        (UNIT * UNIT) / (UNIT + d)
    } else {
        (d * UNIT) / (UNIT + d)
    }
}

/// The function starts at one and never rises on the exponents below
/// `span`, and stays between zero and one there.
pub open spec fn never_rises(f: spec_fn(int) -> int, span: int) -> bool {
    &&& f(0) == FINE
    &&& forall|a: int, b: int| 0 <= a <= b < span ==> 0 <= #[trigger] f(b) <= #[trigger] f(a) <= FINE
}

/// The table starts at one and steps down, never below zero, over its
/// first `digits` steps.
pub open spec fn steps_down(table: spec_fn(int) -> int, digits: int) -> bool {
    &&& table(0) == FINE
    &&& forall|m: int| 0 <= m < digits ==> 0 <= #[trigger] table(m + 1) <= table(m)
}

/// A table that steps down is in order over any number of steps.
proof fn lemma_steps_down(table: spec_fn(int) -> int, digits: int, m: int, n: int)
    requires
        steps_down(table, digits),
        0 <= m <= n <= digits,
    ensures
        0 <= table(n) <= table(m) <= FINE,
    decreases n - m,
{
    if m < n {
        lemma_steps_down(table, digits, m, n - 1);
        assert(table((n - 1) + 1) <= table(n - 1));
    } else {
        lemma_steps_to_zero(table, digits, m);
    }
}

/// Every entry of a table that steps down lies between zero and one.
proof fn lemma_steps_to_zero(table: spec_fn(int) -> int, digits: int, m: int)
    requires
        steps_down(table, digits),
        0 <= m <= digits,
    ensures
        0 <= table(m) <= FINE,
    decreases m,
{
    if m > 0 {
        lemma_steps_to_zero(table, digits, m - 1);
        assert(table((m - 1) + 1) <= table(m - 1));
    }
}

/// One value of a refinement lies between the two table entries around it.
proof fn lemma_refined_between(
    table: spec_fn(int) -> int,
    inner: spec_fn(int) -> int,
    width: int,
    digits: int,
    x: int,
)
    requires
        width > 0,
        digits > 0,
        never_rises(inner, width),
        steps_down(table, digits),
        0 <= x < digits * width,
    ensures
        0 <= x / width < digits,
        0 <= x % width < width,
        table(x / width + 1) <= refined(table, inner, width, x) <= table(x / width),
{
    let m = x / width;
    let r = x % width;
    lemma_fundamental_div_mod(x, width);
    lemma_mod_bound(x, width);
    assert(0 <= m < digits) by (nonlinear_arith)
        requires
            x == width * m + r,
            0 <= r < width,
            0 <= x < digits * width,
            width > 0,
    ;
    lemma_steps_to_zero(table, digits, m);
    assert(table(m + 1) <= table(m));
    assert(0 <= inner(r) <= inner(0));
    let t = table(m);
    let i = inner(r);
    assert((t * i) / (FINE as int) <= t) by (nonlinear_arith)
        requires
            0 <= t,
            0 <= i <= FINE,
            FINE == 1_000_000_000_000,
    ;
}

/// A refinement of a function that never rises, by a table that steps
/// down, never rises.
proof fn lemma_refined_falls(
    table: spec_fn(int) -> int,
    inner: spec_fn(int) -> int,
    width: int,
    digits: int,
)
    requires
        width > 0,
        digits > 0,
        never_rises(inner, width),
        steps_down(table, digits),
    ensures
        never_rises(|x: int| refined(table, inner, width, x), digits * width),
{
    let f = |x: int| refined(table, inner, width, x);
    assert(f(0) == FINE) by {
        assert(0int / width == 0 && 0int % width == 0) by (nonlinear_arith)
            requires
                width > 0,
        ;
        assert(table(0int + 1) <= table(0int));
        assert((FINE * FINE) / (FINE as int) == FINE) by (nonlinear_arith)
            requires
                FINE == 1_000_000_000_000,
        ;
    }
    assert forall|a: int, b: int| 0 <= a <= b < digits * width implies 0 <= #[trigger] f(b)
        <= #[trigger] f(a) <= FINE by {
        lemma_refined_between(table, inner, width, digits, a);
        lemma_refined_between(table, inner, width, digits, b);
        let ma = a / width;
        let mb = b / width;
        let ra = a % width;
        let rb = b % width;
        lemma_fundamental_div_mod(a, width);
        lemma_fundamental_div_mod(b, width);
        lemma_div_is_ordered(a, b, width);
        lemma_steps_to_zero(table, digits, mb + 1);
        lemma_steps_to_zero(table, digits, ma);
        if ma == mb {
            assert(ra <= rb);
            assert(inner(rb) <= inner(ra));
            let t = table(ma);
            let ia = inner(ra);
            let ib = inner(rb);
            assert((t * ib) / (FINE as int) <= (t * ia) / (FINE as int)) by (nonlinear_arith)
                requires
                    0 <= t,
                    0 <= ib <= ia,
                    FINE == 1_000_000_000_000,
            ;
        } else {
            lemma_steps_down(table, digits, ma + 1, mb);
        }
    }
}

/// The straight line starts at one and never rises below a ten-thousandth.
proof fn lemma_straight_falls()
    ensures
        never_rises(|g: int| straight(g), 100),
{
}

/// Each table starts at one and steps down.
proof fn lemma_tables_step_down()
    ensures
        steps_down(|m: int| tenthousandths(m), 10),
        steps_down(|m: int| thousandths(m), 10),
        steps_down(|m: int| hundredths(m), 10),
        steps_down(|m: int| tenths(m), 10),
        steps_down(|m: int| wholes(m), 15),
{
}

/// The exponential in fine units starts at one and never rises.
pub proof fn lemma_decay_fine_falls()
    ensures
        never_rises(|x: int| decay_fine(x), 15_000_000),
{
    lemma_straight_falls();
    lemma_tables_step_down();
    lemma_refined_falls(|m: int| tenthousandths(m), |g: int| straight(g), 100, 10);
    assert(never_rises(|r: int| decay_small(r), 1_000)) by {
        let f = |x: int| refined(|m: int| tenthousandths(m), |g: int| straight(g), 100, x);
        assert(f(0) == decay_small(0));
        assert forall|a: int, b: int| 0 <= a <= b < 1_000 implies 0 <= #[trigger] decay_small(b)
            <= #[trigger] decay_small(a) <= FINE by {
            assert(f(a) == decay_small(a) && f(b) == decay_small(b));
        }
    }
    lemma_refined_falls(|m: int| thousandths(m), |r: int| decay_small(r), 1_000, 10);
    assert(never_rises(|r: int| decay_milli(r), 10_000)) by {
        let f = |x: int| refined(|m: int| thousandths(m), |r: int| decay_small(r), 1_000, x);
        assert(f(0) == decay_milli(0));
        assert forall|a: int, b: int| 0 <= a <= b < 10_000 implies 0 <= #[trigger] decay_milli(b)
            <= #[trigger] decay_milli(a) <= FINE by {
            assert(f(a) == decay_milli(a) && f(b) == decay_milli(b));
        }
    }
    lemma_refined_falls(|m: int| hundredths(m), |r: int| decay_milli(r), 10_000, 10);
    assert(never_rises(|r: int| decay_centi(r), 100_000)) by {
        let f = |x: int| refined(|m: int| hundredths(m), |r: int| decay_milli(r), 10_000, x);
        assert(f(0) == decay_centi(0));
        assert forall|a: int, b: int| 0 <= a <= b < 100_000 implies 0 <= #[trigger] decay_centi(b)
            <= #[trigger] decay_centi(a) <= FINE by {
            assert(f(a) == decay_centi(a) && f(b) == decay_centi(b));
        }
    }
    lemma_refined_falls(|m: int| tenths(m), |r: int| decay_centi(r), 100_000, 10);
    assert(never_rises(|r: int| decay_deci(r), 1_000_000)) by {
        let f = |x: int| refined(|m: int| tenths(m), |r: int| decay_centi(r), 100_000, x);
        assert(f(0) == decay_deci(0));
        assert forall|a: int, b: int| 0 <= a <= b < 1_000_000 implies 0 <= #[trigger] decay_deci(b)
            <= #[trigger] decay_deci(a) <= FINE by {
            assert(f(a) == decay_deci(a) && f(b) == decay_deci(b));
        }
    }
    lemma_refined_falls(|m: int| wholes(m), |r: int| decay_deci(r), 1_000_000, 15);
    assert(never_rises(|x: int| decay_fine(x), 15_000_000)) by {
        let f = |x: int| refined(|m: int| wholes(m), |r: int| decay_deci(r), 1_000_000, x);
        let g = |x: int| decay_fine(x);
        assert(f(0) == g(0));
        assert forall|a: int, b: int| 0 <= a <= b < 15_000_000 implies 0 <= #[trigger] g(b)
            <= #[trigger] g(a) <= FINE by {
            assert(f(a) == g(a) && f(b) == g(b));
        }
    }
}

/// The decaying exponential never rises as the exponent grows.
pub proof fn lemma_decay_monotone(u: int, v: int)
    requires
        0 <= u <= v,
    ensures
        0 <= decay(v) <= decay(u) <= UNIT,
        decay(0) == UNIT,
{
    reveal(decay);
    lemma_decay_fine_falls();
    let g = |x: int| decay_fine(x);
    assert(g(0) == FINE);
    assert(decay(0) == UNIT);
    if u < DECAY_HORIZON {
        assert(0 <= g(u) <= g(0));
        if v < DECAY_HORIZON {
            assert(0 <= g(v) <= g(u));
        }
    }
}

/// From the horizon on the decaying exponential is zero.
pub proof fn lemma_decay_horizon(u: int)
    requires
        u >= DECAY_HORIZON,
    ensures
        decay(u) == 0,
{
    reveal(decay);
}

/// The decaying exponential stays between zero and one, and is one at zero.
pub proof fn lemma_decay_bounds(u: int)
    requires
        0 <= u,
    ensures
        0 <= decay(u) <= UNIT,
        decay(0) == UNIT,
{
    lemma_decay_monotone(u, u);
}

/// The logistic curve stays between zero and one and is one half at its
/// midpoint.
pub proof fn lemma_logistic_bounds(sgn: int, x: int, x_half: int, phi: int)
    requires
        0 <= x,
        0 <= x_half,
        0 <= phi,
    ensures
        0 <= logistic(sgn, x, x_half, phi) <= UNIT,
        logistic(sgn, x_half, x_half, phi) == UNIT / 2,
{
    let u = steepness(x, x_half, phi);
    assert(0 <= u) by (nonlinear_arith)
        requires
            u == steepness(x, x_half, phi),
            0 <= phi,
            UNIT == 1_000_000,
    ;
    lemma_decay_bounds(u);
    let d = decay(u);
    assert(0 <= (UNIT * UNIT) / (UNIT + d) <= UNIT) by (nonlinear_arith)
        requires
            0 <= d <= UNIT,
            UNIT == 1_000_000,
    ;
    assert(0 <= (d * UNIT) / (UNIT + d) <= UNIT) by (nonlinear_arith)
        requires
            0 <= d <= UNIT,
            UNIT == 1_000_000,
    ;
    assert(steepness(x_half, x_half, phi) == 0) by (nonlinear_arith)
        requires
            UNIT == 1_000_000,
    ;
    lemma_decay_bounds(0);
}

/// The two forms of the curve: each grows with the exponential, the one
/// for an exponent that is not negative from below one half, the other
/// falls with it from above one half.
proof fn lemma_forms(d1: int, d2: int)
    requires
        0 <= d1 <= d2 <= UNIT,
    ensures
        (d1 * UNIT) / (UNIT + d1) <= (d2 * UNIT) / (UNIT + d2),
        (d2 * UNIT) / (UNIT + d2) <= UNIT / 2,
        UNIT / 2 <= (UNIT * UNIT) / (UNIT + d2),
        (UNIT * UNIT) / (UNIT + d2) <= (UNIT * UNIT) / (UNIT + d1),
{
    let q1 = (d1 * UNIT) / (UNIT + d1);
    let q2 = (d2 * UNIT) / (UNIT + d2);
    assert(q1 <= q2) by (nonlinear_arith)
        requires
            0 <= d1 <= d2 <= UNIT,
            UNIT == 1_000_000,
            q1 == (d1 * UNIT) / (UNIT + d1),
            q2 == (d2 * UNIT) / (UNIT + d2),
    {
        assert(q1 * (UNIT + d1) <= d1 * UNIT);
        assert(d1 * UNIT * (UNIT + d2) <= d2 * UNIT * (UNIT + d1));
        assert(q1 * (UNIT + d1) * (UNIT + d2) <= d2 * UNIT * (UNIT + d1));
        assert(q1 * (UNIT + d2) <= d2 * UNIT);
    }
    assert(q2 <= UNIT / 2) by (nonlinear_arith)
        requires
            0 <= d2 <= UNIT,
            UNIT == 1_000_000,
            q2 == (d2 * UNIT) / (UNIT + d2),
    {
        assert(2 * (d2 * UNIT) <= UNIT * (UNIT + d2));
    }
    let r1 = (UNIT * UNIT) / (UNIT + d1);
    let r2 = (UNIT * UNIT) / (UNIT + d2);
    assert(UNIT / 2 <= r2) by (nonlinear_arith)
        requires
            0 <= d2 <= UNIT,
            UNIT == 1_000_000,
            r2 == (UNIT * UNIT) / (UNIT + d2),
    {
        assert(500_000 * (UNIT + d2) <= UNIT * UNIT);
    }
    assert(r2 <= r1) by (nonlinear_arith)
        requires
            0 <= d1 <= d2 <= UNIT,
            UNIT == 1_000_000,
            r1 == (UNIT * UNIT) / (UNIT + d1),
            r2 == (UNIT * UNIT) / (UNIT + d2),
    {
        assert(r2 * (UNIT + d2) <= UNIT * UNIT);
        assert(r2 * (UNIT + d1) <= UNIT * UNIT);
    }
}

/// The logistic curve with sign `-1` never falls as `x` grows, and the one
/// with sign `1` never rises.
pub proof fn lemma_logistic_monotone(sgn: int, x1: int, x2: int, x_half: int, phi: int)
    requires
        sgn == 1 || sgn == -1,
        0 <= x1 <= x2,
        0 <= x_half,
        0 <= phi,
    ensures
        sgn == -1 ==> logistic(sgn, x1, x_half, phi) <= logistic(sgn, x2, x_half, phi),
        sgn == 1 ==> logistic(sgn, x1, x_half, phi) >= logistic(sgn, x2, x_half, phi),
{
    let u1 = steepness(x1, x_half, phi);
    let u2 = steepness(x2, x_half, phi);
    let d1 = decay(u1);
    let d2 = decay(u2);
    if x2 <= x_half {
        // both to the left of the midpoint: the exponent shrinks
        lemma_scaled_monotone(phi, x_half - x2, x_half - x1);
        lemma_decay_monotone(u2, u1);
        lemma_forms(d1, d2);
    } else if x1 >= x_half {
        // both to the right: the exponent grows
        lemma_scaled_monotone(phi, x1 - x_half, x2 - x_half);
        lemma_decay_monotone(u1, u2);
        lemma_forms(d2, d1);
    } else {
        // one on each side
        lemma_scaled_monotone(phi, 0, x_half - x1);
        lemma_scaled_monotone(phi, 0, x2 - x_half);
        lemma_decay_bounds(u1);
        lemma_decay_bounds(u2);
        lemma_forms(d1, d1);
        lemma_forms(d2, d2);
    }
}

/// The table `wholes`, to compute with.
fn wholes_table(m: u64) -> (r: u128)
    ensures
        r == wholes(m as int),
{
    if m == 0 {
        1_000_000_000_000
    } else if m == 1 {
        367_879_441_171
    } else if m == 2 {
        135_335_283_237
    } else if m == 3 {
        49_787_068_368
    } else if m == 4 {
        18_315_638_889
    } else if m == 5 {
        6_737_946_999
    } else if m == 6 {
        2_478_752_177
    } else if m == 7 {
        911_881_966
    } else if m == 8 {
        335_462_628
    } else if m == 9 {
        123_409_804
    } else if m == 10 {
        45_399_930
    } else if m == 11 {
        16_701_701
    } else if m == 12 {
        6_144_212
    } else if m == 13 {
        2_260_329
    } else if m == 14 {
        831_529
    } else {
        305_902
    }
}

/// The table `tenths`, to compute with.
fn tenths_table(m: u64) -> (r: u128)
    ensures
        r == tenths(m as int),
{
    if m == 0 {
        1_000_000_000_000
    } else if m == 1 {
        904_837_418_036
    } else if m == 2 {
        818_730_753_078
    } else if m == 3 {
        740_818_220_682
    } else if m == 4 {
        670_320_046_036
    } else if m == 5 {
        606_530_659_713
    } else if m == 6 {
        548_811_636_094
    } else if m == 7 {
        496_585_303_791
    } else if m == 8 {
        449_328_964_117
    } else if m == 9 {
        406_569_659_741
    } else {
        367_879_441_171
    }
}

/// The table `hundredths`, to compute with.
fn hundredths_table(m: u64) -> (r: u128)
    ensures
        r == hundredths(m as int),
{
    if m == 0 {
        1_000_000_000_000
    } else if m == 1 {
        990_049_833_749
    } else if m == 2 {
        980_198_673_307
    } else if m == 3 {
        970_445_533_549
    } else if m == 4 {
        960_789_439_152
    } else if m == 5 {
        951_229_424_501
    } else if m == 6 {
        941_764_533_584
    } else if m == 7 {
        932_393_819_906
    } else if m == 8 {
        923_116_346_387
    } else if m == 9 {
        913_931_185_271
    } else {
        904_837_418_036
    }
}

/// The table `thousandths`, to compute with.
fn thousandths_table(m: u64) -> (r: u128)
    ensures
        r == thousandths(m as int),
{
    if m == 0 {
        1_000_000_000_000
    } else if m == 1 {
        999_000_499_833
    } else if m == 2 {
        998_001_998_667
    } else if m == 3 {
        997_004_495_503
    } else if m == 4 {
        996_007_989_344
    } else if m == 5 {
        995_012_479_193
    } else if m == 6 {
        994_017_964_054
    } else if m == 7 {
        993_024_442_933
    } else if m == 8 {
        992_031_914_837
    } else if m == 9 {
        991_040_378_773
    } else {
        990_049_833_749
    }
}

/// The table `tenthousandths`, to compute with.
fn tenthousandths_table(m: u64) -> (r: u128)
    ensures
        r == tenthousandths(m as int),
{
    if m == 0 {
        1_000_000_000_000
    } else if m == 1 {
        999_900_005_000
    } else if m == 2 {
        999_800_019_999
    } else if m == 3 {
        999_700_044_996
    } else if m == 4 {
        999_600_079_989
    } else if m == 5 {
        999_500_124_979
    } else if m == 6 {
        999_400_179_964
    } else if m == 7 {
        999_300_244_943
    } else if m == 8 {
        999_200_319_915
    } else if m == 9 {
        999_100_404_879
    } else {
        999_000_499_833
    }
}

/// One digit more of the exponent, computed.
fn refine(here: u128, next: u128, inner: u128) -> (r: u128)
    requires
        here <= FINE,
        inner <= FINE,
    ensures
        r == if (here * inner) / (FINE as int) >= next {
            (here * inner) / (FINE as int)
        } else {
            next as int
        },
{
    assert(here * inner <= FINE * FINE) by (nonlinear_arith)
        requires
            0 <= here <= FINE,
            0 <= inner <= FINE,
    ;
    let product: u128 = here * inner / FINE;
    if product >= next {
        product
    } else {
        next
    }
}

/// Computes `e^-u` in millionths for an exponent `u` in millionths.
pub fn exp_neg(u: u64) -> (r: u64)
    ensures
        r == decay(u as int),
        r <= UNIT,
{
    proof {
        reveal(decay);
        lemma_decay_bounds(u as int);
    }
    if u >= DECAY_HORIZON {
        return 0;
    }
    let d0: u64 = u / 1_000_000;
    let r0: u64 = u % 1_000_000;
    let d1: u64 = r0 / 100_000;
    let r1: u64 = r0 % 100_000;
    let d2: u64 = r1 / 10_000;
    let r2: u64 = r1 % 10_000;
    let d3: u64 = r2 / 1_000;
    let r3: u64 = r2 % 1_000;
    let d4: u64 = r3 / 100;
    let g: u64 = r3 % 100;
    proof {
        lemma_straight_falls();
        lemma_tables_step_down();
        lemma_refined_between(|m: int| tenthousandths(m), |g: int| straight(g), 100, 10, r3 as int);
        lemma_refined_falls(|m: int| tenthousandths(m), |g: int| straight(g), 100, 10);
    }
    let line: u128 = FINE - (g as u128) * 1_000_000;
    assert(line == straight(g as int));
    let small: u128 = refine(tenthousandths_table(d4), tenthousandths_table(d4 + 1), line);
    assert(small == decay_small(r3 as int));
    proof {
        lemma_decay_fine_parts(r2 as int, r1 as int, r0 as int, u as int);
    }
    let milli: u128 = refine(thousandths_table(d3), thousandths_table(d3 + 1), small);
    assert(milli == decay_milli(r2 as int));
    let centi: u128 = refine(hundredths_table(d2), hundredths_table(d2 + 1), milli);
    assert(centi == decay_centi(r1 as int));
    let deci: u128 = refine(tenths_table(d1), tenths_table(d1 + 1), centi);
    assert(deci == decay_deci(r0 as int));
    let fine: u128 = refine(wholes_table(d0), wholes_table(d0 + 1), deci);
    assert(fine == decay_fine(u as int));
    (fine / 1_000_000) as u64
}

/// Every part of the exponential lies between zero and one.
proof fn lemma_decay_fine_parts(r2: int, r1: int, r0: int, u: int)
    requires
        0 <= r2 < 10_000,
        0 <= r1 < 100_000,
        0 <= r0 < 1_000_000,
        0 <= u < 15_000_000,
    ensures
        0 <= decay_small(r2 % 1_000) <= FINE,
        0 <= decay_milli(r2) <= FINE,
        0 <= decay_centi(r1) <= FINE,
        0 <= decay_deci(r0) <= FINE,
        0 <= decay_fine(u) <= FINE,
        0 <= r2 / 1_000 < 10,
        0 <= r1 / 10_000 < 10,
        0 <= r0 / 100_000 < 10,
        0 <= u / 1_000_000 < 15,
{
    lemma_straight_falls();
    lemma_tables_step_down();
    lemma_refined_falls(|m: int| tenthousandths(m), |g: int| straight(g), 100, 10);
    let f4 = |x: int| refined(|m: int| tenthousandths(m), |g: int| straight(g), 100, x);
    assert(0 <= f4(r2 % 1_000) <= f4(0));
    assert(never_rises(|r: int| decay_small(r), 1_000)) by {
        assert(f4(0) == decay_small(0));
        assert forall|a: int, b: int| 0 <= a <= b < 1_000 implies 0 <= #[trigger] decay_small(b)
            <= #[trigger] decay_small(a) <= FINE by {
            assert(f4(a) == decay_small(a) && f4(b) == decay_small(b));
        }
    }
    lemma_refined_between(|m: int| thousandths(m), |r: int| decay_small(r), 1_000, 10, r2);
    lemma_steps_to_zero(|m: int| thousandths(m), 10, r2 / 1_000);
    lemma_steps_to_zero(|m: int| thousandths(m), 10, r2 / 1_000 + 1);
    lemma_refined_falls(|m: int| thousandths(m), |r: int| decay_small(r), 1_000, 10);
    assert(never_rises(|r: int| decay_milli(r), 10_000)) by {
        let f = |x: int| refined(|m: int| thousandths(m), |r: int| decay_small(r), 1_000, x);
        assert(f(0) == decay_milli(0));
        assert forall|a: int, b: int| 0 <= a <= b < 10_000 implies 0 <= #[trigger] decay_milli(b)
            <= #[trigger] decay_milli(a) <= FINE by {
            assert(f(a) == decay_milli(a) && f(b) == decay_milli(b));
        }
    }
    lemma_refined_between(|m: int| hundredths(m), |r: int| decay_milli(r), 10_000, 10, r1);
    lemma_steps_to_zero(|m: int| hundredths(m), 10, r1 / 10_000);
    lemma_steps_to_zero(|m: int| hundredths(m), 10, r1 / 10_000 + 1);
    lemma_refined_falls(|m: int| hundredths(m), |r: int| decay_milli(r), 10_000, 10);
    assert(never_rises(|r: int| decay_centi(r), 100_000)) by {
        let f = |x: int| refined(|m: int| hundredths(m), |r: int| decay_milli(r), 10_000, x);
        assert(f(0) == decay_centi(0));
        assert forall|a: int, b: int| 0 <= a <= b < 100_000 implies 0 <= #[trigger] decay_centi(b)
            <= #[trigger] decay_centi(a) <= FINE by {
            assert(f(a) == decay_centi(a) && f(b) == decay_centi(b));
        }
    }
    lemma_refined_between(|m: int| tenths(m), |r: int| decay_centi(r), 100_000, 10, r0);
    lemma_steps_to_zero(|m: int| tenths(m), 10, r0 / 100_000);
    lemma_steps_to_zero(|m: int| tenths(m), 10, r0 / 100_000 + 1);
    lemma_refined_falls(|m: int| tenths(m), |r: int| decay_centi(r), 100_000, 10);
    assert(never_rises(|r: int| decay_deci(r), 1_000_000)) by {
        let f = |x: int| refined(|m: int| tenths(m), |r: int| decay_centi(r), 100_000, x);
        assert(f(0) == decay_deci(0));
        assert forall|a: int, b: int| 0 <= a <= b < 1_000_000 implies 0 <= #[trigger] decay_deci(b)
            <= #[trigger] decay_deci(a) <= FINE by {
            assert(f(a) == decay_deci(a) && f(b) == decay_deci(b));
        }
    }
    lemma_refined_between(|m: int| wholes(m), |r: int| decay_deci(r), 1_000_000, 15, u);
    lemma_steps_to_zero(|m: int| wholes(m), 15, u / 1_000_000);
    lemma_steps_to_zero(|m: int| wholes(m), 15, u / 1_000_000 + 1);
}

/// Computes the exponent `phi * |x - x_half|` in millionths, stopping at the
/// horizon beyond which the exponential is zero.
pub fn exponent(x: u64, x_half: u64, phi: u64) -> (r: u64)
    ensures
        r <= DECAY_HORIZON,
        steepness(x as int, x_half as int, phi as int) < DECAY_HORIZON ==> r == steepness(
            x as int,
            x_half as int,
            phi as int,
        ),
        steepness(x as int, x_half as int, phi as int) >= DECAY_HORIZON ==> r == DECAY_HORIZON,
{
    let gap: u64 = if x >= x_half {
        x - x_half
    } else {
        x_half - x
    };
    assert(0 <= (phi as int) * (gap as int) <= 0xFFFF_FFFF_FFFF_FFFF * 0xFFFF_FFFF_FFFF_FFFF)
        by (nonlinear_arith)
        requires
            0 <= phi <= 0xFFFF_FFFF_FFFF_FFFF,
            0 <= gap <= 0xFFFF_FFFF_FFFF_FFFF,
    ;
    let wide: u128 = (phi as u128) * (gap as u128) / (UNIT as u128);
    if wide >= DECAY_HORIZON as u128 {
        DECAY_HORIZON
    } else {
        wide as u64
    }
}

} // verus!
