//! Fractions of a time unit, to the nanosecond that IEEE 754 binary64
//! arithmetic yields.
//!
//! A duration such as `1.5s` scales its decimal fraction in double precision:
//! the fraction, the power of ten under it, their quotient and their product
//! are each rounded to 53 significant bits, to nearest with ties to even. All
//! quantities here are integers, so every rounding is an integer operation.
use vstd::arithmetic::div_mod::lemma_div_denominator;
use vstd::arithmetic::power::pow;
use vstd::arithmetic::power2::{lemma_pow2_pos, lemma_pow2_unfold, pow2};
use vstd::prelude::*;

verus! {

/// The first integer with 54 significant bits.
pub const PRECISION: u128 = 0x20_0000_0000_0000;

/// From this many decimal places on, every fraction is less than a nanosecond.
pub const NEGLIGIBLE_DIGITS: usize = 36;

/// The largest decimal fraction that is read before digits are dropped.
pub const MAX_FRACTION: u64 = 0x8000_0000_0000_0000;

/// An upper bound on the units that a duration is written in, in nanoseconds.
pub const MAX_UNIT: u128 = 0x400_0000_0000;

/// `n / d` rounded to the nearest integer, ties to even.
pub open spec fn round_div(n: nat, d: nat) -> nat {
    let q = n / d;
    let r = n % d;
    if 2 * r < d || (2 * r == d && q % 2 == 0) {
        q
    } else {
        q + 1
    }
}

/// The number of bits of `n` beyond the 53 that double precision keeps.
pub open spec fn excess_bits(n: nat) -> nat
    decreases n,
{
    if n < PRECISION {
        0
    } else {
        1 + excess_bits(n / 2)
    }
}

/// `n` rounded to 53 significant bits.
pub open spec fn round53(n: nat) -> nat {
    round_div(n, pow2(excess_bits(n))) * pow2(excess_bits(n))
}

/// The power of ten below a fraction of `digits` digits, as repeated
/// multiplication by ten gives it.
pub open spec fn decimal_scale(digits: nat) -> nat
    decreases digits,
{
    if digits == 0 {
        1
    } else {
        round53(10 * decimal_scale((digits - 1) as nat))
    }
}

/// The binary places by which `n` is shifted before it is divided by `d`, so
/// that the quotient has 53 significant bits.
pub open spec fn quotient_shift(n: nat, d: nat) -> nat
    decreases PRECISION * d - n,
{
    if n == 0 || 2 * n >= PRECISION * d {
        0
    } else {
        1 + quotient_shift(2 * n, d)
    }
}

/// The whole nanoseconds in `fraction / 10^digits` of a unit of `unit`
/// nanoseconds.
pub open spec fn fraction_nanos(fraction: nat, digits: nat, unit: nat) -> nat {
    let scale = decimal_scale(digits);
    let shift = quotient_shift(unit, scale);
    let quotient = round_div(unit * pow2(shift), scale);
    round53(round53(fraction) * quotient) / pow2(shift)
}

proof fn lemma_excess_bound(n: nat)
    ensures
        pow2(excess_bits(n)) >= 1,
        excess_bits(n) > 0 ==> pow2(excess_bits(n)) * PRECISION <= 2 * n,
        excess_bits(n) == 0 ==> n < PRECISION && pow2(excess_bits(n)) == 1,
    decreases n,
{
    vstd::arithmetic::power2::lemma2_to64();
    lemma_pow2_pos(excess_bits(n));
    if n >= PRECISION {
        lemma_excess_bound(n / 2);
        lemma_pow2_unfold(excess_bits(n));
        let half = pow2(excess_bits(n / 2));
        assert(pow2(excess_bits(n)) == 2 * half);
        if excess_bits(n / 2) == 0 {
            assert(half == 1);
        } else {
            assert(half * PRECISION <= 2 * (n / 2));
            assert(2 * half * PRECISION <= 4 * (n / 2)) by (nonlinear_arith)
                requires
                    half * PRECISION <= 2 * (n / 2),
            ;
        }
    }
}

proof fn lemma_round_div_error(n: nat, d: nat)
    requires
        d > 0,
    ensures
        2 * round_div(n, d) * d <= 2 * n + d,
        2 * round_div(n, d) * d + d >= 2 * n,
{
    let q = n / d;
    let r = n % d;
    vstd::arithmetic::div_mod::lemma_fundamental_div_mod(n as int, d as int);
    assert(n == d * q + r);
    assert(r < d);
    assert(2 * (q + 1) * d == 2 * (d * q) + 2 * d) by (nonlinear_arith);
    assert(2 * q * d == 2 * (d * q)) by (nonlinear_arith);
}

proof fn lemma_round53_error(n: nat)
    ensures
        round53(n) * PRECISION <= n * PRECISION + n,
        round53(n) * PRECISION + n >= n * PRECISION,
{
    let d = pow2(excess_bits(n));
    lemma_excess_bound(n);
    let m = round_div(n, d);
    if excess_bits(n) == 0 {
        assert(n / 1 == n && n % 1 == 0);
        assert(m == n);
        assert(m * d == n) by (nonlinear_arith)
            requires
                m == n,
                d == 1,
        ;
    } else {
        lemma_round_div_error(n, d);
        let p = PRECISION as nat;
        assert(2 * (m * d) * p <= 2 * (n * p) + 2 * n) by (nonlinear_arith)
            requires
                2 * m * d <= 2 * n + d,
                d * p <= 2 * n,
        ;
        assert(2 * (m * d) * p + 2 * n >= 2 * (n * p)) by (nonlinear_arith)
            requires
                2 * m * d + d >= 2 * n,
                d * p <= 2 * n,
        ;
    }
}

/// Rounds to 53 significant bits.
fn round_to_53_bits(n: u128) -> (rounded: u128)
    requires
        n < 0x4000_0000_0000_0000_0000_0000_0000_0000,
    ensures
        rounded == round53(n as nat),
{
    let mut unit: u128 = 1;
    let ghost mut bits: nat = 0;
    proof {
        vstd::arithmetic::power2::lemma2_to64();
        assert(n as int / 1 == n);
    }
    while n / unit >= PRECISION
        invariant
            n < 0x4000_0000_0000_0000_0000_0000_0000_0000,
            unit >= 1,
            unit == pow2(bits),
            excess_bits(n as nat) == bits + excess_bits((n / unit) as nat),
        decreases n / unit,
    {
        proof {
            lemma_div_denominator(n as int, unit as int, 2);
            lemma_pow2_unfold(bits + 1);
            vstd::arithmetic::div_mod::lemma_fundamental_div_mod(n as int, unit as int);
            assert(unit * PRECISION <= n) by (nonlinear_arith)
                requires
                    n == unit * (n as int / unit as int) + n as int % unit as int,
                    n as int / unit as int >= PRECISION,
                    n as int % unit as int >= 0,
                    unit >= 1,
            ;
            bits = bits + 1;
        }
        unit = unit * 2;
    }
    let quotient = n / unit;
    let remainder = n % unit;
    proof {
        lemma_round_div_error(n as nat, unit as nat);
        vstd::arithmetic::div_mod::lemma_fundamental_div_mod(n as int, unit as int);
        lemma_excess_bound(n as nat);
        assert(unit * quotient <= n);
        assert((quotient + 1) * unit == unit * quotient + unit) by (nonlinear_arith);
        assert(quotient * unit == unit * quotient) by (nonlinear_arith);
        assert(bits == excess_bits(n as nat));
        assert(unit <= 2 * n || unit == 1) by (nonlinear_arith)
            requires
                unit * PRECISION <= 2 * n || unit == 1,
        ;
    }
    if 2 * remainder < unit || (2 * remainder == unit && quotient % 2 == 0) {
        quotient * unit
    } else {
        (quotient + 1) * unit
    }
}

proof fn lemma_scale_step(scale: nat)
    requires
        scale >= 1,
    ensures
        8 * scale <= round53(10 * scale) <= 11 * scale,
{
    let n = 10 * scale;
    lemma_round53_error(n);
    let r = round53(n);
    let p = PRECISION as nat;
    assert(r <= 11 * scale) by (nonlinear_arith)
        requires
            r * p <= n * p + n,
            n == 10 * scale,
            p == 0x20_0000_0000_0000,
    ;
    assert(8 * scale <= r) by (nonlinear_arith)
        requires
            r * p + n >= n * p,
            n == 10 * scale,
            p == 0x20_0000_0000_0000,
    ;
}

proof fn lemma_scale_bounds(digits: nat)
    ensures
        pow2(3 * digits) <= decimal_scale(digits) <= pow(11, digits),
        decimal_scale(digits) >= 1,
    decreases digits,
{
    if digits == 0 {
        vstd::arithmetic::power2::lemma2_to64();
        vstd::arithmetic::power::lemma_pow0(11);
    } else {
        let prior = (digits - 1) as nat;
        lemma_scale_bounds(prior);
        lemma_scale_step(decimal_scale(prior));
        lemma_pow2_unfold(3 * digits);
        lemma_pow2_unfold((3 * digits - 1) as nat);
        lemma_pow2_unfold((3 * digits - 2) as nat);
        reveal(pow);
    }
}

proof fn lemma_scale_fits(digits: nat)
    requires
        digits < NEGLIGIBLE_DIGITS,
    ensures
        decimal_scale(digits) < 0x400_0000_0000_0000_0000_0000_0000_0000,
{
    lemma_scale_bounds(digits);
    vstd::arithmetic::power::lemma_pow_increases(11, digits, 35);
    assert(pow(11, 5) == 161051) by {
        reveal_with_fuel(pow, 6);
    }
    let ten = pow(11, 10);
    let twenty = pow(11, 20);
    let thirty = pow(11, 30);
    vstd::arithmetic::power::lemma_pow_adds(11, 5, 5);
    vstd::arithmetic::power::lemma_pow_adds(11, 10, 10);
    vstd::arithmetic::power::lemma_pow_adds(11, 20, 10);
    vstd::arithmetic::power::lemma_pow_adds(11, 30, 5);
    assert(ten == 25937424601int);
    assert(twenty == 672749994932560009201int) by (nonlinear_arith)
        requires
            twenty == ten * ten,
            ten == 25937424601int,
    ;
    assert(thirty == 17449402268886407318558803753801int) by (nonlinear_arith)
        requires
            thirty == twenty * ten,
            ten == 25937424601int,
            twenty == 672749994932560009201int,
    ;
    assert(pow(11, 35) == 17449402268886407318558803753801int * 161051int);
}

/// Ten to the power of the digit count, as repeated multiplication gives it.
fn scale_of(digits: usize) -> (scale: u128)
    requires
        digits < NEGLIGIBLE_DIGITS,
    ensures
        scale == decimal_scale(digits as nat),
{
    let mut scale: u128 = 1;
    let mut index: usize = 0;
    while index < digits
        invariant
            index <= digits < NEGLIGIBLE_DIGITS,
            scale == decimal_scale(index as nat),
        decreases digits - index,
    {
        proof {
            lemma_scale_fits(index as nat);
        }
        scale = round_to_53_bits(10 * scale);
        index = index + 1;
    }
    scale
}

proof fn lemma_quotient_shift(n: nat, d: nat)
    requires
        1 <= n,
        n < PRECISION * d,
    ensures
        PRECISION * d <= 2 * (n * pow2(quotient_shift(n, d))),
        n * pow2(quotient_shift(n, d)) < PRECISION * d,
    decreases PRECISION * d - n,
{
    vstd::arithmetic::power2::lemma2_to64();
    if 2 * n < PRECISION * d {
        lemma_quotient_shift(2 * n, d);
        let rest = quotient_shift(2 * n, d);
        lemma_pow2_unfold(1 + rest);
        let p = pow2(rest);
        let twice = pow2(1 + rest);
        assert(twice == 2 * p);
        assert(n * twice == (2 * n) * p) by (nonlinear_arith)
            requires
                twice == 2 * p,
        ;
        assert(quotient_shift(n, d) == 1 + rest);
    } else {
        assert(quotient_shift(n, d) == 0);
        assert(n * 1 == n);
    }
}

/// Fractions of so many decimal places come to no whole nanosecond.
proof fn lemma_negligible(fraction: nat, digits: nat, unit: nat)
    requires
        fraction <= MAX_FRACTION,
        digits >= NEGLIGIBLE_DIGITS,
        1 <= unit < MAX_UNIT,
    ensures
        fraction_nanos(fraction, digits, unit) == 0,
{
    let s = decimal_scale(digits);
    let t = quotient_shift(unit, s);
    let n = unit * pow2(t);
    let q = round_div(n, s);
    let f = round53(fraction);
    let p = round53(f * q);
    let half: nat = 0x40_0000_0000_0000;
    vstd::arithmetic::power2::lemma2_to64();
    assert(pow2(54) == half) by {
        vstd::arithmetic::power2::lemma2_to64_rest();
    }
    vstd::arithmetic::power2::lemma_pow2_adds(54, 54);
    lemma_scale_bounds(digits);
    if digits > 36 {
        vstd::arithmetic::power2::lemma_pow2_strictly_increases(108, 3 * digits);
    }
    assert(s >= half * half);
    assert(unit < PRECISION * s) by (nonlinear_arith)
        requires
            s >= 1,
            unit < 0x20_0000_0000_0000,
            PRECISION == 0x20_0000_0000_0000,
    ;
    lemma_quotient_shift(unit, s);
    assert(s <= n) by (nonlinear_arith)
        requires
            PRECISION * s <= 2 * n,
            PRECISION == 0x20_0000_0000_0000,
    ;
    lemma_round_div_error(n, s);
    assert(q * s <= 2 * n) by (nonlinear_arith)
        requires
            2 * q * s <= 2 * n + s,
            s <= n,
    ;
    lemma_round53_error(fraction);
    lemma_round53_error(f * q);
    let k = PRECISION as nat;
    assert(f <= 2 * fraction) by (nonlinear_arith)
        requires
            f * k <= fraction * k + fraction,
            k == 0x20_0000_0000_0000,
    ;
    let fq = f * q;
    assert(p <= 2 * fq) by (nonlinear_arith)
        requires
            p * k <= fq * k + fq,
            k == 0x20_0000_0000_0000,
    ;
    let w = pow2(t);
    lemma_pow2_pos(t);
    let bound: nat = 0x1_0000_0000_0000_0000;
    assert(fq * s <= bound * (2 * n)) by (nonlinear_arith)
        requires
            fq == f * q,
            f <= bound,
            q * s <= 2 * n,
    ;
    assert(p * s <= 4 * bound * n) by (nonlinear_arith)
        requires
            p <= 2 * fq,
            fq * s <= bound * (2 * n),
    ;
    assert(4 * bound * n < half * half * w) by (nonlinear_arith)
        requires
            n == unit * w,
            unit < 0x400_0000_0000,
            w >= 1,
            bound == 0x1_0000_0000_0000_0000,
            half == 0x40_0000_0000_0000,
    ;
    assert(p < w) by (nonlinear_arith)
        requires
            p * s < half * half * w,
            s >= half * half,
            half == 0x40_0000_0000_0000,
    ;
    vstd::arithmetic::div_mod::lemma_basic_div(p as int, w as int);
}

/// The quotient of a unit and a power of ten to 53 significant bits, with the
/// binary places by which it was shifted to reach them.
fn divide_unit(unit: u128, scale: u128) -> (result: (u128, usize))
    requires
        1 <= unit < MAX_UNIT,
        1 <= scale < 0x400_0000_0000_0000_0000_0000_0000_0000,
    ensures
        result.1 == quotient_shift(unit as nat, scale as nat),
        result.0 == round_div(unit as nat * pow2(result.1 as nat), scale as nat),
        result.0 <= PRECISION,
{
    let mut quotient = unit / scale;
    let mut remainder = unit % scale;
    let mut shift: usize = 0;
    proof {
        vstd::arithmetic::power2::lemma2_to64();
        vstd::arithmetic::div_mod::lemma_fundamental_div_mod(unit as int, scale as int);
        vstd::arithmetic::div_mod::lemma_div_is_ordered_by_denominator(
            unit as int,
            1,
            scale as int,
        );
        assert(quotient * scale == scale * quotient) by (nonlinear_arith);
    }
    while quotient < PRECISION / 2
        invariant
            1 <= unit < MAX_UNIT,
            1 <= scale < 0x400_0000_0000_0000_0000_0000_0000_0000,
            remainder < scale,
            quotient < PRECISION,
            unit * pow2(shift as nat) == quotient * scale + remainder,
            quotient_shift(unit as nat, scale as nat) == shift + quotient_shift(
                unit as nat * pow2(shift as nat),
                scale as nat,
            ),
        decreases quotient_shift(unit as nat * pow2(shift as nat), scale as nat),
    {
        let ghost n = unit as nat * pow2(shift as nat);
        proof {
            lemma_pow2_pos(shift as nat);
            assert(n >= 1) by (nonlinear_arith)
                requires
                    n == unit * pow2(shift as nat),
                    unit >= 1,
                    pow2(shift as nat) >= 1,
            ;
            assert(2 * n < PRECISION * scale) by (nonlinear_arith)
                requires
                    n == quotient * scale + remainder,
                    remainder < scale,
                    quotient + 1 <= PRECISION / 2,
                    PRECISION == 0x20_0000_0000_0000,
            ;
            lemma_pow2_unfold((shift + 1) as nat);
            assert(unit * (2 * pow2(shift as nat)) == 2 * (unit * pow2(shift as nat)))
                by (nonlinear_arith);
            let w = pow2(shift as nat);
            assert(w <= n) by (nonlinear_arith)
                requires
                    n == unit * w,
                    unit >= 1,
            ;
            lemma_shift_bounded(shift as nat, n, scale as nat);
            assert(2 * (quotient * scale + remainder) == (2 * quotient) * scale + 2 * remainder)
                by (nonlinear_arith);
            assert((2 * quotient + 1) * scale == (2 * quotient) * scale + scale)
                by (nonlinear_arith);
        }
        quotient = 2 * quotient;
        remainder = 2 * remainder;
        if remainder >= scale {
            quotient = quotient + 1;
            remainder = remainder - scale;
        }
        shift = shift + 1;
    }
    proof {
        let n = unit as nat * pow2(shift as nat);
        assert(2 * n >= PRECISION * scale) by (nonlinear_arith)
            requires
                n == quotient * scale + remainder,
                quotient >= PRECISION / 2,
                PRECISION == 0x20_0000_0000_0000,
        ;
        vstd::arithmetic::div_mod::lemma_fundamental_div_mod_converse(
            n as int,
            scale as int,
            quotient as int,
            remainder as int,
        );
    }
    if 2 * remainder < scale || (2 * remainder == scale && quotient % 2 == 0) {
        (quotient, shift)
    } else {
        (quotient + 1, shift)
    }
}

proof fn lemma_shift_bounded(shift: nat, n: nat, scale: nat)
    requires
        scale < 0x400_0000_0000_0000_0000_0000_0000_0000,
        pow2(shift) <= n < PRECISION * scale,
    ensures
        shift < 175,
{
    if shift >= 175 {
        if shift > 175 {
            vstd::arithmetic::power2::lemma_pow2_strictly_increases(175, shift);
        }
        vstd::arithmetic::power2::lemma2_to64_rest();
        vstd::arithmetic::power2::lemma_pow2_adds(61, 61);
        vstd::arithmetic::power2::lemma_pow2_adds(122, 53);
        assert(pow2(122) == 0x400_0000_0000_0000_0000_0000_0000_0000int);
        assert(PRECISION * scale <= pow2(122) * pow2(53)) by (nonlinear_arith)
            requires
                scale <= pow2(122),
                pow2(53) == PRECISION,
        ;
    }
}

/// The whole nanoseconds in `fraction / 10^digits` of a unit.
pub fn fractional_nanos(fraction: u64, digits: usize, unit: u128) -> (nanos: u128)
    requires
        fraction <= MAX_FRACTION,
        1 <= unit < MAX_UNIT,
    ensures
        nanos == fraction_nanos(fraction as nat, digits as nat, unit as nat),
{
    if digits >= NEGLIGIBLE_DIGITS {
        proof {
            lemma_negligible(fraction as nat, digits as nat, unit as nat);
        }
        return 0;
    }
    let scale = scale_of(digits);
    proof {
        lemma_scale_fits(digits as nat);
        lemma_scale_bounds(digits as nat);
        lemma_round53_error(fraction as nat);
    }
    let (quotient, shift) = divide_unit(unit, scale);
    let rounded = round_to_53_bits(fraction as u128);
    proof {
        assert(rounded <= 2 * fraction) by (nonlinear_arith)
            requires
                rounded * PRECISION <= fraction * PRECISION + fraction,
                PRECISION == 0x20_0000_0000_0000,
        ;
        assert(rounded * quotient <= 0x1_0000_0000_0000_0000 * 0x20_0000_0000_0000)
            by (nonlinear_arith)
            requires
                rounded <= 0x1_0000_0000_0000_0000,
                quotient <= 0x20_0000_0000_0000,
        ;
    }
    let product = round_to_53_bits(rounded * quotient);
    let mut nanos = product;
    let mut index: usize = 0;
    proof {
        vstd::arithmetic::power2::lemma2_to64();
    }
    while index < shift
        invariant
            index <= shift,
            nanos as int == product as int / pow2(index as nat) as int,
        decreases shift - index,
    {
        proof {
            lemma_pow2_pos(index as nat);
            lemma_pow2_unfold((index + 1) as nat);
            lemma_div_denominator(product as int, pow2(index as nat) as int, 2);
        }
        nanos = nanos / 2;
        index = index + 1;
    }
    nanos
}

proof fn lemma_exact_quotient(n: nat, d: nat)
    requires
        d > 0,
    ensures
        round_div(n * d, d) == n,
{
    vstd::arithmetic::div_mod::lemma_div_multiples_vanish(n as int, d as int);
    vstd::arithmetic::div_mod::lemma_mod_multiples_basic(n as int, d as int);
    assert(d * n == n * d) by (nonlinear_arith);
}

proof fn lemma_excess_of_shifted(n: nat, shift: nat)
    requires
        n < PRECISION,
    ensures
        excess_bits(n * pow2(shift)) <= shift,
    decreases shift,
{
    vstd::arithmetic::power2::lemma2_to64();
    if shift == 0 {
        assert(n * pow2(shift) == n) by (nonlinear_arith)
            requires
                pow2(shift) == 1,
        ;
    } else {
        let less = (shift - 1) as nat;
        lemma_excess_of_shifted(n, less);
        lemma_pow2_unfold(shift);
        let half = n * pow2(less);
        assert(n * pow2(shift) == 2 * half) by (nonlinear_arith)
            requires
                pow2(shift) == 2 * pow2(less),
                half == n * pow2(less),
        ;
        assert((2 * half) / 2 == half);
    }
}

/// A number of at most 53 bits, shifted by any number of places, is not
/// rounded.
pub proof fn short_numbers_are_not_rounded(n: nat, shift: nat)
    requires
        n < 0x20_0000_0000_0000,
    ensures
        round53(n * pow2(shift)) == n * pow2(shift),
        round53(n) == n,
{
    let all = n * pow2(shift);
    lemma_excess_of_shifted(n, shift);
    let bits = excess_bits(all);
    let rest = (shift - bits) as nat;
    lemma_pow2_pos(bits);
    vstd::arithmetic::power2::lemma_pow2_adds(rest, bits);
    let upper = n * pow2(rest);
    assert(all == upper * pow2(bits)) by (nonlinear_arith)
        requires
            all == n * pow2(shift),
            pow2(shift) == pow2(rest) * pow2(bits),
            upper == n * pow2(rest),
    ;
    lemma_exact_quotient(upper, pow2(bits));
    vstd::arithmetic::power2::lemma2_to64();
    assert(excess_bits(n) == 0);
    lemma_exact_quotient(n, 1);
    assert(n * 1 == n);
}

proof fn lemma_small_scale(digits: nat)
    requires
        pow(10, digits) < PRECISION,
    ensures
        decimal_scale(digits) == pow(10, digits),
        pow(10, digits) >= 1,
    decreases digits,
{
    vstd::arithmetic::power::lemma_pow_positive(10, digits);
    if digits == 0 {
        vstd::arithmetic::power::lemma_pow0(10);
    } else {
        let less = (digits - 1) as nat;
        reveal(pow);
        assert(pow(10, digits) == 10 * pow(10, less));
        vstd::arithmetic::power::lemma_pow_positive(10, less);
        lemma_small_scale(less);
        short_numbers_are_not_rounded((10 * decimal_scale(less)) as nat, 0);
    }
}

/// A fraction of a unit that comes to whole nanoseconds, digit for digit, comes
/// to exactly those.
pub proof fn exact_fractions_are_exact(fraction: nat, digits: nat, unit: nat, part: nat)
    requires
        pow(10, digits) < 0x20_0000_0000_0000,
        unit == part * pow(10, digits),
        fraction < 0x20_0000_0000_0000,
        fraction * part < 0x20_0000_0000_0000,
    ensures
        fraction_nanos(fraction, digits, unit) == fraction * part,
{
    lemma_small_scale(digits);
    let scale = decimal_scale(digits);
    let shift = quotient_shift(unit, scale);
    let places = pow2(shift);
    lemma_pow2_pos(shift);
    let shifted = part * places;
    assert(unit * places == shifted * scale) by (nonlinear_arith)
        requires
            unit == part * scale,
            shifted == part * places,
    ;
    lemma_exact_quotient(shifted, scale);
    short_numbers_are_not_rounded(fraction, 0);
    short_numbers_are_not_rounded(fraction * part, shift);
    assert(fraction * shifted == (fraction * part) * places) by (nonlinear_arith)
        requires
            shifted == part * places,
    ;
    vstd::arithmetic::div_mod::lemma_div_multiples_vanish(
        (fraction * part) as int,
        places as int,
    );
    assert(places * (fraction * part) == (fraction * part) * places) by (nonlinear_arith);
}

} // verus!
