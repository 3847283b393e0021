//! What arithmetic is for: each result is the number nearest to the exact one, and order is kept.

use crate::arith::rounded;
use crate::counts::{law_small_counts_are_exact, lemma_one_value};
use crate::rounding::{
    law_nearest_is_unique, lemma_nearest_exists, lemma_nearest_monotone, lemma_number_is_nearest,
    nearest,
};
use crate::scalar::{
    INFINITY_BITS, ONE_BITS, Scalar, exponent_of, law_order_is_numeric, lemma_magnitude_form,
    lemma_magnitude_increases, lemma_magnitude_step, magnitude, one_units,
};
use vstd::arithmetic::power2::{lemma2_to64, lemma_pow2_adds, lemma_pow2_pos, pow2};
use vstd::prelude::*;

verus! {

/// The exact value of a number is zero for both zeros only.
pub proof fn lemma_zero_value(x: Scalar)
    ensures
        x.abs_units() >= 0,
        x.abs_units() == 0 <==> x.mag() == 0,
        x.units() == 0 <==> x.mag() == 0,
{
    assert(magnitude(0) == 0);
    if x.mag() > 0 {
        lemma_magnitude_increases(0, x.mag());
    }
}

/// The sum of finite numbers is the number nearest to the exact sum, with its sign. An exact zero
/// is negative only where both terms are.
pub proof fn law_sum_is_nearest(a: Scalar, b: Scalar)
    requires
        a.finite(),
        b.finite(),
    ensures
        !a.plus_spec(b).nan(),
        a.units() + b.units() > 0 ==> !a.plus_spec(b).negative() && nearest(
            a.plus_spec(b).mag(),
            a.units() + b.units(),
            1,
        ),
        a.units() + b.units() < 0 ==> a.plus_spec(b).negative() && nearest(
            a.plus_spec(b).mag(),
            -(a.units() + b.units()),
            1,
        ),
        a.units() + b.units() == 0 ==> a.plus_spec(b).mag() == 0 && (a.plus_spec(b).negative()
            <==> a.negative() && b.negative()),
{
    let n = a.units() + b.units();
    if n > 0 {
        lemma_nearest_exists(n, 1);
    }
    if n < 0 {
        lemma_nearest_exists(-n, 1);
    }
}

/// A sum with an infinity is that infinity; infinities of unlike sign, and what is not a number,
/// have no sum.
pub proof fn law_sum_with_infinity(a: Scalar, b: Scalar)
    ensures
        a.nan() || b.nan() ==> a.plus_spec(b).nan(),
        a.infinite() && !b.nan() && !b.infinite() ==> a.plus_spec(b) == a && b.plus_spec(a) == a,
        a.infinite() && b.infinite() && a.negative() == b.negative() ==> a.plus_spec(b) == a,
        a.infinite() && b.infinite() && a.negative() != b.negative() ==> a.plus_spec(b).nan(),
{
}

/// The order of the terms does not matter to a sum.
pub proof fn law_sum_ignores_order(a: Scalar, b: Scalar)
    ensures
        a.plus_spec(b).nan() <==> b.plus_spec(a).nan(),
        !a.plus_spec(b).nan() ==> a.plus_spec(b) == b.plus_spec(a),
{
    if !a.nan() && !b.nan() && a.infinite() && b.infinite() && a.negative() == b.negative() {
        assert(a.bits == b.bits);
    }
}

/// The product of finite numbers is the number nearest to the exact product; it is negative where
/// one factor is and the other is not.
pub proof fn law_product_is_nearest(a: Scalar, b: Scalar)
    requires
        a.finite(),
        b.finite(),
    ensures
        !a.times_spec(b).nan(),
        nearest(a.times_spec(b).mag(), a.abs_units() * b.abs_units(), one_units()),
        a.times_spec(b).negative() <==> a.negative() != b.negative(),
{
    lemma_zero_value(a);
    lemma_zero_value(b);
    lemma_one_value();
    let n = a.abs_units() * b.abs_units();
    assert(n >= 0) by (nonlinear_arith)
        requires
            n == a.abs_units() * b.abs_units(),
            a.abs_units() >= 0,
            b.abs_units() >= 0,
    ;
    lemma_nearest_exists(n, one_units());
}

/// A product with an infinity is infinite, but for that with zero, which is not a number; nor is
/// one with what is not a number.
pub proof fn law_product_with_infinity(a: Scalar, b: Scalar)
    ensures
        a.nan() || b.nan() ==> a.times_spec(b).nan(),
        !a.nan() && !b.nan() && (a.infinite() || b.infinite()) ==> if a.mag() == 0 || b.mag()
            == 0 {
            a.times_spec(b).nan()
        } else {
            a.times_spec(b).infinite() && (a.times_spec(b).negative() <==> a.negative()
                != b.negative())
        },
{
}

/// The quotient of finite numbers, by one that is not zero, is the number nearest to the exact
/// quotient; it is negative where one of them is and the other is not.
pub proof fn law_quotient_is_nearest(a: Scalar, b: Scalar)
    requires
        a.finite(),
        b.finite(),
        b.mag() != 0,
    ensures
        !a.over_spec(b).nan(),
        nearest(a.over_spec(b).mag(), a.abs_units() * one_units(), b.abs_units()),
        a.over_spec(b).negative() <==> a.negative() != b.negative(),
{
    lemma_zero_value(a);
    lemma_zero_value(b);
    lemma_one_value();
    let n = a.abs_units() * one_units();
    assert(n >= 0) by (nonlinear_arith)
        requires
            n == a.abs_units() * one_units(),
            a.abs_units() >= 0,
            one_units() > 0,
    ;
    lemma_nearest_exists(n, b.abs_units());
}

/// Zero by zero, infinity by infinity, and what is not a number have no quotient; anything else
/// by zero is infinite.
pub proof fn law_quotient_with_zero_or_infinity(a: Scalar, b: Scalar)
    ensures
        a.nan() || b.nan() ==> a.over_spec(b).nan(),
        a.mag() == 0 && b.mag() == 0 ==> a.over_spec(b).nan(),
        a.infinite() && b.infinite() ==> a.over_spec(b).nan(),
        !a.nan() && a.mag() != 0 && b.mag() == 0 ==> a.over_spec(b).infinite(),
        a.infinite() && b.finite() ==> a.over_spec(b).infinite(),
        a.finite() && b.infinite() ==> a.over_spec(b).mag() == 0,
        !a.over_spec(b).nan() && (a.infinite() || b.infinite() || b.mag() == 0) ==> (a.over_spec(
            b,
        ).negative() <==> a.negative() != b.negative()),
{
}

/// The difference of finite numbers is the number nearest to the exact difference; a number less
/// itself is zero.
pub proof fn law_difference_is_nearest(a: Scalar, b: Scalar)
    requires
        a.finite(),
        b.finite(),
    ensures
        !a.minus_spec(b).nan(),
        a.units() > b.units() ==> !a.minus_spec(b).negative() && nearest(
            a.minus_spec(b).mag(),
            a.units() - b.units(),
            1,
        ),
        a.units() < b.units() ==> a.minus_spec(b).negative() && nearest(
            a.minus_spec(b).mag(),
            b.units() - a.units(),
            1,
        ),
        a.units() == b.units() ==> a.minus_spec(b).mag() == 0,
{
    law_negation_turns_the_sign(b);
    law_sum_is_nearest(a, b.negated_spec());
}

/// The number with the other sign has the same size.
pub proof fn law_negation_turns_the_sign(x: Scalar)
    ensures
        x.negated_spec().mag() == x.mag(),
        x.negated_spec().negative() != x.negative(),
        x.negated_spec().units() == -x.units(),
        x.negated_spec().negated_spec() == x,
{
}

/// Of two numbers, the larger one is one of them, and neither is above it; of a number and what is
/// not one, it is the number.
pub proof fn law_larger_of_two(a: Scalar, b: Scalar)
    ensures
        a.max_spec(b) == a || a.max_spec(b) == b,
        !a.nan() && !b.nan() ==> a.le_spec(a.max_spec(b)) && b.le_spec(a.max_spec(b)),
        a.nan() ==> a.max_spec(b) == b,
        b.nan() && !a.nan() ==> a.max_spec(b) == a,
        !a.nan() && !b.nan() && a.key() == b.key() ==> a.max_spec(b) == a,
{
}

/// Of two numbers, the smaller one is one of them, and neither is below it; of a number and what
/// is not one, it is the number.
pub proof fn law_smaller_of_two(a: Scalar, b: Scalar)
    ensures
        a.min_spec(b) == a || a.min_spec(b) == b,
        !a.nan() && !b.nan() ==> a.min_spec(b).le_spec(a) && a.min_spec(b).le_spec(b),
        a.nan() ==> a.min_spec(b) == b,
        b.nan() && !a.nan() ==> a.min_spec(b) == a,
        !a.nan() && !b.nan() && a.key() == b.key() ==> a.min_spec(b) == a,
{
}

/// What is not a number is not below, above or as high as anything.
pub proof fn law_no_order_without_numbers(a: Scalar, b: Scalar)
    ensures
        a.nan() || b.nan() ==> !a.lt_spec(b) && !a.le_spec(b),
        !a.nan() && !b.nan() ==> (a.lt_spec(b) <==> !b.le_spec(a)),
{
}

/// Limits keep the order of scores: of two scores, the higher one is not lower once both are
/// limited. What is not a number stays so.
pub proof fn law_limits_keep_order(a: Scalar, b: Scalar)
    ensures
        a.le_spec(b) ==> a.clamp_unit_spec().le_spec(b.clamp_unit_spec()),
        a.nan() ==> a.clamp_unit_spec() == a,
        !a.nan() && a.key() > ONE_BITS ==> a.clamp_unit_spec().bits == ONE_BITS,
        !a.nan() && a.key() < 0 ==> a.clamp_unit_spec().bits == 0,
{
}

/// The whole part of a number that is not negative: the largest count that is not above it, as
/// far as counts go. Anything else has the count zero.
pub proof fn law_whole_part(x: Scalar)
    ensures
        x.nan() || x.units() < 0 ==> x.to_count_spec() == 0,
        x.to_count_spec() <= usize::MAX,
        !x.nan() && x.units() >= 0 ==> x.to_count_spec() * one_units() <= x.units(),
        !x.nan() && x.units() >= 0 && x.to_count_spec() < usize::MAX ==> x.units() < (
        x.to_count_spec() + 1) * one_units(),
{
    lemma_zero_value(x);
    lemma_one_value();
    let (u, o) = (x.abs_units(), one_units());
    vstd::arithmetic::div_mod::lemma_fundamental_div_mod(u, o);
    let q = u / o;
    assert(o * q == q * o) by (nonlinear_arith);
    assert((q + 1) * o == q * o + o) by (nonlinear_arith);
    assert(q >= 0) by (nonlinear_arith)
        requires
            u >= 0,
            o > 0,
            q == u / o,
    ;
    assert(0int * o == 0) by (nonlinear_arith);
    assert((0int + 1) * o == o) by (nonlinear_arith);
    let c = x.to_count_spec() as int;
    if !x.nan() && x.units() >= 0 {
        assert(c * o <= q * o) by (nonlinear_arith)
            requires
                c <= q,
                o > 0,
        ;
    }
}

/// The number of a count is the one nearest to it.
pub proof fn law_count_is_nearest(c: nat)
    ensures
        !Scalar::from_count_spec(c).negative(),
        nearest(Scalar::from_count_spec(c).mag(), c * one_units(), 1),
{
    lemma_one_value();
    assert(c * one_units() >= 0) by (nonlinear_arith)
        requires
            one_units() > 0,
    ;
    lemma_nearest_exists(c * one_units(), 1);
}

/// Rounding does not depend on how a fraction is written.
pub proof fn lemma_nearest_scaled(m: int, n: int, d: int, k: int)
    requires
        k > 0,
    ensures
        nearest(m, n, d) <==> nearest(m, n * k, d * k),
{
    let low = magnitude(m - 1) + magnitude(m);
    let high = magnitude(m) + magnitude(m + 1);
    assert(low * (d * k) == (low * d) * k) by (nonlinear_arith);
    assert(high * (d * k) == (high * d) * k) by (nonlinear_arith);
    assert(2 * (n * k) == (2 * n) * k) by (nonlinear_arith);
    let (x, y, z) = (low * d, high * d, 2 * n);
    assert(x <= z <==> x * k <= z * k) by (nonlinear_arith)
        requires
            k > 0,
    ;
    assert(x < z <==> x * k < z * k) by (nonlinear_arith)
        requires
            k > 0,
    ;
    assert(z <= y <==> z * k <= y * k) by (nonlinear_arith)
        requires
            k > 0,
    ;
    assert(z < y <==> z * k < y * k) by (nonlinear_arith)
        requires
            k > 0,
    ;
}

/// A share of counts up to 2^24 is the number nearest to the exact fraction of the counts.
pub proof fn law_ratio_is_nearest(part: nat, total: nat)
    requires
        part <= 0x100_0000,
        0 < total <= 0x100_0000,
    ensures
        !Scalar::ratio_spec(part, total).nan(),
        !Scalar::ratio_spec(part, total).negative(),
        nearest(Scalar::ratio_spec(part, total).mag(), part * one_units(), total as int),
{
    law_small_counts_are_exact(part);
    law_small_counts_are_exact(total);
    let (x, y) = (Scalar::from_count_spec(part), Scalar::from_count_spec(total));
    lemma_one_value();
    let o = one_units();
    lemma_zero_value(y);
    assert(total * o > 0) by (nonlinear_arith)
        requires
            total > 0,
            o > 0,
    ;
    law_quotient_is_nearest(x, y);
    lemma_nearest_scaled(x.over_spec(y).mag(), part * o, total as int, o);
}

/// Of the same part, a larger total has no larger share.
pub proof fn law_larger_total_has_smaller_share(part: u64, a: u64, b: u64)
    requires
        0 < a <= b,
    ensures
        Scalar::ratio_spec(part as nat, b as nat).le_spec(
            Scalar::ratio_spec(part as nat, a as nat),
        ),
{
    let x = Scalar::from_count_spec(part as nat);
    let (p, q) = (Scalar::from_count_spec(a as nat), Scalar::from_count_spec(b as nat));
    crate::counts::lemma_count_finite(part);
    crate::counts::lemma_count_finite(a);
    crate::counts::lemma_count_finite(b);
    crate::counts::law_counts_keep_order(a as nat, b as nat);
    crate::counts::law_counts_keep_order(b as nat, b as nat);
    law_count_is_nearest(part as nat);
    law_count_is_nearest(a as nat);
    law_count_is_nearest(b as nat);
    lemma_zero_value(x);
    lemma_zero_value(p);
    lemma_zero_value(q);
    lemma_one_value();
    law_quotient_is_nearest(x, p);
    law_quotient_is_nearest(x, q);
    if p.mag() < q.mag() {
        lemma_magnitude_increases(p.mag(), q.mag());
    }
    let (n, d, e) = (x.abs_units() * one_units(), p.abs_units(), q.abs_units());
    assert(n >= 0) by (nonlinear_arith)
        requires
            n == x.abs_units() * one_units(),
            x.abs_units() >= 0,
            one_units() > 0,
    ;
    lemma_nearest_scaled(x.over_spec(p).mag(), n, d, e);
    lemma_nearest_scaled(x.over_spec(q).mag(), n, e, d);
    assert(d * e == e * d) by (nonlinear_arith);
    assert(n * d <= n * e) by (nonlinear_arith)
        requires
            0 <= n,
            d <= e,
    ;
    assert(d * e > 0) by (nonlinear_arith)
        requires
            d > 0,
            e > 0,
    ;
    lemma_nearest_monotone(x.over_spec(q).mag(), n * d, x.over_spec(p).mag(), n * e, d * e);
}

/// Of the same total below 2^23, a larger part has a larger share.
pub proof fn law_larger_part_has_larger_share(a: nat, b: nat, total: nat)
    requires
        a < b <= total,
        total < 0x80_0000,
    ensures
        Scalar::ratio_spec(a, total).lt_spec(Scalar::ratio_spec(b, total)),
{
    law_ratio_is_nearest(a, total);
    law_ratio_is_nearest(b, total);
    crate::counts::law_ratio_keeps_order(a as u64, b as u64, total as u64);
    crate::counts::law_ratio_is_a_share(b as u64, total as u64);
    let (r, s) = (Scalar::ratio_spec(a, total), Scalar::ratio_spec(b, total));
    if r.key() == s.key() {
        let m = r.mag();
        let o = one_units();
        lemma_one_value();
        assert(0 < m <= ONE_BITS);
        lemma_magnitude_step(m);
        lemma_magnitude_step(m - 1);
        lemma2_to64();
        lemma_exponent_of_share(m);
        lemma_exponent_of_share(m - 1);
        lemma_pow2_adds(1, 126);
        lemma_pow2_adds(22, 127);
        let gap = magnitude(m + 1) - magnitude(m - 1);
        let t = total as int;
        assert(gap <= pow2(127));
        assert((magnitude(m - 1) + magnitude(m)) * t <= 2 * (a * o));
        assert(2 * (b * o) <= (magnitude(m) + magnitude(m + 1)) * t);
        assert(2 * o <= gap * t) by (nonlinear_arith)
            requires
                (magnitude(m - 1) + magnitude(m)) * t <= 2 * (a * o),
                2 * (b * o) <= (magnitude(m) + magnitude(m + 1)) * t,
                gap == magnitude(m + 1) - magnitude(m - 1),
                a + 1 <= b,
                o > 0,
        ;
        lemma_pow2_pos(127);
        assert(gap * t < 2 * o) by (nonlinear_arith)
            requires
                0 <= gap <= pow2(127),
                0 <= t < 0x80_0000,
                o == 0x40_0000 * pow2(127),
                pow2(127) > 0,
        ;
    }
}

proof fn lemma_exponent_of_share(m: int)
    requires
        0 <= m <= ONE_BITS,
    ensures
        pow2(exponent_of(m)) <= pow2(126),
{
    if exponent_of(m) < 126 {
        vstd::arithmetic::power2::lemma_pow2_strictly_increases(exponent_of(m), 126);
    }
}

/// Adding the same to two numbers keeps their order.
pub proof fn law_sum_keeps_order(a: Scalar, b: Scalar, x: Scalar)
    requires
        a.le_spec(b),
        !a.plus_spec(x).nan(),
        !b.plus_spec(x).nan(),
    ensures
        a.plus_spec(x).le_spec(b.plus_spec(x)),
{
    if a.finite() && b.finite() && x.finite() {
        law_order_is_numeric(a, b);
        law_sum_is_nearest(a, x);
        law_sum_is_nearest(b, x);
        let (n, m) = (a.units() + x.units(), b.units() + x.units());
        let (p, q) = (a.plus_spec(x).mag(), b.plus_spec(x).mag());
        if n > 0 {
            lemma_nearest_monotone(p, n, q, m, 1);
        }
        if m < 0 {
            lemma_nearest_monotone(q, -m, p, -n, 1);
        }
    }
}

/// A zero changes no value that it is added to.
pub proof fn lemma_plus_zero(x: Scalar, zero: Scalar)
    requires
        zero.mag() == 0,
    ensures
        x.plus_spec(zero).nan() <==> x.nan(),
        !x.nan() ==> x.plus_spec(zero).key() == x.key(),
        !x.nan() ==> zero.plus_spec(x).key() == x.key(),
        zero.plus_spec(x).nan() <==> x.nan(),
{
    lemma_zero_value(x);
    lemma_zero_value(zero);
    if x.finite() && x.mag() != 0 {
        lemma_number_is_nearest(x.mag(), 1);
        lemma_nearest_exists(x.abs_units(), 1);
        law_nearest_is_unique(x.mag(), rounded(x.abs_units(), 1), x.abs_units(), 1);
    }
}

/// Zero times a finite number is a zero.
pub proof fn lemma_times_zero(zero: Scalar, x: Scalar)
    requires
        zero.mag() == 0,
        x.finite(),
    ensures
        zero.times_spec(x).mag() == 0,
{
    lemma_zero_value(zero);
    law_product_is_nearest(zero, x);
    lemma_one_value();
    let o = one_units();
    assert(zero.abs_units() * x.abs_units() == 0) by (nonlinear_arith)
        requires
            zero.abs_units() == 0,
    ;
    lemma_number_is_nearest(0, o);
    assert(magnitude(0) * o == 0) by (nonlinear_arith)
        requires
            magnitude(0) == 0,
    ;
    law_nearest_is_unique(0, zero.times_spec(x).mag(), 0, o);
}

/// Adding to equal values gives equal values.
pub proof fn lemma_plus_same_value(a: Scalar, b: Scalar, x: Scalar)
    requires
        a.nan() <==> b.nan(),
        !a.nan() ==> a.key() == b.key(),
    ensures
        a.plus_spec(x).nan() <==> b.plus_spec(x).nan(),
        !a.plus_spec(x).nan() ==> a.plus_spec(x).key() == b.plus_spec(x).key(),
{
    if !a.nan() {
        assert(a.mag() == b.mag());
        if a.mag() == 0 {
            lemma_plus_zero(x, a);
            lemma_plus_zero(x, b);
        } else {
            assert(a.bits == b.bits);
        }
    }
}

/// A share of counts of any size is the number nearest to the quotient of the numbers of the two
/// counts.
pub proof fn law_ratio_of_large_counts(part: u64, total: u64)
    requires
        total > 0,
    ensures
        !Scalar::ratio_spec(part as nat, total as nat).nan(),
        !Scalar::ratio_spec(part as nat, total as nat).negative(),
        nearest(
            Scalar::ratio_spec(part as nat, total as nat).mag(),
            Scalar::from_count_spec(part as nat).abs_units() * one_units(),
            Scalar::from_count_spec(total as nat).abs_units(),
        ),
{
    crate::counts::lemma_count_finite(part);
    crate::counts::lemma_count_finite(total);
    crate::counts::law_counts_keep_order(total as nat, total as nat);
    law_count_is_nearest(part as nat);
    law_count_is_nearest(total as nat);
    law_quotient_is_nearest(
        Scalar::from_count_spec(part as nat),
        Scalar::from_count_spec(total as nat),
    );
}

/// A pattern stands for no number exactly where all bits of its exponent are set and those of its
/// fraction are not all clear; it is finite where a bit of the exponent is clear.
pub proof fn law_kinds_of_patterns(x: Scalar)
    ensures
        x.nan() <==> (x.bits as int / 0x80_0000) % 256 == 255 && x.bits as int % 0x80_0000 != 0,
        x.infinite() <==> (x.bits as int / 0x80_0000) % 256 == 255 && x.bits as int % 0x80_0000
            == 0,
        x.finite() <==> (x.bits as int / 0x80_0000) % 256 != 255,
        x.negative() <==> x.bits as int / 0x8000_0000 == 1,
{
}

/// Each step of the exponent doubles the value, and the pattern of one has the value one.
pub proof fn law_exponent_doubles(m: int)
    requires
        0x80_0000 <= m,
    ensures
        magnitude(m + 0x80_0000) == 2 * magnitude(m),
        magnitude(ONE_BITS as int) == one_units(),
        magnitude(0) == 0,
        magnitude(1) == 1,
{
    lemma_one_value();
    let e = (m / 0x80_0000 - 1) as nat;
    let s = 0x80_0000 + m % 0x80_0000;
    assert((m + 0x80_0000) / 0x80_0000 == m / 0x80_0000 + 1);
    assert((m + 0x80_0000) % 0x80_0000 == m % 0x80_0000);
    assert(((m + 0x80_0000) / 0x80_0000 - 1) as nat == e + 1);
    vstd::arithmetic::power2::lemma_pow2_unfold(e + 1);
    let p = pow2(e) as int;
    assert(s * (2 * p) == 2 * (s * p)) by (nonlinear_arith);
}

/// Which number is nearest to a fraction, for significands of full length.
pub proof fn lemma_nearest_form(s: int, e: nat, n: int, d: int)
    requires
        0x80_0000 < s < 0x100_0000,
        e < 149,
        d > 0,
        (2 * s - 1) * d < 2 * n * pow2((149 - e) as nat) < (2 * s + 1) * d,
    ensures
        nearest(e * 0x80_0000 + s, n * one_units(), d),
{
    lemma_magnitude_form(s - 1, e);
    lemma_magnitude_form(s, e);
    lemma_magnitude_form(s + 1, e);
    lemma_pow2_adds((149 - e) as nat, e);
    lemma_pow2_pos(e);
    let (p, q) = (pow2(e) as int, pow2((149 - e) as nat) as int);
    let m = e * 0x80_0000 + s;
    assert((magnitude(m - 1) + magnitude(m)) * d == (2 * s - 1) * d * p) by (nonlinear_arith)
        requires
            magnitude(m - 1) == (s - 1) * p,
            magnitude(m) == s * p,
    ;
    assert((magnitude(m) + magnitude(m + 1)) * d == (2 * s + 1) * d * p) by (nonlinear_arith)
        requires
            magnitude(m + 1) == (s + 1) * p,
            magnitude(m) == s * p,
    ;
    assert(2 * (n * (q * p)) == (2 * n * q) * p) by (nonlinear_arith);
    let (x, y, z) = ((2 * s - 1) * d, 2 * n * q, (2 * s + 1) * d);
    assert(x * p < y * p && y * p < z * p) by (nonlinear_arith)
        requires
            x < y < z,
            p > 0,
    ;
}

/// The nearest number is nearest: no other finite one is closer to the fraction, and of two that
/// are as close the one with the even pattern is taken.
pub proof fn law_no_number_is_closer(m: int, n: int, d: int, k: int)
    requires
        nearest(m, n, d),
        d > 0,
        m < INFINITY_BITS,
        0 <= k < INFINITY_BITS,
        k != m,
    ensures
        ({
            let near = magnitude(m) * d - n;
            let far = magnitude(k) * d - n;
            &&& -far <= near <= far || far <= near <= -far
            &&& near == far || near == -far ==> m % 2 == 0
        }),
{
    let (x, y) = (magnitude(m) * d, magnitude(k) * d);
    if k < m {
        lemma_magnitude_step(m - 1);
        if k < m - 1 {
            lemma_magnitude_increases(k, m - 1);
        }
        let z = magnitude(m - 1) * d;
        assert((magnitude(m - 1) + magnitude(m)) * d == z + x) by (nonlinear_arith)
            requires
                z == magnitude(m - 1) * d,
                x == magnitude(m) * d,
        ;
        assert(y <= z < x) by (nonlinear_arith)
            requires
                z == magnitude(m - 1) * d,
                x == magnitude(m) * d,
                y == magnitude(k) * d,
                magnitude(k) <= magnitude(m - 1) < magnitude(m),
                d > 0,
        ;
    } else {
        lemma_magnitude_step(m);
        if m + 1 < k {
            lemma_magnitude_increases(m + 1, k);
        }
        let z = magnitude(m + 1) * d;
        assert((magnitude(m) + magnitude(m + 1)) * d == x + z) by (nonlinear_arith)
            requires
                z == magnitude(m + 1) * d,
                x == magnitude(m) * d,
        ;
        assert(x < z <= y) by (nonlinear_arith)
            requires
                z == magnitude(m + 1) * d,
                x == magnitude(m) * d,
                y == magnitude(k) * d,
                magnitude(m) < magnitude(m + 1) <= magnitude(k),
                d > 0,
        ;
    }
}

} // verus!
