//! Shares of counts as single-precision numbers, and whole counts out of them.

use crate::arith::rounded;
use crate::rounding::{law_nearest_is_unique, lemma_nearest_exists, lemma_nearest_monotone, nearest};
use crate::scalar::{
    INFINITY_BITS, ONE_BITS, SIGN_BIT, Scalar, lemma_magnitude_form, lemma_magnitude_increases,
    magnitude, one_units,
};
use vstd::arithmetic::power2::{lemma2_to64, lemma_pow2_adds, lemma_pow2_pos, pow2};
use vstd::bits::{lemma_u64_shl_is_mul, lemma_u64_shr_is_div};
use vstd::prelude::*;

verus! {

impl Scalar {
    /// The share `part / total`: both counts are rounded to numbers, then divided. Zero by zero
    /// is not a number.
    pub open spec fn ratio_spec(part: nat, total: nat) -> Scalar {
        Scalar::from_count_spec(part).over_spec(Scalar::from_count_spec(total))
    }

    /// The share `part / total`.
    pub fn ratio(part: u64, total: u64) -> (r: Scalar)
        ensures
            r == Scalar::ratio_spec(part as nat, total as nat),
    {
        Scalar::from_count(part).over(Scalar::from_count(total))
    }

    /// The whole part as a count; zero where that is negative or no number, and the largest
    /// count where it does not fit.
    pub fn to_count(self) -> (r: usize)
        ensures
            r == self.to_count_spec(),
    {
        if self.is_nan() || self.bits >= SIGN_BIT {
            return 0;
        }
        let ghost u = self.abs_units();
        let ghost o = one_units();
        proof {
            lemma_pow2_pos(149);
            lemma2_to64();
        }
        if self.bits == INFINITY_BITS {
            proof {
                lemma_magnitude_form(0x80_0000, 254);
                lemma_pow2_adds(105, 149);
                lemma_pow2_adds(64, 41);
                lemma_pow2_pos(41);
                lemma_whole_part((0x80_0000 * pow2(105)) as int, 149, 0);
                assert(0x80_0000 * (pow2(105) * o) == (0x80_0000 * pow2(105)) * o)
                    by (nonlinear_arith);
                assert(pow2(105) >= 0x1_0000_0000_0000_0000) by (nonlinear_arith)
                    requires
                        pow2(105) == 0x1_0000_0000_0000_0000 * pow2(41),
                        pow2(41) > 0,
                ;
            }
            return usize::MAX;
        }
        let (x, e) = self.parts();
        if e >= 149 {
            let shift: u64 = (e - 149) as u64;
            proof {
                lemma_pow2_adds(shift as nat, 149);
                lemma_whole_part(x * pow2(shift as nat), 149, 0);
                let c = pow2(shift as nat) as int;
                assert(x * (c * o) == (x * c) * o) by (nonlinear_arith);
            }
            if shift <= 40 {
                proof {
                    vstd::arithmetic::power2::lemma2_to64_rest();
                    if shift < 40 {
                        vstd::arithmetic::power2::lemma_pow2_strictly_increases(shift as nat, 40);
                    }
                    assert(x * pow2(shift as nat) <= 0xff_ffff * 0x100_0000_0000)
                        by (nonlinear_arith)
                        requires
                            0 <= x <= 0xff_ffff,
                            pow2(shift as nat) <= 0x100_0000_0000,
                    ;
                    lemma_u64_shl_is_mul(x, shift);
                }
                let whole: u64 = x << shift;
                if whole > usize::MAX as u64 {
                    usize::MAX
                } else {
                    whole as usize
                }
            } else {
                proof {
                    lemma_pow2_adds(41, (shift - 41) as nat);
                    lemma_pow2_pos((shift - 41) as nat);
                    vstd::arithmetic::power2::lemma2_to64_rest();
                    assert(x * pow2(shift as nat) >= 0x1_0000_0000_0000_0000) by (nonlinear_arith)
                        requires
                            pow2(shift as nat) == 0x200_0000_0000 * pow2((shift - 41) as nat),
                            pow2((shift - 41) as nat) >= 1,
                            x >= 0x80_0000,
                    ;
                }
                usize::MAX
            }
        } else {
            let k: u64 = (149 - e) as u64;
            let ghost c = pow2(k as nat) as int;
            proof {
                lemma_pow2_adds(k as nat, e as nat);
                lemma_pow2_pos(e as nat);
                lemma_pow2_pos(k as nat);
                lemma_shared_factor(x as int, c, pow2(e as nat) as int);
            }
            if k < 24 {
                proof {
                    lemma_u64_shr_is_div(x, k);
                    assert(x as int / c <= x) by (nonlinear_arith)
                        requires
                            x >= 0,
                            c >= 1,
                    ;
                }
                (x >> k) as usize
            } else {
                proof {
                    if k > 24 {
                        vstd::arithmetic::power2::lemma_pow2_strictly_increases(24, k as nat);
                    }
                    vstd::arithmetic::div_mod::lemma_basic_div(x as int, c);
                }
                0
            }
        }
    }
}

proof fn lemma_whole_part(w: int, e: nat, r: int)
    requires
        0 <= r < pow2(e),
    ensures
        (w * pow2(e) + r) / pow2(e) as int == w,
{
    lemma_pow2_pos(e);
    vstd::arithmetic::div_mod::lemma_fundamental_div_mod_converse(
        w * pow2(e) + r,
        pow2(e) as int,
        w,
        r,
    );
}

proof fn lemma_shared_factor(x: int, c: int, f: int)
    requires
        x >= 0,
        c > 0,
        f > 0,
    ensures
        (x * f) / (c * f) == x / c,
{
    vstd::arithmetic::div_mod::lemma_div_multiples_vanish_quotient(f, x, c);
    assert(x * f == f * x) by (nonlinear_arith);
    assert(c * f == f * c) by (nonlinear_arith);
}

/// The pattern of one stands for one.
pub proof fn lemma_one_value()
    ensures
        magnitude(ONE_BITS as int) == one_units(),
        one_units() > 0,
{
    lemma_magnitude_form(0x80_0000, 126);
    lemma_pow2_adds(23, 126);
    lemma2_to64();
    lemma_pow2_pos(149);
}

/// The number of a count: a number that is not negative, zero exactly for the count zero, and
/// never smaller for a larger count.
pub proof fn law_counts_keep_order(a: nat, b: nat)
    requires
        a <= b,
    ensures
        !Scalar::from_count_spec(a).nan(),
        0 <= Scalar::from_count_spec(a).key() <= Scalar::from_count_spec(b).key(),
        Scalar::from_count_spec(a).bits == 0 <==> a == 0,
{
    lemma_count_pattern(a);
    lemma_count_pattern(b);
    let o = one_units();
    lemma_one_value();
    assert(a * o <= b * o) by (nonlinear_arith)
        requires
            a <= b,
            o > 0,
    ;
    lemma_nearest_monotone(rounded(a * o, 1), a * o, rounded(b * o, 1), b * o, 1);
}

proof fn lemma_count_pattern(c: nat)
    ensures
        nearest(rounded(c * one_units(), 1), c * one_units(), 1),
        Scalar::from_count_spec(c).bits == rounded(c * one_units(), 1),
        rounded(c * one_units(), 1) == 0 <==> c == 0,
{
    let o = one_units();
    lemma_one_value();
    assert(c * o >= 0) by (nonlinear_arith)
        requires
            o > 0,
    ;
    lemma_nearest_exists(c * o, 1);
    let m = rounded(c * o, 1);
    assert(magnitude(0) == 0 && magnitude(1) == 1);
    if c == 0 {
        assert(c * o == 0) by (nonlinear_arith)
            requires
                c == 0,
        ;
        crate::rounding::lemma_number_is_nearest(0, 1);
        law_nearest_is_unique(0, m, 0, 1);
    } else {
        assert(c * o >= 1) by (nonlinear_arith)
            requires
                c >= 1,
                o >= 1,
        ;
        if m == 0 {
            assert((magnitude(0) + magnitude(1)) * 1 == 1);
        }
    }
}

/// A share of a positive count that fits in 64 bits lies between zero and one; it is zero
/// exactly for no part, and one for the whole.
pub proof fn law_ratio_is_a_share(part: u64, total: u64)
    requires
        part <= total,
        total > 0,
    ensures
        !Scalar::ratio_spec(part as nat, total as nat).nan(),
        0 <= Scalar::ratio_spec(part as nat, total as nat).key() <= ONE_BITS,
        Scalar::ratio_spec(part as nat, total as nat).bits == 0 <==> part == 0,
        part == total ==> Scalar::ratio_spec(part as nat, total as nat).bits == ONE_BITS,
{
    lemma_ratio_pattern(part, total);
    let (x, y) = (Scalar::from_count_spec(part as nat), Scalar::from_count_spec(total as nat));
    let o = one_units();
    lemma_one_value();
    law_counts_keep_order(part as nat, total as nat);
    law_counts_keep_order(total as nat, total as nat);
    let (n, d) = (x.abs_units() * o, y.abs_units());
    if x.mag() < y.mag() {
        lemma_magnitude_increases(x.mag(), y.mag());
    }
    assert(n <= o * d) by (nonlinear_arith)
        requires
            n == x.abs_units() * o,
            x.abs_units() <= d,
            o > 0,
    ;
    crate::rounding::lemma_number_is_nearest(ONE_BITS as int, d);
    lemma_nearest_monotone(rounded(n, d), n, ONE_BITS as int, o * d, d);
    if part == 0 {
        assert(n == 0) by (nonlinear_arith)
            requires
                n == x.abs_units() * o,
                x.abs_units() == 0,
        ;
        crate::rounding::lemma_number_is_nearest(0, d);
        assert(magnitude(0) * d == 0) by (nonlinear_arith)
            requires
                magnitude(0) == 0,
        ;
        law_nearest_is_unique(0, rounded(n, d), 0, d);
    }
    if part > 0 {
        lemma_share_is_positive(part, total);
    }
    if part == total {
        assert(n == o * d) by (nonlinear_arith)
            requires
                n == x.abs_units() * o,
                x.abs_units() == d,
        ;
        law_nearest_is_unique(ONE_BITS as int, rounded(n, d), n, d);
    }
}

/// The share of a part is at least one unit, and does not round to zero.
proof fn lemma_share_is_positive(part: u64, total: u64)
    requires
        part > 0,
        total > 0,
    ensures
        Scalar::ratio_spec(part as nat, total as nat).bits != 0,
{
    lemma_ratio_pattern(part, total);
    let (x, y) = (Scalar::from_count_spec(part as nat), Scalar::from_count_spec(total as nat));
    let one = Scalar::from_count_spec(1);
    let o = one_units();
    lemma_one_value();
    law_small_counts_are_exact(1);
    law_counts_keep_order(1, part as nat);
    law_counts_keep_order(part as nat, part as nat);
    if one.mag() < x.mag() {
        lemma_magnitude_increases(one.mag(), x.mag());
    }
    assert(x.abs_units() >= o);
    lemma_count_finite(total);
    lemma_magnitude_increases(y.mag(), INFINITY_BITS as int);
    lemma_magnitude_form(0x80_0000, 254);
    lemma2_to64();
    lemma_pow2_adds(23, 254);
    lemma_pow2_adds(149, 149);
    vstd::arithmetic::power2::lemma_pow2_strictly_increases(277, 298);
    let (n, d) = (x.abs_units() * o, y.abs_units());
    assert(d < pow2(277));
    assert(n >= o * o) by (nonlinear_arith)
        requires
            n == x.abs_units() * o,
            x.abs_units() >= o,
            o > 0,
    ;
    assert(magnitude(0) == 0 && magnitude(1) == 1);
    if rounded(n, d) == 0 {
        assert(2 * n <= (magnitude(0) + magnitude(1)) * d);
    }
}

/// A larger part of the same positive count has no smaller share.
pub proof fn law_ratio_keeps_order(a: u64, b: u64, total: u64)
    requires
        a <= b,
        total > 0,
    ensures
        Scalar::ratio_spec(a as nat, total as nat).le_spec(
            Scalar::ratio_spec(b as nat, total as nat),
        ),
{
    lemma_ratio_pattern(a, total);
    lemma_ratio_pattern(b, total);
    let o = one_units();
    lemma_one_value();
    law_counts_keep_order(a as nat, b as nat);
    let (x, z) = (Scalar::from_count_spec(a as nat), Scalar::from_count_spec(b as nat));
    let d = Scalar::from_count_spec(total as nat).abs_units();
    if x.mag() < z.mag() {
        lemma_magnitude_increases(x.mag(), z.mag());
    }
    let (n, m) = (x.abs_units() * o, z.abs_units() * o);
    assert(n <= m) by (nonlinear_arith)
        requires
            n == x.abs_units() * o,
            m == z.abs_units() * o,
            x.abs_units() <= z.abs_units(),
            o > 0,
    ;
    lemma_nearest_monotone(rounded(n, d), n, rounded(m, d), m, d);
}

/// The share of a positive count is a plain rounded quotient.
proof fn lemma_ratio_pattern(part: u64, total: u64)
    requires
        total > 0,
    ensures
        ({
            let x = Scalar::from_count_spec(part as nat);
            let y = Scalar::from_count_spec(total as nat);
            let n = x.abs_units() * one_units();
            let d = y.abs_units();
            &&& d > 0
            &&& nearest(rounded(n, d), n, d)
            &&& Scalar::ratio_spec(part as nat, total as nat).bits == rounded(n, d)
            &&& !Scalar::ratio_spec(part as nat, total as nat).nan()
            &&& Scalar::ratio_spec(part as nat, total as nat).key() == rounded(n, d)
            &&& !x.negative()
            &&& !y.negative()
        }),
{
    let (x, y) = (Scalar::from_count_spec(part as nat), Scalar::from_count_spec(total as nat));
    let o = one_units();
    lemma_one_value();
    lemma_count_pattern(part as nat);
    lemma_count_pattern(total as nat);
    lemma_count_finite(part);
    lemma_count_finite(total);
    lemma_magnitude_increases(0, y.mag());
    if x.mag() > 0 {
        lemma_magnitude_increases(0, x.mag());
    }
    let (n, d) = (x.abs_units() * o, y.abs_units());
    assert(n >= 0) by (nonlinear_arith)
        requires
            n == x.abs_units() * o,
            x.abs_units() >= 0,
            o > 0,
    ;
    lemma_nearest_exists(n, d);
}

/// A count that fits in 64 bits rounds to a finite number.
pub proof fn lemma_count_finite(c: u64)
    ensures
        Scalar::from_count_spec(c as nat).finite(),
{
    let o = one_units();
    lemma_one_value();
    lemma_count_pattern(c as nat);
    // Two to the power 64, which is above every such count, is a number of its own.
    let top: int = 0x5f80_0000;
    lemma_magnitude_form(0x80_0000, 190);
    lemma_pow2_adds(23, 190);
    lemma_pow2_adds(64, 149);
    lemma2_to64();
    assert(magnitude(top) * 1 == 0x1_0000_0000_0000_0000 * o);
    crate::rounding::lemma_number_is_nearest(top, 1);
    assert(c * o <= 0x1_0000_0000_0000_0000 * o) by (nonlinear_arith)
        requires
            c <= 0x1_0000_0000_0000_0000,
            o > 0,
    ;
    lemma_nearest_monotone(rounded(c * o, 1), c * o, top, magnitude(top) * 1, 1);
}

/// A positive number below 2^24 becomes one with 24 binary digits by doubling.
proof fn lemma_doubling(n: nat, k: nat) -> (r: nat)
    requires
        0 < n,
        n * pow2(k) <= 0x100_0000,
        k <= 23,
    ensures
        r <= 23,
        0x80_0000 <= n * pow2(r) <= 0x100_0000,
    decreases 24 - k,
{
    lemma2_to64();
    if n * pow2(k) >= 0x80_0000 {
        k
    } else {
        vstd::arithmetic::power2::lemma_pow2_unfold(k + 1);
        let p = pow2(k) as int;
        assert(n * (2 * p) == 2 * (n * p)) by (nonlinear_arith);
        if k == 23 {
            assert(n * pow2(23) >= pow2(23)) by (nonlinear_arith)
                requires
                    n >= 1,
            ;
        }
        lemma_doubling(n, k + 1)
    }
}

/// A count of at most 2^24 is a number of its own: rounding does not change it.
pub proof fn law_small_counts_are_exact(c: nat)
    requires
        c <= 0x100_0000,
    ensures
        Scalar::from_count_spec(c).abs_units() == c * one_units(),
        Scalar::from_count_spec(c).finite(),
        !Scalar::from_count_spec(c).negative(),
{
    let o = one_units();
    lemma_one_value();
    lemma_count_pattern(c);
    lemma_count_finite(c as u64);
    if c == 0 {
        assert(c * o == 0) by (nonlinear_arith)
            requires
                c == 0,
        ;
    } else {
        lemma2_to64();
        let k = lemma_doubling(c, 0);
        let e = (149 - k) as nat;
        let s = c * pow2(k);
        lemma_magnitude_form(s as int, e);
        lemma_pow2_adds(k, e);
        let (p, q) = (pow2(k) as int, pow2(e) as int);
        assert((c * p) * q == c * (p * q)) by (nonlinear_arith);
        let m: int = (e * 0x80_0000 + s) as int;
        crate::rounding::lemma_number_is_nearest(m, 1);
        law_nearest_is_unique(m, rounded(c * o, 1), c * o, 1);
    }
}

} // verus!
