//! Single-precision arithmetic: each result is the exact one, rounded to the nearest number.

use crate::rounding::{bracketed, law_nearest_is_unique, nearest, round};
use crate::scalar::{
    INFINITY_BITS, NAN_BITS, SIGN_BIT, Scalar, lemma_magnitude_increases, magnitude, one_units,
};
use vstd::arithmetic::power2::{lemma2_to64, lemma_pow2_adds, lemma_pow2_pos, pow2};
use vstd::bits::{lemma_u64_shl_is_mul, lemma_u64_shr_is_div};
use vstd::prelude::*;

verus! {

/// The pattern of the number nearest to `n / d` units.
pub open spec fn rounded(n: int, d: int) -> int {
    choose|m: int| nearest(m, n, d)
}

/// The number with the given sign and magnitude pattern.
pub open spec fn signed(negative: bool, m: int) -> Scalar {
    Scalar {
        bits: (if negative {
            0x8000_0000 + m
        } else {
            m
        }) as u32,
    }
}

/// What every operation gives where its result is not a number.
pub open spec fn not_a_number() -> Scalar {
    Scalar { bits: NAN_BITS }
}

/// The value of a first term with the exponent `ea`, with a second one added or taken away.
spec fn combined(a: int, ea: nat, b: int, eb: nat, subtract: bool) -> int {
    if subtract {
        a * pow2(ea) - b * pow2(eb)
    } else {
        a * pow2(ea) + b * pow2(eb)
    }
}

impl Scalar {
    /// The absolute value, in units of the smallest positive number.
    pub open spec fn abs_units(self) -> int {
        magnitude(self.mag())
    }

    /// The number nearest to the count `c`.
    pub open spec fn from_count_spec(c: nat) -> Scalar {
        signed(false, rounded(c * one_units(), 1))
    }

    /// The sum. Infinities of unlike sign have none, and an exact zero is positive unless both
    /// terms are negative zeros.
    pub open spec fn plus_spec(self, other: Scalar) -> Scalar {
        let n = self.units() + other.units();
        if self.nan() || other.nan() {
            not_a_number()
        } else if self.infinite() {
            if other.infinite() && self.negative() != other.negative() {
                not_a_number()
            } else {
                self
            }
        } else if other.infinite() {
            other
        } else if n == 0 {
            signed(self.negative() && other.negative(), 0)
        } else if n < 0 {
            signed(true, rounded(-n, 1))
        } else {
            signed(false, rounded(n, 1))
        }
    }

    /// The product. Infinity times zero has none.
    pub open spec fn times_spec(self, other: Scalar) -> Scalar {
        let negative = self.negative() != other.negative();
        if self.nan() || other.nan() {
            not_a_number()
        } else if self.infinite() || other.infinite() {
            if self.mag() == 0 || other.mag() == 0 {
                not_a_number()
            } else {
                signed(negative, INFINITY_BITS as int)
            }
        } else {
            signed(negative, rounded(self.abs_units() * other.abs_units(), one_units()))
        }
    }

    /// The quotient. Zero by zero and infinity by infinity have none.
    pub open spec fn over_spec(self, other: Scalar) -> Scalar {
        let negative = self.negative() != other.negative();
        if self.nan() || other.nan() || (self.infinite() && other.infinite()) || (self.mag() == 0
            && other.mag() == 0) {
            not_a_number()
        } else if self.infinite() || other.mag() == 0 {
            signed(negative, INFINITY_BITS as int)
        } else if other.infinite() {
            signed(negative, 0)
        } else {
            signed(negative, rounded(self.abs_units() * one_units(), other.abs_units()))
        }
    }

    /// The whole part as a count; zero where that is negative or no number, and the largest
    /// count where it does not fit.
    pub open spec fn to_count_spec(self) -> nat {
        if self.nan() || self.negative() {
            0
        } else if self.abs_units() / one_units() > usize::MAX {
            usize::MAX as nat
        } else {
            (self.abs_units() / one_units()) as nat
        }
    }

    /// The larger of the two; a number is preferred to what is not one.
    pub open spec fn max_spec(self, other: Scalar) -> Scalar {
        if self.nan() || (!other.nan() && self.key() < other.key()) {
            other
        } else {
            self
        }
    }

    /// The smaller of the two; a number is preferred to what is not one.
    pub open spec fn min_spec(self, other: Scalar) -> Scalar {
        if self.nan() || (!other.nan() && other.key() < self.key()) {
            other
        } else {
            self
        }
    }

    /// Significand and exponent of a finite number.
    pub(crate) fn parts(self) -> (r: (u64, u32))
        requires
            self.finite(),
        ensures
            r.0 * pow2(r.1 as nat) == self.abs_units(),
            r.0 < 0x100_0000,
            r.1 <= 253,
            r.1 > 0 ==> r.0 >= 0x80_0000,
            r.0 == 0 <==> self.mag() == 0,
    {
        let m: u32 = self.abs_bits();
        if m < 0x80_0000 {
            proof {
                lemma2_to64();
            }
            (m as u64, 0)
        } else {
            ((0x80_0000 + m % 0x80_0000) as u64, m / 0x80_0000 - 1)
        }
    }

    /// The number with the given sign and magnitude pattern.
    fn with_sign(negative: bool, m: u32) -> (r: Scalar)
        requires
            m <= INFINITY_BITS,
        ensures
            r == signed(negative, m as int),
    {
        if negative {
            Scalar { bits: SIGN_BIT + m }
        } else {
            Scalar { bits: m }
        }
    }

    /// The number nearest to a count.
    pub fn from_count(c: u64) -> (r: Scalar)
        ensures
            r == Scalar::from_count_spec(c as nat),
    {
        let ghost n = c * one_units();
        proof {
            lemma_pow2_adds(2, 149);
            lemma2_to64();
            let o = one_units();
            assert(c * pow2(151) * 1 == 4 * (c * o)) by (nonlinear_arith)
                requires
                    pow2(151) == 4 * o,
            ;
        }
        let m: u32;
        if c == 0 {
            m = round(0, 0, false, Ghost(n), Ghost(1));
        } else if c < 0x4000_0000_0000_0000 {
            proof {
                lemma_pow2_pos(151);
                assert((c + 1) * pow2(151) * 1 > c * pow2(151) * 1) by (nonlinear_arith)
                    requires
                        pow2(151) > 0,
                ;
            }
            m = round(c, 151, false, Ghost(n), Ghost(1));
        } else {
            let sig: u64 = c / 4;
            let rest: u64 = c % 4;
            proof {
                lemma_pow2_adds(2, 151);
                lemma_pow2_pos(151);
                let p = pow2(151) as int;
                assert(sig * pow2(153) * 1 == (c - rest) * p) by (nonlinear_arith)
                    requires
                        pow2(153) == 4 * p,
                        c == 4 * sig + rest,
                ;
                assert((sig + 1) * pow2(153) * 1 == (c - rest + 4) * p) by (nonlinear_arith)
                    requires
                        pow2(153) == 4 * p,
                        c == 4 * sig + rest,
                ;
                assert((c - rest) * p <= c * p < (c - rest + 4) * p) by (nonlinear_arith)
                    requires
                        0 <= rest < 4,
                        p > 0,
                ;
                assert((c - rest) * p == c * p <==> rest == 0) by (nonlinear_arith)
                    requires
                        0 <= rest < 4,
                        p > 0,
                ;
            }
            m = round(sig, 153, rest != 0, Ghost(n), Ghost(1));
        }
        proof {
            law_nearest_is_unique(m as int, rounded(n, 1), n, 1);
        }
        Scalar::with_sign(false, m)
    }

    /// The product.
    pub fn times(self, other: Scalar) -> (r: Scalar)
        ensures
            r == self.times_spec(other),
    {
        let negative: bool = (self.bits >= SIGN_BIT) != (other.bits >= SIGN_BIT);
        let (a, b) = (self.abs_bits(), other.abs_bits());
        if a > INFINITY_BITS || b > INFINITY_BITS {
            return Scalar { bits: NAN_BITS };
        }
        if a == INFINITY_BITS || b == INFINITY_BITS {
            if a == 0 || b == 0 {
                return Scalar { bits: NAN_BITS };
            }
            return Scalar::with_sign(negative, INFINITY_BITS);
        }
        let m = self.product_pattern(other);
        Scalar::with_sign(negative, m)
    }

    /// The pattern nearest to the product of two finite magnitudes.
    fn product_pattern(self, other: Scalar) -> (r: u32)
        requires
            self.finite(),
            other.finite(),
        ensures
            r == rounded(self.abs_units() * other.abs_units(), one_units()),
            r <= INFINITY_BITS,
    {
        let (x, ex) = self.parts();
        let (y, ey) = other.parts();
        let ghost n = self.abs_units() * other.abs_units();
        let ghost d = one_units();
        proof {
            lemma_pow2_pos(149);
            lemma_pow2_pos(147);
            lemma_pow2_adds(ex as nat, ey as nat);
            lemma_pow2_adds(2, 147);
            lemma2_to64();
            let (p, q, t) = (pow2(ex as nat) as int, pow2(ey as nat) as int, pow2(147) as int);
            lemma_pow2_pos((ex + ey) as nat);
            assert(x * y < 0x100_0000 * 0x100_0000) by (nonlinear_arith)
                requires
                    0 <= x < 0x100_0000,
                    0 <= y < 0x100_0000,
            ;
            assert((x * y) * (p * q) * d == 4 * n * t) by (nonlinear_arith)
                requires
                    n == (x * p) * (y * q),
                    d == 4 * t,
            ;
            assert((x * y + 1) * (p * q) * d == (x * y) * (p * q) * d + (p * q) * d)
                by (nonlinear_arith);
            assert((p * q) * d > 0) by (nonlinear_arith)
                requires
                    p * q > 0,
                    d > 0,
            ;
        }
        let sig: u64 = x * y;
        let m: u32;
        if sig == 0 {
            proof {
                assert(n == 0) by (nonlinear_arith)
                    requires
                        n == (x * pow2(ex as nat)) * (y * pow2(ey as nat)),
                        x * y == 0,
                ;
                lemma_zero_bracketed(d);
            }
            m = round(0, 0, false, Ghost(n), Ghost(d));
        } else {
            m = crate::rounding::round_scaled(sig, ex + ey, 147, false, Ghost(n), Ghost(d));
        }
        proof {
            law_nearest_is_unique(m as int, rounded(n, d), n, d);
        }
        m
    }

    /// The quotient.
    pub fn over(self, other: Scalar) -> (r: Scalar)
        ensures
            r == self.over_spec(other),
    {
        let negative: bool = (self.bits >= SIGN_BIT) != (other.bits >= SIGN_BIT);
        let (a, b) = (self.abs_bits(), other.abs_bits());
        if a > INFINITY_BITS || b > INFINITY_BITS || (a == INFINITY_BITS && b == INFINITY_BITS)
            || (a == 0 && b == 0) {
            return Scalar { bits: NAN_BITS };
        }
        if a == INFINITY_BITS || b == 0 {
            return Scalar::with_sign(negative, INFINITY_BITS);
        }
        if b == INFINITY_BITS {
            return Scalar::with_sign(negative, 0);
        }
        let m = self.quotient_pattern(other);
        Scalar::with_sign(negative, m)
    }

    /// Significand with exactly 24 digits, the shift that gave it, and the exponent, of a finite
    /// number other than zero.
    fn normal_parts(self) -> (r: (u64, u32, u32))
        requires
            self.finite(),
            self.mag() > 0,
        ensures
            self.abs_units() * pow2(r.1 as nat) == r.0 * pow2(r.2 as nat),
            0x80_0000 <= r.0 < 0x100_0000,
            r.1 <= 23,
            r.2 <= 253,
    {
        let (x, e) = self.parts();
        let mut sig: u64 = x;
        let mut k: u32 = 0;
        proof {
            lemma2_to64();
        }
        while sig < 0x80_0000
            invariant
                sig == x * pow2(k as nat),
                0 < x < 0x100_0000,
                0 < sig < 0x100_0000,
                sig >= pow2(k as nat),
                k <= 23,
            decreases 0x100_0000 - sig,
        {
            proof {
                vstd::arithmetic::power2::lemma_pow2_unfold((k + 1) as nat);
                let p = pow2(k as nat) as int;
                assert(x * (2 * p) == 2 * (x * p)) by (nonlinear_arith);
                lemma2_to64();
                if k >= 23 {
                    assert(pow2(23) == 0x80_0000);
                }
            }
            sig = 2 * sig;
            k = k + 1;
        }
        proof {
            let (p, q) = (pow2(k as nat) as int, pow2(e as nat) as int);
            assert((x * q) * p == (x * p) * q) by (nonlinear_arith);
        }
        (sig, k, e)
    }

    /// The pattern nearest to the quotient of two finite magnitudes.
    fn quotient_pattern(self, other: Scalar) -> (r: u32)
        requires
            self.finite(),
            other.finite(),
            other.mag() > 0,
        ensures
            r == rounded(self.abs_units() * one_units(), other.abs_units()),
            r <= INFINITY_BITS,
    {
        let ghost n = self.abs_units() * one_units();
        let ghost d = other.abs_units();
        proof {
            lemma_magnitude_increases(0, other.mag());
            lemma2_to64();
        }
        let m: u32;
        if self.abs_bits() == 0 {
            proof {
                assert(self.abs_units() == 0);
                assert(0 * one_units() == 0) by (nonlinear_arith);
                lemma_zero_bracketed(d);
            }
            m = round(0, 0, false, Ghost(n), Ghost(d));
        } else {
            let (x, kx, ex) = self.normal_parts();
            let (y, ky, ey) = other.normal_parts();
            let top: u64 = x * 0x40_0000_0000;
            let sig: u64 = top / y;
            let rest: u64 = top % y;
            proof {
                assert(sig * y + rest == top) by {
                    vstd::arithmetic::div_mod::lemma_fundamental_div_mod(top as int, y as int);
                    assert(y * sig == sig * y) by (nonlinear_arith);
                }
                assert(0x200_0000 <= sig < 0x4000_0000_0000_0000) by (nonlinear_arith)
                    requires
                        sig * y + rest == top,
                        top == x * 0x40_0000_0000,
                        0x80_0000 <= x < 0x100_0000,
                        0x80_0000 <= y < 0x100_0000,
                        0 <= rest < y,
                        sig >= 0,
                ;
                lemma_quotient_scaled(
                    x as int,
                    kx as nat,
                    ex as nat,
                    y as int,
                    ky as nat,
                    ey as nat,
                    sig as int,
                    rest as int,
                    self.abs_units(),
                    d,
                );
            }
            m = crate::rounding::round_scaled(
                sig,
                ex + ky + 113,
                kx + ey,
                rest != 0,
                Ghost(n),
                Ghost(d),
            );
        }
        proof {
            law_nearest_is_unique(m as int, rounded(n, d), n, d);
        }
        m
    }

    /// The sum.
    pub fn plus(self, other: Scalar) -> (r: Scalar)
        ensures
            r == self.plus_spec(other),
    {
        let negative: bool = self.bits >= SIGN_BIT;
        let other_negative: bool = other.bits >= SIGN_BIT;
        let (a, b) = (self.abs_bits(), other.abs_bits());
        if a > INFINITY_BITS || b > INFINITY_BITS {
            return Scalar { bits: NAN_BITS };
        }
        if a == INFINITY_BITS {
            if b == INFINITY_BITS && negative != other_negative {
                return Scalar { bits: NAN_BITS };
            }
            return self;
        }
        if b == INFINITY_BITS {
            return other;
        }
        let (x, ex) = self.parts();
        let (y, ey) = other.parts();
        let (below_zero, zero, m) = if ex >= ey {
            let (flip, m) = combine(x, ex, y, ey, negative != other_negative);
            (negative != flip, m == 0, m)
        } else {
            let (flip, m) = combine(y, ey, x, ex, negative != other_negative);
            (other_negative != flip, m == 0, m)
        };
        if zero {
            Scalar::with_sign(negative && other_negative, 0)
        } else {
            Scalar::with_sign(below_zero, m)
        }
    }

    /// The difference.
    pub open spec fn minus_spec(self, other: Scalar) -> Scalar {
        self.plus_spec(other.negated_spec())
    }

    /// The number with the other sign.
    pub open spec fn negated_spec(self) -> Scalar {
        Scalar {
            bits: if self.negative() {
                (self.bits - SIGN_BIT) as u32
            } else {
                (self.bits + SIGN_BIT) as u32
            },
        }
    }

    /// The number with the other sign.
    pub fn negated(self) -> (r: Scalar)
        ensures
            r == self.negated_spec(),
    {
        if self.bits >= SIGN_BIT {
            Scalar { bits: self.bits - SIGN_BIT }
        } else {
            Scalar { bits: self.bits + SIGN_BIT }
        }
    }

    /// The difference.
    pub fn minus(self, other: Scalar) -> (r: Scalar)
        ensures
            r == self.minus_spec(other),
    {
        self.plus(other.negated())
    }

    /// The larger of the two; a number is preferred to what is not one.
    pub fn max(self, other: Scalar) -> (r: Scalar)
        ensures
            r == self.max_spec(other),
    {
        if self.is_nan() || self.lt(other) {
            other
        } else {
            self
        }
    }

    /// The smaller of the two; a number is preferred to what is not one.
    pub fn min(self, other: Scalar) -> (r: Scalar)
        ensures
            r == self.min_spec(other),
    {
        if self.is_nan() || other.lt(self) {
            other
        } else {
            self
        }
    }
}

proof fn lemma_zero_bracketed(d: int)
    requires
        d > 0,
    ensures
        bracketed(0, 0, false, 0, d),
{
    lemma2_to64();
    assert(0 * pow2(0) * d == 0) by (nonlinear_arith);
    assert((0 + 1) * pow2(0) * d == d) by (nonlinear_arith)
        requires
            pow2(0) == 1,
    ;
}

/// The sum or difference of two magnitudes that are exact in units of the second exponent.
fn combine_near(a: u64, ea: u32, b: u64, eb: u32, subtract: bool) -> (r: (bool, u32))
    requires
        a < 0x100_0000,
        b < 0x100_0000,
        eb <= ea <= eb + 37,
        ea <= 253,
    ensures
        ({
            let v = combined(a as int, ea as nat, b as int, eb as nat, subtract);
            &&& r.0 == (v < 0)
            &&& v == 0 ==> r.1 == 0
            &&& v > 0 ==> r.1 == rounded(v, 1)
            &&& v < 0 ==> r.1 == rounded(-v, 1)
            &&& v != 0 ==> 0 < r.1 <= INFINITY_BITS
        }),
{
    let shift: u64 = (ea - eb) as u64;
    let ghost v = combined(a as int, ea as nat, b as int, eb as nat, subtract);
    let ghost p = pow2(eb as nat) as int;
    let ghost c = pow2(shift as nat) as int;
    proof {
        lemma2_to64();
        vstd::arithmetic::power2::lemma2_to64_rest();
        lemma_pow2_pos(eb as nat);
        lemma_pow2_adds(shift as nat, eb as nat);
        lemma_pow2_adds(2, eb as nat);
        if shift < 37 {
            vstd::arithmetic::power2::lemma_pow2_strictly_increases(shift as nat, 37);
        }
        assert(0 <= a * c <= 0x100_0000 * 0x20_0000_0000) by (nonlinear_arith)
            requires
                0 <= a < 0x100_0000,
                0 < c <= 0x20_0000_0000,
        ;
        lemma_u64_shl_is_mul(a, shift);
        assert(a * (c * p) == (a * c) * p) by (nonlinear_arith);
    }
    let top: u64 = a << shift;
    let below_zero: bool = subtract && top < b;
    let sig: u64 = if !subtract {
        top + b
    } else if top < b {
        b - top
    } else {
        top - b
    };
    let ghost n = if v < 0 {
        -v
    } else {
        v
    };
    proof {
        assert(top * p + b * p == (top + b) * p) by (nonlinear_arith);
        assert(top * p - b * p == (top - b) * p) by (nonlinear_arith);
        assert(b * p - top * p == (b - top) * p) by (nonlinear_arith);
        assert(sig * p >= 0) by (nonlinear_arith)
            requires
                sig >= 0,
                p > 0,
        ;
        assert(sig > 0 ==> sig * p > 0) by (nonlinear_arith)
            requires
                p > 0,
        ;
        assert(n == sig * p);
        assert(sig * (4 * p) * 1 == 4 * n) by (nonlinear_arith)
            requires
                n == sig * p,
        ;
        assert((sig + 1) * (4 * p) * 1 == 4 * n + 4 * p) by (nonlinear_arith)
            requires
                n == sig * p,
        ;
    }
    if sig == 0 {
        return (false, 0);
    }
    let m = round(sig, eb + 2, false, Ghost(n), Ghost(1));
    proof {
        law_nearest_is_unique(m as int, rounded(n, 1), n, 1);
        lemma_positive_rounds_up(m as int, n);
    }
    (below_zero, m)
}

/// A value of at least one unit does not round to zero.
proof fn lemma_positive_rounds_up(m: int, n: int)
    requires
        nearest(m, n, 1),
        n >= 1,
    ensures
        m > 0,
{
    if m == 0 {
        assert(magnitude(0) == 0 && magnitude(1) == 1);
        assert((magnitude(0) + magnitude(1)) * 1 == 1);
    }
}

/// The sum or difference of two magnitudes of which the second is far below the first.
fn combine_far(a: u64, ea: u32, b: u64, eb: u32, subtract: bool) -> (r: u32)
    requires
        0x80_0000 <= a < 0x100_0000,
        b < 0x100_0000,
        eb + 37 < ea <= 253,
    ensures
        ({
            let v = combined(a as int, ea as nat, b as int, eb as nat, subtract);
            &&& v > 0
            &&& r == rounded(v, 1)
            &&& 0 < r <= INFINITY_BITS
        }),
{
    let k: u64 = (ea - eb - 37) as u64;
    let ghost v = combined(a as int, ea as nat, b as int, eb as nat, subtract);
    let ghost p = pow2(eb as nat) as int;
    let ghost c = pow2(k as nat) as int;
    let ghost g = pow2((ea - 37) as nat) as int;
    proof {
        lemma2_to64();
        vstd::arithmetic::power2::lemma2_to64_rest();
        lemma_pow2_pos(eb as nat);
        lemma_pow2_pos(k as nat);
        lemma_pow2_pos((ea - 37) as nat);
        lemma_pow2_adds(k as nat, eb as nat);
        assert(k as nat + eb as nat == (ea - 37) as nat);
        lemma_pow2_adds(37, (ea - 37) as nat);
        lemma_pow2_adds(2, (ea - 37) as nat);
    }
    let top: u64 = a * 0x20_0000_0000;
    let kept: u64;
    let whole: bool;
    let ghost lost: int;
    if k < 24 {
        proof {
            lemma_u64_shr_is_div(b, k);
            vstd::arithmetic::power2::lemma_pow2_strictly_increases(k as nat, 24);
            vstd::arithmetic::div_mod::lemma_fundamental_div_mod(b as int, c);
            vstd::arithmetic::div_mod::lemma_mod_bound(b as int, c);
            lemma_u64_shl_is_mul((b >> k), k);
            assert((b >> k) * c == c * (b >> k)) by (nonlinear_arith);
        }
        kept = b >> k;
        whole = (kept << k) == b;
        proof {
            lost = b as int % c;
        }
    } else {
        kept = 0;
        whole = b == 0;
        proof {
            if k > 24 {
                vstd::arithmetic::power2::lemma_pow2_strictly_increases(24, k as nat);
            }
            lost = b as int;
        }
    }
    proof {
        assert(0 <= kept <= b) by (nonlinear_arith)
            requires
                b == kept * c + lost,
                lost >= 0,
                c > 0,
                kept >= 0,
        ;
        assert(a * (0x20_0000_0000 * g) == top * g) by (nonlinear_arith)
            requires
                top == a * 0x20_0000_0000,
        ;
        assert(b * p == kept * g + lost * p) by (nonlinear_arith)
            requires
                b == kept * c + lost,
                g == c * p,
        ;
        assert(0 <= lost * p < g) by (nonlinear_arith)
            requires
                0 <= lost < c,
                g == c * p,
                p > 0,
        ;
        assert(lost != 0 ==> lost * p > 0) by (nonlinear_arith)
            requires
                0 <= lost,
                p > 0,
        ;
    }
    let sig: u64 = if !subtract {
        top + kept
    } else if whole {
        top - kept
    } else {
        top - kept - 1
    };
    proof {
        assert((top + kept) * g == top * g + kept * g) by (nonlinear_arith);
        assert((top - kept) * g == top * g - kept * g) by (nonlinear_arith);
        assert((top - kept - 1) * g == top * g - kept * g - g) by (nonlinear_arith);
        assert(sig * (4 * g) * 1 == 4 * (sig * g)) by (nonlinear_arith);
        assert((sig + 1) * (4 * g) * 1 == 4 * (sig * g) + 4 * g) by (nonlinear_arith);
        assert(sig * g >= 1) by (nonlinear_arith)
            requires
                sig >= 1,
                g >= 1,
        ;
    }
    let m = round(sig, ea - 35, !whole, Ghost(v), Ghost(1));
    proof {
        law_nearest_is_unique(m as int, rounded(v, 1), v, 1);
        lemma_positive_rounds_up(m as int, v);
    }
    m
}

/// The sum or difference of two magnitudes, of which the first has the larger exponent.
fn combine(a: u64, ea: u32, b: u64, eb: u32, subtract: bool) -> (r: (bool, u32))
    requires
        a < 0x100_0000,
        b < 0x100_0000,
        eb <= ea <= 253,
        ea > 0 ==> a >= 0x80_0000,
    ensures
        ({
            let v = combined(a as int, ea as nat, b as int, eb as nat, subtract);
            &&& r.0 == (v < 0)
            &&& v == 0 ==> r.1 == 0
            &&& v > 0 ==> r.1 == rounded(v, 1)
            &&& v < 0 ==> r.1 == rounded(-v, 1)
            &&& v != 0 ==> 0 < r.1 <= INFINITY_BITS
        }),
{
    if ea <= eb + 37 {
        combine_near(a, ea, b, eb, subtract)
    } else {
        (false, combine_far(a, ea, b, eb, subtract))
    }
}

/// The whole quotient of two significands brackets the quotient of the numbers.
proof fn lemma_quotient_scaled(
    x: int,
    kx: nat,
    ex: nat,
    y: int,
    ky: nat,
    ey: nat,
    sig: int,
    rest: int,
    xu: int,
    yu: int,
)
    requires
        xu * pow2(kx) == x * pow2(ex),
        yu * pow2(ky) == y * pow2(ey),
        sig * y + rest == x * 0x40_0000_0000,
        0 <= rest < y,
    ensures
        crate::rounding::scaled(
            sig,
            ex + ky + 113,
            kx + ey,
            rest != 0,
            xu * one_units(),
            yu,
        ),
{
    lemma_pow2_adds(ex, ky);
    lemma_pow2_adds(ex + ky, 113);
    lemma_pow2_adds(kx, ey);
    lemma_pow2_adds(113, 38);
    lemma_pow2_adds(2, 149);
    lemma2_to64();
    vstd::arithmetic::power2::lemma2_to64_rest();
    lemma_pow2_pos(ex);
    lemma_pow2_pos(ey);
    lemma_pow2_pos(113);
    let (px, qx, py, qy, t, o) = (
        pow2(ex) as int,
        pow2(kx) as int,
        pow2(ey) as int,
        pow2(ky) as int,
        pow2(113) as int,
        one_units(),
    );
    // Both sides are multiples of `g`, the one by the whole quotient and the other by `x`.
    let g = px * py * t;
    assert(g > 0) by (nonlinear_arith)
        requires
            g == px * py * t,
            px > 0,
            py > 0,
            t > 0,
    ;
    assert(pow2(ex + ky + 113) == px * qy * t);
    assert(4 * o == t * 0x40_0000_0000);
    lemma_regroup_left(sig, px, qy, t, yu, y, py);
    lemma_regroup_left(sig + 1, px, qy, t, yu, y, py);
    assert(4 * (xu * o) * (qx * py) == (x * 0x40_0000_0000) * g) by {
        assert(4 * (xu * o) * (qx * py) == (4 * o) * (xu * qx) * py) by (nonlinear_arith);
        assert((t * 0x40_0000_0000) * (x * px) * py == (x * 0x40_0000_0000) * (px * py * t))
            by (nonlinear_arith);
    }
    let (l, r) = (sig * y, x * 0x40_0000_0000);
    assert((sig + 1) * y == l + y) by (nonlinear_arith)
        requires
            l == sig * y,
    ;
    assert(l * g <= r * g) by (nonlinear_arith)
        requires
            l <= r,
            g > 0,
    ;
    assert(r * g < (l + y) * g) by (nonlinear_arith)
        requires
            r < l + y,
            g > 0,
    ;
    assert(l * g == r * g <==> l == r) by (nonlinear_arith)
        requires
            g > 0,
    ;
}

proof fn lemma_regroup_left(s: int, px: int, qy: int, t: int, yu: int, y: int, py: int)
    requires
        yu * qy == y * py,
    ensures
        s * (px * qy * t) * yu == (s * y) * (px * py * t),
{
    assert(s * (px * qy * t) * yu == s * px * t * (yu * qy)) by (nonlinear_arith);
    assert(s * px * t * (y * py) == (s * y) * (px * py * t)) by (nonlinear_arith);
}

} // verus!
