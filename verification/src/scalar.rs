//! Single-precision numbers held by their bit pattern, with their exact values and order.

use vstd::arithmetic::power2::{lemma_pow2_pos, lemma_pow2_unfold, pow2};
use vstd::prelude::*;

verus! {

/// Bit pattern of positive infinity; larger magnitudes are not numbers.
pub const INFINITY_BITS: u32 = 0x7f80_0000;

/// The bit that holds the sign.
pub const SIGN_BIT: u32 = 0x8000_0000;

/// The pattern that every operation here gives where its result is not a number.
pub const NAN_BITS: u32 = 0x7fc0_0000;

/// Bit pattern of the number one.
pub const ONE_BITS: u32 = 0x3f80_0000;

/// A single-precision (IEEE 754 binary32) number, held by its bit pattern.
///
/// Equality (`==`) is equality of patterns. Numeric comparison is `lt` and `le`.
#[derive(Clone, Copy, Debug, PartialEq, Eq, Structural)]
pub struct Scalar {
    pub bits: u32,
}

/// The value, in units of the smallest positive number (2 to the power -149), of the
/// non-negative number whose pattern is `m`. Every finite number is a whole count of these
/// units. Infinity has the value that the next number after the largest would have.
pub open spec fn magnitude(m: int) -> int {
    if m < 0x80_0000 {
        m
    } else {
        (0x80_0000 + m % 0x80_0000) * pow2((m / 0x80_0000 - 1) as nat)
    }
}

/// The number one, in units of the smallest positive number.
pub open spec fn one_units() -> int {
    pow2(149) as int
}

impl Scalar {
    /// The pattern without its sign.
    pub open spec fn mag(self) -> int {
        self.bits as int % 0x8000_0000
    }

    /// Whether the sign bit is set.
    pub open spec fn negative(self) -> bool {
        self.bits >= 0x8000_0000
    }

    /// Whether the pattern stands for no number.
    pub open spec fn nan(self) -> bool {
        self.mag() > 0x7f80_0000
    }

    /// Whether the pattern stands for a finite number.
    pub open spec fn finite(self) -> bool {
        self.mag() < 0x7f80_0000
    }

    /// Whether the pattern stands for an infinity.
    pub open spec fn infinite(self) -> bool {
        self.mag() == 0x7f80_0000
    }

    /// An integer that orders numbers as their values do; both zeros have the key 0.
    pub open spec fn key(self) -> int {
        if self.negative() {
            -self.mag()
        } else {
            self.mag()
        }
    }

    /// The exact value, in units of the smallest positive number.
    pub open spec fn units(self) -> int {
        if self.negative() {
            -magnitude(self.mag())
        } else {
            magnitude(self.mag())
        }
    }

    /// `self < other`; false where either is not a number.
    pub open spec fn lt_spec(self, other: Scalar) -> bool {
        !self.nan() && !other.nan() && self.key() < other.key()
    }

    /// `self <= other`; false where either is not a number.
    pub open spec fn le_spec(self, other: Scalar) -> bool {
        !self.nan() && !other.nan() && self.key() <= other.key()
    }

    /// `self` limited to the range from zero to one; what is not a number stays as it is.
    pub open spec fn clamp_unit_spec(self) -> Scalar {
        if self.nan() {
            self
        } else if self.key() < 0 {
            Scalar { bits: 0 }
        } else if self.key() > ONE_BITS {
            Scalar { bits: ONE_BITS }
        } else {
            self
        }
    }

    /// The number with this bit pattern.
    pub fn from_bits(bits: u32) -> (r: Scalar)
        ensures
            r.bits == bits,
    {
        Scalar { bits }
    }

    /// The bit pattern.
    pub fn to_bits(self) -> (r: u32)
        ensures
            r == self.bits,
    {
        self.bits
    }

    /// Zero.
    pub fn zero() -> (r: Scalar)
        ensures
            r.bits == 0,
    {
        Scalar { bits: 0 }
    }

    /// One.
    pub fn one() -> (r: Scalar)
        ensures
            r.bits == ONE_BITS,
    {
        Scalar { bits: ONE_BITS }
    }

    /// The pattern without its sign.
    pub fn abs_bits(self) -> (r: u32)
        ensures
            r == self.mag(),
    {
        if self.bits >= SIGN_BIT {
            self.bits - SIGN_BIT
        } else {
            self.bits
        }
    }

    /// Whether the pattern stands for no number.
    pub fn is_nan(self) -> (r: bool)
        ensures
            r == self.nan(),
    {
        self.abs_bits() > INFINITY_BITS
    }

    /// An integer that orders numbers as their values do.
    fn order_key(self) -> (r: i64)
        ensures
            r == self.key(),
    {
        let m: i64 = self.abs_bits() as i64;
        if self.bits >= SIGN_BIT {
            -m
        } else {
            m
        }
    }

    /// `self < other`; false where either is not a number.
    pub fn lt(self, other: Scalar) -> (r: bool)
        ensures
            r == self.lt_spec(other),
    {
        !self.is_nan() && !other.is_nan() && self.order_key() < other.order_key()
    }

    /// `self <= other`; false where either is not a number.
    pub fn le(self, other: Scalar) -> (r: bool)
        ensures
            r == self.le_spec(other),
    {
        !self.is_nan() && !other.is_nan() && self.order_key() <= other.order_key()
    }

    /// `self` limited to the range from zero to one; what is not a number stays as it is.
    pub fn clamp_unit(self) -> (r: Scalar)
        ensures
            r == self.clamp_unit_spec(),
    {
        if self.is_nan() {
            self
        } else if self.order_key() < 0 {
            Scalar::zero()
        } else if self.order_key() > ONE_BITS as i64 {
            Scalar::one()
        } else {
            self
        }
    }
}

/// A pattern made of a significand `s` and an exponent `e` has the value `s * 2^e`.
pub proof fn lemma_magnitude_form(s: int, e: nat)
    requires
        0 <= s <= 0x100_0000,
        e == 0 || s >= 0x80_0000,
    ensures
        magnitude(e * 0x80_0000 + s) == s * pow2(e),
{
    let m = e * 0x80_0000 + s;
    vstd::arithmetic::power2::lemma2_to64();
    if m < 0x80_0000 {
        assert(e == 0);
    } else if s < 0x80_0000 {
        assert(false);
    } else if s < 0x100_0000 {
        assert(m / 0x80_0000 == e + 1);
        assert(m % 0x80_0000 == s - 0x80_0000);
    } else {
        assert(m / 0x80_0000 == e + 2);
        assert(m % 0x80_0000 == 0);
        lemma_pow2_unfold(e + 1);
        assert((e + 2 - 1) as nat == e + 1);
        assert(0x80_0000 * pow2(e + 1) == s * pow2(e)) by (nonlinear_arith)
            requires
                pow2(e + 1) == 2 * pow2(e),
                s == 0x100_0000,
        ;
    }
}

/// The exponent in `lemma_magnitude_form` that belongs to the pattern `m`.
pub open spec fn exponent_of(m: int) -> nat {
    if m < 0x80_0000 {
        0
    } else {
        (m / 0x80_0000 - 1) as nat
    }
}

/// Neighbouring patterns differ in value by one unit of their last place.
pub proof fn lemma_magnitude_step(m: int)
    requires
        0 <= m,
    ensures
        magnitude(m + 1) == magnitude(m) + pow2(exponent_of(m)),
        magnitude(m + 1) > magnitude(m) >= 0,
{
    let e = exponent_of(m);
    let s = m - e * 0x80_0000;
    lemma_magnitude_form(s, e);
    lemma_magnitude_form(s + 1, e);
    lemma_pow2_pos(e);
    assert((s + 1) * pow2(e) == s * pow2(e) + pow2(e)) by (nonlinear_arith);
    assert(s * pow2(e) >= 0) by (nonlinear_arith)
        requires
            s >= 0,
    ;
}

/// Larger patterns have larger values.
pub proof fn lemma_magnitude_increases(a: int, b: int)
    requires
        0 <= a < b,
    ensures
        magnitude(a) < magnitude(b),
    decreases b - a,
{
    lemma_magnitude_step(b - 1);
    if a < b - 1 {
        lemma_magnitude_increases(a, b - 1);
    }
}

/// Comparison of numbers is comparison of their exact values.
pub proof fn law_order_is_numeric(a: Scalar, b: Scalar)
    requires
        !a.nan(),
        !b.nan(),
    ensures
        a.lt_spec(b) <==> a.units() < b.units(),
        a.le_spec(b) <==> a.units() <= b.units(),
{
    let (m, n) = (a.mag(), b.mag());
    if m < n {
        lemma_magnitude_increases(m, n);
    }
    if n < m {
        lemma_magnitude_increases(n, m);
    }
    if 0 < m {
        lemma_magnitude_increases(0, m);
    }
    if 0 < n {
        lemma_magnitude_increases(0, n);
    }
}

/// A limited score is not below zero and not above one, and a score already in that range is
/// kept.
pub proof fn law_clamp_unit_range(x: Scalar)
    requires
        !x.nan(),
    ensures
        !x.clamp_unit_spec().nan(),
        0 <= x.clamp_unit_spec().key() <= ONE_BITS,
        0 <= x.key() <= ONE_BITS ==> x.clamp_unit_spec() == x,
{
}

} // verus!
