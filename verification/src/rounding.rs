//! Rounding of exact values to the nearest single-precision number.

use crate::scalar::{
    INFINITY_BITS, lemma_magnitude_form, lemma_magnitude_increases, lemma_magnitude_step, magnitude,
};
use vstd::arithmetic::power2::{
    lemma2_to64, lemma_pow2_adds, lemma_pow2_pos, lemma_pow2_strictly_increases,
    lemma_pow2_unfold, pow2,
};
use vstd::bits::{lemma_u64_shl_is_mul, lemma_u64_shr_is_div};
use vstd::prelude::*;

verus! {

/// `m` is the pattern of the number nearest to `n / d` units: `n / d` lies between the
/// midpoints to the two neighbouring numbers, and a midpoint itself belongs to the even
/// pattern. The number after the largest finite one is infinity.
pub open spec fn nearest(m: int, n: int, d: int) -> bool {
    &&& 0 <= m <= INFINITY_BITS
    &&& m > 0 ==> (magnitude(m - 1) + magnitude(m)) * d <= 2 * n
    &&& m > 0 && m % 2 == 1 ==> (magnitude(m - 1) + magnitude(m)) * d < 2 * n
    &&& m < INFINITY_BITS ==> 2 * n <= (magnitude(m) + magnitude(m + 1)) * d
    &&& m < INFINITY_BITS && m % 2 == 1 ==> 2 * n < (magnitude(m) + magnitude(m + 1)) * d
}

/// Every value has a nearest number.
pub proof fn lemma_nearest_exists(n: int, d: int)
    requires
        n >= 0,
        d > 0,
    ensures
        exists|m: int| nearest(m, n, d),
{
    let t = magnitude(INFINITY_BITS as int);
    if t * d <= n {
        lemma_magnitude_step(INFINITY_BITS - 1);
        let u = magnitude(INFINITY_BITS - 1);
        assert((u + t) * d <= 2 * n) by (nonlinear_arith)
            requires
                t * d <= n,
                u < t,
                d > 0,
        ;
        assert(nearest(INFINITY_BITS as int, n, d));
    } else {
        let m = lemma_floor_exists(INFINITY_BITS as int, n, d);
        lemma_choose_neighbour(m, n, d);
        assert(nearest(m, n, d) || nearest(m + 1, n, d));
    }
}

/// A value below some number lies between two neighbouring ones.
proof fn lemma_floor_exists(above: int, n: int, d: int) -> (m: int)
    requires
        0 < above,
        n >= 0,
        d > 0,
        n < magnitude(above) * d,
    ensures
        0 <= m < above,
        magnitude(m) * d <= n,
        n < magnitude(m + 1) * d,
    decreases above,
{
    if magnitude(above - 1) * d <= n {
        above - 1
    } else {
        assert(magnitude(0) * d == 0) by (nonlinear_arith)
            requires
                magnitude(0) == 0,
        ;
        lemma_floor_exists(above - 1, n, d)
    }
}

/// Rounding keeps the order of values.
pub proof fn lemma_nearest_monotone(a: int, n: int, b: int, m: int, d: int)
    requires
        nearest(a, n, d),
        nearest(b, m, d),
        d > 0,
        n <= m,
    ensures
        a <= b,
{
    if b < a {
        let (p, q, r, s) = (magnitude(b), magnitude(b + 1), magnitude(a - 1), magnitude(a));
        if b + 1 < a {
            lemma_magnitude_step(b);
            lemma_magnitude_step(a - 1);
            if b + 1 < a - 1 {
                lemma_magnitude_increases(b + 1, a - 1);
            }
            assert((p + q) * d < (r + s) * d) by (nonlinear_arith)
                requires
                    p < q,
                    q <= r,
                    r < s,
                    d > 0,
            ;
        }
    }
}

/// A value that is a number rounds to itself.
pub proof fn lemma_number_is_nearest(m: int, d: int)
    requires
        0 <= m <= INFINITY_BITS,
        d > 0,
    ensures
        nearest(m, magnitude(m) * d, d),
{
    lemma_magnitude_step(m);
    let a = magnitude(m);
    let c = magnitude(m + 1);
    assert(2 * (a * d) < (a + c) * d) by (nonlinear_arith)
        requires
            a < c,
            d > 0,
    ;
    if m > 0 {
        lemma_magnitude_step(m - 1);
        let z = magnitude(m - 1);
        assert((z + a) * d < 2 * (a * d)) by (nonlinear_arith)
            requires
                z < a,
                d > 0,
        ;
    }
}

/// `n / d` units lie in the interval from `sig * 2^e` to `(sig + 1) * 2^e` quarter units,
/// and above its lower end exactly where `sticky` is set.
pub open spec fn bracketed(sig: int, e: nat, sticky: bool, n: int, d: int) -> bool {
    &&& sig * pow2(e) * d <= 4 * n
    &&& 4 * n < (sig + 1) * pow2(e) * d
    &&& sticky <==> sig * pow2(e) * d != 4 * n
}

/// A value between two neighbouring numbers goes to the nearer one.
proof fn lemma_choose_neighbour(m: int, n: int, d: int)
    requires
        0 <= m < INFINITY_BITS,
        d > 0,
        magnitude(m) * d <= n,
        n < magnitude(m + 1) * d,
    ensures
        2 * n < (magnitude(m) + magnitude(m + 1)) * d ==> nearest(m, n, d),
        2 * n == (magnitude(m) + magnitude(m + 1)) * d && m % 2 == 0 ==> nearest(m, n, d),
        2 * n > (magnitude(m) + magnitude(m + 1)) * d ==> nearest(m + 1, n, d),
        2 * n == (magnitude(m) + magnitude(m + 1)) * d && m % 2 == 1 ==> nearest(m + 1, n, d),
{
    lemma_magnitude_step(m + 1);
    let (a, b, c) = (magnitude(m), magnitude(m + 1), magnitude(m + 2));
    assert(2 * n < (b + c) * d) by (nonlinear_arith)
        requires
            n < b * d,
            b < c,
            d > 0,
    ;
    if m > 0 {
        lemma_magnitude_step(m - 1);
        let z = magnitude(m - 1);
        assert((z + a) * d < 2 * n) by (nonlinear_arith)
            requires
                a * d <= n,
                z < a,
                d > 0,
        ;
    }
}

/// No value has two nearest numbers.
pub proof fn law_nearest_is_unique(a: int, b: int, n: int, d: int)
    requires
        nearest(a, n, d),
        nearest(b, n, d),
        d > 0,
    ensures
        a == b,
{
    lemma_nearest_not_above(a, b, n, d);
    lemma_nearest_not_above(b, a, n, d);
}

proof fn lemma_nearest_not_above(a: int, b: int, n: int, d: int)
    requires
        nearest(a, n, d),
        nearest(b, n, d),
        d > 0,
    ensures
        b <= a,
{
    let (p, q, r, s) = (magnitude(a), magnitude(a + 1), magnitude(b - 1), magnitude(b));
    if a + 1 < b {
        lemma_magnitude_step(a);
        lemma_magnitude_step(b - 1);
        if a + 1 < b - 1 {
            lemma_magnitude_increases(a + 1, b - 1);
        }
        assert((p + q) * d < (r + s) * d) by (nonlinear_arith)
            requires
                p < q,
                q <= r,
                r < s,
                d > 0,
        ;
    }
}

/// The number of binary digits of `x` is what is left of 64 after its leading zeros.
proof fn lemma_bit_length(x: u64)
    ensures
        0 <= vstd::std_specs::bits::u64_leading_zeros(x) <= 64,
        x < pow2((64 - vstd::std_specs::bits::u64_leading_zeros(x)) as nat),
        x > 0 ==> vstd::std_specs::bits::u64_leading_zeros(x) < 64,
        x > 0 ==> pow2((63 - vstd::std_specs::bits::u64_leading_zeros(x)) as nat) <= x,
    decreases x,
{
    reveal(vstd::std_specs::bits::u64_leading_zeros);
    vstd::std_specs::bits::axiom_u64_leading_zeros(x);
    lemma2_to64();
    if x > 0 {
        lemma_bit_length(x / 2);
        vstd::std_specs::bits::axiom_u64_leading_zeros(x / 2);
        let z = vstd::std_specs::bits::u64_leading_zeros(x / 2);
        lemma_pow2_unfold((65 - z) as nat);
        assert((65 - z - 1) as nat == (64 - z) as nat);
        if x / 2 > 0 {
            lemma_pow2_unfold((64 - z) as nat);
            assert((64 - z - 1) as nat == (63 - z) as nat);
        }
    }
}

/// A number below 2^62 has at most 62 binary digits.
proof fn lemma_at_most_62_digits(x: u64)
    requires
        x < 0x4000_0000_0000_0000,
    ensures
        vstd::std_specs::bits::u64_leading_zeros(x) >= 2,
        x == 0 ==> vstd::std_specs::bits::u64_leading_zeros(x) == 64,
{
    lemma_bit_length(x);
    vstd::std_specs::bits::axiom_u64_leading_zeros(x);
    vstd::arithmetic::power2::lemma2_to64_rest();
    let z = vstd::std_specs::bits::u64_leading_zeros(x);
    if z < 2 {
        lemma_pow2_ordered(62, (63 - z) as nat);
    }
}

/// Powers of two do not decrease.
proof fn lemma_pow2_ordered(a: nat, b: nat)
    requires
        a <= b,
    ensures
        pow2(a) <= pow2(b),
{
    if a < b {
        lemma_pow2_strictly_increases(a, b);
    }
}

/// A shift to the left that keeps at most 24 digits does not overflow.
proof fn lemma_fits_left(x: u64, len: nat, shift: nat)
    requires
        x < pow2(len),
        len + shift <= 24,
    ensures
        x * pow2(shift) < 0x100_0000,
{
    lemma2_to64();
    lemma_pow2_adds(len, shift);
    lemma_pow2_ordered(len + shift, 24);
    lemma_pow2_pos(shift);
    assert(x * pow2(shift) < pow2(len) * pow2(shift)) by (nonlinear_arith)
        requires
            x < pow2(len),
            pow2(shift) > 0,
    ;
}

/// The place below the last kept one is worth half of it.
proof fn lemma_half(shift: u64, half: u64)
    requires
        1 <= shift <= 62,
        half == 1u64 << (shift - 1),
    ensures
        half == pow2((shift - 1) as nat),
        2 * half == pow2(shift as nat),
        2 * half <= 0x4000_0000_0000_0000,
{
    lemma2_to64();
    vstd::arithmetic::power2::lemma2_to64_rest();
    lemma_pow2_ordered((shift - 1) as nat, 61);
    lemma_u64_shl_is_mul(1u64, (shift - 1) as u64);
    lemma_pow2_unfold(shift as nat);
}

/// A shift to the right splits a number into quotient and remainder.
proof fn lemma_split(sig: u64, shift: nat, whole: u64, double_half: u64)
    requires
        double_half == pow2(shift),
        whole == sig as nat / pow2(shift),
    ensures
        whole * double_half <= sig,
        sig - whole * double_half < double_half,
{
    lemma_pow2_pos(shift);
    vstd::arithmetic::div_mod::lemma_fundamental_div_mod(sig as int, double_half as int);
    assert(whole * double_half == double_half * whole) by (nonlinear_arith);
}

/// A value that is a whole count of last places is the number itself.
proof fn lemma_exact_value(w: int, last: nat, n: int, d: int)
    requires
        w >= 0,
        last >= 2,
        d > 0,
        w * pow2(last) * d == 4 * n,
    ensures
        ({
            let p = pow2((last - 2) as nat);
            &&& w * p * d <= n
            &&& n < (w + 1) * p * d
            &&& 2 * n < (w * p + (w + 1) * p) * d
        }),
{
    let p = pow2((last - 2) as nat) as int;
    lemma_pow2_pos((last - 2) as nat);
    lemma_quarter(last);
    assert(w * (4 * p) * d == 4 * (w * p * d)) by (nonlinear_arith);
    assert((w + 1) * p * d == w * p * d + p * d) by (nonlinear_arith);
    assert((w * p + (w + 1) * p) * d == 2 * (w * p * d) + p * d) by (nonlinear_arith);
    assert(p * d > 0) by (nonlinear_arith)
        requires
            p > 0,
            d > 0,
    ;
}

proof fn lemma_quarter(last: nat)
    requires
        last >= 2,
    ensures
        pow2(last) == 4 * pow2((last - 2) as nat),
{
    lemma_pow2_unfold(last);
    lemma_pow2_unfold((last - 1) as nat);
}

proof fn lemma_expand(w: int, h: int, rest: int, b: int, d: int, p: int)
    requires
        b * h == 4 * p,
    ensures
        (w * h + rest) * b * d == 4 * (w * p * d) + rest * (b * d),
{
    assert((w * h + rest) * b * d == w * h * b * d + rest * b * d) by (nonlinear_arith);
    assert(w * h * b * d == w * (b * h) * d) by (nonlinear_arith);
    assert(w * (4 * p) * d == 4 * (w * p * d)) by (nonlinear_arith);
    assert(rest * b * d == rest * (b * d)) by (nonlinear_arith);
}

/// Where a value lies against the midpoint is decided by the digits below the last place.
proof fn lemma_round_value(
    w: int,
    rest: int,
    half: int,
    e: nat,
    shift: nat,
    sticky: bool,
    n: int,
    d: int,
)
    requires
        w >= 0,
        d > 0,
        shift >= 1,
        e + shift >= 2,
        2 * half == pow2(shift),
        0 <= rest < 2 * half,
        bracketed(w * (2 * half) + rest, e, sticky, n, d),
    ensures
        ({
            let p = pow2((e + shift - 2) as nat);
            let mid = (w * p + (w + 1) * p) * d;
            &&& w * p * d <= n
            &&& n < (w + 1) * p * d
            &&& rest < half ==> 2 * n < mid
            &&& rest == half && !sticky ==> 2 * n == mid
            &&& rest == half && sticky ==> 2 * n > mid
            &&& rest > half ==> 2 * n > mid
        }),
{
    let last = e + shift;
    let p = pow2((last - 2) as nat) as int;
    let b = pow2(e) as int;
    lemma_quarter(last);
    lemma_pow2_adds(e, shift);
    lemma_pow2_pos(e);
    let x = w * p * d;
    let y = p * d;
    let z = b * d;
    assert(z > 0) by (nonlinear_arith)
        requires
            z == b * d,
            b > 0,
            d > 0,
    ;
    assert(2 * half * z == 4 * y) by (nonlinear_arith)
        requires
            4 * p == b * (2 * half),
            z == b * d,
            y == p * d,
    ;
    lemma_expand(w, 2 * half, rest, b, d, p);
    lemma_expand(w, 2 * half, rest + 1, b, d, p);
    assert((rest + 1) * z == rest * z + z) by (nonlinear_arith);
    assert((w + 1) * p * d == x + y) by (nonlinear_arith)
        requires
            x == w * p * d,
            y == p * d,
    ;
    assert((w * p + (w + 1) * p) * d == 2 * x + y) by (nonlinear_arith)
        requires
            x == w * p * d,
            y == p * d,
    ;
    assert(rest * z >= 0) by (nonlinear_arith)
        requires
            rest >= 0,
            z > 0,
    ;
    assert(rest * z + z <= 2 * half * z) by (nonlinear_arith)
        requires
            rest + 1 <= 2 * half,
            z > 0,
    ;
    assert(2 * (half * z) == 2 * half * z) by (nonlinear_arith);
    if rest < half {
        assert(rest * z + z <= half * z) by (nonlinear_arith)
            requires
                rest + 1 <= half,
                z > 0,
        ;
    }
    if rest > half {
        assert(rest * z >= half * z + z) by (nonlinear_arith)
            requires
                rest >= half + 1,
                z > 0,
        ;
    }
}

/// The kept digits are at most 24, and exactly 24 above the smallest exponent.
proof fn lemma_significand_range(sig: u64, e: nat, len: nat, whole: u64, last: nat)
    requires
        sig < pow2(len),
        sig > 0 ==> len > 0 && pow2((len - 1) as nat) <= sig,
        sig == 0 ==> len == 0,
        sig > 0 || e == 0,
        last >= 2,
        last == e + len - 24 || (last == 2 && e + len <= 26),
        last <= e ==> whole == sig * pow2((e - last) as nat),
        last > e ==> whole == sig as nat / pow2((last - e) as nat),
    ensures
        whole < 0x100_0000,
        last > 2 ==> whole >= 0x80_0000,
{
    lemma2_to64();
    if last <= e {
        lemma_fits_left(sig, len, (e - last) as nat);
        if last > 2 {
            let k = (e - last) as nat;
            lemma_pow2_adds((len - 1) as nat, k);
            assert(len - 1 + k == 23);
            lemma_pow2_pos(k);
            assert(sig * pow2(k) >= pow2((len - 1) as nat) * pow2(k)) by (nonlinear_arith)
                requires
                    sig >= pow2((len - 1) as nat),
                    pow2(k) > 0,
            ;
        }
    } else {
        let k = (last - e) as nat;
        lemma_pow2_pos(k);
        lemma_pow2_adds(24, k);
        lemma_pow2_ordered(len, 24 + k);
        assert(sig as nat / pow2(k) < pow2(24)) by (nonlinear_arith)
            requires
                sig < pow2(24) * pow2(k),
                pow2(k) > 0,
        ;
        if last > 2 {
            assert(len == 24 + k);
            lemma_pow2_adds(23, k);
            assert(23 + k == (len - 1) as nat);
            assert(sig as nat / pow2(k) >= pow2(23)) by (nonlinear_arith)
                requires
                    sig >= pow2(23) * pow2(k),
                    pow2(k) > 0,
            ;
        }
    }
}

/// A value at or beyond the place of infinity rounds to infinity.
proof fn lemma_overflows(w: int, exponent: nat, n: int, d: int)
    requires
        exponent >= 254,
        w >= 0x80_0000,
        d > 0,
        w * pow2(exponent) * d <= n,
    ensures
        nearest(INFINITY_BITS as int, n, d),
{
    lemma_pow2_ordered(254, exponent);
    lemma_magnitude_form(0x80_0000, 254);
    let t = magnitude(INFINITY_BITS as int);
    assert(t * d <= n) by (nonlinear_arith)
        requires
            t == 0x80_0000 * pow2(254),
            pow2(254) <= pow2(exponent),
            w >= 0x80_0000,
            w * pow2(exponent) * d <= n,
            d > 0,
    ;
    lemma_magnitude_step(INFINITY_BITS - 1);
    let u = magnitude(INFINITY_BITS - 1);
    assert((u + t) * d <= 2 * n) by (nonlinear_arith)
        requires
            t * d <= n,
            u < t,
            d > 0,
    ;
}

/// `n / d` units lie from `whole * 2^exponent` up to the next count of this last place, and
/// `up` tells that the next count is the nearer one.
spec fn split(whole: int, exponent: nat, up: bool, n: int, d: int) -> bool {
    let p = pow2(exponent);
    let mid = (whole * p + (whole + 1) * p) * d;
    &&& 0 <= whole < 0x100_0000
    &&& exponent > 0 ==> whole >= 0x80_0000
    &&& whole * p * d <= n
    &&& n < (whole + 1) * p * d
    &&& up ==> 2 * n > mid || (2 * n == mid && whole % 2 == 1)
    &&& !up ==> 2 * n < mid || (2 * n == mid && whole % 2 == 0)
}

/// The last place of a value and the count of it, where no digit is lost.
fn widen(sig: u64, e: u32, len: u32, last: u32, Ghost(n): Ghost<int>, Ghost(d): Ghost<int>) -> (r:
    u64)
    requires
        d > 0,
        2 <= last <= e <= 2000,
        len <= 64,
        sig < pow2(len as nat),
        sig > 0 && len > 0 && pow2((len - 1) as nat) <= sig,
        last == e + len - 24 || (last == 2 && e + len <= 26),
        bracketed(sig as int, e as nat, false, n, d),
    ensures
        split(r as int, (last - 2) as nat, false, n, d),
{
    let shift: u64 = (e - last) as u64;
    proof {
        lemma_fits_left(sig, len as nat, shift as nat);
        lemma_u64_shl_is_mul(sig, shift);
    }
    let whole: u64 = sig << shift;
    proof {
        let (a, b) = (pow2(shift as nat) as int, pow2(last as nat) as int);
        lemma_pow2_adds(shift as nat, last as nat);
        assert(sig * a * b == sig * (a * b)) by (nonlinear_arith);
        assert(shift as nat + last as nat == e as nat);
        lemma_exact_value(whole as int, last as nat, n, d);
        lemma_significand_range(sig, e as nat, len as nat, whole, last as nat);
    }
    whole
}

/// The last place of a value and the count of it, where digits fall away.
fn narrow(
    sig: u64,
    e: u32,
    sticky: bool,
    len: u32,
    last: u32,
    Ghost(n): Ghost<int>,
    Ghost(d): Ghost<int>,
) -> (r: (u64, bool))
    requires
        d > 0,
        e < last,
        2 <= last <= e + 40,
        e <= 2000,
        len <= 64,
        sig < 0x4000_0000_0000_0000,
        sig < pow2(len as nat),
        sig > 0 ==> len > 0 && pow2((len - 1) as nat) <= sig,
        sig == 0 ==> len == 0,
        sig > 0 || e == 0,
        last == e + len - 24 || (last == 2 && e + len <= 26),
        bracketed(sig as int, e as nat, sticky, n, d),
    ensures
        split(r.0 as int, (last - 2) as nat, r.1, n, d),
{
    let shift: u64 = (last - e) as u64;
    proof {
        lemma_u64_shr_is_div(sig, shift);
    }
    let whole: u64 = sig >> shift;
    let half: u64 = 1u64 << (shift - 1);
    proof {
        lemma_half(shift, half);
        lemma_split(sig, shift as nat, whole, (2 * half) as u64);
    }
    let rest: u64 = sig - whole * (2 * half);
    let up: bool = rest > half || (rest == half && (sticky || whole % 2 == 1));
    proof {
        lemma_round_value(
            whole as int,
            rest as int,
            half as int,
            e as nat,
            shift as nat,
            sticky,
            n,
            d,
        );
        assert(e as nat + shift as nat == last as nat);
        lemma_significand_range(sig, e as nat, len as nat, whole, last as nat);
    }
    (whole, up)
}

/// The pattern nearest to a value that is split into its last places.
fn assemble(whole: u64, exponent: u32, up: bool, Ghost(n): Ghost<int>, Ghost(d): Ghost<int>) -> (r:
    u32)
    requires
        d > 0,
        split(whole as int, exponent as nat, up, n, d),
    ensures
        nearest(r as int, n, d),
{
    if exponent >= 254 {
        proof {
            lemma_overflows(whole as int, exponent as nat, n, d);
        }
        return INFINITY_BITS;
    }
    let pattern: u32 = exponent * 0x80_0000 + whole as u32;
    proof {
        lemma_magnitude_form(whole as int, exponent as nat);
        lemma_magnitude_form(whole as int + 1, exponent as nat);
        lemma_choose_neighbour(pattern as int, n, d);
        assert(pattern % 2 == whole % 2);
    }
    if up {
        pattern + 1
    } else {
        pattern
    }
}

/// The pattern nearest to a bracketed value.
pub(crate) fn round(
    sig: u64,
    e: u32,
    sticky: bool,
    Ghost(n): Ghost<int>,
    Ghost(d): Ghost<int>,
) -> (r: u32)
    requires
        d > 0,
        e <= 2000,
        sig < 0x4000_0000_0000_0000,
        sig > 0 || e == 0,
        sticky ==> e == 0 || sig >= 0x200_0000,
        bracketed(sig as int, e as nat, sticky, n, d),
    ensures
        nearest(r as int, n, d),
{
    proof {
        lemma_bit_length(sig);
        lemma_at_most_62_digits(sig);
    }
    let len: u32 = 64 - sig.leading_zeros();
    let last: u32 = if e + len > 26 {
        e + len - 24
    } else {
        2
    };
    if last <= e {
        proof {
            lemma_pow2_ordered(len as nat, 25);
            lemma2_to64();
        }
        let whole = widen(sig, e, len, last, Ghost(n), Ghost(d));
        assemble(whole, last - 2, false, Ghost(n), Ghost(d))
    } else {
        let (whole, up) = narrow(sig, e, sticky, len, last, Ghost(n), Ghost(d));
        assemble(whole, last - 2, up, Ghost(n), Ghost(d))
    }
}

/// `n / d` units, times `2^below`, lie in the interval from `sig * 2^above` to
/// `(sig + 1) * 2^above` quarter units, and above its lower end exactly where `sticky` is set.
pub open spec fn scaled(sig: int, above: nat, below: nat, sticky: bool, n: int, d: int) -> bool {
    &&& sig * pow2(above) * d <= 4 * n * pow2(below)
    &&& 4 * n * pow2(below) < (sig + 1) * pow2(above) * d
    &&& sticky <==> sig * pow2(above) * d != 4 * n * pow2(below)
}

proof fn lemma_cancel_below(sig: int, above: nat, below: nat, sticky: bool, n: int, d: int)
    requires
        below <= above,
        scaled(sig, above, below, sticky, n, d),
    ensures
        bracketed(sig, (above - below) as nat, sticky, n, d),
{
    let e = (above - below) as nat;
    lemma_pow2_adds(e, below);
    assert(e + below == above);
    lemma_pow2_pos(below);
    let (a, b) = (pow2(e) as int, pow2(below) as int);
    assert(sig * (a * b) * d == (sig * a * d) * b) by (nonlinear_arith);
    assert((sig + 1) * (a * b) * d == ((sig + 1) * a * d) * b) by (nonlinear_arith);
    let (x, y, z) = (sig * a * d, (sig + 1) * a * d, 4 * n);
    assert(x * b <= z * b ==> x <= z) by (nonlinear_arith)
        requires
            b > 0,
    ;
    assert(z * b < y * b ==> z < y) by (nonlinear_arith)
        requires
            b > 0,
    ;
    assert(x * b == z * b <==> x == z) by (nonlinear_arith)
        requires
            b > 0,
    ;
}

proof fn lemma_shift_below(
    sig: int,
    kept: int,
    lost: int,
    above: nat,
    below: nat,
    sticky: bool,
    n: int,
    d: int,
)
    requires
        d > 0,
        above < below,
        scaled(sig, above, below, sticky, n, d),
        sig == kept * pow2((below - above) as nat) + lost,
        0 <= lost < pow2((below - above) as nat),
    ensures
        bracketed(kept, 0, sticky || lost != 0, n, d),
{
    let k = (below - above) as nat;
    lemma2_to64();
    lemma_pow2_adds(k, above);
    assert(k + above == below);
    lemma_pow2_pos(above);
    lemma_pow2_pos(k);
    let (b, c) = (pow2(above) as int, pow2(k) as int);
    let z = 4 * n;
    let w = kept * d;
    assert(sig * b * d == (w * c + lost * d) * b) by (nonlinear_arith)
        requires
            sig == kept * c + lost,
            w == kept * d,
    ;
    assert((sig + 1) * b * d == (w * c + (lost + 1) * d) * b) by (nonlinear_arith)
        requires
            sig == kept * c + lost,
            w == kept * d,
    ;
    assert(z * (c * b) == (z * c) * b) by (nonlinear_arith);
    assert(w * c + lost * d <= z * c) by (nonlinear_arith)
        requires
            (w * c + lost * d) * b <= (z * c) * b,
            b > 0,
    ;
    assert(z * c < w * c + (lost + 1) * d) by (nonlinear_arith)
        requires
            (z * c) * b < (w * c + (lost + 1) * d) * b,
            b > 0,
    ;
    assert(lost * d >= 0 && (lost + 1) * d <= c * d) by (nonlinear_arith)
        requires
            0 <= lost,
            lost + 1 <= c,
            d > 0,
    ;
    assert(w <= z) by (nonlinear_arith)
        requires
            w * c <= z * c,
            c > 0,
    ;
    assert(z < w + d) by (nonlinear_arith)
        requires
            z * c < w * c + c * d,
            c > 0,
    ;
    assert(lost != 0 ==> lost * d > 0) by (nonlinear_arith)
        requires
            0 <= lost,
            d > 0,
    ;
    assert((w * c + lost * d) * b == (z * c) * b <==> w * c + lost * d == z * c)
        by (nonlinear_arith)
        requires
            b > 0,
    ;
    assert(w == z ==> w * c == z * c) by (nonlinear_arith);
    assert(w * c == z * c ==> w == z) by (nonlinear_arith)
        requires
            c > 0,
    ;
    assert((kept + 1) * pow2(0) * d == w + d) by (nonlinear_arith)
        requires
            pow2(0) == 1,
            w == kept * d,
    ;
    assert(kept * pow2(0) * d == w) by (nonlinear_arith)
        requires
            pow2(0) == 1,
            w == kept * d,
    ;
}

/// The pattern nearest to a value that is known up to a power of two in both directions.
pub(crate) fn round_scaled(
    sig: u64,
    above: u32,
    below: u32,
    sticky: bool,
    Ghost(n): Ghost<int>,
    Ghost(d): Ghost<int>,
) -> (r: u32)
    requires
        d > 0,
        above <= 1000,
        below <= 1000,
        0 < sig < 0x4000_0000_0000_0000,
        sticky ==> sig >= 0x200_0000,
        scaled(sig as int, above as nat, below as nat, sticky, n, d),
    ensures
        nearest(r as int, n, d),
{
    if above >= below {
        proof {
            lemma_cancel_below(sig as int, above as nat, below as nat, sticky, n, d);
        }
        return round(sig, above - below, sticky, Ghost(n), Ghost(d));
    }
    let shift: u64 = (below - above) as u64;
    let kept: u64;
    let whole: bool;
    if shift < 62 {
        proof {
            lemma_u64_shr_is_div(sig, shift);
            lemma_pow2_ordered(shift as nat, 61);
            vstd::arithmetic::power2::lemma2_to64_rest();
            lemma_split(sig, shift as nat, (sig >> shift), pow2(shift as nat) as u64);
            lemma_u64_shl_is_mul((sig >> shift), shift);
        }
        kept = sig >> shift;
        whole = kept << shift == sig;
        proof {
            let lost = sig - kept * pow2(shift as nat);
            lemma_shift_below(
                sig as int,
                kept as int,
                lost,
                above as nat,
                below as nat,
                sticky,
                n,
                d,
            );
        }
    } else {
        kept = 0;
        whole = false;
        proof {
            lemma_pow2_ordered(62, shift as nat);
            vstd::arithmetic::power2::lemma2_to64_rest();
            lemma_shift_below(
                sig as int,
                0,
                sig as int,
                above as nat,
                below as nat,
                sticky,
                n,
                d,
            );
        }
    }
    round(kept, 0, sticky || !whole, Ghost(n), Ghost(d))
}

} // verus!
