use qlang_hybrid::ranking::{
    pick_first_highest, pick_first_lowest, pick_last_highest, rank_descending,
};
use qlang_hybrid::scalar::Scalar;

fn s(x: f32) -> Scalar {
    Scalar::from_bits(x.to_bits())
}

fn same(got: Scalar, want: f32) -> bool {
    got.to_bits() == want.to_bits() || (got.is_nan() && want.is_nan())
}

/// Patterns that cover the edges, and a spread of others.
fn patterns() -> Vec<u32> {
    let mut out: Vec<u32> = vec![
        0x0000_0000, 0x8000_0000, 0x0000_0001, 0x8000_0001, 0x007f_ffff, 0x0080_0000, 0x0080_0001,
        0x3f80_0000, 0xbf80_0000, 0x3f7f_ffff, 0x3f80_0001, 0x4b80_0000, 0x4b7f_ffff, 0x7f7f_ffff,
        0xff7f_ffff, 0x7f80_0000, 0xff80_0000, 0x7fc0_0000, 0xffc0_0001, 0x7f80_0001,
    ];
    let mut x: u32 = 0x1234_5678;
    for _ in 0..180 {
        x ^= x << 13;
        x ^= x >> 17;
        x ^= x << 5;
        out.push(x);
        out.push((x & 0x007f_ffff) | 0x3f00_0000);
    }
    out
}

#[test]
fn arithmetic_is_correctly_rounded() {
    let all = patterns();
    for &a in &all {
        for &b in &all {
            let (x, y) = (f32::from_bits(a), f32::from_bits(b));
            let (p, q) = (Scalar::from_bits(a), Scalar::from_bits(b));
            assert!(same(p.plus(q), x + y), "{} + {}", x, y);
            assert!(same(p.minus(q), x - y), "{} - {}", x, y);
            assert!(same(p.times(q), x * y), "{} * {}", x, y);
            assert!(same(p.over(q), x / y), "{} / {}", x, y);
        }
    }
}

#[test]
fn comparison_is_numeric() {
    let all = patterns();
    for &a in &all {
        for &b in &all {
            let (x, y) = (f32::from_bits(a), f32::from_bits(b));
            let (p, q) = (Scalar::from_bits(a), Scalar::from_bits(b));
            assert_eq!(p.lt(q), x < y);
            assert_eq!(p.le(q), x <= y);
            let larger = f32::from_bits(p.max(q).to_bits());
            assert!(larger == x.max(y) || (larger.is_nan() && x.is_nan() && y.is_nan()));
            let smaller = f32::from_bits(p.min(q).to_bits());
            assert!(smaller == x.min(y) || (smaller.is_nan() && x.is_nan() && y.is_nan()));
        }
    }
}

#[test]
fn negation_flips_the_sign() {
    for &a in &patterns() {
        assert!(same(Scalar::from_bits(a).negated(), -f32::from_bits(a)));
    }
}

#[test]
fn clamping_limits_to_the_unit_range() {
    for &a in &patterns() {
        assert!(same(Scalar::from_bits(a).clamp_unit(), f32::from_bits(a).clamp(0.0, 1.0)));
    }
    assert_eq!(s(5.0).clamp_unit(), Scalar::one());
    assert_eq!(s(-0.5).clamp_unit(), Scalar::zero());
    assert_eq!(s(0.25).clamp_unit(), s(0.25));
    assert!(s(f32::NAN).clamp_unit().is_nan());
}

#[test]
fn counts_become_the_nearest_numbers() {
    let counts: Vec<u64> = vec![
        0, 1, 2, 3, 7, 10, 255, 1000, 16_777_215, 16_777_216, 16_777_217, 16_777_219, 33_554_435,
        123_456_789, 4_294_967_295, 9_007_199_254_740_993, u64::MAX,
    ];
    for &c in &counts {
        assert!(same(Scalar::from_count(c), c as f32), "{}", c);
        for &d in &counts {
            assert!(same(Scalar::ratio(c, d), c as f32 / d as f32), "{} / {}", c, d);
        }
    }
    assert_eq!(Scalar::ratio(1, 3), s(1.0 / 3.0));
    assert!(Scalar::ratio(0, 0).is_nan());
}

#[test]
fn whole_parts_saturate() {
    let numbers: Vec<f32> = vec![
        0.0, -0.0, 0.99, 1.0, 1.5, 2.999, 6.0, -3.0, 1e9, 1e20, f32::INFINITY, f32::NEG_INFINITY,
        f32::NAN, 16_777_216.0, 1e-40,
    ];
    for &x in &numbers {
        assert_eq!(s(x).to_count(), x as usize, "{}", x);
    }
    for &a in &patterns() {
        assert_eq!(Scalar::from_bits(a).to_count(), f32::from_bits(a) as usize);
    }
}

fn scores(xs: &[f32]) -> Vec<Scalar> {
    xs.iter().map(|&x| s(x)).collect()
}

#[test]
fn highest_and_lowest_are_picked() {
    let v = scores(&[0.5, 0.9, 0.1, 0.9, 0.1]);
    assert_eq!(pick_first_highest(&v), Some(1));
    assert_eq!(pick_last_highest(&v), Some(3));
    assert_eq!(pick_first_lowest(&v), Some(2));
    assert_eq!(pick_first_highest(&[]), None);
    assert_eq!(pick_last_highest(&[]), None);
    assert_eq!(pick_first_lowest(&[]), None);
}

#[test]
fn what_is_no_number_gives_way() {
    let v = scores(&[0.9, f32::NAN, 0.5]);
    assert_eq!(pick_first_highest(&v), Some(2));
    let w = scores(&[f32::NAN, 0.5]);
    assert_eq!(pick_first_lowest(&w), Some(0));
    let u = scores(&[0.5, f32::NAN]);
    assert_eq!(pick_first_highest(&u), Some(1));
}

#[test]
fn ranking_is_stable() {
    let v = scores(&[0.5, 0.9, 0.1, 0.9, 0.5]);
    assert_eq!(rank_descending(&v), vec![1, 3, 0, 4, 2]);
    assert_eq!(rank_descending(&[]), Vec::<usize>::new());
}

#[test]
fn what_is_not_a_number_is_ranked_last() {
    let v = scores(&[0.2, f32::NAN, 0.9, 0.5, 0.9]);
    assert_eq!(rank_descending(&v), vec![2, 4, 3, 0, 1]);
    let v = scores(&[f32::NAN, f32::NEG_INFINITY, -f32::NAN, 0.5]);
    assert_eq!(rank_descending(&v), vec![3, 1, 0, 2]);
    let v = scores(&[f32::NAN, f32::NAN]);
    assert_eq!(rank_descending(&v), vec![0, 1]);
}

#[test]
fn larger_parts_have_larger_shares() {
    for total in [1u64, 3, 10, 1000, 16_777_217, u64::MAX] {
        for part in 0..total.min(50) {
            assert!(Scalar::ratio(part, total).le(Scalar::ratio(part + 1, total)));
        }
        assert_eq!(Scalar::ratio(0, total), Scalar::zero());
        assert!(Scalar::zero().lt(Scalar::ratio(1, total)));
        assert_eq!(Scalar::ratio(total, total), Scalar::one());
    }
}
