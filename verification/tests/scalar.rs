use rayt::scalar::Scalar;
use rayt::scalar::{INFINITY_BITS, ONE_BITS, SIGN_BIT};

fn s(x: f64) -> Scalar {
    Scalar::from_bits(x.to_bits())
}

fn f(x: Scalar) -> f64 {
    f64::from_bits(x.to_bits())
}

fn samples() -> Vec<f64> {
    let mut v = vec![
        0.0,
        -0.0,
        1.0,
        -1.0,
        0.5,
        -0.5,
        0.001,
        1e-6,
        255.999,
        2.0,
        -2.0,
        1.0 + f64::EPSILON,
        1.0 - f64::EPSILON / 2.0,
        f64::MIN_POSITIVE,
        -f64::MIN_POSITIVE,
        f64::MIN_POSITIVE / 2.0,
        f64::from_bits(1),
        -f64::from_bits(1),
        f64::from_bits(0x000f_ffff_ffff_ffff),
        f64::MAX,
        f64::MIN,
        f64::INFINITY,
        f64::NEG_INFINITY,
        f64::NAN,
        -f64::NAN,
        f64::from_bits(0x7ff0_0000_0000_0001),
        f64::from_bits(0xffff_ffff_ffff_ffff),
        1e300,
        -1e300,
        1e-300,
        3.4,
        -1.2,
        0.42,
    ];
    for _ in 0..200 {
        v.push(f64::from_bits(rand::random::<u64>()));
        v.push(rand::random::<f64>() * 4.0 - 2.0);
    }
    v
}

#[test]
fn bits_round_trip() {
    for x in samples() {
        assert_eq!(s(x).to_bits(), x.to_bits());
        assert_eq!(s(x).bits, x.to_bits());
    }
    assert_eq!(Scalar::zero().to_bits(), 0.0f64.to_bits());
    assert_eq!(Scalar::one().to_bits(), 1.0f64.to_bits());
    assert_eq!(ONE_BITS, 1.0f64.to_bits());
    assert_eq!(INFINITY_BITS, f64::INFINITY.to_bits());
    assert_eq!(SIGN_BIT, (-0.0f64).to_bits());
}

#[test]
fn classification_agrees_with_the_machine() {
    for x in samples() {
        assert_eq!(s(x).is_nan(), x.is_nan(), "{:?}", x);
        assert_eq!(s(x).is_infinite(), x.is_infinite(), "{:?}", x);
        assert_eq!(s(x).is_finite(), x.is_finite(), "{:?}", x);
        assert_eq!(s(x).is_sign_negative(), x.is_sign_negative(), "{:?}", x);
    }
}

#[test]
fn order_agrees_with_the_machine() {
    let v = samples();
    for &a in &v {
        for &b in &v {
            assert_eq!(s(a).lt(s(b)), a < b, "{:?} < {:?}", a, b);
            assert_eq!(s(a).le(s(b)), a <= b, "{:?} <= {:?}", a, b);
            assert_eq!(s(a).gt(s(b)), a > b, "{:?} > {:?}", a, b);
            assert_eq!(s(a).ge(s(b)), a >= b, "{:?} >= {:?}", a, b);
            assert_eq!(s(a) == s(b), a == b, "{:?} == {:?}", a, b);
            assert_eq!(s(a) != s(b), a != b, "{:?} != {:?}", a, b);
        }
    }
}

#[test]
fn order_on_named_values() {
    assert!(s(-0.0) == s(0.0));
    assert!(!s(-0.0).lt(s(0.0)));
    assert!(s(-0.0).le(s(0.0)));
    assert!(s(f64::NEG_INFINITY).lt(s(f64::MIN)));
    assert!(s(f64::MAX).lt(s(f64::INFINITY)));
    assert!(s(f64::from_bits(1)).gt(s(0.0)));
    assert!(s(-1.0).lt(s(f64::from_bits(1))));
    assert!(!s(f64::NAN).lt(s(1.0)));
    assert!(!s(1.0).lt(s(f64::NAN)));
    assert!(!s(f64::NAN).le(s(f64::NAN)));
    assert!(s(f64::NAN) != s(f64::NAN));
}

#[test]
fn between_leaves_both_ends_out() {
    assert!(s(0.5).between(s(0.0), s(1.0)));
    assert!(!s(0.0).between(s(0.0), s(1.0)));
    assert!(!s(1.0).between(s(0.0), s(1.0)));
    assert!(!s(-0.0).between(s(0.0), s(1.0)));
    assert!(!s(f64::NAN).between(s(0.0), s(1.0)));
    assert!(!s(0.5).between(s(f64::NAN), s(1.0)));
    assert!(!s(0.5).between(s(0.0), s(f64::NAN)));
    assert!(!s(0.5).between(s(1.0), s(0.0)));
    for x in samples() {
        assert_eq!(s(x).between(s(0.001), s(f64::MAX)), 0.001 < x && x < f64::MAX);
    }
}

#[test]
fn negation_flips_the_sign_bit() {
    for x in samples() {
        assert_eq!((-s(x)).to_bits(), (-x).to_bits(), "{:?}", x);
        assert_eq!((-(-s(x))).to_bits(), x.to_bits());
    }
    assert_eq!((-s(0.0)).to_bits(), (-0.0f64).to_bits());
    assert_eq!((-s(1.5)).to_bits(), (-1.5f64).to_bits());
}

#[test]
fn abs_clears_the_sign_bit() {
    for x in samples() {
        assert_eq!(s(x).abs().to_bits(), x.abs().to_bits(), "{:?}", x);
    }
}

#[test]
fn min_and_max_let_a_nan_yield() {
    let v = samples();
    for &a in &v {
        for &b in &v {
            let lo = f(s(a).min(s(b)));
            let hi = f(s(a).max(s(b)));
            if a.is_nan() && b.is_nan() {
                assert!(lo.is_nan() && hi.is_nan());
            } else {
                assert!(lo == a.min(b), "min({:?}, {:?}) = {:?}", a, b, lo);
                assert!(hi == a.max(b), "max({:?}, {:?}) = {:?}", a, b, hi);
            }
        }
    }
    assert_eq!(s(f64::NAN).min(s(1.0)).to_bits(), 1.0f64.to_bits());
    assert_eq!(s(1.0).min(s(f64::NAN)).to_bits(), 1.0f64.to_bits());
    assert_eq!(s(f64::NAN).max(s(0.0)).to_bits(), 0.0f64.to_bits());
    assert_eq!(s(3.0).min(s(2.0)).to_bits(), 2.0f64.to_bits());
    assert_eq!(s(3.0).max(s(2.0)).to_bits(), 3.0f64.to_bits());
}

#[test]
fn saturate_clamps_into_the_unit_interval() {
    assert_eq!(s(-1.2).saturate().to_bits(), 0.0f64.to_bits());
    assert_eq!(s(3.4).saturate().to_bits(), 1.0f64.to_bits());
    assert_eq!(s(0.42).saturate().to_bits(), 0.42f64.to_bits());
    assert_eq!(s(0.0).saturate().to_bits(), 0.0f64.to_bits());
    assert_eq!(s(1.0).saturate().to_bits(), 1.0f64.to_bits());
    assert_eq!(s(f64::NAN).saturate().to_bits(), 1.0f64.to_bits());
    assert_eq!(s(f64::INFINITY).saturate().to_bits(), 1.0f64.to_bits());
    assert_eq!(s(f64::NEG_INFINITY).saturate().to_bits(), 0.0f64.to_bits());
    assert_eq!(s(f64::from_bits(1)).saturate().to_bits(), 1);
    for x in samples() {
        let got = f(s(x).saturate());
        let want = x.min(1.0).max(0.0);
        assert!(got == want, "saturate({:?}) = {:?}", x, got);
        assert!(0.0 <= got && got <= 1.0);
    }
}
