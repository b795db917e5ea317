use ben::num::{Float64, INFINITY_BITS, SIGN_BIT};

fn f(x: f64) -> Float64 {
    Float64::from_bits(x.to_bits())
}

fn samples() -> Vec<f64> {
    let mut v = vec![
        0.0,
        -0.0,
        1.0,
        -1.0,
        1.5,
        -1.5,
        100.0,
        200.0,
        350.0,
        500.0,
        f64::MIN_POSITIVE,
        -f64::MIN_POSITIVE,
        f64::from_bits(1),
        -f64::from_bits(1),
        f64::EPSILON,
        f64::MAX,
        f64::MIN,
        f64::INFINITY,
        f64::NEG_INFINITY,
        f64::NAN,
        -f64::NAN,
        f64::from_bits(0x7FF0_0000_0000_0001),
        f64::from_bits(0xFFFF_FFFF_FFFF_FFFF),
        1e-300,
        -1e300,
        0.1 + 0.2,
        0.3,
    ];
    let mut x = 0x1234_5678_9ABC_DEF0u64;
    for _ in 0..200 {
        x = x
            .wrapping_mul(6364136223846793005)
            .wrapping_add(1442695040888963407);
        v.push(f64::from_bits(x));
    }
    v
}

#[test]
fn comparisons_agree_with_the_machine() {
    let all = samples();
    for &a in &all {
        assert_eq!(f(a).is_nan(), a.is_nan(), "is_nan({a:?})");
        assert_eq!(f(a).to_bits(), a.to_bits());
        assert_eq!(f(a).neg().to_bits(), (-a).to_bits(), "neg({a:?})");
        for &b in &all {
            assert_eq!(f(a).lt(&f(b)), a < b, "{a:?} < {b:?}");
            assert_eq!(f(a).le(&f(b)), a <= b, "{a:?} <= {b:?}");
            assert_eq!(f(a).gt(&f(b)), a > b, "{a:?} > {b:?}");
            assert_eq!(f(a).ge(&f(b)), a >= b, "{a:?} >= {b:?}");
            assert_eq!(f(a).num_eq(&f(b)), a == b, "{a:?} == {b:?}");
        }
    }
}

#[test]
fn zeros_are_equal_and_nan_is_not() {
    assert!(f(0.0).num_eq(&f(-0.0)));
    assert_ne!(f(0.0), f(-0.0));
    assert!(!f(f64::NAN).num_eq(&f(f64::NAN)));
    assert_eq!(f(f64::NAN), f(f64::NAN));
    assert!(!f(f64::NAN).lt(&f(1.0)));
    assert!(!f(1.0).lt(&f(f64::NAN)));
    assert!(!f(f64::NAN).le(&f(f64::NAN)));
    assert!(f(f64::NEG_INFINITY).lt(&f(f64::MIN)));
    assert!(f(f64::MAX).lt(&f(f64::INFINITY)));
}

#[test]
fn constants() {
    assert_eq!(SIGN_BIT, (-0.0f64).to_bits());
    assert_eq!(INFINITY_BITS, f64::INFINITY.to_bits());
    assert_eq!(Float64 { bits: 7 }.to_bits(), 7);
    assert_eq!(Float64::from_bits(7).bits, 7);
}
