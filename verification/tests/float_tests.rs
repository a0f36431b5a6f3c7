use tsfile::float_bits::{f32_lt, f64_add, f64_from_f32_bits, f64_from_i64};

#[test]
fn widening_matches_hardware() {
    for x in [
        0.0f32,
        -0.0,
        1.0,
        -1.0,
        3.141,
        15.0,
        f32::MIN_POSITIVE,
        f32::MAX,
        f32::MIN,
        1.0e-40, // subnormal
        -1.0e-40,
        f32::INFINITY,
        f32::NEG_INFINITY,
    ] {
        assert_eq!(f64_from_f32_bits(x.to_bits()), (x as f64).to_bits());
    }
}

#[test]
fn integer_conversion_matches_hardware() {
    for v in [
        0i64,
        1,
        -1,
        13,
        -14,
        i64::MAX,
        i64::MIN,
        (1i64 << 53) + 1,
        (1i64 << 53) + 3,
        -(1i64 << 60) - 12345,
        987654321987654321,
    ] {
        assert_eq!(f64_from_i64(v), (v as f64).to_bits());
    }
}

#[test]
fn addition_matches_hardware() {
    let samples = [
        0.0f64,
        -0.0,
        1.0,
        -1.0,
        13.0,
        14.0,
        15.0,
        0.1,
        -0.25,
        1.0e300,
        -1.0e300,
        1.0e-300,
        5e-324,
        -5e-324,
        f64::MAX,
        f64::MIN,
        f64::INFINITY,
        f64::NEG_INFINITY,
        2.0f64.powi(53),
        2.0f64.powi(53) + 2.0,
        1.0e16,
    ];
    for a in samples {
        for b in samples {
            let want = a + b;
            let got = f64_add(a.to_bits(), b.to_bits());
            if want.is_nan() {
                assert!(f64::from_bits(got).is_nan(), "{a} + {b}");
            } else {
                assert_eq!(got, want.to_bits(), "{a} + {b}");
            }
        }
    }
}

#[test]
fn addition_handles_nan() {
    let nan = f64::NAN.to_bits();
    assert!(f64::from_bits(f64_add(nan, (1.0f64).to_bits())).is_nan());
    assert!(f64::from_bits(f64_add((1.0f64).to_bits(), nan)).is_nan());
    assert!(f64::from_bits(f64_add(
        f64::INFINITY.to_bits(),
        f64::NEG_INFINITY.to_bits()
    ))
    .is_nan());
}

#[test]
fn comparison_matches_hardware() {
    let samples = [
        0.0f32,
        -0.0,
        1.0,
        -1.0,
        13.0,
        15.0,
        f32::MAX,
        f32::MIN,
        1.0e-40,
        -1.0e-40,
        f32::INFINITY,
        f32::NEG_INFINITY,
        f32::NAN,
    ];
    for a in samples {
        for b in samples {
            assert_eq!(f32_lt(a.to_bits(), b.to_bits()), a < b, "{a} < {b}");
        }
    }
}
