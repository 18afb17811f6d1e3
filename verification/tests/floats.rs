use vlfo::floatbits::{f64_to_f32, f64_to_i32, int_to_f32, is_nonzero, is_nonzero_f64, round_f32_to_i32, HALF, ONE};

#[test]
fn int_to_f32_small_values_are_exact() {
    for v in -1000i64..=1000 {
        assert_eq!(int_to_f32(v), (v as f32).to_bits(), "value {v}");
    }
}

#[test]
fn int_to_f32_rounds_to_nearest_even() {
    // 2^24 + 1 lies halfway between two floats: ties go to the even one.
    assert_eq!(int_to_f32(16_777_217), 0x4b80_0000);
    assert_eq!(int_to_f32(16_777_219), 0x4b80_0002);
    let samples: [i64; 12] = [
        16_777_217,
        16_777_218,
        16_777_219,
        33_554_435,
        i32::MAX as i64,
        i32::MIN as i64,
        i64::MAX,
        i64::MIN,
        i64::MIN + 1,
        -16_777_217,
        1 << 40,
        (1 << 40) + 12_345,
    ];
    for v in samples {
        assert_eq!(int_to_f32(v), (v as f32).to_bits(), "value {v}");
    }
    let mut v: i64 = 1;
    for _ in 0..200 {
        v = v.wrapping_mul(6_364_136_223_846_793_005).wrapping_add(1_442_695_040_888_963_407);
        assert_eq!(int_to_f32(v), (v as f32).to_bits(), "value {v}");
        let w = v >> 20;
        assert_eq!(int_to_f32(w), (w as f32).to_bits(), "value {w}");
    }
}

#[test]
fn constants_are_one_and_a_half() {
    assert_eq!(ONE, 1.0f32.to_bits());
    assert_eq!(HALF, 0.5f32.to_bits());
    assert_eq!(int_to_f32(1), ONE);
    assert_eq!(int_to_f32(0), 0);
}

#[test]
fn round_to_i32_matches_round_then_cast() {
    let samples: [f32; 22] = [
        0.0, -0.0, 0.5, -0.5, 1.5, -1.5, 2.5, -2.5, 0.49999997, 1e-40, -1e-40, 123.456, -123.456,
        2147483520.0, 2147483648.0, -2147483648.0, -2147483904.0, 1e20, -1e20, f32::INFINITY,
        f32::NEG_INFINITY, f32::NAN,
    ];
    for f in samples {
        assert_eq!(round_f32_to_i32(f.to_bits()), f.round() as i32, "value {f}");
    }
    let mut b: u32 = 12345;
    for _ in 0..5000 {
        b = b.wrapping_mul(1_664_525).wrapping_add(1_013_904_223);
        let f = f32::from_bits(b);
        assert_eq!(round_f32_to_i32(b), f.round() as i32, "bits {b:#x}");
    }
}

#[test]
fn round_half_goes_away_from_zero() {
    assert_eq!(round_f32_to_i32(0.5f32.to_bits()), 1);
    assert_eq!(round_f32_to_i32((-0.5f32).to_bits()), -1);
    assert_eq!(round_f32_to_i32(2.5f32.to_bits()), 3);
}

#[test]
fn nonzero_treats_both_zeros_as_zero() {
    assert!(!is_nonzero(0.0f32.to_bits()));
    assert!(!is_nonzero((-0.0f32).to_bits()));
    assert!(is_nonzero(1e-45f32.to_bits()));
    assert!(is_nonzero(f32::NAN.to_bits()));
    assert!(is_nonzero((-3.0f32).to_bits()));
}

fn double_samples() -> Vec<f64> {
    let mut v = vec![
        0.0, -0.0, 1.0, -1.0, 0.1, 0.3, 1.0 / 3.0, 2.5, -2.5, 1e-45, 7e-46, 1.4e-45, 1e-40, -1e-40,
        1.1754942e-38, 1.1754944e-38, 3.4028234e38, 3.4028235e38, 3.40282357e38, 3.4028236e38, 1e39,
        -1e39, 1e300, -1e300, 5e-324, 2147483647.0, 2147483648.0, -2147483648.0, -2147483649.0,
        2147483647.9, -2147483648.9, 16777217.0, 16777219.0, 0.5, 1.5, -0.9999, 123456789.123,
        f64::MAX, f64::MIN, f64::MIN_POSITIVE, f64::INFINITY, f64::NEG_INFINITY, f64::EPSILON,
    ];
    let mut x: u64 = 0x9e37_79b9_7f4a_7c15;
    for _ in 0..20000 {
        x ^= x << 13;
        x ^= x >> 7;
        x ^= x << 17;
        v.push(f64::from_bits(x));
        // values near the f32 range and its subnormals
        let e = (x >> 52) % 330;
        let near = (x & 0x800f_ffff_ffff_ffff) | ((e + 1023 - 165) << 52);
        v.push(f64::from_bits(near));
    }
    v
}

#[test]
fn f64_to_f32_matches_as_cast() {
    for d in double_samples() {
        let ours = f64_to_f32(d.to_bits());
        let std = (d as f32).to_bits();
        if d.is_nan() {
            assert!(f32::from_bits(ours).is_nan(), "{:#x}", d.to_bits());
        } else {
            assert_eq!(ours, std, "value {d:e} bits {:#x}", d.to_bits());
        }
    }
}

#[test]
fn f64_to_f32_keeps_nan_payload_top() {
    for b in [0x7ff8_0000_0000_0000u64, 0x7ff0_0000_0000_0001, 0xfff4_0000_2000_0000, 0x7fff_ffff_ffff_ffff] {
        let ours = f64_to_f32(b);
        let std = (f64::from_bits(b) as f32).to_bits();
        assert_eq!(ours, std, "{b:#x}");
    }
}

#[test]
fn f64_to_i32_matches_as_cast() {
    for d in double_samples() {
        assert_eq!(f64_to_i32(d.to_bits()), d as i32, "value {d:e}");
    }
    assert_eq!(f64_to_i32(3.7f64.to_bits()), 3);
    assert_eq!(f64_to_i32((-3.7f64).to_bits()), -3);
    assert_eq!(f64_to_i32(f64::NAN.to_bits()), 0);
}

#[test]
fn f64_nonzero_like_comparison() {
    for d in double_samples() {
        assert_eq!(is_nonzero_f64(d.to_bits()), d != 0.0, "value {d:e}");
    }
}
