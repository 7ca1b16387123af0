use stackvm::number::{
    abs, from_byte, from_index, is_nonzero, is_zero, nearest, to_byte, to_index,
    EPSILON, EXACT, HIDDEN, INFINITY, SIGN,
};

/// Numbers at the corners of the format, and around the machine's thresholds.
fn corners() -> Vec<f64> {
    let mut numbers = vec![
        0.0,
        -0.0,
        f64::MIN_POSITIVE,
        f64::from_bits(1),
        f64::from_bits(HIDDEN - 1),
        f64::EPSILON,
        1e-7,
        0.99e-7,
        1.01e-7,
        0.5,
        0.999_999_999_999_999_9,
        1.0,
        1.5,
        2.0,
        254.999_999,
        255.0,
        255.5,
        256.0,
        4_294_967_295.0,
        4_294_967_296.0,
        9_007_199_254_740_991.0,
        9_007_199_254_740_992.0,
        9_007_199_254_740_994.0,
        18_446_744_073_709_549_568.0,
        18_446_744_073_709_551_616.0,
        1e300,
        f64::MAX,
        f64::INFINITY,
        f64::NAN,
        f64::from_bits(INFINITY + 1),
        f64::from_bits(u64::MAX),
    ];
    let negated: Vec<f64> = numbers.iter().map(|n| -n).collect();
    numbers.extend(negated);
    numbers
}

/// A fixed sequence of bit patterns spread over the whole format.
fn scattered(count: usize) -> Vec<u64> {
    let mut state: u64 = 0x9e37_79b9_7f4a_7c15;
    let mut out = Vec::new();
    for _ in 0..count {
        state = state
            .wrapping_mul(6_364_136_223_846_793_005)
            .wrapping_add(1_442_695_040_888_963_407);
        out.push(state ^ (state >> 29));
    }
    out
}

#[test]
fn constants_are_the_bits_of_the_numbers_they_name() {
    assert_eq!(SIGN, (-0.0f64).to_bits());
    assert_eq!(INFINITY, f64::INFINITY.to_bits());
    assert_eq!(EPSILON, 1e-7f64.to_bits());
    assert_eq!(HIDDEN, 1u64 << 52);
    assert_eq!(EXACT, 1u64 << 53);
}

#[test]
fn abs_clears_the_sign() {
    for n in corners() {
        assert_eq!(abs(n.to_bits()), n.abs().to_bits(), "{n}");
    }
    for bits in scattered(2000) {
        assert_eq!(abs(bits), f64::from_bits(bits).abs().to_bits(), "{bits:#x}");
    }
}

#[test]
fn epsilon_tests_agree_with_the_comparisons() {
    for n in corners() {
        assert_eq!(is_zero(n.to_bits()), n.abs() <= 1e-7, "{n}");
        assert_eq!(is_nonzero(n.to_bits()), n.abs() >= 1e-7, "{n}");
    }
    for bits in scattered(2000) {
        let n = f64::from_bits(bits);
        assert_eq!(is_zero(bits), n.abs() <= 1e-7, "{bits:#x}");
        assert_eq!(is_nonzero(bits), n.abs() >= 1e-7, "{bits:#x}");
    }
}

#[test]
fn epsilon_itself_is_both_zero_and_nonzero() {
    assert!(is_zero(EPSILON));
    assert!(is_nonzero(EPSILON));
    assert!(is_zero(EPSILON | SIGN));
    assert!(is_nonzero(EPSILON | SIGN));
    assert!(is_zero(EPSILON - 1));
    assert!(!is_nonzero(EPSILON - 1));
    assert!(!is_zero(EPSILON + 1));
    assert!(is_nonzero(EPSILON + 1));
}

#[test]
fn nan_is_neither_zero_nor_nonzero() {
    assert!(!is_zero(f64::NAN.to_bits()));
    assert!(!is_nonzero(f64::NAN.to_bits()));
    assert!(!is_zero(INFINITY + 1));
    assert!(!is_nonzero(INFINITY + 1));
    assert!(!is_zero(u64::MAX));
    assert!(!is_nonzero(u64::MAX));
}

#[test]
fn infinity_is_nonzero() {
    assert!(is_nonzero(INFINITY));
    assert!(is_nonzero(INFINITY | SIGN));
    assert!(!is_zero(INFINITY));
}

#[test]
fn to_index_agrees_with_the_cast() {
    for n in corners() {
        assert_eq!(to_index(n.to_bits()), n as usize, "{n}");
    }
    for bits in scattered(4000) {
        assert_eq!(to_index(bits), f64::from_bits(bits) as usize, "{bits:#x}");
    }
    for exponent in 1000u64..1100 {
        for fraction in [0u64, 1, HIDDEN / 2, HIDDEN - 1] {
            let bits = (exponent << 52) | fraction;
            assert_eq!(to_index(bits), f64::from_bits(bits) as usize, "{bits:#x}");
        }
    }
}

#[test]
fn to_index_exact_values() {
    assert_eq!(to_index(0.0f64.to_bits()), 0);
    assert_eq!(to_index(0.999f64.to_bits()), 0);
    assert_eq!(to_index(1.0f64.to_bits()), 1);
    assert_eq!(to_index(12.75f64.to_bits()), 12);
    assert_eq!(to_index((-12.75f64).to_bits()), 0);
    assert_eq!(to_index(f64::NAN.to_bits()), 0);
    assert_eq!(to_index(f64::INFINITY.to_bits()), usize::MAX);
    assert_eq!(to_index(f64::NEG_INFINITY.to_bits()), 0);
    assert_eq!(to_index(1e300f64.to_bits()), usize::MAX);
}

#[test]
fn to_byte_agrees_with_the_cast() {
    for n in corners() {
        assert_eq!(to_byte(n.to_bits()), n as u8, "{n}");
    }
    for bits in scattered(4000) {
        assert_eq!(to_byte(bits), f64::from_bits(bits) as u8, "{bits:#x}");
    }
    for tenth in 0..3000u32 {
        let n = f64::from(tenth) / 10.0;
        assert_eq!(to_byte(n.to_bits()), n as u8, "{n}");
    }
}

#[test]
fn to_byte_exact_values() {
    assert_eq!(to_byte(0.0f64.to_bits()), 0);
    assert_eq!(to_byte(3.99f64.to_bits()), 3);
    assert_eq!(to_byte(255.0f64.to_bits()), 255);
    assert_eq!(to_byte(256.0f64.to_bits()), 255);
    assert_eq!(to_byte((-1.0f64).to_bits()), 0);
    assert_eq!(to_byte(f64::NAN.to_bits()), 0);
    assert_eq!(to_byte(f64::INFINITY.to_bits()), 255);
}

#[test]
fn from_byte_agrees_with_the_cast() {
    for n in 0..=255u8 {
        assert_eq!(from_byte(n), f64::from(n).to_bits(), "{n}");
    }
}

#[test]
fn from_index_agrees_with_the_cast() {
    for n in 0..5000usize {
        assert_eq!(from_index(n), (n as f64).to_bits(), "{n}");
    }
    for shift in 0..usize::BITS {
        for delta in [0usize, 1, 2, 3] {
            let high = 1usize << shift;
            for n in [high.wrapping_add(delta), high.wrapping_sub(delta), usize::MAX - delta] {
                assert_eq!(from_index(n), (n as f64).to_bits(), "{n}");
            }
        }
    }
    for bits in scattered(4000) {
        let n = bits as usize;
        assert_eq!(from_index(n), (n as f64).to_bits(), "{n}");
        let shifted = (bits >> (bits % 64)) as usize;
        assert_eq!(from_index(shifted), (shifted as f64).to_bits(), "{shifted}");
    }
}

#[test]
fn nearest_rounds_ties_to_even() {
    // From two to the power 53 on, neighbours are two apart.
    let base: u64 = 1 << 53;
    assert_eq!(nearest(base), (base as f64).to_bits());
    assert_eq!(f64::from_bits(nearest(base + 1)), 9_007_199_254_740_992.0);
    assert_eq!(f64::from_bits(nearest(base + 2)), 9_007_199_254_740_994.0);
    assert_eq!(f64::from_bits(nearest(base + 3)), 9_007_199_254_740_996.0);
    // A carry out of the significand.
    assert_eq!(f64::from_bits(nearest(u64::MAX)), 18_446_744_073_709_551_616.0);
    assert_eq!(f64::from_bits(nearest(u64::MAX - 1023)), 18_446_744_073_709_551_616.0);
    assert_eq!(f64::from_bits(nearest(u64::MAX - 1024)), 18_446_744_073_709_549_568.0);
    for bits in scattered(4000) {
        assert_eq!(nearest(bits), (bits as f64).to_bits(), "{bits}");
    }
}

#[test]
fn nearest_exact_values() {
    assert_eq!(nearest(0), 0);
    assert_eq!(nearest(1), 0x3ff0_0000_0000_0000);
    assert_eq!(nearest(2), 0x4000_0000_0000_0000);
    assert_eq!(nearest(3), 0x4008_0000_0000_0000);
    assert_eq!(nearest(255), 0x406f_e000_0000_0000);
}

#[test]
fn an_address_survives_the_way_through_a_number() {
    for n in [0usize, 1, 2, 41, 255, 256, 65_535, 1_000_000, 4_294_967_295] {
        assert_eq!(to_index(from_index(n)), n);
    }
    for n in 0..=255u8 {
        assert_eq!(to_byte(from_byte(n)), n);
    }
}
