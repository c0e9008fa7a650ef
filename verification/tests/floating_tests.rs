use datavalue_rs::floating::{
    check_equal, check_less, check_nan, check_zero, from_int, from_magnitude, from_unsigned,
    magnitude_of,
};

fn next(state: &mut u64) -> u64 {
    *state = state
        .wrapping_mul(6364136223846793005)
        .wrapping_add(1442695040888963407);
    let mut x = *state;
    x ^= x >> 33;
    x = x.wrapping_mul(0xff51afd7ed558ccd);
    x ^= x >> 29;
    x
}

fn samples() -> Vec<u64> {
    let mut out = vec![
        0,
        1,
        2,
        0x8000_0000_0000_0000,
        0x8000_0000_0000_0001,
        0x3ff0_0000_0000_0000,
        0xbff0_0000_0000_0000,
        0x7ff0_0000_0000_0000,
        0xfff0_0000_0000_0000,
        0x7ff0_0000_0000_0001,
        0x7ff8_0000_0000_0000,
        0xfff8_0000_0000_0000,
        0xffff_ffff_ffff_ffff,
        0x7fef_ffff_ffff_ffff,
        0x000f_ffff_ffff_ffff,
        0x0010_0000_0000_0000,
        2.5f64.to_bits(),
        (-2.5f64).to_bits(),
        7.5f64.to_bits(),
    ];
    let mut state = 7u64;
    for _ in 0..200 {
        out.push(next(&mut state));
    }
    out
}

#[test]
fn conversion_of_integers_matches_the_machine() {
    let mut cases: Vec<i64> = vec![
        0,
        1,
        -1,
        2,
        3,
        5,
        7,
        42,
        -42,
        123456,
        i64::MAX,
        i64::MIN,
        i64::MAX - 1,
        i64::MIN + 1,
        (1 << 52) - 1,
        1 << 52,
        (1 << 52) + 1,
        (1 << 53) - 1,
        1 << 53,
        (1 << 53) + 1,
        (1 << 53) + 2,
        (1 << 53) + 3,
        (1 << 54) + 2,
        (1 << 54) + 6,
        (1 << 62) + (1 << 9),
        (1 << 62) + (1 << 9) + 1,
        (1 << 62) + 3 * (1 << 9),
        -((1 << 53) + 1),
        -((1 << 53) + 3),
        0x7fff_ffff_ffff_fc00,
        0x7fff_ffff_ffff_fdff,
        0x7fff_ffff_ffff_fe00,
    ];
    let mut state = 11u64;
    for _ in 0..2000 {
        let raw = next(&mut state);
        let shift = next(&mut state) % 64;
        cases.push((raw >> shift) as i64);
        cases.push(-(((raw >> shift) >> 1) as i64));
    }
    for i in cases {
        assert_eq!(from_int(i), (i as f64).to_bits(), "for {}", i);
    }
}

#[test]
fn conversion_of_unsigned_matches_the_machine() {
    let mut cases: Vec<u64> = vec![
        0,
        1,
        u64::MAX,
        u64::MAX - 1,
        1 << 63,
        (1 << 63) + 1,
        (1 << 63) + (1 << 10),
        (1 << 63) + (1 << 10) + 1,
        (1 << 63) + 3 * (1 << 10),
        0xffff_ffff_ffff_f800,
        0xffff_ffff_ffff_fbff,
        0xffff_ffff_ffff_fc00,
        i64::MAX as u64 + 1,
    ];
    let mut state = 13u64;
    for _ in 0..2000 {
        let raw = next(&mut state);
        let shift = next(&mut state) % 64;
        cases.push(raw >> shift);
    }
    for u in cases {
        assert_eq!(from_unsigned(u), (u as f64).to_bits(), "for {}", u);
        assert_eq!(from_magnitude(u), (u as f64).to_bits(), "for {}", u);
    }
}

#[test]
fn two_converts_to_the_pattern_of_two() {
    assert_eq!(from_int(2), 0x4000_0000_0000_0000);
    assert_eq!(from_int(1), 0x3ff0_0000_0000_0000);
    assert_eq!(from_int(-1), 0xbff0_0000_0000_0000);
    assert_eq!(from_int(0), 0);
    assert_eq!(from_int(7), 7.0f64.to_bits());
}

#[test]
fn classification_matches_the_machine() {
    for bits in samples() {
        let x = f64::from_bits(bits);
        assert_eq!(check_nan(bits), x.is_nan(), "for {:#x}", bits);
        assert_eq!(check_zero(bits), x == 0.0, "for {:#x}", bits);
        assert_eq!(magnitude_of(bits), x.abs().to_bits(), "for {:#x}", bits);
    }
}

#[test]
fn comparison_matches_the_machine() {
    let all = samples();
    for &a in &all {
        for &b in &all {
            let x = f64::from_bits(a);
            let y = f64::from_bits(b);
            assert_eq!(check_equal(a, b), x == y, "{:#x} == {:#x}", a, b);
            assert_eq!(check_less(a, b), x < y, "{:#x} < {:#x}", a, b);
        }
    }
}

#[test]
fn zeros_are_equal_and_nan_is_not() {
    let zero = 0.0f64.to_bits();
    let minus_zero = (-0.0f64).to_bits();
    let nan = f64::NAN.to_bits();
    assert!(check_equal(zero, minus_zero));
    assert!(!check_less(minus_zero, zero));
    assert!(!check_equal(nan, nan));
    assert!(!check_less(nan, zero));
    assert!(!check_less(zero, nan));
}
