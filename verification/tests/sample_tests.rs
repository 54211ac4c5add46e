//! The fixed-point reading and writing of sample bit patterns agrees with
//! real binary32 arithmetic.

use mic::sample::{
    fixed_to_sample, is_sample_in_range, pow2_u64, sample_from_i16, sample_from_u16, sample_mag,
};

#[test]
fn i16_conversion_matches_float_division() {
    let cases: [i16; 9] = [-32768, -12345, -256, -1, 0, 1, 777, 16384, 32767];
    for &s in cases.iter() {
        let expected = (s as f32 / 32768.0).to_bits();
        assert_eq!(sample_from_i16(s), expected, "sample {}", s);
    }
}

#[test]
fn i16_conversion_full_sweep() {
    let mut s: i32 = -32768;
    while s <= 32767 {
        let expected = (s as i16 as f32 / 32768.0).to_bits();
        assert_eq!(sample_from_i16(s as i16), expected);
        s += 17;
    }
}

#[test]
fn u16_conversion_matches_float_formula() {
    let cases: [u16; 8] = [0, 1, 255, 32767, 32768, 32769, 65000, 65535];
    for &u in cases.iter() {
        let expected = (u as f32 / 65536.0 - 0.5).to_bits();
        assert_eq!(sample_from_u16(u), expected, "sample {}", u);
    }
}

#[test]
fn magnitude_is_value_scaled_by_two_to_32() {
    assert_eq!(sample_mag(0.5f32.to_bits()), 1u64 << 31);
    assert_eq!(sample_mag((-0.5f32).to_bits()), 1u64 << 31);
    assert_eq!(sample_mag(1.0f32.to_bits()), 1u64 << 32);
    assert_eq!(sample_mag(0.0f32.to_bits()), 0);
    assert_eq!(sample_mag((-0.0f32).to_bits()), 0);
    assert_eq!(sample_mag(0.25f32.to_bits()), 1u64 << 30);
    // 0.01 in binary32 is slightly below 1/100; the scaled magnitude
    // truncates toward zero.
    let expected = (0.01f32 as f64 * 4294967296.0).floor() as u64;
    assert_eq!(sample_mag(0.01f32.to_bits()), expected);
}

#[test]
fn encode_round_trips_exact_magnitudes() {
    assert_eq!(fixed_to_sample(false, 1u64 << 31), 0.5f32.to_bits());
    assert_eq!(fixed_to_sample(true, 1u64 << 31), (-0.5f32).to_bits());
    assert_eq!(fixed_to_sample(false, 1u64 << 32), 1.0f32.to_bits());
    assert_eq!(fixed_to_sample(false, 0), 0u32);
    assert_eq!(fixed_to_sample(true, 0), 0u32);
    assert_eq!(fixed_to_sample(false, 3u64 << 29), 0.375f32.to_bits());
}

#[test]
fn range_check_matches_magnitude() {
    assert!(is_sample_in_range(1.0f32.to_bits()));
    assert!(is_sample_in_range((-1.0f32).to_bits()));
    assert!(is_sample_in_range(0.0f32.to_bits()));
    assert!(is_sample_in_range(0.9999f32.to_bits()));
    assert!(!is_sample_in_range(1.0001f32.to_bits()));
    assert!(!is_sample_in_range(f32::INFINITY.to_bits()));
    assert!(!is_sample_in_range(f32::NAN.to_bits()));
}

#[test]
fn powers_of_two() {
    assert_eq!(pow2_u64(0), 1);
    assert_eq!(pow2_u64(17), 131072);
    assert_eq!(pow2_u64(63), 1u64 << 63);
}
