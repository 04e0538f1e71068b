use lmu_shared_memory::arithmetic::{clock_fell_back, milliseconds, normalize_input};
use lmu_shared_memory::rounding::{length_in_bits, power_of_two, shift_half_even};
use lmu_shared_memory::{Double, Single};

fn double(value: f64) -> Double {
    Double::from_bits(value.to_bits())
}

fn single(value: Single) -> f32 {
    f32::from_bits(value.to_bits())
}

/// Bit patterns of all kinds of numbers.
fn patterns() -> Vec<u64> {
    let mut all = vec![
        0,
        1,
        2,
        0x000f_ffff_ffff_ffff,
        0x0010_0000_0000_0000,
        0x7fef_ffff_ffff_ffff,
        0x7ff0_0000_0000_0000,
        0x7ff8_0000_0000_0000,
        0x7ff0_0000_0000_0001,
        0.0005f64.to_bits(),
        0.0004999999999999999f64.to_bits(),
        0.001f64.to_bits(),
        0.5f64.to_bits(),
        1.0f64.to_bits(),
        0.99999999f64.to_bits(),
        1.4e-45f64.to_bits(),
        7.0e-46f64.to_bits(),
        1.0000000000000002f64.to_bits(),
        83.4567f64.to_bits(),
        18446744073709551.0f64.to_bits(),
        18446744073709552.0f64.to_bits(),
        18446744073709553.0f64.to_bits(),
        18446744073709556.0f64.to_bits(),
        1.0e300f64.to_bits(),
    ];
    let mut x: u64 = 0x9e37_79b9_7f4a_7c15;
    for i in 0..4000u64 {
        x = x.wrapping_mul(6364136223846793005).wrapping_add(1442695040888963407);
        all.push(x);
        let fraction = (x ^ (x >> 17)) & 0x000f_ffff_ffff_ffff;
        all.push((890 + i % 200) << 52 | fraction);
        all.push((990 + i % 80) << 52 | fraction);
        all.push((1000 + i % 30) << 52 | (fraction & !0x3fff_ffff));
        all.push(((990 + i % 80) << 52 | fraction) | 1 << 63);
    }
    let negative: Vec<u64> = all.iter().map(|bits| bits | 1 << 63).collect();
    all.extend(negative);
    all
}

fn expected_milliseconds(value: f64) -> Option<u64> {
    if value.is_finite() && value > 0. {
        let rounded = (value * 1000.).round();
        if rounded <= u64::MAX as f64 {
            return Some(rounded as u64);
        }
    }
    None
}

#[test]
fn milliseconds_agree_with_the_hardware() {
    for bits in patterns() {
        let value = f64::from_bits(bits);
        assert_eq!(milliseconds(double(value)), expected_milliseconds(value), "{value:e}");
    }
}

#[test]
fn milliseconds_of_lap_times() {
    assert_eq!(milliseconds(double(83.4567)), Some(83457));
    assert_eq!(milliseconds(double(0.0005)), Some(1));
    assert_eq!(milliseconds(double(0.0004)), Some(0));
    assert_eq!(milliseconds(double(18446744073709552.0)), Some(u64::MAX));
    assert_eq!(milliseconds(double(18446744073709556.0)), None);
    assert_eq!(milliseconds(double(0.0)), None);
    assert_eq!(milliseconds(double(-1.0)), None);
    assert_eq!(milliseconds(double(f64::NAN)), None);
    assert_eq!(milliseconds(double(f64::INFINITY)), None);
}

#[test]
fn clock_comparison_agrees_with_the_hardware() {
    let all: Vec<u64> = patterns();
    for (i, bits) in all.iter().enumerate() {
        let elapsed = f64::from_bits(*bits);
        if !elapsed.is_finite() {
            continue;
        }
        let mut others = vec![
            all[(i * 7 + 3) % all.len()],
            (elapsed + 0.001).to_bits(),
            (elapsed + 0.001).to_bits().wrapping_add(1),
            (elapsed + 0.001).to_bits().wrapping_sub(1),
            0.001f64.to_bits(),
            0.001f64.to_bits() + 1,
            f64::INFINITY.to_bits(),
            f64::NAN.to_bits(),
        ];
        others.push(*bits);
        for other in others {
            let old = f64::from_bits(other);
            assert_eq!(
                clock_fell_back(double(elapsed), double(old)),
                elapsed + 0.001 < old,
                "{elapsed:e} {old:e}"
            );
        }
    }
}

#[test]
fn a_running_clock_has_not_fallen_back() {
    for bits in patterns() {
        let elapsed = f64::from_bits(bits);
        if elapsed.is_finite() {
            assert!(!clock_fell_back(double(elapsed), double(elapsed)));
        }
    }
    assert!(!clock_fell_back(double(100.0), double(99.0)));
    assert!(clock_fell_back(double(99.0), double(100.0)));
    assert!(!clock_fell_back(double(99.9995), double(100.0)));
}

#[test]
fn pedals_agree_with_the_hardware() {
    for bits in patterns() {
        let value = f64::from_bits(bits);
        let expected = if value.is_finite() { value.clamp(0., 1.) as f32 } else { 0. };
        assert_eq!(single(normalize_input(double(value))).to_bits(), expected.to_bits(), "{value:e}");
    }
}

#[test]
fn pedals_lie_from_zero_to_one() {
    for bits in patterns() {
        let position = single(normalize_input(Double::from_bits(bits)));
        assert!((0. ..=1.).contains(&position));
    }
    assert_eq!(single(normalize_input(double(0.25))), 0.25);
    assert_eq!(single(normalize_input(double(2.0))), 1.0);
    assert_eq!(single(normalize_input(double(-2.0))), 0.0);
    assert_eq!(single(normalize_input(double(f64::NAN))), 0.0);
}

#[test]
fn doubles_compare_as_the_hardware_does() {
    let all: Vec<u64> = patterns();
    for (i, bits) in all.iter().enumerate() {
        let (a, b) = (f64::from_bits(*bits), f64::from_bits(all[(i * 13 + 5) % all.len()]));
        assert_eq!(double(a).less_than(double(b)), a < b);
        assert_eq!(double(a) == double(b), a == b);
        assert_eq!(double(a) == double(a), !a.is_nan());
        assert_eq!(double(a) == double(-a), a == 0.);
        assert_eq!(double(a).is_finite(), a.is_finite());
        assert_eq!(double(a).is_nan(), a.is_nan());
    }
}

#[test]
fn singles_compare_as_the_hardware_does() {
    for a in [0.0f32, -0.0, 1.0, f32::NAN, f32::INFINITY] {
        for b in [0.0f32, -0.0, 1.0, f32::NAN, f32::INFINITY] {
            assert_eq!(Single::from_bits(a.to_bits()) == Single::from_bits(b.to_bits()), a == b);
        }
    }
}

#[test]
fn rounding_takes_the_nearest_and_halves_to_even() {
    assert_eq!(power_of_two(70), 1u128 << 70);
    assert_eq!(length_in_bits(0), 0);
    assert_eq!(length_in_bits(255), 8);
    assert_eq!(length_in_bits(256), 9);
    assert_eq!(shift_half_even(5, 1), 2);
    assert_eq!(shift_half_even(7, 1), 4);
    assert_eq!(shift_half_even(5, 2), 1);
    assert_eq!(shift_half_even(7, 2), 2);
    assert_eq!(shift_half_even(7, 0), 7);
}
