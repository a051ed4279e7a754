use bitgrep::types::bit_type::{BitType, Float};
use bitgrep::types::compare::{float_equal, numeric_equal, Compare, MAX_ULPS};
use bitgrep::types::float::{Float32, Float64};

fn f32v(value: f32) -> Float32 {
    Float32::from_bits(value.to_bits())
}

fn f64v(value: f64) -> Float64 {
    Float64::from_bits(value.to_bits())
}

#[test]
fn float_equal_f32_not_equal_returns_false() {
    assert!(!float_equal::<Float32>(&f32v(32.445), &f32v(32.0)));
    assert!(!float_equal::<Float32>(&f32v(32.445), &f32v(f32::NAN)));
    assert!(!float_equal::<Float32>(&f32v(32.0), &f32v(34.0)));
    assert!(!float_equal::<Float32>(&f32v(0.0), &f32v(0.0001)));

    assert!(!float_equal::<Float32>(&f32v(f32::NAN), &f32v(f32::INFINITY)));
    assert!(!float_equal::<Float32>(&f32v(f32::NAN), &f32v(f32::NEG_INFINITY)));

    assert!(!float_equal::<Float32>(&f32v(f32::INFINITY), &f32v(f32::NEG_INFINITY)));
    assert!(!float_equal::<Float32>(&f32v(f32::NEG_INFINITY), &f32v(f32::INFINITY)));

    assert!(!float_equal::<Float32>(&f32v(0.0), &f32v(f32::EPSILON * 2.0)));
}

#[test]
fn float_equal_f64_not_equal_returns_false() {
    assert!(!float_equal::<Float64>(&f64v(32.445), &f64v(32.0)));
    assert!(!float_equal::<Float64>(&f64v(32.445), &f64v(f64::NAN)));
    assert!(!float_equal::<Float64>(&f64v(32.0), &f64v(34.0)));
    assert!(!float_equal::<Float64>(&f64v(0.0), &f64v(0.0001)));

    assert!(!float_equal::<Float64>(&f64v(f64::NAN), &f64v(f64::INFINITY)));
    assert!(!float_equal::<Float64>(&f64v(f64::NAN), &f64v(f64::NEG_INFINITY)));

    assert!(!float_equal::<Float64>(&f64v(f64::INFINITY), &f64v(f64::NEG_INFINITY)));
    assert!(!float_equal::<Float64>(&f64v(f64::NEG_INFINITY), &f64v(f64::INFINITY)));

    assert!(!float_equal::<Float64>(&f64v(0.0), &f64v(f64::EPSILON * 2.0)));
}

#[test]
fn float_equal_f32_equal_returns_true() {
    assert!(float_equal::<Float32>(&f32v(32.445), &f32v(32.445)));
    assert!(float_equal::<Float32>(&f32v(32.445 + f32::EPSILON), &f32v(32.445)));
    assert!(float_equal::<Float32>(&f32v(32.445 - f32::EPSILON), &f32v(32.445)));

    assert!(float_equal::<Float32>(&f32v(-0.0), &f32v(0.0)));
    assert!(float_equal::<Float32>(&f32v(0.0), &f32v(0.0)));

    assert!(float_equal::<Float32>(&f32v(f32::NAN), &f32v(f32::NAN)));
    assert!(float_equal::<Float32>(&f32v(f32::NAN), &f32v(-f32::NAN)));
    assert!(float_equal::<Float32>(&f32v(-f32::NAN), &f32v(-f32::NAN)));
    assert!(float_equal::<Float32>(&f32v(f32::NAN), &f32v(f32::NAN)));
}

#[test]
fn float_equal_f32_equal_zeroes_returns_true() {
    assert!(float_equal::<Float32>(&f32v(-0.0), &f32v(0.0)));
    assert!(float_equal::<Float32>(&f32v(0.0), &f32v(0.0)));
}

#[test]
fn float_equal_f32_equal_special_returns_true() {
    assert!(float_equal::<Float32>(&f32v(f32::NAN), &f32v(f32::NAN)));
    assert!(float_equal::<Float32>(&f32v(f32::NAN), &f32v(-f32::NAN)));
    assert!(float_equal::<Float32>(&f32v(-f32::NAN), &f32v(-f32::NAN)));
    assert!(float_equal::<Float32>(&f32v(f32::NAN), &f32v(-f32::NAN)));

    assert!(float_equal::<Float32>(&f32v(f32::INFINITY), &f32v(f32::INFINITY)));
    assert!(float_equal::<Float32>(&f32v(f32::NEG_INFINITY), &f32v(f32::NEG_INFINITY)));
}

#[test]
fn float_equal_f64_equal_returns_true() {
    assert!(float_equal::<Float64>(&f64v(32.445), &f64v(32.445)));
    assert!(float_equal::<Float64>(&f64v(32.445 + f64::EPSILON), &f64v(32.445)));
    assert!(float_equal::<Float64>(&f64v(32.445 - f64::EPSILON), &f64v(32.445)));

    assert!(float_equal::<Float64>(&f64v(-0.0), &f64v(0.0)));
    assert!(float_equal::<Float64>(&f64v(0.0), &f64v(0.0)));

    assert!(float_equal::<Float64>(&f64v(f64::NAN), &f64v(f64::NAN)));
    assert!(float_equal::<Float64>(&f64v(f64::NAN), &f64v(-f64::NAN)));
    assert!(float_equal::<Float64>(&f64v(-f64::NAN), &f64v(-f64::NAN)));
    assert!(float_equal::<Float64>(&f64v(f64::NAN), &f64v(f64::NAN)));
}

#[test]
fn float_equal_f64_equal_zeroes_returns_true() {
    assert!(float_equal::<Float64>(&f64v(-0.0), &f64v(0.0)));
    assert!(float_equal::<Float64>(&f64v(0.0), &f64v(0.0)));
}

#[test]
fn float_equal_f64_equal_special_returns_true() {
    assert!(float_equal::<Float64>(&f64v(f64::NAN), &f64v(f64::NAN)));
    assert!(float_equal::<Float64>(&f64v(f64::NAN), &f64v(-f64::NAN)));
    assert!(float_equal::<Float64>(&f64v(-f64::NAN), &f64v(-f64::NAN)));
    assert!(float_equal::<Float64>(&f64v(f64::NAN), &f64v(-f64::NAN)));

    assert!(float_equal::<Float64>(&f64v(f64::INFINITY), &f64v(f64::INFINITY)));
    assert!(float_equal::<Float64>(&f64v(f64::NEG_INFINITY), &f64v(f64::NEG_INFINITY)));
}

#[test]
fn numeric_equal_not_equal_returns_false() {
    assert!(!numeric_equal::<u32>(&0, &3));
    assert!(!numeric_equal::<u8>(&60, &44));
    assert!(!numeric_equal::<i64>(&34, &-3));
}

#[test]
fn numeric_equal_equal_returns_true() {
    assert!(numeric_equal::<i32>(&-31, &-31));
    assert!(numeric_equal::<u8>(&40, &40));
    assert!(numeric_equal::<i64>(&0, &0));
}

#[test]
fn numeric_equal_on_floats_is_the_equality_of_floats() {
    let values = [
        f64::NEG_INFINITY,
        -1.5,
        -0.0,
        0.0,
        f64::MIN_POSITIVE,
        1.5,
        f64::INFINITY,
        f64::NAN,
    ];
    for a in values {
        for b in values {
            assert_eq!(numeric_equal(&f64v(a), &f64v(b)), a == b);
            assert_eq!(
                numeric_equal(&f32v(a as f32), &f32v(b as f32)),
                (a as f32) == (b as f32)
            );
        }
    }
}

#[test]
fn equal_within_four_steps_and_not_beyond() {
    assert_eq!(MAX_ULPS, 4);
    let base = 32.445f32.to_bits();
    for step in 0..=4u32 {
        assert!(float_equal(&Float32::from_bits(base), &Float32::from_bits(base + step)));
        assert!(float_equal(&Float32::from_bits(base + step), &Float32::from_bits(base)));
        assert!(Float32::from_bits(base - step).equal(&Float32::from_bits(base)));
    }
    assert!(!float_equal(&Float32::from_bits(base), &Float32::from_bits(base + 5)));
    assert!(!float_equal(&Float32::from_bits(base - 5), &Float32::from_bits(base)));

    let base = (-32.445f64).to_bits();
    for step in 0..=4u64 {
        assert!(float_equal(&Float64::from_bits(base), &Float64::from_bits(base + step)));
        assert!(Float64::from_bits(base - step).equal(&Float64::from_bits(base)));
    }
    assert!(!float_equal(&Float64::from_bits(base), &Float64::from_bits(base + 5)));
    assert!(!float_equal(&Float64::from_bits(base - 5), &Float64::from_bits(base)));
}

#[test]
fn steps_are_counted_across_zero() {
    let smallest = f32::from_bits(1);
    assert!(float_equal(&f32v(smallest), &f32v(-smallest)));
    assert!(float_equal(&f32v(f32::from_bits(2)), &f32v(-f32::from_bits(2))));
    assert!(!float_equal(&f32v(f32::from_bits(3)), &f32v(-f32::from_bits(2))));
    assert!(float_equal(&f64v(f64::from_bits(4)), &f64v(-0.0)));
    assert!(!float_equal(&f64v(f64::from_bits(5)), &f64v(-0.0)));
}

#[test]
fn infinity_is_one_step_from_the_largest_number() {
    assert!(float_equal(&f32v(f32::INFINITY), &f32v(f32::MAX)));
    assert!(float_equal(&f64v(f64::NEG_INFINITY), &f64v(f64::MIN)));
    assert!(!float_equal(&f32v(f32::NAN), &f32v(f32::MAX)));
    assert!(!float_equal(&Float32::from_bits(0x7f80_0001), &f32v(f32::INFINITY)));
}

#[test]
fn equal_agrees_with_the_ulps_comparison_of_approx_away_from_zero() {
    let values = [
        1.0f64,
        -1.0,
        32.445,
        32.44567,
        1.0e300,
        -2.5e3,
        f64::MAX,
        f64::INFINITY,
        f64::NEG_INFINITY,
    ];
    for a in values {
        for b in values {
            for step in 0..8u64 {
                let near = f64::from_bits(b.to_bits().wrapping_add(step));
                if near.is_nan() {
                    continue;
                }
                assert_eq!(
                    float_equal(&f64v(a), &f64v(near)),
                    approx::Ulps::default().max_ulps(4).eq(&a, &near),
                    "{a} {near}"
                );
                let (x, y) = (a as f32, f32::from_bits((b as f32).to_bits().wrapping_add(step as u32)));
                if y.is_nan() {
                    continue;
                }
                assert_eq!(
                    float_equal(&f32v(x), &f32v(y)),
                    approx::Ulps::default().max_ulps(4).eq(&x, &y),
                    "{x} {y}"
                );
            }
        }
    }
}

#[test]
fn numbers_near_zero_are_compared_in_steps_too() {
    assert!(!float_equal(&f64v(0.0), &f64v(1.0e-300)));
    assert!(!float_equal(&f32v(1.0e-30), &f32v(2.0e-30)));
    assert!(float_equal(&f32v(1.0e-30), &f32v(f32::from_bits(1.0e-30f32.to_bits() + 4))));
}

#[test]
fn compare_equal_on_integers_is_exact() {
    assert!(5u8.equal(&5));
    assert!(!5u8.equal(&6));
    assert!((-5i128).equal(&-5));
    assert!(!i64::MIN.equal(&i64::MAX));
    assert!(u128::MAX.equal(&u128::MAX));
    assert!(!0u16.equal(&1));
    assert!(7i16.equal(&7));
    assert!(7u32.equal(&7));
    assert!(7u64.equal(&7));
    assert!(!7i8.equal(&-7));
    assert!(7i32.equal(&7));
}

#[test]
fn float_classes() {
    assert!(f32v(f32::NAN).is_nan());
    assert!(f32v(-f32::NAN).is_nan());
    assert!(!f32v(f32::INFINITY).is_nan());
    assert!(f32v(f32::INFINITY).is_pos_infinity());
    assert!(!f32v(f32::INFINITY).is_neg_infinity());
    assert!(f32v(f32::NEG_INFINITY).is_neg_infinity());
    assert!(!f32v(f32::NEG_INFINITY).is_pos_infinity());
    assert!(!f32v(f32::MAX).is_pos_infinity());
    assert!(!f32v(1.0).is_nan());

    assert!(f64v(f64::NAN).is_nan());
    assert!(f64v(f64::INFINITY).is_pos_infinity());
    assert!(f64v(f64::NEG_INFINITY).is_neg_infinity());
    assert!(!f64v(f64::MIN).is_neg_infinity());
    assert!(!f64v(0.0).is_nan());

    assert!(BitType::is_finite(&f64v(f64::MAX)));
    assert!(!BitType::is_finite(&f64v(f64::INFINITY)));
    assert!(!BitType::is_finite(&f32v(f32::NAN)));
    assert!(BitType::is_finite(&-3i8));
}

#[test]
fn ordinals_count_steps_from_zero() {
    assert_eq!(f32v(0.0).ordinal(), 0);
    assert_eq!(f32v(-0.0).ordinal(), 0);
    assert_eq!(f32v(f32::from_bits(7)).ordinal(), 7);
    assert_eq!(f32v(-f32::from_bits(7)).ordinal(), -7);
    assert_eq!(f64v(1.0).ordinal(), 0x3ff0_0000_0000_0000);
    assert_eq!(f64v(-1.0).ordinal(), -0x3ff0_0000_0000_0000);
    assert_eq!(f64v(1.0).to_bits(), 0x3ff0_0000_0000_0000);
    assert_eq!(f32v(-1.0).abs_bits(), 0x3f80_0000);
    assert_eq!(f64v(-1.0).abs_bits(), 0x3ff0_0000_0000_0000);
    assert_eq!(f32v(1.0).to_bits(), 0x3f80_0000);
}
