use minifloat::f8::{normalize, F8};
use num::Float;

/// Reconstructs the value as a 32-bit float: `2^(exp - BIAS) * significand`
/// with the sign bit applied.
fn to_f32(x: F8) -> f32 {
    let (signif, exp, _) = x.integer_decode();
    let mag = 2f32.powi(exp as i32) * (signif as f32);
    if x.is_sign_positive() {
        mag
    } else {
        -mag
    }
}

/// Decodes a 32-bit float into the (sign, significand, exponent) parts the
/// library's conversion entry points take.
fn decode(f: f32) -> (u8, u64, i32) {
    let (signif, exp, _) = Float::integer_decode(f);
    let sign = if f.is_sign_negative() { 1u8 } else { 0u8 };
    (sign, signif, exp as i32)
}

fn try_from(f: f32) -> Option<F8> {
    let (sign, signif, exp) = decode(f);
    F8::try_from_parts(sign, signif, exp)
}

fn approx_from(f: f32) -> F8 {
    let (sign, signif, exp) = decode(f);
    F8::approx_from_parts(sign, signif, exp)
}

/// Every packed byte, reconstructed through the public constructor.
fn all_values() -> Vec<F8> {
    let mut out = Vec::new();
    let mut b: u16 = 0;
    while b < 256 {
        out.push(F8::new((b >> 7) as u8, ((b >> 4) & 7) as u8, (b & 15) as u8));
        b += 1;
    }
    out
}

#[test]
fn identities_correct() {
    assert_eq!(to_f32(F8::zero()), 0f32);
    assert_eq!(to_f32(F8::one()), 1f32);
}

#[test]
fn test_from_vals() {
    let v = approx_from(2.0);
    assert_eq!(to_f32(v), 2.0);
}

#[test]
fn add_one_one_is_two() {
    let two = F8::one().add(F8::one());
    assert_eq!(to_f32(two), 2.0);
    assert_eq!(two, F8::new(0, 2, 2));
}

#[test]
fn mul_one_one_is_one() {
    assert_eq!(F8::one().mul(F8::one()), F8::one());
}

#[test]
fn sub_one_one_is_zero() {
    assert_eq!(F8::one().sub(F8::one()), F8::zero());
}

#[test]
fn exact_conversion_rejects_small_magnitudes() {
    assert!(try_from(0.012).is_none());
    assert!(try_from(0.002).is_none());
}

#[test]
fn exact_conversion_round_trips_canonical_values() {
    for v in all_values() {
        let canonical = if v.significand() == 0 {
            v.exponent() == 0
        } else {
            v.significand() % 2 == 1 && v.exponent() < 7
        };
        if canonical {
            assert_eq!(try_from(to_f32(v)), Some(v));
        }
    }
}

#[test]
fn exact_conversion_coarsens_wide_odd_significands() {
    // 17 reduces to the odd significand 17 at biased exponent 2; the
    // normalizer then halves it twice, decrementing the exponent each time,
    // down to 8 * 2^(1 - 2) = 4.
    assert_eq!(try_from(17.0), Some(F8::new(0, 1, 8)));
}

#[test]
fn exact_conversion_of_zero_keeps_sign() {
    assert_eq!(try_from(0.0), Some(F8::zero()));
    assert_eq!(try_from(-0.0), Some(F8::zero().neg()));
}

#[test]
fn addition_commutes() {
    let values = all_values();
    for &a in &values {
        for &b in &values {
            assert_eq!(a.add(b), b.add(a));
        }
    }
}

#[test]
fn addition_cancels_negation_exactly() {
    for v in all_values() {
        assert_eq!(v.add(v.neg()), F8::zero());
    }
}

#[test]
fn multiplication_sign_is_xor_of_signs() {
    let values = all_values();
    for &a in &values {
        for &b in &values {
            if a.signum() != 0 && b.signum() != 0 {
                let expect = a.is_sign_negative() != b.is_sign_negative();
                assert_eq!(a.mul(b).is_sign_negative(), expect);
            }
        }
    }
}

#[test]
fn fields_stay_in_range_after_arithmetic() {
    let values = all_values();
    for &a in &values {
        for &b in &values {
            for r in [a.add(b), a.sub(b), a.mul(b), a.neg()] {
                assert!(r.significand() <= 15);
                assert!(r.exponent() <= 7);
            }
        }
    }
}

#[test]
fn normalizer_keeps_in_range_pairs() {
    assert_eq!(normalize(2, 30), (1, 15));
    assert_eq!(normalize(6, 15), (6, 15));
    assert_eq!(normalize(0, 0), (0, 0));
}

#[test]
fn normalizer_saturates_to_sentinel() {
    // At or past the top of the exponent range, and when halving runs out
    // of room at exponent 0, the result is the sentinel: exponent field 7,
    // significand 0.
    assert_eq!(normalize(7, 1), (7, 0));
    assert_eq!(normalize(9, 0), (7, 0));
    assert_eq!(normalize(0, 16), (7, 0));
}

#[test]
fn multiplication_exponent_underflow_saturates_to_zero() {
    // Exponent fields 0 and 1 sum below the bias: the magnitude collapses
    // to zero while the combined sign bit is kept.
    let a = F8::new(0, 0, 3);
    let b = F8::new(1, 1, 5);
    let r = a.mul(b);
    assert_eq!(r.significand(), 0);
    assert_eq!(r.exponent(), 0);
    assert!(r.is_sign_negative());
    assert_eq!(r.signum(), 0);
}

#[test]
fn signum_values() {
    assert_eq!(F8::zero().signum(), 0);
    assert_eq!(F8::one().signum(), 1);
    assert_eq!(F8::one().neg().signum(), -1);
    // The saturation sentinel has significand 0, so its signum is 0 too.
    assert_eq!(F8::new(0, 7, 0).signum(), 0);
}

#[test]
fn negative_zero_is_distinct_but_valueless() {
    let nz = F8::zero().neg();
    assert_ne!(nz, F8::zero());
    assert_eq!(nz.signum(), 0);
    assert_eq!(to_f32(nz), 0.0);
}

#[test]
fn integer_decode_values() {
    assert_eq!(F8::zero().integer_decode(), (0, -2, 0));
    assert_eq!(F8::one().integer_decode(), (1, 0, 1));
    assert_eq!(F8::new(1, 3, 5).integer_decode(), (5, 1, -1));
}

#[test]
fn accessors_read_packed_fields() {
    let v = F8::new(1, 6, 11);
    assert!(v.is_sign_negative());
    assert!(!v.is_sign_positive());
    assert_eq!(v.exponent(), 6);
    assert_eq!(v.significand(), 11);
    // Out-of-range field bits are truncated to each field's width.
    assert_eq!(F8::new(2, 9, 21), F8::new(0, 1, 5));
}

#[test]
fn approx_conversion_truncates_toward_zero() {
    // 0.002 is below the smallest positive magnitude (0.25): every
    // significand bit is shed and the result is exactly zero.
    assert_eq!(approx_from(0.002), F8::zero());
    // 100 saturates: at exponent 0 the significand 400 cannot be halved
    // further, so the sentinel comes back.
    let sat = approx_from(100.0);
    assert_eq!(sat.exponent(), 7);
    assert_eq!(sat.significand(), 0);
    // 3.5 is representable exactly: 14 * 2^-2.
    assert_eq!(to_f32(approx_from(3.5)), 3.5);
}
