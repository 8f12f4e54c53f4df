use hologram_exec::error::ExecError;
use hologram_exec::half::{f16_to_f32_bits, F32_QUIET_NAN};
use hologram_exec::pool::{fold_range, global_pool_dims, reduce_segments};
use hologram_exec::reduce::reduce_rows;

#[test]
fn half_to_single_exact_values() {
    assert_eq!(f32::from_bits(f16_to_f32_bits(0x3c00)), 1.0);
    assert_eq!(f32::from_bits(f16_to_f32_bits(0xc000)), -2.0);
    assert_eq!(f32::from_bits(f16_to_f32_bits(0x7bff)), 65504.0);
    assert_eq!(f32::from_bits(f16_to_f32_bits(0x0001)), 2.0f32.powi(-24));
    assert_eq!(f32::from_bits(f16_to_f32_bits(0x03ff)), 1023.0 * 2.0f32.powi(-24));
    assert_eq!(f32::from_bits(f16_to_f32_bits(0x8200)), -512.0 * 2.0f32.powi(-24));
    assert_eq!(f16_to_f32_bits(0x0000), 0x0000_0000);
    assert_eq!(f16_to_f32_bits(0x8000), 0x8000_0000);
    assert_eq!(f16_to_f32_bits(0x7c00), 0x7f80_0000);
    assert_eq!(f16_to_f32_bits(0xfc00), 0xff80_0000);
    assert_eq!(f16_to_f32_bits(0x7e01), F32_QUIET_NAN);
    assert!(f32::from_bits(f16_to_f32_bits(0xfe00)).is_nan());
}

#[test]
fn half_to_single_matches_reference_on_all_finite() {
    for h in 0u16..=0xffff {
        let exp = (h >> 10) & 0x1f;
        if exp == 31 {
            continue;
        }
        let sign = if h >> 15 == 1 { -1.0f64 } else { 1.0f64 };
        let mant = (h & 0x3ff) as f64;
        let value = if exp == 0 {
            sign * mant * 2.0f64.powi(-24)
        } else {
            sign * (1024.0 + mant) * 2.0f64.powi(exp as i32 - 25)
        };
        let got = f32::from_bits(f16_to_f32_bits(h)) as f64;
        assert_eq!(got, value);
        assert_eq!(got.is_sign_negative(), h >> 15 == 1);
    }
}

#[test]
fn fold_range_left_to_right() {
    let data = [1, 2, 3, 4, 5];
    assert_eq!(fold_range(&data, 1, 4, 0, &|a: i32, v: i32| a * 10 + v), 234);
    assert_eq!(fold_range(&data, 2, 2, 7, &|a: i32, v: i32| a + v), 7);
}

#[test]
fn segment_reduction_whole_and_partial() {
    let data = [1, 2, 3, 4, 5, 6, 7];
    let whole = reduce_segments(&data, 5, 3, false, 0, |a: i32, v: i32| a + v, |a: i32| a);
    assert_eq!(whole, vec![6, 15]);
    let part = reduce_segments(&data, 5, 3, true, 0, |a: i32, v: i32| a + v, |a: i32| a);
    assert_eq!(part, vec![6, 15, 7]);
    let capped = reduce_segments(&data, 1, 3, true, 0, |a: i32, v: i32| a + v, |a: i32| a);
    assert_eq!(capped, vec![6]);
}

#[test]
fn row_reduction_checks_size() {
    let data = [1, 5, 2, 8, 3, 3];
    let maxes = reduce_rows(&data, 2, i32::MIN, |a: i32, v: i32| a.max(v), |a: i32| a).unwrap();
    assert_eq!(maxes, vec![5, 8, 3]);
    assert_eq!(
        reduce_rows(&data, 4, 0, |a: i32, v: i32| a + v, |a: i32| a),
        Err(ExecError::ShapeMismatch { expected: "multiple of 4".to_string(), actual: "6 floats".to_string() })
    );
}

#[test]
fn global_pool_needs_four_dims() {
    assert_eq!(global_pool_dims(&[vec![2, 3, 4, 5]]), Ok((6, 20)));
    assert_eq!(global_pool_dims(&[vec![3, 4]]), Err(ExecError::UnsupportedOp("GlobalAvgPool: expected 4D input shape, got Some([3, 4])".to_string())));
}
