use hologram_exec::shape::{
    broadcast_flat_index, broadcast_operand_indices, broadcast_shapes, compute_broadcast_strides,
    compute_strides, cycle_indices, f32_sqrt_trunc, floor_sqrt, gcd, infer_nchw, infer_slice_axis_size, resolve_size,
    shape_product, shapes_equal,
};

#[test]
fn test_broadcast_shapes_compatible() {
    assert_eq!(broadcast_shapes(&[2, 1], &[2, 3]), Some(vec![2, 3]));
    assert_eq!(broadcast_shapes(&[1, 3], &[2, 1]), Some(vec![2, 3]));
    assert_eq!(broadcast_shapes(&[3], &[2, 3]), Some(vec![2, 3]));
    assert_eq!(broadcast_shapes(&[1], &[5]), Some(vec![5]));
    assert_eq!(broadcast_shapes(&[4, 1, 3], &[1, 5, 1]), Some(vec![4, 5, 3]));
}

#[test]
fn test_broadcast_shapes_incompatible() {
    assert_eq!(broadcast_shapes(&[2, 32], &[1, 64]), None);
    assert_eq!(broadcast_shapes(&[3], &[4]), None);
    assert_eq!(broadcast_shapes(&[2, 3], &[2, 4]), None);
}

#[test]
fn test_infer_slice_axis_size_fast_path() {
    assert_eq!(infer_slice_axis_size(18, 6), 6);
    assert_eq!(infer_slice_axis_size(100, 10), 10);
    assert_eq!(infer_slice_axis_size(2048, 2048), 2048);
}

#[test]
fn test_infer_slice_axis_size_search() {
    assert_eq!(infer_slice_axis_size(18, 4), 6);
    assert_eq!(infer_slice_axis_size(60, 7), 10);
}

#[test]
fn test_infer_slice_axis_size_non_divisible() {
    assert_eq!(infer_slice_axis_size(11 * 2560, 2048), 2560);
    assert_eq!(infer_slice_axis_size(3 * 2560, 2048), 2560);
}

#[test]
fn test_infer_slice_axis_size_heuristic_limitation() {
    assert_eq!(infer_slice_axis_size(8 * 2560, 2048), 2048);
    assert_eq!(infer_slice_axis_size(7 * 2560, 2048), 2240);
}

#[test]
fn test_infer_slice_axis_size_edge_cases() {
    assert_eq!(infer_slice_axis_size(0, 4), 0);
    assert_eq!(infer_slice_axis_size(10, 0), 10);
    assert_eq!(infer_slice_axis_size(17, 4), 17);
}

#[test]
fn broadcast_shapes_is_symmetric_on_examples() {
    let pairs: Vec<(Vec<usize>, Vec<usize>)> = vec![
        (vec![2, 1], vec![2, 3]),
        (vec![4, 1, 3], vec![5, 1]),
        (vec![3], vec![4]),
        (vec![], vec![7, 2]),
    ];
    for (a, b) in pairs {
        assert_eq!(broadcast_shapes(&a, &b), broadcast_shapes(&b, &a));
    }
}

#[test]
fn compute_strides_row_major() {
    assert_eq!(compute_strides(&[2, 3, 4]), vec![12, 4, 1]);
    assert_eq!(compute_strides(&[5]), vec![1]);
    assert_eq!(compute_strides(&[]), Vec::<usize>::new());
    assert_eq!(compute_strides(&[3, 0, 2]), vec![0, 2, 1]);
}

#[test]
fn broadcast_strides_zero_on_size_one_axes() {
    assert_eq!(compute_broadcast_strides(&[1, 3], &[2, 3]), vec![0, 1]);
    assert_eq!(compute_broadcast_strides(&[2, 1], &[2, 3]), vec![1, 0]);
    assert_eq!(compute_broadcast_strides(&[3], &[4, 2, 3]), vec![0, 0, 1]);
}

#[test]
fn broadcast_flat_index_maps_into_source() {
    let out_shape = [2usize, 3];
    let out_strides = compute_strides(&out_shape);
    let row = compute_broadcast_strides(&[1, 3], &out_shape);
    let col = compute_broadcast_strides(&[2, 1], &out_shape);
    let rows: Vec<usize> = (0..6).map(|i| broadcast_flat_index(i, &out_shape, &out_strides, &row)).collect();
    let cols: Vec<usize> = (0..6).map(|i| broadcast_flat_index(i, &out_shape, &out_strides, &col)).collect();
    assert_eq!(rows, vec![0, 1, 2, 0, 1, 2]);
    assert_eq!(cols, vec![0, 0, 0, 1, 1, 1]);
}

#[test]
fn shape_product_checks_overflow() {
    assert_eq!(shape_product(&[2, 3, 4]), Some(24));
    assert_eq!(shape_product(&[]), Some(1));
    assert_eq!(shape_product(&[usize::MAX, 2]), None);
    assert_eq!(shape_product(&[usize::MAX, 0]), Some(0));
}

#[test]
fn shapes_equal_compares_elementwise() {
    assert!(shapes_equal(&[2, 3], &[2, 3]));
    assert!(!shapes_equal(&[2, 3], &[3, 2]));
    assert!(!shapes_equal(&[2, 3], &[2, 3, 1]));
}

#[test]
fn cycle_indices_wrap_around() {
    let (a, b) = cycle_indices(2, 3, 6);
    assert_eq!(a, vec![0, 1, 0, 1, 0, 1]);
    assert_eq!(b, vec![0, 1, 2, 0, 1, 2]);
}

#[test]
fn operand_indices_broadcast_row() {
    let (a, b) = broadcast_operand_indices(6, 3, &[2, 3], &[1, 3], false);
    assert_eq!(a, vec![0, 1, 2, 3, 4, 5]);
    assert_eq!(b, vec![0, 1, 2, 0, 1, 2]);
}

#[test]
fn operand_indices_broadcast_column() {
    let (a, b) = broadcast_operand_indices(6, 2, &[2, 3], &[2, 1], false);
    assert_eq!(a, vec![0, 1, 2, 3, 4, 5]);
    assert_eq!(b, vec![0, 0, 0, 1, 1, 1]);
}

#[test]
fn operand_indices_cycle_when_incompatible() {
    let (a, b) = broadcast_operand_indices(4, 2, &[2, 32], &[1, 64], false);
    assert_eq!(a, vec![0, 1, 2, 3]);
    assert_eq!(b, vec![0, 1, 0, 1]);
}

#[test]
fn operand_indices_cycle_when_shape_disagrees_with_data() {
    let (a, b) = broadcast_operand_indices(4, 4, &[2, 3], &[1, 3], false);
    assert_eq!(a, vec![0, 1, 2, 3]);
    assert_eq!(b, vec![0, 1, 2, 3]);
}

#[test]
fn gcd_examples() {
    assert_eq!(gcd(12, 18), 6);
    assert_eq!(gcd(7, 0), 7);
    assert_eq!(gcd(0, 9), 9);
    assert_eq!(gcd(17, 5), 1);
}

#[test]
fn floor_sqrt_examples() {
    assert_eq!(floor_sqrt(0), 0);
    assert_eq!(floor_sqrt(15), 3);
    assert_eq!(floor_sqrt(16), 4);
    assert_eq!(floor_sqrt(usize::MAX), 4294967295);
}

#[test]
fn infer_nchw_prefers_three_channels() {
    assert_eq!(infer_nchw(3 * 8 * 8, 1), (3, 8, 8));
    assert_eq!(infer_nchw(2 * 3 * 4 * 4, 2), (3, 4, 4));
    assert_eq!(infer_nchw(49, 1), (1, 7, 7));
    assert_eq!(infer_nchw(64 * 2 * 2, 1), (1, 16, 16));
    assert_eq!(infer_nchw(7, 0), (1, 1, 7));
}

#[test]
fn resolve_size_keeps_divisor_or_falls_back() {
    let data = vec![0u8; 4 * 12];
    assert_eq!(resolve_size(4, &[&data]), 4);
    assert_eq!(resolve_size(5, &[&data]), 12);
    assert_eq!(resolve_size(0, &[&data]), 12);
    assert_eq!(resolve_size(3, &[]), 0);
}

fn sqrt_through_f32(x: usize) -> u128 {
    (x as f32).sqrt() as usize as u128
}

#[test]
fn f32_sqrt_trunc_matches_single_precision() {
    for x in 0..100_000usize {
        assert_eq!(f32_sqrt_trunc(x), sqrt_through_f32(x), "x = {x}");
    }
    // Around powers of two and perfect squares, where rounding matters most.
    for k in 20..64u32 {
        let p = 1u64 << k;
        for d in 0..64u64 {
            for x in [p.wrapping_sub(d), p.wrapping_add(d)] {
                let x = x as usize;
                assert_eq!(f32_sqrt_trunc(x), sqrt_through_f32(x), "x = {x}");
            }
        }
    }
    for r in [4097u64, 4098, 65535, 65536, 16777215, 16777216, 16777217, 4294967295] {
        for d in 0..8u64 {
            for x in [(r * r).wrapping_sub(d), (r * r).wrapping_add(d)] {
                let x = x as usize;
                assert_eq!(f32_sqrt_trunc(x), sqrt_through_f32(x), "x = {x}");
            }
        }
    }
    let mut s: u64 = 0x9e37_79b9_7f4a_7c15;
    for _ in 0..50_000 {
        s = s.wrapping_mul(6364136223846793005).wrapping_add(1442695040888963407);
        for x in [s, s >> 16, s >> 32, s >> 40] {
            let x = x as usize;
            assert_eq!(f32_sqrt_trunc(x), sqrt_through_f32(x), "x = {x}");
        }
    }
    assert_eq!(f32_sqrt_trunc(usize::MAX), sqrt_through_f32(usize::MAX));
}

#[test]
fn infer_nchw_rounds_through_single_precision() {
    // 16793603 = 4097 * 4099 rounds to 16793604 = 4098^2 as an f32, whose root 4098
    // does not divide it: no square split, a single row.
    assert_eq!(infer_nchw(16793603, 1), (1, 1, 16793603));
}
