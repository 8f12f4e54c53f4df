use hologram_exec::layout::{
    broadcast_to, dispatch_reshape_with_shape, dispatch_transpose, parse_shape_values, transpose_elements,
    transpose_heads, transpose_heads_to_seq_first, transpose_seq_first_to_heads,
};
use hologram_exec::matmul::transpose_2d;
use hologram_exec::patch_prune::{extract_patches, pad_kept, prune_reference, MASK_KEEP_BITS};

fn f32_bytes(v: &[f32]) -> Vec<u8> {
    v.iter().flat_map(|x| x.to_le_bytes()).collect()
}

fn to_f32s(b: &[u8]) -> Vec<f32> {
    b.chunks_exact(4).map(|c| f32::from_le_bytes([c[0], c[1], c[2], c[3]])).collect()
}

fn i64_bytes(v: &[i64]) -> Vec<u8> {
    v.iter().flat_map(|x| x.to_le_bytes()).collect()
}

#[test]
fn transpose_2x3() {
    let (out, shape) = transpose_elements(&[1, 2, 3, 4, 5, 6], &[1, 0], &[2, 3], 0);
    assert_eq!(out, vec![1, 4, 2, 5, 3, 6]);
    assert_eq!(shape, vec![3, 2]);
    assert_eq!(transpose_2d(&[1, 2, 3, 4, 5, 6], 2, 3), vec![1, 4, 2, 5, 3, 6]);
}

#[test]
fn transpose_inverse_permutation_restores() {
    let data: Vec<u32> = (0..24).collect();
    let (t, shape) = transpose_elements(&data, &[2, 0, 1], &[2, 3, 4], 0);
    assert_eq!(shape, vec![4, 2, 3]);
    let (back, shape2) = transpose_elements(&t, &[1, 2, 0], &shape, 0);
    assert_eq!(shape2, vec![2, 3, 4]);
    assert_eq!(back, data);
}

#[test]
fn dispatch_transpose_bytes_and_passthrough() {
    let input = f32_bytes(&[1.0, 2.0, 3.0, 4.0, 5.0, 6.0]);
    let (bytes, shape) = dispatch_transpose(&input, &[1, 0], &[2, 3]).unwrap();
    assert_eq!(to_f32s(&bytes), vec![1.0, 4.0, 2.0, 5.0, 3.0, 6.0]);
    assert_eq!(shape, vec![3, 2]);
    let (same, s2) = dispatch_transpose(&input, &[1, 0], &[4, 3]).unwrap();
    assert_eq!(same, input);
    assert_eq!(s2, vec![4, 3]);
    let (same2, _) = dispatch_transpose(&input, &[5, 0], &[2, 3]).unwrap();
    assert_eq!(same2, input);
}

#[test]
fn broadcast_to_row_and_column() {
    assert_eq!(broadcast_to(&[1, 2, 3], 3, &[2, 3], 0), vec![1, 2, 3, 1, 2, 3]);
    assert_eq!(broadcast_to(&[7], 1, &[2, 2], 0), vec![7, 7, 7, 7]);
    assert_eq!(broadcast_to(&[1, 2], 2, &[2, 3], 0), vec![1, 1, 1, 2, 2, 2]);
    assert_eq!(broadcast_to(&[], 0, &[2], 9), vec![9, 9]);
}

#[test]
fn parse_shape_infers_minus_one() {
    assert_eq!(parse_shape_values(&i64_bytes(&[2, -1]), 6), Some(vec![2, 3]));
    assert_eq!(parse_shape_values(&i64_bytes(&[4, 5]), 6), Some(vec![4, 5]));
    assert_eq!(parse_shape_values(&i64_bytes(&[-1, -1]), 6), None);
    assert_eq!(parse_shape_values(&i64_bytes(&[4, -1]), 6), None);
    assert_eq!(parse_shape_values(&i64_bytes(&[-2]), 6), None);
    assert_eq!(parse_shape_values(&[], 6), None);
}

#[test]
fn reshape_with_shape_tensor() {
    let data = f32_bytes(&[1.0, 2.0, 3.0, 4.0, 5.0, 6.0]);
    let (bytes, shape) = dispatch_reshape_with_shape(&[&data, &i64_bytes(&[3, -1])]).unwrap();
    assert_eq!(bytes, data);
    assert_eq!(shape, vec![3, 2]);
    let (b2, s2) = dispatch_reshape_with_shape(&[&data]).unwrap();
    assert_eq!(b2, data);
    assert_eq!(s2, vec![6]);
    let row = f32_bytes(&[1.0, 2.0, 3.0]);
    // A shape with more elements than the data: the data passes through, shape 1-D.
    let (b3, s3) = dispatch_reshape_with_shape(&[&row, &i64_bytes(&[2, 3])]).unwrap();
    assert_eq!(b3, row);
    assert_eq!(s3, vec![3]);
    let one = f32_bytes(&[7.0]);
    let (b4, s4) = dispatch_reshape_with_shape(&[&one, &i64_bytes(&[2])]).unwrap();
    assert_eq!(b4, one);
    assert_eq!(s4, vec![1]);
    // An unreadable shape tensor also falls back to 1-D.
    let (b6, s6) = dispatch_reshape_with_shape(&[&row, &i64_bytes(&[-1, -1])]).unwrap();
    assert_eq!(b6, row);
    assert_eq!(s6, vec![3]);
    let (b5, s5) = dispatch_reshape_with_shape(&[&row, &i64_bytes(&[2])]).unwrap();
    assert_eq!(b5, row);
    assert_eq!(s5, vec![3]);
}

#[test]
fn kv_head_layouts_roundtrip() {
    let data: Vec<u16> = (0..24).collect();
    let hf = transpose_seq_first_to_heads(&data, 2, 3, 4);
    assert_eq!(&hf[0..8], &[0, 1, 2, 3, 8, 9, 10, 11]);
    assert_eq!(transpose_heads_to_seq_first(&hf, 2, 3, 4), data);
    assert_eq!(transpose_heads(&data, 3, 2, 4), hf);
    let short = vec![1u16, 2, 3];
    assert_eq!(transpose_heads_to_seq_first(&short, 2, 3, 4), short);
}

#[test]
fn patches_follow_grid_then_channel() {
    let pixels: Vec<u32> = (0..2 * 4 * 4).collect();
    let patches = extract_patches(&pixels, 2, 4, 4, 2, 2);
    assert_eq!(patches.len(), 32);
    assert_eq!(&patches[0..8], &[0, 1, 4, 5, 16, 17, 20, 21]);
    assert_eq!(&patches[8..16], &[2, 3, 6, 7, 18, 19, 22, 23]);
    assert_eq!(&patches[24..32], &[10, 11, 14, 15, 26, 27, 30, 31]);
}

#[test]
fn prune_reference_neighbours() {
    assert_eq!(prune_reference(0, 3, true), (0, 2));
    assert_eq!(prune_reference(2, 0, false), (1, 0));
    assert_eq!(prune_reference(2, 3, true), (2, 2));
    assert_eq!(prune_reference(2, 3, false), (1, 3));
}

#[test]
fn kept_indices_padded_to_budget() {
    let (idx, mask) = pad_kept(&[0, 3, 5], 5);
    assert_eq!(idx, vec![0, 3, 5, 0, 0]);
    assert_eq!(mask, vec![MASK_KEEP_BITS, MASK_KEEP_BITS, MASK_KEEP_BITS, 0, 0]);
    assert_eq!(f32::from_bits(mask[0]), 1.0);
    let (idx2, mask2) = pad_kept(&[], 2);
    assert_eq!(idx2, vec![0, 0]);
    assert_eq!(mask2, vec![0, 0]);
}

#[test]
fn transpose_then_inverse_restores_input() {
    let values: Vec<f32> = (0..24).map(|v| v as f32).collect();
    let input = f32_bytes(&values);
    let perm = [2u8, 0, 1];
    let inv = [1u8, 2, 0];
    let (y, s) = dispatch_transpose(&input, &perm, &[2, 3, 4]).unwrap();
    assert_eq!(s, vec![4, 2, 3]);
    assert_ne!(y, input);
    let (back, s2) = dispatch_transpose(&y, &inv, &s).unwrap();
    assert_eq!(s2, vec![2, 3, 4]);
    assert_eq!(back, input);
}

#[test]
fn transpose_passes_through_before_strides() {
    let input = f32_bytes(&[1.0, 2.0]);
    let huge = [usize::MAX, usize::MAX];
    let (same, s) = dispatch_transpose(&input, &[], &huge).unwrap();
    assert_eq!(same, input);
    assert_eq!(s, huge.to_vec());
    let (same2, _) = dispatch_transpose(&input, &[0, 7], &huge).unwrap();
    assert_eq!(same2, input);
}
