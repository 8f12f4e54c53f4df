use hologram_exec::attention::{attention_key_limit, attention_kv_head, attention_seq_lens};
use hologram_exec::constants::{resolve_constant_bytes, ConstantData};
use hologram_exec::conv::{
    choose_conv_path, conv2d_geometry, conv2d_input_hw, im2col, plan_conv_group, Conv2dAttrs, Conv2dGeometry, Conv2dInputShape,
    ConvGroupPlan, ConvPath,
};
use hologram_exec::error::ExecError;
use hologram_exec::matmul::{
    decoded_weight_count, infer_matmul_dims, infer_matmul_k, plan_batched_matmul, plan_gemm, plan_matmul, try_k,
    BatchedMatmulPlan, GemmPlan, MatmulPlan, F32_ONE,
};
use hologram_exec::pool::{pool2d_geometry, pool_2d, Pool2dGeometry};

#[test]
fn conv_attrs_builders() {
    let a = Conv2dAttrs::new(3, 3).with_stride(2, 2).with_padding(1, 1).with_dilation(1, 2).with_group(4);
    assert_eq!(a, Conv2dAttrs { kh: 3, kw: 3, sh: 2, sw: 2, ph: 1, pw: 1, dh: 1, dw: 2, group: 4 });
    let s = Conv2dInputShape::new(1, 3, 8, 8);
    assert_eq!((s.n, s.channels, s.h_in, s.w_in), (1, 3, 8, 8));
}

#[test]
fn conv_geometry_examples() {
    let attrs = Conv2dAttrs::new(3, 3).with_padding(1, 1);
    let g = conv2d_geometry(2 * 3 * 8 * 8, 16 * 3 * 9, attrs, 8, 8).unwrap();
    assert_eq!(g, Conv2dGeometry { n: 1, ic: 6, ic_per_group: 6, oc: 8, h_out: 8, w_out: 8 });
    let strided = Conv2dAttrs::new(3, 3).with_stride(2, 2);
    let g2 = conv2d_geometry(3 * 9 * 9, 4 * 3 * 9, strided, 9, 9).unwrap();
    assert_eq!((g2.n, g2.ic, g2.oc, g2.h_out, g2.w_out), (1, 3, 4, 4, 4));
    assert_eq!(conv2d_geometry(0, 27, attrs, 8, 8), None);
}

#[test]
fn conv_input_hw_needs_rank_four() {
    assert_eq!(conv2d_input_hw(&[vec![1, 3, 5, 7]]), Ok((5, 7)));
    assert_eq!(conv2d_input_hw(&[vec![3, 5, 7]]), Err(ExecError::UnsupportedOp("Conv2d: expected 4D input shape, got [3, 5, 7]".to_string())));
    assert_eq!(conv2d_input_hw(&[]), Err(ExecError::UnsupportedOp("Conv2d: expected 4D input shape, got []".to_string())));
}

#[test]
fn pool_geometry_and_windows() {
    let g = pool2d_geometry(16, 2, 2, 2, 2, 0, 0);
    assert_eq!(
        g,
        Pool2dGeometry { n: 1, channels: 1, h_in: 4, w_in: 4, h_out: 2, w_out: 2, kh: 2, kw: 2, sh: 2, sw: 2, ph: 0, pw: 0 }
    );
    assert!(g.fits());
    let data: Vec<i32> = (0..16).collect();
    let maxes = pool_2d(&data, &g, i32::MIN, |a: i32, v: i32| if v > a { v } else { a }, |a: i32| a);
    assert_eq!(maxes, vec![5, 7, 13, 15]);
    let sums = pool_2d(&data, &g, 0i32, |a: i32, v: i32| a + v, |a: i32| a);
    assert_eq!(sums, vec![10, 18, 42, 50]);
}

#[test]
fn pool_padding_skips_outside_taps() {
    let g = Pool2dGeometry { n: 1, channels: 1, h_in: 2, w_in: 2, h_out: 2, w_out: 2, kh: 2, kw: 2, sh: 1, sw: 1, ph: 1, pw: 1 };
    let data = vec![1i64, 2, 3, 4];
    let counts = pool_2d(&data, &g, 0i64, |a: i64, _v: i64| a + 1, |a: i64| a);
    assert_eq!(counts, vec![1, 2, 2, 4]);
    let lasts = pool_2d(&data, &g, -1i64, |_a: i64, v: i64| v, |a: i64| a);
    assert_eq!(lasts, vec![1, 2, 3, 4]);
    let big = Pool2dGeometry { n: usize::MAX, channels: 2, ..g };
    assert!(!big.fits());
}

#[test]
fn attention_shape_checks() {
    assert_eq!(attention_seq_lens(2 * 4 * 3, 1 * 4 * 5, 1 * 4 * 5, 4, 2, 1), Ok((3, 5)));
    assert_eq!(attention_seq_lens(8, 8, 8, 0, 2, 1), Err(ExecError::ShapeMismatch { expected: "non-zero head config (q_heads=2, kv_heads=1, head_dim=0)".to_string(), actual: "zero stride".to_string() }));
    assert_eq!(attention_seq_lens(9, 8, 8, 4, 2, 1), Err(ExecError::ShapeMismatch { expected: "Q length divisible by num_q_heads*head_dim=8".to_string(), actual: "Q has 9 f32 elements".to_string() }));
    assert_eq!(attention_seq_lens(8, 6, 6, 4, 2, 1), Err(ExecError::ShapeMismatch { expected: "K length divisible by num_kv_heads*head_dim=4".to_string(), actual: "K has 6 f32 elements".to_string() }));
    assert_eq!(attention_seq_lens(8, 8, 4, 4, 2, 1), Err(ExecError::ShapeMismatch { expected: "V length == K length (8) [Q=8, K=8, V=4 f32; q_heads=2, kv_heads=1, head_dim=4]".to_string(), actual: "V has 4 f32 elements".to_string() }));
    assert_eq!(attention_seq_lens(0, 8, 8, 4, 2, 1), Err(ExecError::ShapeMismatch { expected: "non-zero sequence lengths".to_string(), actual: "seq_q=0, seq_k=2 (Q=0, K=8 f32 elems)".to_string() }));
}

#[test]
fn attention_head_groups_and_causal_limits() {
    let kv: Vec<usize> = (0..8).map(|q| attention_kv_head(q, 8, 2)).collect();
    assert_eq!(kv, vec![0, 0, 0, 0, 1, 1, 1, 1]);
    assert_eq!(attention_kv_head(3, 4, 0), 0);
    let limits: Vec<usize> = (0..3).map(|i| attention_key_limit(i, 3, 5, true, false)).collect();
    assert_eq!(limits, vec![3, 4, 5]);
    assert_eq!(attention_key_limit(0, 3, 5, true, true), 5);
    assert_eq!(attention_key_limit(0, 3, 5, false, false), 5);
}

#[test]
fn matmul_inner_dim_inference() {
    assert_eq!(try_k(4, 8, 12), Some(4));
    assert_eq!(try_k(0, 8, 12), None);
    assert_eq!(try_k(3, 8, 12), None);
    assert_eq!(infer_matmul_k(4, 2, 3, 8, 12), Ok(4));
    assert_eq!(infer_matmul_k(5, 2, 3, 8, 12), Ok(4));
    assert_eq!(infer_matmul_k(7, 1, 1, 7, 5), Ok(1));
    assert_eq!(infer_matmul_k(7, 2, 3, 32769, 16384), Err(ExecError::ShapeMismatch { expected: "matmul k dividing both inputs (compiled k=7, m=2, n=3)".to_string(), actual: "a=32769, b=16384".to_string() }));
    assert_eq!(infer_matmul_dims(2, 4, 3, 8, 12), (2, 4, 3));
}

#[test]
fn matmul_plans() {
    let flat = plan_matmul(2, 4, 3, 8, 12).unwrap();
    assert_eq!(flat, MatmulPlan { batch: 1, m: 2, k: 4, n: 3, a_stride: 8, b_stride: 12, out_len: 6 });
    let batched = plan_matmul(2, 4, 3, 24, 12).unwrap();
    assert_eq!(batched, MatmulPlan { batch: 3, m: 2, k: 4, n: 3, a_stride: 8, b_stride: 0, out_len: 18 });
    let per_batch = plan_matmul(2, 4, 3, 24, 36).unwrap();
    assert_eq!(per_batch, MatmulPlan { batch: 3, m: 2, k: 4, n: 3, a_stride: 8, b_stride: 12, out_len: 18 });
}

#[test]
fn gemm_plans() {
    assert_eq!(decoded_weight_count(36, 1), 64);
    assert_eq!(decoded_weight_count(420, 3), 512);
    assert_eq!(decoded_weight_count(10, 0), 2);
    assert_eq!(plan_gemm(2 * 2, 36, 2, false, false, F32_ONE, 0, 1), GemmPlan::FusedQ4 { m: 2, k: 2, n: 32 });
    assert_eq!(
        plan_gemm(2 * 2, 36, 2, false, false, F32_ONE, 0x8000_0000, 1),
        GemmPlan::FusedQ4 { m: 2, k: 2, n: 32 }
    );
    assert_eq!(
        plan_gemm(6, 24, 3, true, false, F32_ONE, 0x3f80_0000, 0),
        GemmPlan::General { m: 2, k: 3, n: 2, copy_bias: true }
    );
    assert_eq!(plan_gemm(6, 24, 0, false, false, F32_ONE, 0, 0), GemmPlan::General { m: 0, k: 0, n: 0, copy_bias: false });
}

#[test]
fn batched_matmul_plans() {
    let p = plan_batched_matmul(2 * 3 * 4, 4 * 5, &[2, 3, 4], &[4, 5]).unwrap();
    assert_eq!(p, BatchedMatmulPlan { batch: 2, m: 3, k: 4, n: 5, a_stride: 12, b_stride: 20, c_stride: 15, b_batch_count: 1 });
    let q = plan_batched_matmul(24, 40, &[2, 3, 4], &[2, 4, 5]).unwrap();
    assert_eq!(q.b_batch_count, 2);
    assert_eq!(
        plan_batched_matmul(20, 20, &[2, 3, 4], &[4, 5]),
        Err(ExecError::ShapeMismatch { expected: "batched matmul: batch=2 A=[3,4] B=[4,5]".to_string(), actual: "a_len=20, b_len=20".to_string() })
    );
    assert_eq!(
        plan_batched_matmul(24, 10, &[2, 3, 4], &[4, 5]),
        Err(ExecError::ShapeMismatch { expected: "batched matmul: batch=2 A=[3,4] B=[4,5]".to_string(), actual: "a_len=24, b_len=10".to_string() })
    );
}

#[test]
fn constant_resolution() {
    let weights = vec![1u8, 2, 3, 4, 5];
    let inline = ConstantData::Bytes(vec![9, 8]);
    assert_eq!(resolve_constant_bytes(1, Some(&inline), &weights), Ok(&[9u8, 8][..]));
    let deferred = ConstantData::Deferred { byte_size: 2, source_id: 3 };
    assert_eq!(resolve_constant_bytes(2, Some(&deferred), &weights), Ok(&[4u8, 5][..]));
    let past = ConstantData::Deferred { byte_size: 3, source_id: 3 };
    assert_eq!(resolve_constant_bytes(3, Some(&past), &weights), Err(ExecError::ConstantNotFound(3)));
    assert_eq!(resolve_constant_bytes(4, None, &weights), Err(ExecError::ConstantNotFound(4)));
}

#[test]
fn im2col_reads_each_tap() {
    let data: Vec<u32> = (1..=9).collect();
    let a = Conv2dAttrs::new(2, 2);
    let g = conv2d_geometry(9, 4, a, 3, 3).unwrap();
    assert_eq!((g.h_out, g.w_out, g.ic_per_group), (2, 2, 1));
    let col = im2col(&data, &g, &a, 3, 3, 0, 0, 0u32);
    assert_eq!(col, vec![1, 2, 4, 5, 2, 3, 5, 6, 4, 5, 7, 8, 5, 6, 8, 9]);
}

#[test]
fn im2col_pads_with_zero() {
    let data: Vec<u32> = (1..=4).collect();
    let a = Conv2dAttrs::new(3, 3).with_padding(1, 1);
    let g = conv2d_geometry(4, 9, a, 2, 2).unwrap();
    assert_eq!((g.h_out, g.w_out), (2, 2));
    let col = im2col(&data, &g, &a, 2, 2, 0, 0, 0u32);
    assert_eq!(col.len(), 9 * 4);
    // Centre tap reads the input itself; the top-left tap reads only the last position.
    assert_eq!(&col[16..20], &[1, 2, 3, 4]);
    assert_eq!(&col[0..4], &[0, 0, 0, 1]);
}

#[test]
fn im2col_second_group_and_batch() {
    // Two batches of two channels of 2x2 maps; each group holds one channel.
    let data: Vec<u32> = (0..16).collect();
    let a = Conv2dAttrs::new(1, 1).with_group(2);
    let g = Conv2dGeometry { n: 2, ic: 2, ic_per_group: 1, oc: 2, h_out: 2, w_out: 2 };
    assert_eq!(im2col(&data, &g, &a, 2, 2, 1, 1, 0u32), vec![12, 13, 14, 15]);
    assert_eq!(im2col(&data, &g, &a, 2, 2, 0, 1, 0u32), vec![4, 5, 6, 7]);
}

#[test]
fn conv_group_plan_offsets() {
    // 4 input and 6 output channels in 2 groups, 3x3 kernel over 5x5 maps.
    let a = Conv2dAttrs::new(3, 3).with_group(2);
    let g = conv2d_geometry(4 * 25, 6 * 2 * 9, a, 5, 5).unwrap();
    assert_eq!((g.n, g.ic, g.ic_per_group, g.oc, g.h_out, g.w_out), (1, 4, 2, 6, 3, 3));
    let p = plan_conv_group(&g, &a, 6 * 2 * 9, 0, 1);
    assert_eq!(
        p,
        ConvGroupPlan { oc_per_group: 3, kernel_size: 18, spatial: 9, w_start: 54, w_end: 108, o_base: 27, use_lut: false }
    );
    let first = plan_conv_group(&g, &a, 6 * 2 * 9, 0, 0);
    assert_eq!((first.w_start, first.w_end, first.o_base), (0, 54, 0));
    // Weights shorter than the group's rows are cut at their end.
    let short = plan_conv_group(&g, &a, 60, 0, 1);
    assert_eq!((short.w_start, short.w_end, short.o_base), (54, 60, 27));
    // The second batch starts after all output channels of the first.
    let two = Conv2dGeometry { n: 2, ..g };
    assert_eq!(plan_conv_group(&two, &a, 6 * 2 * 9, 1, 1).o_base, 81);
}

#[test]
fn conv_group_plan_chooses_lut_for_wide_single_group() {
    let a = Conv2dAttrs::new(3, 3);
    let g = conv2d_geometry(2 * 16, 64 * 2 * 9, a, 4, 4).unwrap();
    assert_eq!((g.ic_per_group, g.oc), (2, 64));
    let p = plan_conv_group(&g, &a, 64 * 2 * 9, 0, 0);
    assert!(p.use_lut);
    assert_eq!((p.kernel_size, p.spatial, p.w_end), (18, 4, 64 * 18));
    let narrow = conv2d_geometry(16, 63 * 9, a, 4, 4).unwrap();
    assert!(!plan_conv_group(&narrow, &a, 63 * 9, 0, 0).use_lut);
}

#[test]
fn conv_path_choice() {
    let g = |ic_per_group: usize, oc: usize| Conv2dGeometry { n: 1, ic: ic_per_group, ic_per_group, oc, h_out: 4, w_out: 4 };
    let k3 = Conv2dAttrs::new(3, 3).with_padding(1, 1);
    assert_eq!(choose_conv_path(&g(1, 1), &k3, false), ConvPath::Depthwise);
    assert_eq!(choose_conv_path(&g(1, 1), &k3, true), ConvPath::General);
    assert_eq!(choose_conv_path(&g(16, 8), &k3, false), ConvPath::Winograd);
    assert_eq!(choose_conv_path(&g(15, 8), &k3, false), ConvPath::General);
    assert_eq!(choose_conv_path(&g(16, 8), &k3.with_stride(2, 2), false), ConvPath::General);
    assert_eq!(choose_conv_path(&g(4, 8), &Conv2dAttrs::new(1, 1), false), ConvPath::Pointwise);
    assert_eq!(choose_conv_path(&g(4, 8), &Conv2dAttrs::new(1, 1).with_padding(1, 0), false), ConvPath::General);
    // Grouped: 4 groups of one input and one output channel each.
    let dw = Conv2dGeometry { n: 1, ic: 4, ic_per_group: 1, oc: 4, h_out: 4, w_out: 4 };
    assert_eq!(choose_conv_path(&dw, &k3.with_group(4), false), ConvPath::Depthwise);
}
