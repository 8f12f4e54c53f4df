use hologram_exec::kv::{KvBits, KvCacheConfig, KvCursor, KvLayerBuffer};
use hologram_exec::kv_dispatch::{infer_kv_seq_written, plan_kv_write, Dims3, KvWriteParams, KvWritePlan};
use hologram_exec::kv_plan::{is_pow2, plan_write_layer, wht_enabled, LayerAlloc, LayerWrite};
use hologram_exec::kv_wht::{wht_sign_bits, SIGN_MINUS_BITS, SIGN_PLUS_BITS};

#[test]
fn boundary_config_edge_cases() {
    let config = KvCacheConfig { k_bits: KvBits::Q8, v_bits: KvBits::Q4, boundary_layers: 0, wht_rotation: false };
    assert!(!config.is_boundary_layer(0, 6));
    assert!(!config.is_boundary_layer(5, 6));

    let config2 = KvCacheConfig { boundary_layers: 10, ..config };
    assert!(config2.is_boundary_layer(0, 6));
    assert!(config2.is_boundary_layer(3, 6));
    assert!(config2.is_boundary_layer(5, 6));
}

#[test]
fn default_and_preset_configs() {
    let d = KvCacheConfig::default();
    assert_eq!(d.k_bits, KvBits::F32);
    assert_eq!(d.v_bits, KvBits::F32);
    assert_eq!(d.boundary_layers, 2);
    assert!(!d.wht_rotation);
    let q = KvCacheConfig::asymmetric_q4();
    assert_eq!((q.k_bits, q.v_bits, q.boundary_layers, q.wht_rotation), (KvBits::F32, KvBits::Q4, 2, true));
    let f = KvCacheConfig::asymmetric_q4_fast();
    assert_eq!((f.k_bits, f.v_bits, f.boundary_layers, f.wht_rotation), (KvBits::F32, KvBits::Q4, 2, false));
}

#[test]
fn boundary_layers_keep_full_precision() {
    let cfg = KvCacheConfig { k_bits: KvBits::Q8, v_bits: KvBits::Q4, boundary_layers: 2, wht_rotation: false };
    let kinds: Vec<KvBits> = (0..8).map(|l| cfg.effective_v_bits(l, 8)).collect();
    assert_eq!(
        kinds,
        vec![KvBits::F32, KvBits::F32, KvBits::Q4, KvBits::Q4, KvBits::Q4, KvBits::Q4, KvBits::F32, KvBits::F32]
    );
    assert_eq!(cfg.effective_k_bits(3, 8), KvBits::Q8);
    assert_eq!(cfg.effective_k_bits(7, 8), KvBits::F32);
    for l in 0..8u32 {
        assert_eq!(cfg.is_boundary_layer(l, 8), cfg.is_boundary_layer(7 - l, 8));
    }
}

#[test]
fn cursor_advances_and_clamps() {
    let mut c = KvCursor::new(8);
    assert_eq!(c.write_pos(), 0);
    assert_eq!(c.write_end(3), Some(3));
    c.advance(3);
    assert_eq!(c.write_pos(), 3);
    assert_eq!(c.write_end(6), None);
    c.advance(10);
    assert_eq!(c.write_pos(), 8);
    c.reset();
    assert_eq!(c.write_pos(), 0);
    assert_eq!(c.max_seq(), 8);
}

#[test]
fn cursor_override_applies_once() {
    let mut c = KvCursor::new(16);
    c.set_advance_override(2);
    c.advance(5);
    assert_eq!(c.write_pos(), 2);
    c.advance(5);
    assert_eq!(c.write_pos(), 7);
}

#[test]
fn cursor_window_limits_reads() {
    let mut c = KvCursor::with_window(16, 4);
    c.advance(3);
    assert_eq!(c.visible_tokens(), 3);
    assert_eq!(c.read_start(), 0);
    c.advance(3);
    assert_eq!(c.visible_tokens(), 4);
    assert_eq!(c.read_start(), 2);
    assert_eq!(c.window_size(), Some(4));
    assert_eq!(c.through_seq(1), 7);
    c.set_window(None);
    assert_eq!(c.visible_tokens(), 6);
}

#[test]
fn layer_buffer_read_after_write() {
    let mut b = KvLayerBuffer::new(4, 2, 0i32);
    b.write(1, 2, &[1, 2, 3, 4]);
    assert_eq!(b.read(1, 2), vec![1, 2, 3, 4]);
    assert_eq!(b.read(0, 1), vec![0, 0]);
    assert_eq!(b.read(3, 1), vec![0, 0]);
    b.write(2, 1, &[9, 9, 7]);
    assert_eq!(b.read(0, 4), vec![0, 0, 1, 2, 9, 9, 0, 0]);
    assert_eq!(b.read_prefix(3), vec![0, 0, 1]);
    assert_eq!(b.read_prefix(100).len(), 8);
}

#[test]
fn wht_signs_are_deterministic_unit_signs() {
    let s = wht_sign_bits(64);
    assert_eq!(s.len(), 64);
    assert!(s.iter().all(|&b| b == SIGN_PLUS_BITS || b == SIGN_MINUS_BITS));
    assert_eq!(s, wht_sign_bits(64));
    let mut state: u64 = 64u64 ^ 0x517c_c1b7_2722_0a95;
    for &bits in &s {
        state = state.wrapping_mul(6_364_136_223_846_793_005).wrapping_add(1);
        let expected = if (state >> 63) == 0 { 1.0f32 } else { -1.0f32 };
        assert_eq!(f32::from_bits(bits), expected);
    }
    assert!(wht_sign_bits(0).is_empty());
}

#[test]
fn kv_write_params_builders() {
    let p = KvWriteParams::new(3, 2, 8);
    assert_eq!(p, KvWriteParams { layer: 3, n_kv_heads: 2, head_dim: 8, is_key: false, heads_first: false });
    let k = p.with_is_key(true).with_heads_first(true);
    assert!(k.is_key && k.heads_first);
    assert_eq!(k.layer, 3);
}

#[test]
fn kv_write_plans() {
    let p = KvWriteParams::new(0, 2, 4).with_heads_first(true);
    assert_eq!(plan_kv_write(0, p, 0), KvWritePlan::PassThrough);
    assert_eq!(plan_kv_write(6, p, 0), KvWritePlan::PassThrough);
    assert_eq!(plan_kv_write(4 * 24, p, 0), KvWritePlan::Prefill { seq: 3, dims: Dims3 { d0: 2, d1: 3, d2: 4 } });
    assert_eq!(
        plan_kv_write(4 * 8, p.with_heads_first(false), 5),
        KvWritePlan::Decode { seq: 1, total_seq: 6, dims: Dims3 { d0: 6, d1: 2, d2: 4 } }
    );
    let zero = KvWriteParams::new(0, 0, 4);
    assert_eq!(plan_kv_write(16, zero, 0), KvWritePlan::Prefill { seq: 1, dims: Dims3 { d0: 1, d1: 0, d2: 4 } });
}

#[test]
fn seq_written_is_last_dim() {
    assert_eq!(infer_kv_seq_written(Some(&[1, 7])), 7);
    assert_eq!(infer_kv_seq_written(Some(&[])), 0);
    assert_eq!(infer_kv_seq_written(None), 0);
}

#[test]
fn power_of_two_and_rotation() {
    assert!(is_pow2(1) && is_pow2(64) && is_pow2(1 << 31));
    assert!(!is_pow2(0) && !is_pow2(12) && !is_pow2(u32::MAX));
    let cfg = KvCacheConfig::asymmetric_q4();
    assert!(wht_enabled(&cfg, 128));
    assert!(!wht_enabled(&cfg, 96));
    assert!(!wht_enabled(&KvCacheConfig::asymmetric_q4_fast(), 128));
}

#[test]
fn write_layer_plans() {
    let cfg = KvCacheConfig::asymmetric_q4();
    assert_eq!(plan_write_layer(&cfg, 6, 6, 2, 4, 8, 8, 0, 16, false, true), LayerWrite::Skip);
    assert_eq!(plan_write_layer(&cfg, 0, 6, 0, 4, 8, 8, 0, 16, false, true), LayerWrite::Skip);
    assert_eq!(plan_write_layer(&cfg, 3, 6, 2, 4, 8 * 20, 0, 0, 16, false, true), LayerWrite::Skip);
    assert_eq!(
        plan_write_layer(&cfg, 3, 6, 2, 4, 0, 8 * 3, 2, 16, false, true),
        LayerWrite::Write {
            seq_len: 3,
            elems: 24,
            alloc: Some(LayerAlloc { k_bits: KvBits::F32, v_bits: KvBits::Q4 }),
            rotate_v: true
        }
    );
    assert_eq!(
        plan_write_layer(&cfg, 0, 6, 2, 4, 8, 8, 2, 16, true, true),
        LayerWrite::Write { seq_len: 1, elems: 8, alloc: None, rotate_v: false }
    );
}
