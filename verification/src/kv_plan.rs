//! Decisions of a KV-cache layer write: whether the write happens, how many tokens it
//! carries, which storage a layer gets on its first write, and whether values are rotated
//! before quantization. Quantizing and rotating are float work done by the caller.
use vstd::prelude::*;
use crate::kv::{spec_is_boundary_layer, KvBits, KvCacheConfig};

verus! {

/// `x` is a power of two.
pub open spec fn spec_is_pow2(x: nat) -> bool
    decreases x,
{
    if x == 1 {
        true
    } else if x >= 2 && x % 2 == 0 {
        spec_is_pow2(x / 2)
    } else {
        false
    }
}

/// Whether `x` is a power of two.
pub fn is_pow2(x: u32) -> (r: bool)
    ensures
        r == spec_is_pow2(x as nat),
{
    let mut v = x;
    while v >= 2 && v % 2 == 0
        invariant
            spec_is_pow2(v as nat) == spec_is_pow2(x as nat),
        decreases v,
    {
        v = v / 2;
    }
    v == 1
}

/// Value rotation is used when the configuration asks for it and the head dimension is a
/// power of two (the Walsh-Hadamard transform needs one).
pub fn wht_enabled(config: &KvCacheConfig, head_dim: u32) -> (r: bool)
    ensures
        r == (config.wht_rotation && spec_is_pow2(head_dim as nat)),
{
    config.wht_rotation && is_pow2(head_dim)
}

/// Storage chosen for the K and V buffers of a layer on its first write.
#[derive(Debug, Clone, Copy, PartialEq, Eq, Structural)]
pub struct LayerAlloc {
    pub k_bits: KvBits,
    pub v_bits: KvBits,
}

/// What a layer write does.
#[derive(Debug, Clone, Copy, PartialEq, Eq, Structural)]
pub enum LayerWrite {
    /// Nothing is written (unknown layer, zero head stride, or the cache would overflow);
    /// the write reports 0 elements.
    Skip,
    /// `seq_len` tokens are written at the current position, `elems` elements in all;
    /// `alloc` is the storage to create first when the layer has none yet, and `rotate_v`
    /// tells whether values are rotated before they are stored.
    Write { seq_len: usize, elems: usize, alloc: Option<LayerAlloc>, rotate_v: bool },
}

/// The plan of writing `k_len` key and `v_len` value elements to layer `layer` of a cache
/// of `n_layers` layers holding `write_pos` of `max_seq` tokens. The token count comes from
/// the keys when there are any, else from the values.
pub open spec fn spec_plan_write_layer(
    config: KvCacheConfig,
    layer: u32,
    n_layers: nat,
    n_kv_heads: u32,
    head_dim: u32,
    k_len: nat,
    v_len: nat,
    write_pos: nat,
    max_seq: nat,
    allocated: bool,
    wht_on: bool,
) -> LayerWrite {
    let stride = n_kv_heads as nat * head_dim as nat;
    let n = n_layers as u32;
    if layer as nat >= n_layers || stride == 0 {
        LayerWrite::Skip
    } else {
        let data_len = if k_len != 0 { k_len } else { v_len };
        let seq_len = data_len / stride;
        if write_pos + seq_len > max_seq {
            LayerWrite::Skip
        } else {
            let boundary = spec_is_boundary_layer(config, layer, n);
            LayerWrite::Write {
                seq_len: seq_len as usize,
                elems: (seq_len * stride) as usize,
                alloc: if allocated {
                    None
                } else {
                    Some(
                        LayerAlloc {
                            k_bits: if boundary { KvBits::F32 } else { config.k_bits },
                            v_bits: if boundary { KvBits::F32 } else { config.v_bits },
                        },
                    )
                },
                rotate_v: v_len != 0 && !boundary && wht_on,
            }
        }
    }
}

/// Plan a layer write (see `spec_plan_write_layer`). `allocated` tells whether the layer
/// already has storage, `wht_on` whether the cache rotates values (`wht_enabled`).
pub fn plan_write_layer(
    config: &KvCacheConfig,
    layer: u32,
    n_layers: usize,
    n_kv_heads: u32,
    head_dim: u32,
    k_len: usize,
    v_len: usize,
    write_pos: usize,
    max_seq: usize,
    allocated: bool,
    wht_on: bool,
) -> (plan: LayerWrite)
    requires
        n_kv_heads as nat * head_dim as nat <= usize::MAX,
        write_pos <= max_seq,
    ensures
        plan == spec_plan_write_layer(
            *config,
            layer,
            n_layers as nat,
            n_kv_heads,
            head_dim,
            k_len as nat,
            v_len as nat,
            write_pos as nat,
            max_seq as nat,
            allocated,
            wht_on,
        ),
{
    let stride = (n_kv_heads as usize) * (head_dim as usize);
    if layer as usize >= n_layers || stride == 0 {
        return LayerWrite::Skip;
    }
    let data_len = if k_len != 0 { k_len } else { v_len };
    let seq_len = data_len / stride;
    if seq_len > max_seq - write_pos {
        return LayerWrite::Skip;
    }
    let n = #[verifier::truncate] (n_layers as u32);
    let boundary = config.is_boundary_layer(layer, n);
    proof {
        assert(seq_len * stride <= data_len) by (nonlinear_arith) requires seq_len == data_len / stride, stride > 0;
    }
    let alloc = if allocated {
        None
    } else {
        Some(LayerAlloc { k_bits: config.effective_k_bits(layer, n), v_bits: config.effective_v_bits(layer, n) })
    };
    LayerWrite::Write { seq_len, elems: seq_len * stride, alloc, rotate_v: v_len != 0 && !boundary && wht_on }
}

} // verus!
