//! Decisions of the KV-cache graph ops: the parameters of a cache write, how many tokens a
//! write carries, whether the op passes its input through, and the shape of what it
//! hands on to attention.
use vstd::prelude::*;

verus! {

/// The KV slot written by a cache-write op: layer, head shape, whether it holds keys or
/// values, and whether the tensor comes in heads-first layout.
#[derive(Debug, Clone, Copy, PartialEq, Eq, Structural)]
pub struct KvWriteParams {
    pub layer: u32,
    pub n_kv_heads: u32,
    pub head_dim: u32,
    pub is_key: bool,
    pub heads_first: bool,
}

impl KvWriteParams {
    /// A value write in sequence-first layout.
    pub fn new(layer: u32, n_kv_heads: u32, head_dim: u32) -> (p: Self)
        ensures
            p == (KvWriteParams { layer, n_kv_heads, head_dim, is_key: false, heads_first: false }),
    {
        KvWriteParams { layer, n_kv_heads, head_dim, is_key: false, heads_first: false }
    }

    /// The same slot, writing keys (`true`) or values (`false`).
    pub fn with_is_key(self, is_key: bool) -> (p: Self)
        ensures
            p == (KvWriteParams { is_key, ..self }),
    {
        KvWriteParams { is_key, ..self }
    }

    /// The same slot, with the input in heads-first (`true`) or sequence-first layout.
    pub fn with_heads_first(self, heads_first: bool) -> (p: Self)
        ensures
            p == (KvWriteParams { heads_first, ..self }),
    {
        KvWriteParams { heads_first, ..self }
    }
}

/// A three-dimensional tensor shape, outermost dimension first.
#[derive(Debug, Clone, Copy, PartialEq, Eq, Structural)]
pub struct Dims3 {
    pub d0: usize,
    pub d1: usize,
    pub d2: usize,
}

/// What a cache write does with its input.
#[derive(Debug, Clone, Copy, PartialEq, Eq, Structural)]
pub enum KvWritePlan {
    /// The input is not a whole number of f32s (or is empty): it is passed on unchanged
    /// and nothing is cached.
    PassThrough,
    /// First write (nothing cached yet): `seq` tokens are cached and the input is passed
    /// on in its own layout, of shape `dims`.
    Prefill { seq: usize, dims: Dims3 },
    /// Later write: `seq` tokens are cached and the whole cache of `total_seq` tokens is
    /// handed on, of shape `dims`.
    Decode { seq: usize, total_seq: usize, dims: Dims3 },
}

/// Tokens in a write of `n_floats` f32s: the f32 count over `n_kv_heads * head_dim`, or 1
/// when that stride is zero.
pub open spec fn spec_kv_write_seq(n_floats: nat, n_kv_heads: u32, head_dim: u32) -> nat {
    let stride = n_kv_heads as nat * head_dim as nat;
    if stride == 0 { 1 } else { n_floats / stride }
}

/// Shape of `tokens` tokens of `nkv` heads of `hd` values, in the given layout.
pub open spec fn spec_kv_dims(heads_first: bool, nkv: nat, tokens: nat, hd: nat) -> Dims3 {
    if heads_first {
        Dims3 { d0: nkv as usize, d1: tokens as usize, d2: hd as usize }
    } else {
        Dims3 { d0: tokens as usize, d1: nkv as usize, d2: hd as usize }
    }
}

/// The plan of a cache write of `input_len` bytes when `write_pos` tokens are cached.
pub open spec fn spec_plan_kv_write(input_len: nat, params: KvWriteParams, write_pos: nat) -> KvWritePlan {
    if input_len == 0 || input_len % 4 != 0 {
        KvWritePlan::PassThrough
    } else {
        let seq = spec_kv_write_seq(input_len / 4, params.n_kv_heads, params.head_dim);
        let nkv = params.n_kv_heads as nat;
        let hd = params.head_dim as nat;
        if write_pos == 0 {
            KvWritePlan::Prefill { seq: seq as usize, dims: spec_kv_dims(params.heads_first, nkv, seq, hd) }
        } else {
            KvWritePlan::Decode {
                seq: seq as usize,
                total_seq: (write_pos + seq) as usize,
                dims: spec_kv_dims(params.heads_first, nkv, write_pos + seq, hd),
            }
        }
    }
}

/// Plan a cache write of `input_len` bytes when `write_pos` tokens are already cached.
pub fn plan_kv_write(input_len: usize, params: KvWriteParams, write_pos: usize) -> (plan: KvWritePlan)
    requires
        params.n_kv_heads as nat * params.head_dim as nat <= usize::MAX,
        write_pos + input_len / 4 <= usize::MAX,
    ensures
        plan == spec_plan_kv_write(input_len as nat, params, write_pos as nat),
{
    if input_len == 0 || input_len % 4 != 0 {
        return KvWritePlan::PassThrough;
    }
    let n_floats = input_len / 4;
    let nkv = params.n_kv_heads as usize;
    let hd = params.head_dim as usize;
    let stride = nkv * hd;
    let seq = if stride == 0 { 1 } else { n_floats / stride };
    assert(seq <= n_floats) by {
        if stride > 0 {
            assert(n_floats / stride <= n_floats) by (nonlinear_arith) requires stride > 0;
        }
    }
    if write_pos == 0 {
        let dims = if params.heads_first { Dims3 { d0: nkv, d1: seq, d2: hd } } else { Dims3 { d0: seq, d1: nkv, d2: hd } };
        KvWritePlan::Prefill { seq, dims }
    } else {
        let total_seq = write_pos + seq;
        let dims = if params.heads_first { Dims3 { d0: nkv, d1: total_seq, d2: hd } } else { Dims3 { d0: total_seq, d1: nkv, d2: hd } };
        KvWritePlan::Decode { seq, total_seq, dims }
    }
}

/// Tokens written by a run whose first input has shape `shape`: its last dimension
/// (`[batch, seq]` or `[seq]`), 0 for a scalar or an unknown shape.
pub fn infer_kv_seq_written(shape: Option<&[usize]>) -> (n: usize)
    ensures
        n == (match shape {
            Some(s) => if s@.len() > 0 { s@.last() } else { 0 },
            None => 0,
        }),
{
    match shape {
        Some(s) => {
            if s.len() > 0 {
                s[s.len() - 1]
            } else {
                0
            }
        },
        None => 0,
    }
}

} // verus!
