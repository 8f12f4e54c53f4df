//! Verified core of the hologram runtime executor.
use vstd::prelude::*;

pub mod attention;
pub mod bytes;
pub mod cast;
pub mod constants;
pub mod conv;
pub mod dequant;
pub mod error;
pub mod half;
pub mod kv;
pub mod kv_dispatch;
pub mod kv_plan;
pub mod kv_wht;
pub mod layout;
pub mod matmul;
pub mod pool;
pub mod q16;
pub mod patch_prune;
pub mod permute;
pub mod quantize;
pub mod reduce;
pub mod radix;
pub mod select;
pub mod shape;
pub mod spatial;
pub mod store;
pub mod tensor_ops;

verus! {
}
