//! Element-type conversion (`Cast`) between integer, boolean and f32 buffers. The
//! conversions that round (integer to f32 and f32 to integer) are float arithmetic and are
//! left to the caller; every other pair is an exact integer rewrite.
use vstd::prelude::*;
use crate::bytes::{
    decode_u32s, encode_i32s, encode_u32s, indices_to_bytes, iter_i32, iter_i64, spec_decode_i32s,
    spec_decode_i64s, spec_decode_u32s, spec_encode_i32s, spec_encode_i64s, spec_encode_u32s,
};
use crate::tensor_ops::{spec_byte_size, spec_f32_bits_nonzero, FloatDType};

verus! {

/// Bit pattern of the f32 value 1.0.
pub const F32_ONE_BITS: u32 = 0x3f80_0000u32;

/// Whether converting `from` to `to` rounds through floating point.
pub open spec fn spec_cast_rounds(from: FloatDType, to: FloatDType) -> bool {
    ||| (from == FloatDType::I64 && to == FloatDType::F32)
    ||| (from == FloatDType::I32 && to == FloatDType::F32)
    ||| (from == FloatDType::F32 && to == FloatDType::I64)
    ||| (from == FloatDType::F32 && to == FloatDType::I32)
}

/// 1 for a nonzero integer, 0 otherwise.
pub open spec fn spec_bool_of(nonzero: bool) -> u8 {
    if nonzero { 1u8 } else { 0u8 }
}

/// Result of `Cast`: `None` for the conversions that round (see `spec_cast_rounds`);
/// otherwise the converted bytes. Same types, and a buffer whose length is not a whole
/// number of source elements, pass through unchanged, as do pairs with no integer rule.
pub open spec fn spec_cast(data: Seq<u8>, from: FloatDType, to: FloatDType) -> Option<Seq<u8>> {
    if from == to || data.len() % spec_byte_size(from) != 0 {
        Some(data)
    } else if spec_cast_rounds(from, to) {
        None
    } else {
        match (from, to) {
            (FloatDType::Bool, FloatDType::F32) => Some(spec_encode_u32s(
                Seq::new(data.len(), |i: int| if data[i] != 0 { F32_ONE_BITS } else { 0u32 }),
            )),
            (FloatDType::F32, FloatDType::Bool) => Some(
                spec_decode_u32s(data).map_values(|w: u32| spec_bool_of(spec_f32_bits_nonzero(w))),
            ),
            (FloatDType::I64, FloatDType::Bool) => Some(
                spec_decode_i64s(data).map_values(|v: i64| spec_bool_of(v != 0)),
            ),
            (FloatDType::I64, FloatDType::I32) => Some(
                spec_encode_i32s(spec_decode_i64s(data).map_values(|v: i64| v as i32)),
            ),
            (FloatDType::I32, FloatDType::I64) => Some(
                spec_encode_i64s(spec_decode_i32s(data).map_values(|v: i32| v as i64)),
            ),
            (FloatDType::I32, FloatDType::Bool) => Some(
                spec_decode_i32s(data).map_values(|v: i32| spec_bool_of(v != 0)),
            ),
            (FloatDType::Bool, FloatDType::I64) => Some(
                spec_encode_i64s(Seq::new(data.len(), |i: int| if data[i] != 0 { 1i64 } else { 0i64 })),
            ),
            (FloatDType::Bool, FloatDType::I32) => Some(
                spec_encode_i32s(Seq::new(data.len(), |i: int| if data[i] != 0 { 1i32 } else { 0i32 })),
            ),
            _ => Some(data),
        }
    }
}

/// Copy a byte buffer.
fn copy_bytes(data: &[u8]) -> (out: Vec<u8>)
    ensures
        out@ == data@,
{
    vstd::slice::slice_to_vec(data)
}

/// Convert `inputs[0]` from `from` to `to` (see `spec_cast`). `None` means the conversion
/// rounds through f32 arithmetic, which this library does not perform.
pub fn dispatch_cast(inputs: &[&[u8]], from: FloatDType, to: FloatDType) -> (r: Option<Vec<u8>>)
    requires
        inputs@.len() >= 1,
        from == FloatDType::Bool && to == FloatDType::I64 ==> 8 * inputs@[0]@.len() <= usize::MAX,
        from == FloatDType::Bool && (to == FloatDType::I32 || to == FloatDType::F32) ==> 4 * inputs@[0]@.len() <= usize::MAX,
        from == FloatDType::I32 && to == FloatDType::I64 ==> 2 * inputs@[0]@.len() <= usize::MAX,
    ensures
        match spec_cast(inputs@[0]@, from, to) {
            Some(s) => r matches Some(out) && out@ == s,
            None => r is None,
        },
{
    let data = inputs[0];
    let n = data.len();
    if from == to {
        return Some(copy_bytes(data));
    }
    let from_size = from.byte_size();
    if n % from_size != 0 {
        return Some(copy_bytes(data));
    }
    match (from, to) {
        (FloatDType::I64, FloatDType::F32)
        | (FloatDType::I32, FloatDType::F32)
        | (FloatDType::F32, FloatDType::I64)
        | (FloatDType::F32, FloatDType::I32) => None,
        (FloatDType::Bool, FloatDType::F32) => {
            let mut w: Vec<u32> = Vec::with_capacity(n);
            let mut i: usize = 0;
            while i < n
                invariant
                    n == data@.len(),
                    i <= n,
                    w@.len() == i,
                    forall|t: int| 0 <= t < i ==> #[trigger] w@[t] == (if data@[t] != 0 { F32_ONE_BITS } else { 0u32 }),
                decreases n - i,
            {
                w.push(if data[i] != 0 { F32_ONE_BITS } else { 0u32 });
                i = i + 1;
            }
            assert(w@ =~= Seq::new(data@.len(), |i: int| if data@[i] != 0 { F32_ONE_BITS } else { 0u32 }));
            Some(encode_u32s(w.as_slice()))
        },
        (FloatDType::F32, FloatDType::Bool) => {
            let words = decode_u32s(data);
            let mut out: Vec<u8> = Vec::with_capacity(words.len());
            let mut i: usize = 0;
            while i < words.len()
                invariant
                    i <= words@.len(),
                    out@.len() == i,
                    forall|t: int| 0 <= t < i ==> #[trigger] out@[t] == spec_bool_of(spec_f32_bits_nonzero(words@[t])),
                decreases words@.len() - i,
            {
                out.push(if words[i] & 0x7fff_ffffu32 != 0 { 1u8 } else { 0u8 });
                i = i + 1;
            }
            assert(out@ =~= words@.map_values(|w: u32| spec_bool_of(spec_f32_bits_nonzero(w))));
            Some(out)
        },
        (FloatDType::I64, FloatDType::Bool) => {
            let v = iter_i64(data);
            let mut out: Vec<u8> = Vec::with_capacity(v.len());
            let mut i: usize = 0;
            while i < v.len()
                invariant
                    i <= v@.len(),
                    out@.len() == i,
                    forall|t: int| 0 <= t < i ==> #[trigger] out@[t] == spec_bool_of(v@[t] != 0),
                decreases v@.len() - i,
            {
                out.push(if v[i] != 0 { 1u8 } else { 0u8 });
                i = i + 1;
            }
            assert(out@ =~= v@.map_values(|x: i64| spec_bool_of(x != 0)));
            Some(out)
        },
        (FloatDType::I64, FloatDType::I32) => {
            let v = iter_i64(data);
            let mut out: Vec<i32> = Vec::with_capacity(v.len());
            let mut i: usize = 0;
            while i < v.len()
                invariant
                    i <= v@.len(),
                    out@.len() == i,
                    forall|t: int| 0 <= t < i ==> #[trigger] out@[t] == v@[t] as i32,
                decreases v@.len() - i,
            {
                out.push(#[verifier::truncate] (v[i] as i32));
                i = i + 1;
            }
            assert(out@ =~= v@.map_values(|x: i64| x as i32));
            assert(4 * out@.len() <= n);
            Some(encode_i32s(out.as_slice()))
        },
        (FloatDType::I32, FloatDType::I64) => {
            let v = iter_i32(data);
            let mut out: Vec<i64> = Vec::with_capacity(v.len());
            let mut i: usize = 0;
            while i < v.len()
                invariant
                    i <= v@.len(),
                    out@.len() == i,
                    forall|t: int| 0 <= t < i ==> #[trigger] out@[t] == v@[t] as i64,
                decreases v@.len() - i,
            {
                out.push(v[i] as i64);
                i = i + 1;
            }
            assert(out@ =~= v@.map_values(|x: i32| x as i64));
            assert(4 * out@.len() <= n);
            Some(indices_to_bytes(out.as_slice()))
        },
        (FloatDType::I32, FloatDType::Bool) => {
            let v = iter_i32(data);
            let mut out: Vec<u8> = Vec::with_capacity(v.len());
            let mut i: usize = 0;
            while i < v.len()
                invariant
                    i <= v@.len(),
                    out@.len() == i,
                    forall|t: int| 0 <= t < i ==> #[trigger] out@[t] == spec_bool_of(v@[t] != 0),
                decreases v@.len() - i,
            {
                out.push(if v[i] != 0 { 1u8 } else { 0u8 });
                i = i + 1;
            }
            assert(out@ =~= v@.map_values(|x: i32| spec_bool_of(x != 0)));
            Some(out)
        },
        (FloatDType::Bool, FloatDType::I64) => {
            let mut out: Vec<i64> = Vec::with_capacity(n);
            let mut i: usize = 0;
            while i < n
                invariant
                    n == data@.len(),
                    i <= n,
                    out@.len() == i,
                    forall|t: int| 0 <= t < i ==> #[trigger] out@[t] == (if data@[t] != 0 { 1i64 } else { 0i64 }),
                decreases n - i,
            {
                out.push(if data[i] != 0 { 1i64 } else { 0i64 });
                i = i + 1;
            }
            assert(out@ =~= Seq::new(data@.len(), |i: int| if data@[i] != 0 { 1i64 } else { 0i64 }));
            Some(indices_to_bytes(out.as_slice()))
        },
        (FloatDType::Bool, FloatDType::I32) => {
            let mut out: Vec<i32> = Vec::with_capacity(n);
            let mut i: usize = 0;
            while i < n
                invariant
                    n == data@.len(),
                    i <= n,
                    out@.len() == i,
                    forall|t: int| 0 <= t < i ==> #[trigger] out@[t] == (if data@[t] != 0 { 1i32 } else { 0i32 }),
                decreases n - i,
            {
                out.push(if data[i] != 0 { 1i32 } else { 0i32 });
                i = i + 1;
            }
            assert(out@ =~= Seq::new(data@.len(), |i: int| if data@[i] != 0 { 1i32 } else { 0i32 }));
            Some(encode_i32s(out.as_slice()))
        },
        _ => Some(copy_bytes(data)),
    }
}

} // verus!
