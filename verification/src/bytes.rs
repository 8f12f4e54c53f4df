//! Little-endian encoding and decoding of integer tensors held in byte buffers.
use vstd::prelude::*;
use vstd::bytes::{
    spec_u32_from_le_bytes, spec_u32_to_le_bytes, spec_u64_from_le_bytes, spec_u64_to_le_bytes,
};

verus! {

/// The i64 stored little-endian in the 8 bytes of `s` starting at `off`.
pub open spec fn spec_i64_at(s: Seq<u8>, off: int) -> i64 {
    spec_u64_from_le_bytes(s.subrange(off, off + 8)) as i64
}

/// The i32 stored little-endian in the 4 bytes of `s` starting at `off`.
pub open spec fn spec_i32_at(s: Seq<u8>, off: int) -> i32 {
    spec_u32_from_le_bytes(s.subrange(off, off + 4)) as i32
}

/// The u32 stored little-endian in the 4 bytes of `s` starting at `off`.
pub open spec fn spec_u32_at(s: Seq<u8>, off: int) -> u32 {
    spec_u32_from_le_bytes(s.subrange(off, off + 4))
}

/// All complete little-endian i64 values of a buffer (a trailing partial value is ignored).
pub open spec fn spec_decode_i64s(s: Seq<u8>) -> Seq<i64> {
    Seq::new(s.len() / 8, |i: int| spec_i64_at(s, 8 * i))
}

/// All complete little-endian i32 values of a buffer.
pub open spec fn spec_decode_i32s(s: Seq<u8>) -> Seq<i32> {
    Seq::new(s.len() / 4, |i: int| spec_i32_at(s, 4 * i))
}

/// All complete little-endian u32 words of a buffer.
pub open spec fn spec_decode_u32s(s: Seq<u8>) -> Seq<u32> {
    Seq::new(s.len() / 4, |i: int| spec_u32_at(s, 4 * i))
}

/// The little-endian bytes of a sequence of i64 values.
pub open spec fn spec_encode_i64s(v: Seq<i64>) -> Seq<u8> {
    Seq::new(8 * v.len(), |k: int| spec_u64_to_le_bytes(v[k / 8] as u64)[k % 8])
}

/// The little-endian bytes of a sequence of i32 values.
pub open spec fn spec_encode_i32s(v: Seq<i32>) -> Seq<u8> {
    Seq::new(4 * v.len(), |k: int| spec_u32_to_le_bytes(v[k / 4] as u32)[k % 4])
}

/// The little-endian bytes of a sequence of u32 words.
pub open spec fn spec_encode_u32s(v: Seq<u32>) -> Seq<u8> {
    Seq::new(4 * v.len(), |k: int| spec_u32_to_le_bytes(v[k / 4])[k % 4])
}

/// Read a single i64 at element index `idx` from a possibly misaligned buffer.
pub fn read_i64_at(bytes: &[u8], idx: usize) -> (r: Option<i64>)
    requires
        idx * 8 + 8 <= usize::MAX,
    ensures
        r == (if idx * 8 + 8 <= bytes@.len() {
            Some(spec_i64_at(bytes@, idx * 8))
        } else {
            None
        }),
{
    let off = idx * 8;
    if off + 8 <= bytes.len() {
        let x = vstd::bytes::u64_from_le_bytes(vstd::slice::slice_subrange(bytes, off, off + 8));
        Some(#[verifier::truncate] (x as i64))
    } else {
        None
    }
}

/// Read a single i32 at element index `idx` from a possibly misaligned buffer.
pub fn read_i32_at(bytes: &[u8], idx: usize) -> (r: Option<i32>)
    requires
        idx * 4 + 4 <= usize::MAX,
    ensures
        r == (if idx * 4 + 4 <= bytes@.len() {
            Some(spec_i32_at(bytes@, idx * 4))
        } else {
            None
        }),
{
    let off = idx * 4;
    if off + 4 <= bytes.len() {
        let x = vstd::bytes::u32_from_le_bytes(vstd::slice::slice_subrange(bytes, off, off + 4));
        Some(#[verifier::truncate] (x as i32))
    } else {
        None
    }
}

/// Decode every complete little-endian i64 of a buffer.
pub fn iter_i64(bytes: &[u8]) -> (v: Vec<i64>)
    ensures
        v@ == spec_decode_i64s(bytes@),
{
    let n = bytes.len() / 8;
    let mut v: Vec<i64> = Vec::with_capacity(n);
    let mut i: usize = 0;
    while i < n
        invariant
            n == bytes@.len() / 8,
            bytes@.len() <= usize::MAX,
            i <= n,
            v@.len() == i,
            forall|t: int| 0 <= t < i ==> #[trigger] v@[t] == spec_i64_at(bytes@, 8 * t),
        decreases n - i,
    {
        proof {
            assert(i * 8 + 8 <= bytes@.len()) by (nonlinear_arith)
                requires i < n, n == bytes@.len() / 8;
        }
        let off = i * 8;
        let x = vstd::bytes::u64_from_le_bytes(vstd::slice::slice_subrange(bytes, off, off + 8));
        v.push(#[verifier::truncate] (x as i64));
        i = i + 1;
    }
    assert(v@ =~= spec_decode_i64s(bytes@));
    v
}

/// Decode every complete little-endian i32 of a buffer.
pub fn iter_i32(bytes: &[u8]) -> (v: Vec<i32>)
    ensures
        v@ == spec_decode_i32s(bytes@),
{
    let n = bytes.len() / 4;
    let mut v: Vec<i32> = Vec::with_capacity(n);
    let mut i: usize = 0;
    while i < n
        invariant
            n == bytes@.len() / 4,
            bytes@.len() <= usize::MAX,
            i <= n,
            v@.len() == i,
            forall|t: int| 0 <= t < i ==> #[trigger] v@[t] == spec_i32_at(bytes@, 4 * t),
        decreases n - i,
    {
        proof {
            assert(i * 4 + 4 <= bytes@.len()) by (nonlinear_arith)
                requires i < n, n == bytes@.len() / 4;
        }
        let off = i * 4;
        let x = vstd::bytes::u32_from_le_bytes(vstd::slice::slice_subrange(bytes, off, off + 4));
        v.push(#[verifier::truncate] (x as i32));
        i = i + 1;
    }
    assert(v@ =~= spec_decode_i32s(bytes@));
    v
}

/// Decode every complete little-endian 32-bit word of a buffer.
pub fn decode_u32s(bytes: &[u8]) -> (v: Vec<u32>)
    ensures
        v@ == spec_decode_u32s(bytes@),
{
    let n = bytes.len() / 4;
    let mut v: Vec<u32> = Vec::with_capacity(n);
    let mut i: usize = 0;
    while i < n
        invariant
            n == bytes@.len() / 4,
            bytes@.len() <= usize::MAX,
            i <= n,
            v@.len() == i,
            forall|t: int| 0 <= t < i ==> #[trigger] v@[t] == spec_u32_at(bytes@, 4 * t),
        decreases n - i,
    {
        proof {
            assert(i * 4 + 4 <= bytes@.len()) by (nonlinear_arith)
                requires i < n, n == bytes@.len() / 4;
        }
        let off = i * 4;
        let x = vstd::bytes::u32_from_le_bytes(vstd::slice::slice_subrange(bytes, off, off + 4));
        v.push(x);
        i = i + 1;
    }
    assert(v@ =~= spec_decode_u32s(bytes@));
    v
}

/// Convert i64 values to their little-endian bytes (the graph's index input format).
pub fn indices_to_bytes(indices: &[i64]) -> (bytes: Vec<u8>)
    requires
        8 * indices@.len() <= usize::MAX,
    ensures
        bytes@ == spec_encode_i64s(indices@),
{
    let n = indices.len();
    let mut bytes: Vec<u8> = Vec::with_capacity(n * 8);
    let mut i: usize = 0;
    while i < n
        invariant
            n == indices@.len(),
            8 * n <= usize::MAX,
            i <= n,
            bytes@.len() == 8 * i,
            forall|k: int| 0 <= k < 8 * i ==> #[trigger] bytes@[k] == spec_encode_i64s(indices@)[k],
        decreases n - i,
    {
        let le = vstd::bytes::u64_to_le_bytes(indices[i] as u64);
        let mut b: usize = 0;
        while b < 8
            invariant
                n == indices@.len(),
                8 * n <= usize::MAX,
                i < n,
                b <= 8,
                le@ == spec_u64_to_le_bytes(indices@[i as int] as u64),
                le@.len() == 8,
                bytes@.len() == 8 * i + b,
                forall|k: int| 0 <= k < 8 * i + b ==> #[trigger] bytes@[k] == spec_encode_i64s(indices@)[k],
            decreases 8 - b,
        {
            bytes.push(le[b]);
            proof {
                let k = 8 * i + b;
                assert(k / 8 == i as int);
                assert(k % 8 == b as int);
            }
            b = b + 1;
        }
        i = i + 1;
    }
    assert(bytes@ =~= spec_encode_i64s(indices@));
    bytes
}

/// Convert i32 values to their little-endian bytes.
pub fn encode_i32s(values: &[i32]) -> (bytes: Vec<u8>)
    requires
        4 * values@.len() <= usize::MAX,
    ensures
        bytes@ == spec_encode_i32s(values@),
{
    let n = values.len();
    let mut bytes: Vec<u8> = Vec::with_capacity(n * 4);
    let mut i: usize = 0;
    while i < n
        invariant
            n == values@.len(),
            4 * n <= usize::MAX,
            i <= n,
            bytes@.len() == 4 * i,
            forall|k: int| 0 <= k < 4 * i ==> #[trigger] bytes@[k] == spec_encode_i32s(values@)[k],
        decreases n - i,
    {
        let le = vstd::bytes::u32_to_le_bytes(values[i] as u32);
        let mut b: usize = 0;
        while b < 4
            invariant
                n == values@.len(),
                4 * n <= usize::MAX,
                i < n,
                b <= 4,
                le@ == spec_u32_to_le_bytes(values@[i as int] as u32),
                le@.len() == 4,
                bytes@.len() == 4 * i + b,
                forall|k: int| 0 <= k < 4 * i + b ==> #[trigger] bytes@[k] == spec_encode_i32s(values@)[k],
            decreases 4 - b,
        {
            bytes.push(le[b]);
            proof {
                let k = 4 * i + b;
                assert(k / 4 == i as int);
                assert(k % 4 == b as int);
            }
            b = b + 1;
        }
        i = i + 1;
    }
    assert(bytes@ =~= spec_encode_i32s(values@));
    bytes
}

/// Convert 32-bit words to their little-endian bytes.
pub fn encode_u32s(values: &[u32]) -> (bytes: Vec<u8>)
    requires
        4 * values@.len() <= usize::MAX,
    ensures
        bytes@ == spec_encode_u32s(values@),
{
    let n = values.len();
    let mut bytes: Vec<u8> = Vec::with_capacity(n * 4);
    let mut i: usize = 0;
    while i < n
        invariant
            n == values@.len(),
            4 * n <= usize::MAX,
            i <= n,
            bytes@.len() == 4 * i,
            forall|k: int| 0 <= k < 4 * i ==> #[trigger] bytes@[k] == spec_encode_u32s(values@)[k],
        decreases n - i,
    {
        let le = vstd::bytes::u32_to_le_bytes(values[i]);
        let mut b: usize = 0;
        while b < 4
            invariant
                n == values@.len(),
                4 * n <= usize::MAX,
                i < n,
                b <= 4,
                le@ == spec_u32_to_le_bytes(values@[i as int]),
                le@.len() == 4,
                bytes@.len() == 4 * i + b,
                forall|k: int| 0 <= k < 4 * i + b ==> #[trigger] bytes@[k] == spec_encode_u32s(values@)[k],
            decreases 4 - b,
        {
            bytes.push(le[b]);
            proof {
                let k = 4 * i + b;
                assert(k / 4 == i as int);
                assert(k % 4 == b as int);
            }
            b = b + 1;
        }
        i = i + 1;
    }
    assert(bytes@ =~= spec_encode_u32s(values@));
    bytes
}

/// Decoding the little-endian bytes of i64 values gives back the values.
pub proof fn lemma_decode_encode_i64s(v: Seq<i64>)
    ensures
        spec_decode_i64s(spec_encode_i64s(v)) == v,
{
    let e = spec_encode_i64s(v);
    vstd::bytes::lemma_auto_spec_u64_to_from_le_bytes();
    assert forall|i: int| 0 <= i < v.len() implies #[trigger] spec_i64_at(e, 8 * i) == v[i] by {
        let x = v[i];
        let le = spec_u64_to_le_bytes(x as u64);
        assert(le.len() == 8);
        assert forall|b: int| 0 <= b < 8 implies #[trigger] e.subrange(8 * i, 8 * i + 8)[b] == le[b] by {
            assert((8 * i + b) / 8 == i) by (nonlinear_arith) requires 0 <= b < 8;
            assert((8 * i + b) % 8 == b) by (nonlinear_arith) requires 0 <= b < 8;
        }
        assert(e.subrange(8 * i, 8 * i + 8) =~= le);
        assert(((x as u64) as i64) == x) by (bit_vector);
    }
    assert(spec_decode_i64s(e) =~= v);
}

/// Decoding the little-endian bytes of 32-bit words gives back the words.
pub proof fn lemma_decode_encode_u32s(v: Seq<u32>)
    ensures
        spec_decode_u32s(spec_encode_u32s(v)) == v,
{
    let e = spec_encode_u32s(v);
    vstd::bytes::lemma_auto_spec_u32_to_from_le_bytes();
    assert forall|i: int| 0 <= i < v.len() implies #[trigger] spec_u32_at(e, 4 * i) == v[i] by {
        let le = spec_u32_to_le_bytes(v[i]);
        assert forall|b: int| 0 <= b < 4 implies #[trigger] e.subrange(4 * i, 4 * i + 4)[b] == le[b] by {
            assert((4 * i + b) / 4 == i) by (nonlinear_arith) requires 0 <= b < 4;
            assert((4 * i + b) % 4 == b) by (nonlinear_arith) requires 0 <= b < 4;
        }
        assert(e.subrange(4 * i, 4 * i + 4) =~= le);
    }
    assert(spec_decode_u32s(e) =~= v);
}

/// Re-encoding the words decoded from a buffer whose length is a multiple of 4
/// gives back the buffer.
pub proof fn lemma_encode_decode_u32s(s: Seq<u8>)
    requires
        s.len() % 4 == 0,
    ensures
        spec_encode_u32s(spec_decode_u32s(s)) == s,
{
    let d = spec_decode_u32s(s);
    vstd::bytes::lemma_auto_spec_u32_to_from_le_bytes();
    assert forall|k: int| 0 <= k < s.len() implies #[trigger] spec_encode_u32s(d)[k] == s[k] by {
        let i = k / 4;
        let b = k % 4;
        assert(0 <= i < s.len() / 4);
        assert(4 * i + 4 <= s.len());
        let sub = s.subrange(4 * i, 4 * i + 4);
        assert(spec_u32_to_le_bytes(spec_u32_from_le_bytes(sub)) == sub);
        assert(sub[b] == s[k]);
    }
    assert(spec_encode_u32s(d) =~= s);
}

} // verus!
