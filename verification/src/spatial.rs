//! Flat padding of f32 tensors held as little-endian 32-bit words.
use vstd::prelude::*;
use crate::bytes::{decode_u32s, encode_u32s, iter_i64, spec_decode_i64s, spec_decode_u32s, spec_encode_u32s};

verus! {

/// A pad amount as added up by the kernel: negative pads count as zero.
pub open spec fn spec_pad_amount(p: i64) -> nat {
    ((if p > 0 { p } else { 0i64 }) as usize) as nat
}

/// Sum of the pad amounts of `s`.
pub open spec fn spec_pad_sum(s: Seq<i64>) -> nat
    decreases s.len(),
{
    if s.len() == 0 {
        0
    } else {
        spec_pad_sum(s.drop_last()) + spec_pad_amount(s.last())
    }
}

/// Pad sums grow with the range they cover.
pub proof fn lemma_pad_sum_mono(s: Seq<i64>, lo: int, i: int, j: int)
    requires
        0 <= lo <= i <= j <= s.len(),
    ensures
        spec_pad_sum(s.subrange(lo, i)) <= spec_pad_sum(s.subrange(lo, j)),
    decreases j - i,
{
    if i < j {
        lemma_pad_sum_mono(s, lo, i, j - 1);
        assert(s.subrange(lo, j).drop_last() =~= s.subrange(lo, j - 1));
    }
}

/// Begin pads are the first half of the pad list, end pads the rest.
pub open spec fn spec_pad_begin(pads: Seq<i64>) -> nat {
    spec_pad_sum(pads.subrange(0, (pads.len() / 2) as int))
}

/// Total of the end pads.
pub open spec fn spec_pad_end(pads: Seq<i64>) -> nat {
    spec_pad_sum(pads.subrange((pads.len() / 2) as int, pads.len() as int))
}

/// Word `p` of the padded tensor: the data shifted by `begin`, surrounded by zero (constant
/// mode), mirrored data (mode 1, reflect, for more than one element) or the border element
/// (mode 2, edge).
pub open spec fn spec_pad_word(data: Seq<u32>, begin: nat, mode: u8, p: int) -> u32 {
    let n = data.len() as int;
    if begin <= p < begin + n {
        data[p - begin]
    } else if p < begin {
        if mode == 1 && n > 1 {
            let src = begin - p;
            if src < n { data[src] } else { data[0] }
        } else if mode == 2 {
            data[0]
        } else {
            0u32
        }
    } else {
        if mode == 1 && n > 1 {
            let i = p - (begin + n);
            let src = if n - 2 - i > 0 { n - 2 - i } else { 0 };
            data[src]
        } else if mode == 2 {
            data[n - 1]
        } else {
            0u32
        }
    }
}

/// The padded words.
pub open spec fn spec_padded(data: Seq<u32>, pads: Seq<i64>, mode: u8) -> Seq<u32> {
    Seq::new(
        spec_pad_begin(pads) + data.len() + spec_pad_end(pads),
        |p: int| spec_pad_word(data, spec_pad_begin(pads), mode, p),
    )
}

/// Whether `Pad` changes its input: the pads are a nonempty list of little-endian i64 values
/// that are not all zero.
pub open spec fn spec_pad_applies(pads_bytes: Seq<u8>) -> bool {
    &&& pads_bytes.len() > 0
    &&& pads_bytes.len() % 8 == 0
    &&& exists|i: int| 0 <= i < spec_decode_i64s(pads_bytes).len() && #[trigger] spec_decode_i64s(pads_bytes)[i] != 0
}

/// Result of `Pad` on f32 data with the pads in `pads_bytes`: the input unchanged when there
/// are no pads or all are zero; `None` when the pads are not whole i64 values (they are then
/// f32 values that must be rounded, which this library does not do); else the padded data.
pub open spec fn spec_pad(data: Seq<u8>, pads_bytes: Seq<u8>, mode: u8) -> Option<Seq<u8>> {
    if pads_bytes.len() == 0 {
        Some(data)
    } else if pads_bytes.len() % 8 != 0 {
        None
    } else if !spec_pad_applies(pads_bytes) {
        Some(data)
    } else {
        Some(spec_encode_u32s(spec_padded(spec_decode_u32s(data), spec_decode_i64s(pads_bytes), mode)))
    }
}

/// Sum the pad amounts of `pads[lo..hi]`.
fn pad_sum(pads: &[i64], lo: usize, hi: usize, Ghost(bound): Ghost<nat>) -> (s: usize)
    requires
        lo <= hi <= pads@.len(),
        spec_pad_sum(pads@.subrange(lo as int, hi as int)) <= bound,
        bound <= usize::MAX,
    ensures
        s == spec_pad_sum(pads@.subrange(lo as int, hi as int)),
{
    let mut acc: usize = 0;
    let mut i: usize = lo;
    while i < hi
        invariant
            lo <= i <= hi <= pads@.len(),
            spec_pad_sum(pads@.subrange(lo as int, hi as int)) <= bound,
            bound <= usize::MAX,
            acc == spec_pad_sum(pads@.subrange(lo as int, i as int)),
        decreases hi - i,
    {
        proof {
            lemma_pad_sum_mono(pads@, lo as int, i + 1, hi as int);
            assert(pads@.subrange(lo as int, i + 1).drop_last() =~= pads@.subrange(lo as int, i as int));
        }
        let p = pads[i];
        let amount: usize = if p > 0 { #[verifier::truncate] (p as usize) } else { 0 };
        acc = acc + amount;
        i = i + 1;
    }
    acc
}

/// `Pad` (see `spec_pad`): `inputs[0]` is the f32 data, `inputs[1]` (when present) the
/// pads, begin pads first; all begin pads are summed and put before the data, all end pads
/// after it.
pub fn dispatch_pad(inputs: &[&[u8]], mode: u8) -> (r: Option<Vec<u8>>)
    requires
        inputs@.len() >= 1,
        inputs@.len() >= 2 && spec_pad_applies(inputs@[1]@) ==> ({
            let pads = spec_decode_i64s(inputs@[1]@);
            &&& 4 * (spec_pad_begin(pads) + inputs@[0]@.len() / 4 + spec_pad_end(pads)) <= usize::MAX
            &&& mode == 2 ==> inputs@[0]@.len() >= 4
        }),
    ensures
        ({
            let pads_bytes = if inputs@.len() >= 2 { inputs@[1]@ } else { Seq::<u8>::empty() };
            match spec_pad(inputs@[0]@, pads_bytes, mode) {
                Some(s) => r matches Some(out) && out@ == s,
                None => r is None,
            }
        }),
{
    let raw = inputs[0];
    if inputs.len() < 2 || inputs[1].len() == 0 {
        return Some(vstd::slice::slice_to_vec(raw));
    }
    let pads_bytes = inputs[1];
    if pads_bytes.len() % 8 != 0 {
        return None;
    }
    let pads = iter_i64(pads_bytes);
    let np = pads.len();
    let mut any = false;
    let mut i: usize = 0;
    while i < np
        invariant
            np == pads@.len(),
            i <= np,
            any == exists|t: int| 0 <= t < i && #[trigger] pads@[t] != 0,
        decreases np - i,
    {
        if pads[i] != 0 {
            any = true;
        }
        i = i + 1;
    }
    if !any {
        return Some(vstd::slice::slice_to_vec(raw));
    }
    assert(spec_pad_applies(inputs@[1]@));
    let data = decode_u32s(raw);
    let n = data.len();
    let ndim = np / 2;
    let ghost total: nat = spec_pad_begin(pads@) + n as nat + spec_pad_end(pads@);
    let begin = pad_sum(pads.as_slice(), 0, ndim, Ghost(total));
    let end = pad_sum(pads.as_slice(), ndim, np, Ghost(total));
    let out_len = begin + n + end;
    let ghost g = spec_padded(data@, pads@, mode);
    let mut out: Vec<u32> = Vec::with_capacity(out_len);
    let mut p: usize = 0;
    while p < out_len
        invariant
            data@ == spec_decode_u32s(raw@),
            n == data@.len(),
            begin == spec_pad_begin(pads@),
            end == spec_pad_end(pads@),
            out_len == begin + n + end,
            mode == 2 ==> n >= 1,
            g == spec_padded(data@, pads@, mode),
            p <= out_len,
            out@.len() == p,
            forall|t: int| 0 <= t < p ==> #[trigger] out@[t] == g[t],
        decreases out_len - p,
    {
        let w: u32 = if begin <= p && p < begin + n {
            data[p - begin]
        } else if p < begin {
            if mode == 1 && n > 1 {
                let src = begin - p;
                if src < n { data[src] } else { data[0] }
            } else if mode == 2 {
                data[0]
            } else {
                0u32
            }
        } else {
            if mode == 1 && n > 1 {
                let i = p - (begin + n);
                let src = if n - 2 > i { n - 2 - i } else { 0 };
                data[src]
            } else if mode == 2 {
                data[n - 1]
            } else {
                0u32
            }
        };
        out.push(w);
        p = p + 1;
    }
    assert(out@ =~= g);
    Some(encode_u32s(out.as_slice()))
}

} // verus!
