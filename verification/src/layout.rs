//! Data movement kernels: axis permutation, broadcasting expansion, reshape, and the
//! head/sequence layout changes used by attention and the KV cache. Elements are moved,
//! never computed on, so the kernels are generic over the element type; the byte-level
//! entry points treat each f32 as an opaque 32-bit word.
use vstd::prelude::*;
use crate::bytes::{
    decode_u32s, encode_u32s, iter_i64, lemma_decode_encode_u32s, lemma_encode_decode_u32s, spec_decode_i64s,
    spec_decode_u32s, spec_encode_u32s,
};
use crate::error::ExecError;
use crate::permute::{
    lemma_compose_digits, lemma_digits_in_range, lemma_prod_permute, lemma_strides_positive, lemma_wsum_permute,
    spec_digits, spec_int_strides, spec_inverse_int_perms, spec_inverse_perms, spec_wsum,
};
use vstd::arithmetic::div_mod::{lemma_fundamental_div_mod_converse, lemma_mod_breakdown};
use crate::radix::{lemma_compose3, lemma_decompose3, spec_pos3};
use vstd::slice::slice_to_vec;
use crate::shape::{
    broadcast_flat_index, lemma_bidx_bound, lemma_prod_skip, lemma_prod_skip_end,
    lemma_strides_fit_from_prod, spec_bstride_seq, spec_broadcasts_into, compute_strides, lemma_bidx_nonneg, lemma_prod_positive, lemma_prod_zero_iff, shape_product, spec_bidx,
    spec_prod, spec_stride, spec_stride_seq, spec_strides_fit,
};

verus! {

/// Shape obtained by permuting the axes of `shape` with `perm`.
pub open spec fn spec_perm_shape(perm: Seq<u8>, shape: Seq<usize>) -> Seq<usize> {
    Seq::new(perm.len(), |d: int| shape[perm[d] as int])
}

/// Source strides seen from the permuted output: output axis `d` walks input axis `perm[d]`.
pub open spec fn spec_perm_strides(perm: Seq<u8>, shape: Seq<usize>) -> Seq<usize> {
    Seq::new(perm.len(), |d: int| spec_stride(shape, perm[d] as int) as usize)
}

/// Source position of output element `e` of a transpose.
pub open spec fn spec_transpose_source(e: int, perm: Seq<u8>, shape: Seq<usize>) -> int {
    spec_bidx(
        e,
        0,
        perm.len() as int,
        spec_stride_seq(spec_perm_shape(perm, shape)),
        spec_perm_strides(perm, shape),
    )
}

/// The permuted element sequence: output element `e` takes the source element at its
/// permuted coordinates, or `zero` when that position falls outside the data.
pub open spec fn spec_transpose<T>(src: Seq<T>, perm: Seq<u8>, shape: Seq<usize>, zero: T) -> Seq<T> {
    Seq::new(
        src.len(),
        |e: int|
            if spec_transpose_source(e, perm, shape) < src.len() {
                src[spec_transpose_source(e, perm, shape)]
            } else {
                zero
            },
    )
}

/// Whether a transpose leaves its input untouched: no permutation, no shape, a
/// permutation entry naming a missing axis, or a shape whose element count is not the
/// number of elements.
pub open spec fn spec_transpose_passthrough(n_elems: nat, perm: Seq<u8>, shape: Seq<usize>) -> bool {
    ||| perm.len() == 0
    ||| shape.len() == 0
    ||| exists|d: int| 0 <= d < perm.len() && perm[d] as int >= shape.len()
    ||| spec_prod(shape) != n_elems
}

/// Overflow-checked source offset for coordinates decomposed by `out_strides`.
fn checked_source_index(flat: usize, out_strides: &[usize], src_strides: &[usize]) -> (r: Option<usize>)
    requires
        out_strides@.len() == src_strides@.len(),
        forall|t: int| 0 <= t < out_strides@.len() ==> #[trigger] out_strides@[t] > 0,
    ensures
        ({
            let v = spec_bidx(flat as int, 0, out_strides@.len() as int, out_strides@, src_strides@);
            &&& v >= 0
            &&& r == (if v <= usize::MAX { Some(v as usize) } else { None })
        }),
{
    proof {
        lemma_bidx_nonneg(flat as int, 0, out_strides@.len() as int, out_strides@, src_strides@);
    }
    let n = out_strides.len();
    let ghost total = spec_bidx(flat as int, 0, n as int, out_strides@, src_strides@);
    let mut acc: usize = 0;
    let mut remaining = flat;
    let mut i: usize = 0;
    while i < n
        invariant
            n == out_strides@.len(),
            n == src_strides@.len(),
            forall|t: int| 0 <= t < n ==> #[trigger] out_strides@[t] > 0,
            total == spec_bidx(flat as int, 0, n as int, out_strides@, src_strides@),
            i <= n,
            acc + spec_bidx(remaining as int, i as int, n as int, out_strides@, src_strides@) == total,
        decreases n - i,
    {
        proof {
            lemma_bidx_nonneg((remaining % out_strides[i as int]) as int, i + 1, n as int, out_strides@, src_strides@);
        }
        let coord = remaining / out_strides[i];
        let term = match coord.checked_mul(src_strides[i]) {
            Some(t) => t,
            None => {
                return None;
            },
        };
        acc = match acc.checked_add(term) {
            Some(a) => a,
            None => {
                return None;
            },
        };
        remaining = remaining % out_strides[i];
        i = i + 1;
    }
    Some(acc)
}

/// Permute the axes of a row-major tensor of `src.len()` elements with shape `input_shape`.
/// Positions whose source lies outside the data (possible only when `perm` repeats an
/// axis) are filled with `zero`.
pub fn transpose_elements<T: Copy>(src: &[T], perm: &[u8], input_shape: &[usize], zero: T) -> (r: (
    Vec<T>,
    Vec<usize>,
))
    requires
        spec_strides_fit(input_shape@),
        forall|d: int| 0 <= d < perm@.len() ==> (perm@[d] as int) < input_shape@.len(),
        spec_strides_fit(spec_perm_shape(perm@, input_shape@)),
        perm@.len() > 0,
        spec_prod(input_shape@) == src@.len(),
    ensures
        r.0@ == spec_transpose(src@, perm@, input_shape@, zero),
        r.1@ == spec_perm_shape(perm@, input_shape@),
{
    let ndim = perm.len();
    let strides = compute_strides(input_shape);
    let mut out_shape: Vec<usize> = Vec::with_capacity(ndim);
    let mut src_strides: Vec<usize> = Vec::with_capacity(ndim);
    let mut d: usize = 0;
    while d < ndim
        invariant
            ndim == perm@.len(),
            d <= ndim,
            forall|t: int| 0 <= t < perm@.len() ==> (perm@[t] as int) < input_shape@.len(),
            strides@.len() == input_shape@.len(),
            forall|t: int| 0 <= t < input_shape@.len() ==> #[trigger] strides@[t] == spec_stride(input_shape@, t),
            out_shape@.len() == d,
            src_strides@.len() == d,
            forall|t: int| 0 <= t < d ==> #[trigger] out_shape@[t] == spec_perm_shape(perm@, input_shape@)[t],
            forall|t: int| 0 <= t < d ==> #[trigger] src_strides@[t] == spec_perm_strides(perm@, input_shape@)[t],
        decreases ndim - d,
    {
        let p = perm[d] as usize;
        out_shape.push(input_shape[p]);
        src_strides.push(strides[p]);
        d = d + 1;
    }
    assert(out_shape@ =~= spec_perm_shape(perm@, input_shape@));
    assert(src_strides@ =~= spec_perm_strides(perm@, input_shape@));
    let out_strides = compute_strides(out_shape.as_slice());
    assert(out_strides@ =~= spec_stride_seq(out_shape@));
    let total = src.len();
    let ghost out = out_shape@;
    let mut dst: Vec<T> = Vec::with_capacity(total);
    if total > 0 {
        proof {
            lemma_prod_positive(input_shape@, 0);
            assert forall|t: int| 0 <= t < out.len() implies out[t] != 0 by {
                assert(input_shape@[perm@[t] as int] > 0);
            }
            lemma_prod_zero_iff(out);
            assert forall|t: int| 0 <= t < out.len() implies #[trigger] out_strides@[t] > 0 by {
                lemma_prod_zero_iff(out.skip(t + 1));
                assert forall|j: int| 0 <= j < out.skip(t + 1).len() implies #[trigger] out.skip(t + 1)[j] != 0 by {
                    assert(out.skip(t + 1)[j] == out[t + 1 + j]);
                }
            }
        }
        let mut e: usize = 0;
        while e < total
            invariant
                total == src@.len(),
                e <= total,
                ndim == perm@.len(),
                out == spec_perm_shape(perm@, input_shape@),
                out_strides@ == spec_stride_seq(out),
                out_strides@.len() == ndim,
                src_strides@ == spec_perm_strides(perm@, input_shape@),
                forall|t: int| 0 <= t < ndim ==> #[trigger] out_strides@[t] > 0,
                dst@.len() == e,
                forall|t: int| 0 <= t < e ==> #[trigger] dst@[t] == spec_transpose(src@, perm@, input_shape@, zero)[t],
            decreases total - e,
        {
            assert(spec_transpose_source(e as int, perm@, input_shape@) == spec_bidx(
                e as int,
                0,
                out_strides@.len() as int,
                out_strides@,
                src_strides@,
            ));
            let ghost si = spec_transpose_source(e as int, perm@, input_shape@);
            let ci = checked_source_index(e, out_strides.as_slice(), src_strides.as_slice());
            let v = match ci {
                Some(s) => {
                    assert(s as int == si);
                    if s < total {
                        src[s]
                    } else {
                        zero
                    }
                },
                None => {
                    assert(si > usize::MAX);
                    zero
                },
            };
            assert(spec_transpose(src@, perm@, input_shape@, zero)[e as int] == (if si < src@.len() {
                src@[si]
            } else {
                zero
            }));
            assert(v == spec_transpose(src@, perm@, input_shape@, zero)[e as int]);
            dst.push(v);
            e = e + 1;
        }
    }
    assert(dst@ =~= spec_transpose(src@, perm@, input_shape@, zero));
    (dst, out_shape)
}

/// The source offset that `spec_bidx` computes from position `x` (reduced to the dims from
/// `d`) over the strides of `s` is the digits of `x` in `s` weighted by `t`.
proof fn lemma_bidx_digits(x: int, s: Seq<usize>, t: Seq<usize>, d: int)
    requires
        0 <= x,
        0 <= d <= s.len(),
        t.len() == s.len(),
        0 < spec_prod(s) <= usize::MAX,
    ensures
        spec_bidx(x % (spec_prod(s.skip(d)) as int), d, s.len() as int, spec_stride_seq(s), t) == spec_wsum(
            spec_digits(x, s),
            Seq::new(s.len(), |k: int| t[k] as int),
            d,
        ),
    decreases s.len() - d,
{
    if d < s.len() {
        lemma_bidx_digits(x, s, t, d + 1);
        lemma_strides_positive(s, d);
        let st = spec_stride(s, d) as int;
        let sd = s[d] as int;
        assert(spec_stride_seq(s)[d] as int == st);
        assert(spec_prod(s.skip(d + 1)) == spec_stride(s, d));
        lemma_mod_breakdown(x, st, sd);
        assert(st * sd == sd * st) by (nonlinear_arith);
        let rem = x % (st * sd);
        lemma_fundamental_div_mod_converse(rem, st, (x / st) % sd, x % st);
        assert(spec_digits(x, s)[d] == (x / st) % sd);
        assert(((x / st) % sd) * (t[d] as int) == spec_digits(x, s)[d] * Seq::new(s.len(), |k: int| t[k] as int)[d]);
    }
}

/// Transposing by a permutation and then by its inverse gives back the data, and the
/// shape: the axes of `shape` permuted by `perm` and then by `inv` (the inverse
/// permutation) are `shape` again, with the same element count.
pub proof fn lemma_transpose_inverse<T>(src: Seq<T>, perm: Seq<u8>, inv: Seq<u8>, shape: Seq<usize>, zero: T)
    requires
        spec_inverse_perms(perm, inv, shape.len()),
        spec_prod(shape) == src.len(),
        src.len() <= usize::MAX,
    ensures
        spec_perm_shape(inv, spec_perm_shape(perm, shape)) == shape,
        spec_prod(spec_perm_shape(perm, shape)) == spec_prod(shape),
        spec_transpose(spec_transpose(src, perm, shape, zero), inv, spec_perm_shape(perm, shape), zero) == src,
{
    let r = shape.len();
    let ps = spec_perm_shape(perm, shape);
    let p = Seq::new(r, |d: int| perm[d] as int);
    let q = Seq::new(r, |i: int| inv[i] as int);
    assert(spec_inverse_int_perms(p, q, r));
    assert(spec_perm_shape(inv, ps) =~= shape);
    lemma_prod_permute(shape, p, q);
    assert(Seq::new(r, |d: int| shape[p[d]]) =~= ps);
    let n = src.len();
    let y = spec_transpose(src, perm, shape, zero);
    let z = spec_transpose(y, inv, ps, zero);
    if n > 0 {
        let s_int = spec_int_strides(shape);
        let p_int = spec_int_strides(ps);
        assert forall|e: int| 0 <= e < n implies z[e] == src[e] by {
            let a = spec_digits(e, shape);
            lemma_digits_in_range(e, shape);
            assert(shape.skip(0) =~= shape);
            assert(ps.skip(0) =~= ps);
            lemma_fundamental_div_mod_converse(e, n as int, 0, e);
            // Second transpose: the source of `e` in `y`.
            let t2 = spec_perm_strides(inv, ps);
            let t2_int = Seq::new(r, |k: int| t2[k] as int);
            lemma_bidx_digits(e, shape, t2, 0);
            let g = spec_wsum(a, t2_int, 0);
            assert(spec_transpose_source(e, inv, ps) == g);
            let b = Seq::new(r, |d: int| a[p[d]]);
            lemma_wsum_permute(a, t2_int, p, q);
            assert forall|d: int| 0 <= d < r implies #[trigger] t2_int[p[d]] == p_int[d] by {
                lemma_strides_positive(ps, inv[perm[d] as int] as int);
            }
            assert(Seq::new(r, |d: int| t2_int[p[d]]) =~= p_int);
            assert forall|d: int| 0 <= d < r implies 0 <= #[trigger] b[d] < ps[d] by {
                assert(0 <= a[perm[d] as int] < shape[perm[d] as int]);
            }
            lemma_compose_digits(b, ps);
            assert(0 <= g < n);
            // First transpose: the source of `g` in `src`.
            let t1 = spec_perm_strides(perm, shape);
            let t1_int = Seq::new(r, |k: int| t1[k] as int);
            lemma_fundamental_div_mod_converse(g, n as int, 0, g);
            lemma_bidx_digits(g, ps, t1, 0);
            assert(spec_transpose_source(g, perm, shape) == spec_wsum(b, t1_int, 0));
            lemma_wsum_permute(a, s_int, p, q);
            assert forall|d: int| 0 <= d < r implies #[trigger] s_int[p[d]] == t1_int[d] by {
                lemma_strides_positive(shape, perm[d] as int);
            }
            assert(Seq::new(r, |d: int| s_int[p[d]]) =~= t1_int);
            assert(spec_transpose_source(g, perm, shape) == e);
            assert(y[g] == src[e]);
        }
    }
    assert(z =~= src);
}

/// Transposing f32 bytes by a permutation and then by its inverse gives back the bytes:
/// neither transpose passes its input through unchanged, the second one gets back the
/// original shape, and its bytes are the input's.
pub proof fn lemma_transpose_bytes_inverse(input: Seq<u8>, perm: Seq<u8>, inv: Seq<u8>, shape: Seq<usize>)
    requires
        spec_inverse_perms(perm, inv, shape.len()),
        shape.len() > 0,
        input.len() == 4 * spec_prod(shape),
        input.len() <= usize::MAX,
    ensures
        ({
            let ps = spec_perm_shape(perm, shape);
            let y = spec_encode_u32s(spec_transpose(spec_decode_u32s(input), perm, shape, 0u32));
            &&& !spec_transpose_passthrough(input.len() / 4, perm, shape)
            &&& !spec_transpose_passthrough(y.len() / 4, inv, ps)
            &&& spec_perm_shape(inv, ps) == shape
            &&& spec_encode_u32s(spec_transpose(spec_decode_u32s(y), inv, ps, 0u32)) == input
        }),
{
    let words = spec_decode_u32s(input);
    let ps = spec_perm_shape(perm, shape);
    let t = spec_transpose(words, perm, shape, 0u32);
    let y = spec_encode_u32s(t);
    lemma_transpose_inverse(words, perm, inv, shape, 0u32);
    lemma_decode_encode_u32s(t);
    lemma_encode_decode_u32s(input);
    assert(y.len() / 4 == t.len()) by (nonlinear_arith) requires y.len() == 4 * t.len();
    assert(input.len() / 4 == spec_prod(shape)) by (nonlinear_arith) requires input.len() == 4 * spec_prod(shape);
    assert forall|d: int| 0 <= d < perm.len() implies !((perm[d] as int) >= shape.len()) by {}
    assert forall|d: int| 0 <= d < inv.len() implies !((inv[d] as int) >= ps.len()) by {}
}

/// Transpose: physically reorder f32 data (as little-endian 32-bit words) according to
/// `perm`. Returns `(permuted_bytes, output_shape)`; inputs that cannot be permuted are
/// passed through with their shape.
pub fn dispatch_transpose(input: &[u8], perm: &[u8], input_shape: &[usize]) -> (r: Result<
    (Vec<u8>, Vec<usize>),
    ExecError,
>)
    requires
        perm@.len() > 0 && input_shape@.len() > 0 && (forall|d: int|
            0 <= d < perm@.len() ==> (perm@[d] as int) < input_shape@.len()) ==> spec_strides_fit(input_shape@)
            && spec_strides_fit(spec_perm_shape(perm@, input_shape@)),
    ensures
        r matches Ok((bytes, shape)) && (if spec_transpose_passthrough(input@.len() / 4, perm@, input_shape@) {
            bytes@ == input@ && shape@ == input_shape@
        } else {
            bytes@ == spec_encode_u32s(spec_transpose(spec_decode_u32s(input@), perm@, input_shape@, 0u32))
                && shape@ == spec_perm_shape(perm@, input_shape@)
        }),
{
    let words = decode_u32s(input);
    let ndim = perm.len();
    if ndim == 0 || input_shape.len() == 0 {
        return Ok((slice_to_vec(input), slice_to_vec(input_shape)));
    }
    let mut d: usize = 0;
    while d < ndim
        invariant
            ndim == perm@.len(),
            d <= ndim,
            forall|t: int| 0 <= t < d ==> (perm@[t] as int) < input_shape@.len(),
        decreases ndim - d,
    {
        if perm[d] as usize >= input_shape.len() {
            return Ok((slice_to_vec(input), slice_to_vec(input_shape)));
        }
        d = d + 1;
    }
    let total = words.len();
    let elems_match = match shape_product(input_shape) {
        Some(p) => p == total,
        None => false,
    };
    if !elems_match {
        return Ok((slice_to_vec(input), slice_to_vec(input_shape)));
    }
    assert(!spec_transpose_passthrough(input@.len() / 4, perm@, input_shape@));
    let (dst, out_shape) = transpose_elements(words.as_slice(), perm, input_shape, 0u32);
    let in_len = input.len();
    proof {
        assert(4 * dst@.len() <= in_len);
    }
    Ok((encode_u32s(dst.as_slice()), out_shape))
}

/// Elements left unexplained after matching target dims `i..` against the source count
/// (dims are matched right to left; a dim is matched when it divides what is left).
pub open spec fn spec_bcast_remaining(n_src: nat, target: Seq<usize>, i: int) -> nat
    decreases target.len() - i,
{
    if i < 0 || i >= target.len() {
        n_src
    } else {
        let r = spec_bcast_remaining(n_src, target, i + 1);
        if r > 1 && target[i] > 0 && r % (target[i] as nat) == 0 {
            r / (target[i] as nat)
        } else {
            r
        }
    }
}

/// Source shape inferred by `broadcast_to`: each target dim is kept when it divides the
/// elements still unexplained by later dims, and is 1 (broadcast) otherwise.
pub open spec fn spec_bcast_src_shape(n_src: nat, target: Seq<usize>) -> Seq<usize> {
    Seq::new(
        target.len(),
        |i: int|
            {
                let r = spec_bcast_remaining(n_src, target, i + 1);
                if r > 1 && target[i] > 0 && r % (target[i] as nat) == 0 {
                    target[i]
                } else {
                    1usize
                }
            },
    )
}

/// Source position of output element `f` of `broadcast_to`.
pub open spec fn spec_bcast_source(f: int, n_src: nat, target: Seq<usize>) -> int {
    spec_bidx(
        f,
        0,
        target.len() as int,
        spec_stride_seq(target),
        spec_bstride_seq(spec_bcast_src_shape(n_src, target), target.len() as int),
    )
}

/// Result of `broadcast_to`: every target position reads its broadcast source position;
/// an empty source or an empty target gives `zero`s.
pub open spec fn spec_broadcast_to<T>(src: Seq<T>, n_src: nat, target: Seq<usize>, zero: T) -> Seq<T> {
    if src.len() == 0 || spec_prod(target) == 0 {
        Seq::new(spec_prod(target), |f: int| zero)
    } else {
        Seq::new(spec_prod(target), |f: int| src[spec_bcast_source(f, n_src, target)])
    }
}

/// The matched dims account for exactly the source count.
proof fn lemma_bcast_src_shape(n_src: nat, target: Seq<usize>, i: int)
    requires
        0 <= i <= target.len(),
    ensures
        spec_prod(spec_bcast_src_shape(n_src, target).skip(i)) * spec_bcast_remaining(n_src, target, i) == n_src,
    decreases target.len() - i,
{
    let ss = spec_bcast_src_shape(n_src, target);
    if i == target.len() {
        lemma_prod_skip_end(ss);
        assert(ss.len() == target.len());
    } else {
        lemma_bcast_src_shape(n_src, target, i + 1);
        lemma_prod_skip(ss, i);
        let r = spec_bcast_remaining(n_src, target, i + 1);
        let p = spec_prod(ss.skip(i + 1));
        if r > 1 && target[i] > 0 && r % (target[i] as nat) == 0 {
            let t = target[i] as nat;
            assert(ss[i] as nat == t);
            assert(spec_bcast_remaining(n_src, target, i) == r / t);
            let q = spec_prod(ss.skip(i));
            let ri = spec_bcast_remaining(n_src, target, i);
            assert(q * ri == n_src) by (nonlinear_arith)
                requires t > 0, r % t == 0, q == t * p, ri == r / t, p * r == n_src;
        } else {
            assert(ss[i] == 1);
            assert(spec_bcast_remaining(n_src, target, i) == r);
            let q = spec_prod(ss.skip(i));
            assert(q == p) by (nonlinear_arith) requires q == 1 * p;
        }
    }
}

/// Broadcast `src` to fill `target_shape` using numpy-style broadcasting, inferring the
/// source shape from `n_src` and `target_shape` (each source dim is either the target dim
/// or 1).
pub fn broadcast_to<T: Copy>(src: &[T], n_src: usize, target_shape: &[usize], zero: T) -> (out: Vec<T>)
    requires
        n_src <= src@.len(),
        spec_prod(target_shape@) <= usize::MAX,
    ensures
        out@ == spec_broadcast_to(src@, n_src as nat, target_shape@, zero),
{
    let target_elems = match shape_product(target_shape) {
        Some(p) => p,
        None => 0,
    };
    if src.len() == 0 || target_elems == 0 {
        let mut z: Vec<T> = Vec::with_capacity(target_elems);
        let mut k: usize = 0;
        while k < target_elems
            invariant
                k <= target_elems,
                z@.len() == k,
                forall|t: int| 0 <= t < k ==> #[trigger] z@[t] == zero,
            decreases target_elems - k,
        {
            z.push(zero);
            k = k + 1;
        }
        assert(z@ =~= spec_broadcast_to(src@, n_src as nat, target_shape@, zero));
        return z;
    }
    let ndim = target_shape.len();
    let ghost tgt = target_shape@;
    let ghost ss = spec_bcast_src_shape(n_src as nat, tgt);
    let mut src_shape: Vec<usize> = Vec::with_capacity(ndim);
    let mut k: usize = 0;
    while k < ndim
        invariant
            k <= ndim,
            src_shape@.len() == k,
            forall|t: int| 0 <= t < k ==> #[trigger] src_shape@[t] == 1,
        decreases ndim - k,
    {
        src_shape.push(1);
        k = k + 1;
    }
    let mut remaining = n_src;
    let mut i = ndim;
    while i > 0
        invariant
            ndim == tgt.len(),
            tgt == target_shape@,
            ss == spec_bcast_src_shape(n_src as nat, tgt),
            i <= ndim,
            src_shape@.len() == ndim,
            remaining as nat == spec_bcast_remaining(n_src as nat, tgt, i as int),
            forall|t: int| 0 <= t < i ==> #[trigger] src_shape@[t] == 1,
            forall|t: int| i <= t < ndim ==> #[trigger] src_shape@[t] == ss[t],
        decreases i,
    {
        let d = target_shape[i - 1];
        if remaining > 1 && d > 0 && remaining % d == 0 {
            src_shape.set(i - 1, d);
            remaining = remaining / d;
        }
        i = i - 1;
    }
    assert(src_shape@ =~= ss);
    proof {
        lemma_bcast_src_shape(n_src as nat, tgt, 0);
        assert(ss.skip(0) =~= ss);
        assert(tgt.skip(0) =~= tgt);
        assert forall|j: int| 0 <= j < ss.len() implies #[trigger] ss[j] > 0 by {}
        assert forall|j: int| 0 <= j < ss.len() implies ss[j] != 0 by {}
        lemma_prod_zero_iff(ss);
        let r0 = spec_bcast_remaining(n_src as nat, tgt, 0);
        if r0 >= 1 {
            assert(spec_prod(ss) <= n_src) by (nonlinear_arith)
                requires spec_prod(ss) * r0 == n_src, r0 >= 1;
        } else {
            assert(r0 == 0);
            assert(n_src == 0) by (nonlinear_arith) requires spec_prod(ss) * r0 == n_src, r0 == 0;
            assert(spec_prod(ss) == 1) by {
                assert forall|j: int| 0 <= j < ss.len() implies #[trigger] ss[j] == 1 by {
                    let r = spec_bcast_remaining(n_src as nat, tgt, j + 1);
                    lemma_bcast_remaining_zero(n_src as nat, tgt, j + 1);
                }
                lemma_prod_all_ones(ss);
            }
        }
        lemma_strides_fit_from_prod(ss);
        lemma_prod_positive(tgt, 0);
        lemma_strides_fit_from_prod(tgt);
        assert(spec_broadcasts_into(ss, tgt));
    }
    let src_strides = compute_strides(src_shape.as_slice());
    let tgt_strides = compute_strides(target_shape);
    let mut bstrides: Vec<usize> = Vec::with_capacity(ndim);
    let mut d: usize = 0;
    while d < ndim
        invariant
            d <= ndim,
            ndim == tgt.len(),
            ss.len() == ndim,
            src_shape@ == ss,
            src_strides@.len() == ndim,
            forall|t: int| 0 <= t < ndim ==> #[trigger] src_strides@[t] == spec_stride(ss, t),
            bstrides@.len() == d,
            forall|t: int| 0 <= t < d ==> #[trigger] bstrides@[t] == spec_bstride_seq(ss, ndim as int)[t],
        decreases ndim - d,
    {
        if src_shape[d] == 1 {
            bstrides.push(0);
        } else {
            bstrides.push(src_strides[d]);
        }
        d = d + 1;
    }
    assert(bstrides@ =~= spec_bstride_seq(ss, ndim as int));
    assert(tgt_strides@ =~= spec_stride_seq(tgt));
    let mut out: Vec<T> = Vec::with_capacity(target_elems);
    let mut f: usize = 0;
    while f < target_elems
        invariant
            tgt == target_shape@,
            ndim == tgt.len(),
            target_elems == spec_prod(tgt),
            target_elems > 0,
            src@.len() > 0,
            n_src <= src@.len(),
            spec_prod(ss) <= (if n_src >= 1 { n_src as nat } else { 1 }),
            ss == spec_bcast_src_shape(n_src as nat, tgt),
            spec_broadcasts_into(ss, tgt),
            forall|j: int| 0 <= j < ss.len() ==> #[trigger] ss[j] > 0,
            spec_strides_fit(tgt),
            spec_strides_fit(ss),
            tgt.skip(0) == tgt,
            ss.skip(0) == ss,
            tgt_strides@ == spec_stride_seq(tgt),
            bstrides@ == spec_bstride_seq(ss, ndim as int),
            f <= target_elems,
            out@.len() == f,
            forall|t: int| 0 <= t < f ==> #[trigger] out@[t] == spec_broadcast_to(src@, n_src as nat, tgt, zero)[t],
        decreases target_elems - f,
    {
        proof {
            lemma_bidx_bound(ss, tgt, 0, f as int);
            lemma_prod_positive(tgt, 0);
            assert forall|t: int| 0 <= t < ndim implies #[trigger] tgt_strides@[t] > 0 by {
                lemma_prod_positive(tgt, t + 1);
            }
        }
        let si = broadcast_flat_index(f, target_shape, tgt_strides.as_slice(), bstrides.as_slice());
        out.push(src[si]);
        f = f + 1;
    }
    assert(out@ =~= spec_broadcast_to(src@, n_src as nat, target_shape@, zero));
    out
}

/// With nothing to explain, no target dim is matched.
proof fn lemma_bcast_remaining_zero(n_src: nat, target: Seq<usize>, i: int)
    requires
        n_src == 0,
        0 <= i <= target.len(),
    ensures
        spec_bcast_remaining(n_src, target, i) == 0,
    decreases target.len() - i,
{
    if i < target.len() {
        lemma_bcast_remaining_zero(n_src, target, i + 1);
    }
}

/// A shape of ones has product 1.
proof fn lemma_prod_all_ones(s: Seq<usize>)
    requires
        forall|j: int| 0 <= j < s.len() ==> #[trigger] s[j] == 1,
    ensures
        spec_prod(s) == 1,
    decreases s.len(),
{
    if s.len() > 0 {
        let t = s.drop_first();
        assert forall|j: int| 0 <= j < t.len() implies #[trigger] t[j] == 1 by {
            assert(t[j] == s[j + 1]);
        }
        lemma_prod_all_ones(t);
    }
}

/// A shape tensor's values are usable: at least one value, every value is a size or the
/// inference marker -1, and -1 occurs at most once.
pub open spec fn spec_shape_values_valid(vals: Seq<i64>) -> bool {
    &&& vals.len() > 0
    &&& forall|i: int| 0 <= i < vals.len() ==> -1 <= #[trigger] vals[i] <= usize::MAX
    &&& forall|i: int, j: int|
        0 <= i < vals.len() && 0 <= j < vals.len() && #[trigger] vals[i] == -1 && #[trigger] vals[j] == -1
            ==> i == j
}

/// The dims of a shape tensor with the inference marker counted as 1.
pub open spec fn spec_known_dims(vals: Seq<i64>) -> Seq<usize> {
    Seq::new(vals.len(), |i: int| if vals[i] == -1 { 1usize } else { vals[i] as usize })
}

/// Shape read from a shape tensor for a reshape of `n` elements: the listed sizes, with a
/// single -1 replaced by the size that makes the element count `n`; `None` when the values
/// are unusable or no such size exists.
pub open spec fn spec_parse_shape(vals: Seq<i64>, n: nat) -> Option<Seq<usize>> {
    if !spec_shape_values_valid(vals) {
        None
    } else if exists|i: int| 0 <= i < vals.len() && vals[i] == -1 {
        let known = spec_prod(spec_known_dims(vals));
        if known == 0 || n % known != 0 {
            None
        } else {
            Some(Seq::new(vals.len(), |i: int| if vals[i] == -1 { (n / known) as usize } else { vals[i] as usize }))
        }
    } else {
        Some(Seq::new(vals.len(), |i: int| vals[i] as usize))
    }
}

/// Parse the values of a shape tensor (little-endian i64) for a reshape of `n_elems` elements.
pub fn parse_shape_values(bytes: &[u8], n_elems: usize) -> (r: Option<Vec<usize>>)
    ensures
        r matches Some(v) ==> spec_parse_shape(spec_decode_i64s(bytes@), n_elems as nat) == Some(v@),
        r is None ==> spec_parse_shape(spec_decode_i64s(bytes@), n_elems as nat) is None,
{
    let vals = iter_i64(bytes);
    let ghost vs = vals@;
    let n = vals.len();
    if n == 0 {
        return None;
    }
    let mut dims: Vec<usize> = Vec::with_capacity(n);
    let mut infer_at: Option<usize> = None;
    let mut i: usize = 0;
    while i < n
        invariant
            vs == vals@,
            vs == spec_decode_i64s(bytes@),
            n == vs.len(),
            i <= n,
            dims@.len() == i,
            forall|t: int| 0 <= t < i ==> -1 <= #[trigger] vs[t] <= usize::MAX,
            forall|t: int| 0 <= t < i ==> #[trigger] dims@[t] == spec_known_dims(vs)[t],
            infer_at matches Some(j) ==> j < i && vs[j as int] == -1,
            infer_at is None ==> forall|t: int| 0 <= t < i ==> #[trigger] vs[t] != -1,
            forall|t: int| 0 <= t < i && #[trigger] vs[t] == -1 ==> infer_at == Some(t as usize),
        decreases n - i,
    {
        let v = vals[i];
        if v == -1 {
            if infer_at.is_some() {
                proof {
                    let j = infer_at->0;
                    assert(vs[j as int] == -1 && vs[i as int] == -1 && j != i);
                }
                return None;
            }
            infer_at = Some(i);
            dims.push(1);
        } else if v < 0 {
            assert(!(-1 <= vs[i as int]));
            return None;
        } else {
            let u = v as u64;
            if u > usize::MAX as u64 {
                assert(!(vs[i as int] <= usize::MAX));
                return None;
            }
            dims.push(u as usize);
        }
        i = i + 1;
    }
    assert(dims@ =~= spec_known_dims(vs));
    assert(spec_shape_values_valid(vs));
    match infer_at {
        None => {
            assert(!(exists|t: int| 0 <= t < vs.len() && vs[t] == -1));
            assert(dims@ =~= Seq::new(vs.len(), |t: int| vs[t] as usize));
            assert(spec_parse_shape(vs, n_elems as nat) == Some(Seq::new(vs.len(), |t: int| vs[t] as usize)));
            assert(spec_parse_shape(vs, n_elems as nat) == Some(dims@));
            Some(dims)
        },
        Some(j) => {
            assert(0 <= j < vs.len() && vs[j as int] == -1);
            assert(exists|t: int| 0 <= t < vs.len() && vs[t] == -1);
            let inferred = match shape_product(dims.as_slice()) {
                Some(known) => {
                    if known == 0 || n_elems % known != 0 {
                        assert(known as nat == spec_prod(spec_known_dims(vs)));
                        assert(spec_parse_shape(vs, n_elems as nat) is None);
                        return None;
                    }
                    n_elems / known
                },
                None => {
                    if n_elems != 0 {
                        assert(spec_prod(spec_known_dims(vs)) > usize::MAX);
                        let ghost kk = spec_prod(spec_known_dims(vs));
                        assert(n_elems as nat % kk == n_elems as nat) by (nonlinear_arith)
                            requires n_elems as nat <= usize::MAX, kk > usize::MAX;
                        assert(spec_parse_shape(vs, n_elems as nat) is None);
                        return None;
                    }
                    0
                },
            };
            dims.set(j, inferred);
            proof {
                let known = spec_prod(spec_known_dims(vs));
                if known > usize::MAX {
                    assert(n_elems as nat / known == 0) by (nonlinear_arith)
                        requires n_elems as nat == 0, known > 0;
                    assert(n_elems as nat % known == 0) by (nonlinear_arith)
                        requires n_elems as nat == 0, known > 0;
                }
            }
            let ghost target = Seq::new(
                vs.len(),
                |t: int| if vs[t] == -1 { (n_elems as nat / spec_prod(spec_known_dims(vs))) as usize } else { vs[t] as usize },
            );
            assert(dims@ =~= target);
            assert(spec_prod(spec_known_dims(vs)) != 0);
            assert(n_elems as nat % spec_prod(spec_known_dims(vs)) == 0);
            assert(spec_parse_shape(vs, n_elems as nat) == Some(target));
            Some(dims)
        },
    }
}

/// The shape that `dispatch_reshape_with_shape` reports for `n` f32 elements and an
/// optional shape tensor.
pub open spec fn spec_reshape_target(shape_tensor: Seq<u8>, n: nat) -> Seq<usize> {
    match spec_parse_shape(spec_decode_i64s(shape_tensor), n) {
        Some(s) => s,
        None => seq![n as usize],
    }
}

/// Reshape: data passes through and the shape is read from the shape tensor (`inputs[1]`).
/// A shape tensor that cannot be read, or whose shape does not hold exactly the data's
/// element count, gives the 1-D shape `[n]`; without a shape tensor the shape is also 1-D.
/// Returns `(data_bytes, new_shape)`.
pub fn dispatch_reshape_with_shape(inputs: &[&[u8]]) -> (r: Result<(Vec<u8>, Vec<usize>), ExecError>)
    requires
        inputs@.len() >= 1,
    ensures
        ({
            let data = inputs@[0]@;
            let n = data.len() / 4;
            r matches Ok((bytes, shape)) && bytes@ == data && if inputs@.len() >= 2 && inputs@[1]@.len() > 0
                && spec_prod(spec_reshape_target(inputs@[1]@, n)) == n {
                shape@ == spec_reshape_target(inputs@[1]@, n)
            } else {
                shape@ == seq![n as usize]
            }
        }),
{
    let data = slice_to_vec(inputs[0]);
    let n_elems = data.len() / 4;
    let mut one: Vec<usize> = Vec::new();
    one.push(n_elems);
    assert(one@ =~= seq![n_elems]);
    if inputs.len() >= 2 && inputs[1].len() > 0 {
        let shape = match parse_shape_values(inputs[1], n_elems) {
            Some(s) => s,
            None => {
                return Ok((data, one));
            },
        };
        assert(shape@ =~= spec_reshape_target(inputs@[1]@, n_elems as nat));
        match shape_product(shape.as_slice()) {
            Some(p) => if p == n_elems {
                Ok((data, shape))
            } else {
                Ok((data, one))
            },
            None => Ok((data, one)),
        }
    } else {
        Ok((data, one))
    }
}

/// Seq-first (`[seq, heads, dim]`) position of heads-first (`[heads, seq, dim]`) position `j`.
pub open spec fn spec_hf_to_sf(j: int, nh: int, seq: int, hd: int) -> int {
    spec_pos3((j / hd) % seq, j / (seq * hd), j % hd, nh, hd)
}

/// Heads-first position of seq-first position `i`.
pub open spec fn spec_sf_to_hf(i: int, nh: int, seq: int, hd: int) -> int {
    spec_pos3((i / hd) % nh, i / (nh * hd), i % hd, seq, hd)
}

/// Heads-first layout of seq-first data.
pub open spec fn spec_to_heads_first<T>(data: Seq<T>, nh: nat, seq: nat, hd: nat) -> Seq<T> {
    Seq::new(nh * seq * hd, |j: int| data[spec_hf_to_sf(j, nh as int, seq as int, hd as int)])
}

/// Seq-first layout of heads-first data.
pub open spec fn spec_to_seq_first<T>(data: Seq<T>, nh: nat, seq: nat, hd: nat) -> Seq<T> {
    Seq::new(nh * seq * hd, |i: int| data[spec_sf_to_hf(i, nh as int, seq as int, hd as int)])
}

/// The two layout maps are inverse bijections on `[0, nh * seq * hd)`.
pub proof fn lemma_layout_maps(nh: int, seq: int, hd: int, p: int)
    requires
        nh > 0,
        seq > 0,
        hd > 0,
        0 <= p < nh * seq * hd,
    ensures
        0 <= spec_hf_to_sf(p, nh, seq, hd) < nh * seq * hd,
        0 <= spec_sf_to_hf(p, nh, seq, hd) < nh * seq * hd,
        spec_sf_to_hf(spec_hf_to_sf(p, nh, seq, hd), nh, seq, hd) == p,
        spec_hf_to_sf(spec_sf_to_hf(p, nh, seq, hd), nh, seq, hd) == p,
{
    assert(nh * seq * hd == seq * nh * hd) by (nonlinear_arith);
    lemma_decompose3(p, nh, seq, hd);
    let h = p / (seq * hd);
    let s = (p / hd) % seq;
    let d = p % hd;
    lemma_compose3(s, h, d, seq, nh, hd);
    lemma_decompose3(p, seq, nh, hd);
    let s2 = p / (nh * hd);
    let h2 = (p / hd) % nh;
    let d2 = p % hd;
    lemma_compose3(h2, s2, d2, nh, seq, hd);
}

/// Source position for heads-first output position `j` (seq-first source), computed
/// without overflow.
fn hf_source(j: usize, n_heads: usize, seq: usize, head_dim: usize, s_hd: usize, total: usize) -> (src: usize)
    requires
        n_heads > 0,
        seq > 0,
        head_dim > 0,
        s_hd == seq * head_dim,
        total == n_heads * seq * head_dim,
        j < total,
    ensures
        src as int == spec_hf_to_sf(j as int, n_heads as int, seq as int, head_dim as int),
        src < total,
{
    proof {
        assert(s_hd > 0) by (nonlinear_arith) requires s_hd == seq * head_dim, seq > 0, head_dim > 0;
        lemma_layout_maps(n_heads as int, seq as int, head_dim as int, j as int);
        lemma_decompose3(j as int, n_heads as int, seq as int, head_dim as int);
    }
    let h = j / s_hd;
    let t = (j / head_dim) % seq;
    let d = j % head_dim;
    proof {
        let q = t * n_heads + h;
        assert(q * head_dim + d == spec_hf_to_sf(j as int, n_heads as int, seq as int, head_dim as int));
        assert(t * n_heads <= q);
        assert(q <= q * head_dim) by (nonlinear_arith) requires head_dim >= 1, q >= 0;
    }
    (t * n_heads + h) * head_dim + d
}

/// Source position for seq-first output position `i` (heads-first source), computed
/// without overflow.
fn sf_source(i: usize, n_heads: usize, seq: usize, head_dim: usize, nh_hd: usize, total: usize) -> (src: usize)
    requires
        n_heads > 0,
        seq > 0,
        head_dim > 0,
        nh_hd == n_heads * head_dim,
        total == n_heads * seq * head_dim,
        i < total,
    ensures
        src as int == spec_sf_to_hf(i as int, n_heads as int, seq as int, head_dim as int),
        src < total,
{
    proof {
        assert(nh_hd > 0) by (nonlinear_arith) requires nh_hd == n_heads * head_dim, n_heads > 0, head_dim > 0;
        assert(n_heads * seq * head_dim == seq * n_heads * head_dim) by (nonlinear_arith);
        lemma_layout_maps(n_heads as int, seq as int, head_dim as int, i as int);
        lemma_decompose3(i as int, seq as int, n_heads as int, head_dim as int);
    }
    let s = i / nh_hd;
    let h = (i / head_dim) % n_heads;
    let d = i % head_dim;
    proof {
        let q = h * seq + s;
        assert(q * head_dim + d == spec_sf_to_hf(i as int, n_heads as int, seq as int, head_dim as int));
        assert(h * seq <= q);
        assert(q <= q * head_dim) by (nonlinear_arith) requires head_dim >= 1, q >= 0;
    }
    (h * seq + s) * head_dim + d
}

/// Transpose from `[seq, n_heads, head_dim]` to `[n_heads, seq, head_dim]`.
pub fn transpose_heads<T: Copy>(data: &[T], seq: usize, n_heads: usize, head_dim: usize) -> (out: Vec<T>)
    requires
        data@.len() == seq * n_heads * head_dim,
    ensures
        out@ == spec_to_heads_first(data@, n_heads as nat, seq as nat, head_dim as nat),
{
    let total = data.len();
    proof {
        assert(seq * n_heads * head_dim == n_heads * seq * head_dim) by (nonlinear_arith);
    }
    let mut out: Vec<T> = Vec::with_capacity(total);
    if total == 0 {
        assert(out@ =~= spec_to_heads_first(data@, n_heads as nat, seq as nat, head_dim as nat));
        return out;
    }
    proof {
        assert(n_heads > 0 && seq > 0 && head_dim > 0) by (nonlinear_arith)
            requires total == n_heads * seq * head_dim, total > 0;
        assert(seq * head_dim <= total) by (nonlinear_arith)
            requires total == n_heads * seq * head_dim, n_heads > 0;
    }
    let s_hd = seq * head_dim;
    let mut j: usize = 0;
    while j < total
        invariant
            total == data@.len(),
            total == n_heads * seq * head_dim,
            n_heads > 0,
            seq > 0,
            head_dim > 0,
            s_hd == seq * head_dim,
            j <= total,
            out@.len() == j,
            forall|t: int| 0 <= t < j ==> #[trigger] out@[t] == spec_to_heads_first(data@, n_heads as nat, seq as nat, head_dim as nat)[t],
        decreases total - j,
    {
        let src = hf_source(j, n_heads, seq, head_dim, s_hd, total);
        out.push(data[src]);
        j = j + 1;
    }
    assert(out@ =~= spec_to_heads_first(data@, n_heads as nat, seq as nat, head_dim as nat));
    out
}

/// Transpose KV data from heads-first `[heads, seq, dim]` to seq-first `[seq, heads, dim]`.
/// Data shorter than the layout, or a zero dimension, is returned unchanged.
pub fn transpose_heads_to_seq_first<T: Copy>(data: &[T], n_heads: usize, seq: usize, head_dim: usize) -> (out: Vec<T>)
    requires
        n_heads * seq <= usize::MAX,
        n_heads * seq * head_dim <= usize::MAX,
    ensures
        out@ == (if data@.len() < n_heads * seq * head_dim || seq == 0 || n_heads == 0 || head_dim == 0 {
            data@
        } else {
            spec_to_seq_first(data@, n_heads as nat, seq as nat, head_dim as nat)
        }),
{
    let total = n_heads * seq * head_dim;
    if data.len() < total || seq == 0 || n_heads == 0 || head_dim == 0 {
        return slice_to_vec(data);
    }
    proof {
        assert(n_heads * head_dim <= total) by (nonlinear_arith)
            requires total == n_heads * seq * head_dim, seq > 0, n_heads >= 0, head_dim >= 0;
    }
    let nh_hd = n_heads * head_dim;
    let mut out: Vec<T> = Vec::with_capacity(total);
    let mut i: usize = 0;
    while i < total
        invariant
            total == n_heads * seq * head_dim,
            total <= data@.len(),
            n_heads > 0,
            seq > 0,
            head_dim > 0,
            nh_hd == n_heads * head_dim,
            i <= total,
            out@.len() == i,
            forall|t: int| 0 <= t < i ==> #[trigger] out@[t] == spec_to_seq_first(data@, n_heads as nat, seq as nat, head_dim as nat)[t],
        decreases total - i,
    {
        let src = sf_source(i, n_heads, seq, head_dim, nh_hd, total);
        out.push(data[src]);
        i = i + 1;
    }
    assert(out@ =~= spec_to_seq_first(data@, n_heads as nat, seq as nat, head_dim as nat));
    out
}

/// Transpose KV data from seq-first `[seq, heads, dim]` to heads-first `[heads, seq, dim]`.
/// Data shorter than the layout, or a zero dimension, is returned unchanged.
pub fn transpose_seq_first_to_heads<T: Copy>(data: &[T], n_heads: usize, seq: usize, head_dim: usize) -> (out: Vec<T>)
    requires
        n_heads * seq <= usize::MAX,
        n_heads * seq * head_dim <= usize::MAX,
    ensures
        out@ == (if data@.len() < n_heads * seq * head_dim || seq == 0 || n_heads == 0 || head_dim == 0 {
            data@
        } else {
            spec_to_heads_first(data@, n_heads as nat, seq as nat, head_dim as nat)
        }),
{
    let total = n_heads * seq * head_dim;
    if data.len() < total || seq == 0 || n_heads == 0 || head_dim == 0 {
        return slice_to_vec(data);
    }
    proof {
        assert(seq * head_dim <= total) by (nonlinear_arith)
            requires total == n_heads * seq * head_dim, n_heads > 0, seq >= 0, head_dim >= 0;
    }
    let s_hd = seq * head_dim;
    let mut out: Vec<T> = Vec::with_capacity(total);
    let mut j: usize = 0;
    while j < total
        invariant
            total == n_heads * seq * head_dim,
            total <= data@.len(),
            n_heads > 0,
            seq > 0,
            head_dim > 0,
            s_hd == seq * head_dim,
            j <= total,
            out@.len() == j,
            forall|t: int| 0 <= t < j ==> #[trigger] out@[t] == spec_to_heads_first(data@, n_heads as nat, seq as nat, head_dim as nat)[t],
        decreases total - j,
    {
        let src = hf_source(j, n_heads, seq, head_dim, s_hd, total);
        out.push(data[src]);
        j = j + 1;
    }
    assert(out@ =~= spec_to_heads_first(data@, n_heads as nat, seq as nat, head_dim as nat));
    out
}

/// Converting KV data between the heads-first and the seq-first layouts and back
/// restores it exactly, in either order.
pub proof fn lemma_kv_layout_roundtrip<T>(x: Seq<T>, nh: nat, seq: nat, hd: nat)
    requires
        nh > 0,
        seq > 0,
        hd > 0,
        x.len() == nh * seq * hd,
    ensures
        spec_to_heads_first(spec_to_seq_first(x, nh, seq, hd), nh, seq, hd) == x,
        spec_to_seq_first(spec_to_heads_first(x, nh, seq, hd), nh, seq, hd) == x,
{
    let a = spec_to_heads_first(spec_to_seq_first(x, nh, seq, hd), nh, seq, hd);
    let b = spec_to_seq_first(spec_to_heads_first(x, nh, seq, hd), nh, seq, hd);
    assert forall|p: int| 0 <= p < x.len() implies #[trigger] a[p] == x[p] by {
        lemma_layout_maps(nh as int, seq as int, hd as int, p);
        lemma_layout_maps(nh as int, seq as int, hd as int, spec_hf_to_sf(p, nh as int, seq as int, hd as int));
    }
    assert forall|p: int| 0 <= p < x.len() implies #[trigger] b[p] == x[p] by {
        lemma_layout_maps(nh as int, seq as int, hd as int, p);
        lemma_layout_maps(nh as int, seq as int, hd as int, spec_sf_to_hf(p, nh as int, seq as int, hd as int));
    }
    assert(a =~= x);
    assert(b =~= x);
}

} // verus!
