//! Masked selection kernels on f32 tensors held as little-endian 32-bit words: `Where`,
//! `Compress`, `NonZero` and a flat `ScatterND`. No kernel here looks at a value other
//! than to test it for zero, so every f32 is moved bit for bit.
use vstd::prelude::*;
use crate::bytes::{
    decode_u32s, encode_u32s, indices_to_bytes, iter_i64, spec_decode_i64s, spec_decode_u32s,
    spec_encode_i64s, spec_encode_u32s,
};
use crate::error::ExecError;
use crate::tensor_ops::{spec_f32_bits_nonzero, spec_to_bools, to_bools};

verus! {

/// The largest of three lengths.
pub open spec fn spec_max3(a: nat, b: nat, c: nat) -> nat {
    let ab = if a >= b { a } else { b };
    if ab >= c { ab } else { c }
}

/// Element-wise `cond ? x : y`, each operand cycled to the longest length.
pub open spec fn spec_where(cond: Seq<u8>, x: Seq<u32>, y: Seq<u32>) -> Seq<u32> {
    Seq::new(
        spec_max3(cond.len(), x.len(), y.len()),
        |i: int| if cond[i % cond.len() as int] != 0 { x[i % x.len() as int] } else { y[i % y.len() as int] },
    )
}

/// `s` repeated to length `n`.
pub open spec fn spec_cycle<T>(s: Seq<T>, n: nat) -> Seq<T> {
    Seq::new(n, |i: int| s[i % s.len() as int])
}

/// The condition with every nonzero entry made 0 and every 0 made 1.
pub open spec fn spec_negate(cond: Seq<u8>) -> Seq<u8> {
    Seq::new(cond.len(), |i: int| if cond[i] != 0 { 0u8 } else { 1u8 })
}

/// A condition that holds everywhere selects the first branch, cycled to the output
/// length (so a one-element true condition returns `x` repeated).
pub proof fn lemma_where_all_true(cond: Seq<u8>, x: Seq<u32>, y: Seq<u32>)
    requires
        cond.len() > 0,
        x.len() > 0,
        y.len() > 0,
        forall|i: int| 0 <= i < cond.len() ==> #[trigger] cond[i] != 0,
    ensures
        spec_where(cond, x, y) == spec_cycle(x, spec_max3(cond.len(), x.len(), y.len())),
{
    let n = spec_max3(cond.len(), x.len(), y.len());
    assert forall|i: int| 0 <= i < n implies #[trigger] spec_where(cond, x, y)[i] == spec_cycle(x, n)[i] by {
        assert(0 <= i % (cond.len() as int) < cond.len());
    }
    assert(spec_where(cond, x, y) =~= spec_cycle(x, n));
}

/// A condition that holds nowhere selects the second branch, cycled to the output length.
pub proof fn lemma_where_all_false(cond: Seq<u8>, x: Seq<u32>, y: Seq<u32>)
    requires
        cond.len() > 0,
        x.len() > 0,
        y.len() > 0,
        forall|i: int| 0 <= i < cond.len() ==> #[trigger] cond[i] == 0,
    ensures
        spec_where(cond, x, y) == spec_cycle(y, spec_max3(cond.len(), x.len(), y.len())),
{
    let n = spec_max3(cond.len(), x.len(), y.len());
    assert forall|i: int| 0 <= i < n implies #[trigger] spec_where(cond, x, y)[i] == spec_cycle(y, n)[i] by {
        assert(0 <= i % (cond.len() as int) < cond.len());
    }
    assert(spec_where(cond, x, y) =~= spec_cycle(y, n));
}

/// Negating the condition and swapping the branches gives the same selection, at every
/// output position (the condition is cycled like the branches).
pub proof fn lemma_where_negate_swap(cond: Seq<u8>, x: Seq<u32>, y: Seq<u32>)
    requires
        cond.len() > 0,
        x.len() > 0,
        y.len() > 0,
    ensures
        spec_where(spec_negate(cond), y, x) == spec_where(cond, x, y),
{
    let n = spec_max3(cond.len(), x.len(), y.len());
    assert forall|i: int| 0 <= i < n implies #[trigger] spec_where(spec_negate(cond), y, x)[i] == spec_where(cond, x, y)[i] by {
        assert(0 <= i % (cond.len() as int) < cond.len());
    }
    assert(spec_where(spec_negate(cond), y, x) =~= spec_where(cond, x, y));
}

/// Inputs on which cycling is defined: all three operands empty, or none of them.
pub open spec fn spec_where_operands_ok(cond_len: nat, x: Seq<u8>, y: Seq<u8>) -> bool {
    (cond_len == 0 && x.len() / 4 == 0 && y.len() / 4 == 0) || (cond_len > 0 && x.len() / 4 > 0 && y.len() / 4 > 0)
}

/// `cond[i] ? x[i] : y[i]` over per-element booleans `cond` and the f32 words of `x` and `y`.
pub fn where_select(cond: &[u8], x: &[u8], y: &[u8]) -> (out: Vec<u8>)
    requires
        spec_where_operands_ok(cond@.len(), x@, y@),
        4 * cond@.len() <= usize::MAX,
    ensures
        out@ == spec_encode_u32s(spec_where(cond@, spec_decode_u32s(x@), spec_decode_u32s(y@))),
{
    let xw = decode_u32s(x);
    let yw = decode_u32s(y);
    let cl = cond.len();
    let xl = xw.len();
    let yl = yw.len();
    let ab = if cl >= xl { cl } else { xl };
    let n = if ab >= yl { ab } else { yl };
    let ghost g = spec_where(cond@, xw@, yw@);
    let mut words: Vec<u32> = Vec::with_capacity(n);
    let mut i: usize = 0;
    while i < n
        invariant
            xw@ == spec_decode_u32s(x@),
            yw@ == spec_decode_u32s(y@),
            cl == cond@.len(),
            xl == xw@.len(),
            yl == yw@.len(),
            n == spec_max3(cl as nat, xl as nat, yl as nat),
            n > 0 ==> cl > 0 && xl > 0 && yl > 0,
            g == spec_where(cond@, xw@, yw@),
            i <= n,
            words@.len() == i,
            forall|t: int| 0 <= t < i ==> #[trigger] words@[t] == g[t],
        decreases n - i,
    {
        let w = if cond[i % cl] != 0 { xw[i % xl] } else { yw[i % yl] };
        words.push(w);
        i = i + 1;
    }
    assert(words@ =~= g);
    let xb = x.len();
    let yb = y.len();
    assert(4 * n <= usize::MAX) by {
        assert(4 * xl <= xb);
        assert(4 * yl <= yb);
    }
    encode_u32s(words.as_slice())
}

/// `Where`: `inputs[0]` is the condition (a byte mask or f32 booleans, see `to_bools`),
/// `inputs[1]` and `inputs[2]` the f32 branches; operands are cycled to the longest.
/// Which reading of the condition applies depends on its alignment, so the result is the
/// selection under one of the two readings.
pub fn dispatch_where(inputs: &[&[u8]]) -> (r: Result<Vec<u8>, ExecError>)
    requires
        inputs@.len() >= 3,
        spec_where_operands_ok(inputs@[0]@.len(), inputs@[1]@, inputs@[2]@),
        4 * inputs@[0]@.len() <= usize::MAX,
    ensures
        r matches Ok(out) && exists|f32_view: bool| out@ == spec_encode_u32s(
            spec_where(spec_to_bools(inputs@[0]@, f32_view), spec_decode_u32s(inputs@[1]@), spec_decode_u32s(inputs@[2]@)),
        ),
{
    let cond = to_bools(inputs[0]);
    let ghost c0 = inputs@[0]@;
    assert(cond@.len() <= c0.len()) by {
        assert(spec_to_bools(c0, true).len() <= c0.len());
        assert(spec_to_bools(c0, false).len() <= c0.len());
    }
    let out = where_select(cond.as_slice(), inputs[1], inputs[2]);
    proof {
        if cond@ == spec_to_bools(c0, true) {
            assert(out@ == spec_encode_u32s(
                spec_where(spec_to_bools(c0, true), spec_decode_u32s(inputs@[1]@), spec_decode_u32s(inputs@[2]@)),
            ));
        } else {
            assert(out@ == spec_encode_u32s(
                spec_where(spec_to_bools(c0, false), spec_decode_u32s(inputs@[1]@), spec_decode_u32s(inputs@[2]@)),
            ));
        }
    }
    Ok(out)
}

/// The elements of `data` whose position holds a nonzero condition (positions past the
/// end of `cond` count as false), in order.
pub open spec fn spec_compress(data: Seq<u32>, cond: Seq<u8>) -> Seq<u32>
    decreases data.len(),
{
    if data.len() == 0 {
        Seq::empty()
    } else {
        let prev = spec_compress(data.drop_last(), cond);
        let i = data.len() - 1;
        if i < cond.len() && cond[i] != 0 {
            prev.push(data.last())
        } else {
            prev
        }
    }
}

/// A compressed sequence is never longer than its input.
pub proof fn lemma_compress_len(data: Seq<u32>, cond: Seq<u8>)
    ensures
        spec_compress(data, cond).len() <= data.len(),
    decreases data.len(),
{
    if data.len() > 0 {
        lemma_compress_len(data.drop_last(), cond);
    }
}

/// A condition that holds at every position of the data keeps all of it, in order.
pub proof fn lemma_compress_all_true(data: Seq<u32>, cond: Seq<u8>)
    requires
        cond.len() >= data.len(),
        forall|i: int| 0 <= i < data.len() ==> #[trigger] cond[i] != 0,
    ensures
        spec_compress(data, cond) == data,
    decreases data.len(),
{
    if data.len() > 0 {
        lemma_compress_all_true(data.drop_last(), cond);
        assert(data.drop_last().push(data.last()) =~= data);
    }
}

/// A condition that holds at no position of the data (or is too short to reach it)
/// keeps nothing.
pub proof fn lemma_compress_none_true(data: Seq<u32>, cond: Seq<u8>)
    requires
        forall|i: int| 0 <= i < data.len() && i < cond.len() ==> #[trigger] cond[i] == 0,
    ensures
        spec_compress(data, cond).len() == 0,
    decreases data.len(),
{
    if data.len() > 0 {
        lemma_compress_none_true(data.drop_last(), cond);
    }
}

/// Every kept element is an element of the data at a position where the condition
/// holds, and kept elements keep their order: the `j`-th kept element comes from a
/// position after that of the `j - 1`-th.
pub proof fn lemma_compress_members(data: Seq<u32>, cond: Seq<u8>, j: int)
    requires
        0 <= j < spec_compress(data, cond).len(),
    ensures
        exists|i: int|
            0 <= i < data.len() && i < cond.len() && #[trigger] cond[i] != 0 && data[i] == spec_compress(data, cond)[j]
                && spec_compress(data.take(i), cond).len() == j,
    decreases data.len(),
{
    let prev = spec_compress(data.drop_last(), cond);
    lemma_compress_len(data.drop_last(), cond);
    let last = data.len() - 1;
    if j < prev.len() {
        lemma_compress_members(data.drop_last(), cond, j);
        let i = choose|i: int|
            0 <= i < data.drop_last().len() && i < cond.len() && #[trigger] cond[i] != 0 && data.drop_last()[i] == prev[j]
                && spec_compress(data.drop_last().take(i), cond).len() == j;
        assert(data.drop_last().take(i) =~= data.take(i));
        assert(spec_compress(data, cond)[j] == prev[j]);
        assert(cond[i] != 0);
    } else {
        assert(last < cond.len() && cond[last] != 0);
        assert(data.take(last) =~= data.drop_last());
        assert(cond[last] != 0);
    }
}

/// Keep the f32 words of `data` whose position holds a nonzero boolean in `cond`.
pub fn compress_select(data: &[u8], cond: &[u8]) -> (out: Vec<u8>)
    ensures
        out@ == spec_encode_u32s(spec_compress(spec_decode_u32s(data@), cond@)),
{
    let words = decode_u32s(data);
    let n = words.len();
    let mut kept: Vec<u32> = Vec::new();
    let mut k: usize = 0;
    while k < n
        invariant
            words@ == spec_decode_u32s(data@),
            n == words@.len(),
            k <= n,
            kept@ == spec_compress(words@.take(k as int), cond@),
        decreases n - k,
    {
        assert(words@.take(k + 1).drop_last() =~= words@.take(k as int));
        if k < cond.len() && cond[k] != 0 {
            kept.push(words[k]);
        }
        k = k + 1;
    }
    assert(words@.take(n as int) =~= words@);
    let db = data.len();
    proof {
        lemma_compress_len(words@, cond@);
        assert(4 * n <= db);
    }
    encode_u32s(kept.as_slice())
}

/// `Compress`: keep the f32 elements of `inputs[0]` selected by the boolean mask
/// `inputs[1]` (read as by `to_bools`, so under one of its two readings).
pub fn dispatch_compress(inputs: &[&[u8]], axis: usize) -> (r: Result<Vec<u8>, ExecError>)
    requires
        inputs@.len() >= 2,
    ensures
        r matches Ok(out) && exists|f32_view: bool| out@ == spec_encode_u32s(
            spec_compress(spec_decode_u32s(inputs@[0]@), spec_to_bools(inputs@[1]@, f32_view)),
        ),
{
    let cond = to_bools(inputs[1]);
    let out = compress_select(inputs[0], cond.as_slice());
    proof {
        let d = spec_decode_u32s(inputs@[0]@);
        if cond@ == spec_to_bools(inputs@[1]@, true) {
            assert(out@ == spec_encode_u32s(spec_compress(d, spec_to_bools(inputs@[1]@, true))));
        } else {
            assert(out@ == spec_encode_u32s(spec_compress(d, spec_to_bools(inputs@[1]@, false))));
        }
    }
    Ok(out)
}

/// Positions of the nonzero f32 words, in increasing order.
pub open spec fn spec_nonzero(words: Seq<u32>) -> Seq<i64>
    decreases words.len(),
{
    if words.len() == 0 {
        Seq::empty()
    } else {
        let prev = spec_nonzero(words.drop_last());
        if spec_f32_bits_nonzero(words.last()) {
            prev.push((words.len() - 1) as i64)
        } else {
            prev
        }
    }
}

/// There are never more nonzero positions than words.
pub proof fn lemma_nonzero_len(words: Seq<u32>)
    ensures
        spec_nonzero(words).len() <= words.len(),
    decreases words.len(),
{
    if words.len() > 0 {
        lemma_nonzero_len(words.drop_last());
    }
}

/// The positions listed by `NonZero` are exactly the positions of the nonzero words: each
/// listed position is in range and holds a nonzero word, positions are listed in strictly
/// increasing order, and every nonzero word's position is listed.
pub proof fn lemma_nonzero_positions(words: Seq<u32>)
    requires
        words.len() <= i64::MAX,
    ensures
        forall|j: int| 0 <= j < spec_nonzero(words).len() ==> {
            let p = #[trigger] spec_nonzero(words)[j];
            0 <= p < words.len() && spec_f32_bits_nonzero(words[p as int])
        },
        forall|j: int, k: int| 0 <= j < k < spec_nonzero(words).len() ==> #[trigger] spec_nonzero(words)[j] < #[trigger] spec_nonzero(words)[k],
        forall|p: int| 0 <= p < words.len() && #[trigger] spec_f32_bits_nonzero(words[p]) ==> spec_nonzero(words).contains(p as i64),
    decreases words.len(),
{
    if words.len() > 0 {
        let w = words.drop_last();
        lemma_nonzero_positions(w);
        lemma_nonzero_len(w);
        let prev = spec_nonzero(w);
        let res = spec_nonzero(words);
        let last = words.len() - 1;
        assert forall|j: int| 0 <= j < res.len() implies {
            let p = #[trigger] res[j];
            0 <= p < words.len() && spec_f32_bits_nonzero(words[p as int])
        } by {
            if j < prev.len() {
                assert(res[j] == prev[j]);
                assert(words[prev[j] as int] == w[prev[j] as int]);
            }
        }
        assert forall|j: int, k: int| 0 <= j < k < res.len() implies #[trigger] res[j] < #[trigger] res[k] by {
            if k < prev.len() {
                assert(res[j] == prev[j] && res[k] == prev[k]);
            } else {
                assert(res[j] == prev[j]);
                assert(res[k] == last as i64);
            }
        }
        assert forall|p: int| 0 <= p < words.len() && #[trigger] spec_f32_bits_nonzero(words[p]) implies res.contains(
            p as i64,
        ) by {
            if p < last {
                assert(w[p] == words[p]);
                assert(spec_f32_bits_nonzero(w[p]));
                let j = choose|j: int| 0 <= j < prev.len() && prev[j] == p as i64;
                assert(res[j] == prev[j]);
            } else {
                assert(res[res.len() - 1] == last as i64);
            }
        }
    }
}

/// `NonZero`: the positions of the nonzero f32 elements of `inputs[0]`, as little-endian
/// i64 values.
pub fn dispatch_nonzero(inputs: &[&[u8]]) -> (r: Result<Vec<u8>, ExecError>)
    requires
        inputs@.len() >= 1,
        2 * inputs@[0]@.len() <= usize::MAX,
    ensures
        r matches Ok(out) && out@ == spec_encode_i64s(spec_nonzero(spec_decode_u32s(inputs@[0]@))),
{
    let words = decode_u32s(inputs[0]);
    let n = words.len();
    let nb = inputs[0].len();
    assert(8 * n <= usize::MAX) by {
        assert(4 * n <= nb);
    }
    let mut idx: Vec<i64> = Vec::new();
    let mut k: usize = 0;
    while k < n
        invariant
            n == words@.len(),
            8 * n <= usize::MAX,
            k <= n,
            idx@ == spec_nonzero(words@.take(k as int)),
        decreases n - k,
    {
        assert(words@.take(k + 1).drop_last() =~= words@.take(k as int));
        if words[k] & 0x7fff_ffffu32 != 0 {
            assert(k < i64::MAX);
            idx.push(k as i64);
        }
        k = k + 1;
    }
    assert(words@.take(n as int) =~= words@);
    proof {
        lemma_nonzero_len(words@);
    }
    Ok(indices_to_bytes(idx.as_slice()))
}

/// Flat scatter: for each index in turn, the word at that position becomes the matching
/// update; indices at or past the end, and indices without an update, are skipped.
pub open spec fn spec_scatter(data: Seq<u32>, ids: Seq<usize>, updates: Seq<u32>) -> Seq<u32>
    decreases ids.len(),
{
    if ids.len() == 0 {
        data
    } else {
        let prev = spec_scatter(data, ids.drop_last(), updates);
        let i = ids.len() - 1;
        if ids.last() < prev.len() && i < updates.len() {
            prev.update(ids.last() as int, updates[i])
        } else {
            prev
        }
    }
}

/// Scattering never changes the length.
pub proof fn lemma_scatter_len(data: Seq<u32>, ids: Seq<usize>, updates: Seq<u32>)
    ensures
        spec_scatter(data, ids, updates).len() == data.len(),
    decreases ids.len(),
{
    if ids.len() > 0 {
        lemma_scatter_len(data, ids.drop_last(), updates);
    }
}

/// A position that no index with an update names keeps its original word.
pub proof fn lemma_scatter_untouched(data: Seq<u32>, ids: Seq<usize>, updates: Seq<u32>, p: int)
    requires
        0 <= p < data.len(),
        forall|k: int| 0 <= k < ids.len() && k < updates.len() ==> #[trigger] ids[k] != p,
    ensures
        spec_scatter(data, ids, updates)[p] == data[p],
    decreases ids.len(),
{
    if ids.len() > 0 {
        let prefix = ids.drop_last();
        assert forall|k: int| 0 <= k < prefix.len() && k < updates.len() implies #[trigger] prefix[k] != p by {
            assert(prefix[k] == ids[k]);
        }
        lemma_scatter_untouched(data, prefix, updates, p);
        lemma_scatter_len(data, prefix, updates);
    }
}

/// The last write wins: a position named by index `k` (with an update, and in range)
/// and by no later index with an update ends up holding `updates[k]`.
pub proof fn lemma_scatter_last_write(data: Seq<u32>, ids: Seq<usize>, updates: Seq<u32>, k: int)
    requires
        0 <= k < ids.len(),
        k < updates.len(),
        ids[k] < data.len(),
        forall|k2: int| k < k2 < ids.len() && k2 < updates.len() ==> #[trigger] ids[k2] != ids[k],
    ensures
        spec_scatter(data, ids, updates)[ids[k] as int] == updates[k],
    decreases ids.len(),
{
    let prefix = ids.drop_last();
    lemma_scatter_len(data, prefix, updates);
    if k < ids.len() - 1 {
        assert forall|k2: int| k < k2 < prefix.len() && k2 < updates.len() implies #[trigger] prefix[k2] != prefix[k] by {
            assert(prefix[k2] == ids[k2]);
        }
        lemma_scatter_last_write(data, prefix, updates, k);
        assert(prefix[k] == ids[k]);
    }
}

/// `ScatterND` on the flat tensor: `inputs[0]` is the f32 data, `inputs[1]` little-endian
/// i64 positions, `inputs[2]` the f32 updates.
pub fn dispatch_scatter_nd(inputs: &[&[u8]]) -> (r: Result<Vec<u8>, ExecError>)
    requires
        inputs@.len() >= 3,
    ensures
        r matches Ok(out) && out@ == spec_encode_u32s(spec_scatter(
            spec_decode_u32s(inputs@[0]@),
            spec_decode_i64s(inputs@[1]@).map_values(|v: i64| v as usize),
            spec_decode_u32s(inputs@[2]@),
        )),
{
    let mut out = decode_u32s(inputs[0]);
    let raw = iter_i64(inputs[1]);
    let upd = decode_u32s(inputs[2]);
    let ghost data = out@;
    let ghost ids = raw@.map_values(|v: i64| v as usize);
    let n = raw.len();
    let mut k: usize = 0;
    while k < n
        invariant
            inputs@.len() >= 3,
            data == spec_decode_u32s(inputs@[0]@),
            raw@ == spec_decode_i64s(inputs@[1]@),
            ids == raw@.map_values(|v: i64| v as usize),
            upd@ == spec_decode_u32s(inputs@[2]@),
            n == raw@.len(),
            k <= n,
            out@ == spec_scatter(data, ids.take(k as int), upd@),
        decreases n - k,
    {
        assert(ids.take(k + 1).drop_last() =~= ids.take(k as int));
        proof {
            lemma_scatter_len(data, ids.take(k as int), upd@);
        }
        let idx = #[verifier::truncate] (raw[k] as usize);
        if idx < out.len() && k < upd.len() {
            out.set(idx, upd[k]);
        }
        k = k + 1;
    }
    assert(ids.take(n as int) =~= ids);
    let db = inputs[0].len();
    proof {
        lemma_scatter_len(data, ids, upd@);
        assert(4 * data.len() <= db);
    }
    Ok(encode_u32s(out.as_slice()))
}

/// `out` holds `f` of the two operands cycled to the longer length, element by element.
pub open spec fn spec_pairwise<F: Fn(u8, u8) -> u8>(f: F, a: Seq<u8>, b: Seq<u8>, out: Seq<u8>) -> bool {
    &&& out.len() == (if a.len() >= b.len() { a.len() } else { b.len() })
    &&& forall|i: int| 0 <= i < out.len() ==> call_ensures(f, (a[i % a.len() as int], b[i % b.len() as int]), #[trigger] out[i])
}

/// `out` holds `f` of each element of `a`.
pub open spec fn spec_elementwise<F: Fn(u8) -> u8>(f: F, a: Seq<u8>, out: Seq<u8>) -> bool {
    &&& out.len() == a.len()
    &&& forall|i: int| 0 <= i < out.len() ==> call_ensures(f, (a[i],), #[trigger] out[i])
}

/// `out` is `f` applied pairwise to the booleans of two mask buffers, each under one of
/// its two readings (see `to_bools`).
pub open spec fn spec_bool_pairwise<F: Fn(u8, u8) -> u8>(f: F, a: Seq<u8>, b: Seq<u8>, out: Seq<u8>) -> bool {
    exists|va: bool, vb: bool| #[trigger] spec_pairwise(f, spec_to_bools(a, va), spec_to_bools(b, vb), out)
}

/// Apply `f` to the elements of `a` and `b`, the shorter operand cycled.
pub fn pairwise_map<F: Fn(u8, u8) -> u8>(a: &[u8], b: &[u8], f: F) -> (out: Vec<u8>)
    requires
        (a@.len() == 0) == (b@.len() == 0),
        forall|x: u8, y: u8| #[trigger] f.requires((x, y)),
    ensures
        spec_pairwise(f, a@, b@, out@),
{
    let al = a.len();
    let bl = b.len();
    let n = if al >= bl { al } else { bl };
    let mut out: Vec<u8> = Vec::with_capacity(n);
    let mut i: usize = 0;
    while i < n
        invariant
            al == a@.len(),
            bl == b@.len(),
            n == (if al >= bl { al } else { bl }),
            (al == 0) == (bl == 0),
            forall|x: u8, y: u8| #[trigger] f.requires((x, y)),
            i <= n,
            out@.len() == i,
            forall|t: int| 0 <= t < i ==> call_ensures(f, (a@[t % al as int], b@[t % bl as int]), #[trigger] out@[t]),
        decreases n - i,
    {
        let v = f(a[i % al], b[i % bl]);
        out.push(v);
        i = i + 1;
    }
    out
}

/// Apply `f` to each element of `a`.
pub fn elementwise_map<F: Fn(u8) -> u8>(a: &[u8], f: F) -> (out: Vec<u8>)
    requires
        forall|x: u8| #[trigger] f.requires((x,)),
    ensures
        spec_elementwise(f, a@, out@),
{
    let n = a.len();
    let mut out: Vec<u8> = Vec::with_capacity(n);
    let mut i: usize = 0;
    while i < n
        invariant
            n == a@.len(),
            forall|x: u8| #[trigger] f.requires((x,)),
            i <= n,
            out@.len() == i,
            forall|t: int| 0 <= t < i ==> call_ensures(f, (a@[t],), #[trigger] out@[t]),
        decreases n - i,
    {
        let v = f(a[i]);
        out.push(v);
        i = i + 1;
    }
    out
}

/// Boolean binary kernel (And, Or, Xor): both inputs are read as per-element booleans
/// (see `to_bools`, under one of its two readings each) and combined by `f`, the shorter
/// cycled.
pub fn binary_byte_bool<F: Fn(u8, u8) -> u8>(inputs: &[&[u8]], f: F) -> (r: Result<Vec<u8>, ExecError>)
    requires
        inputs@.len() >= 2,
        (inputs@[0]@.len() == 0) == (inputs@[1]@.len() == 0),
        forall|x: u8, y: u8| #[trigger] f.requires((x, y)),
    ensures
        r matches Ok(out) && spec_bool_pairwise(f, inputs@[0]@, inputs@[1]@, out@),
{
    let a = to_bools(inputs[0]);
    let b = to_bools(inputs[1]);
    let out = pairwise_map(a.as_slice(), b.as_slice(), f);
    proof {
        let va = a@ == spec_to_bools(inputs@[0]@, true);
        let vb = b@ == spec_to_bools(inputs@[1]@, true);
        assert(a@ == spec_to_bools(inputs@[0]@, va));
        assert(b@ == spec_to_bools(inputs@[1]@, vb));
        assert(spec_pairwise(f, spec_to_bools(inputs@[0]@, va), spec_to_bools(inputs@[1]@, vb), out@));
        assert(spec_bool_pairwise(f, inputs@[0]@, inputs@[1]@, out@));
    }
    Ok(out)
}

/// Boolean unary kernel (Not): the input read as per-element booleans (see `to_bools`,
/// under one of its two readings), mapped by `f`.
pub fn unary_byte_bool<F: Fn(u8) -> u8>(inputs: &[&[u8]], f: F) -> (r: Result<Vec<u8>, ExecError>)
    requires
        inputs@.len() >= 1,
        forall|x: u8| #[trigger] f.requires((x,)),
    ensures
        r matches Ok(out) && exists|va: bool| spec_elementwise(f, spec_to_bools(inputs@[0]@, va), out@),
{
    let a = to_bools(inputs[0]);
    let out = elementwise_map(a.as_slice(), f);
    proof {
        let va = a@ == spec_to_bools(inputs@[0]@, true);
        assert(a@ == spec_to_bools(inputs@[0]@, va));
        assert(spec_elementwise(f, spec_to_bools(inputs@[0]@, va), out@));
    }
    Ok(out)
}

} // verus!
