//! Row-major strides, numpy-style broadcasting, and the other shape arithmetic
//! that the float kernels rely on.
use vstd::prelude::*;

verus! {

/// Product of the dimensions of a shape (1 for the empty shape).
pub open spec fn spec_prod(s: Seq<usize>) -> nat
    decreases s.len(),
{
    if s.len() == 0 {
        1
    } else {
        (s[0] as nat) * spec_prod(s.drop_first())
    }
}

/// Every stride of `shape` (the product of the dims after each position) fits in a `usize`.
pub open spec fn spec_strides_fit(shape: Seq<usize>) -> bool {
    forall|i: int| 1 <= i <= shape.len() ==> #[trigger] spec_prod(shape.skip(i)) <= usize::MAX
}

/// Row-major stride of dimension `i`: the product of all later dimensions.
pub open spec fn spec_stride(shape: Seq<usize>, i: int) -> nat {
    spec_prod(shape.skip(i + 1))
}

/// Peeling the first dimension off a suffix of a shape.
pub proof fn lemma_prod_skip(s: Seq<usize>, k: int)
    requires
        0 <= k < s.len(),
    ensures
        spec_prod(s.skip(k)) == (s[k] as nat) * spec_prod(s.skip(k + 1)),
{
    assert(s.skip(k).drop_first() =~= s.skip(k + 1));
}

/// The suffix starting at the end of a shape has product 1.
pub proof fn lemma_prod_skip_end(s: Seq<usize>)
    ensures
        spec_prod(s.skip(s.len() as int)) == 1,
{
    assert(s.skip(s.len() as int) =~= Seq::<usize>::empty());
}

/// A shape with a positive product has only positive dimensions, and so has each suffix.
pub proof fn lemma_prod_positive(s: Seq<usize>, k: int)
    requires
        0 <= k <= s.len(),
        spec_prod(s) > 0,
    ensures
        spec_prod(s.skip(k)) > 0,
        forall|j: int| 0 <= j < s.len() ==> #[trigger] s[j] > 0,
    decreases s.len(),
{
    assert(s.skip(0) =~= s);
    if s.len() > 0 {
        lemma_prod_skip(s, 0);
        let t = s.drop_first();
        assert(s[0] > 0) by (nonlinear_arith)
            requires spec_prod(s) == (s[0] as nat) * spec_prod(t), spec_prod(s) > 0;
        assert(spec_prod(t) > 0) by (nonlinear_arith)
            requires spec_prod(s) == (s[0] as nat) * spec_prod(t), spec_prod(s) > 0;
        if k > 0 {
            lemma_prod_positive(t, k - 1);
            assert(t.skip(k - 1) =~= s.skip(k));
        } else {
            lemma_prod_positive(t, 0);
        }
        assert forall|j: int| 0 <= j < s.len() implies #[trigger] s[j] > 0 by {
            if j > 0 {
                assert(s[j] == t[j - 1]);
            }
        }
    }
}

/// Compute row-major strides for a shape.
pub fn compute_strides(shape: &[usize]) -> (strides: Vec<usize>)
    requires
        spec_strides_fit(shape@),
    ensures
        strides@.len() == shape@.len(),
        forall|i: int| 0 <= i < shape@.len() ==> #[trigger] strides@[i] == spec_stride(shape@, i),
{
    let n = shape.len();
    let mut strides: Vec<usize> = Vec::with_capacity(n);
    let mut k: usize = 0;
    while k < n
        invariant
            k <= n,
            strides@.len() == k,
            forall|t: int| 0 <= t < k ==> #[trigger] strides@[t] == 1,
        decreases n - k,
    {
        strides.push(1);
        k = k + 1;
    }
    if n > 0 {
        proof {
            lemma_prod_skip_end(shape@);
        }
        let mut i: usize = n - 1;
        while i > 0
            invariant
                n == shape@.len(),
                n > 0,
                i < n,
                strides@.len() == n,
                spec_strides_fit(shape@),
                forall|t: int| i <= t < n ==> #[trigger] strides@[t] == spec_stride(shape@, t),
            decreases i,
        {
            proof {
                lemma_prod_skip(shape@, i as int);
                assert(spec_prod(shape@.skip(i as int)) <= usize::MAX);
                assert((strides@[i as int] as nat) * (shape@[i as int] as nat) == spec_prod(shape@.skip(i as int)))
                    by (nonlinear_arith)
                    requires
                        strides@[i as int] == spec_prod(shape@.skip(i + 1)),
                        spec_prod(shape@.skip(i as int)) == (shape@[i as int] as nat) * spec_prod(shape@.skip(i + 1));
            }
            let s = strides[i] * shape[i];
            strides.set(i - 1, s);
            i = i - 1;
        }
    }
    strides
}

/// Dimension `i` of `s` once it is right-aligned to rank `n` (missing leading dims are 1).
pub open spec fn spec_bdim(s: Seq<usize>, n: int, i: int) -> int {
    if i < n - s.len() {
        1
    } else {
        s[i - (n - s.len())] as int
    }
}

/// Rank of the broadcast of two shapes.
pub open spec fn spec_brank(a: Seq<usize>, b: Seq<usize>) -> int {
    if a.len() >= b.len() {
        a.len() as int
    } else {
        b.len() as int
    }
}

/// Two shapes are broadcast-compatible: each aligned pair of dims is equal or one of them is 1.
pub open spec fn spec_broadcast_compatible(a: Seq<usize>, b: Seq<usize>) -> bool {
    let n = spec_brank(a, b);
    forall|i: int|
        0 <= i < n ==> {
            let da = #[trigger] spec_bdim(a, n, i);
            let db = spec_bdim(b, n, i);
            da == db || da == 1 || db == 1
        }
}

/// The numpy-style broadcast shape of two shapes (dimension-wise maximum).
pub open spec fn spec_broadcast_shape(a: Seq<usize>, b: Seq<usize>) -> Seq<usize> {
    let n = spec_brank(a, b);
    Seq::new(
        n as nat,
        |i: int|
            if spec_bdim(a, n, i) >= spec_bdim(b, n, i) {
                spec_bdim(a, n, i) as usize
            } else {
                spec_bdim(b, n, i) as usize
            },
    )
}

/// Compute the numpy-style broadcast output shape; `None` when the shapes are not
/// broadcast-compatible.
pub fn broadcast_shapes(a: &[usize], b: &[usize]) -> (r: Option<Vec<usize>>)
    ensures
        r.is_some() <==> spec_broadcast_compatible(a@, b@),
        r matches Some(v) ==> v@ == spec_broadcast_shape(a@, b@),
{
    let max_len = if a.len() >= b.len() { a.len() } else { b.len() };
    let ghost n = max_len as int;
    let mut result: Vec<usize> = Vec::with_capacity(max_len);
    let mut i: usize = 0;
    while i < max_len
        invariant
            max_len as int == spec_brank(a@, b@),
            n == max_len,
            i <= max_len,
            result@.len() == i,
            forall|t: int| 0 <= t < i ==> #[trigger] result@[t] == spec_broadcast_shape(a@, b@)[t],
            forall|t: int|
                0 <= t < i ==> {
                    let da = #[trigger] spec_bdim(a@, n, t);
                    let db = spec_bdim(b@, n, t);
                    da == db || da == 1 || db == 1
                },
        decreases max_len - i,
    {
        let da = if i < max_len - a.len() { 1 } else { a[i - (max_len - a.len())] };
        let db = if i < max_len - b.len() { 1 } else { b[i - (max_len - b.len())] };
        assert(da == spec_bdim(a@, n, i as int));
        assert(db == spec_bdim(b@, n, i as int));
        if da != db && da != 1 && db != 1 {
            return None;
        }
        result.push(if da >= db { da } else { db });
        i = i + 1;
    }
    assert(result@ =~= spec_broadcast_shape(a@, b@));
    Some(result)
}

/// Broadcasting is symmetric: swapping the operands neither changes whether they are
/// compatible nor the resulting shape.
pub proof fn lemma_broadcast_symmetric(a: Seq<usize>, b: Seq<usize>)
    ensures
        spec_broadcast_compatible(a, b) == spec_broadcast_compatible(b, a),
        spec_broadcast_shape(a, b) == spec_broadcast_shape(b, a),
{
    assert(spec_brank(a, b) == spec_brank(b, a));
    let n = spec_brank(a, b);
    assert(spec_broadcast_shape(a, b) =~= spec_broadcast_shape(b, a));
    if spec_broadcast_compatible(a, b) {
        assert forall|i: int| 0 <= i < n implies {
            let da = #[trigger] spec_bdim(b, n, i);
            let db = spec_bdim(a, n, i);
            da == db || da == 1 || db == 1
        } by {
            assert(spec_bdim(a, n, i) == spec_bdim(a, n, i));
        }
    }
    if spec_broadcast_compatible(b, a) {
        assert forall|i: int| 0 <= i < n implies {
            let da = #[trigger] spec_bdim(a, n, i);
            let db = spec_bdim(b, n, i);
            da == db || da == 1 || db == 1
        } by {
            assert(spec_bdim(b, n, i) == spec_bdim(b, n, i));
        }
    }
}

/// A suffix of a shape with positive product has a product no larger than the whole.
pub proof fn lemma_prod_suffix_le(s: Seq<usize>, k: int)
    requires
        0 <= k <= s.len(),
        spec_prod(s) > 0,
    ensures
        spec_prod(s.skip(k)) <= spec_prod(s),
    decreases k,
{
    assert(s.skip(0) =~= s);
    if k > 0 {
        lemma_prod_suffix_le(s, k - 1);
        lemma_prod_positive(s, k);
        lemma_prod_positive(s, k - 1);
        lemma_prod_skip(s, k - 1);
        assert(spec_prod(s.skip(k)) <= spec_prod(s.skip(k - 1))) by (nonlinear_arith)
            requires
                spec_prod(s.skip(k - 1)) == (s[k - 1] as nat) * spec_prod(s.skip(k)),
                s[k - 1] > 0;
    }
}

/// A shape whose product fits in a `usize` and is positive has all its strides fitting too.
pub proof fn lemma_strides_fit_from_prod(s: Seq<usize>)
    requires
        0 < spec_prod(s) <= usize::MAX,
    ensures
        spec_strides_fit(s),
{
    assert forall|i: int| 1 <= i <= s.len() implies #[trigger] spec_prod(s.skip(i)) <= usize::MAX by {
        lemma_prod_suffix_le(s, i);
    }
}

/// The product of a shape splits at any position into the product of the prefix
/// times the product of the suffix.
pub proof fn lemma_prod_split(s: Seq<usize>, k: int)
    requires
        0 <= k <= s.len(),
    ensures
        spec_prod(s) == spec_prod(s.take(k)) * spec_prod(s.skip(k)),
    decreases k,
{
    if k == 0 {
        assert(s.take(0) =~= Seq::<usize>::empty());
        assert(s.skip(0) =~= s);
    } else {
        let t = s.drop_first();
        lemma_prod_split(t, k - 1);
        assert(t.skip(k - 1) =~= s.skip(k));
        assert(s.take(k).drop_first() =~= t.take(k - 1));
        let a = s[0] as nat;
        let p = spec_prod(t.take(k - 1));
        let q = spec_prod(s.skip(k));
        assert(a * (p * q) == (a * p) * q) by (nonlinear_arith);
    }
}

/// A shape has product 0 when one of its dims is 0, and product at least 1 otherwise.
pub proof fn lemma_prod_zero_iff(t: Seq<usize>)
    ensures
        (exists|j: int| 0 <= j < t.len() && t[j] == 0) ==> spec_prod(t) == 0,
        (forall|j: int| 0 <= j < t.len() ==> t[j] != 0) ==> spec_prod(t) >= 1,
    decreases t.len(),
{
    if t.len() > 0 {
        let r = t.drop_first();
        lemma_prod_zero_iff(r);
        if exists|j: int| 0 <= j < t.len() && t[j] == 0 {
            let j = choose|j: int| 0 <= j < t.len() && t[j] == 0;
            if j > 0 {
                assert(r[j - 1] == 0);
                assert(spec_prod(r) == 0);
            }
            assert(spec_prod(t) == 0) by (nonlinear_arith)
                requires spec_prod(t) == (t[0] as nat) * spec_prod(r), t[0] == 0 || spec_prod(r) == 0;
        }
        if forall|j: int| 0 <= j < t.len() ==> t[j] != 0 {
            assert forall|j: int| 0 <= j < r.len() implies r[j] != 0 by {
                assert(r[j] == t[j + 1]);
            }
            assert(t[0] != 0);
            assert(spec_prod(t) >= 1) by (nonlinear_arith)
                requires spec_prod(t) == (t[0] as nat) * spec_prod(r), t[0] >= 1, spec_prod(r) >= 1;
        }
    }
}

/// Product of a shape, or `None` when it does not fit in a `usize`.
pub fn shape_product(shape: &[usize]) -> (r: Option<usize>)
    ensures
        r == (if spec_prod(shape@) <= usize::MAX { Some(spec_prod(shape@) as usize) } else { None }),
{
    let n = shape.len();
    let mut acc: usize = 1;
    let mut i: usize = n;
    proof {
        lemma_prod_skip_end(shape@);
    }
    while i > 0
        invariant
            n == shape@.len(),
            i <= n,
            acc as nat == spec_prod(shape@.skip(i as int)),
        decreases i,
    {
        proof {
            lemma_prod_skip(shape@, i - 1);
        }
        let d = shape[i - 1];
        proof {
            assert((acc as nat) * (d as nat) == (d as nat) * (acc as nat)) by (nonlinear_arith);
        }
        match acc.checked_mul(d) {
            Some(v) => {
                acc = v;
                i = i - 1;
            },
            None => {
                let k = i - 1;
                proof {
                    lemma_prod_split(shape@, k as int);
                    lemma_prod_zero_iff(shape@.take(k as int));
                }
                let mut j: usize = 0;
                while j < k
                    invariant
                        k < n,
                        n == shape@.len(),
                        j <= k,
                        forall|t: int| 0 <= t < j ==> shape@[t] != 0,
                        spec_prod(shape@) == spec_prod(shape@.take(k as int)) * spec_prod(shape@.skip(k as int)),
                        spec_prod(shape@.skip(k as int)) > usize::MAX,
                        (exists|t: int| 0 <= t < shape@.take(k as int).len() && shape@.take(k as int)[t] == 0)
                            ==> spec_prod(shape@.take(k as int)) == 0,
                        (forall|t: int| 0 <= t < shape@.take(k as int).len() ==> shape@.take(k as int)[t] != 0)
                            ==> spec_prod(shape@.take(k as int)) >= 1,
                    decreases k - j,
                {
                    if shape[j] == 0 {
                        proof {
                            assert(shape@.take(k as int)[j as int] == 0);
                        }
                        return Some(0);
                    }
                    j = j + 1;
                }
                proof {
                    assert forall|t: int| 0 <= t < k implies shape@.take(k as int)[t] != 0 by {}
                    let p = spec_prod(shape@.take(k as int));
                    let q = spec_prod(shape@.skip(k as int));
                    assert(p * q >= q) by (nonlinear_arith) requires p >= 1;
                }
                return None;
            },
        }
    }
    assert(shape@.skip(0) =~= shape@);
    Some(acc)
}

/// Broadcast stride of output dimension `d` for a source shape right-aligned to rank `n`:
/// zero for missing and size-1 dimensions, the source's own stride otherwise.
pub open spec fn spec_bstride(src: Seq<usize>, n: int, d: int) -> nat {
    let off = n - src.len();
    if d < off {
        0
    } else if src[d - off] != 1 {
        spec_stride(src, d - off)
    } else {
        0
    }
}

/// Compute broadcast strides: 0 for dimensions where `src_shape` has size 1 (or is
/// missing), the ordinary row-major stride otherwise.
pub fn compute_broadcast_strides(src_shape: &[usize], out_shape: &[usize]) -> (strides: Vec<usize>)
    requires
        src_shape@.len() <= out_shape@.len(),
        spec_strides_fit(src_shape@),
    ensures
        strides@.len() == out_shape@.len(),
        forall|d: int|
            0 <= d < out_shape@.len() ==> #[trigger] strides@[d] == spec_bstride(
                src_shape@,
                out_shape@.len() as int,
                d,
            ),
{
    let src_strides = compute_strides(src_shape);
    let n = out_shape.len();
    let offset = n - src_shape.len();
    let mut strides: Vec<usize> = Vec::with_capacity(n);
    let mut k: usize = 0;
    while k < n
        invariant
            k <= n,
            strides@.len() == k,
            forall|t: int| 0 <= t < k ==> #[trigger] strides@[t] == 0,
        decreases n - k,
    {
        strides.push(0);
        k = k + 1;
    }
    let mut i: usize = 0;
    while i < src_shape.len()
        invariant
            n == out_shape@.len(),
            offset == n - src_shape@.len(),
            i <= src_shape@.len(),
            strides@.len() == n,
            src_strides@.len() == src_shape@.len(),
            forall|t: int| 0 <= t < src_shape@.len() ==> #[trigger] src_strides@[t] == spec_stride(src_shape@, t),
            forall|d: int| 0 <= d < n ==> #[trigger] strides@[d] == (if d < offset + i {
                spec_bstride(src_shape@, n as int, d)
            } else {
                0
            }),
        decreases src_shape@.len() - i,
    {
        if src_shape[i] != 1 {
            strides.set(i + offset, src_strides[i]);
        }
        i = i + 1;
    }
    strides
}

/// Source offset that `broadcast_flat_index` computes for the flat remainder `rem`,
/// starting at dimension `d`: each output coordinate times the source stride.
pub open spec fn spec_bidx(rem: int, d: int, n: int, out_strides: Seq<usize>, src_strides: Seq<usize>) -> int
    decreases n - d,
{
    if d < 0 || d >= n {
        0
    } else {
        (rem / (out_strides[d] as int)) * (src_strides[d] as int) + spec_bidx(
            rem % (out_strides[d] as int),
            d + 1,
            n,
            out_strides,
            src_strides,
        )
    }
}

/// The source offset is never negative for a non-negative remainder and positive strides.
pub proof fn lemma_bidx_nonneg(rem: int, d: int, n: int, os: Seq<usize>, ss: Seq<usize>)
    requires
        rem >= 0,
        forall|t: int| 0 <= t < n ==> #[trigger] os[t] > 0,
    ensures
        spec_bidx(rem, d, n, os, ss) >= 0,
    decreases n - d,
{
    if 0 <= d < n {
        lemma_bidx_nonneg(rem % (os[d] as int), d + 1, n, os, ss);
        assert((rem / (os[d] as int)) * (ss[d] as int) >= 0) by (nonlinear_arith)
            requires rem >= 0, os[d] > 0;
    }
}

/// Convert a flat output index to a flat source index using broadcast strides.
pub fn broadcast_flat_index(
    flat_idx: usize,
    out_shape: &[usize],
    out_strides: &[usize],
    src_strides: &[usize],
) -> (src_idx: usize)
    requires
        out_strides@.len() >= out_shape@.len(),
        src_strides@.len() >= out_shape@.len(),
        forall|t: int| 0 <= t < out_shape@.len() ==> #[trigger] out_strides@[t] > 0,
        spec_bidx(flat_idx as int, 0, out_shape@.len() as int, out_strides@, src_strides@) <= usize::MAX,
    ensures
        src_idx == spec_bidx(flat_idx as int, 0, out_shape@.len() as int, out_strides@, src_strides@),
{
    let n = out_shape.len();
    let ghost total = spec_bidx(flat_idx as int, 0, n as int, out_strides@, src_strides@);
    let mut src_idx: usize = 0;
    let mut remaining = flat_idx;
    let mut i: usize = 0;
    while i < n
        invariant
            n == out_shape@.len(),
            out_strides@.len() >= n,
            src_strides@.len() >= n,
            forall|t: int| 0 <= t < n ==> #[trigger] out_strides@[t] > 0,
            total == spec_bidx(flat_idx as int, 0, n as int, out_strides@, src_strides@),
            total <= usize::MAX,
            i <= n,
            src_idx + spec_bidx(remaining as int, i as int, n as int, out_strides@, src_strides@) == total,
        decreases n - i,
    {
        let ghost rest = spec_bidx(
            (remaining % out_strides[i as int]) as int,
            i + 1,
            n as int,
            out_strides@,
            src_strides@,
        );
        proof {
            lemma_bidx_nonneg((remaining % out_strides[i as int]) as int, i + 1, n as int, out_strides@, src_strides@);
            let c: int = (remaining / out_strides[i as int]) as int;
            let st: int = src_strides@[i as int] as int;
            assert(c * st >= 0) by (nonlinear_arith) requires c >= 0, st >= 0;
        }
        let coord = remaining / out_strides[i];
        let term = coord * src_strides[i];
        remaining = remaining % out_strides[i];
        src_idx = src_idx + term;
        i = i + 1;
    }
    src_idx
}

/// Row-major strides of a shape as a sequence.
pub open spec fn spec_stride_seq(shape: Seq<usize>) -> Seq<usize> {
    Seq::new(shape.len(), |d: int| spec_stride(shape, d) as usize)
}

/// Broadcast strides of a source shape right-aligned to rank `n`, as a sequence.
pub open spec fn spec_bstride_seq(src: Seq<usize>, n: int) -> Seq<usize> {
    Seq::new(n as nat, |d: int| spec_bstride(src, n, d) as usize)
}

/// `src` broadcasts into `out`: it has no more dims, and each right-aligned dim of `src`
/// equals the matching dim of `out` or is 1.
pub open spec fn spec_broadcasts_into(src: Seq<usize>, out: Seq<usize>) -> bool {
    &&& src.len() <= out.len()
    &&& forall|d: int|
        0 <= d < out.len() ==> {
            let sd = #[trigger] spec_bdim(src, out.len() as int, d);
            sd == out[d] || sd == 1
        }
}

/// Product of the source dims that line up with output dims `d..`.
pub open spec fn spec_src_suffix_prod(src: Seq<usize>, n: int, d: int) -> nat {
    if d < n - src.len() {
        spec_prod(src)
    } else {
        spec_prod(src.skip(d - (n - src.len())))
    }
}

/// Every source offset that broadcasting computes for an in-range output position
/// lies inside the source.
#[verifier::spinoff_prover]
pub proof fn lemma_bidx_bound(src: Seq<usize>, out: Seq<usize>, d: int, rem: int)
    requires
        spec_broadcasts_into(src, out),
        forall|j: int| 0 <= j < src.len() ==> #[trigger] src[j] > 0,
        spec_strides_fit(out),
        spec_strides_fit(src),
        0 <= d <= out.len(),
        0 <= rem < spec_prod(out.skip(d)),
    ensures
        0 <= spec_bidx(rem, d, out.len() as int, spec_stride_seq(out), spec_bstride_seq(src, out.len() as int))
            < spec_src_suffix_prod(src, out.len() as int, d),
    decreases out.len() - d,
{
    let n = out.len() as int;
    let off = n - src.len();
    let os = spec_stride_seq(out);
    let bs = spec_bstride_seq(src, n);
    assert(src.skip(0) =~= src);
    if d == n {
        lemma_prod_skip_end(src);
        lemma_prod_skip_end(out);
    } else {
        lemma_prod_skip(out, d);
        let s = spec_prod(out.skip(d + 1));
        assert(os[d] as nat == s);
        let od = out[d] as nat;
        assert(s > 0) by (nonlinear_arith) requires rem < od * s, rem >= 0;
        let c = rem / (s as int);
        let r2 = rem % (s as int);
        assert(c < od) by (nonlinear_arith) requires rem < od * s, rem >= 0, s > 0, c == rem / (s as int);
        assert(c >= 0) by (nonlinear_arith) requires rem >= 0, s > 0, c == rem / (s as int);
        assert(0 <= r2 < s);
        lemma_bidx_bound(src, out, d + 1, r2);
        let rest = spec_bidx(r2, d + 1, n, os, bs);
        assert(spec_bidx(rem, d, n, os, bs) == c * (bs[d] as int) + rest);
        if d < off {
            assert(bs[d] == 0);
            assert(c * 0 == 0);
        } else {
            let k = d - off;
            assert(spec_bdim(src, n, d) == src[k] as int);
            lemma_prod_skip(src, k);
            let p2 = spec_prod(src.skip(k + 1));
            assert(spec_src_suffix_prod(src, n, d + 1) == p2);
            assert(spec_src_suffix_prod(src, n, d) == (src[k] as nat) * p2);
            if src[k] != 1 {
                assert(out[d] == src[k]);
                assert(k + 1 >= 1);
                assert(bs[d] as nat == p2);
                let sk = src[k] as int;
                assert(c * (p2 as int) + rest < sk * (p2 as int)) by (nonlinear_arith)
                    requires 0 <= c < sk, 0 <= rest < p2;
                assert(c * (p2 as int) >= 0) by (nonlinear_arith) requires c >= 0, p2 >= 0;
            } else {
                assert(bs[d] == 0);
                assert(c * 0 == 0);
                let sk = src[k] as nat;
                assert(sk * p2 == p2) by (nonlinear_arith) requires sk == 1;
            }
        }
    }
}

/// Two shapes are equal element by element.
pub fn shapes_equal(a: &[usize], b: &[usize]) -> (r: bool)
    ensures
        r == (a@ == b@),
{
    if a.len() != b.len() {
        return false;
    }
    let mut i: usize = 0;
    while i < a.len()
        invariant
            a@.len() == b@.len(),
            i <= a@.len(),
            forall|t: int| 0 <= t < i ==> a@[t] == b@[t],
        decreases a@.len() - i,
    {
        if a[i] != b[i] {
            return false;
        }
        i = i + 1;
    }
    assert(a@ =~= b@);
    true
}

/// The larger of two lengths.
pub open spec fn spec_max_len(a: nat, b: nat) -> nat {
    if a >= b {
        a
    } else {
        b
    }
}

/// Whether binary elementwise kernels index their operands through true N-D
/// broadcasting rather than by cycling: the shapes differ, neither operand is a
/// scalar, each shape matches its operand's element count, and the shapes are
/// broadcast-compatible.
pub open spec fn spec_broadcast_path(a_len: nat, b_len: nat, sa: Seq<usize>, sb: Seq<usize>) -> bool {
    &&& sa != sb
    &&& a_len != 1
    &&& b_len != 1
    &&& spec_prod(sa) == a_len
    &&& spec_prod(sb) == b_len
    &&& spec_broadcast_compatible(sa, sb)
}

/// Cycling index pairs `(i % a_len, i % b_len)` for `i < n`.
pub fn cycle_indices(a_len: usize, b_len: usize, n: usize) -> (r: (Vec<usize>, Vec<usize>))
    requires
        n > 0 ==> a_len > 0 && b_len > 0,
    ensures
        r.0@.len() == n,
        r.1@.len() == n,
        forall|i: int| 0 <= i < n ==> #[trigger] r.0@[i] == i % (a_len as int) && r.1@[i] == i % (b_len as int),
        forall|i: int| 0 <= i < n ==> #[trigger] r.0@[i] < a_len && r.1@[i] < b_len,
{
    let mut ai: Vec<usize> = Vec::with_capacity(n);
    let mut bi: Vec<usize> = Vec::with_capacity(n);
    let mut i: usize = 0;
    while i < n
        invariant
            n > 0 ==> a_len > 0 && b_len > 0,
            i <= n,
            ai@.len() == i,
            bi@.len() == i,
            forall|t: int| 0 <= t < i ==> #[trigger] ai@[t] == t % (a_len as int) && bi@[t] == t % (b_len as int),
            forall|t: int| 0 <= t < i ==> #[trigger] ai@[t] < a_len && bi@[t] < b_len,
        decreases n - i,
    {
        ai.push(i % a_len);
        bi.push(i % b_len);
        i = i + 1;
    }
    (ai, bi)
}

/// Source index pairs for a binary elementwise kernel with N-D broadcasting.
///
/// Output element `i` combines `a[ai[i]]` and `b[bi[i]]`. When the shapes are equal, one
/// operand is a scalar, a shape disagrees with its operand's length, or the shapes are
/// not broadcast-compatible, the operands are cycled. With `guard_inflation`, cycling is
/// also used when broadcasting would produce more elements than the larger operand
/// (stale compiled shapes).
#[verifier::spinoff_prover]
pub fn broadcast_operand_indices(
    a_len: usize,
    b_len: usize,
    sa: &[usize],
    sb: &[usize],
    guard_inflation: bool,
) -> (r: (Vec<usize>, Vec<usize>))
    requires
        (a_len == 0) == (b_len == 0),
        spec_broadcast_path(a_len as nat, b_len as nat, sa@, sb@) ==> spec_prod(
            spec_broadcast_shape(sa@, sb@),
        ) <= usize::MAX,
        spec_broadcast_path(a_len as nat, b_len as nat, sa@, sb@) && !guard_inflation && a_len == 0
            ==> spec_prod(spec_broadcast_shape(sa@, sb@)) == 0,
    ensures
        ({
            let out = spec_broadcast_shape(sa@, sb@);
            let n = out.len() as int;
            if spec_broadcast_path(a_len as nat, b_len as nat, sa@, sb@) && !(guard_inflation
                && spec_prod(out) > spec_max_len(a_len as nat, b_len as nat)) {
                &&& r.0@.len() == spec_prod(out)
                &&& r.1@.len() == spec_prod(out)
                &&& forall|f: int|
                    0 <= f < spec_prod(out) ==> #[trigger] r.0@[f] == spec_bidx(
                        f,
                        0,
                        n,
                        spec_stride_seq(out),
                        spec_bstride_seq(sa@, n),
                    ) && r.1@[f] == spec_bidx(f, 0, n, spec_stride_seq(out), spec_bstride_seq(sb@, n))
            } else {
                &&& r.0@.len() == spec_max_len(a_len as nat, b_len as nat)
                &&& r.1@.len() == spec_max_len(a_len as nat, b_len as nat)
                &&& forall|i: int|
                    0 <= i < r.0@.len() ==> #[trigger] r.0@[i] == i % (a_len as int) && r.1@[i] == i
                        % (b_len as int)
            }
        }),
        r.0@.len() == r.1@.len(),
        forall|i: int| 0 <= i < r.0@.len() ==> #[trigger] r.0@[i] < a_len && r.1@[i] < b_len,
{
    let max_len = if a_len >= b_len { a_len } else { b_len };
    match broadcast_target(a_len, b_len, sa, sb, guard_inflation) {
        Some((out_shape, out_len)) => {
            if out_len == 0 {
                let e1: Vec<usize> = Vec::new();
                let e2: Vec<usize> = Vec::new();
                (e1, e2)
            } else {
                broadcast_path_indices(a_len, b_len, sa, sb, out_shape, out_len)
            }
        },
        None => cycle_indices(a_len, b_len, max_len),
    }
}

/// The broadcast output shape and its element count, when a binary kernel takes the
/// true broadcasting path (see `broadcast_operand_indices`).
fn broadcast_target(a_len: usize, b_len: usize, sa: &[usize], sb: &[usize], guard_inflation: bool) -> (r:
    Option<(Vec<usize>, usize)>)
    requires
        (a_len == 0) == (b_len == 0),
        spec_broadcast_path(a_len as nat, b_len as nat, sa@, sb@) ==> spec_prod(
            spec_broadcast_shape(sa@, sb@),
        ) <= usize::MAX,
        spec_broadcast_path(a_len as nat, b_len as nat, sa@, sb@) && !guard_inflation && a_len == 0
            ==> spec_prod(spec_broadcast_shape(sa@, sb@)) == 0,
    ensures
        r.is_some() <==> (spec_broadcast_path(a_len as nat, b_len as nat, sa@, sb@) && !(guard_inflation
            && spec_prod(spec_broadcast_shape(sa@, sb@)) > spec_max_len(a_len as nat, b_len as nat))),
        r matches Some((s, l)) ==> s@ == spec_broadcast_shape(sa@, sb@) && l == spec_prod(s@) && (l > 0
            ==> a_len > 0 && b_len > 0),
{
    let max_len = if a_len >= b_len { a_len } else { b_len };
    if shapes_equal(sa, sb) || a_len == 1 || b_len == 1 {
        return None;
    }
    let a_prod = shape_product(sa);
    let b_prod = shape_product(sb);
    let prods_match = match (a_prod, b_prod) {
        (Some(pa), Some(pb)) => pa == a_len && pb == b_len,
        _ => false,
    };
    if !prods_match {
        return None;
    }
    let out_shape = match broadcast_shapes(sa, sb) {
        Some(s) => s,
        None => {
            return None;
        },
    };
    let out_len = match shape_product(out_shape.as_slice()) {
        Some(p) => p,
        None => {
            return None;
        },
    };
    if guard_inflation && out_len > max_len {
        return None;
    }
    Some((out_shape, out_len))
}

/// Index pairs for the true broadcasting path of `broadcast_operand_indices`.
fn broadcast_path_indices(
    a_len: usize,
    b_len: usize,
    sa: &[usize],
    sb: &[usize],
    out_shape: Vec<usize>,
    out_len: usize,
) -> (r: (Vec<usize>, Vec<usize>))
    requires
        a_len > 0,
        b_len > 0,
        spec_broadcast_path(a_len as nat, b_len as nat, sa@, sb@),
        out_shape@ == spec_broadcast_shape(sa@, sb@),
        out_len == spec_prod(out_shape@),
        out_len > 0,
    ensures
        ({
            let out = out_shape@;
            let n = out.len() as int;
            &&& r.0@.len() == spec_prod(out)
            &&& r.1@.len() == spec_prod(out)
            &&& forall|f: int|
                0 <= f < spec_prod(out) ==> #[trigger] r.0@[f] == spec_bidx(
                    f,
                    0,
                    n,
                    spec_stride_seq(out),
                    spec_bstride_seq(sa@, n),
                ) && r.1@[f] == spec_bidx(f, 0, n, spec_stride_seq(out), spec_bstride_seq(sb@, n))
        }),
        forall|i: int| 0 <= i < r.0@.len() ==> #[trigger] r.0@[i] < a_len && r.1@[i] < b_len,
{
    let ghost out = out_shape@;
    let ghost n = out.len() as int;
    proof {
        lemma_prod_positive(sa@, 0);
        lemma_prod_positive(sb@, 0);
        lemma_prod_positive(out, 0);
        lemma_strides_fit_from_prod(sa@);
        lemma_strides_fit_from_prod(sb@);
        lemma_strides_fit_from_prod(out);
        lemma_compatible_broadcasts_into(sa@, sb@);
        lemma_broadcast_symmetric(sa@, sb@);
        lemma_compatible_broadcasts_into(sb@, sa@);
        assert(out.skip(0) =~= out);
        assert(sa@.skip(0) =~= sa@);
        assert(sb@.skip(0) =~= sb@);
    }
    let out_strides = compute_strides(out_shape.as_slice());
    let a_strides = compute_broadcast_strides(sa, out_shape.as_slice());
    let b_strides = compute_broadcast_strides(sb, out_shape.as_slice());
    assert(out_strides@ =~= spec_stride_seq(out));
    assert(a_strides@ =~= spec_bstride_seq(sa@, n));
    assert(b_strides@ =~= spec_bstride_seq(sb@, n));
    let mut ai: Vec<usize> = Vec::with_capacity(out_len);
    let mut bi: Vec<usize> = Vec::with_capacity(out_len);
    let mut f: usize = 0;
    while f < out_len
        invariant
            out == out_shape@,
            n == out.len(),
            out_len == spec_prod(out),
            spec_prod(sa@) == a_len,
            spec_prod(sb@) == b_len,
            spec_broadcasts_into(sa@, out),
            spec_broadcasts_into(sb@, out),
            forall|j: int| 0 <= j < sa@.len() ==> #[trigger] sa@[j] > 0,
            forall|j: int| 0 <= j < sb@.len() ==> #[trigger] sb@[j] > 0,
            forall|j: int| 0 <= j < out.len() ==> #[trigger] out[j] > 0,
            spec_strides_fit(out),
            spec_strides_fit(sa@),
            spec_strides_fit(sb@),
            out.skip(0) == out,
            sa@.skip(0) == sa@,
            sb@.skip(0) == sb@,
            out_strides@ == spec_stride_seq(out),
            a_strides@ == spec_bstride_seq(sa@, n),
            b_strides@ == spec_bstride_seq(sb@, n),
            f <= out_len,
            ai@.len() == f,
            bi@.len() == f,
            forall|t: int|
                0 <= t < f ==> #[trigger] ai@[t] == spec_bidx(t, 0, n, spec_stride_seq(out), spec_bstride_seq(sa@, n))
                    && bi@[t] == spec_bidx(t, 0, n, spec_stride_seq(out), spec_bstride_seq(sb@, n)),
            forall|t: int| 0 <= t < f ==> #[trigger] ai@[t] < a_len && bi@[t] < b_len,
        decreases out_len - f,
    {
        proof {
            lemma_bidx_bound(sa@, out, 0, f as int);
            lemma_bidx_bound(sb@, out, 0, f as int);
            assert forall|t: int| 0 <= t < n implies #[trigger] out_strides@[t] > 0 by {
                lemma_prod_positive(out, t + 1);
            }
        }
        let x = broadcast_flat_index(f, out_shape.as_slice(), out_strides.as_slice(), a_strides.as_slice());
        let y = broadcast_flat_index(f, out_shape.as_slice(), out_strides.as_slice(), b_strides.as_slice());
        assert(spec_src_suffix_prod(sa@, n, 0) == a_len);
        assert(spec_src_suffix_prod(sb@, n, 0) == b_len);
        assert(x < a_len);
        assert(y < b_len);
        ai.push(x);
        bi.push(y);
        f = f + 1;
    }
    (ai, bi)
}

/// A broadcast-compatible shape with positive dims broadcasts into the joint shape.
pub proof fn lemma_compatible_broadcasts_into(a: Seq<usize>, b: Seq<usize>)
    requires
        spec_broadcast_compatible(a, b),
        forall|j: int| 0 <= j < a.len() ==> #[trigger] a[j] > 0,
    ensures
        spec_broadcasts_into(a, spec_broadcast_shape(a, b)),
{
    let out = spec_broadcast_shape(a, b);
    let n = spec_brank(a, b);
    assert forall|d: int| 0 <= d < out.len() implies {
        let sd = #[trigger] spec_bdim(a, out.len() as int, d);
        sd == out[d] || sd == 1
    } by {
        let da = spec_bdim(a, n, d);
        let db = spec_bdim(b, n, d);
        assert(out.len() as int == n);
        if d >= n - a.len() {
            assert(a[d - (n - a.len())] > 0);
        }
        assert(da >= 1);
        assert(da == db || da == 1 || db == 1);
        assert(da <= usize::MAX);
        assert(db <= usize::MAX);
        if da != 1 {
            assert(out[d] as int == da);
        }
    }
}

/// Greatest common divisor by Euclid's algorithm.
pub open spec fn spec_gcd(a: nat, b: nat) -> nat
    decreases b,
{
    if b == 0 {
        a
    } else {
        spec_gcd(b, a % b)
    }
}

/// Greatest common divisor of two sizes.
pub fn gcd(a: usize, b: usize) -> (g: usize)
    ensures
        g == spec_gcd(a as nat, b as nat),
{
    let ghost g0 = spec_gcd(a as nat, b as nat);
    let mut a = a;
    let mut b = b;
    while b != 0
        invariant
            spec_gcd(a as nat, b as nat) == g0,
        decreases b,
    {
        let t = b;
        b = a % b;
        a = t;
    }
    a
}

/// The smallest divisor of `n` that is at least `d` (`n` itself when there is none below `n`).
pub open spec fn spec_first_divisor_from(n: nat, d: nat) -> nat
    decreases n - d,
{
    if d >= n {
        n
    } else if d > 0 && n % d == 0 {
        d
    } else {
        spec_first_divisor_from(n, d + 1)
    }
}

/// Axis size inferred for a slice whose end index is `end`, given the total element count:
/// `end` itself when it divides the count, otherwise the smallest divisor of the count
/// above `end`. A zero count gives 0 and a zero `end` gives the whole count.
pub open spec fn spec_infer_slice_axis_size(n_elems: nat, end: nat) -> nat {
    if n_elems == 0 {
        0
    } else if end == 0 {
        n_elems
    } else {
        spec_first_divisor_from(n_elems, end)
    }
}

/// `spec_first_divisor_from` is a divisor of `n`, at least `d` when `d <= n`, and no
/// divisor lies between `d` and it.
pub proof fn lemma_first_divisor_from(n: nat, d: nat)
    requires
        n > 0,
        d > 0,
    ensures
        n % spec_first_divisor_from(n, d) == 0,
        d <= n ==> d <= spec_first_divisor_from(n, d) <= n,
        forall|k: nat| d <= k < spec_first_divisor_from(n, d) ==> #[trigger] (n % k) != 0,
    decreases n - d,
{
    if d >= n {
        assert(n % n == 0) by (nonlinear_arith) requires n > 0;
    } else if n % d == 0 {
    } else {
        lemma_first_divisor_from(n, d + 1);
    }
}

/// Infer the size of the sliced axis from the element count and the slice end.
pub fn infer_slice_axis_size(n_elems: usize, end: usize) -> (axis: usize)
    ensures
        axis == spec_infer_slice_axis_size(n_elems as nat, end as nat),
        n_elems > 0 ==> n_elems % axis == 0,
        n_elems > 0 && 0 < end <= n_elems ==> end <= axis && forall|k: nat|
            end <= k < axis ==> #[trigger] (n_elems as nat % k) != 0,
{
    if n_elems == 0 {
        return 0;
    }
    if end == 0 {
        proof {
            assert(n_elems % n_elems == 0) by (nonlinear_arith) requires n_elems > 0;
        }
        return n_elems;
    }
    proof {
        lemma_first_divisor_from(n_elems as nat, end as nat);
    }
    let mut d = end;
    while d < n_elems
        invariant
            n_elems > 0,
            end > 0,
            end <= d,
            spec_first_divisor_from(n_elems as nat, d as nat) == spec_first_divisor_from(
                n_elems as nat,
                end as nat,
            ),
        decreases n_elems - d,
    {
        if n_elems % d == 0 {
            proof {
                assert(spec_first_divisor_from(n_elems as nat, d as nat) == d as nat);
                lemma_first_divisor_from(n_elems as nat, end as nat);
            }
            return d;
        }
        d = d + 1;
    }
    n_elems
}

/// Floor of the square root of `x`.
pub open spec fn spec_is_floor_sqrt(x: nat, r: nat) -> bool {
    r * r <= x < (r + 1) * (r + 1)
}

/// Integer square root (floor).
pub fn floor_sqrt(x: usize) -> (r: usize)
    ensures
        spec_is_floor_sqrt(x as nat, r as nat),
{
    let xx = x as u128;
    let mut lo: u128 = 0;
    let mut hi: u128 = xx + 1;
    proof {
        assert(xx < (xx + 1) * (xx + 1)) by (nonlinear_arith) requires xx >= 0;
    }
    while hi - lo > 1
        invariant
            xx == x as u128,
            xx <= usize::MAX,
            lo < hi,
            hi <= xx + 1,
            lo * lo <= xx,
            xx < hi * hi,
        decreases hi - lo,
    {
        let mid = lo + (hi - lo) / 2;
        proof {
            assert(mid < hi);
            assert(mid * mid <= hi * hi) by (nonlinear_arith) requires mid < hi, mid >= 0;
            assert(hi * hi <= (xx + 1) * (xx + 1)) by (nonlinear_arith) requires hi <= xx + 1;
            assert(mid * mid <= 0xffff_ffff_ffff_ffffu128 * 0xffff_ffff_ffff_ffffu128)
                by (nonlinear_arith) requires mid <= 0xffff_ffff_ffff_ffffu128, mid >= 0;
        }
        if mid * mid <= xx {
            lo = mid;
        } else {
            hi = mid;
        }
    }
    proof {
        assert(hi == lo + 1);
        assert(lo <= xx) by (nonlinear_arith) requires lo * lo <= xx, lo >= 0;
    }
    lo as usize
}

/// `2^k`.
pub open spec fn spec_two_pow(k: nat) -> nat
    decreases k,
{
    if k == 0 {
        1
    } else {
        2 * spec_two_pow((k - 1) as nat)
    }
}

/// Number of binary digits of `x` (0 for 0).
pub open spec fn spec_bitlen(x: nat) -> nat
    decreases x,
{
    if x == 0 {
        0
    } else {
        1 + spec_bitlen(x / 2)
    }
}

/// `x` rounded to single precision (24 significant bits, ties to even), as an integer.
pub open spec fn spec_f32_round(x: nat) -> nat {
    let b = spec_bitlen(x);
    if b <= 24 {
        x
    } else {
        let p = spec_two_pow((b - 24) as nat);
        let q = x / p;
        let rem = x % p;
        let half = p / 2;
        let q2 = if rem > half || (rem == half && q % 2 == 1) { q + 1 } else { q };
        q2 * p
    }
}

/// `(x as f32).sqrt() as usize` in exact integer arithmetic: `x` rounded to single
/// precision (`f`), its square root rounded to the nearest single (24 significant bits;
/// the exact root of such an `f` never lies halfway between two singles), then truncated.
/// With `2^e <= sqrt(f) < 2^(e + 1)` the root scaled by `2^(23 - e)` lies in
/// `[2^23, 2^24)`; it rounds up past its floor `r` exactly when its square exceeds
/// `(r + 1/2)^2`.
pub open spec fn spec_f32_sqrt_trunc(x: nat) -> nat {
    let f = spec_f32_round(x);
    if f == 0 {
        0
    } else {
        let e = ((spec_bitlen(f) - 1) as nat) / 2;
        if e <= 23 {
            let t = (23 - e) as nat;
            let g = f * spec_two_pow(2 * t);
            let r = spec_floor_sqrt(g);
            let rr = if g > r * r + r { r + 1 } else { r };
            rr / spec_two_pow(t)
        } else {
            let t = (e - 23) as nat;
            let d = spec_two_pow(2 * t);
            let r = spec_floor_sqrt(f / d);
            let rr = if 4 * f > d * ((2 * r + 1) * (2 * r + 1)) { r + 1 } else { r };
            rr * spec_two_pow(t)
        }
    }
}

proof fn lemma_two_pow_pos(k: nat)
    ensures
        spec_two_pow(k) >= 1,
    decreases k,
{
    if k > 0 {
        lemma_two_pow_pos((k - 1) as nat);
    }
}

proof fn lemma_two_pow_adds(a: nat, b: nat)
    ensures
        spec_two_pow(a + b) == spec_two_pow(a) * spec_two_pow(b),
    decreases b,
{
    if b > 0 {
        lemma_two_pow_adds(a, (b - 1) as nat);
        assert(spec_two_pow(a + b) == 2 * spec_two_pow((a + b - 1) as nat));
        assert(spec_two_pow(b) == 2 * spec_two_pow((b - 1) as nat));
        assert(spec_two_pow(a + b) == spec_two_pow(a) * spec_two_pow(b)) by (nonlinear_arith)
            requires spec_two_pow(a + b) == 2 * spec_two_pow((a + b - 1) as nat),
                spec_two_pow(b) == 2 * spec_two_pow((b - 1) as nat),
                spec_two_pow((a + b - 1) as nat) == spec_two_pow(a) * spec_two_pow((b - 1) as nat);
    } else {
        assert(spec_two_pow(b) == 1);
        assert(a + b == a);
    }
}

proof fn lemma_two_pow_mono(a: nat, b: nat)
    requires
        a <= b,
    ensures
        spec_two_pow(a) <= spec_two_pow(b),
    decreases b,
{
    if a < b {
        lemma_two_pow_mono(a, (b - 1) as nat);
        lemma_two_pow_pos((b - 1) as nat);
    }
}

proof fn lemma_two_pow_values()
    ensures
        spec_two_pow(8) == 256,
        spec_two_pow(24) == 0x100_0000,
        spec_two_pow(48) == 0x1_0000_0000_0000,
{
    reveal_with_fuel(spec_two_pow, 9);
    lemma_two_pow_adds(8, 8);
    lemma_two_pow_adds(16, 8);
    lemma_two_pow_adds(24, 24);
    assert(spec_two_pow(48) == 0x1_0000_0000_0000) by (nonlinear_arith)
        requires spec_two_pow(48) == spec_two_pow(24) * spec_two_pow(24), spec_two_pow(24) == 0x100_0000;
}

proof fn lemma_bitlen(x: nat)
    ensures
        x < spec_two_pow(spec_bitlen(x)),
        x > 0 ==> spec_bitlen(x) >= 1 && spec_two_pow((spec_bitlen(x) - 1) as nat) <= x,
        spec_bitlen(x) <= x,
    decreases x,
{
    if x > 0 {
        lemma_bitlen(x / 2);
        let b = spec_bitlen(x);
        assert(spec_two_pow(b) == 2 * spec_two_pow((b - 1) as nat));
        if x / 2 > 0 {
            let b2 = spec_bitlen(x / 2);
            assert(spec_two_pow(b2) == 2 * spec_two_pow((b2 - 1) as nat));
        }
    }
}

/// Number of binary digits of `x`.
fn bitlen_u128(x: u128) -> (b: u128)
    ensures
        b == spec_bitlen(x as nat),
{
    proof {
        lemma_bitlen(x as nat);
    }
    let mut v = x;
    let mut b: u128 = 0;
    while v > 0
        invariant
            b + spec_bitlen(v as nat) == spec_bitlen(x as nat),
            spec_bitlen(x as nat) <= x,
        decreases v,
    {
        assert(spec_bitlen(v as nat) == 1 + spec_bitlen((v / 2) as nat));
        v = v / 2;
        b = b + 1;
    }
    b
}

/// `2^k`, which must fit.
fn two_pow_u128(k: u128) -> (p: u128)
    requires
        spec_two_pow(k as nat) <= u128::MAX,
    ensures
        p == spec_two_pow(k as nat),
{
    let mut p: u128 = 1;
    let mut i: u128 = 0;
    while i < k
        invariant
            i <= k,
            p == spec_two_pow(i as nat),
            spec_two_pow(k as nat) <= u128::MAX,
        decreases k - i,
    {
        proof {
            lemma_two_pow_mono((i + 1) as nat, k as nat);
        }
        assert(spec_two_pow((i + 1) as nat) == 2 * spec_two_pow(i as nat));
        p = p * 2;
        i = i + 1;
    }
    p
}

/// Floor of the square root of a value below `2^64`.
fn floor_sqrt_u128(x: u128) -> (r: u128)
    requires
        x <= u64::MAX,
    ensures
        spec_is_floor_sqrt(x as nat, r as nat),
{
    let mut lo: u128 = 0;
    let mut hi: u128 = x + 1;
    proof {
        assert(x < (x + 1) * (x + 1)) by (nonlinear_arith) requires x >= 0;
    }
    while hi - lo > 1
        invariant
            x <= u64::MAX,
            lo < hi,
            hi <= x + 1,
            lo * lo <= x,
            x < hi * hi,
        decreases hi - lo,
    {
        let mid = lo + (hi - lo) / 2;
        proof {
            assert(mid * mid <= 0xffff_ffff_ffff_ffffu128 * 0xffff_ffff_ffff_ffffu128)
                by (nonlinear_arith) requires mid <= 0xffff_ffff_ffff_ffffu128, mid >= 0;
        }
        if mid * mid <= x {
            lo = mid;
        } else {
            hi = mid;
        }
    }
    lo
}

/// `x` rounded to single precision (see `spec_f32_round`).
fn f32_round(x: usize) -> (f: u128)
    ensures
        f == spec_f32_round(x as nat),
        f <= 2 * x,
        f <= spec_two_pow(spec_bitlen(x as nat)),
{
    let xx = x as u128;
    let b = bitlen_u128(xx);
    proof {
        lemma_bitlen(x as nat);
        lemma_two_pow_values();
    }
    if b <= 24 {
        return xx;
    }
    let ghost k = (b - 24) as nat;
    proof {
        lemma_two_pow_mono(k, (b - 1) as nat);
        lemma_two_pow_adds(24, k);
        lemma_two_pow_pos(k);
        assert(spec_two_pow(b as nat) == 2 * spec_two_pow((b - 1) as nat));
    }
    let p = two_pow_u128(b - 24);
    let q = xx / p;
    let rem = xx % p;
    let half = p / 2;
    assert(q < 0x100_0000) by (nonlinear_arith)
        requires q == xx / p, p > 0, xx < 0x100_0000 * p;
    let q2 = if rem > half || (rem == half && q % 2 == 1) { q + 1 } else { q };
    assert(q2 * p <= 0x100_0000 * p) by (nonlinear_arith) requires q2 <= 0x100_0000, p > 0;
    q2 * p
}

/// `(x as f32).sqrt() as usize`, computed exactly in integers (see `spec_f32_sqrt_trunc`).
pub fn f32_sqrt_trunc(x: usize) -> (h: u128)
    ensures
        h == spec_f32_sqrt_trunc(x as nat),
        x == 0 ==> h == 0,
{
    let f = f32_round(x);
    if f == 0 {
        return 0;
    }
    let fb = bitlen_u128(f);
    proof {
        lemma_bitlen(f as nat);
        lemma_two_pow_values();
    }
    let e = (fb - 1) / 2;
    proof {
        lemma_two_pow_mono((2 * e) as nat, (fb - 1) as nat);
        lemma_two_pow_mono(fb as nat, (2 * e + 2) as nat);
    }
    if e <= 23 {
        let t = 23 - e;
        proof {
            lemma_two_pow_adds((2 * e + 2) as nat, (2 * t) as nat);
            lemma_two_pow_mono((2 * t) as nat, 48);
            lemma_two_pow_pos((2 * t) as nat);
            lemma_two_pow_mono(t as nat, 48);
            lemma_two_pow_pos(t as nat);
        }
        let pt2 = two_pow_u128(2 * t);
        assert(f * pt2 < 0x1_0000_0000_0000) by (nonlinear_arith)
            requires f < spec_two_pow((2 * e + 2) as nat), pt2 > 0,
                spec_two_pow((2 * e + 2) as nat) * pt2 == 0x1_0000_0000_0000;
        let g = f * pt2;
        let r = floor_sqrt_u128(g);
        proof {
            lemma_floor_sqrt_unique(g as nat, r as nat);
        }
        assert(r < 0x100_0000) by (nonlinear_arith) requires r * r <= g, g < 0x1_0000_0000_0000, r >= 0;
        let rr = if g > r * r + r { r + 1 } else { r };
        let pt = two_pow_u128(t);
        rr / pt
    } else {
        let t = e - 23;
        proof {
            lemma_two_pow_mono((2 * t) as nat, (2 * e) as nat);
            lemma_two_pow_adds(48, (2 * t) as nat);
            lemma_two_pow_pos((2 * t) as nat);
            lemma_two_pow_mono(t as nat, (2 * t) as nat);
            lemma_two_pow_pos(t as nat);
        }
        let d = two_pow_u128(2 * t);
        let q = f / d;
        assert(q < 0x1_0000_0000_0000) by (nonlinear_arith)
            requires q == f / d, d > 0, f < 0x1_0000_0000_0000 * d;
        let r = floor_sqrt_u128(q);
        proof {
            lemma_floor_sqrt_unique(q as nat, r as nat);
        }
        assert(r < 0x100_0000) by (nonlinear_arith) requires r * r <= q, q < 0x1_0000_0000_0000, r >= 0;
        assert(f <= 0x2_0000_0000_0000_0000);
        assert((2 * r + 1) * (2 * r + 1) <= 0x10_0000_0000_0000) by (nonlinear_arith)
            requires r < 0x100_0000, r >= 0;
        assert(d * ((2 * r + 1) * (2 * r + 1)) <= f * 0x10_0000_0000_0000) by (nonlinear_arith)
            requires d <= f, (2 * r + 1) * (2 * r + 1) <= 0x10_0000_0000_0000, d > 0;
        assert(f * 0x10_0000_0000_0000 <= 0x2_0000_0000_0000_0000 * 0x10_0000_0000_0000) by (nonlinear_arith)
            requires f <= 0x2_0000_0000_0000_0000;
        let rr = if 4 * f > d * ((2 * r + 1) * (2 * r + 1)) { r + 1 } else { r };
        let pt = two_pow_u128(t);
        assert(rr * pt <= 0x100_0000 * f) by (nonlinear_arith) requires rr <= 0x100_0000, pt <= d, d <= f, pt >= 1;
        rr * pt
    }
}

/// Heuristic (C, H, W) for a batch of `n` images with `total` elements: the first of the
/// common channel counts 3, 1, 64, 128, 256, 512, 32, 16 whose per-channel area has a
/// positive height that divides it, the height being the single-precision square root of
/// the area truncated to an integer (`spec_f32_sqrt_trunc`); otherwise a single channel
/// split the same way, or a single row.
pub open spec fn spec_infer_nchw(total: nat, n: nat) -> (nat, nat, nat) {
    let per_batch = if n >= 1 { total / n } else { total };
    let cands = seq![3nat, 1nat, 64nat, 128nat, 256nat, 512nat, 32nat, 16nat];
    spec_nchw_from(per_batch, cands, 0)
}

/// Candidate search of `spec_infer_nchw` starting at candidate `i`.
pub open spec fn spec_nchw_from(per_batch: nat, cands: Seq<nat>, i: int) -> (nat, nat, nat)
    decreases cands.len() - i,
{
    if 0 <= i < cands.len() {
        let c = cands[i];
        let spatial = per_batch / c;
        let h = spec_f32_sqrt_trunc(spatial);
        if per_batch % c == 0 && h > 0 && spatial % h == 0 {
            (c, h, spatial / h)
        } else {
            spec_nchw_from(per_batch, cands, i + 1)
        }
    } else {
        let h = spec_f32_sqrt_trunc(per_batch);
        if h > 0 && per_batch % h == 0 {
            (1, h, per_batch / h)
        } else {
            (1, 1, per_batch)
        }
    }
}

/// The floor square root as a function.
pub open spec fn spec_floor_sqrt(x: nat) -> nat {
    choose|r: nat| spec_is_floor_sqrt(x, r)
}

/// The floor square root is unique.
pub proof fn lemma_floor_sqrt_unique(x: nat, r: nat)
    requires
        spec_is_floor_sqrt(x, r),
    ensures
        spec_floor_sqrt(x) == r,
{
    let q = spec_floor_sqrt(x);
    assert(spec_is_floor_sqrt(x, q));
    if q < r {
        assert((q + 1) * (q + 1) <= r * r) by (nonlinear_arith) requires q + 1 <= r;
    } else if q > r {
        assert((r + 1) * (r + 1) <= q * q) by (nonlinear_arith) requires r + 1 <= q;
    }
}

/// Heuristic to infer (C, H, W) from total element count and batch size.
pub fn infer_nchw(total: usize, n: usize) -> (chw: (usize, usize, usize))
    ensures
        (chw.0 as nat, chw.1 as nat, chw.2 as nat) == spec_infer_nchw(total as nat, n as nat),
{
    let per_batch = total / (if n >= 1 { n } else { 1 });
    let cands: [usize; 8] = [3, 1, 64, 128, 256, 512, 32, 16];
    let ghost cs = seq![3nat, 1nat, 64nat, 128nat, 256nat, 512nat, 32nat, 16nat];
    let mut i: usize = 0;
    while i < 8
        invariant
            i <= 8,
            cands@ == seq![3usize, 1usize, 64usize, 128usize, 256usize, 512usize, 32usize, 16usize],
            cs == seq![3nat, 1nat, 64nat, 128nat, 256nat, 512nat, 32nat, 16nat],
            per_batch as nat == (if n >= 1 { total as nat / n as nat } else { total as nat }),
            spec_nchw_from(per_batch as nat, cs, i as int) == spec_infer_nchw(total as nat, n as nat),
        decreases 8 - i,
    {
        let c = cands[i];
        assert(c as nat == cs[i as int]);
        if per_batch % c == 0 {
            let spatial = per_batch / c;
            let h = f32_sqrt_trunc(spatial);
            if h > 0 && (spatial as u128) % h == 0 {
                assert(h <= spatial) by (nonlinear_arith) requires h > 0, (spatial as int) % (h as int) == 0, spatial > 0;
                let hu = h as usize;
                return (c, hu, spatial / hu);
            }
        }
        i = i + 1;
    }
    let h = f32_sqrt_trunc(per_batch);
    if h > 0 && (per_batch as u128) % h == 0 {
        assert(h <= per_batch) by (nonlinear_arith) requires h > 0, (per_batch as int) % (h as int) == 0, per_batch > 0;
        let hu = h as usize;
        (1, hu, per_batch / hu)
    } else {
        (1, 1, per_batch)
    }
}

/// Resolve a size-0 sentinel to the element count of the first input: the compiled size
/// is kept when it is non-zero and divides the f32 element count of the first input;
/// otherwise that element count is used.
pub fn resolve_size(compiled_size: u32, inputs: &[&[u8]]) -> (size: usize)
    ensures
        ({
            let n_floats: nat = if inputs@.len() > 0 { inputs@[0]@.len() / 4 } else { 0 };
            size == (if compiled_size == 0 || n_floats == 0 {
                n_floats
            } else if n_floats % (compiled_size as nat) == 0 {
                compiled_size as nat
            } else {
                n_floats
            })
        }),
{
    let n_floats = if inputs.len() > 0 { inputs[0].len() / 4 } else { 0 };
    if compiled_size == 0 || n_floats == 0 {
        n_floats
    } else {
        let cs = compiled_size as usize;
        if n_floats % cs == 0 {
            cs
        } else {
            n_floats
        }
    }
}

} // verus!
