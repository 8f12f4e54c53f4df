//! Mixed-radix digits of row-major positions and sums reindexed by a permutation: the
//! arithmetic behind axis permutation and its inverse.
use vstd::prelude::*;
use vstd::arithmetic::div_mod::{lemma_fundamental_div_mod_converse, lemma_mod_breakdown};
use crate::shape::{lemma_prod_positive, lemma_prod_skip, lemma_prod_skip_end, lemma_prod_suffix_le, spec_prod, spec_stride};

verus! {

/// `perm` and `inv` are inverse permutations of `0..r`.
pub open spec fn spec_inverse_perms(perm: Seq<u8>, inv: Seq<u8>, r: nat) -> bool {
    &&& perm.len() == r
    &&& inv.len() == r
    &&& forall|d: int| 0 <= d < r ==> (#[trigger] perm[d] as int) < r && inv[perm[d] as int] as int == d
    &&& forall|i: int| 0 <= i < r ==> (#[trigger] inv[i] as int) < r && perm[inv[i] as int] as int == i
}

/// Sum of a sequence.
pub open spec fn spec_isum(s: Seq<int>) -> int
    decreases s.len(),
{
    if s.len() == 0 {
        0
    } else {
        s[0] + spec_isum(s.drop_first())
    }
}

/// `sum_{k >= d} c[k] * w[k]`.
pub open spec fn spec_wsum(c: Seq<int>, w: Seq<int>, d: int) -> int
    decreases c.len() - d,
{
    if d < 0 || d >= c.len() {
        0
    } else {
        c[d] * w[d] + spec_wsum(c, w, d + 1)
    }
}

/// The row-major strides of a shape, as integers.
pub open spec fn spec_int_strides(s: Seq<usize>) -> Seq<int> {
    Seq::new(s.len(), |d: int| spec_stride(s, d) as int)
}

/// The mixed-radix digits (coordinates) of position `x` in a shape.
pub open spec fn spec_digits(x: int, s: Seq<usize>) -> Seq<int> {
    Seq::new(s.len(), |d: int| (x / (spec_stride(s, d) as int)) % (s[d] as int))
}

proof fn lemma_isum_last(s: Seq<int>)
    requires
        s.len() > 0,
    ensures
        spec_isum(s) == spec_isum(s.drop_last()) + s.last(),
    decreases s.len(),
{
    if s.len() > 1 {
        lemma_isum_last(s.drop_first());
        assert(s.drop_first().drop_last() =~= s.drop_last().drop_first());
        assert(spec_isum(s.drop_last()) == s.drop_last()[0] + spec_isum(s.drop_last().drop_first()));
        assert(s.drop_first().last() == s.last());
    } else {
        assert(s.drop_first().len() == 0);
        assert(spec_isum(s.drop_first()) == 0);
        assert(s.drop_last().len() == 0);
        assert(spec_isum(s.drop_last()) == 0);
    }
}

proof fn lemma_isum_update(s: Seq<int>, j: int, v: int)
    requires
        0 <= j < s.len(),
    ensures
        spec_isum(s.update(j, v)) == spec_isum(s) - s[j] + v,
    decreases s.len(),
{
    if j == 0 {
        assert(s.update(0, v).drop_first() =~= s.drop_first());
    } else {
        lemma_isum_update(s.drop_first(), j - 1, v);
        assert(s.update(j, v).drop_first() =~= s.drop_first().update(j - 1, v));
    }
}

/// `p` and `q` are inverse permutations of `0..n`.
pub open spec fn spec_inverse_int_perms(p: Seq<int>, q: Seq<int>, n: nat) -> bool {
    &&& p.len() == n
    &&& q.len() == n
    &&& forall|d: int| 0 <= d < n ==> 0 <= #[trigger] p[d] < n && q[p[d]] == d
    &&& forall|i: int| 0 <= i < n ==> 0 <= #[trigger] q[i] < n && p[q[i]] == i
}

/// Removing the last position of a permutation (and its image) leaves a permutation.
proof fn lemma_shrink_perm(p: Seq<int>, q: Seq<int>, n: nat) -> (pq: (Seq<int>, Seq<int>))
    requires
        n > 0,
        spec_inverse_int_perms(p, q, n),
    ensures
        spec_inverse_int_perms(pq.0, pq.1, (n - 1) as nat),
        forall|d: int| 0 <= d < n - 1 && d != q[n - 1] ==> #[trigger] pq.0[d] == p[d],
        q[n - 1] < n - 1 ==> pq.0[q[n - 1]] == p[n - 1],
        q[n - 1] == n - 1 ==> p[n - 1] == n - 1,
{
    let last = n - 1;
    let j = q[last];
    let p2 = Seq::new(last as nat, |d: int| if d == j { p[last] } else { p[d] });
    let q2 = Seq::new(last as nat, |i: int| if q[i] == last { j } else { q[i] });
    assert forall|d: int| 0 <= d < last implies 0 <= #[trigger] p2[d] < last && q2[p2[d]] == d by {
        if d == j {
            assert(p[last] != last);
            assert(q[p[last]] == last);
        } else {
            assert(p[d] != last);
            assert(q[p[d]] == d);
        }
    }
    assert forall|i: int| 0 <= i < last implies 0 <= #[trigger] q2[i] < last && p2[q2[i]] == i by {
        if q[i] == last {
            assert(p[last] == i);
            assert(j != last);
        } else {
            assert(q[i] != j);
        }
    }
    (p2, q2)
}

/// Reindexing a sum by a permutation leaves it unchanged.
pub proof fn lemma_isum_permute(f: Seq<int>, p: Seq<int>, q: Seq<int>)
    requires
        spec_inverse_int_perms(p, q, f.len()),
    ensures
        spec_isum(Seq::new(f.len(), |d: int| f[p[d]])) == spec_isum(f),
    decreases f.len(),
{
    let n = f.len();
    if n == 0 {
        assert(Seq::new(f.len(), |d: int| f[p[d]]).len() == 0);
    } else {
        let last = n - 1;
        let j = q[last];
        let (p2, q2) = lemma_shrink_perm(p, q, n);
        let f2 = f.drop_last();
        lemma_isum_permute(f2, p2, q2);
        let g = Seq::new(n, |d: int| f[p[d]]);
        let g2 = Seq::new(f2.len(), |d: int| f2[p2[d]]);
        lemma_isum_last(g);
        lemma_isum_last(f);
        if j < last {
            assert(g2 =~= g.drop_last().update(j, f[p[last]]));
            lemma_isum_update(g.drop_last(), j, f[p[last]]);
            assert(g.drop_last()[j] == f[last]);
        } else {
            assert(g2 =~= g.drop_last());
        }
    }
}

/// Splitting the weighted sum from `d` into its first term and the rest, as a sum over a
/// sequence.
proof fn lemma_wsum_isum(c: Seq<int>, w: Seq<int>, d: int)
    requires
        c.len() == w.len(),
        0 <= d <= c.len(),
    ensures
        spec_wsum(c, w, d) == spec_isum(Seq::new(c.len(), |k: int| c[k] * w[k]).skip(d)),
    decreases c.len() - d,
{
    let s = Seq::new(c.len(), |k: int| c[k] * w[k]);
    if d == c.len() {
        assert(s.skip(d).len() == 0);
    } else {
        lemma_wsum_isum(c, w, d + 1);
        assert(s.skip(d).drop_first() =~= s.skip(d + 1));
    }
}

/// Reindexing a weighted sum by a permutation.
pub proof fn lemma_wsum_permute(c: Seq<int>, w: Seq<int>, p: Seq<int>, q: Seq<int>)
    requires
        c.len() == w.len(),
        spec_inverse_int_perms(p, q, c.len()),
    ensures
        spec_wsum(Seq::new(c.len(), |d: int| c[p[d]]), Seq::new(c.len(), |d: int| w[p[d]]), 0) == spec_wsum(c, w, 0),
{
    let n = c.len();
    let cp = Seq::new(n, |d: int| c[p[d]]);
    let wp = Seq::new(n, |d: int| w[p[d]]);
    let f = Seq::new(n, |k: int| c[k] * w[k]);
    lemma_isum_permute(f, p, q);
    lemma_wsum_isum(c, w, 0);
    lemma_wsum_isum(cp, wp, 0);
    assert(Seq::new(n, |k: int| cp[k] * wp[k]).skip(0) =~= Seq::new(n, |d: int| f[p[d]]));
    assert(f.skip(0) =~= f);
}

/// Facts about the strides of a shape with a positive product that fits a `usize`.
pub proof fn lemma_strides_positive(s: Seq<usize>, d: int)
    requires
        0 <= d < s.len(),
        0 < spec_prod(s) <= usize::MAX,
    ensures
        0 < spec_stride(s, d) <= usize::MAX,
        s[d] > 0,
        spec_prod(s.skip(d)) == (s[d] as int) * spec_stride(s, d),
{
    lemma_prod_positive(s, d + 1);
    lemma_prod_positive(s, 0);
    lemma_prod_suffix_le(s, d + 1);
    lemma_prod_skip(s, d);
}

/// The digits of `x` weighted by the strides from position `d` rebuild `x` modulo the
/// product of the dims from `d`.
pub proof fn lemma_digits_rebuild(x: int, s: Seq<usize>, d: int)
    requires
        0 <= x,
        0 <= d <= s.len(),
        0 < spec_prod(s) <= usize::MAX,
    ensures
        spec_wsum(spec_digits(x, s), spec_int_strides(s), d) == x % (spec_prod(s.skip(d)) as int),
    decreases s.len() - d,
{
    if d == s.len() {
        lemma_prod_skip_end(s);
    } else {
        lemma_digits_rebuild(x, s, d + 1);
        lemma_strides_positive(s, d);
        let st = spec_stride(s, d) as int;
        let sd = s[d] as int;
        lemma_mod_breakdown(x, st, sd);
        assert(spec_prod(s.skip(d + 1)) == spec_stride(s, d));
        assert(st * sd == sd * st) by (nonlinear_arith);
        assert(spec_digits(x, s)[d] * st == st * ((x / st) % sd)) by (nonlinear_arith)
            requires spec_digits(x, s)[d] == (x / st) % sd;
    }
}

/// Position `x` below the size of a shape has digits in range, and they rebuild it.
pub proof fn lemma_digits_in_range(x: int, s: Seq<usize>)
    requires
        0 <= x < spec_prod(s),
        spec_prod(s) <= usize::MAX,
    ensures
        forall|d: int| 0 <= d < s.len() ==> 0 <= #[trigger] spec_digits(x, s)[d] < s[d],
        spec_wsum(spec_digits(x, s), spec_int_strides(s), 0) == x,
{
    assert forall|d: int| 0 <= d < s.len() implies 0 <= #[trigger] spec_digits(x, s)[d] < s[d] by {
        lemma_strides_positive(s, d);
    }
    lemma_digits_rebuild(x, s, 0);
    assert(s.skip(0) =~= s);
    lemma_fundamental_div_mod_converse(x, spec_prod(s) as int, 0, x);
}

/// Digits in range, weighted by the strides, give a position whose digits they are.
pub proof fn lemma_compose_digits(b: Seq<int>, s: Seq<usize>)
    requires
        b.len() == s.len(),
        0 < spec_prod(s) <= usize::MAX,
        forall|d: int| 0 <= d < s.len() ==> 0 <= #[trigger] b[d] < s[d],
    ensures
        0 <= spec_wsum(b, spec_int_strides(s), 0) < spec_prod(s),
        spec_digits(spec_wsum(b, spec_int_strides(s), 0), s) == b,
{
    let c = spec_wsum(b, spec_int_strides(s), 0);
    lemma_wsum_bound(b, s, 0);
    assert(s.skip(0) =~= s);
    assert forall|d: int| 0 <= d <= s.len() implies c % (spec_prod(s.skip(d)) as int) == spec_wsum(b, spec_int_strides(s), d) by {
        lemma_wsum_mod(b, s, d);
    }
    assert forall|d: int| 0 <= d < s.len() implies #[trigger] spec_digits(c, s)[d] == b[d] by {
        lemma_strides_positive(s, d);
        lemma_wsum_bound(b, s, d + 1);
        let st = spec_stride(s, d) as int;
        let sd = s[d] as int;
        lemma_mod_breakdown(c, st, sd);
        assert(spec_prod(s.skip(d + 1)) == spec_stride(s, d));
        let big = c % (st * sd);
        assert(st * sd == sd * st) by (nonlinear_arith);
        assert(big == spec_wsum(b, spec_int_strides(s), d));
        lemma_fundamental_div_mod_converse(big, st, b[d], spec_wsum(b, spec_int_strides(s), d + 1));
        lemma_fundamental_div_mod_converse(big, st, (c / st) % sd, c % st);
    }
    assert(spec_digits(c, s) =~= b);
}

/// A weighted sum of in-range digits from `d` lies below the product of the dims from `d`.
proof fn lemma_wsum_bound(b: Seq<int>, s: Seq<usize>, d: int)
    requires
        b.len() == s.len(),
        0 <= d <= s.len(),
        0 < spec_prod(s) <= usize::MAX,
        forall|k: int| 0 <= k < s.len() ==> 0 <= #[trigger] b[k] < s[k],
    ensures
        0 <= spec_wsum(b, spec_int_strides(s), d) < spec_prod(s.skip(d)),
    decreases s.len() - d,
{
    if d == s.len() {
        lemma_prod_skip_end(s);
    } else {
        lemma_wsum_bound(b, s, d + 1);
        lemma_strides_positive(s, d);
        assert(spec_prod(s.skip(d + 1)) == spec_stride(s, d));
        let st = spec_stride(s, d) as int;
        let rest = spec_wsum(b, spec_int_strides(s), d + 1);
        assert(0 <= b[d] * st + rest < (s[d] as int) * st) by (nonlinear_arith)
            requires 0 <= b[d] < s[d], 0 <= rest < st, st > 0;
    }
}

/// The weighted sum of in-range digits, reduced modulo the product of the dims from `d`,
/// is the part of the sum from `d`.
proof fn lemma_wsum_mod(b: Seq<int>, s: Seq<usize>, d: int)
    requires
        b.len() == s.len(),
        0 <= d <= s.len(),
        0 < spec_prod(s) <= usize::MAX,
        forall|k: int| 0 <= k < s.len() ==> 0 <= #[trigger] b[k] < s[k],
    ensures
        spec_wsum(b, spec_int_strides(s), 0) % (spec_prod(s.skip(d)) as int) == spec_wsum(b, spec_int_strides(s), d),
    decreases d,
{
    let c = spec_wsum(b, spec_int_strides(s), 0);
    lemma_wsum_bound(b, s, 0);
    if d == 0 {
        lemma_wsum_bound(b, s, 0);
        assert(s.skip(0) =~= s);
        lemma_fundamental_div_mod_converse(c, spec_prod(s) as int, 0, c);
    } else {
        lemma_wsum_mod(b, s, d - 1);
        lemma_strides_positive(s, d - 1);
        lemma_wsum_bound(b, s, d);
        let st = spec_stride(s, d - 1) as int;
        let sd = s[d - 1] as int;
        assert(spec_prod(s.skip(d)) == spec_stride(s, d - 1));
        lemma_mod_breakdown(c, st, sd);
        assert(st * sd == sd * st) by (nonlinear_arith);
        let big = c % (st * sd);
        assert(big == spec_wsum(b, spec_int_strides(s), d - 1));
        lemma_fundamental_div_mod_converse(big, st, b[d - 1], spec_wsum(b, spec_int_strides(s), d));
        lemma_fundamental_div_mod_converse(big, st, (c / st) % sd, c % st);
    }
}


proof fn lemma_prod_last(s: Seq<usize>)
    requires
        s.len() > 0,
    ensures
        spec_prod(s) == spec_prod(s.drop_last()) * (s.last() as nat),
    decreases s.len(),
{
    if s.len() > 1 {
        lemma_prod_last(s.drop_first());
        assert(s.drop_first().drop_last() =~= s.drop_last().drop_first());
        assert(spec_prod(s.drop_last()) == (s[0] as nat) * spec_prod(s.drop_last().drop_first()));
        assert(s.drop_first().last() == s.last());
        let a = s[0] as nat;
        let m = spec_prod(s.drop_last().drop_first());
        let l = s.last() as nat;
        assert(spec_prod(s) == a * spec_prod(s.drop_first()));
        assert(spec_prod(s.drop_first()) == m * l);
        assert(a * (m * l) == (a * m) * l) by (nonlinear_arith);
    } else {
        assert(s.drop_first().len() == 0);
        assert(spec_prod(s.drop_first()) == 1);
        assert(s.drop_last().len() == 0);
        assert(spec_prod(s.drop_last()) == 1);
        assert(spec_prod(s) == (s[0] as nat) * 1);
        assert(s.last() == s[0]);
    }
}

proof fn lemma_prod_update(s: Seq<usize>, j: int, v: usize)
    requires
        0 <= j < s.len(),
    ensures
        spec_prod(s.update(j, v)) * (s[j] as nat) == spec_prod(s) * (v as nat),
    decreases s.len(),
{
    let a = s[0] as nat;
    if j == 0 {
        assert(s.update(0, v).drop_first() =~= s.drop_first());
        let m = spec_prod(s.drop_first());
        assert((v as nat) * m * a == a * m * (v as nat)) by (nonlinear_arith);
    } else {
        lemma_prod_update(s.drop_first(), j - 1, v);
        assert(s.update(j, v).drop_first() =~= s.drop_first().update(j - 1, v));
        let mu = spec_prod(s.drop_first().update(j - 1, v));
        let m = spec_prod(s.drop_first());
        let sj = s[j] as nat;
        assert(a * mu * sj == a * m * (v as nat)) by (nonlinear_arith) requires mu * sj == m * (v as nat);
    }
}

/// Permuting the dims of a shape leaves its product unchanged.
pub proof fn lemma_prod_permute(f: Seq<usize>, p: Seq<int>, q: Seq<int>)
    requires
        spec_inverse_int_perms(p, q, f.len()),
    ensures
        spec_prod(Seq::new(f.len(), |d: int| f[p[d]])) == spec_prod(f),
    decreases f.len(),
{
    let n = f.len();
    if n == 0 {
        assert(Seq::new(f.len(), |d: int| f[p[d]]) =~= f);
    } else {
        let last = n - 1;
        let j = q[last];
        let (p2, q2) = lemma_shrink_perm(p, q, n);
        let f2 = f.drop_last();
        lemma_prod_permute(f2, p2, q2);
        let g = Seq::new(n, |d: int| f[p[d]]);
        let g2 = Seq::new(f2.len(), |d: int| f2[p2[d]]);
        lemma_prod_last(g);
        lemma_prod_last(f);
        if j < last {
            assert(g2 =~= g.drop_last().update(j, f[p[last]]));
            lemma_prod_update(g.drop_last(), j, f[p[last]]);
            assert(g.drop_last()[j] == f[last]);
        } else {
            assert(g2 =~= g.drop_last());
        }
    }
}

} // verus!
