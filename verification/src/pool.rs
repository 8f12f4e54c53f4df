//! 2-D pooling over NCHW tensors: which input elements fall in each output's window, and a
//! pooling loop that folds them with caller-supplied accumulation steps (max, average).
use vstd::prelude::*;
use crate::error::{push_dims, spec_dims_text, ErrorView, ExecError};
use vstd::string::*;
use crate::shape::{infer_nchw, spec_infer_nchw};

verus! {

/// Shape and window of a 2-D pooling: `n` batches of `channels` planes of `h_in` x `w_in`
/// inputs and `h_out` x `w_out` outputs, a `kh` x `kw` window moved by `sh`, `sw` over the
/// input padded by `ph`, `pw` on each side.
#[derive(Debug, Clone, Copy, PartialEq, Eq, Structural)]
pub struct Pool2dGeometry {
    pub n: usize,
    pub channels: usize,
    pub h_in: usize,
    pub w_in: usize,
    pub h_out: usize,
    pub w_out: usize,
    pub kh: usize,
    pub kw: usize,
    pub sh: usize,
    pub sw: usize,
    pub ph: usize,
    pub pw: usize,
}

/// Number of outputs.
pub open spec fn spec_pool_out_len(g: Pool2dGeometry) -> int {
    g.n * g.channels * g.h_out * g.w_out
}

/// Geometries whose index arithmetic fits the machine.
pub open spec fn spec_pool_geometry_ok(g: Pool2dGeometry) -> bool {
    &&& g.n * g.channels * g.h_in * g.w_in <= usize::MAX
    &&& g.n * g.channels * g.h_out * g.w_out <= usize::MAX
    &&& g.channels * g.h_out * g.w_out <= usize::MAX
    &&& g.h_out * g.w_out <= usize::MAX
    &&& g.kh * g.kw <= usize::MAX
    &&& g.h_out * g.sh + g.kh <= isize::MAX
    &&& g.w_out * g.sw + g.kw <= isize::MAX
    &&& g.ph <= isize::MAX
    &&& g.pw <= isize::MAX
}

/// Batch, channel, output row and output column of output `f`.
pub open spec fn spec_pool_coords(g: Pool2dGeometry, f: int) -> (int, int, int, int) {
    let chw = g.channels * g.h_out * g.w_out;
    let hw = g.h_out * g.w_out;
    let rem = f % chw;
    let rem2 = rem % hw;
    (f / chw, rem / hw, rem2 / (g.w_out as int), rem2 % (g.w_out as int))
}

/// Input row and column seen by window tap `k` (row-major over the window) of output `f`.
pub open spec fn spec_pool_tap(g: Pool2dGeometry, f: int, k: int) -> (int, int) {
    let (b, c, oh, ow) = spec_pool_coords(g, f);
    (oh * g.sh + k / (g.kw as int) - g.ph, ow * g.sw + k % (g.kw as int) - g.pw)
}

/// Flat input index of tap `k` of output `f`.
pub open spec fn spec_pool_tap_index(g: Pool2dGeometry, f: int, k: int) -> int {
    let (b, c, oh, ow) = spec_pool_coords(g, f);
    let (iy, ix) = spec_pool_tap(g, f, k);
    ((b * g.channels + c) * g.h_in + iy) * g.w_in + ix
}

/// Whether tap `k` of output `f` lands inside the (unpadded) input and the data.
pub open spec fn spec_pool_tap_in(g: Pool2dGeometry, data_len: nat, f: int, k: int) -> bool {
    let (iy, ix) = spec_pool_tap(g, f, k);
    &&& 0 <= iy < g.h_in
    &&& 0 <= ix < g.w_in
    &&& spec_pool_tap_index(g, f, k) < data_len
}

/// The input values in the window of output `f` seen by its first `k` taps, in tap order.
pub open spec fn spec_pool_window_prefix<T>(data: Seq<T>, g: Pool2dGeometry, f: int, k: int) -> Seq<T>
    decreases k,
{
    if k <= 0 {
        Seq::empty()
    } else {
        let prev = spec_pool_window_prefix(data, g, f, k - 1);
        if spec_pool_tap_in(g, data.len(), f, k - 1) {
            prev.push(data[spec_pool_tap_index(g, f, k - 1)])
        } else {
            prev
        }
    }
}

/// The input values in the window of output `f`, in tap order.
pub open spec fn spec_pool_window<T>(data: Seq<T>, g: Pool2dGeometry, f: int) -> Seq<T> {
    spec_pool_window_prefix(data, g, f, g.kh * g.kw)
}

/// `accs` lists the accumulators of a fold of `vals` into `init` with `fold`, one step
/// after another.
pub open spec fn spec_fold_chain<T, A, F: Fn(A, T) -> A>(fold: F, init: A, vals: Seq<T>, accs: Seq<A>) -> bool {
    &&& accs.len() == vals.len() + 1
    &&& accs[0] == init
    &&& forall|i: int| 0 <= i < vals.len() ==> call_ensures(fold, (accs[i], vals[i]), #[trigger] accs[i + 1])
}

/// `acc` is a possible result of folding `vals` into `init` with `fold`.
pub open spec fn spec_folds<T, A, F: Fn(A, T) -> A>(fold: F, init: A, vals: Seq<T>, acc: A) -> bool {
    exists|accs: Seq<A>| #[trigger] spec_fold_chain(fold, init, vals, accs) && accs.last() == acc
}

/// Output `f` of the pooling: `finalize` of the fold of its window.
pub open spec fn spec_pooled<T, A, F: Fn(A, T) -> A, G: Fn(A) -> T>(
    data: Seq<T>,
    g: Pool2dGeometry,
    init: A,
    fold: F,
    finalize: G,
    f: int,
    out: T,
) -> bool {
    exists|acc: A| #[trigger] spec_folds(fold, init, spec_pool_window(data, g, f), acc) && call_ensures(finalize, (acc,), out)
}

/// Coordinates of an output lie in range, and its flat index decomposes into them.
proof fn lemma_pool_coords(g: Pool2dGeometry, f: int)
    requires
        0 <= f < spec_pool_out_len(g),
    ensures
        ({
            let (b, c, oh, ow) = spec_pool_coords(g, f);
            &&& 0 <= b < g.n
            &&& 0 <= c < g.channels
            &&& 0 <= oh < g.h_out
            &&& 0 <= ow < g.w_out
        }),
{
    let chw = g.channels * g.h_out * g.w_out;
    let hw = g.h_out * g.w_out;
    assert(g.n * g.channels * g.h_out * g.w_out == g.n * chw) by (nonlinear_arith)
        requires chw == g.channels * g.h_out * g.w_out;
    assert(chw > 0) by (nonlinear_arith) requires f < g.n * chw, 0 <= f;
    assert(f / chw < g.n) by (nonlinear_arith) requires f < g.n * chw, 0 <= f, chw > 0;
    assert(chw == g.channels * hw) by (nonlinear_arith) requires chw == g.channels * g.h_out * g.w_out, hw == g.h_out * g.w_out;
    assert(hw > 0 && g.channels > 0) by (nonlinear_arith) requires chw == g.channels * hw, chw > 0, hw >= 0;
    let rem = f % chw;
    assert(rem / hw < g.channels) by (nonlinear_arith) requires 0 <= rem < chw, chw == g.channels * hw, hw > 0;
    assert(g.w_out > 0) by (nonlinear_arith) requires hw == g.h_out * g.w_out, hw > 0;
    let rem2 = rem % hw;
    assert(rem2 / (g.w_out as int) < g.h_out) by (nonlinear_arith) requires 0 <= rem2 < hw, hw == g.h_out * g.w_out, g.w_out > 0;
}

/// The flat input index of an in-range tap is below the input size.
proof fn lemma_pool_index_bound(g: Pool2dGeometry, b: int, c: int, iy: int, ix: int)
    requires
        0 <= b < g.n,
        0 <= c < g.channels,
        0 <= iy < g.h_in,
        0 <= ix < g.w_in,
    ensures
        0 <= b * g.channels + c < g.n * g.channels * g.h_in * g.w_in,
        0 <= (b * g.channels + c) * g.h_in + iy < g.n * g.channels * g.h_in * g.w_in,
        0 <= ((b * g.channels + c) * g.h_in + iy) * g.w_in + ix < g.n * g.channels * g.h_in * g.w_in,
{
    let bc = b * g.channels + c;
    assert(0 <= bc < g.n * g.channels) by (nonlinear_arith) requires 0 <= b < g.n, 0 <= c < g.channels, bc == b * g.channels + c;
    let row = bc * g.h_in + iy;
    assert(0 <= row < g.n * g.channels * g.h_in) by (nonlinear_arith)
        requires 0 <= bc < g.n * g.channels, 0 <= iy < g.h_in, row == bc * g.h_in + iy;
    assert(0 <= row * g.w_in + ix < g.n * g.channels * g.h_in * g.w_in) by (nonlinear_arith)
        requires 0 <= row < g.n * g.channels * g.h_in, 0 <= ix < g.w_in;
    assert(g.n * g.channels <= g.n * g.channels * g.h_in * g.w_in) by (nonlinear_arith)
        requires g.h_in >= 1, g.w_in >= 1, g.n >= 0, g.channels >= 0;
    assert(g.n * g.channels * g.h_in <= g.n * g.channels * g.h_in * g.w_in) by (nonlinear_arith)
        requires g.w_in >= 1, g.n >= 0, g.channels >= 0, g.h_in >= 0;
}

/// Output `f` is at batch `b`, channel `c`, row `oh` and column `ow`, each in range, with
/// `f` their row-major flat index.
pub proof fn lemma_pool_output_coords(g: Pool2dGeometry, f: int)
    requires
        0 <= f < spec_pool_out_len(g),
    ensures
        ({
            let (b, c, oh, ow) = spec_pool_coords(g, f);
            &&& 0 <= b < g.n
            &&& 0 <= c < g.channels
            &&& 0 <= oh < g.h_out
            &&& 0 <= ow < g.w_out
            &&& f == ((b * g.channels + c) * g.h_out + oh) * g.w_out + ow
        }),
{
    lemma_pool_coords(g, f);
    let chw = g.channels * g.h_out * g.w_out;
    let hw = g.h_out * g.w_out;
    let (b, c, oh, ow) = spec_pool_coords(g, f);
    assert(chw == g.channels * hw) by (nonlinear_arith) requires chw == g.channels * g.h_out * g.w_out, hw == g.h_out * g.w_out;
    assert(hw > 0 && chw > 0) by (nonlinear_arith) requires chw == g.channels * hw, 0 <= c < g.channels, 0 <= oh < g.h_out, 0 <= ow < g.w_out, hw == g.h_out * g.w_out;
    let rem = f % chw;
    let rem2 = rem % hw;
    assert(f == b * chw + rem) by (nonlinear_arith) requires b == f / chw, rem == f % chw, chw > 0;
    assert(rem == c * hw + rem2) by (nonlinear_arith) requires c == rem / hw, rem2 == rem % hw, hw > 0;
    assert(g.w_out > 0);
    assert(rem2 == oh * g.w_out + ow) by (nonlinear_arith)
        requires oh == rem2 / (g.w_out as int), ow == rem2 % (g.w_out as int), g.w_out > 0;
    assert(((b * g.channels + c) * g.h_out + oh) * g.w_out + ow == b * chw + c * hw + oh * g.w_out + ow) by (nonlinear_arith)
        requires chw == g.channels * hw, hw == g.h_out * g.w_out;
}

/// Every input a window reads lies in the window's rectangle: tap `k` of output
/// `(b, c, oh, ow)` that lands in the input reads row `iy` and column `ix` of plane
/// `(b, c)` with `oh * sh <= iy + ph < oh * sh + kh` and `ow * sw <= ix + pw < ow * sw + kw`.
pub proof fn lemma_pool_tap_in_window(g: Pool2dGeometry, data_len: nat, f: int, k: int)
    requires
        0 <= f < spec_pool_out_len(g),
        0 <= k < g.kh * g.kw,
        spec_pool_tap_in(g, data_len, f, k),
    ensures
        ({
            let (b, c, oh, ow) = spec_pool_coords(g, f);
            let (iy, ix) = spec_pool_tap(g, f, k);
            &&& 0 <= iy < g.h_in
            &&& 0 <= ix < g.w_in
            &&& oh * g.sh <= iy + g.ph < oh * g.sh + g.kh
            &&& ow * g.sw <= ix + g.pw < ow * g.sw + g.kw
            &&& spec_pool_tap_index(g, f, k) == ((b * g.channels + c) * g.h_in + iy) * g.w_in + ix
        }),
{
    assert(g.kw > 0) by (nonlinear_arith) requires 0 <= k < g.kh * g.kw;
    assert(k / (g.kw as int) < g.kh) by (nonlinear_arith) requires 0 <= k < g.kh * g.kw, g.kw > 0;
}

/// Every input in a window's rectangle is read by the window: a row `iy` and column `ix`
/// of the input with `oh * sh <= iy + ph < oh * sh + kh` and `ow * sw <= ix + pw < ow *
/// sw + kw` is tap `(iy + ph - oh * sh) * kw + (ix + pw - ow * sw)` of output
/// `(b, c, oh, ow)`.
pub proof fn lemma_pool_window_covers(g: Pool2dGeometry, f: int, iy: int, ix: int)
    requires
        0 <= f < spec_pool_out_len(g),
        0 <= iy < g.h_in,
        0 <= ix < g.w_in,
        ({
            let (b, c, oh, ow) = spec_pool_coords(g, f);
            &&& oh * g.sh <= iy + g.ph < oh * g.sh + g.kh
            &&& ow * g.sw <= ix + g.pw < ow * g.sw + g.kw
        }),
    ensures
        ({
            let (b, c, oh, ow) = spec_pool_coords(g, f);
            let k = (iy + g.ph - oh * g.sh) * g.kw + (ix + g.pw - ow * g.sw);
            &&& 0 <= k < g.kh * g.kw
            &&& spec_pool_tap(g, f, k) == (iy, ix)
        }),
{
    let (b, c, oh, ow) = spec_pool_coords(g, f);
    let dy = iy + g.ph - oh * g.sh;
    let dx = ix + g.pw - ow * g.sw;
    let k = dy * g.kw + dx;
    assert(0 <= dy < g.kh && 0 <= dx < g.kw);
    assert(0 <= k < g.kh * g.kw) by (nonlinear_arith) requires 0 <= dy < g.kh, 0 <= dx < g.kw, k == dy * g.kw + dx;
    assert(k / (g.kw as int) == dy && k % (g.kw as int) == dx) by (nonlinear_arith)
        requires 0 <= dx < g.kw, k == dy * g.kw + dx, dy >= 0;
}

/// Fold the window of output `f` (coordinates `b`, `c`, `oh`, `ow`) into `init`.
fn pool_window_fold<T: Copy, A: Copy, F: Fn(A, T) -> A>(
    data: &[T],
    g: &Pool2dGeometry,
    f: usize,
    b: usize,
    c: usize,
    oh: usize,
    ow: usize,
    init: A,
    fold: &F,
) -> (acc: A)
    requires
        spec_pool_geometry_ok(*g),
        0 <= f < spec_pool_out_len(*g),
        (b as int, c as int, oh as int, ow as int) == spec_pool_coords(*g, f as int),
        forall|a: A, v: T| #[trigger] fold.requires((a, v)),
    ensures
        spec_folds(*fold, init, spec_pool_window(data@, *g, f as int), acc),
{
    proof {
        lemma_pool_coords(*g, f as int);
    }
    let taps = g.kh * g.kw;
    let kw = g.kw;
    let mut acc = init;
    let ghost mut accs: Seq<A> = seq![init];
    let mut k: usize = 0;
    assert(spec_pool_window_prefix(data@, *g, f as int, 0) =~= Seq::<T>::empty());
    while k < taps
        invariant
            spec_pool_geometry_ok(*g),
            0 <= f < spec_pool_out_len(*g),
            (b as int, c as int, oh as int, ow as int) == spec_pool_coords(*g, f as int),
            b < g.n,
            c < g.channels,
            oh < g.h_out,
            ow < g.w_out,
            forall|a: A, v: T| #[trigger] fold.requires((a, v)),
            taps == g.kh * g.kw,
            kw == g.kw,
            k <= taps,
            spec_fold_chain(*fold, init, spec_pool_window_prefix(data@, *g, f as int, k as int), accs),
            accs.last() == acc,
        decreases taps - k,
    {
        let ghost prev = acc;
        let ghost before = spec_pool_window_prefix(data@, *g, f as int, k as int);
        assert(kw > 0) by (nonlinear_arith) requires k < taps, taps == g.kh * kw;
        let ky = k / kw;
        let kx = k % kw;
        proof {
            assert(ky < g.kh) by (nonlinear_arith) requires k < taps, taps == g.kh * kw, ky == k / kw, kw > 0;
            assert(oh * g.sh + g.sh <= g.h_out * g.sh) by (nonlinear_arith) requires oh < g.h_out;
            assert(ow * g.sw + g.sw <= g.w_out * g.sw) by (nonlinear_arith) requires ow < g.w_out;
        }
        let oy = oh * g.sh + ky;
        let ox = ow * g.sw + kx;
        proof {
            let (siy, six) = spec_pool_tap(*g, f as int, k as int);
            assert(siy == oy - g.ph);
            assert(six == ox - g.pw);
            assert(spec_pool_window_prefix(data@, *g, f as int, k + 1) == (if spec_pool_tap_in(*g, data@.len(), f as int, k as int) {
                before.push(data@[spec_pool_tap_index(*g, f as int, k as int)])
            } else {
                before
            }));
        }
        if oy >= g.ph && oy - g.ph < g.h_in && ox >= g.pw && ox - g.pw < g.w_in {
            let iy = oy - g.ph;
            let ix = ox - g.pw;
            proof {
                lemma_pool_index_bound(*g, b as int, c as int, iy as int, ix as int);
            }
            let idx = ((b * g.channels + c) * g.h_in + iy) * g.w_in + ix;
            assert(idx == spec_pool_tap_index(*g, f as int, k as int));
            if idx < data.len() {
                acc = fold(acc, data[idx]);
                proof {
                    let after = spec_pool_window_prefix(data@, *g, f as int, k + 1);
                    assert(spec_pool_tap_in(*g, data@.len(), f as int, k as int));
                    assert(after == before.push(data@[idx as int]));
                    let old_accs = accs;
                    accs = accs.push(acc);
                    assert forall|i: int| 0 <= i < after.len() implies call_ensures(*fold, (accs[i], after[i]), #[trigger] accs[i + 1]) by {
                        if i < before.len() {
                            assert(accs[i] == old_accs[i]);
                            assert(accs[i + 1] == old_accs[i + 1]);
                            assert(after[i] == before[i]);
                        } else {
                            assert(accs[i] == prev);
                        }
                    }
                }
            } else {
                assert(!spec_pool_tap_in(*g, data@.len(), f as int, k as int));
            }
        } else {
            assert(!spec_pool_tap_in(*g, data@.len(), f as int, k as int));
        }
        k = k + 1;
    }
    assert(spec_fold_chain(*fold, init, spec_pool_window(data@, *g, f as int), accs));
    acc
}

/// Pool an NCHW tensor: each output is `finalize` of `fold` applied, from `init`, to the
/// input values in its window (taps outside the input or the data are skipped).
pub fn pool_2d<T: Copy, A: Copy, F: Fn(A, T) -> A, G: Fn(A) -> T>(
    data: &[T],
    g: &Pool2dGeometry,
    init: A,
    fold: F,
    finalize: G,
) -> (out: Vec<T>)
    requires
        spec_pool_geometry_ok(*g),
        forall|a: A, v: T| #[trigger] fold.requires((a, v)),
        forall|a: A| #[trigger] finalize.requires((a,)),
    ensures
        out@.len() == spec_pool_out_len(*g),
        forall|f: int| 0 <= f < out@.len() ==> #[trigger] spec_pooled(data@, *g, init, fold, finalize, f, out@[f]),
{
    proof {
        assert(g.n * g.channels * g.h_out * g.w_out == g.n * (g.channels * g.h_out * g.w_out)) by (nonlinear_arith);
        assert(g.channels * g.h_out * g.w_out == g.channels * (g.h_out * g.w_out)) by (nonlinear_arith);
    }
    let hw = g.h_out * g.w_out;
    let chw = g.channels * hw;
    let out_len = g.n * chw;
    let mut out: Vec<T> = Vec::with_capacity(out_len);
    let mut f: usize = 0;
    while f < out_len
        invariant
            spec_pool_geometry_ok(*g),
            hw == g.h_out * g.w_out,
            chw == g.channels * g.h_out * g.w_out,
            out_len == spec_pool_out_len(*g),
            forall|a: A, v: T| #[trigger] fold.requires((a, v)),
            forall|a: A| #[trigger] finalize.requires((a,)),
            f <= out_len,
            out@.len() == f,
            forall|t: int| 0 <= t < f ==> #[trigger] spec_pooled(data@, *g, init, fold, finalize, t, out@[t]),
        decreases out_len - f,
    {
        proof {
            lemma_pool_coords(*g, f as int);
            assert(chw > 0 && hw > 0 && g.w_out > 0) by (nonlinear_arith)
                requires f < out_len, out_len == g.n * g.channels * g.h_out * g.w_out, chw == g.channels * g.h_out * g.w_out,
                    hw == g.h_out * g.w_out, 0 <= f;
        }
        let b = f / chw;
        let rem = f % chw;
        let c = rem / hw;
        let rem2 = rem % hw;
        let oh = rem2 / g.w_out;
        let ow = rem2 % g.w_out;
        let acc = pool_window_fold(data, g, f, b, c, oh, ow, init, &fold);
        let v = finalize(acc);
        out.push(v);
        proof {
            assert(spec_pooled(data@, *g, init, fold, finalize, f as int, v));
        }
        f = f + 1;
    }
    out
}

/// Output size of a pooling along one axis: `(input + 2 * pad - kernel) / stride + 1`.
pub open spec fn spec_pool_out(input: nat, kernel: nat, stride: nat, pad: nat) -> nat {
    ((input + 2 * pad - kernel) / (stride as int) + 1) as nat
}

/// The pooled extent along an axis is the number of window positions that fit: at least
/// one window, the last window (starting at `(out - 1) * stride`) ends inside the padded
/// input, and one more stride would take it past the end.
pub proof fn lemma_pool_out_windows_fit(input: nat, kernel: nat, stride: nat, pad: nat)
    requires
        stride > 0,
        kernel <= input + 2 * pad,
    ensures
        spec_pool_out(input, kernel, stride, pad) >= 1,
        (spec_pool_out(input, kernel, stride, pad) - 1) * stride + kernel <= input + 2 * pad,
        spec_pool_out(input, kernel, stride, pad) * stride + kernel > input + 2 * pad,
        spec_pool_out(input, kernel, stride, pad) <= input + 2 * pad - kernel + 1,
{
    let span = (input + 2 * pad - kernel) as nat;
    let q = span / stride;
    assert(q * stride <= span < q * stride + stride) by (nonlinear_arith)
        requires q == span / stride, stride > 0;
    assert(q <= span) by (nonlinear_arith) requires q * stride <= span, stride > 0;
    assert(spec_pool_out(input, kernel, stride, pad) == q + 1);
    assert((q + 1) * stride == q * stride + stride) by (nonlinear_arith);
}

/// A pooling's output map: every output row and column is the start of a window that
/// fits in the padded input, and no further window fits.
pub proof fn lemma_pool2d_geometry_windows_fit(total: nat, kh: usize, kw: usize, sh: usize, sw: usize, ph: usize, pw: usize)
    requires
        sh > 0,
        sw > 0,
        ({
            let (c, h, w) = spec_infer_nchw(total, 1);
            &&& kh <= h + 2 * ph < usize::MAX
            &&& kw <= w + 2 * pw < usize::MAX
        }),
    ensures
        ({
            let g = spec_pool2d_geometry(total, kh, kw, sh, sw, ph, pw);
            &&& g.h_out >= 1
            &&& g.w_out >= 1
            &&& (g.h_out - 1) * sh + kh <= g.h_in + 2 * ph < g.h_out * sh + kh
            &&& (g.w_out - 1) * sw + kw <= g.w_in + 2 * pw < g.w_out * sw + kw
        }),
{
    let (c, h, w) = spec_infer_nchw(total, 1);
    lemma_pool_out_windows_fit(h, kh as nat, sh as nat, ph as nat);
    lemma_pool_out_windows_fit(w, kw as nat, sw as nat, pw as nat);
}

/// The geometry `pool2d_geometry` builds for a single-batch tensor of `total` elements.
pub open spec fn spec_pool2d_geometry(total: nat, kh: usize, kw: usize, sh: usize, sw: usize, ph: usize, pw: usize) -> Pool2dGeometry {
    let (c, h, w) = spec_infer_nchw(total, 1);
    Pool2dGeometry {
        n: 1,
        channels: c as usize,
        h_in: h as usize,
        w_in: w as usize,
        h_out: spec_pool_out(h, kh as nat, sh as nat, ph as nat) as usize,
        w_out: spec_pool_out(w, kw as nat, sw as nat, pw as nat) as usize,
        kh,
        kw,
        sh,
        sw,
        ph,
        pw,
    }
}

/// Geometry of a 2-D pooling over a single-batch tensor of `total` elements whose
/// channels, height and width are inferred by `infer_nchw`.
pub fn pool2d_geometry(total: usize, kh: usize, kw: usize, sh: usize, sw: usize, ph: usize, pw: usize) -> (g: Pool2dGeometry)
    requires
        sh > 0,
        sw > 0,
        ({
            let (c, h, w) = spec_infer_nchw(total as nat, 1);
            &&& kh <= h + 2 * ph < usize::MAX
            &&& kw <= w + 2 * pw < usize::MAX
        }),
    ensures
        g == spec_pool2d_geometry(total as nat, kh, kw, sh, sw, ph, pw),
        g.h_out >= 1 && g.w_out >= 1,
        (g.h_out - 1) * sh + kh <= g.h_in + 2 * ph < g.h_out * sh + kh,
        (g.w_out - 1) * sw + kw <= g.w_in + 2 * pw < g.w_out * sw + kw,
{
    proof {
        lemma_pool2d_geometry_windows_fit(total as nat, kh, kw, sh, sw, ph, pw);
    }
    let (channels, h_in, w_in) = infer_nchw(total, 1);
    let h_out = (h_in + 2 * ph - kh) / sh + 1;
    let w_out = (w_in + 2 * pw - kw) / sw + 1;
    Pool2dGeometry { n: 1, channels, h_in, w_in, h_out, w_out, kh, kw, sh, sw, ph, pw }
}

/// Whether `a * b * c * d` fits in a `usize`.
fn product_fits(a: usize, b: usize, c: usize, d: usize) -> (r: bool)
    ensures
        r == (a * b * c * d <= usize::MAX),
{
    if a == 0 || b == 0 || c == 0 || d == 0 {
        assert(a * b * c * d == 0) by (nonlinear_arith) requires a == 0 || b == 0 || c == 0 || d == 0;
        return true;
    }
    match a.checked_mul(b) {
        None => {
            assert(a * b <= a * b * c * d) by (nonlinear_arith) requires c >= 1, d >= 1, a >= 1, b >= 1;
            false
        },
        Some(ab) => match ab.checked_mul(c) {
            None => {
                assert(a * b * c <= a * b * c * d) by (nonlinear_arith) requires ab == a * b, d >= 1, a >= 1, b >= 1, c >= 1;
                false
            },
            Some(abc) => match abc.checked_mul(d) {
                None => false,
                Some(_) => true,
            },
        },
    }
}

impl Pool2dGeometry {
    /// Whether the index arithmetic of this geometry fits the machine
    /// (`spec_pool_geometry_ok`).
    pub fn fits(&self) -> (r: bool)
        ensures
            r == spec_pool_geometry_ok(*self),
    {
        let imax = isize::MAX as usize;
        let g = *self;
        if !product_fits(g.n, g.channels, g.h_in, g.w_in) || !product_fits(g.n, g.channels, g.h_out, g.w_out)
            || !product_fits(1, g.channels, g.h_out, g.w_out) || !product_fits(1, 1, g.h_out, g.w_out)
            || !product_fits(1, 1, g.kh, g.kw) {
            proof {
                assert(1 * g.channels * g.h_out * g.w_out == g.channels * g.h_out * g.w_out) by (nonlinear_arith);
                assert(1 * 1 * g.h_out * g.w_out == g.h_out * g.w_out) by (nonlinear_arith);
                assert(1 * 1 * g.kh * g.kw == g.kh * g.kw) by (nonlinear_arith);
            }
            return false;
        }
        proof {
            assert(1 * g.channels * g.h_out * g.w_out == g.channels * g.h_out * g.w_out) by (nonlinear_arith);
            assert(1 * 1 * g.h_out * g.w_out == g.h_out * g.w_out) by (nonlinear_arith);
            assert(1 * 1 * g.kh * g.kw == g.kh * g.kw) by (nonlinear_arith);
        }
        if g.ph > imax || g.pw > imax {
            return false;
        }
        let rows = match g.h_out.checked_mul(g.sh) {
            Some(v) => v,
            None => return false,
        };
        let cols = match g.w_out.checked_mul(g.sw) {
            Some(v) => v,
            None => return false,
        };
        rows <= imax && g.kh <= imax - rows && cols <= imax && g.kw <= imax - cols
    }
}

/// Fold `data[a..b]` into `init` with `fold`, left to right.
pub fn fold_range<T: Copy, A: Copy, F: Fn(A, T) -> A>(data: &[T], a: usize, b: usize, init: A, fold: &F) -> (acc: A)
    requires
        a <= b <= data@.len(),
        forall|x: A, v: T| #[trigger] fold.requires((x, v)),
    ensures
        spec_folds(*fold, init, data@.subrange(a as int, b as int), acc),
{
    let mut acc = init;
    let ghost mut accs: Seq<A> = seq![init];
    let mut i: usize = a;
    while i < b
        invariant
            a <= i <= b <= data@.len(),
            forall|x: A, v: T| #[trigger] fold.requires((x, v)),
            spec_fold_chain(*fold, init, data@.subrange(a as int, i as int), accs),
            accs.last() == acc,
        decreases b - i,
    {
        let ghost prev = acc;
        let ghost before = data@.subrange(a as int, i as int);
        acc = fold(acc, data[i]);
        proof {
            let after = data@.subrange(a as int, i + 1);
            assert(after == before.push(data@[i as int]));
            let old_accs = accs;
            accs = accs.push(acc);
            assert forall|t: int| 0 <= t < after.len() implies call_ensures(*fold, (accs[t], after[t]), #[trigger] accs[t + 1]) by {
                if t < before.len() {
                    assert(accs[t] == old_accs[t]);
                    assert(accs[t + 1] == old_accs[t + 1]);
                    assert(after[t] == before[t]);
                } else {
                    assert(accs[t] == prev);
                }
            }
        }
        i = i + 1;
    }
    assert(spec_fold_chain(*fold, init, data@.subrange(a as int, b as int), accs));
    acc
}

/// Number of segments of `seg` elements (out of `count`) that `reduce_segments` reduces for
/// `len` elements: whole segments only, or also a final partial one when `partial`.
pub open spec fn spec_segment_count(len: nat, count: nat, seg: nat, partial: bool) -> nat {
    let avail = if seg == 0 {
        count
    } else if partial {
        ((len + seg - 1) / (seg as int)) as nat
    } else {
        len / seg
    };
    if avail <= count { avail } else { count }
}

/// Elements of segment `i`: `data[i * seg..(i + 1) * seg]`, cut at the end of the data.
pub open spec fn spec_segment<T>(data: Seq<T>, i: int, seg: int) -> Seq<T> {
    let end = if (i + 1) * seg <= data.len() { (i + 1) * seg } else { data.len() as int };
    data.subrange(i * seg, end)
}

/// `out` is `finalize` of the fold of segment `i`.
pub open spec fn spec_reduced<T, A, F: Fn(A, T) -> A, G: Fn(A) -> T>(
    data: Seq<T>,
    seg: int,
    init: A,
    fold: F,
    finalize: G,
    i: int,
    out: T,
) -> bool {
    exists|acc: A| #[trigger] spec_folds(fold, init, spec_segment(data, i, seg), acc) && call_ensures(finalize, (acc,), out)
}

/// Reduce consecutive segments of `seg` elements: for each of the first `count` segments
/// that lies inside the data (or, with `partial`, that starts inside it), `finalize` of the
/// fold of its elements (global pooling over channel planes).
pub fn reduce_segments<T: Copy, A: Copy, F: Fn(A, T) -> A, G: Fn(A) -> T>(
    data: &[T],
    count: usize,
    seg: usize,
    partial: bool,
    init: A,
    fold: F,
    finalize: G,
) -> (out: Vec<T>)
    requires
        count * seg <= usize::MAX,
        forall|x: A, v: T| #[trigger] fold.requires((x, v)),
        forall|x: A| #[trigger] finalize.requires((x,)),
    ensures
        out@.len() == spec_segment_count(data@.len(), count as nat, seg as nat, partial),
        forall|i: int| 0 <= i < out@.len() ==> #[trigger] spec_reduced(data@, seg as int, init, fold, finalize, i, out@[i]),
{
    let len = data.len();
    let mut out: Vec<T> = Vec::new();
    let mut i: usize = 0;
    let ghost m = spec_segment_count(len as nat, count as nat, seg as nat, partial);
    proof {
        if seg > 0 {
            let li = len as int;
            let si = seg as int;
            if partial {
                assert(m * si < li + si) by (nonlinear_arith) requires m <= (li + si - 1) / si, si > 0, li >= 0;
            } else {
                assert(m * si <= li) by (nonlinear_arith) requires m <= li / si, si > 0, li >= 0;
            }
        }
    }
    while i < count
        invariant
            len == data@.len(),
            count * seg <= usize::MAX,
            m == spec_segment_count(len as nat, count as nat, seg as nat, partial),
            seg > 0 && partial ==> m * seg < len + seg,
            seg > 0 && !partial ==> m * seg <= len,
            i <= count,
            out@.len() == if i <= m { i as nat } else { m },
            forall|x: A, v: T| #[trigger] fold.requires((x, v)),
            forall|x: A| #[trigger] finalize.requires((x,)),
            forall|t: int| 0 <= t < out@.len() ==> #[trigger] spec_reduced(data@, seg as int, init, fold, finalize, t, out@[t]),
        decreases count - i,
    {
        proof {
            assert(i * seg + seg <= count * seg) by (nonlinear_arith) requires i < count;
        }
        let start = i * seg;
        let end = start + seg;
        if end <= len || (partial && start < len) {
            let stop = if end <= len { end } else { len };
            proof {
                if seg == 0 {
                    assert(m == count);
                } else if partial {
                    let li = len as int;
                    let si = seg as int;
                    let q = (li + si - 1) / si;
                    assert(i < q) by (nonlinear_arith)
                        requires start == i * si, start < li, si > 0, q == (li + si - 1) / si;
                } else {
                    let li = len as int;
                    let si = seg as int;
                    let q = li / si;
                    assert(i < q) by (nonlinear_arith)
                        requires end == i * si + si, end <= li, si > 0, q == li / si;
                }
                assert(out@.len() == i);
            }
            let acc = fold_range(data, start, stop, init, &fold);
            let v = finalize(acc);
            out.push(v);
            proof {
                assert((i + 1) * seg == i * seg + seg) by (nonlinear_arith);
                assert(spec_segment(data@, i as int, seg as int) == data@.subrange(start as int, stop as int));
                assert(spec_folds(fold, init, spec_segment(data@, i as int, seg as int), acc));
                assert(spec_reduced(data@, seg as int, init, fold, finalize, i as int, v));
            }
        } else {
            proof {
                if seg > 0 {
                    assert(m <= i) by (nonlinear_arith)
                        requires !(i * seg + seg <= len || (partial && i * seg < len)), seg > 0,
                            partial ==> m * seg < len + seg, !partial ==> m * seg <= len;
                }
            }
        }
        i = i + 1;
    }
    out
}

/// The text of the first input shape as `Some([n, c, h, w])`, or `None` without one.
pub open spec fn spec_first_shape_text(shapes: Seq<Vec<usize>>) -> Seq<char> {
    if shapes.len() > 0 {
        "Some("@ + spec_dims_text(shapes[0]@) + ")"@
    } else {
        "None"@
    }
}

/// Segments of a global average pool over an `[n, c, h, w]` input shape: `n * c` planes of
/// `h * w` elements; any other first shape, or none, is an error that names it.
pub fn global_pool_dims(input_shapes: &[Vec<usize>]) -> (r: Result<(usize, usize), ExecError>)
    requires
        input_shapes@.len() > 0 && input_shapes@[0]@.len() == 4 ==> ({
            let s = input_shapes@[0]@;
            &&& s[0] * s[1] <= usize::MAX
            &&& s[2] * s[3] <= usize::MAX
        }),
    ensures
        ({
            let rank: nat = if input_shapes@.len() > 0 { input_shapes@[0]@.len() } else { 0 };
            let s = input_shapes@[0]@;
            if rank == 4 {
                r == Ok::<(usize, usize), ExecError>(((s[0] * s[1]) as usize, (s[2] * s[3]) as usize))
            } else {
                r matches Err(e) && e@ == ErrorView::UnsupportedOp(
                    "GlobalAvgPool: expected 4D input shape, got "@ + spec_first_shape_text(input_shapes@),
                )
            }
        }),
{
    let rank = if input_shapes.len() > 0 { input_shapes[0].len() } else { 0 };
    if rank != 4 {
        let mut what = String::from_str("GlobalAvgPool: expected 4D input shape, got ");
        let ghost head = what@;
        if input_shapes.len() > 0 {
            what.append("Some(");
            push_dims(&mut what, input_shapes[0].as_slice());
            what.append(")");
        } else {
            what.append("None");
        }
        assert(what@ =~= head + spec_first_shape_text(input_shapes@));
        return Err(ExecError::UnsupportedOp(what));
    }
    let s = &input_shapes[0];
    Ok((s[0] * s[1], s[2] * s[3]))
}

} // verus!
