//! 2-D convolution parameters and the shape arithmetic of the direct convolution path.
use vstd::prelude::*;
use crate::error::{push_dims, spec_dims_text, ErrorView, ExecError};
use vstd::string::*;

verus! {

/// Kernel attributes common to every 2-D convolution entry point.
#[derive(Debug, Clone, Copy, PartialEq, Eq, Structural)]
pub struct Conv2dAttrs {
    pub kh: usize,
    pub kw: usize,
    pub sh: usize,
    pub sw: usize,
    pub ph: usize,
    pub pw: usize,
    pub dh: usize,
    pub dw: usize,
    pub group: usize,
}

impl Conv2dAttrs {
    /// New attrs with stride 1, no padding, dilation 1, and no grouping.
    pub fn new(kh: usize, kw: usize) -> (a: Self)
        ensures
            a == (Conv2dAttrs { kh, kw, sh: 1, sw: 1, ph: 0, pw: 0, dh: 1, dw: 1, group: 1 }),
    {
        Conv2dAttrs { kh, kw, sh: 1, sw: 1, ph: 0, pw: 0, dh: 1, dw: 1, group: 1 }
    }

    /// Set the strides.
    pub fn with_stride(self, sh: usize, sw: usize) -> (a: Self)
        ensures
            a == (Conv2dAttrs { sh, sw, ..self }),
    {
        Conv2dAttrs { sh, sw, ..self }
    }

    /// Set the paddings.
    pub fn with_padding(self, ph: usize, pw: usize) -> (a: Self)
        ensures
            a == (Conv2dAttrs { ph, pw, ..self }),
    {
        Conv2dAttrs { ph, pw, ..self }
    }

    /// Set the dilations.
    pub fn with_dilation(self, dh: usize, dw: usize) -> (a: Self)
        ensures
            a == (Conv2dAttrs { dh, dw, ..self }),
    {
        Conv2dAttrs { dh, dw, ..self }
    }

    /// Set the group count.
    pub fn with_group(self, group: usize) -> (a: Self)
        ensures
            a == (Conv2dAttrs { group, ..self }),
    {
        Conv2dAttrs { group, ..self }
    }
}

/// Input feature-map shape `(n, channels, h_in, w_in)`.
#[derive(Debug, Clone, Copy, PartialEq, Eq, Structural)]
pub struct Conv2dInputShape {
    pub n: usize,
    pub channels: usize,
    pub h_in: usize,
    pub w_in: usize,
}

impl Conv2dInputShape {
    /// Bundle the four input dimensions.
    pub fn new(n: usize, channels: usize, h_in: usize, w_in: usize) -> (s: Self)
        ensures
            s == (Conv2dInputShape { n, channels, h_in, w_in }),
    {
        Conv2dInputShape { n, channels, h_in, w_in }
    }
}

/// Shapes derived by the direct convolution path from buffer lengths and attributes.
#[derive(Debug, Clone, Copy, PartialEq, Eq, Structural)]
pub struct Conv2dGeometry {
    /// Batch size.
    pub n: usize,
    /// Total input channels.
    pub ic: usize,
    /// Input channels per group (at least 1).
    pub ic_per_group: usize,
    /// Output channels.
    pub oc: usize,
    pub h_out: usize,
    pub w_out: usize,
}

/// `max(x, 1)`.
pub open spec fn spec_at_least_one(x: nat) -> nat {
    if x >= 1 {
        x
    } else {
        1
    }
}

/// Output extent of a convolution along one axis.
pub open spec fn spec_conv_out(input: nat, pad: nat, dil: nat, k: nat, stride: nat) -> nat {
    ((input + 2 * pad - dil * (k - 1) - 1) / (stride as int) + 1) as nat
}

/// The arithmetic of the direct convolution path fits and is defined: positive kernel and
/// stride, a padded input at least as large as the dilated kernel, and products that fit.
pub open spec fn spec_conv_args_ok(attrs: Conv2dAttrs, h_in: nat, w_in: nat) -> bool {
    &&& attrs.kh >= 1
    &&& attrs.kw >= 1
    &&& attrs.sh >= 1
    &&& attrs.sw >= 1
    &&& h_in * w_in <= usize::MAX
    &&& attrs.kh * attrs.kw <= usize::MAX
    &&& h_in + 2 * attrs.ph <= usize::MAX
    &&& w_in + 2 * attrs.pw <= usize::MAX
    &&& attrs.dh * (attrs.kh - 1) <= usize::MAX
    &&& attrs.dw * (attrs.kw - 1) <= usize::MAX
    &&& attrs.dh * (attrs.kh - 1) + 1 <= h_in + 2 * attrs.ph
    &&& attrs.dw * (attrs.kw - 1) + 1 <= w_in + 2 * attrs.pw
}

/// Geometry of the direct convolution of `data_len` input and `weight_len` weight floats
/// over `h_in x w_in` maps: channels and batch follow from the data length, output
/// channels from the weight length, output extents from the attributes.
pub open spec fn spec_conv2d_geometry(data_len: nat, weight_len: nat, attrs: Conv2dAttrs, h_in: nat, w_in: nat) -> Conv2dGeometry {
    let ic = data_len / (h_in * w_in);
    let n = if ic > 0 { data_len / (ic * h_in * w_in) } else { 1 };
    let g = spec_at_least_one(attrs.group as nat);
    let icg = spec_at_least_one(ic / g);
    Conv2dGeometry {
        n: n as usize,
        ic: ic as usize,
        ic_per_group: icg as usize,
        oc: (weight_len / spec_at_least_one((attrs.kh * attrs.kw) as nat) / icg) as usize,
        h_out: spec_conv_out(h_in, attrs.ph as nat, attrs.dh as nat, attrs.kh as nat, attrs.sh as nat) as usize,
        w_out: spec_conv_out(w_in, attrs.pw as nat, attrs.dw as nat, attrs.kw as nat, attrs.sw as nat) as usize,
    }
}

/// Derive batch, channel and output extents for a direct 2-D convolution. `None` when the
/// data or the weights are empty or a spatial extent is zero (the output is then empty).
pub fn conv2d_geometry(data_len: usize, weight_len: usize, attrs: Conv2dAttrs, h_in: usize, w_in: usize) -> (r: Option<Conv2dGeometry>)
    requires
        data_len > 0 && weight_len > 0 && h_in > 0 && w_in > 0 ==> spec_conv_args_ok(attrs, h_in as nat, w_in as nat),
    ensures
        r is None <==> (data_len == 0 || weight_len == 0 || h_in == 0 || w_in == 0),
        r matches Some(g) ==> g == spec_conv2d_geometry(data_len as nat, weight_len as nat, attrs, h_in as nat, w_in as nat),
{
    if data_len == 0 || weight_len == 0 || h_in == 0 || w_in == 0 {
        return None;
    }
    let hw = h_in * w_in;
    proof {
        assert(hw > 0) by (nonlinear_arith) requires hw == h_in * w_in, h_in > 0, w_in > 0;
    }
    let ic = data_len / hw;
    let n = if ic > 0 {
        proof {
            assert(ic * hw <= data_len) by (nonlinear_arith) requires ic == data_len / hw, hw > 0;
            assert(ic * h_in * w_in == ic * hw) by (nonlinear_arith) requires hw == h_in * w_in;
            assert(ic * h_in <= ic * hw) by (nonlinear_arith) requires hw == h_in * w_in, w_in > 0;
            assert(ic * h_in * w_in > 0) by (nonlinear_arith) requires ic > 0, h_in > 0, w_in > 0;
        }
        data_len / (ic * h_in * w_in)
    } else {
        1
    };
    let g = if attrs.group >= 1 { attrs.group } else { 1 };
    let icg = if ic / g >= 1 { ic / g } else { 1 };
    let kk = attrs.kh * attrs.kw;
    let kk1 = if kk >= 1 { kk } else { 1 };
    let oc = weight_len / kk1 / icg;
    let h_out = (h_in + 2 * attrs.ph - attrs.dh * (attrs.kh - 1) - 1) / attrs.sh + 1;
    let w_out = (w_in + 2 * attrs.pw - attrs.dw * (attrs.kw - 1) - 1) / attrs.sw + 1;
    Some(Conv2dGeometry { n, ic, ic_per_group: icg, oc, h_out, w_out })
}

/// Spatial extents `(h_in, w_in)` taken from the first input shape, which must be 4-D
/// (`[n, c, h, w]`); otherwise the error names the shape found (empty when there is none).
pub fn conv2d_input_hw(input_shapes: &[Vec<usize>]) -> (r: Result<(usize, usize), ExecError>)
    ensures
        ({
            let first: Seq<usize> = if input_shapes@.len() > 0 { input_shapes@[0]@ } else { Seq::empty() };
            if first.len() == 4 {
                r == Ok::<(usize, usize), ExecError>((first[2], first[3]))
            } else {
                r matches Err(e) && e@ == ErrorView::UnsupportedOp(
                    "Conv2d: expected 4D input shape, got "@ + spec_dims_text(first),
                )
            }
        }),
{
    let empty: Vec<usize> = Vec::new();
    let first: &[usize] = if input_shapes.len() > 0 { input_shapes[0].as_slice() } else { empty.as_slice() };
    if first.len() != 4 {
        let mut what = String::from_str("Conv2d: expected 4D input shape, got ");
        push_dims(&mut what, first);
        return Err(ExecError::UnsupportedOp(what));
    }
    Ok((first[2], first[3]))
}

/// Rows of the im2col matrix of one group: input channels of the group times kernel taps.
pub open spec fn spec_im2col_rows(g: Conv2dGeometry, a: Conv2dAttrs) -> nat {
    g.ic_per_group as nat * a.kh as nat * a.kw as nat
}

/// Columns of the im2col matrix: output positions.
pub open spec fn spec_im2col_cols(g: Conv2dGeometry) -> nat {
    g.h_out as nat * g.w_out as nat
}

/// Data position read by row `k` and column `s` of the im2col matrix of batch `batch` and
/// group `grp`: row `k` is input channel `k / (kh * kw)` of the group and kernel tap
/// `(k % (kh * kw)) / kw`, `k % kw`; column `s` is output position `s / w_out`,
/// `s % w_out`. `None` when the tap falls in the padding.
pub open spec fn spec_im2col_source(
    g: Conv2dGeometry,
    a: Conv2dAttrs,
    h_in: nat,
    w_in: nat,
    batch: nat,
    grp: nat,
    k: nat,
    s: nat,
) -> Option<int> {
    let taps = a.kh as nat * a.kw as nat;
    let ic_idx = k / taps;
    let rem = k % taps;
    let fh = rem / (a.kw as nat);
    let fw = rem % (a.kw as nat);
    let oh = s / (g.w_out as nat);
    let ow = s % (g.w_out as nat);
    let ih = oh * a.sh + fh * a.dh;
    let iw = ow * a.sw + fw * a.dw;
    if a.ph <= ih < h_in + a.ph && a.pw <= iw < w_in + a.pw {
        Some(((batch * g.ic + grp * g.ic_per_group + ic_idx) * h_in + (ih - a.ph)) * w_in + (iw - a.pw))
    } else {
        None
    }
}

/// The im2col matrix `[rows, cols]` (row-major) of batch `batch` and group `grp`: each entry
/// is the data value its tap reads, or `zero` in the padding or past the end of the data.
pub open spec fn spec_im2col<T>(
    data: Seq<T>,
    g: Conv2dGeometry,
    a: Conv2dAttrs,
    h_in: nat,
    w_in: nat,
    batch: nat,
    grp: nat,
    zero: T,
) -> Seq<T> {
    let cols = spec_im2col_cols(g);
    Seq::new(
        spec_im2col_rows(g, a) * cols,
        |p: int|
            match spec_im2col_source(g, a, h_in, w_in, batch, grp, (p / (cols as int)) as nat, (p % (cols as int)) as nat) {
                Some(i) => if 0 <= i < data.len() { data[i] } else { zero },
                None => zero,
            },
    )
}

/// Input coordinate `o * stride + f * dil - pad` of an output coordinate `o` and kernel
/// offset `f`, when it lies in `[0, extent)`.
fn padded_coord(o: usize, stride: usize, f: usize, dil: usize, pad: usize, extent: usize) -> (r: Option<usize>)
    ensures
        ({
            let i = o * stride + f * dil;
            r == (if pad <= i < extent + pad { Some((i - pad) as usize) } else { None })
        }),
{
    let ghost i = o * stride + f * dil;
    let o2 = o as u128;
    let s2 = stride as u128;
    let f2 = f as u128;
    let d2 = dil as u128;
    assert(o2 * s2 <= u128::MAX) by (nonlinear_arith) requires o2 <= u64::MAX, s2 <= u64::MAX;
    assert(f2 * d2 <= u128::MAX) by (nonlinear_arith) requires f2 <= u64::MAX, d2 <= u64::MAX;
    let a = o2 * s2;
    let b = f2 * d2;
    let sum = match a.checked_add(b) {
        Some(v) => v,
        None => {
            return None;
        },
    };
    assert(sum == i);
    let p = pad as u128;
    let lim = (extent as u128) + p;
    if p <= sum && sum < lim {
        Some((sum - p) as usize)
    } else {
        None
    }
}

/// `((batch * ic + grp * icg + ic_idx) * h_in + y) * w_in + x` when it fits in a `usize`.
fn checked_data_index(
    batch: usize,
    ic: usize,
    grp: usize,
    icg: usize,
    ic_idx: usize,
    h_in: usize,
    y: usize,
    w_in: usize,
    x: usize,
) -> (r: Option<usize>)
    requires
        y < h_in,
        x < w_in,
    ensures
        ({
            let v = ((batch * ic + grp * icg + ic_idx) * h_in + y) * w_in + x;
            r == (if v <= usize::MAX { Some(v as usize) } else { None })
        }),
{
    let ghost v: int = ((batch * ic + grp * icg + ic_idx) * h_in + y) * w_in + x;
    let ghost c: int = batch * ic + grp * icg + ic_idx;
    assert(v >= c) by (nonlinear_arith)
        requires v == (c * h_in + y) * w_in + x, c >= 0, h_in >= 1, w_in >= 1, y >= 0, x >= 0;
    assert(c >= batch * ic && c >= grp * icg) by (nonlinear_arith)
        requires c == batch * ic + grp * icg + ic_idx, batch >= 0, ic >= 0, grp >= 0, icg >= 0, ic_idx >= 0;
    let p1 = match batch.checked_mul(ic) {
        Some(t) => t,
        None => {
            return None;
        },
    };
    let p2 = match grp.checked_mul(icg) {
        Some(t) => t,
        None => {
            return None;
        },
    };
    let c1 = match p1.checked_add(p2) {
        Some(t) => t,
        None => {
            return None;
        },
    };
    let cc = match c1.checked_add(ic_idx) {
        Some(t) => t,
        None => {
            return None;
        },
    };
    assert(cc == c);
    assert(v >= c * h_in) by (nonlinear_arith)
        requires v == (c * h_in + y) * w_in + x, c >= 0, h_in >= 1, w_in >= 1, y >= 0, x >= 0;
    let r1 = match cc.checked_mul(h_in) {
        Some(t) => t,
        None => {
            return None;
        },
    };
    assert(v >= r1 + y) by (nonlinear_arith)
        requires v == (r1 + y) * w_in + x, r1 >= 0, w_in >= 1, y >= 0, x >= 0;
    let r2 = match r1.checked_add(y) {
        Some(t) => t,
        None => {
            return None;
        },
    };
    assert(v >= r2 * w_in) by (nonlinear_arith) requires v == r2 * w_in + x, x >= 0;
    let r3 = match r2.checked_mul(w_in) {
        Some(t) => t,
        None => {
            return None;
        },
    };
    let r4 = match r3.checked_add(x) {
        Some(t) => t,
        None => {
            return None;
        },
    };
    Some(r4)
}

/// Entry `(k, s)` of the im2col matrix (see `spec_im2col`).
fn im2col_value<T: Copy>(
    data: &[T],
    g: &Conv2dGeometry,
    a: &Conv2dAttrs,
    h_in: usize,
    w_in: usize,
    batch: usize,
    grp: usize,
    k: usize,
    s: usize,
    zero: T,
) -> (v: T)
    requires
        k < spec_im2col_rows(*g, *a),
        s < spec_im2col_cols(*g),
        spec_im2col_rows(*g, *a) <= usize::MAX,
    ensures
        v == (match spec_im2col_source(*g, *a, h_in as nat, w_in as nat, batch as nat, grp as nat, k as nat, s as nat) {
            Some(i) => if 0 <= i < data@.len() { data@[i] } else { zero },
            None => zero,
        }),
{
    let ghost icg = g.ic_per_group as nat;
    let ghost khn = a.kh as nat;
    let ghost kwn = a.kw as nat;
    assert(icg * khn * kwn == icg * (khn * kwn)) by (nonlinear_arith);
    assert(khn * kwn > 0 && icg > 0) by (nonlinear_arith) requires k < icg * (khn * kwn), k >= 0;
    assert(khn * kwn <= icg * (khn * kwn)) by (nonlinear_arith) requires icg > 0, khn * kwn > 0;
    assert(g.w_out > 0) by (nonlinear_arith) requires s < g.h_out * g.w_out, s >= 0;
    let taps = a.kh * a.kw;
    let ic_idx = k / taps;
    let rem = k % taps;
    let fh = rem / a.kw;
    let fw = rem % a.kw;
    let oh = s / g.w_out;
    let ow = s % g.w_out;
    let ghost src = spec_im2col_source(*g, *a, h_in as nat, w_in as nat, batch as nat, grp as nat, k as nat, s as nat);
    let ghost ih: int = oh * a.sh + fh * a.dh;
    let ghost iw: int = ow * a.sw + fw * a.dw;
    assert(taps as nat == khn * kwn);
    let iy = padded_coord(oh, a.sh, fh, a.dh, a.ph, h_in);
    let ix = padded_coord(ow, a.sw, fw, a.dw, a.pw, w_in);
    if iy.is_none() || ix.is_none() {
        assert(src is None);
        return zero;
    }
    let y = iy.unwrap();
    let x = ix.unwrap();
    assert(y == ih - a.ph && x == iw - a.pw);
    assert(src == Some(((batch * g.ic + grp * g.ic_per_group + ic_idx) * h_in + (ih - a.ph)) * w_in + (iw - a.pw)));
    let ghost i: int = ((batch * g.ic + grp * g.ic_per_group + ic_idx) * h_in + (ih - a.ph)) * w_in + (iw - a.pw);
    match checked_data_index(batch, g.ic, grp, g.ic_per_group, ic_idx, h_in, y, w_in, x) {
        Some(idx) => {
            assert(idx == i);
            if idx < data.len() {
                let r = data[idx];
                assert(src == Some(i) && 0 <= i < data@.len() && r == data@[i]);
                r
            } else {
                assert(src == Some(i) && !(i < data@.len()));
                zero
            }
        },
        None => {
            let dl = data.len();
            assert(i > usize::MAX && dl == data@.len());
            assert(src == Some(i) && !(i < data@.len()));
            zero
        },
    }
}

/// The im2col matrix of batch `batch` and group `grp` of a 2-D convolution (see
/// `spec_im2col`): row `k` (input channel of the group and kernel tap) and column `s`
/// (output position) hold the input value the tap reads there, `zero` in the padding.
/// Multiplying the group's `[oc_per_group, rows]` weights by it gives the group's outputs.
pub fn im2col<T: Copy>(
    data: &[T],
    g: &Conv2dGeometry,
    a: &Conv2dAttrs,
    h_in: usize,
    w_in: usize,
    batch: usize,
    grp: usize,
    zero: T,
) -> (col: Vec<T>)
    requires
        spec_im2col_rows(*g, *a) * spec_im2col_cols(*g) <= usize::MAX,
    ensures
        col@ == spec_im2col(data@, *g, *a, h_in as nat, w_in as nat, batch as nat, grp as nat, zero),
{
    let ghost rows = spec_im2col_rows(*g, *a);
    let ghost cols = spec_im2col_cols(*g);
    if g.ic_per_group == 0 || a.kh == 0 || a.kw == 0 || g.h_out == 0 || g.w_out == 0 {
        assert(rows * cols == 0) by (nonlinear_arith)
            requires rows == g.ic_per_group as nat * a.kh as nat * a.kw as nat, cols == g.h_out as nat * g.w_out as nat,
                g.ic_per_group == 0 || a.kh == 0 || a.kw == 0 || g.h_out == 0 || g.w_out == 0;
        let empty: Vec<T> = Vec::new();
        assert(empty@ =~= spec_im2col(data@, *g, *a, h_in as nat, w_in as nat, batch as nat, grp as nat, zero));
        return empty;
    }
    assert(rows <= usize::MAX && cols <= usize::MAX && rows >= 1 && cols >= 1) by (nonlinear_arith)
        requires rows * cols <= usize::MAX, rows == g.ic_per_group as nat * a.kh as nat * a.kw as nat,
            cols == g.h_out as nat * g.w_out as nat, g.ic_per_group >= 1, a.kh >= 1, a.kw >= 1, g.h_out >= 1, g.w_out >= 1;
    assert(g.ic_per_group * a.kh <= rows) by (nonlinear_arith)
        requires rows == g.ic_per_group as nat * a.kh as nat * a.kw as nat, a.kw >= 1, g.ic_per_group >= 0, a.kh >= 0;
    let n_rows = g.ic_per_group * a.kh * a.kw;
    let n_cols = g.h_out * g.w_out;
    let total = n_rows * n_cols;
    let mut col: Vec<T> = Vec::with_capacity(total);
    let mut p: usize = 0;
    while p < total
        invariant
            rows == spec_im2col_rows(*g, *a),
            cols == spec_im2col_cols(*g),
            rows <= usize::MAX,
            n_rows == rows,
            n_cols == cols,
            total == rows * cols,
            p <= total,
            col@.len() == p,
            forall|t: int| 0 <= t < p ==> #[trigger] col@[t] == spec_im2col(data@, *g, *a, h_in as nat, w_in as nat, batch as nat, grp as nat, zero)[t],
        decreases total - p,
    {
        assert(n_cols > 0) by (nonlinear_arith) requires p < total, total == n_rows * n_cols, p >= 0;
        let k = p / n_cols;
        let s = p % n_cols;
        assert(k < rows) by (nonlinear_arith) requires p < rows * n_cols, n_cols > 0, k == p / n_cols, p >= 0;
        let v = im2col_value(data, g, a, h_in, w_in, batch, grp, k, s, zero);
        col.push(v);
        p = p + 1;
    }
    assert(col@ =~= spec_im2col(data@, *g, *a, h_in as nat, w_in as nat, batch as nat, grp as nat, zero));
    col
}


/// For a 1x1 kernel with unit strides and no padding, over output maps as large as the
/// input, the im2col matrix of a group is the group's own input planes, contiguous in the
/// data: a pointwise convolution is a plain matrix product with the data.
pub proof fn lemma_im2col_pointwise<T>(
    data: Seq<T>,
    g: Conv2dGeometry,
    a: Conv2dAttrs,
    h_in: nat,
    w_in: nat,
    batch: nat,
    grp: nat,
    zero: T,
)
    requires
        a.kh == 1,
        a.kw == 1,
        a.sh == 1,
        a.sw == 1,
        a.ph == 0,
        a.pw == 0,
        g.h_out == h_in,
        g.w_out == w_in,
        (batch * g.ic + (grp + 1) * g.ic_per_group) * (h_in * w_in) <= data.len(),
    ensures
        ({
            let start = (batch * g.ic + grp * g.ic_per_group) * (h_in * w_in);
            spec_im2col(data, g, a, h_in, w_in, batch, grp, zero) == data.subrange(
                start as int,
                start + g.ic_per_group * (h_in * w_in),
            )
        }),
{
    let hw = h_in * w_in;
    let icg = g.ic_per_group as nat;
    let base = batch * g.ic + grp * icg;
    let start = base * hw;
    let col = spec_im2col(data, g, a, h_in, w_in, batch, grp, zero);
    let sub = data.subrange(start as int, start + icg * hw);
    assert(spec_im2col_rows(g, a) == icg) by (nonlinear_arith) requires a.kh == 1, a.kw == 1, spec_im2col_rows(g, a) == icg * a.kh as nat * a.kw as nat;
    assert(start + icg * hw <= data.len()) by (nonlinear_arith)
        requires (batch * g.ic + (grp + 1) * g.ic_per_group) * hw <= data.len(), start == (batch * g.ic + grp * icg) * hw, icg == g.ic_per_group;
    assert(col.len() == sub.len());
    assert forall|p: int| 0 <= p < col.len() implies col[p] == sub[p] by {
        let k = p / (hw as int);
        let sp = p % (hw as int);
        assert(hw > 0) by (nonlinear_arith) requires p < icg * hw, p >= 0;
        assert(w_in > 0 && h_in > 0) by (nonlinear_arith) requires hw == h_in * w_in, hw > 0;
        assert(0 <= sp < hw && 0 <= k) by (nonlinear_arith) requires sp == p % (hw as int), k == p / (hw as int), hw > 0, p >= 0;
        let oh = sp / (w_in as int);
        let ow = sp % (w_in as int);
        assert(0 <= oh < h_in && 0 <= ow < w_in && sp == oh * w_in + ow) by (nonlinear_arith)
            requires oh == sp / (w_in as int), ow == sp % (w_in as int), 0 <= sp < hw, hw == h_in * w_in, w_in > 0;
        assert(k / 1int == k && k % 1int == 0 && 0int / 1int == 0 && 0int % 1int == 0);
        assert(spec_im2col_source(g, a, h_in, w_in, batch, grp, k as nat, sp as nat)
            == Some(((batch * g.ic + grp * g.ic_per_group + k) * h_in + oh) * w_in + ow));
        assert(p == k * hw + sp) by (nonlinear_arith) requires k == p / (hw as int), sp == p % (hw as int), hw > 0;
        assert(((base + k) * h_in + oh) * w_in + ow == start + p) by (nonlinear_arith)
            requires start == base * hw, hw == h_in * w_in, sp == oh * w_in + ow, p == k * hw + sp;
    }
    assert(col =~= sub);
}


/// Where one group of one batch of a convolution reads its weights and writes its
/// outputs, and how its product is computed.
#[derive(Debug, Clone, Copy, PartialEq, Eq, Structural)]
pub struct ConvGroupPlan {
    /// Output channels of each group (`oc / max(group, 1)`).
    pub oc_per_group: usize,
    /// Rows of the im2col matrix (`ic_per_group * kh * kw`).
    pub kernel_size: usize,
    /// Output positions (`h_out * w_out`).
    pub spatial: usize,
    /// The group's weights are `weight[w_start..w_end]` (cut at the end of the weights).
    pub w_start: usize,
    pub w_end: usize,
    /// First output element of the group in this batch.
    pub o_base: usize,
    /// Whether the weights are quantised to a 4-bit codebook for the product: a single
    /// group of at least 64 output channels and 16 im2col rows.
    pub use_lut: bool,
}

/// The plan of group `grp` of batch `batch` (see `ConvGroupPlan`).
pub open spec fn spec_conv_group_plan(g: Conv2dGeometry, a: Conv2dAttrs, weight_len: nat, batch: nat, grp: nat) -> ConvGroupPlan {
    let group = spec_at_least_one(a.group as nat);
    let ocg = g.oc as nat / group;
    let ks = spec_im2col_rows(g, a);
    let spatial = spec_im2col_cols(g);
    let w_start = grp * ocg * ks;
    let w_end = if w_start + ocg * ks <= weight_len { w_start + ocg * ks } else { weight_len };
    ConvGroupPlan {
        oc_per_group: ocg as usize,
        kernel_size: ks as usize,
        spatial: spatial as usize,
        w_start: w_start as usize,
        w_end: w_end as usize,
        o_base: (batch * g.oc * spatial + grp * ocg * spatial) as usize,
        use_lut: group <= 1 && ocg >= 64 && ks >= 16,
    }
}

/// Plan group `grp` of batch `batch` of a convolution over `weight_len` weights.
pub fn plan_conv_group(g: &Conv2dGeometry, a: &Conv2dAttrs, weight_len: usize, batch: usize, grp: usize) -> (p: ConvGroupPlan)
    requires
        batch < g.n,
        grp < spec_at_least_one(a.group as nat),
        spec_im2col_rows(*g, *a) <= usize::MAX,
        spec_im2col_cols(*g) <= usize::MAX,
        g.oc * spec_im2col_rows(*g, *a) <= usize::MAX,
        g.n * g.oc * spec_im2col_cols(*g) <= usize::MAX,
    ensures
        p == spec_conv_group_plan(*g, *a, weight_len as nat, batch as nat, grp as nat),
{
    let group = if a.group >= 1 { a.group } else { 1 };
    let ocg = g.oc / group;
    let ghost ks_n = spec_im2col_rows(*g, *a);
    let ghost sp_n = spec_im2col_cols(*g);
    let ks = if a.kw == 0 || a.kh == 0 {
        0
    } else {
        assert(g.ic_per_group * a.kh <= ks_n) by (nonlinear_arith)
            requires ks_n == g.ic_per_group * a.kh * a.kw, a.kw >= 1;
        g.ic_per_group * a.kh * a.kw
    };
    assert(ks == ks_n) by (nonlinear_arith)
        requires ks_n == g.ic_per_group * a.kh * a.kw, a.kw == 0 || a.kh == 0 ==> ks == 0,
            !(a.kw == 0 || a.kh == 0) ==> ks == g.ic_per_group * a.kh * a.kw;
    let spatial = if g.w_out == 0 {
        0
    } else {
        assert(g.h_out <= sp_n) by (nonlinear_arith) requires sp_n == g.h_out * g.w_out, g.w_out >= 1;
        g.h_out * g.w_out
    };
    assert(spatial == sp_n) by (nonlinear_arith)
        requires sp_n == g.h_out * g.w_out, g.w_out == 0 ==> spatial == 0, g.w_out != 0 ==> spatial == g.h_out * g.w_out;
    assert(ocg * group <= g.oc) by (nonlinear_arith) requires ocg == g.oc / group, group >= 1;
    assert((grp + 1) * ocg <= g.oc) by (nonlinear_arith) requires ocg * group <= g.oc, grp + 1 <= group, ocg >= 0;
    assert((grp + 1) * ocg * ks <= g.oc * ks) by (nonlinear_arith) requires (grp + 1) * ocg <= g.oc, ks >= 0;
    assert(grp * ocg * ks + ocg * ks == (grp + 1) * ocg * ks) by (nonlinear_arith);
    assert(grp * ocg <= (grp + 1) * ocg) by (nonlinear_arith) requires ocg >= 0, grp >= 0;
    assert(grp * ocg * ks <= (grp + 1) * ocg * ks) by (nonlinear_arith) requires ocg >= 0, grp >= 0, ks >= 0;
    let w_start = grp * ocg * ks;
    let w_len = ocg * ks;
    let w_end = if w_start + w_len <= weight_len { w_start + w_len } else { weight_len };
    // Output offsets: batch * oc * spatial + grp * ocg * spatial < n * oc * spatial.
    assert(grp * ocg * spatial + ocg * spatial <= g.oc * spatial) by (nonlinear_arith)
        requires (grp + 1) * ocg <= g.oc, spatial >= 0, ocg >= 0, grp >= 0;
    assert(batch * g.oc * spatial + g.oc * spatial <= g.n * g.oc * spatial) by (nonlinear_arith)
        requires batch + 1 <= g.n, spatial >= 0, g.oc >= 0;
    assert(batch * g.oc <= g.n * g.oc) by (nonlinear_arith) requires batch <= g.n, g.oc >= 0;
    assert(grp * ocg <= g.oc) by (nonlinear_arith) requires (grp + 1) * ocg <= g.oc, ocg >= 0;
    assert(batch * g.oc * spatial <= g.n * g.oc * spatial) by (nonlinear_arith)
        requires batch * g.oc <= g.n * g.oc, spatial >= 0;
    assert(grp * ocg * spatial <= g.oc * spatial) by (nonlinear_arith) requires grp * ocg <= g.oc, spatial >= 0;
    assert(g.oc * spatial <= g.n * g.oc * spatial) by (nonlinear_arith) requires g.n >= 1, g.oc >= 0, spatial >= 0;
    let o_base = if spatial == 0 {
        assert(batch * g.oc * spatial + grp * ocg * spatial == 0) by (nonlinear_arith) requires spatial == 0;
        0
    } else {
        assert(g.n * g.oc <= g.n * g.oc * spatial) by (nonlinear_arith) requires spatial >= 1, g.n >= 0, g.oc >= 0;
        batch * g.oc * spatial + grp * ocg * spatial
    };
    let ghost sp = spec_conv_group_plan(*g, *a, weight_len as nat, batch as nat, grp as nat);
    assert(group as nat == spec_at_least_one(a.group as nat));
    assert(sp.oc_per_group == ocg);
    assert(sp.kernel_size == ks);
    assert(sp.spatial == spatial);
    assert(sp.w_start == w_start);
    assert(sp.w_end == w_end);
    assert(sp.o_base == o_base);
    ConvGroupPlan {
        oc_per_group: ocg,
        kernel_size: ks,
        spatial,
        w_start,
        w_end,
        o_base,
        use_lut: group <= 1 && ocg >= 64 && ks >= 16,
    }
}

/// How a convolution computes its output.
#[derive(Debug, Clone, Copy, PartialEq, Eq, Structural)]
pub enum ConvPath {
    /// One input and one output channel per group: the taps are summed directly.
    Depthwise,
    /// A 1x1 kernel with unit stride and dilation and no padding: one matrix product on
    /// the input planes.
    Pointwise,
    /// A 3x3 kernel with unit stride, dilation and padding over at least 16 input channels
    /// per group: Winograd F(2,3) tiles.
    Winograd,
    /// im2col and a matrix product (4-bit LUT-GEMM with pre-quantised weights).
    General,
}

/// The path of a convolution with geometry `g` and attributes `a`, tried in the order
/// depthwise, pointwise, Winograd; pre-quantised weights always take the general path.
pub open spec fn spec_conv_path(g: Conv2dGeometry, a: Conv2dAttrs, pre_quantized: bool) -> ConvPath {
    let ocg = g.oc as nat / spec_at_least_one(a.group as nat);
    if pre_quantized {
        ConvPath::General
    } else if g.ic_per_group == 1 && ocg == 1 {
        ConvPath::Depthwise
    } else if a.kh == 1 && a.kw == 1 && a.ph == 0 && a.pw == 0 && a.dh == 1 && a.dw == 1 && a.sh == 1 && a.sw == 1 {
        ConvPath::Pointwise
    } else if a.kh == 3 && a.kw == 3 && a.sh == 1 && a.sw == 1 && a.dh == 1 && a.dw == 1 && a.ph == 1 && a.pw == 1
        && g.ic_per_group >= 16 {
        ConvPath::Winograd
    } else {
        ConvPath::General
    }
}

/// Choose how to compute a convolution (see `spec_conv_path`).
pub fn choose_conv_path(g: &Conv2dGeometry, a: &Conv2dAttrs, pre_quantized: bool) -> (p: ConvPath)
    ensures
        p == spec_conv_path(*g, *a, pre_quantized),
{
    let group = if a.group >= 1 { a.group } else { 1 };
    let ocg = g.oc / group;
    if pre_quantized {
        ConvPath::General
    } else if g.ic_per_group == 1 && ocg == 1 {
        ConvPath::Depthwise
    } else if a.kh == 1 && a.kw == 1 && a.ph == 0 && a.pw == 0 && a.dh == 1 && a.dw == 1 && a.sh == 1 && a.sw == 1 {
        ConvPath::Pointwise
    } else if a.kh == 3 && a.kw == 3 && a.sh == 1 && a.sw == 1 && a.dh == 1 && a.dw == 1 && a.ph == 1 && a.pw == 1
        && g.ic_per_group >= 16 {
        ConvPath::Winograd
    } else {
        ConvPath::General
    }
}

} // verus!
