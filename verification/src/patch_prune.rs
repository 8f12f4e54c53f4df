//! Index side of patch pruning before a vision transformer: cutting a channel-first image
//! into a grid of patches, choosing the causal reference patch each patch is predicted
//! from, and padding the kept patch indices to the compiled budget. Measuring prediction
//! errors (float) and ranking patches by them is left to the caller.
use vstd::prelude::*;

verus! {

/// Bit pattern of the f32 value 1.0 (a real patch in the attention mask).
pub const MASK_KEEP_BITS: u32 = 0x3f80_0000u32;

/// Pixel position read for element `q` of the patch grid of a `[c, h, w]` image cut into
/// `ph` x `pw` patches: the grid is `[h / ph, w / pw, c, ph, pw]`.
pub open spec fn spec_patch_source(q: int, c: int, h: int, w: int, ph: int, pw: int) -> int {
    let gw = w / pw;
    let pd = c * ph * pw;
    let p = q / pd;
    let within = q % pd;
    let gr = p / gw;
    let gc = p % gw;
    let ch = within / (ph * pw);
    let r = within % (ph * pw);
    let py = r / pw;
    let px = r % pw;
    ch * (h * w) + (gr * ph + py) * w + gc * pw + px
}

/// `x / d` and `x % d` of an `x` below `n * d` are a coordinate below `n` and one below `d`.
proof fn lemma_split2(x: int, n: int, d: int)
    requires
        0 <= x < n * d,
        d > 0,
    ensures
        0 <= x / d < n,
        0 <= x % d < d,
        x == (x / d) * d + x % d,
{
    vstd::arithmetic::div_mod::lemma_fundamental_div_mod(x, d);
    assert(0 <= x / d) by (nonlinear_arith) requires x >= 0, d > 0;
    assert(x / d < n) by (nonlinear_arith) requires x == d * (x / d) + x % d, 0 <= x % d, x < n * d, d > 0;
    assert(d * (x / d) == (x / d) * d) by (nonlinear_arith);
}

/// A positive multiple of `d` is at least `d`.
proof fn lemma_multiple_ge(x: int, d: int)
    requires
        x > 0,
        d > 0,
        x % d == 0,
    ensures
        d <= x,
{
    vstd::arithmetic::div_mod::lemma_fundamental_div_mod(x, d);
    assert(d <= x) by (nonlinear_arith) requires x == d * (x / d) + x % d, x % d == 0, x > 0, d > 0;
}

/// The source of every grid element is a pixel of the image.
proof fn lemma_patch_source_bound(q: int, c: int, h: int, w: int, ph: int, pw: int)
    requires
        ph > 0,
        pw > 0,
        c >= 0,
        h >= 0,
        w >= 0,
        h % ph == 0,
        w % pw == 0,
        0 <= q < c * h * w,
    ensures
        0 <= spec_patch_source(q, c, h, w, ph, pw) < c * h * w,
{
    let gh = h / ph;
    let gw = w / pw;
    vstd::arithmetic::div_mod::lemma_fundamental_div_mod(h, ph);
    vstd::arithmetic::div_mod::lemma_fundamental_div_mod(w, pw);
    assert(h == gh * ph && w == gw * pw) by (nonlinear_arith)
        requires h == ph * (h / ph) + h % ph, w == pw * (w / pw) + w % pw, h % ph == 0, w % pw == 0, gh == h / ph, gw == w / pw;
    assert(c > 0 && h > 0 && w > 0) by (nonlinear_arith) requires 0 <= q < c * h * w, h >= 0, w >= 0;
    assert(gh > 0 && gw > 0) by (nonlinear_arith) requires h == gh * ph, w == gw * pw, h > 0, w > 0, ph > 0, pw > 0;
    let pd = c * ph * pw;
    assert(c * h * w == (gh * gw) * pd) by (nonlinear_arith) requires h == gh * ph, w == gw * pw, pd == c * ph * pw;
    assert(pd > 0) by (nonlinear_arith) requires c > 0, ph > 0, pw > 0, pd == c * ph * pw;
    lemma_split2(q, gh * gw, pd);
    let p = q / pd;
    let within = q % pd;
    lemma_split2(p, gh, gw);
    let gr = p / gw;
    let gc = p % gw;
    assert(pd == c * (ph * pw)) by (nonlinear_arith) requires pd == c * ph * pw;
    assert(ph * pw > 0) by (nonlinear_arith) requires ph > 0, pw > 0;
    lemma_split2(within, c, ph * pw);
    let ch = within / (ph * pw);
    let r = within % (ph * pw);
    lemma_split2(r, ph, pw);
    let py = r / pw;
    let px = r % pw;
    let row = gr * ph + py;
    let col = gc * pw + px;
    assert(0 <= row < h) by (nonlinear_arith) requires 0 <= gr < gh, 0 <= py < ph, h == gh * ph, row == gr * ph + py;
    assert(0 <= col < w) by (nonlinear_arith) requires 0 <= gc < gw, 0 <= px < pw, w == gw * pw, col == gc * pw + px;
    assert(0 <= ch * (h * w) + row * w + col < c * h * w) by (nonlinear_arith)
        requires 0 <= ch < c, 0 <= row < h, 0 <= col < w;
}

/// Cut a `[channels, img_h, img_w]` image into a `[img_h / patch_h, img_w / patch_w]` grid
/// of patches, each patch holding its `channels * patch_h * patch_w` pixels channel by
/// channel, row by row.
pub fn extract_patches<T: Copy>(
    pixels: &[T],
    channels: usize,
    img_h: usize,
    img_w: usize,
    patch_h: usize,
    patch_w: usize,
) -> (patches: Vec<T>)
    requires
        patch_h > 0,
        patch_w > 0,
        img_h % patch_h == 0,
        img_w % patch_w == 0,
        pixels@.len() == channels * img_h * img_w,
    ensures
        patches@.len() == pixels@.len(),
        forall|q: int| 0 <= q < patches@.len() ==>
            #[trigger] patches@[q] == pixels@[spec_patch_source(q, channels as int, img_h as int, img_w as int, patch_h as int, patch_w as int)],
{
    let total = pixels.len();
    let mut out: Vec<T> = Vec::with_capacity(total);
    if total == 0 {
        return out;
    }
    proof {
        assert(channels > 0 && img_h > 0 && img_w > 0) by (nonlinear_arith)
            requires total == channels * img_h * img_w, total > 0;
        lemma_multiple_ge(img_h as int, patch_h as int);
        lemma_multiple_ge(img_w as int, patch_w as int);
        assert(patch_h * patch_w <= img_h * img_w) by (nonlinear_arith)
            requires patch_h <= img_h, patch_w <= img_w, patch_h > 0, patch_w > 0;
        assert(channels * patch_h * patch_w <= total) by (nonlinear_arith)
            requires patch_h * patch_w <= img_h * img_w, total == channels * img_h * img_w, channels > 0;
        assert(img_h * img_w <= total) by (nonlinear_arith) requires total == channels * img_h * img_w, channels > 0;
    }
    let gw = img_w / patch_w;
    let pp = patch_h * patch_w;
    assert(channels * pp == channels * patch_h * patch_w) by (nonlinear_arith) requires pp == patch_h * patch_w;
    let pd = channels * pp;
    assert(pd > 0) by (nonlinear_arith) requires pd == channels * pp, pp == patch_h * patch_w, channels > 0, patch_h > 0, patch_w > 0;
    let hw = img_h * img_w;
    let mut q: usize = 0;
    while q < total
        invariant
            total == pixels@.len(),
            total == channels * img_h * img_w,
            total <= usize::MAX,
            patch_h > 0,
            patch_w > 0,
            img_h % patch_h == 0,
            img_w % patch_w == 0,
            gw == img_w / patch_w,
            pp == patch_h * patch_w,
            pd == channels * patch_h * patch_w,
            pd > 0,
            hw == img_h * img_w,
            q <= total,
            out@.len() == q,
            forall|t: int| 0 <= t < q ==>
                #[trigger] out@[t] == pixels@[spec_patch_source(t, channels as int, img_h as int, img_w as int, patch_h as int, patch_w as int)],
        decreases total - q,
    {
        proof {
            lemma_patch_source_bound(q as int, channels as int, img_h as int, img_w as int, patch_h as int, patch_w as int);
            assert(pd == channels * pp) by (nonlinear_arith) requires pd == channels * patch_h * patch_w, pp == patch_h * patch_w;
        }
        let p = q / pd;
        let within = q % pd;
        assert(gw > 0) by (nonlinear_arith) requires img_w % patch_w == 0, gw == img_w / patch_w, patch_w > 0, q < total,
            total == channels * img_h * img_w;
        let gr = p / gw;
        let gc = p % gw;
        let ch = within / pp;
        let r = within % pp;
        let py = r / patch_w;
        let px = r % patch_w;
        let ghost s = spec_patch_source(q as int, channels as int, img_h as int, img_w as int, patch_h as int, patch_w as int);
        proof {
            assert(pp > 0) by (nonlinear_arith) requires pp == patch_h * patch_w, patch_h > 0, patch_w > 0;
            assert(ch * hw <= s) by (nonlinear_arith)
                requires s == ch * hw + (gr * patch_h + py) * img_w + gc * patch_w + px, gr >= 0, py >= 0, gc >= 0, px >= 0,
                    img_w >= 0, patch_h >= 0, patch_w >= 0;
            assert((gr * patch_h + py) * img_w <= s) by (nonlinear_arith)
                requires s == ch * hw + (gr * patch_h + py) * img_w + gc * patch_w + px, ch >= 0, hw >= 0, gc >= 0, px >= 0, patch_w >= 0;
            assert(gr * patch_h <= gr * patch_h + py);
            assert(gr * patch_h + py <= (gr * patch_h + py) * img_w) by (nonlinear_arith)
                requires img_w >= 1, gr >= 0, py >= 0, patch_h >= 0;
            assert(gc * patch_w <= s) by (nonlinear_arith)
                requires s == ch * hw + (gr * patch_h + py) * img_w + gc * patch_w + px, ch >= 0, hw >= 0, gr >= 0, py >= 0,
                    img_w >= 0, px >= 0, patch_h >= 0;
        }
        let src = ch * hw + (gr * patch_h + py) * img_w + gc * patch_w + px;
        out.push(pixels[src]);
        q = q + 1;
    }
    out
}

/// Grid position a patch at `(r, c)` (not the anchor `(0, 0)`) is predicted from: the left
/// neighbour in the first row, the upper one in the first column, and otherwise the left
/// neighbour when the diagonal is closer to the upper patch than to the left one
/// (`diag_closer_to_upper`), else the upper one.
pub open spec fn spec_prune_reference(r: nat, c: nat, diag_closer_to_upper: bool) -> (nat, nat) {
    if r > 0 && c > 0 {
        if diag_closer_to_upper { (r, (c - 1) as nat) } else { ((r - 1) as nat, c) }
    } else if c > 0 {
        (r, (c - 1) as nat)
    } else {
        ((r - 1) as nat, c)
    }
}

/// The reference patch of the median-edge predictor (see `spec_prune_reference`).
pub fn prune_reference(r: usize, c: usize, diag_closer_to_upper: bool) -> (rc: (usize, usize))
    requires
        r > 0 || c > 0,
    ensures
        (rc.0 as nat, rc.1 as nat) == spec_prune_reference(r as nat, c as nat, diag_closer_to_upper),
        rc.0 + rc.1 < r + c,
        rc.0 <= r && rc.1 <= c,
{
    if r > 0 && c > 0 {
        if diag_closer_to_upper { (r, c - 1) } else { (r - 1, c) }
    } else if c > 0 {
        (r, c - 1)
    } else {
        (r - 1, c)
    }
}

/// Kept patch indices padded to the budget: the kept indices, then index 0 (the anchor,
/// always valid) up to `max_kept` entries.
pub open spec fn spec_padded_indices(kept: Seq<usize>, max_kept: nat) -> Seq<i64> {
    Seq::new(max_kept, |i: int| if i < kept.len() { kept[i] as i64 } else { 0i64 })
}

/// Attention mask of the padded indices: f32 1.0 for a kept patch, 0.0 for padding.
pub open spec fn spec_padded_mask(n_kept: nat, max_kept: nat) -> Seq<u32> {
    Seq::new(max_kept, |i: int| if i < n_kept { MASK_KEEP_BITS } else { 0u32 })
}

/// Pad the kept patch indices (already within budget and in grid order) to `max_kept`
/// entries, with the matching attention mask as f32 bit patterns.
pub fn pad_kept(kept: &[usize], max_kept: usize) -> (r: (Vec<i64>, Vec<u32>))
    requires
        kept@.len() <= max_kept,
    ensures
        r.0@ == spec_padded_indices(kept@, max_kept as nat),
        r.1@ == spec_padded_mask(kept@.len(), max_kept as nat),
{
    let n = kept.len();
    let mut indices: Vec<i64> = Vec::with_capacity(max_kept);
    let mut mask: Vec<u32> = Vec::with_capacity(max_kept);
    let mut i: usize = 0;
    while i < max_kept
        invariant
            n == kept@.len(),
            n <= max_kept,
            i <= max_kept,
            indices@.len() == i,
            mask@.len() == i,
            forall|t: int| 0 <= t < i ==> #[trigger] indices@[t] == spec_padded_indices(kept@, max_kept as nat)[t],
            forall|t: int| 0 <= t < i ==> #[trigger] mask@[t] == spec_padded_mask(n as nat, max_kept as nat)[t],
        decreases max_kept - i,
    {
        if i < n {
            indices.push(#[verifier::truncate] (kept[i] as i64));
            mask.push(MASK_KEEP_BITS);
        } else {
            indices.push(0i64);
            mask.push(0u32);
        }
        i = i + 1;
    }
    assert(indices@ =~= spec_padded_indices(kept@, max_kept as nat));
    assert(mask@ =~= spec_padded_mask(n as nat, max_kept as nat));
    (indices, mask)
}

} // verus!
