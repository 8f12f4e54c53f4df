//! KV cache configuration, token-position bookkeeping, and full-precision layer storage.
use vstd::prelude::*;

verus! {

/// Bit-width for KV cache storage.
#[derive(Debug, Clone, Copy, PartialEq, Eq, Structural)]
pub enum KvBits {
    /// Full precision (4 bytes per element).
    F32,
    /// 8-bit quantized (1 byte per element + per-head scales).
    Q8,
    /// 4-bit quantized (0.5 bytes per element + per-head scales).
    Q4,
}

/// Configuration for KV cache quantization.
#[derive(Debug, Clone, Copy, PartialEq, Eq, Structural)]
pub struct KvCacheConfig {
    /// Bit-width for K (key) cache.
    pub k_bits: KvBits,
    /// Bit-width for V (value) cache.
    pub v_bits: KvBits,
    /// Number of boundary layers (at start and end) kept at f32.
    pub boundary_layers: usize,
    /// Whether to apply Walsh-Hadamard rotation before V quantization.
    pub wht_rotation: bool,
}

/// `n - b`, or 0 when `b > n`.
pub open spec fn spec_saturating_sub(n: u32, b: u32) -> u32 {
    if n >= b {
        (n - b) as u32
    } else {
        0
    }
}

/// A layer is a boundary layer when it is among the first or the last
/// `boundary_layers` layers (the count taken as a `u32`).
pub open spec fn spec_is_boundary_layer(cfg: KvCacheConfig, layer: u32, n_layers: u32) -> bool {
    let b = cfg.boundary_layers as u32;
    layer < b || layer >= spec_saturating_sub(n_layers, b)
}

impl Default for KvCacheConfig {
    /// Full precision for K and V, two boundary layers, no rotation.
    fn default() -> (cfg: Self)
        ensures
            cfg == (KvCacheConfig { k_bits: KvBits::F32, v_bits: KvBits::F32, boundary_layers: 2, wht_rotation: false }),
    {
        KvCacheConfig { k_bits: KvBits::F32, v_bits: KvBits::F32, boundary_layers: 2, wht_rotation: false }
    }
}

impl KvCacheConfig {
    /// Asymmetric config: K at f32, V at q4 with WHT rotation and boundary protection.
    pub fn asymmetric_q4() -> (cfg: Self)
        ensures
            cfg == (KvCacheConfig { k_bits: KvBits::F32, v_bits: KvBits::Q4, boundary_layers: 2, wht_rotation: true }),
    {
        KvCacheConfig { k_bits: KvBits::F32, v_bits: KvBits::Q4, boundary_layers: 2, wht_rotation: true }
    }

    /// Asymmetric config: K at f32, V at q4 without WHT rotation.
    pub fn asymmetric_q4_fast() -> (cfg: Self)
        ensures
            cfg == (KvCacheConfig { k_bits: KvBits::F32, v_bits: KvBits::Q4, boundary_layers: 2, wht_rotation: false }),
    {
        KvCacheConfig { k_bits: KvBits::F32, v_bits: KvBits::Q4, boundary_layers: 2, wht_rotation: false }
    }

    /// Returns true if the given layer should be stored at f32 regardless of config.
    pub fn is_boundary_layer(&self, layer: u32, n_layers: u32) -> (r: bool)
        ensures
            r == spec_is_boundary_layer(*self, layer, n_layers),
    {
        let b = #[verifier::truncate] (self.boundary_layers as u32);
        layer < b || layer >= n_layers.saturating_sub(b)
    }

    /// Returns the effective bit-width for K at a given layer.
    pub fn effective_k_bits(&self, layer: u32, n_layers: u32) -> (bits: KvBits)
        ensures
            bits == (if spec_is_boundary_layer(*self, layer, n_layers) { KvBits::F32 } else { self.k_bits }),
    {
        if self.is_boundary_layer(layer, n_layers) {
            KvBits::F32
        } else {
            self.k_bits
        }
    }

    /// Returns the effective bit-width for V at a given layer.
    pub fn effective_v_bits(&self, layer: u32, n_layers: u32) -> (bits: KvBits)
        ensures
            bits == (if spec_is_boundary_layer(*self, layer, n_layers) { KvBits::F32 } else { self.v_bits }),
    {
        if self.is_boundary_layer(layer, n_layers) {
            KvBits::F32
        } else {
            self.v_bits
        }
    }
}

/// With no boundary layers configured, no layer of the model is a boundary layer, so every
/// layer uses the configured bit-widths.
pub proof fn lemma_no_boundary_layers(cfg: KvCacheConfig, layer: u32, n_layers: u32)
    requires
        cfg.boundary_layers == 0,
        layer < n_layers,
    ensures
        !spec_is_boundary_layer(cfg, layer, n_layers),
{
    assert(0usize as u32 == 0u32);
}

/// When the boundary count reaches the number of layers, every layer is a boundary layer.
pub proof fn lemma_all_boundary_layers(cfg: KvCacheConfig, layer: u32, n_layers: u32)
    requires
        n_layers <= cfg.boundary_layers <= u32::MAX,
    ensures
        spec_is_boundary_layer(cfg, layer, n_layers),
{
    assert(cfg.boundary_layers as u32 == cfg.boundary_layers);
}

/// Boundary protection is symmetric: layer `l` is a boundary layer exactly when layer
/// `n_layers - 1 - l` is.
pub proof fn lemma_boundary_symmetric(cfg: KvCacheConfig, layer: u32, n_layers: u32)
    requires
        layer < n_layers,
    ensures
        spec_is_boundary_layer(cfg, layer, n_layers) == spec_is_boundary_layer(
            cfg,
            (n_layers - 1 - layer) as u32,
            n_layers,
        ),
{
}

/// Token-position bookkeeping of a KV cache: how many tokens are cached, the context
/// limit, an optional sliding window, and a one-shot override for the next advance.
pub struct KvCursor {
    write_pos: usize,
    max_seq: usize,
    window_size: Option<usize>,
    advance_override: Option<usize>,
}

impl KvCursor {
    #[verifier::type_invariant]
    spec fn inv(self) -> bool {
        self.write_pos <= self.max_seq
    }

    /// Tokens written so far.
    pub closed spec fn pos(self) -> nat {
        self.write_pos as nat
    }

    /// Maximum number of tokens (context length).
    pub closed spec fn capacity(self) -> nat {
        self.max_seq as nat
    }

    /// Sliding window, if any.
    pub closed spec fn window(self) -> Option<usize> {
        self.window_size
    }

    /// Pending override for the next advance, if any.
    pub closed spec fn pending_override(self) -> Option<usize> {
        self.advance_override
    }

    /// Tokens visible to reads: the whole cache, or its last `window` tokens.
    pub open spec fn spec_visible(self) -> nat {
        match self.window() {
            Some(w) => if self.pos() <= w { self.pos() } else { w as nat },
            None => self.pos(),
        }
    }

    /// An empty cursor for a context of `max_seq` tokens.
    pub fn new(max_seq: usize) -> (c: Self)
        ensures
            c.pos() == 0,
            c.capacity() == max_seq,
            c.window() is None,
            c.pending_override() is None,
    {
        KvCursor { write_pos: 0, max_seq, window_size: None, advance_override: None }
    }

    /// An empty cursor whose reads return at most the last `window_size` tokens.
    pub fn with_window(max_seq: usize, window_size: usize) -> (c: Self)
        ensures
            c.pos() == 0,
            c.capacity() == max_seq,
            c.window() == Some(window_size),
            c.pending_override() is None,
    {
        KvCursor { write_pos: 0, max_seq, window_size: Some(window_size), advance_override: None }
    }

    /// Current write position (tokens cached so far).
    pub fn write_pos(&self) -> (p: usize)
        ensures
            p == self.pos(),
            p <= self.capacity(),
    {
        proof {
            use_type_invariant(self);
        }
        self.write_pos
    }

    /// Maximum number of tokens.
    pub fn max_seq(&self) -> (m: usize)
        ensures
            m == self.capacity(),
    {
        self.max_seq
    }

    /// The sliding window, if any.
    pub fn window_size(&self) -> (w: Option<usize>)
        ensures
            w == self.window(),
    {
        self.window_size
    }

    /// Set (or clear) the sliding window.
    pub fn set_window(&mut self, window_size: Option<usize>)
        ensures
            final(self).window() == window_size,
            final(self).pos() == old(self).pos(),
            final(self).capacity() == old(self).capacity(),
            final(self).pending_override() == old(self).pending_override(),
    {
        proof {
            use_type_invariant(&*self);
        }
        self.window_size = window_size;
    }

    /// End position of a write of `seq_len` tokens at the current position, or `None`
    /// when it would run past the context length.
    pub fn write_end(&self, seq_len: usize) -> (end: Option<usize>)
        ensures
            end == (if self.pos() + seq_len <= self.capacity() {
                Some((self.pos() + seq_len) as usize)
            } else {
                None
            }),
    {
        proof {
            use_type_invariant(self);
        }
        match self.write_pos.checked_add(seq_len) {
            Some(e) => if e > self.max_seq {
                None
            } else {
                Some(e)
            },
            None => None,
        }
    }

    /// Advance the write position by `seq_len` tokens (or by the pending override, which is
    /// then cleared), never past the context length.
    pub fn advance(&mut self, seq_len: usize)
        ensures
            ({
                let n = match old(self).pending_override() {
                    Some(o) => o as nat,
                    None => seq_len as nat,
                };
                final(self).pos() == (if old(self).pos() + n <= old(self).capacity() {
                    old(self).pos() + n
                } else {
                    old(self).capacity()
                })
            }),
            final(self).pending_override() is None,
            final(self).capacity() == old(self).capacity(),
            final(self).window() == old(self).window(),
    {
        proof {
            use_type_invariant(&*self);
        }
        let n = match self.advance_override {
            Some(o) => o,
            None => seq_len,
        };
        self.advance_override = None;
        let next = match self.write_pos.checked_add(n) {
            Some(e) => if e < self.max_seq {
                e
            } else {
                self.max_seq
            },
            None => self.max_seq,
        };
        self.write_pos = next;
    }

    /// Set an override for the next `advance` call (padded prefill records only the real
    /// tokens).
    pub fn set_advance_override(&mut self, n: usize)
        ensures
            final(self).pending_override() == Some(n),
            final(self).pos() == old(self).pos(),
            final(self).capacity() == old(self).capacity(),
            final(self).window() == old(self).window(),
    {
        proof {
            use_type_invariant(&*self);
        }
        self.advance_override = Some(n);
    }

    /// Effective number of visible tokens (respects the sliding window).
    pub fn visible_tokens(&self) -> (v: usize)
        ensures
            v == self.spec_visible(),
            v <= self.pos(),
    {
        match self.window_size {
            Some(w) => if self.write_pos < w {
                self.write_pos
            } else {
                w
            },
            None => self.write_pos,
        }
    }

    /// First position returned by reads (skips tokens outside the window).
    pub fn read_start(&self) -> (s: usize)
        ensures
            s + self.spec_visible() == self.pos(),
    {
        let v = self.visible_tokens();
        self.write_pos - v
    }

    /// Tokens covered by a read that includes `pending_seq` just-written tokens,
    /// limited to the context length.
    pub fn through_seq(&self, pending_seq: usize) -> (t: usize)
        ensures
            t == (if self.pos() + pending_seq <= self.capacity() {
                self.pos() + pending_seq
            } else {
                self.capacity() as int
            }),
    {
        match self.write_pos.checked_add(pending_seq) {
            Some(e) => if e < self.max_seq {
                e
            } else {
                self.max_seq
            },
            None => self.max_seq,
        }
    }

    /// Reset for a new sequence (the window and any pending override are kept).
    pub fn reset(&mut self)
        ensures
            final(self).pos() == 0,
            final(self).capacity() == old(self).capacity(),
            final(self).window() == old(self).window(),
            final(self).pending_override() == old(self).pending_override(),
    {
        self.write_pos = 0;
    }
}

/// A window never shows more tokens than it allows, nor more than are cached, and the
/// visible tokens are always the most recent ones.
pub proof fn lemma_window_reads(c: KvCursor)
    ensures
        c.spec_visible() <= c.pos(),
        c.window() matches Some(w) ==> c.spec_visible() <= w,
        c.window() is None ==> c.spec_visible() == c.pos(),
        c.window() matches Some(w) ==> (w <= c.pos() ==> c.spec_visible() == w),
{
}

/// Contents of a buffer after positions `[a, b)` are overwritten with the start of `src`.
pub open spec fn spec_overwrite<T>(old: Seq<T>, a: int, b: int, src: Seq<T>) -> Seq<T> {
    old.take(a) + src.take(b - a) + old.skip(b)
}

/// Full-precision storage of one layer's K or V data: `max_seq` token slots of `stride`
/// elements each (`stride = n_kv_heads * head_dim`).
pub struct KvLayerBuffer<T> {
    data: Vec<T>,
    stride: usize,
    max_seq: usize,
}

impl<T> KvLayerBuffer<T> {
    /// Internal consistency: exactly one slot of `stride` elements per token.
    pub closed spec fn wf(self) -> bool {
        self.data@.len() == self.max_seq * self.stride
    }

    /// The stored elements, token-major.
    pub closed spec fn contents(self) -> Seq<T> {
        self.data@
    }

    /// Elements per token.
    pub closed spec fn token_stride(self) -> nat {
        self.stride as nat
    }

    /// Token slots.
    pub closed spec fn slots(self) -> nat {
        self.max_seq as nat
    }
}

impl<T: Copy> KvLayerBuffer<T> {
    /// A buffer of `max_seq` token slots filled with `zero`.
    pub fn new(max_seq: usize, stride: usize, zero: T) -> (b: Self)
        requires
            max_seq * stride <= usize::MAX,
        ensures
            b.wf(),
            b.contents() == Seq::new((max_seq * stride) as nat, |i: int| zero),
            b.token_stride() == stride,
            b.slots() == max_seq,
    {
        let n = max_seq * stride;
        let mut data: Vec<T> = Vec::with_capacity(n);
        let mut i: usize = 0;
        while i < n
            invariant
                i <= n,
                data@.len() == i,
                forall|t: int| 0 <= t < i ==> #[trigger] data@[t] == zero,
            decreases n - i,
        {
            data.push(zero);
            i = i + 1;
        }
        assert(data@ =~= Seq::new((max_seq * stride) as nat, |i: int| zero));
        KvLayerBuffer { data, stride, max_seq }
    }

    /// Copy `seq_len` tokens from `src` into slots `start_pos..start_pos + seq_len`.
    pub fn write(&mut self, start_pos: usize, seq_len: usize, src: &[T])
        requires
            old(self).wf(),
            start_pos + seq_len <= old(self).slots(),
            seq_len * old(self).token_stride() <= src@.len(),
        ensures
            final(self).contents() == spec_overwrite(
                old(self).contents(),
                start_pos * old(self).token_stride(),
                (start_pos + seq_len) * old(self).token_stride(),
                src@,
            ),
            final(self).wf(),
            final(self).token_stride() == old(self).token_stride(),
            final(self).slots() == old(self).slots(),
    {
        let stride = self.stride;
        let dl = self.data.len();
        proof {
            assert((start_pos + seq_len) * stride <= self.max_seq * stride) by (nonlinear_arith)
                requires start_pos + seq_len <= self.max_seq;
            assert(self.max_seq * stride == dl);
            assert(start_pos * stride <= (start_pos + seq_len) * stride) by (nonlinear_arith);
            assert((start_pos + seq_len) * stride == start_pos * stride + seq_len * stride) by (nonlinear_arith);
        }
        let start = start_pos * stride;
        let count = seq_len * stride;
        let ghost old_data = self.data@;
        let mut k: usize = 0;
        while k < count
            invariant
                start + count <= old_data.len(),
                old_data.len() == dl,
                self.stride == old(self).stride,
                self.max_seq == old(self).max_seq,
                count <= src@.len(),
                self.data@.len() == old_data.len(),
                self.data@.len() == self.max_seq * self.stride,
                k <= count,
                forall|t: int| 0 <= t < start ==> #[trigger] self.data@[t] == old_data[t],
                forall|t: int| start <= t < start + k ==> #[trigger] self.data@[t] == src@[t - start],
                forall|t: int| start + k <= t < old_data.len() ==> #[trigger] self.data@[t] == old_data[t],
            decreases count - k,
        {
            let v = src[k];
            self.data.set(start + k, v);
            k = k + 1;
        }
        assert(self.data@ =~= spec_overwrite(old_data, start as int, (start + count) as int, src@));
    }

    /// Copy out the `n_tokens` tokens starting at slot `start_pos`.
    pub fn read(&self, start_pos: usize, n_tokens: usize) -> (out: Vec<T>)
        requires
            self.wf(),
            start_pos + n_tokens <= self.slots(),
        ensures
            out@ == self.contents().subrange(
                start_pos * self.token_stride(),
                (start_pos + n_tokens) * self.token_stride(),
            ),
    {
        let stride = self.stride;
        let dl = self.data.len();
        proof {
            assert((start_pos + n_tokens) * stride <= self.max_seq * stride) by (nonlinear_arith)
                requires start_pos + n_tokens <= self.max_seq;
            assert(self.max_seq * stride == dl);
            assert(start_pos * stride <= (start_pos + n_tokens) * stride) by (nonlinear_arith);
        }
        let a = start_pos * stride;
        let b = (start_pos + n_tokens) * stride;
        vstd::slice::slice_to_vec(vstd::slice::slice_subrange(self.data.as_slice(), a, b))
    }

    /// Copy out the first `n_elems` elements (all of them when fewer are stored).
    pub fn read_prefix(&self, n_elems: usize) -> (out: Vec<T>)
        ensures
            out@ == self.contents().take(if n_elems <= self.contents().len() { n_elems as int } else { self.contents().len() as int }),
    {
        let end = if n_elems <= self.data.len() { n_elems } else { self.data.len() };
        vstd::slice::slice_to_vec(vstd::slice::slice_subrange(self.data.as_slice(), 0, end))
    }
}

/// Reading back the positions just written gives the written data, and positions outside
/// the write keep their contents.
pub proof fn lemma_read_after_write<T>(old: Seq<T>, a: int, b: int, src: Seq<T>, c: int, d: int)
    requires
        0 <= a <= b <= old.len(),
        b - a <= src.len(),
        0 <= c <= d <= old.len(),
    ensures
        spec_overwrite(old, a, b, src).len() == old.len(),
        spec_overwrite(old, a, b, src).subrange(a, b) == src.take(b - a),
        (d <= a || b <= c) ==> spec_overwrite(old, a, b, src).subrange(c, d) == old.subrange(c, d),
{
    let w = spec_overwrite(old, a, b, src);
    assert(w.subrange(a, b) =~= src.take(b - a));
    if d <= a || b <= c {
        assert(w.subrange(c, d) =~= old.subrange(c, d));
    }
}

} // verus!
