//! Byte-level tensor kernels that select, reorder, or convert elements without floating
//! point arithmetic: gathers, concatenation, masking, scatter, shape queries and integer
//! casts. f32 data is handled as little-endian 32-bit words.
use vstd::prelude::*;
use crate::bytes::{
    decode_u32s, encode_u32s, indices_to_bytes, iter_i32, iter_i64, encode_i32s, spec_decode_i32s,
    spec_decode_i64s, spec_decode_u32s, spec_encode_i32s, spec_encode_i64s, spec_encode_u32s,
    spec_u32_at,
};
use crate::error::{head_dec, spec_dec, ErrorView, ExecError};

verus! {

/// Element type of a tensor buffer.
#[derive(Debug, Clone, Copy, PartialEq, Eq, Structural)]
pub enum FloatDType {
    F32,
    F16,
    BF16,
    I64,
    I32,
    Bool,
}

/// Bytes per element.
pub open spec fn spec_byte_size(d: FloatDType) -> nat {
    match d {
        FloatDType::F32 => 4,
        FloatDType::F16 => 2,
        FloatDType::BF16 => 2,
        FloatDType::I64 => 8,
        FloatDType::I32 => 4,
        FloatDType::Bool => 1,
    }
}

impl FloatDType {
    /// Bytes per element.
    pub fn byte_size(&self) -> (n: usize)
        ensures
            n == spec_byte_size(*self),
    {
        match self {
            FloatDType::F32 => 4,
            FloatDType::F16 => 2,
            FloatDType::BF16 => 2,
            FloatDType::I64 => 8,
            FloatDType::I32 => 4,
            FloatDType::Bool => 1,
        }
    }
}

/// Whether bytemuck can view the buffer as f32s in place.
///
/// Calls `bytemuck::try_cast_slice` from bytes to 32-bit words (the same size and alignment
/// as f32), which fails when the buffer's address is not 4-byte aligned or its length is not
/// a multiple of 4. The contract states only the length consequence: alignment depends on
/// where the buffer lives, so the outcome for a given content is left open.
#[verifier::external_body]
fn f32_view_available(data: &[u8]) -> (ok: bool)
    ensures
        ok ==> data@.len() % 4 == 0,
{
    bytemuck::try_cast_slice::<u8, u32>(data).is_ok()
}

/// An IEEE-754 single is nonzero exactly when some bit other than the sign is set.
pub open spec fn spec_f32_bits_nonzero(w: u32) -> bool {
    w & 0x7fff_ffffu32 != 0
}

/// An IEEE-754 single is NaN when its exponent bits are all set and its mantissa is not zero.
pub open spec fn spec_f32_bits_nan(w: u32) -> bool {
    (w & 0x7f80_0000u32) == 0x7f80_0000u32 && (w & 0x007f_ffffu32) != 0
}

/// One boolean per byte.
pub open spec fn spec_byte_bools(d: Seq<u8>) -> Seq<u8> {
    Seq::new(d.len(), |i: int| if d[i] != 0 { 1u8 } else { 0u8 })
}

/// One boolean per little-endian f32 word.
pub open spec fn spec_word_bools(d: Seq<u8>) -> Seq<u8> {
    Seq::new(d.len() / 4, |i: int| if spec_f32_bits_nonzero(spec_u32_at(d, 4 * i)) { 1u8 } else { 0u8 })
}

/// Per-element booleans of a mask buffer: bytes that are all 0 or 1 are a packed boolean
/// mask; otherwise, when the buffer can be viewed as f32s (`f32_view`), each f32 is one
/// boolean (nonzero is true); otherwise each byte is one.
pub open spec fn spec_to_bools(d: Seq<u8>, f32_view: bool) -> Seq<u8> {
    if forall|i: int| 0 <= i < d.len() ==> #[trigger] d[i] <= 1 {
        spec_byte_bools(d)
    } else if f32_view && d.len() % 4 == 0 && d.len() >= 4 {
        spec_word_bools(d)
    } else {
        spec_byte_bools(d)
    }
}

/// Per-element booleans of a mask buffer, with the f32 view decided by the caller.
pub fn to_bools_as(data: &[u8], f32_view: bool) -> (r: Vec<u8>)
    ensures
        r@ == spec_to_bools(data@, f32_view),
{
    let n = data.len();
    let mut all_bool = true;
    let mut i: usize = 0;
    while i < n
        invariant
            n == data@.len(),
            i <= n,
            all_bool == (forall|t: int| 0 <= t < i ==> #[trigger] data@[t] <= 1),
        decreases n - i,
    {
        if data[i] > 1 {
            all_bool = false;
        }
        i = i + 1;
    }
    if !all_bool && f32_view && n % 4 == 0 && n >= 4 {
        let words = decode_u32s(data);
        let mut out: Vec<u8> = Vec::with_capacity(words.len());
        let mut k: usize = 0;
        while k < words.len()
            invariant
                words@ == spec_decode_u32s(data@),
                k <= words@.len(),
                out@.len() == k,
                forall|t: int| 0 <= t < k ==> #[trigger] out@[t] == spec_word_bools(data@)[t],
            decreases words@.len() - k,
        {
            let w = words[k];
            out.push(if w & 0x7fff_ffffu32 != 0 { 1u8 } else { 0u8 });
            k = k + 1;
        }
        assert(out@ =~= spec_to_bools(data@, f32_view));
        out
    } else {
        let mut out: Vec<u8> = Vec::with_capacity(n);
        let mut k: usize = 0;
        while k < n
            invariant
                n == data@.len(),
                k <= n,
                out@.len() == k,
                forall|t: int| 0 <= t < k ==> #[trigger] out@[t] == spec_byte_bools(data@)[t],
            decreases n - k,
        {
            out.push(if data[k] != 0 { 1u8 } else { 0u8 });
            k = k + 1;
        }
        assert(out@ =~= spec_to_bools(data@, f32_view));
        out
    }
}

/// Convert raw bytes to per-element booleans (0 or 1). Whether a non-boolean buffer is
/// read as f32s depends on its alignment, so the result is one of the two readings.
pub fn to_bools(data: &[u8]) -> (r: Vec<u8>)
    ensures
        r@ == spec_to_bools(data@, true) || r@ == spec_to_bools(data@, false),
        data@.len() == 0 <==> r@.len() == 0,
{
    let view = f32_view_available(data);
    let r = to_bools_as(data, view);
    proof {
        if data@.len() > 0 {
            assert(spec_byte_bools(data@).len() > 0);
        }
    }
    r
}

/// NaN test per little-endian f32 element of the first input (1 for NaN, 0 otherwise).
pub fn dispatch_isnan(inputs: &[&[u8]]) -> (r: Result<Vec<u8>, ExecError>)
    requires
        inputs@.len() >= 1,
    ensures
        r matches Ok(out) && out@ == Seq::new(
            inputs@[0]@.len() / 4,
            |i: int| if spec_f32_bits_nan(spec_decode_u32s(inputs@[0]@)[i]) { 1u8 } else { 0u8 },
        ),
{
    let words = decode_u32s(inputs[0]);
    let mut out: Vec<u8> = Vec::with_capacity(words.len());
    let mut k: usize = 0;
    while k < words.len()
        invariant
            k <= words@.len(),
            out@.len() == k,
            forall|t: int| 0 <= t < k ==> #[trigger] out@[t] == (if spec_f32_bits_nan(words@[t]) { 1u8 } else { 0u8 }),
        decreases words@.len() - k,
    {
        let w = words[k];
        out.push(if (w & 0x7f80_0000u32) == 0x7f80_0000u32 && (w & 0x007f_ffffu32) != 0 { 1u8 } else { 0u8 });
        k = k + 1;
    }
    assert(out@ =~= Seq::new(
        inputs@[0]@.len() / 4,
        |i: int| if spec_f32_bits_nan(spec_decode_u32s(inputs@[0]@)[i]) { 1u8 } else { 0u8 },
    ));
    Ok(out)
}

/// Reverse the element order of the first input (f32 words).
pub fn dispatch_reverse_sequence(inputs: &[&[u8]], batch_axis: usize, time_axis: usize) -> (r: Result<Vec<u8>, ExecError>)
    requires
        inputs@.len() >= 1,
    ensures
        r matches Ok(out) && out@ == spec_encode_u32s(spec_decode_u32s(inputs@[0]@).reverse()),
{
    let words = decode_u32s(inputs[0]);
    let n = words.len();
    let mut out: Vec<u32> = Vec::with_capacity(n);
    let mut k: usize = 0;
    while k < n
        invariant
            n == words@.len(),
            k <= n,
            out@.len() == k,
            forall|t: int| 0 <= t < k ==> #[trigger] out@[t] == words@[n - 1 - t],
        decreases n - k,
    {
        out.push(words[n - 1 - k]);
        k = k + 1;
    }
    assert(out@ =~= words@.reverse());
    let in_len = inputs[0].len();
    assert(4 * out@.len() <= in_len);
    Ok(encode_u32s(out.as_slice()))
}

/// Position of the first index that is not below `bound` (the length when all are).
pub open spec fn spec_first_oob(ids: Seq<usize>, bound: nat, k: int) -> int
    decreases ids.len() - k,
{
    if k < 0 || k >= ids.len() {
        ids.len() as int
    } else if ids[k] >= bound {
        k
    } else {
        spec_first_oob(ids, bound, k + 1)
    }
}

/// The first out-of-range index lies at or after `k`, and every index before it is in range.
pub proof fn lemma_first_oob(ids: Seq<usize>, bound: nat, k: int)
    requires
        0 <= k <= ids.len(),
    ensures
        k <= spec_first_oob(ids, bound, k) <= ids.len(),
        forall|t: int| k <= t < spec_first_oob(ids, bound, k) ==> #[trigger] ids[t] < bound,
        spec_first_oob(ids, bound, k) < ids.len() ==> ids[spec_first_oob(ids, bound, k)] >= bound,
    decreases ids.len() - k,
{
    if k < ids.len() && ids[k] < bound {
        lemma_first_oob(ids, bound, k + 1);
    }
}

/// Rows `ids[0], ids[1], ...` of a table of `row`-byte rows, concatenated.
pub open spec fn spec_gather_rows(ids: Seq<usize>, table: Seq<u8>, row: nat) -> Seq<u8> {
    Seq::new(ids.len() * row, |p: int| table[ids[p / (row as int)] * row + p % (row as int)])
}

/// How a selection names its indices in errors: the text before the bound, and the text
/// before the index found.
pub open spec fn spec_index_error(bound_text: Seq<char>, found_text: Seq<char>, n_rows: nat, index: nat) -> ErrorView {
    ErrorView::ShapeMismatch { expected: bound_text + spec_dec(n_rows), actual: found_text + spec_dec(index) }
}

/// Result of selecting rows by index: the selected rows, or an error naming the first
/// index that is not below the number of rows (with `bound_text` and `found_text` before
/// the bound and the index).
pub open spec fn spec_select(
    ids: Seq<usize>,
    table: Seq<u8>,
    row: nat,
    n_rows: nat,
    bound_text: Seq<char>,
    found_text: Seq<char>,
) -> Result<Seq<u8>, ErrorView> {
    let first = spec_first_oob(ids, n_rows, 0);
    if first < ids.len() {
        Err(spec_index_error(bound_text, found_text, n_rows, ids[first] as nat))
    } else {
        Ok(spec_gather_rows(ids, table, row))
    }
}

/// Row indices read as little-endian i64 values converted to `usize` (two's complement
/// wrap-around for negative values).
pub open spec fn spec_i64_ids(index_bytes: Seq<u8>) -> Seq<usize> {
    spec_decode_i64s(index_bytes).map_values(|v: i64| v as usize)
}

/// Row indices read as little-endian i32 values converted to `usize` (sign-extended).
pub open spec fn spec_i32_ids(index_bytes: Seq<u8>) -> Seq<usize> {
    spec_decode_i32s(index_bytes).map_values(|v: i32| v as usize)
}

/// Result of gathering rows selected by little-endian i64 indices.
pub open spec fn spec_gather(index_bytes: Seq<u8>, table: Seq<u8>, row: nat, n_rows: nat, bound_text: Seq<char>) -> Result<
    Seq<u8>,
    ErrorView,
> {
    spec_select(spec_i64_ids(index_bytes), table, row, n_rows, bound_text, "index = "@)
}

/// Decode little-endian i64 row indices as `usize`.
pub fn i64_ids(index_bytes: &[u8]) -> (ids: Vec<usize>)
    ensures
        ids@ == spec_i64_ids(index_bytes@),
{
    let v = iter_i64(index_bytes);
    let mut ids: Vec<usize> = Vec::with_capacity(v.len());
    let mut k: usize = 0;
    while k < v.len()
        invariant
            v@ == spec_decode_i64s(index_bytes@),
            k <= v@.len(),
            ids@.len() == k,
            forall|t: int| 0 <= t < k ==> #[trigger] ids@[t] == v@[t] as usize,
        decreases v@.len() - k,
    {
        ids.push(#[verifier::truncate] (v[k] as usize));
        k = k + 1;
    }
    assert(ids@ =~= spec_i64_ids(index_bytes@));
    ids
}

/// Decode little-endian i32 row indices as `usize`.
pub fn i32_ids(index_bytes: &[u8]) -> (ids: Vec<usize>)
    ensures
        ids@ == spec_i32_ids(index_bytes@),
{
    let v = iter_i32(index_bytes);
    let mut ids: Vec<usize> = Vec::with_capacity(v.len());
    let mut k: usize = 0;
    while k < v.len()
        invariant
            v@ == spec_decode_i32s(index_bytes@),
            k <= v@.len(),
            ids@.len() == k,
            forall|t: int| 0 <= t < k ==> #[trigger] ids@[t] == v@[t] as usize,
        decreases v@.len() - k,
    {
        ids.push(#[verifier::truncate] (v[k] as usize));
        k = k + 1;
    }
    assert(ids@ =~= spec_i32_ids(index_bytes@));
    ids
}

/// Concatenate the `row`-byte rows of `table` at positions `ids`; an index not below
/// `n_rows` is an error that gives the bound after `bound_text` and the index after
/// `found_text`.
pub fn select_rows(ids: &[usize], table: &[u8], row: usize, n_rows: usize, bound_text: &str, found_text: &str) -> (r:
    Result<Vec<u8>, ExecError>)
    requires
        row > 0,
        n_rows * row <= table@.len(),
    ensures
        r matches Ok(v) ==> spec_select(ids@, table@, row as nat, n_rows as nat, bound_text@, found_text@) == Ok::<
            Seq<u8>,
            ErrorView,
        >(v@),
        r matches Err(e) ==> spec_select(ids@, table@, row as nat, n_rows as nat, bound_text@, found_text@) == Err::<
            Seq<u8>,
            ErrorView,
        >(e@),
{
    let tl = table.len();
    let ghost g = spec_gather_rows(ids@, table@, row as nat);
    proof {
        lemma_first_oob(ids@, n_rows as nat, 0);
    }
    let mut out: Vec<u8> = Vec::new();
    let mut k: usize = 0;
    while k < ids.len()
        invariant
            g == spec_gather_rows(ids@, table@, row as nat),
            row > 0,
            n_rows * row <= table@.len(),
            tl == table@.len(),
            k <= ids@.len(),
            forall|t: int| 0 <= t < k ==> #[trigger] ids@[t] < n_rows,
            out@.len() == k * row,
            forall|p: int| 0 <= p < k * row ==> #[trigger] out@[p] == g[p],
            0 <= spec_first_oob(ids@, n_rows as nat, 0) <= ids@.len(),
            spec_first_oob(ids@, n_rows as nat, 0) < ids@.len() ==> ids@[spec_first_oob(ids@, n_rows as nat, 0)] >= n_rows,
            forall|t: int| 0 <= t < spec_first_oob(ids@, n_rows as nat, 0) ==> #[trigger] ids@[t] < n_rows,
        decreases ids@.len() - k,
    {
        let idx = ids[k];
        if idx >= n_rows {
            proof {
                let f = spec_first_oob(ids@, n_rows as nat, 0);
                assert(f == k as int);
            }
            return Err(
                ExecError::ShapeMismatch {
                    expected: head_dec(bound_text, n_rows),
                    actual: head_dec(found_text, idx),
                },
            );
        }
        proof {
            assert(idx * row + row <= n_rows * row) by (nonlinear_arith) requires idx < n_rows;
        }
        let base = idx * row;
        let mut j: usize = 0;
        while j < row
            invariant
                g == spec_gather_rows(ids@, table@, row as nat),
                row > 0,
                k < ids@.len(),
                idx == ids@[k as int],
                base == idx * row,
                base + row <= table@.len(),
                tl == table@.len(),
                j <= row,
                out@.len() == k * row + j,
                forall|p: int| 0 <= p < k * row + j ==> #[trigger] out@[p] == g[p],
            decreases row - j,
        {
            out.push(table[base + j]);
            proof {
                let p = k * row + j;
                assert(p / (row as int) == k as int) by (nonlinear_arith) requires p == k * row + j, 0 <= j < row;
                assert(p % (row as int) == j as int) by (nonlinear_arith) requires p == k * row + j, 0 <= j < row;
                assert(p < ids@.len() * row) by (nonlinear_arith) requires p == k * row + j, j < row, k < ids@.len();
            }
            j = j + 1;
        }
        proof {
            assert((k + 1) * row == k * row + row) by (nonlinear_arith);
        }
        k = k + 1;
    }
    proof {
        assert(spec_first_oob(ids@, n_rows as nat, 0) == ids@.len()) by {
            let f = spec_first_oob(ids@, n_rows as nat, 0);
            if f < ids@.len() {
                assert(ids@[f] < n_rows);
            }
        }
    }
    assert(out@ =~= g);
    Ok(out)
}

/// Gather `row`-byte rows of `table` selected by the little-endian i64 indices in
/// `index_bytes`; an index not below `n_rows` is an error that gives the bound after
/// `bound_text`.
pub fn gather_rows(index_bytes: &[u8], table: &[u8], row: usize, n_rows: usize, bound_text: &str) -> (r: Result<
    Vec<u8>,
    ExecError,
>)
    requires
        row > 0,
        n_rows * row <= table@.len(),
    ensures
        r matches Ok(v) ==> spec_gather(index_bytes@, table@, row as nat, n_rows as nat, bound_text@) == Ok::<
            Seq<u8>,
            ErrorView,
        >(v@),
        r matches Err(e) ==> spec_gather(index_bytes@, table@, row as nat, n_rows as nat, bound_text@) == Err::<
            Seq<u8>,
            ErrorView,
        >(e@),
{
    let ids = i64_ids(index_bytes);
    select_rows(ids.as_slice(), table, row, n_rows, bound_text, "index = ")
}

/// Row size in bytes and row count used by `dispatch_gather` for a table of `table_len`
/// bytes: single i64 or i32 values, or f32 rows of `max(dim, 1)` elements.
pub open spec fn spec_gather_layout(dim: nat, dtype: FloatDType, table_len: nat) -> (nat, nat) {
    match dtype {
        FloatDType::I64 => (8, table_len / 8),
        FloatDType::I32 => (4, table_len / 4),
        _ => {
            let d = if dim > 0 { dim } else { 1 };
            let vocab = (table_len / 4) / d;
            (if vocab > 0 { 4 * d } else { 4 }, vocab)
        },
    }
}

/// The text before the bound in `dispatch_gather`'s index error.
pub open spec fn spec_gather_bound_text(dtype: FloatDType) -> Seq<char> {
    match dtype {
        FloatDType::I64 => "i64 index < "@,
        FloatDType::I32 => "i32 index < "@,
        _ => "index < "@,
    }
}

/// Gather by i64 indices (`inputs[0]`) from a table (`inputs[1]`): single i64 or i32
/// values for integer tables, rows of `dim` f32s otherwise.
pub fn dispatch_gather(inputs: &[&[u8]], dim: usize, dtype: FloatDType) -> (r: Result<Vec<u8>, ExecError>)
    requires
        inputs@.len() >= 2,
    ensures
        ({
            let (row, n_rows) = spec_gather_layout(dim as nat, dtype, inputs@[1]@.len());
            let text = spec_gather_bound_text(dtype);
            &&& r matches Ok(v) ==> spec_gather(inputs@[0]@, inputs@[1]@, row, n_rows, text) == Ok::<Seq<u8>, ErrorView>(
                v@,
            )
            &&& r matches Err(e) ==> spec_gather(inputs@[0]@, inputs@[1]@, row, n_rows, text) == Err::<
                Seq<u8>,
                ErrorView,
            >(e@)
        }),
{
    let table_len = inputs[1].len();
    match dtype {
        FloatDType::I64 => gather_rows(inputs[0], inputs[1], 8, table_len / 8, "i64 index < "),
        FloatDType::I32 => gather_rows(inputs[0], inputs[1], 4, table_len / 4, "i32 index < "),
        _ => {
            let d = if dim > 0 { dim } else { 1 };
            let vocab = (table_len / 4) / d;
            if vocab > 0 {
                proof {
                    assert(vocab * d <= table_len / 4) by (nonlinear_arith) requires vocab == (table_len / 4) / d, d > 0;
                    assert(vocab * (4 * d) <= table_len) by (nonlinear_arith) requires vocab * d <= table_len / 4;
                    assert(4 * d <= table_len) by (nonlinear_arith) requires vocab * (4 * d) <= table_len, vocab >= 1, d > 0;
                }
                gather_rows(inputs[0], inputs[1], 4 * d, vocab, "index < ")
            } else {
                gather_rows(inputs[0], inputs[1], 4, 0, "index < ")
            }
        },
    }
}

/// Token ids of an embedding lookup: little-endian i64 values when the buffer is a whole
/// number of them, little-endian i32 values otherwise.
pub open spec fn spec_token_ids(token_bytes: Seq<u8>) -> Seq<usize> {
    if token_bytes.len() % 8 == 0 {
        spec_i64_ids(token_bytes)
    } else {
        spec_i32_ids(token_bytes)
    }
}

/// Result of an embedding lookup in a table of `dim`-element f32 rows.
pub open spec fn spec_embed(token_bytes: Seq<u8>, table: Seq<u8>, dim: nat) -> Result<Seq<u8>, ErrorView> {
    spec_select(spec_token_ids(token_bytes), table, 4 * dim, (table.len() / 4) / dim, "token id < "@, "token id = "@)
}

/// Embedding lookup: the f32 rows of `table` (`dim` elements each, whole rows only)
/// selected by the token ids in `token_bytes`; a token id not below the number of rows is
/// an error.
pub fn embed_lookup(token_bytes: &[u8], table: &[u8], dim: usize) -> (r: Result<Vec<u8>, ExecError>)
    requires
        dim > 0,
    ensures
        r matches Ok(v) ==> spec_embed(token_bytes@, table@, dim as nat) == Ok::<Seq<u8>, ErrorView>(v@),
        r matches Err(e) ==> spec_embed(token_bytes@, table@, dim as nat) == Err::<Seq<u8>, ErrorView>(e@),
{
    let ids = if token_bytes.len() % 8 == 0 { i64_ids(token_bytes) } else { i32_ids(token_bytes) };
    let table_len = table.len();
    let vocab = (table_len / 4) / dim;
    if vocab == 0 {
        let r = select_rows(ids.as_slice(), table, 4, 0, "token id < ", "token id = ");
        proof {
            if ids@.len() == 0 {
                assert(spec_gather_rows(ids@, table@, 4) =~= spec_gather_rows(ids@, table@, 4 * dim as nat));
            }
        }
        return r;
    }
    proof {
        assert(vocab * dim <= table_len / 4) by (nonlinear_arith) requires vocab == (table_len / 4) / dim, dim > 0;
        assert(vocab * (4 * dim) <= table_len) by (nonlinear_arith) requires vocab * dim <= table_len / 4;
        assert(4 * dim <= table_len) by (nonlinear_arith) requires vocab * (4 * dim) <= table_len, vocab >= 1, dim > 0;
    }
    select_rows(ids.as_slice(), table, 4 * dim, vocab, "token id < ", "token id = ")
}

/// Row-wise interleaving of `rows` rows of `ra` bytes from `a` and `rb` bytes from `b`.
pub open spec fn spec_interleave(a: Seq<u8>, b: Seq<u8>, ra: nat, rb: nat, rows: nat) -> Seq<u8> {
    Seq::new(
        rows * (ra + rb),
        |p: int|
            {
                let i = p / ((ra + rb) as int);
                let j = p % ((ra + rb) as int);
                if j < ra {
                    a[i * ra + j]
                } else {
                    b[i * rb + j - ra]
                }
            },
    )
}

/// Interleave `rows` rows of `ra` bytes of `a` with rows of `rb` bytes of `b`.
fn interleave_rows(a: &[u8], b: &[u8], ra: usize, rb: usize, rows: usize) -> (out: Vec<u8>)
    requires
        rows * ra <= a@.len(),
        rows * rb <= b@.len(),
        ra + rb > 0,
        ra + rb <= usize::MAX,
    ensures
        out@ == spec_interleave(a@, b@, ra as nat, rb as nat, rows as nat),
{
    let al = a.len();
    let bl = b.len();
    let w = ra + rb;
    let ghost g = spec_interleave(a@, b@, ra as nat, rb as nat, rows as nat);
    let mut out: Vec<u8> = Vec::new();
    let mut i: usize = 0;
    while i < rows
        invariant
            rows * ra <= a@.len(),
            rows * rb <= b@.len(),
            al == a@.len(),
            bl == b@.len(),
            w == ra + rb,
            w > 0,
            g == spec_interleave(a@, b@, ra as nat, rb as nat, rows as nat),
            i <= rows,
            out@.len() == i * w,
            forall|p: int| 0 <= p < i * w ==> #[trigger] out@[p] == g[p],
        decreases rows - i,
    {
        proof {
            assert(i * ra + ra <= rows * ra) by (nonlinear_arith) requires i < rows;
            assert(i * rb + rb <= rows * rb) by (nonlinear_arith) requires i < rows;
        }
        let mut j: usize = 0;
        while j < w
            invariant
                rows * ra <= a@.len(),
                rows * rb <= b@.len(),
                al == a@.len(),
                bl == b@.len(),
                w == ra + rb,
                g == spec_interleave(a@, b@, ra as nat, rb as nat, rows as nat),
                i < rows,
                i * ra + ra <= rows * ra,
                i * rb + rb <= rows * rb,
                j <= w,
                out@.len() == i * w + j,
                forall|p: int| 0 <= p < i * w + j ==> #[trigger] out@[p] == g[p],
            decreases w - j,
        {
            let v = if j < ra { a[i * ra + j] } else { b[i * rb + (j - ra)] };
            out.push(v);
            proof {
                let p = i * w + j;
                assert(p / (w as int) == i as int) by (nonlinear_arith) requires p == i * w + j, 0 <= j < w;
                assert(p % (w as int) == j as int) by (nonlinear_arith) requires p == i * w + j, 0 <= j < w;
                assert(p < rows * w) by (nonlinear_arith) requires p == i * w + j, j < w, i < rows;
            }
            j = j + 1;
        }
        proof {
            assert((i + 1) * w == i * w + w) by (nonlinear_arith);
        }
        i = i + 1;
    }
    assert(out@ =~= g);
    out
}

/// Concatenation rule of `dispatch_concat` (see there).
pub open spec fn spec_concat(a: Seq<u8>, b: Seq<u8>, sa: nat, sb: nat, dtype: FloatDType) -> Seq<u8> {
    if sa <= 1 && sb <= 1 {
        a + b
    } else if dtype != FloatDType::F32 {
        let ra = sa * spec_byte_size(dtype);
        let rb = sb * spec_byte_size(dtype);
        if ra > 0 && rb > 0 && a.len() / ra == b.len() / rb && a.len() / ra > 0 {
            spec_interleave(a, b, ra, rb, a.len() / ra)
        } else {
            a + b
        }
    } else if sa > 0 && a.len() % 4 == 0 && b.len() % 4 == 0 {
        let rows_a = (a.len() / 4) / sa;
        let rows_b = (b.len() / 4) / sb;
        if rows_a == rows_b && rows_a > 0 {
            spec_interleave(a, b, 4 * sa, 4 * sb, rows_a)
        } else {
            a + b
        }
    } else {
        a + b
    }
}

/// Append `b` to `a`.
fn append_bytes(a: &[u8], b: &[u8]) -> (out: Vec<u8>)
    ensures
        out@ == a@ + b@,
{
    let mut out = vstd::slice::slice_to_vec(a);
    let mut k: usize = 0;
    while k < b.len()
        invariant
            k <= b@.len(),
            out@ == a@ + b@.take(k as int),
        decreases b@.len() - k,
    {
        out.push(b[k]);
        assert(b@.take(k + 1) =~= b@.take(k as int).push(b@[k as int]));
        k = k + 1;
    }
    assert(b@.take(b@.len() as int) =~= b@);
    out
}

/// Concatenate two tensors along an axis whose per-row sizes are `size_a` and `size_b`
/// elements: rows are interleaved when both operands hold the same positive number of
/// whole rows, and the buffers are simply appended otherwise (and for axis-0 concat, when
/// both sizes are at most 1).
pub fn dispatch_concat(inputs: &[&[u8]], size_a: usize, size_b: usize, dtype: FloatDType) -> (r: Result<Vec<u8>, ExecError>)
    requires
        inputs@.len() >= 2,
        inputs@[0]@.len() + inputs@[1]@.len() <= usize::MAX,
        !(size_a <= 1 && size_b <= 1) && dtype != FloatDType::F32 ==> size_a * spec_byte_size(dtype) <= usize::MAX
            && size_b * spec_byte_size(dtype) <= usize::MAX,
        !(size_a <= 1 && size_b <= 1) && dtype == FloatDType::F32 && size_a > 0 && inputs@[0]@.len() % 4 == 0
            && inputs@[1]@.len() % 4 == 0 ==> size_b > 0,
    ensures
        r matches Ok(out) && out@ == spec_concat(inputs@[0]@, inputs@[1]@, size_a as nat, size_b as nat, dtype),
{
    let a = inputs[0];
    let b = inputs[1];
    if size_a <= 1 && size_b <= 1 {
        return Ok(append_bytes(a, b));
    }
    if dtype != FloatDType::F32 {
        let e = dtype.byte_size();
        let ra = size_a * e;
        let rb = size_b * e;
        if ra > 0 && rb > 0 {
            let rows_a = a.len() / ra;
            let rows_b = b.len() / rb;
            if rows_a == rows_b && rows_a > 0 {
                proof {
                    assert(rows_a * ra <= a@.len()) by (nonlinear_arith) requires rows_a == a@.len() / (ra as nat), ra > 0;
                    assert(rows_b * rb <= b@.len()) by (nonlinear_arith) requires rows_b == b@.len() / (rb as nat), rb > 0;
                    assert(ra <= a@.len()) by (nonlinear_arith) requires rows_a * ra <= a@.len(), rows_a >= 1;
                    assert(rb <= b@.len()) by (nonlinear_arith) requires rows_b * rb <= b@.len(), rows_b >= 1;
                }
                return Ok(interleave_rows(a, b, ra, rb, rows_a));
            }
        }
        return Ok(append_bytes(a, b));
    }
    if size_a > 0 && a.len() % 4 == 0 && b.len() % 4 == 0 {
        let rows_a = (a.len() / 4) / size_a;
        let rows_b = (b.len() / 4) / size_b;
        if rows_a == rows_b && rows_a > 0 {
            proof {
                assert(rows_a * size_a <= a@.len() / 4) by (nonlinear_arith)
                    requires rows_a == (a@.len() / 4) / (size_a as nat), size_a > 0;
                assert(rows_a * (4 * size_a) <= a@.len()) by (nonlinear_arith)
                    requires rows_a * size_a <= a@.len() / 4;
                assert(rows_b * size_b <= b@.len() / 4) by (nonlinear_arith)
                    requires rows_b == (b@.len() / 4) / (size_b as nat), size_b > 0;
                assert(rows_b * (4 * size_b) <= b@.len()) by (nonlinear_arith)
                    requires rows_b * size_b <= b@.len() / 4;
                assert(4 * size_a <= a@.len()) by (nonlinear_arith)
                    requires rows_a * (4 * size_a) <= a@.len(), rows_a >= 1;
                assert(4 * size_b <= b@.len()) by (nonlinear_arith)
                    requires rows_b * (4 * size_b) <= b@.len(), rows_b >= 1;
            }
            return Ok(interleave_rows(a, b, 4 * size_a, 4 * size_b, rows_a));
        }
        return Ok(append_bytes(a, b));
    }
    Ok(append_bytes(a, b))
}

/// Number of elements of the first input as a single little-endian i64 (the kernel has no
/// per-axis shape to report).
pub fn dispatch_shape(inputs: &[&[u8]], dtype: FloatDType, start: i64, end: i64) -> (r: Result<Vec<u8>, ExecError>)
    requires
        inputs@.len() >= 1,
    ensures
        r matches Ok(out) && out@ == spec_encode_i64s(seq![(inputs@[0]@.len() / spec_byte_size(dtype)) as i64]),
{
    let e = dtype.byte_size();
    let n = inputs[0].len() / e;
    let v: [i64; 1] = [#[verifier::truncate] (n as i64)];
    let out = indices_to_bytes(&v);
    assert(v@ =~= seq![(inputs@[0]@.len() / spec_byte_size(dtype)) as i64]);
    Ok(out)
}

/// Start of an ONNX Shape slice: negative counts from the end, clamped to `[0, rank]`.
pub open spec fn spec_slice_start(start: i64, rank: nat) -> nat {
    if start < 0 {
        if rank + start >= 0 { (rank + start) as nat } else { 0 }
    } else if (start as usize) <= rank {
        (start as usize) as nat
    } else {
        rank
    }
}

/// End of an ONNX Shape slice: `i64::MAX` means the rank, negative counts from the end,
/// clamped to `[0, rank]`.
pub open spec fn spec_slice_end(end: i64, rank: nat) -> nat {
    if end == i64::MAX {
        rank
    } else {
        spec_slice_start(end, rank)
    }
}

/// Slice a tensor's shape according to ONNX Shape `start`/`end` attributes, as
/// little-endian i64 values (empty when the range is empty).
pub fn dispatch_shape_sliced(in_shape: &[usize], dtype: FloatDType, start: i64, end: i64) -> (r: Result<Vec<u8>, ExecError>)
    requires
        in_shape@.len() <= i64::MAX,
        8 * in_shape@.len() <= usize::MAX,
    ensures
        ({
            let rank = in_shape@.len();
            let s = spec_slice_start(start, rank);
            let e = spec_slice_end(end, rank);
            r matches Ok(out) && if s >= e {
                out@.len() == 0
            } else {
                out@ == spec_encode_i64s(Seq::new((e - s) as nat, |i: int| in_shape@[s + i] as i64))
            }
        }),
{
    let len = in_shape.len();
    let rank = len as i64;
    let s: usize = if start < 0 {
        if rank + start >= 0 { (rank + start) as usize } else { 0 }
    } else {
        let su = #[verifier::truncate] (start as usize);
        if su <= len { su } else { len }
    };
    let e: usize = if end == i64::MAX {
        len
    } else if end < 0 {
        if rank + end >= 0 { (rank + end) as usize } else { 0 }
    } else {
        let eu = #[verifier::truncate] (end as usize);
        if eu <= len { eu } else { len }
    };
    if s >= e {
        let empty: Vec<u8> = Vec::new();
        return Ok(empty);
    }
    let mut vals: Vec<i64> = Vec::with_capacity(e - s);
    let mut k: usize = s;
    while k < e
        invariant
            s <= k <= e,
            e <= in_shape@.len(),
            vals@.len() == k - s,
            forall|t: int| 0 <= t < k - s ==> #[trigger] vals@[t] == in_shape@[s + t] as i64,
        decreases e - k,
    {
        vals.push(#[verifier::truncate] (in_shape[k] as i64));
        k = k + 1;
    }
    assert(vals@ =~= Seq::new((e - s) as nat, |i: int| in_shape@[s + i] as i64));
    Ok(indices_to_bytes(vals.as_slice()))
}

} // verus!
