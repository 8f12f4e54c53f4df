//! Shape checks and index maps of scaled-dot-product attention with grouped key/value
//! heads. The score and softmax arithmetic is float work done by the caller; what is
//! decided here is which buffers are accepted, how long the sequences are, which key/value
//! head serves each query head, and how many keys each query row sees.
use vstd::prelude::*;
use crate::error::{head_dec, push_dec, result_view, spec_dec, text_dec, ErrorView, ExecError};
use vstd::string::*;

verus! {

/// The error for a head configuration with a zero stride.
pub open spec fn spec_zero_stride_error(head_dim: nat, num_q_heads: nat, num_kv_heads: nat) -> ErrorView {
    ErrorView::ShapeMismatch {
        expected: "non-zero head config (q_heads="@ + spec_dec(num_q_heads) + ", kv_heads="@ + spec_dec(num_kv_heads)
            + ", head_dim="@ + spec_dec(head_dim) + ")"@,
        actual: "zero stride"@,
    }
}

/// The error for a V buffer whose length differs from K's.
pub open spec fn spec_v_length_error(
    q_len: nat,
    k_len: nat,
    v_len: nat,
    head_dim: nat,
    num_q_heads: nat,
    num_kv_heads: nat,
) -> ErrorView {
    ErrorView::ShapeMismatch {
        expected: "V length == K length ("@ + spec_dec(k_len) + ") [Q="@ + spec_dec(q_len) + ", K="@ + spec_dec(k_len)
            + ", V="@ + spec_dec(v_len) + " f32; q_heads="@ + spec_dec(num_q_heads) + ", kv_heads="@ + spec_dec(
            num_kv_heads,
        ) + ", head_dim="@ + spec_dec(head_dim) + "]"@,
        actual: "V has "@ + spec_dec(v_len) + " f32 elements"@,
    }
}

/// The error for an empty query or key sequence.
pub open spec fn spec_empty_sequence_error(seq_q: nat, seq_k: nat, q_len: nat, k_len: nat) -> ErrorView {
    ErrorView::ShapeMismatch {
        expected: "non-zero sequence lengths"@,
        actual: "seq_q="@ + spec_dec(seq_q) + ", seq_k="@ + spec_dec(seq_k) + " (Q="@ + spec_dec(q_len) + ", K="@
            + spec_dec(k_len) + " f32 elems)"@,
    }
}

/// Outcome of the attention shape checks on buffers of `q_len`, `k_len` and `v_len` f32
/// elements: the query and key sequence lengths, or the first check that fails.
pub open spec fn spec_attention_seq_lens(
    q_len: nat,
    k_len: nat,
    v_len: nat,
    head_dim: nat,
    num_q_heads: nat,
    num_kv_heads: nat,
) -> Result<(usize, usize), ErrorView> {
    let q_stride = num_q_heads * head_dim;
    let kv_stride = num_kv_heads * head_dim;
    if q_stride == 0 || kv_stride == 0 {
        Err(spec_zero_stride_error(head_dim, num_q_heads, num_kv_heads))
    } else if q_len % q_stride != 0 {
        Err(
            ErrorView::ShapeMismatch {
                expected: "Q length divisible by num_q_heads*head_dim="@ + spec_dec(q_stride),
                actual: "Q has "@ + spec_dec(q_len) + " f32 elements"@,
            },
        )
    } else if k_len % kv_stride != 0 {
        Err(
            ErrorView::ShapeMismatch {
                expected: "K length divisible by num_kv_heads*head_dim="@ + spec_dec(kv_stride),
                actual: "K has "@ + spec_dec(k_len) + " f32 elements"@,
            },
        )
    } else if v_len != k_len {
        Err(spec_v_length_error(q_len, k_len, v_len, head_dim, num_q_heads, num_kv_heads))
    } else if q_len / q_stride == 0 || k_len / kv_stride == 0 {
        Err(spec_empty_sequence_error(q_len / q_stride, k_len / kv_stride, q_len, k_len))
    } else {
        Ok(((q_len / q_stride) as usize, (k_len / kv_stride) as usize))
    }
}

fn zero_stride_error(head_dim: usize, num_q_heads: usize, num_kv_heads: usize) -> (e: ExecError)
    ensures
        e@ == spec_zero_stride_error(head_dim as nat, num_q_heads as nat, num_kv_heads as nat),
{
    let mut expected = String::from_str("non-zero head config (q_heads=");
    push_dec(&mut expected, num_q_heads);
    expected.append(", kv_heads=");
    push_dec(&mut expected, num_kv_heads);
    expected.append(", head_dim=");
    push_dec(&mut expected, head_dim);
    expected.append(")");
    ExecError::ShapeMismatch { expected, actual: String::from_str("zero stride") }
}

fn v_length_error(q_len: usize, k_len: usize, v_len: usize, head_dim: usize, num_q_heads: usize, num_kv_heads: usize) -> (e:
    ExecError)
    ensures
        e@ == spec_v_length_error(
            q_len as nat,
            k_len as nat,
            v_len as nat,
            head_dim as nat,
            num_q_heads as nat,
            num_kv_heads as nat,
        ),
{
    let mut expected = String::from_str("V length == K length (");
    push_dec(&mut expected, k_len);
    expected.append(") [Q=");
    push_dec(&mut expected, q_len);
    expected.append(", K=");
    push_dec(&mut expected, k_len);
    expected.append(", V=");
    push_dec(&mut expected, v_len);
    expected.append(" f32; q_heads=");
    push_dec(&mut expected, num_q_heads);
    expected.append(", kv_heads=");
    push_dec(&mut expected, num_kv_heads);
    expected.append(", head_dim=");
    push_dec(&mut expected, head_dim);
    expected.append("]");
    ExecError::ShapeMismatch { expected, actual: text_dec("V has ", v_len, " f32 elements") }
}

fn empty_sequence_error(seq_q: usize, seq_k: usize, q_len: usize, k_len: usize) -> (e: ExecError)
    ensures
        e@ == spec_empty_sequence_error(seq_q as nat, seq_k as nat, q_len as nat, k_len as nat),
{
    let mut actual = String::from_str("seq_q=");
    push_dec(&mut actual, seq_q);
    actual.append(", seq_k=");
    push_dec(&mut actual, seq_k);
    actual.append(" (Q=");
    push_dec(&mut actual, q_len);
    actual.append(", K=");
    push_dec(&mut actual, k_len);
    actual.append(" f32 elems)");
    ExecError::ShapeMismatch { expected: String::from_str("non-zero sequence lengths"), actual }
}

/// Check the Q, K and V buffer sizes (in f32 elements) against the head configuration and
/// return the query and key sequence lengths.
pub fn attention_seq_lens(
    q_len: usize,
    k_len: usize,
    v_len: usize,
    head_dim: usize,
    num_q_heads: usize,
    num_kv_heads: usize,
) -> (r: Result<(usize, usize), ExecError>)
    requires
        num_q_heads * head_dim <= usize::MAX,
        num_kv_heads * head_dim <= usize::MAX,
    ensures
        result_view(r) == spec_attention_seq_lens(
            q_len as nat,
            k_len as nat,
            v_len as nat,
            head_dim as nat,
            num_q_heads as nat,
            num_kv_heads as nat,
        ),
{
    let q_stride = num_q_heads * head_dim;
    let kv_stride = num_kv_heads * head_dim;
    if q_stride == 0 || kv_stride == 0 {
        return Err(zero_stride_error(head_dim, num_q_heads, num_kv_heads));
    }
    if q_len % q_stride != 0 {
        return Err(
            ExecError::ShapeMismatch {
                expected: head_dec("Q length divisible by num_q_heads*head_dim=", q_stride),
                actual: text_dec("Q has ", q_len, " f32 elements"),
            },
        );
    }
    if k_len % kv_stride != 0 {
        return Err(
            ExecError::ShapeMismatch {
                expected: head_dec("K length divisible by num_kv_heads*head_dim=", kv_stride),
                actual: text_dec("K has ", k_len, " f32 elements"),
            },
        );
    }
    if v_len != k_len {
        return Err(v_length_error(q_len, k_len, v_len, head_dim, num_q_heads, num_kv_heads));
    }
    let seq_q = q_len / q_stride;
    let seq_k = k_len / kv_stride;
    if seq_q == 0 || seq_k == 0 {
        return Err(empty_sequence_error(seq_q, seq_k, q_len, k_len));
    }
    Ok((seq_q, seq_k))
}

/// Number of query heads sharing one key/value head.
pub open spec fn spec_group_size(num_q_heads: nat, num_kv_heads: nat) -> nat {
    num_q_heads / (if num_kv_heads >= 1 { num_kv_heads } else { 1 })
}

/// The key/value head that serves query head `qh`.
pub open spec fn spec_kv_head(qh: nat, num_q_heads: nat, num_kv_heads: nat) -> nat {
    qh / spec_group_size(num_q_heads, num_kv_heads)
}

/// The key/value head that serves query head `qh` (grouped-query attention).
pub fn attention_kv_head(qh: usize, num_q_heads: usize, num_kv_heads: usize) -> (kh: usize)
    requires
        spec_group_size(num_q_heads as nat, num_kv_heads as nat) > 0,
    ensures
        kh == spec_kv_head(qh as nat, num_q_heads as nat, num_kv_heads as nat),
{
    let group = num_q_heads / (if num_kv_heads >= 1 { num_kv_heads } else { 1 });
    qh / group
}

/// When the query heads are a whole number of groups, every query head is served by an
/// existing key/value head, and the heads of one group share it.
pub proof fn lemma_kv_head_in_range(qh: nat, num_q_heads: nat, num_kv_heads: nat)
    requires
        num_kv_heads > 0,
        num_q_heads % num_kv_heads == 0,
        qh < num_q_heads,
    ensures
        spec_kv_head(qh, num_q_heads, num_kv_heads) < num_kv_heads,
        spec_kv_head(qh, num_q_heads, num_kv_heads) * spec_group_size(num_q_heads, num_kv_heads) <= qh,
        qh < (spec_kv_head(qh, num_q_heads, num_kv_heads) + 1) * spec_group_size(num_q_heads, num_kv_heads),
{
    let g = spec_group_size(num_q_heads, num_kv_heads);
    assert(g * num_kv_heads == num_q_heads) by (nonlinear_arith)
        requires g == num_q_heads / num_kv_heads, num_q_heads % num_kv_heads == 0, num_kv_heads > 0;
    assert(g > 0) by (nonlinear_arith) requires g * num_kv_heads == num_q_heads, qh < num_q_heads;
    let kh = qh / g;
    assert(kh * g <= qh < (kh + 1) * g) by (nonlinear_arith) requires kh == qh / g, g > 0;
    assert(kh < num_kv_heads) by (nonlinear_arith) requires kh * g <= qh, qh < num_q_heads, g * num_kv_heads == num_q_heads, g > 0;
}

/// Number of keys query row `i` attends to: with a causal mask and no explicit mask, keys
/// up to its absolute position `seq_k - seq_q + i`; otherwise all of them.
pub open spec fn spec_key_limit(i: nat, seq_q: nat, seq_k: nat, causal: bool, has_mask: bool) -> nat {
    if causal && !has_mask {
        let abs_pos = seq_k - seq_q + i;
        if abs_pos + 1 <= seq_k { (abs_pos + 1) as nat } else { seq_k }
    } else {
        seq_k
    }
}

/// Number of keys query row `i` attends to (see `spec_key_limit`).
pub fn attention_key_limit(i: usize, seq_q: usize, seq_k: usize, causal: bool, has_mask: bool) -> (limit: usize)
    requires
        seq_q <= seq_k,
        i < seq_q,
    ensures
        limit == spec_key_limit(i as nat, seq_q as nat, seq_k as nat, causal, has_mask),
        0 < limit <= seq_k,
{
    let abs_pos = seq_k - seq_q + i;
    if causal && !has_mask {
        if abs_pos + 1 <= seq_k { abs_pos + 1 } else { seq_k }
    } else {
        seq_k
    }
}

/// Under a causal mask the rows see a growing prefix of the keys, the last row all of them.
pub proof fn lemma_causal_prefix(i: nat, j: nat, seq_q: nat, seq_k: nat)
    requires
        seq_q <= seq_k,
        i <= j < seq_q,
    ensures
        spec_key_limit(i, seq_q, seq_k, true, false) <= spec_key_limit(j, seq_q, seq_k, true, false),
        spec_key_limit((seq_q - 1) as nat, seq_q, seq_k, true, false) == seq_k,
        spec_key_limit(i, seq_q, seq_k, true, false) == seq_k - seq_q + i + 1,
{
}

} // verus!
