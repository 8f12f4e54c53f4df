//! Shape inference for matrix products whose compiled dimensions may disagree with
//! the buffers seen at run time.
use vstd::prelude::*;
use crate::error::{push_dec, result_view, spec_dec, ErrorView, ExecError};
use vstd::string::*;
use crate::shape::{gcd, shape_product, spec_gcd, spec_prod};

verus! {

/// Output-size guard used when validating a candidate inner dimension.
pub const MAX_MATMUL_OUTPUT: usize = 268435456;

/// A candidate inner dimension `k` is accepted when it is positive, divides both operand
/// lengths, and the implied `m * n` output stays below `MAX_MATMUL_OUTPUT` elements.
pub open spec fn spec_try_k(k: nat, a_len: nat, b_len: nat) -> bool {
    k > 0 && a_len % k == 0 && b_len % k == 0 && (a_len / k) * (b_len / k) < MAX_MATMUL_OUTPUT
}

/// Validate a candidate inner dimension.
pub fn try_k(k: usize, a_len: usize, b_len: usize) -> (r: Option<usize>)
    ensures
        r == (if spec_try_k(k as nat, a_len as nat, b_len as nat) { Some(k) } else { None }),
{
    if k == 0 || a_len % k != 0 || b_len % k != 0 {
        return None;
    }
    let m_cand = a_len / k;
    let n_cand = b_len / k;
    let prod = m_cand.checked_mul(n_cand);
    let ok = match prod {
        Some(p) => p < MAX_MATMUL_OUTPUT,
        None => false,
    };
    if ok {
        Some(k)
    } else {
        None
    }
}

/// Candidate inner dimensions, in priority order, tried after the compiled `k`:
/// `b_len / n`, `a_len / m`, the compiled `n`, `gcd(a_len, b_len)`, that gcd rounded down
/// to a multiple of `n`, and finally the compiled `k` itself (a zero entry stands for
/// a candidate that does not apply).
pub open spec fn spec_k_candidates(ck: nat, cm: nat, cn: nat, a_len: nat, b_len: nat) -> Seq<nat> {
    let g = spec_gcd(a_len, b_len);
    seq![
        if cn > 1 && b_len % cn == 0 { b_len / cn } else { 0 },
        if cm > 1 && a_len % cm == 0 { a_len / cm } else { 0 },
        cn,
        g,
        if cn > 1 && g % cn == 0 { g / cn * cn } else { 0 },
        ck,
    ]
}

/// First accepted candidate from position `i` on.
pub open spec fn spec_first_k(cands: Seq<nat>, i: int, a_len: nat, b_len: nat) -> Option<nat>
    decreases cands.len() - i,
{
    if 0 <= i < cands.len() {
        if spec_try_k(cands[i], a_len, b_len) {
            Some(cands[i])
        } else {
            spec_first_k(cands, i + 1, a_len, b_len)
        }
    } else {
        None
    }
}

/// The inner dimension of `A[M,K] x B[K,N]` inferred from the compiled hints and the
/// operand lengths: the compiled `k` when it is above 1 and divides both operands,
/// otherwise the first accepted candidate, if any.
pub open spec fn spec_infer_matmul_k(ck: nat, cm: nat, cn: nat, a_len: nat, b_len: nat) -> Option<nat> {
    if ck > 1 && a_len % ck == 0 && b_len % ck == 0 {
        Some(ck)
    } else {
        spec_first_k(spec_k_candidates(ck, cm, cn, a_len, b_len), 0, a_len, b_len)
    }
}

/// An accepted inner dimension divides both operands.
pub proof fn lemma_first_k_divides(cands: Seq<nat>, i: int, a_len: nat, b_len: nat)
    ensures
        spec_first_k(cands, i, a_len, b_len) matches Some(k) ==> spec_try_k(k, a_len, b_len),
    decreases cands.len() - i,
{
    if 0 <= i < cands.len() && !spec_try_k(cands[i], a_len, b_len) {
        lemma_first_k_divides(cands, i + 1, a_len, b_len);
    }
}

/// The error when no inner dimension divides both operands of a product.
pub open spec fn spec_no_inner_dim_error(compiled_k: nat, compiled_m: nat, compiled_n: nat, a_len: nat, b_len: nat) -> ErrorView {
    ErrorView::ShapeMismatch {
        expected: "matmul k dividing both inputs (compiled k="@ + spec_dec(compiled_k) + ", m="@ + spec_dec(compiled_m)
            + ", n="@ + spec_dec(compiled_n) + ")"@,
        actual: "a="@ + spec_dec(a_len) + ", b="@ + spec_dec(b_len),
    }
}

fn no_inner_dim_error(compiled_k: usize, compiled_m: usize, compiled_n: usize, a_len: usize, b_len: usize) -> (e: ExecError)
    ensures
        e@ == spec_no_inner_dim_error(compiled_k as nat, compiled_m as nat, compiled_n as nat, a_len as nat, b_len as nat),
{
    let mut expected = String::from_str("matmul k dividing both inputs (compiled k=");
    push_dec(&mut expected, compiled_k);
    expected.append(", m=");
    push_dec(&mut expected, compiled_m);
    expected.append(", n=");
    push_dec(&mut expected, compiled_n);
    expected.append(")");
    let mut actual = String::from_str("a=");
    push_dec(&mut actual, a_len);
    actual.append(", b=");
    push_dec(&mut actual, b_len);
    ExecError::ShapeMismatch { expected, actual }
}

/// Infer the shared inner dimension `k` for MatMul `A[M,K] x B[K,N]`.
pub fn infer_matmul_k(
    compiled_k: usize,
    compiled_m: usize,
    compiled_n: usize,
    a_len: usize,
    b_len: usize,
) -> (r: Result<usize, ExecError>)
    ensures
        r matches Ok(k) ==> spec_infer_matmul_k(
            compiled_k as nat,
            compiled_m as nat,
            compiled_n as nat,
            a_len as nat,
            b_len as nat,
        ) == Some(k as nat),
        r is Err <==> spec_infer_matmul_k(
            compiled_k as nat,
            compiled_m as nat,
            compiled_n as nat,
            a_len as nat,
            b_len as nat,
        ) is None,
        r matches Err(e) ==> e@ == spec_no_inner_dim_error(
            compiled_k as nat,
            compiled_m as nat,
            compiled_n as nat,
            a_len as nat,
            b_len as nat,
        ),
        r matches Ok(k) ==> k > 0 && a_len % k == 0 && b_len % k == 0,
{
    proof {
        lemma_first_k_divides(
            spec_k_candidates(compiled_k as nat, compiled_m as nat, compiled_n as nat, a_len as nat, b_len as nat),
            0,
            a_len as nat,
            b_len as nat,
        );
    }
    if compiled_k > 1 && a_len % compiled_k == 0 && b_len % compiled_k == 0 {
        return Ok(compiled_k);
    }
    let g = gcd(a_len, b_len);
    let c0 = if compiled_n > 1 && b_len % compiled_n == 0 { b_len / compiled_n } else { 0 };
    let c1 = if compiled_m > 1 && a_len % compiled_m == 0 { a_len / compiled_m } else { 0 };
    proof {
        if compiled_n > 1 && g % compiled_n == 0 {
            assert((g / compiled_n) * compiled_n <= g) by (nonlinear_arith) requires compiled_n > 1;
        }
    }
    let c4 = if compiled_n > 1 && g % compiled_n == 0 { g / compiled_n * compiled_n } else { 0 };
    let candidates: [usize; 6] = [c0, c1, compiled_n, g, c4, compiled_k];
    let ghost cs = spec_k_candidates(compiled_k as nat, compiled_m as nat, compiled_n as nat, a_len as nat, b_len as nat);
    assert(candidates@[0] as nat == cs[0]);
    assert(candidates@[1] as nat == cs[1]);
    assert(candidates@[2] as nat == cs[2]);
    assert(candidates@[3] as nat == cs[3]);
    assert(candidates@[4] as nat == cs[4]);
    assert(candidates@[5] as nat == cs[5]);
    let mut i: usize = 0;
    while i < 6
        invariant
            i <= 6,
            cs.len() == 6,
            forall|t: int| 0 <= t < 6 ==> #[trigger] candidates@[t] as nat == cs[t],
            !(compiled_k > 1 && a_len % compiled_k == 0 && b_len % compiled_k == 0),
            cs == spec_k_candidates(compiled_k as nat, compiled_m as nat, compiled_n as nat, a_len as nat, b_len as nat),
            spec_first_k(cs, i as int, a_len as nat, b_len as nat) == spec_first_k(cs, 0, a_len as nat, b_len as nat),
        decreases 6 - i,
    {
        let c = candidates[i];
        if let Some(k) = try_k(c, a_len, b_len) {
            return Ok(k);
        }
        i = i + 1;
    }
    Err(no_inner_dim_error(compiled_k, compiled_m, compiled_n, a_len, b_len))
}

/// Dimensions `(m, k, n)` of a matrix product, from the compiled dimensions and the
/// run-time operand lengths (see `infer_matmul_dims`).
pub open spec fn spec_infer_matmul_dims(cm: nat, ck: nat, cn: nat, a: nat, b: nat) -> (nat, nat, nat) {
    let k = match spec_infer_matmul_k(ck, cm, cn, a, b) {
        Some(k) => k,
        None => ck,
    };
    let mk = (if cm >= 1 { cm } else { 1 }) * k;
    let kn = k * (if cn >= 1 { cn } else { 1 });
    if cm > 0 && cn > 0 && mk > 0 && kn > 0 && a > mk && a % mk == 0 && (b % kn == 0 || b == kn) {
        (cm, k, cn)
    } else if k > 0 {
        (a / k, k, if b >= k { b / k } else { cn })
    } else {
        (cm, ck, cn)
    }
}

/// Infer actual `(m, k, n)` from compiled values and run-time element counts. A batched
/// product keeps the compiled `m` and `n`; otherwise `m` (and `n`) follow from the buffers.
pub fn infer_matmul_dims(
    compiled_m: usize,
    compiled_k: usize,
    compiled_n: usize,
    a_elems: usize,
    b_elems: usize,
) -> (dims: (usize, usize, usize))
    requires
        ({
            let k = match spec_infer_matmul_k(
                compiled_k as nat,
                compiled_m as nat,
                compiled_n as nat,
                a_elems as nat,
                b_elems as nat,
            ) {
                Some(k) => k,
                None => compiled_k as nat,
            };
            &&& (if compiled_m >= 1 { compiled_m as nat } else { 1 }) * k <= usize::MAX
            &&& k * (if compiled_n >= 1 { compiled_n as nat } else { 1 }) <= usize::MAX
        }),
    ensures
        (dims.0 as nat, dims.1 as nat, dims.2 as nat) == spec_infer_matmul_dims(
            compiled_m as nat,
            compiled_k as nat,
            compiled_n as nat,
            a_elems as nat,
            b_elems as nat,
        ),
{
    let actual_k = match infer_matmul_k(compiled_k, compiled_m, compiled_n, a_elems, b_elems) {
        Ok(k) => k,
        Err(_) => compiled_k,
    };
    let mk = (if compiled_m >= 1 { compiled_m } else { 1 }) * actual_k;
    let kn = actual_k * (if compiled_n >= 1 { compiled_n } else { 1 });
    if compiled_m > 0 && compiled_n > 0 && mk > 0 && kn > 0 && a_elems > mk && a_elems % mk == 0 && (
    b_elems % kn == 0 || b_elems == kn) {
        (compiled_m, actual_k, compiled_n)
    } else if actual_k > 0 {
        let actual_m = a_elems / actual_k;
        let actual_n = if b_elems >= actual_k { b_elems / actual_k } else { compiled_n };
        (actual_m, actual_k, actual_n)
    } else {
        (compiled_m, compiled_k, compiled_n)
    }
}

/// How a (possibly batched) matrix product is laid out over its operands.
#[derive(Debug, Clone, Copy, PartialEq, Eq, Structural)]
pub struct MatmulPlan {
    /// Number of independent `[m, k] x [k, n]` products.
    pub batch: usize,
    pub m: usize,
    pub k: usize,
    pub n: usize,
    /// Offset between consecutive A matrices (elements).
    pub a_stride: usize,
    /// Offset between consecutive B matrices; 0 when one B is shared by every batch.
    pub b_stride: usize,
    /// Number of output elements, `batch * m * n`.
    pub out_len: usize,
}

/// The plan that `plan_matmul` returns for an inner dimension `k` inferred as in
/// `infer_matmul_k`: batched when A holds a whole number (more than one) of `[m, k]`
/// matrices and B holds either one `[k, n]` matrix or as many as A; otherwise a single
/// flattened product `[a/k, k] x [k, b/k]`.
pub open spec fn spec_matmul_plan(m: nat, k: nat, n: nat, a: nat, b: nat) -> MatmulPlan
    recommends
        k > 0,
{
    let mk = (if m >= 1 { m } else { 1 }) * k;
    let kn = k * (if n >= 1 { n } else { 1 });
    let flat = MatmulPlan {
        batch: 1,
        m: (a / k) as usize,
        k: k as usize,
        n: (b / k) as usize,
        a_stride: ((a / k) * k) as usize,
        b_stride: ((b / k) * k) as usize,
        out_len: ((a / k) * (b / k)) as usize,
    };
    if m > 0 && n > 0 && mk > 0 && kn > 0 && a > mk && a % mk == 0 && (b % kn == 0 || b == kn) {
        let batch_a = a / mk;
        let batch_b = if b > kn && b % kn == 0 { b / kn } else { 1 };
        if batch_a == batch_b || batch_b == 1 {
            MatmulPlan {
                batch: batch_a as usize,
                m: m as usize,
                k: k as usize,
                n: n as usize,
                a_stride: (m * k) as usize,
                b_stride: (if b == kn { 0 } else { k * n }) as usize,
                out_len: (batch_a * m * n) as usize,
            }
        } else {
            flat
        }
    } else {
        flat
    }
}

/// Batch detection and output size of `dispatch_matmul`: infers `k`, then decides between
/// a batched product (keeping the compiled `m` and `n`) and one flattened product.
pub fn plan_matmul(m: usize, k: usize, n: usize, a_len: usize, b_len: usize) -> (r: Result<
    MatmulPlan,
    ExecError,
>)
    requires
        ({
            let kk = spec_infer_matmul_k(k as nat, m as nat, n as nat, a_len as nat, b_len as nat);
            kk matches Some(ak) ==> {
                &&& (if m >= 1 { m as nat } else { 1 }) * ak <= usize::MAX
                &&& ak * (if n >= 1 { n as nat } else { 1 }) <= usize::MAX
                &&& (a_len as nat / ak) * (b_len as nat / ak) <= usize::MAX
                &&& a_len as nat * (n as nat) <= usize::MAX
            }
        }),
    ensures
        r is Err <==> spec_infer_matmul_k(k as nat, m as nat, n as nat, a_len as nat, b_len as nat) is None,
        r matches Err(e) ==> e@ == spec_no_inner_dim_error(k as nat, m as nat, n as nat, a_len as nat, b_len as nat),
        r matches Ok(p) ==> spec_infer_matmul_k(k as nat, m as nat, n as nat, a_len as nat, b_len as nat)
            matches Some(ak) && p == spec_matmul_plan(m as nat, ak, n as nat, a_len as nat, b_len as nat),
{
    let actual_k = match infer_matmul_k(k, m, n, a_len, b_len) {
        Ok(x) => x,
        Err(e) => {
            return Err(e);
        },
    };
    let mk = (if m >= 1 { m } else { 1 }) * actual_k;
    let kn = actual_k * (if n >= 1 { n } else { 1 });
    let flat_m = a_len / actual_k;
    let flat_n = b_len / actual_k;
    proof {
        assert(flat_m * actual_k <= a_len) by (nonlinear_arith)
            requires flat_m == a_len / actual_k, actual_k > 0;
        assert(flat_n * actual_k <= b_len) by (nonlinear_arith)
            requires flat_n == b_len / actual_k, actual_k > 0;
    }
    let flat = MatmulPlan {
        batch: 1,
        m: flat_m,
        k: actual_k,
        n: flat_n,
        a_stride: flat_m * actual_k,
        b_stride: flat_n * actual_k,
        out_len: flat_m * flat_n,
    };
    if m > 0 && n > 0 && mk > 0 && kn > 0 && a_len > mk && a_len % mk == 0 && (b_len % kn == 0
        || b_len == kn) {
        let batch_a = a_len / mk;
        let batch_b = if b_len > kn && b_len % kn == 0 { b_len / kn } else { 1 };
        if batch_a == batch_b || batch_b == 1 {
            proof {
                assert(batch_a * mk <= a_len) by (nonlinear_arith)
                    requires batch_a == a_len / mk, mk > 0;
                assert(mk == m * actual_k);
                assert(batch_a * m <= a_len) by (nonlinear_arith)
                    requires batch_a * mk <= a_len, mk == m * actual_k, actual_k >= 1, m >= 0, batch_a >= 0;
                assert(batch_a * m * n <= a_len * n) by (nonlinear_arith)
                    requires batch_a * m <= a_len, n >= 0;
            }
            let b_stride = if b_len == kn { 0 } else { actual_k * n };
            return Ok(MatmulPlan {
                batch: batch_a,
                m,
                k: actual_k,
                n,
                a_stride: m * actual_k,
                b_stride,
                out_len: batch_a * m * n,
            });
        }
    }
    Ok(flat)
}

/// Transpose of a row-major `[rows, cols]` matrix: element `(c, r)` of the result is element
/// `(r, c)` of `src`.
pub open spec fn spec_transpose_2d<T>(src: Seq<T>, rows: nat, cols: nat) -> Seq<T> {
    Seq::new(rows * cols, |p: int| src[(p % (rows as int)) * cols + p / (rows as int)])
}

/// Transpose a row-major `[rows, cols]` matrix into `[cols, rows]`.
pub fn transpose_2d<T: Copy>(src: &[T], rows: usize, cols: usize) -> (dst: Vec<T>)
    requires
        src@.len() == rows * cols,
    ensures
        dst@ == spec_transpose_2d(src@, rows as nat, cols as nat),
{
    let total = src.len();
    let mut dst: Vec<T> = Vec::with_capacity(total);
    let mut p: usize = 0;
    while p < total
        invariant
            total == src@.len(),
            total == rows * cols,
            p <= total,
            dst@.len() == p,
            forall|t: int| 0 <= t < p ==> #[trigger] dst@[t] == spec_transpose_2d(src@, rows as nat, cols as nat)[t],
        decreases total - p,
    {
        proof {
            assert(rows > 0) by (nonlinear_arith) requires p < total, total == rows * cols;
        }
        let c = p / rows;
        let r = p % rows;
        proof {
            assert(c < cols) by (nonlinear_arith) requires c == p / rows, p < rows * cols, rows > 0;
            assert(r * cols + c < rows * cols) by (nonlinear_arith) requires r < rows, c < cols;
        }
        dst.push(src[r * cols + c]);
        p = p + 1;
    }
    assert(dst@ =~= spec_transpose_2d(src@, rows as nat, cols as nat));
    dst
}

/// Number of f32 weights a buffer of `byte_len` bytes decodes to: whole Q4_0 blocks of 32
/// (`quant == 1`), whole Q6_K blocks of 256 (`quant == 3`), or plain f32s.
pub open spec fn spec_decoded_weight_count(byte_len: nat, quant: u8) -> nat {
    if quant == 1 {
        (byte_len / 18) * 32
    } else if quant == 3 {
        (byte_len / 210) * 256
    } else {
        byte_len / 4
    }
}

/// Number of f32 weights a weight buffer decodes to (see `spec_decoded_weight_count`).
pub fn decoded_weight_count(byte_len: usize, quant: u8) -> (n: usize)
    requires
        2 * byte_len <= usize::MAX,
    ensures
        n == spec_decoded_weight_count(byte_len as nat, quant),
{
    if quant == 1 {
        (byte_len / 18) * 32
    } else if quant == 3 {
        (byte_len / 210) * 256
    } else {
        byte_len / 4
    }
}

/// Bit pattern of the f32 value 1.0.
pub const F32_ONE: u32 = 0x3f80_0000u32;

/// How a GEMM `alpha * A x B + beta * C` is carried out.
#[derive(Debug, Clone, Copy, PartialEq, Eq, Structural)]
pub enum GemmPlan {
    /// B is Q4_0 and used as is: a fused dequantizing product `[m, k] x [k, n]`.
    FusedQ4 { m: usize, k: usize, n: usize },
    /// B is decoded to f32 first, then `[m, k] x [k, n]`; the bias C is copied into the
    /// output first when `beta` is not zero.
    General { m: usize, k: usize, n: usize, copy_bias: bool },
}

/// An f32 bit pattern that compares equal to zero (either sign).
pub open spec fn spec_f32_bits_zero(bits: u32) -> bool {
    bits & 0x7fff_ffffu32 == 0
}

/// The GEMM plan for an A of `a_len` f32s and a B buffer of `b_bytes` bytes with inner
/// dimension `k`. `m` and `n` come from the buffer sizes, not from the compiled shape.
pub open spec fn spec_plan_gemm(
    a_len: nat,
    b_bytes: nat,
    k: nat,
    trans_a: bool,
    trans_b: bool,
    alpha_bits: u32,
    beta_bits: u32,
    quant_b: u8,
) -> GemmPlan {
    let q4_count = (b_bytes / 18) * 32;
    let fused_ok = quant_b == 1 && !trans_b && !trans_a && alpha_bits == F32_ONE && spec_f32_bits_zero(beta_bits) && k > 0
        && q4_count > 0 && (q4_count / k) % 32 == 0 && a_len / k > 0 && q4_count / k > 0;
    if fused_ok {
        GemmPlan::FusedQ4 { m: (a_len / k) as usize, k: k as usize, n: (q4_count / k) as usize }
    } else {
        let decoded = spec_decoded_weight_count(b_bytes, quant_b);
        GemmPlan::General {
            m: (if k > 0 { a_len / k } else { 0 }) as usize,
            k: k as usize,
            n: (if k > 0 { decoded / k } else { 0 }) as usize,
            copy_bias: !spec_f32_bits_zero(beta_bits),
        }
    }
}

/// Decide how to run a GEMM (see `spec_plan_gemm`); `alpha_bits` and `beta_bits` are the
/// f32 bit patterns of the scalars.
pub fn plan_gemm(
    a_len: usize,
    b_bytes: usize,
    k: usize,
    trans_a: bool,
    trans_b: bool,
    alpha_bits: u32,
    beta_bits: u32,
    quant_b: u8,
) -> (plan: GemmPlan)
    requires
        2 * b_bytes <= usize::MAX,
    ensures
        plan == spec_plan_gemm(a_len as nat, b_bytes as nat, k as nat, trans_a, trans_b, alpha_bits, beta_bits, quant_b),
{
    let beta_zero = beta_bits & 0x7fff_ffffu32 == 0;
    if quant_b == 1 && !trans_b && !trans_a && alpha_bits == F32_ONE && beta_zero {
        let expected = (b_bytes / 18) * 32;
        if k > 0 && expected > 0 {
            let n = expected / k;
            let m = a_len / k;
            if n % 32 == 0 && m > 0 && n > 0 {
                return GemmPlan::FusedQ4 { m, k, n };
            }
        }
    }
    let decoded = decoded_weight_count(b_bytes, quant_b);
    let n = if k > 0 { decoded / k } else { 0 };
    let m = if k > 0 { a_len / k } else { 0 };
    GemmPlan::General { m, k, n, copy_bias: !beta_zero }
}

/// Layout of a batched product `[.., m, k] x [k, n]` (B shared by all batches, or one B per
/// batch, cycled when there are fewer).
#[derive(Debug, Clone, Copy, PartialEq, Eq, Structural)]
pub struct BatchedMatmulPlan {
    pub batch: usize,
    pub m: usize,
    pub k: usize,
    pub n: usize,
    pub a_stride: usize,
    pub b_stride: usize,
    pub c_stride: usize,
    /// Number of B matrices in the buffer (at least 1).
    pub b_batch_count: usize,
}

/// Number of batches of a batched product: the product of A's leading dimensions, at
/// least 1.
pub open spec fn spec_batch_of(a_shape: Seq<usize>) -> nat {
    let p = spec_prod(a_shape.subrange(0, a_shape.len() - 2));
    if p >= 1 { p } else { 1 }
}

/// The error when the buffers of a batched product are too short for its shapes.
pub open spec fn spec_batched_size_error(batch: nat, m: nat, k: nat, n: nat, a_len: nat, b_len: nat) -> ErrorView {
    ErrorView::ShapeMismatch {
        expected: "batched matmul: batch="@ + spec_dec(batch) + " A=["@ + spec_dec(m) + ","@ + spec_dec(k) + "] B=["@
            + spec_dec(k) + ","@ + spec_dec(n) + "]"@,
        actual: "a_len="@ + spec_dec(a_len) + ", b_len="@ + spec_dec(b_len),
    }
}

fn batched_size_error(batch: usize, m: usize, k: usize, n: usize, a_len: usize, b_len: usize) -> (e: ExecError)
    ensures
        e@ == spec_batched_size_error(batch as nat, m as nat, k as nat, n as nat, a_len as nat, b_len as nat),
{
    let mut expected = String::from_str("batched matmul: batch=");
    push_dec(&mut expected, batch);
    expected.append(" A=[");
    push_dec(&mut expected, m);
    expected.append(",");
    push_dec(&mut expected, k);
    expected.append("] B=[");
    push_dec(&mut expected, k);
    expected.append(",");
    push_dec(&mut expected, n);
    expected.append("]");
    let mut actual = String::from_str("a_len=");
    push_dec(&mut actual, a_len);
    actual.append(", b_len=");
    push_dec(&mut actual, b_len);
    ExecError::ShapeMismatch { expected, actual }
}

/// The plan, or the size check that fails, for a batched product of an A of `a_len` and a
/// B of `b_len` f32s with shapes `a_shape` and `b_shape`.
pub open spec fn spec_plan_batched_matmul(a_len: nat, b_len: nat, a_shape: Seq<usize>, b_shape: Seq<usize>) -> Result<BatchedMatmulPlan, ErrorView> {
    let m = a_shape[a_shape.len() - 2] as nat;
    let k = a_shape[a_shape.len() - 1] as nat;
    let n = b_shape[b_shape.len() - 1] as nat;
    let batch = spec_batch_of(a_shape);
    let a_stride = m * k;
    let b_stride = k * n;
    let b_batch_count = if b_stride > 0 && b_len / b_stride >= 1 { b_len / b_stride } else { 1 };
    if batch * a_stride > a_len || b_stride > b_len {
        Err(spec_batched_size_error(batch, m, k, n, a_len, b_len))
    } else {
        Ok(BatchedMatmulPlan {
            batch: batch as usize,
            m: m as usize,
            k: k as usize,
            n: n as usize,
            a_stride: a_stride as usize,
            b_stride: b_stride as usize,
            c_stride: (m * n) as usize,
            b_batch_count: b_batch_count as usize,
        })
    }
}

/// Validate and lay out a batched product: the last two dims of `a_shape` are `[m, k]`,
/// the last of `b_shape` is `n`, and everything before `[m, k]` is batch.
pub fn plan_batched_matmul(a_len: usize, b_len: usize, a_shape: &[usize], b_shape: &[usize]) -> (r: Result<
    BatchedMatmulPlan,
    ExecError,
>)
    requires
        a_shape@.len() >= 2,
        b_shape@.len() >= 1,
        spec_batch_of(a_shape@) * a_shape@[a_shape@.len() - 2] * a_shape@[a_shape@.len() - 1] <= usize::MAX,
        spec_batch_of(a_shape@) * a_shape@[a_shape@.len() - 2] * b_shape@[b_shape@.len() - 1] <= usize::MAX,
        a_shape@[a_shape@.len() - 1] * b_shape@[b_shape@.len() - 1] <= usize::MAX,
        spec_prod(a_shape@.subrange(0, a_shape@.len() - 2)) <= usize::MAX,
    ensures
        result_view(r) == spec_plan_batched_matmul(a_len as nat, b_len as nat, a_shape@, b_shape@),
{
    let ar = a_shape.len();
    let m = a_shape[ar - 2];
    let k = a_shape[ar - 1];
    let n = b_shape[b_shape.len() - 1];
    let lead = vstd::slice::slice_subrange(a_shape, 0, ar - 2);
    let p = match shape_product(lead) {
        Some(p) => p,
        None => 0,
    };
    let batch = if p >= 1 { p } else { 1 };
    let ghost b = spec_batch_of(a_shape@);
    proof {
        assert(lead@ == a_shape@.subrange(0, ar - 2));
        assert(batch == b);
        assert(m * k <= b * m * k) by (nonlinear_arith) requires b >= 1;
        assert(b * m * k == b * (m * k)) by (nonlinear_arith);
        assert(m * n <= b * m * n) by (nonlinear_arith) requires b >= 1;
    }
    let a_stride = m * k;
    let b_stride = k * n;
    let c_stride = m * n;
    let b_batch_count = if b_stride > 0 && b_len / b_stride >= 1 { b_len / b_stride } else { 1 };
    if batch * a_stride > a_len || b_stride > b_len {
        return Err(batched_size_error(batch, m, k, n, a_len, b_len));
    }
    Ok(BatchedMatmulPlan { batch, m, k, n, a_stride, b_stride, c_stride, b_batch_count })
}

/// Every batch of a valid plan reads whole A and B matrices inside their buffers: batch
/// `i` reads A at `i * a_stride` and B at `(i % b_batch_count) * b_stride`.
pub proof fn lemma_batched_slices_in_range(a_len: nat, b_len: nat, a_shape: Seq<usize>, b_shape: Seq<usize>, i: nat)
    requires
        a_shape.len() >= 2,
        b_shape.len() >= 1,
        a_len <= usize::MAX,
        b_len <= usize::MAX,
        spec_batch_of(a_shape) <= usize::MAX,
        spec_plan_batched_matmul(a_len, b_len, a_shape, b_shape) is Ok,
        i < spec_plan_batched_matmul(a_len, b_len, a_shape, b_shape)->Ok_0.batch,
    ensures
        ({
            let p = spec_plan_batched_matmul(a_len, b_len, a_shape, b_shape)->Ok_0;
            &&& i * p.a_stride + p.a_stride <= a_len
            &&& (i % (p.b_batch_count as nat)) * p.b_stride + p.b_stride <= b_len
        }),
{
    let p = spec_plan_batched_matmul(a_len, b_len, a_shape, b_shape)->Ok_0;
    let batch = spec_batch_of(a_shape);
    let m = a_shape[a_shape.len() - 2] as nat;
    let k = a_shape[a_shape.len() - 1] as nat;
    let n = b_shape[b_shape.len() - 1] as nat;
    let a_stride = m * k;
    let b_stride = k * n;
    assert(batch * a_stride <= a_len);
    assert(b_stride <= b_len);
    assert(a_stride <= batch * a_stride) by (nonlinear_arith) requires batch >= 1;
    assert(p.a_stride == a_stride);
    assert(p.b_stride == b_stride);
    assert(p.batch == batch);
    assert(i * a_stride + a_stride <= batch * a_stride) by (nonlinear_arith) requires i < batch;
    let cnt = if b_stride > 0 && b_len / b_stride >= 1 { b_len / b_stride } else { 1 };
    assert(p.b_batch_count == cnt);
    let j = i % cnt;
    assert(j < cnt);
    if b_stride > 0 && b_len / b_stride >= 1 {
        assert(j * b_stride + b_stride <= cnt * b_stride) by (nonlinear_arith) requires j < cnt;
        assert(cnt * b_stride <= b_len) by (nonlinear_arith) requires cnt == b_len / b_stride, b_stride > 0;
    } else if b_stride > 0 {
        assert(j == 0);
    } else {
        assert(j * b_stride == 0) by (nonlinear_arith) requires b_stride == 0;
    }
}

} // verus!
