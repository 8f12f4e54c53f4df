//! Byte-domain element-wise dispatch: a binary byte operation applied position by position
//! to two equally long buffers.
use vstd::prelude::*;
use crate::error::{ErrorView, ExecError};

verus! {

/// Stateless dispatch for byte-domain graph operations.
pub struct KvStore;

/// `out` holds `op` applied to the bytes of `lhs` and `rhs` at each position.
pub open spec fn spec_zip_with<F: Fn(u8, u8) -> u8>(op: F, lhs: Seq<u8>, rhs: Seq<u8>, out: Seq<u8>) -> bool {
    &&& out.len() == lhs.len()
    &&& forall|i: int| 0 <= i < out.len() ==> call_ensures(op, (lhs[i], rhs[i]), #[trigger] out[i])
}

impl KvStore {
    /// Apply the binary byte operation `op` element-wise; the operands must have the same
    /// length.
    pub fn apply_binary<F: Fn(u8, u8) -> u8>(op: F, lhs: &[u8], rhs: &[u8]) -> (r: Result<Vec<u8>, ExecError>)
        requires
            forall|a: u8, b: u8| #[trigger] op.requires((a, b)),
        ensures
            lhs@.len() != rhs@.len() ==> (r matches Err(e) && e@ == (ErrorView::LengthMismatch {
                expected: lhs@.len() as usize,
                actual: rhs@.len() as usize,
            })),
            lhs@.len() == rhs@.len() ==> (r matches Ok(out) && spec_zip_with(op, lhs@, rhs@, out@)),
    {
        if lhs.len() != rhs.len() {
            return Err(ExecError::LengthMismatch { expected: lhs.len(), actual: rhs.len() });
        }
        let mut out: Vec<u8> = Vec::with_capacity(lhs.len());
        Self::zip_into(&op, lhs, rhs, &mut out);
        assert(out@.subrange(0, 0) =~= Seq::<u8>::empty());
        assert(out@.subrange(0, out@.len() as int) =~= out@);
        Ok(out)
    }

    /// Append `op` applied element-wise to `lhs` and `rhs` to `out_buf`; the operands must
    /// have the same length. On a length mismatch `out_buf` is left unchanged.
    pub fn apply_binary_into<F: Fn(u8, u8) -> u8>(op: F, lhs: &[u8], rhs: &[u8], out_buf: &mut Vec<u8>) -> (r: Result<(), ExecError>)
        requires
            forall|a: u8, b: u8| #[trigger] op.requires((a, b)),
        ensures
            lhs@.len() != rhs@.len() ==> (r matches Err(e) && e@ == (ErrorView::LengthMismatch {
                expected: lhs@.len() as usize,
                actual: rhs@.len() as usize,
            })) && final(out_buf)@ == old(out_buf)@,
            lhs@.len() == rhs@.len() ==> r is Ok && final(out_buf)@.subrange(0, old(out_buf)@.len() as int) == old(out_buf)@
                && spec_zip_with(op, lhs@, rhs@, final(out_buf)@.subrange(old(out_buf)@.len() as int, final(out_buf)@.len() as int)),
    {
        if lhs.len() != rhs.len() {
            return Err(ExecError::LengthMismatch { expected: lhs.len(), actual: rhs.len() });
        }
        Self::zip_into(&op, lhs, rhs, out_buf);
        Ok(())
    }

    /// Append `op(lhs[i], rhs[i])` for each position to `out`.
    fn zip_into<F: Fn(u8, u8) -> u8>(op: &F, lhs: &[u8], rhs: &[u8], out: &mut Vec<u8>)
        requires
            lhs@.len() == rhs@.len(),
            forall|a: u8, b: u8| #[trigger] op.requires((a, b)),
        ensures
            final(out)@.len() == old(out)@.len() + lhs@.len(),
            final(out)@.subrange(0, old(out)@.len() as int) == old(out)@,
            spec_zip_with(*op, lhs@, rhs@, final(out)@.subrange(old(out)@.len() as int, final(out)@.len() as int)),
    {
        let ghost base = old(out)@;
        let n = lhs.len();
        let mut i: usize = 0;
        while i < n
            invariant
                n == lhs@.len(),
                n == rhs@.len(),
                forall|a: u8, b: u8| #[trigger] op.requires((a, b)),
                i <= n,
                out@.len() == base.len() + i,
                out@.subrange(0, base.len() as int) == base,
                forall|t: int| 0 <= t < i ==> call_ensures(*op, (lhs@[t], rhs@[t]), #[trigger] out@[base.len() + t]),
            decreases n - i,
        {
            let v = op(lhs[i], rhs[i]);
            out.push(v);
            assert(out@.subrange(0, base.len() as int) =~= base);
            i = i + 1;
        }
        let ghost tail = out@.subrange(base.len() as int, out@.len() as int);
        assert forall|t: int| 0 <= t < tail.len() implies call_ensures(*op, (lhs@[t], rhs@[t]), #[trigger] tail[t]) by {
            assert(tail[t] == out@[base.len() + t]);
        }
    }
}

} // verus!
