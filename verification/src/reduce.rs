//! Row reductions (sum, mean, max, min, product over the last axis): the buffer is cut
//! into rows of `size` elements and each row is folded; the fold itself is supplied by the
//! caller.
use vstd::prelude::*;
use crate::error::{dec_then, head_dec, spec_dec, ErrorView, ExecError};
use crate::pool::{reduce_segments, spec_reduced, spec_segment_count};

verus! {

/// Reduce each row of `size` elements of `data` to one value: `finalize` of the fold of the
/// row. A length that is not a whole number of rows is an error.
pub fn reduce_rows<T: Copy, A: Copy, F: Fn(A, T) -> A, G: Fn(A) -> T>(
    data: &[T],
    size: usize,
    init: A,
    fold: F,
    finalize: G,
) -> (r: Result<Vec<T>, ExecError>)
    requires
        size > 0,
        forall|x: A, v: T| #[trigger] fold.requires((x, v)),
        forall|x: A| #[trigger] finalize.requires((x,)),
    ensures
        data@.len() % (size as nat) != 0 ==> (r matches Err(e) && e@ == (ErrorView::ShapeMismatch {
            expected: "multiple of "@ + spec_dec(size as nat),
            actual: spec_dec(data@.len()) + " floats"@,
        })),
        data@.len() % (size as nat) == 0 ==> (r matches Ok(out) && out@.len() == data@.len() / (size as nat) && forall|i: int|
            0 <= i < out@.len() ==> #[trigger] spec_reduced(data@, size as int, init, fold, finalize, i, out@[i])),
{
    let len = data.len();
    if len % size != 0 {
        return Err(
            ExecError::ShapeMismatch { expected: head_dec("multiple of ", size), actual: dec_then(len, " floats") },
        );
    }
    let rows = len / size;
    proof {
        assert(rows * size <= len) by (nonlinear_arith) requires rows == len / size, size > 0;
    }
    let out = reduce_segments(data, rows, size, false, init, fold, finalize);
    proof {
        assert(spec_segment_count(len as nat, rows as nat, size as nat, false) == rows);
    }
    Ok(out)
}

} // verus!
