//! Resolving the bytes of a graph constant: stored inline, or deferred to a range of the
//! archive's weight blob.
use vstd::prelude::*;
use crate::error::{ErrorView, ExecError};

verus! {

/// Where a constant's bytes live.
#[derive(Debug)]
pub enum ConstantData {
    /// The bytes themselves.
    Bytes(Vec<u8>),
    /// `byte_size` bytes of the weight blob starting at offset `source_id`.
    Deferred { byte_size: u64, source_id: u64 },
}

/// The bytes of constant `cid` given what the constant store holds for it (`None` when it
/// holds nothing): inline bytes, or the deferred range of `weights`; a missing constant
/// or a range past the end of the weights is an error.
pub open spec fn spec_resolve_constant(cid: u32, data: Option<ConstantData>, weights: Seq<u8>) -> Result<Seq<u8>, ErrorView> {
    match data {
        None => Err(ErrorView::ConstantNotFound(cid)),
        Some(ConstantData::Bytes(b)) => Ok(b@),
        Some(ConstantData::Deferred { byte_size, source_id }) => {
            let start = (source_id as usize) as nat;
            let end = start + (byte_size as usize) as nat;
            if end > weights.len() {
                Err(ErrorView::ConstantNotFound(cid))
            } else {
                Ok(weights.subrange(start as int, end as int))
            }
        },
    }
}

/// Resolve the bytes of constant `cid` (see `spec_resolve_constant`).
pub fn resolve_constant_bytes<'a>(cid: u32, data: Option<&'a ConstantData>, weights: &'a [u8]) -> (r: Result<&'a [u8], ExecError>)
    requires
        data matches Some(ConstantData::Deferred { byte_size, source_id }) ==> (source_id as usize) + (byte_size as usize) <= usize::MAX,
    ensures
        match spec_resolve_constant(cid, match data { Some(d) => Some(*d), None => None }, weights@) {
            Ok(s) => r matches Ok(b) && b@ == s,
            Err(e) => r matches Err(re) && re@ == e,
        },
{
    match data {
        None => Err(ExecError::ConstantNotFound(cid)),
        Some(ConstantData::Bytes(b)) => Ok(b.as_slice()),
        Some(ConstantData::Deferred { byte_size, source_id }) => {
            let start = #[verifier::truncate] (*source_id as usize);
            let size = #[verifier::truncate] (*byte_size as usize);
            if start + size > weights.len() {
                return Err(ExecError::ConstantNotFound(cid));
            }
            Ok(vstd::slice::slice_subrange(weights, start, start + size))
        },
    }
}

} // verus!
