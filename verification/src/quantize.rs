//! Nibble packing for 4-bit quantized weight indices.
//!
//! A Q4 weight matrix stores two 4-bit centroid indices per byte, the element
//! with the even flat position in the high nibble and the odd one in the low
//! nibble.
use vstd::prelude::*;

verus! {

/// The byte that `pack_q4(hi, lo)` produces.
pub open spec fn spec_pack_q4(hi: u8, lo: u8) -> u8 {
    (hi << 4u8) | (lo & 0x0Fu8)
}

/// The high nibble of a packed byte.
pub open spec fn spec_hi_nibble(b: u8) -> u8 {
    b >> 4u8
}

/// The low nibble of a packed byte.
pub open spec fn spec_lo_nibble(b: u8) -> u8 {
    b & 0x0Fu8
}

/// The 4-bit index stored for flat element position `flat` in a packed buffer.
pub open spec fn spec_q4_at(packed: Seq<u8>, flat: int) -> u8 {
    if flat % 2 == 0 {
        spec_hi_nibble(packed[flat / 2])
    } else {
        spec_lo_nibble(packed[flat / 2])
    }
}

/// The packed buffer for a sequence of assignments: byte `j` holds elements
/// `2j` (high nibble) and `2j + 1` (low nibble, `0` past the end).
pub open spec fn spec_packed_assignments(a: Seq<u8>) -> Seq<u8> {
    Seq::new(
        ((a.len() + 1) / 2) as nat,
        |j: int|
            spec_pack_q4(a[2 * j], if 2 * j + 1 < a.len() { a[2 * j + 1] } else { 0u8 }),
    )
}

/// Pack two 4-bit indices into one byte (high nibble, low nibble).
pub fn pack_q4(hi: u8, lo: u8) -> (packed: u8)
    ensures
        packed == spec_pack_q4(hi, lo),
{
    (hi << 4u8) | (lo & 0x0Fu8)
}

/// Unpack one byte into two 4-bit indices.
pub fn unpack_q4(packed: u8) -> (pair: (u8, u8))
    ensures
        pair.0 == spec_hi_nibble(packed),
        pair.1 == spec_lo_nibble(packed),
        pair.0 < 16,
        pair.1 < 16,
{
    proof {
        lemma_nibbles_bounded(packed);
    }
    (packed >> 4u8, packed & 0x0Fu8)
}

/// Both nibbles of a byte are below 16.
pub proof fn lemma_nibbles_bounded(b: u8)
    ensures
        spec_hi_nibble(b) < 16,
        spec_lo_nibble(b) < 16,
{
    assert((b >> 4u8) < 16u8 && (b & 0x0Fu8) < 16u8) by (bit_vector);
}

/// Unpacking a packed byte gives back both indices when each fits in 4 bits.
pub proof fn lemma_unpack_pack(hi: u8, lo: u8)
    requires
        hi < 16,
        lo < 16,
    ensures
        spec_hi_nibble(spec_pack_q4(hi, lo)) == hi,
        spec_lo_nibble(spec_pack_q4(hi, lo)) == lo,
{
    assert(hi < 16u8 && lo < 16u8 ==> ((((hi << 4u8) | (lo & 0x0Fu8)) >> 4u8) == hi
        && (((hi << 4u8) | (lo & 0x0Fu8)) & 0x0Fu8) == lo)) by (bit_vector);
}

/// Packing the two nibbles of a byte rebuilds the byte.
pub proof fn lemma_pack_unpack(b: u8)
    ensures
        spec_pack_q4(spec_hi_nibble(b), spec_lo_nibble(b)) == b,
{
    assert((((b >> 4u8) << 4u8) | ((b & 0x0Fu8) & 0x0Fu8)) == b) by (bit_vector);
}

/// Get the Q4 index for element `(row, col)` of a row-major matrix with `cols` columns.
pub fn get_q4_index(indices: &[u8], row: u32, col: u32, cols: u32) -> (q: u8)
    requires
        row * cols + col <= u32::MAX,
        (row * cols + col) / 2 < indices@.len(),
    ensures
        q == spec_q4_at(indices@, row * cols + col),
{
    let flat = (row * cols + col) as usize;
    get_q4_flat_index(indices, flat)
}

/// Get the Q4 index by flat element position.
pub fn get_q4_flat_index(indices: &[u8], flat: usize) -> (q: u8)
    requires
        flat / 2 < indices@.len(),
    ensures
        q == spec_q4_at(indices@, flat as int),
{
    let byte_idx = flat / 2;
    if flat % 2 == 0 {
        indices[byte_idx] >> 4u8
    } else {
        indices[byte_idx] & 0x0Fu8
    }
}

/// Pack u8 assignments into nibble-packed bytes (two per byte, high nibble first;
/// an odd trailing element gets a zero low nibble).
pub fn pack_assignments_q4(assignments: &[u8]) -> (packed: Vec<u8>)
    ensures
        packed@ == spec_packed_assignments(assignments@),
{
    let n = assignments.len();
    let n_bytes = n / 2 + n % 2;
    let mut packed: Vec<u8> = Vec::with_capacity(n_bytes);
    let mut j: usize = 0;
    while j < n_bytes
        invariant
            n == assignments@.len(),
            n_bytes == (n + 1) / 2,
            j <= n_bytes,
            packed@.len() == j,
            forall|t: int| 0 <= t < j ==> #[trigger] packed@[t] == spec_packed_assignments(assignments@)[t],
        decreases n_bytes - j,
    {
        let hi = assignments[2 * j];
        let lo = if 2 * j + 1 < n { assignments[2 * j + 1] } else { 0u8 };
        packed.push(pack_q4(hi, lo));
        j = j + 1;
    }
    assert(packed@ =~= spec_packed_assignments(assignments@));
    packed
}

/// Reading element `i` of packed assignments gives back assignment `i`,
/// provided every assignment fits in 4 bits.
pub proof fn lemma_packed_assignments_roundtrip(a: Seq<u8>, i: int)
    requires
        0 <= i < a.len(),
        forall|t: int| 0 <= t < a.len() ==> #[trigger] a[t] < 16,
    ensures
        spec_packed_assignments(a).len() == (a.len() + 1) / 2,
        spec_q4_at(spec_packed_assignments(a), i) == a[i],
{
    let j = i / 2;
    let hi = a[2 * j];
    let lo: u8 = if 2 * j + 1 < a.len() { a[2 * j + 1] } else { 0u8 };
    assert(hi < 16);
    assert(lo < 16);
    lemma_unpack_pack(hi, lo);
}

} // verus!
