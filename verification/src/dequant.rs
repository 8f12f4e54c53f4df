//! Integer decoding of the GGML block-quantized weight formats. A Q4_0 block is 18 bytes:
//! an f16 scale and 16 bytes of nibbles holding 32 signed 4-bit values; a Q6_K super-block
//! is 210 bytes: 128 bytes of low nibbles, 64 bytes of high bit pairs, 16 signed 8-bit
//! sub-block scales and an f16 scale, for 256 signed 6-bit values. This module locates
//! blocks and extracts the signed quantized values, sub-block scales and raw f16 scale
//! bits; multiplying them out is float work done by the caller.
use vstd::prelude::*;
use crate::quantize::{lemma_nibbles_bounded, spec_hi_nibble, spec_lo_nibble};

verus! {

/// Bytes per Q4_0 block.
pub const Q4_0_BLOCK_BYTES: usize = 18;

/// Values per Q4_0 block.
pub const Q4_0_BLOCK_VALUES: usize = 32;

/// Bytes per Q6_K super-block.
pub const Q6_K_BLOCK_BYTES: usize = 210;

/// Values per Q6_K super-block.
pub const Q6_K_BLOCK_VALUES: usize = 256;

/// The raw little-endian f16 scale stored at `off` in a block.
pub open spec fn spec_f16_bits_at(block: Seq<u8>, off: int) -> u16 {
    (block[off] as nat + 256 * block[off + 1] as nat) as u16
}

/// The f16 scale bits of a block stored at byte `off` (first two bytes for Q4_0, the last
/// two for Q6_K).
pub fn f16_bits_at(block: &[u8], off: usize) -> (bits: u16)
    requires
        off + 2 <= block@.len(),
    ensures
        bits == spec_f16_bits_at(block@, off as int),
{
    let lo = block[off] as u16;
    let hi = block[off + 1] as u16;
    let bits = lo | (hi << 8u16);
    assert(bits == lo + 256 * hi) by (bit_vector)
        requires bits == lo | (hi << 8u16), lo < 256, hi < 256;
    bits
}

/// Value `pos` (0..32) of a Q4_0 block in GGML order: the low nibbles of the 16 data
/// bytes give values 0..16, their high nibbles values 16..32, each offset by -8.
pub open spec fn spec_q4_0_quant(block: Seq<u8>, pos: int) -> i8 {
    if pos < 16 {
        (spec_lo_nibble(block[2 + pos]) as int - 8) as i8
    } else {
        (spec_hi_nibble(block[2 + pos - 16]) as int - 8) as i8
    }
}

/// Signed 4-bit value `pos` of a Q4_0 block (GGML order).
pub fn q4_0_quant(block: &[u8], pos: usize) -> (q: i8)
    requires
        block@.len() >= Q4_0_BLOCK_BYTES,
        pos < Q4_0_BLOCK_VALUES,
    ensures
        q == spec_q4_0_quant(block@, pos as int),
        -8 <= q <= 7,
{
    let b = if pos < 16 { block[2 + pos] & 0x0Fu8 } else { block[2 + pos - 16] >> 4u8 };
    proof {
        lemma_nibbles_bounded(block@[2 + (if pos < 16 { pos as int } else { pos - 16 })]);
    }
    (b as i8) - 8
}

/// Value `2 * b + h` of a Q4_0 block in the interleaved order of the plain dequantize
/// kernel: the low (`h == 0`) then high (`h == 1`) nibble of data byte `b`, offset by -8.
pub open spec fn spec_q4_0_interleaved(block: Seq<u8>, v: int) -> i8 {
    let byte = block[2 + v / 2];
    if v % 2 == 0 {
        (spec_lo_nibble(byte) as int - 8) as i8
    } else {
        (spec_hi_nibble(byte) as int - 8) as i8
    }
}

/// The 32 signed values of a Q4_0 block in interleaved order (low then high nibble of
/// each data byte).
pub fn q4_0_block_interleaved(block: &[u8]) -> (qs: Vec<i8>)
    requires
        block@.len() >= Q4_0_BLOCK_BYTES,
    ensures
        qs@.len() == Q4_0_BLOCK_VALUES,
        forall|v: int| 0 <= v < 32 ==> #[trigger] qs@[v] == spec_q4_0_interleaved(block@, v),
{
    let mut qs: Vec<i8> = Vec::with_capacity(32);
    let mut b: usize = 0;
    while b < 16
        invariant
            block@.len() >= Q4_0_BLOCK_BYTES,
            b <= 16,
            qs@.len() == 2 * b,
            forall|v: int| 0 <= v < 2 * b ==> #[trigger] qs@[v] == spec_q4_0_interleaved(block@, v),
        decreases 16 - b,
    {
        let byte = block[2 + b];
        proof {
            lemma_nibbles_bounded(byte);
        }
        let lo = ((byte & 0x0Fu8) as i8) - 8;
        let hi = ((byte >> 4u8) as i8) - 8;
        qs.push(lo);
        qs.push(hi);
        b = b + 1;
    }
    qs
}

/// Byte offset of the Q4_0 block holding column `col` of row `row` of a row-major weight
/// matrix with `n` columns (a whole number of blocks per row).
pub open spec fn spec_q4_0_block_offset(row: nat, col: nat, n: nat) -> nat {
    (row * (n / 32) + col / 32) * 18
}

/// Byte offset of the Q4_0 block holding `(row, col)`, and the position of the value
/// inside it.
pub fn q4_0_locate(row: usize, col: usize, n: usize) -> (r: (usize, usize))
    requires
        col < n,
        n % 32 == 0,
        (row + 1) * (n / 32) * 18 <= usize::MAX,
    ensures
        r.0 == spec_q4_0_block_offset(row as nat, col as nat, n as nat),
        r.1 == col % 32,
        r.0 + 18 <= (row + 1) * (n / 32) * 18,
{
    let bpr = n / 32;
    proof {
        assert(col / 32 < bpr) by (nonlinear_arith) requires col < n, n % 32 == 0, bpr == n / 32;
        assert((row * bpr + col / 32) * 18 + 18 <= (row + 1) * bpr * 18) by (nonlinear_arith)
            requires col / 32 < bpr;
    }
    ((row * bpr + col / 32) * 18, col % 32)
}

/// Value `pos` (0..256) of a Q6_K super-block: pass `pos / 128`, group `g` of 32 within
/// it and lane `l`; the low 4 bits are the low (groups 0, 1) or high (groups 2, 3) nibble
/// of `ql[64 * pass + l]` (groups 0, 2) or `ql[64 * pass + l + 32]` (groups 1, 3), the
/// high 2 bits are bits `2g..2g+2` of `qh[32 * pass + l]`; the value is offset by -32.
pub open spec fn spec_q6_k_quant(block: Seq<u8>, pos: int) -> i8 {
    let pass = pos / 128;
    let g = (pos % 128) / 32;
    let l = pos % 32;
    let ql = block[64 * pass + l + (if g % 2 == 1 { 32int } else { 0int })];
    let low = if g < 2 { spec_lo_nibble(ql) } else { spec_hi_nibble(ql) };
    let high = (block[128 + 32 * pass + l] >> (2 * g) as u8) & 3u8;
    (low as int + 16 * high as int - 32) as i8
}

/// Index of the sub-block scale applied to value `pos` of a Q6_K super-block: scale
/// `8 * pass + 2 * group`.
pub open spec fn spec_q6_k_scale_index(pos: int) -> int {
    8 * (pos / 128) + 2 * ((pos % 128) / 32)
}

/// Signed 6-bit value `pos` of a Q6_K super-block.
pub fn q6_k_quant(block: &[u8], pos: usize) -> (q: i8)
    requires
        block@.len() >= Q6_K_BLOCK_BYTES,
        pos < Q6_K_BLOCK_VALUES,
    ensures
        q == spec_q6_k_quant(block@, pos as int),
        -32 <= q <= 31,
{
    let pass = pos / 128;
    let g = (pos % 128) / 32;
    let l = pos % 32;
    let ql = block[64 * pass + l + (if g % 2 == 1 { 32 } else { 0 })];
    let low: u8 = if g < 2 { ql & 0x0Fu8 } else { ql >> 4u8 };
    let qh = block[128 + 32 * pass + l];
    let shift: u8 = (2 * g) as u8;
    let high: u8 = (qh >> shift) & 3u8;
    proof {
        lemma_nibbles_bounded(ql);
        assert(high <= 3) by (bit_vector) requires high == (qh >> shift) & 3u8;
    }
    let v: u8 = low + 16 * high;
    (v as i8) - 32
}

/// The signed 8-bit sub-block scale applied to value `pos` of a Q6_K super-block.
pub fn q6_k_scale(block: &[u8], pos: usize) -> (s: i8)
    requires
        block@.len() >= Q6_K_BLOCK_BYTES,
        pos < Q6_K_BLOCK_VALUES,
    ensures
        s == block@[192 + spec_q6_k_scale_index(pos as int)] as i8,
        0 <= spec_q6_k_scale_index(pos as int) < 16,
{
    let idx = 8 * (pos / 128) + 2 * ((pos % 128) / 32);
    #[verifier::truncate] (block[192 + idx] as i8)
}

/// Each Q6_K value reads a distinct low-nibble slot and a distinct high-bit-pair slot:
/// two positions that agree on both are the same position.
pub proof fn lemma_q6_k_slots_distinct(p: int, q: int)
    requires
        0 <= p < 256,
        0 <= q < 256,
        p / 128 == q / 128,
        p % 32 == q % 32,
        ((p % 128) / 32) % 2 == ((q % 128) / 32) % 2,
        ((p % 128) / 32) < 2 <==> ((q % 128) / 32) < 2,
    ensures
        p == q,
{
}

/// Byte of the Q6_K low-bits area that holds the low four bits of value `pos`: lane
/// `pos % 32` of the 64-byte half of pass `pos / 128`, in its second 32 bytes for the odd
/// groups of 32.
pub open spec fn spec_q6_k_low_byte(pos: int) -> int {
    64 * (pos / 128) + pos % 32 + 32 * (((pos % 128) / 32) % 2)
}

/// Byte of the Q6_K high-bits area that holds the high two bits of value `pos`: lane
/// `pos % 32` of the 32 bytes of pass `pos / 128`, which start at byte `128 + 32 * pass`.
pub open spec fn spec_q6_k_high_byte(pos: int) -> int {
    128 + 32 * (pos / 128) + pos % 32
}

/// `4^g` for a group `g` of a Q6_K pass.
pub open spec fn spec_four_pow(g: int) -> int {
    if g == 0 {
        1
    } else if g == 1 {
        4
    } else if g == 2 {
        16
    } else {
        64
    }
}

/// Value `pos` of a Q6_K super-block is a 6-bit number less 32: its low four bits are the
/// low nibble (groups 0 and 1) or the high nibble (groups 2 and 3) of its low-bits byte,
/// and its high two bits are the base-4 digit `g` of its high-bits byte, `g` being its
/// group of 32 within the pass.
pub proof fn lemma_q6_k_value(block: Seq<u8>, pos: int)
    requires
        block.len() >= Q6_K_BLOCK_BYTES,
        0 <= pos < Q6_K_BLOCK_VALUES,
    ensures
        ({
            let g = (pos % 128) / 32;
            let lo = block[spec_q6_k_low_byte(pos)] as int;
            let hi = block[spec_q6_k_high_byte(pos)] as int;
            let low4 = if g < 2 { lo % 16 } else { lo / 16 };
            spec_q6_k_quant(block, pos) as int == low4 + 16 * ((hi / spec_four_pow(g)) % 4) - 32
        }),
        -32 <= spec_q6_k_quant(block, pos) <= 31,
{
    let g = (pos % 128) / 32;
    let ql = block[spec_q6_k_low_byte(pos)];
    let qh = block[spec_q6_k_high_byte(pos)];
    assert(spec_lo_nibble(ql) as int == ql as int % 16) by (bit_vector)
        requires ql == ql;
    assert(spec_hi_nibble(ql) as int == ql as int / 16) by (bit_vector)
        requires ql == ql;
    assert((qh >> 0u8) & 3u8 == qh % 4) by (bit_vector);
    assert((qh >> 2u8) & 3u8 == (qh / 4) % 4) by (bit_vector);
    assert((qh >> 4u8) & 3u8 == (qh / 16) % 4) by (bit_vector);
    assert((qh >> 6u8) & 3u8 == (qh / 64) % 4) by (bit_vector);
    lemma_nibbles_bounded(ql);
    assert(0 <= g < 4);
    let high = (qh >> (2 * g) as u8) & 3u8;
    assert(high as int == (qh as int / spec_four_pow(g)) % 4) by {
        if g == 0 {
            assert((2 * g) as u8 == 0u8);
        } else if g == 1 {
            assert((2 * g) as u8 == 2u8);
        } else if g == 2 {
            assert((2 * g) as u8 == 4u8);
        } else {
            assert((2 * g) as u8 == 6u8);
        }
    }
}

/// Value `pos` of a Q6_K super-block depends only on its own low-bits byte and its own
/// high-bits byte: two blocks that agree on those two bytes give the same value.
pub proof fn lemma_q6_k_reads_own_bytes(b1: Seq<u8>, b2: Seq<u8>, pos: int)
    requires
        b1.len() >= Q6_K_BLOCK_BYTES,
        b2.len() >= Q6_K_BLOCK_BYTES,
        0 <= pos < Q6_K_BLOCK_VALUES,
        b1[spec_q6_k_low_byte(pos)] == b2[spec_q6_k_low_byte(pos)],
        b1[spec_q6_k_high_byte(pos)] == b2[spec_q6_k_high_byte(pos)],
    ensures
        spec_q6_k_quant(b1, pos) == spec_q6_k_quant(b2, pos),
{
    lemma_q6_k_value(b1, pos);
    lemma_q6_k_value(b2, pos);
}

/// Value `pos` of a Q4_0 block is a 4-bit number less 8: for the first 16 values the low
/// nibble of data byte `pos`, for the last 16 the high nibble of data byte `pos - 16`
/// (the data bytes follow the 2-byte scale).
pub proof fn lemma_q4_0_value(block: Seq<u8>, pos: int)
    requires
        block.len() >= Q4_0_BLOCK_BYTES,
        0 <= pos < Q4_0_BLOCK_VALUES,
    ensures
        pos < 16 ==> spec_q4_0_quant(block, pos) as int == block[2 + pos] as int % 16 - 8,
        pos >= 16 ==> spec_q4_0_quant(block, pos) as int == block[2 + pos - 16] as int / 16 - 8,
        -8 <= spec_q4_0_quant(block, pos) <= 7,
{
    let byte = if pos < 16 { block[2 + pos] } else { block[2 + pos - 16] };
    assert(spec_lo_nibble(byte) as int == byte as int % 16) by (bit_vector)
        requires byte == byte;
    assert(spec_hi_nibble(byte) as int == byte as int / 16) by (bit_vector)
        requires byte == byte;
    lemma_nibbles_bounded(byte);
}

/// The GGML order and the interleaved order of a Q4_0 block hold the same 32 values:
/// value `pos` in GGML order is value `2 * (pos % 16) + pos / 16` in interleaved order.
pub proof fn lemma_q4_0_orders_agree(block: Seq<u8>, pos: int)
    requires
        block.len() >= Q4_0_BLOCK_BYTES,
        0 <= pos < Q4_0_BLOCK_VALUES,
    ensures
        spec_q4_0_quant(block, pos) == spec_q4_0_interleaved(block, 2 * (pos % 16) + pos / 16),
{
    let v = 2 * (pos % 16) + pos / 16;
    assert(v / 2 == pos % 16 && v % 2 == pos / 16);
}

/// In a row-major matrix of whole Q4_0 blocks, the block holding `(row, col)` is block
/// number `(row * n + col) / 32` of the flat weights.
pub proof fn lemma_q4_0_block_offset_flat(row: nat, col: nat, n: nat)
    requires
        n % 32 == 0,
        col < n,
    ensures
        spec_q4_0_block_offset(row, col, n) == 18 * ((row * n + col) / 32),
{
    let b = n / 32;
    assert(n == 32 * b);
    assert(row * n + col == 32 * (row * b) + col) by (nonlinear_arith) requires n == 32 * b;
    assert((32 * (row * b) + col) / 32 == row * b + col / 32) by (nonlinear_arith);
}

/// Value `pos` of a Q6_K super-block is scaled by sub-block scale `2 * (pos / 32)`: each
/// run of 32 values shares one scale, and consecutive runs use every other scale byte.
pub proof fn lemma_q6_k_scale_of_run(pos: int)
    requires
        0 <= pos < Q6_K_BLOCK_VALUES,
    ensures
        spec_q6_k_scale_index(pos) == 2 * (pos / 32),
{
    assert(pos / 32 == 4 * (pos / 128) + (pos % 128) / 32);
}

} // verus!
