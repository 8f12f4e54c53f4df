//! Widening IEEE-754 half precision (the scales of quantized weight blocks) to single
//! precision, on bit patterns. Every finite half is exactly representable as a single, so
//! the conversion keeps sign and value; infinities stay infinite and NaNs become the
//! canonical quiet NaN.
use vstd::prelude::*;
use vstd::arithmetic::power2::{lemma2_to64, lemma_pow2_adds, pow2};

verus! {

/// Bit pattern of the canonical quiet single-precision NaN.
pub const F32_QUIET_NAN: u32 = 0x7fc0_0000u32;

/// Sign bit of a half.
pub open spec fn spec_f16_negative(h: u16) -> bool {
    (h >> 15u16) & 1u16 == 1u16
}

/// Biased exponent field of a half.
pub open spec fn spec_f16_exp(h: u16) -> nat {
    ((h >> 10u16) & 0x1fu16) as nat
}

/// Mantissa field of a half.
pub open spec fn spec_f16_mant(h: u16) -> nat {
    (h & 0x3ffu16) as nat
}

/// Magnitude of a finite half in units of 2^-24 (its smallest subnormal).
pub open spec fn spec_f16_units(h: u16) -> nat {
    let e = spec_f16_exp(h);
    let m = spec_f16_mant(h);
    if e == 0 { m } else { (1024 + m) * pow2((e - 1) as nat) }
}

/// Sign bit of a single.
pub open spec fn spec_f32_negative(b: u32) -> bool {
    (b >> 31u32) & 1u32 == 1u32
}

/// Biased exponent field of a single.
pub open spec fn spec_f32_exp(b: u32) -> nat {
    ((b >> 23u32) & 0xffu32) as nat
}

/// Mantissa field of a single.
pub open spec fn spec_f32_mant(b: u32) -> nat {
    (b & 0x7f_ffffu32) as nat
}

/// Magnitude of a finite single in units of 2^-149 (its smallest subnormal).
pub open spec fn spec_f32_units(b: u32) -> nat {
    let e = spec_f32_exp(b);
    let m = spec_f32_mant(b);
    if e == 0 { m } else { (0x80_0000 + m) * pow2((e - 1) as nat) }
}

/// Fields of a single assembled from a sign, an exponent and a mantissa.
proof fn lemma_f32_fields(s: u32, e: u32, m: u32)
    requires
        s <= 1,
        e < 256,
        m < 0x80_0000,
    ensures
        spec_f32_negative((s << 31u32) | (e << 23u32) | m) == (s == 1),
        spec_f32_exp((s << 31u32) | (e << 23u32) | m) == e,
        spec_f32_mant((s << 31u32) | (e << 23u32) | m) == m,
{
    let b = (s << 31u32) | (e << 23u32) | m;
    assert(((b >> 31u32) & 1u32 == 1u32) == (s == 1)) by (bit_vector)
        requires s <= 1, e < 256, m < 0x80_0000, b == (s << 31u32) | (e << 23u32) | m;
    assert((b >> 23u32) & 0xffu32 == e) by (bit_vector)
        requires s <= 1, e < 256, m < 0x80_0000, b == (s << 31u32) | (e << 23u32) | m;
    assert(b & 0x7f_ffffu32 == m) by (bit_vector)
        requires s <= 1, e < 256, m < 0x80_0000, b == (s << 31u32) | (e << 23u32) | m;
}

/// The single-precision bit pattern of a half-precision bit pattern: finite values keep
/// sign and value exactly, infinities keep their sign, NaNs become the quiet NaN.
pub fn f16_to_f32_bits(h: u16) -> (b: u32)
    ensures
        spec_f16_exp(h) < 31 ==> spec_f32_exp(b) < 255 && spec_f32_negative(b) == spec_f16_negative(h)
            && spec_f32_units(b) == spec_f16_units(h) * pow2(125),
        spec_f16_exp(h) == 31 && spec_f16_mant(h) == 0 ==> b == (if spec_f16_negative(h) { 0xff80_0000u32 } else { 0x7f80_0000u32 }),
        spec_f16_exp(h) == 31 && spec_f16_mant(h) != 0 ==> b == F32_QUIET_NAN,
{
    let sign = ((h >> 15u16) & 1u16) as u32;
    let exp = ((h >> 10u16) & 0x1fu16) as u32;
    let mant = (h & 0x3ffu16) as u32;
    proof {
        assert((h >> 15u16) & 1u16 <= 1) by (bit_vector);
        assert((h >> 10u16) & 0x1fu16 < 32) by (bit_vector);
        assert(h & 0x3ffu16 < 1024) by (bit_vector);
        lemma2_to64();
    }
    if exp == 31 {
        if mant == 0 {
            assert(sign == 1 ==> (sign << 31u32) | 0x7f80_0000u32 == 0xff80_0000u32) by (bit_vector);
            assert(sign == 0 ==> (sign << 31u32) | 0x7f80_0000u32 == 0x7f80_0000u32) by (bit_vector);
            return (sign << 31u32) | 0x7f80_0000u32;
        }
        return F32_QUIET_NAN;
    }
    if exp == 0 {
        if mant == 0 {
            let b = (sign << 31u32) | (0u32 << 23u32) | 0u32;
            proof {
                lemma_f32_fields(sign, 0, 0);
                assert(sign == 1 <==> (h >> 15u16) & 1u16 == 1u16);
                assert(spec_f16_units(h) == 0);
                assert(0 * pow2(125) == 0) by (nonlinear_arith);
            }
            return b;
        }
        let mut k: u32 = 9;
        while (mant >> k) == 0
            invariant
                0 < mant < 1024,
                k <= 9,
                mant < pow2((k + 1) as nat),
            decreases k,
        {
            proof {
                vstd::bits::lemma_u32_shr_is_div(mant, k);
                vstd::arithmetic::power2::lemma_pow2_pos(k as nat);
                if k == 0 {
                    lemma2_to64();
                    assert(false);
                }
                assert(mant < pow2(k as nat)) by (nonlinear_arith)
                    requires mant as nat / pow2(k as nat) == 0, pow2(k as nat) > 0;
            }
            k = k - 1;
        }
        proof {
            vstd::bits::lemma_u32_shr_is_div(mant, k);
            vstd::arithmetic::power2::lemma_pow2_pos(k as nat);
            assert(pow2(k as nat) <= mant) by (nonlinear_arith)
                requires mant as nat / pow2(k as nat) != 0, pow2(k as nat) > 0, mant >= 0;
            lemma_pow2_adds(k as nat, (23 - k) as nat);
            lemma_pow2_adds((k + 1) as nat, (23 - k) as nat);
            vstd::arithmetic::power2::lemma_pow2_pos((23 - k) as nat);
            assert(mant * pow2((23 - k) as nat) < pow2(24)) by (nonlinear_arith)
                requires mant < pow2((k + 1) as nat), pow2((k + 1) as nat) * pow2((23 - k) as nat) == pow2(24),
                    pow2((23 - k) as nat) > 0;
            assert(pow2(23) <= mant * pow2((23 - k) as nat)) by (nonlinear_arith)
                requires pow2(k as nat) <= mant, pow2(k as nat) * pow2((23 - k) as nat) == pow2(23),
                    pow2((23 - k) as nat) > 0;
            vstd::bits::lemma_u32_shl_is_mul(mant, (23 - k) as u32);
        }
        let shifted = mant << (23 - k);
        let m32 = shifted & 0x7f_ffffu32;
        let e32 = k + 103;
        proof {
            assert(m32 == shifted - 0x80_0000u32) by (bit_vector)
                requires 0x80_0000u32 <= shifted < 0x100_0000u32, m32 == shifted & 0x7f_ffffu32;
            lemma_f32_fields(sign, e32, m32);
            let units = (0x80_0000 + m32) * pow2((e32 - 1) as nat);
            assert(0x80_0000 + m32 == mant * pow2((23 - k) as nat));
            lemma_pow2_adds((23 - k) as nat, (k + 102) as nat);
            assert(units == mant * (pow2((23 - k) as nat) * pow2((k + 102) as nat))) by (nonlinear_arith)
                requires units == (mant * pow2((23 - k) as nat)) * pow2((k + 102) as nat);
            assert(sign == 1 <==> (h >> 15u16) & 1u16 == 1u16);
        }
        return (sign << 31u32) | (e32 << 23u32) | m32;
    }
    let e32 = exp + 112;
    let m32 = mant << 13u32;
    proof {
        assert(m32 == mant * 8192) by (bit_vector) requires mant < 1024, m32 == mant << 13u32;
        lemma_f32_fields(sign, e32, m32);
        lemma_pow2_adds(13, (exp + 111) as nat);
        lemma_pow2_adds((exp - 1) as nat, 125);
        let units = (0x80_0000 + m32) * pow2((e32 - 1) as nat);
        let p = pow2((exp + 111) as nat);
        let q = pow2((exp - 1) as nat);
        assert(units == (1024 + mant) * (8192 * p)) by (nonlinear_arith)
            requires units == (0x80_0000 + m32) * pow2((e32 - 1) as nat), m32 == mant * 8192, e32 == exp + 112,
                p == pow2((exp + 111) as nat);
        assert(8192 * p == pow2((exp + 124) as nat));
        assert(q * pow2(125) == pow2((exp + 124) as nat));
        assert((1024 + mant) * q * pow2(125) == (1024 + mant) * (q * pow2(125))) by (nonlinear_arith);
        assert(spec_f16_units(h) == (1024 + mant) * q);
        assert(sign == 1 <==> (h >> 15u16) & 1u16 == 1u16);
    }
    (sign << 31u32) | (e32 << 23u32) | m32
}

} // verus!
