//! The field decomposer: extracting the sign, biased-exponent and mantissa
//! fields from a 64-bit pattern, reassembling a pattern from fields, and
//! negating a field triple by flipping its sign bit.

use vstd::prelude::*;

verus! {

/// The three fields of a 64-bit floating-point bit pattern.
#[derive(Debug, Clone, Copy)]
pub struct Parts {
    /// Sign bit: 0 for positive, 1 for negative.
    pub sign: u64,
    /// Biased exponent, 11 bits wide (bias 1023).
    pub exp: u64,
    /// Fractional mantissa, 52 bits wide; the implicit leading 1 of a
    /// normalized number is not stored.
    pub mantissa: u64,
}

/// Each field fits within its bit width.
pub open spec fn parts_wf(p: Parts) -> bool {
    p.sign <= 1 && p.exp < 0x800 && p.mantissa < 0x10_0000_0000_0000
}

/// The fields a 64-bit pattern decomposes into: sign is bit 63, the
/// exponent is bits 62..52, the mantissa is bits 51..0.
pub open spec fn decompose(bits: u64) -> Parts {
    Parts {
        sign: (bits >> 63) & 1,
        exp: (bits >> 52) & 0x7ff,
        mantissa: bits & 0xf_ffff_ffff_ffff,
    }
}

/// The pattern a field triple reassembles into:
/// `(sign << 63) | (exp << 52) | mantissa`.
pub open spec fn recompose(p: Parts) -> u64 {
    (p.sign << 63) | (p.exp << 52) | p.mantissa
}

/// The triple with the sign bit flipped and the other fields untouched.
pub open spec fn neg_parts(p: Parts) -> Parts {
    Parts { sign: if p.sign == 0 { 1u64 } else { 0u64 }, exp: p.exp, mantissa: p.mantissa }
}

impl Parts {
    /// Extracts the three fields from a 64-bit pattern.
    pub fn new(bits: u64) -> (r: Parts)
        ensures
            r == decompose(bits),
            parts_wf(r),
    {
        let sign: u64 = bits >> 63 & 0b1;
        let exp: u64 = bits >> 52 & 0b111_1111_1111;
        let mantissa: u64 =
            bits & 0b1111_1111_1111_1111_1111_1111_1111_1111_1111_1111_1111_1111_1111;
        proof {
            assert((bits >> 63) & 1 <= 1 && (bits >> 52) & 0x7ff < 0x800
                && bits & 0xf_ffff_ffff_ffff < 0x10_0000_0000_0000) by (bit_vector);
        }
        Parts { sign, exp, mantissa }
    }

    /// Reassembles the 64-bit pattern from the three fields.
    pub fn bits(&self) -> (r: u64)
        requires
            parts_wf(*self),
        ensures
            r == recompose(*self),
    {
        proof {
            let s: u64 = self.sign;
            let e: u64 = self.exp;
            let m: u64 = self.mantissa;
            assert((s << 63) + (e << 52) + m == ((s << 63) | (e << 52) | m)) by (bit_vector)
                requires
                    s <= 1,
                    e < 0x800,
                    m < 0x10_0000_0000_0000,
            ;
        }
        (self.sign << 63) + (self.exp << 52) + self.mantissa
    }

    /// Flips the sign bit, leaving exponent and mantissa untouched.
    pub fn neg(&self) -> (r: Parts)
        requires
            self.sign <= 1,
        ensures
            r == neg_parts(*self),
    {
        let sign: u64 = !self.sign << 63 >> 63;
        proof {
            let s: u64 = self.sign;
            assert(s <= 1 ==> (!s << 63 >> 63) == (if s == 0 { 1u64 } else { 0u64 }))
                by (bit_vector);
        }
        Parts { sign, exp: self.exp, mantissa: self.mantissa }
    }
}

/// Reassembling the fields extracted from a 64-bit pattern gives back
/// exactly that pattern, whatever the pattern encodes.
pub proof fn lemma_pattern_roundtrip(bits: u64)
    ensures
        recompose(decompose(bits)) == bits,
{
    assert((((bits >> 63) & 1) << 63) | (((bits >> 52) & 0x7ff) << 52)
        | (bits & 0xf_ffff_ffff_ffff) == bits) by (bit_vector);
}

/// Decomposing a reassembled pattern gives back the fields, provided each
/// fits within its bit width.
pub proof fn lemma_fields_roundtrip(p: Parts)
    requires
        parts_wf(p),
    ensures
        decompose(recompose(p)) == p,
{
    let s: u64 = p.sign;
    let e: u64 = p.exp;
    let m: u64 = p.mantissa;
    let b: u64 = (s << 63) | (e << 52) | m;
    assert((b >> 63) & 1 == s && (b >> 52) & 0x7ff == e && b & 0xf_ffff_ffff_ffff == m)
        by (bit_vector)
        requires
            b == (s << 63) | (e << 52) | m,
            s <= 1,
            e < 0x800,
            m < 0x10_0000_0000_0000,
    ;
}

/// Flipping the sign bit twice gives back the original triple.
pub proof fn lemma_neg_involution(p: Parts)
    requires
        p.sign <= 1,
    ensures
        neg_parts(neg_parts(p)) == p,
{
}

} // verus!
