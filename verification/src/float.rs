//! The arithmetic engine: a floating-point value carried as its bit
//! pattern together with its decomposed fields, with addition, subtraction
//! and negation done by field-level bit manipulation.

use vstd::prelude::*;

use vstd::arithmetic::div_mod::lemma_basic_div;
use vstd::arithmetic::power2::lemma2_to64_rest;
use vstd::arithmetic::power2::lemma_pow2_strictly_increases;
use vstd::arithmetic::power2::pow2;
use vstd::bits::lemma_u64_shr_is_div;

use crate::parts::Parts;
use crate::parts::decompose;
use crate::parts::lemma_fields_roundtrip;
use crate::parts::neg_parts;
use crate::parts::parts_wf;
use crate::parts::recompose;

verus! {

/// `l` carries the larger magnitude by field comparison: a larger
/// exponent, or an equal exponent and a mantissa at least as large.
pub open spec fn ordered(l: Parts, r: Parts) -> bool {
    r.exp < l.exp || (r.exp == l.exp && r.mantissa <= l.mantissa)
}

/// The operands in the order the engine combines them: the one carrying
/// the larger magnitude first.
pub open spec fn larger_first(x: Parts, y: Parts) -> (Parts, Parts) {
    if ordered(x, y) {
        (x, y)
    } else {
        (y, x)
    }
}

/// The smaller operand's true significand after alignment: its implicit
/// leading bit restored, then divided by two for every step of exponent
/// difference. The bits divided away are discarded, a documented lossy
/// approximation of true alignment.
pub open spec fn aligned_sig(l: Parts, r: Parts) -> nat
    recommends
        ordered(l, r),
{
    (r.mantissa + 0x10_0000_0000_0000) as nat / pow2((l.exp - r.exp) as nat)
}

/// The combined significand: the sum of the two true significands when
/// the signs agree, their difference when they differ.
pub open spec fn combined(l: Parts, r: Parts) -> int
    recommends
        ordered(l, r),
{
    if l.sign == r.sign {
        l.mantissa + 0x10_0000_0000_0000 + aligned_sig(l, r)
    } else {
        l.mantissa + 0x10_0000_0000_0000 - aligned_sig(l, r)
    }
}

/// Normalization, upward phase: halve the significand and raise the
/// exponent until the significand falls below 2^53.
pub open spec fn norm_up(m: nat, e: int) -> (nat, int)
    decreases m,
{
    if m >= 0x20_0000_0000_0000 {
        norm_up(m / 2, e + 1)
    } else {
        (m, e)
    }
}

/// Normalization, downward phase: double a non-zero significand and lower
/// the exponent until the significand reaches 2^52.
pub open spec fn norm_down(m: nat, e: int) -> (nat, int)
    decreases (if m < 0x10_0000_0000_0000 {
        0x10_0000_0000_0000 - m
    } else {
        0
    }),
{
    if 0 < m && m < 0x10_0000_0000_0000 {
        norm_down(2 * m, e - 1)
    } else {
        (m, e)
    }
}

/// Both normalization phases, upward then downward.
pub open spec fn normalized(m: nat, e: int) -> (nat, int) {
    norm_down(norm_up(m, e).0, norm_up(m, e).1)
}

/// The field triple that adding `x` and `y` produces: the larger operand
/// keeps its sign and exponent, the aligned significands are combined and
/// renormalized, and the implicit leading bit is stripped again.
pub open spec fn add_parts(x: Parts, y: Parts) -> Parts {
    let l = larger_first(x, y).0;
    let r = larger_first(x, y).1;
    let ne = normalized(combined(l, r) as nat, l.exp as int);
    Parts { sign: l.sign, exp: ne.1 as u64, mantissa: (ne.0 - 0x10_0000_0000_0000) as u64 }
}

/// Addition succeeds: the combined significand is not zero (the operands
/// do not cancel exactly after alignment) and the normalized exponent
/// still fits the 11-bit field.
pub open spec fn add_ok(x: Parts, y: Parts) -> bool {
    let l = larger_first(x, y).0;
    let r = larger_first(x, y).1;
    combined(l, r) != 0 && 0 <= normalized(combined(l, r) as nat, l.exp as int).1 <= 2047
}

/// In the downward phase a significand still below 2^52 forces the
/// exponent strictly down.
proof fn lemma_norm_down_lowers(m: nat, e: int)
    requires
        1 <= m < 0x10_0000_0000_0000,
    ensures
        norm_down(m, e).1 <= e - 1,
    decreases 0x10_0000_0000_0000 - m,
{
    if 2 * m < 0x10_0000_0000_0000 {
        lemma_norm_down_lowers(2 * m, e - 1);
    } else {
        assert(norm_down(2 * m, e - 1).1 == e - 1);
    }
}

/// A well-formed value's stored fields reassemble into exactly its stored
/// pattern: the pattern and the triple determine each other.
pub proof fn lemma_float_consistent(f: Float)
    requires
        f.wf(),
    ensures
        recompose(f.spec_parts()) == f.spec_bits(),
{
    crate::parts::lemma_pattern_roundtrip(f.spec_bits());
}

/// Flipping the sign bit of a 64-bit pattern twice gives back exactly the
/// original pattern, so negation is an involution at the pattern level as
/// well as at the field level.
pub proof fn lemma_sign_flip_involution(bits: u64)
    ensures
        (bits ^ 0x8000_0000_0000_0000u64) ^ 0x8000_0000_0000_0000u64 == bits,
{
    assert((bits ^ 0x8000_0000_0000_0000u64) ^ 0x8000_0000_0000_0000u64 == bits) by (bit_vector);
}

/// A floating-point value held as its 64-bit pattern together with the
/// pattern's decomposed fields; the two are kept consistent by
/// construction.
#[derive(Debug, Clone, Copy)]
pub struct Float {
    bits: u64,
    parts: Parts,
}

impl Float {
    /// The 64-bit pattern of this value.
    pub closed spec fn spec_bits(self) -> u64 {
        self.bits
    }

    /// The decomposed fields of this value.
    pub closed spec fn spec_parts(self) -> Parts {
        self.parts
    }

    /// The stored fields are exactly the decomposition of the stored
    /// pattern, and each fits its bit width.
    pub open spec fn wf(self) -> bool {
        self.spec_parts() == decompose(self.spec_bits()) && parts_wf(self.spec_parts())
    }

    /// Wraps a 64-bit pattern together with its decomposed fields.
    pub fn new(bits: u64) -> (r: Float)
        ensures
            r.wf(),
            r.spec_bits() == bits,
            r.spec_parts() == decompose(bits),
    {
        let parts = Parts::new(bits);
        Float { bits, parts }
    }

    /// The 64-bit pattern of this value.
    pub fn bits(&self) -> (r: u64)
        ensures
            r == self.spec_bits(),
    {
        self.bits
    }

    /// The decomposed fields of this value.
    pub fn parts(&self) -> (r: Parts)
        ensures
            r == self.spec_parts(),
    {
        self.parts
    }

    /// Adds two values by field-level bit manipulation: the smaller
    /// operand's significand is aligned to the larger exponent, the two
    /// are combined, and the result is renormalized. Returns `None` when
    /// the operands cancel exactly or the result's exponent leaves the
    /// 11-bit field.
    #[verifier::loop_isolation(false)]
    pub fn add(self, other: Float) -> (res: Option<Float>)
        requires
            self.wf(),
            other.wf(),
        ensures
            res is Some <==> add_ok(self.spec_parts(), other.spec_parts()),
            (res matches Some(out) ==> out.wf()
                && out.spec_parts() == add_parts(self.spec_parts(), other.spec_parts())
                && out.spec_bits() == recompose(add_parts(self.spec_parts(), other.spec_parts()))),
    {
        let ghost gx: Parts = self.parts;
        let ghost gy: Parts = other.parts;
        let mut l: Parts = self.parts;
        let mut r: Parts = other.parts;
        if l.exp < r.exp || (l.exp == r.exp && l.mantissa < r.mantissa) {
            let t: Parts = l;
            l = r;
            r = t;
        }
        assert(ordered(l, r));
        assert(l == larger_first(gx, gy).0 && r == larger_first(gx, gy).1);

        let delta: u64 = l.exp - r.exp;
        let sig_l: u64 = l.mantissa + 0x10_0000_0000_0000;
        let sig_r_full: u64 = r.mantissa + 0x10_0000_0000_0000;
        let sig_r: u64 = if delta >= 64 {
            0
        } else {
            sig_r_full >> delta
        };
        proof {
            lemma2_to64_rest();
            if delta >= 64 {
                lemma_pow2_strictly_increases(53, delta as nat);
                lemma_basic_div(sig_r_full as int, pow2(delta as nat) as int);
            } else {
                lemma_u64_shr_is_div(sig_r_full, delta);
            }
            assert(sig_r as nat == aligned_sig(l, r));
            assert(delta < 64 ==> ((delta == 0 ==> sig_r_full >> delta == sig_r_full) && (1
                <= delta ==> sig_r_full >> delta < 0x10_0000_0000_0000) && sig_r_full >> delta
                <= sig_r_full)) by (bit_vector)
                requires
                    sig_r_full < 0x20_0000_0000_0000,
            ;
        }
        let mantissa0: u64 = if l.sign == r.sign {
            sig_l + sig_r
        } else {
            sig_l - sig_r
        };
        assert(mantissa0 as int == combined(l, r));
        if mantissa0 == 0 {
            // The aligned significands cancel exactly; renormalization of a
            // zero significand has no defined result.
            return None;
        }
        let mut mantissa: u64 = mantissa0;
        let mut exp: u64 = l.exp;
        let ghost m_in: nat = mantissa0 as nat;
        let ghost e_in: int = l.exp as int;

        while mantissa >= 0x20_0000_0000_0000
            invariant
                1 <= mantissa < 0x40_0000_0000_0000,
                exp == l.exp || (exp == l.exp + 1 && mantissa < 0x20_0000_0000_0000),
                norm_up(mantissa as nat, exp as int) == norm_up(m_in, e_in),
            decreases mantissa,
        {
            proof {
                assert(mantissa >> 1u64 == mantissa / 2) by (bit_vector);
            }
            mantissa = mantissa >> 1;
            exp = exp + 1;
        }
        let ghost m_mid: nat = mantissa as nat;
        let ghost e_mid: int = exp as int;
        assert(norm_up(m_in, e_in) == (m_mid, e_mid));

        while mantissa < 0x10_0000_0000_0000
            invariant
                1 <= mantissa < 0x20_0000_0000_0000,
                norm_down(mantissa as nat, exp as int) == norm_down(m_mid, e_mid),
            decreases (if mantissa < 0x10_0000_0000_0000 {
                0x10_0000_0000_0000 - mantissa
            } else {
                0
            }),
        {
            if exp == 0 {
                proof {
                    // The normalized exponent would drop below zero.
                    lemma_norm_down_lowers(mantissa as nat, 0);
                }
                return None;
            }
            proof {
                assert(mantissa << 1u64 == mantissa * 2) by (bit_vector)
                    requires
                        mantissa < 0x10_0000_0000_0000u64,
                ;
            }
            mantissa = mantissa << 1;
            exp = exp - 1;
        }

        if exp > 2047 {
            // The normalized exponent leaves the 11-bit field.
            return None;
        }
        let out_parts: Parts = Parts {
            sign: l.sign,
            exp,
            mantissa: mantissa - 0x10_0000_0000_0000,
        };
        proof {
            lemma_fields_roundtrip(out_parts);
        }
        let out_bits: u64 = out_parts.bits();
        Some(Float { bits: out_bits, parts: out_parts })
    }

    /// Subtracts by adding the negated second operand.
    pub fn sub(self, other: Float) -> (res: Option<Float>)
        requires
            self.wf(),
            other.wf(),
        ensures
            res is Some <==> add_ok(self.spec_parts(), neg_parts(other.spec_parts())),
            (res matches Some(out) ==> out.wf()
                && out.spec_parts() == add_parts(self.spec_parts(), neg_parts(other.spec_parts()))
                && out.spec_bits() == recompose(
                add_parts(self.spec_parts(), neg_parts(other.spec_parts())))),
    {
        self.add(other.neg())
    }

    /// Negates: flips the sign bit of the pattern and of the fields,
    /// leaving exponent and mantissa untouched.
    pub fn neg(self) -> (r: Float)
        requires
            self.wf(),
        ensures
            r.wf(),
            r.spec_bits() == self.spec_bits() ^ 0x8000_0000_0000_0000u64,
            r.spec_parts() == neg_parts(self.spec_parts()),
    {
        proof {
            let b: u64 = self.bits;
            assert((!b >> 63 << 63) + (b << 1 >> 1) == (b ^ 0x8000_0000_0000_0000u64))
                by (bit_vector);
            assert(((b ^ 0x8000_0000_0000_0000u64) >> 63) & 1 == (if (b >> 63) & 1 == 0 {
                1u64
            } else {
                0u64
            }) && ((b ^ 0x8000_0000_0000_0000u64) >> 52) & 0x7ff == (b >> 52) & 0x7ff && (b
                ^ 0x8000_0000_0000_0000u64) & 0xf_ffff_ffff_ffff == b & 0xf_ffff_ffff_ffff)
                by (bit_vector);
        }
        let bits: u64 = (!self.bits >> 63 << 63) + (self.bits << 1 >> 1);
        let parts: Parts = self.parts.neg();
        Float { bits, parts }
    }

    /// Compares against a raw 64-bit pattern: equal exactly when the
    /// patterns are identical.
    pub fn eq_bits(&self, bits: u64) -> (r: bool)
        ensures
            r <==> self.spec_bits() == bits,
    {
        self.bits == bits
    }
}

impl PartialEq for Float {
    /// Two values are equal exactly when their bit patterns are
    /// identical, never by closeness of the values they encode.
    fn eq(&self, other: &Float) -> (r: bool) {
        self.bits == other.bits
    }
}

impl vstd::std_specs::cmp::PartialEqSpecImpl for Float {
    open spec fn obeys_eq_spec() -> bool {
        true
    }

    open spec fn eq_spec(&self, other: &Float) -> bool {
        self.spec_bits() == other.spec_bits()
    }
}

} // verus!
