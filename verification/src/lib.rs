//! A software model of the 64-bit binary floating-point format.
//!
//! A 64-bit pattern is split into its sign, biased-exponent and mantissa
//! fields, patterns are reassembled from fields, and addition, subtraction
//! and negation are carried out purely by field-level bit manipulation,
//! never through the platform's floating-point unit.
//!
//! Every pattern is treated as the encoding of a normalized number
//! (value `(-1)^sign * 2^(exp - 1023) * 1.mantissa`); zero, subnormal,
//! infinity and NaN encodings get no special handling.

pub mod float;
pub mod parts;
