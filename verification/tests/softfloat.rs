use softfloat::float::Float;
use softfloat::parts::Parts;

fn rounding(f: f64) -> f64 {
    (f * 10000.0 + 0.5).floor() / 10000.0
}

#[test]
fn test_add() {
    for (l, r) in [(0.0475f64, 0.0006f64), (0.1f64, 0.2f64), (-0.1f64, 0.2f64)] {
        let fl = Float::new(l.to_bits());
        let fr = Float::new(r.to_bits());
        let sum = fl.add(fr).unwrap();

        println!("---\t---\t---\t---\t---\t---");
        println!("[f64]\t{}\t+\t{}\t=\t{}", l, r, l + r);
        println!("[Float]\t{}\t+\t{}\t=\t{}", l, r, f64::from_bits(sum.bits()));

        assert_eq!(rounding(f64::from_bits(sum.bits())), rounding(l + r))
    }
}

#[test]
fn test_sub() {
    for (l, r) in [(0.0475f64, 0.0006f64), (0.1f64, 0.2f64), (-0.1f64, 0.2f64)] {
        let fl = Float::new(l.to_bits());
        let fr = Float::new(r.to_bits());
        let diff = fl.sub(fr).unwrap();

        println!("---\t---\t---\t---\t---\t---");
        println!("[f64]\t{}\t-\t{}\t=\t{}", l, r, l - r);
        println!("[Float]\t{}\t-\t{}\t=\t{}", l, r, f64::from_bits(diff.bits()));

        assert_eq!(rounding(f64::from_bits(diff.bits())), rounding(l - r))
    }
}

#[test]
fn test_parts_bits() {
    let floats: Vec<f64> = vec![
        0.0066, 0.0027, 0.0006, 0.04, 0.0037, 0.0125, 0.0078, 0.0048, 0.0016, 0.0065, 0.0132,
    ];
    for f in floats {
        let bits: u64 = f.to_bits();
        let parts = Parts::new(bits);

        assert_eq!(f.to_bits(), parts.bits())
    }
}

#[test]
fn test_parts_fields() {
    // 1.5 = (-1)^0 * 2^(1023-1023) * 1.1b
    let parts = Parts::new(1.5f64.to_bits());
    assert_eq!(parts.sign, 0);
    assert_eq!(parts.exp, 1023);
    assert_eq!(parts.mantissa, 1u64 << 51);

    // -2.0 = (-1)^1 * 2^(1024-1023) * 1.0b
    let parts = Parts::new((-2.0f64).to_bits());
    assert_eq!(parts.sign, 1);
    assert_eq!(parts.exp, 1024);
    assert_eq!(parts.mantissa, 0);
}

#[test]
fn test_pattern_roundtrip() {
    let floats: Vec<f64> = vec![0.1, -0.1, 1.0, -1.5, 12345.6789, -0.0475, 1e300, -1e-300];
    for f in floats {
        let bits: u64 = f.to_bits();
        assert_eq!(Parts::new(bits).bits(), bits);
        assert_eq!(Float::new(bits).bits(), bits);
    }
}

#[test]
fn test_parts_neg() {
    let parts = Parts::new(0.1f64.to_bits());
    let negated = parts.neg();
    assert_eq!(negated.sign, 1);
    assert_eq!(negated.exp, parts.exp);
    assert_eq!(negated.mantissa, parts.mantissa);
    assert_eq!(negated.bits(), (-0.1f64).to_bits());

    let back = negated.neg();
    assert_eq!(back.sign, parts.sign);
    assert_eq!(back.exp, parts.exp);
    assert_eq!(back.mantissa, parts.mantissa);
}

#[test]
fn test_negation_involution() {
    for f in [0.1f64, -0.1f64, 1.0f64, 1e300f64, -1e-300f64] {
        let x = Float::new(f.to_bits());
        let double_neg = x.neg().neg();
        assert_eq!(double_neg.bits(), x.bits());
        assert!(double_neg == x);

        let once = x.neg();
        assert_eq!(once.bits(), (-f).to_bits());
        assert_eq!(once.parts().exp, x.parts().exp);
        assert_eq!(once.parts().mantissa, x.parts().mantissa);
        assert_eq!(once.parts().sign, 1 - x.parts().sign);
    }
}

#[test]
fn test_equality_bit_exact() {
    let a = Float::new(0.1f64.to_bits());
    let b = Float::new((0.1f64 + 0.0f64).to_bits());
    assert!(a == b);
    assert!(a.eq_bits(0.1f64.to_bits()));

    // A value differing only in the last mantissa bit renders the same in
    // decimal here, yet compares unequal.
    let last_bit_off = Float::new(0.1f64.to_bits() ^ 1);
    assert!(a != last_bit_off);
    assert!(!last_bit_off.eq_bits(0.1f64.to_bits()));
}

#[test]
fn test_add_exact() {
    // Cases where the alignment shift discards nothing: the sum is exact.
    let one = Float::new(1.0f64.to_bits());
    let two = one.add(one).unwrap();
    assert_eq!(two.bits(), 2.0f64.to_bits());

    let half = Float::new(0.5f64.to_bits());
    let quarter = Float::new(0.25f64.to_bits());
    let sum = half.add(quarter).unwrap();
    assert_eq!(sum.bits(), 0.75f64.to_bits());

    let diff = half.sub(quarter).unwrap();
    assert_eq!(diff.bits(), 0.25f64.to_bits());

    // The larger operand's sign carries the result.
    let minus_two = Float::new((-2.0f64).to_bits());
    let sum = minus_two.add(one).unwrap();
    assert_eq!(sum.bits(), (-1.0f64).to_bits());
}

#[test]
fn test_add_cancellation_fails() {
    // Exact cancellation: the combined significand is zero and no
    // normalized result exists.
    let a = Float::new(1.5f64.to_bits());
    let b = Float::new((-1.5f64).to_bits());
    assert!(a.add(b).is_none());
    assert!(a.sub(a).is_none());
}

#[test]
fn test_add_exponent_overflow_fails() {
    // Both operands carry the largest exponent field value; the carry of
    // the significand sum pushes the exponent out of 11 bits.
    let top = Float::new(0x7FF0_0000_0000_0000u64);
    assert!(top.add(top).is_none());
}

#[test]
fn test_sub_exponent_underflow_fails() {
    // Subtracting two nearly equal values with the smallest exponent
    // field value: renormalizing the tiny difference drives the exponent
    // below zero.
    let a = Float::new(0x0010_0000_0000_0001u64);
    let b = Float::new(0x0010_0000_0000_0000u64);
    assert!(a.sub(b).is_none());
}

#[test]
fn test_alignment_is_lossy() {
    // delta = 1 and an odd significand: the shifted-out bit is discarded,
    // so the engine's sum differs from the correctly rounded native sum
    // by exactly one unit in the last place.
    let l = 1.0f64;
    let r = f64::from_bits(1.0f64.to_bits() + 3) / 2.0;
    let sum = Float::new(l.to_bits()).add(Float::new(r.to_bits())).unwrap();
    assert_eq!(sum.bits(), (l + r).to_bits() - 1);
}
