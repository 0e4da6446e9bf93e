use vstd::prelude::*;

verus! {

/// An exact rational number: a numerator over a positive denominator.
///
/// Values are deliberately kept unreduced, so every computation has a
/// single machine representation that the specifications pin down exactly.
/// Two values may denote the same rational while differing as
/// representations; `rat_eq` compares the denoted rationals.
#[derive(Clone, Copy, Debug, PartialEq, Eq, Structural)]
pub struct Rat {
    /// Numerator.
    pub num: i64,
    /// Denominator; well-formed values keep it positive.
    pub den: i64,
}

/// A well-formed rational keeps its denominator positive.
pub open spec fn rat_wf(a: Rat) -> bool {
    a.den > 0
}

/// The two representations denote the same rational number.
pub open spec fn rat_eq(a: Rat, b: Rat) -> bool {
    a.num * b.den == b.num * a.den
}

/// An integer fits the numerator and denominator fields.
pub open spec fn fits_i64(n: int) -> bool {
    i64::MIN <= n <= i64::MAX
}

/// Exact product, or `None` where a field would leave the machine range.
pub open spec fn srat_mul(a: Rat, b: Rat) -> Option<Rat> {
    let n = a.num * b.num;
    let d = a.den * b.den;
    if fits_i64(n) && fits_i64(d) {
        Some(Rat { num: n as i64, den: d as i64 })
    } else {
        None
    }
}

/// Exact sum, or `None` where a field would leave the machine range.
pub open spec fn srat_add(a: Rat, b: Rat) -> Option<Rat> {
    let n = a.num * b.den + b.num * a.den;
    let d = a.den * b.den;
    if fits_i64(n) && fits_i64(d) {
        Some(Rat { num: n as i64, den: d as i64 })
    } else {
        None
    }
}

/// Exact difference, or `None` where a field would leave the machine range.
pub open spec fn srat_sub(a: Rat, b: Rat) -> Option<Rat> {
    let n = a.num * b.den - b.num * a.den;
    let d = a.den * b.den;
    if fits_i64(n) && fits_i64(d) {
        Some(Rat { num: n as i64, den: d as i64 })
    } else {
        None
    }
}

/// The larger of two rationals, by cross multiplication; `a` on a tie.
pub open spec fn srat_max(a: Rat, b: Rat) -> Rat {
    if a.num * b.den >= b.num * a.den {
        a
    } else {
        b
    }
}

proof fn lemma_i128_products(a: Rat, b: Rat)
    ensures
        -0x4000_0000_0000_0000_0000_0000_0000_0000 <= a.num * b.num
            <= 0x4000_0000_0000_0000_0000_0000_0000_0000,
        -0x4000_0000_0000_0000_0000_0000_0000_0000 <= a.den * b.den
            <= 0x4000_0000_0000_0000_0000_0000_0000_0000,
        -0x4000_0000_0000_0000_0000_0000_0000_0000 <= a.num * b.den
            <= 0x4000_0000_0000_0000_0000_0000_0000_0000,
        -0x4000_0000_0000_0000_0000_0000_0000_0000 <= b.num * a.den
            <= 0x4000_0000_0000_0000_0000_0000_0000_0000,
{
    assert(-0x4000_0000_0000_0000_0000_0000_0000_0000 <= a.num * b.num
        <= 0x4000_0000_0000_0000_0000_0000_0000_0000
        && -0x4000_0000_0000_0000_0000_0000_0000_0000 <= a.den * b.den
        <= 0x4000_0000_0000_0000_0000_0000_0000_0000
        && -0x4000_0000_0000_0000_0000_0000_0000_0000 <= a.num * b.den
        <= 0x4000_0000_0000_0000_0000_0000_0000_0000
        && -0x4000_0000_0000_0000_0000_0000_0000_0000 <= b.num * a.den
        <= 0x4000_0000_0000_0000_0000_0000_0000_0000) by (nonlinear_arith)
        requires
            -0x8000_0000_0000_0000 <= a.num <= 0x7fff_ffff_ffff_ffff,
            -0x8000_0000_0000_0000 <= a.den <= 0x7fff_ffff_ffff_ffff,
            -0x8000_0000_0000_0000 <= b.num <= 0x7fff_ffff_ffff_ffff,
            -0x8000_0000_0000_0000 <= b.den <= 0x7fff_ffff_ffff_ffff,
    ;
}

proof fn lemma_cross_products(a: Rat, b: Rat)
    requires
        a.den > 0,
        b.den > 0,
    ensures
        -0x3fff_ffff_ffff_ffff_8000_0000_0000_0000 <= a.num * b.den
            <= 0x3fff_ffff_ffff_ffff_8000_0000_0000_0000,
        -0x3fff_ffff_ffff_ffff_8000_0000_0000_0000 <= b.num * a.den
            <= 0x3fff_ffff_ffff_ffff_8000_0000_0000_0000,
        0 < a.den * b.den <= 0x4000_0000_0000_0000_0000_0000_0000_0000,
{
    assert(-0x3fff_ffff_ffff_ffff_8000_0000_0000_0000 <= a.num * b.den
        <= 0x3fff_ffff_ffff_ffff_8000_0000_0000_0000
        && -0x3fff_ffff_ffff_ffff_8000_0000_0000_0000 <= b.num * a.den
        <= 0x3fff_ffff_ffff_ffff_8000_0000_0000_0000 && 0 < a.den * b.den
        <= 0x4000_0000_0000_0000_0000_0000_0000_0000) by (nonlinear_arith)
        requires
            -0x8000_0000_0000_0000 <= a.num <= 0x7fff_ffff_ffff_ffff,
            0 < a.den <= 0x7fff_ffff_ffff_ffff,
            -0x8000_0000_0000_0000 <= b.num <= 0x7fff_ffff_ffff_ffff,
            0 < b.den <= 0x7fff_ffff_ffff_ffff,
    ;
}

/// Multiplies two rationals, reporting `None` on machine-range exhaustion.
pub fn rat_mul(a: Rat, b: Rat) -> (r: Option<Rat>)
    ensures
        r == srat_mul(a, b),
{
    proof {
        lemma_i128_products(a, b);
    }
    let n: i128 = (a.num as i128) * (b.num as i128);
    let d: i128 = (a.den as i128) * (b.den as i128);
    if n < i64::MIN as i128 || n > i64::MAX as i128 || d < i64::MIN as i128 || d > i64::MAX as i128 {
        None
    } else {
        Some(Rat { num: n as i64, den: d as i64 })
    }
}

/// Adds two rationals, reporting `None` on machine-range exhaustion.
pub fn rat_add(a: Rat, b: Rat) -> (r: Option<Rat>)
    requires
        rat_wf(a),
        rat_wf(b),
    ensures
        r == srat_add(a, b),
{
    proof {
        lemma_cross_products(a, b);
    }
    let n: i128 = (a.num as i128) * (b.den as i128) + (b.num as i128) * (a.den as i128);
    let d: i128 = (a.den as i128) * (b.den as i128);
    if n < i64::MIN as i128 || n > i64::MAX as i128 || d < i64::MIN as i128 || d > i64::MAX as i128 {
        None
    } else {
        Some(Rat { num: n as i64, den: d as i64 })
    }
}

/// Subtracts `b` from `a`, reporting `None` on machine-range exhaustion.
pub fn rat_sub(a: Rat, b: Rat) -> (r: Option<Rat>)
    requires
        rat_wf(a),
        rat_wf(b),
    ensures
        r == srat_sub(a, b),
{
    proof {
        lemma_cross_products(a, b);
    }
    let n: i128 = (a.num as i128) * (b.den as i128) - (b.num as i128) * (a.den as i128);
    let d: i128 = (a.den as i128) * (b.den as i128);
    if n < i64::MIN as i128 || n > i64::MAX as i128 || d < i64::MIN as i128 || d > i64::MAX as i128 {
        None
    } else {
        Some(Rat { num: n as i64, den: d as i64 })
    }
}

/// The larger of two rationals; `a` on a tie.
pub fn rat_max(a: Rat, b: Rat) -> (r: Rat)
    ensures
        r == srat_max(a, b),
{
    proof {
        lemma_i128_products(a, b);
    }
    if (a.num as i128) * (b.den as i128) >= (b.num as i128) * (a.den as i128) {
        a
    } else {
        b
    }
}

/// Whether the two representations denote the same rational.
pub fn rat_value_eq(a: Rat, b: Rat) -> (r: bool)
    ensures
        r == rat_eq(a, b),
{
    proof {
        lemma_i128_products(a, b);
    }
    (a.num as i128) * (b.den as i128) == (b.num as i128) * (a.den as i128)
}

/// Rational zero.
pub open spec fn c0() -> Rat {
    Rat { num: 0, den: 1 }
}

/// Rational one.
pub open spec fn c1() -> Rat {
    Rat { num: 1, den: 1 }
}

/// Rational one half.
pub open spec fn half() -> Rat {
    Rat { num: 1, den: 2 }
}

/// Rational one quarter.
pub open spec fn quarter() -> Rat {
    Rat { num: 1, den: 4 }
}

/// Rational three quarters.
pub open spec fn three_quarters() -> Rat {
    Rat { num: 3, den: 4 }
}

/// Well-formed operands give a well-formed product.
pub proof fn lemma_mul_wf(a: Rat, b: Rat)
    requires
        rat_wf(a),
        rat_wf(b),
    ensures
        srat_mul(a, b) matches Some(r) ==> rat_wf(r),
{
    assert(a.den * b.den > 0) by (nonlinear_arith)
        requires
            a.den > 0,
            b.den > 0,
    ;
}

/// Well-formed operands give a well-formed sum.
pub proof fn lemma_add_wf(a: Rat, b: Rat)
    requires
        rat_wf(a),
        rat_wf(b),
    ensures
        srat_add(a, b) matches Some(r) ==> rat_wf(r),
{
    assert(a.den * b.den > 0) by (nonlinear_arith)
        requires
            a.den > 0,
            b.den > 0,
    ;
}

/// Well-formed operands give a well-formed difference.
pub proof fn lemma_sub_wf(a: Rat, b: Rat)
    requires
        rat_wf(a),
        rat_wf(b),
    ensures
        srat_sub(a, b) matches Some(r) ==> rat_wf(r),
{
    assert(a.den * b.den > 0) by (nonlinear_arith)
        requires
            a.den > 0,
            b.den > 0,
    ;
}

} // verus!
