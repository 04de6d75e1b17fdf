//! The arithmetic engine: exact add, subtract, multiply and divide on
//! [`Decimal`] values.
//!
//! Addition, subtraction and multiplication are exact; division produces the
//! round-toward-zero value at [`RESULT_SCALE`] fractional digits and then
//! drops trailing fractional zeros, so an exactly representable quotient
//! keeps its natural scale.  Every operation is specified against a total
//! spec-level definition, and the coefficient bounds established by the codec
//! keep all intermediates inside `u128`.

use vstd::arithmetic::div_mod::{
    lemma_div_multiples_vanish_quotient, lemma_div_nonincreasing, lemma_div_pos_is_pos,
};
use vstd::prelude::*;

use crate::decimal::{
    canonical_sign, from_signed, lemma_pow10_adds, lemma_pow10_increases, parsed_bounds, pow10,
    pow10_u128, signed_coeff, Decimal, MAX_COEFF, RESULT_SCALE,
};

verus! {

/// The larger of two scales: the common scale that exact addition works at.
pub open spec fn max_scale(a: u32, b: u32) -> u32 {
    if a >= b {
        a
    } else {
        b
    }
}

/// Exact sum: both operands are brought to the common scale and their signed
/// coefficients are added.
pub open spec fn spec_add(a: Decimal, b: Decimal) -> Decimal {
    let s = max_scale(a.scale, b.scale);
    from_signed(
        signed_coeff(a) * pow10((s - a.scale) as nat) + signed_coeff(b) * pow10(
            (s - b.scale) as nat,
        ),
        s,
    )
}

/// Exact negation, with the sign of zero kept canonical.
pub open spec fn spec_neg(d: Decimal) -> Decimal {
    Decimal { neg: d.coeff != 0 && !d.neg, coeff: d.coeff, scale: d.scale }
}

/// Exact difference: the sum of `a` and the negation of `b`.
pub open spec fn spec_sub(a: Decimal, b: Decimal) -> Decimal {
    spec_add(a, spec_neg(b))
}

/// Exact product: coefficients multiply and scales add.
pub open spec fn spec_mul(a: Decimal, b: Decimal) -> Decimal {
    from_signed(signed_coeff(a) * signed_coeff(b), (a.scale + b.scale) as u32)
}

/// Trailing fractional zeros removed; the denoted value is unchanged.
pub open spec fn spec_strip(d: Decimal) -> Decimal
    decreases d.scale,
{
    if d.scale > 0 && d.coeff % 10 == 0 {
        spec_strip(Decimal { neg: d.neg, coeff: d.coeff / 10, scale: (d.scale - 1) as u32 })
    } else {
        d
    }
}

/// Quotient of `a` by a non-zero `b`: the exact value is truncated toward
/// zero at [`RESULT_SCALE`] fractional digits, then trailing fractional
/// zeros are dropped.
pub open spec fn spec_div(a: Decimal, b: Decimal) -> Decimal
    recommends
        b.coeff > 0,
{
    let num = a.coeff as nat * pow10((b.scale + RESULT_SCALE) as nat);
    let den = b.coeff as nat * pow10(a.scale as nat);
    let q = num / den;
    spec_strip(Decimal { neg: a.neg != b.neg && q != 0, coeff: q as u128, scale: RESULT_SCALE })
}

/// The concrete value of `10^14`, the scaling bound of parsed operands.
proof fn lemma_pow10_14()
    ensures
        pow10(14) == 100_000_000_000_000,
{
    reveal_with_fuel(pow10, 15);
}

/// The concrete value of `10^24`, the largest pre-scaling used by division.
proof fn lemma_pow10_24()
    ensures
        pow10(24) == 1_000_000_000_000_000_000_000_000,
{
    reveal_with_fuel(pow10, 25);
}

/// Exact addition at the common scale.
pub fn add_exact(a: Decimal, b: Decimal) -> (r: Decimal)
    requires
        parsed_bounds(a),
        parsed_bounds(b),
    ensures
        r == spec_add(a, b),
{
    let s = if a.scale >= b.scale {
        a.scale
    } else {
        b.scale
    };
    let pa = pow10_u128(s - a.scale);
    let pb = pow10_u128(s - b.scale);
    proof {
        lemma_pow10_14();
        lemma_pow10_increases((s - a.scale) as nat, 14);
        lemma_pow10_increases((s - b.scale) as nat, 14);
        assert(a.coeff as int * pa as int <= MAX_COEFF as int * 100_000_000_000_000)
            by (nonlinear_arith)
            requires
                a.coeff <= MAX_COEFF,
                0 <= pa <= 100_000_000_000_000,
        ;
        assert(b.coeff as int * pb as int <= MAX_COEFF as int * 100_000_000_000_000)
            by (nonlinear_arith)
            requires
                b.coeff <= MAX_COEFF,
                0 <= pb <= 100_000_000_000_000,
        ;
    }
    let ma = a.coeff * pa;
    let mb = b.coeff * pb;
    proof {
        let ca = a.coeff as int;
        let cb = b.coeff as int;
        let xa = pa as int;
        let xb = pb as int;
        assert((-ca) * xa == -(ca * xa) && (-cb) * xb == -(cb * xb)) by (nonlinear_arith);
    }
    let (neg, coeff) = if a.neg == b.neg {
        (a.neg, ma + mb)
    } else if ma >= mb {
        (a.neg, ma - mb)
    } else {
        (b.neg, mb - ma)
    };
    Decimal { neg: neg && coeff != 0, coeff, scale: s }
}

/// Exact negation.
pub fn neg_exact(d: Decimal) -> (r: Decimal)
    ensures
        r == spec_neg(d),
{
    Decimal { neg: d.coeff != 0 && !d.neg, coeff: d.coeff, scale: d.scale }
}

/// Exact subtraction at the common scale.
pub fn sub_exact(a: Decimal, b: Decimal) -> (r: Decimal)
    requires
        parsed_bounds(a),
        parsed_bounds(b),
    ensures
        r == spec_sub(a, b),
{
    add_exact(a, neg_exact(b))
}

/// Exact multiplication.
pub fn mul_exact(a: Decimal, b: Decimal) -> (r: Decimal)
    requires
        parsed_bounds(a),
        parsed_bounds(b),
    ensures
        r == spec_mul(a, b),
{
    proof {
        let ca = a.coeff as int;
        let cb = b.coeff as int;
        assert(ca * cb <= MAX_COEFF as int * MAX_COEFF as int && 0 <= ca * cb && (ca * cb == 0
            <==> (ca == 0 || cb == 0))) by (nonlinear_arith)
            requires
                0 <= ca <= MAX_COEFF as int,
                0 <= cb <= MAX_COEFF as int,
        ;
        assert((-ca) * cb == -(ca * cb) && ca * (-cb) == -(ca * cb) && (-ca) * (-cb) == ca * cb)
            by (nonlinear_arith);
    }
    let c = a.coeff * b.coeff;
    Decimal { neg: (a.neg != b.neg) && c != 0, coeff: c, scale: a.scale + b.scale }
}

/// Remove trailing fractional zeros without changing the denoted value.
pub fn strip_zeros(d: Decimal) -> (r: Decimal)
    ensures
        r == spec_strip(d),
        r.scale <= d.scale,
{
    let mut cur = d;
    while cur.scale > 0 && cur.coeff % 10 == 0
        invariant
            spec_strip(cur) == spec_strip(d),
            cur.scale <= d.scale,
        decreases cur.scale,
    {
        cur = Decimal { neg: cur.neg, coeff: cur.coeff / 10, scale: cur.scale - 1 };
    }
    cur
}

/// Division truncated toward zero at [`RESULT_SCALE`] fractional digits.
pub fn div_trunc(a: Decimal, b: Decimal) -> (r: Decimal)
    requires
        parsed_bounds(a),
        parsed_bounds(b),
        b.coeff > 0,
    ensures
        r == spec_div(a, b),
        r.scale <= RESULT_SCALE,
{
    let e = b.scale + RESULT_SCALE;
    let (num, den) = if e >= a.scale {
        let p = pow10_u128(e - a.scale);
        proof {
            lemma_pow10_24();
            lemma_pow10_increases((e - a.scale) as nat, 24);
            assert(a.coeff as int * p as int <= MAX_COEFF as int
                * 1_000_000_000_000_000_000_000_000) by (nonlinear_arith)
                requires
                    a.coeff <= MAX_COEFF,
                    0 <= p <= 1_000_000_000_000_000_000_000_000,
            ;
        }
        (a.coeff * p, b.coeff)
    } else {
        let p = pow10_u128(a.scale - e);
        proof {
            lemma_pow10_14();
            lemma_pow10_increases((a.scale - e) as nat, 14);
            assert(b.coeff as int * p as int <= MAX_COEFF as int * 100_000_000_000_000)
                by (nonlinear_arith)
                requires
                    b.coeff <= MAX_COEFF,
                    0 <= p <= 100_000_000_000_000,
            ;
        }
        (a.coeff, b.coeff * p)
    };
    proof {
        lemma_div_quotients_agree(a, b, num as nat, den as nat);
        lemma_div_pos_is_pos(num as int, den as int);
        lemma_div_nonincreasing(num as int, den as int);
    }
    let q = num / den;
    strip_zeros(Decimal { neg: (a.neg != b.neg) && q != 0, coeff: q, scale: RESULT_SCALE })
}

/// Stripping trailing zeros only rescales: the stripped coefficient, brought
/// back to the original scale, is exactly the original coefficient, and the
/// sign is untouched.
pub proof fn lemma_strip_rescales(d: Decimal)
    ensures
        spec_strip(d).scale <= d.scale,
        spec_strip(d).coeff as nat * pow10((d.scale - spec_strip(d).scale) as nat) == d.coeff as nat,
        spec_strip(d).neg == d.neg,
    decreases d.scale,
{
    if d.scale > 0 && d.coeff % 10 == 0 {
        let d2 = Decimal { neg: d.neg, coeff: d.coeff / 10, scale: (d.scale - 1) as u32 };
        lemma_strip_rescales(d2);
        let r = spec_strip(d);
        let k = (d2.scale - r.scale) as nat;
        assert(d.coeff as nat == d2.coeff as nat * 10) by {
            vstd::arithmetic::div_mod::lemma_fundamental_div_mod(d.coeff as int, 10);
        }
        assert(pow10(k + 1) == 10 * pow10(k));
        assert(r.coeff as nat * (10 * pow10(k)) == (r.coeff as nat * pow10(k)) * 10)
            by (nonlinear_arith);
    } else {
        assert(spec_strip(d) == d);
        assert(d.coeff as nat * pow10(0) == d.coeff as nat * 1);
        assert(d.coeff as nat * 1 == d.coeff as nat);
    }
}

/// Division truncates and never rounds up: the magnitude of the quotient,
/// rescaled to [`RESULT_SCALE`] fractional digits, is exactly the floor of
/// the exact quotient's magnitude at that scale, and the sign is the signs'
/// disagreement on every non-zero result.
pub proof fn lemma_divide_truncates(a: Decimal, b: Decimal)
    requires
        parsed_bounds(a),
        parsed_bounds(b),
        b.coeff > 0,
    ensures
        ({
            let num = a.coeff as nat * pow10((b.scale + RESULT_SCALE) as nat);
            let den = b.coeff as nat * pow10(a.scale as nat);
            let r = spec_div(a, b);
            let scaled = r.coeff as nat * pow10((RESULT_SCALE - r.scale) as nat);
            &&& r.scale <= RESULT_SCALE
            &&& scaled * den <= num
            &&& num < (scaled + 1) * den
            &&& r.coeff != 0 ==> r.neg == (a.neg != b.neg)
            &&& canonical_sign(r)
        }),
{
    let num = a.coeff as nat * pow10((b.scale + RESULT_SCALE) as nat);
    let den = b.coeff as nat * pow10(a.scale as nat);
    let q = num / den;
    crate::decimal::lemma_pow10_pos(a.scale as nat);
    assert(den > 0) by (nonlinear_arith)
        requires
            b.coeff > 0,
            pow10(a.scale as nat) >= 1,
            den == b.coeff as nat * pow10(a.scale as nat),
    ;
    vstd::arithmetic::div_mod::lemma_fundamental_div_mod(num as int, den as int);
    vstd::arithmetic::div_mod::lemma_mod_division_less_than_divisor(num as int, den as int);
    vstd::arithmetic::div_mod::lemma_div_pos_is_pos(num as int, den as int);
    vstd::arithmetic::div_mod::lemma_div_nonincreasing(num as int, den as int);
    lemma_pow10_24();
    lemma_pow10_increases((b.scale + RESULT_SCALE) as nat, 24);
    assert(num < 0x4B3B4CA85A86C47A098A224000000000) by (nonlinear_arith)
        requires
            num == a.coeff as nat * pow10((b.scale + RESULT_SCALE) as nat),
            a.coeff <= MAX_COEFF,
            pow10((b.scale + RESULT_SCALE) as nat) <= 1_000_000_000_000_000_000_000_000,
    ;
    let d0 = Decimal { neg: a.neg != b.neg && q != 0, coeff: q as u128, scale: RESULT_SCALE };
    assert(d0.coeff as nat == q);
    lemma_strip_rescales(d0);
    let r = spec_div(a, b);
    let scaled = r.coeff as nat * pow10((RESULT_SCALE - r.scale) as nat);
    assert(scaled == q);
    assert((q as int) * (den as int) <= (q as int) * (den as int) + (num as int % den as int));
    assert((q as int + 1) * den as int == (q as int) * (den as int) + den as int)
        by (nonlinear_arith);
    if r.coeff != 0 {
        crate::decimal::lemma_pow10_pos((RESULT_SCALE - r.scale) as nat);
        assert(r.coeff as nat <= scaled) by (nonlinear_arith)
            requires
                scaled == r.coeff as nat * pow10((RESULT_SCALE - r.scale) as nat),
                pow10((RESULT_SCALE - r.scale) as nat) >= 1,
        ;
        assert(q != 0);
    }
    assert(q as int * den as int == den as int * q as int) by (nonlinear_arith);
    if r.coeff == 0 {
        assert(scaled == 0) by (nonlinear_arith)
            requires
                scaled == 0 as nat * pow10((RESULT_SCALE - r.scale) as nat),
        ;
        assert(q == 0);
        assert(!d0.neg);
    }
}

/// The pre-scaled quotient computed by [`div_trunc`] equals the quotient in
/// [`spec_div`]: scaling numerator and denominator by the same power of ten
/// leaves the truncated quotient unchanged.
proof fn lemma_div_quotients_agree(a: Decimal, b: Decimal, num: nat, den: nat)
    requires
        parsed_bounds(a),
        parsed_bounds(b),
        b.coeff > 0,
        ({
            let e = b.scale + RESULT_SCALE;
            if e >= a.scale {
                num == a.coeff as nat * pow10((e - a.scale) as nat) && den == b.coeff as nat
            } else {
                num == a.coeff as nat && den == b.coeff as nat * pow10((a.scale - e) as nat)
            }
        }),
    ensures
        den > 0,
        num / den == a.coeff as nat * pow10((b.scale + RESULT_SCALE) as nat) / (b.coeff as nat
            * pow10(a.scale as nat)),
{
    let e = b.scale + RESULT_SCALE;
    let ca = a.coeff as int;
    let cb = b.coeff as int;
    crate::decimal::lemma_pow10_pos((e - a.scale) as nat);
    crate::decimal::lemma_pow10_pos((a.scale - e) as nat);
    crate::decimal::lemma_pow10_pos(a.scale as nat);
    crate::decimal::lemma_pow10_pos(e as nat);
    if e >= a.scale {
        let d = (e - a.scale) as nat;
        let x = pow10(a.scale as nat) as int;
        lemma_pow10_adds(d, a.scale as nat);
        // num * x == ca * pow10(e), den * x == cb * pow10(a.scale)
        assert(x * (ca * pow10(d) as int) == ca * (pow10(d) as int * x) && x * cb == cb * x)
            by (nonlinear_arith);
        lemma_div_multiples_vanish_quotient(x, num as int, den as int);
        assert(x * num as int == ca * pow10(e as nat) as int);
        assert(x * den as int == cb * x);
    } else {
        let d = (a.scale - e) as nat;
        let x = pow10(e as nat) as int;
        lemma_pow10_adds(d, e as nat);
        assert(x * (cb * pow10(d) as int) == cb * (pow10(d) as int * x)) by (nonlinear_arith);
        assert(cb * pow10(d) as int > 0) by (nonlinear_arith)
            requires
                cb > 0,
                pow10(d) as int > 0,
        ;
        lemma_div_multiples_vanish_quotient(x, num as int, den as int);
        assert(x * num as int == ca * x);
        assert(x * den as int == cb * pow10(a.scale as nat) as int);
        assert(ca * x == x * ca) by (nonlinear_arith);
    }
}

} // verus!
