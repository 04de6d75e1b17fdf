//! The exact decimal representation and its precision normalizer.
//!
//! A [`Decimal`] stands for the base-10 number `(-1)^neg * coeff / 10^scale`.
//! Values that come out of the codec keep every supplied digit: arithmetic is
//! performed exactly, and only the explicit truncation step drops digits.

use vstd::prelude::*;

verus! {

/// Number of fractional digits kept by the precision normalizer.
pub const RESULT_SCALE: u32 = 10;

/// Largest coefficient the codec accepts (14 significant decimal digits).
/// Together with [`MAX_SCALE`] this keeps every exact intermediate result of
/// the arithmetic engine comfortably inside `u128`.
pub const MAX_COEFF: u128 = 99_999_999_999_999;

/// Largest fractional-digit count the codec accepts.
pub const MAX_SCALE: u32 = 14;

/// An exact base-10 number: `(-1)^neg * coeff / 10^scale`.
#[derive(Clone, Copy, Debug, PartialEq, Eq, Structural)]
pub struct Decimal {
    /// True for strictly negative values; a zero coefficient never carries a sign.
    pub neg: bool,
    /// Magnitude of the value, scaled by `10^scale`.
    pub coeff: u128,
    /// Number of fractional digits.
    pub scale: u32,
}

/// Ten to the `n`.
pub open spec fn pow10(n: nat) -> nat
    decreases n,
{
    if n == 0 {
        1
    } else {
        10 * pow10((n - 1) as nat)
    }
}

/// The coefficient with its sign applied; the value of `d` is
/// `signed_coeff(d) / 10^scale`.
pub open spec fn signed_coeff(d: Decimal) -> int {
    if d.neg {
        -(d.coeff as int)
    } else {
        d.coeff as int
    }
}

/// A zero value never carries a negative sign, so each number has one
/// representation at a given scale.
pub open spec fn canonical_sign(d: Decimal) -> bool {
    d.coeff == 0 ==> !d.neg
}

/// Every decimal the codec produces satisfies these bounds; the arithmetic
/// engine relies on them to stay free of overflow.
pub open spec fn parsed_bounds(d: Decimal) -> bool {
    &&& d.coeff <= MAX_COEFF
    &&& d.scale <= MAX_SCALE
    &&& canonical_sign(d)
}

/// Two decimals denote the same number, scales aside.
pub open spec fn same_value(a: Decimal, b: Decimal) -> bool {
    signed_coeff(a) * pow10(b.scale as nat) == signed_coeff(b) * pow10(a.scale as nat)
}

/// The decimal with signed coefficient `n` at scale `scale`, with the sign
/// of zero canonicalized.
pub open spec fn from_signed(n: int, scale: u32) -> Decimal {
    Decimal { neg: n < 0, coeff: (if n < 0 { -n } else { n }) as u128, scale }
}

/// Round-toward-zero reduction of the fractional-digit count to at most
/// `limit` digits: digits beyond the limit are dropped, the retained digits
/// and the sign are untouched.
pub open spec fn spec_truncate(d: Decimal, limit: u32) -> Decimal {
    if d.scale <= limit {
        d
    } else {
        let c = (d.coeff as nat / pow10((d.scale - limit) as nat)) as u128;
        Decimal { neg: d.neg && c != 0, coeff: c, scale: limit }
    }
}

/// `10^n` is at least one.
pub proof fn lemma_pow10_pos(n: nat)
    ensures
        pow10(n) >= 1,
    decreases n,
{
    if n > 0 {
        lemma_pow10_pos((n - 1) as nat);
    }
}

/// `pow10` is monotone in the exponent.
pub proof fn lemma_pow10_increases(a: nat, b: nat)
    requires
        a <= b,
    ensures
        pow10(a) <= pow10(b),
    decreases b,
{
    if a < b {
        lemma_pow10_increases(a, (b - 1) as nat);
        lemma_pow10_pos((b - 1) as nat);
    }
}

/// `10^a * 10^b == 10^(a + b)`.
pub proof fn lemma_pow10_adds(a: nat, b: nat)
    ensures
        pow10(a) * pow10(b) == pow10(a + b),
    decreases a,
{
    if a == 0 {
        assert(pow10(a) == 1);
        assert(a + b == b);
        assert(pow10(a) * pow10(b) == pow10(b));
    } else {
        lemma_pow10_adds((a - 1) as nat, b);
        let x = pow10((a - 1) as nat);
        let y = pow10(b);
        assert(pow10(a) == 10 * x);
        assert((a + b - 1) as nat == (a - 1) as nat + b);
        assert(pow10(a + b) == 10 * pow10((a + b - 1) as nat));
        assert((10 * x) * y == 10 * (x * y)) by (nonlinear_arith);
        assert(pow10(a) * pow10(b) == (10 * x) * y);
        assert(10 * (x * y) == 10 * pow10((a - 1) as nat + b));
        assert(10 * pow10((a + b - 1) as nat) == pow10(a + b));
    }
}

/// The concrete value of `10^38`, the largest power this crate computes.
pub proof fn lemma_pow10_38()
    ensures
        pow10(38) == 0x4B3B4CA85A86C47A098A224000000000u128,
{
    reveal_with_fuel(pow10, 39);
}

/// Ten to the `n`, computed at run time.
pub fn pow10_u128(n: u32) -> (r: u128)
    requires
        n <= 38,
    ensures
        r as nat == pow10(n as nat),
{
    proof {
        lemma_pow10_38();
    }
    let mut i: u32 = 0;
    let mut acc: u128 = 1;
    while i < n
        invariant
            i <= n <= 38,
            acc as nat == pow10(i as nat),
        decreases n - i,
    {
        proof {
            lemma_pow10_38();
            lemma_pow10_increases((i + 1) as nat, 38);
        }
        acc = acc * 10;
        i = i + 1;
    }
    acc
}

/// Truncation toward zero, fixed to the service-wide fractional-digit limit
/// by its callers.
pub fn truncate_decimal_value(d: Decimal, limit: u32) -> (r: Decimal)
    requires
        d.scale <= 38,
    ensures
        r == spec_truncate(d, limit),
{
    if d.scale <= limit {
        d
    } else {
        let p = pow10_u128(d.scale - limit);
        proof {
            lemma_pow10_pos((d.scale - limit) as nat);
        }
        let c = d.coeff / p;
        Decimal { neg: d.neg && c != 0, coeff: c, scale: limit }
    }
}

/// Truncation never rounds up: the kept digits are exactly the floor of the
/// original magnitude at the reduced scale, and the sign is preserved on
/// every non-zero result.
pub proof fn lemma_truncate_toward_zero(d: Decimal, limit: u32)
    requires
        canonical_sign(d),
    ensures
        spec_truncate(d, limit).scale == (if d.scale <= limit { d.scale as int } else { limit as int }),
        canonical_sign(spec_truncate(d, limit)),
        spec_truncate(d, limit).coeff != 0 ==> spec_truncate(d, limit).neg == d.neg,
        spec_truncate(d, limit).coeff as nat * pow10((d.scale - spec_truncate(d, limit).scale) as nat)
            <= d.coeff as nat,
        (d.coeff as nat) < (spec_truncate(d, limit).coeff as nat + 1) * pow10(
            (d.scale - spec_truncate(d, limit).scale) as nat,
        ),
{
    let r = spec_truncate(d, limit);
    if d.scale <= limit {
        assert(pow10(0) == 1);
        assert(r.coeff as nat * pow10(0) == r.coeff as nat);
        assert((r.coeff as nat + 1) * pow10(0) == r.coeff as nat + 1);
    } else {
        let diff = (d.scale - limit) as nat;
        let p = pow10(diff) as int;
        lemma_pow10_pos(diff);
        vstd::arithmetic::div_mod::lemma_fundamental_div_mod(d.coeff as int, p);
        vstd::arithmetic::div_mod::lemma_mod_division_less_than_divisor(d.coeff as int, p);
        vstd::arithmetic::div_mod::lemma_div_pos_is_pos(d.coeff as int, p);
        vstd::arithmetic::div_mod::lemma_div_nonincreasing(d.coeff as int, p);
        let q = d.coeff as int / p;
        let m = d.coeff as int % p;
        assert(r.coeff as int == q);
        assert(q * p <= q * p + m);
        assert((q + 1) * p == q * p + p) by (nonlinear_arith);
        assert(r.coeff as nat * pow10(diff) == q * p);
        assert((r.coeff as nat + 1) * pow10(diff) == (q + 1) * p);
    }
}

} // verus!
