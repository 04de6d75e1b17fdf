//! Laws relating the codec and the arithmetic engine.
//!
//! These proof functions state the service-wide guarantees that span more
//! than one function: rendering is a right inverse of parsing for every
//! value inside the precision window, addition of texts is commutative, and
//! a zero divisor is always reported as `ERR_DIV0`.

use vstd::prelude::*;

use crate::api::{spec_add_result, spec_divide_result, spec_outcome};
use crate::arith::{max_scale, spec_add};
use crate::codec::{
    all_digits, body_of, digit_char, digit_seq_of, digit_val, digits_chars, digits_val, frac_len,
    grammar_ok, is_digit, lemma_dot_pos_unique, neg_sign, padded_chars, parse_in_range, spec_parse,
    spec_render,
};
use crate::decimal::{lemma_pow10_pos, parsed_bounds, pow10, same_value, Decimal};

verus! {

/// The bytes of an ASCII character sequence, such as rendered decimal text.
pub open spec fn ascii_bytes(cs: Seq<char>) -> Seq<u8> {
    Seq::new(cs.len(), |i: int| cs[i] as u8)
}

/// Each digit character stands for its digit: its byte is `'0' + n`.
proof fn lemma_digit_char_byte(n: nat)
    requires
        n < 10,
    ensures
        digit_char(n) as u8 == 48 + n,
        is_digit(digit_char(n) as u8),
        digit_val(digit_char(n) as u8) == n,
{
}

/// The digit string of `n` is made of digits and denotes `n`.
proof fn lemma_digits_chars_value(n: nat)
    ensures
        digits_chars(n).len() >= 1,
        all_digits(ascii_bytes(digits_chars(n))),
        digits_val(ascii_bytes(digits_chars(n))) == n,
    decreases n,
{
    if n < 10 {
        lemma_digit_char_byte(n);
        let b = ascii_bytes(digits_chars(n));
        assert(b =~= seq![digit_char(n) as u8]);
        assert(b.drop_last() =~= Seq::<u8>::empty());
        assert(digits_val(b) == digits_val(b.drop_last()) * 10 + digit_val(b.last()));
        assert(digits_val(b.drop_last()) == 0);
    } else {
        lemma_digits_chars_value(n / 10);
        lemma_digit_char_byte(n % 10);
        let pre = ascii_bytes(digits_chars(n / 10));
        let b = ascii_bytes(digits_chars(n));
        assert(b =~= pre.push(digit_char(n % 10) as u8));
        assert(b.drop_last() =~= pre);
        assert(digits_val(b) == digits_val(pre) * 10 + digit_val(b.last()));
        assert(n == (n / 10) * 10 + n % 10) by {
            vstd::arithmetic::div_mod::lemma_fundamental_div_mod(n as int, 10);
        }
    }
}

/// The zero-padded digit string of `f` below `10^w` has length `w`, is made
/// of digits, and denotes `f`.
proof fn lemma_padded_chars_value(f: nat, w: nat)
    requires
        f < pow10(w),
    ensures
        padded_chars(f, w).len() == w,
        all_digits(ascii_bytes(padded_chars(f, w))),
        digits_val(ascii_bytes(padded_chars(f, w))) == f,
    decreases w,
{
    if w == 0 {
        assert(ascii_bytes(padded_chars(f, 0)) =~= Seq::<u8>::empty());
    } else {
        assert(pow10(w) == 10 * pow10((w - 1) as nat));
        assert(f / 10 < pow10((w - 1) as nat)) by {
            vstd::arithmetic::div_mod::lemma_fundamental_div_mod(f as int, 10);
            vstd::arithmetic::div_mod::lemma_mod_division_less_than_divisor(f as int, 10);
        }
        lemma_padded_chars_value(f / 10, (w - 1) as nat);
        lemma_digit_char_byte(f % 10);
        let pre = ascii_bytes(padded_chars(f / 10, (w - 1) as nat));
        let b = ascii_bytes(padded_chars(f, w));
        assert(b =~= pre.push(digit_char(f % 10) as u8));
        assert(b.drop_last() =~= pre);
        assert(digits_val(b) == digits_val(pre) * 10 + digit_val(b.last()));
        assert(f == (f / 10) * 10 + f % 10) by {
            vstd::arithmetic::div_mod::lemma_fundamental_div_mod(f as int, 10);
        }
    }
}

/// Digit strings concatenate positionally: the left part is scaled by ten to
/// the length of the right part.
proof fn lemma_digits_val_concat(u: Seq<u8>, v: Seq<u8>)
    ensures
        digits_val(u + v) == digits_val(u) * pow10(v.len()) + digits_val(v),
    decreases v.len(),
{
    if v.len() == 0 {
        assert(u + v =~= u);
        assert(digits_val(u) * pow10(0) == digits_val(u) * 1);
        assert(digits_val(u) * 1 == digits_val(u));
    } else {
        let v0 = v.drop_last();
        lemma_digits_val_concat(u, v0);
        assert((u + v).drop_last() =~= u + v0);
        assert(digits_val(u + v) == digits_val(u + v0) * 10 + digit_val(v.last()));
        assert(digits_val(v) == digits_val(v0) * 10 + digit_val(v.last()));
        let x = digits_val(u);
        let p = pow10(v0.len());
        assert((x * p + digits_val(v0)) * 10 == x * (10 * p) + digits_val(v0) * 10)
            by (nonlinear_arith);
        assert(pow10(v.len()) == 10 * pow10((v.len() - 1) as nat));
    }
}

/// Rendering is a right inverse of parsing: the canonical text of any
/// decimal inside the precision window parses back to that same decimal.
pub proof fn lemma_render_parse_inverse(d: Decimal)
    requires
        parsed_bounds(d),
    ensures
        spec_parse(ascii_bytes(spec_render(d))) == Some(d),
{
    let m = d.coeff as nat;
    let sc = d.scale as nat;
    let body = if d.scale == 0 {
        digits_chars(m)
    } else {
        digits_chars(m / pow10(sc)) + seq!['.'] + padded_chars(m % pow10(sc), sc)
    };
    let s = ascii_bytes(spec_render(d));
    let t = ascii_bytes(body);

    // The optional sign strips off to exactly the body bytes.
    if d.neg {
        assert(spec_render(d) == seq!['-'] + body);
        assert(s[0] == 45);
        assert(body_of(s) =~= t);
        assert(neg_sign(s));
    } else {
        if d.scale == 0 {
            lemma_digits_chars_value(m);
            assert(is_digit(t[0]));
        } else {
            lemma_digits_chars_value(m / pow10(sc));
            assert(t[0] == ascii_bytes(digits_chars(m / pow10(sc)))[0]);
            assert(is_digit(t[0]));
        }
        assert(s =~= t);
        assert(body_of(s) =~= t);
        assert(!neg_sign(s));
    }

    if d.scale == 0 {
        lemma_digits_chars_value(m);
        assert forall|i: int| 0 <= i < t.len() implies t[i] != 46 by {
            assert(is_digit(t[i]));
        }
        lemma_dot_pos_unique(t, t.len() as int);
        assert(digit_seq_of(t) == t);
        assert(frac_len(t) == 0);
        assert(digits_val(t) == m);
    } else {
        lemma_pow10_pos(sc);
        let q = m / pow10(sc);
        let f = m % pow10(sc);
        vstd::arithmetic::div_mod::lemma_fundamental_div_mod(m as int, pow10(sc) as int);
        vstd::arithmetic::div_mod::lemma_mod_division_less_than_divisor(m as int, pow10(sc) as int);
        lemma_digits_chars_value(q);
        lemma_padded_chars_value(f, sc);
        let qb = ascii_bytes(digits_chars(q));
        let fb = ascii_bytes(padded_chars(f, sc));
        let l1 = qb.len() as int;
        assert(t =~= qb + seq![46u8] + fb);
        assert forall|i: int| 0 <= i < l1 implies t[i] != 46 by {
            assert(t[i] == qb[i]);
            assert(is_digit(qb[i]));
        }
        assert(t[l1] == 46);
        lemma_dot_pos_unique(t, l1);
        assert(t.subrange(0, l1) =~= qb);
        assert(t.subrange(l1 + 1, t.len() as int) =~= fb);
        assert(digit_seq_of(t) == qb + fb);
        lemma_digits_val_concat(qb, fb);
        assert(digits_val(qb + fb) == q * pow10(sc) + f);
        assert(q * pow10(sc) == pow10(sc) * q) by (nonlinear_arith);
        assert(digits_val(digit_seq_of(t)) == m);
        assert(all_digits(qb + fb)) by {
            assert forall|i: int| 0 <= i < (qb + fb).len() implies is_digit(
                #[trigger] (qb + fb)[i],
            ) by {
                if i < l1 {
                    assert((qb + fb)[i] == qb[i]);
                } else {
                    assert((qb + fb)[i] == fb[i - l1]);
                }
            }
        }
        assert(frac_len(t) == sc);
    }

    assert(grammar_ok(s));
    assert(parse_in_range(s));
    assert(spec_parse(s)->Some_0 =~= d);
}

/// Round-trip stability: for any text that parses, rendering the parsed
/// value and parsing it again yields a value equal to the first parse (so in
/// particular value-equal).
pub proof fn lemma_parse_render_round_trip(a: Seq<u8>)
    requires
        spec_parse(a) is Some,
    ensures
        spec_parse(ascii_bytes(spec_render(spec_parse(a)->Some_0))) == spec_parse(a),
        same_value(
            spec_parse(ascii_bytes(spec_render(spec_parse(a)->Some_0)))->Some_0,
            spec_parse(a)->Some_0,
        ),
{
    let d = spec_parse(a)->Some_0;
    lemma_render_parse_inverse(d);
}

/// Addition of texts is commutative: for any two texts that parse, the two
/// operand orders render identical result text.
pub proof fn lemma_add_commutes(a: Option<Seq<u8>>, b: Option<Seq<u8>>)
    requires
        spec_outcome(a) is Ok,
        spec_outcome(b) is Ok,
    ensures
        spec_add_result(a, b) == spec_add_result(b, a),
{
    let da = spec_outcome(a)->Ok_0;
    let db = spec_outcome(b)->Ok_0;
    assert(max_scale(da.scale, db.scale) == max_scale(db.scale, da.scale));
    assert(spec_add(da, db) == spec_add(db, da));
}

/// A zero-valued divisor is always reported as `ERR_DIV0`, for every
/// dividend text that parses.  (A dividend that itself fails to parse
/// short-circuits to its own error code instead.)
pub proof fn lemma_divide_by_zero(a: Option<Seq<u8>>, b: Option<Seq<u8>>)
    requires
        spec_outcome(a) is Ok,
        spec_outcome(b) is Ok,
        spec_outcome(b)->Ok_0.coeff == 0,
    ensures
        spec_divide_result(a, b) == "ERR_DIV0"@,
{
}

} // verus!
