//! The decimal codec: between canonical decimal text and [`Decimal`].
//!
//! The accepted grammar is an optional sign, at least one integer digit, and
//! an optional single decimal point followed by optional fractional digits.
//! A parsed value keeps every supplied digit and the supplied scale; inputs
//! whose coefficient or scale exceed the codec's bounds are rejected like any
//! other syntax error.  Rendering produces the canonical form: a sign only on
//! negative values, no superfluous leading zeros, and exactly `scale`
//! fractional digits.

use vstd::prelude::*;
use vstd::string::StringExecFns;

use crate::decimal::{parsed_bounds, pow10, pow10_u128, Decimal, MAX_COEFF, MAX_SCALE};

verus! {

/// ASCII digit.
pub open spec fn is_digit(b: u8) -> bool {
    48 <= b && b <= 57
}

/// Numeric value of an ASCII digit.
pub open spec fn digit_val(b: u8) -> nat {
    (b - 48) as nat
}

/// Every byte of `s` is an ASCII digit.
pub open spec fn all_digits(s: Seq<u8>) -> bool {
    forall|i: int| 0 <= i < s.len() ==> is_digit(#[trigger] s[i])
}

/// The number denoted by a sequence of ASCII digits, most significant first;
/// an empty sequence denotes zero.
pub open spec fn digits_val(s: Seq<u8>) -> nat
    decreases s.len(),
{
    if s.len() == 0 {
        0
    } else {
        digits_val(s.drop_last()) * 10 + digit_val(s.last())
    }
}

/// Index of the first `.` in `s`, or `s.len()` if there is none.
pub open spec fn dot_pos(s: Seq<u8>) -> int
    decreases s.len(),
{
    if s.len() == 0 {
        0
    } else if s[0] == 46 {
        0
    } else {
        1 + dot_pos(s.subrange(1, s.len() as int))
    }
}

/// `dot_pos` names the first occurrence of `.`.
pub proof fn lemma_dot_pos(s: Seq<u8>)
    ensures
        0 <= dot_pos(s) <= s.len(),
        forall|i: int| 0 <= i < dot_pos(s) ==> s[i] != 46,
        dot_pos(s) < s.len() ==> s[dot_pos(s)] == 46,
    decreases s.len(),
{
    if s.len() > 0 && s[0] != 46 {
        let rest = s.subrange(1, s.len() as int);
        lemma_dot_pos(rest);
        assert forall|i: int| 0 <= i < dot_pos(s) implies s[i] != 46 by {
            if i >= 1 {
                assert(s[i] == rest[i - 1]);
            }
        }
        if dot_pos(s) < s.len() {
            assert(s[dot_pos(s)] == rest[dot_pos(s) - 1]);
        }
    }
}

/// Any position that is the first occurrence of `.` (or the length, if none
/// occurs) equals `dot_pos`.
pub proof fn lemma_dot_pos_unique(s: Seq<u8>, j: int)
    requires
        0 <= j <= s.len(),
        forall|i: int| 0 <= i < j ==> s[i] != 46,
        j < s.len() ==> s[j] == 46,
    ensures
        dot_pos(s) == j,
{
    lemma_dot_pos(s);
}

/// Number of fractional digits supplied by the body `t` (sign stripped).
pub open spec fn frac_len(t: Seq<u8>) -> nat {
    if dot_pos(t) < t.len() {
        (t.len() - dot_pos(t) - 1) as nat
    } else {
        0
    }
}

/// The digits of the body with the decimal point removed: integer digits
/// followed by fractional digits.
pub open spec fn digit_seq_of(t: Seq<u8>) -> Seq<u8> {
    let d = dot_pos(t);
    if d < t.len() {
        t.subrange(0, d) + t.subrange(d + 1, t.len() as int)
    } else {
        t
    }
}

/// The body matches `digit+ ('.' digit*)?`.
pub open spec fn body_ok(t: Seq<u8>) -> bool {
    &&& t.len() >= 1
    &&& dot_pos(t) >= 1
    &&& all_digits(digit_seq_of(t))
}

/// A leading `+` or `-`.
pub open spec fn has_sign(s: Seq<u8>) -> bool {
    s.len() >= 1 && (s[0] == 43 || s[0] == 45)
}

/// The input without its optional sign.
pub open spec fn body_of(s: Seq<u8>) -> Seq<u8> {
    if has_sign(s) {
        s.subrange(1, s.len() as int)
    } else {
        s
    }
}

/// A leading `-`.
pub open spec fn neg_sign(s: Seq<u8>) -> bool {
    s.len() >= 1 && s[0] == 45
}

/// The input matches the decimal grammar `sign? digit+ ('.' digit*)?`.
pub open spec fn grammar_ok(s: Seq<u8>) -> bool {
    body_ok(body_of(s))
}

/// The denoted coefficient and scale fit the codec's bounds.
pub open spec fn parse_in_range(s: Seq<u8>) -> bool {
    &&& digits_val(digit_seq_of(body_of(s))) <= MAX_COEFF as nat
    &&& frac_len(body_of(s)) <= MAX_SCALE as nat
}

/// The decimal denoted by `s`, or `None` when `s` does not match the grammar
/// or does not fit the codec's bounds.
pub open spec fn spec_parse(s: Seq<u8>) -> Option<Decimal> {
    if grammar_ok(s) && parse_in_range(s) {
        let c = digits_val(digit_seq_of(body_of(s)));
        Some(
            Decimal {
                neg: neg_sign(s) && c != 0,
                coeff: c as u128,
                scale: frac_len(body_of(s)) as u32,
            },
        )
    } else {
        None
    }
}

/// A digit prefix never denotes more than the whole digit string.
proof fn lemma_digits_val_prefix(s: Seq<u8>, k: int)
    requires
        0 <= k <= s.len(),
    ensures
        digits_val(s.subrange(0, k)) <= digits_val(s),
    decreases s.len(),
{
    if k < s.len() {
        lemma_digits_val_prefix(s.drop_last(), k);
        assert(s.drop_last().subrange(0, k) =~= s.subrange(0, k));
        assert(digits_val(s) == digits_val(s.drop_last()) * 10 + digit_val(s.last()));
    } else {
        assert(s.subrange(0, k) =~= s);
    }
}

/// Parse canonical decimal text, rejecting anything outside the grammar or
/// the codec's bounds.
pub fn parse_decimal(s: &[u8]) -> (r: Option<Decimal>)
    ensures
        r == spec_parse(s@),
        r is Some ==> parsed_bounds(r->Some_0),
{
    let n = s.len();
    let (start, neg): (usize, bool) = if n >= 1 && (s[0] == 43 || s[0] == 45) {
        (1, s[0] == 45)
    } else {
        (0, false)
    };
    let ghost t = body_of(s@);
    proof {
        assert(t =~= s@.subrange(start as int, n as int));
    }
    // Find the first decimal point.
    let mut j: usize = start;
    while j < n && s[j] != 46
        invariant
            start <= j <= n == s@.len(),
            forall|i: int| start as int <= i < j ==> s@[i] != 46,
        decreases n - j,
    {
        j = j + 1;
    }
    proof {
        assert forall|i: int| 0 <= i < j - start implies t[i] != 46 by {
            assert(t[i] == s@[start + i]);
        }
        if (j as int) < n {
            assert(t[j - start] == s@[j as int]);
        }
        lemma_dot_pos_unique(t, j as int - start as int);
    }
    if j == start {
        // Empty input, bare sign, or a point with no integer digits.
        return None;
    }
    let scale_n: usize = if j < n {
        n - j - 1
    } else {
        0
    };
    if scale_n > 14 {
        return None;
    }
    let ghost dseq = digit_seq_of(t);
    proof {
        assert(dseq.len() == if (j as int) < n {
            n - start - 1
        } else {
            n - start
        });
    }
    let mut coeff: u128 = 0;
    let mut i: usize = start;
    while i < n
        invariant
            start <= i <= n == s@.len(),
            start < j <= n,
            t == body_of(s@),
            t =~= s@.subrange(start as int, n as int),
            dseq == digit_seq_of(t),
            dot_pos(t) == j as int - start as int,
            ({
                let k = if i <= j {
                    i - start
                } else {
                    i - start - 1
                };
                &&& coeff as nat == digits_val(dseq.subrange(0, k as int))
                &&& coeff <= MAX_COEFF
                &&& forall|m: int| 0 <= m < k ==> is_digit(#[trigger] dseq[m])
            }),
        decreases n - i,
    {
        if i != j {
            let ghost k = if i <= j {
                i - start
            } else {
                i - start - 1
            };
            proof {
                if i < j {
                    assert(dseq[k as int] == t[i - start]);
                    assert(t[i - start] == s@[i as int]);
                } else {
                    assert(dseq[k as int] == t.subrange(
                        dot_pos(t) + 1,
                        t.len() as int,
                    )[k as int - dot_pos(t)]);
                    assert(dseq[k as int] == t[i - start]);
                    assert(t[i - start] == s@[i as int]);
                }
            }
            let c = s[i];
            if c < 48 || c > 57 {
                proof {
                    assert(!is_digit(dseq[k as int]));
                }
                return None;
            }
            proof {
                let pre = dseq.subrange(0, k as int);
                let ext = dseq.subrange(0, k as int + 1);
                assert(ext.drop_last() =~= pre);
                assert(ext.last() == dseq[k as int]);
                assert(digits_val(ext) == digits_val(pre) * 10 + digit_val(dseq[k as int]));
            }
            coeff = coeff * 10 + (c - 48) as u128;
            if coeff > MAX_COEFF {
                proof {
                    lemma_digits_val_prefix(dseq, k as int + 1);
                }
                return None;
            }
        }
        i = i + 1;
    }
    proof {
        let k = (n - start - if (j as int) < n {
            1int
        } else {
            0int
        }) as int;
        assert(dseq.subrange(0, k) =~= dseq);
    }
    Some(Decimal { neg: neg && coeff != 0, coeff, scale: scale_n as u32 })
}

/// The character for a single decimal digit.
pub open spec fn digit_char(n: nat) -> char {
    if n == 0 {
        '0'
    } else if n == 1 {
        '1'
    } else if n == 2 {
        '2'
    } else if n == 3 {
        '3'
    } else if n == 4 {
        '4'
    } else if n == 5 {
        '5'
    } else if n == 6 {
        '6'
    } else if n == 7 {
        '7'
    } else if n == 8 {
        '8'
    } else {
        '9'
    }
}

/// The decimal digits of `n`, most significant first, with no leading zeros
/// (a single `0` for zero).
pub open spec fn digits_chars(n: nat) -> Seq<char>
    decreases n,
{
    if n < 10 {
        seq![digit_char(n)]
    } else {
        digits_chars(n / 10).push(digit_char(n % 10))
    }
}

/// The low `width` decimal digits of `n`, zero-padded on the left.
pub open spec fn padded_chars(n: nat, width: nat) -> Seq<char>
    decreases width,
{
    if width == 0 {
        Seq::empty()
    } else {
        padded_chars(n / 10, (width - 1) as nat).push(digit_char(n % 10))
    }
}

/// Canonical text for `d`: sign only when negative, the integer digits
/// without superfluous leading zeros, and, for a non-zero scale, a point
/// followed by exactly `scale` fractional digits.
pub open spec fn spec_render(d: Decimal) -> Seq<char> {
    let body = if d.scale == 0 {
        digits_chars(d.coeff as nat)
    } else {
        digits_chars(d.coeff as nat / pow10(d.scale as nat)) + seq!['.'] + padded_chars(
            d.coeff as nat % pow10(d.scale as nat),
            d.scale as nat,
        )
    };
    if d.neg {
        seq!['-'] + body
    } else {
        body
    }
}

/// The one-character text of a digit.
fn digit_str(v: u8) -> (r: &'static str)
    requires
        v < 10,
    ensures
        r@ == seq![digit_char(v as nat)],
{
    if v == 0 {
        proof {
            reveal_strlit("0");
            assert("0"@ =~= seq![digit_char(0)]);
        }
        "0"
    } else if v == 1 {
        proof {
            reveal_strlit("1");
            assert("1"@ =~= seq![digit_char(1)]);
        }
        "1"
    } else if v == 2 {
        proof {
            reveal_strlit("2");
            assert("2"@ =~= seq![digit_char(2)]);
        }
        "2"
    } else if v == 3 {
        proof {
            reveal_strlit("3");
            assert("3"@ =~= seq![digit_char(3)]);
        }
        "3"
    } else if v == 4 {
        proof {
            reveal_strlit("4");
            assert("4"@ =~= seq![digit_char(4)]);
        }
        "4"
    } else if v == 5 {
        proof {
            reveal_strlit("5");
            assert("5"@ =~= seq![digit_char(5)]);
        }
        "5"
    } else if v == 6 {
        proof {
            reveal_strlit("6");
            assert("6"@ =~= seq![digit_char(6)]);
        }
        "6"
    } else if v == 7 {
        proof {
            reveal_strlit("7");
            assert("7"@ =~= seq![digit_char(7)]);
        }
        "7"
    } else if v == 8 {
        proof {
            reveal_strlit("8");
            assert("8"@ =~= seq![digit_char(8)]);
        }
        "8"
    } else {
        proof {
            reveal_strlit("9");
            assert("9"@ =~= seq![digit_char(9)]);
        }
        "9"
    }
}

/// The decimal digits of `n` as text.
fn digits_string(n: u128) -> (r: String)
    ensures
        r@ == digits_chars(n as nat),
    decreases n,
{
    if n < 10 {
        String::from_str(digit_str(n as u8))
    } else {
        let mut s = digits_string(n / 10);
        s.append(digit_str((n % 10) as u8));
        proof {
            assert(digits_chars((n as nat / 10) as nat).push(digit_char(n as nat % 10))
                =~= digits_chars((n as nat / 10) as nat) + seq![digit_char(n as nat % 10)]);
        }
        s
    }
}

/// The low `width` decimal digits of `n` as zero-padded text.
fn padded_string(n: u128, width: u32) -> (r: String)
    ensures
        r@ == padded_chars(n as nat, width as nat),
    decreases width,
{
    if width == 0 {
        let s = String::new();
        proof {
            assert(s@ =~= padded_chars(n as nat, 0));
        }
        s
    } else {
        let mut s = padded_string(n / 10, width - 1);
        s.append(digit_str((n % 10) as u8));
        proof {
            assert(padded_chars((n as nat / 10) as nat, (width - 1) as nat).push(
                digit_char(n as nat % 10),
            ) =~= padded_chars((n as nat / 10) as nat, (width - 1) as nat) + seq![
                digit_char(n as nat % 10),
            ]);
        }
        s
    }
}

/// Render `d` as canonical decimal text.
pub fn render_decimal(d: Decimal) -> (r: String)
    requires
        d.scale <= 38,
    ensures
        r@ == spec_render(d),
{
    let mut out = String::new();
    if d.neg {
        proof {
            reveal_strlit("-");
            assert("-"@ =~= seq!['-']);
        }
        out.append("-");
    }
    if d.scale == 0 {
        let ds = digits_string(d.coeff);
        out.append(ds.as_str());
    } else {
        let p = pow10_u128(d.scale);
        proof {
            crate::decimal::lemma_pow10_pos(d.scale as nat);
        }
        let q = d.coeff / p;
        let f = d.coeff % p;
        let qs = digits_string(q);
        out.append(qs.as_str());
        proof {
            reveal_strlit(".");
            assert("."@ =~= seq!['.']);
        }
        out.append(".");
        let fs = padded_string(f, d.scale);
        out.append(fs.as_str());
    }
    proof {
        assert(out@ =~= spec_render(d));
    }
    out
}

} // verus!
