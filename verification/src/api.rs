//! The boundary surface: text in, text out.
//!
//! Each entry point takes its operands as optional byte strings (`None`
//! standing for an absent input) and returns a single text result: canonical
//! decimal text on success, or one of the fixed sentinel codes `ERR_NULL`,
//! `ERR_UTF8`, `ERR_PARSE` and `ERR_DIV0`.  A failing first operand
//! short-circuits the operation and takes priority over the second.

use vstd::prelude::*;
use vstd::string::StringExecFns;

use crate::arith::{
    add_exact, div_trunc, mul_exact, spec_add, spec_div, spec_mul, spec_sub, sub_exact,
};
use crate::codec::{parse_decimal, render_decimal, spec_parse, spec_render};
use crate::decimal::{parsed_bounds, spec_truncate, truncate_decimal_value, Decimal, RESULT_SCALE};

verus! {

/// Why an input failed to yield a decimal: absent, not UTF-8, or not a
/// decimal number.  The three cases are mutually exclusive.
#[derive(Clone, Copy, Debug, PartialEq, Eq, Structural)]
pub enum ParseErr {
    /// The input was absent.
    Null,
    /// The bytes were not valid UTF-8.
    Utf8,
    /// The text did not match the decimal grammar, or exceeded the codec's
    /// bounds.
    Syntax,
}

/// The sentinel code for each failure.
pub open spec fn spec_code(e: ParseErr) -> Seq<char> {
    match e {
        ParseErr::Null => "ERR_NULL"@,
        ParseErr::Utf8 => "ERR_UTF8"@,
        ParseErr::Syntax => "ERR_PARSE"@,
    }
}

impl ParseErr {
    /// The sentinel code sent over the text channel.
    pub fn code(&self) -> (r: &'static str)
        ensures
            r@ == spec_code(*self),
    {
        match self {
            ParseErr::Null => "ERR_NULL",
            ParseErr::Utf8 => "ERR_UTF8",
            ParseErr::Syntax => "ERR_PARSE",
        }
    }
}

/// Relies on `core::str::from_utf8`: it returns `Ok` exactly when the byte
/// slice is valid UTF-8, as specified by `vstd::utf8::valid_utf8`.
#[verifier::external_body]
fn utf8_valid(bytes: &[u8]) -> (r: bool)
    ensures
        r == vstd::utf8::valid_utf8(bytes@),
{
    core::str::from_utf8(bytes).is_ok()
}

/// The bytes of an optional input.
pub open spec fn opt_bytes(x: Option<&[u8]>) -> Option<Seq<u8>> {
    match x {
        Option::Some(b) => Option::Some(b@),
        Option::None => Option::None,
    }
}

/// How an input is classified: an absent input is `Null`, bytes that are not
/// UTF-8 are `Utf8`, text outside the decimal grammar or the codec's bounds
/// is `Syntax`, and anything else is the decimal it denotes.
pub open spec fn spec_outcome(x: Option<Seq<u8>>) -> Result<Decimal, ParseErr> {
    match x {
        Option::None => Result::Err(ParseErr::Null),
        Option::Some(b) => if !vstd::utf8::valid_utf8(b) {
            Result::Err(ParseErr::Utf8)
        } else {
            match spec_parse(b) {
                Option::Some(d) => Result::Ok(d),
                Option::None => Result::Err(ParseErr::Syntax),
            }
        },
    }
}

/// Acquire one operand: classify the input and parse it into a decimal.
pub fn get_decimal(input: Option<&[u8]>) -> (r: Result<Decimal, ParseErr>)
    ensures
        r == spec_outcome(opt_bytes(input)),
        r is Ok ==> parsed_bounds(r->Ok_0),
{
    match input {
        Option::None => Result::Err(ParseErr::Null),
        Option::Some(b) => {
            if !utf8_valid(b) {
                Result::Err(ParseErr::Utf8)
            } else {
                match parse_decimal(b) {
                    Option::Some(d) => Result::Ok(d),
                    Option::None => Result::Err(ParseErr::Syntax),
                }
            }
        },
    }
}

/// The text result of adding two operand texts.
pub open spec fn spec_add_result(a: Option<Seq<u8>>, b: Option<Seq<u8>>) -> Seq<char> {
    match spec_outcome(a) {
        Result::Err(e) => spec_code(e),
        Result::Ok(da) => match spec_outcome(b) {
            Result::Err(e) => spec_code(e),
            Result::Ok(db) => spec_render(spec_truncate(spec_add(da, db), RESULT_SCALE)),
        },
    }
}

/// The text result of subtracting the second operand text from the first.
pub open spec fn spec_subtract_result(a: Option<Seq<u8>>, b: Option<Seq<u8>>) -> Seq<char> {
    match spec_outcome(a) {
        Result::Err(e) => spec_code(e),
        Result::Ok(da) => match spec_outcome(b) {
            Result::Err(e) => spec_code(e),
            Result::Ok(db) => spec_render(spec_truncate(spec_sub(da, db), RESULT_SCALE)),
        },
    }
}

/// The text result of multiplying two operand texts.
pub open spec fn spec_multiply_result(a: Option<Seq<u8>>, b: Option<Seq<u8>>) -> Seq<char> {
    match spec_outcome(a) {
        Result::Err(e) => spec_code(e),
        Result::Ok(da) => match spec_outcome(b) {
            Result::Err(e) => spec_code(e),
            Result::Ok(db) => spec_render(spec_truncate(spec_mul(da, db), RESULT_SCALE)),
        },
    }
}

/// The text result of dividing the first operand text by the second: a zero
/// divisor is reported as `ERR_DIV0` before any division is attempted.
pub open spec fn spec_divide_result(a: Option<Seq<u8>>, b: Option<Seq<u8>>) -> Seq<char> {
    match spec_outcome(a) {
        Result::Err(e) => spec_code(e),
        Result::Ok(da) => match spec_outcome(b) {
            Result::Err(e) => spec_code(e),
            Result::Ok(db) => if db.coeff == 0 {
                "ERR_DIV0"@
            } else {
                spec_render(spec_truncate(spec_div(da, db), RESULT_SCALE))
            },
        },
    }
}

/// The text result of normalizing a single operand text: parse, truncate to
/// the fixed precision, render.
pub open spec fn spec_truncate_result(a: Option<Seq<u8>>) -> Seq<char> {
    match spec_outcome(a) {
        Result::Err(e) => spec_code(e),
        Result::Ok(da) => spec_render(spec_truncate(da, RESULT_SCALE)),
    }
}

/// Add two decimal texts and render the truncated sum.
pub fn add_decimal(a: Option<&[u8]>, b: Option<&[u8]>) -> (r: String)
    ensures
        r@ == spec_add_result(opt_bytes(a), opt_bytes(b)),
{
    let da = match get_decimal(a) {
        Result::Ok(v) => v,
        Result::Err(e) => {
            return String::from_str(e.code());
        },
    };
    let db = match get_decimal(b) {
        Result::Ok(v) => v,
        Result::Err(e) => {
            return String::from_str(e.code());
        },
    };
    render_decimal(truncate_decimal_value(add_exact(da, db), RESULT_SCALE))
}

/// Subtract the second decimal text from the first and render the truncated
/// difference.
pub fn subtract_decimal(a: Option<&[u8]>, b: Option<&[u8]>) -> (r: String)
    ensures
        r@ == spec_subtract_result(opt_bytes(a), opt_bytes(b)),
{
    let da = match get_decimal(a) {
        Result::Ok(v) => v,
        Result::Err(e) => {
            return String::from_str(e.code());
        },
    };
    let db = match get_decimal(b) {
        Result::Ok(v) => v,
        Result::Err(e) => {
            return String::from_str(e.code());
        },
    };
    render_decimal(truncate_decimal_value(sub_exact(da, db), RESULT_SCALE))
}

/// Multiply two decimal texts and render the truncated product.
pub fn multiply_decimal(a: Option<&[u8]>, b: Option<&[u8]>) -> (r: String)
    ensures
        r@ == spec_multiply_result(opt_bytes(a), opt_bytes(b)),
{
    let da = match get_decimal(a) {
        Result::Ok(v) => v,
        Result::Err(e) => {
            return String::from_str(e.code());
        },
    };
    let db = match get_decimal(b) {
        Result::Ok(v) => v,
        Result::Err(e) => {
            return String::from_str(e.code());
        },
    };
    render_decimal(truncate_decimal_value(mul_exact(da, db), RESULT_SCALE))
}

/// Divide the first decimal text by the second and render the truncated
/// quotient; a zero divisor yields `ERR_DIV0`.
pub fn divide_decimal(a: Option<&[u8]>, b: Option<&[u8]>) -> (r: String)
    ensures
        r@ == spec_divide_result(opt_bytes(a), opt_bytes(b)),
{
    let da = match get_decimal(a) {
        Result::Ok(v) => v,
        Result::Err(e) => {
            return String::from_str(e.code());
        },
    };
    let db = match get_decimal(b) {
        Result::Ok(v) => v,
        Result::Err(e) => {
            return String::from_str(e.code());
        },
    };
    if db.coeff == 0 {
        return String::from_str("ERR_DIV0");
    }
    render_decimal(truncate_decimal_value(div_trunc(da, db), RESULT_SCALE))
}

/// Normalize a single decimal text: parse, truncate to the fixed precision,
/// render.
pub fn truncate_decimal(a: Option<&[u8]>) -> (r: String)
    ensures
        r@ == spec_truncate_result(opt_bytes(a)),
{
    let da = match get_decimal(a) {
        Result::Ok(v) => v,
        Result::Err(e) => {
            return String::from_str(e.code());
        },
    };
    render_decimal(truncate_decimal_value(da, RESULT_SCALE))
}

} // verus!
