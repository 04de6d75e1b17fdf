//! Parsing, classification and canonical rendering at the codec level.

use tokencalculation::api::{get_decimal, truncate_decimal, ParseErr};
use tokencalculation::codec::{parse_decimal, render_decimal};
use tokencalculation::decimal::Decimal;

fn t(x: &str) -> Option<&[u8]> {
    Some(x.as_bytes())
}

#[test]
fn parse_accepts_the_grammar() {
    assert_eq!(
        parse_decimal(b"1.5"),
        Some(Decimal { neg: false, coeff: 15, scale: 1 })
    );
    assert_eq!(
        parse_decimal(b"-0.25"),
        Some(Decimal { neg: true, coeff: 25, scale: 2 })
    );
    assert_eq!(
        parse_decimal(b"+2.5"),
        Some(Decimal { neg: false, coeff: 25, scale: 1 })
    );
    assert_eq!(
        parse_decimal(b"1."),
        Some(Decimal { neg: false, coeff: 1, scale: 0 })
    );
    assert_eq!(
        parse_decimal(b"007"),
        Some(Decimal { neg: false, coeff: 7, scale: 0 })
    );
}

#[test]
fn parse_canonicalizes_the_sign_of_zero() {
    assert_eq!(
        parse_decimal(b"-0"),
        Some(Decimal { neg: false, coeff: 0, scale: 0 })
    );
    assert_eq!(
        parse_decimal(b"-0.00"),
        Some(Decimal { neg: false, coeff: 0, scale: 2 })
    );
}

#[test]
fn parse_rejects_outside_the_grammar() {
    assert_eq!(parse_decimal(b""), None);
    assert_eq!(parse_decimal(b"+"), None);
    assert_eq!(parse_decimal(b"-"), None);
    assert_eq!(parse_decimal(b".5"), None);
    assert_eq!(parse_decimal(b"1.2.3"), None);
    assert_eq!(parse_decimal(b"1e5"), None);
    assert_eq!(parse_decimal(b"1 "), None);
    assert_eq!(parse_decimal(b"--1"), None);
}

#[test]
fn parse_rejects_outside_the_bounds() {
    // Fifteen significant digits.
    assert_eq!(parse_decimal(b"999999999999999"), None);
    // Fifteen fractional digits.
    assert_eq!(parse_decimal(b"0.000000000000001"), None);
    // Fourteen of each still fit.
    assert!(parse_decimal(b"99999999999999").is_some());
    assert!(parse_decimal(b"0.00000000000001").is_some());
    // Leading zeros do not count against the bound.
    assert!(parse_decimal(b"00000000000000000001").is_some());
}

#[test]
fn render_is_canonical() {
    assert_eq!(
        render_decimal(Decimal { neg: false, coeff: 15, scale: 1 }),
        "1.5"
    );
    assert_eq!(
        render_decimal(Decimal { neg: true, coeff: 5, scale: 2 }),
        "-0.05"
    );
    assert_eq!(
        render_decimal(Decimal { neg: false, coeff: 0, scale: 0 }),
        "0"
    );
    assert_eq!(
        render_decimal(Decimal { neg: false, coeff: 10000000000, scale: 10 }),
        "1.0000000000"
    );
}

#[test]
fn render_then_parse_restores_the_value() {
    for text in ["12.345", "-0.07", "0", "1.", "+42", "99999999999999"] {
        let d = parse_decimal(text.as_bytes()).unwrap();
        let rendered = render_decimal(d);
        assert_eq!(parse_decimal(rendered.as_bytes()), Some(d));
    }
}

#[test]
fn truncate_round_trips_through_text() {
    let once = truncate_decimal(t("12.3456789012345"));
    assert_eq!(once, "ERR_PARSE");
    let once = truncate_decimal(t("12.34567890123"));
    assert_eq!(once, "12.3456789012");
    let twice = truncate_decimal(Some(once.as_bytes()));
    assert_eq!(twice, once);
}

#[test]
fn get_decimal_classifies_inputs() {
    assert_eq!(get_decimal(None), Err(ParseErr::Null));
    assert_eq!(get_decimal(Some(&[0x80])), Err(ParseErr::Utf8));
    assert_eq!(get_decimal(Some(b"x1")), Err(ParseErr::Syntax));
    assert_eq!(
        get_decimal(Some(b"3.14")),
        Ok(Decimal { neg: false, coeff: 314, scale: 2 })
    );
}

#[test]
fn sentinel_codes_are_stable() {
    assert_eq!(ParseErr::Null.code(), "ERR_NULL");
    assert_eq!(ParseErr::Utf8.code(), "ERR_UTF8");
    assert_eq!(ParseErr::Syntax.code(), "ERR_PARSE");
}
