//! End-to-end behavior of the text-in, text-out service surface.

use tokencalculation::api::{
    add_decimal, divide_decimal, multiply_decimal, subtract_decimal, truncate_decimal,
};

fn t(x: &str) -> Option<&[u8]> {
    Some(x.as_bytes())
}

#[test]
fn add_integers() {
    assert_eq!(add_decimal(t("1"), t("2")), "3");
}

#[test]
fn add_keeps_common_scale() {
    assert_eq!(add_decimal(t("1.25"), t("0.75")), "2.00");
    assert_eq!(add_decimal(t("0.5"), t("0.5")), "1.0");
}

#[test]
fn add_is_commutative_on_samples() {
    assert_eq!(
        add_decimal(t("1.5"), t("2.25")),
        add_decimal(t("2.25"), t("1.5"))
    );
    assert_eq!(
        add_decimal(t("-3.07"), t("0.07")),
        add_decimal(t("0.07"), t("-3.07"))
    );
}

#[test]
fn add_negative_operands() {
    assert_eq!(add_decimal(t("-1.5"), t("0.5")), "-1.0");
    assert_eq!(add_decimal(t("-0.5"), t("0.5")), "0.0");
    assert_eq!(add_decimal(t("-1"), t("-2")), "-3");
}

#[test]
fn add_carries_past_the_parse_bound() {
    assert_eq!(add_decimal(t("99999999999999"), t("1")), "100000000000000");
}

#[test]
fn subtract_basic() {
    assert_eq!(subtract_decimal(t("1.5"), t("2")), "-0.5");
    assert_eq!(subtract_decimal(t("2"), t("2")), "0");
    assert_eq!(subtract_decimal(t("1.5"), t("1.5")), "0.0");
}

#[test]
fn multiply_adds_scales() {
    assert_eq!(multiply_decimal(t("1.5"), t("2")), "3.0");
    assert_eq!(multiply_decimal(t("0.5"), t("0.4")), "0.20");
    assert_eq!(multiply_decimal(t("-3"), t("2")), "-6");
}

#[test]
fn multiply_result_is_truncated_to_ten_digits() {
    // 10^-6 * 10^-7 = 10^-13: every retained digit is zero.
    assert_eq!(
        multiply_decimal(t("0.000001"), t("0.0000001")),
        "0.0000000000"
    );
}

#[test]
fn divide_one_by_three_has_exactly_ten_digits() {
    assert_eq!(divide_decimal(t("1"), t("3")), "0.3333333333");
}

#[test]
fn divide_truncates_instead_of_rounding() {
    assert_eq!(divide_decimal(t("2"), t("3")), "0.6666666666");
    assert_eq!(divide_decimal(t("-2"), t("3")), "-0.6666666666");
}

#[test]
fn divide_exact_quotients_keep_their_natural_scale() {
    assert_eq!(divide_decimal(t("1"), t("2")), "0.5");
    assert_eq!(divide_decimal(t("4"), t("2")), "2");
    assert_eq!(divide_decimal(t("1"), t("0.0001")), "10000");
}

#[test]
fn divide_by_zero_is_reported() {
    assert_eq!(divide_decimal(t("5"), t("0")), "ERR_DIV0");
    assert_eq!(divide_decimal(t("5"), t("0.00")), "ERR_DIV0");
    assert_eq!(divide_decimal(t("0"), t("0")), "ERR_DIV0");
}

#[test]
fn divide_failing_dividend_takes_priority_over_zero_divisor() {
    assert_eq!(divide_decimal(None, t("0")), "ERR_NULL");
    assert_eq!(divide_decimal(t("abc"), t("0")), "ERR_PARSE");
}

#[test]
fn truncate_never_rounds_up() {
    assert_eq!(truncate_decimal(t("1.00000000005")), "1.0000000000");
    assert_eq!(truncate_decimal(t("-1.00000000005")), "-1.0000000000");
    assert_eq!(truncate_decimal(t("0.99999999999")), "0.9999999999");
}

#[test]
fn truncate_keeps_short_scales_untouched() {
    assert_eq!(truncate_decimal(t("1.500")), "1.500");
    assert_eq!(truncate_decimal(t("7")), "7");
    assert_eq!(truncate_decimal(t("0.0")), "0.0");
}

#[test]
fn divide_by_the_smallest_step_stays_exact() {
    assert_eq!(
        divide_decimal(t("99999999999999"), t("0.00000000000001")),
        "9999999999999900000000000000"
    );
}

#[test]
fn zero_dividends_render_as_zero() {
    assert_eq!(divide_decimal(t("-0"), t("3")), "0");
    assert_eq!(divide_decimal(t("0.0"), t("5")), "0");
}

#[test]
fn trailing_point_is_accepted() {
    assert_eq!(add_decimal(t("1."), t("0")), "1");
}

#[test]
fn null_input_is_reported() {
    assert_eq!(add_decimal(None, t("1")), "ERR_NULL");
    assert_eq!(add_decimal(t("1"), None), "ERR_NULL");
    assert_eq!(subtract_decimal(None, t("1")), "ERR_NULL");
    assert_eq!(multiply_decimal(None, t("1")), "ERR_NULL");
    assert_eq!(truncate_decimal(None), "ERR_NULL");
}

#[test]
fn unparsable_text_is_reported() {
    assert_eq!(add_decimal(t("1"), t("abc")), "ERR_PARSE");
    assert_eq!(add_decimal(t("abc"), t("1")), "ERR_PARSE");
}

#[test]
fn invalid_byte_sequences_are_reported() {
    assert_eq!(add_decimal(Some(&[0xff, 0xfe]), t("1")), "ERR_UTF8");
    assert_eq!(truncate_decimal(Some(&[0xc3, 0x28])), "ERR_UTF8");
}

#[test]
fn first_operand_failure_takes_priority() {
    assert_eq!(add_decimal(t("abc"), None), "ERR_PARSE");
    assert_eq!(add_decimal(None, t("abc")), "ERR_NULL");
}
