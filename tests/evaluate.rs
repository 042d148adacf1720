use expr_calc::math_parse;
use expr_calc::power::checked_power;

#[test]
fn digit_strings_give_their_value() {
    assert_eq!(math_parse("0"), Some(0));
    assert_eq!(math_parse("12345"), Some(12345));
    assert_eq!(math_parse("007"), Some(7));
    assert_eq!(math_parse("2147483647"), Some(i32::MAX));
}

#[test]
fn literal_too_large_is_rejected() {
    assert_eq!(math_parse("2147483648"), None);
    assert_eq!(math_parse("99999999999999999999"), None);
}

#[test]
fn literal_too_large_falls_through_to_brackets() {
    assert_eq!(math_parse("99999999999(4)"), Some(4));
    assert_eq!(math_parse("99999999999 (4)"), None);
}

#[test]
fn whitespace_around_tokens_is_ignored() {
    assert_eq!(math_parse("1+2"), Some(3));
    assert_eq!(math_parse("1 + 2"), Some(3));
    assert_eq!(math_parse(" 1+2 "), Some(3));
    assert_eq!(math_parse("\t1\n+\r\n2"), Some(3));
    assert_eq!(math_parse("( 2 * 3 ) ^ 2"), Some(36));
}

#[test]
fn parentheses_change_grouping() {
    assert_eq!(math_parse("2*(2+3)"), Some(10));
    assert_eq!(math_parse("2*2+3"), Some(7));
}

#[test]
fn power_groups_to_the_right() {
    assert_eq!(math_parse("2^(1+3*2)"), Some(128));
    assert_eq!(math_parse("2^3^2"), Some(512));
}

#[test]
fn division_truncates_toward_zero() {
    assert_eq!(math_parse("7/2"), Some(3));
    assert_eq!(math_parse("(0-7)/2"), Some(-3));
    assert_eq!(math_parse("7/(0-2)"), Some(-3));
}

#[test]
fn first_operand_is_the_left_operand() {
    assert_eq!(math_parse("10-4"), Some(6));
    assert_eq!(math_parse("1-2-3"), Some(2));
    assert_eq!(math_parse("100/10/5"), Some(50));
}

#[test]
fn malformed_input_gives_none() {
    assert_eq!(math_parse("(1+2"), None);
    assert_eq!(math_parse(""), None);
    assert_eq!(math_parse("   "), None);
    assert_eq!(math_parse("+1"), None);
    assert_eq!(math_parse("-1"), None);
    assert_eq!(math_parse("1*"), None);
    assert_eq!(math_parse("(1+2]"), None);
}

#[test]
fn trailing_text_is_ignored() {
    assert_eq!(math_parse("1abc"), Some(1));
    assert_eq!(math_parse("1+2)"), Some(3));
    assert_eq!(math_parse("4 5"), Some(4));
}

#[test]
fn repeated_evaluation_gives_the_same_result() {
    let text = "2* (2 + 3)";
    let first = math_parse(text);
    let second = math_parse(text);
    let third = math_parse(text);
    assert_eq!(first, Some(10));
    assert_eq!(first, second);
    assert_eq!(second, third);
    assert_eq!(math_parse("(1"), math_parse("(1"));
}

#[test]
fn arithmetic_faults_give_none() {
    assert_eq!(math_parse("1/0"), None);
    assert_eq!(math_parse("2147483647+1"), None);
    assert_eq!(math_parse("0-2147483647-2"), Some(-2147483645));
    assert_eq!(math_parse("65536*65536"), None);
    assert_eq!(math_parse("2^31"), None);
    assert_eq!(math_parse("0^(0-1)"), None);
}

#[test]
fn powers_at_the_edges() {
    assert_eq!(math_parse("2^30"), Some(1073741824));
    assert_eq!(math_parse("(0-2)^31"), Some(i32::MIN));
    assert_eq!(math_parse("5^0"), Some(1));
    assert_eq!(math_parse("0^0"), Some(1));
    assert_eq!(math_parse("0^3"), Some(0));
    assert_eq!(math_parse("2^(0-1)"), Some(0));
    assert_eq!(math_parse("1^(0-5)"), Some(1));
    assert_eq!(math_parse("(0-1)^(0-3)"), Some(-1));
    assert_eq!(math_parse("(0-1)^(0-4)"), Some(1));
    assert_eq!(math_parse("1^2147483647"), Some(1));
    assert_eq!(math_parse("(0-1)^2147483647"), Some(-1));
}

#[test]
fn checked_power_values() {
    assert_eq!(checked_power(2, 10), Some(1024));
    assert_eq!(checked_power(-3, 3), Some(-27));
    assert_eq!(checked_power(46341, 2), None);
    assert_eq!(checked_power(46340, 2), Some(2147395600));
    assert_eq!(checked_power(7, -2), Some(0));
}
