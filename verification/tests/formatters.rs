use calculator::{format_and_trim, format_signed_and_trim, DECIMALS};

fn encode(value: f64) -> String {
    format_and_trim(&format!("{value:.DECIMALS$}"))
}

fn encode_signed(value: f64) -> String {
    format_signed_and_trim(&format!("{value:.DECIMALS$}"))
}

#[test]
fn values_are_rendered_with_ten_decimals() {
    assert_eq!(DECIMALS, 10);
    assert_eq!(format!("{:.DECIMALS$}", 1.5), "1.5000000000");
}

#[test]
fn test_basic_cases() {
    assert_eq!(encode(1.23000), "1.23");
    assert_eq!(encode(5.00000), "5");
}

#[test]
fn test_zero() {
    assert_eq!(encode(000.00000), "0");
    assert_eq!(encode(0.0), "0");
}

#[test]
fn test_long_decimals() {
    assert_eq!(encode(0.300000000000004), "0.3");

    assert_eq!(encode(100.123456789012), "100.123456789");
}

#[test]
fn test_negative_values() {
    assert_eq!(encode(-3.4000), "-3.4");
    assert_eq!(encode(-0.00001), "-0.00001");
}

#[test]
fn test_no_fractional_part() {
    assert_eq!(encode(42.0), "42");
    assert_eq!(encode(-42.0), "-42");
}

#[test]
fn trimming_works_on_the_text_alone() {
    assert_eq!(format_and_trim("1.2300000000"), "1.23");
    assert_eq!(format_and_trim("100.0000000000"), "100");
    assert_eq!(format_and_trim("0.0000000000"), "0");
    assert_eq!(format_and_trim("0.0000000001"), "0.0000000001");
    assert_eq!(format_and_trim("inf"), "inf");
    assert_eq!(format_and_trim("-inf"), "-inf");
    assert_eq!(format_and_trim("NaN"), "NaN");
    assert_eq!(format_and_trim(""), "");
    assert_eq!(format_and_trim("000"), "");
    assert_eq!(format_and_trim("."), "");
    assert_eq!(format_and_trim("1.."), "1.");
    assert_eq!(format_and_trim("é.00"), "é");
}

#[test]
fn values_that_need_all_ten_decimals_keep_them() {
    assert_eq!(encode(0.1234567891), "0.1234567891");
    assert_eq!(encode(1e-10), "0.0000000001");
    assert_eq!(encode(4e-11), "0");
    assert_eq!(encode(1.0 / 3.0), "0.3333333333");
}

#[test]
fn values_that_round_alike_are_written_alike() {
    assert_eq!(encode(0.30000000001), encode(0.3));
    assert_eq!(encode(2.00000000004), "2");
}

#[test]
fn signed_form_puts_a_plus_before_what_is_not_negative() {
    assert_eq!(encode_signed(5.0), "+5");
    assert_eq!(encode_signed(0.0), "+0");
    assert_eq!(encode_signed(1.5), "+1.5");
    assert_eq!(encode_signed(-5.0), "-5");
    assert_eq!(encode_signed(-0.25), "-0.25");
    assert_eq!(encode_signed(f64::INFINITY), "+inf");
    assert_eq!(encode_signed(f64::NEG_INFINITY), "-inf");
}

#[test]
fn signed_form_leaves_what_is_no_number_alone() {
    assert_eq!(encode_signed(f64::NAN), "NaN");
    assert_eq!(format_signed_and_trim("NaN"), "NaN");
    assert_eq!(format_signed_and_trim("Na"), "+Na");
    assert_eq!(format_signed_and_trim(""), "+");
}

#[test]
fn special_values_are_written_by_name() {
    assert_eq!(encode(f64::INFINITY), "inf");
    assert_eq!(encode(f64::NEG_INFINITY), "-inf");
    assert_eq!(encode(f64::NAN), "NaN");
}
