use calculator::utils::parser::is_number_token;
use calculator::{format_and_trim, format_signed_and_trim, parse_value, EvaluationError};

fn decode(token: &str) -> Result<f64, EvaluationError> {
    parse_value(token.to_string()).map(|literal| literal.parse::<f64>().unwrap())
}

#[test]
fn test_parse_regular_numbers() -> Result<(), EvaluationError> {
    // Integer values
    assert_eq!(decode("42")?, 42.0);
    assert_eq!(decode("-42")?, -42.0);
    assert_eq!(decode("0")?, 0.0);

    // Decimal values
    assert_eq!(decode("3.14")?, 3.14);
    assert_eq!(decode("-3.14")?, -3.14);
    assert_eq!(decode("0.0")?, 0.0);
    assert_eq!(decode(".5")?, 0.5);

    Ok(())
}

#[test]
fn test_parse_scientific_notation() -> Result<(), EvaluationError> {
    // Positive exponents
    assert_eq!(decode("1e2")?, 100.0);
    assert_eq!(decode("1.5e2")?, 150.0);
    assert_eq!(decode("1E2")?, 100.0);

    // Negative exponents
    assert_eq!(decode("1e-2")?, 0.01);
    assert_eq!(decode("-1.5e-2")?, -0.015);

    // Zero exponents
    assert_eq!(decode("1.5e0")?, 1.5);

    Ok(())
}

#[test]
fn test_parse_special_values() -> Result<(), EvaluationError> {
    // Infinity
    assert_eq!(decode("inf")?, f64::INFINITY);
    assert_eq!(decode("infinity")?, f64::INFINITY);

    // Negative infinity
    assert_eq!(decode("-inf")?, f64::NEG_INFINITY);
    assert_eq!(decode("-infinity")?, f64::NEG_INFINITY);

    // NaN
    assert!(decode("NaN")?.is_nan());
    assert!(decode("nan")?.is_nan());

    Ok(())
}

#[test]
fn test_parse_invalid_input() {
    // Empty string
    assert!(matches!(
        parse_value("".to_string()),
        Err(EvaluationError::ParseError(_))
    ));

    // Invalid characters
    assert!(matches!(
        parse_value("abc".to_string()),
        Err(EvaluationError::ParseError(_))
    ));

    // Multiple decimal points
    assert!(matches!(
        parse_value("1.2.3".to_string()),
        Err(EvaluationError::ParseError(_))
    ));

    // Invalid scientific notation
    assert!(matches!(
        parse_value("1e".to_string()),
        Err(EvaluationError::ParseError(_))
    ));
    assert!(matches!(
        parse_value("1e-".to_string()),
        Err(EvaluationError::ParseError(_))
    ));

    // Spaces
    assert!(matches!(
        parse_value(" 42".to_string()),
        Err(EvaluationError::ParseError(_))
    ));
    assert!(matches!(
        parse_value("42 ".to_string()),
        Err(EvaluationError::ParseError(_))
    ));
}

#[test]
fn a_refused_token_comes_back_as_it_was() {
    for token in ["", "abc", "1.2.3", "1e", " 42", "42 ", "\t1", "1\n", "2+abc", "4 2"] {
        assert_eq!(
            parse_value(token.to_string()),
            Err(EvaluationError::ParseError(token.to_string()))
        );
    }
}

#[test]
fn an_accepted_token_comes_back_as_it_was() {
    for token in ["42", "+42", "-.5", "5.", "1E+10", "InFiNiTy", "+NAN"] {
        assert_eq!(parse_value(token.to_string()), Ok(token.to_string()));
    }
}

#[test]
fn literals_are_what_the_standard_conversion_accepts() {
    let tokens = [
        "", "+", "-", ".", "+.", "-.", "e", "e5", "1e", "1e+", "1e-", "1e5", "1E5", "1e+5", "1e-5",
        "1e5.", "1e5e5", "1.", ".1", "1.1", "1.1.", "1..1", "..1", "+1", "-1", "++1", "--1", "+-1",
        "1+", "1-", "0", "00", "007", "0.0", "-0", "-0.0", "+0", "1_000", "1,5", "0x10", "1f",
        "inf", "Inf", "INF", "+inf", "-inf", "infinity", "INFINITY", "-Infinity", "infinit",
        "infinityy", "in", "i", "nan", "NaN", "NAN", "+nan", "-nan", "nana", "na", " 1", "1 ",
        " ", "1 2", "\u{b2}", "é", "1é", "١", "1e١", "123456789012345678901234567890",
        "1e400", "1e-400", "0.000000000000000000000000000001", ".e1", "5.e1", ".5e1", "+.5e-1",
        "1ee5", "1e5+", "1e+-5", "infnan", "-", "+e1", "1.0e", "1.0e1.0",
    ];
    for token in tokens {
        assert_eq!(
            is_number_token(token),
            token.parse::<f64>().is_ok(),
            "token {token:?}"
        );
    }
}

#[test]
fn decoding_is_exact_to_double_precision() {
    assert_eq!(decode("0.1").unwrap(), 0.1);
    assert_eq!(decode("1e-2").unwrap(), 0.01);
    assert_eq!(decode("1.7976931348623157e308").unwrap(), f64::MAX);
    assert_eq!(decode("4.9e-324").unwrap(), f64::from_bits(1));
    assert_eq!(decode("9007199254740993").unwrap(), 9007199254740992.0);
}

#[test]
fn canonical_text_decodes_to_the_value_it_was_made_from() {
    for value in [0.0, 1.0, -1.0, 42.0, 0.5, -3.4, 1234.5678, 0.1234567891, 1e-10, 1e15] {
        let plain = format_and_trim(&format!("{value:.10}"));
        assert_eq!(decode(&plain).unwrap(), value, "plain {plain}");
        let signed = format_signed_and_trim(&format!("{value:.10}"));
        assert_eq!(decode(&signed).unwrap(), value, "signed {signed}");
    }
    let negative_zero = format_and_trim(&format!("{:.10}", -0.0f64));
    assert_eq!(decode(&negative_zero).unwrap(), 0.0);
    assert!(decode(&format_and_trim(&format!("{:.10}", f64::NAN))).unwrap().is_nan());
    assert_eq!(
        decode(&format_signed_and_trim(&format!("{:.10}", f64::INFINITY))).unwrap(),
        f64::INFINITY
    );
}
