use calculator::patterns::{NUMERIC_VALUE, PARENTHESIS};
use calculator::{Operator, Patterns};
use regex::Regex;

#[test]
fn test_numeric_values() {
    let valid = vec![
        "123", "-123", "+123", "0.123", "-0.123", "1e5", "-1.23e-4", "+1.23e+4", "inf", "-inf",
        "+inf", "NaN",
    ];

    for num in valid {
        assert!(Regex::new(&format!(r"^{NUMERIC_VALUE}$"))
            .unwrap()
            .is_match(num));
    }
}

#[test]
fn test_parenthesis() {
    let table = Patterns::new().unwrap();
    let cases = vec![
        // basic case
        ("(1 + 2)", "1 + 2"),
        // with prefix
        ("prefix (1.5*2.5)", "1.5*2.5"),
        // nested parenthesis
        ("(1 + (2 * 3))", "2 * 3"),
    ];

    for (expr, expected) in cases {
        let captures = table.get(Operator::Parenthesis).captures(expr).unwrap();

        assert_eq!(expected, captures.get(1).unwrap().as_str())
    }
}

#[test]
fn test_exponential() {
    let table = Patterns::new().unwrap();
    let valid_cases = vec![
        //basic case
        ("2^3", "2", "3"),
        // ignores whitespace
        (" 1.5 ^ 2.5 ", "1.5", "2.5"),
        // picks first match
        ("-2 ^ 3 ^ 7", "-2", "3"),
        // scientific notation
        ("2.5e-1 ^ 3.2e+2", "2.5e-1", "3.2e+2"),
    ];

    for (expr, expected1, expected2) in valid_cases {
        let captures = table.get(Operator::Exponential).captures(expr).unwrap();
        assert_eq!(captures.get(1).unwrap().as_str(), expected1);
        assert_eq!(captures.get(2).unwrap().as_str(), expected2);
    }
}

#[test]
fn test_division() {
    let table = Patterns::new().unwrap();
    let valid_cases = vec![
        // basic case
        ("4/2", "4", "2"),
        // with decimals and whitespace
        (" 1.5 / 0.5 ", "1.5", "0.5"),
        // with signed numbers
        ("-4 / +2", "-4", "+2"),
        // picks first match
        ("-2 / 3 / 7", "-2", "3"),
        // with scientific notation
        ("1.2e-3 / 3.4e+5", "1.2e-3", "3.4e+5"),
    ];

    for (expr, expected1, expected2) in valid_cases {
        let captures = table.get(Operator::Division).captures(expr).unwrap();
        assert_eq!(captures.get(1).unwrap().as_str(), expected1);
        assert_eq!(captures.get(2).unwrap().as_str(), expected2);
    }
}

#[test]
fn test_multiplication() {
    let table = Patterns::new().unwrap();
    let valid_cases = vec![
        // basic case
        ("2*3", "2", "3"),
        // with decimals and whitespace
        (" 1.5 * 2.5 ", "1.5", "2.5"),
        // with signed numbers
        ("-2 * +3", "-2", "+3"),
        // picks first match
        ("-2 * 3 * 7", "-2", "3"),
        // with scientific notation
        ("1.2e-3 * 3.4e+5", "1.2e-3", "3.4e+5"),
    ];

    for (expr, expected1, expected2) in valid_cases {
        let captures = table.get(Operator::Multiplication).captures(expr).unwrap();
        assert_eq!(captures.get(1).unwrap().as_str(), expected1);
        assert_eq!(captures.get(2).unwrap().as_str(), expected2);
    }
}

#[test]
fn test_subtraction() {
    let table = Patterns::new().unwrap();
    let valid_cases = vec![
        // basic case
        ("5-3", "5", "3"),
        // with decimals and whitespace
        (" 1.5 - 2.5 ", "1.5", "2.5"),
        // with signed numbers
        ("-2 - +3", "-2", "+3"),
        // picks first match
        ("-2 - 3 - 7", "-2", "3"),
        // with scientific notation
        ("1.2e-3 - 3.4e+5", "1.2e-3", "3.4e+5"),
    ];

    for (expr, expected1, expected2) in valid_cases {
        let captures = table.get(Operator::Subtraction).captures(expr).unwrap();
        assert_eq!(captures.get(1).unwrap().as_str(), expected1);
        assert_eq!(captures.get(2).unwrap().as_str(), expected2);
    }
}

#[test]
fn test_addition() {
    let table = Patterns::new().unwrap();
    let valid_cases = vec![
        // basic case
        ("2+3", "2", "3"),
        // with decimals and whitespace
        (" 1.5 + 2.5 ", "1.5", "2.5"),
        // with signed numbers
        ("-2 + +3", "-2", "+3"),
        // picks first match
        ("-2 + 3 + 7", "-2", "3"),
        // with scientific notation
        ("1.2e-3 + 3.4e+5", "1.2e-3", "3.4e+5"),
    ];

    for (expr, expected1, expected2) in valid_cases {
        let captures = table.get(Operator::Addition).captures(expr).unwrap();
        assert_eq!(captures.get(1).unwrap().as_str(), expected1);
        assert_eq!(captures.get(2).unwrap().as_str(), expected2);
    }
}

#[test]
fn table_holds_the_pattern_text_of_each_operator() {
    let table = Patterns::new().unwrap();
    assert_eq!(table.get(Operator::Parenthesis).as_str(), PARENTHESIS);
    let cases = vec![
        (Operator::Exponential, r"\^"),
        (Operator::Division, r"\/"),
        (Operator::Multiplication, r"\*"),
        (Operator::Subtraction, r"-"),
        (Operator::Addition, r"\+"),
    ];
    for (operator, symbol) in cases {
        let expected = format!(r"\s*({NUMERIC_VALUE})\s*{symbol}\s*({NUMERIC_VALUE})\s*");
        assert_eq!(table.get(operator).as_str(), expected);
    }
}

#[test]
fn table_patterns_have_one_group_for_each_operand() {
    let table = Patterns::new().unwrap();
    assert_eq!(table.get(Operator::Parenthesis).static_captures_len(), Some(2));
    for operator in [
        Operator::Exponential,
        Operator::Division,
        Operator::Multiplication,
        Operator::Subtraction,
        Operator::Addition,
    ] {
        assert_eq!(operator.operands(), 2);
        assert_eq!(table.get(operator).static_captures_len(), Some(3));
    }
    assert_eq!(Operator::Parenthesis.operands(), 1);
}
