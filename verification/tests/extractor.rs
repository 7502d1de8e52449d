use calculator::{extract_regex_captures, try_extract_regex_captures};
use regex::Regex;

#[test]
fn test_basic_extraction() {
    let pattern = Regex::new(r"(\w+):(\d+)").unwrap();
    let input = "test:123";

    let result = extract_regex_captures::<2>(input, &pattern);
    assert!(result.is_some());

    let (start, end, captures) = result.unwrap();
    assert_eq!(start, 0);
    assert_eq!(end, 8);
    assert_eq!(captures, ["test", "123"]);
}

#[test]
fn test_multiple_matches_takes_first() {
    let pattern = Regex::new(r"(\w+):(\d+)").unwrap();
    let input = "prefix test:123 other:456 suffix";

    let result = extract_regex_captures::<2>(input, &pattern);
    assert!(result.is_some());

    let (start, end, captures) = result.unwrap();
    assert_eq!(start, 7);
    assert_eq!(end, 15);
    assert_eq!(captures, ["test", "123"]);
}

#[test]
fn test_no_match() {
    let pattern = Regex::new(r"(\w+):(\d+)").unwrap();
    let input = "no match here";

    let result = extract_regex_captures::<2>(input, &pattern);
    assert_eq!(result, None);
}

#[test]
fn test_large_input_performance() {
    let pattern = Regex::new(r"(\w+):(\d+)").unwrap();
    let large_input = "prefix ".repeat(1000000) + "test:123";

    let result = extract_regex_captures::<2>(&large_input, &pattern);
    assert!(result.is_some());

    let (_, _, captures) = result.unwrap();
    assert_eq!(captures, ["test", "123"]);
}

#[test]
fn test_empty_input() {
    let pattern = Regex::new(r"(\w+):(\d+)").unwrap();
    let input = "";

    let result = extract_regex_captures::<2>(input, &pattern);
    assert!(result.is_none());
}

#[test]
fn extraction_skips_groups_that_took_no_part() {
    let pattern = Regex::new(r"(a)(b)|(c)(d)").unwrap();
    let (start, end, captures) = extract_regex_captures::<2>("xxcd", &pattern).unwrap();
    assert_eq!((start, end), (2, 4));
    assert_eq!(captures, ["c", "d"]);
}

#[test]
fn extraction_counts_bytes_not_characters() {
    let pattern = Regex::new(r"(\d+)\+(\d+)").unwrap();
    let (start, end, captures) = extract_regex_captures::<2>("é 12+345 ü", &pattern).unwrap();
    assert_eq!((start, end), (3, 9));
    assert_eq!(captures, ["12", "345"]);
}

#[test]
fn extraction_of_a_single_group() {
    let pattern = Regex::new(r"\[([^\]]*)\]").unwrap();
    let (start, end, captures) = extract_regex_captures::<1>("a [bc] [d]", &pattern).unwrap();
    assert_eq!((start, end), (2, 6));
    assert_eq!(captures, ["bc"]);
}

#[test]
fn a_pattern_with_another_number_of_groups_is_not_searched() {
    let pattern = Regex::new(r"(\w+):(\d+)").unwrap();
    assert_eq!(try_extract_regex_captures::<3>("test:123", &pattern), None);
    assert_eq!(try_extract_regex_captures::<1>("test:123", &pattern), None);
    assert_eq!(
        try_extract_regex_captures::<2>("test:123", &pattern),
        Some(Some((0, 8, ["test", "123"])))
    );
    assert_eq!(try_extract_regex_captures::<2>("nothing", &pattern), Some(None));
}

#[test]
fn a_pattern_whose_groups_vary_is_not_searched() {
    let pattern = Regex::new(r"(a)|b").unwrap();
    assert_eq!(try_extract_regex_captures::<1>("a", &pattern), None);
    assert_eq!(try_extract_regex_captures::<0>("b", &pattern), None);
}

#[test]
fn a_pattern_without_groups_gives_the_span_alone() {
    let pattern = Regex::new(r"\d+").unwrap();
    let expected: [&str; 0] = [];
    assert_eq!(
        try_extract_regex_captures::<0>("ab 12 cd 34", &pattern),
        Some(Some((3, 5, expected)))
    );
}

#[test]
fn groups_inside_a_repetition_give_the_first_that_took_part() {
    let pattern = Regex::new(r"(?:(a)|(b))+").unwrap();
    assert_eq!(pattern.static_captures_len(), Some(2));
    assert_eq!(
        try_extract_regex_captures::<1>("ab", &pattern),
        Some(Some((0, 2, ["a"])))
    );
    assert_eq!(
        extract_regex_captures::<1>("ab", &pattern),
        Some((0, 2, ["a"]))
    );
    assert_eq!(
        extract_regex_captures::<1>("aa", &pattern),
        Some((0, 2, ["a"]))
    );
    assert_eq!(
        extract_regex_captures::<1>("xbbx", &pattern),
        Some((1, 3, ["b"]))
    );
    assert_eq!(try_extract_regex_captures::<2>("ab", &pattern), None);
}

#[test]
fn extraction_agrees_with_the_engine_on_groups_inside_a_repetition() {
    let pattern = Regex::new(r"(?:(a)|(b))+").unwrap();
    for input in ["ab", "ba", "aa", "bb", "abab", "xxbaxx", "b"] {
        let (whole, expected) = pattern.captures(input).unwrap().extract::<1>();
        let (start, end, captures) = extract_regex_captures::<1>(input, &pattern).unwrap();
        assert_eq!(&input[start..end], whole, "input {input}");
        assert_eq!(captures, expected, "input {input}");
    }
}

#[test]
fn every_group_is_a_part_of_the_match() {
    let cases = [
        (r"(\w+):(\d+)", "prefix test:123 other:456 suffix"),
        (r"\s*\(([^()]+)\)\s*", "2 * ( 3 + 4 ) - 1"),
        (r"(a*)(b*)", "xaabbx"),
        (r"(?:(a)|(b))+", "xxabbaxx"),
    ];
    for (source, input) in cases {
        let pattern = Regex::new(source).unwrap();
        let found = pattern.captures(input).unwrap();
        let whole = found.get(0).unwrap();
        for group in found.iter().flatten() {
            assert!(whole.start() <= group.start(), "pattern {source}");
            assert!(group.start() <= group.end(), "pattern {source}");
            assert!(group.end() <= whole.end(), "pattern {source}");
        }
    }
    let pattern = Regex::new(r"(\w+):(\d+)").unwrap();
    let input = "prefix test:123 other:456 suffix";
    let (start, end, captures) = extract_regex_captures::<2>(input, &pattern).unwrap();
    for capture in captures {
        assert!(input[start..end].contains(capture));
    }
}
