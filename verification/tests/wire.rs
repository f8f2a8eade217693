use swaytab::decimal::{i64_to_string, parse_decimal, parse_decimal_in, push_i64};
use swaytab::error::{ProtocolFault, TabError};
use swaytab::text::{is_space, trim_bounds};
use swaytab::wire::{candidate_line, candidate_lines, filter_result, parse_selection, FilterOutcome};

fn chars(s: &str) -> Vec<char> {
    s.chars().collect()
}

#[test]
fn line_of_one_candidate() {
    assert_eq!(candidate_line(42, "Firefox"), "42, 'Firefox'\n");
}

#[test]
fn line_keeps_quotes_in_the_name() {
    assert_eq!(candidate_line(-7, "it's, here"), "-7, 'it's, here'\n");
}

#[test]
fn lines_in_order() {
    let list = vec![(3, "Bar".to_string()), (2, "null".to_string()), (1, String::new())];
    assert_eq!(candidate_lines(&list), vec!["3, 'Bar'\n", "2, 'null'\n", "1, ''\n"]);
    assert!(candidate_lines(&Vec::new()).is_empty());
}

#[test]
fn chosen_line_is_decoded() {
    let lines = candidate_lines(&vec![(42, "Firefox".to_string())]);
    let (id, name) = parse_selection(&lines[0]).unwrap();
    assert_eq!(id, 42);
    assert_eq!(name, " 'Firefox'\n");
}

#[test]
fn round_trip_keeps_every_id() {
    for id in [0, 1, -1, 9, 10, 99, 100, 12345, -98765, i64::MAX, i64::MIN, i64::MIN + 1] {
        let line = candidate_line(id, "a, b");
        let (back, name) = parse_selection(&line).unwrap();
        assert_eq!(back, id);
        assert_eq!(name, " 'a, b'\n");
    }
}

#[test]
fn empty_output_is_an_empty_result() {
    assert!(matches!(parse_selection(""), Err(TabError::EmptyFilterResult)));
}

#[test]
fn id_that_is_no_integer_is_a_violation() {
    assert!(matches!(
        parse_selection("abc, 'x'"),
        Err(TabError::ProtocolViolation(ProtocolFault::InvalidId))
    ));
    assert!(matches!(
        parse_selection(", 'x'"),
        Err(TabError::ProtocolViolation(ProtocolFault::InvalidId))
    ));
    assert!(matches!(
        parse_selection("1 2,x"),
        Err(TabError::ProtocolViolation(ProtocolFault::InvalidId))
    ));
    assert!(matches!(
        parse_selection("9223372036854775808,x"),
        Err(TabError::ProtocolViolation(ProtocolFault::InvalidId))
    ));
}

#[test]
fn output_without_comma_is_a_violation() {
    assert!(matches!(
        parse_selection("42\n"),
        Err(TabError::ProtocolViolation(ProtocolFault::MissingSeparator))
    ));
    assert!(matches!(
        parse_selection("\n"),
        Err(TabError::ProtocolViolation(ProtocolFault::MissingSeparator))
    ));
}

#[test]
fn only_the_first_comma_parts() {
    let (id, name) = parse_selection("5,a,b,c").unwrap();
    assert_eq!(id, 5);
    assert_eq!(name, "a,b,c");
}

#[test]
fn id_is_trimmed_and_name_is_not() {
    let (id, name) = parse_selection(" \t12\u{a0} ,  spaced  \n").unwrap();
    assert_eq!(id, 12);
    assert_eq!(name, "  spaced  \n");
}

#[test]
fn name_may_be_empty_or_hold_other_scripts() {
    assert_eq!(parse_selection("8,").unwrap(), (8, String::new()));
    assert_eq!(parse_selection("8,\u{fc}ber \u{4e16}\u{754c}").unwrap(), (8, "\u{fc}ber \u{4e16}\u{754c}".to_string()));
}

#[test]
fn more_lines_stay_in_the_name() {
    let (id, name) = parse_selection("3, 'Bar'\n4, 'Baz'\n").unwrap();
    assert_eq!(id, 3);
    assert_eq!(name, " 'Bar'\n4, 'Baz'\n");
}

#[test]
fn outcome_of_the_run_decides() {
    match filter_result(FilterOutcome::SpawnFailed("not found".to_string())) {
        Err(TabError::FilterCommandFailed(detail)) => assert_eq!(detail, "not found"),
        other => panic!("unexpected: {:?}", other),
    }
    assert!(matches!(filter_result(FilterOutcome::WaitFailed), Err(TabError::EmptyFilterResult)));
    assert!(matches!(
        filter_result(FilterOutcome::Output(String::new())),
        Err(TabError::EmptyFilterResult)
    ));
    assert_eq!(
        filter_result(FilterOutcome::Output("42, 'Firefox'\n".to_string())).unwrap(),
        (42, " 'Firefox'\n".to_string())
    );
}

#[test]
fn numbers_are_written_in_decimal() {
    assert_eq!(i64_to_string(0), "0");
    assert_eq!(i64_to_string(7), "7");
    assert_eq!(i64_to_string(10), "10");
    assert_eq!(i64_to_string(-1), "-1");
    assert_eq!(i64_to_string(1234567890), "1234567890");
    assert_eq!(i64_to_string(i64::MAX), "9223372036854775807");
    assert_eq!(i64_to_string(i64::MIN), "-9223372036854775808");
}

#[test]
fn numbers_are_read_as_std_reads_them() {
    for text in [
        "0", "-0", "+0", "7", "+7", "-7", "007", "-007", "9223372036854775807",
        "-9223372036854775808", "9223372036854775808", "-9223372036854775809",
        "00000000000000000000000000000000000012", "", "+", "-", "--1", "+-1", "1-", "1 ", " 1",
        "1_000", "0x10", "1.0", "99999999999999999999999", "\u{661}",
    ] {
        assert_eq!(parse_decimal(&chars(text)), text.parse::<i64>().ok(), "{:?}", text);
    }
}

#[test]
fn white_space_is_what_std_calls_so() {
    for code in 0u32..0x3100 {
        if let Some(c) = char::from_u32(code) {
            assert_eq!(is_space(c), c.is_whitespace(), "{:x}", code);
        }
    }
}

#[test]
fn trimming_finds_the_bounds() {
    let text = chars("ab  \t12 3\n  cd");
    assert_eq!(trim_bounds(&text, 2, 12), (5, 9));
    assert_eq!(trim_bounds(&text, 2, 5), (5, 5));
    assert_eq!(trim_bounds(&text, 0, 14), (0, 14));
    assert_eq!(trim_bounds(&text, 3, 3), (3, 3));
}

#[test]
fn number_inside_a_text() {
    let text = chars("ab-120cd");
    assert_eq!(parse_decimal_in(&text, 2, 6), Some(-120));
    assert_eq!(parse_decimal_in(&text, 3, 5), Some(12));
    assert_eq!(parse_decimal_in(&text, 1, 6), None);
    assert_eq!(parse_decimal_in(&text, 4, 4), None);
    assert_eq!(parse_decimal_in(&text, 2, 3), None);
}

#[test]
fn number_is_appended() {
    let mut text = String::from("id=");
    push_i64(&mut text, -305);
    assert_eq!(text, "id=-305");
}

#[test]
fn every_offered_line_selects_its_id() {
    let list: Vec<(i64, String)> =
        (0..200).map(|i| (i * 7919 - 500_000, format!("window, {}", i))).collect();
    for (line, candidate) in candidate_lines(&list).iter().zip(list.iter()) {
        let (id, name) = parse_selection(line).unwrap();
        assert_eq!(id, candidate.0);
        assert_eq!(name, format!(" '{}'\n", candidate.1));
    }
}
