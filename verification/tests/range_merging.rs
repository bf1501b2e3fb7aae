//! Range-text parsing and interval merging.

use epifetch::ranges::{
    merge_ranges, parse_ranges, Range, RangeParseError, SimpleRanges, MAX_RANGE_VALUE,
};

fn rg(start: u32, end: u32) -> Range {
    Range { start, end }
}

fn parsed(input: &str) -> Vec<Range> {
    match parse_ranges(input) {
        Ok(SimpleRanges::Custom(v)) => v,
        other => panic!("expected a custom selector, got {:?}", other),
    }
}

#[test]
fn keywords_are_case_insensitive() {
    assert!(matches!(parse_ranges("unspecified"), Ok(SimpleRanges::Unspecified)));
    assert!(matches!(parse_ranges("UnSpecified"), Ok(SimpleRanges::Unspecified)));
    assert!(matches!(parse_ranges("all"), Ok(SimpleRanges::All)));
    assert!(matches!(parse_ranges("ALL"), Ok(SimpleRanges::All)));
}

#[test]
fn overlapping_and_touching_ranges_merge_to_one() {
    // 1-3 and 2-4 overlap, and 5 touches the merged 1-4.
    assert_eq!(parsed("1-3,5,2-4"), vec![rg(1, 5)]);
}

#[test]
fn disjoint_ranges_stay_apart_and_sort() {
    assert_eq!(parsed("7,1-2,4"), vec![rg(1, 2), rg(4, 4), rg(7, 7)]);
}

#[test]
fn spaces_are_ignored() {
    assert_eq!(parsed(" 1 - 3 , 5 "), vec![rg(1, 3), rg(5, 5)]);
}

#[test]
fn adjacent_ranges_fuse() {
    assert_eq!(parsed("1-2,3-4"), vec![rg(1, 4)]);
}

#[test]
fn single_numbers_parse_as_unit_ranges() {
    assert_eq!(parsed("9"), vec![rg(9, 9)]);
}

#[test]
fn largest_accepted_value_parses() {
    let top = MAX_RANGE_VALUE;
    assert_eq!(parsed(&format!("{top}")), vec![rg(top, top)]);
}

#[test]
fn value_at_representable_maximum_is_rejected() {
    let over = u32::MAX;
    assert_eq!(
        parse_ranges(&format!("{over}")),
        Err(RangeParseError::BadInteger { token: format!("{over}") })
    );
}

#[test]
fn non_integer_token_is_reported() {
    assert_eq!(parse_ranges("1,x,3"), Err(RangeParseError::BadInteger { token: "x".to_string() }));
}

#[test]
fn bad_range_start_is_reported() {
    assert_eq!(
        parse_ranges("a-3"),
        Err(RangeParseError::BadRangeStart { number: "a".to_string(), token: "a-3".to_string() })
    );
}

#[test]
fn bad_range_end_is_reported() {
    assert_eq!(
        parse_ranges("1-b"),
        Err(RangeParseError::BadRangeEnd { number: "b".to_string(), token: "1-b".to_string() })
    );
}

#[test]
fn reversed_range_is_reported() {
    assert_eq!(
        parse_ranges("5-2"),
        Err(RangeParseError::StartAfterEnd { token: "5-2".to_string() })
    );
}

#[test]
fn parsing_stops_at_first_bad_token() {
    // Both the second and third tokens are malformed; the second wins.
    assert_eq!(
        parse_ranges("1,9-8,z"),
        Err(RangeParseError::StartAfterEnd { token: "9-8".to_string() })
    );
}

#[test]
fn only_plain_spaces_are_stripped() {
    // A tab is not removed, so the token is no longer a plain integer.
    assert_eq!(
        parse_ranges("1\t2"),
        Err(RangeParseError::BadInteger { token: "1\t2".to_string() })
    );
}

#[test]
fn empty_input_is_not_a_number() {
    assert_eq!(parse_ranges(""), Err(RangeParseError::BadInteger { token: "".to_string() }));
}

#[test]
fn error_messages_name_the_offending_text() {
    assert_eq!(
        parse_ranges("1,x").unwrap_err().message(),
        "failed to parse \"x\" as integer"
    );
    assert_eq!(
        parse_ranges("a-3").unwrap_err().message(),
        "failed to parse \"a\" as integer in range \"a-3\""
    );
    assert_eq!(
        parse_ranges("1-b").unwrap_err().message(),
        "failed to parse \"b\" as integer in range \"1-b\""
    );
    assert_eq!(
        parse_ranges("5-2").unwrap_err().message(),
        "range start cannot be bigger than range end: \"5-2\""
    );
}

#[test]
fn merging_is_idempotent_on_samples() {
    let samples: Vec<Vec<Range>> = vec![
        vec![],
        vec![rg(1, 3), rg(2, 4), rg(9, 9)],
        vec![rg(5, 5), rg(1, 1), rg(3, 3), rg(2, 2)],
        vec![rg(0, 10), rg(4, 6)],
    ];
    for input in samples {
        let once = merge_ranges(&input);
        let twice = merge_ranges(&once);
        assert_eq!(once, twice);
    }
}

#[test]
fn merged_output_has_strict_gaps() {
    let input = vec![rg(1, 3), rg(5, 7), rg(4, 4), rg(20, 21), rg(9, 9)];
    let out = merge_ranges(&input);
    assert_eq!(out, vec![rg(1, 7), rg(9, 9), rg(20, 21)]);
    for pair in out.windows(2) {
        assert!(pair[0].end + 1 < pair[1].start);
    }
}

#[test]
fn empty_input_merges_to_empty() {
    assert_eq!(merge_ranges(&vec![]), vec![]);
}

#[test]
fn selector_labels() {
    assert_eq!(SimpleRanges::Unspecified.label(), "Unspecified");
    assert_eq!(SimpleRanges::All.label(), "All");
    assert_eq!(SimpleRanges::Custom(vec![rg(1, 2)]).label(), "Custom");
}
