use static_files::{parse_range_header, RangeSpec};

#[test]
fn test_parse_single_forms() {
    assert_eq!(
        parse_range_header("bytes=10-100"),
        vec![RangeSpec::FromToInclusive(10, 100)]
    );
    assert_eq!(parse_range_header("bytes=10-"), vec![RangeSpec::FromTo(10)]);
    assert_eq!(
        parse_range_header("bytes=-100"),
        vec![RangeSpec::SuffixLength(100)]
    );
}

#[test]
fn test_parse_lists_and_spaces() {
    assert_eq!(
        parse_range_header("bytes=0-1,3-4"),
        vec![
            RangeSpec::FromToInclusive(0, 1),
            RangeSpec::FromToInclusive(3, 4)
        ]
    );
    assert_eq!(
        parse_range_header(" bytes=0 - 1 , -5 "),
        vec![RangeSpec::FromToInclusive(0, 1), RangeSpec::SuffixLength(5)]
    );
    assert_eq!(
        parse_range_header("bytes=1-2,"),
        vec![RangeSpec::FromToInclusive(1, 2)]
    );
    assert_eq!(
        parse_range_header("bytes=1-2,,3-"),
        vec![RangeSpec::FromToInclusive(1, 2), RangeSpec::FromTo(3)]
    );
}

#[test]
fn test_parse_invalid() {
    assert_eq!(parse_range_header("invalid input"), vec![]);
    assert_eq!(parse_range_header(""), vec![]);
    assert_eq!(parse_range_header("bytes="), vec![]);
    assert_eq!(parse_range_header("lines=1-2"), vec![]);
    assert_eq!(parse_range_header("bytes=1-2 3-4"), vec![]);
    assert_eq!(parse_range_header("bytes=1-2x"), vec![]);
    // a backwards pair is read but names nothing
    assert_eq!(parse_range_header("bytes=20-10"), vec![]);
    // a numeral too large for u64 spoils the whole header
    assert_eq!(parse_range_header("bytes=99999999999999999999999-"), vec![]);
}
