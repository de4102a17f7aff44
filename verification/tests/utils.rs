use static_files::{
    actual_range, buffer_size, merge_ranges, u64_width, ByteRange, RangeSpec, BOUNDARY,
    MAX_BUFFER_SIZE, MULTI_RANGE_CONTENT_TYPE,
};
use std::mem::size_of;

fn merge_worker(expect: Vec<(u64, u64)>, test_cases: Vec<(u64, u64)>) {
    let expect = expect
        .into_iter()
        .map(|(start, end)| ByteRange { start, end })
        .collect::<Vec<_>>();
    let test_cases = test_cases
        .into_iter()
        .map(|(start, end)| ByteRange { start, end })
        .collect::<Vec<_>>();
    assert_eq!(expect, merge_ranges(test_cases));
}

#[test]
fn test_merge_range() {
    merge_worker(vec![(1, 2), (4, 5)], vec![(1, 2), (3, 3), (4, 5)]);
    merge_worker(vec![], vec![]);
    merge_worker(vec![(1, 4)], vec![(1, 3), (2, 4)]);
    merge_worker(vec![(1, 4)], vec![(2, 4), (1, 3)]);
    merge_worker(vec![(1, 4)], vec![(2, 3), (1, 4)]);
    merge_worker(vec![(1, 4)], vec![(2, 3), (1, 4), (1, 1)]);
    merge_worker(vec![(0, 3)], vec![(2, 3), (0, 3), (1, 1)]);
}

#[test]
fn test_constraints() {
    assert!(size_of::<usize>() <= size_of::<u64>());
    assert!(size_of::<usize>() >= size_of::<u32>());
    assert_eq!(
        MULTI_RANGE_CONTENT_TYPE,
        format!("multipart/byteranges; boundary={}", BOUNDARY)
    );
}

#[test]
fn test_actual_range() {
    assert_eq!(
        Some(ByteRange {
            start: 100,
            end: 101,
        }),
        actual_range(RangeSpec::FromToInclusive(100, 100), 200)
    );
    assert_eq!(None, actual_range(RangeSpec::FromToInclusive(100, 100), 100));
    assert_eq!(None, actual_range(RangeSpec::FromToInclusive(10, 1), 100));

    assert_eq!(
        Some(ByteRange {
            start: 100,
            end: 200,
        }),
        actual_range(RangeSpec::FromToInclusive(100, 199), 200)
    );
    assert_eq!(
        Some(ByteRange {
            start: 100,
            end: 200,
        }),
        actual_range(RangeSpec::FromTo(100), 200)
    );
    assert_eq!(
        Some(ByteRange {
            start: 100,
            end: 200,
        }),
        actual_range(RangeSpec::SuffixLength(100), 200)
    );
}

#[test]
fn test_buffer_size() {
    assert_eq!(0, buffer_size(0, MAX_BUFFER_SIZE));
    assert_eq!(
        MAX_BUFFER_SIZE,
        buffer_size(MAX_BUFFER_SIZE as u64 + 1, MAX_BUFFER_SIZE)
    );
}

#[test]
fn test_width() {
    let test_case = [0, 9, 10, 99, 100, u64::max_value()];
    for &i in test_case.iter() {
        assert_eq!(i.to_string().len(), u64_width(i));
    }
}

#[test]
fn test_suffix_range_of_empty_file() {
    assert_eq!(
        Some(ByteRange { start: 0, end: 0 }),
        actual_range(RangeSpec::SuffixLength(5), 0)
    );
    assert_eq!(None, actual_range(RangeSpec::SuffixLength(0), 100));
}
