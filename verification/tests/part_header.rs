use static_files::{ByteRange, PartHeader, BOUNDARY, HEADER_SIZE_CONSTANT};

#[test]
fn test_part_header_size_constant() {
    let expected = "\r\n".len()
        + "--".len()
        + BOUNDARY.len()
        + "\r\n".len()
        + http::header::CONTENT_TYPE.as_str().len()
        + ": ".len()
        + "\r\n".len()
        + http::header::CONTENT_RANGE.as_str().len()
        + ": ".len()
        + "bytes ".len()
        + "-".len()
        + "/".len()
        + "\r\n".len()
        + "\r\n".len();

    assert_eq!(HEADER_SIZE_CONSTANT, expected)
}

#[test]
fn test_part_header_size() {
    let test_case = [
        (
            mime::TEXT_PLAIN_UTF_8.as_ref(),
            ByteRange {
                start: 2u64,
                end: 100u64,
            },
            1000,
        ),
        (
            mime::CSS.as_ref(),
            ByteRange {
                start: 0u64,
                end: 100u64,
            },
            111,
        ),
    ];
    for i in &test_case {
        let header = PartHeader::new(i.1, i.0, i.2);
        let written = header.write();
        assert_eq!(header.size(), written.len());
    }
}

#[test]
fn test_part_header_text() {
    let header = PartHeader::new(ByteRange { start: 5, end: 10 }, "text/plain", 10);
    assert_eq!(
        header.write(),
        "\r\n--DCjanus\r\ncontent-type: text/plain\r\ncontent-range: bytes 5-9/10\r\n\r\n"
    );
}
