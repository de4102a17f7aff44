use static_files::{
    make_etag, str_eq, token_match, u64_to_dec_string, u64_to_hex_string, ContentDisposition,
    DispositionType, NoSuchDirectory,
};

#[test]
fn test_dec_string() {
    assert_eq!(u64_to_dec_string(0), "0");
    assert_eq!(u64_to_dec_string(7), "7");
    assert_eq!(u64_to_dec_string(1234567890), "1234567890");
    assert_eq!(
        u64_to_dec_string(u64::max_value()),
        "18446744073709551615"
    );
}

#[test]
fn test_hex_string() {
    assert_eq!(u64_to_hex_string(0), "0");
    assert_eq!(u64_to_hex_string(26), "1a");
    assert_eq!(u64_to_hex_string(0xdeadbeef), "deadbeef");
}

#[test]
fn test_make_etag() {
    assert_eq!(make_etag(26, 10), "1a-a");
    assert_eq!(make_etag(0, 0), "0-0");
}

#[test]
fn test_str_eq() {
    assert!(str_eq("abc", "abc"));
    assert!(!str_eq("abc", "abd"));
    assert!(!str_eq("abc", "abcd"));
    assert!(str_eq("", ""));
}

#[test]
fn test_token_match() {
    assert!(token_match("wrong, correct ", "correct"));
    assert!(token_match("correct", "correct"));
    assert!(token_match("\tcorrect , other", "correct"));
    assert!(!token_match("wrong", "correct"));
    assert!(!token_match("corr,ect", "correct"));
    assert!(!token_match("", "correct"));
    assert!(token_match("", ""));
}

#[test]
fn test_disposition() {
    assert_eq!(DispositionType::from_mime_top("image"), DispositionType::Inline);
    assert_eq!(DispositionType::from_mime_top("text"), DispositionType::Inline);
    assert_eq!(DispositionType::from_mime_top("video"), DispositionType::Inline);
    assert_eq!(
        DispositionType::from_mime_top("application"),
        DispositionType::Attachment
    );
    assert_eq!(DispositionType::Inline.text(), "inline");
    assert_eq!(DispositionType::Attachment.text(), "attachment");

    let plain = ContentDisposition {
        ty: DispositionType::Attachment,
        filename: None,
    };
    assert_eq!(plain.header_value(), "attachment");

    let named = ContentDisposition {
        ty: DispositionType::Inline,
        filename: Some("foo bar.txt".to_owned()),
    };
    let expected = format!(
        "inline; filename*=\"{}\"",
        percent_encoding::utf8_percent_encode("foo bar.txt", percent_encoding::NON_ALPHANUMERIC)
    );
    assert_eq!(named.header_value(), expected);
    // the encoder really transforms the name: no verbatim "foo bar" left
    assert!(!named.header_value().contains("foo bar"));
}

#[test]
fn test_no_such_directory_message() {
    let e = NoSuchDirectory("/tmp/missing".to_owned());
    assert_eq!(e.message(), "no such directory found: /tmp/missing");
}
