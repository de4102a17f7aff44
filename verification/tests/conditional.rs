use static_files::StaticFiles;
use std::ops::Add;
use std::time::{Duration, UNIX_EPOCH};

#[test]
fn test_should_cache() {
    let before_secs: u64 = 0;
    let before_text = &httpdate::fmt_http_date(UNIX_EPOCH);

    let little_diff = UNIX_EPOCH.add(Duration::from_millis(1));
    let little_text = &httpdate::fmt_http_date(little_diff);

    let after_secs: u64 = 10;
    let after_text = &httpdate::fmt_http_date(UNIX_EPOCH.add(Duration::from_secs(10)));

    assert_eq!(
        true,
        StaticFiles::should_cache(Some(before_text.to_owned()), None, before_secs, "correct",)
    );
    assert_eq!(
        true,
        StaticFiles::should_cache(Some(little_text.to_owned()), None, before_secs, "correct",)
    );
    assert_eq!(
        false,
        StaticFiles::should_cache(Some(after_text.to_owned()), None, before_secs, "correct")
    );
    assert_eq!(
        false,
        StaticFiles::should_cache(Some(before_text.to_owned()), None, after_secs, "correct")
    );
    assert_eq!(
        false,
        StaticFiles::should_cache(
            Some(after_text.to_owned()),
            Some("wrong".to_owned()),
            after_secs,
            "correct",
        )
    );
    assert_eq!(
        true,
        StaticFiles::should_cache(
            Some(after_text.to_owned()),
            Some("wrong, correct ".to_owned()),
            after_secs,
            "correct",
        )
    );
    assert_eq!(
        false,
        StaticFiles::should_cache(None, Some("wrong".to_owned()), after_secs, "correct")
    );
    assert_eq!(
        true,
        StaticFiles::should_cache(
            Some(little_text.to_owned()),
            Some("correct".to_owned()),
            after_secs,
            "correct",
        )
    );
}

#[test]
fn test_precondition_failed() {
    let before_secs: u64 = 0;
    let before_text = &httpdate::fmt_http_date(UNIX_EPOCH);

    let little_diff = UNIX_EPOCH.add(Duration::from_millis(1));
    let little_text = &httpdate::fmt_http_date(little_diff);

    let after_secs: u64 = 10;
    let after_text = &httpdate::fmt_http_date(UNIX_EPOCH.add(Duration::from_secs(10)));

    assert_eq!(
        false,
        StaticFiles::precondition_failed(
            None,
            Some(before_text.to_owned()),
            before_secs,
            "correct",
        )
    );
    assert_eq!(
        false,
        StaticFiles::precondition_failed(
            None,
            Some(little_text.to_owned()),
            before_secs,
            "correct",
        )
    );
    assert_eq!(
        false,
        StaticFiles::precondition_failed(
            None,
            Some(before_text.to_owned()),
            before_secs,
            "correct",
        )
    );
    assert_eq!(
        true,
        StaticFiles::precondition_failed(
            None,
            Some(after_text.to_owned()),
            before_secs,
            "correct",
        )
    );
    assert_eq!(
        true,
        StaticFiles::precondition_failed(
            None,
            Some(before_text.to_owned()),
            after_secs,
            "correct",
        )
    );
    assert_eq!(
        false,
        StaticFiles::precondition_failed(
            Some("correct".to_owned()),
            Some(before_text.to_owned()),
            after_secs,
            "correct",
        )
    );
    assert_eq!(
        false,
        StaticFiles::precondition_failed(
            Some("correct, wrong".to_owned()),
            Some(before_text.to_owned()),
            after_secs,
            "correct",
        )
    );
    assert_eq!(
        true,
        StaticFiles::precondition_failed(
            Some("wrong".to_owned()),
            Some(before_text.to_owned()),
            after_secs,
            "correct",
        )
    );
}

#[test]
fn test_should_range() {
    let before_secs: u64 = 0;
    let before_text = &httpdate::fmt_http_date(UNIX_EPOCH);

    let little_diff = UNIX_EPOCH.add(Duration::from_millis(1));
    let little_text = &httpdate::fmt_http_date(little_diff);

    let after_secs: u64 = 10;
    let after_text = &httpdate::fmt_http_date(UNIX_EPOCH.add(Duration::from_secs(10)));

    assert_eq!(
        true,
        StaticFiles::should_range(Some(before_text.to_owned()), "correct", before_secs)
    );
    assert_eq!(
        true,
        StaticFiles::should_range(Some(little_text.to_owned()), "correct", before_secs)
    );
    assert_eq!(
        false,
        StaticFiles::should_range(Some(before_text.to_owned()), "correct", after_secs)
    );
    assert_eq!(
        false,
        StaticFiles::should_range(Some(after_text.to_owned()), "correct", before_secs)
    );
    assert_eq!(
        true,
        StaticFiles::should_range(Some("correct".to_owned()), "correct", before_secs),
    );
    assert_eq!(
        false,
        StaticFiles::should_range(Some("wrong".to_owned()), "correct", before_secs),
    );
    // an `If-Range` validator must equal the ETag verbatim: a list of
    // tokens is not accepted
    assert_eq!(
        false,
        StaticFiles::should_range(Some("wrong, correct ".to_owned()), "correct", before_secs,),
    );
}

#[test]
fn test_http_date_parsing_through_evaluator() {
    // the date really is parsed: a fixed date names a fixed timestamp
    assert_eq!(
        true,
        StaticFiles::should_cache(
            Some("Sun, 06 Nov 1994 08:49:37 GMT".to_owned()),
            None,
            784111777,
            "etag",
        )
    );
    assert_eq!(
        false,
        StaticFiles::should_cache(
            Some("Sun, 06 Nov 1994 08:49:37 GMT".to_owned()),
            None,
            784111778,
            "etag",
        )
    );
    assert_eq!(
        false,
        StaticFiles::should_cache(Some("not a date".to_owned()), None, 0, "etag")
    );
}
