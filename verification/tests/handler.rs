use static_files::{
    content_length_checked, ByteRange, ErrorResponse, MultiRangeReader, ReadResult, RequestHeaders,
    ResourceMetadata, Response, ResponseBody, Scheduler, SingleRangeReader, StaticFiles,
    StreamOutput,
};

fn no_headers() -> RequestHeaders {
    RequestHeaders {
        range: None,
        if_range: None,
        if_modified_since: None,
        if_none_match: None,
        if_match: None,
        if_unmodified_since: None,
    }
}

fn header_value<'a>(resp: &'a Response, name: &str) -> &'a str {
    for (n, v) in resp.headers.iter() {
        if *n == name {
            return v.as_str();
        }
    }
    panic!("header {} not found", name);
}

fn run_worker_once(sched: &mut Scheduler, file: &[u8]) {
    let picked = sched.worker_pickup().expect("pending without queued work");
    let off = picked.offset as usize;
    let want = picked.buffer.len().min(file.len().saturating_sub(off));
    let data = file[off..off + want].to_vec();
    sched.worker_complete(
        &picked.task,
        ReadResult::ReadOk {
            handle: picked.handle,
            data,
        },
        picked.waker,
    );
}

fn drive_single(reader: &mut SingleRangeReader, file: &[u8]) -> Vec<u8> {
    let mut sched = Scheduler::new(1024);
    let mut out = Vec::new();
    loop {
        match reader.poll_next(&mut sched, 0) {
            StreamOutput::Pending => run_worker_once(&mut sched, file),
            StreamOutput::Item { data } => out.extend(data),
            StreamOutput::Error { kind } => panic!("stream error {}", kind),
            StreamOutput::Complete { .. } => return out,
        }
    }
}

fn drive_multi(reader: &mut MultiRangeReader, file: &[u8]) -> Vec<u8> {
    let mut sched = Scheduler::new(1024);
    let mut out = Vec::new();
    loop {
        match reader.poll_next(&mut sched, 0) {
            StreamOutput::Pending => run_worker_once(&mut sched, file),
            StreamOutput::Item { data } => out.extend(data),
            StreamOutput::Error { kind } => panic!("stream error {}", kind),
            StreamOutput::Complete { .. } => return out,
        }
    }
}

fn meta_for(file: &[u8]) -> ResourceMetadata {
    ResourceMetadata::new(1, file.len() as u64, 0, "text/plain".to_owned()).unwrap()
}

#[test]
fn test_single_range_end_to_end() {
    let file = b"0123456789";
    let mut req = no_headers();
    req.range = Some("bytes=5-".to_owned());
    let resp = StaticFiles::run(Ok(meta_for(file)), req);
    assert_eq!(resp.status, 206);
    assert_eq!(header_value(&resp, "content-range"), "bytes 5-9/10");
    assert_eq!(header_value(&resp, "content-length"), "5");
    match resp.body {
        ResponseBody::Single(mut reader) => {
            assert_eq!(drive_single(&mut reader, file), b"56789".to_vec());
        }
        _ => panic!("expected a single-range body"),
    }
}

#[test]
fn test_multi_range_end_to_end() {
    let file = b"0123456789";
    let mut req = no_headers();
    req.range = Some("bytes=0-1,3-4".to_owned());
    let resp = StaticFiles::run(Ok(meta_for(file)), req);
    assert_eq!(resp.status, 206);
    assert_eq!(
        header_value(&resp, "content-type"),
        "multipart/byteranges; boundary=DCjanus"
    );
    let announced: usize = header_value(&resp, "content-length").parse().unwrap();
    match resp.body {
        ResponseBody::Multi(mut reader) => {
            let body = drive_multi(&mut reader, file);
            assert_eq!(body.len(), announced);
            let expected = format!(
                "\r\n--DCjanus\r\ncontent-type: {m}\r\ncontent-range: bytes 0-1/10\r\n\r\n01\
                 \r\n--DCjanus\r\ncontent-type: {m}\r\ncontent-range: bytes 3-4/10\r\n\r\n34\
                 \r\n--DCjanus--\r\n",
                m = "text/plain"
            );
            assert_eq!(body, expected.into_bytes());
        }
        _ => panic!("expected a multipart body"),
    }
}

#[test]
fn test_not_modified_end_to_end() {
    let file = b"0123456789";
    let meta = meta_for(file);
    let mut req = no_headers();
    req.if_none_match = Some(meta.etag.clone());
    let resp = StaticFiles::run(Ok(meta), req);
    assert_eq!(resp.status, 304);
    assert!(matches!(resp.body, ResponseBody::Empty));
    assert_eq!(header_value(&resp, "accept-ranges"), "bytes");
}

#[test]
fn test_whole_file_response() {
    let file = b"0123456789";
    let resp = StaticFiles::run(Ok(meta_for(file)), no_headers());
    assert_eq!(resp.status, 200);
    assert_eq!(header_value(&resp, "content-length"), "10");
    assert_eq!(header_value(&resp, "content-type"), "text/plain");
    assert_eq!(
        header_value(&resp, "last-modified"),
        httpdate::fmt_http_date(std::time::UNIX_EPOCH)
    );
    assert_eq!(header_value(&resp, "etag"), "0-a");
    match resp.body {
        ResponseBody::Single(mut reader) => {
            assert_eq!(drive_single(&mut reader, file), file.to_vec());
        }
        _ => panic!("expected a single-range body"),
    }
}

#[test]
fn test_empty_file_serves_empty_body() {
    let resp = StaticFiles::run(Ok(meta_for(b"")), no_headers());
    assert_eq!(resp.status, 200);
    assert_eq!(header_value(&resp, "content-length"), "0");
    assert!(matches!(resp.body, ResponseBody::Empty));
}

#[test]
fn test_range_ignored_when_if_range_does_not_match() {
    let file = b"0123456789";
    let mut req = no_headers();
    req.range = Some("bytes=5-".to_owned());
    req.if_range = Some("some-other-validator".to_owned());
    let resp = StaticFiles::run(Ok(meta_for(file)), req);
    assert_eq!(resp.status, 200);
}

#[test]
fn test_range_honoured_when_if_range_matches() {
    let file = b"0123456789";
    let meta = meta_for(file);
    let mut req = no_headers();
    req.range = Some("bytes=5-".to_owned());
    req.if_range = Some(meta.etag.clone());
    let resp = StaticFiles::run(Ok(meta), req);
    assert_eq!(resp.status, 206);
}

#[test]
fn test_bad_range_header() {
    let mut req = no_headers();
    req.range = Some("lines=1-2".to_owned());
    let resp = StaticFiles::run(Ok(meta_for(b"0123456789")), req);
    assert_eq!(resp.status, 400);
    match resp.body {
        ResponseBody::Text(t) => assert_eq!(t, "failed to parse request header: Range"),
        _ => panic!("expected a diagnostic body"),
    }
}

#[test]
fn test_unsatisfiable_range() {
    let mut req = no_headers();
    req.range = Some("bytes=400-".to_owned());
    let resp = StaticFiles::run(
        Ok(ResourceMetadata::new(1, 200, 0, "text/plain".to_owned()).unwrap()),
        req,
    );
    assert_eq!(resp.status, 416);
    assert_eq!(header_value(&resp, "content-range"), "bytes */200");
    match resp.body {
        ResponseBody::Text(t) => assert_eq!(t, "requested range not satisfiable"),
        _ => panic!("expected a diagnostic body"),
    }
}

#[test]
fn test_precondition_failed_response() {
    let mut req = no_headers();
    req.if_match = Some("wrong".to_owned());
    let resp = StaticFiles::run(Ok(meta_for(b"0123456789")), req);
    assert_eq!(resp.status, 412);
    match resp.body {
        ResponseBody::Text(t) => assert_eq!(t, "precondition failed"),
        _ => panic!("expected a diagnostic body"),
    }
}

#[test]
fn test_overlapping_ranges_are_merged() {
    let file = b"0123456789";
    let mut req = no_headers();
    req.range = Some("bytes=2-4,1-3".to_owned());
    let resp = StaticFiles::run(Ok(meta_for(file)), req);
    assert_eq!(resp.status, 206);
    assert_eq!(header_value(&resp, "content-range"), "bytes 1-4/10");
    match resp.body {
        ResponseBody::Single(mut reader) => {
            assert_eq!(drive_single(&mut reader, file), b"1234".to_vec());
        }
        _ => panic!("expected one merged single-range body"),
    }
}

#[test]
fn test_lookup_errors() {
    let resp = StaticFiles::run(Err(ErrorResponse::NotFound), no_headers());
    assert_eq!(resp.status, 404);
    match resp.body {
        ResponseBody::Text(t) => assert_eq!(t, "not found"),
        _ => panic!("expected a diagnostic body"),
    }
    let resp = StaticFiles::run(Err(ErrorResponse::Unexpected), no_headers());
    assert_eq!(resp.status, 500);
    match resp.body {
        ResponseBody::Text(t) => assert_eq!(t, "unexpected error occurred"),
        _ => panic!("expected a diagnostic body"),
    }
}

#[test]
fn test_content_length_exact() {
    let ranges = vec![
        ByteRange { start: 0, end: 2 },
        ByteRange { start: 3, end: 5 },
    ];
    assert_eq!(content_length_checked(&ranges, "text/plain", 10), Some(159));
}
