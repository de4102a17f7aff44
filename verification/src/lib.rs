//! Verified core of a static file server: byte-range resolution,
//! conditional-request evaluation, a poll-based read scheduler, and
//! single- and multi-range body streaming with exact byte accounting.

mod error;
mod file_read;
mod http_date;
mod multi_range;
mod numfmt;
mod range_parse;
mod response;
mod single_range;
mod strings;
mod utils;

pub use error::{spec_error_response, ErrorResponse, NoSuchDirectory};
pub use file_read::{
    FileReadStream, FileReadTask, PickedTask, ReadResult, Scheduler, StreamOutput, StreamState,
    TaskPoll, TaskState, KIND_EMPTY_READ, KIND_WOULD_BLOCK,
};
pub use http_date::{http_date_string, http_date_value, HTTP_DATE_MAX_SECS};
use http_date::{fmt_http_date_secs, parse_http_date_secs};
pub use multi_range::{
    content_length_checked, parts_len, MultiRangeReader, PartHeader, ToBeWritten,
    HEADER_SIZE_CONSTANT,
};
pub use numfmt::{
    dec_len, dec_str, hex_str, u64_to_dec_string, u64_to_hex_string, u64_width,
};
pub use range_parse::{parse_range_header, spec_parse_range_header};
pub use response::{header_views, Response, ResponseBody};
pub use single_range::SingleRangeReader;
pub use strings::{spec_token_match, str_eq, token_match};
pub use utils::{
    actual_range, buffer_size, covers, lemma_merged_unique, make_etag, merge_ranges, merged_wf,
    range_covers, spec_etag, spec_resolve_range, ByteRange, ContentDisposition, DispositionType,
    RangeSpec, BOUNDARY, MAX_BUFFER_SIZE, MULTI_RANGE_CONTENT_TYPE,
};

use vstd::prelude::*;
use vstd::string::*;
use vstd::utf8::is_ascii_chars;

verus! {

/// The view of an optional header value: the characters, when present.
pub open spec fn opt_view(o: Option<String>) -> Option<Seq<char>> {
    match o {
        Some(s) => Some(s@),
        None => None,
    }
}

/// Serves the files under one root directory.
pub struct StaticFiles {
    pub root: String,
}

/// Decision for HTTP 304 (Not Modified): an `If-None-Match` token equals
/// the ETag, or, without that header, `If-Modified-Since` names exactly the
/// resource's modification time.
pub open spec fn spec_should_cache(
    if_modified_since: Option<Seq<char>>,
    if_none_match: Option<Seq<char>>,
    last_modified: u64,
    etag: Seq<char>,
) -> bool {
    match if_none_match {
        Some(h) => spec_token_match(h, etag),
        None => match if_modified_since {
            Some(d) => http_date_value(d) == Some(last_modified),
            None => false,
        },
    }
}

/// Decision for HTTP 412 (Precondition Failed): no `If-Match` token equals
/// the ETag, or, without that header, `If-Unmodified-Since` parses as a
/// date other than the resource's modification time.
pub open spec fn spec_precondition_failed(
    if_match: Option<Seq<char>>,
    if_unmodified_since: Option<Seq<char>>,
    last_modified: u64,
    etag: Seq<char>,
) -> bool {
    match if_match {
        Some(h) => !spec_token_match(h, etag),
        None => match if_unmodified_since {
            Some(d) => match http_date_value(d) {
                Some(t) => t != last_modified,
                None => false,
            },
            None => false,
        },
    }
}

/// Decision for honouring a `Range` header: `If-Range` is present and
/// either equals the ETag verbatim or names exactly the resource's
/// modification time.
pub open spec fn spec_should_range(
    if_range: Option<Seq<char>>,
    etag: Seq<char>,
    last_modified: u64,
) -> bool {
    match if_range {
        None => false,
        Some(h) => h == etag || http_date_value(h) == Some(last_modified),
    }
}

impl StaticFiles {
    pub fn new(root: String) -> (r: StaticFiles)
        ensures
            r.root == root,
    {
        StaticFiles { root }
    }

    /// Whether range negotiation through `If-Range` succeeds.
    pub fn should_range(if_range: Option<String>, etag: &str, last_modify: u64) -> (r: bool)
        ensures
            r == spec_should_range(opt_view(if_range), etag@, last_modify),
    {
        match &if_range {
            None => false,
            Some(h) => {
                if str_eq(h.as_str(), etag) {
                    true
                } else {
                    match parse_http_date_secs(h.as_str()) {
                        Some(t) => t == last_modify,
                        None => false,
                    }
                }
            },
        }
    }

    /// Whether the request may be answered with HTTP 304 (Not Modified).
    pub fn should_cache(
        if_modified_since: Option<String>,
        if_none_match: Option<String>,
        last_modified: u64,
        etag: &str,
    ) -> (r: bool)
        ensures
            r == spec_should_cache(
                opt_view(if_modified_since),
                opt_view(if_none_match),
                last_modified,
                etag@,
            ),
    {
        match &if_none_match {
            Some(h) => token_match(h.as_str(), etag),
            None => match &if_modified_since {
                Some(d) => match parse_http_date_secs(d.as_str()) {
                    Some(t) => t == last_modified,
                    None => false,
                },
                None => false,
            },
        }
    }

    /// Whether the request must be answered with HTTP 412 (Precondition
    /// Failed).
    pub fn precondition_failed(
        if_match: Option<String>,
        if_unmodified_since: Option<String>,
        last_modified: u64,
        etag: &str,
    ) -> (r: bool)
        ensures
            r == spec_precondition_failed(
                opt_view(if_match),
                opt_view(if_unmodified_since),
                last_modified,
                etag@,
            ),
    {
        match &if_match {
            Some(h) => !token_match(h.as_str(), etag),
            None => match &if_unmodified_since {
                Some(d) => match parse_http_date_secs(d.as_str()) {
                    Some(t) => t != last_modified,
                    None => false,
                },
                None => false,
            },
        }
    }
}

/// Everything the core learns about the resource once, at the start of a
/// request: size, modification time in whole seconds, mime type, and the
/// ETag derived deterministically from time and size.
pub struct ResourceMetadata {
    pub handle: u64,
    pub size: u64,
    pub last_modified: u64,
    pub mime: String,
    pub etag: String,
}

impl ResourceMetadata {
    pub open spec fn wf(self) -> bool {
        &&& self.etag@ == spec_etag(self.last_modified, self.size)
        &&& is_ascii_chars(self.mime@)
        &&& self.mime@.len() + 160 <= usize::MAX
        &&& self.last_modified < HTTP_DATE_MAX_SECS
    }

    /// Derive the request-lifetime metadata from plain values, computing
    /// the ETag; refuses a non-ASCII or absurdly long mime type and a
    /// modification time the date formatter cannot render.
    pub fn new(handle: u64, size: u64, last_modified: u64, mime: String) -> (r: Option<
        ResourceMetadata,
    >)
        ensures
            match r {
                Some(m) => {
                    &&& m.wf()
                    &&& m.handle == handle
                    &&& m.size == size
                    &&& m.last_modified == last_modified
                    &&& m.mime@ == mime@
                },
                None => !(is_ascii_chars(mime@) && mime@.len() + 160 <= usize::MAX
                    && last_modified < HTTP_DATE_MAX_SECS),
            },
    {
        if !mime.as_str().is_ascii() {
            return None;
        }
        proof {
            vstd::utf8::is_ascii_chars_encode_utf8(mime@);
        }
        let mime_bytes = mime.as_str().as_bytes_vec();
        if mime_bytes.len() > usize::MAX - 160 {
            return None;
        }
        if last_modified >= HTTP_DATE_MAX_SECS {
            return None;
        }
        let etag = make_etag(last_modified, size);
        Some(ResourceMetadata { handle, size, last_modified, mime, etag })
    }
}

/// The `If-*` and `Range` header values of one request, each as the host
/// transport handed it over, or `None` when absent or unreadable.
pub struct RequestHeaders {
    pub range: Option<String>,
    pub if_range: Option<String>,
    pub if_modified_since: Option<String>,
    pub if_none_match: Option<String>,
    pub if_match: Option<String>,
    pub if_unmodified_since: Option<String>,
}

/// Headers every non-error response carries: the validator, the range
/// capability, and the modification date.
pub open spec fn spec_common_headers(etag: Seq<char>, last_modified: u64) -> Seq<
    (Seq<char>, Seq<char>),
> {
    seq![
        ("etag"@, etag),
        ("accept-ranges"@, "bytes"@),
        ("last-modified"@, http_date_string(last_modified)),
    ]
}

/// `Content-Range` for a served span: `bytes start-last/total`.
pub open spec fn spec_content_range(start: u64, end: u64, total: u64) -> Seq<char> {
    "bytes "@ + dec_str(start as int) + "-"@ + dec_str(end as int - 1) + "/"@ + dec_str(
        total as int,
    )
}

/// The range at index `k`, resolved against this size, spans byte `x`.
pub open spec fn spec_covers_at(specs: Seq<RangeSpec>, size: u64, k: int, x: int) -> bool {
    match spec_resolve_range(specs[k], size) {
        Some(br) => range_covers(br, x),
        None => false,
    }
}

/// Some parsed range, resolved against this size, spans byte `x`.
pub open spec fn resolved_covers(specs: Seq<RangeSpec>, size: u64, x: int) -> bool {
    exists|i: int| 0 <= i < specs.len() && #[trigger] spec_covers_at(specs, size, i, x)
}

pub open spec fn resp_not_modified(r: Response, meta: ResourceMetadata) -> bool {
    &&& r.status == 304
    &&& r.hview() == spec_common_headers(meta.etag@, meta.last_modified)
    &&& r.body is Empty
}

pub open spec fn resp_precondition(r: Response) -> bool {
    &&& r.status == 412
    &&& r.hview() == seq![("content-type"@, "text/plain"@), ("accept-ranges"@, "bytes"@)]
    &&& r.body matches ResponseBody::Text(t) && t@ == "precondition failed"@
}

pub open spec fn resp_bad_range(r: Response) -> bool {
    &&& r.status == 400
    &&& r.hview() == seq![("content-type"@, "text/plain"@), ("accept-ranges"@, "bytes"@)]
    &&& r.body matches ResponseBody::Text(t) && t@ == "failed to parse request header: Range"@
}

pub open spec fn resp_unsatisfiable(r: Response, size: u64) -> bool {
    &&& r.status == 416
    &&& r.hview() == seq![
        ("content-type"@, "text/plain; charset=utf-8"@),
        ("accept-ranges"@, "bytes"@),
        ("content-range"@, "bytes */"@ + dec_str(size as int)),
    ]
    &&& r.body matches ResponseBody::Text(t) && t@ == "requested range not satisfiable"@
}

pub open spec fn resp_whole(r: Response, meta: ResourceMetadata) -> bool {
    &&& r.status == 200
    &&& r.hview() == spec_common_headers(meta.etag@, meta.last_modified) + seq![
        ("content-type"@, meta.mime@),
        ("content-length"@, dec_str(meta.size as int)),
    ]
    &&& if meta.size == 0 {
        r.body is Empty
    } else {
        r.body matches ResponseBody::Single(s) && s.reader.start == 0 && s.reader.end == meta.size
            && s.reader.state == (StreamState::Init { handle: meta.handle })
    }
}

pub open spec fn resp_single(r: Response, meta: ResourceMetadata, range: ByteRange) -> bool {
    &&& r.status == 206
    &&& r.hview() == spec_common_headers(meta.etag@, meta.last_modified) + seq![
        ("content-type"@, meta.mime@),
        ("content-range"@, spec_content_range(range.start, range.end, meta.size)),
        ("content-length"@, dec_str((range.end - range.start) as int)),
    ]
    &&& r.body matches ResponseBody::Single(s) && s.reader.start == range.start && s.reader.end
        == range.end && s.reader.state == (StreamState::Init { handle: meta.handle })
}

pub open spec fn resp_multi(r: Response, meta: ResourceMetadata, rs: Seq<ByteRange>) -> bool {
    let cl = parts_len(rs, meta.mime@, meta.size) + 15;
    &&& r.status == 206
    &&& r.hview() == spec_common_headers(meta.etag@, meta.last_modified) + seq![
        ("content-type"@, MULTI_RANGE_CONTENT_TYPE@),
        ("content-length"@, dec_str(cl)),
    ]
    &&& r.body matches ResponseBody::Multi(m) && m.file_size == meta.size && m.mime@ == meta.mime@
        && m.state == ToBeWritten::Header && rs.len() >= 1 && m.current.start == rs[0].start
        && m.current.end == rs[0].end && m.current.state == (StreamState::Init {
        handle: meta.handle,
    }) && m.rest@ == rs.drop_first() && m.remaining_len() == cl
}

fn common_headers(meta: &ResourceMetadata) -> (h: Vec<(&'static str, String)>)
    requires
        meta.wf(),
    ensures
        header_views(h@) == spec_common_headers(meta.etag@, meta.last_modified),
{
    let mut h: Vec<(&'static str, String)> = Vec::new();
    h.push(("etag", meta.etag.clone()));
    h.push(("accept-ranges", String::from_str("bytes")));
    h.push(("last-modified", fmt_http_date_secs(meta.last_modified)));
    proof {
        assert(header_views(h@) =~= spec_common_headers(meta.etag@, meta.last_modified));
    }
    h
}

fn build_text_response(status: u16, text: &'static str) -> (r: Response)
    ensures
        r.status == status,
        r.hview() == seq![("content-type"@, "text/plain"@), ("accept-ranges"@, "bytes"@)],
        r.body matches ResponseBody::Text(t) && t == text,
{
    let mut headers: Vec<(&'static str, String)> = Vec::new();
    headers.push(("content-type", String::from_str("text/plain")));
    headers.push(("accept-ranges", String::from_str("bytes")));
    let r = Response { status, headers, body: ResponseBody::Text(text) };
    proof {
        assert(r.hview() =~= seq![("content-type"@, "text/plain"@), ("accept-ranges"@, "bytes"@)]);
    }
    r
}

fn build_not_modified(meta: &ResourceMetadata) -> (r: Response)
    requires
        meta.wf(),
    ensures
        resp_not_modified(r, *meta),
{
    let headers = common_headers(meta);
    Response { status: 304, headers, body: ResponseBody::Empty }
}

fn build_unsatisfiable(meta: &ResourceMetadata) -> (r: Response)
    requires
        meta.wf(),
    ensures
        resp_unsatisfiable(r, meta.size),
{
    let mut headers: Vec<(&'static str, String)> = Vec::new();
    headers.push(("content-type", String::from_str("text/plain; charset=utf-8")));
    headers.push(("accept-ranges", String::from_str("bytes")));
    let mut cr = String::from_str("bytes */");
    let d = u64_to_dec_string(meta.size);
    cr.append(d.as_str());
    headers.push(("content-range", cr));
    let r = Response {
        status: 416,
        headers,
        body: ResponseBody::Text("requested range not satisfiable"),
    };
    proof {
        assert(r.hview() =~= seq![
            ("content-type"@, "text/plain; charset=utf-8"@),
            ("accept-ranges"@, "bytes"@),
            ("content-range"@, "bytes */"@ + dec_str(meta.size as int)),
        ]);
    }
    r
}

fn build_whole(meta: &ResourceMetadata) -> (r: Response)
    requires
        meta.wf(),
    ensures
        resp_whole(r, *meta),
{
    let mut headers = common_headers(meta);
    headers.push(("content-type", meta.mime.clone()));
    headers.push(("content-length", u64_to_dec_string(meta.size)));
    let body = if meta.size == 0 {
        ResponseBody::Empty
    } else {
        ResponseBody::Single(SingleRangeReader::new(meta.handle, 0, meta.size))
    };
    let r = Response { status: 200, headers, body };
    proof {
        assert(r.hview() =~= spec_common_headers(meta.etag@, meta.last_modified) + seq![
            ("content-type"@, meta.mime@),
            ("content-length"@, dec_str(meta.size as int)),
        ]);
    }
    r
}

fn build_single(meta: &ResourceMetadata, range: ByteRange) -> (r: Response)
    requires
        meta.wf(),
        range.start < range.end,
    ensures
        resp_single(r, *meta, range),
{
    let mut headers = common_headers(meta);
    headers.push(("content-type", meta.mime.clone()));
    let mut cr = String::from_str("bytes ");
    let d_start = u64_to_dec_string(range.start);
    cr.append(d_start.as_str());
    cr.append("-");
    let d_last = u64_to_dec_string(range.end - 1);
    cr.append(d_last.as_str());
    cr.append("/");
    let d_total = u64_to_dec_string(meta.size);
    cr.append(d_total.as_str());
    proof {
        assert(cr@ =~= spec_content_range(range.start, range.end, meta.size));
    }
    headers.push(("content-range", cr));
    headers.push(("content-length", u64_to_dec_string(range.end - range.start)));
    let body = ResponseBody::Single(SingleRangeReader::new(meta.handle, range.start, range.end));
    let r = Response { status: 206, headers, body };
    proof {
        assert(r.hview() =~= spec_common_headers(meta.etag@, meta.last_modified) + seq![
            ("content-type"@, meta.mime@),
            ("content-range"@, spec_content_range(range.start, range.end, meta.size)),
            ("content-length"@, dec_str((range.end - range.start) as int)),
        ]);
    }
    r
}

fn build_multi(meta: &ResourceMetadata, ranges: Vec<ByteRange>, content_length: u64) -> (r:
    Response)
    requires
        meta.wf(),
        ranges@.len() >= 2,
        forall|i: int| 0 <= i < ranges@.len() ==> (#[trigger] ranges@[i]).start < ranges@[i].end,
        content_length == parts_len(ranges@, meta.mime@, meta.size) + 15,
    ensures
        resp_multi(r, *meta, ranges@),
{
    let mut headers = common_headers(meta);
    headers.push(("content-type", String::from_str(MULTI_RANGE_CONTENT_TYPE)));
    headers.push(("content-length", u64_to_dec_string(content_length)));
    proof {
        assert(is_ascii_chars(meta.mime@));
    }
    let reader = MultiRangeReader::new(meta.handle, meta.size, meta.mime.as_str(), ranges);
    let r = Response { status: 206, headers, body: ResponseBody::Multi(reader) };
    proof {
        assert(r.hview() =~= spec_common_headers(meta.etag@, meta.last_modified) + seq![
            ("content-type"@, MULTI_RANGE_CONTENT_TYPE@),
            ("content-length"@, dec_str(content_length as int)),
        ]);
    }
    r
}

proof fn lemma_push_covers(s: Seq<ByteRange>, v: ByteRange, x: int)
    ensures
        covers(s.push(v), x) == (covers(s, x) || range_covers(v, x)),
{
    let s2 = s.push(v);
    if covers(s2, x) {
        let k = choose|k: int| 0 <= k < s2.len() && range_covers(s2[k], x);
        if k < s.len() {
            assert(range_covers(s[k], x));
        }
    }
    if covers(s, x) {
        let k = choose|k: int| 0 <= k < s.len() && range_covers(s[k], x);
        assert(range_covers(s2[k], x));
    }
    if range_covers(v, x) {
        assert(range_covers(s2[s.len() as int], x));
    }
}

impl StaticFiles {
    /// Answer one request for one resolved resource: decide between 404,
    /// 500, 412, 304, 400, 416, a whole-file 200, and a single- or
    /// multi-range 206, and produce the exact headers and body producer
    /// for that outcome.
    pub fn run(resource: Result<ResourceMetadata, ErrorResponse>, req: RequestHeaders) -> (r:
        Response)
        requires
            resource matches Ok(m) ==> m.wf(),
        ensures
            ({
                match resource {
                    Err(e) => spec_error_response(e, r),
                    Ok(meta) => {
                        let pc = spec_precondition_failed(
                            opt_view(req.if_match),
                            opt_view(req.if_unmodified_since),
                            meta.last_modified,
                            meta.etag@,
                        );
                        let cached = spec_should_cache(
                            opt_view(req.if_modified_since),
                            opt_view(req.if_none_match),
                            meta.last_modified,
                            meta.etag@,
                        );
                        if pc {
                            resp_precondition(r)
                        } else if cached {
                            resp_not_modified(r, meta)
                        } else {
                            match req.range {
                                None => resp_whole(r, meta),
                                Some(h) => {
                                    if req.if_range is Some && !spec_should_range(
                                        opt_view(req.if_range),
                                        meta.etag@,
                                        meta.last_modified,
                                    ) {
                                        resp_whole(r, meta)
                                    } else {
                                        let specs = spec_parse_range_header(h@);
                                        if specs.len() == 0 {
                                            resp_bad_range(r)
                                        } else {
                                            exists|rs: Seq<ByteRange>|
                                                {
                                                    &&& #[trigger] merged_wf(rs)
                                                    &&& (forall|x: int|
                                                        covers(rs, x) == resolved_covers(
                                                            specs,
                                                            meta.size,
                                                            x,
                                                        ))
                                                    &&& (if rs.len() == 0 {
                                                        resp_unsatisfiable(r, meta.size)
                                                    } else if rs.len() == 1 {
                                                        resp_single(r, meta, rs[0])
                                                    } else if parts_len(rs, meta.mime@, meta.size)
                                                        + 15 <= u64::MAX {
                                                        resp_multi(r, meta, rs)
                                                    } else {
                                                        spec_error_response(
                                                            ErrorResponse::Unexpected,
                                                            r,
                                                        )
                                                    })
                                                }
                                        }
                                    }
                                },
                            }
                        }
                    },
                }
            }),
    {
        let meta = match resource {
            Err(e) => {
                return e.into_response();
            },
            Ok(m) => m,
        };
        let pc = Self::precondition_failed(
            req.if_match,
            req.if_unmodified_since,
            meta.last_modified,
            meta.etag.as_str(),
        );
        if pc {
            return build_text_response(412, "precondition failed");
        }
        let cached = Self::should_cache(
            req.if_modified_since,
            req.if_none_match,
            meta.last_modified,
            meta.etag.as_str(),
        );
        if cached {
            return build_not_modified(&meta);
        }
        let header = match req.range {
            None => {
                return build_whole(&meta);
            },
            Some(h) => h,
        };
        if req.if_range.is_some() {
            let negotiated = Self::should_range(
                req.if_range,
                meta.etag.as_str(),
                meta.last_modified,
            );
            if !negotiated {
                return build_whole(&meta);
            }
        }
        let specs = parse_range_header(header.as_str());
        if specs.len() == 0 {
            return build_text_response(400, "failed to parse request header: Range");
        }
        let size = meta.size;
        let mut concrete: Vec<ByteRange> = Vec::new();
        let mut i: usize = 0;
        while i < specs.len()
            invariant
                i <= specs@.len(),
                forall|x: int|
                    covers(concrete@, x) == resolved_covers(specs@.take(i as int), size, x),
                forall|k: int| 0 <= k < concrete@.len() ==> (#[trigger] concrete@[k]).start
                    <= concrete@[k].end,
            decreases specs@.len() - i,
        {
            let ghost old_concrete = concrete@;
            match actual_range(specs[i], size) {
                Some(br) => {
                    concrete.push(br);
                },
                None => {},
            }
            proof {
                assert(specs@.take(i + 1) =~= specs@.take(i as int).push(specs@[i as int]));
                assert forall|x: int|
                    covers(concrete@, x) == resolved_covers(specs@.take(i + 1), size, x) by {
                    assert(specs@.take(i + 1)[i as int] == specs@[i as int]);
                    if let Some(br) = spec_resolve_range(specs@[i as int], size) {
                        lemma_push_covers(old_concrete, br, x);
                        if range_covers(br, x) {
                            assert(spec_covers_at(specs@.take(i + 1), size, i as int, x));
                        }
                    }
                    if resolved_covers(specs@.take(i + 1), size, x) {
                        let k = choose|k: int|
                            0 <= k < specs@.take(i + 1).len() && #[trigger] spec_covers_at(
                                specs@.take(i + 1),
                                size,
                                k,
                                x,
                            );
                        if k < i {
                            assert(specs@.take(i + 1)[k] == specs@.take(i as int)[k]);
                            assert(spec_covers_at(specs@.take(i as int), size, k, x));
                            assert(resolved_covers(specs@.take(i as int), size, x));
                        }
                    }
                    if resolved_covers(specs@.take(i as int), size, x) {
                        let k = choose|k: int|
                            0 <= k < specs@.take(i as int).len() && #[trigger] spec_covers_at(
                                specs@.take(i as int),
                                size,
                                k,
                                x,
                            );
                        assert(specs@.take(i + 1)[k] == specs@.take(i as int)[k]);
                        assert(spec_covers_at(specs@.take(i + 1), size, k, x));
                        assert(resolved_covers(specs@.take(i + 1), size, x));
                    }
                }
            }
            i += 1;
        }
        proof {
            assert(specs@.take(specs@.len() as int) =~= specs@);
        }
        let mut merged = merge_ranges(concrete);
        if merged.len() == 0 {
            let r = build_unsatisfiable(&meta);
            proof {
                assert(merged_wf(merged@));
            }
            return r;
        }
        if merged.len() == 1 {
            let range = merged[0];
            proof {
                assert(merged@[0].start < merged@[0].end);
            }
            let r = build_single(&meta, range);
            proof {
                assert(merged_wf(merged@));
                assert(resp_single(r, meta, merged@[0]));
            }
            return r;
        }
        let cl = match content_length_checked(&merged, meta.mime.as_str(), meta.size) {
            Some(v) => v,
            None => {
                let r = ErrorResponse::Unexpected.into_response();
                proof {
                    assert(merged_wf(merged@));
                }
                return r;
            },
        };
        let ghost merged_view = merged@;
        let r = build_multi(&meta, merged, cl);
        proof {
            assert(merged_wf(merged_view));
            assert(resp_multi(r, meta, merged_view));
        }
        r
    }
}

} // verus!
