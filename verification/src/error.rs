use crate::response::{Response, ResponseBody};
use vstd::prelude::*;
use vstd::string::*;

verus! {

/// The path handed to `StaticFiles::new` does not name a directory.
#[derive(Debug)]
pub struct NoSuchDirectory(pub String);

impl NoSuchDirectory {
    /// The text a caller would log or display for this error.
    pub fn message(&self) -> (r: String)
        ensures
            r@ == "no such directory found: "@ + self.0@,
    {
        let mut s = String::from_str("no such directory found: ");
        s.append(self.0.as_str());
        s
    }
}

/// The two failures a lookup can end in before any range or conditional
/// logic runs.
#[derive(Clone, Copy, PartialEq, Eq, Structural, Debug)]
pub enum ErrorResponse {
    /// The path does not resolve to an existing, accessible file: HTTP 404.
    NotFound,
    /// Any other I/O failure while opening or inspecting the file: HTTP 500.
    Unexpected,
}

/// The exact response each lookup failure turns into.
pub open spec fn spec_error_response(e: ErrorResponse, r: Response) -> bool {
    match e {
        ErrorResponse::NotFound => {
            &&& r.status == 404
            &&& r.hview() == seq![("content-type"@, "text/plain"@)]
            &&& r.body matches ResponseBody::Text(t) && t@ == "not found"@
        },
        ErrorResponse::Unexpected => {
            &&& r.status == 500
            &&& r.hview() == seq![("content-type"@, "text/plain"@)]
            &&& r.body matches ResponseBody::Text(t) && t@ == "unexpected error occurred"@
        },
    }
}

impl ErrorResponse {
    pub fn into_response(self) -> (r: Response)
        ensures
            spec_error_response(self, r),
    {
        let mut headers: Vec<(&'static str, String)> = Vec::new();
        headers.push(("content-type", String::from_str("text/plain")));
        let (status, text) = match self {
            ErrorResponse::NotFound => (404u16, "not found"),
            ErrorResponse::Unexpected => (500u16, "unexpected error occurred"),
        };
        let r = Response { status, headers, body: ResponseBody::Text(text) };
        proof {
            assert(r.hview() =~= seq![("content-type"@, "text/plain"@)]);
        }
        r
    }
}

} // verus!
