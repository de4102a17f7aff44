use crate::multi_range::MultiRangeReader;
use crate::single_range::SingleRangeReader;
use vstd::prelude::*;

verus! {

/// What the host transport must send after the status line and headers.
pub enum ResponseBody {
    /// No body at all.
    Empty,
    /// A fixed diagnostic text.
    Text(&'static str),
    /// One contiguous span of the file.
    Single(SingleRangeReader),
    /// A `multipart/byteranges` body over several spans.
    Multi(MultiRangeReader),
}

/// Everything the host transport needs to answer one request: a status
/// code, response headers in order, and a body producer.
pub struct Response {
    pub status: u16,
    pub headers: Vec<(&'static str, String)>,
    pub body: ResponseBody,
}

/// The headers as pairs of character sequences.
pub open spec fn header_views(h: Seq<(&'static str, String)>) -> Seq<(Seq<char>, Seq<char>)> {
    h.map_values(|p: (&'static str, String)| (p.0@, p.1@))
}

impl Response {
    pub open spec fn hview(self) -> Seq<(Seq<char>, Seq<char>)> {
        header_views(self.headers@)
    }
}

} // verus!
