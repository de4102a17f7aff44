use crate::file_read::{
    sched_unchanged, stream_poll_outcome, FileReadStream, Scheduler, StreamOutput, StreamState,
    KIND_EMPTY_READ,
};
use crate::numfmt::{dec_len, dec_str, lemma_dec_len_pos, lemma_dec_str_len, u64_to_dec_string, u64_width};
use crate::utils::ByteRange;
use std::collections::VecDeque;
use vstd::prelude::*;
use vstd::string::*;
use vstd::utf8::{encode_utf8, is_ascii_chars, is_ascii_chars_encode_utf8};

verus! {

/// Bytes of a part header that do not depend on the mime type or the
/// numbers: see `lemma_part_header_size_exact` and the unit tests.
pub const HEADER_SIZE_CONSTANT: usize = 56;

/// Every character of a decimal rendering is an ASCII digit.
pub proof fn lemma_dec_str_ascii(n: int)
    ensures
        is_ascii_chars(dec_str(n)),
    decreases n,
{
    if n >= 10 {
        lemma_dec_str_ascii(n / 10);
    }
}

/// The exact text of the header that precedes one part of a
/// `multipart/byteranges` body, for the part spanning `[start, end)` of a
/// resource of `total` bytes.
pub open spec fn spec_part_header(start: u64, end: u64, mime: Seq<char>, total: u64) -> Seq<char> {
    "\r\n--DCjanus\r\ncontent-type: "@ + mime + "\r\ncontent-range: bytes "@ + dec_str(start as int)
        + "-"@ + dec_str(end as int - 1) + "/"@ + dec_str(total as int) + "\r\n\r\n"@
}

/// How long that header is: a fixed structural part plus the mime type
/// plus the decimal widths of the three numbers.
pub open spec fn spec_part_header_size(start: u64, end: u64, mime: Seq<char>, total: u64) -> int {
    HEADER_SIZE_CONSTANT + mime.len() + dec_len(start as int) + dec_len(end as int - 1) + dec_len(
        total as int,
    )
}

/// The byte length a part header will occupy can be computed without
/// materializing the header: the predicted size equals the length of the
/// text actually written.
pub proof fn lemma_part_header_size_exact(start: u64, end: u64, mime: Seq<char>, total: u64)
    requires
        end >= 1,
    ensures
        spec_part_header(start, end, mime, total).len() == spec_part_header_size(
            start,
            end,
            mime,
            total,
        ),
{
    reveal_strlit("\r\n--DCjanus\r\ncontent-type: ");
    reveal_strlit("\r\ncontent-range: bytes ");
    reveal_strlit("-");
    reveal_strlit("/");
    reveal_strlit("\r\n\r\n");
    lemma_dec_str_len(start as int);
    lemma_dec_str_len(end as int - 1);
    lemma_dec_str_len(total as int);
}

/// The header before one part of a `multipart/byteranges` body.
pub struct PartHeader<'a> {
    pub range: ByteRange,
    pub mime_text: &'a str,
    pub total: u64,
}

impl<'a> PartHeader<'a> {
    pub open spec fn wf(self) -> bool {
        &&& self.range.start < self.range.end
        &&& vstd::string::is_ascii(self.mime_text)
        &&& self.mime_text@.len() + 160 <= usize::MAX
    }

    pub open spec fn spec_text(self) -> Seq<char> {
        spec_part_header(self.range.start, self.range.end, self.mime_text@, self.total)
    }

    pub open spec fn spec_size(self) -> int {
        spec_part_header_size(self.range.start, self.range.end, self.mime_text@, self.total)
    }

    pub fn new(range: ByteRange, mime_text: &'a str, total: u64) -> (r: PartHeader<'a>)
        requires
            range.start < range.end,
            vstd::string::is_ascii(mime_text),
            mime_text@.len() + 160 <= usize::MAX,
        ensures
            r.wf(),
            r == (PartHeader { range, mime_text, total }),
    {
        PartHeader { range, mime_text, total }
    }

    /// The space the part header will occupy, computed without building it.
    pub fn size(&self) -> (r: usize)
        requires
            self.wf(),
        ensures
            r == self.spec_size(),
    {
        proof {
            broadcast use vstd::string::is_ascii_spec_bytes;

            lemma_dec_str_len(self.range.start as int);
        }
        HEADER_SIZE_CONSTANT + self.mime_text.len() + u64_width(self.range.start) + u64_width(
            self.range.end - 1,
        ) + u64_width(self.total)
    }

    /// Render the part header; the text is exactly `spec_text` and its
    /// length is exactly what `size` predicted.
    pub fn write(&self) -> (r: String)
        requires
            self.wf(),
        ensures
            r@ == self.spec_text(),
            r@.len() == self.spec_size(),
            is_ascii_chars(r@),
    {
        let mut s = String::from_str("\r\n--DCjanus\r\ncontent-type: ");
        s.append(self.mime_text);
        s.append("\r\ncontent-range: bytes ");
        let d_start = u64_to_dec_string(self.range.start);
        s.append(d_start.as_str());
        s.append("-");
        let d_end = u64_to_dec_string(self.range.end - 1);
        s.append(d_end.as_str());
        s.append("/");
        let d_total = u64_to_dec_string(self.total);
        s.append(d_total.as_str());
        s.append("\r\n\r\n");
        proof {
            assert(s@ =~= self.spec_text());
            lemma_part_header_size_exact(
                self.range.start,
                self.range.end,
                self.mime_text@,
                self.total,
            );
            reveal_strlit("\r\n--DCjanus\r\ncontent-type: ");
            reveal_strlit("\r\ncontent-range: bytes ");
            reveal_strlit("-");
            reveal_strlit("/");
            reveal_strlit("\r\n\r\n");
            assert(is_ascii_chars("\r\n--DCjanus\r\ncontent-type: "@));
            assert(is_ascii_chars("\r\ncontent-range: bytes "@));
            assert(is_ascii_chars("-"@));
            assert(is_ascii_chars("/"@));
            assert(is_ascii_chars("\r\n\r\n"@));
            lemma_dec_str_ascii(self.range.start as int);
            lemma_dec_str_ascii(self.range.end as int - 1);
            lemma_dec_str_ascii(self.total as int);
            assert(is_ascii_chars(s@));
        }
        s
    }
}

/// The fixed closing line of a `multipart/byteranges` body.
pub open spec fn spec_trailer() -> Seq<char> {
    "\r\n--DCjanus--\r\n"@
}

/// The trailer is fifteen ASCII characters.
pub proof fn lemma_trailer()
    ensures
        spec_trailer().len() == 15,
        is_ascii_chars(spec_trailer()),
{
    reveal_strlit("\r\n--DCjanus--\r\n");
}

/// Bytes still owed for the parts from index `i` on: each part costs its
/// header plus its body.
pub open spec fn parts_len_from(ranges: Seq<ByteRange>, mime: Seq<char>, total: u64, i: int) -> int
    decreases ranges.len() - i,
{
    if i < 0 || i >= ranges.len() {
        0
    } else {
        spec_part_header_size(ranges[i].start, ranges[i].end, mime, total) + (ranges[i].end
            - ranges[i].start) + parts_len_from(ranges, mime, total, i + 1)
    }
}

/// Bytes owed for all parts: headers plus bodies, without the trailer.
pub open spec fn parts_len(ranges: Seq<ByteRange>, mime: Seq<char>, total: u64) -> int {
    parts_len_from(ranges, mime, total, 0)
}

/// No collection of parts owes a negative number of bytes.
pub proof fn lemma_parts_len_nonneg(ranges: Seq<ByteRange>, mime: Seq<char>, total: u64, i: int)
    requires
        forall|j: int| 0 <= j < ranges.len() ==> (#[trigger] ranges[j]).start <= ranges[j].end,
    ensures
        parts_len_from(ranges, mime, total, i) >= 0,
    decreases ranges.len() - i,
{
    if 0 <= i < ranges.len() {
        lemma_dec_len_pos(ranges[i].start as int);
        lemma_dec_len_pos(ranges[i].end as int - 1);
        lemma_dec_len_pos(total as int);
        lemma_parts_len_nonneg(ranges, mime, total, i + 1);
    }
}

proof fn lemma_parts_len_from_drop(ranges: Seq<ByteRange>, mime: Seq<char>, total: u64, i: int)
    requires
        ranges.len() > 0,
        i >= 0,
    ensures
        parts_len_from(ranges.drop_first(), mime, total, i) == parts_len_from(
            ranges,
            mime,
            total,
            i + 1,
        ),
    decreases ranges.len() - i,
{
    if i < ranges.len() - 1 {
        assert(ranges.drop_first()[i] == ranges[i + 1]);
        lemma_parts_len_from_drop(ranges, mime, total, i + 1);
    }
}

/// Splitting off the first part splits its cost off the total.
pub proof fn lemma_parts_len_drop_first(ranges: Seq<ByteRange>, mime: Seq<char>, total: u64)
    requires
        ranges.len() > 0,
    ensures
        parts_len(ranges, mime, total) == spec_part_header_size(
            ranges[0].start,
            ranges[0].end,
            mime,
            total,
        ) + (ranges[0].end - ranges[0].start) + parts_len(ranges.drop_first(), mime, total),
{
    lemma_parts_len_from_drop(ranges, mime, total, 0);
}

/// The exact `Content-Length` of a `multipart/byteranges` body over these
/// parts, or `None` when it would not fit in a `u64`.
pub fn content_length_checked(ranges: &Vec<ByteRange>, mime_text: &str, file_size: u64) -> (r:
    Option<u64>)
    requires
        forall|i: int| 0 <= i < ranges@.len() ==> (#[trigger] ranges@[i]).start < ranges@[i].end,
        vstd::string::is_ascii(mime_text),
        mime_text@.len() + 160 <= usize::MAX,
    ensures
        match r {
            Some(v) => v == parts_len(ranges@, mime_text@, file_size) + 15,
            None => parts_len(ranges@, mime_text@, file_size) + 15 > u64::MAX,
        },
{
    let mut acc: u64 = 15;
    let mut i: usize = 0;
    while i < ranges.len()
        invariant
            i <= ranges@.len(),
            forall|j: int| 0 <= j < ranges@.len() ==> (#[trigger] ranges@[j]).start
                < ranges@[j].end,
            vstd::string::is_ascii(mime_text),
            mime_text@.len() + 160 <= usize::MAX,
            acc + parts_len_from(ranges@, mime_text@, file_size, i as int) == parts_len(
                ranges@,
                mime_text@,
                file_size,
            ) + 15,
        decreases ranges@.len() - i,
    {
        let range = ranges[i];
        let header = PartHeader::new(range, mime_text, file_size);
        let hsize = header.size();
        let body_len = range.end - range.start;
        proof {
            lemma_parts_len_nonneg(ranges@, mime_text@, file_size, i + 1);
        }
        let acc1 = match acc.checked_add(hsize as u64) {
            Some(v) => v,
            None => {
                return None;
            },
        };
        let acc2 = match acc1.checked_add(body_len) {
            Some(v) => v,
            None => {
                return None;
            },
        };
        acc = acc2;
        i += 1;
    }
    Some(acc)
}

/// Which piece of the multipart body is owed next.
#[derive(Clone, Copy, PartialEq, Eq, Structural, Debug)]
pub enum ToBeWritten {
    /// The header of the current part.
    Header,
    /// Bytes of the current part.
    Body,
    /// Everything including the trailer has been emitted.
    Finished { handle: u64 },
}

/// Streams a `multipart/byteranges` body: for each range a part header
/// and the range's bytes, then the closing trailer, with exact byte
/// accounting against the precomputed `Content-Length`.
pub struct MultiRangeReader {
    pub file_size: u64,
    pub mime: String,
    pub current: FileReadStream,
    pub rest: VecDeque<ByteRange>,
    pub state: ToBeWritten,
}

impl MultiRangeReader {
    pub open spec fn ranges_wf(self) -> bool {
        forall|i: int| 0 <= i < self.rest@.len() ==> (#[trigger] self.rest@[i]).start
            < self.rest@[i].end
    }

    pub open spec fn wf(self, sched: Scheduler) -> bool {
        &&& self.current.wf(sched)
        &&& self.ranges_wf()
        &&& is_ascii_chars(self.mime@)
        &&& self.mime@.len() + 160 <= usize::MAX
        &&& (self.state == ToBeWritten::Header ==> self.current.start < self.current.end)
    }

    /// How many bytes the stream still owes its consumer.
    pub open spec fn remaining_len(self) -> int {
        match self.state {
            ToBeWritten::Header => spec_part_header_size(
                self.current.start,
                self.current.end,
                self.mime@,
                self.file_size,
            ) + (self.current.end - self.current.start) + parts_len(
                self.rest@,
                self.mime@,
                self.file_size,
            ) + 15,
            ToBeWritten::Body => (self.current.end - self.current.start) + parts_len(
                self.rest@,
                self.mime@,
                self.file_size,
            ) + 15,
            ToBeWritten::Finished { .. } => 0,
        }
    }

    pub fn new(handle: u64, file_size: u64, mime: &str, ranges: Vec<ByteRange>) -> (r:
        MultiRangeReader)
        requires
            ranges@.len() >= 2,
            forall|i: int| 0 <= i < ranges@.len() ==> (#[trigger] ranges@[i]).start
                < ranges@[i].end,
            vstd::string::is_ascii(mime),
            mime@.len() + 160 <= usize::MAX,
        ensures
            r.file_size == file_size,
            r.mime@ == mime@,
            r.state == ToBeWritten::Header,
            r.current.start == ranges@[0].start,
            r.current.end == ranges@[0].end,
            r.current.state == (StreamState::Init { handle }),
            r.rest@ == ranges@.drop_first(),
            r.remaining_len() == parts_len(ranges@, mime@, file_size) + 15,
    {
        let mut rest: VecDeque<ByteRange> = VecDeque::new();
        let mut i: usize = 1;
        while i < ranges.len()
            invariant
                1 <= i <= ranges@.len(),
                ranges@.len() >= 1,
                rest@ == ranges@.subrange(1, i as int),
            decreases ranges@.len() - i,
        {
            rest.push_back(ranges[i]);
            proof {
                assert(ranges@.subrange(1, i + 1) =~= ranges@.subrange(1, i as int).push(
                    ranges@[i as int],
                ));
            }
            i += 1;
        }
        proof {
            assert(ranges@.subrange(1, ranges@.len() as int) =~= ranges@.drop_first());
        }
        let first = ranges[0];
        let r = MultiRangeReader {
            file_size,
            mime: mime.to_owned(),
            current: FileReadStream::new(handle, first.start, first.end),
            rest,
            state: ToBeWritten::Header,
        };
        proof {
            lemma_parts_len_drop_first(ranges@, mime@, file_size);
        }
        r
    }

    /// Pull the next chunk of the multipart body. Every emitted chunk
    /// shrinks `remaining_len` by exactly its own length, and the stream
    /// completes exactly when nothing is owed: the bytes streamed add up
    /// to the announced `Content-Length`.
    pub fn poll_next(&mut self, sched: &mut Scheduler, waker: u64) -> (r: StreamOutput)
        requires
            old(self).wf(*old(sched)),
            old(sched).wf(),
        ensures
            final(self).wf(*final(sched)),
            final(sched).wf(),
            final(sched).capacity == old(sched).capacity,
            final(self).mime@ == old(self).mime@,
            final(self).file_size == old(self).file_size,
            old(sched).ops@.len() <= final(sched).ops@.len(),
            forall|i: int|
                0 <= i < old(sched).ops@.len() && !(old(sched).ops@[i].is_reclaimed()) && (old(self).current.state matches StreamState::Work { task } ==> i != task.id) ==> final(sched).ops@[i] == old(sched).ops@[i],
            r matches StreamOutput::Item { data } ==> data@.len() >= 1,
            old(self).state == ToBeWritten::Header ==> sched_unchanged(*old(sched), *final(sched)),
            (old(self).state == ToBeWritten::Body && old(self).current.start == old(self).current.end) ==> sched_unchanged(*old(sched), *final(sched)),
            old(self).state matches ToBeWritten::Finished { .. } ==> sched_unchanged(
                *old(sched),
                *final(sched),
            ) && *final(self) == *old(self),
            (old(self).state == ToBeWritten::Body && old(self).current.start < old(self).current.end) ==> exists|ir: StreamOutput|
                {
                    &&& #[trigger] stream_poll_outcome(
                        old(self).current,
                        final(self).current,
                        *old(sched),
                        *final(sched),
                        waker,
                        ir,
                    )
                    &&& match ir {
                        StreamOutput::Pending => r is Pending,
                        StreamOutput::Error { kind } => r == (StreamOutput::Error { kind }),
                        StreamOutput::Item { data } => if data@.len() == 0 {
                            r == (StreamOutput::Error { kind: KIND_EMPTY_READ })
                        } else {
                            r matches StreamOutput::Item { data: d } && d@ == data@
                        },
                        StreamOutput::Complete { .. } => false,
                    }
                },
            match r {
                StreamOutput::Item { data } => final(self).remaining_len() + data@.len() == old(self).remaining_len(),
                StreamOutput::Complete { handle: _ } => old(self).remaining_len() == 0
                    && final(self).remaining_len() == 0,
                _ => final(self).remaining_len() == old(self).remaining_len(),
            },
            old(self).state == ToBeWritten::Header ==> (r matches StreamOutput::Item { data } &&
                data@ == encode_utf8(
                    spec_part_header(
                        old(self).current.start,
                        old(self).current.end,
                        old(self).mime@,
                        old(self).file_size,
                    ),
                )),
            (old(self).state == ToBeWritten::Body && old(self).current.start == old(self).current.end && old(self).rest@.len() > 0 && old(self).current.state matches
                StreamState::Init { .. }) ==> (r matches StreamOutput::Item { data } && data@
                == encode_utf8(
                spec_part_header(
                    old(self).rest@[0].start,
                    old(self).rest@[0].end,
                    old(self).mime@,
                    old(self).file_size,
                ),
            )),
            (old(self).state == ToBeWritten::Body && old(self).current.start == old(self).current.end && old(self).rest@.len() == 0 && old(self).current.state matches
                StreamState::Init { .. }) ==> (r matches StreamOutput::Item { data } && data@
                == encode_utf8(spec_trailer())),
    {
        match self.state {
            ToBeWritten::Header => {
                let part = ByteRange { start: self.current.start, end: self.current.end };
                let ph = PartHeader::new(part, self.mime.as_str(), self.file_size);
                let text = ph.write();
                let data = text.as_str().as_bytes_vec();
                self.state = ToBeWritten::Body;
                proof {
                    is_ascii_chars_encode_utf8(text@);
                }
                StreamOutput::Item { data }
            },
            ToBeWritten::Body => {
                let inner = self.current.poll_next(sched, waker);
                let ghost inner_outcome = inner;
                proof {
                    assert(stream_poll_outcome(
                        old(self).current,
                        self.current,
                        *old(sched),
                        *sched,
                        waker,
                        inner_outcome,
                    ));
                }
                match inner {
                    StreamOutput::Pending => StreamOutput::Pending,
                    StreamOutput::Error { kind } => StreamOutput::Error { kind },
                    StreamOutput::Item { data } => {
                        if data.len() == 0 {
                            StreamOutput::Error { kind: KIND_EMPTY_READ }
                        } else {
                            StreamOutput::Item { data }
                        }
                    },
                    StreamOutput::Complete { handle } => {
                        match self.rest.pop_front() {
                            Some(next) => {
                                proof {
                                    lemma_parts_len_drop_first(
                                        old(self).rest@,
                                        self.mime@,
                                        self.file_size,
                                    );
                                }
                                self.current = FileReadStream::new(handle, next.start, next.end);
                                let ph = PartHeader::new(next, self.mime.as_str(), self.file_size);
                                let text = ph.write();
                                let data = text.as_str().as_bytes_vec();
                                self.state = ToBeWritten::Body;
                                proof {
                                    is_ascii_chars_encode_utf8(text@);
                                }
                                StreamOutput::Item { data }
                            },
                            None => {
                                let data = "\r\n--DCjanus--\r\n".as_bytes_vec();
                                self.state = ToBeWritten::Finished { handle };
                                proof {
                                    lemma_trailer();
                                    is_ascii_chars_encode_utf8(spec_trailer());
                                }
                                StreamOutput::Item { data }
                            },
                        }
                    },
                }
            },
            ToBeWritten::Finished { handle } => StreamOutput::Complete { handle },
        }
    }
}

} // verus!
