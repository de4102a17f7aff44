use crate::numfmt::{hex_str, u64_to_hex_string};
use vstd::prelude::*;
use vstd::string::*;

verus! {

/// Upper bound on the size of any single read buffer handed to the scheduler.
pub const MAX_BUFFER_SIZE: usize = 4194304;

/// Boundary token framing the parts of a multipart body.
pub const BOUNDARY: &'static str = "DCjanus";

/// `Content-Type` of a multipart body framed with that boundary.
pub const MULTI_RANGE_CONTENT_TYPE: &'static str = "multipart/byteranges; boundary=DCjanus";

/// A concrete, half-open span of a resource's bytes: `start <= end`,
/// `end - start` is the length.
#[derive(Clone, Copy, PartialEq, Eq, Structural, Debug)]
pub struct ByteRange {
    pub start: u64,
    pub end: u64,
}

/// A wire-level range from a `Range: bytes=...` header, before it is
/// validated against a concrete file size.
#[derive(Clone, Copy, PartialEq, Eq, Structural, Debug)]
pub enum RangeSpec {
    /// `bytes=100-`: from an offset to the end of the file.
    FromTo(u64),
    /// `bytes=100-200`: from an offset to an inclusive end offset.
    FromToInclusive(u64, u64),
    /// `bytes=-100`: the final `length` bytes of the file.
    SuffixLength(u64),
}

/// What `actual_range` must return, spelled out case by case.
pub open spec fn spec_resolve_range(spec: RangeSpec, file_size: u64) -> Option<ByteRange> {
    match spec {
        RangeSpec::FromTo(start) => if start < file_size {
            Some(ByteRange { start, end: file_size })
        } else {
            None
        },
        RangeSpec::FromToInclusive(start, end_incl) => if start <= end_incl && start < file_size {
            Some(
                ByteRange {
                    start,
                    end: vstd::math::min(file_size as int, end_incl as int + 1) as u64,
                },
            )
        } else {
            None
        },
        RangeSpec::SuffixLength(length) => if length > 0 {
            Some(
                ByteRange {
                    start: if file_size > length {
                        (file_size - length) as u64
                    } else {
                        0
                    },
                    end: file_size,
                },
            )
        } else {
            None
        },
    }
}

/// Convert a range from the header into a concrete range of the file,
/// or `None` when the request cannot be satisfied against this size.
pub fn actual_range(byte_range: RangeSpec, file_size: u64) -> (r: Option<ByteRange>)
    ensures
        r == spec_resolve_range(byte_range, file_size),
{
    match byte_range {
        RangeSpec::FromTo(start) => {
            if start < file_size {
                Some(ByteRange { start, end: file_size })
            } else {
                None
            }
        },
        RangeSpec::FromToInclusive(start, end_incl) => {
            if start <= end_incl && start < file_size {
                let end = if file_size <= end_incl {
                    file_size
                } else {
                    end_incl + 1
                };
                Some(ByteRange { start, end })
            } else {
                None
            }
        },
        RangeSpec::SuffixLength(length) => {
            if length > 0 {
                Some(ByteRange { start: file_size.saturating_sub(length), end: file_size })
            } else {
                None
            }
        },
    }
}

/// `r` spans the byte offset `x`.
pub open spec fn range_covers(r: ByteRange, x: int) -> bool {
    r.start <= x < r.end
}

/// Some range in `rs` spans the byte offset `x`.
pub open spec fn covers(rs: Seq<ByteRange>, x: int) -> bool {
    exists|i: int| 0 <= i < rs.len() && range_covers(rs[i], x)
}

/// Every range is non-empty and ranges appear in ascending order with a
/// gap between neighbours: the normal form that `merge_ranges` produces.
pub open spec fn merged_wf(rs: Seq<ByteRange>) -> bool {
    &&& forall|i: int| 0 <= i < rs.len() ==> rs[i].start < rs[i].end
    &&& forall|i: int| 0 <= i < rs.len() - 1 ==> #[trigger] rs[i].end < rs[i + 1].start
}

pub open spec fn sorted_by_start(rs: Seq<ByteRange>) -> bool {
    forall|i: int, j: int| 0 <= i <= j < rs.len() ==> #[trigger] rs[i].start <= #[trigger] rs[j].start
}

proof fn lemma_insert_covers(s: Seq<ByteRange>, pos: int, v: ByteRange, x: int)
    requires
        0 <= pos <= s.len(),
    ensures
        covers(s.insert(pos, v), x) == (covers(s, x) || range_covers(v, x)),
{
    let s2 = s.insert(pos, v);
    if covers(s2, x) {
        let k = choose|k: int| 0 <= k < s2.len() && range_covers(s2[k], x);
        if k < pos {
            assert(range_covers(s[k], x));
        } else if k > pos {
            assert(range_covers(s[k - 1], x));
        }
    }
    if covers(s, x) {
        let k = choose|k: int| 0 <= k < s.len() && range_covers(s[k], x);
        if k < pos {
            assert(range_covers(s2[k], x));
        } else {
            assert(range_covers(s2[k + 1], x));
        }
    }
    if range_covers(v, x) {
        assert(range_covers(s2[pos], x));
    }
}

fn sort_by_start(ranges: &Vec<ByteRange>) -> (r: Vec<ByteRange>)
    requires
        forall|i: int| 0 <= i < ranges@.len() ==> #[trigger] ranges@[i].start <= ranges@[i].end,
    ensures
        r@.len() == ranges@.len(),
        sorted_by_start(r@),
        forall|x: int| covers(r@, x) == covers(ranges@, x),
        forall|i: int| 0 <= i < r@.len() ==> #[trigger] r@[i].start <= r@[i].end,
{
    let mut r: Vec<ByteRange> = Vec::new();
    let mut i: usize = 0;
    while i < ranges.len()
        invariant
            i <= ranges@.len(),
            r@.len() == i,
            sorted_by_start(r@),
            forall|x: int| covers(r@, x) == covers(ranges@.take(i as int), x),
            forall|j: int| 0 <= j < ranges@.len() ==> #[trigger] ranges@[j].start <= ranges@[j].end,
            forall|k: int| 0 <= k < r@.len() ==> #[trigger] r@[k].start <= r@[k].end,
        decreases ranges@.len() - i,
    {
        let elem = ranges[i];
        let mut pos: usize = 0;
        while pos < r.len() && r[pos].start <= elem.start
            invariant
                pos <= r@.len(),
                forall|k: int| 0 <= k < pos ==> #[trigger] r@[k].start <= elem.start,
            decreases r@.len() - pos,
    {
            pos += 1;
        }
        let ghost old_r = r@;
        r.insert(pos, elem);
        proof {
            assert forall|p: int, q: int| 0 <= p <= q < r@.len() implies #[trigger] r@[p].start
                <= #[trigger] r@[q].start by {
                if p < pos && q >= pos + 1 {
                    assert(old_r[p].start <= elem.start);
                    if q > pos {
                        assert(elem.start <= old_r[q - 1].start || old_r[pos as int].start
                            > elem.start);
                    }
                }
            }
            assert(sorted_by_start(r@));
            assert(ranges@.take(i + 1) =~= ranges@.take(i as int).push(ranges@[i as int]));
            assert(ranges@.take(i as int).push(elem) =~= ranges@.take(i as int).insert(
                i as int,
                elem,
            ));
            assert forall|x: int| covers(r@, x) == covers(ranges@.take(i + 1), x) by {
                lemma_insert_covers(old_r, pos as int, elem, x);
                lemma_insert_covers(ranges@.take(i as int), i as int, elem, x);
            }
        }
        i += 1;
    }
    proof {
        assert(ranges@.take(ranges@.len() as int) =~= ranges@);
    }
    r
}

/// Some range at index `i` or later spans the byte offset `x`.
spec fn covers_from(rs: Seq<ByteRange>, from: int, x: int) -> bool {
    exists|i: int| from <= i < rs.len() && range_covers(rs[i], x)
}

/// Sort the ranges, drop the empty ones, and fold overlapping or touching
/// neighbours together: the result is the minimal ascending, gap-separated
/// list of non-empty ranges spanning exactly the same byte offsets.
pub fn merge_ranges(ranges: Vec<ByteRange>) -> (r: Vec<ByteRange>)
    requires
        forall|i: int| 0 <= i < ranges@.len() ==> #[trigger] ranges@[i].start <= ranges@[i].end,
    ensures
        merged_wf(r@),
        forall|x: int| covers(r@, x) == covers(ranges@, x),
        r@.len() <= ranges@.len(),
{
    let sorted = sort_by_start(&ranges);
    let mut r: Vec<ByteRange> = Vec::new();
    let mut i: usize = 0;
    while i < sorted.len()
        invariant
            i <= sorted@.len(),
            r@.len() <= i,
            sorted_by_start(sorted@),
            forall|j: int| 0 <= j < sorted@.len() ==> #[trigger] sorted@[j].start
                <= sorted@[j].end,
            merged_wf(r@),
            forall|x: int|
                (covers(r@, x) || covers_from(sorted@, i as int, x)) == covers(sorted@, x),
            r@.len() > 0 && i < sorted@.len() ==> r@.last().start <= sorted@[i as int].start,
        decreases sorted@.len() - i,
    {
        let cur = sorted[i];
        let ghost old_r = r@;
        if cur.start == cur.end {
            // empty ranges span nothing and are dropped
            proof {
                assert forall|x: int|
                    (covers(r@, x) || covers_from(sorted@, i + 1, x)) == covers(
                        sorted@,
                        x,
                    ) by {
                    if covers_from(sorted@, i as int, x) && !covers_from(sorted@, i + 1, x) {
                        assert(range_covers(sorted@[i as int], x));
                    }
                }
            }
        } else if r.len() == 0 {
            r.push(cur);
            proof {
                assert forall|x: int|
                    (covers(r@, x) || covers_from(sorted@, i + 1, x)) == covers(
                        sorted@,
                        x,
                    ) by {
                    assert(r@[0] == cur);
                    if range_covers(cur, x) {
                        assert(covers(r@, x));
                    }
                    if covers_from(sorted@, i as int, x) && !covers_from(sorted@, i + 1, x) {
                        assert(range_covers(sorted@[i as int], x));
                    }
                    if covers(r@, x) && !range_covers(cur, x) {
                        let k = choose|k: int| 0 <= k < r@.len() && range_covers(r@[k], x);
                        assert(k == 0);
                    }
                }
            }
        } else {
            let last_idx = r.len() - 1;
            let last = r[last_idx];
            if last.end < cur.start {
                r.push(cur);
                proof {
                    assert forall|p: int| 0 <= p < r@.len() - 1 implies #[trigger] r@[p].end < r@[p
                        + 1].start by {
                        if p < r@.len() - 2 {
                            assert(old_r[p].end < old_r[p + 1].start);
                        }
                    }
                    assert forall|x: int|
                        (covers(r@, x) || covers_from(sorted@, i + 1, x)) == covers(
                            sorted@,
                            x,
                        ) by {
                        if range_covers(cur, x) {
                            assert(range_covers(r@[r@.len() - 1], x));
                        }
                        if covers(old_r, x) {
                            let k = choose|k: int| 0 <= k < old_r.len() && range_covers(
                                old_r[k],
                                x,
                            );
                            assert(range_covers(r@[k], x));
                        }
                        if covers_from(sorted@, i as int, x) && !covers_from(sorted@, i + 1, x) {
                            assert(range_covers(sorted@[i as int], x));
                        }
                        if covers(r@, x) {
                            let k = choose|k: int| 0 <= k < r@.len() && range_covers(r@[k], x);
                            if k < r@.len() - 1 {
                                assert(range_covers(old_r[k], x));
                            } else {
                                assert(range_covers(cur, x));
                            }
                        }
                    }
                }
            } else {
                // cur overlaps or touches the last merged range: extend it
                let new_end = if last.end < cur.end {
                    cur.end
                } else {
                    last.end
                };
                let merged = ByteRange { start: last.start, end: new_end };
                r[last_idx] = merged;
                proof {
                    let li = last_idx as int;
                    assert(r@ =~= old_r.update(li, merged));
                    assert forall|x: int|
                        (covers(r@, x) || covers_from(sorted@, i + 1, x)) == covers(
                            sorted@,
                            x,
                        ) by {
                        assert(last.start <= cur.start);
                        if range_covers(merged, x) {
                            assert(range_covers(r@[li], x));
                            assert(range_covers(last, x) || range_covers(cur, x));
                        }
                        if range_covers(last, x) || range_covers(cur, x) {
                            assert(range_covers(r@[li], x));
                        }
                        if covers(old_r, x) {
                            let k = choose|k: int| 0 <= k < old_r.len() && range_covers(
                                old_r[k],
                                x,
                            );
                            if k < li {
                                assert(range_covers(r@[k], x));
                            } else {
                                assert(range_covers(r@[li], x));
                            }
                        }
                        if covers_from(sorted@, i as int, x) && !covers_from(sorted@, i + 1, x) {
                            assert(range_covers(sorted@[i as int], x));
                        }
                        if covers(r@, x) {
                            let k = choose|k: int| 0 <= k < r@.len() && range_covers(r@[k], x);
                            if k < li {
                                assert(range_covers(old_r[k], x));
                            }
                        }
                    }
                }
            }
        }
        i += 1;
    }
    proof {
        assert forall|x: int| covers(r@, x) == covers(ranges@, x) by {
            assert(!covers_from(sorted@, sorted@.len() as int, x));
        }
    }
    r
}

proof fn lemma_merged_gap(a: Seq<ByteRange>, i: int, j: int)
    requires
        merged_wf(a),
        0 <= i < j < a.len(),
    ensures
        a[i].end < a[j].start,
    decreases j - i,
{
    if i + 1 < j {
        lemma_merged_gap(a, i + 1, j);
    }
}

/// The merged normal form is canonical: two ascending, gap-separated
/// lists of non-empty ranges that span exactly the same byte offsets are
/// the same list. In particular `merge_ranges` gives one result for every
/// ordering or overlapping presentation of the same spans.
#[verifier::rlimit(60)]
pub proof fn lemma_merged_unique(a: Seq<ByteRange>, b: Seq<ByteRange>)
    requires
        merged_wf(a),
        merged_wf(b),
        forall|x: int| covers(a, x) == covers(b, x),
    ensures
        a == b,
    decreases a.len(),
{
    if a.len() == 0 {
        if b.len() > 0 {
            assert(range_covers(b[0], b[0].start as int));
            assert(covers(b, b[0].start as int));
            assert(false);
        }
        assert(a =~= b);
    } else if b.len() == 0 {
        assert(range_covers(a[0], a[0].start as int));
        assert(covers(a, a[0].start as int));
        assert(false);
    } else {
        // both heads start at the least covered offset
        assert(range_covers(a[0], a[0].start as int));
        assert(covers(b, a[0].start as int));
        assert(range_covers(b[0], b[0].start as int));
        assert(covers(a, b[0].start as int));
        assert(a[0].start == b[0].start) by {
            if a[0].start < b[0].start {
                let k = choose|k: int| 0 <= k < b.len() && range_covers(b[k], a[0].start as int);
                if k > 0 {
                    lemma_merged_gap(b, 0, k);
                }
                assert(false);
            }
            if b[0].start < a[0].start {
                let k = choose|k: int| 0 <= k < a.len() && range_covers(a[k], b[0].start as int);
                if k > 0 {
                    lemma_merged_gap(a, 0, k);
                }
                assert(false);
            }
        }
        // and end at the first uncovered offset after it
        assert(a[0].end == b[0].end) by {
            if a[0].end < b[0].end {
                assert(range_covers(b[0], a[0].end as int));
                assert(covers(a, a[0].end as int));
                let k = choose|k: int| 0 <= k < a.len() && range_covers(a[k], a[0].end as int);
                if k > 0 {
                    lemma_merged_gap(a, 0, k);
                }
                assert(false);
            }
            if b[0].end < a[0].end {
                assert(range_covers(a[0], b[0].end as int));
                assert(covers(b, b[0].end as int));
                let k = choose|k: int| 0 <= k < b.len() && range_covers(b[k], b[0].end as int);
                if k > 0 {
                    lemma_merged_gap(b, 0, k);
                }
                assert(false);
            }
        }
        let ta = a.drop_first();
        let tb = b.drop_first();
        assert forall|x: int| covers(ta, x) == covers(tb, x) by {
            if covers(ta, x) {
                let k = choose|k: int| 0 <= k < ta.len() && range_covers(ta[k], x);
                assert(ta[k] == a[k + 1]);
                lemma_merged_gap(a, 0, k + 1);
                assert(covers(a, x));
                let m = choose|m: int| 0 <= m < b.len() && range_covers(b[m], x);
                assert(m > 0) by {
                    if m == 0 {
                        assert(x < a[0].end);
                    }
                }
                assert(range_covers(tb[m - 1], x));
            }
            if covers(tb, x) {
                let k = choose|k: int| 0 <= k < tb.len() && range_covers(tb[k], x);
                assert(tb[k] == b[k + 1]);
                lemma_merged_gap(b, 0, k + 1);
                assert(covers(b, x));
                let m = choose|m: int| 0 <= m < a.len() && range_covers(a[m], x);
                assert(m > 0) by {
                    if m == 0 {
                        assert(x < b[0].end);
                    }
                }
                assert(range_covers(ta[m - 1], x));
            }
        }
        lemma_merged_unique(ta, tb);
        assert(a[0] == b[0]);
        assert forall|i: int| 0 <= i < a.len() implies a[i] == b[i] by {
            if i > 0 {
                assert(a[i] == ta[i - 1]);
                assert(b[i] == tb[i - 1]);
            }
        }
        assert(a =~= b);
    }
}

/// Pre-allocation size for a read: `min(remain, max_buffer_size)`, clamped
/// into `usize` range.
pub fn buffer_size(remain: u64, max_buffer_size: usize) -> (r: usize)
    ensures
        r == vstd::math::min(remain as int, max_buffer_size as int),
{
    if remain > usize::MAX as u64 {
        max_buffer_size
    } else if (remain as usize) < max_buffer_size {
        remain as usize
    } else {
        max_buffer_size
    }
}

/// The validator the server hands out for a resource: the modification
/// time and the size, each in lower-case hexadecimal, joined by a dash.
/// It changes exactly when one of the two changes.
pub open spec fn spec_etag(last_modified: u64, size: u64) -> Seq<char> {
    hex_str(last_modified as int) + "-"@ + hex_str(size as int)
}

pub fn make_etag(last_modified: u64, size: u64) -> (r: String)
    ensures
        r@ == spec_etag(last_modified, size),
{
    let mut s = u64_to_hex_string(last_modified);
    s.append("-");
    let t = u64_to_hex_string(size);
    s.append(t.as_str());
    s
}

/// How a served file should be presented by a browser.
#[derive(Clone, Copy, PartialEq, Eq, Structural, Debug)]
pub enum DispositionType {
    Inline,
    Attachment,
}

impl DispositionType {
    pub open spec fn spec_text(self) -> Seq<char> {
        match self {
            DispositionType::Inline => "inline"@,
            DispositionType::Attachment => "attachment"@,
        }
    }

    /// The token this disposition puts on the wire.
    pub fn text(&self) -> (r: &'static str)
        ensures
            r@ == self.spec_text(),
    {
        match self {
            DispositionType::Inline => "inline",
            DispositionType::Attachment => "attachment",
        }
    }

    /// Images, text and video are shown inline; everything else is
    /// offered as a download.
    pub fn from_mime_top(top: &str) -> (r: DispositionType)
        ensures
            r == (if top@ == "image"@ || top@ == "text"@ || top@ == "video"@ {
                DispositionType::Inline
            } else {
                DispositionType::Attachment
            }),
    {
        if crate::strings::str_eq(top, "image") || crate::strings::str_eq(top, "text")
            || crate::strings::str_eq(top, "video") {
            DispositionType::Inline
        } else {
            DispositionType::Attachment
        }
    }
}

/// The characters an encoder may substitute for `s` when it places it in
/// a quoted header parameter.
pub uninterp spec fn percent_encoded(s: Seq<char>) -> Seq<char>;

/// Relies on percent_encoding::utf8_percent_encode with the
/// NON_ALPHANUMERIC set: the encoding of a string depends on its
/// characters alone.
#[verifier::external_body]
fn percent_encode_component(s: &str) -> (r: String)
    ensures
        r@ == percent_encoded(s@),
{
    percent_encoding::utf8_percent_encode(s, percent_encoding::NON_ALPHANUMERIC).to_string()
}

/// The value of a `Content-Disposition` header: the disposition type,
/// and the file's name when one is known.
pub struct ContentDisposition {
    pub ty: DispositionType,
    pub filename: Option<String>,
}

impl ContentDisposition {
    pub open spec fn spec_value(self) -> Seq<char> {
        match self.filename {
            None => self.ty.spec_text(),
            Some(f) => self.ty.spec_text() + "; filename*=\""@ + percent_encoded(f@) + "\""@,
        }
    }

    pub fn header_value(&self) -> (r: String)
        ensures
            r@ == self.spec_value(),
    {
        match &self.filename {
            None => {
                let mut s = String::new();
                s.append(self.ty.text());
                proof {
                    assert(s@ =~= self.spec_value());
                }
                s
            },
            Some(f) => {
                let mut s = String::new();
                s.append(self.ty.text());
                s.append("; filename*=\"");
                let enc = percent_encode_component(f.as_str());
                s.append(enc.as_str());
                s.append("\"");
                proof {
                    assert(s@ =~= self.spec_value());
                }
                s
            },
        }
    }
}

} // verus!
