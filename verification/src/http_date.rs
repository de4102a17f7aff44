use vstd::prelude::*;

verus! {

/// First second of the year 10000: the formatter below refuses
/// timestamps from there on.
pub const HTTP_DATE_MAX_SECS: u64 = 253402300800;

/// The timestamp (in whole seconds since the Unix epoch) that a string
/// denotes when read as an HTTP date, or `None` when it is not one.
pub uninterp spec fn http_date_value(s: Seq<char>) -> Option<u64>;

/// The IMF-fixdate text of a timestamp given in whole seconds since the
/// Unix epoch.
pub uninterp spec fn http_date_string(secs: u64) -> Seq<char>;

/// Relies on httpdate::parse_http_date: whether a string parses as an HTTP
/// date, and as which timestamp, depends on the characters alone.
#[verifier::external_body]
pub(crate) fn parse_http_date_secs(s: &str) -> (r: Option<u64>)
    ensures
        r == http_date_value(s@),
{
    match httpdate::parse_http_date(s) {
        Ok(t) => match t.duration_since(std::time::UNIX_EPOCH) {
            Ok(d) => Some(d.as_secs()),
            Err(_) => None,
        },
        Err(_) => None,
    }
}

/// Relies on httpdate::fmt_http_date: the IMF-fixdate text of a timestamp
/// depends on the timestamp alone; the formatter only accepts dates before
/// the year 9999.
#[verifier::external_body]
pub(crate) fn fmt_http_date_secs(secs: u64) -> (r: String)
    requires
        secs < HTTP_DATE_MAX_SECS,
    ensures
        r@ == http_date_string(secs),
{
    httpdate::fmt_http_date(std::time::UNIX_EPOCH + std::time::Duration::from_secs(secs))
}

} // verus!
