//! HTTP dates in RFC 2822 form, read and written by `chrono`.
use vstd::prelude::*;
use crate::context::HttpDate;

verus! {

/// The moment that `chrono` reads from an RFC 2822 date such as
/// `Tue, 1 Jul 2003 10:52:37 +0200`, or `None` when it does not read one.
pub uninterp spec fn rfc2822_date(text: Seq<char>) -> Option<HttpDate>;

/// The RFC 2822 text that `chrono` writes for a moment, in the moment's own offset, or
/// `None` when `chrono` cannot form the moment.
pub uninterp spec fn rfc2822_text(seconds: i64, nanos: u32, offset: i32) -> Option<Seq<char>>;

/// The local time of the moment (its seconds plus its offset) lies in the years 0 to 9999,
/// the years that RFC 2822 can write.
pub open spec fn representable(d: HttpDate) -> bool {
    -62_167_219_200 <= d.seconds + d.offset <= 253_402_300_799
}

/// Reads an RFC 2822 date with `chrono::DateTime::parse_from_rfc2822`. The contract names
/// the result `rfc2822_date` of the text and states the one fact that chrono's `FixedOffset`
/// guarantees of every parsed date: its offset is less than a day either way. Which texts
/// chrono accepts, and the moment it reads, are not stated.
#[verifier::external_body]
pub(crate) fn parse_rfc2822(text: &str) -> (r: Option<HttpDate>)
    ensures
        r == rfc2822_date(text@),
        r matches Some(d) ==> -86_400 < d.offset < 86_400,
{
    match chrono::DateTime::parse_from_rfc2822(text) {
        Ok(d) => Some(
            HttpDate {
                seconds: d.timestamp(),
                nanos: d.timestamp_subsec_nanos(),
                offset: d.offset().local_minus_utc(),
            },
        ),
        Err(_) => None,
    }
}

/// A moment that `chrono` can form: its offset is less than a day either way, and its
/// nanoseconds are under a second, or under two seconds in the last second of a minute (a
/// leap second).
pub open spec fn formable(d: HttpDate) -> bool {
    &&& -86_400 < d.offset < 86_400
    &&& d.nanos < 1_000_000_000 || (d.nanos < 2_000_000_000 && d.seconds % 60 == 59)
}

/// Writes a moment in RFC 2822 form with `chrono`: `DateTime::from_timestamp` forms the
/// moment, `FixedOffset::east_opt` its offset, and `to_rfc2822` the text. The contract names
/// the result `rfc2822_text` of the moment's three fields and says when there is one: exactly
/// when `east_opt` accepts the offset and `from_timestamp` the nanoseconds (the date range of
/// `from_timestamp` holds every representable moment). The text itself is not stated.
/// `to_rfc2822` panics on a local year outside 0 to 9999, which `requires` leaves out.
#[verifier::external_body]
pub(crate) fn format_rfc2822(d: &HttpDate) -> (r: Option<String>)
    requires
        representable(*d),
    ensures
        r.deep_view() == rfc2822_text(d.seconds, d.nanos, d.offset),
        r is Some <==> formable(*d),
{
    match (chrono::DateTime::from_timestamp(d.seconds, d.nanos), chrono::FixedOffset::east_opt(d.offset)) {
        (Some(utc), Some(offset)) => Some(utc.with_timezone(&offset).to_rfc2822()),
        _ => None,
    }
}

/// Whether the moment can be written in RFC 2822 form.
pub fn is_representable(d: &HttpDate) -> (r: bool)
    ensures
        r == representable(*d),
{
    let local: i128 = d.seconds as i128 + d.offset as i128;
    -62_167_219_200i128 <= local && local <= 253_402_300_799i128
}

} // verus!
