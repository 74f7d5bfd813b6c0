//! Timestamps: the server clock and the RFC 3339 text form in which the
//! protocol exchanges instants.
//!
//! Inside the engine an instant is an `i64`, microseconds since the Unix
//! epoch. The two text conversions below are deterministic functions of their
//! argument; their values are named by uninterpreted spec functions, and every
//! contract about them goes through those names.

use vstd::prelude::*;

use crate::errors::SyncError;

verus! {

/// The instant, in microseconds since the Unix epoch, that the relaxed
/// RFC 3339 parser accepts this text as, or `None` where it rejects the text.
pub uninterp spec fn rfc3339_micros(s: Seq<char>) -> Option<int>;

/// The RFC 3339 rendering of the instant `t` microseconds since the Unix
/// epoch, for `t` within chrono's representable range.
pub uninterp spec fn rfc3339_text(t: int) -> Seq<char>;

/// Instants this far (about 253,000 years) on either side of the epoch stay
/// well inside chrono's documented range of roughly 262,000 years around the
/// common era, so rendering them as text cannot fail.
pub open spec fn renderable_micros(t: int) -> bool {
    -8000000000000000000 <= t <= 8000000000000000000
}

/// The current server time in microseconds since the Unix epoch.
///
/// Relies on `chrono::Utc::now`, converted by `timestamp_micros`. Nothing can
/// be promised of a clock reading.
#[verifier::external_body]
pub fn now_micros() -> (r: i64) {
    chrono::Utc::now().timestamp_micros()
}

/// Parses a timestamp from its protocol text form.
///
/// Relies on chrono's `FromStr for DateTime<Utc>` (a relaxed RFC 3339
/// parser), converted by `timestamp_micros`; both are deterministic in `s`.
/// `timestamp_micros` cannot overflow on a parsed value: every representable
/// date lies within about 262,000 years of the epoch, under the i64
/// microsecond limit of about 292,000 years.
#[verifier::external_body]
pub fn parse_rfc3339(s: &str) -> (r: Option<i64>)
    ensures
        match r {
            Some(t) => rfc3339_micros(s@) == Some(t as int),
            None => rfc3339_micros(s@) is None,
        },
{
    s.parse::<chrono::DateTime<chrono::Utc>>().ok().map(|d| d.timestamp_micros())
}

/// Renders an instant in the protocol text form.
///
/// Relies on chrono's `DateTime::from_timestamp_micros`, which is documented
/// to return `Some` for every instant within about 262,000 years of the
/// common era and `None` beyond, and on `to_rfc3339`, which cannot fail; both
/// are deterministic in `t`.
#[verifier::external_body]
pub fn format_rfc3339(t: i64) -> (r: Option<String>)
    ensures
        r matches Some(s) ==> s@ == rfc3339_text(t as int),
        renderable_micros(t as int) ==> r is Some,
{
    chrono::DateTime::<chrono::Utc>::from_timestamp_micros(t).map(|d| d.to_rfc3339())
}

/// Renders the server time that closes a response, falling back to empty text
/// on a clock reading outside the representable range.
pub fn server_time_text(now: i64) -> (r: String)
    ensures
        renderable_micros(now as int) ==> r@ == rfc3339_text(now as int),
        r@ == rfc3339_text(now as int) || r@ == Seq::<char>::empty(),
{
    match format_rfc3339(now) {
        Some(s) => s,
        None => String::new(),
    }
}

/// Interprets the watermark a client replays on `Pull`.
///
/// An absent watermark means "first sync": the whole live snapshot is wanted.
/// A present watermark must parse as an RFC 3339 instant; text that does not
/// parse is a malformed request, never treated as "no watermark".
pub fn parse_watermark(last_sync: &Option<String>) -> (r: Result<Option<i64>, SyncError>)
    ensures
        match *last_sync {
            None => r == Ok::<Option<i64>, SyncError>(None),
            Some(ref s) => match r {
                Ok(w) => w matches Some(t) && rfc3339_micros(s@) == Some(t as int),
                Err(e) => e == SyncError::BadRequest && rfc3339_micros(s@) is None,
            },
        },
{
    match last_sync {
        None => Ok(None),
        Some(s) => match parse_rfc3339(s.as_str()) {
            Some(t) => Ok(Some(t)),
            None => Err(SyncError::BadRequest),
        },
    }
}

} // verus!
