//! The trusted bridge to chrono: timestamps as plain text.
//!
//! The index stores each entry's last access as an RFC 3339 timestamp with
//! the local offset; backup files carry a compact UTC stamp in their name.
//! The library never computes with calendars — it only obtains "now" as text
//! and recognizes valid timestamps.

use vstd::prelude::*;

verus! {

/// The timestamp texts that chrono's RFC 3339 parser accepts.
pub uninterp spec fn spec_is_rfc3339(s: Seq<char>) -> bool;

/// Relies on chrono::DateTime::parse_from_rfc3339: whether a text is a valid
/// RFC 3339 timestamp is a function of the text alone.
#[verifier::external_body]
pub fn is_rfc3339(text: &str) -> (r: bool)
    ensures
        r == spec_is_rfc3339(text@),
{
    chrono::DateTime::parse_from_rfc3339(text).is_ok()
}

/// Relies on chrono::Local::now and to_rfc3339: the current local time,
/// rendered as RFC 3339 text. The result depends on the clock, so nothing is
/// assumed of it — a clock set to a five-digit year renders a text chrono's
/// own parser refuses, so callers validate what they record. Aborts when the
/// clock is before the Unix epoch or past chrono's supported range.
#[verifier::external_body]
pub fn now_rfc3339() -> (r: String) {
    chrono::Local::now().to_rfc3339()
}

/// Relies on chrono::Utc::now and format: the current UTC time as the compact
/// stamp used in backup file names. The time depends on the clock, so nothing
/// is assumed of the result. Aborts when the clock is before the Unix epoch
/// or past chrono's supported range.
#[verifier::external_body]
pub fn now_compact_utc() -> (r: String) {
    chrono::Utc::now().format("%Y%m%dT%H%M%SZ").to_string()
}

} // verus!
