//! Instants in text.

use crate::table;
use vstd::prelude::*;

verus! {

/// The text of the instant `ms` milliseconds after the Unix epoch, if it is in the range of
/// instants that can be written.
pub uninterp spec fn timestamp_text(ms: i64) -> Option<Seq<char>>;

/// `jiff::Timestamp::from_millisecond` gives the instant, or none outside its range, and its
/// `Display` the RFC 3339 text of the instant in UTC. Both follow from the number alone.
#[verifier::external_body]
fn write_timestamp(ms: i64) -> (r: Option<String>)
    ensures
        table::view_option(r) == timestamp_text(ms),
{
    jiff::Timestamp::from_millisecond(ms).ok().map(|t| t.to_string())
}

/// The instant in text; empty where it cannot be written.
pub open spec fn iso(ms: i64) -> Seq<char> {
    match timestamp_text(ms) {
        Some(t) => t,
        None => Seq::empty(),
    }
}

pub fn iso_from_millis(ms: i64) -> (r: String)
    ensures
        r@ == iso(ms),
{
    match write_timestamp(ms) {
        Some(t) => t,
        None => String::new(),
    }
}

/// The nanoseconds after the Unix epoch that a text denotes, or the message why it denotes none.
pub uninterp spec fn timestamp_read(s: Seq<char>) -> Result<i128, Seq<char>>;

pub open spec fn read_view(r: Result<i128, String>) -> Result<i128, Seq<char>> {
    match r {
        Ok(n) => Ok(n),
        Err(message) => Err(message@),
    }
}

/// `str::parse::<jiff::Timestamp>` reads an instant with its offset; the instant, or the
/// message of the error, follows from the text alone.
#[verifier::external_body]
pub(crate) fn read_timestamp(s: &str) -> (r: Result<i128, String>)
    ensures
        read_view(r) == timestamp_read(s@),
{
    s.parse::<jiff::Timestamp>().map(|t| t.as_nanosecond()).map_err(|e| e.to_string())
}

} // verus!
