//! Execution times written by operators as `YYYY-MM-DD HH:MM:SS` (UTC), read
//! as milliseconds since the Unix epoch with chrono.
use vstd::prelude::*;
use crate::text::{split_spaces, split_spans};

verus! {

/// The format of an operator's execution time.
pub const TIMESTAMP_FORMAT: &'static str = "%Y-%m-%d %H:%M:%S";

/// What chrono makes of `text` read in the format `fmt` as a UTC date and
/// time: the milliseconds since the Unix epoch, or the message of the parse
/// error.
///
/// This names the outcome of a chain of three chrono calls, not of a single
/// function: `NaiveDateTime::parse_from_str(text, fmt)`, then
/// `TimeZone::from_utc_datetime` on `Utc`, then `DateTime::timestamp_millis`;
/// on a parse error it is the error's printed text (`to_string` of chrono's
/// `ParseError`). Each step depends on its arguments alone: none reads a
/// locale, the clock or the environment.
pub uninterp spec fn chrono_utc_millis(text: Seq<char>, fmt: Seq<char>) -> Result<i64, Seq<char>>;

/// Calls chrono's `NaiveDateTime::parse_from_str(text, fmt)`, takes the
/// result as a UTC time (`Utc.from_utc_datetime`) and returns its
/// `timestamp_millis()`; a parse error comes back as its printed message.
/// Trusted: the result equals `chrono_utc_millis(text, fmt)`, a function of
/// the two strings alone; nothing more is stated of chrono's parsing.
#[verifier::external_body]
fn parse_utc_millis(text: &str, fmt: &str) -> (r: Result<i64, String>)
    ensures
        match chrono_utc_millis(text@, fmt@) {
            Ok(ms) => r matches Ok(v) && v == ms,
            Err(e) => r matches Err(msg) && msg@ == e,
        },
{
    match chrono::NaiveDateTime::parse_from_str(text, fmt) {
        Ok(dt) => Ok(chrono::TimeZone::from_utc_datetime(&chrono::Utc, &dt).timestamp_millis()),
        Err(e) => Err(e.to_string()),
    }
}

/// What `timestamp_to_epoch` gives for `s`, given what chrono makes of it.
pub open spec fn epoch_of(s: Seq<char>, parsed: Result<i64, Seq<char>>) -> Result<u64, Seq<char>> {
    if split_spaces(s).len() != 2 {
        Err("Invalid timestamp format"@)
    } else {
        match parsed {
            Ok(ms) => Ok(ms as u64),
            Err(e) => Err("Failed to parse timestamp: "@ + e),
        }
    }
}

/// Reads an execution time `YYYY-MM-DD HH:MM:SS` (exactly one space between
/// date and time) as milliseconds since the Unix epoch, in UTC.
pub fn timestamp_to_epoch(timestamp: String) -> (r: Result<u64, String>)
    ensures
        match epoch_of(timestamp@, chrono_utc_millis(timestamp@, TIMESTAMP_FORMAT@)) {
            Ok(v) => r matches Ok(x) && x == v,
            Err(e) => r matches Err(x) && x@ == e,
        },
{
    let s = timestamp.as_str();
    let spans = split_spans(s);
    if spans.len() != 2 {
        return Err(String::from_str("Invalid timestamp format"));
    }
    let parsed = parse_utc_millis(s, TIMESTAMP_FORMAT);
    epoch_from_parsed(s, parsed)
}

/// What `timestamp_to_epoch` returns, given what chrono made of the text:
/// every value of the chrono result is handled as the contract of
/// `timestamp_to_epoch` says.
pub fn epoch_from_parsed(timestamp: &str, parsed: Result<i64, String>) -> (r: Result<u64, String>)
    ensures
        match epoch_of(
            timestamp@,
            match parsed {
                Ok(ms) => Ok(ms),
                Err(e) => Err(e@),
            },
        ) {
            Ok(v) => r matches Ok(x) && x == v,
            Err(e) => r matches Err(x) && x@ == e,
        },
{
    let spans = split_spans(timestamp);
    if spans.len() != 2 {
        return Err(String::from_str("Invalid timestamp format"));
    }
    match parsed {
        Ok(ms) => Ok(ms as u64),
        Err(e) => {
            let mut msg = String::from_str("Failed to parse timestamp: ");
            msg.append(e.as_str());
            Err(msg)
        },
    }
}

} // verus!
