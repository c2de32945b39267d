//! Instants on the chart's time axis.
//!
//! An instant is held as plain numbers; `chrono` reads the text of one.

use chrono::format::ParseError;
use chrono::{DateTime, NaiveDateTime};
use std::fmt::Write;
use vstd::prelude::*;

verus! {

/// A UTC instant: whole seconds since the start of 1970 and the nanoseconds
/// past that second.
#[derive(Clone, Copy, Debug, PartialEq, Eq, Structural)]
pub struct Timestamp {
    pub secs: i64,
    pub nanos: u32,
}

impl Timestamp {
    /// A single number by which instants are ordered: seconds first, then
    /// nanoseconds.
    pub open spec fn key(self) -> int {
        self.secs as int * 0x1_0000_0000 + self.nanos as int
    }

    /// Whether `self` lies before `other`.
    pub fn before(self, other: Timestamp) -> (r: bool)
        ensures
            r == (self.key() < other.key()),
    {
        self.secs < other.secs || (self.secs == other.secs && self.nanos < other.nanos)
    }
}

/// Instants with the same key are the same instant.
pub proof fn lemma_key_identifies(a: Timestamp, b: Timestamp)
    ensures
        a.key() == b.key() <==> a == b,
{
}

/// `chrono::format::ParseError`: why a text is no instant, carried through
/// unread.
#[verifier::external_type_specification]
#[verifier::external_body]
pub struct ExParseError(ParseError);

/// The seconds and nanoseconds of the instant that `chrono` reads from a
/// text in a given format, taken as UTC; `None` where it rejects the text.
pub uninterp spec fn parsed_instant(text: Seq<char>, format: Seq<char>) -> Option<(i64, u32)>;

/// `NaiveDateTime::parse_from_str`, the result taken as UTC: the outcome
/// depends on the text and the format alone.
#[verifier::external_body]
pub(crate) fn parse_instant(text: &str, format: &str) -> (r: Result<Timestamp, ParseError>)
    ensures
        match r {
            Ok(t) => parsed_instant(text@, format@) == Some((t.secs, t.nanos)),
            Err(_) => parsed_instant(text@, format@) is None,
        },
{
    match NaiveDateTime::parse_from_str(text, format) {
        Ok(naive) => {
            let utc = naive.and_utc();
            Ok(Timestamp { secs: utc.timestamp(), nanos: utc.timestamp_subsec_nanos() })
        },
        Err(e) => Err(e),
    }
}

/// The text that `chrono` writes for an instant in a given format; `None`
/// where the instant lies outside the range of its dates or the format
/// cannot be written.
pub uninterp spec fn formatted_instant(secs: i64, nanos: u32, format: Seq<char>) -> Option<
    Seq<char>,
>;

/// `DateTime::from_timestamp` and `DateTime::format`: the text depends on
/// the instant and the format alone.
#[verifier::external_body]
pub(crate) fn format_instant(instant: Timestamp, format: &str) -> (r: Option<String>)
    ensures
        match r {
            Some(text) => formatted_instant(instant.secs, instant.nanos, format@) == Some(text@),
            None => formatted_instant(instant.secs, instant.nanos, format@) is None,
        },
{
    let utc = DateTime::from_timestamp(instant.secs, instant.nanos)?;
    let mut text = String::new();
    match write!(text, "{}", utc.format(format)) {
        Ok(()) => Some(text),
        Err(_) => None,
    }
}

} // verus!
