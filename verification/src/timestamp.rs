//! Timestamps: RFC 3339 texts, ordered by the instant that each denotes.

use vstd::prelude::*;

verus! {

/// The instant that `chrono::DateTime::parse_from_rfc3339` reads from a text, as the pair that
/// `timestamp` and `timestamp_subsec_nanos` give for it: whole seconds since the Unix epoch,
/// and nanoseconds past that second. `None` where the text is refused.
pub uninterp spec fn rfc3339_instant(text: Seq<char>) -> Option<(i64, u32)>;

/// Calls `chrono::DateTime::parse_from_rfc3339` and hands out the seconds and the nanoseconds
/// of the instant it read. Nothing is claimed of which texts are read, nor of the instant: the
/// contract only gives the outcome its name.
#[verifier::external_body]
fn parse_rfc3339(text: &str) -> (r: Option<(i64, u32)>)
    ensures
        r == rfc3339_instant(text@),
{
    match chrono::DateTime::parse_from_rfc3339(text) {
        Ok(at) => Some((at.timestamp(), at.timestamp_subsec_nanos())),
        Err(_) => None,
    }
}

/// Calls `chrono::Utc::now` and writes the time with `to_rfc3339`. The clock decides what
/// comes back, so the contract claims nothing of it. `chrono` gives up where the system's
/// clock stands before 1970.
#[verifier::external_body]
pub(crate) fn clock_rfc3339() -> (r: String) {
    chrono::Utc::now().to_rfc3339()
}

/// The text denotes an instant.
pub open spec fn is_timestamp(text: Seq<char>) -> bool {
    rfc3339_instant(text) is Some
}

/// An optional text is absent or denotes an instant.
pub open spec fn is_opt_timestamp(text: Option<Seq<char>>) -> bool {
    match text {
        Some(t) => is_timestamp(t),
        None => true,
    }
}

/// The instant `a` is strictly later than `b`: seconds decide, then nanoseconds. This is the
/// order in which `chrono` compares the two `DateTime` values.
pub open spec fn instant_after(a: (i64, u32), b: (i64, u32)) -> bool {
    a.0 > b.0 || (a.0 == b.0 && a.1 > b.1)
}

/// Both texts denote instants, and that of `a` is strictly later than that of `b`.
pub open spec fn is_later(a: Seq<char>, b: Seq<char>) -> bool {
    match (rfc3339_instant(a), rfc3339_instant(b)) {
        (Some(x), Some(y)) => instant_after(x, y),
        _ => false,
    }
}

/// The text denotes an instant strictly later than the watermark; with no watermark every
/// text passes.
pub open spec fn is_after_mark(text: Seq<char>, mark: Option<(i64, u32)>) -> bool {
    match mark {
        Some(m) => match rfc3339_instant(text) {
            Some(x) => instant_after(x, m),
            None => false,
        },
        None => true,
    }
}

/// The instant that a text denotes.
pub fn instant_of(text: &str) -> (r: Option<(i64, u32)>)
    ensures
        r == rfc3339_instant(text@),
{
    parse_rfc3339(text)
}

/// Whether the text denotes an instant.
pub fn denotes_instant(text: &str) -> (r: bool)
    ensures
        r == is_timestamp(text@),
{
    parse_rfc3339(text).is_some()
}

/// Whether an optional text is absent or denotes an instant.
pub fn opt_denotes_instant(text: &Option<String>) -> (r: bool)
    ensures
        r == is_opt_timestamp(crate::text::opt_chars(*text)),
{
    match text {
        Some(t) => denotes_instant(t.as_str()),
        None => true,
    }
}

/// Whether the instant `a` is strictly later than `b`.
pub fn later_instant(a: (i64, u32), b: (i64, u32)) -> (r: bool)
    ensures
        r == instant_after(a, b),
{
    a.0 > b.0 || (a.0 == b.0 && a.1 > b.1)
}

/// Whether both texts denote instants and that of `a` is strictly later.
pub fn later(a: &str, b: &str) -> (r: bool)
    ensures
        r == is_later(a@, b@),
{
    match parse_rfc3339(a) {
        Some(x) => match parse_rfc3339(b) {
            Some(y) => later_instant(x, y),
            None => false,
        },
        None => false,
    }
}

/// Whether the text denotes an instant strictly later than the watermark, if there is one.
pub fn after_mark(text: &str, mark: Option<(i64, u32)>) -> (r: bool)
    ensures
        r == is_after_mark(text@, mark),
{
    match mark {
        Some(m) => match parse_rfc3339(text) {
            Some(x) => later_instant(x, m),
            None => false,
        },
        None => true,
    }
}

} // verus!
