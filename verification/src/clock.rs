//! Instants and their RFC 3339 text, through `chrono`.

use vstd::prelude::*;

verus! {

/// An instant: whole seconds since the Unix epoch (UTC) and the nanoseconds
/// past them, as `chrono`'s `timestamp` and `timestamp_subsec_nanos` give
/// them.
#[derive(Clone, Copy, Debug, PartialEq, Eq)]
pub struct Instant {
    pub secs: i64,
    pub nanos: u32,
}

/// The RFC 3339 text of the instant, or `None` where `chrono` has no
/// `DateTime<Utc>` for it.
pub uninterp spec fn rfc3339_of(secs: i64, nanos: u32) -> Option<Seq<char>>;

/// The instant that an RFC 3339 text denotes, or `None` where `chrono`
/// refuses the text.
pub uninterp spec fn rfc3339_instant(text: Seq<char>) -> Option<(i64, u32)>;

/// The whole microseconds from the first instant to the second (negative
/// where the second comes first), or `None` where `chrono` has no `DateTime`
/// for an instant or the count does not fit in an `i64`.
pub uninterp spec fn micros_between(
    from_secs: i64,
    from_nanos: u32,
    to_secs: i64,
    to_nanos: u32,
) -> Option<i64>;

/// `chrono::DateTime::<Utc>::from_timestamp` turns the instant into a
/// `DateTime<Utc>` (`None` out of range) and `DateTime::to_rfc3339` writes
/// it; the contract names the text `rfc3339_of(secs, nanos)` and says of its
/// characters only that none is `|`, `,`, `=` or a new line (chrono's
/// `write_rfc3339` writes digits, `+`, `-`, `T`, `:` and `.` alone).
#[verifier::external_body]
pub(crate) fn format_rfc3339(secs: i64, nanos: u32) -> (r: Option<String>)
    ensures
        match r {
            Some(s) => {
                &&& rfc3339_of(secs, nanos) == Some(s@)
                &&& !s@.contains('|')
                &&& !s@.contains(',')
                &&& !s@.contains('=')
                &&& !s@.contains('\n')
            },
            None => rfc3339_of(secs, nanos) is None,
        },
{
    match chrono::DateTime::from_timestamp(secs, nanos) {
        Some(d) => Some(d.to_rfc3339()),
        None => None,
    }
}

/// An instant from the start of year 0 to the end of year 9999 (UTC), with
/// fewer nanoseconds than a second: chrono writes its year with four digits
/// and reads such a text back.
pub open spec fn rfc3339_range(secs: i64, nanos: u32) -> bool {
    -62167219200 <= secs <= 253402300799 && nanos < 1000000000
}

/// `chrono::DateTime::parse_from_rfc3339` reads the text; the instant it
/// denotes is returned as `timestamp()` and `timestamp_subsec_nanos()`. The
/// contract names the result `rfc3339_instant(text)`, and says that the text
/// that `to_rfc3339` writes for an instant in `rfc3339_range` reads back as
/// that instant (chrono's `parse_rfc3339` takes the four-digit year, the
/// fraction to the nanosecond and the `+00:00` offset that `write_rfc3339`
/// writes).
#[verifier::external_body]
pub(crate) fn parse_rfc3339(text: &str) -> (r: Option<Instant>)
    ensures
        match r {
            Some(i) => rfc3339_instant(text@) == Some((i.secs, i.nanos)),
            None => rfc3339_instant(text@) is None,
        },
        forall|secs: i64, nanos: u32|
            #![trigger rfc3339_of(secs, nanos)]
            rfc3339_range(secs, nanos) && rfc3339_of(secs, nanos) == Some(text@) ==> r == Some(
                Instant { secs, nanos },
            ),
{
    match chrono::DateTime::parse_from_rfc3339(text) {
        Ok(d) => Some(Instant { secs: d.timestamp(), nanos: d.timestamp_subsec_nanos() }),
        Err(_) => None,
    }
}

/// The nanoseconds from the first instant to the second, truncated toward
/// zero to whole microseconds.
pub open spec fn whole_micros(from_secs: i64, from_nanos: u32, to_secs: i64, to_nanos: u32) -> int {
    let d = (to_secs - from_secs) * 1000000000 + to_nanos - from_nanos;
    if d >= 0 {
        d / 1000
    } else {
        -((-d) / 1000)
    }
}

/// `DateTime::signed_duration_since` (the `-` of two `DateTime<Utc>`,
/// built by `from_timestamp`) followed by `TimeDelta::num_microseconds`;
/// the contract names the result `micros_between(from, to)`, and states it
/// for two instants in `rfc3339_range`: the difference is exact there, and
/// `num_microseconds` truncates it toward zero to whole microseconds, which
/// fit an `i64`. Outside that range the result is left unsaid.
#[verifier::external_body]
pub(crate) fn elapsed_micros(from: Instant, to: Instant) -> (r: Option<i64>)
    ensures
        r == micros_between(from.secs, from.nanos, to.secs, to.nanos),
        rfc3339_range(from.secs, from.nanos) && rfc3339_range(to.secs, to.nanos) ==> r == Some(
            whole_micros(from.secs, from.nanos, to.secs, to.nanos) as i64,
        ),
{
    match (
        chrono::DateTime::from_timestamp(to.secs, to.nanos),
        chrono::DateTime::from_timestamp(from.secs, from.nanos),
    ) {
        (Some(later), Some(earlier)) => later.signed_duration_since(earlier).num_microseconds(),
        _ => None,
    }
}

} // verus!
