//! Timestamps: a UTC time as whole seconds since the Unix epoch and the nanoseconds
//! past them, read from and written by `chrono`.
use vstd::prelude::*;

verus! {

/// A UTC time: whole seconds since the Unix epoch and the nanoseconds past them
/// (more than a second's worth only within a leap second).
#[derive(Debug, Clone, Copy, PartialEq, Eq, Structural)]
pub struct Timestamp {
    pub secs: i64,
    pub nanos: u32,
}

/// `chrono::Utc::now()`, taken apart by `timestamp` and `timestamp_subsec_nanos`.
/// It depends on the clock, so nothing is stated of it.
#[verifier::external_body]
pub(crate) fn now() -> Timestamp {
    let t = chrono::Utc::now();
    Timestamp { secs: t.timestamp(), nanos: t.timestamp_subsec_nanos() }
}

/// The RFC 3339 text that `chrono` writes for the UTC time of `secs` seconds and
/// `nanos` nanoseconds past the Unix epoch (`None` where `chrono` has no such time).
pub uninterp spec fn rfc3339_text(secs: int, nanos: int) -> Option<Seq<char>>;

/// `DateTime::<Utc>::from_timestamp` then `to_rfc3339`: the time written in RFC 3339,
/// with as many fractional digits as its nanoseconds need; `None` where `chrono`
/// cannot represent it. Its result is taken as `rfc3339_text(secs, nanos)`.
#[verifier::external_body]
fn timestamp_to_rfc3339(secs: i64, nanos: u32) -> (res: Option<String>)
    ensures
        match res {
            Some(s) => rfc3339_text(secs as int, nanos as int) == Some(s@),
            None => rfc3339_text(secs as int, nanos as int) is None,
        },
{
    match chrono::DateTime::<chrono::Utc>::from_timestamp(secs, nanos) {
        Some(t) => Some(t.to_rfc3339()),
        None => None,
    }
}

/// The RFC 3339 text of a timestamp, or the empty text where `chrono` cannot
/// represent it.
pub open spec fn rfc3339_or_empty(t: Timestamp) -> Seq<char> {
    match rfc3339_text(t.secs as int, t.nanos as int) {
        Some(s) => s,
        None => Seq::<char>::empty(),
    }
}

/// A timestamp written in RFC 3339 (empty where `chrono` cannot represent it).
pub fn format_rfc3339(t: Timestamp) -> (res: String)
    ensures
        res@ == rfc3339_or_empty(t),
{
    match timestamp_to_rfc3339(t.secs, t.nanos) {
        Some(s) => s,
        None => String::new(),
    }
}

} // verus!
