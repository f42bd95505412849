//! Points in time, and the modem's clock reading.

use crate::codec::malformed;
use crate::error::Error;
use vstd::prelude::*;

verus! {

/// A point in time on the UTC time line: whole seconds since the start of
/// 1970, and the nanoseconds into that second. During a leap second the
/// second stays at the one before and `nanos` runs on past a thousand
/// million.
#[derive(Clone, Copy, Debug, PartialEq, Eq, Hash, Structural)]
pub struct Timestamp {
    pub secs: i64,
    pub nanos: u32,
}

impl Timestamp {
    /// The nanoseconds between the start of 1970 and this point in time.
    pub open spec fn spec_epoch_nanos(self) -> int {
        self.secs * 1_000_000_000 + self.nanos
    }

    /// The nanoseconds since the start of 1970; `None` for a point in time
    /// before it.
    pub fn epoch_nanos(&self) -> (r: Option<u128>)
        ensures
            r is Some <==> self.spec_epoch_nanos() >= 0,
            r matches Some(n) ==> n == self.spec_epoch_nanos(),
    {
        let secs: i128 = self.secs as i128;
        let total: i128 = secs * 1_000_000_000 + self.nanos as i128;
        if total >= 0 {
            Some(total as u128)
        } else {
            None
        }
    }
}

/// What chrono's `NaiveDateTime::parse_from_str` makes of `text` under the
/// strftime-like `format`, read as UTC: the seconds since the start of 1970
/// and the nanoseconds into the second, or `None` where it reports an error.
pub uninterp spec fn datetime_parse(text: Seq<char>, format: Seq<char>) -> Option<(i64, u32)>;

/// Calls chrono's `NaiveDateTime::parse_from_str`, which reads `text` by the
/// items of `format` and checks that the fields make up one date and time. The
/// result is taken as UTC (`and_utc`) and handed out as `timestamp` and
/// `timestamp_subsec_nanos` give it. Nothing is claimed of which texts are
/// accepted: the result is only named.
#[verifier::external_body]
pub(crate) fn parse_datetime(text: &str, format: &str) -> (r: Option<(i64, u32)>)
    ensures
        r == datetime_parse(text@, format@),
{
    match chrono::NaiveDateTime::parse_from_str(text, format) {
        Ok(t) => Some((t.and_utc().timestamp(), t.and_utc().timestamp_subsec_nanos())),
        Err(_) => None,
    }
}

/// The point in time that a parsed date and time stands for.
pub open spec fn timestamp_from(parsed: Option<(i64, u32)>) -> Option<Timestamp> {
    match parsed {
        Some((secs, nanos)) => Some(Timestamp { secs, nanos }),
        None => None,
    }
}

/// The point in time that the clock reading `s` states. The reading has the
/// form `Thu Mar  3 23:05:25 2005` and is taken as UTC.
pub open spec fn timestamp_of(s: Seq<char>) -> Option<Timestamp> {
    timestamp_from(datetime_parse(s, "%c"@))
}

/// Turns the outcome of parsing the text `s` into a point in time, or into
/// the error that names `s`.
pub fn timestamp_or_malformed(parsed: Option<(i64, u32)>, s: &str) -> (r: Result<Timestamp, Error>)
    ensures
        match timestamp_from(parsed) {
            Some(t) => r == Ok::<Timestamp, Error>(t),
            None => r matches Err(e) && e.is_malformed(s@),
        },
{
    match parsed {
        Some((secs, nanos)) => Ok(Timestamp { secs, nanos }),
        None => Err(malformed(s)),
    }
}

/// Reads the modem's clock, which is taken to run on UTC.
pub fn timestamp_deserializer(s: &str) -> (r: Result<Timestamp, Error>)
    ensures
        match timestamp_of(s@) {
            Some(t) => r == Ok::<Timestamp, Error>(t),
            None => r matches Err(e) && e.is_malformed(s@),
        },
{
    timestamp_or_malformed(parse_datetime(s, "%c"), s)
}

} // verus!
