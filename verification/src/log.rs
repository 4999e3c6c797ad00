//! Timestamps of the activity log, rendered by chrono.
use vstd::prelude::*;
use chrono::{DateTime, SecondsFormat};

verus! {

/// Whether chrono's `DateTime::<Utc>::from_timestamp(seconds, nanos)` gives a
/// date: it does for a second within chrono's calendar range (years -262143
/// to 262142) and a nanosecond part below one second, or below two seconds
/// on the last second of a minute (a leap second).
pub uninterp spec fn chrono_accepts(seconds: i64, nanos: u32) -> bool;

/// What chrono's `to_rfc3339_opts(SecondsFormat::Millis, true)` writes for the
/// UTC instant `seconds` + `nanos`, such as `2000-02-29T00:00:00.123Z`.
pub uninterp spec fn rfc3339_millis_z(seconds: i64, nanos: u32) -> Seq<char>;

/// Calls `chrono::DateTime::<Utc>::from_timestamp` and tells whether it gave a
/// date. By chrono's source: it fails for a nanosecond part of two seconds or
/// more, and for one of a second or more except on the 59th second of a
/// minute; it succeeds for any second within 8 * 10^12 of the epoch (well
/// inside the calendar range) with a nanosecond part below one second.
#[verifier::external_body]
fn timestamp_is_valid(seconds: i64, nanos: u32) -> (r: bool)
    ensures
        r == chrono_accepts(seconds, nanos),
        r ==> nanos < 2_000_000_000,
        r && nanos >= 1_000_000_000 ==> seconds % 60 == 59,
        -8_000_000_000_000 <= seconds <= 8_000_000_000_000 && nanos < 1_000_000_000 ==> r,
{
    DateTime::from_timestamp(seconds, nanos).is_some()
}

/// Calls `chrono::DateTime::<Utc>::from_timestamp` on a pair that it accepts
/// and renders the date with `to_rfc3339_opts(SecondsFormat::Millis, true)`.
#[verifier::external_body]
fn rfc3339_millis(seconds: i64, nanos: u32) -> (s: String)
    requires
        chrono_accepts(seconds, nanos),
    ensures
        s@ == rfc3339_millis_z(seconds, nanos),
{
    DateTime::from_timestamp(seconds, nanos).unwrap().to_rfc3339_opts(SecondsFormat::Millis, true)
}

/// A UTC instant: seconds since 1970-01-01T00:00:00Z and a nanosecond part.
#[derive(Clone, Copy, Debug)]
pub struct UtcDateTime {
    seconds: i64,
    nanos: u32,
}

impl View for UtcDateTime {
    type V = (i64, u32);

    closed spec fn view(&self) -> (i64, u32) {
        (self.seconds, self.nanos)
    }
}

impl UtcDateTime {
    #[verifier::type_invariant]
    spec fn valid(self) -> bool {
        chrono_accepts(self.seconds, self.nanos)
    }

    /// The instant `seconds` + `nanos` after the epoch, where chrono can
    /// represent it.
    pub fn from_timestamp(seconds: i64, nanos: u32) -> (r: Option<Self>)
        ensures
            r is Some <==> chrono_accepts(seconds, nanos),
            r matches Some(d) ==> d@ == (seconds, nanos),
    {
        if timestamp_is_valid(seconds, nanos) {
            Some(UtcDateTime { seconds, nanos })
        } else {
            None
        }
    }
}

/// The instant in RFC 3339 form with milliseconds and a `Z` suffix, as the
/// activity log writes it.
pub fn format_datetime(datetime: UtcDateTime) -> (r: String)
    ensures
        r@ == rfc3339_millis_z(datetime@.0, datetime@.1),
{
    proof {
        use_type_invariant(&datetime);
    }
    rfc3339_millis(datetime.seconds, datetime.nanos)
}

} // verus!
