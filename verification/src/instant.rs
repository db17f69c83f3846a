//! The instants that the date-time backends can represent.

use vstd::prelude::*;

verus! {

/// The date-time crate that decides which instants there are.
#[derive(Debug, Clone, Copy, PartialEq, Eq, Structural)]
pub enum Backend {
    /// `chrono`, the default.
    Chrono,
    /// `time`.
    Time,
}

/// The first second that `chrono` can represent: the start of the year -262143.
pub const CHRONO_FIRST_SECOND: i64 = -8_334_601_228_800;

/// The last second that `chrono` can represent: the end of the year 262142.
pub const CHRONO_LAST_SECOND: i64 = 8_210_266_876_799;

/// The first second that `time` can represent: the start of the year -9999.
pub const TIME_FIRST_SECOND: i64 = -377_705_116_800;

/// The last second that `time` can represent: the end of the year 9999.
pub const TIME_LAST_SECOND: i64 = 253_402_300_799;

/// Whether `chrono` has an instant `nanos` nanoseconds after the second
/// `seconds`. A billion nanoseconds and more stand for a leap second, which
/// only the last second of a minute can have.
pub open spec fn chrono_represents(seconds: int, nanos: int) -> bool {
    &&& CHRONO_FIRST_SECOND <= seconds <= CHRONO_LAST_SECOND
    &&& 0 <= nanos < 2_000_000_000
    &&& nanos >= 1_000_000_000 ==> seconds % 60 == 59
}

/// Whether `time` has an instant `since_epoch` nanoseconds after the epoch.
pub open spec fn time_represents(since_epoch: int) -> bool {
    TIME_FIRST_SECOND <= since_epoch / 1_000_000_000 <= TIME_LAST_SECOND
}

/// The instant that `chrono::DateTime::from_timestamp` makes, as its
/// `timestamp` and `timestamp_subsec_nanos`.
///
/// Claimed of them: there is an instant exactly where the second is in
/// `chrono`'s range and the nanoseconds are valid for it, and it reads back as
/// what it was made from.
#[verifier::external_body]
pub(crate) fn chrono_instant(seconds: i64, nanos: u32) -> (instant: Option<(i64, u32)>)
    ensures
        instant == (if chrono_represents(seconds as int, nanos as int) {
            Some((seconds, nanos))
        } else {
            None
        }),
{
    match chrono::DateTime::from_timestamp(seconds, nanos) {
        Some(instant) => Some((instant.timestamp(), instant.timestamp_subsec_nanos())),
        None => None,
    }
}

/// The instant that `time::OffsetDateTime::from_unix_timestamp_nanos` makes, as
/// its `unix_timestamp` and `nanosecond`.
///
/// Claimed of them, for `time` without its `large-dates` feature: there is an
/// instant exactly where its second is in `time`'s range, and it reads back as
/// its whole seconds, rounded down, and the nanoseconds after them.
#[verifier::external_body]
pub(crate) fn time_instant(since_epoch: i128) -> (instant: Option<(i64, u32)>)
    ensures
        instant == (if time_represents(since_epoch as int) {
            Some(
                (
                    (since_epoch as int / 1_000_000_000) as i64,
                    (since_epoch as int % 1_000_000_000) as u32,
                ),
            )
        } else {
            None
        }),
{
    match time::OffsetDateTime::from_unix_timestamp_nanos(since_epoch) {
        Ok(instant) => Some((instant.unix_timestamp(), instant.nanosecond())),
        Err(_) => None,
    }
}

} // verus!
