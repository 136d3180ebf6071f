//! Calendar days, wall-clock instants, and the daily cut-off rule.
//!
//! A day is a Julian day number and an instant is a day together with the
//! number of seconds since that day's midnight.  The cut-off rule maps an
//! instant to the "effective day": an instant before the configured cut-off
//! time still counts as belonging to the previous day.

use vstd::prelude::*;
use crate::Day;
use crate::SECS_PER_DAY;

verus! {

/// Smallest Julian day number a calendar library hands us (year -9999).
pub const MIN_DAY: i32 = -2000000;
/// Largest Julian day number a calendar library hands us (year 9999).
pub const MAX_DAY: i32 = 6000000;

/// A local wall-clock instant: a Julian day number and the seconds elapsed
/// since that day's midnight.
#[derive(Debug, Clone, Copy, PartialEq, Eq, Structural)]
pub struct Timestamp {
    pub day: Day,
    pub secs: u32,
}

impl Timestamp {
    /// A timestamp is meaningful when its seconds fit in one day and its day
    /// number lies in the range calendar libraries can represent.
    pub open spec fn wf(self) -> bool {
        self.secs < SECS_PER_DAY && MIN_DAY <= self.day <= MAX_DAY
    }
}

/// The effective day of an instant under a cut-off: instants strictly before
/// the cut-off time of day belong to the previous day.
pub open spec fn spec_day_with_cutoff(ts: Timestamp, cut_off: u32) -> int {
    if ts.secs < cut_off {
        ts.day - 1
    } else {
        ts.day as int
    }
}

/// Maps an instant to its effective day under the given cut-off time
/// (seconds since midnight).
pub fn dt_with_cutoff(ts: Timestamp, cut_off: u32) -> (r: Day)
    requires
        ts.wf(),
    ensures
        r == spec_day_with_cutoff(ts, cut_off),
{
    if ts.secs < cut_off {
        ts.day - 1
    } else {
        ts.day
    }
}

/// Relies on time::OffsetDateTime::now_local for the current local date and
/// time of day; time::Date::to_julian_day keeps the day in the range of
/// years -9999 to 9999, and the clock components are below 24, 60 and 60.
/// Returns None when the local UTC offset cannot be determined.
#[verifier::external_body]
fn now_local_parts() -> (r: Option<(i32, u8, u8, u8)>)
    ensures
        r matches Some(p) ==> MIN_DAY <= p.0 <= MAX_DAY && p.1 < 24 && p.2 < 60 && p.3 < 60,
{
    match time::OffsetDateTime::now_local() {
        Ok(dt) => Some((
            dt.date().to_julian_day(),
            dt.time().hour(),
            dt.time().minute(),
            dt.time().second(),
        )),
        Err(_) => None,
    }
}

/// The current local instant, or None when the local time zone is
/// indeterminate.  Nothing more can be promised of a clock reading than
/// that it is a meaningful instant.
pub fn current_timestamp() -> (r: Option<Timestamp>)
    ensures
        r matches Some(ts) ==> ts.wf(),
{
    match now_local_parts() {
        Some((day, h, m, s)) => {
            let secs: u32 = (h as u32) * 3600 + (m as u32) * 60 + (s as u32);
            Some(Timestamp { day, secs })
        },
        None => None,
    }
}

/// The current effective day under the given cut-off, or None when the
/// local time zone is indeterminate.
pub fn now_with_cutoff(cut_off: u32) -> (r: Option<Day>)
    ensures
        r is Some ==> MIN_DAY - 1 <= r->Some_0 <= MAX_DAY,
{
    match current_timestamp() {
        Some(ts) => Some(dt_with_cutoff(ts, cut_off)),
        None => None,
    }
}

} // verus!
