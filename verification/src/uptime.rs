use vstd::prelude::*;
use crate::percentage::Percentage;

verus! {

/// The SLA figures that the API reports for one monitor over a date range.
pub struct SlaAttributes {
    /// Availability in percent, when reported.
    pub availability: Option<Percentage>,
    /// Total downtime in seconds, when reported.
    pub total_downtime: Option<u64>,
}

/// The uptime figures of one monitor.
pub struct UptimeCalc {
    pub id: String,
    pub name: String,
    /// Availability in percent (zero when the API reported none).
    pub percentage: Percentage,
    /// Downtime in seconds.
    pub downtime: u64,
    /// Downtime in whole minutes.
    pub downtime_mins: i64,
    /// Uptime in seconds.
    pub uptime: u64,
    /// Length of the date range in seconds.
    pub max_uptime: u64,
}

/// Length in seconds of the range from `from_ts` to `to_ts`, or zero when the
/// range is reversed.
pub open spec fn range_length(from_ts: int, to_ts: int) -> int {
    if to_ts - from_ts > 0 {
        to_ts - from_ts
    } else {
        0
    }
}

/// The length of a range is the plain difference of its ends for every
/// forward range, however long, and zero for an empty or reversed one.
pub proof fn lemma_range_length_exact(from_ts: int, to_ts: int)
    ensures
        to_ts > from_ts ==> range_length(from_ts, to_ts) == to_ts - from_ts,
        to_ts <= from_ts ==> range_length(from_ts, to_ts) == 0,
{
}

/// The lengths of two ranges that meet add up to the length of the range
/// that they make together.
pub proof fn lemma_range_length_adds(a: int, b: int, c: int)
    requires
        a <= b <= c,
    ensures
        range_length(a, b) + range_length(b, c) == range_length(a, c),
{
}

/// The number of seconds from `from_ts` to `to_ts` (Unix timestamps), never
/// negative.
pub fn range_seconds(from_ts: i64, to_ts: i64) -> (r: u64)
    requires
        i64::MIN <= to_ts - from_ts <= i64::MAX,
    ensures
        r == range_length(from_ts as int, to_ts as int),
        to_ts > from_ts ==> r == to_ts - from_ts,
        to_ts <= from_ts ==> r == 0,
{
    let diff: i64 = to_ts - from_ts;
    if diff > 0 {
        diff as u64
    } else {
        0
    }
}

/// Builds the uptime figures of a monitor from its SLA report.
///
/// A missing availability counts as zero percent, a missing downtime as zero
/// seconds. `uptime_seconds` is the share of the range that the availability
/// stands for, which the caller derives in floating point from
/// `range_seconds(from_ts, to_ts)` and the availability.
pub fn calculate_uptime(
    monitor_id: &str,
    monitor_name: &str,
    from_ts: i64,
    to_ts: i64,
    sla: &SlaAttributes,
    uptime_seconds: u64,
) -> (r: UptimeCalc)
    requires
        i64::MIN <= to_ts - from_ts <= i64::MAX,
    ensures
        r.id@ == monitor_id@,
        r.name@ == monitor_name@,
        r.percentage == (match sla.availability {
            Some(p) => p,
            None => Percentage { bits: 0 },
        }),
        r.downtime == (match sla.total_downtime {
            Some(d) => d,
            None => 0,
        }),
        r.downtime_mins == r.downtime / 60,
        r.uptime == uptime_seconds,
        r.max_uptime == range_length(from_ts as int, to_ts as int),
        to_ts > from_ts ==> r.max_uptime == to_ts - from_ts,
        to_ts <= from_ts ==> r.max_uptime == 0,
{
    let percentage = match sla.availability {
        Some(p) => p,
        None => Percentage::zero(),
    };
    let downtime: u64 = match sla.total_downtime {
        Some(d) => d,
        None => 0,
    };
    let downtime_mins: i64 = (downtime / 60) as i64;
    let max_uptime = range_seconds(from_ts, to_ts);
    UptimeCalc {
        id: monitor_id.to_owned(),
        name: monitor_name.to_owned(),
        percentage,
        downtime,
        downtime_mins,
        uptime: uptime_seconds,
        max_uptime,
    }
}

} // verus!
