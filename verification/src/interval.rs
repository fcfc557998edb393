//! A validated, immutable time range with an intersection operator.
//!
//! Timestamps are seconds of local time since the epoch. An `Interval` is
//! only ever constructed with `start` strictly before `end`; two intervals
//! that merely touch (`a.end == b.start`) deliberately do not intersect, so
//! that touching windows never produce zero-length events.

use vstd::prelude::*;

verus! {

/// A time range with `start` strictly before `end`, both in seconds of
/// local time since the epoch.
#[derive(Clone, Copy, Debug, PartialEq, Eq, Structural)]
pub struct Interval {
    pub start: u64,
    pub end: u64,
}

/// What `interval` returns: a value exactly when `start < end`.
pub open spec fn interval_spec(start: u64, end: u64) -> Option<Interval> {
    if start < end {
        Some(Interval { start, end })
    } else {
        None
    }
}

/// What `intersection` returns: the overlap of the two ranges, or nothing
/// when they overlap in at most a single point.
pub open spec fn intersection_spec(a: Interval, b: Interval) -> Option<Interval> {
    let start = if a.start > b.start {
        a.start
    } else {
        b.start
    };
    let end = if a.end < b.end {
        a.end
    } else {
        b.end
    };
    interval_spec(start, end)
}

/// Construct an interval; yields no value unless `start < end`.
pub fn interval(start: u64, end: u64) -> (r: Option<Interval>)
    ensures
        r == interval_spec(start, end),
{
    if start < end {
        Some(Interval { start, end })
    } else {
        None
    }
}

/// Intersect two intervals: the latest start and the earliest end, kept only
/// when that range is non-empty.
pub fn intersection(interval1: Interval, interval2: Interval) -> (r: Option<Interval>)
    ensures
        r == intersection_spec(interval1, interval2),
{
    let start = if interval1.start > interval2.start {
        interval1.start
    } else {
        interval2.start
    };
    let end = if interval1.end < interval2.end {
        interval1.end
    } else {
        interval2.end
    };
    interval(start, end)
}

/// Intersection is commutative: for valid intervals, swapping the arguments
/// does not change the result.
pub proof fn lemma_intersection_commutative(a: Interval, b: Interval)
    requires
        a.start < a.end,
        b.start < b.end,
    ensures
        intersection_spec(a, b) == intersection_spec(b, a),
{
}

/// Intervals that merely touch (`a.end == b.start`) do not intersect.
pub proof fn lemma_touching_do_not_intersect(a: Interval, b: Interval)
    requires
        a.start < a.end,
        b.start < b.end,
        a.end == b.start,
    ensures
        intersection_spec(a, b) is None,
{
}

} // verus!

