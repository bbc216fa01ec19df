//! The span of time that a scan covers.

use vstd::prelude::*;

verus! {

/// A span of time in whole seconds since the Unix epoch. It holds `start` and
/// every later second before `end`, and so nothing where `end <= start`.
#[derive(Clone, Copy, Debug, PartialEq, Eq, Structural)]
pub struct TimeWindow {
    pub start: i64,
    pub end: i64,
}

/// The first whole second that is not before the instant `nanos` nanoseconds
/// after `seconds`.
pub open spec fn whole_second_from(seconds: int, nanos: int) -> int {
    if nanos > 0 {
        seconds + 1
    } else {
        seconds
    }
}

/// The second that lies `days` days before `end`.
pub open spec fn days_before(end: int, days: int) -> int {
    end - days * 86_400
}

impl TimeWindow {
    /// Whether the second `time` lies in the window.
    pub open spec fn holds(self, time: int) -> bool {
        self.start <= time < self.end
    }

    /// Whether the second `time` lies in the window.
    pub fn contains(&self, time: i64) -> (inside: bool)
        ensures
            inside == self.holds(time as int),
    {
        self.start <= time && time < self.end
    }

    /// The window of the last `days` days before the second `end`, where both
    /// of its bounds can be written in 64 bits.
    pub fn last_days(end: i64, days: i64) -> (window: Option<TimeWindow>)
        ensures
            window is Some <==> i64::MIN <= days_before(end as int, days as int) <= i64::MAX,
            window matches Some(w) ==> w.end == end && w.start == days_before(
                end as int,
                days as int,
            ),
    {
        let span: i128 = (days as i128) * 86_400;
        let start: i128 = end as i128 - span;
        if start < i64::MIN as i128 || start > i64::MAX as i128 {
            None
        } else {
            Some(TimeWindow { start: start as i64, end })
        }
    }

    /// The window of the last `days` days before an instant that a clock gave
    /// as `seconds` since the Unix epoch and `nanos` nanoseconds more. A
    /// whole second lies in it exactly when it lies in the days before that
    /// instant: the window ends with the first whole second not before the
    /// instant.
    pub fn ending_at(seconds: i64, nanos: u32, days: i64) -> (window: Option<TimeWindow>)
        ensures
            window is Some <==> {
                &&& whole_second_from(seconds as int, nanos as int) <= i64::MAX
                &&& i64::MIN <= days_before(
                    whole_second_from(seconds as int, nanos as int),
                    days as int,
                ) <= i64::MAX
            },
            window matches Some(w) ==> {
                &&& w.end == whole_second_from(seconds as int, nanos as int)
                &&& w.start == days_before(w.end as int, days as int)
            },
    {
        if nanos > 0 {
            if seconds == i64::MAX {
                None
            } else {
                TimeWindow::last_days(seconds + 1, days)
            }
        } else {
            TimeWindow::last_days(seconds, days)
        }
    }
}

/// A second lies in the window of the last `days` days exactly when it lies
/// before the window's end, and by no more than that many days.
pub proof fn law_window_spans_the_days(window: TimeWindow, days: int, time: int)
    requires
        window.start == days_before(window.end as int, days),
    ensures
        window.holds(time) <==> 0 < window.end - time <= days * 86_400,
{
}

} // verus!
