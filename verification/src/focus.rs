//! Row shapes of the optional focus-block aggregator. The aggregator
//! itself is an adjacent store outside the capture→queue→ship core and
//! is not wired into the shipper.
use vstd::prelude::*;

verus! {

/// One contiguous block of focus on a single application window.
pub struct FocusBlockRow {
    pub start_ms: i64,
    pub end_ms: i64,
    pub dur_ms: i64,
    pub app_name: String,
    pub window_title: String,
}

impl FocusBlockRow {
    /// A block is coherent when it ends after it starts and carries its
    /// own length.
    pub open spec fn wf(&self) -> bool {
        self.start_ms <= self.end_ms && self.dur_ms == self.end_ms - self.start_ms
    }

    /// Builds a coherent block from its endpoints.
    pub fn from_span(start_ms: i64, end_ms: i64, app_name: String, window_title: String) -> (r:
        FocusBlockRow)
        requires
            start_ms <= end_ms,
            end_ms - start_ms <= i64::MAX,
        ensures
            r.wf(),
            r.start_ms == start_ms,
            r.end_ms == end_ms,
            r.app_name@ == app_name@,
            r.window_title@ == window_title@,
    {
        FocusBlockRow { start_ms, end_ms, dur_ms: end_ms - start_ms, app_name, window_title }
    }
}

/// One day's focus total for one application.
pub struct FocusAggregateRow {
    pub day: String,
    pub app_name: String,
    pub dur_ms: i64,
}

} // verus!
