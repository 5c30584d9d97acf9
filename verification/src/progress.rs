//! Progress accounting for long store-walking runs: counters of successful,
//! missing and failed blob reads, with the arithmetic behind periodic
//! progress reports.

use vstd::prelude::*;

verus! {

/// Progress reports are logged at most this often, in seconds.
pub const PROGRESS_INTERVAL_SECS: u64 = 30;

/// Counts of blob reads by outcome over one run.
#[derive(Clone, Copy, Debug)]
pub struct Progress {
    pub success: u64,
    pub missing: u64,
    pub error: u64,
}

impl Progress {
    /// All reads counted so far.
    pub fn total(&self) -> (r: u64)
        requires
            self.success + self.missing + self.error <= u64::MAX,
        ensures
            r == self.success + self.missing + self.error,
    {
        self.success + self.missing + self.error
    }

    /// Counters accumulated over two runs.
    pub fn plus(&self, other: &Progress) -> (r: Progress)
        requires
            self.success + other.success <= u64::MAX,
            self.missing + other.missing <= u64::MAX,
            self.error + other.error <= u64::MAX,
        ensures
            r.success == self.success + other.success,
            r.missing == self.missing + other.missing,
            r.error == self.error + other.error,
    {
        Progress {
            success: self.success + other.success,
            missing: self.missing + other.missing,
            error: self.error + other.error,
        }
    }

    /// The counters gained since an earlier reading of the same run.
    pub fn minus(&self, earlier: &Progress) -> (r: Progress)
        requires
            earlier.success <= self.success,
            earlier.missing <= self.missing,
            earlier.error <= self.error,
        ensures
            r.success == self.success - earlier.success,
            r.missing == self.missing - earlier.missing,
            r.error == self.error - earlier.error,
    {
        Progress {
            success: self.success - earlier.success,
            missing: self.missing - earlier.missing,
            error: self.error - earlier.error,
        }
    }
}

impl Default for Progress {
    /// All counters start at zero.
    fn default() -> (r: Progress)
        ensures
            r.success == 0 && r.missing == 0 && r.error == 0,
    {
        Progress { success: 0, missing: 0, error: 0 }
    }
}

/// The reads-per-second figure of a report line: total over the period, or
/// zero for an empty period.
pub fn progress_rate(total: u64, period_secs: u64) -> (r: u64)
    ensures
        period_secs > 0 ==> r == total / period_secs,
        period_secs == 0 ==> r == 0,
{
    if period_secs > 0 {
        total / period_secs
    } else {
        0
    }
}

/// Whether a report is due: enough time has passed since the last one, or the
/// run is ending.
pub fn progress_due(delta_secs: u64, is_final: bool) -> (r: bool)
    ensures
        r == (delta_secs >= PROGRESS_INTERVAL_SECS || is_final),
{
    delta_secs >= PROGRESS_INTERVAL_SECS || is_final
}

} // verus!
