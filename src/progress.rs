//! The progress monitor's decisions: when to report, what to report, and when
//! to stop. Sleeping, reading the clock and printing are the caller's part.
use vstd::prelude::*;

verus! {

/// How often the monitor looks at the completed-file counter, in seconds.
pub const PROGRESS_POLL_SECS: u64 = 30;
/// The least time between two reports, in seconds.
pub const PROGRESS_REPORT_SECS: u64 = 120;

/// Whole percent of `total` that `completed` is; a task with no files is
/// complete.
pub open spec fn percent_of(completed: nat, total: nat) -> nat {
    if total == 0 {
        100
    } else {
        completed * 100 / total
    }
}

/// One progress line's worth of numbers.
#[derive(Clone, Copy, Debug, PartialEq, Eq, Structural)]
pub struct ProgressReport {
    pub completed: usize,
    pub total: usize,
    pub percent: u128,
    pub elapsed_secs: u64,
}

/// What the monitor does after one look at the counter.
#[derive(Clone, Copy, Debug, PartialEq, Eq, Structural)]
pub struct ProgressStep {
    /// A report to print, when one is due.
    pub report: Option<ProgressReport>,
    /// Whether every file is done, so that the monitor stops.
    pub finished: bool,
}

/// The monitor's state for one task.
pub struct ProgressClock {
    total: usize,
    next_report_secs: u64,
}

impl ProgressClock {
    /// The number of files of the task.
    pub closed spec fn total_files(&self) -> nat {
        self.total as nat
    }

    /// Elapsed seconds from which the next report is due.
    pub closed spec fn next_due(&self) -> nat {
        self.next_report_secs as nat
    }

    /// The state at the start of a task of `total` files: the first report is
    /// due after the report interval.
    pub fn new(total: usize) -> (r: ProgressClock)
        ensures
            r.total_files() == total,
            r.next_due() == PROGRESS_REPORT_SECS,
    {
        ProgressClock { total, next_report_secs: PROGRESS_REPORT_SECS }
    }

    /// One look at the counter, `elapsed_secs` after the task started: a
    /// report when one is due (the next then falls due one interval later),
    /// and whether to stop.
    pub fn observe(&mut self, elapsed_secs: u64, completed: usize) -> (r: ProgressStep)
        ensures
            final(self).total_files() == old(self).total_files(),
            r.finished == (completed >= old(self).total_files()),
            elapsed_secs >= old(self).next_due() ==> r.report == Some(
                ProgressReport {
                    completed,
                    total: old(self).total_files() as usize,
                    percent: percent_of(completed as nat, old(self).total_files()) as u128,
                    elapsed_secs,
                },
            ) && final(self).next_due() == if elapsed_secs + PROGRESS_REPORT_SECS <= u64::MAX {
                elapsed_secs + PROGRESS_REPORT_SECS
            } else {
                u64::MAX as int
            },
            elapsed_secs < old(self).next_due() ==> r.report is None && final(self).next_due()
                == old(self).next_due(),
    {
        let mut report: Option<ProgressReport> = None;
        if elapsed_secs >= self.next_report_secs {
            let percent: u128 = if self.total == 0 {
                100
            } else {
                (completed as u128) * 100 / (self.total as u128)
            };
            report = Some(ProgressReport { completed, total: self.total, percent, elapsed_secs });
            self.next_report_secs = elapsed_secs.saturating_add(PROGRESS_REPORT_SECS);
        }
        ProgressStep { report, finished: completed >= self.total }
    }
}

} // verus!
