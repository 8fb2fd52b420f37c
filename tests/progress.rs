use fanzha_log_query::progress::{ProgressClock, ProgressReport, PROGRESS_REPORT_SECS};

#[test]
fn progress_reports_every_interval() {
    let mut c = ProgressClock::new(8);
    let s = c.observe(30, 1);
    assert_eq!(s.report, None);
    assert!(!s.finished);
    let s = c.observe(PROGRESS_REPORT_SECS, 2);
    assert_eq!(s.report, Some(ProgressReport { completed: 2, total: 8, percent: 25, elapsed_secs: 120 }));
    assert_eq!(c.observe(210, 3).report, None);
    let s = c.observe(240, 8);
    assert_eq!(s.report.unwrap().percent, 100);
    assert!(s.finished);
}

#[test]
fn progress_percent_rounds_down() {
    let mut c = ProgressClock::new(3);
    assert_eq!(c.observe(500, 2).report.unwrap().percent, 66);
}

#[test]
fn progress_near_clock_limit_saturates() {
    let mut c = ProgressClock::new(1);
    assert!(c.observe(u64::MAX - 1, 0).report.is_some());
    assert!(c.observe(u64::MAX, 0).report.is_some());
}
