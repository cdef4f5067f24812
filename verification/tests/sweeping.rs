use llmtmplog::sweep::{gc_sweep, Age, SweepAction};

fn fate(stop: bool, name: &str, age: Age) -> SweepAction {
    match gc_sweep(stop, Some(name), Age::Unread) {
        SweepAction::ReadAge => gc_sweep(stop, Some(name), age),
        action => action,
    }
}

#[test]
fn gc_sweep_deletes_old_temp_logs_only() {
    let old_log = "20260101-000000-000000000-1.log";
    let fresh_log = "20260102-000000-000000000-2.log";
    let other_old = "notes.txt";
    let other_pattern = "not-a-log.log";
    assert_eq!(
        fate(false, old_log, Age::Known { secs: 25 * 3600, nanos: 0 }),
        SweepAction::Remove,
        "old temp log should be deleted"
    );
    assert_eq!(
        fate(false, fresh_log, Age::Known { secs: 60, nanos: 0 }),
        SweepAction::NextEntry,
        "fresh temp log should be kept"
    );
    assert_eq!(
        fate(false, other_old, Age::Known { secs: 48 * 3600, nanos: 0 }),
        SweepAction::NextEntry,
        "non-temp file should be kept"
    );
    assert_eq!(
        fate(false, other_pattern, Age::Known { secs: 48 * 3600, nanos: 0 }),
        SweepAction::NextEntry,
        "file not matching pattern should be kept"
    );
}

#[test]
fn gc_sweep_honours_stop_flag() {
    let log = "20260101-000000-000000000-1.log";
    assert_eq!(
        fate(true, log, Age::Known { secs: 48 * 3600, nanos: 0 }),
        SweepAction::Finish,
        "stopped sweep should not delete anything"
    );
}

#[test]
fn retention_is_24_hours() {
    let log = "20260101-000000-000000000-1.log";
    let day = 24 * 3600;
    assert_eq!(
        fate(false, log, Age::Known { secs: day - 1, nanos: 999_999_999 }),
        SweepAction::NextEntry
    );
    assert_eq!(fate(false, log, Age::Known { secs: day, nanos: 0 }), SweepAction::NextEntry);
    assert_eq!(fate(false, log, Age::Known { secs: day, nanos: 1 }), SweepAction::Remove);
    assert_eq!(fate(false, log, Age::Known { secs: day + 1, nanos: 0 }), SweepAction::Remove);
    assert_eq!(fate(false, log, Age::Known { secs: u64::MAX, nanos: 0 }), SweepAction::Remove);
}

#[test]
fn unreadable_entries_are_left_alone() {
    assert_eq!(gc_sweep(false, None, Age::Unread), SweepAction::NextEntry);
    assert_eq!(gc_sweep(false, None, Age::Known { secs: 48 * 3600, nanos: 0 }), SweepAction::NextEntry);
    assert_eq!(gc_sweep(true, None, Age::Unread), SweepAction::Finish);
    let log = "20260101-000000-000000000-1.log";
    assert_eq!(fate(false, log, Age::Unknown), SweepAction::NextEntry);
}

#[test]
fn age_is_read_for_log_files_only() {
    let log = "20260101-000000-000000000-1.log";
    assert_eq!(gc_sweep(false, Some(log), Age::Unread), SweepAction::ReadAge);
    assert_eq!(gc_sweep(false, Some("notes.txt"), Age::Unread), SweepAction::NextEntry);
}
