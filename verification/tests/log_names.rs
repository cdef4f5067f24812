use std::time::{Duration, SystemTime};

use llmtmplog::calendar::days_to_ymd;
use llmtmplog::cli::exited_line;
use llmtmplog::log_dir::{log_dir, log_dir_in};
use llmtmplog::log_name::{generate_log_path, is_temp_log_name, log_file_name, Timestamp};

#[test]
fn temp_log_name_matches_generated_format() {
    assert!(is_temp_log_name("20260511-172309-737498212-91313.log"));
    assert!(is_temp_log_name("20260101-000000-000000000-1.log"));
    assert!(is_temp_log_name("99991231-235959-999999999-4194304.log"));
}

#[test]
fn temp_log_name_rejects_other_names() {
    assert!(!is_temp_log_name(""));
    assert!(!is_temp_log_name("foo.log"));
    assert!(!is_temp_log_name("notes.txt"));
    assert!(!is_temp_log_name("20260511-172309-737498212-91313.txt"));
    assert!(!is_temp_log_name("20260511-172309-737498212.log"));
    assert!(!is_temp_log_name("2026051-172309-737498212-91313.log"));
    assert!(!is_temp_log_name("20260511-17239-737498212-91313.log"));
    assert!(!is_temp_log_name("20260511-172309-73749821-91313.log"));
    assert!(!is_temp_log_name("20260511-172309-737498212-.log"));
    assert!(!is_temp_log_name("20260511-172309-abcdefghi-91313.log"));
    assert!(!is_temp_log_name("20260511-172309-737498212-91313-extra.log"));
}

#[test]
fn generated_log_name_is_recognised() {
    let now = SystemTime::now().duration_since(SystemTime::UNIX_EPOCH).unwrap_or(Duration::ZERO);
    let at = Timestamp { secs: now.as_secs(), nanos: now.subsec_nanos() };
    let path = generate_log_path("/tmp", Some(at), 91313);
    assert_eq!(path.dir, "/tmp");
    let name = path.name;
    assert!(is_temp_log_name(&name), "generated name not recognised: {name}");
}

#[test]
fn names_outside_ascii_are_rejected() {
    assert!(!is_temp_log_name("2026051\u{0661}-172309-737498212-91313.log"));
    assert!(!is_temp_log_name("20260511-172309-737498212-9131\u{e9}.log"));
    assert!(!is_temp_log_name("20260511-172309-737498212-91313.lo\u{1e21}"));
}

#[test]
fn long_process_ids_are_accepted() {
    assert!(is_temp_log_name("20260511-172309-737498212-123456789012345678901234567890.log"));
    assert!(!is_temp_log_name("202605110-172309-737498212-91313.log"));
    assert!(!is_temp_log_name("20260511-172309-737498212-91313.log.log"));
}

#[test]
fn log_name_of_a_known_moment() {
    // 2026-05-11 17:23:09 UTC.
    let at = Timestamp { secs: 1_778_520_189, nanos: 737_498_212 };
    assert_eq!(log_file_name(at, 91313), "20260511-172309-737498212-91313.log");
    let at = Timestamp { secs: 0, nanos: 5 };
    assert_eq!(log_file_name(at, 0), "19700101-000000-000000005-0.log");
}

#[test]
fn clock_before_1970_counts_as_1970() {
    let path = generate_log_path(7u8, None, 42);
    assert_eq!(path.dir, 7u8);
    assert_eq!(path.name, "19700101-000000-000000000-42.log");
}

#[test]
fn names_of_the_year_10000_are_not_recognised() {
    let last = Timestamp { secs: 253_402_300_799, nanos: 999_999_999 };
    assert_eq!(log_file_name(last, 1), "99991231-235959-999999999-1.log");
    assert!(is_temp_log_name(&log_file_name(last, 1)));
    let next = Timestamp { secs: 253_402_300_800, nanos: 0 };
    assert_eq!(log_file_name(next, 1), "100000101-000000-000000000-1.log");
    assert!(!is_temp_log_name(&log_file_name(next, 1)));
}

#[test]
fn concurrent_runs_get_different_names() {
    let a = Timestamp { secs: 1_778_520_189, nanos: 1 };
    let b = Timestamp { secs: 1_778_520_189, nanos: 2 };
    assert_ne!(log_file_name(a, 10), log_file_name(b, 10));
    assert_ne!(log_file_name(a, 10), log_file_name(a, 11));
}

#[test]
fn dates_of_known_days() {
    assert_eq!(days_to_ymd(0), (1970, 1, 1));
    assert_eq!(days_to_ymd(58), (1970, 2, 28));
    assert_eq!(days_to_ymd(59), (1970, 3, 1));
    assert_eq!(days_to_ymd(364), (1970, 12, 31));
    assert_eq!(days_to_ymd(789), (1972, 2, 29));
    assert_eq!(days_to_ymd(10957), (2000, 1, 1));
    assert_eq!(days_to_ymd(11016), (2000, 2, 29));
    assert_eq!(days_to_ymd(11017), (2000, 3, 1));
    assert_eq!(days_to_ymd(47540), (2100, 2, 28));
    assert_eq!(days_to_ymd(47541), (2100, 3, 1));
}

#[test]
fn dates_follow_one_another() {
    let mut previous = days_to_ymd(0);
    for day in 1..200_000u64 {
        let date = days_to_ymd(day);
        assert!(previous < date);
        assert!(date.2 == previous.2 + 1 || date.2 == 1);
        previous = date;
    }
}

#[test]
fn numbers_in_digits() {
    assert_eq!(exited_line(0), "llmtmplog: EXIT_CODE=0");
    assert_eq!(exited_line(255), "llmtmplog: EXIT_CODE=255");
    assert_eq!(exited_line(-1073741510), "llmtmplog: EXIT_CODE=-1073741510");
    assert_eq!(exited_line(i32::MIN), "llmtmplog: EXIT_CODE=-2147483648");
    let at = Timestamp { secs: 86399, nanos: u32::MAX };
    assert_eq!(log_file_name(at, u32::MAX), "19700101-235959-4294967295-4294967295.log");
}

#[test]
fn log_dir_is_an_entry_of_the_cache_dir() {
    let dir = log_dir_in(Some("/home/you/.cache")).unwrap();
    assert_eq!(dir.dir, "/home/you/.cache");
    assert_eq!(dir.name, "llmtmplog");
    assert!(log_dir_in::<u8>(None).is_none());
}

#[test]
fn log_dir_follows_the_platform() {
    match (log_dir(), dirs::cache_dir()) {
        (Some(ours), Some(cache)) => {
            assert_eq!(ours.dir, cache);
            assert_eq!(ours.name, "llmtmplog");
        }
        (ours, cache) => assert_eq!(ours.is_some(), cache.is_some()),
    }
}
