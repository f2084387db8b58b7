use chrono::{Datelike, TimeZone};
use job_watcher::clock::{
    current_execution_time, format_hyphened, format_month_day, format_slashed, history_file_name,
    is_expired_batch, is_expired_history, next_scheduled_run, parse_date, taipei_date,
    rfc3339_before, taipei_rfc3339, Delay, Timestamp, MAX_DAY, MAX_SECONDS, MIN_DAY, MIN_SECONDS,
};
use job_watcher::service::{run_service, service_port};

fn instant(text: &str) -> Timestamp {
    let at = chrono::DateTime::parse_from_rfc3339(text).unwrap();
    Timestamp {
        seconds: at.timestamp(),
        nanos: at.timestamp_subsec_nanos(),
    }
}

fn day(text: &str) -> i32 {
    parse_date(text).unwrap()
}

#[test]
fn days_are_those_of_taipei() {
    assert_eq!(taipei_date(&instant("2026-08-18T15:59:59Z")), day("2026-08-18"));
    assert_eq!(taipei_date(&instant("2026-08-18T16:00:00Z")), day("2026-08-19"));
    assert_eq!(taipei_rfc3339(&instant("2026-08-18T23:00:00Z")), "2026-08-19T07:00:00+08:00");
    assert_eq!(
        taipei_rfc3339(&instant("2024-02-28T16:00:00.250Z")),
        "2024-02-29T00:00:00.250+08:00"
    );
    assert_eq!(
        taipei_rfc3339(&instant("2100-02-28T16:00:00.000009Z")),
        "2100-03-01T00:00:00.000009+08:00"
    );
    assert_eq!(
        current_execution_time(&instant("2026-08-18T23:04:05Z")),
        "2026/08/19 07:04:05"
    );
}

#[test]
fn days_are_written_as_the_calendar_has_them() {
    for n in [-800_000, -1, 0, 59, 11_016, 20_684, 2_932_896, 2_932_897, 3_000_000] {
        let date = chrono::NaiveDate::from_epoch_days(n).unwrap();
        assert_eq!(format_hyphened(n), date.to_string());
        assert_eq!(format_slashed(n), date.format("%Y/%m/%d").to_string());
        assert_eq!(format_month_day(n), date.format("%m-%d").to_string());
        if (0..=9999).contains(&date.year()) {
            assert_eq!(parse_date(&format_hyphened(n)), Some(n));
        }
    }
    assert_eq!(parse_date("2026-02-30"), None);
    assert_eq!(parse_date("today"), None);
    assert_eq!(history_file_name(day("2026-08-19")), "2026-08-19.json");
}

#[test]
fn the_daily_run_is_at_half_past_six() {
    let wait = next_scheduled_run(&instant("2026-08-18T22:29:59.5Z"));
    assert_eq!((wait.seconds, wait.nanos), (0, 500_000_000));
    let wait = next_scheduled_run(&instant("2026-08-18T22:30:00Z"));
    assert_eq!((wait.seconds, wait.nanos), (86_400, 0));
    let taipei = chrono::FixedOffset::east_opt(8 * 3600).unwrap();
    let at = taipei.with_ymd_and_hms(2026, 8, 19, 7, 0, 0).unwrap();
    let due = run_service(true, &instant(&at.to_rfc3339()));
    assert_eq!(due.trigger, "scheduled");
    assert_eq!(due.wait.seconds, 23 * 3600 + 30 * 60);
    let first = run_service(false, &instant(&at.to_rfc3339()));
    assert_eq!((first.trigger, first.wait.seconds), ("startup", 0));
}

#[test]
fn a_week_of_history_is_kept() {
    let today = day("2026-08-19");
    assert!(!is_expired_history("2026-08-19.json", today));
    assert!(!is_expired_history("2026-08-13.json", today));
    assert!(is_expired_history("2026-08-12.json", today));
    assert!(!is_expired_history("2026-08-12.txt", today));
    assert!(!is_expired_history("notes.json", today));
    let week = Delay { seconds: 7 * 86_400, nanos: 0 };
    let more = Delay { seconds: 7 * 86_400, nanos: 1 };
    assert!(!is_expired_batch(true, &week));
    assert!(is_expired_batch(true, &more));
    assert!(!is_expired_batch(false, &more));
}

#[test]
fn ports_are_numbers_of_sixteen_bits() {
    assert_eq!(service_port(None), Some(3004));
    assert_eq!(service_port(Some("8080".into())), Some(8080));
    assert_eq!(service_port(Some("65536".into())), None);
    assert_eq!(service_port(Some("x".into())), None);
}

#[test]
fn the_calendar_ends_where_it_is_said_to() {
    assert!(chrono::DateTime::from_timestamp(MIN_SECONDS, 0).is_some());
    assert!(chrono::DateTime::from_timestamp(MIN_SECONDS - 1, 0).is_none());
    assert!(chrono::DateTime::from_timestamp(MAX_SECONDS, 999_999_999).is_some());
    assert!(chrono::DateTime::from_timestamp(MAX_SECONDS + 1, 0).is_none());
    assert!(chrono::NaiveDate::from_epoch_days(MIN_DAY).is_some());
    assert!(chrono::NaiveDate::from_epoch_days(MIN_DAY - 1).is_none());
    assert!(chrono::NaiveDate::from_epoch_days(MAX_DAY).is_some());
    assert!(chrono::NaiveDate::from_epoch_days(MAX_DAY + 1).is_none());
    let first = Timestamp { seconds: MIN_SECONDS, nanos: 0 };
    let last = Timestamp { seconds: MAX_SECONDS - 28_800, nanos: 999_999_999 };
    assert!(taipei_rfc3339(&first).ends_with("T08:00:00+08:00"));
    assert!(taipei_rfc3339(&last).ends_with("T23:59:59.999999999+08:00"));
    assert!(format_hyphened(MIN_DAY).starts_with("-262143-"));
    assert!(format_hyphened(MAX_DAY).starts_with("+262142-"));
    let epoch = Timestamp { seconds: 0, nanos: 0 };
    assert_eq!(rfc3339_before(&epoch, 86_400), "1969-12-31T00:00:00+00:00");
    assert!(rfc3339_before(&epoch, -i128::from(MAX_SECONDS)).starts_with("+262142-"));
}
