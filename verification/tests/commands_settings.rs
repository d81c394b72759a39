use budget_tracker_lib::commands::settings::{backup_file_name, rfc3339_millis};
use budget_tracker_lib::commands::snapshots::StampTime;
use chrono::{DateTime, Datelike, Timelike, Utc};

fn at(text: &str) -> StampTime {
    let t = DateTime::parse_from_rfc3339(text).unwrap().with_timezone(&Utc);
    StampTime { year: t.year(), month: t.month(), day: t.day(), hour: t.hour(), minute: t.minute(), second: t.second() }
}

#[test]
fn backup_file_name_uses_compact_utc_stamp() {
    assert_eq!(backup_file_name(at("2026-08-29T12:30:45+09:00")), "budget-backup-20260829T033045Z.json");
}

#[test]
fn backup_time_is_recorded_to_the_millisecond() {
    assert_eq!(rfc3339_millis(at("2026-08-29T12:30:45Z"), 7), "2026-08-29T12:30:45.007Z");
    let t = DateTime::parse_from_rfc3339("2026-08-29T12:30:45.123Z").unwrap().with_timezone(&Utc);
    assert_eq!(
        rfc3339_millis(at("2026-08-29T12:30:45Z"), 123),
        t.to_rfc3339_opts(chrono::SecondsFormat::Millis, true)
    );
}
