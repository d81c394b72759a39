use budget_tracker_lib::domain::calendar::Date;
use budget_tracker_lib::domain::date::{has_iso_shape, parse_iso_date};
use budget_tracker_lib::error::AppError;

#[test]
fn accepts_canonical_dates_including_leap_day() {
    assert_eq!(parse_iso_date("d", "2026-05-05").unwrap(), Date::from_ymd_opt(2026, 5, 5).unwrap());
    assert_eq!(parse_iso_date("d", "2024-02-29").unwrap(), Date::from_ymd_opt(2024, 2, 29).unwrap());
}

#[test]
fn rejects_non_canonical_shapes_chrono_would_accept() {
    for raw in ["2026-5-5", " 2026-05-05", "+2026-05-05", "2026-05-05 ", "2026/05/05", "20260505", "２０２６-05-05", ""] {
        let err = parse_iso_date("occurred_on", raw).unwrap_err();
        assert!(matches!(err, AppError::InvalidArgument(_)), "{raw:?} must be rejected, got {err:?}");
        assert!(err.to_text().contains("occurred_on must be YYYY-MM-DD"), "{}", err.to_text());
    }
}

#[test]
fn rejects_well_shaped_but_impossible_calendar_dates() {
    for raw in ["2026-02-30", "2025-02-29", "2026-13-01", "2026-00-10", "2026-04-31", "2026-05-00"] {
        assert!(parse_iso_date("d", raw).is_err(), "{raw:?} must be rejected");
    }
}

#[test]
fn error_message_quotes_the_input() {
    let err = parse_iso_date("from", "2026-5-5").unwrap_err();
    assert_eq!(err.detail_text().as_str(), "from must be YYYY-MM-DD, got '2026-5-5'");
}

#[test]
fn every_formatted_valid_date_round_trips() {
    for y in [1i32, 2, 99, 1000, 1999, 2024, 2026, 9999] {
        for m in 1u32..=12 {
            for d in [1u32, 9, 10, 28] {
                let date = Date::from_ymd_opt(y, m, d).unwrap();
                let raw = date.iso_string();
                assert_eq!(parse_iso_date("d", &raw).unwrap(), date);
            }
        }
    }
}

#[test]
fn anything_accepted_has_the_exact_iso_shape() {
    let alphabet = [' ', '+', '0', '1', '2', '9', '/', '-'];
    let mut state: u64 = 12345;
    for _ in 0..5000 {
        state = state.wrapping_mul(6364136223846793005).wrapping_add(1442695040888963407);
        let len = (state >> 60) as usize % 13;
        let mut raw = String::new();
        let mut x = state;
        for _ in 0..len {
            raw.push(alphabet[(x % 8) as usize]);
            x /= 8;
        }
        if parse_iso_date("d", &raw).is_ok() {
            assert_eq!(raw.len(), 10);
            assert!(has_iso_shape(&raw));
        }
    }
    assert!(has_iso_shape("2026-05-05"));
    assert!(!has_iso_shape("2026-05-5"));
}
