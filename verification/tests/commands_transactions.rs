use budget_tracker_lib::commands::transactions::{build_list_filter, parse_page_size, ListTransactionFilter};
use budget_tracker_lib::domain::ledger::TxType;
use budget_tracker_lib::error::AppError;

#[test]
fn list_filter_rejects_non_canonical_from_and_to() {
    for raw in ["2026-5-5", " 2026-05-05", "+2026-05-05", "2026-02-30", "2026/05/05"] {
        let err = build_list_filter(ListTransactionFilter { from: Some(raw.into()), ..Default::default() }).unwrap_err();
        assert!(matches!(err, AppError::InvalidArgument(_)), "from={raw:?}: {err:?}");
        assert!(err.to_text().contains("from must be YYYY-MM-DD"), "{}", err.to_text());

        let err = build_list_filter(ListTransactionFilter { to: Some(raw.into()), ..Default::default() }).unwrap_err();
        assert!(matches!(err, AppError::InvalidArgument(_)), "to={raw:?}: {err:?}");
        assert!(err.to_text().contains("to must be YYYY-MM-DD"), "{}", err.to_text());
    }
}

#[test]
fn list_filter_accepts_canonical_range_and_absent_dates() {
    let filter = build_list_filter(ListTransactionFilter {
        from: Some("2026-05-01".into()),
        to: Some("2026-05-31".into()),
        type_: Some("expense".into()),
        ..Default::default()
    })
    .unwrap();
    assert_eq!(filter.from.as_deref(), Some("2026-05-01"));
    assert_eq!(filter.to.as_deref(), Some("2026-05-31"));
    assert_eq!(filter.type_, Some(TxType::Expense));

    let empty = build_list_filter(ListTransactionFilter::default()).unwrap();
    assert!(empty.from.is_none() && empty.to.is_none());
}

#[test]
fn list_filter_rejects_an_unknown_type() {
    let err = build_list_filter(ListTransactionFilter { type_: Some("gift".into()), ..Default::default() }).unwrap_err();
    assert!(matches!(err, AppError::InvalidArgument(_)));
}

#[test]
fn parse_page_size_rejects_zero() {
    assert!(parse_page_size(0).is_err());
}

#[test]
fn parse_page_size_rejects_over_200() {
    assert!(parse_page_size(201).is_err());
    assert_eq!(parse_page_size(201).unwrap_err().detail_text().as_str(), "page_size must be 1..=200, got 201");
}

#[test]
fn parse_page_size_accepts_50() {
    assert_eq!(parse_page_size(50).unwrap(), 50);
    assert_eq!(parse_page_size(1).unwrap(), 1);
    assert_eq!(parse_page_size(200).unwrap(), 200);
}
