use budget_tracker_lib::domain::ledger::{
    aggregate_monthly, checked_aggregate_monthly, validate_input, validate_transfer_input,
    RawInput, RawTransferInput, Transaction, TxType,
};
use budget_tracker_lib::error::AppError;

fn ok(amount: i64) -> RawInput<'static> {
    RawInput {
        occurred_on: "2026-05-25",
        type_: "expense",
        amount,
        account_id: 1,
        category_id: Some(2),
        description: "ランチ",
    }
}

#[test]
fn accepts_minimal_valid_input() {
    let v = validate_input(&ok(500)).unwrap();
    assert_eq!(v.amount, 500);
    assert_eq!(v.type_, TxType::Expense);
    assert_eq!(v.category_id, 2);
}

#[test]
fn rejects_zero_or_negative_amount() {
    assert!(matches!(validate_input(&ok(0)).unwrap_err(), AppError::InvalidArgument(_)));
    assert!(matches!(validate_input(&ok(-1)).unwrap_err(), AppError::InvalidArgument(_)));
}

#[test]
fn rejects_bad_date() {
    let mut bad = ok(100);
    bad.occurred_on = "2026/05/25";
    assert!(matches!(validate_input(&bad).unwrap_err(), AppError::InvalidArgument(_)));
}

#[test]
fn rejects_non_canonical_dates() {
    for raw in ["2026-5-25", "2026-05-25 ", "+2026-05-25"] {
        let mut bad = ok(100);
        bad.occurred_on = raw;
        let err = validate_input(&bad).unwrap_err();
        assert_eq!(err.detail_text().as_str(), format!("occurred_on must be YYYY-MM-DD, got '{raw}'"));
    }
}

#[test]
fn rejects_transfer_type() {
    let mut bad = ok(100);
    bad.type_ = "transfer";
    let err = validate_input(&bad).unwrap_err();
    assert!(matches!(err, AppError::InvalidArgument(_)));
    assert!(err.to_text().contains("transfer"));
}

#[test]
fn rejects_missing_category() {
    let mut bad = ok(100);
    bad.category_id = None;
    assert!(matches!(validate_input(&bad).unwrap_err(), AppError::InvalidArgument(_)));
}

#[test]
fn rejects_too_long_description() {
    let long = "あ".repeat(201);
    let bad = RawInput {
        occurred_on: "2026-05-25",
        type_: "expense",
        amount: 100,
        account_id: 1,
        category_id: Some(2),
        description: &long,
    };
    assert!(matches!(validate_input(&bad).unwrap_err(), AppError::InvalidArgument(_)));
}

#[test]
fn accepts_description_of_exactly_two_hundred_chars() {
    let long = "あ".repeat(200);
    let raw = RawInput { description: &long, ..ok(100) };
    assert_eq!(validate_input(&raw).unwrap().description, long);
}

fn tx(id: i64, t: TxType, amt: i64, date: &str) -> Transaction {
    Transaction {
        id,
        occurred_on: date.into(),
        type_: t,
        amount: amt,
        account_id: 1,
        counter_account_id: if matches!(t, TxType::Transfer) { Some(2) } else { None },
        category_id: if matches!(t, TxType::Transfer) { None } else { Some(1) },
        description: String::new(),
        recurring_id: None,
        created_at: date.into(),
        updated_at: date.into(),
    }
}

#[test]
fn aggregate_sums_income_and_expense_for_target_month() {
    let txs = vec![
        tx(1, TxType::Income, 300_000, "2026-05-01"),
        tx(2, TxType::Expense, 1_500, "2026-05-15"),
        tx(3, TxType::Expense, 2_500, "2026-05-25"),
    ];
    let s = aggregate_monthly(&txs, 2026, 5);
    assert_eq!(s.income, 300_000);
    assert_eq!(s.expense, 4_000);
    assert_eq!(s.net, 296_000);
}

#[test]
fn aggregate_ignores_other_months() {
    let txs = vec![
        tx(1, TxType::Income, 100, "2026-04-30"),
        tx(2, TxType::Income, 200, "2026-05-01"),
        tx(3, TxType::Income, 300, "2026-06-01"),
    ];
    let s = aggregate_monthly(&txs, 2026, 5);
    assert_eq!(s.income, 200);
}

#[test]
fn aggregate_excludes_transfers() {
    let txs = vec![
        tx(1, TxType::Transfer, 1_000_000, "2026-05-10"),
        tx(2, TxType::Income, 100, "2026-05-10"),
        tx(3, TxType::Expense, 50, "2026-05-10"),
    ];
    let s = aggregate_monthly(&txs, 2026, 5);
    assert_eq!(s.income, 100);
    assert_eq!(s.expense, 50);
    assert_eq!(s.net, 50);
}

#[test]
fn aggregate_ignores_malformed_dates() {
    let mut bad = tx(1, TxType::Income, 100, "2026-13-99");
    bad.occurred_on = "garbage".into();
    let s = aggregate_monthly(&[bad], 2026, 5);
    assert_eq!(s.income, 0);
}

fn sample_txs() -> Vec<Transaction> {
    let kinds = [TxType::Income, TxType::Expense, TxType::Transfer];
    (0..120i64)
        .map(|i| {
            let month = (i % 12) as u32 + 1;
            let day = (i % 28) as u32 + 1;
            tx(i + 1, kinds[(i % 3) as usize], (i * 7_919) % 1_000_000 + 1, &format!("2026-{month:02}-{day:02}"))
        })
        .collect()
}

#[test]
fn net_equals_income_minus_expense() {
    let txs = sample_txs();
    for month in 1..=12 {
        let s = aggregate_monthly(&txs, 2026, month);
        assert_eq!(s.net, s.income - s.expense);
        assert!(s.income >= 0);
        assert!(s.expense >= 0);
    }
}

#[test]
fn transfers_never_contribute() {
    let txs = sample_txs();
    let no_transfer: Vec<Transaction> =
        txs.iter().filter(|t| !matches!(t.type_, TxType::Transfer)).cloned().collect();
    for month in 1..=12 {
        let s_all = aggregate_monthly(&txs, 2026, month);
        let s_filtered = aggregate_monthly(&no_transfer, 2026, month);
        assert_eq!(s_all.income, s_filtered.income);
        assert_eq!(s_all.expense, s_filtered.expense);
    }
}

#[test]
fn checked_aggregate_refuses_a_net_past_i64() {
    let saturated = vec![tx(1, TxType::Income, i64::MAX, "2026-05-01"), tx(2, TxType::Income, 1, "2026-05-02")];
    let s = checked_aggregate_monthly(&saturated, 2026, 5).unwrap();
    assert_eq!((s.income, s.net), (i64::MAX, i64::MAX));
    let txs = vec![tx(1, TxType::Income, i64::MAX, "2026-05-01"), tx(2, TxType::Expense, -1, "2026-05-02")];
    assert!(checked_aggregate_monthly(&txs, 2026, 5).is_none());
    let fine = vec![tx(1, TxType::Income, 10, "2026-05-01"), tx(2, TxType::Expense, 4, "2026-05-02")];
    let s = checked_aggregate_monthly(&fine, 2026, 5).unwrap();
    assert_eq!((s.income, s.expense, s.net), (10, 4, 6));
}

fn ok_transfer() -> RawTransferInput<'static> {
    RawTransferInput {
        occurred_on: "2026-05-25",
        amount: 50_000,
        account_id: 1,
        counter_account_id: 2,
        description: "現金→銀行",
    }
}

#[test]
fn transfer_accepts_minimal_valid_input() {
    let v = validate_transfer_input(&ok_transfer()).unwrap();
    assert_eq!(v.amount, 50_000);
    assert_eq!(v.account_id, 1);
    assert_eq!(v.counter_account_id, 2);
}

#[test]
fn transfer_rejects_same_source_and_destination() {
    let mut bad = ok_transfer();
    bad.counter_account_id = bad.account_id;
    let err = validate_transfer_input(&bad).unwrap_err();
    assert!(matches!(err, AppError::InvalidArgument(_)));
    assert!(err.to_text().contains("source and destination"));
}

#[test]
fn transfer_rejects_zero_or_negative_amount() {
    let mut zero = ok_transfer();
    zero.amount = 0;
    assert!(matches!(validate_transfer_input(&zero).unwrap_err(), AppError::InvalidArgument(_)));
    let mut neg = ok_transfer();
    neg.amount = -1;
    assert!(matches!(validate_transfer_input(&neg).unwrap_err(), AppError::InvalidArgument(_)));
}

#[test]
fn transfer_rejects_bad_date() {
    let mut bad = ok_transfer();
    bad.occurred_on = "2026/05/25";
    assert!(matches!(validate_transfer_input(&bad).unwrap_err(), AppError::InvalidArgument(_)));
}

#[test]
fn transfer_rejects_too_long_description() {
    let long = "あ".repeat(201);
    let bad = RawTransferInput {
        occurred_on: "2026-05-25",
        amount: 1,
        account_id: 1,
        counter_account_id: 2,
        description: &long,
    };
    assert!(matches!(validate_transfer_input(&bad).unwrap_err(), AppError::InvalidArgument(_)));
}
