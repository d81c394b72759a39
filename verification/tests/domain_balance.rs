use budget_tracker_lib::domain::balance::compute_balance;
use budget_tracker_lib::domain::ledger::{Transaction, TxType};

fn tx(t: TxType, amount: i64, account_id: i64, counter: Option<i64>) -> Transaction {
    Transaction {
        id: 0,
        occurred_on: "2026-05-25".into(),
        type_: t,
        amount,
        account_id,
        counter_account_id: counter,
        category_id: if matches!(t, TxType::Transfer) { None } else { Some(1) },
        description: String::new(),
        recurring_id: None,
        created_at: "2026-05-25T00:00:00Z".into(),
        updated_at: "2026-05-25T00:00:00Z".into(),
    }
}

#[test]
fn empty_returns_initial() {
    assert_eq!(compute_balance(100_000, &[], 1), 100_000);
}

#[test]
fn income_increases_balance_for_owning_account() {
    let txs = [tx(TxType::Income, 50_000, 1, None)];
    assert_eq!(compute_balance(0, &txs, 1), 50_000);
    assert_eq!(compute_balance(0, &txs, 2), 0);
}

#[test]
fn expense_decreases_balance_for_owning_account() {
    let txs = [tx(TxType::Expense, 30_000, 1, None)];
    assert_eq!(compute_balance(100_000, &txs, 1), 70_000);
}

#[test]
fn transfer_moves_money_from_source_to_destination() {
    let txs = [tx(TxType::Transfer, 20_000, 1, Some(2))];
    assert_eq!(compute_balance(50_000, &txs, 1), 30_000);
    assert_eq!(compute_balance(50_000, &txs, 2), 70_000);
}

#[test]
fn transfer_total_across_two_accounts_is_zero_net() {
    let txs = [tx(TxType::Transfer, 20_000, 1, Some(2))];
    let a = compute_balance(50_000, &txs, 1);
    let b = compute_balance(50_000, &txs, 2);
    assert_eq!((a + b) - (50_000 + 50_000), 0);
}

#[test]
fn unrelated_transactions_have_no_effect() {
    let txs = [
        tx(TxType::Income, 1_000, 99, None),
        tx(TxType::Expense, 500, 99, None),
        tx(TxType::Transfer, 100, 99, Some(98)),
    ];
    assert_eq!(compute_balance(1234, &txs, 1), 1234);
}

#[test]
fn balance_saturates_instead_of_overflowing() {
    let txs = [tx(TxType::Income, i64::MAX, 1, None), tx(TxType::Income, 5, 1, None)];
    assert_eq!(compute_balance(1, &txs, 1), i64::MAX);
    let out = [tx(TxType::Expense, i64::MAX, 1, None), tx(TxType::Expense, i64::MAX, 1, None)];
    assert_eq!(compute_balance(0, &out, 1), i64::MIN);
}

#[test]
fn transfers_within_two_accounts_preserve_total() {
    let mut txs = Vec::new();
    for i in 0..150i64 {
        let amount = (i * 7_919) % 999_999 + 1;
        let t = match i % 7 {
            0 => tx(TxType::Income, amount, 1, None),
            1 => tx(TxType::Expense, amount, 2, None),
            2 => tx(TxType::Transfer, amount, 1, Some(2)),
            3 => tx(TxType::Transfer, amount, 2, Some(1)),
            4 => tx(TxType::Transfer, amount, 102, Some(202)),
            5 => tx(TxType::Income, amount, 102, None),
            _ => tx(TxType::Expense, amount, 1, None),
        };
        txs.push(t);
    }
    for (initial_a, initial_b) in [(0i64, 0i64), (999_999, 1), (123_456, 654_321)] {
        let bal_a = compute_balance(initial_a, &txs, 1);
        let bal_b = compute_balance(initial_b, &txs, 2);
        let net: i64 = txs.iter().fold(0i64, |acc, t| match t.type_ {
            TxType::Income if t.account_id == 1 || t.account_id == 2 => acc.saturating_add(t.amount),
            TxType::Expense if t.account_id == 1 || t.account_id == 2 => acc.saturating_sub(t.amount),
            _ => acc,
        });
        assert_eq!(bal_a + bal_b, initial_a + initial_b + net);
    }
}
