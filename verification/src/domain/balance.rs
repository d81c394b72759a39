//! An account's balance from its opening balance and the transactions that touch it.

use vstd::prelude::*;
use crate::domain::arith::{clamp_i64, sat_add, sat_sub};
use crate::domain::ledger::{Transaction, TxType};

verus! {

/// How one transaction moves the balance of account `id`: income on it adds,
/// expense on it subtracts, a transfer out of it subtracts, a transfer into it
/// adds; anything else leaves it alone.
pub open spec fn balance_delta(tx: Transaction, id: i64) -> int {
    match tx.type_ {
        TxType::Income => if tx.account_id == id { tx.amount as int } else { 0 },
        TxType::Expense => if tx.account_id == id { -tx.amount } else { 0 },
        TxType::Transfer => if tx.account_id == id {
            -tx.amount
        } else if tx.counter_account_id == Some(id) {
            tx.amount as int
        } else {
            0
        },
    }
}

/// The transaction moves account `id`'s balance.
pub open spec fn touches(tx: Transaction, id: i64) -> bool {
    tx.account_id == id || (tx.type_ == TxType::Transfer && tx.counter_account_id == Some(id))
}

/// The balance after applying `txs` in order, each step saturating at the `i64` bounds.
pub open spec fn balance_after(initial: int, txs: Seq<Transaction>, id: i64) -> int
    decreases txs.len(),
{
    if txs.len() == 0 {
        initial
    } else {
        let prev = balance_after(initial, txs.drop_last(), id);
        if touches(txs.last(), id) {
            clamp_i64(prev + balance_delta(txs.last(), id))
        } else {
            prev
        }
    }
}

/// The balance after applying `txs` with unbounded arithmetic.
pub open spec fn plain_balance(initial: int, txs: Seq<Transaction>, id: i64) -> int
    decreases txs.len(),
{
    if txs.len() == 0 {
        initial
    } else {
        plain_balance(initial, txs.drop_last(), id) + balance_delta(txs.last(), id)
    }
}

/// One account's current balance: its opening balance moved by every
/// transaction that touches it (rows of other accounts are skipped).
pub fn compute_balance(initial_balance: i64, txs: &[Transaction], account_id: i64) -> (r: i64)
    ensures
        r == balance_after(initial_balance as int, txs@, account_id),
{
    let mut balance = initial_balance;
    let mut i: usize = 0;
    while i < txs.len()
        invariant
            0 <= i <= txs.len(),
            balance == balance_after(initial_balance as int, txs@.subrange(0, i as int), account_id),
        decreases txs.len() - i,
    {
        assert(txs@.subrange(0, i + 1).drop_last() =~= txs@.subrange(0, i as int));
        let tx = &txs[i];
        match tx.type_ {
            TxType::Income => {
                if tx.account_id == account_id {
                    balance = sat_add(balance, tx.amount);
                }
            },
            TxType::Expense => {
                if tx.account_id == account_id {
                    balance = sat_sub(balance, tx.amount);
                }
            },
            TxType::Transfer => {
                if tx.account_id == account_id {
                    balance = sat_sub(balance, tx.amount);
                } else if tx.counter_account_id == Some(account_id) {
                    balance = sat_add(balance, tx.amount);
                }
            },
        }
        i += 1;
    }
    assert(txs@.subrange(0, txs.len() as int) =~= txs@);
    balance
}

/// Without saturation along the way, the balance is the plain sum.
pub proof fn lemma_balance_without_saturation(initial: int, txs: Seq<Transaction>, id: i64)
    requires
        forall|k: int| 0 <= k <= txs.len() ==> i64::MIN <= #[trigger] plain_balance(initial, txs.subrange(0, k), id) <= i64::MAX,
    ensures
        balance_after(initial, txs, id) == plain_balance(initial, txs, id),
    decreases txs.len(),
{
    if txs.len() > 0 {
        let rest = txs.drop_last();
        assert forall|k: int| 0 <= k <= rest.len() implies i64::MIN <= #[trigger] plain_balance(initial, rest.subrange(0, k), id) <= i64::MAX by {
            assert(rest.subrange(0, k) =~= txs.subrange(0, k));
        }
        lemma_balance_without_saturation(initial, rest, id);
        assert(txs.subrange(0, txs.len() as int) =~= txs);
    }
}

/// The transfer runs between `a` and `b`, in either direction.
pub open spec fn transfer_between(tx: Transaction, a: i64, b: i64) -> bool {
    (tx.account_id == a && tx.counter_account_id == Some(b)) || (tx.account_id == b
        && tx.counter_account_id == Some(a))
}

/// The transfer touches neither `a` nor `b`.
pub open spec fn transfer_elsewhere(tx: Transaction, a: i64, b: i64) -> bool {
    tx.account_id != a && tx.account_id != b && tx.counter_account_id != Some(a)
        && tx.counter_account_id != Some(b)
}

/// Income minus expense booked on account `a` or `b`.
pub open spec fn pair_income_minus_expense(txs: Seq<Transaction>, a: i64, b: i64) -> int
    decreases txs.len(),
{
    if txs.len() == 0 {
        0
    } else {
        let prev = pair_income_minus_expense(txs.drop_last(), a, b);
        let t = txs.last();
        let on_pair = t.account_id == a || t.account_id == b;
        match t.type_ {
            TxType::Income => if on_pair { prev + t.amount } else { prev },
            TxType::Expense => if on_pair { prev - t.amount } else { prev },
            TxType::Transfer => prev,
        }
    }
}

/// Transfers between two accounts move money but never create or destroy it:
/// when every transfer runs between `a` and `b` or touches neither, and no
/// balance saturates along the way, the two balances together are the two
/// opening balances plus the income and less the expense booked on them.
pub proof fn law_transfers_between_two_accounts_preserve_total(
    initial_a: int,
    initial_b: int,
    txs: Seq<Transaction>,
    a: i64,
    b: i64,
)
    requires
        a != b,
        forall|k: int| 0 <= k < txs.len() && (#[trigger] txs[k]).type_ == TxType::Transfer ==>
            transfer_between(txs[k], a, b) || transfer_elsewhere(txs[k], a, b),
        forall|k: int| 0 <= k <= txs.len() ==> i64::MIN <= #[trigger] plain_balance(initial_a, txs.subrange(0, k), a) <= i64::MAX,
        forall|k: int| 0 <= k <= txs.len() ==> i64::MIN <= #[trigger] plain_balance(initial_b, txs.subrange(0, k), b) <= i64::MAX,
    ensures
        balance_after(initial_a, txs, a) + balance_after(initial_b, txs, b) == initial_a + initial_b
            + pair_income_minus_expense(txs, a, b),
{
    lemma_balance_without_saturation(initial_a, txs, a);
    lemma_balance_without_saturation(initial_b, txs, b);
    lemma_pair_conservation(initial_a, initial_b, txs, a, b);
}

proof fn lemma_pair_conservation(initial_a: int, initial_b: int, txs: Seq<Transaction>, a: i64, b: i64)
    requires
        a != b,
        forall|k: int| 0 <= k < txs.len() && (#[trigger] txs[k]).type_ == TxType::Transfer ==>
            transfer_between(txs[k], a, b) || transfer_elsewhere(txs[k], a, b),
    ensures
        plain_balance(initial_a, txs, a) + plain_balance(initial_b, txs, b) == initial_a + initial_b
            + pair_income_minus_expense(txs, a, b),
    decreases txs.len(),
{
    if txs.len() > 0 {
        let rest = txs.drop_last();
        assert forall|k: int| 0 <= k < rest.len() && (#[trigger] rest[k]).type_ == TxType::Transfer implies
            transfer_between(rest[k], a, b) || transfer_elsewhere(rest[k], a, b) by {
            assert(rest[k] == txs[k]);
        }
        lemma_pair_conservation(initial_a, initial_b, rest, a, b);
        assert(txs.last() == txs[txs.len() - 1]);
    }
}

} // verus!
