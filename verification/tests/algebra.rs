use transact::types::{Account, Transaction, TransactionState, TransactionType};

fn tx(ty: TransactionType, state: TransactionState, amount: Option<u64>) -> Transaction {
    Transaction { transaction_type: ty, client: 7, tx: 42, amount, state }
}

#[test]
fn test_default_state_is_new() {
    assert_eq!(TransactionState::default(), TransactionState::New);
}

#[test]
fn test_new_account_is_zeroed() {
    let a = Account::new(3);
    assert_eq!(a, Account { client: 3, available: 0, held: 0, total: 0, locked: false });
}

#[test]
fn test_deposit_delta_table() {
    let d = |state| Account::from_transaction(&tx(TransactionType::Deposit, state, Some(10)));
    assert_eq!(d(TransactionState::New), Account { client: 7, available: 10, held: 0, total: 10, locked: false });
    assert_eq!(d(TransactionState::Dispute), Account { client: 7, available: -10, held: 10, total: 0, locked: false });
    assert_eq!(d(TransactionState::Resolve), Account { client: 7, available: 10, held: -10, total: 0, locked: false });
    assert_eq!(d(TransactionState::Chargeback), Account { client: 7, available: 0, held: -10, total: -10, locked: true });
}

#[test]
fn test_withdrawal_delta_table() {
    let d = |state| Account::from_transaction(&tx(TransactionType::Withdrawal, state, Some(10)));
    assert_eq!(d(TransactionState::New), Account { client: 7, available: -10, held: 0, total: -10, locked: false });
    assert_eq!(d(TransactionState::Dispute), Account { client: 7, available: 10, held: -10, total: 0, locked: false });
    assert_eq!(d(TransactionState::Resolve), Account { client: 7, available: -10, held: 0, total: -10, locked: false });
    assert_eq!(d(TransactionState::Chargeback), Account { client: 7, available: 0, held: 0, total: 0, locked: true });
}

#[test]
fn test_missing_amount_defaults_to_zero() {
    let d = Account::from_transaction(&tx(TransactionType::Deposit, TransactionState::New, None));
    assert_eq!(d, Account { client: 7, available: 0, held: 0, total: 0, locked: false });
}

#[test]
fn test_merge_applies_fieldwise_sum() {
    let acc = Account { client: 1, available: 10, held: 2, total: 12, locked: false };
    let next = Account { client: 1, available: -3, held: 1, total: -2, locked: false };
    assert_eq!(
        acc.merge(next),
        Account { client: 1, available: 7, held: 3, total: 10, locked: false }
    );
}

#[test]
fn test_merge_rejects_negative_available_without_held() {
    let acc = Account { client: 1, available: 5, held: 0, total: 5, locked: false };
    let next = Account { client: 1, available: -8, held: 0, total: -8, locked: false };
    assert_eq!(acc.merge(next), acc);
}

#[test]
fn test_merge_allows_dispute_related_negative_available() {
    let acc = Account { client: 1, available: 5, held: 0, total: 5, locked: false };
    let dispute = Account { client: 1, available: -8, held: 8, total: 0, locked: false };
    assert_eq!(
        acc.merge(dispute),
        Account { client: 1, available: -3, held: 8, total: 5, locked: false }
    );
}

#[test]
fn test_merge_frozen_account_absorbs() {
    let acc = Account { client: 1, available: 4, held: 0, total: 4, locked: true };
    let next = Account { client: 1, available: 100, held: 0, total: 100, locked: false };
    assert_eq!(acc.merge(next), acc);
}

#[test]
fn test_merge_propagates_lock() {
    let acc = Account { client: 1, available: 4, held: 5, total: 9, locked: false };
    let chargeback = Account { client: 1, available: 0, held: -5, total: -5, locked: true };
    assert_eq!(
        acc.merge(chargeback),
        Account { client: 1, available: 4, held: 0, total: 4, locked: true }
    );
}
