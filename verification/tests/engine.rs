use transact::ledger::{Ledger, LedgerError, Signal};
use transact::types::{Account, Transaction, TransactionState, TransactionType};

fn event(ty: TransactionType, client: u16, tx: u32, amount: Option<u64>) -> Transaction {
    Transaction { transaction_type: ty, client, tx, amount, state: TransactionState::default() }
}

fn account(client: u16, available: i128, held: i128, total: i128, locked: bool) -> Account {
    Account { client, available, held, total, locked }
}

#[test]
fn test_single_deposit_snapshot() {
    let mut ledger = Ledger::new();
    ledger.push_transaction(event(TransactionType::Deposit, 1, 1, Some(10))).unwrap();
    ledger.stop().unwrap();
    let snapshot = ledger.get_snapshot();
    assert_eq!(snapshot, vec![account(1, 10, 0, 10, false)]);
}

#[test]
fn test_withdrawal_reduces_balance() {
    let mut ledger = Ledger::new();
    ledger.push_transaction(event(TransactionType::Deposit, 1, 1, Some(10))).unwrap();
    ledger.push_transaction(event(TransactionType::Withdrawal, 1, 2, Some(3))).unwrap();
    ledger.stop().unwrap();
    assert_eq!(ledger.get_snapshot(), vec![account(1, 7, 0, 7, false)]);
}

#[test]
fn test_insufficient_withdrawal_rejected() {
    let mut ledger = Ledger::new();
    ledger.push_transaction(event(TransactionType::Deposit, 1, 1, Some(5))).unwrap();
    ledger.push_transaction(event(TransactionType::Withdrawal, 1, 2, Some(8))).unwrap();
    ledger.stop().unwrap();
    assert_eq!(ledger.get_snapshot(), vec![account(1, 5, 0, 5, false)]);
}

#[test]
fn test_dispute_holds_funds() {
    let mut ledger = Ledger::new();
    ledger.push_transaction(event(TransactionType::Deposit, 1, 1, Some(10))).unwrap();
    ledger.push_transaction(event(TransactionType::Dispute, 1, 1, None)).unwrap();
    ledger.stop().unwrap();
    assert_eq!(ledger.get_snapshot(), vec![account(1, 0, 10, 10, false)]);
}

#[test]
fn test_dispute_resolve_cancels() {
    let mut ledger = Ledger::new();
    ledger.push_transaction(event(TransactionType::Deposit, 1, 1, Some(10))).unwrap();
    ledger.push_transaction(event(TransactionType::Dispute, 1, 1, None)).unwrap();
    ledger.push_transaction(event(TransactionType::Resolve, 1, 1, None)).unwrap();
    ledger.stop().unwrap();
    assert_eq!(ledger.get_snapshot(), vec![account(1, 10, 0, 10, false)]);
}

#[test]
fn test_dispute_chargeback_freezes() {
    let mut ledger = Ledger::new();
    ledger.push_transaction(event(TransactionType::Deposit, 1, 1, Some(10))).unwrap();
    ledger.push_transaction(event(TransactionType::Dispute, 1, 1, None)).unwrap();
    ledger.push_transaction(event(TransactionType::Chargeback, 1, 1, None)).unwrap();
    // A frozen account absorbs every later event for that client.
    ledger.push_transaction(event(TransactionType::Deposit, 1, 2, Some(50))).unwrap();
    ledger.push_transaction(event(TransactionType::Dispute, 1, 2, None)).unwrap();
    ledger.stop().unwrap();
    assert_eq!(ledger.get_snapshot(), vec![account(1, 0, 0, 0, true)]);
}

#[test]
fn test_resolve_without_dispute_noop() {
    let mut ledger = Ledger::new();
    ledger.push_transaction(event(TransactionType::Deposit, 1, 1, Some(10))).unwrap();
    ledger.push_transaction(event(TransactionType::Resolve, 1, 1, None)).unwrap();
    ledger.push_transaction(event(TransactionType::Chargeback, 1, 1, None)).unwrap();
    ledger.stop().unwrap();
    assert_eq!(ledger.get_snapshot(), vec![account(1, 10, 0, 10, false)]);
}

#[test]
fn test_reference_to_unknown_tx_noop() {
    let mut ledger = Ledger::new();
    ledger.push_transaction(event(TransactionType::Deposit, 1, 1, Some(10))).unwrap();
    ledger.push_transaction(event(TransactionType::Dispute, 1, 99, None)).unwrap();
    ledger.push_transaction(event(TransactionType::Resolve, 1, 99, None)).unwrap();
    ledger.stop().unwrap();
    assert_eq!(ledger.get_snapshot(), vec![account(1, 10, 0, 10, false)]);
}

#[test]
fn test_second_dispute_noop() {
    let mut ledger = Ledger::new();
    ledger.push_transaction(event(TransactionType::Deposit, 1, 1, Some(10))).unwrap();
    ledger.push_transaction(event(TransactionType::Dispute, 1, 1, None)).unwrap();
    ledger.push_transaction(event(TransactionType::Dispute, 1, 1, None)).unwrap();
    ledger.stop().unwrap();
    assert_eq!(ledger.get_snapshot(), vec![account(1, 0, 10, 10, false)]);
}

#[test]
fn test_snapshot_idempotent() {
    let mut ledger = Ledger::new();
    ledger.push_transaction(event(TransactionType::Deposit, 1, 1, Some(10))).unwrap();
    ledger.push_transaction(event(TransactionType::Deposit, 2, 2, Some(5))).unwrap();
    ledger.push_transaction(event(TransactionType::Dispute, 1, 1, None)).unwrap();
    ledger.stop().unwrap();
    let first = ledger.get_snapshot();
    let second = ledger.get_snapshot();
    assert_eq!(first, second);
}

#[test]
fn test_scenario_trace() {
    // Deposit(c1,tx1,10), Deposit(c2,tx2,5), Dispute(c1,tx1),
    // Withdrawal(c1,tx3,3), Resolve(c1,tx1). Traced through the delta table
    // and the merge rules in order: the withdrawal is merge-rejected while
    // the deposit is under dispute, and the resolve releases the hold.
    let mut ledger = Ledger::new();
    ledger.push_transaction(event(TransactionType::Deposit, 1, 1, Some(10))).unwrap();
    ledger.push_transaction(event(TransactionType::Deposit, 2, 2, Some(5))).unwrap();
    ledger.push_transaction(event(TransactionType::Dispute, 1, 1, None)).unwrap();
    ledger.push_transaction(event(TransactionType::Withdrawal, 1, 3, Some(3))).unwrap();
    ledger.push_transaction(event(TransactionType::Resolve, 1, 1, None)).unwrap();
    ledger.stop().unwrap();
    let snapshot = ledger.get_snapshot();
    assert_eq!(snapshot, vec![account(1, 10, 0, 10, false), account(2, 5, 0, 5, false)]);
}

#[test]
fn test_cross_client_reorder_independent() {
    let mut first = Ledger::new();
    first.push_transaction(event(TransactionType::Deposit, 1, 1, Some(10))).unwrap();
    first.push_transaction(event(TransactionType::Deposit, 2, 2, Some(5))).unwrap();
    first.push_transaction(event(TransactionType::Withdrawal, 1, 3, Some(4))).unwrap();
    first.stop().unwrap();

    let mut second = Ledger::new();
    second.push_transaction(event(TransactionType::Deposit, 2, 2, Some(5))).unwrap();
    second.push_transaction(event(TransactionType::Deposit, 1, 1, Some(10))).unwrap();
    second.push_transaction(event(TransactionType::Withdrawal, 1, 3, Some(4))).unwrap();
    second.stop().unwrap();

    let a = first.get_snapshot();
    let b = second.get_snapshot();
    let find = |snap: &Vec<Account>, c: u16| snap.iter().find(|x| x.client == c).copied().unwrap();
    assert_eq!(find(&a, 1), find(&b, 1));
    assert_eq!(find(&a, 2), find(&b, 2));
}

#[test]
fn test_same_client_reorder_diverges() {
    // For one client the fold is order-dependent: a withdrawal before the
    // deposit is merge-rejected, after it is applied.
    let mut first = Ledger::new();
    first.push_transaction(event(TransactionType::Deposit, 1, 1, Some(5))).unwrap();
    first.push_transaction(event(TransactionType::Withdrawal, 1, 2, Some(3))).unwrap();
    first.stop().unwrap();

    let mut second = Ledger::new();
    second.push_transaction(event(TransactionType::Withdrawal, 1, 2, Some(3))).unwrap();
    second.push_transaction(event(TransactionType::Deposit, 1, 1, Some(5))).unwrap();
    second.stop().unwrap();

    let a = first.get_snapshot();
    let b = second.get_snapshot();
    assert_eq!(a, vec![account(1, 2, 0, 2, false)]);
    assert_eq!(b, vec![account(1, 5, 0, 5, false)]);
    assert_ne!(a[0].available, b[0].available);
}

#[test]
fn test_duplicate_tx_id_overwrites() {
    // A duplicate deposit id silently overwrites the stored record: both
    // deltas stay in the log, and a later dispute sees the second amount.
    let mut ledger = Ledger::new();
    ledger.push_transaction(event(TransactionType::Deposit, 1, 1, Some(10))).unwrap();
    ledger.push_transaction(event(TransactionType::Deposit, 1, 1, Some(7))).unwrap();
    ledger.push_transaction(event(TransactionType::Dispute, 1, 1, None)).unwrap();
    ledger.stop().unwrap();
    assert_eq!(ledger.get_snapshot(), vec![account(1, 10, 7, 17, false)]);
}

#[test]
fn test_push_after_stop_fails() {
    let mut ledger = Ledger::new();
    ledger.push_transaction(event(TransactionType::Deposit, 1, 1, Some(10))).unwrap();
    ledger.stop().unwrap();
    let r = ledger.push_transaction(event(TransactionType::Deposit, 1, 2, Some(1)));
    assert_eq!(r, Err(LedgerError::EngineStopped));
    assert_eq!(ledger.stop(), Err(LedgerError::EngineStopped));
    // The rejected push left the ledger unchanged.
    assert_eq!(ledger.get_snapshot(), vec![account(1, 10, 0, 10, false)]);
}

#[test]
fn test_handle_signal_drives_engine() {
    let mut ledger = Ledger::new();
    let keep = ledger
        .handle_signal(Signal::Transaction(event(TransactionType::Deposit, 1, 1, Some(10))))
        .unwrap();
    assert!(keep);
    let keep = ledger.handle_signal(Signal::Kill).unwrap();
    assert!(!keep);
    let r = ledger.handle_signal(Signal::Transaction(event(
        TransactionType::Deposit,
        1,
        2,
        Some(1),
    )));
    assert_eq!(r, Err(LedgerError::EngineStopped));
    assert_eq!(ledger.get_snapshot(), vec![account(1, 10, 0, 10, false)]);
}
