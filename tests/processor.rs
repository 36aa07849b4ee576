use ledger_engine::processor::{BasicProcessor, DisputeState, ErrorKind};
use ledger_engine::transaction::{ClientAccount, Transaction, TransactionType};
use std::collections::HashMap;

fn deposit(client: u32, tx: u32, amount: i64) -> Transaction {
    Transaction { kind: TransactionType::Deposit, client, tx, amount: Some(amount) }
}

fn withdrawal(client: u32, tx: u32, amount: i64) -> Transaction {
    Transaction { kind: TransactionType::Withdrawal, client, tx, amount: Some(amount) }
}

fn referring(kind: TransactionType, client: u32, tx: u32) -> Transaction {
    Transaction { kind, client, tx, amount: None }
}

fn empty() -> BasicProcessor {
    BasicProcessor::new(HashMap::new(), Vec::new())
}

fn account(p: &BasicProcessor, client: u32) -> ClientAccount {
    *p.client_accounts.get(&client).expect("account exists")
}

fn acc(available: i64, held: i64, total: i64, locked: bool) -> ClientAccount {
    ClientAccount { total, available, held, locked }
}

#[test]
fn test_is_valid_various_cases() {
    let mut accounts = HashMap::new();
    accounts.insert(1, ClientAccount { total: 200_0000, available: 100_0000, held: 100_0000, locked: false });
    accounts.insert(2, ClientAccount { total: 150_0000, available: 100_0000, held: 50_0000, locked: true });

    let past_transaction = vec![
        Transaction { tx: 1, client: 1, amount: Some(50_0000), kind: TransactionType::Deposit },
        Transaction { tx: 2, client: 1, amount: Some(50_0000), kind: TransactionType::Deposit },
        Transaction { tx: 3, client: 2, amount: Some(150_0000), kind: TransactionType::Deposit },
        Transaction { tx: 4, client: 2, amount: Some(50_0000), kind: TransactionType::Withdrawal },
    ];

    // A resolve or chargeback needs its deposit to be under dispute; every
    // record of a new engine starts undisputed, so both are refused here.
    let cases = vec![
        (Transaction { tx: 10, client: 1, amount: Some(10_0000), kind: TransactionType::Deposit }, true),
        (Transaction { tx: 11, client: 2, amount: Some(20_0000), kind: TransactionType::Deposit }, false),
        (Transaction { tx: 1, client: 1, amount: None, kind: TransactionType::Dispute }, true),
        (Transaction { tx: 12, client: 1, amount: None, kind: TransactionType::Dispute }, false),
        (Transaction { tx: 1, client: 1, amount: None, kind: TransactionType::Chargeback }, false),
        (Transaction { tx: 1, client: 1, amount: None, kind: TransactionType::Resolve }, false),
        (Transaction { tx: 1, client: 2, amount: None, kind: TransactionType::Resolve }, false),
        (Transaction { tx: 15, client: 300, amount: Some(100_0000), kind: TransactionType::Withdrawal }, false),
        (Transaction { tx: 16, client: 300, amount: Some(100_0000), kind: TransactionType::Deposit }, true),
    ];

    let processor = BasicProcessor::new(accounts, past_transaction);

    for (tx, expected) in cases {
        assert_eq!(processor.is_valid_transaction(&tx), expected, "Failed on Tx#{}", tx.tx);
    }
}

#[test]
fn new_engine_marks_history_undisputed() {
    let p = BasicProcessor::new(HashMap::new(), vec![deposit(1, 1, 5), withdrawal(1, 2, 3)]);
    assert_eq!(p.dispute_states, vec![DisputeState::Normal, DisputeState::Normal]);
    assert_eq!(p.past_transactions.len(), 2);
}

#[test]
fn scenario_deposit_on_empty_ledger() {
    let mut p = empty();
    assert_eq!(p.process_transaction(deposit(1, 1, 10_0000)), Ok(acc(10_0000, 0, 10_0000, false)));
    assert_eq!(account(&p, 1), acc(10_0000, 0, 10_0000, false));
    assert_eq!(p.past_transactions, vec![deposit(1, 1, 10_0000)]);
    assert_eq!(p.dispute_states, vec![DisputeState::Normal]);
}

#[test]
fn scenario_withdrawal_beyond_available() {
    let mut p = empty();
    p.process_transaction(deposit(1, 1, 10_0000)).unwrap();
    assert_eq!(p.process_transaction(withdrawal(1, 2, 15_0000)), Err(ErrorKind::InsufficientFunds));
    assert_eq!(account(&p, 1), acc(10_0000, 0, 10_0000, false));
    assert_eq!(p.past_transactions.len(), 1);
}

#[test]
fn scenario_dispute_then_chargeback_freezes() {
    let mut p = empty();
    p.process_transaction(deposit(1, 1, 10_0000)).unwrap();
    assert_eq!(p.process_transaction(referring(TransactionType::Dispute, 1, 1)), Ok(acc(0, 10_0000, 10_0000, false)));
    assert_eq!(p.dispute_states, vec![DisputeState::Disputed]);
    assert_eq!(p.process_transaction(referring(TransactionType::Chargeback, 1, 1)), Ok(acc(0, 0, 0, true)));
    assert_eq!(p.dispute_states, vec![DisputeState::ChargedBack]);
    assert_eq!(p.process_transaction(deposit(1, 3, 5_0000)), Err(ErrorKind::AccountFrozen));
    assert_eq!(account(&p, 1), acc(0, 0, 0, true));
}

#[test]
fn scenario_dispute_of_unknown_transaction() {
    let mut p = empty();
    assert_eq!(p.process_transaction(referring(TransactionType::Dispute, 2, 99)), Err(ErrorKind::ReferencedTransactionNotFound));
    assert!(p.client_accounts.get(&2).is_none());
    p.process_transaction(deposit(2, 1, 7_0000)).unwrap();
    assert_eq!(p.process_transaction(referring(TransactionType::Dispute, 2, 99)), Err(ErrorKind::ReferencedTransactionNotFound));
    assert_eq!(account(&p, 2), acc(7_0000, 0, 7_0000, false));
}

#[test]
fn balances_stay_consistent_over_a_run() {
    let mut p = empty();
    let run = vec![
        deposit(1, 1, 12_3456),
        deposit(2, 2, 1),
        withdrawal(1, 3, 2_0001),
        referring(TransactionType::Dispute, 1, 1),
        deposit(1, 4, 3),
        referring(TransactionType::Resolve, 1, 1),
        referring(TransactionType::Dispute, 2, 2),
        referring(TransactionType::Chargeback, 2, 2),
        withdrawal(1, 5, 100_0000),
    ];
    for t in run {
        let _ = p.process_transaction(t);
        for a in p.client_accounts.values() {
            assert_eq!(a.total, a.available + a.held);
        }
    }
    assert_eq!(account(&p, 1), acc(10_3458, 0, 10_3458, false));
    assert_eq!(account(&p, 2), acc(0, 0, 0, true));
}

#[test]
fn frozen_account_rejects_every_kind() {
    let mut p = empty();
    p.process_transaction(deposit(1, 1, 10_0000)).unwrap();
    p.process_transaction(deposit(1, 2, 4_0000)).unwrap();
    p.process_transaction(referring(TransactionType::Dispute, 1, 1)).unwrap();
    p.process_transaction(referring(TransactionType::Chargeback, 1, 1)).unwrap();
    let frozen = account(&p, 1);
    for t in vec![
        deposit(1, 3, 1),
        withdrawal(1, 4, 1),
        referring(TransactionType::Dispute, 1, 2),
        referring(TransactionType::Resolve, 1, 1),
        referring(TransactionType::Chargeback, 1, 1),
    ] {
        assert_eq!(p.process_transaction(t), Err(ErrorKind::AccountFrozen));
    }
    assert_eq!(account(&p, 1), frozen);
    assert_eq!(frozen, acc(4_0000, 0, 4_0000, true));
}

#[test]
fn rejection_leaves_state_unchanged() {
    let mut p = empty();
    p.process_transaction(deposit(1, 1, 10_0000)).unwrap();
    p.process_transaction(referring(TransactionType::Dispute, 1, 1)).unwrap();
    let accounts = p.client_accounts.clone();
    let history = p.past_transactions.clone();
    let states = p.dispute_states.clone();
    for t in vec![
        withdrawal(1, 2, 1),
        referring(TransactionType::Dispute, 1, 1),
        deposit(1, 3, 0),
        referring(TransactionType::Resolve, 2, 1),
    ] {
        assert!(p.process_transaction(t).is_err());
        assert_eq!(p.client_accounts, accounts);
        assert_eq!(p.past_transactions, history);
        assert_eq!(p.dispute_states, states);
    }
}

#[test]
fn dispute_twice_is_rejected() {
    let mut p = empty();
    p.process_transaction(deposit(1, 1, 10_0000)).unwrap();
    p.process_transaction(referring(TransactionType::Dispute, 1, 1)).unwrap();
    assert_eq!(p.process_transaction(referring(TransactionType::Dispute, 1, 1)), Err(ErrorKind::InvalidDisputeState));
}

#[test]
fn settling_an_undisputed_deposit_is_rejected() {
    let mut p = empty();
    p.process_transaction(deposit(1, 1, 10_0000)).unwrap();
    assert_eq!(p.process_transaction(referring(TransactionType::Resolve, 1, 1)), Err(ErrorKind::InvalidDisputeState));
    assert_eq!(p.process_transaction(referring(TransactionType::Chargeback, 1, 1)), Err(ErrorKind::InvalidDisputeState));
    assert_eq!(account(&p, 1), acc(10_0000, 0, 10_0000, false));
}

#[test]
fn settled_deposit_cannot_be_settled_again() {
    let mut p = empty();
    p.process_transaction(deposit(1, 1, 10_0000)).unwrap();
    p.process_transaction(referring(TransactionType::Dispute, 1, 1)).unwrap();
    p.process_transaction(referring(TransactionType::Resolve, 1, 1)).unwrap();
    assert_eq!(p.dispute_states, vec![DisputeState::Resolved]);
    assert_eq!(p.process_transaction(referring(TransactionType::Resolve, 1, 1)), Err(ErrorKind::InvalidDisputeState));
    assert_eq!(p.process_transaction(referring(TransactionType::Chargeback, 1, 1)), Err(ErrorKind::InvalidDisputeState));
    assert_eq!(p.process_transaction(referring(TransactionType::Dispute, 1, 1)), Err(ErrorKind::InvalidDisputeState));
}

#[test]
fn dispute_then_resolve_restores_balances() {
    let mut p = empty();
    p.process_transaction(deposit(1, 1, 10_0000)).unwrap();
    p.process_transaction(deposit(1, 2, 2_5000)).unwrap();
    let before = account(&p, 1);
    assert_eq!(p.process_transaction(referring(TransactionType::Dispute, 1, 2)), Ok(acc(10_0000, 2_5000, 12_5000, false)));
    assert_eq!(p.process_transaction(referring(TransactionType::Resolve, 1, 2)), Ok(before));
    assert_eq!(p.dispute_states, vec![DisputeState::Normal, DisputeState::Resolved]);
}

#[test]
fn dispute_may_leave_available_negative() {
    let mut p = empty();
    p.process_transaction(deposit(1, 1, 10_0000)).unwrap();
    p.process_transaction(withdrawal(1, 2, 8_0000)).unwrap();
    assert_eq!(p.process_transaction(referring(TransactionType::Dispute, 1, 1)), Ok(acc(-8_0000, 10_0000, 2_0000, false)));
}

#[test]
fn error_account_not_found() {
    let mut p = empty();
    assert_eq!(p.process_transaction(withdrawal(5, 1, 1)), Err(ErrorKind::AccountNotFound));
    let p = BasicProcessor::new(HashMap::new(), vec![deposit(5, 1, 3)]);
    assert_eq!(p.check_transaction(&referring(TransactionType::Dispute, 5, 1)), Err(ErrorKind::AccountNotFound));
}

#[test]
fn error_amount_missing() {
    let mut p = empty();
    let bare = Transaction { kind: TransactionType::Deposit, client: 1, tx: 1, amount: None };
    assert_eq!(p.process_transaction(bare), Err(ErrorKind::AmountMissing));
    p.process_transaction(deposit(1, 2, 1)).unwrap();
    let bare = Transaction { kind: TransactionType::Withdrawal, client: 1, tx: 3, amount: None };
    assert_eq!(p.process_transaction(bare), Err(ErrorKind::AmountMissing));
}

#[test]
fn error_non_positive_amount() {
    let mut p = empty();
    assert_eq!(p.process_transaction(deposit(1, 1, 0)), Err(ErrorKind::NonPositiveAmount));
    assert_eq!(p.process_transaction(deposit(1, 1, -5)), Err(ErrorKind::NonPositiveAmount));
    assert!(p.client_accounts.is_empty());
    p.process_transaction(deposit(1, 2, 1)).unwrap();
    assert_eq!(p.process_transaction(withdrawal(1, 3, 0)), Err(ErrorKind::NonPositiveAmount));
}

#[test]
fn withdrawal_of_exactly_available_is_accepted() {
    let mut p = empty();
    p.process_transaction(deposit(1, 1, 10_0000)).unwrap();
    assert_eq!(p.process_transaction(withdrawal(1, 2, 10_0000)), Ok(acc(0, 0, 0, false)));
}

#[test]
fn error_client_mismatch() {
    let mut p = empty();
    p.process_transaction(deposit(1, 1, 10_0000)).unwrap();
    p.process_transaction(deposit(2, 2, 10_0000)).unwrap();
    assert_eq!(p.process_transaction(referring(TransactionType::Dispute, 2, 1)), Err(ErrorKind::ClientMismatch));
}

#[test]
fn withdrawal_cannot_be_disputed() {
    let mut p = empty();
    p.process_transaction(deposit(1, 1, 10_0000)).unwrap();
    p.process_transaction(withdrawal(1, 2, 1_0000)).unwrap();
    assert_eq!(p.process_transaction(referring(TransactionType::Dispute, 1, 2)), Err(ErrorKind::ReferencedTransactionNotFound));
}

#[test]
fn error_balance_overflow() {
    let mut p = empty();
    p.process_transaction(deposit(1, 1, i64::MAX)).unwrap();
    assert_eq!(p.process_transaction(deposit(1, 2, 1)), Err(ErrorKind::BalanceOverflow));
    assert_eq!(account(&p, 1), acc(i64::MAX, 0, i64::MAX, false));
}

#[test]
fn check_transaction_changes_nothing() {
    let p = empty();
    assert_eq!(p.check_transaction(&deposit(1, 1, 3)), Ok(acc(3, 0, 3, false)));
    assert!(p.client_accounts.is_empty());
    assert!(p.past_transactions.is_empty());
}

#[test]
fn lookup_takes_first_deposit_with_the_id() {
    let mut p = empty();
    p.process_transaction(deposit(1, 1, 10_0000)).unwrap();
    p.process_transaction(deposit(1, 1, 3_0000)).unwrap();
    assert_eq!(p.process_transaction(referring(TransactionType::Dispute, 1, 1)), Ok(acc(3_0000, 10_0000, 13_0000, false)));
    assert_eq!(p.dispute_states, vec![DisputeState::Disputed, DisputeState::Normal]);
    assert_eq!(p.deposit_index.get(&1), Some(&0));
}

#[test]
fn new_engine_indexes_first_deposits() {
    let p = BasicProcessor::new(
        HashMap::new(),
        vec![withdrawal(1, 7, 1), deposit(1, 7, 2), deposit(1, 7, 3), deposit(2, 9, 4)],
    );
    assert_eq!(p.deposit_index.len(), 2);
    assert_eq!(p.deposit_index.get(&7), Some(&1));
    assert_eq!(p.deposit_index.get(&9), Some(&3));
}
