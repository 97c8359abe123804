use std::collections::HashMap;

use rust_decimal::Decimal;
use txledger::amount::Amount;
use txledger::client::ProcessingError;
use txledger::ids::{ClientID, TransactionID};
use txledger::positive_decimal::PositiveDecimal;
use txledger::processor::{Processor, ProcessorStatusEntry};
use txledger::transaction::{Chargeback, Deposit, Dispute, Resolve, Transaction, Withdrawal};

fn dec(mantissa: i64, scale: u32) -> Amount {
    Amount::from_decimal(Decimal::new(mantissa, scale))
}

fn pos(mantissa: i64, scale: u32) -> PositiveDecimal {
    PositiveDecimal::new(Decimal::new(mantissa, scale)).unwrap()
}

fn deposit(client: u16, tx: u32, amount: PositiveDecimal) -> Transaction {
    Transaction::Deposit(Deposit {
        client: ClientID::new(client),
        tx: TransactionID::new(tx),
        amount,
    })
}

fn withdrawal(client: u16, tx: u32, amount: PositiveDecimal) -> Transaction {
    Transaction::Withdrawal(Withdrawal {
        client: ClientID::new(client),
        tx: TransactionID::new(tx),
        amount,
    })
}

fn dispute(client: u16, tx: u32) -> Transaction {
    Transaction::Dispute(Dispute {
        client: ClientID::new(client),
        tx: TransactionID::new(tx),
    })
}

fn resolve(client: u16, tx: u32) -> Transaction {
    Transaction::Resolve(Resolve {
        client: ClientID::new(client),
        tx: TransactionID::new(tx),
    })
}

fn chargeback(client: u16, tx: u32) -> Transaction {
    Transaction::Chargeback(Chargeback {
        client: ClientID::new(client),
        tx: TransactionID::new(tx),
    })
}

fn entries(processor: &Processor) -> HashMap<ClientID, ProcessorStatusEntry> {
    processor
        .status_entries()
        .into_iter()
        .map(|e| (e.client, e))
        .collect()
}

fn row(client: u16, available: Amount, held: Amount, total: Amount, locked: bool) -> ProcessorStatusEntry {
    ProcessorStatusEntry {
        client: ClientID::new(client),
        available,
        held,
        total,
        locked,
    }
}

#[test]
fn basic_transactions_test() {
    let mut processor = Processor::new();
    processor
        .handle_transaction(deposit(1, 1, pos(100, 1)))
        .unwrap();
    processor
        .handle_transaction(withdrawal(1, 2, pos(50, 1)))
        .unwrap();
    processor.handle_transaction(dispute(1, 1)).unwrap();
    processor.handle_transaction(resolve(1, 1)).unwrap();
    processor
        .handle_transaction(deposit(2, 3, pos(10000, 1)))
        .unwrap();

    let mut entries = entries(&processor);

    assert_eq!(
        Some(row(1, dec(50, 1), dec(0, 1), dec(50, 1), false)),
        entries.remove(&ClientID::new(1))
    );
    assert_eq!(
        Some(row(2, dec(10000, 1), dec(0, 1), dec(10000, 1), false)),
        entries.remove(&ClientID::new(2))
    );
    assert!(entries.is_empty());
}

#[test]
fn scenario_deposit_dispute_chargeback() {
    let mut processor = Processor::new();
    processor.handle_transaction(deposit(1, 1, pos(100, 1))).unwrap();
    assert_eq!(
        entries(&processor)[&ClientID::new(1)],
        row(1, dec(10, 0), dec(0, 0), dec(10, 0), false)
    );
    processor.handle_transaction(dispute(1, 1)).unwrap();
    assert_eq!(
        entries(&processor)[&ClientID::new(1)],
        row(1, dec(0, 0), dec(10, 0), dec(10, 0), false)
    );
    processor.handle_transaction(chargeback(1, 1)).unwrap();
    assert_eq!(
        entries(&processor)[&ClientID::new(1)],
        row(1, dec(0, 0), dec(0, 0), dec(0, 0), true)
    );
    assert_eq!(
        processor.handle_transaction(deposit(1, 2, pos(5, 0))),
        Err(ProcessingError::AccountLocked)
    );
    assert_eq!(
        entries(&processor)[&ClientID::new(1)],
        row(1, dec(0, 0), dec(0, 0), dec(0, 0), true)
    );
}

#[test]
fn scenario_withdrawal_over_total() {
    let mut processor = Processor::new();
    processor.handle_transaction(deposit(1, 1, pos(100, 1))).unwrap();
    assert_eq!(
        processor.handle_transaction(withdrawal(1, 2, pos(200, 1))),
        Err(ProcessingError::InsufficientFunds)
    );
    assert_eq!(entries(&processor)[&ClientID::new(1)].total, dec(100, 1));
}

#[test]
fn withdrawal_may_take_held_funds() {
    let mut processor = Processor::new();
    processor.handle_transaction(deposit(1, 1, pos(100, 1))).unwrap();
    processor.handle_transaction(dispute(1, 1)).unwrap();
    assert_eq!(entries(&processor)[&ClientID::new(1)].available, dec(0, 0));
    processor.handle_transaction(withdrawal(1, 2, pos(5, 0))).unwrap();
    assert_eq!(
        entries(&processor)[&ClientID::new(1)],
        row(1, dec(-5, 0), dec(10, 0), dec(5, 0), false)
    );
}

#[test]
fn scenario_resolve_without_dispute() {
    let mut processor = Processor::new();
    processor.handle_transaction(deposit(1, 1, pos(100, 1))).unwrap();
    assert_eq!(
        processor.handle_transaction(resolve(1, 1)),
        Err(ProcessingError::NotDisputed)
    );
    assert_eq!(
        entries(&processor)[&ClientID::new(1)],
        row(1, dec(10, 0), dec(0, 0), dec(10, 0), false)
    );
}

#[test]
fn scenario_two_clients_kept_apart() {
    let mut processor = Processor::new();
    processor.handle_transaction(deposit(1, 1, pos(15, 1))).unwrap();
    processor.handle_transaction(deposit(2, 2, pos(27, 0))).unwrap();
    let rows = processor.status_entries();
    assert_eq!(rows.len(), 2);
    let map = entries(&processor);
    assert_eq!(map[&ClientID::new(1)], row(1, dec(15, 1), dec(0, 0), dec(15, 1), false));
    assert_eq!(map[&ClientID::new(2)], row(2, dec(27, 0), dec(0, 0), dec(27, 0), false));
}

#[test]
fn failed_transaction_still_creates_account() {
    let mut processor = Processor::new();
    assert_eq!(
        processor.handle_transaction(dispute(7, 1)),
        Err(ProcessingError::DepositNotFound)
    );
    let rows = processor.status_entries();
    assert_eq!(rows, vec![row(7, dec(0, 0), dec(0, 0), dec(0, 0), false)]);
}

#[test]
fn failures_leave_state_unchanged() {
    let mut processor = Processor::new();
    processor.handle_transaction(deposit(1, 1, pos(100, 1))).unwrap();
    processor.handle_transaction(dispute(1, 1)).unwrap();
    let before = processor.status_entries();
    assert_eq!(
        processor.handle_transaction(dispute(1, 1)),
        Err(ProcessingError::AlreadyDisputed)
    );
    assert_eq!(
        processor.handle_transaction(deposit(1, 1, pos(3, 0))),
        Err(ProcessingError::DuplicateTransactionID)
    );
    assert_eq!(
        processor.handle_transaction(chargeback(1, 9)),
        Err(ProcessingError::DepositNotFound)
    );
    assert_eq!(processor.status_entries(), before);
}

#[test]
fn locked_account_refuses_every_kind() {
    let mut processor = Processor::new();
    processor.handle_transaction(deposit(1, 1, pos(100, 1))).unwrap();
    processor.handle_transaction(deposit(1, 2, pos(30, 1))).unwrap();
    processor.handle_transaction(dispute(1, 2)).unwrap();
    processor.handle_transaction(dispute(1, 1)).unwrap();
    processor.handle_transaction(chargeback(1, 1)).unwrap();
    let before = processor.status_entries();
    for t in [
        deposit(1, 3, pos(1, 0)),
        withdrawal(1, 4, pos(1, 0)),
        dispute(1, 1),
        resolve(1, 2),
        chargeback(1, 2),
    ] {
        assert_eq!(processor.handle_transaction(t), Err(ProcessingError::AccountLocked));
    }
    assert_eq!(processor.status_entries(), before);
    assert_eq!(before[0].held, dec(3, 0));
    assert_eq!(before[0].total, dec(3, 0));
    assert_eq!(before[0].available, dec(0, 0));
}

#[test]
fn deposit_id_never_reused_after_resolve() {
    let mut processor = Processor::new();
    processor.handle_transaction(deposit(1, 1, pos(100, 1))).unwrap();
    processor.handle_transaction(dispute(1, 1)).unwrap();
    processor.handle_transaction(resolve(1, 1)).unwrap();
    assert_eq!(
        processor.handle_transaction(deposit(1, 1, pos(1, 0))),
        Err(ProcessingError::DuplicateTransactionID)
    );
}

#[test]
fn withdrawal_is_not_disputable() {
    let mut processor = Processor::new();
    processor.handle_transaction(deposit(1, 1, pos(100, 1))).unwrap();
    processor.handle_transaction(withdrawal(1, 2, pos(1, 0))).unwrap();
    assert_eq!(
        processor.handle_transaction(dispute(1, 2)),
        Err(ProcessingError::DepositNotFound)
    );
    assert_eq!(
        processor.handle_transaction(resolve(1, 2)),
        Err(ProcessingError::DepositNotFound)
    );
}

#[test]
fn overflowing_balance_is_refused() {
    let mut processor = Processor::new();
    let big = PositiveDecimal::from_amount(
        Amount::from_parts(txledger::amount::MAX_MANTISSA, 0).unwrap(),
    )
    .unwrap();
    processor.handle_transaction(deposit(1, 1, big)).unwrap();
    assert_eq!(
        processor.handle_transaction(deposit(1, 2, pos(1, 0))),
        Err(ProcessingError::AmountOverflow)
    );
    assert_eq!(
        processor.handle_transaction(withdrawal(1, 3, pos(1, 1))),
        Err(ProcessingError::AmountOverflow)
    );
    processor.handle_transaction(withdrawal(1, 4, pos(1, 0))).unwrap();
}
