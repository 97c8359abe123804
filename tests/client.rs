use rust_decimal::Decimal;
use txledger::amount::Amount;
use txledger::client::{Client, ProcessingError};
use txledger::ids::TransactionID;
use txledger::positive_decimal::PositiveDecimal;

/// The amount `mantissa * 10^-scale`.
fn dec(mantissa: i64, scale: u32) -> Amount {
    Amount::from_decimal(Decimal::new(mantissa, scale))
}

fn pos(mantissa: i64, scale: u32) -> PositiveDecimal {
    PositiveDecimal::new(Decimal::new(mantissa, scale)).unwrap()
}

#[test]
fn test_chargeback_success_single_transaction() {
    let mut client = Client::new();

    client
        .deposit(TransactionID::new(1), pos(100, 1))
        .expect("deposit should succeed");
    assert_eq!(client.total(), dec(100, 1));
    assert_eq!(client.held(), dec(0, 1));
    assert_eq!(client.available(), dec(100, 1));
    assert_eq!(client.locked(), false);

    client
        .dispute(TransactionID::new(1))
        .expect("dispute should succeed");
    assert_eq!(client.total(), dec(100, 1));
    assert_eq!(client.held(), dec(100, 1));
    assert_eq!(client.available(), dec(0, 1));
    assert_eq!(client.locked(), false);

    client
        .chargeback(TransactionID::new(1))
        .expect("chargeback should succeed");
    assert_eq!(client.total(), dec(0, 1));
    assert_eq!(client.held(), dec(0, 1));
    assert_eq!(client.available(), dec(0, 1));
    assert_eq!(client.locked(), true);

    client
        .deposit(TransactionID::new(2), pos(10000, 1))
        .expect_err("deposit should fail on locked account");
    assert_eq!(client.total(), dec(0, 1));
    assert_eq!(client.held(), dec(0, 1));
    assert_eq!(client.available(), dec(0, 1));
    assert_eq!(client.locked(), true);
}

#[test]
fn test_chargeback_success_multiple_transaction() {
    let mut client = Client::new();

    client
        .deposit(TransactionID::new(1), pos(100, 1))
        .expect("deposit should succeed");
    assert_eq!(client.total(), dec(100, 1));
    assert_eq!(client.held(), dec(0, 1));
    assert_eq!(client.available(), dec(100, 1));
    assert_eq!(client.locked(), false);

    client
        .deposit(TransactionID::new(2), pos(10000, 1))
        .expect("deposit should succeed");
    assert_eq!(client.total(), dec(10100, 1));
    assert_eq!(client.held(), dec(0, 1));
    assert_eq!(client.available(), dec(10100, 1));
    assert_eq!(client.locked(), false);

    client
        .dispute(TransactionID::new(1))
        .expect("dispute should succeed");
    assert_eq!(client.total(), dec(10100, 1));
    assert_eq!(client.held(), dec(100, 1));
    assert_eq!(client.available(), dec(10000, 1));
    assert_eq!(client.locked(), false);

    client
        .chargeback(TransactionID::new(1))
        .expect("chargeback should succeed");
    assert_eq!(client.total(), dec(10000, 1));
    assert_eq!(client.held(), dec(0, 1));
    assert_eq!(client.available(), dec(10000, 1));
    assert_eq!(client.locked(), true);

    client
        .deposit(TransactionID::new(2), pos(10000, 1))
        .expect_err("deposit should fail on locked account");
    assert_eq!(client.total(), dec(10000, 1));
    assert_eq!(client.held(), dec(0, 1));
    assert_eq!(client.available(), dec(10000, 1));
    assert_eq!(client.locked(), true);
}

#[test]
fn test_withdraw_insufficient_funds() {
    let mut client = Client::new();

    client
        .deposit(TransactionID::new(1), pos(100, 1))
        .expect("deposit should succeed");
    assert_eq!(client.total(), dec(100, 1));
    assert_eq!(client.available(), dec(100, 1));

    client
        .withdrawal(TransactionID::new(2), pos(200, 1))
        .expect_err("withdrawal should fail due to insufficient funds");
    assert_eq!(client.total(), dec(100, 1));
    assert_eq!(client.available(), dec(100, 1));
}

#[test]
fn test_dispute_nonexistent_transaction() {
    let mut client = Client::new();

    client
        .dispute(TransactionID::new(1))
        .expect_err("dispute should fail for non-existent transaction");
    assert_eq!(client.total(), dec(0, 1));
    assert_eq!(client.held(), dec(0, 1));
    assert_eq!(client.available(), dec(0, 1));
}

#[test]
fn test_dispute_already_disputed() {
    let mut client = Client::new();

    client
        .deposit(TransactionID::new(1), pos(100, 1))
        .expect("deposit should succeed");

    client
        .dispute(TransactionID::new(1))
        .expect("first dispute should succeed");

    client
        .dispute(TransactionID::new(1))
        .expect_err("second dispute should fail");

    assert_eq!(client.total(), dec(100, 1));
    assert_eq!(client.held(), dec(100, 1));
    assert_eq!(client.available(), dec(0, 1));
}

#[test]
fn test_resolve_nonexistent_transaction() {
    let mut client = Client::new();

    client
        .resolve(TransactionID::new(1))
        .expect_err("resolve should fail for non-existent transaction");
    assert_eq!(client.total(), dec(0, 1));
    assert_eq!(client.held(), dec(0, 1));
    assert_eq!(client.available(), dec(0, 1));
}

#[test]
fn test_resolve_undisputed_transaction() {
    let mut client = Client::new();

    client
        .deposit(TransactionID::new(1), pos(100, 1))
        .expect("deposit should succeed");

    client
        .resolve(TransactionID::new(1))
        .expect_err("resolve should fail for undisputed transaction");

    assert_eq!(client.total(), dec(100, 1));
    assert_eq!(client.held(), dec(0, 1));
    assert_eq!(client.available(), dec(100, 1));
}

#[test]
fn test_chargeback_nonexistent_transaction() {
    let mut client = Client::new();

    client
        .chargeback(TransactionID::new(1))
        .expect_err("chargeback should fail for non-existent transaction");
    assert_eq!(client.total(), dec(0, 1));
    assert_eq!(client.held(), dec(0, 1));
    assert_eq!(client.available(), dec(0, 1));
    assert_eq!(client.locked(), false);
}

#[test]
fn test_chargeback_undisputed_transaction() {
    let mut client = Client::new();

    client
        .deposit(TransactionID::new(1), pos(100, 1))
        .expect("deposit should succeed");

    client
        .chargeback(TransactionID::new(1))
        .expect_err("chargeback should fail for undisputed transaction");

    assert_eq!(client.total(), dec(100, 1));
    assert_eq!(client.held(), dec(0, 1));
    assert_eq!(client.available(), dec(100, 1));
    assert_eq!(client.locked(), false);
}

#[test]
fn test_locked_account_operations() {
    let mut client = Client::new();

    // First set up an account and lock it through chargeback
    client
        .deposit(TransactionID::new(1), pos(1000, 1))
        .expect("initial deposit should succeed");
    client
        .dispute(TransactionID::new(1))
        .expect("dispute should succeed");
    client
        .chargeback(TransactionID::new(1))
        .expect("chargeback should succeed");
    assert_eq!(client.locked(), true);

    // Try deposit
    client
        .deposit(TransactionID::new(2), pos(500, 1))
        .expect_err("deposit should fail on locked account");

    // Try withdrawal
    client
        .withdrawal(TransactionID::new(3), pos(100, 1))
        .expect_err("withdrawal should fail on locked account");

    // Try dispute
    client
        .deposit(TransactionID::new(4), pos(200, 1))
        .expect_err("deposit for dispute setup should fail");
    client
        .dispute(TransactionID::new(4))
        .expect_err("dispute should fail on locked account");

    // Try resolve
    client
        .resolve(TransactionID::new(1))
        .expect_err("resolve should fail on locked account");

    // Try chargeback
    client
        .chargeback(TransactionID::new(1))
        .expect_err("chargeback should fail on locked account");

    // Verify account state remains unchanged
    assert_eq!(client.total(), dec(0, 1));
    assert_eq!(client.held(), dec(0, 1));
    assert_eq!(client.available(), dec(0, 1));
    assert_eq!(client.locked(), true);
}

#[test]
fn test_duplicate_transaction_id() {
    let mut client = Client::new();

    client
        .deposit(TransactionID::new(1), pos(100, 1))
        .expect("first deposit should succeed");
    assert_eq!(client.total(), dec(100, 1));
    assert_eq!(client.available(), dec(100, 1));

    let result = client.deposit(TransactionID::new(1), pos(200, 1));
    assert!(matches!(
        result,
        Err(ProcessingError::DuplicateTransactionID)
    ));
    assert_eq!(
        client.total(),
        dec(100, 1),
        "balance should remain unchanged"
    );
    assert_eq!(
        client.available(),
        dec(100, 1),
        "available funds should remain unchanged"
    );
}
