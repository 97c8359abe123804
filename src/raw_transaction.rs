//! Flat transaction records, as a tabular source delivers them, and their
//! conversion into validated transactions.

use vstd::prelude::*;

use crate::ids::{ClientID, TransactionID};
use crate::positive_decimal::PositiveDecimal;
use crate::transaction::{Chargeback, Deposit, Dispute, Resolve, Transaction, Withdrawal};

verus! {

/// One record: a kind, a client, a transaction and an optional amount.
#[derive(Clone, Copy, Debug, PartialEq, Eq)]
pub struct RawTransaction {
    pub transaction_type: RawTransactionType,
    pub client: ClientID,
    pub tx: TransactionID,
    pub amount: Option<PositiveDecimal>,
}

/// The kind of a record.
#[derive(Clone, Copy, Debug, PartialEq, Eq, Structural)]
pub enum RawTransactionType {
    Deposit,
    Withdrawal,
    Dispute,
    Resolve,
    Chargeback,
}

/// Why a record is not a valid transaction.
#[derive(Clone, Copy, Debug, PartialEq, Eq, Structural)]
pub enum RawTransactionConvertError {
    /// A deposit or withdrawal without an amount.
    MissingAmount { transaction_type: RawTransactionType },
}

/// The transaction that a record stands for, when it is complete.
pub open spec fn spec_from_raw(raw: RawTransaction) -> Result<
    Transaction,
    RawTransactionConvertError,
> {
    match raw.transaction_type {
        RawTransactionType::Deposit => match raw.amount {
            Some(amount) => Ok(
                Transaction::Deposit(Deposit { client: raw.client, tx: raw.tx, amount }),
            ),
            None => Err(
                RawTransactionConvertError::MissingAmount { transaction_type: raw.transaction_type },
            ),
        },
        RawTransactionType::Withdrawal => match raw.amount {
            Some(amount) => Ok(
                Transaction::Withdrawal(Withdrawal { client: raw.client, tx: raw.tx, amount }),
            ),
            None => Err(
                RawTransactionConvertError::MissingAmount { transaction_type: raw.transaction_type },
            ),
        },
        RawTransactionType::Dispute => Ok(
            Transaction::Dispute(Dispute { client: raw.client, tx: raw.tx }),
        ),
        RawTransactionType::Resolve => Ok(
            Transaction::Resolve(Resolve { client: raw.client, tx: raw.tx }),
        ),
        RawTransactionType::Chargeback => Ok(
            Transaction::Chargeback(Chargeback { client: raw.client, tx: raw.tx }),
        ),
    }
}

fn get_transaction_amount(raw_transaction: &RawTransaction) -> (r: Result<
    PositiveDecimal,
    RawTransactionConvertError,
>)
    ensures
        match raw_transaction.amount {
            Some(a) => r == Ok::<PositiveDecimal, RawTransactionConvertError>(a),
            None => r == Err::<PositiveDecimal, RawTransactionConvertError>(
                RawTransactionConvertError::MissingAmount {
                    transaction_type: raw_transaction.transaction_type,
                },
            ),
        },
{
    match raw_transaction.amount {
        Some(amount) => Ok(amount),
        None => Err(
            RawTransactionConvertError::MissingAmount {
                transaction_type: raw_transaction.transaction_type,
            },
        ),
    }
}

impl Transaction {
    /// Converts a record into a transaction; deposits and withdrawals must
    /// carry an amount, the other kinds ignore it.
    pub fn from_raw(value: RawTransaction) -> (r: Result<Transaction, RawTransactionConvertError>)
        ensures
            r == spec_from_raw(value),
    {
        match value.transaction_type {
            RawTransactionType::Deposit => {
                let amount = match get_transaction_amount(&value) {
                    Ok(a) => a,
                    Err(e) => return Err(e),
                };
                Ok(Transaction::Deposit(Deposit { amount, client: value.client, tx: value.tx }))
            },
            RawTransactionType::Withdrawal => {
                let amount = match get_transaction_amount(&value) {
                    Ok(a) => a,
                    Err(e) => return Err(e),
                };
                Ok(
                    Transaction::Withdrawal(
                        Withdrawal { amount, client: value.client, tx: value.tx },
                    ),
                )
            },
            RawTransactionType::Dispute => Ok(
                Transaction::Dispute(Dispute { client: value.client, tx: value.tx }),
            ),
            RawTransactionType::Resolve => Ok(
                Transaction::Resolve(Resolve { client: value.client, tx: value.tx }),
            ),
            RawTransactionType::Chargeback => Ok(
                Transaction::Chargeback(Chargeback { client: value.client, tx: value.tx }),
            ),
        }
    }
}

} // verus!
