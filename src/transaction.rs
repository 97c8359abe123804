//! Validated transactions, one of five kinds.

use vstd::prelude::*;

use crate::client::{
    spec_chargeback, spec_deposit, spec_dispute, spec_resolve, spec_withdrawal, ClientView,
    ProcessingError,
};
use crate::ids::{ClientID, TransactionID};
use crate::positive_decimal::PositiveDecimal;

verus! {

/// A transaction whose fields are all present and valid.
#[derive(Clone, Copy, Debug, PartialEq, Eq)]
pub enum Transaction {
    Deposit(Deposit),
    Withdrawal(Withdrawal),
    Dispute(Dispute),
    Resolve(Resolve),
    Chargeback(Chargeback),
}

#[derive(Clone, Copy, Debug, PartialEq, Eq)]
pub struct Deposit {
    pub client: ClientID,
    pub tx: TransactionID,
    pub amount: PositiveDecimal,
}

#[derive(Clone, Copy, Debug, PartialEq, Eq)]
pub struct Withdrawal {
    pub client: ClientID,
    pub tx: TransactionID,
    pub amount: PositiveDecimal,
}

#[derive(Clone, Copy, Debug, PartialEq, Eq, Structural)]
pub struct Dispute {
    pub client: ClientID,
    pub tx: TransactionID,
}

#[derive(Clone, Copy, Debug, PartialEq, Eq, Structural)]
pub struct Resolve {
    pub client: ClientID,
    pub tx: TransactionID,
}

#[derive(Clone, Copy, Debug, PartialEq, Eq, Structural)]
pub struct Chargeback {
    pub client: ClientID,
    pub tx: TransactionID,
}

/// The client that a transaction refers to.
pub open spec fn client_of(t: Transaction) -> ClientID {
    match t {
        Transaction::Deposit(d) => d.client,
        Transaction::Withdrawal(w) => w.client,
        Transaction::Dispute(d) => d.client,
        Transaction::Resolve(r) => r.client,
        Transaction::Chargeback(c) => c.client,
    }
}

/// What applying `t` to an account in state `v` yields.
pub open spec fn spec_apply(v: ClientView, t: Transaction) -> Result<ClientView, ProcessingError> {
    match t {
        Transaction::Deposit(d) => spec_deposit(v, d.tx.0, d.amount.value()),
        Transaction::Withdrawal(w) => spec_withdrawal(v, w.amount.value()),
        Transaction::Dispute(d) => spec_dispute(v, d.tx.0),
        Transaction::Resolve(r) => spec_resolve(v, r.tx.0),
        Transaction::Chargeback(c) => spec_chargeback(v, c.tx.0),
    }
}

impl Transaction {
    /// The client that this transaction refers to.
    pub fn client(&self) -> (r: ClientID)
        ensures
            r == client_of(*self),
    {
        match self {
            Transaction::Deposit(deposit) => deposit.client,
            Transaction::Withdrawal(withdrawal) => withdrawal.client,
            Transaction::Dispute(dispute) => dispute.client,
            Transaction::Resolve(resolve) => resolve.client,
            Transaction::Chargeback(chargeback) => chargeback.client,
        }
    }
}

} // verus!
