//! One client's account: balances, the ledger of disputable deposits, and
//! the five operations that are the only way to change them.
//!
//! Every operation either succeeds and commits its whole effect, or fails
//! and leaves the account exactly as it was.

use std::collections::HashMap;

use vstd::prelude::*;

use crate::amount::{fits, Amount};
use crate::ids::TransactionID;
use crate::positive_decimal::PositiveDecimal;

verus! {

broadcast use vstd::std_specs::hash::group_hash_axioms;

/// Why an operation on an account was refused.
#[derive(Clone, Copy, Debug, PartialEq, Eq, Structural)]
pub enum ProcessingError {
    /// The account is locked: no operation is allowed.
    AccountLocked,
    /// A deposit reuses the identifier of an earlier deposit.
    DuplicateTransactionID,
    /// A withdrawal asks for more than the total balance.
    InsufficientFunds,
    /// The referenced deposit does not exist.
    DepositNotFound,
    /// The deposit is already under dispute.
    AlreadyDisputed,
    /// The deposit is not under dispute.
    NotDisputed,
    /// A resulting balance has no exact decimal representation.
    AmountOverflow,
}

/// A recorded deposit.
#[derive(Clone, Copy, Debug)]
struct LedgerEntry {
    amount: PositiveDecimal,
    disputed: bool,
}

/// The state of an account, with amounts counted in units of 10^-28.
pub struct ClientView {
    pub total: int,
    pub held: int,
    pub locked: bool,
    /// Each recorded deposit: its amount and whether it is disputed.
    pub deposits: Map<u32, (int, bool)>,
}

/// The state of a newly created account.
pub open spec fn empty_view() -> ClientView {
    ClientView { total: 0, held: 0, locked: false, deposits: Map::empty() }
}

/// The balances that an account reports are all exactly representable.
pub open spec fn balances_fit(total: int, held: int) -> bool {
    fits(total) && fits(held) && fits(total - held)
}

pub open spec fn spec_deposit(v: ClientView, tx: u32, amount: int) -> Result<
    ClientView,
    ProcessingError,
> {
    if v.locked {
        Err(ProcessingError::AccountLocked)
    } else if v.deposits.contains_key(tx) {
        Err(ProcessingError::DuplicateTransactionID)
    } else if !balances_fit(v.total + amount, v.held) {
        Err(ProcessingError::AmountOverflow)
    } else {
        Ok(
            ClientView {
                total: v.total + amount,
                deposits: v.deposits.insert(tx, (amount, false)),
                ..v
            },
        )
    }
}

pub open spec fn spec_withdrawal(v: ClientView, amount: int) -> Result<
    ClientView,
    ProcessingError,
> {
    if v.locked {
        Err(ProcessingError::AccountLocked)
    } else if amount > v.total {
        Err(ProcessingError::InsufficientFunds)
    } else if !balances_fit(v.total - amount, v.held) {
        Err(ProcessingError::AmountOverflow)
    } else {
        Ok(ClientView { total: v.total - amount, ..v })
    }
}

pub open spec fn spec_dispute(v: ClientView, tx: u32) -> Result<ClientView, ProcessingError> {
    if v.locked {
        Err(ProcessingError::AccountLocked)
    } else if !v.deposits.contains_key(tx) {
        Err(ProcessingError::DepositNotFound)
    } else if v.deposits[tx].1 {
        Err(ProcessingError::AlreadyDisputed)
    } else if !balances_fit(v.total, v.held + v.deposits[tx].0) {
        Err(ProcessingError::AmountOverflow)
    } else {
        Ok(
            ClientView {
                held: v.held + v.deposits[tx].0,
                deposits: v.deposits.insert(tx, (v.deposits[tx].0, true)),
                ..v
            },
        )
    }
}

pub open spec fn spec_resolve(v: ClientView, tx: u32) -> Result<ClientView, ProcessingError> {
    if v.locked {
        Err(ProcessingError::AccountLocked)
    } else if !v.deposits.contains_key(tx) {
        Err(ProcessingError::DepositNotFound)
    } else if !v.deposits[tx].1 {
        Err(ProcessingError::NotDisputed)
    } else if !balances_fit(v.total, v.held - v.deposits[tx].0) {
        Err(ProcessingError::AmountOverflow)
    } else {
        Ok(
            ClientView {
                held: v.held - v.deposits[tx].0,
                deposits: v.deposits.insert(tx, (v.deposits[tx].0, false)),
                ..v
            },
        )
    }
}

pub open spec fn spec_chargeback(v: ClientView, tx: u32) -> Result<ClientView, ProcessingError> {
    if v.locked {
        Err(ProcessingError::AccountLocked)
    } else if !v.deposits.contains_key(tx) {
        Err(ProcessingError::DepositNotFound)
    } else if !v.deposits[tx].1 {
        Err(ProcessingError::NotDisputed)
    } else if !balances_fit(v.total - v.deposits[tx].0, v.held - v.deposits[tx].0) {
        Err(ProcessingError::AmountOverflow)
    } else {
        Ok(
            ClientView {
                total: v.total - v.deposits[tx].0,
                held: v.held - v.deposits[tx].0,
                locked: true,
                deposits: v.deposits.insert(tx, (v.deposits[tx].0, false)),
            },
        )
    }
}

/// An operation went as `outcome` prescribes: on success the account took
/// the new state; on failure it returned that error and kept its state.
pub open spec fn follows(
    before: ClientView,
    after: ClientView,
    r: Result<(), ProcessingError>,
    outcome: Result<ClientView, ProcessingError>,
) -> bool {
    match outcome {
        Ok(next) => r is Ok && after == next,
        Err(e) => r == Err::<(), ProcessingError>(e) && after == before,
    }
}

/// A client account that tracks balances and processes transactions.
#[derive(Debug)]
pub struct Client {
    total: Amount,
    held: Amount,
    locked: bool,
    deposits: HashMap<u32, LedgerEntry>,
}

impl View for Client {
    type V = ClientView;

    closed spec fn view(&self) -> ClientView {
        ClientView {
            total: self.total.value(),
            held: self.held.value(),
            locked: self.locked,
            deposits: self.deposits@.map_values(|e: LedgerEntry| (e.amount.value(), e.disputed)),
        }
    }
}

impl Client {
    /// The account's balances are consistent and all exactly representable.
    pub closed spec fn wf(&self) -> bool {
        balances_fit(self.total.value(), self.held.value())
    }

    /// A well-formed account reports balances that are all exactly
    /// representable.
    pub proof fn lemma_wf_balances(&self)
        requires
            self.wf(),
        ensures
            balances_fit(self@.total, self@.held),
    {
    }

    /// Creates a new client account with zero balances and no deposits.
    pub fn new() -> (r: Client)
        ensures
            r.wf(),
            r@ == empty_view(),
    {
        let r = Client {
            total: Amount::zero(),
            held: Amount::zero(),
            locked: false,
            deposits: HashMap::new(),
        };
        proof {
            assert(r@.deposits =~= Map::empty());
        }
        r
    }

    /// Funds that may be withdrawn: the total minus what is held.
    pub fn available(&self) -> (r: Amount)
        requires
            self.wf(),
        ensures
            r.value() == self@.total - self@.held,
    {
        match self.total.checked_sub(self.held) {
            Some(a) => a,
            None => {
                proof {
                    assert(false);
                }
                Amount::zero()
            },
        }
    }

    /// Funds under dispute.
    pub fn held(&self) -> (r: Amount)
        ensures
            r.value() == self@.held,
    {
        self.held
    }

    /// All funds of the account.
    pub fn total(&self) -> (r: Amount)
        ensures
            r.value() == self@.total,
    {
        self.total
    }

    /// Whether a chargeback has locked the account.
    pub fn locked(&self) -> (r: bool)
        ensures
            r == self@.locked,
    {
        self.locked
    }

    fn ensure_not_locked(&self) -> (r: Result<(), ProcessingError>)
        ensures
            r is Err <==> self@.locked,
            r is Err ==> r == Err::<(), ProcessingError>(ProcessingError::AccountLocked),
    {
        if self.locked {
            Err(ProcessingError::AccountLocked)
        } else {
            Ok(())
        }
    }
    /// Adds a deposit of `amount` under the identifier `tx`.
    ///
    /// Fails with `AccountLocked` on a locked account, with
    /// `DuplicateTransactionID` when `tx` already names a deposit, and with
    /// `AmountOverflow` when a new balance is not representable.
    pub fn deposit(&mut self, tx: TransactionID, amount: PositiveDecimal) -> (r: Result<
        (),
        ProcessingError,
    >)
        requires
            old(self).wf(),
        ensures
            final(self).wf(),
            follows(old(self)@, final(self)@, r, spec_deposit(old(self)@, tx.0, amount.value())),
    {
        if let Err(e) = self.ensure_not_locked() {
            return Err(e);
        }
        if self.deposits.contains_key(&tx.0) {
            return Err(ProcessingError::DuplicateTransactionID);
        }
        let total = match self.total.checked_add(amount.amount()) {
            Some(t) => t,
            None => return Err(ProcessingError::AmountOverflow),
        };
        if let None = total.checked_sub(self.held) {
            return Err(ProcessingError::AmountOverflow);
        }
        self.deposits.insert(tx.0, LedgerEntry { amount, disputed: false });
        self.total = total;
        proof {
            assert(self@.deposits =~= old(self)@.deposits.insert(tx.0, (amount.value(), false)));
        }
        Ok(())
    }

    /// Takes `amount` out of the account. The amount is compared with the
    /// total balance, so funds under dispute may be withdrawn too.
    ///
    /// Fails with `AccountLocked` on a locked account, with
    /// `InsufficientFunds` when `amount` exceeds the total, and with
    /// `AmountOverflow` when a new balance is not representable.
    pub fn withdrawal(&mut self, tx: TransactionID, amount: PositiveDecimal) -> (r: Result<
        (),
        ProcessingError,
    >)
        requires
            old(self).wf(),
        ensures
            final(self).wf(),
            follows(old(self)@, final(self)@, r, spec_withdrawal(old(self)@, amount.value())),
    {
        if let Err(e) = self.ensure_not_locked() {
            return Err(e);
        }
        let value = amount.amount();
        if value.is_greater(&self.total) {
            return Err(ProcessingError::InsufficientFunds);
        }
        let total = match self.total.checked_sub(value) {
            Some(t) => t,
            None => return Err(ProcessingError::AmountOverflow),
        };
        if let None = total.checked_sub(self.held) {
            return Err(ProcessingError::AmountOverflow);
        }
        self.total = total;
        proof {
            assert(self@.deposits =~= old(self)@.deposits);
        }
        Ok(())
    }

    /// Puts the deposit `tx` under dispute: its amount becomes held.
    ///
    /// Fails with `AccountLocked` on a locked account, with
    /// `DepositNotFound` when `tx` names no deposit, with `AlreadyDisputed`
    /// when it is under dispute, and with `AmountOverflow` when a new
    /// balance is not representable.
    pub fn dispute(&mut self, tx: TransactionID) -> (r: Result<(), ProcessingError>)
        requires
            old(self).wf(),
        ensures
            final(self).wf(),
            follows(old(self)@, final(self)@, r, spec_dispute(old(self)@, tx.0)),
    {
        if let Err(e) = self.ensure_not_locked() {
            return Err(e);
        }
        let entry = match self.deposits.get(&tx.0) {
            Some(e) => *e,
            None => return Err(ProcessingError::DepositNotFound),
        };
        if entry.disputed {
            return Err(ProcessingError::AlreadyDisputed);
        }
        let held = match self.held.checked_add(entry.amount.amount()) {
            Some(h) => h,
            None => return Err(ProcessingError::AmountOverflow),
        };
        if let None = self.total.checked_sub(held) {
            return Err(ProcessingError::AmountOverflow);
        }
        self.deposits.insert(tx.0, LedgerEntry { amount: entry.amount, disputed: true });
        self.held = held;
        proof {
            assert(self@.deposits =~= old(self)@.deposits.insert(
                tx.0,
                (entry.amount.value(), true),
            ));
        }
        Ok(())
    }

    /// Withdraws the dispute on the deposit `tx`: its amount is released
    /// from the held balance back to the available one.
    ///
    /// Fails with `AccountLocked` on a locked account, with
    /// `DepositNotFound` when `tx` names no deposit, with `NotDisputed` when
    /// it is not under dispute, and with `AmountOverflow` when a new balance
    /// is not representable.
    pub fn resolve(&mut self, tx: TransactionID) -> (r: Result<(), ProcessingError>)
        requires
            old(self).wf(),
        ensures
            final(self).wf(),
            follows(old(self)@, final(self)@, r, spec_resolve(old(self)@, tx.0)),
    {
        if let Err(e) = self.ensure_not_locked() {
            return Err(e);
        }
        let entry = match self.deposits.get(&tx.0) {
            Some(e) => *e,
            None => return Err(ProcessingError::DepositNotFound),
        };
        if !entry.disputed {
            return Err(ProcessingError::NotDisputed);
        }
        let held = match self.held.checked_sub(entry.amount.amount()) {
            Some(h) => h,
            None => return Err(ProcessingError::AmountOverflow),
        };
        if let None = self.total.checked_sub(held) {
            return Err(ProcessingError::AmountOverflow);
        }
        self.deposits.insert(tx.0, LedgerEntry { amount: entry.amount, disputed: false });
        self.held = held;
        proof {
            assert(self@.deposits =~= old(self)@.deposits.insert(
                tx.0,
                (entry.amount.value(), false),
            ));
        }
        Ok(())
    }

    /// Reverses the disputed deposit `tx`: its amount leaves both the held
    /// and the total balance, and the account is locked for good.
    ///
    /// Fails with `AccountLocked` on a locked account, with
    /// `DepositNotFound` when `tx` names no deposit, with `NotDisputed` when
    /// it is not under dispute, and with `AmountOverflow` when a new balance
    /// is not representable.
    pub fn chargeback(&mut self, tx: TransactionID) -> (r: Result<(), ProcessingError>)
        requires
            old(self).wf(),
        ensures
            final(self).wf(),
            follows(old(self)@, final(self)@, r, spec_chargeback(old(self)@, tx.0)),
    {
        if let Err(e) = self.ensure_not_locked() {
            return Err(e);
        }
        let entry = match self.deposits.get(&tx.0) {
            Some(e) => *e,
            None => return Err(ProcessingError::DepositNotFound),
        };
        if !entry.disputed {
            return Err(ProcessingError::NotDisputed);
        }
        let value = entry.amount.amount();
        let held = match self.held.checked_sub(value) {
            Some(h) => h,
            None => return Err(ProcessingError::AmountOverflow),
        };
        let total = match self.total.checked_sub(value) {
            Some(t) => t,
            None => return Err(ProcessingError::AmountOverflow),
        };
        if let None = total.checked_sub(held) {
            return Err(ProcessingError::AmountOverflow);
        }
        self.deposits.insert(tx.0, LedgerEntry { amount: entry.amount, disputed: false });
        self.held = held;
        self.total = total;
        self.locked = true;
        proof {
            assert(self@.deposits =~= old(self)@.deposits.insert(
                tx.0,
                (entry.amount.value(), false),
            ));
        }
        Ok(())
    }
}

} // verus!
