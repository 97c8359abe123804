//! What holds of every sequence of operations on one account.

use vstd::prelude::*;

use crate::client::{
    follows, spec_chargeback, spec_deposit, spec_dispute, spec_resolve, ClientView,
    ProcessingError,
};
use crate::transaction::{spec_apply, Transaction};

verus! {

/// The state of an account in state `v` after the transactions `ts`, in
/// order; a transaction that fails leaves the state as it was.
pub open spec fn run(v: ClientView, ts: Seq<Transaction>) -> ClientView
    decreases ts.len(),
{
    if ts.len() == 0 {
        v
    } else {
        let next = match spec_apply(v, ts[0]) {
            Ok(n) => n,
            Err(_) => v,
        };
        run(next, ts.drop_first())
    }
}

/// Whether `t` is a deposit under the identifier `tx`.
pub open spec fn deposits_under(t: Transaction, tx: u32) -> bool {
    match t {
        Transaction::Deposit(d) => d.tx.0 == tx,
        _ => false,
    }
}

/// An operation that fails leaves the account's state (balances, lock and
/// ledger of deposits) exactly as it was.
pub proof fn lemma_failure_keeps_state(
    before: ClientView,
    after: ClientView,
    r: Result<(), ProcessingError>,
    t: Transaction,
)
    requires
        follows(before, after, r, spec_apply(before, t)),
        r is Err,
    ensures
        after == before,
{
}

/// On a locked account every operation fails with `AccountLocked`.
pub proof fn lemma_locked_refuses(v: ClientView, t: Transaction)
    requires
        v.locked,
    ensures
        spec_apply(v, t) == Err::<ClientView, ProcessingError>(ProcessingError::AccountLocked),
{
}

/// Once locked, an account keeps its state for the rest of the run.
pub proof fn lemma_locked_run(v: ClientView, ts: Seq<Transaction>)
    requires
        v.locked,
    ensures
        run(v, ts) == v,
    decreases ts.len(),
{
    if ts.len() > 0 {
        lemma_locked_run(v, ts.drop_first());
    }
}

proof fn lemma_apply_keeps_deposit(v: ClientView, t: Transaction, tx: u32)
    requires
        v.deposits.contains_key(tx),
    ensures
        spec_apply(v, t) matches Ok(n) ==> n.deposits.contains_key(tx),
{
}

proof fn lemma_run_keeps_deposit(v: ClientView, ts: Seq<Transaction>, tx: u32)
    requires
        v.deposits.contains_key(tx),
    ensures
        run(v, ts).deposits.contains_key(tx),
    decreases ts.len(),
{
    if ts.len() > 0 {
        lemma_apply_keeps_deposit(v, ts[0], tx);
        let next = match spec_apply(v, ts[0]) {
            Ok(n) => n,
            Err(_) => v,
        };
        lemma_run_keeps_deposit(next, ts.drop_first(), tx);
    }
}

/// An identifier once used by a successful deposit is never accepted for
/// another deposit: whatever happens in between, a later deposit under it
/// fails with `DuplicateTransactionID` (or `AccountLocked`, which comes
/// first).
pub proof fn lemma_deposit_id_never_reused(
    v: ClientView,
    tx: u32,
    amount: int,
    ts: Seq<Transaction>,
    other: int,
)
    requires
        spec_deposit(v, tx, amount) is Ok,
    ensures
        ({
            let w = run(spec_deposit(v, tx, amount)->Ok_0, ts);
            spec_deposit(w, tx, other) == Err::<ClientView, ProcessingError>(
                if w.locked {
                    ProcessingError::AccountLocked
                } else {
                    ProcessingError::DuplicateTransactionID
                },
            )
        }),
{
    lemma_run_keeps_deposit(spec_deposit(v, tx, amount)->Ok_0, ts, tx);
}

proof fn lemma_run_without_deposit(v: ClientView, ts: Seq<Transaction>, tx: u32)
    requires
        !v.deposits.contains_key(tx),
        forall|i: int| 0 <= i < ts.len() ==> !deposits_under(#[trigger] ts[i], tx),
    ensures
        !run(v, ts).deposits.contains_key(tx),
    decreases ts.len(),
{
    if ts.len() > 0 {
        assert(!deposits_under(ts[0], tx));
        let next = match spec_apply(v, ts[0]) {
            Ok(n) => n,
            Err(_) => v,
        };
        assert(!next.deposits.contains_key(tx));
        assert forall|i: int| 0 <= i < ts.drop_first().len() implies !deposits_under(
            #[trigger] ts.drop_first()[i],
            tx,
        ) by {
            assert(ts.drop_first()[i] == ts[i + 1]);
        }
        lemma_run_without_deposit(next, ts.drop_first(), tx);
    }
}

/// Dispute, resolve and chargeback on an identifier that no deposit has
/// used fail with `DepositNotFound` (or `AccountLocked`, which comes first).
pub proof fn lemma_unknown_deposit_not_found(v: ClientView, ts: Seq<Transaction>, tx: u32)
    requires
        !v.deposits.contains_key(tx),
        forall|i: int| 0 <= i < ts.len() ==> !deposits_under(#[trigger] ts[i], tx),
    ensures
        ({
            let w = run(v, ts);
            let e = Err::<ClientView, ProcessingError>(
                if w.locked {
                    ProcessingError::AccountLocked
                } else {
                    ProcessingError::DepositNotFound
                },
            );
            &&& spec_dispute(w, tx) == e
            &&& spec_resolve(w, tx) == e
            &&& spec_chargeback(w, tx) == e
        }),
{
    lemma_run_without_deposit(v, ts, tx);
}

/// A second dispute of a deposit still under dispute fails with
/// `AlreadyDisputed`.
pub proof fn lemma_second_dispute_refused(v: ClientView, tx: u32)
    requires
        spec_dispute(v, tx) is Ok,
    ensures
        spec_dispute(spec_dispute(v, tx)->Ok_0, tx) == Err::<ClientView, ProcessingError>(
            ProcessingError::AlreadyDisputed,
        ),
{
}

/// Resolve and chargeback of a deposit that is not under dispute fail with
/// `NotDisputed`.
pub proof fn lemma_undisputed_refused(v: ClientView, tx: u32)
    requires
        !v.locked,
        v.deposits.contains_key(tx),
        !v.deposits[tx].1,
    ensures
        spec_resolve(v, tx) == Err::<ClientView, ProcessingError>(ProcessingError::NotDisputed),
        spec_chargeback(v, tx) == Err::<ClientView, ProcessingError>(
            ProcessingError::NotDisputed,
        ),
{
}

} // verus!
