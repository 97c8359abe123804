//! Routes each transaction to the account of its client, creating accounts
//! on first reference, and reports every account's balances.

use std::collections::HashMap;

use vstd::prelude::*;

use crate::amount::Amount;
use crate::client::{balances_fit, empty_view, follows, Client, ClientView, ProcessingError};
use crate::ids::ClientID;
use crate::transaction::{client_of, spec_apply, Transaction};

verus! {

broadcast use vstd::std_specs::hash::group_hash_axioms;

/// The state of the account of `c` in `accounts`; an account not created
/// yet is in the initial state.
pub open spec fn account_of(accounts: Map<u16, ClientView>, c: ClientID) -> ClientView {
    if accounts.contains_key(c.0) {
        accounts[c.0]
    } else {
        empty_view()
    }
}

/// A report row holds the balances of the account in state `v`.
pub open spec fn row_reports(e: ProcessorStatusEntry, v: ClientView) -> bool {
    &&& e.available.value() == v.total - v.held
    &&& e.held.value() == v.held
    &&& e.total.value() == v.total
    &&& e.locked == v.locked
}

/// The accounts of all clients seen so far.
pub struct Processor {
    clients: HashMap<u16, Client>,
    /// Every client with an account, in order of first reference.
    order: Vec<ClientID>,
}

/// The balances of one client, as reported at the end of a run.
#[derive(Clone, Copy, Debug, PartialEq, Eq)]
pub struct ProcessorStatusEntry {
    pub client: ClientID,
    pub available: Amount,
    pub held: Amount,
    pub total: Amount,
    pub locked: bool,
}

impl Processor {
    /// The state of each client's account, by client identifier.
    pub closed spec fn accounts(&self) -> Map<u16, ClientView> {
        self.clients@.map_values(|c: Client| c@)
    }

    pub closed spec fn wf(&self) -> bool {
        &&& forall|k: u16| #[trigger] self.clients@.contains_key(k) ==> self.clients@[k].wf()
        &&& forall|i: int|
            0 <= i < self.order@.len() ==> #[trigger] self.clients@.contains_key(
                self.order@[i].0,
            )
        &&& forall|k: u16|
            #[trigger] self.clients@.contains_key(k) ==> exists|i: int|
                0 <= i < self.order@.len() && #[trigger] self.order@[i].0 == k
        &&& forall|i: int, j: int|
            0 <= i < j < self.order@.len() ==> #[trigger] self.order@[i].0 != #[trigger] self.order@[j].0
    }

    /// Every account of a well-formed router reports balances that are all
    /// exactly representable.
    pub proof fn lemma_accounts_fit(&self)
        requires
            self.wf(),
        ensures
            forall|k: u16|
                #[trigger] self.accounts().contains_key(k) ==> balances_fit(
                    self.accounts()[k].total,
                    self.accounts()[k].held,
                ),
    {
        assert forall|k: u16| #[trigger] self.accounts().contains_key(k) implies balances_fit(
            self.accounts()[k].total,
            self.accounts()[k].held,
        ) by {
            self.clients@[k].lemma_wf_balances();
        }
    }

    /// A router with no accounts.
    pub fn new() -> (r: Processor)
        ensures
            r.wf(),
            r.accounts() == Map::<u16, ClientView>::empty(),
    {
        let r = Processor { clients: HashMap::new(), order: Vec::new() };
        proof {
            assert(r.accounts() =~= Map::<u16, ClientView>::empty());
        }
        r
    }

    /// Applies `transaction` to the account of its client, creating the
    /// account first if the client has none, and returns the operation's
    /// result unchanged.
    pub fn handle_transaction(&mut self, transaction: Transaction) -> (r: Result<
        (),
        ProcessingError,
    >)
        requires
            old(self).wf(),
        ensures
            final(self).wf(),
            ({
                let c = client_of(transaction);
                let before = account_of(old(self).accounts(), c);
                let after = final(self).accounts()[c.0];
                &&& final(self).accounts().dom() == old(self).accounts().dom().insert(c.0)
                &&& forall|k: u16|
                    k != c.0 && #[trigger] old(self).accounts().contains_key(k)
                        ==> final(self).accounts()[k] == old(self).accounts()[k]
                &&& follows(before, after, r, spec_apply(before, transaction))
            }),
    {
        let id = transaction.client();
        let mut client = match self.clients.remove(&id.0) {
            Some(c) => c,
            None => {
                self.order.push(id);
                Client::new()
            },
        };
        let r = match transaction {
            Transaction::Deposit(deposit) => client.deposit(deposit.tx, deposit.amount),
            Transaction::Withdrawal(withdrawal) => client.withdrawal(
                withdrawal.tx,
                withdrawal.amount,
            ),
            Transaction::Dispute(dispute) => client.dispute(dispute.tx),
            Transaction::Resolve(resolve) => client.resolve(resolve.tx),
            Transaction::Chargeback(chargeback) => client.chargeback(chargeback.tx),
        };
        self.clients.insert(id.0, client);
        proof {
            assert(self.accounts().dom() =~= old(self).accounts().dom().insert(id.0));
            assert forall|k: u16| #[trigger] self.clients@.contains_key(k) implies exists|i: int|
                0 <= i < self.order@.len() && #[trigger] self.order@[i].0 == k by {
                if k == id.0 {
                    if old(self).clients@.contains_key(k) {
                        let i = choose|i: int|
                            0 <= i < old(self).order@.len() && #[trigger] old(self).order@[i].0
                                == k;
                        assert(self.order@[i].0 == k);
                    } else {
                        assert(self.order@[self.order@.len() - 1].0 == k);
                    }
                } else {
                    let i = choose|i: int|
                        0 <= i < old(self).order@.len() && #[trigger] old(self).order@[i].0 == k;
                    assert(self.order@[i].0 == k);
                }
            }
        }
        r
    }

    /// One report row per client with an account, each with that client's
    /// balances, in order of first reference.
    pub fn status_entries(&self) -> (r: Vec<ProcessorStatusEntry>)
        requires
            self.wf(),
        ensures
            forall|i: int|
                0 <= i < r@.len() ==> self.accounts().contains_key(#[trigger] r@[i].client.0)
                    && row_reports(r@[i], self.accounts()[r@[i].client.0]),
            forall|k: u16|
                #[trigger] self.accounts().contains_key(k) ==> exists|i: int|
                    0 <= i < r@.len() && #[trigger] r@[i].client.0 == k,
            forall|i: int, j: int|
                0 <= i < j < r@.len() ==> #[trigger] r@[i].client != #[trigger] r@[j].client,
    {
        let mut rows: Vec<ProcessorStatusEntry> = Vec::new();
        let mut i: usize = 0;
        while i < self.order.len()
            invariant
                self.wf(),
                i <= self.order@.len(),
                rows@.len() == i,
                forall|j: int| 0 <= j < i ==> #[trigger] rows@[j].client == self.order@[j],
                forall|j: int|
                    0 <= j < i ==> row_reports(
                        #[trigger] rows@[j],
                        self.accounts()[self.order@[j].0],
                    ),
            decreases self.order@.len() - i,
        {
            let id = self.order[i];
            proof {
                assert(self.clients@.contains_key(self.order@[i as int].0));
            }
            let client = self.clients.get(&id.0).unwrap();
            rows.push(
                ProcessorStatusEntry {
                    client: id,
                    available: client.available(),
                    held: client.held(),
                    total: client.total(),
                    locked: client.locked(),
                },
            );
            i = i + 1;
        }
        proof {
            assert(i == self.order@.len());
            assert forall|k: u16| #[trigger] self.accounts().contains_key(k) implies exists|j: int|
                0 <= j < rows@.len() && #[trigger] rows@[j].client.0 == k by {
                assert(self.clients@.contains_key(k));
                let j = choose|j: int|
                    0 <= j < self.order@.len() && #[trigger] self.order@[j].0 == k;
                assert(rows@[j].client.0 == k);
            }
            assert forall|a: int, b: int| 0 <= a < b < rows@.len() implies #[trigger] rows@[a].client
                != #[trigger] rows@[b].client by {
                assert(self.order@[a].0 != self.order@[b].0);
            }
        }
        rows
    }
}

} // verus!
