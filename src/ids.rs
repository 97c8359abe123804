//! Identifiers of clients and of transactions, kept as distinct types so
//! that one cannot stand where the other is expected.

use vstd::prelude::*;

verus! {

/// Identifies one client account.
#[derive(Clone, Copy, Debug, PartialEq, Eq, Hash, Structural)]
pub struct ClientID(pub u16);

/// Identifies one transaction within a run.
#[derive(Clone, Copy, Debug, PartialEq, Eq, Hash, Structural)]
pub struct TransactionID(pub u32);

impl ClientID {
    pub fn new(id: u16) -> (r: ClientID)
        ensures
            r.0 == id,
    {
        ClientID(id)
    }
}

impl TransactionID {
    pub fn new(id: u32) -> (r: TransactionID)
        ensures
            r.0 == id,
    {
        TransactionID(id)
    }
}

} // verus!
