use vstd::prelude::*;

use crate::bytes::{AccountId, H256};
use crate::error::Error;
use crate::table::Table;

verus! {

/// A decentralised identifier: the public signing key, the public key for
/// encryption boxes, and an optional reference to a service endpoint.
#[derive(Debug, PartialEq, Eq)]
pub struct DidRecord {
    pub signing_key: H256,
    pub box_key: H256,
    pub service_endpoint: Option<Vec<u8>>,
}

/// The registry of decentralised identifiers, one per account.
pub struct DidRegistry {
    dids: Table<DidRecord>,
}

impl View for DidRegistry {
    type V = Map<AccountId, DidRecord>;

    closed spec fn view(&self) -> Map<AccountId, DidRecord> {
        self.dids@
    }
}

impl DidRegistry {
    /// Well-formedness of the storage.
    pub closed spec fn wf(&self) -> bool {
        self.dids.wf()
    }

    /// A registry without identifiers.
    pub fn new() -> (r: Self)
        ensures
            r.wf(),
            r@ == Map::<AccountId, DidRecord>::empty(),
    {
        DidRegistry { dids: Table::new() }
    }

    /// Stores the identifier of `sender`, replacing the one it had. Always
    /// accepted.
    pub fn add(
        &mut self,
        sender: AccountId,
        signing_key: H256,
        box_key: H256,
        service_endpoint: Option<Vec<u8>>,
    ) -> (r: Result<(), Error>)
        requires
            old(self).wf(),
        ensures
            final(self).wf(),
            r is Ok,
            final(self)@ == old(self)@.insert(
                sender,
                DidRecord { signing_key, box_key, service_endpoint },
            ),
    {
        self.dids.insert(sender, DidRecord { signing_key, box_key, service_endpoint });
        Ok(())
    }

    /// Removes the identifier of `sender`, if it has one. Always accepted.
    pub fn remove(&mut self, sender: AccountId) -> (r: Result<(), Error>)
        requires
            old(self).wf(),
        ensures
            final(self).wf(),
            r is Ok,
            final(self)@ == old(self)@.remove(sender),
    {
        let _ = self.dids.remove(&sender);
        Ok(())
    }

    /// The identifier of `account`.
    pub fn dids(&self, account: &AccountId) -> (r: Option<&DidRecord>)
        requires
            self.wf(),
        ensures
            r is Some <==> self@.contains_key(*account),
            r matches Some(d) ==> *d == self@[*account],
    {
        self.dids.get(account)
    }

    /// Whether `account` has an identifier.
    pub fn contains_did(&self, account: &AccountId) -> (r: bool)
        requires
            self.wf(),
        ensures
            r == self@.contains_key(*account),
    {
        self.dids.contains_key(account)
    }
}

} // verus!
