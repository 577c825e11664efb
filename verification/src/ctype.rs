use vstd::prelude::*;

use crate::bytes::{AccountId, H256};
use crate::error::Error;
use crate::table::Table;

verus! {

/// The registry of claim types: each registered claim-type hash with the
/// account that registered it.
pub struct CTypeRegistry {
    ctypes: Table<AccountId>,
}

impl View for CTypeRegistry {
    type V = Map<H256, AccountId>;

    closed spec fn view(&self) -> Map<H256, AccountId> {
        self.ctypes@
    }
}

impl CTypeRegistry {
    /// Well-formedness of the storage.
    pub closed spec fn wf(&self) -> bool {
        self.ctypes.wf()
    }

    /// A registry without claim types.
    pub fn new() -> (r: Self)
        ensures
            r.wf(),
            r@ == Map::<H256, AccountId>::empty(),
    {
        CTypeRegistry { ctypes: Table::new() }
    }

    /// Registers the claim type `hash` for `sender`; refused when it is
    /// registered already.
    pub fn add(&mut self, sender: AccountId, hash: H256) -> (r: Result<(), Error>)
        requires
            old(self).wf(),
        ensures
            final(self).wf(),
            old(self)@.contains_key(hash) ==> r == Err::<(), Error>(Error::CTypeAlreadyExists)
                && final(self)@ == old(self)@,
            !old(self)@.contains_key(hash) ==> r is Ok && final(self)@ == old(self)@.insert(
                hash,
                sender,
            ),
    {
        if self.ctypes.contains_key(&hash) {
            return Err(Error::CTypeAlreadyExists);
        }
        self.ctypes.insert(hash, sender);
        Ok(())
    }

    /// Whether the claim type `hash` is registered.
    pub fn contains(&self, hash: &H256) -> (r: bool)
        requires
            self.wf(),
        ensures
            r == self@.contains_key(*hash),
    {
        self.ctypes.contains_key(hash)
    }

    /// The account that registered the claim type `hash`.
    pub fn ctypes(&self, hash: &H256) -> (r: Option<AccountId>)
        requires
            self.wf(),
        ensures
            r == self@.get(*hash),
    {
        match self.ctypes.get(hash) {
            Some(a) => Some(*a),
            None => None,
        }
    }
}

} // verus!
