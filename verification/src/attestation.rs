use vstd::prelude::*;

use crate::bytes::{bytes32_eq, copy_ids, AccountId, DelegationNodeId, H256};
use crate::ctype::CTypeRegistry;
use crate::delegation::{refusal_result, DelegationRegistry};
use crate::error::Error;
use crate::hierarchy::DelegationView;
use crate::permissions::{holds_flags, Permissions, ATTEST_BITS};
use crate::table::Table;

verus! {

/// The attestation of a claim: the claim type, the attester, the delegation
/// it rests on (if any), and whether it has been revoked.
#[derive(Clone, Copy, Debug, PartialEq, Eq)]
pub struct Attestation {
    pub ctype_hash: H256,
    pub attester: AccountId,
    pub delegation_id: Option<DelegationNodeId>,
    pub revoked: bool,
}

/// The storage of the attestation registry as maps: the attestation of each
/// claim hash, and for each delegation the claims attested on it, in order.
#[verifier::ext_equal]
pub struct AttestationView {
    pub attestations: Map<H256, Attestation>,
    pub delegated: Map<DelegationNodeId, Seq<H256>>,
}

impl AttestationView {
    /// The claims attested on the delegation `d`, in order.
    pub open spec fn delegated_of(self, d: DelegationNodeId) -> Seq<H256> {
        if self.delegated.contains_key(d) {
            self.delegated[d]
        } else {
            Seq::empty()
        }
    }

    /// The storage after the attestation of `claim_hash` by `attester` has
    /// been stored, and listed under its delegation if it has one.
    pub open spec fn after_add(
        self,
        attester: AccountId,
        claim_hash: H256,
        ctype_hash: H256,
        delegation_id: Option<DelegationNodeId>,
    ) -> AttestationView {
        AttestationView {
            attestations: self.attestations.insert(
                claim_hash,
                Attestation { ctype_hash, attester, delegation_id, revoked: false },
            ),
            delegated: match delegation_id {
                Some(d) => self.delegated.insert(d, self.delegated_of(d).push(claim_hash)),
                None => self.delegated,
            },
        }
    }

    /// The storage after the attestation of `claim_hash` has been revoked.
    pub open spec fn after_revoke(self, claim_hash: H256) -> AttestationView {
        AttestationView {
            attestations: self.attestations.insert(
                claim_hash,
                Attestation { revoked: true, ..self.attestations[claim_hash] },
            ),
            ..self
        }
    }
}

/// Why an attestation of `claim_hash` by `sender` is refused, checked in this
/// order; none when it is accepted.
pub open spec fn add_attestation_refusal(
    v: AttestationView,
    ctypes: Map<H256, AccountId>,
    delegations: DelegationView,
    sender: AccountId,
    claim_hash: H256,
    ctype_hash: H256,
    delegation_id: Option<DelegationNodeId>,
) -> Option<Error> {
    if !ctypes.contains_key(ctype_hash) {
        Some(Error::CTypeNotFound)
    } else {
        let delegation_refusal = match delegation_id {
            Some(d) => if !delegations.nodes.contains_key(d) {
                Some(Error::DelegationNotFound)
            } else if delegations.nodes[d].revoked {
                Some(Error::DelegationRevoked)
            } else if delegations.nodes[d].owner != sender {
                Some(Error::NotDelegatedToAttester)
            } else if !holds_flags(delegations.nodes[d].permissions@, ATTEST_BITS) {
                Some(Error::DelegationNotAuthorizedToAttest)
            } else if !delegations.roots.contains_key(delegations.nodes[d].root_id) {
                Some(Error::RootNotFound)
            } else if delegations.roots[delegations.nodes[d].root_id].ctype_hash != ctype_hash {
                Some(Error::CTypeOfDelegationNotMatching)
            } else {
                None
            },
            None => None,
        };
        if delegation_refusal is Some {
            delegation_refusal
        } else if v.attestations.contains_key(claim_hash) {
            Some(Error::AlreadyAttested)
        } else {
            None
        }
    }
}

/// Why a revocation of the attestation of `claim_hash` by `sender` is
/// refused, checked in this order; none when it is accepted.
pub open spec fn revoke_attestation_refusal(
    v: AttestationView,
    delegations: DelegationView,
    sender: AccountId,
    claim_hash: H256,
) -> Option<Error> {
    if !v.attestations.contains_key(claim_hash) {
        Some(Error::AttestationNotFound)
    } else {
        let a = v.attestations[claim_hash];
        let permission_refusal = if a.attester == sender {
            None
        } else {
            match a.delegation_id {
                Some(d) => if !delegations.nodes.contains_key(d) {
                    Some(Error::DelegationNotFound)
                } else if !delegations.is_delegating(sender, d) {
                    Some(Error::NotPermittedToRevokeAttestation)
                } else {
                    None
                },
                None => Some(Error::NotPermittedToRevokeAttestation),
            }
        };
        if permission_refusal is Some {
            permission_refusal
        } else if a.revoked {
            Some(Error::AlreadyRevoked)
        } else {
            None
        }
    }
}

/// The registry of attestations of claims.
pub struct AttestationRegistry {
    attestations: Table<Attestation>,
    delegated: Table<Vec<H256>>,
}

impl View for AttestationRegistry {
    type V = AttestationView;

    closed spec fn view(&self) -> AttestationView {
        AttestationView {
            attestations: self.attestations@,
            delegated: self.delegated@.map_values(|l: Vec<H256>| l@),
        }
    }
}

impl AttestationRegistry {
    /// Well-formedness of the storage.
    pub closed spec fn wf(&self) -> bool {
        self.attestations.wf() && self.delegated.wf()
    }

    /// A registry without attestations.
    pub fn new() -> (r: Self)
        ensures
            r.wf(),
            r@.attestations == Map::<H256, Attestation>::empty(),
            r@.delegated == Map::<DelegationNodeId, Seq<H256>>::empty(),
    {
        let r = AttestationRegistry { attestations: Table::new(), delegated: Table::new() };
        assert(r@.delegated =~= Map::<DelegationNodeId, Seq<H256>>::empty());
        r
    }

    /// The attestation of `claim_hash`.
    pub fn attestations(&self, claim_hash: &H256) -> (r: Option<Attestation>)
        requires
            self.wf(),
        ensures
            r == self@.attestations.get(*claim_hash),
    {
        match self.attestations.get(claim_hash) {
            Some(a) => Some(*a),
            None => None,
        }
    }

    /// The claims attested on the delegation `delegation_id`, in order.
    pub fn delegated_attestations(&self, delegation_id: &DelegationNodeId) -> (r: Vec<H256>)
        requires
            self.wf(),
        ensures
            r@ == self@.delegated_of(*delegation_id),
    {
        match self.delegated.get(delegation_id) {
            Some(list) => copy_ids(list),
            None => Vec::new(),
        }
    }

    /// Attests the claim `claim_hash` of claim type `ctype_hash` by `sender`,
    /// directly or on the strength of the delegation `delegation_id`, which
    /// must be `sender`'s, not revoked, grant attesting, and belong to a
    /// hierarchy for that claim type.
    pub fn add(
        &mut self,
        ctypes: &CTypeRegistry,
        delegations: &DelegationRegistry,
        sender: AccountId,
        claim_hash: H256,
        ctype_hash: H256,
        delegation_id: Option<DelegationNodeId>,
    ) -> (r: Result<(), Error>)
        requires
            old(self).wf(),
            ctypes.wf(),
            delegations.wf(),
        ensures
            final(self).wf(),
            r == refusal_result(
                add_attestation_refusal(
                    old(self)@,
                    ctypes@,
                    delegations@,
                    sender,
                    claim_hash,
                    ctype_hash,
                    delegation_id,
                ),
            ),
            r is Err ==> final(self)@ == old(self)@,
            r is Ok ==> final(self)@ == old(self)@.after_add(
                sender,
                claim_hash,
                ctype_hash,
                delegation_id,
            ),
    {
        if !ctypes.contains(&ctype_hash) {
            return Err(Error::CTypeNotFound);
        }
        match delegation_id {
            Some(d) => {
                let node = match delegations.delegation(&d) {
                    Some(node) => node,
                    None => {
                        return Err(Error::DelegationNotFound);
                    },
                };
                if node.revoked {
                    return Err(Error::DelegationRevoked);
                }
                if !bytes32_eq(&node.owner, &sender) {
                    return Err(Error::NotDelegatedToAttester);
                }
                if !node.permissions.contains(Permissions::attest()) {
                    return Err(Error::DelegationNotAuthorizedToAttest);
                }
                let root = match delegations.root(&node.root_id) {
                    Some(root) => root,
                    None => {
                        return Err(Error::RootNotFound);
                    },
                };
                if !bytes32_eq(&root.ctype_hash, &ctype_hash) {
                    return Err(Error::CTypeOfDelegationNotMatching);
                }
            },
            None => {},
        }
        if self.attestations.contains_key(&claim_hash) {
            return Err(Error::AlreadyAttested);
        }
        self.attestations.insert(
            claim_hash,
            Attestation { ctype_hash, attester: sender, delegation_id, revoked: false },
        );
        match delegation_id {
            Some(d) => {
                let ghost before = self@;
                let mut list = match self.delegated.remove(&d) {
                    Some(l) => l,
                    None => Vec::new(),
                };
                list.push(claim_hash);
                self.delegated.insert(d, list);
                assert(self@.delegated =~= before.delegated.insert(
                    d,
                    before.delegated_of(d).push(claim_hash),
                ));
            },
            None => {},
        }
        Ok(())
    }

    /// Revokes the attestation of `claim_hash`; `sender` must be the attester
    /// or, for an attestation that rests on a delegation, own that delegation,
    /// one above it, or its root.
    pub fn revoke(&mut self, delegations: &DelegationRegistry, sender: AccountId, claim_hash: H256) -> (r:
        Result<(), Error>)
        requires
            old(self).wf(),
            delegations.wf(),
        ensures
            final(self).wf(),
            r == refusal_result(
                revoke_attestation_refusal(old(self)@, delegations@, sender, claim_hash),
            ),
            r is Err ==> final(self)@ == old(self)@,
            r is Ok ==> final(self)@ == old(self)@.after_revoke(claim_hash),
    {
        let a = match self.attestations.get(&claim_hash) {
            Some(a) => *a,
            None => {
                return Err(Error::AttestationNotFound);
            },
        };
        if !bytes32_eq(&a.attester, &sender) {
            match a.delegation_id {
                Some(d) => {
                    match delegations.is_delegating(&sender, &d) {
                        Ok(true) => {},
                        Ok(false) => {
                            return Err(Error::NotPermittedToRevokeAttestation);
                        },
                        Err(e) => {
                            return Err(e);
                        },
                    }
                },
                None => {
                    return Err(Error::NotPermittedToRevokeAttestation);
                },
            }
        }
        if a.revoked {
            return Err(Error::AlreadyRevoked);
        }
        self.attestations.insert(
            claim_hash,
            Attestation {
                ctype_hash: a.ctype_hash,
                attester: a.attester,
                delegation_id: a.delegation_id,
                revoked: true,
            },
        );
        Ok(())
    }
}

} // verus!
