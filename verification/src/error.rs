use vstd::prelude::*;

verus! {

/// The reasons for which a registry refuses a request. A refusal is told
/// by its variant alone; no numeric code is attached to it.
#[derive(Clone, Copy, Debug, PartialEq, Eq, Structural)]
pub enum Error {
    /// The claim type is not registered.
    CTypeNotFound,
    /// The claim type is registered already.
    CTypeAlreadyExists,
    /// The claim has an attestation already.
    AlreadyAttested,
    /// The attestation has been revoked already.
    AlreadyRevoked,
    /// No attestation exists for the claim.
    AttestationNotFound,
    /// The delegation that the attestation rests on has been revoked.
    DelegationRevoked,
    /// The delegation that the attestation rests on belongs to another account.
    NotDelegatedToAttester,
    /// The delegation that the attestation rests on does not grant attesting.
    DelegationNotAuthorizedToAttest,
    /// The claim type of the delegation's root differs from the attested one.
    CTypeOfDelegationNotMatching,
    /// The sender may not revoke the attestation.
    NotPermittedToRevokeAttestation,
    /// A root with this identifier exists already.
    RootAlreadyExists,
    /// The sender may not revoke the root or delegation.
    NotPermittedToRevoke,
    /// No delegation exists with this identifier.
    DelegationNotFound,
    /// A delegation with this identifier exists already.
    DelegationAlreadyExists,
    /// The delegate's signature over the delegation is not valid.
    BadDelegationSignature,
    /// The sender does not own the parent delegation.
    NotOwnerOfParent,
    /// The parent delegation does not grant delegating.
    NotAuthorizedToDelegate,
    /// No delegation exists with the parent's identifier.
    ParentNotFound,
    /// The sender does not own the root.
    NotOwnerOfRoot,
    /// No root exists with this identifier.
    RootNotFound,
}

} // verus!
