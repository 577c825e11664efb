use vstd::prelude::*;

use crate::attestation::{
    add_attestation_refusal, revoke_attestation_refusal, AttestationView,
};
use crate::bytes::{AccountId, DelegationNodeId, H256};
use crate::delegation::{add_delegation_refusal, delegation_preimage, DelegationRegistry};
use crate::permissions::{le_bytes_u32, ATTEST_BITS, DELEGATE_BITS};
use crate::error::Error;
use crate::runtime::{NativeVersion, RuntimeVersion};
use crate::hierarchy::{lemma_delegating_through_parent, DelegationView};

verus! {

/// A claim is attested at most once: after an attestation of a claim has been
/// accepted, every later request to attest the same claim is refused, whoever
/// sends it and whatever the claim type and delegation registries then hold.
pub proof fn law_claim_attested_at_most_once(
    v: AttestationView,
    ctypes: Map<H256, AccountId>,
    delegations: DelegationView,
    sender: AccountId,
    claim_hash: H256,
    ctype_hash: H256,
    delegation_id: Option<DelegationNodeId>,
    later_ctypes: Map<H256, AccountId>,
    later_delegations: DelegationView,
    later_sender: AccountId,
    later_ctype_hash: H256,
    later_delegation_id: Option<DelegationNodeId>,
)
    requires
        add_attestation_refusal(
            v,
            ctypes,
            delegations,
            sender,
            claim_hash,
            ctype_hash,
            delegation_id,
        ) is None,
    ensures
        add_attestation_refusal(
            v.after_add(sender, claim_hash, ctype_hash, delegation_id),
            later_ctypes,
            later_delegations,
            later_sender,
            claim_hash,
            later_ctype_hash,
            later_delegation_id,
        ) is Some,
{
}

/// An attestation is revoked at most once: after a revocation has been
/// accepted, the same sender's next request to revoke it is refused as
/// already revoked.
pub proof fn law_second_revocation_refused(
    v: AttestationView,
    delegations: DelegationView,
    sender: AccountId,
    claim_hash: H256,
)
    requires
        revoke_attestation_refusal(v, delegations, sender, claim_hash) is None,
    ensures
        revoke_attestation_refusal(v.after_revoke(claim_hash), delegations, sender, claim_hash)
            == Some(Error::AlreadyRevoked),
{
}

/// The attester may always revoke its own attestation while it stands.
pub proof fn law_attester_may_revoke(
    v: AttestationView,
    delegations: DelegationView,
    claim_hash: H256,
)
    requires
        v.attestations.contains_key(claim_hash),
        !v.attestations[claim_hash].revoked,
    ensures
        revoke_attestation_refusal(
            v,
            delegations,
            v.attestations[claim_hash].attester,
            claim_hash,
        ) is None,
{
}

/// Revoking a root stops attesting on everything it reached: no attestation
/// on a delegation that the root reached over unrevoked delegations is
/// accepted afterwards, for a registered claim type it is refused because
/// the delegation is revoked.
pub proof fn law_revoked_root_blocks_attestations(
    v: AttestationView,
    ctypes: Map<H256, AccountId>,
    delegations: DelegationView,
    root_id: DelegationNodeId,
    d: DelegationNodeId,
    sender: AccountId,
    claim_hash: H256,
    ctype_hash: H256,
)
    requires
        delegations.reaches(root_id, d),
    ensures
        ({
            let refusal = add_attestation_refusal(
                v,
                ctypes,
                delegations.after_revoking_root(root_id),
                sender,
                claim_hash,
                ctype_hash,
                Some(d),
            );
            refusal == Some(Error::CTypeNotFound) || refusal == Some(Error::DelegationRevoked)
        }),
{
    let path = choose|path: Seq<DelegationNodeId>|
        #[trigger] delegations.is_live_path(path) && path[0] == root_id && path.last() == d;
    assert(delegations.is_unrevoked(path[path.len() - 1]));
}

/// Revoking a root revokes its whole live hierarchy: every delegation whose
/// chain of parents up to the top of the hierarchy holds no revoked
/// delegation, below a root, is revoked once that root is.
pub proof fn law_revoking_root_revokes_live_hierarchy(
    registry: DelegationRegistry,
    chain: Seq<DelegationNodeId>,
)
    requires
        registry.wf(),
        registry@.is_parent_chain(chain),
        registry@.nodes[chain.last()].parent is None,
        forall|i: int| 0 <= i < chain.len() ==> !(#[trigger] registry@.nodes[chain[i]]).revoked,
    ensures
        registry@.after_revoking_root(registry@.nodes[chain.last()].root_id).nodes[chain[0]].revoked,
{
    registry.lemma_live_chain_reached(chain);
    assert(registry@.nodes.contains_key(chain[0]));
}

/// Whoever stands above a delegation stands above the delegations created
/// below it, and the delegate of a delegation stands for it itself.
pub proof fn law_delegating_inherited(
    delegations: DelegationView,
    account: AccountId,
    d: DelegationNodeId,
)
    requires
        delegations.nodes.contains_key(d),
    ensures
        delegations.nodes[d].owner == account ==> delegations.is_delegating(account, d),
        delegations.nodes[d].parent matches Some(p) && delegations.is_delegating(account, p)
            ==> delegations.is_delegating(account, d),
{
    let single = seq![d];
    assert(delegations.is_parent_chain(single));
    if delegations.nodes[d].owner == account {
        assert(delegations.nodes[single[0]].owner == account);
        assert(delegations.chain_grants(single, account));
    }
    if delegations.nodes[d].parent is Some && delegations.is_delegating(
        account,
        delegations.nodes[d].parent->0,
    ) {
        let p = delegations.nodes[d].parent->0;
        lemma_delegating_through_parent(delegations, account, d, p);
    }
}

/// A delegation is only ever created with the delegate's valid signature.
pub proof fn law_delegation_needs_signature(
    v: DelegationView,
    sender: AccountId,
    delegation_id: DelegationNodeId,
    root_id: DelegationNodeId,
    parent_id: Option<DelegationNodeId>,
    signature_valid: bool,
)
    requires
        add_delegation_refusal(v, sender, delegation_id, root_id, parent_id, signature_valid)
            is None,
    ensures
        signature_valid,
{
}

/// Removing the identifier of an account that had none, right after adding
/// it, gives back the registry as it was.
pub proof fn law_did_remove_undoes_add<R>(dids: Map<AccountId, R>, account: AccountId, record: R)
    requires
        !dids.contains_key(account),
    ensures
        dids.insert(account, record).remove(account) == dids,
{
    assert(dids.insert(account, record).remove(account) =~= dids);
}

/// The native runtime authors blocks exactly for chains that run its own
/// specification, "mashnet-node", at its own authoring version, 4: the
/// version information that `native_version` gives admits no other.
pub proof fn law_native_version_authors_only_its_own(native: NativeVersion, other: RuntimeVersion)
    requires
        native.runtime_version.spec_name@ == "mashnet-node"@,
        native.runtime_version.authoring_version == 4,
        native.can_author_with@ == Seq::<u32>::empty(),
    ensures
        native.authoring_compatible(&other) <==> (other.spec_name@ == "mashnet-node"@
            && other.authoring_version == 4),
{
}

/// Delegating below a parent delegation needs the DELEGATE flag and nothing
/// more: with a valid signature, a fresh identifier, an existing root, and a
/// parent owned by the sender, the new delegation is accepted exactly when
/// the parent's permission bits include DELEGATE, whatever other flags they
/// hold, and refused as not authorized to delegate otherwise.
pub proof fn law_delegating_needs_only_the_delegate_flag(
    v: DelegationView,
    sender: AccountId,
    delegation_id: DelegationNodeId,
    root_id: DelegationNodeId,
    parent: DelegationNodeId,
)
    requires
        !v.nodes.contains_key(delegation_id),
        v.roots.contains_key(root_id),
        v.nodes.contains_key(parent),
        v.nodes[parent].owner == sender,
    ensures
        v.nodes[parent].permissions@ & DELEGATE_BITS == DELEGATE_BITS ==> add_delegation_refusal(
            v,
            sender,
            delegation_id,
            root_id,
            Some(parent),
            true,
        ) is None,
        v.nodes[parent].permissions@ & DELEGATE_BITS != DELEGATE_BITS ==> add_delegation_refusal(
            v,
            sender,
            delegation_id,
            root_id,
            Some(parent),
            true,
        ) == Some(Error::NotAuthorizedToDelegate),
        v.nodes[parent].permissions@ == (ATTEST_BITS | DELEGATE_BITS) ==> add_delegation_refusal(
            v,
            sender,
            delegation_id,
            root_id,
            Some(parent),
            true,
        ) is None,
{
    let bits = v.nodes[parent].permissions@;
    assert(bits == (ATTEST_BITS | DELEGATE_BITS) ==> bits & DELEGATE_BITS == DELEGATE_BITS) by (bit_vector);
}

/// Attesting on a delegation needs the ATTEST flag and nothing more: for a
/// registered claim type and a claim not attested yet, an attestation on an
/// unrevoked delegation of the sender, whose root is for that claim type, is
/// accepted exactly when the delegation's permission bits include ATTEST,
/// whatever other flags they hold, and refused as not authorized otherwise.
pub proof fn law_attesting_needs_only_the_attest_flag(
    v: AttestationView,
    ctypes: Map<H256, AccountId>,
    delegations: DelegationView,
    sender: AccountId,
    claim_hash: H256,
    ctype_hash: H256,
    d: DelegationNodeId,
)
    requires
        ctypes.contains_key(ctype_hash),
        delegations.nodes.contains_key(d),
        !delegations.nodes[d].revoked,
        delegations.nodes[d].owner == sender,
        delegations.roots.contains_key(delegations.nodes[d].root_id),
        delegations.roots[delegations.nodes[d].root_id].ctype_hash == ctype_hash,
        !v.attestations.contains_key(claim_hash),
    ensures
        delegations.nodes[d].permissions@ & ATTEST_BITS == ATTEST_BITS ==> add_attestation_refusal(
            v,
            ctypes,
            delegations,
            sender,
            claim_hash,
            ctype_hash,
            Some(d),
        ) is None,
        delegations.nodes[d].permissions@ & ATTEST_BITS != ATTEST_BITS ==> add_attestation_refusal(
            v,
            ctypes,
            delegations,
            sender,
            claim_hash,
            ctype_hash,
            Some(d),
        ) == Some(Error::DelegationNotAuthorizedToAttest),
        delegations.nodes[d].permissions@ == (ATTEST_BITS | DELEGATE_BITS) ==> add_attestation_refusal(
            v,
            ctypes,
            delegations,
            sender,
            claim_hash,
            ctype_hash,
            Some(d),
        ) is None,
{
    let bits = delegations.nodes[d].permissions@;
    assert(bits == (ATTEST_BITS | DELEGATE_BITS) ==> bits & ATTEST_BITS == ATTEST_BITS) by (bit_vector);
}

/// The four permission bytes that the delegate signs are the flag bits in
/// little-endian order: they add up, by powers of 256, to the bits.
pub proof fn law_permission_bytes_little_endian(bits: u32)
    ensures
        le_bytes_u32(bits).len() == 4,
        le_bytes_u32(bits)[0] + 0x100 * le_bytes_u32(bits)[1] + 0x10000 * le_bytes_u32(bits)[2]
            + 0x1000000 * le_bytes_u32(bits)[3] == bits,
{
    assert((bits % 0x100) + 0x100 * ((bits / 0x100) % 0x100) + 0x10000 * ((bits / 0x10000)
        % 0x100) + 0x1000000 * (bits / 0x1000000) == bits) by (bit_vector);
    assert(bits / 0x1000000 < 0x100) by (bit_vector);
}

/// The bytes hashed for a delegation are its identifier, its root's
/// identifier, its parent's identifier when it has a parent and nothing in
/// its place when it has none, and the four permission bytes: 68 bytes
/// directly below a root, 100 below a parent.
pub proof fn law_delegation_preimage_layout(
    delegation_id: DelegationNodeId,
    root_id: DelegationNodeId,
    parent: DelegationNodeId,
    permissions: u32,
)
    ensures
        delegation_preimage(delegation_id, root_id, None, permissions).len() == 68,
        delegation_preimage(delegation_id, root_id, None, permissions).subrange(0, 32)
            == delegation_id@,
        delegation_preimage(delegation_id, root_id, None, permissions).subrange(32, 64) == root_id@,
        delegation_preimage(delegation_id, root_id, None, permissions).subrange(64, 68)
            == le_bytes_u32(permissions),
        delegation_preimage(delegation_id, root_id, Some(parent), permissions).len() == 100,
        delegation_preimage(delegation_id, root_id, Some(parent), permissions).subrange(0, 32)
            == delegation_id@,
        delegation_preimage(delegation_id, root_id, Some(parent), permissions).subrange(32, 64)
            == root_id@,
        delegation_preimage(delegation_id, root_id, Some(parent), permissions).subrange(64, 96)
            == parent@,
        delegation_preimage(delegation_id, root_id, Some(parent), permissions).subrange(96, 100)
            == le_bytes_u32(permissions),
{
    broadcast use vstd::array::group_array_axioms;

    let n = delegation_preimage(delegation_id, root_id, None, permissions);
    let s = delegation_preimage(delegation_id, root_id, Some(parent), permissions);
    assert(n =~= delegation_id@ + root_id@ + le_bytes_u32(permissions));
    assert(s =~= delegation_id@ + root_id@ + parent@ + le_bytes_u32(permissions));
    assert(n.subrange(0, 32) =~= delegation_id@);
    assert(n.subrange(32, 64) =~= root_id@);
    assert(n.subrange(64, 68) =~= le_bytes_u32(permissions));
    assert(s.subrange(0, 32) =~= delegation_id@);
    assert(s.subrange(32, 64) =~= root_id@);
    assert(s.subrange(64, 96) =~= parent@);
    assert(s.subrange(96, 100) =~= le_bytes_u32(permissions));
}

/// Revoking a delegation revokes its whole live sub-hierarchy at every
/// depth: every delegation whose chain of parents up to the revoked one holds
/// no revoked delegation is revoked with it.
pub proof fn law_revoking_delegation_revokes_live_subtree(
    registry: DelegationRegistry,
    chain: Seq<DelegationNodeId>,
)
    requires
        registry.wf(),
        registry@.is_parent_chain(chain),
        forall|i: int| 0 <= i < chain.len() ==> !(#[trigger] registry@.nodes[chain[i]]).revoked,
    ensures
        registry@.after_revoking_delegation(chain.last()).nodes[chain[0]].revoked,
{
    assert(registry@.nodes.contains_key(chain[0]));
    if chain.len() >= 2 {
        registry.lemma_live_chain_below_reached(chain);
    }
}

/// Whoever owns the delegation of an attestation or any delegation above
/// it, or the root at the top of its chain, may revoke the attestation
/// while it stands, however many levels lie between.
pub proof fn law_owners_above_may_revoke_attestation(
    v: AttestationView,
    delegations: DelegationView,
    sender: AccountId,
    claim_hash: H256,
    chain: Seq<DelegationNodeId>,
    i: int,
)
    requires
        v.attestations.contains_key(claim_hash),
        !v.attestations[claim_hash].revoked,
        v.attestations[claim_hash].delegation_id == Some(chain[0]),
        delegations.is_parent_chain(chain),
        (0 <= i < chain.len() && delegations.nodes[chain[i]].owner == sender) || ({
            let top = delegations.nodes[chain.last()];
            &&& top.parent is None
            &&& delegations.roots.contains_key(top.root_id)
            &&& delegations.roots[top.root_id].owner == sender
        }),
    ensures
        revoke_attestation_refusal(v, delegations, sender, claim_hash) is None,
{
    if 0 <= i < chain.len() && delegations.nodes[chain[i]].owner == sender {
        assert(delegations.chain_grants(chain, sender));
    }
    assert(delegations.chain_grants(chain, sender));
    assert(delegations.is_delegating(sender, chain[0]));
    assert(delegations.nodes.contains_key(chain[0]));
}

} // verus!
