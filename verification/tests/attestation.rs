use mashnet_runtime::attestation::AttestationRegistry;
use mashnet_runtime::ctype::CTypeRegistry;
use mashnet_runtime::delegation::DelegationRegistry;
use mashnet_runtime::error::Error;
use mashnet_runtime::permissions::Permissions;
use mashnet_runtime::signature::MultiSignature;
use parity_scale_codec::Encode;
use sp_core::ed25519;
use sp_core::Pair;

fn h256(n: u64) -> [u8; 32] {
    sp_core::H256::from_low_u64_be(n).0
}

fn hash_to_u8(hash: [u8; 32]) -> Vec<u8> {
    mashnet_runtime::bytes::hash_to_u8(&hash)
}

fn sign(pair: &ed25519::Pair, message: &[u8]) -> MultiSignature {
    MultiSignature::Ed25519(pair.sign(message).0)
}

#[test]
fn check_add_attestation() {
    let mut ctypes = CTypeRegistry::new();
    let delegations = DelegationRegistry::new();
    let mut attestations = AttestationRegistry::new();
    let pair = ed25519::Pair::from_seed(b"Alice                           ");
    let hash = h256(1);
    let account_hash = pair.public().0;
    assert_eq!(ctypes.add(account_hash, hash), Ok(()));
    assert_eq!(attestations.add(&ctypes, &delegations, account_hash, hash, hash, None), Ok(()));
    let existing_attestation_for_claim = {
        let opt = attestations.attestations(&hash);
        assert!(opt.is_some());
        opt.unwrap()
    };
    assert_eq!(existing_attestation_for_claim.ctype_hash, hash);
    assert_eq!(existing_attestation_for_claim.attester, account_hash);
    assert_eq!(existing_attestation_for_claim.revoked, false);
}

#[test]
fn check_revoke_attestation() {
    let mut ctypes = CTypeRegistry::new();
    let delegations = DelegationRegistry::new();
    let mut attestations = AttestationRegistry::new();
    let pair = ed25519::Pair::from_seed(b"Alice                           ");
    let hash = h256(1);
    let account_hash = pair.public().0;
    assert_eq!(ctypes.add(account_hash, hash), Ok(()));
    assert_eq!(attestations.add(&ctypes, &delegations, account_hash, hash, hash, None), Ok(()));
    assert_eq!(attestations.revoke(&delegations, account_hash, hash), Ok(()));
    let existing_attestation_for_claim = {
        let opt = attestations.attestations(&hash);
        assert!(opt.is_some());
        opt.unwrap()
    };
    assert_eq!(existing_attestation_for_claim.ctype_hash, hash);
    assert_eq!(existing_attestation_for_claim.attester, account_hash);
    assert_eq!(existing_attestation_for_claim.revoked, true);
}

#[test]
fn check_double_attestation() {
    let mut ctypes = CTypeRegistry::new();
    let delegations = DelegationRegistry::new();
    let mut attestations = AttestationRegistry::new();
    let pair = ed25519::Pair::from_seed(b"Alice                           ");
    let hash = h256(1);
    let account_hash = pair.public().0;
    assert_eq!(ctypes.add(account_hash, hash), Ok(()));
    assert_eq!(attestations.add(&ctypes, &delegations, account_hash, hash, hash, None), Ok(()));
    assert_eq!(
        attestations.add(&ctypes, &delegations, account_hash, hash, hash, None),
        Err(Error::AlreadyAttested)
    );
}

#[test]
fn check_double_revoke_attestation() {
    let mut ctypes = CTypeRegistry::new();
    let delegations = DelegationRegistry::new();
    let mut attestations = AttestationRegistry::new();
    let pair = ed25519::Pair::from_seed(b"Alice                           ");
    let hash = h256(1);
    let account_hash = pair.public().0;
    assert_eq!(ctypes.add(account_hash, hash), Ok(()));
    assert_eq!(attestations.add(&ctypes, &delegations, account_hash, hash, hash, None), Ok(()));
    assert_eq!(attestations.revoke(&delegations, account_hash, hash), Ok(()));
    assert_eq!(
        attestations.revoke(&delegations, account_hash, hash),
        Err(Error::AlreadyRevoked)
    );
}

#[test]
fn check_revoke_unknown() {
    let delegations = DelegationRegistry::new();
    let mut attestations = AttestationRegistry::new();
    let pair = ed25519::Pair::from_seed(b"Alice                           ");
    let hash = h256(1);
    let account_hash = pair.public().0;
    assert_eq!(
        attestations.revoke(&delegations, account_hash, hash),
        Err(Error::AttestationNotFound)
    );
}

#[test]
fn check_revoke_not_permitted() {
    let mut ctypes = CTypeRegistry::new();
    let delegations = DelegationRegistry::new();
    let mut attestations = AttestationRegistry::new();
    let pair_alice = ed25519::Pair::from_seed(b"Alice                           ");
    let account_hash_alice = pair_alice.public().0;
    let pair_bob = ed25519::Pair::from_seed(b"Bob                             ");
    let account_hash_bob = pair_bob.public().0;
    let hash = h256(1);
    assert_eq!(ctypes.add(account_hash_alice, hash), Ok(()));
    assert_eq!(
        attestations.add(&ctypes, &delegations, account_hash_alice, hash, hash, None),
        Ok(())
    );
    assert_eq!(
        attestations.revoke(&delegations, account_hash_bob, hash),
        Err(Error::NotPermittedToRevokeAttestation)
    );
}

#[test]
fn check_add_attestation_with_delegation() {
    let mut ctypes = CTypeRegistry::new();
    let mut delegations = DelegationRegistry::new();
    let mut attestations = AttestationRegistry::new();
    let pair_alice = ed25519::Pair::from_seed(b"Alice                           ");
    let account_hash_alice = pair_alice.public().0;
    let pair_bob = ed25519::Pair::from_seed(b"Bob                             ");
    let account_hash_bob = pair_bob.public().0;
    let pair_charlie = ed25519::Pair::from_seed(b"Charlie                         ");
    let account_hash_charlie = pair_charlie.public().0;

    let ctype_hash = h256(1);
    let other_ctype_hash = h256(2);
    let claim_hash = h256(1);

    let delegation_root = h256(0);
    let delegation_1 = h256(1);
    let delegation_2 = h256(2);

    assert_eq!(ctypes.add(account_hash_alice, ctype_hash), Ok(()));

    assert_eq!(
        attestations.add(
            &ctypes,
            &delegations,
            account_hash_alice,
            claim_hash,
            ctype_hash,
            Some(delegation_1)
        ),
        Err(Error::DelegationNotFound)
    );

    assert_eq!(
        delegations.create_root(&ctypes, account_hash_alice, delegation_root, ctype_hash),
        Ok(())
    );
    assert_eq!(
        delegations.add_delegation(
            account_hash_alice,
            delegation_1,
            delegation_root,
            None,
            account_hash_bob,
            Permissions::delegate(),
            sign(
                &pair_bob,
                &hash_to_u8(DelegationRegistry::calculate_hash(
                    &delegation_1,
                    &delegation_root,
                    &None,
                    Permissions::delegate()
                ))
            )
        ),
        Ok(())
    );
    assert_eq!(
        delegations.add_delegation(
            account_hash_alice,
            delegation_2,
            delegation_root,
            None,
            account_hash_bob,
            Permissions::attest(),
            sign(
                &pair_bob,
                &hash_to_u8(DelegationRegistry::calculate_hash(
                    &delegation_2,
                    &delegation_root,
                    &None,
                    Permissions::attest()
                ))
            )
        ),
        Ok(())
    );

    assert_eq!(
        attestations.add(
            &ctypes,
            &delegations,
            account_hash_bob,
            claim_hash,
            other_ctype_hash,
            Some(delegation_2)
        ),
        Err(Error::CTypeNotFound)
    );
    assert_eq!(ctypes.add(account_hash_alice, other_ctype_hash), Ok(()));
    assert_eq!(
        attestations.add(
            &ctypes,
            &delegations,
            account_hash_bob,
            claim_hash,
            other_ctype_hash,
            Some(delegation_2)
        ),
        Err(Error::CTypeOfDelegationNotMatching)
    );
    assert_eq!(
        attestations.add(
            &ctypes,
            &delegations,
            account_hash_alice,
            claim_hash,
            ctype_hash,
            Some(delegation_2)
        ),
        Err(Error::NotDelegatedToAttester)
    );
    assert_eq!(
        attestations.add(
            &ctypes,
            &delegations,
            account_hash_bob,
            claim_hash,
            ctype_hash,
            Some(delegation_1)
        ),
        Err(Error::DelegationNotAuthorizedToAttest)
    );
    assert_eq!(
        attestations.add(
            &ctypes,
            &delegations,
            account_hash_bob,
            claim_hash,
            ctype_hash,
            Some(delegation_2)
        ),
        Ok(())
    );

    let existing_attestations_for_delegation = attestations.delegated_attestations(&delegation_2);
    assert_eq!(existing_attestations_for_delegation.len(), 1);
    assert_eq!(existing_attestations_for_delegation[0], claim_hash);

    assert_eq!(delegations.revoke_root(account_hash_alice, delegation_root), Ok(()));
    assert_eq!(
        attestations.add(
            &ctypes,
            &delegations,
            account_hash_bob,
            claim_hash,
            ctype_hash,
            Some(delegation_2)
        ),
        Err(Error::DelegationRevoked)
    );

    assert_eq!(
        attestations.revoke(&delegations, account_hash_charlie, claim_hash),
        Err(Error::NotPermittedToRevokeAttestation)
    );
    assert_eq!(attestations.revoke(&delegations, account_hash_alice, claim_hash), Ok(()));
}

#[test]
fn second_attestation_by_another_sender_is_refused() {
    let mut ctypes = CTypeRegistry::new();
    let delegations = DelegationRegistry::new();
    let mut attestations = AttestationRegistry::new();
    let alice = ed25519::Pair::from_seed(b"Alice                           ").public().0;
    let bob = ed25519::Pair::from_seed(b"Bob                             ").public().0;
    assert_eq!(ctypes.add(alice, h256(7)), Ok(()));
    assert_eq!(attestations.add(&ctypes, &delegations, alice, h256(9), h256(7), None), Ok(()));
    assert_eq!(
        attestations.add(&ctypes, &delegations, bob, h256(9), h256(7), None),
        Err(Error::AlreadyAttested)
    );
    // A refused request changes nothing.
    let a = attestations.attestations(&h256(9)).unwrap();
    assert_eq!(a.attester, alice);
    assert_eq!(a.delegation_id, None);
}

#[test]
fn attestation_of_unknown_ctype_is_refused() {
    let ctypes = CTypeRegistry::new();
    let delegations = DelegationRegistry::new();
    let mut attestations = AttestationRegistry::new();
    let alice = ed25519::Pair::from_seed(b"Alice                           ").public().0;
    assert_eq!(
        attestations.add(&ctypes, &delegations, alice, h256(1), h256(2), None),
        Err(Error::CTypeNotFound)
    );
    assert!(attestations.attestations(&h256(1)).is_none());
}

#[test]
fn revoked_attestation_stays_and_cannot_be_attested_again() {
    let mut ctypes = CTypeRegistry::new();
    let delegations = DelegationRegistry::new();
    let mut attestations = AttestationRegistry::new();
    let alice = ed25519::Pair::from_seed(b"Alice                           ").public().0;
    assert_eq!(ctypes.add(alice, h256(1)), Ok(()));
    assert_eq!(attestations.add(&ctypes, &delegations, alice, h256(5), h256(1), None), Ok(()));
    assert_eq!(attestations.revoke(&delegations, alice, h256(5)), Ok(()));
    assert_eq!(
        attestations.add(&ctypes, &delegations, alice, h256(5), h256(1), None),
        Err(Error::AlreadyAttested)
    );
}

#[test]
fn delegated_attestations_keep_their_order() {
    let mut ctypes = CTypeRegistry::new();
    let mut delegations = DelegationRegistry::new();
    let mut attestations = AttestationRegistry::new();
    let alice_pair = ed25519::Pair::from_seed(b"Alice                           ");
    let bob_pair = ed25519::Pair::from_seed(b"Bob                             ");
    let alice = alice_pair.public().0;
    let bob = bob_pair.public().0;
    let ctype = h256(1);
    let root = h256(10);
    let d = h256(11);
    assert_eq!(ctypes.add(alice, ctype), Ok(()));
    assert_eq!(delegations.create_root(&ctypes, alice, root, ctype), Ok(()));
    let msg = hash_to_u8(DelegationRegistry::calculate_hash(&d, &root, &None, Permissions::attest()));
    assert_eq!(
        delegations.add_delegation(alice, d, root, None, bob, Permissions::attest(), sign(&bob_pair, &msg)),
        Ok(())
    );
    assert_eq!(attestations.add(&ctypes, &delegations, bob, h256(21), ctype, Some(d)), Ok(()));
    assert_eq!(attestations.add(&ctypes, &delegations, bob, h256(20), ctype, Some(d)), Ok(()));
    assert_eq!(attestations.delegated_attestations(&d), vec![h256(21), h256(20)]);
    assert_eq!(attestations.delegated_attestations(&root), Vec::<[u8; 32]>::new());
    // The delegate itself may revoke, and so may the root owner.
    assert_eq!(attestations.revoke(&delegations, bob, h256(21)), Ok(()));
    assert_eq!(attestations.revoke(&delegations, alice, h256(20)), Ok(()));
}

#[test]
fn revoking_with_a_delegation_above_the_attester() {
    let mut ctypes = CTypeRegistry::new();
    let mut delegations = DelegationRegistry::new();
    let mut attestations = AttestationRegistry::new();
    let alice_pair = ed25519::Pair::from_seed(b"Alice                           ");
    let bob_pair = ed25519::Pair::from_seed(b"Bob                             ");
    let charlie_pair = ed25519::Pair::from_seed(b"Charlie                         ");
    let (alice, bob, charlie) = (alice_pair.public().0, bob_pair.public().0, charlie_pair.public().0);
    let ctype = h256(1);
    let root = h256(100);
    let d1 = h256(101);
    let d2 = h256(102);
    assert_eq!(ctypes.add(alice, ctype), Ok(()));
    assert_eq!(delegations.create_root(&ctypes, alice, root, ctype), Ok(()));
    let m1 = hash_to_u8(DelegationRegistry::calculate_hash(&d1, &root, &None, Permissions::delegate()));
    assert_eq!(
        delegations.add_delegation(alice, d1, root, None, bob, Permissions::delegate(), sign(&bob_pair, &m1)),
        Ok(())
    );
    let m2 = hash_to_u8(DelegationRegistry::calculate_hash(&d2, &root, &Some(d1), Permissions::attest()));
    assert_eq!(
        delegations.add_delegation(bob, d2, root, Some(d1), charlie, Permissions::attest(), sign(&charlie_pair, &m2)),
        Ok(())
    );
    assert_eq!(attestations.add(&ctypes, &delegations, charlie, h256(3), ctype, Some(d2)), Ok(()));
    // Bob owns the parent delegation, so he may revoke Charlie's attestation.
    assert_eq!(attestations.revoke(&delegations, bob, h256(3)), Ok(()));
    assert!(attestations.attestations(&h256(3)).unwrap().revoked);
}

#[test]
fn hash_to_u8_is_the_scale_encoding_of_the_hash() {
    let hash = DelegationRegistry::calculate_hash(&h256(1), &h256(0), &None, Permissions::attest());
    assert_eq!(hash_to_u8(hash), sp_core::H256(hash).encode());
    assert_eq!(hash_to_u8(hash), hash.to_vec());
}
