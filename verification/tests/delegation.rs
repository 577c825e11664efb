use mashnet_runtime::ctype::CTypeRegistry;
use mashnet_runtime::delegation::DelegationRegistry;
use mashnet_runtime::error::Error;
use mashnet_runtime::permissions::Permissions;
use mashnet_runtime::signature::MultiSignature;
use sp_core::{ecdsa, sr25519};
use sp_core::ed25519;
use sp_core::Pair;

fn h256(n: u64) -> [u8; 32] {
    sp_core::H256::from_low_u64_be(n).0
}

fn pair(seed: &[u8; 32]) -> ed25519::Pair {
    ed25519::Pair::from_seed(seed)
}

fn signed(
    delegate: &ed25519::Pair,
    id: [u8; 32],
    root: [u8; 32],
    parent: Option<[u8; 32]>,
    permissions: Permissions,
) -> MultiSignature {
    let hash = DelegationRegistry::calculate_hash(&id, &root, &parent, permissions);
    MultiSignature::Ed25519(delegate.sign(&hash).0)
}

struct World {
    ctypes: CTypeRegistry,
    delegations: DelegationRegistry,
    alice: ed25519::Pair,
    bob: ed25519::Pair,
    charlie: ed25519::Pair,
}

fn world() -> World {
    let mut ctypes = CTypeRegistry::new();
    let mut delegations = DelegationRegistry::new();
    let alice = pair(b"Alice                           ");
    let bob = pair(b"Bob                             ");
    let charlie = pair(b"Charlie                         ");
    assert_eq!(ctypes.add(alice.public().0, h256(1)), Ok(()));
    assert_eq!(delegations.create_root(&ctypes, alice.public().0, h256(100), h256(1)), Ok(()));
    World { ctypes, delegations, alice, bob, charlie }
}

fn delegate(w: &mut World, sender: [u8; 32], id: u64, parent: Option<u64>, to: u8, permissions: Permissions) -> Result<(), Error> {
    let to_pair = match to {
        0 => &w.alice,
        1 => &w.bob,
        _ => &w.charlie,
    };
    let parent = parent.map(h256);
    let sig = signed(to_pair, h256(id), h256(100), parent, permissions);
    let to_account = to_pair.public().0;
    w.delegations.add_delegation(sender, h256(id), h256(100), parent, to_account, permissions, sig)
}

#[test]
fn create_root_refusals() {
    let mut w = world();
    let alice = w.alice.public().0;
    assert_eq!(
        w.delegations.create_root(&w.ctypes, alice, h256(100), h256(1)),
        Err(Error::RootAlreadyExists)
    );
    assert_eq!(
        w.delegations.create_root(&w.ctypes, alice, h256(200), h256(2)),
        Err(Error::CTypeNotFound)
    );
    let root = w.delegations.root(&h256(100)).unwrap();
    assert_eq!(root.owner, alice);
    assert_eq!(root.ctype_hash, h256(1));
    assert!(!root.revoked);
    assert!(w.delegations.root(&h256(200)).is_none());
}

#[test]
fn add_delegation_stores_and_lists_it() {
    let mut w = world();
    let alice = w.alice.public().0;
    let bob = w.bob.public().0;
    assert_eq!(delegate(&mut w, alice, 1, None, 1, Permissions::delegate()), Ok(()));
    let node = w.delegations.delegation(&h256(1)).unwrap();
    assert_eq!(node.root_id, h256(100));
    assert_eq!(node.parent, None);
    assert_eq!(node.owner, bob);
    assert_eq!(node.permissions, Permissions::delegate());
    assert!(!node.revoked);
    assert_eq!(w.delegations.children(&h256(100)), vec![h256(1)]);
    assert_eq!(delegate(&mut w, bob, 2, Some(1), 2, Permissions::attest()), Ok(()));
    assert_eq!(w.delegations.children(&h256(1)), vec![h256(2)]);
    assert_eq!(w.delegations.delegation(&h256(2)).unwrap().parent, Some(h256(1)));
}

#[test]
fn add_delegation_refusals() {
    let mut w = world();
    let alice = w.alice.public().0;
    let bob = w.bob.public().0;
    let charlie = w.charlie.public().0;
    // Signed by the wrong key.
    let wrong = signed(&w.alice, h256(1), h256(100), None, Permissions::attest());
    assert_eq!(
        w.delegations.add_delegation(alice, h256(1), h256(100), None, bob, Permissions::attest(), wrong),
        Err(Error::BadDelegationSignature)
    );
    // Signed over other permissions.
    let other = signed(&w.bob, h256(1), h256(100), None, Permissions::delegate());
    assert_eq!(
        w.delegations.add_delegation(alice, h256(1), h256(100), None, bob, Permissions::attest(), other),
        Err(Error::BadDelegationSignature)
    );
    assert!(w.delegations.delegation(&h256(1)).is_none());
    // Unknown root.
    let sig = MultiSignature::Ed25519(
        w.bob.sign(&DelegationRegistry::calculate_hash(&h256(1), &h256(300), &None, Permissions::attest())).0,
    );
    assert_eq!(
        w.delegations.add_delegation(alice, h256(1), h256(300), None, bob, Permissions::attest(), sig),
        Err(Error::RootNotFound)
    );
    // Not the root's owner.
    assert_eq!(delegate(&mut w, bob, 1, None, 1, Permissions::attest()), Err(Error::NotOwnerOfRoot));
    assert_eq!(delegate(&mut w, alice, 1, None, 1, Permissions::attest()), Ok(()));
    // Existing identifier.
    assert_eq!(delegate(&mut w, alice, 1, None, 2, Permissions::attest()), Err(Error::DelegationAlreadyExists));
    // Unknown parent.
    assert_eq!(delegate(&mut w, bob, 2, Some(9), 2, Permissions::attest()), Err(Error::ParentNotFound));
    // Not the parent's owner.
    assert_eq!(delegate(&mut w, charlie, 2, Some(1), 2, Permissions::attest()), Err(Error::NotOwnerOfParent));
    // Parent may not delegate.
    assert_eq!(delegate(&mut w, bob, 2, Some(1), 2, Permissions::attest()), Err(Error::NotAuthorizedToDelegate));
    assert!(w.delegations.delegation(&h256(2)).is_none());
    assert_eq!(w.delegations.children(&h256(1)), Vec::<[u8; 32]>::new());
}

#[test]
fn is_delegating_walks_up_to_the_root() {
    let mut w = world();
    let alice = w.alice.public().0;
    let bob = w.bob.public().0;
    let charlie = w.charlie.public().0;
    assert_eq!(delegate(&mut w, alice, 1, None, 1, Permissions::delegate()), Ok(()));
    assert_eq!(delegate(&mut w, bob, 2, Some(1), 2, Permissions::attest()), Ok(()));
    assert_eq!(w.delegations.is_delegating(&charlie, &h256(2)), Ok(true));
    assert_eq!(w.delegations.is_delegating(&bob, &h256(2)), Ok(true));
    assert_eq!(w.delegations.is_delegating(&alice, &h256(2)), Ok(true));
    assert_eq!(w.delegations.is_delegating(&charlie, &h256(1)), Ok(false));
    assert_eq!(w.delegations.is_delegating(&alice, &h256(3)), Err(Error::DelegationNotFound));
    let dave = h256(4242);
    assert_eq!(w.delegations.is_delegating(&dave, &h256(2)), Ok(false));
}

#[test]
fn revoke_root_revokes_the_whole_live_hierarchy() {
    let mut w = world();
    let alice = w.alice.public().0;
    let bob = w.bob.public().0;
    assert_eq!(delegate(&mut w, alice, 1, None, 1, Permissions::delegate()), Ok(()));
    assert_eq!(delegate(&mut w, bob, 2, Some(1), 2, Permissions::attest()), Ok(()));
    assert_eq!(delegate(&mut w, alice, 3, None, 2, Permissions::attest()), Ok(()));
    assert_eq!(w.delegations.revoke_root(bob, h256(100)), Err(Error::NotPermittedToRevoke));
    assert_eq!(w.delegations.revoke_root(alice, h256(555)), Err(Error::RootNotFound));
    assert!(!w.delegations.delegation(&h256(2)).unwrap().revoked);
    assert_eq!(w.delegations.revoke_root(alice, h256(100)), Ok(()));
    assert!(w.delegations.root(&h256(100)).unwrap().revoked);
    assert!(w.delegations.delegation(&h256(1)).unwrap().revoked);
    assert!(w.delegations.delegation(&h256(2)).unwrap().revoked);
    assert!(w.delegations.delegation(&h256(3)).unwrap().revoked);
    // Revoking again is accepted and changes nothing.
    assert_eq!(w.delegations.revoke_root(alice, h256(100)), Ok(()));
}

#[test]
fn revocation_stops_at_delegations_revoked_before() {
    let mut w = world();
    let alice = w.alice.public().0;
    let bob = w.bob.public().0;
    assert_eq!(delegate(&mut w, alice, 1, None, 1, Permissions::delegate()), Ok(()));
    assert_eq!(w.delegations.revoke_delegation(bob, h256(1)), Ok(()));
    assert!(w.delegations.delegation(&h256(1)).unwrap().revoked);
    // A revoked delegation still lets its owner delegate below it.
    assert_eq!(delegate(&mut w, bob, 2, Some(1), 2, Permissions::attest()), Ok(()));
    assert_eq!(w.delegations.revoke_root(alice, h256(100)), Ok(()));
    // The new delegation lies below a delegation revoked before, so it is not reached.
    assert!(!w.delegations.delegation(&h256(2)).unwrap().revoked);
}

#[test]
fn revoke_delegation_revokes_below_but_not_beside() {
    let mut w = world();
    let alice = w.alice.public().0;
    let bob = w.bob.public().0;
    let charlie = w.charlie.public().0;
    assert_eq!(delegate(&mut w, alice, 1, None, 1, Permissions::delegate()), Ok(()));
    assert_eq!(delegate(&mut w, bob, 2, Some(1), 2, Permissions::attest()), Ok(()));
    assert_eq!(delegate(&mut w, alice, 3, None, 2, Permissions::attest()), Ok(()));
    assert_eq!(w.delegations.revoke_delegation(charlie, h256(1)), Err(Error::NotPermittedToRevoke));
    assert_eq!(w.delegations.revoke_delegation(alice, h256(9)), Err(Error::DelegationNotFound));
    assert_eq!(w.delegations.revoke_delegation(alice, h256(1)), Ok(()));
    assert!(w.delegations.delegation(&h256(1)).unwrap().revoked);
    assert!(w.delegations.delegation(&h256(2)).unwrap().revoked);
    assert!(!w.delegations.delegation(&h256(3)).unwrap().revoked);
    assert!(!w.delegations.root(&h256(100)).unwrap().revoked);
}

#[test]
fn a_delegation_listed_below_itself_is_revoked_once() {
    // A delegation may share its identifier with its root, so it is listed below itself.
    let mut w = world();
    let alice = w.alice.public().0;
    assert_eq!(delegate(&mut w, alice, 100, None, 1, Permissions::attest()), Ok(()));
    assert_eq!(w.delegations.children(&h256(100)), vec![h256(100)]);
    assert_eq!(w.delegations.revoke_root(alice, h256(100)), Ok(()));
    assert!(w.delegations.delegation(&h256(100)).unwrap().revoked);
}

#[test]
fn calculate_hash_is_blake2_of_the_fields() {
    let parent = Some(h256(3));
    let hash = DelegationRegistry::calculate_hash(&h256(1), &h256(2), &parent, Permissions::delegate());
    let mut preimage = Vec::new();
    preimage.extend_from_slice(&h256(1));
    preimage.extend_from_slice(&h256(2));
    preimage.extend_from_slice(&h256(3));
    preimage.extend_from_slice(&[2, 0, 0, 0]);
    let expected = <sp_core::Blake2Hasher as sp_core::Hasher>::hash(&preimage).0;
    assert_eq!(hash, expected);
    assert_ne!(hash.to_vec(), preimage[..32].to_vec());
    let without_parent = DelegationRegistry::calculate_hash(&h256(1), &h256(2), &None, Permissions::delegate());
    assert_ne!(hash, without_parent);
}

#[test]
fn sr25519_delegates_sign_with_sr25519() {
    let mut w = world();
    let alice = w.alice.public().0;
    let dave = sr25519::Pair::from_seed(b"Dave                            ");
    let dave_account = dave.public().0;
    let hash = DelegationRegistry::calculate_hash(&h256(1), &h256(100), &None, Permissions::attest());
    let good = MultiSignature::Sr25519(dave.sign(&hash).0);
    // The same bytes read as another scheme do not verify.
    let misread = match good {
        MultiSignature::Sr25519(bytes) => MultiSignature::Ed25519(bytes),
        other => other,
    };
    assert_eq!(
        w.delegations.add_delegation(alice, h256(1), h256(100), None, dave_account, Permissions::attest(), misread),
        Err(Error::BadDelegationSignature)
    );
    assert_eq!(
        w.delegations.add_delegation(alice, h256(1), h256(100), None, dave_account, Permissions::attest(), good),
        Ok(())
    );
    assert_eq!(w.delegations.delegation(&h256(1)).unwrap().owner, dave_account);
}

#[test]
fn ecdsa_delegates_are_accounts_hashed_from_their_keys() {
    let mut w = world();
    let alice = w.alice.public().0;
    let erin = ecdsa::Pair::from_seed(b"Erin                            ");
    let erin_account = <sp_core::Blake2Hasher as sp_core::Hasher>::hash(&erin.public().0).0;
    let hash = DelegationRegistry::calculate_hash(&h256(2), &h256(100), &None, Permissions::attest());
    let good = MultiSignature::Ecdsa(erin.sign(&hash).0);
    // The raw compressed key is not the account.
    let mut wrong_account = [0u8; 32];
    wrong_account.copy_from_slice(&erin.public().0[1..]);
    assert_eq!(
        w.delegations.add_delegation(alice, h256(2), h256(100), None, wrong_account, Permissions::attest(), good),
        Err(Error::BadDelegationSignature)
    );
    // A signature of another message recovers another key.
    let other = MultiSignature::Ecdsa(erin.sign(b"something else").0);
    assert_eq!(
        w.delegations.add_delegation(alice, h256(2), h256(100), None, erin_account, Permissions::attest(), other),
        Err(Error::BadDelegationSignature)
    );
    assert_eq!(
        w.delegations.add_delegation(alice, h256(2), h256(100), None, erin_account, Permissions::attest(), good),
        Ok(())
    );
    assert_eq!(w.delegations.delegation(&h256(2)).unwrap().owner, erin_account);
}
