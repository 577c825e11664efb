use mashnet_runtime::did::DidRegistry;
use sp_core::ed25519;
use sp_core::Pair;

fn h256(n: u64) -> [u8; 32] {
    sp_core::H256::from_low_u64_be(n).0
}

#[test]
fn check_add_did() {
    let mut dids = DidRegistry::new();
    let pair = ed25519::Pair::from_seed(b"Alice                           ");
    let signing_key = h256(1);
    let box_key = h256(2);
    let account_hash = sp_core::H256::from(pair.public().0).0;
    assert_eq!(
        dids.add(account_hash, signing_key, box_key, Some(b"http://kilt.org/submit".to_vec())),
        Ok(())
    );

    assert_eq!(dids.contains_did(&account_hash), true);
    let did = {
        let opt = dids.dids(&account_hash);
        assert!(opt.is_some());
        opt.unwrap()
    };
    assert_eq!(did.signing_key, signing_key);
    assert_eq!(did.box_key, box_key);
    assert_eq!(did.service_endpoint, Some(b"http://kilt.org/submit".to_vec()));

    assert_eq!(dids.remove(account_hash), Ok(()));
    assert_eq!(dids.contains_did(&account_hash), false);
}

#[test]
fn adding_a_did_again_replaces_it() {
    let mut dids = DidRegistry::new();
    let alice = h256(77);
    assert_eq!(dids.add(alice, h256(1), h256(2), None), Ok(()));
    assert_eq!(dids.add(alice, h256(3), h256(4), Some(vec![1, 2, 3])), Ok(()));
    let did = dids.dids(&alice).unwrap();
    assert_eq!(did.signing_key, h256(3));
    assert_eq!(did.box_key, h256(4));
    assert_eq!(did.service_endpoint, Some(vec![1, 2, 3]));
}

#[test]
fn removing_keeps_other_dids_and_absent_ones_are_fine() {
    let mut dids = DidRegistry::new();
    let alice = h256(1);
    let bob = h256(2);
    assert_eq!(dids.add(alice, h256(10), h256(11), None), Ok(()));
    assert_eq!(dids.add(bob, h256(20), h256(21), None), Ok(()));
    assert_eq!(dids.remove(alice), Ok(()));
    assert!(dids.dids(&alice).is_none());
    assert_eq!(dids.dids(&bob).unwrap().signing_key, h256(20));
    assert_eq!(dids.remove(alice), Ok(()));
    assert!(!dids.contains_did(&alice));
    assert!(dids.contains_did(&bob));
}
