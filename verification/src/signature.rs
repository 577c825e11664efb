use vstd::prelude::*;

use crate::bytes::bytes32_eq;
use crate::crypto::{
    blake2_256, blake2_256_digest, ecdsa_recover_prehashed, ecdsa_recovered_key, ed25519_verify,
    ed25519_signature_valid, sr25519_signature_valid, sr25519_verify,
};

verus! {

/// A signature in one of the runtime's signature schemes. The signer is an
/// account of 32 bytes: the public key itself for Ed25519 and Sr25519, the
/// BLAKE2b-256 hash of the compressed public key for ECDSA.
#[derive(Clone, Copy, Debug, PartialEq, Eq)]
pub enum MultiSignature {
    Ed25519([u8; 64]),
    Sr25519([u8; 64]),
    Ecdsa([u8; 65]),
}

/// Whether `signature` signs `message` for the account `signer`: by the
/// scheme's own check for Ed25519 and Sr25519; for ECDSA, the key recovered
/// from the signature of the message's BLAKE2b-256 hash must hash to the
/// account.
pub open spec fn multi_signature_valid(
    signature: MultiSignature,
    message: Seq<u8>,
    signer: Seq<u8>,
) -> bool {
    match signature {
        MultiSignature::Ed25519(s) => ed25519_signature_valid(s@, message, signer),
        MultiSignature::Sr25519(s) => sr25519_signature_valid(s@, message, signer),
        MultiSignature::Ecdsa(s) => match ecdsa_recovered_key(s@, blake2_256_digest(message)) {
            Some(k) => blake2_256_digest(k) == signer,
            None => false,
        },
    }
}

/// Checks that `signature` signs `message` for the account `signer`.
pub fn verify_multi_signature(signature: &MultiSignature, message: &[u8], signer: &[u8; 32]) -> (valid:
    bool)
    ensures
        valid == multi_signature_valid(*signature, message@, signer@),
{
    match signature {
        MultiSignature::Ed25519(s) => ed25519_verify(s, message, signer),
        MultiSignature::Sr25519(s) => sr25519_verify(s, message, signer),
        MultiSignature::Ecdsa(s) => {
            let hash = blake2_256(message);
            match ecdsa_recover_prehashed(s, &hash) {
                Some(key) => {
                    let key_hash = blake2_256(key.as_slice());
                    let matches = bytes32_eq(&key_hash, signer);
                    proof {
                        assert(key_hash@ == signer@ <==> key_hash == *signer) by {
                            broadcast use vstd::array::group_array_axioms;

                            if key_hash@ == signer@ {
                                assert(key_hash =~= *signer);
                            }
                        }
                    }
                    matches
                },
                None => false,
            }
        },
    }
}

} // verus!
