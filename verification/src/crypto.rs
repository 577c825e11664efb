use vstd::prelude::*;

verus! {

/// The 256-bit BLAKE2b digest of a byte string, as computed by `sp-core`.
pub uninterp spec fn blake2_256_digest(data: Seq<u8>) -> Seq<u8>;

/// Whether `signature` is a valid Ed25519 signature of `message` under the
/// public key `signer`, as decided by `sp-core`.
pub uninterp spec fn ed25519_signature_valid(
    signature: Seq<u8>,
    message: Seq<u8>,
    signer: Seq<u8>,
) -> bool;

/// Whether `signature` is a valid Sr25519 (Schnorrkel) signature of
/// `message` under the public key `signer`, as decided by `sp-core`.
pub uninterp spec fn sr25519_signature_valid(
    signature: Seq<u8>,
    message: Seq<u8>,
    signer: Seq<u8>,
) -> bool;

/// The compressed secp256k1 public key that an ECDSA signature (64 bytes
/// and a recovery byte) of the 32-byte prehashed message `hash` recovers to,
/// as computed by `sp-core`; none when recovery fails.
pub uninterp spec fn ecdsa_recovered_key(signature: Seq<u8>, hash: Seq<u8>) -> Option<Seq<u8>>;

/// Hashes `data` with `sp_core::Blake2Hasher` (the `hash_db::Hasher` impl,
/// BLAKE2b with a 256-bit output). Trusted: the result is the named digest of
/// the bytes handed in; nothing more of the digest is claimed.
#[verifier::external_body]
pub(crate) fn blake2_256(data: &[u8]) -> (digest: [u8; 32])
    ensures
        digest@ == blake2_256_digest(data@),
{
    <sp_core::Blake2Hasher as sp_core::Hasher>::hash(data).0
}

/// Checks an Ed25519 signature with `<sp_core::ed25519::Pair as sp_core::Pair>::verify`.
/// Trusted: the answer is the named predicate of the signature, message and
/// key bytes; the verification is deterministic, and nothing else is claimed.
#[verifier::external_body]
pub(crate) fn ed25519_verify(signature: &[u8; 64], message: &[u8], signer: &[u8; 32]) -> (valid: bool)
    ensures
        valid == ed25519_signature_valid(signature@, message@, signer@),
{
    <sp_core::ed25519::Pair as sp_core::Pair>::verify(
        &sp_core::ed25519::Signature::from_raw(*signature),
        message,
        &sp_core::ed25519::Public::from_raw(*signer),
    )
}

/// Checks an Sr25519 signature with `<sp_core::sr25519::Pair as sp_core::Pair>::verify`.
/// Trusted: the answer is the named predicate of the signature, message and
/// key bytes; the verification is deterministic (malformed keys or
/// signatures give `false`), and nothing else is claimed.
#[verifier::external_body]
pub(crate) fn sr25519_verify(signature: &[u8; 64], message: &[u8], signer: &[u8; 32]) -> (valid:
    bool)
    ensures
        valid == sr25519_signature_valid(signature@, message@, signer@),
{
    <sp_core::sr25519::Pair as sp_core::Pair>::verify(
        &sp_core::sr25519::Signature::from_raw(*signature),
        message,
        &sp_core::sr25519::Public::from_raw(*signer),
    )
}

/// Recovers the signer's compressed public key from an ECDSA signature of a
/// prehashed message with `sp_core::ecdsa::Signature::recover_prehashed`.
/// Trusted: the result is the named recovery of the signature and hash
/// bytes (deterministic; an invalid recovery byte or signature gives none),
/// and nothing else is claimed.
#[verifier::external_body]
pub(crate) fn ecdsa_recover_prehashed(signature: &[u8; 65], hash: &[u8; 32]) -> (key: Option<
    [u8; 33],
>)
    ensures
        match key {
            Some(k) => ecdsa_recovered_key(signature@, hash@) == Some(k@),
            None => ecdsa_recovered_key(signature@, hash@) is None,
        },
{
    sp_core::ecdsa::Signature::from_raw(*signature).recover_prehashed(hash).map(|p| p.0)
}

} // verus!
