# mashnet_runtime

Verified registries of a credential blockchain runtime, written in Verus.

- `ctype`: registered claim types.
- `delegation` and `hierarchy`: roots of delegation hierarchies, delegations
  below them (accepted by the delegate's signature over a BLAKE2b-256 hash), and revocation of whole sub-hierarchies.
- `attestation`: attestations of claims, directly or on the strength of a
  delegation, and their revocation.
- `did`: decentralised identifiers, one per account.
- `runtime`: the runtime's constants and version.
- `laws`: properties that span several operations, proved.
- `table`, `bytes`, `permissions`, `error`: storage maps, byte helpers,
  permission flags and refusal reasons.
- `signature`: signatures in several schemes and their verified check.
- `crypto`: the calls into `sp-core` (hashing, Ed25519 and Sr25519
  verification, ECDSA key recovery), the only trusted items.

Delegates accept delegations with a signature in any of the runtime's
schemes (`signature::MultiSignature`: Ed25519, Sr25519, ECDSA). Limits: the
registries emit no events; refusals carry no numeric codes; the runtime
version carries no list of runtime APIs.
