use vstd::prelude::*;

verus! {

/// A 256-bit hash, such as the hash of a claim or of a claim type.
pub type H256 = [u8; 32];

/// An account, identified by its 32-byte public key.
pub type AccountId = [u8; 32];

/// The identifier of a node of a delegation hierarchy (a root or a delegation).
pub type DelegationNodeId = [u8; 32];

/// Byte-wise equality of two 32-byte values.
pub fn bytes32_eq(a: &[u8; 32], b: &[u8; 32]) -> (equal: bool)
    ensures
        equal == (*a == *b),
{
    broadcast use vstd::array::group_array_axioms;
    let mut i: usize = 0;
    while i < 32
        invariant
            0 <= i <= 32,
            forall|j: int| 0 <= j < i ==> a[j] == b[j],
        decreases 32 - i,
    {
        if a[i] != b[i] {
            return false;
        }
        i = i + 1;
    }
    assert(*a =~= *b);
    true
}

/// Appends the 32 bytes of `b` to `out`.
pub fn append_bytes32(out: &mut Vec<u8>, b: &[u8; 32])
    ensures
        final(out)@ == old(out)@ + b@,
{
    broadcast use vstd::array::group_array_axioms;
    let ghost start = out@;
    let mut i: usize = 0;
    while i < 32
        invariant
            0 <= i <= 32,
            out@ == start + b@.take(i as int),
        decreases 32 - i,
    {
        out.push(b[i]);
        assert(b@.take(i + 1) =~= b@.take(i as int).push(b@[i as int]));
        i = i + 1;
    }
    assert(b@.take(32) =~= b@);
}

/// The encoding of a 32-byte hash for signing: its own 32 bytes, in order.
pub fn hash_to_u8(hash: &[u8; 32]) -> (bytes: Vec<u8>)
    ensures
        bytes@ == hash@,
{
    let mut bytes: Vec<u8> = Vec::new();
    append_bytes32(&mut bytes, hash);
    bytes
}

/// A copy of a list of 32-byte identifiers.
pub fn copy_ids(ids: &Vec<[u8; 32]>) -> (out: Vec<[u8; 32]>)
    ensures
        out@ == ids@,
{
    let mut out: Vec<[u8; 32]> = Vec::new();
    let mut i: usize = 0;
    while i < ids.len()
        invariant
            0 <= i <= ids@.len(),
            out@ == ids@.take(i as int),
        decreases ids@.len() - i,
    {
        out.push(ids[i]);
        assert(ids@.take(i + 1) =~= ids@.take(i as int).push(ids@[i as int]));
        i = i + 1;
    }
    assert(ids@.take(ids@.len() as int) =~= ids@);
    out
}

} // verus!
