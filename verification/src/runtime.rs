use vstd::prelude::*;

verus! {

/// Milliseconds that a block takes.
pub const MILLISECS_PER_BLOCK: u64 = 5000;

/// The duration of a block-authoring slot, in milliseconds.
pub const SLOT_DURATION: u64 = MILLISECS_PER_BLOCK;

/// The least time between two timestamps, in milliseconds: half a slot.
pub const MINIMUM_PERIOD: u64 = SLOT_DURATION / 2;

/// How many block hashes are kept.
pub const BLOCK_HASH_COUNT: u64 = 250;

/// The greatest weight of a block.
pub const MAXIMUM_BLOCK_WEIGHT: u64 = 1_000_000_000;

/// The greatest length of a block, in bytes.
pub const MAXIMUM_BLOCK_LENGTH: u32 = 5 * 1024 * 1024;

/// The share of a block, in percent, that normal transactions may fill.
pub const AVAILABLE_BLOCK_RATIO_PERCENT: u32 = 75;

/// The least balance that keeps an account alive.
pub const EXISTENTIAL_DEPOSIT: u128 = 1_000_000;

/// The fee that every transaction pays.
pub const TRANSACTION_BASE_FEE: u128 = 1_000_000;

/// The fee per byte of a transaction.
pub const TRANSACTION_BYTE_FEE: u128 = 0;

/// The version of the runtime: the names of its specification and of its
/// implementation, and their version numbers. The list of runtime APIs with
/// their versions is not part of this type: it is generated by the runtime
/// framework's API macro, which this crate does not use.
#[derive(Debug, PartialEq, Eq)]
pub struct RuntimeVersion {
    pub spec_name: String,
    pub impl_name: String,
    pub authoring_version: u32,
    pub spec_version: u32,
    pub impl_version: u32,
}

/// The version of the runtime compiled natively, and the authoring versions
/// besides its own that it can author blocks with.
#[derive(Debug, PartialEq, Eq)]
pub struct NativeVersion {
    pub runtime_version: RuntimeVersion,
    pub can_author_with: Vec<u32>,
}

impl NativeVersion {
    /// Whether a runtime of this native version may author blocks for a
    /// chain running `other`: the specification names agree, and the
    /// authoring versions agree or `other`'s is one of those listed.
    pub open spec fn authoring_compatible(&self, other: &RuntimeVersion) -> bool {
        &&& self.runtime_version.spec_name@ == other.spec_name@
        &&& (self.runtime_version.authoring_version == other.authoring_version
            || self.can_author_with@.contains(other.authoring_version))
    }

    /// Whether a runtime of this native version may author blocks for a
    /// chain running `other`.
    pub fn can_author_with(&self, other: &RuntimeVersion) -> (r: bool)
        ensures
            r == self.authoring_compatible(other),
    {
        if self.runtime_version.spec_name != other.spec_name {
            return false;
        }
        if self.runtime_version.authoring_version == other.authoring_version {
            return true;
        }
        let mut i: usize = 0;
        while i < self.can_author_with.len()
            invariant
                self.runtime_version.spec_name@ == other.spec_name@,
                0 <= i <= self.can_author_with@.len(),
                forall|j: int| 0 <= j < i ==> self.can_author_with@[j] != other.authoring_version,
            decreases self.can_author_with@.len() - i,
        {
            if self.can_author_with[i] == other.authoring_version {
                assert(self.can_author_with@[i as int] == other.authoring_version);
                return true;
            }
            i = i + 1;
        }
        false
    }
}

/// This runtime's version.
pub fn version() -> (v: RuntimeVersion)
    ensures
        v.spec_name@ == "mashnet-node"@,
        v.impl_name@ == "mashnet-node"@,
        v.authoring_version == 4,
        v.spec_version == 4,
        v.impl_version == 5,
{
    RuntimeVersion {
        spec_name: "mashnet-node".to_owned(),
        impl_name: "mashnet-node".to_owned(),
        authoring_version: 4,
        spec_version: 4,
        impl_version: 5,
    }
}

/// The version information of this runtime when compiled natively: its
/// version, and no further authoring versions. The list of runtime APIs is
/// not included (see [`RuntimeVersion`]).
pub fn native_version() -> (v: NativeVersion)
    ensures
        v.runtime_version.spec_name@ == "mashnet-node"@,
        v.runtime_version.impl_name@ == "mashnet-node"@,
        v.runtime_version.authoring_version == 4,
        v.runtime_version.spec_version == 4,
        v.runtime_version.impl_version == 5,
        v.can_author_with@ == Seq::<u32>::empty(),
{
    NativeVersion { runtime_version: version(), can_author_with: Vec::new() }
}

} // verus!
