use vstd::prelude::*;

verus! {

/// The flag that lets a delegate attest claims.
pub const ATTEST_BITS: u32 = 1;

/// The flag that lets a delegate delegate further.
pub const DELEGATE_BITS: u32 = 2;

/// The four bytes of `x`, least significant first.
pub open spec fn le_bytes_u32(x: u32) -> Seq<u8> {
    seq![
        (x % 0x100) as u8,
        ((x / 0x100) % 0x100) as u8,
        ((x / 0x10000) % 0x100) as u8,
        (x / 0x1000000) as u8,
    ]
}

/// Whether the flag set `bits` holds every flag of `flags`.
pub open spec fn holds_flags(bits: u32, flags: u32) -> bool {
    bits & flags == flags
}

/// The set of rights that a delegation grants, as bit flags.
#[derive(Clone, Copy, Debug, PartialEq, Eq)]
pub struct Permissions {
    bits: u32,
}

impl View for Permissions {
    type V = u32;

    closed spec fn view(&self) -> u32 {
        self.bits
    }
}

impl Permissions {
    /// The right to attest.
    pub fn attest() -> (p: Self)
        ensures
            p@ == ATTEST_BITS,
    {
        Permissions { bits: ATTEST_BITS }
    }

    /// The right to delegate.
    pub fn delegate() -> (p: Self)
        ensures
            p@ == DELEGATE_BITS,
    {
        Permissions { bits: DELEGATE_BITS }
    }

    /// The flags of `bits`, when every set bit is a known flag.
    pub fn from_bits(bits: u32) -> (p: Option<Self>)
        ensures
            p is Some <==> bits & !(ATTEST_BITS | DELEGATE_BITS) == 0,
            p matches Some(q) ==> q@ == bits,
    {
        if bits & !(ATTEST_BITS | DELEGATE_BITS) == 0 {
            Some(Permissions { bits })
        } else {
            None
        }
    }

    /// The raw flag bits.
    pub fn bits(self) -> (b: u32)
        ensures
            b == self@,
    {
        self.bits
    }

    /// The flags of both sets.
    pub fn union(self, other: Self) -> (p: Self)
        ensures
            p@ == self@ | other@,
    {
        Permissions { bits: self.bits | other.bits }
    }

    /// Whether every flag of `other` is set here.
    pub fn contains(self, other: Self) -> (r: bool)
        ensures
            r == holds_flags(self@, other@),
    {
        self.bits & other.bits == other.bits
    }

    /// The flag bits as four bytes, least significant first.
    pub fn as_u8(self) -> (bytes: [u8; 4])
        ensures
            bytes@ == le_bytes_u32(self@),
    {
        let x: u32 = self.bits;
        let b1: u8 = ((x >> 24) & 0xff) as u8;
        let b2: u8 = ((x >> 16) & 0xff) as u8;
        let b3: u8 = ((x >> 8) & 0xff) as u8;
        let b4: u8 = (x & 0xff) as u8;
        assert(b4 == (x % 0x100) as u8) by (bit_vector)
            requires
                b4 == (x & 0xff) as u8,
        ;
        assert(b3 == ((x / 0x100) % 0x100) as u8) by (bit_vector)
            requires
                b3 == ((x >> 8) & 0xff) as u8,
        ;
        assert(b2 == ((x / 0x10000) % 0x100) as u8) by (bit_vector)
            requires
                b2 == ((x >> 16) & 0xff) as u8,
        ;
        assert(b1 == (x / 0x1000000) as u8) by (bit_vector)
            requires
                b1 == ((x >> 24) & 0xff) as u8,
        ;
        let bytes = [b4, b3, b2, b1];
        assert(bytes@ =~= le_bytes_u32(x));
        bytes
    }
}

} // verus!
