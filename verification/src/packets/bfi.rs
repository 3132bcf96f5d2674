//! Bloom filter indices and their byte form.
use vstd::prelude::*;
use crate::common::{spec_u16_from_be, u16_to_u8, u8_to_u16};

verus! {

/// A bloom filter index: the positions in a bloom filter that a name sets.
#[derive(Clone, Copy, Debug, Eq, PartialOrd, Ord, Hash)]
pub struct BFI(pub [u16; 4]);

impl PartialEq for BFI {
    fn eq(&self, other: &Self) -> (r: bool) {
        let r = self.0[0] == other.0[0] && self.0[1] == other.0[1] && self.0[2] == other.0[2]
            && self.0[3] == other.0[3];
        proof {
            if r {
                assert(self.0 =~= other.0);
            }
        }
        r
    }
}

impl vstd::std_specs::cmp::PartialEqSpecImpl for BFI {
    open spec fn obeys_eq_spec() -> bool {
        true
    }

    open spec fn eq_spec(&self, other: &Self) -> bool {
        *self == *other
    }
}

/// The bytes of a `BFI`: each index as two big-endian bytes, in order.
pub open spec fn spec_bfi_bytes(b: BFI) -> Seq<u8> {
    Seq::new(8, |i: int| if i % 2 == 0 { (b.0[i / 2] / 256) as u8 } else { (b.0[i / 2] % 256) as u8 })
}

/// The `BFI` read from eight bytes: index `k` is made of bytes `2k` and `2k+1`.
pub open spec fn spec_bfi_from_bytes(s: Seq<u8>) -> BFI {
    BFI([
        spec_u16_from_be(s[0], s[1]),
        spec_u16_from_be(s[2], s[3]),
        spec_u16_from_be(s[4], s[5]),
        spec_u16_from_be(s[6], s[7]),
    ])
}

impl BFI {
    /// The all-zero index.
    pub fn new() -> (r: Self)
        ensures
            r == BFI([0u16, 0u16, 0u16, 0u16]),
    {
        BFI([0u16, 0u16, 0u16, 0u16])
    }

    /// The eight bytes of this index.
    pub fn to_bytes(&self) -> (r: [u8; 8])
        ensures
            r@ == spec_bfi_bytes(*self),
    {
        let a = u16_to_u8(self.0[0]);
        let b = u16_to_u8(self.0[1]);
        let c = u16_to_u8(self.0[2]);
        let d = u16_to_u8(self.0[3]);
        let r = [a[0], a[1], b[0], b[1], c[0], c[1], d[0], d[1]];
        assert(r@ =~= spec_bfi_bytes(*self));
        r
    }

    /// The index held in eight bytes.
    pub fn from_bytes(bbfi: [u8; 8]) -> (r: Self)
        ensures
            r == spec_bfi_from_bytes(bbfi@),
    {
        BFI([
            u8_to_u16([bbfi[0], bbfi[1]]),
            u8_to_u16([bbfi[2], bbfi[3]]),
            u8_to_u16([bbfi[4], bbfi[5]]),
            u8_to_u16([bbfi[6], bbfi[7]]),
        ])
    }
}

/// Reading the bytes of an index gives the index back.
pub proof fn lemma_bfi_roundtrip(b: BFI)
    ensures
        spec_bfi_from_bytes(spec_bfi_bytes(b)) == b,
{
    let s = spec_bfi_bytes(b);
    assert(spec_bfi_from_bytes(s).0 =~= b.0);
}

/// Writing the index read from eight bytes gives those bytes back.
pub proof fn lemma_bfi_bytes_roundtrip(s: Seq<u8>)
    requires
        s.len() == 8,
    ensures
        spec_bfi_bytes(spec_bfi_from_bytes(s)) == s,
{
    assert(spec_bfi_bytes(spec_bfi_from_bytes(s)) =~= s);
}

} // verus!
