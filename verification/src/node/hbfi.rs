//! Names of content as the routing node sees them: a bloom filter index of
//! the name, one of the publisher, and an offset.
use vstd::prelude::*;
use vstd::string::StringSliceAdditionalSpecFns;
use crate::hashing::{
    decimal_string, decimal_text, hex_string, hex_text, index_of_text, sha3_512, spec_sha3_512,
    text_index,
};

verus! {

/// Number of positions in one bloom filter index of the routing node.
pub const BLOOM_FILTER_INDEX_ELEMENT_LENGTH: usize = 8;

/// A bloom filter index: the positions in a bloom filter that a name sets.
pub type BFI = [u16; 8];

/// A hierarchical bloom filter index: the name (`h1`), the publisher (`id`)
/// and the offset of a piece of content.
#[derive(Clone, Copy, Debug, PartialEq, Eq, Hash)]
pub struct HBFI {
    pub h1: BFI,
    pub id: BFI,
    pub os: u64,
}

/// The `n`-th position that the name with bytes `name` sets: the text of the
/// digest of the name's digest text followed by `n` in decimal.
pub open spec fn spec_sha3_position(name: Seq<u8>, n: nat) -> u16 {
    let digest_text = hex_text(spec_sha3_512(name), true);
    let derived = spec_sha3_512(digest_text + decimal_text(n));
    text_index(hex_text(derived, true)) as u16
}

/// The bloom filter index of the name with bytes `name`.
pub open spec fn spec_bloom_filter_index(name: Seq<u8>) -> Seq<u16> {
    Seq::new(8, |n: int| spec_sha3_position(name, n as nat))
}

/// The bloom filter index of the name `s`.
pub fn bloom_filter_index(s: &str) -> (r: Result<BFI, ()>)
    ensures
        r matches Ok(b) && b@ == spec_bloom_filter_index(s.spec_bytes()),
{
    let name = s.as_bytes();
    let hash = sha3_512(name);
    let digest_text = hex_string(hash.as_slice(), true);
    let mut out = [0u16; 8];
    let mut n: u64 = 0;
    while n < 8
        invariant
            n <= 8,
            name@ == s.spec_bytes(),
            digest_text@ == hex_text(spec_sha3_512(name@), true),
            forall|j: int| 0 <= j < n ==> out[j] == spec_sha3_position(name@, j as nat),
        decreases 8 - n,
    {
        let mut text = digest_text.clone();
        let dec = decimal_string(n);
        text.append(&mut dec.clone());
        let derived = sha3_512(text.as_slice());
        let derived_text = hex_string(derived.as_slice(), true);
        out[n as usize] = index_of_text(derived_text.as_slice());
        n = n + 1;
    }
    assert(out@ =~= spec_bloom_filter_index(s.spec_bytes()));
    Ok(out)
}

impl HBFI {
    /// The name `h1` published by `id`, at offset zero.
    pub fn new(h1: &str, id: &str) -> (r: Result<HBFI, ()>)
        ensures
            r matches Ok(h) && h.h1@ == spec_bloom_filter_index(h1.spec_bytes()) && h.id@
                == spec_bloom_filter_index(id.spec_bytes()) && h.os == 0,
    {
        let h1 = bloom_filter_index(h1)?;
        let id = bloom_filter_index(id)?;
        Ok(HBFI { h1, id, os: 0 })
    }

    /// This name at offset `os`.
    pub fn offset(self, os: u64) -> (r: Self)
        ensures
            r == (HBFI { os, ..self }),
    {
        let mut s = self;
        s.os = os;
        s
    }
}

} // verus!
