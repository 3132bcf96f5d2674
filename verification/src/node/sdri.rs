//! Sparse distributed representations of names: `id`, `id::name` or
//! `id::name::seq`, each part hashed into a bloom filter index.
use vstd::prelude::*;
use vstd::string::StringExecFns;
use vstd::string::StringSliceAdditionalSpecFns;
use vstd::utf8::encode_utf8;
use crate::node::hbfi::{bloom_filter_index, spec_bloom_filter_index, BFI};
use crate::text::{parse_unsigned, spec_parse_unsigned, spec_splitn3, splitn3};

verus! {

/// A name: the index of its identity part, of its identity and name parts
/// joined, and its sequence number.
#[derive(Clone, Copy, Debug, PartialEq, Eq)]
pub struct Sdri {
    pub id: BFI,
    pub name: Option<BFI>,
    pub seq: Option<u64>,
}

/// The index of the text `t`.
pub open spec fn text_bfi(t: Seq<char>) -> Seq<u16> {
    spec_bloom_filter_index(encode_utf8(t))
}

/// Whether `Sdri::new` can read `s`: a third part, when there is one, is a
/// number.
pub open spec fn sdri_readable(s: Seq<char>) -> bool {
    spec_splitn3(s).len() == 3 ==> spec_parse_unsigned(spec_splitn3(s)[2], u64::MAX) is Some
}

impl Sdri {
    /// The name written `id`, `id::name` or `id::name::seq`.
    pub fn new(s: String) -> (r: Result<Sdri, ()>)
        requires
            sdri_readable(s@),
        ensures
            r matches Ok(sdri) && {
                let parts = spec_splitn3(s@);
                &&& sdri.id@ == text_bfi(parts[0])
                &&& parts.len() >= 2 ==> (sdri.name matches Some(n) && n@ == text_bfi(parts[0] + parts[1]))
                &&& parts.len() < 2 ==> sdri.name is None
                &&& parts.len() == 3 ==> sdri.seq == Some(
                    spec_parse_unsigned(parts[2], u64::MAX).unwrap(),
                )
                &&& parts.len() < 3 ==> sdri.seq is None
            },
    {
        let sections = splitn3(s.as_str());
        let id = bloom_filter_index(sections[0])?;
        if sections.len() == 1 {
            return Ok(Sdri { id, name: None, seq: None });
        }
        let mut joined = String::from_str(sections[0]);
        joined.append(sections[1]);
        let name = bloom_filter_index(joined.as_str())?;
        if sections.len() == 2 {
            return Ok(Sdri { id, name: Some(name), seq: None });
        }
        let seq = parse_unsigned(sections[2], 0xffff_ffff_ffff_ffffu64).unwrap();
        Ok(Sdri { id, name: Some(name), seq: Some(seq) })
    }
}

} // verus!
