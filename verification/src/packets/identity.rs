//! Public identities as they travel inside packets.
use vstd::prelude::*;
use bech32::ToBase32;

verus! {

/// The bech32 text of `data` under the human-readable part `hrp`.
pub uninterp spec fn spec_bech32(hrp: Seq<char>, data: Seq<u8>) -> Seq<char>;

/// Whether bech32 accepts `hrp` as a human-readable part: 1 to 83 visible
/// ASCII characters, not both lower and upper case.
pub open spec fn bech32_hrp_valid(hrp: Seq<char>) -> bool {
    &&& 1 <= hrp.len() <= 83
    &&& forall|i: int| 0 <= i < hrp.len() ==> 33 <= #[trigger] (hrp[i] as u32) <= 126
    &&& !((exists|i: int| 0 <= i < hrp.len() && 'a' <= #[trigger] hrp[i] <= 'z') && (exists|j: int|
        0 <= j < hrp.len() && 'A' <= #[trigger] hrp[j] <= 'Z'))
}

/// `bech32::encode(hrp, data.to_base32())`: the bech32 text of `data`, which
/// the contract names as a function of both arguments; there is one exactly
/// when bech32 accepts `hrp`.
#[verifier::external_body]
fn bech32_encode(hrp: &str, data: &[u8]) -> (r: Option<String>)
    ensures
        r is Some <==> bech32_hrp_valid(hrp@),
        r matches Some(s) ==> s@ == spec_bech32(hrp@, data@),
{
    bech32::encode(hrp, data.to_base32()).ok()
}

/// The human-readable part of the text of a public identity.
pub open spec fn identity_hrp() -> Seq<char> {
    seq!['i', 'd']
}

/// The text of a public identity: its sixty-four bytes in bech32 under `id`.
pub open spec fn spec_identity_text(p: PublicIdentity) -> Seq<char> {
    spec_bech32(identity_hrp(), p.0@)
}

/// A public identity: a 32-byte public key followed by a 32-byte chain code.
#[derive(Clone, Copy, Debug, Eq, PartialOrd, Ord, Hash)]
pub struct PublicIdentity(pub [u8; 64]);

impl PartialEq for PublicIdentity {
    fn eq(&self, other: &Self) -> (r: bool) {
        let mut i: usize = 0;
        while i < 64
            invariant
                i <= 64,
                forall|j: int| 0 <= j < i ==> self.0[j] == other.0[j],
            decreases 64 - i,
        {
            if self.0[i] != other.0[i] {
                return false;
            }
            i = i + 1;
        }
        assert(self.0 =~= other.0);
        true
    }
}

impl vstd::std_specs::cmp::PartialEqSpecImpl for PublicIdentity {
    open spec fn obeys_eq_spec() -> bool {
        true
    }

    open spec fn eq_spec(&self, other: &Self) -> bool {
        *self == *other
    }
}

impl PublicIdentity {
    /// The identity made of these sixty-four bytes.
    pub fn from(bytes: [u8; 64]) -> (r: Self)
        ensures
            r.0 == bytes,
    {
        PublicIdentity(bytes)
    }

    /// The text of this identity: its key and chain code in bech32 under
    /// the human-readable part `id`.
    pub fn to_string(&self) -> (r: String)
        ensures
            r@ == spec_identity_text(*self),
    {
        let hrp = "id";
        proof {
            reveal_strlit("id");
            assert(hrp@ =~= identity_hrp());
            assert('a' <= hrp@[0] <= 'z');
            assert(!(exists|j: int| 0 <= j < hrp@.len() && 'A' <= #[trigger] hrp@[j] <= 'Z'));
        }
        let text = bech32_encode(hrp, &self.0);
        text.unwrap()
    }

    /// The public key: the first 32 bytes.
    pub fn key(&self) -> (r: [u8; 32])
        ensures
            r@ == self.0@.subrange(0, 32),
    {
        let mut r = [0u8; 32];
        let mut i: usize = 0;
        while i < 32
            invariant
                i <= 32,
                forall|j: int| 0 <= j < i ==> r@[j] == self.0@[j],
            decreases 32 - i,
        {
            r[i] = self.0[i];
            i = i + 1;
        }
        assert(r@ =~= self.0@.subrange(0, 32));
        r
    }

    /// The chain code: the last 32 bytes.
    pub fn chain_code(&self) -> (r: [u8; 32])
        ensures
            r@ == self.0@.subrange(32, 64),
    {
        let mut r = [0u8; 32];
        let mut i: usize = 0;
        while i < 32
            invariant
                i <= 32,
                forall|j: int| 0 <= j < i ==> r@[j] == self.0@[32 + j],
            decreases 32 - i,
        {
            r[i] = self.0[32 + i];
            i = i + 1;
        }
        assert(r@ =~= self.0@.subrange(32, 64));
        r
    }
}

/// The identity of a requester, when the request names one.
#[derive(Clone, Copy, Debug, PartialEq, Eq, PartialOrd, Ord, Hash)]
pub enum PublicIdentityInterface {
    Present { public_identity: PublicIdentity },
    Absent,
}

impl PublicIdentityInterface {
    /// The interface that names `public_identity`, or none.
    pub fn new(public_identity: Option<PublicIdentity>) -> (r: Self)
        ensures
            r == match public_identity {
                Some(p) => PublicIdentityInterface::Present { public_identity: p },
                None => PublicIdentityInterface::Absent,
            },
    {
        match public_identity {
            Some(p) => PublicIdentityInterface::Present { public_identity: p },
            None => PublicIdentityInterface::Absent,
        }
    }

    /// Whether both interfaces name the same identity, or both name none.
    pub fn same_as(&self, other: &Self) -> (r: bool)
        ensures
            r == (*self == *other),
    {
        match (self, other) {
            (
                PublicIdentityInterface::Present { public_identity: a },
                PublicIdentityInterface::Present { public_identity: b },
            ) => a == b,
            (PublicIdentityInterface::Absent, PublicIdentityInterface::Absent) => true,
            _ => false,
        }
    }
}

} // verus!
