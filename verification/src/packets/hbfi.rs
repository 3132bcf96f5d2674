//! Hierarchical bloom filter indices: the names of content in the network.
use vstd::prelude::*;
use vstd::string::StringSliceAdditionalSpecFns;
use crate::common::{
    append_bytes, lemma_u64_be_roundtrip, lemma_u64_be_roundtrip_bytes, read_array64, read_array8,
    spec_u64_to_be, u64_to_u8, u8_to_u64, CLEARTEXT_HBFI_SIZE, CYPHERTEXT_HBFI_SIZE,
};
use crate::packets::bfi::{
    lemma_bfi_bytes_roundtrip, lemma_bfi_roundtrip, spec_bfi_bytes, BFI,
};
use crate::hashing::{
    blake2b_256, decimal_string, decimal_text, hex_string, hex_text, index_of_text, spec_blake2b_256,
    text_index,
};
use crate::packets::error::PacketError;
use crate::packets::identity::{spec_identity_text, PublicIdentity, PublicIdentityInterface};
use vstd::utf8::encode_utf8;

verus! {

/// The `n`-th position that the name with bytes `name` sets: the text of the
/// derived digest of the name's digest text followed by `n` in decimal.
pub open spec fn spec_bfi_position(name: Seq<u8>, n: nat) -> u16 {
    let digest_text = hex_text(spec_blake2b_256(name), false);
    let derived = spec_blake2b_256(digest_text + decimal_text(n));
    text_index(hex_text(derived, false)) as u16
}

/// The bloom filter index of the name with bytes `name`.
pub open spec fn spec_bloom_filter_index(name: Seq<u8>) -> BFI {
    BFI(
        [
            spec_bfi_position(name, 0),
            spec_bfi_position(name, 1),
            spec_bfi_position(name, 2),
            spec_bfi_position(name, 3),
        ],
    )
}

/// The bloom filter index of the name `s`.
pub fn bloom_filter_index(s: &str) -> (r: Result<BFI, PacketError>)
    ensures
        r == Ok::<BFI, PacketError>(spec_bloom_filter_index(s.spec_bytes())),
{
    let name = s.as_bytes();
    let hash_orig = blake2b_256(name);
    let digest_text = hex_string(hash_orig.as_slice(), false);
    let mut out = [0u16; 4];
    let mut n: u64 = 0;
    while n < 4
        invariant
            n <= 4,
            name@ == s.spec_bytes(),
            digest_text@ == hex_text(spec_blake2b_256(name@), false),
            forall|j: int| 0 <= j < n ==> out[j] == spec_bfi_position(name@, j as nat),
        decreases 4 - n,
    {
        let mut text = digest_text.clone();
        let dec = decimal_string(n);
        text.append(&mut dec.clone());
        let derived = blake2b_256(text.as_slice());
        let derived_text = hex_string(derived.as_slice(), false);
        let index = index_of_text(derived_text.as_slice());
        out[n as usize] = index;
        n = n + 1;
    }
    let r = BFI(out);
    assert(r.0 =~= spec_bloom_filter_index(s.spec_bytes()).0);
    Ok(r)
}

/// The bloom filter index of the name `text`.
pub open spec fn spec_text_index(text: Seq<char>) -> BFI {
    spec_bloom_filter_index(encode_utf8(text))
}

/// The index of a requester: that of its identity's text, or all zeros when
/// the request names no requester.
pub open spec fn spec_interface_index(i: PublicIdentityInterface) -> BFI {
    match i {
        PublicIdentityInterface::Present { public_identity } => spec_text_index(
            spec_identity_text(public_identity),
        ),
        PublicIdentityInterface::Absent => BFI([0u16, 0u16, 0u16, 0u16]),
    }
}

impl PublicIdentityInterface {
    /// The bloom filter index of the requester: that of the identity's text,
    /// or all zeros when there is no requester.
    pub fn bloom_filter_index(&self) -> (r: Result<BFI, PacketError>)
        ensures
            r == Ok::<BFI, PacketError>(spec_interface_index(*self)),
    {
        match self {
            PublicIdentityInterface::Present { public_identity } => {
                let text = public_identity.to_string();
                let name = text.as_str();
                assert(name.spec_bytes() == encode_utf8(spec_identity_text(*public_identity)));
                bloom_filter_index(name)
            },
            PublicIdentityInterface::Absent => Ok(BFI::new()),
        }
    }
}

/// The six bloom filter indices of an HBFI, in the order `req, res, app, m0d, fun, arg`.
#[derive(Clone, Copy, Debug, Eq, PartialOrd, Ord, Hash)]
pub struct BFIS(pub [BFI; 6]);

impl PartialEq for BFIS {
    fn eq(&self, other: &Self) -> (r: bool) {
        let r = self.0[0] == other.0[0] && self.0[1] == other.0[1] && self.0[2] == other.0[2]
            && self.0[3] == other.0[3] && self.0[4] == other.0[4] && self.0[5] == other.0[5];
        proof {
            if r {
                assert(self.0 =~= other.0);
            }
        }
        r
    }
}

impl vstd::std_specs::cmp::PartialEqSpecImpl for BFIS {
    open spec fn obeys_eq_spec() -> bool {
        true
    }

    open spec fn eq_spec(&self, other: &Self) -> bool {
        *self == *other
    }
}

impl BFIS {
    /// The group of these six indices.
    pub fn new(bfis: [BFI; 6]) -> (r: Self)
        ensures
            r.0 == bfis,
    {
        BFIS(bfis)
    }
}

/// A hierarchical bloom filter index: who answers (`res`), who asks (`req`),
/// the application, module, function and argument, and the frame number.
#[derive(Clone, Copy, Debug, PartialEq, Eq, PartialOrd, Ord, Hash)]
pub struct HBFI {
    pub request_pid: PublicIdentityInterface,
    pub response_pid: PublicIdentity,
    pub req: BFI,
    pub res: BFI,
    pub app: BFI,
    pub m0d: BFI,
    pub fun: BFI,
    pub arg: BFI,
    pub frm: u64,
}

/// The bytes of an HBFI: `res, req, app, m0d, fun, arg`, the frame number
/// big-endian, the response identity, then the request identity if there is one.
pub open spec fn spec_hbfi_bytes(h: HBFI) -> Seq<u8> {
    spec_bfi_bytes(h.res) + spec_bfi_bytes(h.req) + spec_bfi_bytes(h.app) + spec_bfi_bytes(h.m0d)
        + spec_bfi_bytes(h.fun) + spec_bfi_bytes(h.arg) + spec_u64_to_be(h.frm) + h.response_pid.0@
        + match h.request_pid {
        PublicIdentityInterface::Present { public_identity } => public_identity.0@,
        PublicIdentityInterface::Absent => Seq::<u8>::empty(),
    }
}

/// Whether `n` is the length of one of the two byte forms of an HBFI.
pub open spec fn is_hbfi_length(n: nat) -> bool {
    n == 120 || n == 184
}

impl HBFI {
    /// The HBFI of the function `fun` of module `m0d` of application `app`,
    /// with argument `arg`, answered by `response_pid` and asked for by
    /// `request_pid`, at frame 0.
    pub fn new(
        request_pid: PublicIdentityInterface,
        response_pid: PublicIdentity,
        app: &str,
        m0d: &str,
        fun: &str,
        arg: &str,
    ) -> (r: Result<HBFI, PacketError>)
        ensures
            r == Ok::<HBFI, PacketError>(
                HBFI {
                    request_pid,
                    response_pid,
                    req: spec_interface_index(request_pid),
                    res: spec_text_index(spec_identity_text(response_pid)),
                    app: spec_bloom_filter_index(app.spec_bytes()),
                    m0d: spec_bloom_filter_index(m0d.spec_bytes()),
                    fun: spec_bloom_filter_index(fun.spec_bytes()),
                    arg: spec_bloom_filter_index(arg.spec_bytes()),
                    frm: 0,
                },
            ),
    {
        let req = request_pid.bloom_filter_index()?;
        let res_text = response_pid.to_string();
        let res = bloom_filter_index(res_text.as_str())?;
        let app_i = bloom_filter_index(app)?;
        let m0d_i = bloom_filter_index(m0d)?;
        let fun_i = bloom_filter_index(fun)?;
        let arg_i = bloom_filter_index(arg)?;
        Ok(HBFI {
            request_pid,
            response_pid,
            req,
            res,
            app: app_i,
            m0d: m0d_i,
            fun: fun_i,
            arg: arg_i,
            frm: 0,
        })
    }

    /// This HBFI asked for by `request_pid` instead.
    pub fn encrypt_for(&self, request_pid: PublicIdentityInterface) -> (r: Result<Self, PacketError>)
        ensures
            r == Ok::<HBFI, PacketError>(
                HBFI { request_pid, req: spec_interface_index(request_pid), ..*self },
            ),
    {
        let req = request_pid.bloom_filter_index()?;
        Ok(HBFI { request_pid, req, ..*self })
    }

    /// This HBFI with no requester: the form in which a response is stored
    /// before it is encrypted for whoever asks.
    pub fn cleartext_repr(&self) -> (r: Result<Self, PacketError>)
        ensures
            r == Ok::<HBFI, PacketError>(
                HBFI {
                    request_pid: PublicIdentityInterface::Absent,
                    req: spec_interface_index(PublicIdentityInterface::Absent),
                    ..*self
                },
            ),
    {
        let absent = PublicIdentityInterface::Absent;
        let req = absent.bloom_filter_index()?;
        Ok(HBFI { request_pid: absent, req, ..*self })
    }

    /// Whether both HBFIs are the same in every field.
    pub fn same_as(&self, other: &Self) -> (r: bool)
        ensures
            r == (*self == *other),
    {
        self.request_pid.same_as(&other.request_pid) && self.same_except_frame_and_requester(other)
            && self.frm == other.frm
    }

    /// Whether both HBFIs agree in every field but the requester and the frame.
    fn same_except_frame_and_requester(&self, other: &Self) -> (r: bool)
        ensures
            r == (self.response_pid == other.response_pid && self.req == other.req && self.res
                == other.res && self.app == other.app && self.m0d == other.m0d && self.fun == other.fun
                && self.arg == other.arg),
    {
        self.response_pid == other.response_pid && self.req == other.req && self.res == other.res
            && self.app == other.app && self.m0d == other.m0d && self.fun == other.fun && self.arg
            == other.arg
    }

    /// Whether both HBFIs agree in every field but the frame.
    pub fn same_except_frame(&self, other: &Self) -> (r: bool)
        ensures
            r == (HBFI { frm: 0, ..*self } == HBFI { frm: 0, ..*other }),
    {
        self.request_pid.same_as(&other.request_pid) && self.same_except_frame_and_requester(other)
    }

    /// Whether both HBFIs name the same requester and responder.
    pub fn same_keys(&self, other: &Self) -> (r: bool)
        ensures
            r == (self.request_pid == other.request_pid && self.response_pid == other.response_pid),
    {
        self.request_pid.same_as(&other.request_pid) && self.response_pid == other.response_pid
    }

    /// The six indices of this HBFI, in the order `req, res, app, m0d, fun, arg`.
    pub fn to_bfis(&self) -> (r: BFIS)
        ensures
            r.0@ == seq![self.req, self.res, self.app, self.m0d, self.fun, self.arg],
    {
        let r = BFIS::new([self.req, self.res, self.app, self.m0d, self.fun, self.arg]);
        assert(r.0@ =~= seq![self.req, self.res, self.app, self.m0d, self.fun, self.arg]);
        r
    }

    /// This HBFI at frame `frm`.
    pub fn offset(self, frm: u64) -> (r: Self)
        ensures
            r == (HBFI { frm, ..self }),
    {
        let mut s = self;
        s.frm = frm;
        s
    }

    /// The bytes of this HBFI.
    pub fn as_bytes(&self) -> (r: Vec<u8>)
        ensures
            r@ == spec_hbfi_bytes(*self),
    {
        let mut buf: Vec<u8> = Vec::new();
        let res = self.res.to_bytes();
        let req = self.req.to_bytes();
        let app = self.app.to_bytes();
        let m0d = self.m0d.to_bytes();
        let fun = self.fun.to_bytes();
        let arg = self.arg.to_bytes();
        let frm = u64_to_u8(self.frm);
        let mut ids_buf: Vec<u8> = Vec::new();
        match &self.request_pid {
            PublicIdentityInterface::Present { public_identity } => {
                append_bytes(&mut ids_buf, &self.response_pid.0);
                append_bytes(&mut ids_buf, &public_identity.0);
            },
            PublicIdentityInterface::Absent => {
                append_bytes(&mut ids_buf, &self.response_pid.0);
            },
        }
        append_bytes(&mut buf, &res);
        append_bytes(&mut buf, &req);
        append_bytes(&mut buf, &app);
        append_bytes(&mut buf, &m0d);
        append_bytes(&mut buf, &fun);
        append_bytes(&mut buf, &arg);
        append_bytes(&mut buf, &frm);
        append_bytes(&mut buf, ids_buf.as_slice());
        assert(buf@ =~= spec_hbfi_bytes(*self));
        buf
    }

    /// The HBFI held in `data`; an error when the length is neither form's.
    pub fn from_bytes(data: &[u8]) -> (r: Result<Self, PacketError>)
        ensures
            is_hbfi_length(data@.len()) ==> (r matches Ok(h) && spec_hbfi_bytes(h) == data@),
            !is_hbfi_length(data@.len()) ==> r == Err::<HBFI, PacketError>(
                PacketError::UnrecognisedHbfiLength,
            ),
    {
        let len = data.len();
        if len != CYPHERTEXT_HBFI_SIZE && len != CLEARTEXT_HBFI_SIZE {
            return Err(PacketError::UnrecognisedHbfiLength);
        }
        let res = BFI::from_bytes(read_array8(data, 0));
        let req = BFI::from_bytes(read_array8(data, 8));
        let app = BFI::from_bytes(read_array8(data, 16));
        let m0d = BFI::from_bytes(read_array8(data, 24));
        let fun = BFI::from_bytes(read_array8(data, 32));
        let arg = BFI::from_bytes(read_array8(data, 40));
        let frm = u8_to_u64(read_array8(data, 48));
        let res_key = read_array64(data, 56);
        let response_pid = PublicIdentity::from(res_key);
        proof {
            lemma_bfi_bytes_roundtrip(data@.subrange(0, 8));
            lemma_bfi_bytes_roundtrip(data@.subrange(8, 16));
            lemma_bfi_bytes_roundtrip(data@.subrange(16, 24));
            lemma_bfi_bytes_roundtrip(data@.subrange(24, 32));
            lemma_bfi_bytes_roundtrip(data@.subrange(32, 40));
            lemma_bfi_bytes_roundtrip(data@.subrange(40, 48));
            lemma_u64_be_roundtrip_bytes(data@.subrange(48, 56));
        }
        let request_pid = if len == CYPHERTEXT_HBFI_SIZE {
            let req_key = read_array64(data, 120);
            PublicIdentityInterface::new(Some(PublicIdentity::from(req_key)))
        } else {
            PublicIdentityInterface::Absent
        };
        let h = HBFI { response_pid, request_pid, res, req, app, m0d, fun, arg, frm };
        assert(spec_hbfi_bytes(h) =~= data@);
        Ok(h)
    }
}

/// The bytes of an HBFI have the length of one of the two forms: the longer
/// exactly when the HBFI names a requester.
pub proof fn lemma_hbfi_bytes_length(h: HBFI)
    ensures
        spec_hbfi_bytes(h).len() == (if h.request_pid is Present { 184int } else { 120int }),
        is_hbfi_length(spec_hbfi_bytes(h).len()),
{
}

/// Two HBFIs with the same bytes are the same HBFI: reading back what was
/// written gives the HBFI that was written.
#[verifier::spinoff_prover]
#[verifier::rlimit(40)]
pub proof fn lemma_hbfi_bytes_injective(h1: HBFI, h2: HBFI)
    requires
        spec_hbfi_bytes(h1) == spec_hbfi_bytes(h2),
    ensures
        h1 == h2,
{
    let s = spec_hbfi_bytes(h1);
    let t = spec_hbfi_bytes(h2);
    lemma_bfi_roundtrip(h1.res);
    lemma_bfi_roundtrip(h1.req);
    lemma_bfi_roundtrip(h1.app);
    lemma_bfi_roundtrip(h1.m0d);
    lemma_bfi_roundtrip(h1.fun);
    lemma_bfi_roundtrip(h1.arg);
    lemma_u64_be_roundtrip(h1.frm);
    lemma_bfi_roundtrip(h2.res);
    lemma_bfi_roundtrip(h2.req);
    lemma_bfi_roundtrip(h2.app);
    lemma_bfi_roundtrip(h2.m0d);
    lemma_bfi_roundtrip(h2.fun);
    lemma_bfi_roundtrip(h2.arg);
    lemma_u64_be_roundtrip(h2.frm);
    assert(s.subrange(0, 8) =~= spec_bfi_bytes(h1.res));
    assert(t.subrange(0, 8) =~= spec_bfi_bytes(h2.res));
    assert(s.subrange(8, 16) =~= spec_bfi_bytes(h1.req));
    assert(t.subrange(8, 16) =~= spec_bfi_bytes(h2.req));
    assert(s.subrange(16, 24) =~= spec_bfi_bytes(h1.app));
    assert(t.subrange(16, 24) =~= spec_bfi_bytes(h2.app));
    assert(s.subrange(24, 32) =~= spec_bfi_bytes(h1.m0d));
    assert(t.subrange(24, 32) =~= spec_bfi_bytes(h2.m0d));
    assert(s.subrange(32, 40) =~= spec_bfi_bytes(h1.fun));
    assert(t.subrange(32, 40) =~= spec_bfi_bytes(h2.fun));
    assert(s.subrange(40, 48) =~= spec_bfi_bytes(h1.arg));
    assert(t.subrange(40, 48) =~= spec_bfi_bytes(h2.arg));
    assert(s.subrange(48, 56) =~= spec_u64_to_be(h1.frm));
    assert(t.subrange(48, 56) =~= spec_u64_to_be(h2.frm));
    assert(s.subrange(56, 120) =~= h1.response_pid.0@);
    assert(t.subrange(56, 120) =~= h2.response_pid.0@);
    assert(h1.response_pid.0 =~= h2.response_pid.0);
    match (h1.request_pid, h2.request_pid) {
        (
            PublicIdentityInterface::Present { public_identity: a },
            PublicIdentityInterface::Present { public_identity: b },
        ) => {
            assert(s.subrange(120, 184) =~= a.0@);
            assert(t.subrange(120, 184) =~= b.0@);
            assert(a.0 =~= b.0);
        },
        (PublicIdentityInterface::Absent, PublicIdentityInterface::Absent) => {},
        _ => {
            lemma_hbfi_bytes_length(h1);
            lemma_hbfi_bytes_length(h2);
        },
    }
}

} // verus!
