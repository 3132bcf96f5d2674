//! Narrow waist packets: requests for a frame of content and responses that
//! carry it.
use vstd::prelude::*;
use crate::packets::data::Data;
use crate::packets::bfi::BFI;
use crate::packets::hbfi::HBFI;
use crate::packets::identity::{PublicIdentity, PublicIdentityInterface};

verus! {

/// A request for a frame of content, or a response that carries it.
#[derive(Clone, Copy, Debug)]
pub enum NarrowWaistPacket {
    Request { hbfi: HBFI },
    Response { hbfi: HBFI, data: Data },
}

impl NarrowWaistPacket {
    /// The name the packet is about.
    pub open spec fn spec_hbfi(self) -> HBFI {
        match self {
            NarrowWaistPacket::Request { hbfi } => hbfi,
            NarrowWaistPacket::Response { hbfi, .. } => hbfi,
        }
    }

    /// The name the packet is about.
    pub fn hbfi(&self) -> (r: HBFI)
        ensures
            r == self.spec_hbfi(),
    {
        match self {
            NarrowWaistPacket::Request { hbfi } => *hbfi,
            NarrowWaistPacket::Response { hbfi, .. } => *hbfi,
        }
    }

    /// The request for the frame `hbfi` names.
    pub fn request(hbfi: HBFI) -> (r: Self)
        ensures
            r == (NarrowWaistPacket::Request { hbfi }),
    {
        NarrowWaistPacket::Request { hbfi }
    }
}

/// A narrow waist packet whose requests and responses for one frame are
/// alike: it is ordered by frame number, and equal to another exactly when
/// their names are.
#[derive(Clone, Copy, Debug)]
pub struct NarrowWaistPacketReqEqRes(pub NarrowWaistPacket);

impl PartialEq for NarrowWaistPacketReqEqRes {
    fn eq(&self, other: &Self) -> (r: bool) {
        self.0.hbfi().same_as(&other.0.hbfi())
    }
}

impl vstd::std_specs::cmp::PartialEqSpecImpl for NarrowWaistPacketReqEqRes {
    open spec fn obeys_eq_spec() -> bool {
        true
    }

    open spec fn eq_spec(&self, other: &Self) -> bool {
        self.0.spec_hbfi() == other.0.spec_hbfi()
    }
}

impl NarrowWaistPacketReqEqRes {
    /// Orders two packets by their frame numbers.
    pub fn cmp(&self, other: &Self) -> (r: core::cmp::Ordering)
        ensures
            (r == core::cmp::Ordering::Less) == (self.0.spec_hbfi().frm < other.0.spec_hbfi().frm),
            (r == core::cmp::Ordering::Equal) == (self.0.spec_hbfi().frm == other.0.spec_hbfi().frm),
            (r == core::cmp::Ordering::Greater) == (self.0.spec_hbfi().frm > other.0.spec_hbfi().frm),
    {
        let a = self.0.hbfi().frm;
        let b = other.0.hbfi().frm;
        if a < b {
            core::cmp::Ordering::Less
        } else if a == b {
            core::cmp::Ordering::Equal
        } else {
            core::cmp::Ordering::Greater
        }
    }
}

/// The lexicographic order of two byte sequences from position `i` on:
/// -1, 0 or 1.
pub open spec fn lex_bytes(a: Seq<u8>, b: Seq<u8>, i: int) -> int
    decreases a.len() - i,
{
    if i < 0 || i >= a.len() || i >= b.len() {
        0
    } else if a[i] < b[i] {
        -1
    } else if a[i] > b[i] {
        1
    } else {
        lex_bytes(a, b, i + 1)
    }
}

/// The lexicographic order of two sequences of indices from position `i`
/// on: -1, 0 or 1.
pub open spec fn lex_indices(a: Seq<u16>, b: Seq<u16>, i: int) -> int
    decreases a.len() - i,
{
    if i < 0 || i >= a.len() || i >= b.len() {
        0
    } else if a[i] < b[i] {
        -1
    } else if a[i] > b[i] {
        1
    } else {
        lex_indices(a, b, i + 1)
    }
}

/// The order of two requesters: a named requester comes before none, two
/// named ones in the order of their identities.
pub open spec fn requester_order(a: PublicIdentityInterface, b: PublicIdentityInterface) -> int {
    match (a, b) {
        (
            PublicIdentityInterface::Present { public_identity: x },
            PublicIdentityInterface::Present { public_identity: y },
        ) => lex_bytes(x.0@, y.0@, 0),
        (PublicIdentityInterface::Present { .. }, PublicIdentityInterface::Absent) => -1,
        (PublicIdentityInterface::Absent, PublicIdentityInterface::Present { .. }) => 1,
        (PublicIdentityInterface::Absent, PublicIdentityInterface::Absent) => 0,
    }
}

/// The first of the orders that is not 0.
pub open spec fn first_nonzero(first: int, rest: int) -> int {
    if first != 0 {
        first
    } else {
        rest
    }
}

/// The order of two HBFIs, field by field in declaration order: requester,
/// responder, the six indices, then the frame.
pub open spec fn hbfi_order(x: HBFI, y: HBFI) -> int {
    first_nonzero(
        requester_order(x.request_pid, y.request_pid),
        first_nonzero(
            lex_bytes(x.response_pid.0@, y.response_pid.0@, 0),
            first_nonzero(
                lex_indices(x.req.0@, y.req.0@, 0),
                first_nonzero(
                    lex_indices(x.res.0@, y.res.0@, 0),
                    first_nonzero(
                        lex_indices(x.app.0@, y.app.0@, 0),
                        first_nonzero(
                            lex_indices(x.m0d.0@, y.m0d.0@, 0),
                            first_nonzero(
                                lex_indices(x.fun.0@, y.fun.0@, 0),
                                first_nonzero(
                                    lex_indices(x.arg.0@, y.arg.0@, 0),
                                    if x.frm < y.frm {
                                        -1int
                                    } else if x.frm > y.frm {
                                        1int
                                    } else {
                                        0int
                                    },
                                ),
                            ),
                        ),
                    ),
                ),
            ),
        ),
    )
}

/// The order of two identities' bytes.
fn order_identities(a: &PublicIdentity, b: &PublicIdentity) -> (r: i8)
    ensures
        r == lex_bytes(a.0@, b.0@, 0),
{
    let mut i: usize = 0;
    while i < 64
        invariant
            i <= 64,
            lex_bytes(a.0@, b.0@, 0) == lex_bytes(a.0@, b.0@, i as int),
        decreases 64 - i,
    {
        if a.0[i] < b.0[i] {
            return -1;
        } else if a.0[i] > b.0[i] {
            return 1;
        }
        i = i + 1;
    }
    0
}

/// The order of two indices.
fn order_indices(a: &BFI, b: &BFI) -> (r: i8)
    ensures
        r == lex_indices(a.0@, b.0@, 0),
{
    let mut i: usize = 0;
    while i < 4
        invariant
            i <= 4,
            lex_indices(a.0@, b.0@, 0) == lex_indices(a.0@, b.0@, i as int),
        decreases 4 - i,
    {
        if a.0[i] < b.0[i] {
            return -1;
        } else if a.0[i] > b.0[i] {
            return 1;
        }
        i = i + 1;
    }
    0
}

/// The order of two requesters.
fn order_requesters(a: &PublicIdentityInterface, b: &PublicIdentityInterface) -> (r: i8)
    ensures
        r == requester_order(*a, *b),
{
    match (a, b) {
        (
            PublicIdentityInterface::Present { public_identity: x },
            PublicIdentityInterface::Present { public_identity: y },
        ) => order_identities(x, y),
        (PublicIdentityInterface::Present { .. }, PublicIdentityInterface::Absent) => -1,
        (PublicIdentityInterface::Absent, PublicIdentityInterface::Present { .. }) => 1,
        (PublicIdentityInterface::Absent, PublicIdentityInterface::Absent) => 0,
    }
}

/// The order of two HBFIs, as `hbfi_order` says: -1, 0 or 1.
pub fn order_hbfis(x: &HBFI, y: &HBFI) -> (r: i8)
    ensures
        r == hbfi_order(*x, *y),
{
    let o = order_requesters(&x.request_pid, &y.request_pid);
    if o != 0 {
        return o;
    }
    let o = order_identities(&x.response_pid, &y.response_pid);
    if o != 0 {
        return o;
    }
    let o = order_indices(&x.req, &y.req);
    if o != 0 {
        return o;
    }
    let o = order_indices(&x.res, &y.res);
    if o != 0 {
        return o;
    }
    let o = order_indices(&x.app, &y.app);
    if o != 0 {
        return o;
    }
    let o = order_indices(&x.m0d, &y.m0d);
    if o != 0 {
        return o;
    }
    let o = order_indices(&x.fun, &y.fun);
    if o != 0 {
        return o;
    }
    let o = order_indices(&x.arg, &y.arg);
    if o != 0 {
        return o;
    }
    if x.frm < y.frm {
        -1
    } else if x.frm > y.frm {
        1
    } else {
        0
    }
}

impl NarrowWaistPacketReqEqRes {
    /// Compares the names of two packets in full, field by field (unlike
    /// `cmp`, which compares frame numbers only).
    pub fn partial_cmp(&self, other: &Self) -> (r: Option<core::cmp::Ordering>)
        ensures
            hbfi_order(self.0.spec_hbfi(), other.0.spec_hbfi()) < 0 ==> r == Some(core::cmp::Ordering::Less),
            hbfi_order(self.0.spec_hbfi(), other.0.spec_hbfi()) == 0 ==> r == Some(core::cmp::Ordering::Equal),
            hbfi_order(self.0.spec_hbfi(), other.0.spec_hbfi()) > 0 ==> r == Some(core::cmp::Ordering::Greater),
    {
        let o = order_hbfis(&self.0.hbfi(), &other.0.hbfi());
        if o < 0 {
            Some(core::cmp::Ordering::Less)
        } else if o == 0 {
            Some(core::cmp::Ordering::Equal)
        } else {
            Some(core::cmp::Ordering::Greater)
        }
    }
}

/// Ranges of narrow waist packets: what lies in them.
pub trait NarrowWaistPacketReqEqResBounds {
    /// Whether `v` lies in the range.
    fn contains(&self, v: &NarrowWaistPacketReqEqRes) -> bool;
}

impl NarrowWaistPacketReqEqResBounds for NarrowWaistPacketReqEqRes {
    /// A single packet, seen as a range, holds the packets of its frame.
    fn contains(&self, v: &NarrowWaistPacketReqEqRes) -> (r: bool)
        ensures
            r == (self.0.spec_hbfi().frm == v.0.spec_hbfi().frm),
    {
        self.0.hbfi().frm == v.0.hbfi().frm
    }
}

} // verus!
