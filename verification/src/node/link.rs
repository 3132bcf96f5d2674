//! Links between nodes and the routing state kept for each.
use vstd::prelude::*;
use crate::node::bloom_filter::{
    cleared_by_draws, count_ones, count_set, hbfi_in_range, hbfi_positions, percentage, write_positions, BloomFilter,
};
use crate::node::hbfi::HBFI;
use crate::common::BLOOM_FILTER_LENGTH;
use crate::packets::reply_to::{SocketAddressV4, SocketAddressV6};
use crate::random::random_u16;

verus! {

/// Radio frequency.
pub type Hertz = u32;

/// An IP socket address.
#[derive(Clone, Copy, Debug, PartialEq, Eq, Hash)]
pub enum SocketAddress {
    V4(SocketAddressV4),
    V6(SocketAddressV6),
}

/// How the far side of a link is reached.
#[derive(Clone, Copy, Debug, PartialEq, Eq, Hash)]
pub enum ReplyTo {
    UdpIp(SocketAddress),
    Rf(Hertz),
    Mpsc,
}

impl ReplyTo {
    /// Whether both addresses are the same.
    pub fn same_as(&self, other: &Self) -> (r: bool)
        ensures
            r == (*self == *other),
    {
        match (self, other) {
            (ReplyTo::UdpIp(SocketAddress::V4(a)), ReplyTo::UdpIp(SocketAddress::V4(b))) => {
                let r = a.ip[0] == b.ip[0] && a.ip[1] == b.ip[1] && a.ip[2] == b.ip[2] && a.ip[3]
                    == b.ip[3] && a.port == b.port;
                proof {
                    if r {
                        assert(a.ip =~= b.ip);
                    }
                }
                r
            },
            (ReplyTo::UdpIp(SocketAddress::V6(a)), ReplyTo::UdpIp(SocketAddress::V6(b))) => a == b,
            (ReplyTo::Rf(a), ReplyTo::Rf(b)) => *a == *b,
            (ReplyTo::Mpsc, ReplyTo::Mpsc) => true,
            _ => false,
        }
    }
}

/// The identity of a link: its address and a nonce.
#[derive(Clone, Copy, Debug, PartialEq, Eq, Hash)]
pub struct LinkId {
    reply_to: ReplyTo,
    nonce: u16,
}

impl LinkId {
    /// The address of the link.
    pub closed spec fn spec_reply_to(self) -> ReplyTo {
        self.reply_to
    }

    /// The nonce of the link.
    pub closed spec fn spec_nonce(self) -> u16 {
        self.nonce
    }

    /// A link to `reply_to` with `nonce`; a nonce of zero is replaced by one
    /// drawn at random.
    pub fn new(reply_to: ReplyTo, nonce: u16) -> (r: Self)
        ensures
            r.spec_reply_to() == reply_to,
            nonce != 0 ==> r.spec_nonce() == nonce,
    {
        let nonce = if nonce == 0 {
            random_u16()
        } else {
            nonce
        };
        LinkId { reply_to, nonce }
    }

    /// The nonce of the link.
    pub fn nonce(&self) -> (r: u16)
        ensures
            r == self.spec_nonce(),
    {
        self.nonce
    }

    /// The address of the link.
    pub fn reply_to(&self) -> (r: ReplyTo)
        ensures
            r == self.spec_reply_to(),
    {
        self.reply_to
    }

    /// Whether both identities are the same.
    pub fn same_as(&self, other: &Self) -> (r: bool)
        ensures
            r == (*self == *other),
    {
        self.reply_to.same_as(&other.reply_to) && self.nonce == other.nonce
    }
}

/// A link and its three bloom filters: requests that arrived on it and are
/// pending, requests forwarded on it, and hints that it can answer.
pub struct Link {
    link_id: LinkId,
    pending_request: BloomFilter,
    forwarding_hint: BloomFilter,
    forwarded_request: BloomFilter,
}

impl Clone for Link {
    fn clone(&self) -> (r: Self)
        ensures
            r.id() == self.id(),
            r.pending() == self.pending(),
            r.hints() == self.hints(),
            r.forwarded() == self.forwarded(),
    {
        Link {
            link_id: self.link_id,
            pending_request: self.pending_request.clone(),
            forwarding_hint: self.forwarding_hint.clone(),
            forwarded_request: self.forwarded_request.clone(),
        }
    }
}

impl Link {
    /// The identity of the link.
    pub closed spec fn id(&self) -> LinkId {
        self.link_id
    }

    /// The bits of the pending-request filter.
    pub closed spec fn pending(&self) -> Seq<bool> {
        self.pending_request.bits()
    }

    /// The bits of the forwarding-hint filter.
    pub closed spec fn hints(&self) -> Seq<bool> {
        self.forwarding_hint.bits()
    }

    /// The bits of the forwarded-request filter.
    pub closed spec fn forwarded(&self) -> Seq<bool> {
        self.forwarded_request.bits()
    }

    /// Every filter of the link has one bit per position.
    pub open spec fn wf(&self) -> bool {
        &&& self.pending().len() == BLOOM_FILTER_LENGTH
        &&& self.hints().len() == BLOOM_FILTER_LENGTH
        &&& self.forwarded().len() == BLOOM_FILTER_LENGTH
    }

    /// A link with empty filters.
    pub fn new(link_id: LinkId) -> (r: Self)
        ensures
            r.wf(),
            r.id() == link_id,
            r.pending() == Seq::new(BLOOM_FILTER_LENGTH as nat, |i: int| false),
            r.hints() == Seq::new(BLOOM_FILTER_LENGTH as nat, |i: int| false),
            r.forwarded() == Seq::new(BLOOM_FILTER_LENGTH as nat, |i: int| false),
    {
        Link {
            link_id,
            pending_request: BloomFilter::new(),
            forwarding_hint: BloomFilter::new(),
            forwarded_request: BloomFilter::new(),
        }
    }

    /// The identity of the link.
    pub fn link_id(&self) -> (r: LinkId)
        ensures
            r == self.id(),
    {
        self.link_id
    }

    /// Records a request that arrived on this link.
    pub fn create_pending_request(&mut self, packet_hbfi: &HBFI)
        requires
            old(self).wf(),
            hbfi_in_range(*packet_hbfi),
        ensures
            final(self).wf(),
            final(self).id() == old(self).id(),
            final(self).pending() == write_positions(old(self).pending(), hbfi_positions(*packet_hbfi), true),
            final(self).hints() == old(self).hints(),
            final(self).forwarded() == old(self).forwarded(),
    {
        self.pending_request.insert(packet_hbfi);
    }

    /// How much of the request is pending on this link, as a percentage.
    pub fn contains_pending_request(&self, request_hbfi: &HBFI) -> (r: u8)
        requires
            self.wf(),
            hbfi_in_range(*request_hbfi),
        ensures
            r == percentage(count_set(self.pending(), hbfi_positions(*request_hbfi)), 16),
    {
        self.pending_request.contains(request_hbfi)
    }

    /// Forgets a pending request.
    pub fn delete_pending_request(&mut self, request_hbfi: &HBFI)
        requires
            old(self).wf(),
            hbfi_in_range(*request_hbfi),
        ensures
            final(self).wf(),
            final(self).id() == old(self).id(),
            final(self).pending() == write_positions(old(self).pending(), hbfi_positions(*request_hbfi), false),
            final(self).hints() == old(self).hints(),
            final(self).forwarded() == old(self).forwarded(),
    {
        self.pending_request.delete(request_hbfi);
    }

    /// How full the pending-request filter is, as a percentage.
    pub fn pending_request_decoherence(&self) -> (r: u8)
        requires
            self.wf(),
        ensures
            r == percentage(count_ones(self.pending(), BLOOM_FILTER_LENGTH as nat), BLOOM_FILTER_LENGTH as nat),
    {
        self.pending_request.decoherence()
    }

    /// Clears random bits of the pending-request filter.
    pub fn partially_forget_pending_request(&mut self)
        requires
            old(self).wf(),
        ensures
            final(self).wf(),
            final(self).id() == old(self).id(),
            cleared_by_draws(old(self).pending(), final(self).pending()),
            forall|i: int| 0 <= i < BLOOM_FILTER_LENGTH ==> #[trigger] final(self).pending()[i] ==> old(self).pending()[i],
            forall|i: int| 2048 <= i < BLOOM_FILTER_LENGTH ==> #[trigger] final(self).pending()[i] == old(self).pending()[i],
            final(self).hints() == old(self).hints(),
            final(self).forwarded() == old(self).forwarded(),
    {
        self.pending_request.partially_forget();
    }

    /// Records a request forwarded on this link.
    pub fn create_forwarded_request(&mut self, packet_hbfi: &HBFI)
        requires
            old(self).wf(),
            hbfi_in_range(*packet_hbfi),
        ensures
            final(self).wf(),
            final(self).id() == old(self).id(),
            final(self).forwarded() == write_positions(old(self).forwarded(), hbfi_positions(*packet_hbfi), true),
            final(self).hints() == old(self).hints(),
            final(self).pending() == old(self).pending(),
    {
        self.forwarded_request.insert(packet_hbfi);
    }

    /// How much of the request was forwarded on this link, as a percentage.
    pub fn contains_forwarded_request(&self, request_hbfi: &HBFI) -> (r: u8)
        requires
            self.wf(),
            hbfi_in_range(*request_hbfi),
        ensures
            r == percentage(count_set(self.forwarded(), hbfi_positions(*request_hbfi)), 16),
    {
        self.forwarded_request.contains(request_hbfi)
    }

    /// Forgets a forwarded request.
    pub fn delete_forwarded_request(&mut self, request_hbfi: &HBFI)
        requires
            old(self).wf(),
            hbfi_in_range(*request_hbfi),
        ensures
            final(self).wf(),
            final(self).id() == old(self).id(),
            final(self).forwarded() == write_positions(old(self).forwarded(), hbfi_positions(*request_hbfi), false),
            final(self).hints() == old(self).hints(),
            final(self).pending() == old(self).pending(),
    {
        self.forwarded_request.delete(request_hbfi);
    }

    /// How full the forwarded-request filter is, as a percentage.
    pub fn forwarded_request_decoherence(&self) -> (r: u8)
        requires
            self.wf(),
        ensures
            r == percentage(count_ones(self.forwarded(), BLOOM_FILTER_LENGTH as nat), BLOOM_FILTER_LENGTH as nat),
    {
        self.forwarded_request.decoherence()
    }

    /// Clears random bits of the forwarded-request filter.
    pub fn partially_forget_forwarded_request(&mut self)
        requires
            old(self).wf(),
        ensures
            final(self).wf(),
            final(self).id() == old(self).id(),
            cleared_by_draws(old(self).forwarded(), final(self).forwarded()),
            forall|i: int| 0 <= i < BLOOM_FILTER_LENGTH ==> #[trigger] final(self).forwarded()[i] ==> old(self).forwarded()[i],
            forall|i: int| 2048 <= i < BLOOM_FILTER_LENGTH ==> #[trigger] final(self).forwarded()[i] == old(self).forwarded()[i],
            final(self).hints() == old(self).hints(),
            final(self).pending() == old(self).pending(),
    {
        self.forwarded_request.partially_forget();
    }

    /// Records that content is reachable over this link.
    pub fn create_forwarding_hint(&mut self, data_hbfi: &HBFI)
        requires
            old(self).wf(),
            hbfi_in_range(*data_hbfi),
        ensures
            final(self).wf(),
            final(self).id() == old(self).id(),
            final(self).hints() == write_positions(old(self).hints(), hbfi_positions(*data_hbfi), true),
            final(self).forwarded() == old(self).forwarded(),
            final(self).pending() == old(self).pending(),
    {
        self.forwarding_hint.insert(data_hbfi);
    }

    /// How strongly the hints say the request can be answered over this
    /// link, as a percentage.
    pub fn contains_forwarding_hint(&self, request_hbfi: &HBFI) -> (r: u8)
        requires
            self.wf(),
            hbfi_in_range(*request_hbfi),
        ensures
            r == percentage(count_set(self.hints(), hbfi_positions(*request_hbfi)), 16),
    {
        self.forwarding_hint.contains(request_hbfi)
    }

    /// How full the forwarding-hint filter is, as a percentage.
    pub fn forwarding_hint_decoherence(&self) -> (r: u8)
        requires
            self.wf(),
        ensures
            r == percentage(count_ones(self.hints(), BLOOM_FILTER_LENGTH as nat), BLOOM_FILTER_LENGTH as nat),
    {
        self.forwarding_hint.decoherence()
    }

    /// Clears random bits of the forwarding-hint filter.
    pub fn partially_forget_forwarding_hint(&mut self)
        requires
            old(self).wf(),
        ensures
            final(self).wf(),
            final(self).id() == old(self).id(),
            cleared_by_draws(old(self).hints(), final(self).hints()),
            forall|i: int| 0 <= i < BLOOM_FILTER_LENGTH ==> #[trigger] final(self).hints()[i] ==> old(self).hints()[i],
            forall|i: int| 2048 <= i < BLOOM_FILTER_LENGTH ==> #[trigger] final(self).hints()[i] == old(self).hints()[i],
            final(self).forwarded() == old(self).forwarded(),
            final(self).pending() == old(self).pending(),
    {
        self.forwarding_hint.partially_forget();
    }
}

} // verus!
