//! The registry of a node's links: each link identity is registered once,
//! and every packet is routed with the filters of the links it knows.
use vstd::prelude::*;
use crate::node::link::{Link, LinkId};
use crate::node::packets::{NarrowWaist, TransportPacket};
use crate::node::router::{
    chosen_class, forwarded_update, handle_packet, link_index, links_wf, reads_filters, request_class, routed,
    RouterOutcome,
};
use crate::node::bloom_filter::hbfi_in_range;
use crate::common::BLOOM_FILTER_LENGTH;

verus! {

/// Why a link could not be created.
#[derive(Clone, Copy, Debug, PartialEq, Eq, Structural)]
pub enum NodeError {
    /// A link with the same identity is registered already.
    DuplicateLink,
}

/// The identities of the links, in order.
pub open spec fn link_ids(links: Seq<Link>) -> Seq<LinkId> {
    Seq::new(links.len(), |i: int| links[i].id())
}

/// Whether no two links share an identity.
pub open spec fn ids_distinct(links: Seq<Link>) -> bool {
    forall|i: int, j: int| 0 <= i < j < links.len() ==> #[trigger] links[i].id() != #[trigger] links[j].id()
}

/// A link that was just registered is known: registering it again fails.
pub proof fn lemma_registered_after_create(after: Seq<Link>, id: LinkId)
    requires
        after.len() > 0,
        after.last().id() == id,
    ensures
        link_index(after, id) >= 0,
{
    lemma_link_index_found(after, id, after.len() - 1);
}

/// A link with identity `id` at position `w` makes `id` known, at `w` or
/// before.
pub proof fn lemma_link_index_found(links: Seq<Link>, id: LinkId, w: int)
    requires
        0 <= w < links.len(),
        links[w].id() == id,
    ensures
        0 <= link_index(links, id) <= w,
    decreases w,
{
    if exists|j: int| 0 <= j < w && links[j].id() == id {
        let j = choose|j: int| 0 <= j < w && links[j].id() == id;
        lemma_link_index_found(links, id, j);
    } else {
        assert(0 <= w < links.len() && links[w].id() == id && forall|j: int| 0 <= j < w ==> links[j].id() != id);
    }
}

/// Whether `link` is a link with identity `id` and empty filters.
pub open spec fn fresh_link(link: Link, id: LinkId) -> bool {
    &&& link.wf()
    &&& link.id() == id
    &&& link.pending() == Seq::new(BLOOM_FILTER_LENGTH as nat, |i: int| false)
    &&& link.hints() == Seq::new(BLOOM_FILTER_LENGTH as nat, |i: int| false)
    &&& link.forwarded() == Seq::new(BLOOM_FILTER_LENGTH as nat, |i: int| false)
}

/// Whether `mid` are the links `before` with the link `id` known: the same
/// links where it was known already, else those followed by a fresh link
/// with that identity.
pub open spec fn registered(before: Seq<Link>, id: LinkId, mid: Seq<Link>) -> bool {
    if link_index(before, id) >= 0 {
        mid == before
    } else {
        &&& mid.len() == before.len() + 1
        &&& mid.drop_last() == before
        &&& fresh_link(mid.last(), id)
    }
}

/// The links of a node.
pub struct Copernica {
    links: Vec<Link>,
}

impl Copernica {
    /// The links the node knows.
    pub closed spec fn links(&self) -> Seq<Link> {
        self.links@
    }

    /// Whether the registry is in order: every link has full filters and no
    /// identity is registered twice.
    pub open spec fn wf(&self) -> bool {
        links_wf(self.links()) && ids_distinct(self.links())
    }

    /// A node with no links.
    pub fn new() -> (r: Self)
        ensures
            r.wf(),
            r.links() == Seq::<Link>::empty(),
    {
        Copernica { links: Vec::new() }
    }

    /// Whether a link with identity `link_id` is registered.
    pub fn contains(&self, link_id: &LinkId) -> (r: bool)
        ensures
            r == (link_index(self.links(), *link_id) >= 0),
    {
        let mut i: usize = 0;
        while i < self.links.len()
            invariant
                i <= self.links@.len(),
                forall|j: int| 0 <= j < i ==> self.links@[j].id() != *link_id,
            decreases self.links@.len() - i,
        {
            if self.links[i].link_id().same_as(link_id) {
                proof {
                    let w = i as int;
                    assert(0 <= w < self.links@.len() && self.links@[w].id() == *link_id);
                    let c = link_index(self.links@, *link_id);
                    assert(c >= 0);
                }
                return true;
            }
            i = i + 1;
        }
        false
    }

    /// Registers a new link with identity `link_id` and empty filters; an
    /// error when a link with that identity is registered already.
    pub fn create_link(&mut self, link_id: LinkId) -> (r: Result<(), NodeError>)
        requires
            old(self).wf(),
        ensures
            final(self).wf(),
            link_index(old(self).links(), link_id) >= 0 ==> r == Err::<(), NodeError>(
                NodeError::DuplicateLink,
            ) && final(self).links() == old(self).links(),
            link_index(old(self).links(), link_id) < 0 ==> r is Ok && final(self).links().len()
                == old(self).links().len() + 1 && final(self).links().drop_last() == old(self).links()
                && fresh_link(final(self).links().last(), link_id),
    {
        if self.contains(&link_id) {
            return Err(NodeError::DuplicateLink);
        }
        proof {
            assert forall|j: int| 0 <= j < self.links@.len() implies self.links@[j].id() != link_id by {
                if self.links@[j].id() == link_id {
                    assert(exists|i: int| 0 <= i < self.links@.len() && self.links@[i].id() == link_id);
                }
            }
        }
        let ghost before = self.links@;
        self.links.push(Link::new(link_id));
        assert(self.links@.drop_last() =~= before);
        Ok(())
    }

    /// Routes `transport_packet`, which arrived on the link `from`: a link
    /// not known yet is registered first, with empty filters, then the
    /// router decides with the filters of all the links (see `routed`).
    pub fn route(
        &mut self,
        from: &LinkId,
        transport_packet: &TransportPacket,
        stored_response: Option<NarrowWaist>,
    ) -> (r: RouterOutcome)
        requires
            old(self).wf(),
            !(transport_packet.payload is Request && stored_response is Some) ==> hbfi_in_range(
                transport_packet.payload.spec_hbfi(),
            ),
        ensures
            final(self).wf(),
            link_index(final(self).links(), *from) >= 0,
            link_ids(final(self).links()) == if link_index(old(self).links(), *from) >= 0 {
                link_ids(old(self).links())
            } else {
                link_ids(old(self).links()).push(*from)
            },
            exists|mid: Seq<Link>|
                #![trigger registered(old(self).links(), *from, mid)]
                registered(old(self).links(), *from, mid) && routed(
                    mid,
                    *from,
                    *transport_packet,
                    stored_response,
                    final(self).links(),
                    r,
                ),
    {
        let ghost before = self.links@;
        if !self.contains(from) {
            let _ = self.create_link(*from);
        }
        let ghost mid = self.links@;
        proof {
            assert(link_index(mid, *from) >= 0);
        }
        let r = handle_packet(from, transport_packet, stored_response, &mut self.links);
        proof {
            let t = link_index(mid, *from);
            assert forall|k: int| 0 <= k < mid.len() implies #[trigger] self.links@[k].id() == mid[k].id() by {
                if k != t {
                    match transport_packet.payload {
                        NarrowWaist::Request { .. } => {
                            if stored_response is None {
                                assert(forwarded_update(mid[k], self.links@[k], transport_packet.payload.spec_hbfi(), mid[k].id() != *from && request_class(mid[k], transport_packet.payload.spec_hbfi()) == chosen_class(mid, *from, transport_packet.payload.spec_hbfi())));
                            }
                        },
                        NarrowWaist::Response { .. } => {},
                    }
                }
            }
            assert(link_ids(self.links@) =~= link_ids(mid));
            assert(registered(before, *from, mid));
        }
        r
    }
}

} // verus!
