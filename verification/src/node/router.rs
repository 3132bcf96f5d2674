//! The decisions a routing node takes on each packet that arrives on a link.
//!
//! A request that the node can answer from its response store is answered on
//! the link it came from. Otherwise it is recorded as pending on that link and
//! forwarded: on the links whose forwarding hints say they can answer it, or,
//! when there are none, on every link that has neither seen it forwarded nor
//! pending. A response is kept and sent upstream only when this node
//! forwarded the request on the link it came from, and it goes to every link
//! where the request is pending.
use vstd::prelude::*;
use crate::common::BLOOM_FILTER_LENGTH;
use crate::node::bloom_filter::{count_set, count_ones, hbfi_in_range, hbfi_positions, percentage, write_positions};
use crate::node::hbfi::HBFI;
use crate::node::link::{Link, LinkId};
use crate::node::packets::{NarrowWaist, TransportPacket};

verus! {

/// What the node does after a packet: the packets to send, each with the link
/// to send it on, and the response to keep in the store.
pub struct RouterOutcome {
    pub sends: Vec<(LinkId, TransportPacket)>,
    pub store: Option<(HBFI, NarrowWaist)>,
}

/// Whether every link has one bit per position in each filter.
pub open spec fn links_wf(links: Seq<Link>) -> bool {
    forall|i: int| 0 <= i < links.len() ==> (#[trigger] links[i]).wf()
}

/// What a link is for a request: 0 when the request was already forwarded on
/// it or is pending on it, 2 when its hints say it can answer, 1 otherwise.
pub open spec fn request_class(l: Link, h: HBFI) -> int {
    if percentage(count_set(l.forwarded(), hbfi_positions(h)), 16) > 51 {
        0
    } else if percentage(count_set(l.pending(), hbfi_positions(h)), 16) > 51 {
        0
    } else if percentage(count_set(l.hints(), hbfi_positions(h)), 16) > 90 {
        2
    } else {
        1
    }
}

/// The links, other than `from`, of class `c` for the request, in order.
pub open spec fn request_targets(links: Seq<Link>, from: LinkId, h: HBFI, c: int) -> Seq<LinkId>
    decreases links.len(),
{
    if links.len() == 0 {
        Seq::empty()
    } else {
        request_targets(links.drop_last(), from, h, c) + if links.last().id() != from
            && request_class(links.last(), h) == c {
            seq![links.last().id()]
        } else {
            Seq::empty()
        }
    }
}

/// The class of links a request goes to: those with hints if any, else the
/// others that may still receive it.
pub open spec fn chosen_class(links: Seq<Link>, from: LinkId, h: HBFI) -> int {
    if request_targets(links, from, h, 2).len() > 0 {
        2
    } else {
        1
    }
}

/// The links, other than `from`, on which the request is pending, in order.
pub open spec fn response_targets(links: Seq<Link>, from: LinkId, h: HBFI) -> Seq<LinkId>
    decreases links.len(),
{
    if links.len() == 0 {
        Seq::empty()
    } else {
        response_targets(links.drop_last(), from, h) + if links.last().id() != from && percentage(
            count_set(links.last().pending(), hbfi_positions(h)),
            16,
        ) > 50 {
            seq![links.last().id()]
        } else {
            Seq::empty()
        }
    }
}

/// Each link paired with the same packet.
pub open spec fn with_packet(ids: Seq<LinkId>, tp: TransportPacket) -> Seq<(LinkId, TransportPacket)> {
    ids.map_values(|id: LinkId| (id, tp))
}

/// The position of the first link with identity `id`, if there is one.
pub open spec fn link_index(links: Seq<Link>, id: LinkId) -> int {
    if exists|i: int| 0 <= i < links.len() && links[i].id() == id {
        choose|i: int|
            0 <= i < links.len() && links[i].id() == id && forall|j: int| 0 <= j < i ==> links[j].id() != id
    } else {
        -1
    }
}

/// Whether `b` is `a` with only bits below 2048 possibly cleared.
pub open spec fn partially_forgotten(a: Seq<bool>, b: Seq<bool>) -> bool {
    &&& b.len() == a.len()
    &&& forall|i: int| 0 <= i < a.len() ==> #[trigger] b[i] ==> a[i]
    &&& forall|i: int| 2048 <= i < a.len() ==> #[trigger] b[i] == a[i]
}

/// Link `b` is link `a` with the request recorded in the forwarded filter
/// when `forward` holds, and otherwise the same.
pub open spec fn forwarded_update(a: Link, b: Link, h: HBFI, forward: bool) -> bool {
    &&& b.wf()
    &&& b.id() == a.id()
    &&& b.pending() == a.pending()
    &&& b.hints() == a.hints()
    &&& b.forwarded() == if forward {
        write_positions(a.forwarded(), hbfi_positions(h), true)
    } else {
        a.forwarded()
    }
}

/// Finds the first link with identity `id`.
fn find_link(links: &Vec<Link>, id: &LinkId) -> (r: Option<usize>)
    ensures
        r matches Some(i) ==> i == link_index(links@, *id) && i < links@.len() && links@[i as int].id()
            == *id,
        r is None ==> link_index(links@, *id) == -1,
{
    let mut i: usize = 0;
    while i < links.len()
        invariant
            i <= links@.len(),
            forall|j: int| 0 <= j < i ==> links@[j].id() != *id,
        decreases links@.len() - i,
    {
        if links[i].link_id().same_as(id) {
            assert(0 <= i < links@.len() && links@[i as int].id() == *id);
            let ghost k = link_index(links@, *id);
            assert(k == i) by {
                if k < i {
                    assert(links@[k].id() != *id);
                } else if k > i {
                } 
            }
            return Some(i);
        }
        i = i + 1;
    }
    None
}

/// What the link is for a request: see `request_class`.
fn classify(l: &Link, h: &HBFI) -> (r: u8)
    requires
        l.wf(),
        hbfi_in_range(*h),
    ensures
        r == request_class(*l, *h),
{
    if l.contains_forwarded_request(h) > 51 {
        0
    } else if l.contains_pending_request(h) > 51 {
        0
    } else if l.contains_forwarding_hint(h) > 90 {
        2
    } else {
        1
    }
}

} // verus!

verus! {

/// Request targets depend only on the links other than `from`.
proof fn lemma_targets_congruent(a: Seq<Link>, b: Seq<Link>, from: LinkId, h: HBFI, c: int)
    requires
        a.len() == b.len(),
        forall|j: int| 0 <= j < a.len() ==> (#[trigger] a[j]).id() == b[j].id(),
        forall|j: int| 0 <= j < a.len() && (#[trigger] a[j]).id() != from ==> a[j] == b[j],
    ensures
        request_targets(a, from, h, c) == request_targets(b, from, h, c),
        response_targets(a, from, h) == response_targets(b, from, h),
    decreases a.len(),
{
    if a.len() > 0 {
        lemma_targets_congruent(a.drop_last(), b.drop_last(), from, h, c);
        assert(a.last().id() == b.last().id());
    }
}

/// Whether a packet needs the name's filter positions in range: it does,
/// unless its link is unknown or it is a request answered from the store.
pub open spec fn reads_filters(
    links: Seq<Link>,
    link_id: LinkId,
    tp: TransportPacket,
    stored: Option<NarrowWaist>,
) -> bool {
    &&& link_index(links, link_id) >= 0
    &&& !(tp.payload is Request && stored is Some)
}

/// What routing `tp`, which arrived on the link `link_id`, does: `stored` is
/// what the response store holds under a request's name, `old_links` and
/// `new_links` the links before and after, `r` what is sent and stored. A
/// packet from an unknown link changes nothing; a request answered from the
/// store is sent back on its link; any other request is recorded as pending
/// on its link and forwarded to the links of the chosen class, which record
/// it as forwarded; a response that was asked for on its link is stored and
/// sent to the links where it is pending, the link's hints being partly
/// forgotten when they are over 80% full; any other response is dropped.
pub open spec fn routed(
    old_links: Seq<Link>,
    link_id: LinkId,
    tp: TransportPacket,
    stored: Option<NarrowWaist>,
    new_links: Seq<Link>,
    r: RouterOutcome,
) -> bool {
    &&& link_index(old_links, link_id) == -1 ==> new_links == old_links && r.sends@.len() == 0 && r.store is None
    &&& ({
            let t = link_index(old_links, link_id);
            let h = tp.payload.spec_hbfi();
            t >= 0 ==> match tp.payload {
                NarrowWaist::Request { .. } => match stored {
                    Some(nw) => {
                        &&& new_links == old_links
                        &&& r.store is None
                        &&& r.sends@ == seq![
                            (link_id, TransportPacket { reply_to: tp.reply_to, payload: nw }),
                        ]
                    },
                    None => {
                        let c = chosen_class(old_links, link_id, h);
                        &&& r.store is None
                        &&& r.sends@ == with_packet(
                            request_targets(old_links, link_id, h, c),
                            tp,
                        )
                        &&& new_links[t].id() == old_links[t].id()
                        &&& new_links[t].pending() == write_positions(
                            old_links[t].pending(),
                            hbfi_positions(h),
                            true,
                        )
                        &&& new_links[t].hints() == old_links[t].hints()
                        &&& new_links[t].forwarded() == old_links[t].forwarded()
                        &&& forall|j: int|
                            0 <= j < old_links.len() && j != t ==> forwarded_update(
                                #[trigger] old_links[j],
                                new_links[j],
                                h,
                                old_links[j].id() != link_id && request_class(old_links[j], h) == c,
                            )
                    },
                },
                NarrowWaist::Response { .. } => {
                    if percentage(count_set(old_links[t].forwarded(), hbfi_positions(h)), 16) > 15 {
                        &&& r.store == Some((h, tp.payload))
                        &&& r.sends@ == with_packet(
                            response_targets(old_links, link_id, h),
                            tp,
                        )
                        &&& new_links[t].id() == old_links[t].id()
                        &&& new_links[t].pending() == old_links[t].pending()
                        &&& new_links[t].forwarded() == old_links[t].forwarded()
                        &&& if percentage(
                            count_ones(old_links[t].hints(), BLOOM_FILTER_LENGTH as nat),
                            BLOOM_FILTER_LENGTH as nat,
                        ) > 80 {
                            partially_forgotten(old_links[t].hints(), new_links[t].hints())
                        } else {
                            new_links[t].hints() == old_links[t].hints()
                        }
                        &&& forall|j: int| 0 <= j < old_links.len() && j != t ==> new_links[j] == old_links[j]
                    } else {
                        &&& new_links == old_links
                        &&& r.store is None
                        &&& r.sends@.len() == 0
                    }
                },
            }
        })
}

/// Decides what a node does with `transport_packet`, which arrived on the
/// link `link_id`. `stored_response` is what the response store holds under
/// the name of a request, when it holds anything. The links' filters are
/// updated in place.
pub fn handle_packet(
    link_id: &LinkId,
    transport_packet: &TransportPacket,
    stored_response: Option<NarrowWaist>,
    links: &mut Vec<Link>,
) -> (r: RouterOutcome)
    requires
        links_wf(old(links)@),
        reads_filters(old(links)@, *link_id, *transport_packet, stored_response) ==> hbfi_in_range(
            transport_packet.payload.spec_hbfi(),
        ),
    ensures
        links_wf(final(links)@),
        final(links)@.len() == old(links)@.len(),
        routed(old(links)@, *link_id, *transport_packet, stored_response, final(links)@, r),
{
    let mut sends: Vec<(LinkId, TransportPacket)> = Vec::new();
    let payload = transport_packet.payload();
    let ghost old_links = links@;
    let t = match find_link(links, link_id) {
        Some(t) => t,
        None => {
            return RouterOutcome { sends, store: None };
        },
    };
    match payload {
        NarrowWaist::Request { hbfi } => {
            match stored_response {
                Some(nw) => {
                    let tp = TransportPacket::new(transport_packet.reply_to(), nw);
                    sends.push((*link_id, tp));
                    assert(sends@ =~= seq![
                        (*link_id, TransportPacket { reply_to: transport_packet.reply_to, payload: nw }),
                    ]);
                    RouterOutcome { sends, store: None }
                },
                None => {
                    let sends = forward_request(link_id, transport_packet, &hbfi, t, links);
                    RouterOutcome { sends, store: None }
                },
            }
        },
        NarrowWaist::Response { hbfi, .. } => {
            if links[t].contains_forwarded_request(&hbfi) > 15 {
                let sends = send_response_upstream(link_id, transport_packet, &hbfi, t, links);
                RouterOutcome { sends, store: Some((hbfi, payload)) }
            } else {
                RouterOutcome { sends, store: None }
            }
        },
    }
}

/// Records a request as pending on link `t` and forwards it; see
/// `handle_packet`.
fn forward_request(
    link_id: &LinkId,
    transport_packet: &TransportPacket,
    hbfi: &HBFI,
    t: usize,
    links: &mut Vec<Link>,
) -> (sends: Vec<(LinkId, TransportPacket)>)
    requires
        links_wf(old(links)@),
        hbfi_in_range(*hbfi),
        t < old(links)@.len(),
        old(links)@[t as int].id() == *link_id,
    ensures
        links_wf(final(links)@),
        final(links)@.len() == old(links)@.len(),
        ({
            let old_links = old(links)@;
            let new_links = final(links)@;
            let c = chosen_class(old_links, *link_id, *hbfi);
            &&& sends@ == with_packet(request_targets(old_links, *link_id, *hbfi, c), *transport_packet)
            &&& new_links[t as int].id() == old_links[t as int].id()
            &&& new_links[t as int].pending() == write_positions(
                old_links[t as int].pending(),
                hbfi_positions(*hbfi),
                true,
            )
            &&& new_links[t as int].hints() == old_links[t as int].hints()
            &&& new_links[t as int].forwarded() == old_links[t as int].forwarded()
            &&& forall|j: int|
                0 <= j < old_links.len() && j != t ==> forwarded_update(
                    #[trigger] old_links[j],
                    new_links[j],
                    *hbfi,
                    old_links[j].id() != *link_id && request_class(old_links[j], *hbfi) == c,
                )
        }),
{
    let ghost old_links = links@;
    let hbfi = *hbfi;
    let mut sends: Vec<(LinkId, TransportPacket)> = Vec::new();
    let n = links.len();
    let mut any_hint = false;
    let mut i: usize = 0;
    while i < n
        invariant
            i <= n == links@.len(),
            links@ == old_links,
            links_wf(old_links),
            hbfi_in_range(hbfi),
            any_hint == (request_targets(old_links.take(i as int), *link_id, hbfi, 2).len() > 0),
        decreases n - i,
    {
        assert(old_links.take(i + 1).drop_last() =~= old_links.take(i as int));
        if !links[i].link_id().same_as(link_id) && classify(&links[i], &hbfi) == 2 {
            any_hint = true;
        }
        i = i + 1;
    }
    assert(old_links.take(n as int) =~= old_links);
    let chosen: u8 = if any_hint {
        2
    } else {
        1
    };
    links[t].create_pending_request(&hbfi);
    let ghost mid = links@;
    proof {
        lemma_targets_congruent(old_links, mid, *link_id, hbfi, chosen as int);
    }
    let mut i: usize = 0;
    while i < n
        invariant
            i <= n == links@.len() == mid.len() == old_links.len(),
            links_wf(mid),
            hbfi_in_range(hbfi),
            0 <= t < n,
            mid[t as int].id() == *link_id,
            forall|j: int| 0 <= j < n && j != t ==> mid[j] == old_links[j],
            forall|j: int| i <= j < n ==> links@[j] == mid[j],
            forall|j: int|
                0 <= j < i ==> forwarded_update(
                    #[trigger] mid[j],
                    links@[j],
                    hbfi,
                    mid[j].id() != *link_id && request_class(mid[j], hbfi) == chosen,
                ),
            sends@ == with_packet(
                request_targets(mid.take(i as int), *link_id, hbfi, chosen as int),
                *transport_packet,
            ),
        decreases n - i,
    {
        assert(mid.take(i + 1).drop_last() =~= mid.take(i as int));
        assert(links@[i as int] == mid[i as int]);
        if !links[i].link_id().same_as(link_id) && classify(&links[i], &hbfi) == chosen {
            links[i].create_forwarded_request(&hbfi);
            let id = links[i].link_id();
            sends.push((id, *transport_packet));
        }
        i = i + 1;
        assert(sends@ =~= with_packet(
            request_targets(mid.take(i as int), *link_id, hbfi, chosen as int),
            *transport_packet,
        ));
    }
    assert(mid.take(n as int) =~= mid);
    assert forall|j: int| 0 <= j < n implies (#[trigger] links@[j]).wf() by {
        assert(forwarded_update(
            mid[j],
            links@[j],
            hbfi,
            mid[j].id() != *link_id && request_class(mid[j], hbfi) == chosen,
        ));
    }
    sends
}

/// Keeps the response's link state and sends it upstream; see
/// `handle_packet`.
fn send_response_upstream(
    link_id: &LinkId,
    transport_packet: &TransportPacket,
    hbfi: &HBFI,
    t: usize,
    links: &mut Vec<Link>,
) -> (sends: Vec<(LinkId, TransportPacket)>)
    requires
        links_wf(old(links)@),
        hbfi_in_range(*hbfi),
        t < old(links)@.len(),
        old(links)@[t as int].id() == *link_id,
    ensures
        links_wf(final(links)@),
        final(links)@.len() == old(links)@.len(),
        ({
            let old_links = old(links)@;
            let new_links = final(links)@;
            &&& sends@ == with_packet(response_targets(old_links, *link_id, *hbfi), *transport_packet)
            &&& new_links[t as int].id() == old_links[t as int].id()
            &&& new_links[t as int].pending() == old_links[t as int].pending()
            &&& new_links[t as int].forwarded() == old_links[t as int].forwarded()
            &&& if percentage(
                count_ones(old_links[t as int].hints(), BLOOM_FILTER_LENGTH as nat),
                BLOOM_FILTER_LENGTH as nat,
            ) > 80 {
                partially_forgotten(old_links[t as int].hints(), new_links[t as int].hints())
            } else {
                new_links[t as int].hints() == old_links[t as int].hints()
            }
            &&& forall|j: int| 0 <= j < old_links.len() && j != t ==> new_links[j] == old_links[j]
        }),
{
    let ghost old_links = links@;
    let hbfi = *hbfi;
    let mut sends: Vec<(LinkId, TransportPacket)> = Vec::new();
    assert(old_links[t as int].wf());
    let decoherence = links[t].forwarding_hint_decoherence();
    if decoherence > 80 {
        links[t].partially_forget_forwarding_hint();
        assert(partially_forgotten(old_links[t as int].hints(), links@[t as int].hints()));
    }
    let ghost mid = links@;
    assert(mid.len() == old_links.len());
    assert(forall|j: int| 0 <= j < old_links.len() && j != t ==> mid[j] == old_links[j]);
    assert(mid[t as int].id() == old_links[t as int].id());
    assert(forall|j: int| 0 <= j < old_links.len() ==> (#[trigger] old_links[j]).id() == mid[j].id());
    assert(links_wf(mid));
    proof {
        lemma_targets_congruent(old_links, mid, *link_id, hbfi, 0);
    }
    let n = links.len();
    let mut i: usize = 0;
    while i < n
        invariant
            i <= n == links@.len() == mid.len(),
            links@ == mid,
            links_wf(mid),
            hbfi_in_range(hbfi),
            sends@ == with_packet(response_targets(mid.take(i as int), *link_id, hbfi), *transport_packet),
        decreases n - i,
    {
        assert(mid.take(i + 1).drop_last() =~= mid.take(i as int));
        if !links[i].link_id().same_as(link_id) && links[i].contains_pending_request(&hbfi) > 50 {
            let id = links[i].link_id();
            sends.push((id, *transport_packet));
        }
        i = i + 1;
        assert(sends@ =~= with_packet(
            response_targets(mid.take(i as int), *link_id, hbfi),
            *transport_packet,
        ));
    }
    assert(mid.take(n as int) =~= mid);
    sends
}

} // verus!

verus! {

/// A packet is never sent back on the link it arrived on: no request target
/// and no response target is the arrival link, and every target is one of
/// the node's links.
pub proof fn lemma_never_back_to_sender(links: Seq<Link>, from: LinkId, h: HBFI, c: int)
    ensures
        forall|k: int|
            0 <= k < request_targets(links, from, h, c).len() ==> #[trigger] request_targets(links, from, h, c)[k]
                != from,
        forall|k: int|
            0 <= k < response_targets(links, from, h).len() ==> #[trigger] response_targets(links, from, h)[k]
                != from,
        forall|k: int|
            0 <= k < request_targets(links, from, h, c).len() ==> exists|j: int|
                0 <= j < links.len() && links[j].id() == #[trigger] request_targets(links, from, h, c)[k]
                    && request_class(links[j], h) == c,
    decreases links.len(),
{
    if links.len() > 0 {
        lemma_never_back_to_sender(links.drop_last(), from, h, c);
        let rq = request_targets(links.drop_last(), from, h, c);
        let rs = response_targets(links.drop_last(), from, h);
        assert forall|k: int|
            0 <= k < response_targets(links, from, h).len() implies #[trigger] response_targets(links, from, h)[k]
                != from by {
            if k < rs.len() {
                assert(response_targets(links, from, h)[k] == rs[k]);
            }
        }
        assert forall|k: int|
            0 <= k < request_targets(links, from, h, c).len() implies #[trigger] request_targets(links, from, h, c)[k]
                != from by {
            if k < rq.len() {
                assert(request_targets(links, from, h, c)[k] == rq[k]);
            }
        }
        assert forall|k: int|
            0 <= k < request_targets(links, from, h, c).len() implies exists|j: int|
                0 <= j < links.len() && links[j].id() == #[trigger] request_targets(links, from, h, c)[k]
                    && request_class(links[j], h) == c by {
            if k < rq.len() {
                let j = choose|j: int|
                    0 <= j < links.drop_last().len() && links.drop_last()[j].id() == rq[k]
                        && request_class(links.drop_last()[j], h) == c;
                assert(links[j] == links.drop_last()[j]);
            } else {
                assert(links[links.len() - 1].id() == request_targets(links, from, h, c)[k]);
            }
        }
    }
}

/// A request goes out on at least one link when some link other than the
/// arrival link has neither seen it forwarded nor pending.
pub proof fn lemma_request_goes_somewhere(links: Seq<Link>, from: LinkId, h: HBFI, j: int)
    requires
        0 <= j < links.len(),
        links[j].id() != from,
        request_class(links[j], h) != 0,
    ensures
        request_targets(links, from, h, chosen_class(links, from, h)).len() > 0,
    decreases links.len(),
{
    if chosen_class(links, from, h) == 1 {
        assert(request_class(links[j], h) == 1) by {
            if request_class(links[j], h) == 2 {
                lemma_member_of_targets(links, from, h, 2, j);
            }
        }
        lemma_member_of_targets(links, from, h, 1, j);
    }
}

/// A link other than the arrival link, of class `c`, is among the targets of
/// class `c`.
proof fn lemma_member_of_targets(links: Seq<Link>, from: LinkId, h: HBFI, c: int, j: int)
    requires
        0 <= j < links.len(),
        links[j].id() != from,
        request_class(links[j], h) == c,
    ensures
        request_targets(links, from, h, c).len() > 0,
    decreases links.len(),
{
    if j < links.len() - 1 {
        lemma_member_of_targets(links.drop_last(), from, h, c, j);
    }
}


/// Whether the request for `h` is pending on `l`: its pending filter holds
/// more than half of the name's positions.
pub open spec fn pending_on(l: Link, h: HBFI) -> bool {
    percentage(count_set(l.pending(), hbfi_positions(h)), 16) > 50
}

/// The response targets are exactly the links other than the arrival link
/// on which the request is pending.
proof fn lemma_response_targets_exact(links: Seq<Link>, from: LinkId, h: HBFI)
    ensures
        forall|k: int|
            0 <= k < response_targets(links, from, h).len() ==> exists|j: int|
                0 <= j < links.len() && links[j].id() == #[trigger] response_targets(links, from, h)[k]
                    && links[j].id() != from && pending_on(links[j], h),
        forall|j: int|
            0 <= j < links.len() && (#[trigger] links[j]).id() != from && pending_on(links[j], h)
                ==> response_targets(links, from, h).contains(links[j].id()),
    decreases links.len(),
{
    if links.len() > 0 {
        let front = links.drop_last();
        lemma_response_targets_exact(front, from, h);
        let rs = response_targets(front, from, h);
        let all = response_targets(links, from, h);
        assert forall|k: int| 0 <= k < all.len() implies exists|j: int|
            0 <= j < links.len() && links[j].id() == #[trigger] all[k] && links[j].id() != from
                && pending_on(links[j], h) by {
            if k < rs.len() {
                assert(all[k] == rs[k]);
                let j = choose|j: int|
                    0 <= j < front.len() && front[j].id() == rs[k] && front[j].id() != from && pending_on(
                        front[j],
                        h,
                    );
                assert(links[j] == front[j]);
            } else {
                assert(links[links.len() - 1].id() == all[k]);
            }
        }
        assert forall|j: int|
            0 <= j < links.len() && (#[trigger] links[j]).id() != from && pending_on(links[j], h) implies all.contains(
            links[j].id(),
        ) by {
            if j < front.len() {
                assert(links[j] == front[j]);
                assert(rs.contains(front[j].id()));
                let k = choose|k: int| 0 <= k < rs.len() && rs[k] == front[j].id();
                assert(all[k] == rs[k]);
            } else {
                assert(all[all.len() - 1] == links[j].id());
            }
        }
    }
}

/// A response is sent only on links where its request is pending, never
/// back on its arrival link; and when it is passed on at all (it is then
/// stored), it goes to every link where its request is pending.
pub proof fn law_response_sent_where_pending(
    old_links: Seq<Link>,
    link_id: LinkId,
    tp: TransportPacket,
    stored: Option<NarrowWaist>,
    new_links: Seq<Link>,
    r: RouterOutcome,
)
    requires
        routed(old_links, link_id, tp, stored, new_links, r),
        tp.payload is Response,
    ensures
        forall|k: int|
            0 <= k < r.sends@.len() ==> exists|j: int|
                0 <= j < old_links.len() && old_links[j].id() == (#[trigger] r.sends@[k]).0
                    && old_links[j].id() != link_id && pending_on(old_links[j], tp.payload.spec_hbfi()),
        r.store is Some ==> forall|j: int|
            0 <= j < old_links.len() && (#[trigger] old_links[j]).id() != link_id && pending_on(
                old_links[j],
                tp.payload.spec_hbfi(),
            ) ==> exists|k: int| 0 <= k < r.sends@.len() && r.sends@[k].0 == old_links[j].id(),
{
    let h = tp.payload.spec_hbfi();
    lemma_response_targets_exact(old_links, link_id, h);
    let rt = response_targets(old_links, link_id, h);
    let t = link_index(old_links, link_id);
    if t != -1 {
        assert(0 <= t < old_links.len()) by {
            if exists|i: int| 0 <= i < old_links.len() && old_links[i].id() == link_id {
                let w = choose|i: int| 0 <= i < old_links.len() && old_links[i].id() == link_id;
                crate::node::copernica::lemma_link_index_found(old_links, link_id, w);
            }
        }
    }
    if r.store is Some {
        assert(t >= 0);
        assert(percentage(count_set(old_links[t].forwarded(), hbfi_positions(h)), 16) > 15);
        assert(r.sends@ == with_packet(rt, tp));
        assert forall|k: int| 0 <= k < r.sends@.len() implies exists|j: int|
            0 <= j < old_links.len() && old_links[j].id() == (#[trigger] r.sends@[k]).0
                && old_links[j].id() != link_id && pending_on(old_links[j], h) by {
            assert(r.sends@[k].0 == rt[k]);
        }
        assert forall|j: int|
            0 <= j < old_links.len() && (#[trigger] old_links[j]).id() != link_id && pending_on(old_links[j], h)
                implies exists|k: int| 0 <= k < r.sends@.len() && r.sends@[k].0 == old_links[j].id() by {
            let k = choose|k: int| 0 <= k < rt.len() && rt[k] == old_links[j].id();
            assert(r.sends@[k].0 == rt[k]);
        }
    } else {
        assert(r.sends@.len() == 0);
    }
}

} // verus!
