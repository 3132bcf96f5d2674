//! The packets that routing nodes exchange.
use vstd::prelude::*;
use crate::node::hbfi::HBFI;
use crate::node::link::{Link, ReplyTo};

verus! {

/// A fragment of content: its length and its bytes.
#[derive(Clone, Copy, Debug)]
pub struct Data {
    pub len: u16,
    pub data: [u8; 1024],
}

/// A request for a name, or a response that carries a fragment of it.
#[derive(Clone, Copy, Debug)]
pub enum NarrowWaist {
    Request { hbfi: HBFI },
    Response { hbfi: HBFI, data: Data, offset: u64, total: u64 },
}

impl NarrowWaist {
    /// The name the packet is about.
    pub open spec fn spec_hbfi(self) -> HBFI {
        match self {
            NarrowWaist::Request { hbfi } => hbfi,
            NarrowWaist::Response { hbfi, .. } => hbfi,
        }
    }
}

/// A packet on the wire: where to reply, and the narrow waist packet.
#[derive(Clone, Copy, Debug)]
pub struct TransportPacket {
    pub reply_to: ReplyTo,
    pub payload: NarrowWaist,
}

impl TransportPacket {
    /// The packet sent with `reply_to` as its return address.
    pub fn new(reply_to: ReplyTo, payload: NarrowWaist) -> (r: TransportPacket)
        ensures
            r == (TransportPacket { reply_to, payload }),
    {
        TransportPacket { reply_to, payload }
    }

    /// The narrow waist packet carried.
    pub fn payload(&self) -> (r: NarrowWaist)
        ensures
            r == self.payload,
    {
        self.payload
    }

    /// The return address.
    pub fn reply_to(&self) -> (r: ReplyTo)
        ensures
            r == self.reply_to,
    {
        self.reply_to
    }
}

/// A packet handed between the links of a node.
pub struct InterLinkPacket {
    pub link: Link,
    pub nw: NarrowWaist,
}

impl InterLinkPacket {
    /// The packet `nw` on `link`.
    pub fn new(link: Link, nw: NarrowWaist) -> (r: Self)
        ensures
            r.link == link,
            r.nw == nw,
    {
        Self { link, nw }
    }

    /// A copy of the link the packet is on.
    pub fn link(&self) -> (r: Link)
        ensures
            r.id() == self.link.id(),
            r.pending() == self.link.pending(),
            r.hints() == self.link.hints(),
            r.forwarded() == self.link.forwarded(),
    {
        self.link.clone()
    }

    /// The same packet on another link.
    pub fn change_destination(&self, link: Link) -> (r: Self)
        ensures
            r.link == link,
            r.nw == self.nw,
    {
        Self { link, nw: self.nw }
    }

    /// The address of the link the packet is on.
    pub fn reply_to(&self) -> (r: ReplyTo)
        ensures
            r == self.link.id().spec_reply_to(),
    {
        self.link.link_id().reply_to()
    }

    /// The narrow waist packet carried.
    pub fn narrow_waist(&self) -> (r: NarrowWaist)
        ensures
            r == self.nw,
    {
        self.nw
    }
}

} // verus!
