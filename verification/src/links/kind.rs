//! Which kind of address each kind of link accepts.
use vstd::prelude::*;
use crate::links::framing::LinkError;
use crate::packets::reply_to::ReplyTo;

verus! {

/// A channel link (plain or corrupting) accepts only a channel address.
pub fn expect_mpsc(reply_to: &ReplyTo) -> (r: Result<(), LinkError>)
    ensures
        r == if *reply_to is Mpsc {
            Ok::<(), LinkError>(())
        } else {
            Err::<(), LinkError>(LinkError::ExpectedMpsc)
        },
{
    match reply_to {
        ReplyTo::Mpsc => Ok(()),
        _ => Err(LinkError::ExpectedMpsc),
    }
}

/// A UDP link accepts only a UDP address, IPv4 or IPv6.
pub fn expect_udp(reply_to: &ReplyTo) -> (r: Result<(), LinkError>)
    ensures
        r == if *reply_to is UdpIpV4 || *reply_to is UdpIpV6 {
            Ok::<(), LinkError>(())
        } else {
            Err::<(), LinkError>(LinkError::ExpectedUdpIp)
        },
{
    match reply_to {
        ReplyTo::UdpIpV4 { .. } => Ok(()),
        ReplyTo::UdpIpV6 { .. } => Ok(()),
        _ => Err(LinkError::ExpectedUdpIp),
    }
}

} // verus!
