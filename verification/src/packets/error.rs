//! Errors of the packet formats.
use vstd::prelude::*;

verus! {

/// Why bytes could not be read as a packet, or a value could not be made.
#[derive(Debug, Clone, Copy, PartialEq, Eq, Structural)]
pub enum PacketError {
    /// The bytes of an HBFI have a length that is neither form's.
    UnrecognisedHbfiLength,
    /// The bytes of a reply-to address start with an unknown type number.
    UnrecognisedReplyTo(u16),
    /// A reply-to address could not be decoded.
    ReplyToDecoding,
    /// A data fragment was not made of exactly one fragment of bytes.
    WrongFragmentLength,
}

} // verus!
