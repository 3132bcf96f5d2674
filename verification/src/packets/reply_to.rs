//! Where the answer to a packet has to be sent, and its byte form.
use vstd::prelude::*;
use crate::common::{append_bytes, spec_u16_from_be, u16_to_u8, u8_to_u16};
use crate::packets::error::PacketError;

verus! {

/// Radio frequency.
pub type Hertz = u32;

/// An IPv4 socket address: four address bytes and a port.
#[derive(Clone, Copy, Debug, PartialEq, Eq, Hash)]
pub struct SocketAddressV4 {
    pub ip: [u8; 4],
    pub port: u16,
}

/// An IPv6 socket address: sixteen address bytes and a port.
#[derive(Clone, Copy, Debug, Eq, Hash)]
pub struct SocketAddressV6 {
    pub ip: [u8; 16],
    pub port: u16,
}

impl PartialEq for SocketAddressV6 {
    fn eq(&self, other: &Self) -> (r: bool) {
        let mut i: usize = 0;
        while i < 16
            invariant
                i <= 16,
                forall|j: int| 0 <= j < i ==> self.ip[j] == other.ip[j],
            decreases 16 - i,
        {
            if self.ip[i] != other.ip[i] {
                return false;
            }
            i = i + 1;
        }
        assert(self.ip =~= other.ip);
        self.port == other.port
    }
}

impl vstd::std_specs::cmp::PartialEqSpecImpl for SocketAddressV6 {
    open spec fn obeys_eq_spec() -> bool {
        true
    }

    open spec fn eq_spec(&self, other: &Self) -> bool {
        *self == *other
    }
}

/// The way back to the sender of a packet.
#[derive(Clone, Copy, Debug, PartialEq, Eq, Hash)]
pub enum ReplyTo {
    Mpsc,
    UdpIpV4(SocketAddressV4),
    UdpIpV6(SocketAddressV6),
    Rf(Hertz),
}

/// Type number of `ReplyTo::Mpsc`.
pub const REPLY_TO_MPSC_INDEX: u16 = 0;
/// Type number of `ReplyTo::UdpIpV4`.
pub const REPLY_TO_UDPIPV4_INDEX: u16 = 1;
/// Type number of `ReplyTo::UdpIpV6`.
pub const REPLY_TO_UDPIPV6_INDEX: u16 = 2;
/// Type number of `ReplyTo::Rf`.
pub const REPLY_TO_RF_INDEX: u16 = 3;
/// Bytes after the type number: room for the longest address.
pub const REPLY_TO_SIZE: usize = 18;

/// Little-endian bytes of a `u16`.
pub open spec fn le_bytes_u16(x: u16) -> Seq<u8> {
    seq![(x % 256) as u8, (x / 256) as u8]
}

/// Little-endian bytes of a `u32`.
pub open spec fn le_bytes_u32(x: u32) -> Seq<u8> {
    seq![(x % 256) as u8, ((x / 256) % 256) as u8, ((x / 65536) % 256) as u8, (x / 16777216) as u8]
}

/// Little-endian value of four bytes.
pub open spec fn le_value_u32(s: Seq<u8>) -> u32 {
    (s[0] as int + 256 * s[1] as int + 65536 * s[2] as int + 16777216 * s[3] as int) as u32
}

/// Little-endian value of two bytes.
pub open spec fn le_value_u16(s: Seq<u8>) -> u16 {
    (s[0] as int + 256 * s[1] as int) as u16
}

/// Writing the little-endian value of four bytes gives the bytes back.
pub proof fn lemma_le_u32_roundtrip(s: Seq<u8>)
    requires
        s.len() == 4,
    ensures
        le_bytes_u32(le_value_u32(s)) == s,
{
    let (b0, b1, b2, b3) = (s[0], s[1], s[2], s[3]);
    let v: u32 = le_value_u32(s);
    assert(v == (b0 as u32) + 256 * (b1 as u32) + 65536 * (b2 as u32) + 16777216 * (b3 as u32));
    assert((v % 256) as u8 == b0 && ((v / 256) % 256) as u8 == b1 && ((v / 65536) % 256) as u8 == b2
        && (v / 16777216) as u8 == b3) by (bit_vector)
        requires
            v == (b0 as u32) + 256 * (b1 as u32) + 65536 * (b2 as u32) + 16777216 * (b3 as u32),
    ;
    assert(le_bytes_u32(v) =~= s);
}

/// Reading the little-endian bytes of a `u32` gives it back.
pub proof fn lemma_le_u32_value(x: u32)
    ensures
        le_value_u32(le_bytes_u32(x)) == x,
{
    assert(((x % 256) as u8) as u32 + 256 * (((x / 256) % 256) as u8) as u32 + 65536 * (((x / 65536)
        % 256) as u8) as u32 + 16777216 * ((x / 16777216) as u8) as u32 == x) by (bit_vector);
}

/// Writing the little-endian value of two bytes gives the bytes back.
pub proof fn lemma_le_u16_roundtrip(s: Seq<u8>)
    requires
        s.len() == 2,
    ensures
        le_bytes_u16(le_value_u16(s)) == s,
{
    let (b0, b1) = (s[0], s[1]);
    let v: u16 = le_value_u16(s);
    assert(v == (b0 as u16) + 256 * (b1 as u16));
    assert((v % 256) as u8 == b0 && (v / 256) as u8 == b1) by (bit_vector)
        requires
            v == (b0 as u16) + 256 * (b1 as u16),
    ;
    assert(le_bytes_u16(v) =~= s);
}

/// Reading the little-endian bytes of a `u16` gives it back.
pub proof fn lemma_le_u16_value(x: u16)
    ensures
        le_value_u16(le_bytes_u16(x)) == x,
{
    assert(((x % 256) as u8) as u16 + 256 * ((x / 256) as u8) as u16 == x) by (bit_vector);
}

/// `bincode::serialize(&hz)`: the four little-endian bytes of a frequency
/// (bincode writes a `u32` without failing).
#[verifier::external_body]
fn bincode_serialize_hertz(hz: u32) -> (r: Vec<u8>)
    ensures
        r@ == le_bytes_u32(hz),
{
    match bincode::serialize(&hz) {
        Ok(v) => v,
        Err(_) => Vec::new(),
    }
}

/// `bincode::deserialize::<u32>(bytes)`: the frequency in the first four
/// bytes, little-endian; none when fewer are given.
#[verifier::external_body]
fn bincode_deserialize_hertz(bytes: &[u8]) -> (r: Option<u32>)
    ensures
        bytes@.len() >= 4 ==> r == Some(le_value_u32(bytes@)),
        bytes@.len() < 4 ==> r is None,
{
    match bincode::deserialize::<u32>(bytes) {
        Ok(v) => Some(v),
        Err(_) => None,
    }
}

/// `bincode::serialize(&(ip, port))` of an IPv4 socket address: the four
/// address bytes, then the port little-endian (bincode writes these without
/// failing).
#[verifier::external_body]
fn bincode_serialize_v4(addr: SocketAddressV4) -> (r: Vec<u8>)
    ensures
        r@ == addr.ip@ + le_bytes_u16(addr.port),
{
    match bincode::serialize(&(addr.ip, addr.port)) {
        Ok(v) => v,
        Err(_) => Vec::new(),
    }
}

/// `bincode::deserialize::<([u8; 4], u16)>(bytes)`: the IPv4 socket address
/// in the first six bytes; none when fewer are given.
#[verifier::external_body]
fn bincode_deserialize_v4(bytes: &[u8]) -> (r: Option<SocketAddressV4>)
    ensures
        bytes@.len() >= 6 ==> r is Some,
        bytes@.len() >= 6 ==> r.unwrap().ip@ == bytes@.subrange(0, 4),
        bytes@.len() >= 6 ==> r.unwrap().port == le_value_u16(bytes@.subrange(4, 6)),
        bytes@.len() < 6 ==> r is None,
{
    match bincode::deserialize::<([u8; 4], u16)>(bytes) {
        Ok((ip, port)) => Some(SocketAddressV4 { ip, port }),
        Err(_) => None,
    }
}

/// `bincode::serialize(&(ip, port))` of an IPv6 socket address: the sixteen
/// address bytes, then the port little-endian (bincode writes these without
/// failing).
#[verifier::external_body]
fn bincode_serialize_v6(addr: SocketAddressV6) -> (r: Vec<u8>)
    ensures
        r@ == addr.ip@ + le_bytes_u16(addr.port),
{
    match bincode::serialize(&(addr.ip, addr.port)) {
        Ok(v) => v,
        Err(_) => Vec::new(),
    }
}

/// `bincode::deserialize::<([u8; 16], u16)>(bytes)`: the IPv6 socket address
/// in the first eighteen bytes; none when fewer are given.
#[verifier::external_body]
fn bincode_deserialize_v6(bytes: &[u8]) -> (r: Option<SocketAddressV6>)
    ensures
        bytes@.len() >= 18 ==> r is Some,
        bytes@.len() >= 18 ==> r.unwrap().ip@ == bytes@.subrange(0, 16),
        bytes@.len() >= 18 ==> r.unwrap().port == le_value_u16(bytes@.subrange(16, 18)),
        bytes@.len() < 18 ==> r is None,
{
    match bincode::deserialize::<([u8; 16], u16)>(bytes) {
        Ok((ip, port)) => Some(SocketAddressV6 { ip, port }),
        Err(_) => None,
    }
}

/// The type number and address bytes of a reply-to address.
pub open spec fn spec_reply_to_parts(r: ReplyTo) -> (u16, Seq<u8>) {
    match r {
        ReplyTo::Mpsc => (REPLY_TO_MPSC_INDEX, Seq::<u8>::empty()),
        ReplyTo::Rf(hz) => (REPLY_TO_RF_INDEX, le_bytes_u32(hz)),
        ReplyTo::UdpIpV4(a) => (
            REPLY_TO_UDPIPV4_INDEX,
            a.ip@ + le_bytes_u16(a.port),
        ),
        ReplyTo::UdpIpV6(a) => (REPLY_TO_UDPIPV6_INDEX, a.ip@ + le_bytes_u16(a.port)),
    }
}

/// The bytes of a reply-to address: the type number big-endian, the address
/// bytes, and zeros up to twenty bytes.
pub open spec fn spec_reply_to_bytes(r: ReplyTo) -> Seq<u8> {
    let (tag, addr) = spec_reply_to_parts(r);
    seq![(tag / 256) as u8, (tag % 256) as u8] + addr + Seq::new(
        (REPLY_TO_SIZE - addr.len()) as nat,
        |i: int| 0u8,
    )
}

/// The type number at the start of `data`.
pub open spec fn spec_reply_to_tag(data: Seq<u8>) -> u16 {
    spec_u16_from_be(data[0], data[1])
}

/// Whether `data` is long enough for the address its type number announces.
pub open spec fn reply_to_readable(data: Seq<u8>) -> bool {
    &&& data.len() >= 2
    &&& spec_reply_to_tag(data) == REPLY_TO_RF_INDEX ==> data.len() >= 6
    &&& spec_reply_to_tag(data) == REPLY_TO_UDPIPV4_INDEX ==> data.len() >= 8
    &&& spec_reply_to_tag(data) == REPLY_TO_UDPIPV6_INDEX ==> data.len() >= 20
}

/// Whether the type number of `data` is one of the four known.
pub open spec fn reply_to_known_tag(t: u16) -> bool {
    t == REPLY_TO_MPSC_INDEX || t == REPLY_TO_UDPIPV4_INDEX || t == REPLY_TO_UDPIPV6_INDEX || t
        == REPLY_TO_RF_INDEX
}

impl ReplyTo {
    /// The reply-to address held in `data`; an error naming the type number
    /// when it is not one of the four known.
    pub fn from_bytes(data: &[u8]) -> (r: Result<Self, PacketError>)
        requires
            reply_to_readable(data@),
        ensures
            reply_to_known_tag(spec_reply_to_tag(data@)) ==> (r matches Ok(rt)
                && spec_reply_to_parts(rt).0 == spec_reply_to_tag(data@)
                && spec_reply_to_parts(rt).1 == data@.subrange(2, 2 + spec_reply_to_parts(rt).1.len() as int)),
            !reply_to_known_tag(spec_reply_to_tag(data@)) ==> r == Err::<ReplyTo, PacketError>(
                PacketError::UnrecognisedReplyTo(spec_reply_to_tag(data@)),
            ),
    {
        let reply_to_index = u8_to_u16([data[0], data[1]]);
        if reply_to_index == REPLY_TO_MPSC_INDEX {
            Ok(ReplyTo::Mpsc)
        } else if reply_to_index == REPLY_TO_RF_INDEX {
            let address = vstd::slice::slice_subrange(data, 2, 6);
            match bincode_deserialize_hertz(address) {
                Some(hz) => {
                    proof {
                        lemma_le_u32_roundtrip(data@.subrange(2, 6));
                    }
                    assert(le_bytes_u32(hz) =~= data@.subrange(2, 6));
                    Ok(ReplyTo::Rf(hz))
                },
                None => Err(PacketError::ReplyToDecoding),
            }
        } else if reply_to_index == REPLY_TO_UDPIPV4_INDEX {
            let address = vstd::slice::slice_subrange(data, 2, 8);
            match bincode_deserialize_v4(address) {
                Some(a) => {
                    proof {
                        lemma_le_u16_roundtrip(data@.subrange(6, 8));
                    }
                    assert(a.ip@ + le_bytes_u16(a.port)
                        =~= data@.subrange(2, 8));
                    Ok(ReplyTo::UdpIpV4(a))
                },
                None => Err(PacketError::ReplyToDecoding),
            }
        } else if reply_to_index == REPLY_TO_UDPIPV6_INDEX {
            let address = vstd::slice::slice_subrange(data, 2, 20);
            match bincode_deserialize_v6(address) {
                Some(a) => {
                    proof {
                        lemma_le_u16_roundtrip(data@.subrange(18, 20));
                    }
                    assert(a.ip@ + le_bytes_u16(a.port) =~= data@.subrange(2, 20));
                    Ok(ReplyTo::UdpIpV6(a))
                },
                None => Err(PacketError::ReplyToDecoding),
            }
        } else {
            Err(PacketError::UnrecognisedReplyTo(reply_to_index))
        }
    }

    /// The twenty bytes of this reply-to address.
    pub fn as_bytes(&self) -> (r: Result<Vec<u8>, PacketError>)
        ensures
            r matches Ok(v) && v@ == spec_reply_to_bytes(*self),
    {
        let mut buf: Vec<u8> = Vec::new();
        let padding = [0u8; 18];
        let (tag, address) = match self {
            ReplyTo::Mpsc => (REPLY_TO_MPSC_INDEX, Vec::new()),
            ReplyTo::Rf(hz) => (REPLY_TO_RF_INDEX, bincode_serialize_hertz(*hz)),
            ReplyTo::UdpIpV4(a) => (REPLY_TO_UDPIPV4_INDEX, bincode_serialize_v4(*a)),
            ReplyTo::UdpIpV6(a) => (REPLY_TO_UDPIPV6_INDEX, bincode_serialize_v6(*a)),
        };
        append_bytes(&mut buf, &u16_to_u8(tag));
        append_bytes(&mut buf, address.as_slice());
        let rest = vstd::slice::slice_subrange(padding.as_slice(), address.len(), REPLY_TO_SIZE);
        append_bytes(&mut buf, rest);
        assert(buf@ =~= spec_reply_to_bytes(*self));
        Ok(buf)
    }
}

} // verus!

verus! {

/// The bytes of a reply-to address can be read, and whatever `from_bytes`
/// reads from them is that address again.
pub proof fn lemma_reply_to_roundtrip(r: ReplyTo, rt: ReplyTo)
    requires
        spec_reply_to_parts(rt).0 == spec_reply_to_tag(spec_reply_to_bytes(r)),
        spec_reply_to_parts(rt).1 == spec_reply_to_bytes(r).subrange(
            2,
            2 + spec_reply_to_parts(rt).1.len() as int,
        ),
    ensures
        reply_to_readable(spec_reply_to_bytes(r)),
        reply_to_known_tag(spec_reply_to_tag(spec_reply_to_bytes(r))),
        rt == r,
{
    let b = spec_reply_to_bytes(r);
    let (tag, addr) = spec_reply_to_parts(r);
    assert(b.subrange(2, 2 + addr.len() as int) =~= addr);
    assert(tag < 4);
    assert(spec_reply_to_tag(b) == tag) by {
        assert(b[0] == (tag / 256) as u8 && b[1] == (tag % 256) as u8);
    }
    match (r, rt) {
        (ReplyTo::Rf(x), ReplyTo::Rf(y)) => {
            lemma_le_u32_value(x);
            lemma_le_u32_value(y);
        },
        (ReplyTo::UdpIpV4(x), ReplyTo::UdpIpV4(y)) => {
            let sx = x.ip@ + le_bytes_u16(x.port);
            let sy = y.ip@ + le_bytes_u16(y.port);
            assert(sx.subrange(0, 4) =~= x.ip@);
            assert(sy.subrange(0, 4) =~= y.ip@);
            assert(sx.subrange(4, 6) =~= le_bytes_u16(x.port));
            assert(sy.subrange(4, 6) =~= le_bytes_u16(y.port));
            lemma_le_u16_value(x.port);
            lemma_le_u16_value(y.port);
            assert(x.ip =~= y.ip);
        },
        (ReplyTo::UdpIpV6(x), ReplyTo::UdpIpV6(y)) => {
            let sx = x.ip@ + le_bytes_u16(x.port);
            let sy = y.ip@ + le_bytes_u16(y.port);
            assert(sx.subrange(0, 16) =~= x.ip@);
            assert(sy.subrange(0, 16) =~= y.ip@);
            assert(sx.subrange(16, 18) =~= le_bytes_u16(x.port));
            assert(sy.subrange(16, 18) =~= le_bytes_u16(y.port));
            lemma_le_u16_value(x.port);
            lemma_le_u16_value(y.port);
            assert(x.ip =~= y.ip);
        },
        _ => {},
    }
}

} // verus!
