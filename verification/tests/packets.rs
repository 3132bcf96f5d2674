use copernica::packets::bfi::BFI;
use copernica::packets::hbfi::bloom_filter_index;

#[test]
fn hbfi_test_bloom_filter_index() {
    let actual = bloom_filter_index("9".into()).unwrap();
    let expected = BFI([19283, 50425, 20212, 47266]);
    assert_eq!(actual, expected);
}

use copernica::packets::data::Data;
use copernica::packets::error::PacketError;
use copernica::packets::hbfi::HBFI;
use copernica::packets::identity::{PublicIdentity, PublicIdentityInterface};
use copernica::packets::reply_to::{ReplyTo, SocketAddressV4, SocketAddressV6};
use copernica::packets::hbfi_exclude_frame::HBFIExcludeFrame;

fn identity(seed: u8) -> PublicIdentity {
    let mut b = [0u8; 64];
    for (i, x) in b.iter_mut().enumerate() {
        *x = seed.wrapping_mul(17).wrapping_add(i as u8);
    }
    PublicIdentity::from(b)
}

#[test]
fn bfi_bytes_are_big_endian() {
    let b = BFI([0x0102, 0xa0b0, 0, 65534]);
    let bytes = b.to_bytes();
    assert_eq!(bytes, [1, 2, 0xa0, 0xb0, 0, 0, 0xff, 0xfe]);
    assert_eq!(BFI::from_bytes(bytes), b);
}

#[test]
fn identity_text_is_bech32_under_id() {
    let id = identity(1);
    let text = id.to_string();
    assert!(text.starts_with("id1"));
    assert_eq!(text.len(), 3 + 103 + 6);
    assert_ne!(text, identity(2).to_string());
}

#[test]
fn identity_halves() {
    let id = identity(3);
    assert_eq!(&id.key()[..], &id.0[..32]);
    assert_eq!(&id.chain_code()[..], &id.0[32..]);
}

#[test]
fn hbfi_new_indexes_each_name() {
    let res = identity(4);
    let h = HBFI::new(PublicIdentityInterface::Absent, res, "app", "mod", "fun", "arg").unwrap();
    assert_eq!(h.res, bloom_filter_index(&res.to_string()).unwrap());
    assert_eq!(h.app, bloom_filter_index("app").unwrap());
    assert_eq!(h.m0d, bloom_filter_index("mod").unwrap());
    assert_eq!(h.fun, bloom_filter_index("fun").unwrap());
    assert_eq!(h.arg, bloom_filter_index("arg").unwrap());
    assert_eq!(h.req, BFI([0, 0, 0, 0]));
    assert_eq!(h.frm, 0);
}

#[test]
fn hbfi_encrypt_for_and_cleartext_repr() {
    let req = PublicIdentityInterface::new(Some(identity(5)));
    let h = HBFI::new(PublicIdentityInterface::Absent, identity(6), "a", "b", "c", "d").unwrap().offset(7);
    let e = h.encrypt_for(req).unwrap();
    assert_eq!(e.request_pid, req);
    assert_eq!(e.req, bloom_filter_index(&identity(5).to_string()).unwrap());
    assert_eq!(e.frm, 7);
    assert_eq!(e.cleartext_repr().unwrap(), h);
}

#[test]
fn hbfi_bytes_round_trip() {
    let h = HBFI::new(PublicIdentityInterface::new(Some(identity(7))), identity(8), "a", "b", "c", "d")
        .unwrap()
        .offset(0x0102030405060708);
    let bytes = h.as_bytes();
    assert_eq!(bytes.len(), 184);
    assert_eq!(&bytes[48..56], &[1, 2, 3, 4, 5, 6, 7, 8]);
    assert_eq!(HBFI::from_bytes(&bytes).unwrap(), h);
    let c = h.cleartext_repr().unwrap();
    assert_eq!(HBFI::from_bytes(&c.as_bytes()).unwrap(), c);
}

#[test]
fn hbfi_from_bytes_rejects_other_lengths() {
    assert_eq!(HBFI::from_bytes(&[0u8; 121]), Err(PacketError::UnrecognisedHbfiLength));
    assert_eq!(HBFI::from_bytes(&[]), Err(PacketError::UnrecognisedHbfiLength));
}

#[test]
fn hbfi_exclude_frame_ignores_the_frame() {
    let h = HBFI::new(PublicIdentityInterface::Absent, identity(9), "a", "b", "c", "d").unwrap();
    assert!(HBFIExcludeFrame(h.offset(1)) == HBFIExcludeFrame(h.offset(99)));
    let other = HBFI::new(PublicIdentityInterface::Absent, identity(9), "a", "b", "c", "e").unwrap();
    assert!(HBFIExcludeFrame(h) != HBFIExcludeFrame(other));
}

#[test]
fn reply_to_round_trips() {
    let all = [
        ReplyTo::Mpsc,
        ReplyTo::UdpIpV4(SocketAddressV4 { ip: [10, 0, 0, 1], port: 8089 }),
        ReplyTo::UdpIpV6(SocketAddressV6 { ip: [1; 16], port: 443 }),
        ReplyTo::Rf(433_000_000),
    ];
    for r in all.iter() {
        let bytes = r.as_bytes().unwrap();
        assert_eq!(bytes.len(), 20);
        assert_eq!(&ReplyTo::from_bytes(&bytes).unwrap(), r);
    }
}

#[test]
fn reply_to_bytes_layout() {
    let r = ReplyTo::UdpIpV4(SocketAddressV4 { ip: [10, 0, 0, 1], port: 0x1f99 });
    let bytes = r.as_bytes().unwrap();
    assert_eq!(&bytes[..8], &[0, 1, 10, 0, 0, 1, 0x99, 0x1f]);
}

#[test]
fn reply_to_rejects_unknown_types() {
    assert_eq!(ReplyTo::from_bytes(&[0, 9, 0, 0]), Err(PacketError::UnrecognisedReplyTo(9)));
}

#[test]
fn data_fragments() {
    assert_eq!(Data::new(&[1, 2, 3]), Err(PacketError::WrongFragmentLength));
    let mut raw = vec![7u8; 1024];
    raw[1022] = 0;
    raw[1023] = 3;
    let d = Data::new(&raw).unwrap();
    assert_eq!(d.data(), Ok(vec![7, 7, 7]));
    assert_eq!(d.as_bytes(), &raw[..]);
}

use copernica::packets::narrow_waist::{NarrowWaistPacket, NarrowWaistPacketReqEqRes, NarrowWaistPacketReqEqResBounds};
use std::cmp::Ordering;

#[test]
fn packets_of_one_frame_are_alike() {
    let h = HBFI::new(PublicIdentityInterface::Absent, identity(10), "a", "b", "c", "d").unwrap();
    let req = NarrowWaistPacketReqEqRes(NarrowWaistPacket::request(h.offset(3)));
    let res = NarrowWaistPacketReqEqRes(NarrowWaistPacket::Response { hbfi: h.offset(3), data: Data([0u8; 1024]) });
    let later = NarrowWaistPacketReqEqRes(NarrowWaistPacket::request(h.offset(4)));
    assert!(req == res);
    assert!(req != later);
    assert_eq!(req.cmp(&later), Ordering::Less);
    assert_eq!(later.cmp(&res), Ordering::Greater);
    assert!(req.contains(&res));
    assert!(!req.contains(&later));
}

#[test]
fn partial_cmp_orders_names_in_full() {
    let a = HBFI::new(PublicIdentityInterface::Absent, identity(11), "a", "b", "c", "d").unwrap();
    let b = HBFI::new(PublicIdentityInterface::new(Some(identity(12))), identity(11), "a", "b", "c", "d").unwrap();
    let c = HBFI::new(PublicIdentityInterface::Absent, identity(13), "x", "y", "z", "w").unwrap();
    for (x, y) in [(a, b), (b, a), (a, c), (c, b), (a, a.offset(9)), (a.offset(9), a)] {
        let px = NarrowWaistPacketReqEqRes(NarrowWaistPacket::request(x));
        let py = NarrowWaistPacketReqEqRes(NarrowWaistPacket::request(y));
        assert_eq!(px.partial_cmp(&py), Some(x.cmp(&y)));
    }
    let pb = NarrowWaistPacketReqEqRes(NarrowWaistPacket::request(b));
    let pa = NarrowWaistPacketReqEqRes(NarrowWaistPacket::request(a));
    assert_eq!(pb.partial_cmp(&pa), Some(Ordering::Less));
}
