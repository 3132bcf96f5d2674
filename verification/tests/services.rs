use copernica::packets::data::Data;
use copernica::packets::hbfi::HBFI;
use copernica::packets::identity::{PublicIdentity, PublicIdentityInterface};
use copernica::packets::narrow_waist::NarrowWaistPacket;
use copernica::services::fetch::{Fetch, FetchStep};

fn fragment(payload: &[u8]) -> Data {
    let mut raw = [0u8; 1024];
    raw[..payload.len()].copy_from_slice(payload);
    raw[1022] = (payload.len() >> 8) as u8;
    raw[1023] = payload.len() as u8;
    Data(raw)
}

fn content() -> HBFI {
    HBFI::new(PublicIdentityInterface::Absent, PublicIdentity::from([5u8; 64]), "a", "b", "c", "d").unwrap()
}

#[test]
fn fetch_joins_payloads_in_frame_order() {
    let h = content();
    let mut f = Fetch::new(h, 2, 4);
    assert_eq!(f.frame(), Some(h.offset(2)));
    let step = f.on_lookup(Some(NarrowWaistPacket::Response { hbfi: h.offset(2), data: fragment(b"ab") }));
    assert!(matches!(step, FetchStep::Continue));
    assert_eq!(f.frame(), Some(h.offset(3)));
    match f.on_lookup(None) {
        FetchStep::Await(asked) => assert_eq!(asked, h.offset(3)),
        _ => panic!("expected to wait"),
    }
    f.on_arrival(NarrowWaistPacket::Response { hbfi: h.offset(3), data: fragment(b"cd") });
    f.on_lookup(Some(NarrowWaistPacket::Request { hbfi: h.offset(4) }));
    assert_eq!(f.frame(), None);
    assert_eq!(f.collected(), b"abcd".to_vec());
}

#[test]
fn fetch_of_an_empty_range() {
    let f = Fetch::new(content(), 3, 2);
    assert_eq!(f.frame(), None);
    assert!(f.collected().is_empty());
}
