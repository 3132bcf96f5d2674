use copernica::node::hbfi::bloom_filter_index;

#[test]
fn sdri_test_bloom_filter_index() {
    let actual = bloom_filter_index("9".into()).unwrap();
    let expected: [u16; 8] = [4804, 63297, 3290, 20147, 12703, 41640, 34712, 48343];
    assert_eq!(actual, expected);
}

use copernica::node::bloom_filter::BloomFilter;
use copernica::node::copernica::{Copernica, NodeError};
use copernica::node::hbfi::HBFI;
use copernica::node::identity::{decrypt_identity, encrypt_identity, read_identity, IdentityError};
use copernica::node::link::{Link, LinkId, ReplyTo};
use copernica::node::packer::Packer;
use copernica::node::packets::{Data, NarrowWaist, TransportPacket};
use copernica::node::router::handle_packet;
use copernica::node::sdri::Sdri;

#[test]
fn node_hbfi_test_bloom_filter_index() {
    let actual = copernica::node::hbfi::bloom_filter_index("9").unwrap();
    let expected: [u16; 8] = [4804, 63297, 3290, 20147, 12703, 41640, 34712, 48343];
    assert_eq!(actual, expected);
}

fn name(h1: &str) -> HBFI {
    HBFI::new(h1, "publisher").unwrap()
}

#[test]
fn bloom_filter_holds_what_was_inserted() {
    let mut f = BloomFilter::new();
    let h = name("a/b/c");
    assert_eq!(f.contains(&h), 0);
    f.insert(&h);
    assert_eq!(f.contains(&h), 100);
    f.delete(&h);
    assert_eq!(f.contains(&h), 0);
    assert_eq!(f.decoherence(), 0);
}

#[test]
fn hbfi_offset_and_new() {
    let h = name("x").offset(42);
    assert_eq!(h.os, 42);
    assert_eq!(h.h1, copernica::node::hbfi::bloom_filter_index("x").unwrap());
    assert_eq!(h.id, copernica::node::hbfi::bloom_filter_index("publisher").unwrap());
}

#[test]
fn sdri_reads_each_form() {
    let idx = |s: &str| copernica::node::hbfi::bloom_filter_index(s).unwrap();
    let one = Sdri::new("alice".to_string()).unwrap();
    assert_eq!(one, Sdri { id: idx("alice"), name: None, seq: None });
    let two = Sdri::new("alice::photos".to_string()).unwrap();
    assert_eq!(two, Sdri { id: idx("alice"), name: Some(idx("alicephotos")), seq: None });
    let three = Sdri::new("alice::photos::12".to_string()).unwrap();
    assert_eq!(three, Sdri { id: idx("alice"), name: Some(idx("alicephotos")), seq: Some(12) });
}

fn tp(reply_to: ReplyTo, payload: NarrowWaist) -> TransportPacket {
    TransportPacket::new(reply_to, payload)
}

#[test]
fn router_forwards_a_request_to_the_other_links() {
    let a = LinkId::new(ReplyTo::Mpsc, 1);
    let b = LinkId::new(ReplyTo::Mpsc, 2);
    let c = LinkId::new(ReplyTo::Mpsc, 3);
    let mut links = vec![Link::new(a), Link::new(b), Link::new(c)];
    let h = name("content");
    let outcome = handle_packet(&a, &tp(ReplyTo::Mpsc, NarrowWaist::Request { hbfi: h }), None, &mut links);
    let targets: Vec<u16> = outcome.sends.iter().map(|(id, _)| id.nonce()).collect();
    assert_eq!(targets, vec![2, 3]);
    assert!(outcome.store.is_none());
    assert_eq!(links[0].contains_pending_request(&h), 100);
    assert_eq!(links[1].contains_forwarded_request(&h), 100);
    assert_eq!(links[2].contains_forwarded_request(&h), 100);
}

#[test]
fn router_answers_a_request_from_the_store() {
    let a = LinkId::new(ReplyTo::Mpsc, 1);
    let b = LinkId::new(ReplyTo::Mpsc, 2);
    let mut links = vec![Link::new(a), Link::new(b)];
    let h = name("content");
    let stored = NarrowWaist::Response { hbfi: h, data: Data { len: 0, data: [0u8; 1024] }, offset: 0, total: 1 };
    let outcome = handle_packet(&a, &tp(ReplyTo::Rf(7), NarrowWaist::Request { hbfi: h }), Some(stored), &mut links);
    assert_eq!(outcome.sends.len(), 1);
    assert_eq!(outcome.sends[0].0.nonce(), 1);
    assert_eq!(outcome.sends[0].1.reply_to, ReplyTo::Rf(7));
}

#[test]
fn router_sends_a_response_back_where_the_request_came_from() {
    let a = LinkId::new(ReplyTo::Mpsc, 1);
    let b = LinkId::new(ReplyTo::Mpsc, 2);
    let mut links = vec![Link::new(a), Link::new(b)];
    let h = name("content");
    handle_packet(&a, &tp(ReplyTo::Mpsc, NarrowWaist::Request { hbfi: h }), None, &mut links);
    let response = NarrowWaist::Response { hbfi: h, data: Data { len: 0, data: [0u8; 1024] }, offset: 0, total: 1 };
    let outcome = handle_packet(&b, &tp(ReplyTo::Mpsc, response), None, &mut links);
    let targets: Vec<u16> = outcome.sends.iter().map(|(id, _)| id.nonce()).collect();
    assert_eq!(targets, vec![1]);
    assert!(outcome.store.is_some());
    let unasked = handle_packet(&a, &tp(ReplyTo::Mpsc, response), None, &mut links);
    assert!(unasked.sends.is_empty());
    assert!(unasked.store.is_none());
}

fn name_at_the_last_position() -> HBFI {
    let mut h = name("content");
    h.h1[0] = 65535;
    h
}

#[test]
fn router_ignores_a_packet_from_an_unknown_link() {
    let a = LinkId::new(ReplyTo::Mpsc, 1);
    let b = LinkId::new(ReplyTo::Mpsc, 2);
    let stranger = LinkId::new(ReplyTo::Mpsc, 9);
    let mut links = vec![Link::new(a), Link::new(b)];
    let h = name_at_the_last_position();
    let outcome = handle_packet(&stranger, &tp(ReplyTo::Mpsc, NarrowWaist::Request { hbfi: h }), None, &mut links);
    assert!(outcome.sends.is_empty());
    assert!(outcome.store.is_none());
    assert_eq!(links[0].pending_request_decoherence(), 0);
    assert_eq!(links[1].forwarded_request_decoherence(), 0);
}

#[test]
fn router_answers_from_the_store_whatever_the_name() {
    let a = LinkId::new(ReplyTo::Mpsc, 1);
    let b = LinkId::new(ReplyTo::Mpsc, 2);
    let mut links = vec![Link::new(a), Link::new(b)];
    let h = name_at_the_last_position();
    let stored = NarrowWaist::Response { hbfi: h, data: Data { len: 0, data: [0u8; 1024] }, offset: 0, total: 1 };
    let outcome = handle_packet(&a, &tp(ReplyTo::Mpsc, NarrowWaist::Request { hbfi: h }), Some(stored), &mut links);
    assert_eq!(outcome.sends.len(), 1);
    assert_eq!(outcome.sends[0].0.nonce(), 1);
    assert!(outcome.store.is_none());
    assert_eq!(links[0].pending_request_decoherence(), 0);
    assert_eq!(links[1].forwarded_request_decoherence(), 0);
}

#[test]
fn links_are_registered_once() {
    let mut node = Copernica::new();
    let a = LinkId::new(ReplyTo::Mpsc, 1);
    assert_eq!(node.create_link(a), Ok(()));
    assert!(node.contains(&a));
    assert_eq!(node.create_link(a), Err(NodeError::DuplicateLink));
    let b = LinkId::new(ReplyTo::Mpsc, 2);
    assert!(!node.contains(&b));
    node.route(&b, &tp(ReplyTo::Mpsc, NarrowWaist::Request { hbfi: name("z") }), None);
    assert!(node.contains(&b));
}

#[test]
fn link_id_keeps_a_given_nonce() {
    let id = LinkId::new(ReplyTo::Rf(9), 77);
    assert_eq!(id.nonce(), 77);
    assert_eq!(id.reply_to(), ReplyTo::Rf(9));
}

#[test]
fn packer_offsets() {
    let files = vec![
        ("/d/a".to_string(), 0u64),
        ("/d/b".to_string(), 10u64),
        ("/d/c".to_string(), 2048u64),
        ("/d/e".to_string(), 2049u64),
    ];
    let p = Packer::new("/d", "/out", files);
    assert_eq!(p.offset(&0), 0);
    assert_eq!(p.offset(&10), 1);
    assert_eq!(p.offset(&2048), 3);
    assert_eq!(p.offset(&2049), 4);
    assert_eq!(p.publish_offsets(), (vec![0, 0, 2, 3], 5));
}

#[test]
fn packer_needs_a_named_directory() {
    assert!(Packer::checked_new("/", "/out", vec![]).is_none());
    assert!(Packer::checked_new("/d/..", "/out", vec![]).is_none());
    let p = Packer::checked_new("/d/content", "/out", vec![]).unwrap();
    assert_eq!(p.offset(&1), 1);
}

const SK: &str = "ed25519e_sk1qqqqqqqqqqqqqqqqqqqqqqqqqqqqqqqqqqqqqqqqqqqqqqqqqqqqqqqqq";
const PK: &str = "ed25519_pk1qqqqqqqqqqqqqqqqqqqqqqqqqqqqqqqqqqqqqqqqqqqqqqqqqqqqqqqqqq";

#[test]
fn identity_reads_back_under_its_password() {
    assert_eq!(SK.len(), 69);
    assert_eq!(PK.len(), 69);
    let digest = encrypt_identity("hunter2".to_string(), PK.to_string(), &SK.to_string());
    let back = decrypt_identity("hunter2".to_string(), digest.clone());
    assert_eq!(back, Some((SK.to_string(), PK.to_string())));
    assert_eq!(decrypt_identity("wrong".to_string(), digest.clone()), None);
    assert_eq!(read_identity("hunter2".to_string(), digest), Ok(Some((SK.to_string(), PK.to_string()))));
}

#[test]
fn identity_digests_differ_by_salt() {
    let d1 = encrypt_identity("p".to_string(), PK.to_string(), &SK.to_string());
    let d2 = encrypt_identity("p".to_string(), PK.to_string(), &SK.to_string());
    assert_ne!(d1, d2);
}

#[test]
fn malformed_identity_digests_are_refused() {
    assert_eq!(read_identity("p".to_string(), "not base64!".to_string()), Err(IdentityError::Malformed));
    assert_eq!(read_identity("p".to_string(), "AAAA".to_string()), Err(IdentityError::Malformed));
}

#[test]
fn identity_digest_layout_hides_the_secret() {
    let digest = encrypt_identity("hunter2".to_string(), PK.to_string(), &SK.to_string());
    let raw = base64::decode(&digest).unwrap();
    assert_eq!(raw.len(), 69 + 16 + 12 + 69 + 16);
    assert_eq!(&raw[..69], PK.as_bytes());
    assert_ne!(&raw[97..166], SK.as_bytes());
    let mut damaged = raw.clone();
    damaged[100] ^= 1;
    assert_eq!(decrypt_identity("hunter2".to_string(), base64::encode(&damaged)), None);
}
