use copernica::packets::data::Data;
use copernica::packets::hbfi::{bloom_filter_index, HBFI};
use copernica::packets::identity::{PublicIdentity, PublicIdentityInterface};
use copernica::packets::narrow_waist::NarrowWaistPacket;
use copernica::protocols::echo::{
    echo_checks, echo_decide, echo_hbfi, echo_reply, kind_name, ping_text, reliability_of, EchoAction, EchoError,
    EchoKind,
};
use copernica::protocols::file_packing::{file_chunks, layout_files, offset, FileError, FileManifest};
use copernica::protocols::ftp::{ftp_decide, request_keys, FtpAction};
use copernica::protocols::txrx::{Aimd, Reliability, RequestWindow};

fn identity(seed: u8) -> PublicIdentity {
    let mut b = [0u8; 64];
    for (i, x) in b.iter_mut().enumerate() {
        *x = seed.wrapping_mul(31).wrapping_add(i as u8);
    }
    PublicIdentity::from(b)
}

fn failed(a: Aimd) -> Option<Vec<u64>> {
    match a {
        Aimd::AdditiveIncrease => None,
        Aimd::MultiplicativeDecrease { failed } => Some(failed.into_iter().collect()),
    }
}

#[test]
fn offset_of_an_empty_file() {
    assert_eq!(offset(5, 0, 1024), Ok((5, 0, 0)));
    assert_eq!(offset(5, 0, 0), Ok((5, 0, 0)));
}

#[test]
fn offset_of_a_file_smaller_than_a_chunk() {
    assert_eq!(offset(5, 10, 1024), Ok((5, 5, 1)));
    assert_eq!(offset(5, 1024, 1024), Ok((5, 5, 1)));
}

#[test]
fn offset_of_a_file_of_several_chunks() {
    assert_eq!(offset(1, 2048, 1024), Ok((1, 2, 2)));
    assert_eq!(offset(1, 2049, 1024), Ok((1, 3, 3)));
    assert_eq!(offset(7, 10, 3), Ok((7, 10, 4)));
}

#[test]
fn layout_places_files_one_after_another() {
    let files = vec![
        ("a".to_string(), 2500u64),
        ("empty".to_string(), 0u64),
        ("b".to_string(), 1u64),
        ("c".to_string(), 1024u64),
    ];
    let (manifest, next) = layout_files(&files, 1024, 1);
    assert_eq!(
        manifest.files,
        vec![
            ("a".to_string(), (1, 3)),
            ("empty".to_string(), (4, 0)),
            ("b".to_string(), (4, 4)),
            ("c".to_string(), (5, 5)),
        ]
    );
    assert_eq!(next, 6);
}

#[test]
fn layout_lists_a_path_once_with_its_last_frames() {
    let files = vec![("a".to_string(), 10u64), ("b".to_string(), 5u64), ("a".to_string(), 2000u64)];
    let (manifest, next) = layout_files(&files, 1024, 1);
    assert_eq!(manifest.files, vec![("a".to_string(), (3, 4)), ("b".to_string(), (2, 2))]);
    assert_eq!(manifest.file("a"), Ok((3, 4)));
    assert_eq!(next, 5);
}

#[test]
fn file_chunks_follow_the_frames_and_join_back() {
    let bytes: Vec<u8> = (0..2500u32).map(|i| (i % 251) as u8).collect();
    let chunks = file_chunks(&bytes, 1024);
    assert_eq!(chunks.len(), 3);
    assert_eq!(chunks[0], bytes[..1024].to_vec());
    assert_eq!(chunks[1], bytes[1024..2048].to_vec());
    assert_eq!(chunks[2], bytes[2048..].to_vec());
    assert_eq!(chunks.concat(), bytes);
    assert_eq!(offset(1, 2500, 1024), Ok((1, 3, 3)));
    assert_eq!(file_chunks(&bytes[..2048], 1024).len(), 2);
    assert!(file_chunks(&[], 1024).is_empty());
    assert_eq!(file_chunks(&[1, 2, 3], 2), vec![vec![1, 2], vec![3]]);
}

#[test]
fn each_echo_asks_with_its_reliability() {
    assert_eq!(reliability_of(EchoKind::UnreliableUnordered), Reliability::UnreliableSequenced);
    assert_eq!(reliability_of(EchoKind::UnreliableSequenced), Reliability::UnreliableSequenced);
    assert_eq!(reliability_of(EchoKind::ReliableSequenced), Reliability::ReliableSequenced(0));
    assert_eq!(reliability_of(EchoKind::ReliableUnordered), Reliability::ReliableOrdered);
    assert_eq!(reliability_of(EchoKind::ReliableOrdered), Reliability::ReliableOrdered);
}

#[test]
fn file_manifest_finds_files_by_name() {
    let manifest = FileManifest {
        files: vec![("x/y".to_string(), (1, 4)), ("z".to_string(), (5, 5))],
    };
    assert_eq!(manifest.file("z"), Ok((5, 5)));
    assert_eq!(manifest.file("x/y"), Ok((1, 4)));
    assert_eq!(manifest.file("w"), Err(FileError::FileNotPresent));
    assert_eq!(manifest.file_names(), vec!["x/y".to_string(), "z".to_string()]);
}

#[test]
fn a_new_request_has_every_frame_pending() {
    let mut w = RequestWindow::new(3, 6, 5, Reliability::ReliableOrdered);
    assert!(w.should_continue());
    w.fill_window();
    assert_eq!(w.window(), vec![3]);
    let empty = RequestWindow::new(6, 3, 5, Reliability::ReliableOrdered);
    assert!(!empty.should_continue());
}

#[test]
fn answered_window_grows_by_one() {
    let mut w = RequestWindow::new(0, 9, 3, Reliability::ReliableOrdered);
    w.fill_window();
    assert!(w.observe_response(0, true));
    let outcome = w.window_outcome();
    assert_eq!(failed(outcome.clone()), None);
    w.end_round(true);
    w.process_aimd(outcome);
    w.fill_window();
    assert_eq!(w.window(), vec![1, 2]);
    assert_eq!(w.retries(), 3);
}

#[test]
fn reliable_ordered_asks_again_for_unanswered_frames() {
    let mut w = RequestWindow::new(0, 9, 3, Reliability::ReliableOrdered);
    w.fill_window();
    w.observe_response(0, true);
    w.process_aimd(Aimd::AdditiveIncrease);
    w.fill_window();
    assert_eq!(w.window(), vec![1, 2]);
    assert!(!w.observe_response(2, true));
    w.end_round(false);
    assert_eq!(w.retries(), 2);
    let outcome = w.window_outcome();
    assert_eq!(failed(outcome.clone()), Some(vec![1]));
    w.process_aimd(outcome);
    w.fill_window();
    assert_eq!(w.window(), vec![1]);
    assert_eq!(w.reconstruct(0, 9), vec![0, 2]);
}

#[test]
fn reliable_sequenced_drops_failed_frames_behind_the_head() {
    let mut w = RequestWindow::new(0, 9, 3, Reliability::ReliableSequenced(0));
    w.fill_window();
    w.observe_response(0, true);
    w.process_aimd(Aimd::AdditiveIncrease);
    w.fill_window();
    w.process_aimd(Aimd::AdditiveIncrease);
    assert_eq!(w.window(), vec![1, 2]);
    w.observe_response(5, false);
    let outcome = w.window_outcome();
    assert_eq!(failed(outcome.clone()), Some(vec![1, 2]));
    w.process_aimd(outcome);
    w.fill_window();
    assert_eq!(w.window(), vec![3]);
    w.observe_response(3, true);
    w.process_aimd(Aimd::AdditiveIncrease);
    w.fill_window();
    assert_eq!(w.window(), vec![4, 5]);
}

#[test]
fn reliable_sequenced_asks_again_for_failed_frames_after_the_head() {
    let mut w = RequestWindow::new(0, 9, 3, Reliability::ReliableSequenced(0));
    w.process_aimd(Aimd::AdditiveIncrease);
    w.process_aimd(Aimd::AdditiveIncrease);
    w.fill_window();
    assert_eq!(w.window(), vec![0, 1, 2]);
    w.observe_response(1, true);
    let outcome = w.window_outcome();
    assert_eq!(failed(outcome.clone()), Some(vec![0, 2]));
    w.process_aimd(outcome);
    w.fill_window();
    assert_eq!(w.window(), vec![2]);
}

#[test]
fn unreliable_never_asks_again() {
    let mut w = RequestWindow::new(0, 3, 3, Reliability::UnreliableSequenced);
    w.fill_window();
    let outcome = w.window_outcome();
    assert_eq!(failed(outcome.clone()), Some(vec![]));
    w.process_aimd(outcome);
    w.fill_window();
    assert_eq!(w.window(), vec![1]);
}

#[test]
fn retries_run_out() {
    let mut w = RequestWindow::new(0, 3, 1, Reliability::ReliableOrdered);
    w.fill_window();
    w.end_round(false);
    assert!(!w.should_continue());
}

#[test]
fn echo_replies_spell_pong() {
    let replies: Vec<Vec<u8>> = (0..4).map(echo_reply).collect();
    assert_eq!(replies[0], vec![1, 0, 0, 0, 0, 0, 0, 0, b'p']);
    assert_eq!(echo_reply(9), vec![4, 0, 0, 0, 0, 0, 0, 0, b'p', b'a', b'n', b'g']);
    assert_eq!(ping_text(&replies), Ok("pong".to_string()));
    assert_eq!(ping_text(&vec![vec![9, 0, 0]]), Err(EchoError::MalformedReply));
}

#[test]
fn echo_responds_to_requests_addressed_to_it() {
    let me = identity(1);
    let checks = echo_checks(&me.to_string());
    let hbfi = echo_hbfi(EchoKind::ReliableOrdered, PublicIdentityInterface::Absent, me).unwrap().offset(2);
    match echo_decide(&checks, &NarrowWaistPacket::Request { hbfi }) {
        EchoAction::Respond { hbfi: h, payload } => {
            assert_eq!(h, hbfi);
            assert_eq!(payload, echo_reply(2));
        },
        _ => panic!("expected a response"),
    }
    let other = echo_hbfi(EchoKind::ReliableOrdered, PublicIdentityInterface::Absent, identity(2)).unwrap();
    assert!(matches!(echo_decide(&checks, &NarrowWaistPacket::Request { hbfi: other }), EchoAction::Ignore));
}

#[test]
fn echo_delivers_responses_by_kind() {
    let me = identity(3);
    let checks = echo_checks(&me.to_string());
    let hbfi = echo_hbfi(EchoKind::UnreliableSequenced, PublicIdentityInterface::Absent, identity(4)).unwrap();
    let packet = NarrowWaistPacket::Response { hbfi, data: Data([0u8; 1024]) };
    assert!(matches!(echo_decide(&checks, &packet), EchoAction::Deliver(EchoKind::UnreliableSequenced)));
    let plain = HBFI::new(PublicIdentityInterface::Absent, identity(4), "echo", "echo", "other", "x").unwrap();
    let packet = NarrowWaistPacket::Response { hbfi: plain, data: Data([0u8; 1024]) };
    assert!(matches!(echo_decide(&checks, &packet), EchoAction::Ignore));
    assert_eq!(checks.args[3], bloom_filter_index(kind_name(EchoKind::ReliableOrdered)).unwrap());
}

#[test]
fn ftp_answers_from_the_store() {
    let requester = PublicIdentityInterface::new(Some(identity(5)));
    let hbfi = HBFI::new(requester, identity(6), "ftp", "ftp", "file", "a").unwrap();
    let (exact, cleartext) = request_keys(&hbfi);
    assert_eq!(exact, hbfi.as_bytes());
    assert_eq!(cleartext, hbfi.cleartext_repr().unwrap().as_bytes());
    assert_eq!(exact.len(), 184);
    assert_eq!(cleartext.len(), 120);
    let request = NarrowWaistPacket::Request { hbfi };
    assert!(matches!(ftp_decide(&request, true, true), FtpAction::SendStored { key } if key == exact));
    assert!(matches!(ftp_decide(&request, false, true),
        FtpAction::SendEncrypted { key, request_pid } if key == cleartext && request_pid == requester));
    assert!(matches!(ftp_decide(&request, false, false), FtpAction::Nothing));
    let response = NarrowWaistPacket::Response { hbfi, data: Data([0u8; 1024]) };
    assert!(matches!(ftp_decide(&response, false, false), FtpAction::Store { key } if key == exact));
}
