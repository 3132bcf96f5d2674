use copernica::links::corruptor::{Corruption, CorruptionState};
use copernica::links::framing::{decode, encode, LinkError};
use copernica::links::kind::{expect_mpsc, expect_udp};
use copernica::packets::reply_to::{ReplyTo, SocketAddressV4};

fn bytes(n: usize) -> Vec<u8> {
    (0..n).map(|i| (i * 7 % 251) as u8).collect()
}

fn run(corruption: Corruption, frames: &[Vec<u8>]) -> Vec<Vec<u8>> {
    let mut state = CorruptionState::new();
    let mut sent = vec![];
    for f in frames {
        sent.extend(state.step(corruption, f.clone()));
    }
    sent
}

#[test]
fn encode_of_nothing_is_nothing() {
    assert_eq!(encode(&[]), Vec::<u8>::new());
    assert_eq!(decode(&[]), Ok(vec![]));
}

#[test]
fn encode_adds_six_bytes_per_block() {
    assert_eq!(encode(&bytes(1)).len(), 7);
    assert_eq!(encode(&bytes(249)).len(), 255);
    assert_eq!(encode(&bytes(250)).len(), 255 + 7);
    assert_eq!(encode(&bytes(1000)).len(), 1000 + 6 * 5);
}

#[test]
fn encode_keeps_the_data_in_front_of_each_block() {
    let data = bytes(300);
    let frame = encode(&data);
    assert_eq!(&frame[..249], &data[..249]);
    assert_eq!(&frame[255..255 + 51], &data[249..]);
}

#[test]
fn decode_gives_back_what_encode_wrote() {
    for n in [1usize, 6, 248, 249, 250, 498, 1000, 1500] {
        let data = bytes(n);
        assert_eq!(decode(&encode(&data)), Ok(data));
    }
}

#[test]
fn decode_repairs_a_damaged_byte() {
    let data = bytes(100);
    let mut frame = encode(&data);
    frame[10] ^= 0xff;
    frame[50] ^= 0x01;
    assert_eq!(decode(&frame), Ok(data));
}

#[test]
fn decode_repairs_three_damaged_bytes_in_every_block() {
    for n in [1usize, 100, 249, 250, 1000] {
        let data = bytes(n);
        let mut frame = encode(&data);
        let mut start = 0;
        while start < frame.len() {
            let len = std::cmp::min(255, frame.len() - start);
            frame[start] ^= 0xff;
            frame[start + len / 2] ^= 0x11;
            frame[start + len - 1] ^= 0x80;
            start += len;
        }
        assert_eq!(decode(&frame), Ok(data));
    }
}

#[test]
fn decode_rejects_a_block_beyond_repair() {
    let data = bytes(100);
    let mut frame = encode(&data);
    for b in frame.iter_mut().take(20) {
        *b ^= 0x5a;
    }
    assert_eq!(decode(&frame), Err(LinkError::CorruptedBeyondRecovery));
}

#[test]
fn immune_link_sends_everything() {
    let frames: Vec<Vec<u8>> = (0..5).map(|i| bytes(10 + i)).collect();
    assert_eq!(run(Corruption::Immune, &frames), frames);
}

#[test]
fn presence_link_drops_the_second_frame() {
    let frames: Vec<Vec<u8>> = (0..5).map(|i| bytes(10 + i)).collect();
    let mut expected = frames.clone();
    expected.remove(1);
    assert_eq!(run(Corruption::Presence, &frames), expected);
}

#[test]
fn integrity_link_zeroes_bytes_of_the_second_frame() {
    let frames: Vec<Vec<u8>> = (0..4).map(|i| vec![i as u8 + 1; 12]).collect();
    let sent = run(Corruption::Integrity, &frames);
    assert_eq!(sent.len(), 4);
    assert_eq!(sent[0], frames[0]);
    assert_eq!(sent[1], vec![2, 2, 2, 2, 0, 0, 0, 0, 2, 2, 2, 2]);
    assert_eq!(sent[2], frames[2]);
    assert_eq!(sent[3], frames[3]);
}

#[test]
fn order_link_holds_the_second_frame_back() {
    let frames: Vec<Vec<u8>> = (0..4).map(|i| vec![i as u8; 3]).collect();
    let mut state = CorruptionState::new();
    assert_eq!(state.step(Corruption::Order, frames[0].clone()), vec![frames[0].clone()]);
    assert_eq!(state.step(Corruption::Order, frames[1].clone()), Vec::<Vec<u8>>::new());
    assert_eq!(
        state.step(Corruption::Order, frames[2].clone()),
        vec![frames[1].clone(), frames[2].clone()]
    );
    assert_eq!(state.step(Corruption::Order, frames[3].clone()), vec![frames[3].clone()]);
    assert_eq!(run(Corruption::Order, &frames), frames);
}

#[test]
fn links_accept_their_own_kind_of_address() {
    let udp = ReplyTo::UdpIpV4(SocketAddressV4 { ip: [127, 0, 0, 1], port: 50002 });
    assert_eq!(expect_mpsc(&ReplyTo::Mpsc), Ok(()));
    assert_eq!(expect_mpsc(&udp), Err(LinkError::ExpectedMpsc));
    assert_eq!(expect_udp(&udp), Ok(()));
    assert_eq!(expect_udp(&ReplyTo::Rf(433)), Err(LinkError::ExpectedUdpIp));
}
