//! Reassembly of segmented messages.
use reader_bt::reassembly::{read_packet, Packet, Reassembler, Reception, MSG_WRAPPER};

fn framed(id: u16, body: &[u8]) -> Vec<u8> {
    let mut m = id.to_le_bytes().to_vec();
    m.extend_from_slice(&(body.len() as u16).to_le_bytes());
    m.extend_from_slice(body);
    m
}

fn first(total: u32, segment: &[u8]) -> Vec<u8> {
    let mut body = vec![0x01];
    body.extend_from_slice(&total.to_le_bytes());
    body.extend_from_slice(segment);
    framed(MSG_WRAPPER, &body)
}

fn further(flag: u8, segment: &[u8]) -> Vec<u8> {
    let mut body = vec![flag];
    body.extend_from_slice(segment);
    framed(MSG_WRAPPER, &body)
}

#[test]
fn three_segments_are_joined_in_order() {
    let mut r = Reassembler::default();
    assert_eq!(r.feed(&first(6, &[1, 2])), None);
    assert_eq!(r.feed(&further(0x00, &[3])), None);
    assert_eq!(r.feed(&further(0x00, &[4])), None);
    assert_eq!(r.feed(&further(0x02, &[5, 6])), Some(vec![1, 2, 3, 4, 5, 6]));
}

#[test]
fn wrong_total_is_a_mismatch_and_clears_the_buffer() {
    let mut r = Reassembler::default();
    assert!(matches!(r.receive(&first(7, &[1, 2])), Reception::Pending));
    assert!(matches!(
        r.receive(&further(0x02, &[3])),
        Reception::LengthMismatch { got: 3, expected: 7 }
    ));
    // The announced total stays, the bytes are gone.
    assert!(matches!(
        r.receive(&further(0x02, &[3, 4])),
        Reception::LengthMismatch { got: 2, expected: 7 }
    ));
    assert_eq!(r.feed(&further(0x02, &[9; 7])), Some(vec![9; 7]));
}

#[test]
fn first_packet_starts_over() {
    let mut r = Reassembler::default();
    assert_eq!(r.feed(&first(100, &[9; 40])), None);
    assert_eq!(r.feed(&further(0x00, &[9; 40])), None);
    assert_eq!(r.feed(&first(2, &[1])), None);
    assert_eq!(r.feed(&further(0x02, &[2])), Some(vec![1, 2]));
}

#[test]
fn plain_message_in_between_disturbs_nothing() {
    let mut r = Reassembler::default();
    let plain = framed(0x1101, &[1, 2, 3]);
    assert_eq!(r.feed(&first(2, &[1])), None);
    assert_eq!(r.feed(&plain), Some(plain.clone()));
    assert_eq!(r.feed(&further(0x02, &[2])), Some(vec![1, 2]));
}

#[test]
fn plain_message_loses_what_follows_its_payload() {
    let mut raw = framed(0x1101, &[1, 2, 3]);
    let message = raw.clone();
    raw.extend_from_slice(&[7, 7]);
    assert_eq!(Reassembler::default().feed(&raw), Some(message));
}

#[test]
fn plain_message_that_is_cut_short_is_unchanged() {
    let raw = [0x01, 0x11, 0x07, 0x00, 0x11];
    assert_eq!(Reassembler::default().feed(&raw), Some(raw.to_vec()));
}

#[test]
fn unusable_packets_change_nothing() {
    let mut r = Reassembler::default();
    assert_eq!(r.feed(&first(2, &[1])), None);
    assert_eq!(r.feed(&[]), None);
    assert_eq!(r.feed(&[0x01, 0xA1, 0x00]), None);
    // A wrapper without payload, one that is cut short, one with an unknown flag.
    assert_eq!(r.feed(&[0x01, 0xA1, 0x00, 0x00]), None);
    assert_eq!(r.feed(&[0x01, 0xA1, 0x03, 0x00, 0x00, 0x05]), None);
    assert_eq!(r.feed(&further(0x03, &[5])), None);
    // First packets without room for their total.
    for len in 1..5 {
        assert_eq!(r.feed(&framed(MSG_WRAPPER, &[0x01, 0x05, 0x00, 0x00, 0x00][..len])), None);
    }
    assert_eq!(r.feed(&further(0x02, &[2])), Some(vec![1, 2]));
}

#[test]
fn empty_last_packet_completes_an_empty_message() {
    assert_eq!(Reassembler::default().feed(&further(0x02, &[])), Some(vec![]));
}

#[test]
fn packets_are_told_apart() {
    assert!(matches!(read_packet(&first(0x01020304, &[8])),
        Packet::First { total: 0x01020304, segment: &[8] }));
    assert!(matches!(read_packet(&further(0x00, &[8])), Packet::Continuation(&[8])));
    assert!(matches!(read_packet(&further(0x02, &[8])), Packet::Last(&[8])));
    assert!(matches!(read_packet(&[0x01, 0x11, 0x00, 0x00]), Packet::Plain(&[1, 0x11, 0, 0])));
    assert!(matches!(read_packet(&further(0xFF, &[8])), Packet::Unusable));
}
