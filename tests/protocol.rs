use crazy7s::card::{Card, CardColor, CardValue};
use crazy7s::info::PeerId;
use crazy7s::protocol::{
    decode_message, encode_draw, encode_name, encode_play, encode_start, encode_wild, Message,
    ProtocolError, SocketEvent, SocketEventInitError,
};

#[test]
fn event_bytes() {
    assert_eq!(SocketEvent::Start.to_byte(), 0);
    assert_eq!(SocketEvent::Wild.to_byte(), 5);
    assert_eq!(SocketEvent::try_from_byte(3), Ok(SocketEvent::Restart));
    assert_eq!(SocketEvent::try_from_byte(6), Err(SocketEventInitError::InvalidByte));
}

#[test]
fn start_packet_layout_and_round_trip() {
    let order = vec![PeerId(0x0102_0304_0506_0708_090a_0b0c_0d0e_0f10), PeerId(7)];
    let deck: Vec<u8> = (0u8..108).collect();
    let packet = encode_start(false, &order, &deck);
    assert_eq!(packet.len(), 2 + 32 + 108);
    assert_eq!(packet[0], 0);
    assert_eq!(packet[1], 2);
    assert_eq!(&packet[2..18], &[1, 2, 3, 4, 5, 6, 7, 8, 9, 10, 11, 12, 13, 14, 15, 16]);
    assert_eq!(packet[33], 7);
    match decode_message(&packet) {
        Ok(Message::Start { restart, order: o, deck: d }) => {
            assert!(!restart);
            assert_eq!(o, order);
            assert_eq!(d, deck);
        }
        other => panic!("unexpected {:?}", other),
    }
    let restart = encode_start(true, &order, &deck);
    assert_eq!(restart[0], 3);
    assert!(matches!(decode_message(&restart), Ok(Message::Start { restart: true, .. })));
}

#[test]
fn small_packets_round_trip() {
    assert_eq!(encode_draw(), vec![1]);
    assert!(matches!(decode_message(&encode_draw()), Ok(Message::Draw)));
    let card = Card::new(CardColor::Green, CardValue::Reverse, 2);
    let play = encode_play(&card);
    assert_eq!(play, vec![2, 52 + 26 + 11]);
    assert!(matches!(decode_message(&play), Ok(Message::Play(c)) if c == card));
    let wild = encode_wild(CardColor::Yellow);
    assert_eq!(wild, vec![5, 1]);
    assert!(matches!(decode_message(&wild), Ok(Message::Wild(CardColor::Yellow))));
    let name = encode_name("Zoë");
    assert_eq!(name[0], 4);
    assert_eq!(&name[1..], "Zoë".as_bytes());
    match decode_message(&name) {
        Ok(Message::Name(b)) => assert_eq!(b, "Zoë".as_bytes().to_vec()),
        other => panic!("unexpected {:?}", other),
    }
}

#[test]
fn decode_errors() {
    assert!(matches!(decode_message(&[]), Err(ProtocolError::Empty)));
    assert!(matches!(decode_message(&[9]), Err(ProtocolError::InvalidEventKind(9))));
    assert!(matches!(decode_message(&[2]), Err(ProtocolError::Truncated)));
    assert!(matches!(decode_message(&[2, 108]), Err(ProtocolError::InvalidCard)));
    assert!(matches!(decode_message(&[5]), Err(ProtocolError::Truncated)));
    assert!(matches!(decode_message(&[5, 4]), Err(ProtocolError::InvalidColor)));
    assert!(matches!(decode_message(&[0]), Err(ProtocolError::Truncated)));
    assert!(matches!(decode_message(&[0, 1, 1, 2, 3]), Err(ProtocolError::Truncated)));
    let mut start = vec![3, 1];
    start.extend_from_slice(&[0u8; 16]);
    start.extend_from_slice(&[4, 200]);
    assert!(matches!(decode_message(&start), Err(ProtocolError::InvalidCard)));
}

#[test]
fn trailing_bytes_after_fixed_payload_are_ignored() {
    assert!(matches!(decode_message(&[1, 9, 9]), Ok(Message::Draw)));
    assert!(matches!(decode_message(&[5, 3, 9]), Ok(Message::Wild(CardColor::Blue))));
}
