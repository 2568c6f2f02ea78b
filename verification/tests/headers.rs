//! Round trips and error paths of the message-layer header codec.

use netcode_core::header::{ConnectionError, ConnectionHeader, FragmentHeader, HeaderParser,
    HeartbeatHeader, PacketHeader, PacketType};

#[test]
fn fragment_header_read_write() {
    let fragment_header = FragmentHeader {
        sequence: 42,
        fragment_id: 3,
        num_fragments: 5,
        packet_header: None,
    };

    let mut buffer = vec![0u8; fragment_header.size()];

    fragment_header.write(&mut buffer).unwrap();

    let parsed_fragment_header = FragmentHeader::parse(&mut buffer).unwrap();
    assert_eq!(fragment_header, parsed_fragment_header);
}

#[test]
fn packet_header_read_write() {
    let header = PacketHeader {
        sequence: 42,
        ack: 0,
        ack_bits: 0,
    };

    let mut buffer = vec![0u8; header.size()];

    header.write(&mut buffer).unwrap();

    let parsed_header = PacketHeader::parse(&mut buffer).unwrap();
    assert_eq!(header, parsed_header);
}

#[test]
fn first_fragment_header_read_write() {
    let header = FragmentHeader {
        sequence: 99,
        fragment_id: 0,
        num_fragments: 4,
        packet_header: Some(PacketHeader { sequence: 99, ack: 7, ack_bits: 0xff00ff00 }),
    };
    let mut buffer = vec![0u8; header.size()];
    header.write(&mut buffer).unwrap();
    assert_eq!(buffer.len(), 12);
    let parsed = FragmentHeader::parse(&buffer).unwrap();
    assert_eq!(header, parsed);
}

#[test]
fn first_fragment_without_packet_header_is_refused() {
    let header = FragmentHeader {
        sequence: 1,
        fragment_id: 0,
        num_fragments: 2,
        packet_header: None,
    };
    let mut buffer = vec![0u8; 12];
    assert!(header.write(&mut buffer).is_err());
}

#[test]
fn heartbeat_header_read_write() {
    let header = HeartbeatHeader { ack: 1000, ack_bits: 0xdead_beef };
    let mut buffer = vec![0u8; header.size()];
    header.write(&mut buffer).unwrap();
    assert_eq!(buffer, vec![2, 0x03, 0xe8, 0xde, 0xad, 0xbe, 0xef]);
    let parsed = HeartbeatHeader::parse(&buffer).unwrap();
    assert_eq!(header, parsed);
}

#[test]
fn connection_header_codes() {
    let ok = ConnectionHeader::ok();
    let mut buffer = vec![9u8];
    ok.write(&mut buffer).unwrap();
    assert_eq!(buffer, vec![0]);
    assert_eq!(ConnectionHeader::parse(&buffer).unwrap(), ok);

    let denied = ConnectionHeader::new(ConnectionError::MaxPlayer);
    let mut buffer = vec![0u8];
    denied.write(&mut buffer).unwrap();
    assert_eq!(buffer, vec![2]);
    assert_eq!(ConnectionHeader::parse(&buffer).unwrap(), denied);

    assert!(ConnectionHeader::parse(&vec![200u8]).is_err());
    assert!(ConnectionError::from_u8(0).is_err());
    assert_eq!(ConnectionError::from_u8(3).unwrap(), ConnectionError::TimedOut);
}

#[test]
fn header_type_mismatch_is_refused() {
    let header = PacketHeader { sequence: 1, ack: 2, ack_bits: 3 };
    let mut buffer = vec![0u8; header.size()];
    header.write(&mut buffer).unwrap();
    assert!(HeartbeatHeader::parse(&buffer).is_err());
    assert_eq!(PacketType::Heartbeat.to_u8(), 2);
    assert_eq!(PacketType::Packet.to_u8(), 0);
    assert_eq!(PacketType::Fragment.to_u8(), 1);
    let too_short: Vec<u8> = vec![0, 1];
    assert!(PacketHeader::parse(&too_short).is_err());
}

#[test]
fn write_into_short_buffer_is_refused() {
    let header = PacketHeader { sequence: 4, ack: 5, ack_bits: 6 };
    let mut buffer = vec![0u8; 3];
    assert!(HeaderParser::write(&header, &mut buffer).is_err());
    assert_eq!(buffer, vec![0, 0, 0]);
}
