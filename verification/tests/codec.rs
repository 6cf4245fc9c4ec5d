use std::collections::HashMap;

use chatserver::common::context::{PacketDeserializeError, PacketDeserializerContext, PacketSerializerContext};
use chatserver::common::packet::{
    packet_length_prefix, serialize_packet_body, ClientToServerPacket, ClientToServerPacketKind, PacketCodec,
    PacketReader, PeerInfo, ReadProgress, ReadStep, ResponseId, ServerToClientPacket,
    ServerToClientResponsePacket,
};

fn encode<T: PacketCodec>(value: &T) -> Vec<u8> {
    let mut ctx = PacketSerializerContext::new(Vec::new());
    ctx.serialize(value).unwrap();
    ctx.into_buffer()
}

fn decode<T: PacketCodec>(bytes: &[u8]) -> Result<(T, usize), PacketDeserializeError> {
    let mut ctx = PacketDeserializerContext::new(bytes);
    let value = ctx.deserialize::<T>()?;
    Ok((value, ctx.cursor()))
}

fn framed(body: &[u8]) -> Vec<u8> {
    let mut bytes = packet_length_prefix(body.len());
    bytes.extend_from_slice(body);
    bytes
}

#[test]
fn integers_are_big_endian() {
    assert_eq!(encode(&0x12u8), vec![0x12]);
    assert_eq!(encode(&0x0102u16), vec![1, 2]);
    assert_eq!(encode(&0x12345678u32), vec![0x12, 0x34, 0x56, 0x78]);
    assert_eq!(encode(&1u64), vec![0, 0, 0, 0, 0, 0, 0, 1]);
    assert_eq!(encode(&-1i32), vec![0xff, 0xff, 0xff, 0xff]);
    assert_eq!(encode(&-2i8), vec![0xfe]);
    assert_eq!(encode(&0x0100i16), vec![1, 0]);
    assert_eq!(encode(&-2i64), vec![0xff, 0xff, 0xff, 0xff, 0xff, 0xff, 0xff, 0xfe]);
    let mut wide = vec![0u8; 15];
    wide.push(3);
    assert_eq!(encode(&3u128), wide);
}

#[test]
fn integers_read_back() {
    assert_eq!(decode::<u32>(&[0x12, 0x34, 0x56, 0x78, 9]).unwrap(), (0x12345678, 4));
    assert_eq!(decode::<i16>(&[0xff, 0xfe]).unwrap(), (-2, 2));
    assert_eq!(decode::<u64>(&encode(&u64::MAX)).unwrap(), (u64::MAX, 8));
    assert_eq!(decode::<i128>(&encode(&i128::MIN)).unwrap(), (i128::MIN, 16));
    assert_eq!(decode::<u8>(&[7]).unwrap(), (7, 1));
}

#[test]
fn too_few_bytes_run_out() {
    assert_eq!(decode::<u32>(&[1, 2]).unwrap_err(), PacketDeserializeError::OutOfBytes);
    assert_eq!(decode::<u8>(&[]).unwrap_err(), PacketDeserializeError::OutOfBytes);
    assert_eq!(decode::<String>(&[0, 0, 0, 5, b'a']).unwrap_err(), PacketDeserializeError::OutOfBytes);
}

#[test]
fn strings_carry_their_length() {
    assert_eq!(encode(&String::from("hi")), vec![0, 0, 0, 2, b'h', b'i']);
    assert_eq!(encode(&String::new()), vec![0, 0, 0, 0]);
    let text = String::from("héllo");
    let bytes = encode(&text);
    assert_eq!(bytes.len(), 4 + 6);
    assert_eq!(decode::<String>(&bytes).unwrap(), (text, 10));
}

#[test]
fn invalid_utf8_is_refused() {
    let err = decode::<String>(&[0, 0, 0, 2, 0xff, 0xfe]).unwrap_err();
    assert!(matches!(err, PacketDeserializeError::Utf8Error(_)));
}

#[test]
fn options_are_tagged() {
    assert_eq!(encode(&None::<u8>), vec![0]);
    assert_eq!(encode(&Some(5u8)), vec![1, 5]);
    assert_eq!(decode::<Option<u8>>(&[1, 5]).unwrap(), (Some(5), 2));
    assert_eq!(decode::<Option<u8>>(&[0, 5]).unwrap(), (None, 1));
    assert_eq!(decode::<Option<u8>>(&[2, 5]).unwrap_err(), PacketDeserializeError::InvalidEnumVariant);
}

#[test]
fn vectors_carry_their_count() {
    assert_eq!(encode(&vec![1u16, 2u16]), vec![0, 0, 0, 2, 0, 1, 0, 2]);
    let names = vec![String::from("a"), String::from("bc")];
    let bytes = encode(&names);
    assert_eq!(decode::<Vec<String>>(&bytes).unwrap(), (names, bytes.len()));
    assert_eq!(decode::<Vec<u8>>(&[0, 0, 0, 3, 1, 2]).unwrap_err(), PacketDeserializeError::OutOfBytes);
}

#[test]
fn maps_carry_their_entries() {
    let mut map: HashMap<u64, u8> = HashMap::new();
    map.insert(7, 9);
    assert_eq!(encode(&map), vec![0, 0, 0, 1, 0, 0, 0, 0, 0, 0, 0, 7, 9]);
    map.insert(1, 2);
    map.insert(300, 4);
    let bytes = encode(&map);
    assert_eq!(bytes.len(), 4 + 3 * 9);
    assert_eq!(decode::<HashMap<u64, u8>>(&bytes).unwrap(), (map, bytes.len()));
}

#[test]
fn peer_info_is_an_optional_name() {
    let info = PeerInfo { username: Some(String::from("a")) };
    assert_eq!(encode(&info), vec![1, 0, 0, 0, 1, b'a']);
    assert_eq!(decode::<PeerInfo>(&[1, 0, 0, 0, 1, b'a']).unwrap(), (info, 6));
    assert_eq!(encode(&PeerInfo { username: None }), vec![0]);
}

#[test]
fn server_packets_round_trip() {
    let message = ServerToClientPacket::PeerMessage { peer_id: 3, message: String::from("yo") };
    let bytes = encode(&message);
    assert_eq!(bytes, vec![0, 0, 0, 3, 0, 0, 0, 0, 0, 0, 0, 3, 0, 0, 0, 2, b'y', b'o']);
    assert_eq!(decode::<ServerToClientPacket>(&bytes).unwrap(), (message, bytes.len()));

    let mut peers = HashMap::new();
    peers.insert(4u64, PeerInfo { username: Some(String::from("dee")) });
    peers.insert(5u64, PeerInfo { username: None });
    let response = ServerToClientPacket::Response {
        rid: ResponseId(11),
        packet: ServerToClientResponsePacket::PeerInfoResponse { peers },
    };
    let bytes = encode(&response);
    assert_eq!(&bytes[..8], &[0, 0, 0, 0, 0, 0, 0, 11]);
    assert_eq!(&bytes[8..12], &[0, 0, 0, 5]);
    assert_eq!(decode::<ServerToClientPacket>(&bytes).unwrap(), (response, bytes.len()));

    for packet in [
        ServerToClientPacket::PeerConnected { peer_id: 1 },
        ServerToClientPacket::PeerDisonnected { peer_id: 2 },
        ServerToClientPacket::Response {
            rid: ResponseId(1),
            packet: ServerToClientResponsePacket::ConnectAck { connection_id: 42 },
        },
        ServerToClientPacket::Response { rid: ResponseId(2), packet: ServerToClientResponsePacket::MessageAck {} },
        ServerToClientPacket::Response { rid: ResponseId(3), packet: ServerToClientResponsePacket::ShutdownAck {} },
        ServerToClientPacket::Response {
            rid: ResponseId(4),
            packet: ServerToClientResponsePacket::PeerListingResponse { peers: vec![1, 2, 3] },
        },
    ] {
        let bytes = encode(&packet);
        assert_eq!(decode::<ServerToClientPacket>(&bytes).unwrap(), (packet, bytes.len()));
    }
}

#[test]
fn response_ids_match_the_protocol() {
    let ack = ServerToClientResponsePacket::ConnectAck { connection_id: 42 };
    assert_eq!(encode(&ack), vec![0, 0, 0, 0, 0, 0, 0, 0, 0, 0, 0, 42]);
    assert_eq!(encode(&ServerToClientResponsePacket::MessageAck {}), vec![0, 0, 0, 2]);
    assert_eq!(encode(&ServerToClientResponsePacket::ShutdownAck {}), vec![0, 0, 0, 3]);
    assert_eq!(
        encode(&ServerToClientResponsePacket::PeerListingResponse { peers: vec![9] }),
        vec![0, 0, 0, 4, 0, 0, 0, 1, 0, 0, 0, 0, 0, 0, 0, 9]
    );
    assert_eq!(
        decode::<ServerToClientResponsePacket>(&[0, 0, 0, 1]).unwrap_err(),
        PacketDeserializeError::UnknownPacketId(1)
    );
}

#[test]
fn client_packets_round_trip() {
    let packet = ClientToServerPacket {
        rid: ResponseId(7),
        kind: ClientToServerPacketKind::Connect { username: String::from("bob") },
    };
    let bytes = encode(&packet);
    assert_eq!(bytes, vec![0, 0, 0, 7, 0, 0, 0, 0, 0, 0, 0, 3, b'b', b'o', b'b']);
    assert_eq!(decode::<ClientToServerPacket>(&bytes).unwrap(), (packet, bytes.len()));
    for kind in [
        ClientToServerPacketKind::Message { message: String::from("hello") },
        ClientToServerPacketKind::Shutdown {},
        ClientToServerPacketKind::RequestPeerListing {},
        ClientToServerPacketKind::RequestPeerInfo { peer_ids: vec![1, 5] },
    ] {
        let packet = ClientToServerPacket { rid: ResponseId(1), kind };
        let bytes = encode(&packet);
        assert_eq!(decode::<ClientToServerPacket>(&bytes).unwrap(), (packet, bytes.len()));
    }
    assert_eq!(encode(&ClientToServerPacketKind::Shutdown {}), vec![0, 0, 0, 3]);
    assert_eq!(
        decode::<ClientToServerPacketKind>(&[0, 0, 0, 1]).unwrap_err(),
        PacketDeserializeError::UnknownPacketId(1)
    );
}

#[test]
fn unknown_packet_ids_are_refused() {
    assert_eq!(
        decode::<ServerToClientPacket>(&[0, 0, 0, 9]).unwrap_err(),
        PacketDeserializeError::UnknownPacketId(9)
    );
}

#[test]
fn whole_packets_are_framed_by_their_length() {
    let body = serialize_packet_body(Vec::new(), &ServerToClientPacket::PeerConnected { peer_id: 5 });
    assert_eq!(body, vec![0, 0, 0, 1, 0, 0, 0, 0, 0, 0, 0, 5]);
    assert_eq!(packet_length_prefix(body.len()), vec![0, 0, 0, 16]);
    let mut bytes = framed(&body);
    bytes.extend_from_slice(&[1, 2, 3]);
    let mut ctx = PacketDeserializerContext::new(&bytes);
    let (packet, length) = ctx.parse::<ServerToClientPacket>().unwrap();
    assert_eq!(packet, ServerToClientPacket::PeerConnected { peer_id: 5 });
    assert_eq!(length, 16);
}

#[test]
fn framing_errors() {
    let mut ctx = PacketDeserializerContext::new(&[0, 0]);
    assert_eq!(ctx.parse::<u8>().unwrap_err(), PacketDeserializeError::UnknownPacketLength);

    let mut ctx = PacketDeserializerContext::new(&[0, 0, 0, 9, 1]);
    assert_eq!(
        ctx.parse::<u8>().unwrap_err(),
        PacketDeserializeError::MismatchedPacketLength { buffer_length: 5, expected_from_header: 9 }
    );

    let mut ctx = PacketDeserializerContext::new(&[0, 0, 0, 2, 1]);
    assert_eq!(ctx.parse::<u8>().unwrap_err(), PacketDeserializeError::InvalidLength(2));

    let mut ctx = PacketDeserializerContext::new(&[0, 0, 0, 6, 1, 2]);
    assert_eq!(
        ctx.parse::<u8>().unwrap_err(),
        PacketDeserializeError::MismatchedParsedLength { parsed_length: 5, expected_from_header: 6 }
    );

    let mut ctx = PacketDeserializerContext::new(&[0, 0, 0, 5, 1, 2]);
    assert_eq!(ctx.parse::<u8>().unwrap(), (1, 5));
}

#[test]
fn a_parsed_packet_ends_where_its_length_says() {
    // a string inside a frame may not run past the frame
    let mut ctx = PacketDeserializerContext::new(&[0, 0, 0, 6, 0, 0, 0, 1, b'a']);
    assert_eq!(ctx.parse::<String>().unwrap_err(), PacketDeserializeError::OutOfBytes);
}

#[test]
fn reader_waits_for_whole_packets() {
    let first = framed(&serialize_packet_body(Vec::new(), &ServerToClientPacket::PeerConnected { peer_id: 1 }));
    let second = framed(&serialize_packet_body(
        Vec::new(),
        &ServerToClientPacket::PeerMessage { peer_id: 2, message: String::from("hey") },
    ));
    let mut reader = PacketReader::new();
    assert!(matches!(reader.poll::<ServerToClientPacket>(), ReadStep::NeedMoreData));
    assert_eq!(reader.receive(&first[..3]), ReadProgress::Continue);
    assert!(matches!(reader.poll::<ServerToClientPacket>(), ReadStep::NeedMoreData));
    assert_eq!(reader.receive(&first[3..10]), ReadProgress::Continue);
    assert!(matches!(reader.poll::<ServerToClientPacket>(), ReadStep::NeedMoreData));
    let mut rest = first[10..].to_vec();
    rest.extend_from_slice(&second);
    assert_eq!(reader.receive(&rest), ReadProgress::Continue);
    match reader.poll::<ServerToClientPacket>() {
        ReadStep::Packet(packet) => assert_eq!(packet, ServerToClientPacket::PeerConnected { peer_id: 1 }),
        _ => panic!("expected the first packet"),
    }
    match reader.poll::<ServerToClientPacket>() {
        ReadStep::Packet(packet) => assert_eq!(
            packet,
            ServerToClientPacket::PeerMessage { peer_id: 2, message: String::from("hey") }
        ),
        _ => panic!("expected the second packet"),
    }
    assert!(matches!(reader.poll::<ServerToClientPacket>(), ReadStep::NeedMoreData));
    assert_eq!(reader.receive(&[]), ReadProgress::EndOfStream);
}

#[test]
fn reader_reports_a_cut_connection_and_bad_packets() {
    let mut reader = PacketReader::new();
    assert_eq!(reader.receive(&[0, 0]), ReadProgress::Continue);
    assert_eq!(reader.receive(&[]), ReadProgress::ConnectionReset);

    let mut reader = PacketReader::new();
    reader.receive(&[0, 0, 0, 8, 0, 0, 0, 9]);
    match reader.poll::<ServerToClientPacket>() {
        ReadStep::Failed(err) => assert_eq!(err, PacketDeserializeError::UnknownPacketId(9)),
        _ => panic!("expected a failure"),
    }
}
