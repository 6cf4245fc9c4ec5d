use std::collections::HashMap;

use chatserver::common::packet::{
    ClientToServerPacket, ClientToServerPacketKind, PeerInfo, ReadProgress, ResponseId, RoomInfo,
    ServerToClientPacket, ServerToClientResponsePacket,
};
use chatserver::common::CommonError;
use chatserver::server::client::handle_receive_packet;
use chatserver::server::instance::{
    create_default_rooms, handle_create_room, handle_disconnect_client, handle_establish_connection,
    handle_query_peer_info, handle_query_room_info, handle_query_room_list, handle_update_client_username,
    Instance,
};
use chatserver::server::room::{RemoveClient, Room};
use chatserver::server::{
    ClientConnectionOptions, ClientDeserializerContext, ClientMessage, ConnectionTagged, MessageStep,
    PacketParseError, PacketParserContext, PacketSerializerContext, ServerError,
};

fn legacy_packet(message: &ClientMessage) -> Vec<u8> {
    let mut ctx = PacketSerializerContext::new(Vec::new());
    ctx.serialize(message);
    ctx.into_buffer()
}

#[test]
fn legacy_messages_are_framed_by_their_length() {
    assert_eq!(legacy_packet(&ClientMessage::Connect), vec![0, 0, 0, 8, 0, 0, 0, 0]);
    assert_eq!(legacy_packet(&ClientMessage::Disconnect), vec![0, 0, 0, 8, 0, 0, 0, 1]);
    assert_eq!(
        legacy_packet(&ClientMessage::Message(String::from("hi"))),
        vec![0, 0, 0, 14, 0, 0, 0, 2, 0, 0, 0, 2, b'h', b'i']
    );
}

#[test]
fn legacy_messages_append_to_the_buffer() {
    let mut ctx = PacketSerializerContext::new(vec![9, 9]);
    ctx.serialize(&ClientMessage::Connect);
    ctx.serialize(&ClientMessage::Disconnect);
    assert_eq!(
        ctx.into_buffer(),
        vec![9, 9, 0, 0, 0, 8, 0, 0, 0, 0, 0, 0, 0, 8, 0, 0, 0, 1]
    );
}

#[test]
fn legacy_messages_parse_back() {
    for message in [
        ClientMessage::Connect,
        ClientMessage::Disconnect,
        ClientMessage::Message(String::from("héllo")),
    ] {
        let mut bytes = legacy_packet(&message);
        let length = bytes.len();
        bytes.extend_from_slice(&[7, 7, 7]);
        let mut ctx = PacketParserContext::new(&bytes);
        assert_eq!(ctx.parse().unwrap(), (message, length));
    }
}

#[test]
fn legacy_parse_errors() {
    assert!(matches!(PacketParserContext::new(&[0, 0, 0]).parse(), Err(PacketParseError::UnknownPacketLength)));
    assert!(matches!(
        PacketParserContext::new(&[0, 0, 0, 12, 0, 0, 0, 0]).parse(),
        Err(PacketParseError::MismatchedPacketLength { buffer_length: 8, expected_from_header: 12 })
    ));
    assert!(matches!(
        PacketParserContext::new(&[0, 0, 0, 3, 0, 0, 0, 0]).parse(),
        Err(PacketParseError::InvalidLength(3))
    ));
    assert!(matches!(
        PacketParserContext::new(&[0, 0, 0, 8, 0, 0, 0, 7]).parse(),
        Err(PacketParseError::UnknownPacketId(7))
    ));
    assert!(matches!(
        PacketParserContext::new(&[0, 0, 0, 9, 0, 0, 0, 0, 5]).parse(),
        Err(PacketParseError::MismatchedParsedLength { parsed_length: 8, expected_from_header: 9 })
    ));
    assert!(matches!(
        PacketParserContext::new(&[0, 0, 0, 6, 0, 0]).parse(),
        Err(PacketParseError::OutOfBytes)
    ));
    assert!(matches!(
        PacketParserContext::new(&[0, 0, 0, 13, 0, 0, 0, 2, 0, 0, 0, 1, 0xff]).parse(),
        Err(PacketParseError::Utf8Error(_))
    ));
}

#[test]
fn deserializer_context_cuts_messages() {
    let options = ClientConnectionOptions::default();
    assert_eq!(options.read_buffer_size, 4096);
    let mut ctx = ClientDeserializerContext::new(12, &options);
    assert_eq!(ctx.connection_id(), 12);
    assert!(matches!(ctx.read_message(), MessageStep::NeedMoreData));
    let mut bytes = legacy_packet(&ClientMessage::Message(String::from("yo")));
    bytes.extend(legacy_packet(&ClientMessage::Disconnect));
    assert_eq!(ctx.receive(&bytes[..5]), ReadProgress::Continue);
    assert!(matches!(ctx.read_message(), MessageStep::NeedMoreData));
    assert_eq!(ctx.receive(&bytes[5..]), ReadProgress::Continue);
    match ctx.read_message() {
        MessageStep::Message(message) => assert_eq!(message, ClientMessage::Message(String::from("yo"))),
        other => panic!("unexpected {:?}", other),
    }
    match ctx.read_message() {
        MessageStep::Message(message) => assert_eq!(message, ClientMessage::Disconnect),
        other => panic!("unexpected {:?}", other),
    }
    assert_eq!(ctx.receive(&[]), ReadProgress::EndOfStream);
    assert_eq!(ctx.receive(&[0]), ReadProgress::Continue);
    assert_eq!(ctx.receive(&[]), ReadProgress::ConnectionReset);
}

#[test]
fn deserializer_context_reports_bad_messages() {
    let mut ctx = ClientDeserializerContext::new(1, &ClientConnectionOptions { read_buffer_size: 8 });
    ctx.receive(&[0, 0, 0, 8, 0, 0, 0, 5]);
    assert!(matches!(ctx.read_message(), MessageStep::Failed(PacketParseError::UnknownPacketId(5))));
}

#[test]
fn tagged_values_keep_their_connection() {
    let tagged = ConnectionTagged::new(4, ClientMessage::Connect);
    assert_eq!(tagged.connection(), 4);
    assert_eq!(tagged.into_value(), ClientMessage::Connect);
}

#[test]
fn server_errors_convert() {
    let err: ServerError = std::io::Error::new(std::io::ErrorKind::Other, "x").into();
    assert!(matches!(err, ServerError::Io(_)));
    let err: ServerError = PacketParseError::OutOfBytes.into();
    assert!(matches!(err, ServerError::PacketParse(PacketParseError::OutOfBytes)));
    let err: ServerError = CommonError::ConnectionReset.into();
    assert!(matches!(err, ServerError::Common(CommonError::ConnectionReset)));
}

#[test]
fn connections_get_fresh_identifiers() {
    let mut instance: Instance<&str, u32> = Instance::new();
    let a = handle_establish_connection(&mut instance, |id| if id == 0 { "first" } else { "other" });
    let b = handle_establish_connection(&mut instance, |_| "second");
    assert_eq!((a, b), (0, 1));
    handle_disconnect_client(&mut instance, a);
    let c = handle_establish_connection(&mut instance, |_| "third");
    assert_eq!(c, 2);
    assert_eq!(handle_query_peer_info(&instance, a), None);
    assert_eq!(handle_query_peer_info(&instance, b), Some(PeerInfo { username: None }));
}

#[test]
fn a_username_is_reported_back() {
    let mut instance: Instance<(), ()> = Instance::new();
    let id = handle_establish_connection(&mut instance, |_| ());
    handle_update_client_username(&mut instance, id, String::from("ann"));
    assert_eq!(handle_query_peer_info(&instance, id), Some(PeerInfo { username: Some(String::from("ann")) }));
    // a name given by a client that is not connected is kept but not reported
    handle_update_client_username(&mut instance, 9, String::from("ghost"));
    assert_eq!(handle_query_peer_info(&instance, 9), None);
}

#[test]
fn rooms_are_created_and_listed() {
    let mut instance: Instance<(), u64> = Instance::new();
    let ids = create_default_rooms(&mut instance, &|id: u64| id * 10);
    assert_eq!(ids, vec![0, 1, 2]);
    assert_eq!(handle_query_room_info(&instance, 0), Some(RoomInfo { name: String::from("general") }));
    assert_eq!(handle_query_room_info(&instance, 1), Some(RoomInfo { name: String::from("test") }));
    assert_eq!(handle_query_room_info(&instance, 2), Some(RoomInfo { name: String::from("unsafe_unsafe") }));
    assert_eq!(handle_query_room_info(&instance, 3), None);
    let extra = handle_create_room(&mut instance, String::from("extra"), |id| id * 10);
    assert_eq!(extra, 3);
    let mut listing: Vec<(u64, u64)> = handle_query_room_list(&instance).into_iter().map(|(id, r)| (id, *r)).collect();
    listing.sort();
    assert_eq!(listing, vec![(0, 0), (1, 10), (2, 20), (3, 30)]);
}

#[test]
fn connect_is_acknowledged_with_the_client_identifier() {
    let mut instance: Instance<(), ()> = Instance::new();
    let id = handle_establish_connection(&mut instance, |_| ());
    let packet = ClientToServerPacket {
        rid: ResponseId(3),
        kind: ClientToServerPacketKind::Connect { username: String::from("zed") },
    };
    assert_eq!(
        handle_receive_packet(&mut instance, id, packet),
        Some(ServerToClientPacket::Response {
            rid: ResponseId(3),
            packet: ServerToClientResponsePacket::ConnectAck { connection_id: id },
        })
    );
    let ask = ClientToServerPacket {
        rid: ResponseId(4),
        kind: ClientToServerPacketKind::RequestPeerInfo { peer_ids: vec![id, 77] },
    };
    let mut expected = HashMap::new();
    expected.insert(id, PeerInfo { username: Some(String::from("zed")) });
    assert_eq!(
        handle_receive_packet(&mut instance, id, ask),
        Some(ServerToClientPacket::Response {
            rid: ResponseId(4),
            packet: ServerToClientResponsePacket::PeerInfoResponse { peers: expected },
        })
    );
}

#[test]
fn requests_needing_a_room_get_no_answer() {
    let mut instance: Instance<(), ()> = Instance::new();
    let id = handle_establish_connection(&mut instance, |_| ());
    for kind in [
        ClientToServerPacketKind::Message { message: String::from("hello") },
        ClientToServerPacketKind::RequestPeerListing {},
        ClientToServerPacketKind::Shutdown {},
    ] {
        assert_eq!(handle_receive_packet(&mut instance, id, ClientToServerPacket { rid: ResponseId(1), kind }), None);
    }
}

#[test]
fn a_room_lists_the_other_members() {
    let room: Room<()> = Room::new();
    assert!(room.query_peers(3).is_empty());
    let remove = RemoveClient { client: 3 };
    assert_eq!(remove.client, 3);
}
