//! The packets exchanged between clients and the server, and the codec that
//! puts every value on the wire.
use vstd::prelude::*;

use std::collections::HashMap;

use super::context::parse_outcome;
use super::wire::{be_bytes, lemma_be_bytes_len, lemma_be_roundtrip, lemma_pow256_values};
use vstd::slice::{slice_subrange, slice_to_vec};

pub use super::context::{
    DecodeFailure, PacketDeserializeError, PacketDeserializeResult, PacketDeserializerContext,
    PacketSerializeError, PacketSerializeResult, PacketSerializerContext,
};

verus! {

/// A value that can be written into a packet and read back from one.
///
/// `model` is the mathematical value that `encoding` stands for on the wire;
/// `decoded` says what reading the front of a byte sequence gives, and how many
/// bytes that takes.
pub trait PacketCodec: Sized {
    type Model;

    spec fn model(&self) -> Self::Model;

    /// The bytes that `serialize` appends.
    spec fn encoding(&self) -> Seq<u8>;

    /// Every length and count in the value fits the wire format's 32-bit fields.
    spec fn encodable(&self) -> bool;

    /// What `deserialize` reads from the front of `bytes`: the model of the value
    /// and the number of bytes consumed, or the failure.
    spec fn decoded(bytes: Seq<u8>) -> Result<(Self::Model, nat), DecodeFailure>;

    /// A successful read consumes at least one byte and no more than there are;
    /// nothing can be read from no bytes; a failure is never about framing.
    proof fn lemma_decoded_length(bytes: Seq<u8>)
        ensures
            Self::decoded(bytes) matches Ok((_, n)) ==> 0 < n <= bytes.len(),
            Self::decoded(bytes) matches Err(f) ==> !f.is_framing(),
            bytes.len() == 0 ==> Self::decoded(bytes) == Err::<(Self::Model, nat), DecodeFailure>(
                DecodeFailure::OutOfBytes,
            ),
    ;

    /// Reading an encoding gives the value back and consumes exactly the
    /// encoding, whatever follows it.
    proof fn lemma_roundtrip(&self, rest: Seq<u8>)
        requires
            self.encodable(),
        ensures
            Self::decoded(self.encoding() + rest) == Ok::<(Self::Model, nat), DecodeFailure>(
                (self.model(), self.encoding().len()),
            ),
    ;

    fn serialize(&self, ctx: &mut PacketSerializerContext) -> (r: PacketSerializeResult<()>)
        ensures
            r is Ok,
            final(ctx)@ == old(ctx)@ + self.encoding(),
    ;

    fn deserialize<'buf>(ctx: &mut PacketDeserializerContext<'buf>) -> (r: PacketDeserializeResult<
        Self,
    >)
        ensures
            final(ctx).bytes() == old(ctx).bytes(),
            match Self::decoded(old(ctx).remaining()) {
                Ok((m, n)) => (r matches Ok(v) && v.model() == m && final(ctx).position()
                    == old(ctx).position() + n),
                Err(f) => (r matches Err(e) && e.reports(f)),
            },
    ;
}

/// Reads an `A` and then a `B` right after it.
pub open spec fn decoded_pair<A: PacketCodec, B: PacketCodec>(bytes: Seq<u8>) -> Result<
    ((A::Model, B::Model), nat),
    DecodeFailure,
> {
    match A::decoded(bytes) {
        Ok((a, n)) => match B::decoded(bytes.skip(n as int)) {
            Ok((b, m)) => Ok(((a, b), n + m)),
            Err(f) => Err(f),
        },
        Err(f) => Err(f),
    }
}

/// Reading two encodings one after the other gives both values back.
pub proof fn lemma_pair_roundtrip<A: PacketCodec, B: PacketCodec>(a: &A, b: &B, rest: Seq<u8>)
    requires
        a.encodable(),
        b.encodable(),
    ensures
        decoded_pair::<A, B>(a.encoding() + b.encoding() + rest) == Ok::<
            ((A::Model, B::Model), nat),
            DecodeFailure,
        >(((a.model(), b.model()), a.encoding().len() + b.encoding().len())),
{
    let all = a.encoding() + b.encoding() + rest;
    assert(all =~= a.encoding() + (b.encoding() + rest));
    a.lemma_roundtrip(b.encoding() + rest);
    assert(all.skip(a.encoding().len() as int) =~= b.encoding() + rest);
    b.lemma_roundtrip(rest);
}

pub proof fn lemma_pair_length<A: PacketCodec, B: PacketCodec>(bytes: Seq<u8>)
    ensures
        decoded_pair::<A, B>(bytes) matches Ok((_, n)) ==> 0 < n <= bytes.len(),
        decoded_pair::<A, B>(bytes) matches Err(f) ==> !f.is_framing(),
        bytes.len() == 0 ==> decoded_pair::<A, B>(bytes) == Err::<
            ((A::Model, B::Model), nat),
            DecodeFailure,
        >(DecodeFailure::OutOfBytes),
{
    A::lemma_decoded_length(bytes);
    if let Ok((a, n)) = A::decoded(bytes) {
        B::lemma_decoded_length(bytes.skip(n as int));
    }
}

/// Reads an `A` and then a `B`.
pub fn deserialize_pair<'buf, A: PacketCodec, B: PacketCodec>(
    ctx: &mut PacketDeserializerContext<'buf>,
) -> (r: PacketDeserializeResult<(A, B)>)
    ensures
        final(ctx).bytes() == old(ctx).bytes(),
        match decoded_pair::<A, B>(old(ctx).remaining()) {
            Ok(((ma, mb), n)) => (r matches Ok((a, b)) && a.model() == ma && b.model() == mb
                && final(ctx).position() == old(ctx).position() + n),
            Err(f) => (r matches Err(e) && e.reports(f)),
        },
{
    let ghost start = *ctx;
    let a = ctx.deserialize::<A>()?;
    proof {
        A::lemma_decoded_length(start.remaining());
        PacketDeserializerContext::lemma_advance(&start, ctx, (ctx.position() - start.position()) as nat);
    }
    let b = ctx.deserialize::<B>()?;
    Ok((a, b))
}

/// Reads a packet's leading `u32` identifier.
fn deserialize_packet_id<'buf>(ctx: &mut PacketDeserializerContext<'buf>) -> (r: PacketDeserializeResult<u32>)
    ensures
        final(ctx).bytes() == old(ctx).bytes(),
        match u32::decoded(old(ctx).remaining()) {
            Ok((id, n)) => (r matches Ok(v) && v == id && n == 4 && final(ctx).position()
                == old(ctx).position() + 4 && final(ctx).remaining() == old(ctx).remaining().skip(4)),
            Err(f) => (r matches Err(e) && e.reports(f)),
        },
{
    let ghost start = *ctx;
    let id = ctx.deserialize::<u32>()?;
    proof {
        PacketDeserializerContext::lemma_advance(&start, ctx, 4);
    }
    Ok(id)
}

/// The identifier the server gives a connected client.
pub type ClientId = u64;

/// The identifier the server gives a chat room.
pub type RoomId = u64;

/// What the server knows of a chat room.
#[derive(Clone, Debug, Eq, PartialEq, Hash)]
pub struct RoomInfo {
    pub name: String,
}

/// An identifier with which a client matches responses to its requests.
#[derive(Copy, Clone, Debug, Eq, PartialEq, Hash)]
pub struct ResponseId(pub u32);

impl PacketCodec for ResponseId {
    type Model = u32;

    open spec fn model(&self) -> u32 {
        self.0
    }

    open spec fn encoding(&self) -> Seq<u8> {
        self.0.encoding()
    }

    open spec fn encodable(&self) -> bool {
        true
    }

    open spec fn decoded(bytes: Seq<u8>) -> Result<(u32, nat), DecodeFailure> {
        u32::decoded(bytes)
    }

    proof fn lemma_decoded_length(bytes: Seq<u8>) {
    }

    proof fn lemma_roundtrip(&self, rest: Seq<u8>) {
        self.0.lemma_roundtrip(rest);
    }

    fn serialize(&self, ctx: &mut PacketSerializerContext) -> (r: PacketSerializeResult<()>) {
        ctx.serialize(&self.0)
    }

    fn deserialize<'buf>(ctx: &mut PacketDeserializerContext<'buf>) -> (r: PacketDeserializeResult<
        Self,
    >) {
        let id = ctx.deserialize::<u32>()?;
        Ok(ResponseId(id))
    }
}

/// What the server knows of a connected peer.
#[derive(Clone, Debug, Eq, PartialEq, Hash)]
pub struct PeerInfo {
    pub username: Option<String>,
}

impl PacketCodec for PeerInfo {
    type Model = Option<Seq<char>>;

    open spec fn model(&self) -> Option<Seq<char>> {
        self.username.model()
    }

    open spec fn encoding(&self) -> Seq<u8> {
        self.username.encoding()
    }

    open spec fn encodable(&self) -> bool {
        self.username.encodable()
    }

    open spec fn decoded(bytes: Seq<u8>) -> Result<(Option<Seq<char>>, nat), DecodeFailure> {
        Option::<String>::decoded(bytes)
    }

    proof fn lemma_decoded_length(bytes: Seq<u8>) {
        Option::<String>::lemma_decoded_length(bytes);
    }

    proof fn lemma_roundtrip(&self, rest: Seq<u8>) {
        self.username.lemma_roundtrip(rest);
    }

    fn serialize(&self, ctx: &mut PacketSerializerContext) -> (r: PacketSerializeResult<()>) {
        ctx.serialize(&self.username)?;
        Ok(())
    }

    fn deserialize<'buf>(ctx: &mut PacketDeserializerContext<'buf>) -> (r: PacketDeserializeResult<
        PeerInfo,
    >) {
        Ok(PeerInfo { username: ctx.deserialize()? })
    }
}

// server -> client
#[derive(Clone, Debug, Eq, PartialEq)]
pub enum ServerToClientResponsePacket {
    ConnectAck { connection_id: u64 },
    MessageAck {},
    ShutdownAck {},
    PeerListingResponse { peers: Vec<u64> },
    PeerInfoResponse { peers: HashMap<u64, PeerInfo> },
}

/// The mathematical content of a [`ServerToClientResponsePacket`].
pub enum ResponseModel {
    ConnectAck { connection_id: u64 },
    MessageAck,
    ShutdownAck,
    PeerListingResponse { peers: Seq<u64> },
    PeerInfoResponse { peers: Map<u64, Option<Seq<char>>> },
}

pub const S2C_RESPONSE_ID_CONNECT_ACK: u32 = 0;

pub const S2C_RESPONSE_ID_MESSAGE_ACK: u32 = 2;

pub const S2C_RESPONSE_ID_SHUTDOWN_ACK: u32 = 3;

pub const S2C_RESPONSE_ID_PEER_LISTING_RESPONSE: u32 = 4;

pub const S2C_RESPONSE_ID_PEER_INFO_RESPONSE: u32 = 5;

impl PacketCodec for ServerToClientResponsePacket {
    type Model = ResponseModel;

    open spec fn model(&self) -> ResponseModel {
        match self {
            ServerToClientResponsePacket::ConnectAck { connection_id } => ResponseModel::ConnectAck {
                connection_id: *connection_id,
            },
            ServerToClientResponsePacket::MessageAck {  } => ResponseModel::MessageAck,
            ServerToClientResponsePacket::ShutdownAck {  } => ResponseModel::ShutdownAck,
            ServerToClientResponsePacket::PeerListingResponse {
                peers,
            } => ResponseModel::PeerListingResponse { peers: peers.model() },
            ServerToClientResponsePacket::PeerInfoResponse {
                peers,
            } => ResponseModel::PeerInfoResponse { peers: peers.model() },
        }
    }

    open spec fn encoding(&self) -> Seq<u8> {
        match self {
            ServerToClientResponsePacket::ConnectAck {
                connection_id,
            } => S2C_RESPONSE_ID_CONNECT_ACK.encoding() + connection_id.encoding(),
            ServerToClientResponsePacket::MessageAck {  } => S2C_RESPONSE_ID_MESSAGE_ACK.encoding(),
            ServerToClientResponsePacket::ShutdownAck {  } => S2C_RESPONSE_ID_SHUTDOWN_ACK.encoding(),
            ServerToClientResponsePacket::PeerListingResponse {
                peers,
            } => S2C_RESPONSE_ID_PEER_LISTING_RESPONSE.encoding() + peers.encoding(),
            ServerToClientResponsePacket::PeerInfoResponse {
                peers,
            } => S2C_RESPONSE_ID_PEER_INFO_RESPONSE.encoding() + peers.encoding(),
        }
    }

    open spec fn encodable(&self) -> bool {
        match self {
            ServerToClientResponsePacket::PeerListingResponse { peers } => peers.encodable(),
            ServerToClientResponsePacket::PeerInfoResponse { peers } => peers.encodable(),
            _ => true,
        }
    }

    open spec fn decoded(bytes: Seq<u8>) -> Result<(ResponseModel, nat), DecodeFailure> {
        match u32::decoded(bytes) {
            Err(f) => Err(f),
            Ok((id, _)) => {
                let body = bytes.skip(4);
                if id == S2C_RESPONSE_ID_CONNECT_ACK {
                    match u64::decoded(body) {
                        Ok((connection_id, n)) => Ok(
                            (ResponseModel::ConnectAck { connection_id }, n + 4),
                        ),
                        Err(f) => Err(f),
                    }
                } else if id == S2C_RESPONSE_ID_MESSAGE_ACK {
                    Ok((ResponseModel::MessageAck, 4))
                } else if id == S2C_RESPONSE_ID_SHUTDOWN_ACK {
                    Ok((ResponseModel::ShutdownAck, 4))
                } else if id == S2C_RESPONSE_ID_PEER_LISTING_RESPONSE {
                    match Vec::<u64>::decoded(body) {
                        Ok((peers, n)) => Ok((ResponseModel::PeerListingResponse { peers }, n + 4)),
                        Err(f) => Err(f),
                    }
                } else if id == S2C_RESPONSE_ID_PEER_INFO_RESPONSE {
                    match HashMap::<u64, PeerInfo>::decoded(body) {
                        Ok((peers, n)) => Ok((ResponseModel::PeerInfoResponse { peers }, n + 4)),
                        Err(f) => Err(f),
                    }
                } else {
                    Err(DecodeFailure::UnknownPacketId(id))
                }
            },
        }
    }

    proof fn lemma_decoded_length(bytes: Seq<u8>) {
        if bytes.len() >= 4 {
            u64::lemma_decoded_length(bytes.skip(4));
            Vec::<u64>::lemma_decoded_length(bytes.skip(4));
            HashMap::<u64, PeerInfo>::lemma_decoded_length(bytes.skip(4));
        }
    }

    proof fn lemma_roundtrip(&self, rest: Seq<u8>) {
        let all = self.encoding() + rest;
        match self {
            ServerToClientResponsePacket::ConnectAck { connection_id } => {
                lemma_tag_roundtrip(S2C_RESPONSE_ID_CONNECT_ACK, connection_id.encoding() + rest);
                assert(all =~= S2C_RESPONSE_ID_CONNECT_ACK.encoding() + (connection_id.encoding() + rest));
                connection_id.lemma_roundtrip(rest);
            },
            ServerToClientResponsePacket::MessageAck {  } => {
                lemma_tag_roundtrip(S2C_RESPONSE_ID_MESSAGE_ACK, rest);
            },
            ServerToClientResponsePacket::ShutdownAck {  } => {
                lemma_tag_roundtrip(S2C_RESPONSE_ID_SHUTDOWN_ACK, rest);
            },
            ServerToClientResponsePacket::PeerListingResponse { peers } => {
                lemma_tag_roundtrip(S2C_RESPONSE_ID_PEER_LISTING_RESPONSE, peers.encoding() + rest);
                assert(all =~= S2C_RESPONSE_ID_PEER_LISTING_RESPONSE.encoding() + (peers.encoding()
                    + rest));
                peers.lemma_roundtrip(rest);
            },
            ServerToClientResponsePacket::PeerInfoResponse { peers } => {
                lemma_tag_roundtrip(S2C_RESPONSE_ID_PEER_INFO_RESPONSE, peers.encoding() + rest);
                assert(all =~= S2C_RESPONSE_ID_PEER_INFO_RESPONSE.encoding() + (peers.encoding()
                    + rest));
                peers.lemma_roundtrip(rest);
            },
        }
    }

    fn serialize(&self, ctx: &mut PacketSerializerContext) -> (r: PacketSerializeResult<()>) {
        match self {
            ServerToClientResponsePacket::ConnectAck { connection_id } => {
                ctx.serialize(&S2C_RESPONSE_ID_CONNECT_ACK)?;
                ctx.serialize(connection_id)?;
            },
            ServerToClientResponsePacket::MessageAck {  } => {
                ctx.serialize(&S2C_RESPONSE_ID_MESSAGE_ACK)?;
            },
            ServerToClientResponsePacket::ShutdownAck {  } => {
                ctx.serialize(&S2C_RESPONSE_ID_SHUTDOWN_ACK)?;
            },
            ServerToClientResponsePacket::PeerListingResponse { peers } => {
                ctx.serialize(&S2C_RESPONSE_ID_PEER_LISTING_RESPONSE)?;
                ctx.serialize(peers)?;
            },
            ServerToClientResponsePacket::PeerInfoResponse { peers } => {
                ctx.serialize(&S2C_RESPONSE_ID_PEER_INFO_RESPONSE)?;
                ctx.serialize(peers)?;
            },
        }
        proof {
            assert(ctx@ =~= old(ctx)@ + self.encoding());
        }
        Ok(())
    }

    fn deserialize<'buf>(ctx: &mut PacketDeserializerContext<'buf>) -> (r: PacketDeserializeResult<
        Self,
    >) {
        let id = deserialize_packet_id(ctx)?;
        if id == S2C_RESPONSE_ID_CONNECT_ACK {
            Ok(ServerToClientResponsePacket::ConnectAck { connection_id: ctx.deserialize()? })
        } else if id == S2C_RESPONSE_ID_MESSAGE_ACK {
            Ok(ServerToClientResponsePacket::MessageAck {  })
        } else if id == S2C_RESPONSE_ID_SHUTDOWN_ACK {
            Ok(ServerToClientResponsePacket::ShutdownAck {  })
        } else if id == S2C_RESPONSE_ID_PEER_LISTING_RESPONSE {
            Ok(ServerToClientResponsePacket::PeerListingResponse { peers: ctx.deserialize()? })
        } else if id == S2C_RESPONSE_ID_PEER_INFO_RESPONSE {
            Ok(ServerToClientResponsePacket::PeerInfoResponse { peers: ctx.deserialize()? })
        } else {
            Err(PacketDeserializeError::UnknownPacketId(id))
        }
    }
}

/// A packet's `u32` identifier reads back, and what follows it is what remains.
pub proof fn lemma_tag_roundtrip(tag: u32, rest: Seq<u8>)
    ensures
        u32::decoded(tag.encoding() + rest) == Ok::<(u32, nat), DecodeFailure>((tag, 4)),
        (tag.encoding() + rest).skip(4) == rest,
        (tag.encoding() + rest).len() >= 4,
{
    tag.lemma_roundtrip(rest);
    assert((tag.encoding() + rest).skip(4) =~= rest);
}

#[derive(Clone, Debug, Eq, PartialEq)]
pub enum ServerToClientPacket {
    Response { rid: ResponseId, packet: ServerToClientResponsePacket },
    PeerConnected { peer_id: u64 },
    PeerDisonnected { peer_id: u64 },
    PeerMessage { peer_id: u64, message: String },
}

/// The mathematical content of a [`ServerToClientPacket`].
pub enum ServerToClientModel {
    Response { rid: u32, packet: ResponseModel },
    PeerConnected { peer_id: u64 },
    PeerDisonnected { peer_id: u64 },
    PeerMessage { peer_id: u64, message: Seq<char> },
}

pub const S2C_ID_RESPONSE: u32 = 0;

pub const S2C_ID_PEER_CONNECTED: u32 = 1;

pub const S2C_ID_PEER_DISCONNECTED: u32 = 2;

pub const S2C_ID_PEER_MESSAGE: u32 = 3;

impl PacketCodec for ServerToClientPacket {
    type Model = ServerToClientModel;

    open spec fn model(&self) -> ServerToClientModel {
        match self {
            ServerToClientPacket::Response { rid, packet } => ServerToClientModel::Response {
                rid: rid.0,
                packet: packet.model(),
            },
            ServerToClientPacket::PeerConnected { peer_id } => ServerToClientModel::PeerConnected {
                peer_id: *peer_id,
            },
            ServerToClientPacket::PeerDisonnected {
                peer_id,
            } => ServerToClientModel::PeerDisonnected { peer_id: *peer_id },
            ServerToClientPacket::PeerMessage { peer_id, message } => ServerToClientModel::PeerMessage {
                peer_id: *peer_id,
                message: message@,
            },
        }
    }

    open spec fn encoding(&self) -> Seq<u8> {
        match self {
            ServerToClientPacket::Response { rid, packet } => S2C_ID_RESPONSE.encoding()
                + rid.encoding() + packet.encoding(),
            ServerToClientPacket::PeerConnected {
                peer_id,
            } => S2C_ID_PEER_CONNECTED.encoding() + peer_id.encoding(),
            ServerToClientPacket::PeerDisonnected {
                peer_id,
            } => S2C_ID_PEER_DISCONNECTED.encoding() + peer_id.encoding(),
            ServerToClientPacket::PeerMessage { peer_id, message } => S2C_ID_PEER_MESSAGE.encoding()
                + peer_id.encoding() + message.encoding(),
        }
    }

    open spec fn encodable(&self) -> bool {
        match self {
            ServerToClientPacket::Response { packet, .. } => packet.encodable(),
            ServerToClientPacket::PeerMessage { message, .. } => message.encodable(),
            _ => true,
        }
    }

    open spec fn decoded(bytes: Seq<u8>) -> Result<(ServerToClientModel, nat), DecodeFailure> {
        match u32::decoded(bytes) {
            Err(f) => Err(f),
            Ok((id, _)) => {
                let body = bytes.skip(4);
                if id == S2C_ID_RESPONSE {
                    match decoded_pair::<ResponseId, ServerToClientResponsePacket>(body) {
                        Ok(((rid, packet), n)) => Ok(
                            (ServerToClientModel::Response { rid, packet }, n + 4),
                        ),
                        Err(f) => Err(f),
                    }
                } else if id == S2C_ID_PEER_CONNECTED {
                    match u64::decoded(body) {
                        Ok((peer_id, n)) => Ok((ServerToClientModel::PeerConnected { peer_id }, n + 4)),
                        Err(f) => Err(f),
                    }
                } else if id == S2C_ID_PEER_DISCONNECTED {
                    match u64::decoded(body) {
                        Ok((peer_id, n)) => Ok(
                            (ServerToClientModel::PeerDisonnected { peer_id }, n + 4),
                        ),
                        Err(f) => Err(f),
                    }
                } else if id == S2C_ID_PEER_MESSAGE {
                    match decoded_pair::<u64, String>(body) {
                        Ok(((peer_id, message), n)) => Ok(
                            (ServerToClientModel::PeerMessage { peer_id, message }, n + 4),
                        ),
                        Err(f) => Err(f),
                    }
                } else {
                    Err(DecodeFailure::UnknownPacketId(id))
                }
            },
        }
    }

    proof fn lemma_decoded_length(bytes: Seq<u8>) {
        if bytes.len() >= 4 {
            lemma_pair_length::<ResponseId, ServerToClientResponsePacket>(bytes.skip(4));
            u64::lemma_decoded_length(bytes.skip(4));
            lemma_pair_length::<u64, String>(bytes.skip(4));
        }
    }

    proof fn lemma_roundtrip(&self, rest: Seq<u8>) {
        let all = self.encoding() + rest;
        match self {
            ServerToClientPacket::Response { rid, packet } => {
                let body = rid.encoding() + packet.encoding() + rest;
                lemma_tag_roundtrip(S2C_ID_RESPONSE, body);
                assert(all =~= S2C_ID_RESPONSE.encoding() + body);
                lemma_pair_roundtrip(rid, packet, rest);
            },
            ServerToClientPacket::PeerConnected { peer_id } => {
                lemma_tag_roundtrip(S2C_ID_PEER_CONNECTED, peer_id.encoding() + rest);
                assert(all =~= S2C_ID_PEER_CONNECTED.encoding() + (peer_id.encoding() + rest));
                peer_id.lemma_roundtrip(rest);
            },
            ServerToClientPacket::PeerDisonnected { peer_id } => {
                lemma_tag_roundtrip(S2C_ID_PEER_DISCONNECTED, peer_id.encoding() + rest);
                assert(all =~= S2C_ID_PEER_DISCONNECTED.encoding() + (peer_id.encoding() + rest));
                peer_id.lemma_roundtrip(rest);
            },
            ServerToClientPacket::PeerMessage { peer_id, message } => {
                let body = peer_id.encoding() + message.encoding() + rest;
                lemma_tag_roundtrip(S2C_ID_PEER_MESSAGE, body);
                assert(all =~= S2C_ID_PEER_MESSAGE.encoding() + body);
                lemma_pair_roundtrip(peer_id, message, rest);
            },
        }
    }

    fn serialize(&self, ctx: &mut PacketSerializerContext) -> (r: PacketSerializeResult<()>) {
        match self {
            ServerToClientPacket::Response { rid, packet } => {
                ctx.serialize(&S2C_ID_RESPONSE)?;
                ctx.serialize(rid)?;
                ctx.serialize(packet)?;
            },
            ServerToClientPacket::PeerConnected { peer_id } => {
                ctx.serialize(&S2C_ID_PEER_CONNECTED)?;
                ctx.serialize(peer_id)?;
            },
            ServerToClientPacket::PeerDisonnected { peer_id } => {
                ctx.serialize(&S2C_ID_PEER_DISCONNECTED)?;
                ctx.serialize(peer_id)?;
            },
            ServerToClientPacket::PeerMessage { peer_id, message } => {
                ctx.serialize(&S2C_ID_PEER_MESSAGE)?;
                ctx.serialize(peer_id)?;
                ctx.serialize(message)?;
            },
        }
        proof {
            assert(ctx@ =~= old(ctx)@ + self.encoding());
        }
        Ok(())
    }

    fn deserialize<'buf>(ctx: &mut PacketDeserializerContext<'buf>) -> (r: PacketDeserializeResult<
        ServerToClientPacket,
    >) {
        let id = deserialize_packet_id(ctx)?;
        if id == S2C_ID_RESPONSE {
            let (rid, packet) = deserialize_pair::<ResponseId, ServerToClientResponsePacket>(ctx)?;
            Ok(ServerToClientPacket::Response { rid, packet })
        } else if id == S2C_ID_PEER_CONNECTED {
            Ok(ServerToClientPacket::PeerConnected { peer_id: ctx.deserialize()? })
        } else if id == S2C_ID_PEER_DISCONNECTED {
            Ok(ServerToClientPacket::PeerDisonnected { peer_id: ctx.deserialize()? })
        } else if id == S2C_ID_PEER_MESSAGE {
            let (peer_id, message) = deserialize_pair::<u64, String>(ctx)?;
            Ok(ServerToClientPacket::PeerMessage { peer_id, message })
        } else {
            Err(PacketDeserializeError::UnknownPacketId(id))
        }
    }
}

// client -> server
#[derive(Clone, Debug, Eq, PartialEq, Hash)]
pub enum ClientToServerPacketKind {
    Connect { username: String },
    Message { message: String },
    Shutdown {},
    RequestPeerListing {},
    RequestPeerInfo { peer_ids: Vec<u64> },
}

/// The mathematical content of a [`ClientToServerPacketKind`].
pub enum RequestModel {
    Connect { username: Seq<char> },
    Message { message: Seq<char> },
    Shutdown,
    RequestPeerListing,
    RequestPeerInfo { peer_ids: Seq<u64> },
}

pub const C2S_ID_CONNECT: u32 = 0;

pub const C2S_ID_MESSAGE: u32 = 2;

pub const C2S_ID_SHUTDOWN: u32 = 3;

pub const C2S_ID_REQUEST_PEER_LISTING: u32 = 4;

pub const C2S_ID_REQUEST_PEER_INFO: u32 = 5;

impl PacketCodec for ClientToServerPacketKind {
    type Model = RequestModel;

    open spec fn model(&self) -> RequestModel {
        match self {
            ClientToServerPacketKind::Connect { username } => RequestModel::Connect {
                username: username@,
            },
            ClientToServerPacketKind::Message { message } => RequestModel::Message {
                message: message@,
            },
            ClientToServerPacketKind::Shutdown {  } => RequestModel::Shutdown,
            ClientToServerPacketKind::RequestPeerListing {  } => RequestModel::RequestPeerListing,
            ClientToServerPacketKind::RequestPeerInfo { peer_ids } => RequestModel::RequestPeerInfo {
                peer_ids: peer_ids.model(),
            },
        }
    }

    open spec fn encoding(&self) -> Seq<u8> {
        match self {
            ClientToServerPacketKind::Connect { username } => C2S_ID_CONNECT.encoding()
                + username.encoding(),
            ClientToServerPacketKind::Message { message } => C2S_ID_MESSAGE.encoding()
                + message.encoding(),
            ClientToServerPacketKind::Shutdown {  } => C2S_ID_SHUTDOWN.encoding(),
            ClientToServerPacketKind::RequestPeerListing {  } => C2S_ID_REQUEST_PEER_LISTING.encoding(),
            ClientToServerPacketKind::RequestPeerInfo {
                peer_ids,
            } => C2S_ID_REQUEST_PEER_INFO.encoding() + peer_ids.encoding(),
        }
    }

    open spec fn encodable(&self) -> bool {
        match self {
            ClientToServerPacketKind::Connect { username } => username.encodable(),
            ClientToServerPacketKind::Message { message } => message.encodable(),
            ClientToServerPacketKind::RequestPeerInfo { peer_ids } => peer_ids.encodable(),
            _ => true,
        }
    }

    open spec fn decoded(bytes: Seq<u8>) -> Result<(RequestModel, nat), DecodeFailure> {
        match u32::decoded(bytes) {
            Err(f) => Err(f),
            Ok((id, _)) => {
                let body = bytes.skip(4);
                if id == C2S_ID_CONNECT {
                    match String::decoded(body) {
                        Ok((username, n)) => Ok((RequestModel::Connect { username }, n + 4)),
                        Err(f) => Err(f),
                    }
                } else if id == C2S_ID_MESSAGE {
                    match String::decoded(body) {
                        Ok((message, n)) => Ok((RequestModel::Message { message }, n + 4)),
                        Err(f) => Err(f),
                    }
                } else if id == C2S_ID_SHUTDOWN {
                    Ok((RequestModel::Shutdown, 4))
                } else if id == C2S_ID_REQUEST_PEER_LISTING {
                    Ok((RequestModel::RequestPeerListing, 4))
                } else if id == C2S_ID_REQUEST_PEER_INFO {
                    match Vec::<u64>::decoded(body) {
                        Ok((peer_ids, n)) => Ok((RequestModel::RequestPeerInfo { peer_ids }, n + 4)),
                        Err(f) => Err(f),
                    }
                } else {
                    Err(DecodeFailure::UnknownPacketId(id))
                }
            },
        }
    }

    proof fn lemma_decoded_length(bytes: Seq<u8>) {
        if bytes.len() >= 4 {
            String::lemma_decoded_length(bytes.skip(4));
            Vec::<u64>::lemma_decoded_length(bytes.skip(4));
        }
    }

    proof fn lemma_roundtrip(&self, rest: Seq<u8>) {
        let all = self.encoding() + rest;
        match self {
            ClientToServerPacketKind::Connect { username } => {
                lemma_tag_roundtrip(C2S_ID_CONNECT, username.encoding() + rest);
                assert(all =~= C2S_ID_CONNECT.encoding() + (username.encoding() + rest));
                username.lemma_roundtrip(rest);
            },
            ClientToServerPacketKind::Message { message } => {
                lemma_tag_roundtrip(C2S_ID_MESSAGE, message.encoding() + rest);
                assert(all =~= C2S_ID_MESSAGE.encoding() + (message.encoding() + rest));
                message.lemma_roundtrip(rest);
            },
            ClientToServerPacketKind::Shutdown {  } => {
                lemma_tag_roundtrip(C2S_ID_SHUTDOWN, rest);
            },
            ClientToServerPacketKind::RequestPeerListing {  } => {
                lemma_tag_roundtrip(C2S_ID_REQUEST_PEER_LISTING, rest);
            },
            ClientToServerPacketKind::RequestPeerInfo { peer_ids } => {
                lemma_tag_roundtrip(C2S_ID_REQUEST_PEER_INFO, peer_ids.encoding() + rest);
                assert(all =~= C2S_ID_REQUEST_PEER_INFO.encoding() + (peer_ids.encoding() + rest));
                peer_ids.lemma_roundtrip(rest);
            },
        }
    }

    fn serialize(&self, ctx: &mut PacketSerializerContext) -> (r: PacketSerializeResult<()>) {
        match self {
            ClientToServerPacketKind::Connect { username } => {
                ctx.serialize::<u32>(&C2S_ID_CONNECT)?;
                ctx.serialize::<String>(username)?;
            },
            ClientToServerPacketKind::Message { message } => {
                ctx.serialize::<u32>(&C2S_ID_MESSAGE)?;
                ctx.serialize::<String>(message)?;
            },
            ClientToServerPacketKind::Shutdown {  } => {
                ctx.serialize::<u32>(&C2S_ID_SHUTDOWN)?;
            },
            ClientToServerPacketKind::RequestPeerListing {  } => {
                ctx.serialize::<u32>(&C2S_ID_REQUEST_PEER_LISTING)?;
            },
            ClientToServerPacketKind::RequestPeerInfo { peer_ids } => {
                ctx.serialize::<u32>(&C2S_ID_REQUEST_PEER_INFO)?;
                ctx.serialize::<Vec<u64>>(peer_ids)?;
            },
        }
        proof {
            assert(ctx@ =~= old(ctx)@ + self.encoding());
        }
        Ok(())
    }

    fn deserialize<'buf>(ctx: &mut PacketDeserializerContext<'buf>) -> (r: PacketDeserializeResult<
        ClientToServerPacketKind,
    >) {
        let id = deserialize_packet_id(ctx)?;
        if id == C2S_ID_CONNECT {
            Ok(ClientToServerPacketKind::Connect { username: ctx.deserialize()? })
        } else if id == C2S_ID_MESSAGE {
            Ok(ClientToServerPacketKind::Message { message: ctx.deserialize()? })
        } else if id == C2S_ID_SHUTDOWN {
            Ok(ClientToServerPacketKind::Shutdown {  })
        } else if id == C2S_ID_REQUEST_PEER_LISTING {
            Ok(ClientToServerPacketKind::RequestPeerListing {  })
        } else if id == C2S_ID_REQUEST_PEER_INFO {
            Ok(ClientToServerPacketKind::RequestPeerInfo { peer_ids: ctx.deserialize()? })
        } else {
            Err(PacketDeserializeError::UnknownPacketId(id))
        }
    }
}

// client -> server
#[derive(Clone, Debug, Eq, PartialEq, Hash)]
pub struct ClientToServerPacket {
    pub rid: ResponseId,
    pub kind: ClientToServerPacketKind,
}

impl PacketCodec for ClientToServerPacket {
    type Model = (u32, RequestModel);

    open spec fn model(&self) -> (u32, RequestModel) {
        (self.rid.0, self.kind.model())
    }

    open spec fn encoding(&self) -> Seq<u8> {
        self.rid.encoding() + self.kind.encoding()
    }

    open spec fn encodable(&self) -> bool {
        self.kind.encodable()
    }

    open spec fn decoded(bytes: Seq<u8>) -> Result<((u32, RequestModel), nat), DecodeFailure> {
        decoded_pair::<ResponseId, ClientToServerPacketKind>(bytes)
    }

    proof fn lemma_decoded_length(bytes: Seq<u8>) {
        lemma_pair_length::<ResponseId, ClientToServerPacketKind>(bytes);
    }

    proof fn lemma_roundtrip(&self, rest: Seq<u8>) {
        lemma_pair_roundtrip(&self.rid, &self.kind, rest);
    }

    fn serialize(&self, ctx: &mut PacketSerializerContext) -> (r: PacketSerializeResult<()>) {
        ctx.serialize(&self.rid)?;
        ctx.serialize(&self.kind)?;
        Ok(())
    }

    fn deserialize<'buf>(ctx: &mut PacketDeserializerContext<'buf>) -> (r: PacketDeserializeResult<
        Self,
    >) {
        let (rid, kind) = deserialize_pair::<ResponseId, ClientToServerPacketKind>(ctx)?;
        Ok(ClientToServerPacket { rid, kind })
    }
}

/// A whole packet on the wire: its length as a `u32`, counting the four length
/// bytes themselves, then the body.
pub open spec fn framed(body: Seq<u8>) -> Seq<u8> {
    be_bytes((body.len() + 4) as nat, 4) + body
}

/// Appends the body of a packet carrying `message` to `buf`.
///
/// important: packet length is NOT included in the buffer! it must be sent down
/// the connection before the buffer is written (see [`packet_length_prefix`]).
pub fn serialize_packet_body<P: PacketCodec>(buf: Vec<u8>, message: &P) -> (r: Vec<u8>)
    ensures
        r@ == buf@ + message.encoding(),
{
    let mut ctx = PacketSerializerContext::new(buf);
    let _ = ctx.serialize(message);
    ctx.into_buffer()
}

/// The length field sent ahead of a body of `body_len` bytes.
pub fn packet_length_prefix(body_len: usize) -> (r: Vec<u8>)
    requires
        body_len + 4 <= u32::MAX,
    ensures
        r@ == be_bytes((body_len + 4) as nat, 4),
{
    let length = body_len as u32 + 4;
    let mut ctx = PacketSerializerContext::new(Vec::new());
    let _ = ctx.serialize(&length);
    ctx.into_buffer()
}

/// What the reader's buffer yields when a packet is asked of it.
pub enum ReadStep<P> {
    Packet(P),
    NeedMoreData,
    Failed(PacketDeserializeError),
}

/// What a read from the connection means for the reader.
#[derive(Copy, Clone, Debug, Eq, PartialEq)]
pub enum ReadProgress {
    Continue,
    EndOfStream,
    ConnectionReset,
}

/// Collects the bytes that arrive on a connection and cuts them into packets.
pub struct PacketReader {
    buffer: Vec<u8>,
}

impl View for PacketReader {
    type V = Seq<u8>;

    closed spec fn view(&self) -> Seq<u8> {
        self.buffer@
    }
}

impl PacketReader {
    pub fn new() -> (r: Self)
        ensures
            r@ == Seq::<u8>::empty(),
    {
        PacketReader { buffer: Vec::new() }
    }

    /// Tries to take a whole packet off the front of the buffer. A packet whose
    /// length or body has not fully arrived asks for more data; any other parse
    /// error is a failure. Only a delivered packet leaves the buffer.
    pub fn poll<P: PacketCodec>(&mut self) -> (r: ReadStep<P>)
        ensures
            match parse_outcome::<P>(old(self)@, 0) {
                Ok((m, n)) => (r matches ReadStep::Packet(p) && p.model() == m && final(self)@
                    == old(self)@.skip(n as int)),
                Err(DecodeFailure::UnknownPacketLength) => (r is NeedMoreData && final(self)@
                    == old(self)@),
                Err(DecodeFailure::MismatchedPacketLength { .. }) => (r is NeedMoreData
                    && final(self)@ == old(self)@),
                Err(f) => (r matches ReadStep::Failed(e) && e.reports(f) && final(self)@
                    == old(self)@),
            },
    {
        // attempt to parse a packet first, so that if we get multiple
        // packets at a time, we can actually parse both of them instead of
        // having to wait for more data from the socket first
        let buffered = self.buffer.len();
        let outcome = {
            let mut ctx = PacketDeserializerContext::new(self.buffer.as_slice());
            ctx.parse::<P>()
        };
        proof {
            lemma_parse_outcome_length::<P>(self@);
        }
        match outcome {
            Ok((message, parsed_length)) => {
                let rest = slice_to_vec(
                    slice_subrange(self.buffer.as_slice(), parsed_length, self.buffer.len()),
                );
                *self = PacketReader { buffer: rest };
                proof {
                    assert(self@ =~= old(self)@.skip(parsed_length as int));
                }
                ReadStep::Packet(message)
            },
            Err(PacketDeserializeError::UnknownPacketLength) => ReadStep::NeedMoreData,
            Err(
                PacketDeserializeError::MismatchedPacketLength {
                    buffer_length,
                    expected_from_header,
                },
            ) => {
                if buffer_length < expected_from_header {
                    ReadStep::NeedMoreData
                } else {
                    ReadStep::Failed(
                        PacketDeserializeError::MismatchedPacketLength {
                            buffer_length,
                            expected_from_header,
                        },
                    )
                }
            },
            Err(err) => ReadStep::Failed(err),
        }
    }

    /// Takes in the bytes of one read from the connection. A read of nothing
    /// ends the stream: cleanly with an empty buffer, otherwise in the middle
    /// of a packet that can never be finished.
    pub fn receive(&mut self, data: &[u8]) -> (r: ReadProgress)
        ensures
            final(self)@ == old(self)@ + data@,
            data@.len() == 0 && old(self)@.len() == 0 ==> r == ReadProgress::EndOfStream,
            data@.len() == 0 && old(self)@.len() > 0 ==> r == ReadProgress::ConnectionReset,
            data@.len() > 0 ==> r == ReadProgress::Continue,
    {
        if data.len() == 0 {
            proof {
                assert(old(self)@ + data@ =~= old(self)@);
            }
            if self.buffer.len() == 0 {
                ReadProgress::EndOfStream
            } else {
                // getting to this read means we have an incomplete packet, but
                // the connection was closed, so the packet can never be
                // finished. this is an error condition.
                ReadProgress::ConnectionReset
            }
        } else {
            let mut i: usize = 0;
            while i < data.len()
                invariant
                    i <= data@.len(),
                    self@ == old(self)@ + data@.take(i as int),
                decreases data@.len() - i,
            {
                self.buffer.push(data[i]);
                i = i + 1;
                proof {
                    assert(self@ =~= old(self)@ + data@.take(i as int));
                }
            }
            proof {
                assert(data@.take(i as int) =~= data@);
            }
            ReadProgress::Continue
        }
    }
}

/// A parsed packet is never longer than the buffer it came from; a mismatched
/// length always means the header asks for more than there is.
pub proof fn lemma_parse_outcome_length<P: PacketCodec>(packet: Seq<u8>)
    requires
        packet.len() <= usize::MAX,
    ensures
        parse_outcome::<P>(packet, 0) matches Ok((_, n)) ==> n <= packet.len(),
        parse_outcome::<P>(packet, 0) matches Err(
            DecodeFailure::MismatchedPacketLength { buffer_length, expected_from_header },
        ) ==> buffer_length < expected_from_header,
{
    if packet.len() >= 4 {
        let length = super::wire::be_value(packet.subrange(0, 4));
        if 4 <= length <= packet.len() {
            P::lemma_decoded_length(packet.subrange(4, length as int));
        }
        super::wire::lemma_be_value_bound(packet.subrange(0, 4));
        lemma_pow256_values();
        assert(length < 0x1_0000_0000);
        assert(length <= usize::MAX);
        assert(packet.subrange(0, 4) == packet.subrange(0nat as int, (0nat + 4) as int));
        if length > packet.len() {
            assert((packet.len() as usize) < (length as usize));
            assert(parse_outcome::<P>(packet, 0) == Err::<(P::Model, nat), DecodeFailure>(
                DecodeFailure::MismatchedPacketLength {
                    buffer_length: packet.len() as usize,
                    expected_from_header: length as usize,
                },
            ));
        }
    }
}

/// A framed packet reads back as the value it carries and takes up exactly its
/// own bytes, whatever arrives after it.
pub proof fn lemma_framed_packet_roundtrip<P: PacketCodec>(message: &P, rest: Seq<u8>)
    requires
        message.encodable(),
        message.encoding().len() + 4 <= u32::MAX,
    ensures
        parse_outcome::<P>(framed(message.encoding()) + rest, 0) == Ok::<(P::Model, nat), DecodeFailure>(
            (message.model(), framed(message.encoding()).len()),
        ),
        framed(message.encoding()).len() == message.encoding().len() + 4,
{
    let body = message.encoding();
    let total = (body.len() + 4) as nat;
    let packet = framed(body) + rest;
    lemma_pow256_values();
    lemma_be_bytes_len(total, 4);
    lemma_be_roundtrip(total, 4);
    assert(packet.subrange(0, 4) =~= be_bytes(total, 4));
    assert(packet.subrange(4, total as int) =~= body);
    message.lemma_roundtrip(Seq::empty());
    assert(body + Seq::<u8>::empty() =~= body);
}

/// Any strict prefix of a framed packet asks for more data: either its length
/// field is incomplete or its body is.
pub proof fn lemma_partial_packet_needs_more<P: PacketCodec>(message: &P, received: nat)
    requires
        message.encoding().len() + 4 <= u32::MAX,
        received < framed(message.encoding()).len(),
    ensures
        parse_outcome::<P>(framed(message.encoding()).take(received as int), 0) matches Err(f) && (
        f is UnknownPacketLength || f is MismatchedPacketLength),
{
    let body = message.encoding();
    let total = (body.len() + 4) as nat;
    let packet = framed(body).take(received as int);
    lemma_pow256_values();
    lemma_be_bytes_len(total, 4);
    lemma_be_roundtrip(total, 4);
    if received >= 4 {
        assert(packet.subrange(0, 4) =~= be_bytes(total, 4));
    }
}

} // verus!
