//! Client messages on the wire, each framed by a length that the serializer
//! writes back once the body is known, and the cutting of a connection's bytes
//! into such messages; the server's errors.
use vstd::prelude::*;
use vstd::slice::slice_subrange;

use crate::common::context::{str_from_utf8, DecodeFailure};
use crate::common::packet::{PacketCodec, ReadProgress};
use crate::common::CommonError;
use crate::common::wire::{
    be_bytes, be_value, lemma_be_bytes_len, lemma_be_roundtrip, lemma_be_value_bound,
    lemma_pow256_values, read_be, write_be,
};

pub mod client;
pub mod instance;
pub mod room;

verus! {

#[derive(Debug)]
pub enum ServerError {
    Io(std::io::Error),
    PacketParse(PacketParseError),
    ConnectionReset,
    Common(CommonError),
    /// A task dropped a request without answering it.
    ResponderClosed,
}

impl From<CommonError> for ServerError {
    fn from(err: CommonError) -> (r: Self) {
        ServerError::Common(err)
    }
}

impl vstd::std_specs::convert::FromSpecImpl<CommonError> for ServerError {
    open spec fn obeys_from_spec() -> bool {
        true
    }

    open spec fn from_spec(err: CommonError) -> Self {
        ServerError::Common(err)
    }
}

impl From<std::io::Error> for ServerError {
    fn from(err: std::io::Error) -> (r: Self) {
        ServerError::Io(err)
    }
}

impl vstd::std_specs::convert::FromSpecImpl<std::io::Error> for ServerError {
    open spec fn obeys_from_spec() -> bool {
        true
    }

    open spec fn from_spec(err: std::io::Error) -> Self {
        ServerError::Io(err)
    }
}

impl From<PacketParseError> for ServerError {
    fn from(err: PacketParseError) -> (r: Self) {
        ServerError::PacketParse(err)
    }
}

impl vstd::std_specs::convert::FromSpecImpl<PacketParseError> for ServerError {
    open spec fn obeys_from_spec() -> bool {
        true
    }

    open spec fn from_spec(err: PacketParseError) -> Self {
        ServerError::PacketParse(err)
    }
}

pub type ServerResult<T> = Result<T, ServerError>;

/// A value together with the connection it came from or goes to.
#[derive(Clone, Debug, Eq, PartialEq, Hash)]
pub struct ConnectionTagged<T> {
    connection_id: u64,
    value: T,
}

impl<T> ConnectionTagged<T> {
    pub fn new(connection_id: u64, value: T) -> (r: Self)
        ensures
            r.connection_id() == connection_id,
            r.value() == value,
    {
        ConnectionTagged { connection_id, value }
    }

    pub closed spec fn connection_id(&self) -> u64 {
        self.connection_id
    }

    pub closed spec fn value(&self) -> T {
        self.value
    }

    pub fn connection(&self) -> (r: u64)
        ensures
            r == self.connection_id(),
    {
        self.connection_id
    }

    pub fn into_value(self) -> (r: T)
        ensures
            r == self.value(),
    {
        self.value
    }
}

// server -> client
#[derive(Clone, Debug, Eq, PartialEq, Hash)]
pub enum ServerMessage {
    ConnectAck,
    DisconnectAck,
    MessageAck,
}

pub const S2C_ID_CONNECT_ACK: u32 = 0;

pub const S2C_ID_DISCONNECT_ACK: u32 = 1;

pub const S2C_ID_MESSAGE_ACK: u32 = 2;

// client -> server
#[derive(Clone, Debug, Eq, PartialEq, Hash)]
pub enum ClientMessage {
    Connect,
    Disconnect,
    Message(String),
}

/// The mathematical content of a [`ClientMessage`].
pub enum ClientMessageModel {
    Connect,
    Disconnect,
    Message(Seq<char>),
}

pub const C2S_ID_CONNECT: u32 = 0;

pub const C2S_ID_DISCONNECT: u32 = 1;

pub const C2S_ID_MESSAGE: u32 = 2;

impl ClientMessage {
    pub open spec fn model(&self) -> ClientMessageModel {
        match self {
            ClientMessage::Connect => ClientMessageModel::Connect,
            ClientMessage::Disconnect => ClientMessageModel::Disconnect,
            ClientMessage::Message(text) => ClientMessageModel::Message(text@),
        }
    }

    /// The body: the message's `u32` identifier, then the text of a `Message`.
    pub open spec fn body(&self) -> Seq<u8> {
        match self {
            ClientMessage::Connect => C2S_ID_CONNECT.encoding(),
            ClientMessage::Disconnect => C2S_ID_DISCONNECT.encoding(),
            ClientMessage::Message(text) => C2S_ID_MESSAGE.encoding() + text.encoding(),
        }
    }

    /// The whole packet: its length (counting the length field) as a `u32`, then the body.
    pub open spec fn packet(&self) -> Seq<u8> {
        be_bytes(((self.body().len() + 4) as u32) as nat, 4) + self.body()
    }

    pub open spec fn encodable(&self) -> bool {
        match self {
            ClientMessage::Message(text) => text.encodable() && self.body().len() + 4 <= u32::MAX,
            _ => true,
        }
    }
}

/// What reading a message body from the front of `bytes` gives.
pub open spec fn client_message_decoded(bytes: Seq<u8>) -> Result<(ClientMessageModel, nat), DecodeFailure> {
    match u32::decoded(bytes) {
        Err(f) => Err(f),
        Ok((id, _)) => if id == C2S_ID_CONNECT {
            Ok((ClientMessageModel::Connect, 4))
        } else if id == C2S_ID_DISCONNECT {
            Ok((ClientMessageModel::Disconnect, 4))
        } else if id == C2S_ID_MESSAGE {
            match String::decoded(bytes.skip(4)) {
                Ok((text, n)) => Ok((ClientMessageModel::Message(text), n + 4)),
                Err(f) => Err(f),
            }
        } else {
            Err(DecodeFailure::UnknownPacketId(id))
        },
    }
}

/// What [`PacketParserContext::parse`] does with `packet` read from `cursor`.
pub open spec fn client_packet_outcome(packet: Seq<u8>, cursor: nat) -> Result<
    (ClientMessageModel, nat),
    DecodeFailure,
> {
    if packet.len() < 4 {
        Err(DecodeFailure::UnknownPacketLength)
    } else if cursor + 4 > packet.len() {
        Err(DecodeFailure::OutOfBytes)
    } else {
        let length = be_value(packet.subrange(cursor as int, (cursor + 4) as int));
        if length > packet.len() {
            Err(
                DecodeFailure::MismatchedPacketLength {
                    buffer_length: packet.len() as usize,
                    expected_from_header: length as usize,
                },
            )
        } else if length < 4 {
            Err(DecodeFailure::InvalidLength(length as usize))
        } else {
            let body_start = cursor + 4;
            let body = if body_start <= length {
                packet.subrange(body_start as int, length as int)
            } else {
                Seq::empty()
            };
            match client_message_decoded(body) {
                Err(f) => Err(f),
                Ok((m, n)) => if body_start + n != length {
                    Err(
                        DecodeFailure::MismatchedParsedLength {
                            parsed_length: (body_start + n) as usize,
                            expected_from_header: length as usize,
                        },
                    )
                } else {
                    Ok((m, length))
                },
            }
        }
    }
}

#[derive(Copy, Clone, Debug, Eq, PartialEq, Hash)]
pub struct ClientConnectionOptions {
    pub read_buffer_size: usize,
}

impl Default for ClientConnectionOptions {
    /// The options a connection gets unless told otherwise.
    fn default() -> (r: Self)
        ensures
            r.read_buffer_size == 4096,
    {
        Self { read_buffer_size: 4096 }
    }
}

#[derive(Copy, Clone, Debug, Eq, PartialEq)]
pub enum PacketParseError {
    // These two variants indicate that more data should be coming in the future, so the parse should be retried later.
    UnknownPacketLength,
    MismatchedPacketLength { buffer_length: usize, expected_from_header: usize },
    // these variants are normal parse errors, including the ones about running out of bytes
    OutOfBytes,
    MismatchedParsedLength { parsed_length: usize, expected_from_header: usize },
    InvalidLength(usize),
    UnknownPacketId(u32),
    Utf8Error(std::str::Utf8Error),
}

impl PacketParseError {
    /// `self` is the runtime error that stands for the failure `f`.
    pub open spec fn reports(self, f: DecodeFailure) -> bool {
        match (self, f) {
            (PacketParseError::UnknownPacketLength, DecodeFailure::UnknownPacketLength) => true,
            (
                PacketParseError::MismatchedPacketLength { buffer_length: a, expected_from_header: b },
                DecodeFailure::MismatchedPacketLength { buffer_length: c, expected_from_header: d },
            ) => a == c && b == d,
            (PacketParseError::OutOfBytes, DecodeFailure::OutOfBytes) => true,
            (
                PacketParseError::MismatchedParsedLength { parsed_length: a, expected_from_header: b },
                DecodeFailure::MismatchedParsedLength { parsed_length: c, expected_from_header: d },
            ) => a == c && b == d,
            (PacketParseError::InvalidLength(a), DecodeFailure::InvalidLength(b)) => a == b,
            (PacketParseError::UnknownPacketId(a), DecodeFailure::UnknownPacketId(b)) => a == b,
            (PacketParseError::Utf8Error(_), DecodeFailure::InvalidUtf8) => true,
            _ => false,
        }
    }
}

impl From<std::str::Utf8Error> for PacketParseError {
    fn from(err: std::str::Utf8Error) -> (r: Self) {
        PacketParseError::Utf8Error(err)
    }
}

impl vstd::std_specs::convert::FromSpecImpl<std::str::Utf8Error> for PacketParseError {
    open spec fn obeys_from_spec() -> bool {
        true
    }

    open spec fn from_spec(err: std::str::Utf8Error) -> Self {
        PacketParseError::Utf8Error(err)
    }
}

/// Writes whole client packets into a buffer.
#[derive(Debug)]
pub struct PacketSerializerContext {
    buffer: Vec<u8>,
}

impl View for PacketSerializerContext {
    type V = Seq<u8>;

    closed spec fn view(&self) -> Seq<u8> {
        self.buffer@
    }
}

impl PacketSerializerContext {
    pub fn new(buffer: Vec<u8>) -> (r: Self)
        ensures
            r@ == buffer@,
    {
        Self { buffer }
    }

    /// Gives the buffer back.
    pub fn into_buffer(self) -> (r: Vec<u8>)
        ensures
            r@ == self@,
    {
        self.buffer
    }

    fn serialize_u32(&mut self, value: u32)
        ensures
            final(self)@ == old(self)@ + value.encoding(),
    {
        write_be(&mut self.buffer, value as u128, 4);
    }

    fn serialize_str(&mut self, value: &str)
        ensures
            final(self)@ == old(self)@ + be_bytes(
                (vstd::utf8::encode_utf8(value@).len() as u32) as nat,
                4,
            ) + vstd::utf8::encode_utf8(value@),
    {
        let bytes = value.as_bytes();
        self.serialize_u32(bytes.len() as u32);
        let ghost mid = self@;
        let mut i: usize = 0;
        while i < bytes.len()
            invariant
                i <= bytes@.len(),
                self@ == mid + bytes@.take(i as int),
            decreases bytes@.len() - i,
        {
            self.buffer.push(bytes[i]);
            i = i + 1;
            proof {
                assert(self@ =~= mid + bytes@.take(i as int));
            }
        }
        proof {
            assert(bytes@.take(i as int) =~= bytes@);
        }
    }

    fn serialize_message(&mut self, value: &str)
        ensures
            final(self)@ == old(self)@ + C2S_ID_MESSAGE.encoding() + be_bytes(
                (vstd::utf8::encode_utf8(value@).len() as u32) as nat,
                4,
            ) + vstd::utf8::encode_utf8(value@),
    {
        self.serialize_u32(C2S_ID_MESSAGE);
        self.serialize_str(value);
        proof {
            assert(self@ =~= old(self)@ + C2S_ID_MESSAGE.encoding() + be_bytes(
                (vstd::utf8::encode_utf8(value@).len() as u32) as nat,
                4,
            ) + vstd::utf8::encode_utf8(value@));
        }
    }

    fn serialize_body(&mut self, packet: &ClientMessage)
        ensures
            final(self)@ == old(self)@ + packet.body(),
    {
        match packet {
            ClientMessage::Connect => self.serialize_u32(C2S_ID_CONNECT),
            ClientMessage::Disconnect => self.serialize_u32(C2S_ID_DISCONNECT),
            ClientMessage::Message(msg) => {
                self.serialize_message(msg.as_str());
                proof {
                    assert(self@ =~= old(self)@ + packet.body());
                }
            },
        }
    }

    /// Appends the whole packet for `packet`: a length field, then the body,
    /// with the length written back once the body is in place.
    pub fn serialize(&mut self, packet: &ClientMessage)
        requires
            old(self)@.len() + packet.body().len() + 4 <= usize::MAX,
        ensures
            final(self)@ == old(self)@ + packet.packet(),
    {
        let packet_start = self.buffer.len();
        // reserve space to put the packet length in later, afterv we know that information.
        self.serialize_u32(0);
        self.serialize_body(packet);
        let packet_end = self.buffer.len();

        let packet_length = (packet_end - packet_start) as u32;
        let mut length_bytes: Vec<u8> = Vec::new();
        write_be(&mut length_bytes, packet_length as u128, 4);
        proof {
            lemma_be_bytes_len(packet_length as nat, 4);
            lemma_be_bytes_len(0, 4);
        }
        let ghost filled = self@;
        let mut i: usize = 0;
        while i < 4
            invariant
                i <= 4,
                length_bytes@ == be_bytes(packet_length as nat, 4),
                length_bytes@.len() == 4,
                packet_start == old(self)@.len(),
                packet_end == filled.len(),
                packet_length == ((packet.body().len() + 4) as u32),
                self@.len() == filled.len(),
                filled.len() == packet_start + 4 + packet.body().len(),
                forall|j: int| 0 <= j < self@.len() && !(packet_start <= j < packet_start + i) ==> #[trigger] self@[j] == filled[j],
                forall|j: int| 0 <= j < i ==> #[trigger] self@[packet_start + j] == length_bytes@[j],
            decreases 4 - i,
        {
            self.buffer.set(packet_start + i, length_bytes[i]);
            i = i + 1;
        }
        proof {
            assert(filled =~= old(self)@ + be_bytes(0, 4) + packet.body());
            assert forall|j: int| 0 <= j < self@.len() implies #[trigger] self@[j] == (old(self)@
                + packet.packet())[j] by {
                if packet_start <= j < packet_start + 4 {
                    assert(self@[packet_start + (j - packet_start)] == length_bytes@[j - packet_start]);
                }
            }
            assert(self@ =~= old(self)@ + packet.packet());
        }
    }
}

/// Reads client packets, front to back.
#[derive(Debug)]
pub struct PacketParserContext<'pkt> {
    packet: &'pkt [u8],
    cursor: usize,
}

impl<'pkt> PacketParserContext<'pkt> {
    /// The packet being read.
    pub closed spec fn bytes(&self) -> Seq<u8> {
        self.packet@
    }

    /// How many bytes have been read.
    pub closed spec fn position(&self) -> nat {
        self.cursor as nat
    }

    /// The bytes not read yet (none once the cursor has passed the end).
    pub open spec fn remaining(&self) -> Seq<u8> {
        if self.position() <= self.bytes().len() {
            self.bytes().subrange(self.position() as int, self.bytes().len() as int)
        } else {
            Seq::empty()
        }
    }

    pub fn new(packet: &'pkt [u8]) -> (r: Self)
        ensures
            r.bytes() == packet@,
            r.position() == 0,
    {
        Self { packet, cursor: 0 }
    }

    fn parse_byte_sequence(&mut self, bytes: usize) -> (r: Result<&'pkt [u8], PacketParseError>)
        ensures
            final(self).bytes() == old(self).bytes(),
            old(self).position() + bytes <= old(self).bytes().len() ==> {
                &&& r matches Ok(data)
                &&& data@ == old(self).remaining().take(bytes as int)
                &&& final(self).position() == old(self).position() + bytes
                &&& final(self).remaining() == old(self).remaining().skip(bytes as int)
            },
            old(self).position() + bytes > old(self).bytes().len() ==> (r matches Err(e) && e
                == PacketParseError::OutOfBytes),
    {
        if bytes > self.packet.len() || self.cursor > self.packet.len() - bytes {
            Err(PacketParseError::OutOfBytes)
        } else {
            let data = slice_subrange(self.packet, self.cursor, self.cursor + bytes);
            self.cursor = self.cursor + bytes;
            proof {
                assert(data@ =~= old(self).remaining().take(bytes as int));
                assert(self.remaining() =~= old(self).remaining().skip(bytes as int));
            }
            Ok(data)
        }
    }

    fn parse_u32(&mut self) -> (r: Result<u32, PacketParseError>)
        ensures
            final(self).bytes() == old(self).bytes(),
            match u32::decoded(old(self).remaining()) {
                Ok((v, n)) => (r matches Ok(x) && x == v && final(self).position() == old(self).position()
                    + n && final(self).remaining() == old(self).remaining().skip(n as int)),
                Err(f) => (r matches Err(e) && e.reports(f)),
            },
    {
        let bytes = self.parse_byte_sequence(4)?;
        proof {
            lemma_be_value_bound(bytes@);
            lemma_pow256_values();
        }
        Ok(read_be(bytes) as u32)
    }

    fn parse_str(&mut self) -> (r: Result<&'pkt str, PacketParseError>)
        ensures
            final(self).bytes() == old(self).bytes(),
            match String::decoded(old(self).remaining()) {
                Ok((v, n)) => (r matches Ok(x) && x@ == v && final(self).position() == old(self).position()
                    + n && final(self).remaining() == old(self).remaining().skip(n as int)),
                Err(f) => (r matches Err(e) && e.reports(f)),
            },
    {
        let ghost start = *self;
        let length = self.parse_u32()?;
        let ghost middle = *self;
        proof {
            assert(start.remaining().len() >= 4);
            assert(start.position() <= start.bytes().len());
            assert(middle.position() == start.position() + 4);
            assert(middle.remaining() == start.remaining().skip(4));
            lemma_be_value_bound(start.remaining().take(4));
            lemma_pow256_values();
        }
        let bytes = self.parse_byte_sequence(length as usize)?;
        proof {
            assert(bytes@ =~= start.remaining().subrange(4, 4 + length as int));
            assert(self.remaining() =~= start.remaining().skip(4 + length as int));
        }
        match str_from_utf8(bytes) {
            Ok(text) => {
                proof {
                    vstd::utf8::encode_utf8_decode_utf8(text@);
                    assert(text@ == vstd::utf8::decode_utf8(bytes@));
                }
                Ok(text)
            },
            Err(err) => Err(PacketParseError::from(err)),
        }
    }

    fn parse_body(&mut self) -> (r: Result<ClientMessage, PacketParseError>)
        ensures
            final(self).bytes() == old(self).bytes(),
            match client_message_decoded(old(self).remaining()) {
                Ok((m, n)) => (r matches Ok(x) && x.model() == m && final(self).position()
                    == old(self).position() + n),
                Err(f) => (r matches Err(e) && e.reports(f)),
            },
    {
        let id = self.parse_u32()?;
        if id == C2S_ID_CONNECT {
            Ok(ClientMessage::Connect)
        } else if id == C2S_ID_DISCONNECT {
            Ok(ClientMessage::Disconnect)
        } else if id == C2S_ID_MESSAGE {
            let text = self.parse_str()?;
            Ok(ClientMessage::Message(text.to_owned()))
        } else {
            Err(PacketParseError::UnknownPacketId(id))
        }
    }

    /// Reads one whole packet: its `u32` length (which counts itself), then a
    /// message that must take up the rest of that length. Gives the message
    /// and the packet's length.
    pub fn parse(&mut self) -> (r: Result<(ClientMessage, usize), PacketParseError>)
        ensures
            match client_packet_outcome(old(self).bytes(), old(self).position()) {
                Ok((m, n)) => (r matches Ok((v, k)) && v.model() == m && k == n),
                Err(f) => (r matches Err(e) && e.reports(f)),
            },
    {
        let ghost start = *self;
        if self.packet.len() < 4 {
            return Err(PacketParseError::UnknownPacketLength);
        } else {
            let length = self.parse_u32()? as usize;
            proof {
                assert(start.remaining().take(4) =~= start.bytes().subrange(
                    start.position() as int,
                    (start.position() + 4) as int,
                ));
                lemma_be_value_bound(start.remaining().take(4));
                lemma_pow256_values();
            }
            if length > self.packet.len() {
                return Err(
                    PacketParseError::MismatchedPacketLength {
                        buffer_length: self.packet.len(),
                        expected_from_header: length,
                    },
                );
            } else if length < 4 {
                return Err(PacketParseError::InvalidLength(length));
            }
            self.packet = slice_subrange(self.packet, 0, length);
        }
        proof {
            if self.position() <= self.bytes().len() {
                assert(self.remaining() =~= start.bytes().subrange(
                    (start.position() + 4) as int,
                    self.bytes().len() as int,
                ));
            }
        }
        let message = self.parse_body()?;

        if self.cursor != self.packet.len() {
            return Err(
                PacketParseError::MismatchedParsedLength {
                    parsed_length: self.cursor,
                    expected_from_header: self.packet.len(),
                },
            );
        }
        Ok((message, self.cursor))
    }
}

/// What one attempt to take a message off a connection's buffer gives.
#[derive(Debug)]
pub enum MessageStep {
    Message(ClientMessage),
    /// The message at the front has not fully arrived.
    NeedMoreData,
    Failed(PacketParseError),
}

/// The bytes read so far from one client's connection, cut into messages.
#[derive(Debug)]
pub struct ClientDeserializerContext {
    read_buffer: Vec<u8>,
    connection_id: u64,
}

impl ClientDeserializerContext {
    /// The bytes received and not yet taken as messages.
    pub closed spec fn buffered(&self) -> Seq<u8> {
        self.read_buffer@
    }

    pub closed spec fn spec_connection_id(&self) -> u64 {
        self.connection_id
    }

    pub fn new(connection_id: u64, options: &ClientConnectionOptions) -> (r: Self)
        ensures
            r.buffered() == Seq::<u8>::empty(),
            r.spec_connection_id() == connection_id,
    {
        Self { read_buffer: Vec::with_capacity(options.read_buffer_size), connection_id }
    }

    pub fn connection_id(&self) -> (r: u64)
        ensures
            r == self.spec_connection_id(),
    {
        self.connection_id
    }

    /// Tries to take a whole message off the front of the buffer. A message
    /// whose length or body has not fully arrived asks for more data; any other
    /// parse error is a failure. Only a delivered message leaves the buffer.
    pub fn read_message(&mut self) -> (r: MessageStep)
        ensures
            final(self).spec_connection_id() == old(self).spec_connection_id(),
            match client_packet_outcome(old(self).buffered(), 0) {
                Ok((m, n)) => (r matches MessageStep::Message(msg) && msg.model() == m
                    && final(self).buffered() == old(self).buffered().skip(n as int)),
                Err(DecodeFailure::UnknownPacketLength) => (r is NeedMoreData
                    && final(self).buffered() == old(self).buffered()),
                Err(DecodeFailure::MismatchedPacketLength { .. }) => (r is NeedMoreData
                    && final(self).buffered() == old(self).buffered()),
                Err(f) => (r matches MessageStep::Failed(e) && e.reports(f)
                    && final(self).buffered() == old(self).buffered()),
            },
    {
        // attempt to parse a message first, so that if several arrived at a
        // time, all of them are taken before waiting for more data
        let outcome = {
            let mut ctx = PacketParserContext::new(self.read_buffer.as_slice());
            ctx.parse()
        };
        proof {
            let bytes = old(self).buffered();
            if bytes.len() >= 4 {
                lemma_be_value_bound(bytes.subrange(0, 4));
                lemma_pow256_values();
            }
        }
        match outcome {
            Ok((message, parsed_length)) => {
                let rest = vstd::slice::slice_to_vec(
                    slice_subrange(self.read_buffer.as_slice(), parsed_length, self.read_buffer.len()),
                );
                self.read_buffer = rest;
                proof {
                    assert(self.buffered() =~= old(self).buffered().skip(parsed_length as int));
                }
                MessageStep::Message(message)
            },
            Err(PacketParseError::UnknownPacketLength) => MessageStep::NeedMoreData,
            Err(PacketParseError::MismatchedPacketLength { buffer_length, expected_from_header }) => {
                if buffer_length < expected_from_header {
                    MessageStep::NeedMoreData
                } else {
                    MessageStep::Failed(
                        PacketParseError::MismatchedPacketLength { buffer_length, expected_from_header },
                    )
                }
            },
            Err(err) => MessageStep::Failed(err),
        }
    }

    /// Takes in the bytes of one read from the connection. A read of nothing
    /// ends the stream: cleanly with an empty buffer, otherwise in the middle
    /// of a message that can never be finished.
    pub fn receive(&mut self, data: &[u8]) -> (r: ReadProgress)
        ensures
            final(self).spec_connection_id() == old(self).spec_connection_id(),
            final(self).buffered() == old(self).buffered() + data@,
            data@.len() == 0 && old(self).buffered().len() == 0 ==> r == ReadProgress::EndOfStream,
            data@.len() == 0 && old(self).buffered().len() > 0 ==> r == ReadProgress::ConnectionReset,
            data@.len() > 0 ==> r == ReadProgress::Continue,
    {
        if data.len() == 0 {
            proof {
                assert(old(self).buffered() + data@ =~= old(self).buffered());
            }
            if self.read_buffer.len() == 0 {
                ReadProgress::EndOfStream
            } else {
                ReadProgress::ConnectionReset
            }
        } else {
            let mut i: usize = 0;
            while i < data.len()
                invariant
                    i <= data@.len(),
                    self.connection_id == old(self).connection_id,
                    self.buffered() == old(self).buffered() + data@.take(i as int),
                decreases data@.len() - i,
            {
                self.read_buffer.push(data[i]);
                i = i + 1;
                proof {
                    assert(self.buffered() =~= old(self).buffered() + data@.take(i as int));
                }
            }
            proof {
                assert(data@.take(i as int) =~= data@);
            }
            ReadProgress::Continue
        }
    }
}

/// A serialized client packet parses back to the same message and takes up
/// exactly its own bytes, whatever arrives after it.
pub proof fn lemma_client_packet_roundtrip(message: &ClientMessage, rest: Seq<u8>)
    requires
        message.encodable(),
    ensures
        client_packet_outcome(message.packet() + rest, 0) == Ok::<(ClientMessageModel, nat), DecodeFailure>(
            (message.model(), message.packet().len()),
        ),
{
    let body = message.body();
    let total = (body.len() + 4) as nat;
    let all = message.packet() + rest;
    lemma_pow256_values();
    match message {
        ClientMessage::Message(text) => {
            text.lemma_roundtrip(Seq::empty());
            assert(text.encoding() + Seq::<u8>::empty() =~= text.encoding());
            C2S_ID_MESSAGE.lemma_roundtrip(text.encoding());
            assert(body.skip(4) =~= text.encoding());
        },
        ClientMessage::Connect => {
            C2S_ID_CONNECT.lemma_roundtrip(Seq::empty());
            assert(C2S_ID_CONNECT.encoding() + Seq::<u8>::empty() =~= body);
        },
        ClientMessage::Disconnect => {
            C2S_ID_DISCONNECT.lemma_roundtrip(Seq::empty());
            assert(C2S_ID_DISCONNECT.encoding() + Seq::<u8>::empty() =~= body);
        },
    }
    assert(body.len() < 0x1_0000_0000);
    assert(((body.len() + 4) as u32) as nat == total);
    lemma_be_bytes_len(total, 4);
    lemma_be_roundtrip(total, 4);
    assert(all.subrange(0, 4) =~= be_bytes(total, 4));
    assert(all.subrange(4, total as int) =~= body);
}

} // verus!
