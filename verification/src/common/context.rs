//! Cursors over packet bytes: one that appends encodings to a buffer, one that
//! reads them back from a received packet.
use vstd::prelude::*;
use vstd::slice::slice_subrange;

use super::packet::PacketCodec;
use super::wire::{be_bytes, be_value, read_be, write_be};

verus! {

/// `std::str::Utf8Error`, carried opaquely inside deserialization errors.
#[verifier::external_type_specification]
#[verifier::external_body]
pub struct ExUtf8Error(std::str::Utf8Error);

/// Why a deserialization or a whole-packet parse failed.
#[derive(Copy, Clone, Debug, Eq, PartialEq)]
pub enum PacketDeserializeError {
    // These two variants indicate that more data should be coming in the future, so the parse should be retried later.
    UnknownPacketLength,
    MismatchedPacketLength { buffer_length: usize, expected_from_header: usize },
    // these variants are normal parse errors, including the ones about running out of bytes
    OutOfBytes,
    MismatchedParsedLength { parsed_length: usize, expected_from_header: usize },
    InvalidLength(usize),
    UnknownPacketId(u32),
    InvalidEnumVariant,
    Utf8Error(std::str::Utf8Error),
}

/// The outcome of a failed decode at the level of the contracts: the same
/// variants as [`PacketDeserializeError`], with the UTF-8 error's details left out.
pub enum DecodeFailure {
    UnknownPacketLength,
    MismatchedPacketLength { buffer_length: usize, expected_from_header: usize },
    OutOfBytes,
    MismatchedParsedLength { parsed_length: usize, expected_from_header: usize },
    InvalidLength(usize),
    UnknownPacketId(u32),
    InvalidEnumVariant,
    InvalidUtf8,
}

impl DecodeFailure {
    /// A failure about the packet's length rather than its contents; only the
    /// whole-packet parse reports these.
    pub open spec fn is_framing(self) -> bool {
        ||| self is UnknownPacketLength
        ||| self is MismatchedPacketLength
        ||| self is MismatchedParsedLength
        ||| self is InvalidLength
    }
}

impl PacketDeserializeError {
    /// `self` is the runtime error that stands for the failure `f`.
    pub open spec fn reports(self, f: DecodeFailure) -> bool {
        match (self, f) {
            (PacketDeserializeError::UnknownPacketLength, DecodeFailure::UnknownPacketLength) => true,
            (
                PacketDeserializeError::MismatchedPacketLength { buffer_length: a, expected_from_header: b },
                DecodeFailure::MismatchedPacketLength { buffer_length: c, expected_from_header: d },
            ) => a == c && b == d,
            (PacketDeserializeError::OutOfBytes, DecodeFailure::OutOfBytes) => true,
            (
                PacketDeserializeError::MismatchedParsedLength { parsed_length: a, expected_from_header: b },
                DecodeFailure::MismatchedParsedLength { parsed_length: c, expected_from_header: d },
            ) => a == c && b == d,
            (PacketDeserializeError::InvalidLength(a), DecodeFailure::InvalidLength(b)) => a == b,
            (PacketDeserializeError::UnknownPacketId(a), DecodeFailure::UnknownPacketId(b)) => a == b,
            (PacketDeserializeError::InvalidEnumVariant, DecodeFailure::InvalidEnumVariant) => true,
            (PacketDeserializeError::Utf8Error(_), DecodeFailure::InvalidUtf8) => true,
            _ => false,
        }
    }
}

impl From<std::str::Utf8Error> for PacketDeserializeError {
    fn from(err: std::str::Utf8Error) -> (r: Self) {
        PacketDeserializeError::Utf8Error(err)
    }
}

impl vstd::std_specs::convert::FromSpecImpl<std::str::Utf8Error> for PacketDeserializeError {
    open spec fn obeys_from_spec() -> bool {
        true
    }

    open spec fn from_spec(err: std::str::Utf8Error) -> Self {
        PacketDeserializeError::Utf8Error(err)
    }
}

pub type PacketDeserializeResult<T> = Result<T, PacketDeserializeError>;

/// Wraps `std::str::from_utf8`: it succeeds exactly on valid UTF-8, and the
/// string it returns is made of those very bytes.
#[verifier::external_body]
pub(crate) fn str_from_utf8(bytes: &[u8]) -> (r: Result<&str, std::str::Utf8Error>)
    ensures
        r is Ok <==> vstd::utf8::valid_utf8(bytes@),
        r matches Ok(s) ==> vstd::utf8::encode_utf8(s@) == bytes@,
{
    std::str::from_utf8(bytes)
}

/// Reads values from a received packet, front to back.
#[derive(Debug)]
pub struct PacketDeserializerContext<'buf> {
    packet: &'buf [u8],
    cursor: usize,
}

impl<'buf> PacketDeserializerContext<'buf> {
    /// The packet being read.
    pub closed spec fn bytes(&self) -> Seq<u8> {
        self.packet@
    }

    /// How many bytes have been read.
    pub closed spec fn position(&self) -> nat {
        self.cursor as nat
    }

    /// The bytes not read yet (none once the cursor has passed the end).
    pub open spec fn remaining(&self) -> Seq<u8> {
        if self.position() <= self.bytes().len() {
            self.bytes().subrange(self.position() as int, self.bytes().len() as int)
        } else {
            Seq::empty()
        }
    }

    pub fn new(packet: &'buf [u8]) -> (r: Self)
        ensures
            r.bytes() == packet@,
            r.position() == 0,
    {
        Self { packet, cursor: 0 }
    }

    /// How many bytes have been read.
    pub fn cursor(&self) -> (r: usize)
        ensures
            r == self.position(),
    {
        self.cursor
    }

    /// Takes the next `bytes` bytes, or fails with `OutOfBytes` when fewer are left.
    pub fn parse_byte_sequence(&mut self, bytes: usize) -> (r: Result<&'buf [u8], PacketDeserializeError>)
        ensures
            final(self).bytes() == old(self).bytes(),
            old(self).position() + bytes <= old(self).bytes().len() ==> {
                &&& r matches Ok(data)
                &&& data@ == old(self).bytes().subrange(
                    old(self).position() as int,
                    old(self).position() + bytes,
                )
                &&& final(self).position() == old(self).position() + bytes
            },
            old(self).position() + bytes > old(self).bytes().len() ==> {
                &&& r matches Err(e)
                &&& e == PacketDeserializeError::OutOfBytes
                &&& final(self).position() == old(self).position()
            },
    {
        if bytes > self.packet.len() || self.cursor > self.packet.len() - bytes {
            Err(PacketDeserializeError::OutOfBytes)
        } else {
            let data = slice_subrange(self.packet, self.cursor, self.cursor + bytes);
            self.cursor = self.cursor + bytes;
            Ok(data)
        }
    }

    /// Reads the next `n` bytes as a big-endian number.
    pub(crate) fn parse_uint(&mut self, n: usize) -> (r: PacketDeserializeResult<u128>)
        requires
            n <= 16,
        ensures
            final(self).bytes() == old(self).bytes(),
            old(self).position() + n <= old(self).bytes().len() ==> {
                &&& r matches Ok(v)
                &&& v == be_value(old(self).remaining().take(n as int))
                &&& final(self).position() == old(self).position() + n
            },
            old(self).position() + n > old(self).bytes().len() ==> (r matches Err(e) && e
                == PacketDeserializeError::OutOfBytes),
    {
        let data = self.parse_byte_sequence(n)?;
        proof {
            assert(data@ =~= old(self).remaining().take(n as int));
        }
        Ok(read_be(data))
    }

    /// Moving the cursor forward over bytes that are there drops them from the
    /// front of what remains.
    pub proof fn lemma_advance(old_ctx: &Self, new_ctx: &Self, k: nat)
        requires
            new_ctx.bytes() == old_ctx.bytes(),
            new_ctx.position() == old_ctx.position() + k,
            old_ctx.position() + k <= old_ctx.bytes().len(),
        ensures
            new_ctx.remaining() == old_ctx.remaining().skip(k as int),
            new_ctx.remaining().len() == old_ctx.remaining().len() - k,
    {
        assert(new_ctx.remaining() =~= old_ctx.remaining().skip(k as int));
    }

    /// Reads a value of type `T`.
    pub fn deserialize<T: PacketCodec>(&mut self) -> (r: PacketDeserializeResult<T>)
        ensures
            final(self).bytes() == old(self).bytes(),
            match T::decoded(old(self).remaining()) {
                Ok((m, n)) => (r matches Ok(v) && v.model() == m && final(self).position()
                    == old(self).position() + n),
                Err(f) => (r matches Err(e) && e.reports(f)),
            },
    {
        T::deserialize(self)
    }

    /// Reads one whole packet: its `u32` length (which counts itself), then a
    /// `T` that must take up the rest of that length. Gives the value and the
    /// packet's length.
    pub fn parse<T: PacketCodec>(&mut self) -> (r: PacketDeserializeResult<(T, usize)>)
        ensures
            match parse_outcome::<T>(old(self).bytes(), old(self).position()) {
                Ok((m, n)) => (r matches Ok((v, k)) && v.model() == m && k == n),
                Err(f) => (r matches Err(e) && e.reports(f)),
            },
    {
        let ghost start = *self;
        if self.packet.len() < 4 {
            return Err(PacketDeserializeError::UnknownPacketLength);
        } else {
            let length = self.deserialize::<u32>()? as usize;
            proof {
                assert(start.remaining().take(4) =~= start.bytes().subrange(
                    start.position() as int,
                    (start.position() + 4) as int,
                ));
                super::wire::lemma_be_value_bound(start.remaining().take(4));
                super::wire::lemma_pow256_values();
            }
            if length > self.packet.len() {
                return Err(
                    PacketDeserializeError::MismatchedPacketLength {
                        buffer_length: self.packet.len(),
                        expected_from_header: length,
                    },
                );
            } else if length < 4 {
                return Err(PacketDeserializeError::InvalidLength(length));
            }
            self.truncate(length);
        }
        proof {
            if self.position() <= self.bytes().len() {
                assert(self.remaining() =~= start.bytes().subrange(
                    (start.position() + 4) as int,
                    self.bytes().len() as int,
                ));
            }
        }
        let packet = self.deserialize::<T>()?;

        if self.cursor != self.packet.len() {
            return Err(
                PacketDeserializeError::MismatchedParsedLength {
                    parsed_length: self.cursor,
                    expected_from_header: self.packet.len(),
                },
            );
        }
        Ok((packet, self.cursor))
    }

    /// Restricts the packet to its first `length` bytes.
    pub(crate) fn truncate(&mut self, length: usize)
        requires
            length <= old(self).bytes().len(),
        ensures
            final(self).bytes() == old(self).bytes().take(length as int),
            final(self).position() == old(self).position(),
    {
        self.packet = slice_subrange(self.packet, 0, length);
    }

    /// The length of the packet being read.
    pub(crate) fn packet_len(&self) -> (r: usize)
        ensures
            r == self.bytes().len(),
    {
        self.packet.len()
    }
}

/// What [`PacketDeserializerContext::parse`] does with `packet` read from
/// `cursor`: the length header, then a `T` that must end exactly where the
/// header says the packet ends.
pub open spec fn parse_outcome<T: PacketCodec>(packet: Seq<u8>, cursor: nat) -> Result<
    (T::Model, nat),
    DecodeFailure,
> {
    if packet.len() < 4 {
        Err(DecodeFailure::UnknownPacketLength)
    } else if cursor + 4 > packet.len() {
        Err(DecodeFailure::OutOfBytes)
    } else {
        let length = be_value(packet.subrange(cursor as int, (cursor + 4) as int));
        if length > packet.len() {
            Err(
                DecodeFailure::MismatchedPacketLength {
                    buffer_length: packet.len() as usize,
                    expected_from_header: length as usize,
                },
            )
        } else if length < 4 {
            Err(DecodeFailure::InvalidLength(length as usize))
        } else {
            let body_start = cursor + 4;
            let body = if body_start <= length {
                packet.subrange(body_start as int, length as int)
            } else {
                Seq::empty()
            };
            match T::decoded(body) {
                Err(f) => Err(f),
                Ok((m, n)) => if body_start + n != length {
                    Err(
                        DecodeFailure::MismatchedParsedLength {
                            parsed_length: (body_start + n) as usize,
                            expected_from_header: length as usize,
                        },
                    )
                } else {
                    Ok((m, length))
                },
            }
        }
    }
}

/// Serialization cannot fail: the error type has no values.
pub type PacketSerializeError = core::convert::Infallible;

pub type PacketSerializeResult<T> = Result<T, PacketSerializeError>;

/// Appends encodings to a buffer.
///
/// important: packet length is NOT included in the buffer! it must be sent down
/// the connection before the buffer is written.
pub struct PacketSerializerContext {
    buffer: Vec<u8>,
}

impl View for PacketSerializerContext {
    type V = Seq<u8>;

    closed spec fn view(&self) -> Seq<u8> {
        self.buffer@
    }
}

impl PacketSerializerContext {
    pub fn new(buffer: Vec<u8>) -> (r: Self)
        ensures
            r@ == buffer@,
    {
        Self { buffer }
    }

    /// Gives the buffer back.
    pub fn into_buffer(self) -> (r: Vec<u8>)
        ensures
            r@ == self@,
    {
        self.buffer
    }

    pub fn write_byte_sequence(&mut self, bytes: &[u8]) -> (r: PacketSerializeResult<()>)
        ensures
            r is Ok,
            final(self)@ == old(self)@ + bytes@,
    {
        let mut i: usize = 0;
        while i < bytes.len()
            invariant
                i <= bytes@.len(),
                self@ == old(self)@ + bytes@.take(i as int),
            decreases bytes@.len() - i,
        {
            self.buffer.push(bytes[i]);
            i = i + 1;
            proof {
                assert(self@ =~= old(self)@ + bytes@.take(i as int));
            }
        }
        proof {
            assert(bytes@.take(i as int) =~= bytes@);
        }
        Ok(())
    }

    /// Appends the `n` low-order bytes of `x`, most significant first.
    pub(crate) fn write_uint(&mut self, x: u128, n: usize)
        requires
            n <= 16,
        ensures
            final(self)@ == old(self)@ + be_bytes(x as nat, n as nat),
    {
        write_be(&mut self.buffer, x, n);
    }

    /// Appends the encoding of `value`.
    pub fn serialize<T: PacketCodec>(&mut self, value: &T) -> (r: PacketSerializeResult<()>)
        ensures
            r is Ok,
            final(self)@ == old(self)@ + value.encoding(),
    {
        value.serialize(self)
    }
}

} // verus!
