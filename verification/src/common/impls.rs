//! The codec of the primitive values and of the containers that packets are built from.
use vstd::prelude::*;

use super::context::{
    DecodeFailure, PacketDeserializeError, PacketDeserializeResult, PacketDeserializerContext,
    PacketSerializeResult, PacketSerializerContext,
};
use super::packet::PacketCodec;
use super::context::str_from_utf8;
use super::wire::{
    be_bytes, be_value, lemma_be_bytes_len, lemma_be_roundtrip, lemma_be_single_byte,
    lemma_be_value_bound, lemma_be_value_single, lemma_pow256_values,
};
use std::collections::HashMap;
use vstd::std_specs::iter::IteratorSpec;
use vstd::utf8::{decode_utf8, encode_utf8, valid_utf8};

verus! {

impl PacketCodec for u8 {
    type Model = u8;

    open spec fn model(&self) -> u8 {
        *self
    }

    open spec fn encoding(&self) -> Seq<u8> {
        be_bytes(*self as nat, 1)
    }

    open spec fn encodable(&self) -> bool {
        true
    }

    open spec fn decoded(bytes: Seq<u8>) -> Result<(u8, nat), DecodeFailure> {
        if bytes.len() < 1 {
            Err(DecodeFailure::OutOfBytes)
        } else {
            Ok((be_value(bytes.take(1)) as u8, 1))
        }
    }

    proof fn lemma_decoded_length(bytes: Seq<u8>) {
    }

    proof fn lemma_roundtrip(&self, rest: Seq<u8>) {
        lemma_pow256_values();
        lemma_be_bytes_len(*self as nat, 1);
        lemma_be_roundtrip(*self as nat, 1);
        assert((self.encoding() + rest).take(1) =~= self.encoding());
    }

    fn serialize(&self, ctx: &mut PacketSerializerContext) -> (r: PacketSerializeResult<()>) {
        ctx.write_uint(*self as u128, 1);
        Ok(())
    }

    fn deserialize<'buf>(ctx: &mut PacketDeserializerContext<'buf>) -> (r: PacketDeserializeResult<
        Self,
    >) {
        let v = ctx.parse_uint(1)?;
        proof {
            lemma_be_value_bound(old(ctx).remaining().take(1));
            lemma_pow256_values();
        }
        Ok(v as u8)
    }
}

impl PacketCodec for u16 {
    type Model = u16;

    open spec fn model(&self) -> u16 {
        *self
    }

    open spec fn encoding(&self) -> Seq<u8> {
        be_bytes(*self as nat, 2)
    }

    open spec fn encodable(&self) -> bool {
        true
    }

    open spec fn decoded(bytes: Seq<u8>) -> Result<(u16, nat), DecodeFailure> {
        if bytes.len() < 2 {
            Err(DecodeFailure::OutOfBytes)
        } else {
            Ok((be_value(bytes.take(2)) as u16, 2))
        }
    }

    proof fn lemma_decoded_length(bytes: Seq<u8>) {
    }

    proof fn lemma_roundtrip(&self, rest: Seq<u8>) {
        lemma_pow256_values();
        lemma_be_bytes_len(*self as nat, 2);
        lemma_be_roundtrip(*self as nat, 2);
        assert((self.encoding() + rest).take(2) =~= self.encoding());
    }

    fn serialize(&self, ctx: &mut PacketSerializerContext) -> (r: PacketSerializeResult<()>) {
        ctx.write_uint(*self as u128, 2);
        Ok(())
    }

    fn deserialize<'buf>(ctx: &mut PacketDeserializerContext<'buf>) -> (r: PacketDeserializeResult<
        Self,
    >) {
        let v = ctx.parse_uint(2)?;
        proof {
            lemma_be_value_bound(old(ctx).remaining().take(2));
            lemma_pow256_values();
        }
        Ok(v as u16)
    }
}

impl PacketCodec for u32 {
    type Model = u32;

    open spec fn model(&self) -> u32 {
        *self
    }

    open spec fn encoding(&self) -> Seq<u8> {
        be_bytes(*self as nat, 4)
    }

    open spec fn encodable(&self) -> bool {
        true
    }

    open spec fn decoded(bytes: Seq<u8>) -> Result<(u32, nat), DecodeFailure> {
        if bytes.len() < 4 {
            Err(DecodeFailure::OutOfBytes)
        } else {
            Ok((be_value(bytes.take(4)) as u32, 4))
        }
    }

    proof fn lemma_decoded_length(bytes: Seq<u8>) {
    }

    proof fn lemma_roundtrip(&self, rest: Seq<u8>) {
        lemma_pow256_values();
        lemma_be_bytes_len(*self as nat, 4);
        lemma_be_roundtrip(*self as nat, 4);
        assert((self.encoding() + rest).take(4) =~= self.encoding());
    }

    fn serialize(&self, ctx: &mut PacketSerializerContext) -> (r: PacketSerializeResult<()>) {
        ctx.write_uint(*self as u128, 4);
        Ok(())
    }

    fn deserialize<'buf>(ctx: &mut PacketDeserializerContext<'buf>) -> (r: PacketDeserializeResult<
        Self,
    >) {
        let v = ctx.parse_uint(4)?;
        proof {
            lemma_be_value_bound(old(ctx).remaining().take(4));
            lemma_pow256_values();
        }
        Ok(v as u32)
    }
}

impl PacketCodec for u64 {
    type Model = u64;

    open spec fn model(&self) -> u64 {
        *self
    }

    open spec fn encoding(&self) -> Seq<u8> {
        be_bytes(*self as nat, 8)
    }

    open spec fn encodable(&self) -> bool {
        true
    }

    open spec fn decoded(bytes: Seq<u8>) -> Result<(u64, nat), DecodeFailure> {
        if bytes.len() < 8 {
            Err(DecodeFailure::OutOfBytes)
        } else {
            Ok((be_value(bytes.take(8)) as u64, 8))
        }
    }

    proof fn lemma_decoded_length(bytes: Seq<u8>) {
    }

    proof fn lemma_roundtrip(&self, rest: Seq<u8>) {
        lemma_pow256_values();
        lemma_be_bytes_len(*self as nat, 8);
        lemma_be_roundtrip(*self as nat, 8);
        assert((self.encoding() + rest).take(8) =~= self.encoding());
    }

    fn serialize(&self, ctx: &mut PacketSerializerContext) -> (r: PacketSerializeResult<()>) {
        ctx.write_uint(*self as u128, 8);
        Ok(())
    }

    fn deserialize<'buf>(ctx: &mut PacketDeserializerContext<'buf>) -> (r: PacketDeserializeResult<
        Self,
    >) {
        let v = ctx.parse_uint(8)?;
        proof {
            lemma_be_value_bound(old(ctx).remaining().take(8));
            lemma_pow256_values();
        }
        Ok(v as u64)
    }
}

impl PacketCodec for u128 {
    type Model = u128;

    open spec fn model(&self) -> u128 {
        *self
    }

    open spec fn encoding(&self) -> Seq<u8> {
        be_bytes(*self as nat, 16)
    }

    open spec fn encodable(&self) -> bool {
        true
    }

    open spec fn decoded(bytes: Seq<u8>) -> Result<(u128, nat), DecodeFailure> {
        if bytes.len() < 16 {
            Err(DecodeFailure::OutOfBytes)
        } else {
            Ok((be_value(bytes.take(16)) as u128, 16))
        }
    }

    proof fn lemma_decoded_length(bytes: Seq<u8>) {
    }

    proof fn lemma_roundtrip(&self, rest: Seq<u8>) {
        lemma_pow256_values();
        lemma_be_bytes_len(*self as nat, 16);
        lemma_be_roundtrip(*self as nat, 16);
        assert((self.encoding() + rest).take(16) =~= self.encoding());
    }

    fn serialize(&self, ctx: &mut PacketSerializerContext) -> (r: PacketSerializeResult<()>) {
        ctx.write_uint(*self as u128, 16);
        Ok(())
    }

    fn deserialize<'buf>(ctx: &mut PacketDeserializerContext<'buf>) -> (r: PacketDeserializeResult<
        Self,
    >) {
        let v = ctx.parse_uint(16)?;
        proof {
            lemma_be_value_bound(old(ctx).remaining().take(16));
            lemma_pow256_values();
        }
        Ok(v as u128)
    }
}

impl PacketCodec for i8 {
    type Model = i8;

    open spec fn model(&self) -> i8 {
        *self
    }

    open spec fn encoding(&self) -> Seq<u8> {
        be_bytes((*self as u8) as nat, 1)
    }

    open spec fn encodable(&self) -> bool {
        true
    }

    open spec fn decoded(bytes: Seq<u8>) -> Result<(i8, nat), DecodeFailure> {
        if bytes.len() < 1 {
            Err(DecodeFailure::OutOfBytes)
        } else {
            Ok(((be_value(bytes.take(1)) as u8) as i8, 1))
        }
    }

    proof fn lemma_decoded_length(bytes: Seq<u8>) {
    }

    proof fn lemma_roundtrip(&self, rest: Seq<u8>) {
        lemma_pow256_values();
        lemma_be_bytes_len((*self as u8) as nat, 1);
        lemma_be_roundtrip((*self as u8) as nat, 1);
        let x = *self;
        assert(((x as u8) as i8) == x) by (bit_vector);
        assert((self.encoding() + rest).take(1) =~= self.encoding());
    }

    fn serialize(&self, ctx: &mut PacketSerializerContext) -> (r: PacketSerializeResult<()>) {
        ctx.write_uint((*self as u8) as u128, 1);
        Ok(())
    }

    fn deserialize<'buf>(ctx: &mut PacketDeserializerContext<'buf>) -> (r: PacketDeserializeResult<
        Self,
    >) {
        let v = ctx.parse_uint(1)?;
        proof {
            lemma_be_value_bound(old(ctx).remaining().take(1));
            lemma_pow256_values();
        }
        Ok((v as u8) as i8)
    }
}

impl PacketCodec for i16 {
    type Model = i16;

    open spec fn model(&self) -> i16 {
        *self
    }

    open spec fn encoding(&self) -> Seq<u8> {
        be_bytes((*self as u16) as nat, 2)
    }

    open spec fn encodable(&self) -> bool {
        true
    }

    open spec fn decoded(bytes: Seq<u8>) -> Result<(i16, nat), DecodeFailure> {
        if bytes.len() < 2 {
            Err(DecodeFailure::OutOfBytes)
        } else {
            Ok(((be_value(bytes.take(2)) as u16) as i16, 2))
        }
    }

    proof fn lemma_decoded_length(bytes: Seq<u8>) {
    }

    proof fn lemma_roundtrip(&self, rest: Seq<u8>) {
        lemma_pow256_values();
        lemma_be_bytes_len((*self as u16) as nat, 2);
        lemma_be_roundtrip((*self as u16) as nat, 2);
        let x = *self;
        assert(((x as u16) as i16) == x) by (bit_vector);
        assert((self.encoding() + rest).take(2) =~= self.encoding());
    }

    fn serialize(&self, ctx: &mut PacketSerializerContext) -> (r: PacketSerializeResult<()>) {
        ctx.write_uint((*self as u16) as u128, 2);
        Ok(())
    }

    fn deserialize<'buf>(ctx: &mut PacketDeserializerContext<'buf>) -> (r: PacketDeserializeResult<
        Self,
    >) {
        let v = ctx.parse_uint(2)?;
        proof {
            lemma_be_value_bound(old(ctx).remaining().take(2));
            lemma_pow256_values();
        }
        Ok((v as u16) as i16)
    }
}

impl PacketCodec for i32 {
    type Model = i32;

    open spec fn model(&self) -> i32 {
        *self
    }

    open spec fn encoding(&self) -> Seq<u8> {
        be_bytes((*self as u32) as nat, 4)
    }

    open spec fn encodable(&self) -> bool {
        true
    }

    open spec fn decoded(bytes: Seq<u8>) -> Result<(i32, nat), DecodeFailure> {
        if bytes.len() < 4 {
            Err(DecodeFailure::OutOfBytes)
        } else {
            Ok(((be_value(bytes.take(4)) as u32) as i32, 4))
        }
    }

    proof fn lemma_decoded_length(bytes: Seq<u8>) {
    }

    proof fn lemma_roundtrip(&self, rest: Seq<u8>) {
        lemma_pow256_values();
        lemma_be_bytes_len((*self as u32) as nat, 4);
        lemma_be_roundtrip((*self as u32) as nat, 4);
        let x = *self;
        assert(((x as u32) as i32) == x) by (bit_vector);
        assert((self.encoding() + rest).take(4) =~= self.encoding());
    }

    fn serialize(&self, ctx: &mut PacketSerializerContext) -> (r: PacketSerializeResult<()>) {
        ctx.write_uint((*self as u32) as u128, 4);
        Ok(())
    }

    fn deserialize<'buf>(ctx: &mut PacketDeserializerContext<'buf>) -> (r: PacketDeserializeResult<
        Self,
    >) {
        let v = ctx.parse_uint(4)?;
        proof {
            lemma_be_value_bound(old(ctx).remaining().take(4));
            lemma_pow256_values();
        }
        Ok((v as u32) as i32)
    }
}

impl PacketCodec for i64 {
    type Model = i64;

    open spec fn model(&self) -> i64 {
        *self
    }

    open spec fn encoding(&self) -> Seq<u8> {
        be_bytes((*self as u64) as nat, 8)
    }

    open spec fn encodable(&self) -> bool {
        true
    }

    open spec fn decoded(bytes: Seq<u8>) -> Result<(i64, nat), DecodeFailure> {
        if bytes.len() < 8 {
            Err(DecodeFailure::OutOfBytes)
        } else {
            Ok(((be_value(bytes.take(8)) as u64) as i64, 8))
        }
    }

    proof fn lemma_decoded_length(bytes: Seq<u8>) {
    }

    proof fn lemma_roundtrip(&self, rest: Seq<u8>) {
        lemma_pow256_values();
        lemma_be_bytes_len((*self as u64) as nat, 8);
        lemma_be_roundtrip((*self as u64) as nat, 8);
        let x = *self;
        assert(((x as u64) as i64) == x) by (bit_vector);
        assert((self.encoding() + rest).take(8) =~= self.encoding());
    }

    fn serialize(&self, ctx: &mut PacketSerializerContext) -> (r: PacketSerializeResult<()>) {
        ctx.write_uint((*self as u64) as u128, 8);
        Ok(())
    }

    fn deserialize<'buf>(ctx: &mut PacketDeserializerContext<'buf>) -> (r: PacketDeserializeResult<
        Self,
    >) {
        let v = ctx.parse_uint(8)?;
        proof {
            lemma_be_value_bound(old(ctx).remaining().take(8));
            lemma_pow256_values();
        }
        Ok((v as u64) as i64)
    }
}

impl PacketCodec for i128 {
    type Model = i128;

    open spec fn model(&self) -> i128 {
        *self
    }

    open spec fn encoding(&self) -> Seq<u8> {
        be_bytes((*self as u128) as nat, 16)
    }

    open spec fn encodable(&self) -> bool {
        true
    }

    open spec fn decoded(bytes: Seq<u8>) -> Result<(i128, nat), DecodeFailure> {
        if bytes.len() < 16 {
            Err(DecodeFailure::OutOfBytes)
        } else {
            Ok(((be_value(bytes.take(16)) as u128) as i128, 16))
        }
    }

    proof fn lemma_decoded_length(bytes: Seq<u8>) {
    }

    proof fn lemma_roundtrip(&self, rest: Seq<u8>) {
        lemma_pow256_values();
        lemma_be_bytes_len((*self as u128) as nat, 16);
        lemma_be_roundtrip((*self as u128) as nat, 16);
        let x = *self;
        assert(((x as u128) as i128) == x) by (bit_vector);
        assert((self.encoding() + rest).take(16) =~= self.encoding());
    }

    fn serialize(&self, ctx: &mut PacketSerializerContext) -> (r: PacketSerializeResult<()>) {
        ctx.write_uint((*self as u128) as u128, 16);
        Ok(())
    }

    fn deserialize<'buf>(ctx: &mut PacketDeserializerContext<'buf>) -> (r: PacketDeserializeResult<
        Self,
    >) {
        let v = ctx.parse_uint(16)?;
        proof {
            lemma_be_value_bound(old(ctx).remaining().take(16));
            lemma_pow256_values();
        }
        Ok((v as u128) as i128)
    }
}

/// The text of a string is its length in bytes as a `u32`, then its UTF-8 bytes.
impl PacketCodec for String {
    type Model = Seq<char>;

    open spec fn model(&self) -> Seq<char> {
        self@
    }

    open spec fn encoding(&self) -> Seq<u8> {
        be_bytes((encode_utf8(self@).len() as u32) as nat, 4) + encode_utf8(self@)
    }

    open spec fn encodable(&self) -> bool {
        encode_utf8(self@).len() <= u32::MAX
    }

    open spec fn decoded(bytes: Seq<u8>) -> Result<(Seq<char>, nat), DecodeFailure> {
        if bytes.len() < 4 {
            Err(DecodeFailure::OutOfBytes)
        } else {
            let n = be_value(bytes.take(4));
            if bytes.len() < 4 + n {
                Err(DecodeFailure::OutOfBytes)
            } else if !valid_utf8(bytes.subrange(4, 4 + n as int)) {
                Err(DecodeFailure::InvalidUtf8)
            } else {
                Ok((decode_utf8(bytes.subrange(4, 4 + n as int)), 4 + n))
            }
        }
    }

    proof fn lemma_decoded_length(bytes: Seq<u8>) {
    }

    proof fn lemma_roundtrip(&self, rest: Seq<u8>) {
        let text = encode_utf8(self@);
        let n = text.len();
        let all = self.encoding() + rest;
        lemma_pow256_values();
        lemma_be_bytes_len(n, 4);
        lemma_be_roundtrip(n, 4);
        assert(all.take(4) =~= be_bytes(n, 4));
        assert(all.subrange(4, 4 + n as int) =~= text);
        vstd::utf8::encode_utf8_valid_utf8(self@);
        vstd::utf8::encode_utf8_decode_utf8(self@);
    }

    fn serialize(&self, ctx: &mut PacketSerializerContext) -> (r: PacketSerializeResult<()>) {
        let bytes = self.as_str().as_bytes();
        ctx.serialize(&(bytes.len() as u32))?;
        ctx.write_byte_sequence(bytes)?;
        Ok(())
    }

    fn deserialize<'buf>(ctx: &mut PacketDeserializerContext<'buf>) -> (r: PacketDeserializeResult<
        Self,
    >) {
        let ghost start = *ctx;
        let length = ctx.deserialize::<u32>()?;
        let ghost middle = *ctx;
        proof {
            PacketDeserializerContext::lemma_advance(&start, &middle, 4);
            lemma_be_value_bound(start.remaining().take(4));
            lemma_pow256_values();
        }
        let bytes = ctx.parse_byte_sequence(length as usize)?;
        proof {
            assert(bytes@ =~= start.remaining().subrange(4, 4 + length as int));
        }
        match str_from_utf8(bytes) {
            Ok(text) => {
                proof {
                    vstd::utf8::encode_utf8_decode_utf8(text@);
                }
                Ok(text.to_owned())
            },
            Err(err) => Err(PacketDeserializeError::from(err)),
        }
    }
}

/// An absent value is the byte 0; a present one is the byte 1, then the value.
impl<T: PacketCodec> PacketCodec for Option<T> {
    type Model = Option<T::Model>;

    open spec fn model(&self) -> Option<T::Model> {
        match self {
            None => None,
            Some(inner) => Some(inner.model()),
        }
    }

    open spec fn encoding(&self) -> Seq<u8> {
        match self {
            None => seq![0u8],
            Some(inner) => seq![1u8] + inner.encoding(),
        }
    }

    open spec fn encodable(&self) -> bool {
        match self {
            None => true,
            Some(inner) => inner.encodable(),
        }
    }

    open spec fn decoded(bytes: Seq<u8>) -> Result<(Option<T::Model>, nat), DecodeFailure> {
        if bytes.len() < 1 {
            Err(DecodeFailure::OutOfBytes)
        } else if bytes[0] == 0 {
            Ok((None, 1))
        } else if bytes[0] == 1 {
            match T::decoded(bytes.skip(1)) {
                Ok((m, n)) => Ok((Some(m), n + 1)),
                Err(f) => Err(f),
            }
        } else {
            Err(DecodeFailure::InvalidEnumVariant)
        }
    }

    proof fn lemma_decoded_length(bytes: Seq<u8>) {
        if bytes.len() >= 1 {
            T::lemma_decoded_length(bytes.skip(1));
        }
    }

    proof fn lemma_roundtrip(&self, rest: Seq<u8>) {
        match self {
            None => {},
            Some(inner) => {
                inner.lemma_roundtrip(rest);
                assert((self.encoding() + rest).skip(1) =~= inner.encoding() + rest);
            },
        }
    }

    fn serialize(&self, ctx: &mut PacketSerializerContext) -> (r: PacketSerializeResult<()>) {
        proof {
            lemma_be_single_byte(0);
            lemma_be_single_byte(1);
        }
        match self {
            None => ctx.serialize::<u8>(&0)?,
            Some(inner) => {
                ctx.serialize::<u8>(&1)?;
                ctx.serialize::<T>(inner)?;
                proof {
                    assert(ctx@ =~= old(ctx)@ + self.encoding());
                }
            },
        }
        Ok(())
    }

    fn deserialize<'buf>(ctx: &mut PacketDeserializerContext<'buf>) -> (r: PacketDeserializeResult<
        Self,
    >) {
        let ghost start = *ctx;
        let tag = ctx.deserialize::<u8>()?;
        proof {
            lemma_be_value_single(start.remaining().take(1));
        }
        if tag == 0 {
            Ok(None)
        } else if tag == 1 {
            proof {
                PacketDeserializerContext::lemma_advance(&start, ctx, 1);
            }
            let inner = ctx.deserialize::<T>()?;
            Ok(Some(inner))
        } else {
            Err(PacketDeserializeError::InvalidEnumVariant)
        }
    }
}

/// The concatenated encodings of `items`, in order.
pub open spec fn items_encoding<T: PacketCodec>(items: Seq<T>) -> Seq<u8>
    decreases items.len(),
{
    if items.len() == 0 {
        Seq::empty()
    } else {
        items_encoding(items.drop_last()) + items.last().encoding()
    }
}

/// Reads `count` values of type `T` one after the other from the front of `bytes`.
pub open spec fn decoded_items<T: PacketCodec>(bytes: Seq<u8>, count: nat) -> Result<
    (Seq<T::Model>, nat),
    DecodeFailure,
>
    decreases count,
{
    if count == 0 {
        Ok((Seq::empty(), 0))
    } else {
        match decoded_items::<T>(bytes, (count - 1) as nat) {
            Ok((models, n)) => match T::decoded(bytes.skip(n as int)) {
                Ok((m, k)) => Ok((models.push(m), n + k)),
                Err(f) => Err(f),
            },
            Err(f) => Err(f),
        }
    }
}

/// The models of `items`, in order.
pub open spec fn item_models<T: PacketCodec>(items: Seq<T>) -> Seq<T::Model> {
    items.map_values(|item: T| item.model())
}

pub proof fn lemma_decoded_items_length<T: PacketCodec>(bytes: Seq<u8>, count: nat)
    ensures
        decoded_items::<T>(bytes, count) matches Ok((models, n)) ==> n <= bytes.len()
            && models.len() == count,
        decoded_items::<T>(bytes, count) matches Err(f) ==> !f.is_framing(),
    decreases count,
{
    if count > 0 {
        lemma_decoded_items_length::<T>(bytes, (count - 1) as nat);
        if let Ok((models, n)) = decoded_items::<T>(bytes, (count - 1) as nat) {
            T::lemma_decoded_length(bytes.skip(n as int));
        }
    }
}

/// Once reading the items has failed, reading more of them fails the same way.
pub proof fn lemma_decoded_items_failure<T: PacketCodec>(bytes: Seq<u8>, i: nat, count: nat)
    requires
        i <= count,
        decoded_items::<T>(bytes, i) is Err,
    ensures
        decoded_items::<T>(bytes, count) == decoded_items::<T>(bytes, i),
    decreases count,
{
    if i < count {
        lemma_decoded_items_failure::<T>(bytes, i, (count - 1) as nat);
    }
}

/// Reading the concatenated encodings of encodable items gives back their models.
pub proof fn lemma_items_roundtrip<T: PacketCodec>(items: Seq<T>, rest: Seq<u8>)
    requires
        forall|i: int| 0 <= i < items.len() ==> (#[trigger] items[i]).encodable(),
    ensures
        decoded_items::<T>(items_encoding(items) + rest, items.len()) == Ok::<
            (Seq<T::Model>, nat),
            DecodeFailure,
        >((item_models(items), items_encoding(items).len())),
    decreases items.len(),
{
    if items.len() == 0 {
        assert(item_models(items) =~= Seq::<T::Model>::empty());
    } else {
        let init = items.drop_last();
        let last = items.last();
        assert forall|i: int| 0 <= i < init.len() implies (#[trigger] init[i]).encodable() by {
            assert(init[i] == items[i]);
        }
        assert(last == items[items.len() - 1]);
        let tail = last.encoding() + rest;
        lemma_items_roundtrip::<T>(init, tail);
        let all = items_encoding(items) + rest;
        assert(all =~= items_encoding(init) + tail);
        assert(all.skip(items_encoding(init).len() as int) =~= tail);
        last.lemma_roundtrip(rest);
        assert(item_models(init).push(last.model()) =~= item_models(items));
    }
}

/// A vector is its length as a `u32`, then each item in order.
impl<T: PacketCodec> PacketCodec for Vec<T> {
    type Model = Seq<T::Model>;

    open spec fn model(&self) -> Seq<T::Model> {
        item_models(self@)
    }

    open spec fn encoding(&self) -> Seq<u8> {
        be_bytes((self@.len() as u32) as nat, 4) + items_encoding(self@)
    }

    open spec fn encodable(&self) -> bool {
        &&& self@.len() <= u32::MAX
        &&& forall|i: int| 0 <= i < self@.len() ==> (#[trigger] self@[i]).encodable()
    }

    open spec fn decoded(bytes: Seq<u8>) -> Result<(Seq<T::Model>, nat), DecodeFailure> {
        if bytes.len() < 4 {
            Err(DecodeFailure::OutOfBytes)
        } else {
            match decoded_items::<T>(bytes.skip(4), be_value(bytes.take(4))) {
                Ok((models, n)) => Ok((models, n + 4)),
                Err(f) => Err(f),
            }
        }
    }

    proof fn lemma_decoded_length(bytes: Seq<u8>) {
        if bytes.len() >= 4 {
            lemma_decoded_items_length::<T>(bytes.skip(4), be_value(bytes.take(4)));
        }
    }

    proof fn lemma_roundtrip(&self, rest: Seq<u8>) {
        let n = self@.len();
        let all = self.encoding() + rest;
        lemma_pow256_values();
        lemma_be_bytes_len(n, 4);
        lemma_be_roundtrip(n, 4);
        assert(all.take(4) =~= be_bytes(n, 4));
        assert(all.skip(4) =~= items_encoding(self@) + rest);
        lemma_items_roundtrip::<T>(self@, rest);
    }

    fn serialize(&self, ctx: &mut PacketSerializerContext) -> (r: PacketSerializeResult<()>) {
        ctx.serialize(&(self.len() as u32))?;
        let ghost header = ctx@;
        let mut i: usize = 0;
        proof {
            assert(self@.take(0) =~= Seq::<T>::empty());
        }
        while i < self.len()
            invariant
                i <= self@.len(),
                header == old(ctx)@ + be_bytes((self@.len() as u32) as nat, 4),
                ctx@ == header + items_encoding(self@.take(i as int)),
            decreases self@.len() - i,
        {
            ctx.serialize(&self[i])?;
            proof {
                assert(self@.take(i + 1).drop_last() =~= self@.take(i as int));
                assert(self@.take(i + 1).last() == self@[i as int]);
            }
            i = i + 1;
        }
        proof {
            assert(self@.take(i as int) =~= self@);
            assert(ctx@ =~= old(ctx)@ + self.encoding());
        }
        Ok(())
    }

    fn deserialize<'buf>(ctx: &mut PacketDeserializerContext<'buf>) -> (r: PacketDeserializeResult<
        Self,
    >) {
        let ghost start = *ctx;
        let length = ctx.deserialize::<u32>()?;
        let ghost items_start = *ctx;
        proof {
            PacketDeserializerContext::lemma_advance(&start, &items_start, 4);
            lemma_be_value_bound(start.remaining().take(4));
            lemma_pow256_values();
        }
        let ghost body = start.remaining().skip(4);
        let mut values: Vec<T> = Vec::new();
        let mut i: u32 = 0;
        proof {
            assert(item_models(values@) =~= Seq::<T::Model>::empty());
        }
        while i < length
            invariant
                i <= length,
                start.bytes() == old(ctx).bytes(),
                start.remaining() == old(ctx).remaining(),
                start.remaining().len() >= 4,
                items_start.bytes() == start.bytes(),
                length == be_value(start.remaining().take(4)),
                body == start.remaining().skip(4),
                items_start.remaining() == body,
                ctx.bytes() == start.bytes(),
                ctx.position() >= items_start.position(),
                items_start.position() <= items_start.bytes().len(),
                decoded_items::<T>(body, i as nat) == Ok::<(Seq<T::Model>, nat), DecodeFailure>(
                    (item_models(values@), (ctx.position() - items_start.position()) as nat),
                ),
            decreases length - i,
        {
            let ghost before = *ctx;
            let ghost done = (ctx.position() - items_start.position()) as nat;
            proof {
                lemma_decoded_items_length::<T>(body, i as nat);
                PacketDeserializerContext::lemma_advance(&items_start, &before, done);
            }
            let value = match ctx.deserialize::<T>() {
                Ok(value) => value,
                Err(err) => {
                    proof {
                        assert(before.remaining() == body.skip(done as int));
                        assert(T::decoded(body.skip(done as int)) is Err);
                        let f = T::decoded(body.skip(done as int))->Err_0;
                        assert(decoded_items::<T>(body, (i + 1) as nat) == Err::<
                            (Seq<T::Model>, nat),
                            DecodeFailure,
                        >(f));
                        lemma_decoded_items_failure::<T>(body, (i + 1) as nat, length as nat);
                        assert(err.reports(f));
                    }
                    return Err(err);
                },
            };
            proof {
                T::lemma_decoded_length(before.remaining());
                assert(item_models(values@.push(value)) =~= item_models(values@).push(value.model()));
            }
            values.push(value);
            i = i + 1;
        }
        Ok(values)
    }
}

/// The entries of `m` in the order in which the map is walked.
pub open spec fn map_entries<V>(m: &HashMap<u64, V>) -> Seq<(u64, V)> {
    vstd::std_specs::hash::into_iter(vstd::std_specs::hash::spec_hash_map_iter(m))
}

/// `entries` lists every entry of `m` exactly once.
pub open spec fn enumerates<V>(entries: Seq<(u64, V)>, m: Map<u64, V>) -> bool {
    &&& forall|i: int, j: int|
        0 <= i < j < entries.len() ==> (#[trigger] entries[i]).0 != (#[trigger] entries[j]).0
    &&& forall|i: int|
        0 <= i < entries.len() ==> m.contains_key((#[trigger] entries[i]).0) && m[entries[i].0]
            == entries[i].1
    &&& forall|k: u64| #[trigger]
        m.contains_key(k) ==> exists|i: int| 0 <= i < entries.len() && (#[trigger] entries[i]).0 == k
}

/// Each entry's key as a `u64`, then its value, in order.
pub open spec fn entries_encoding<V: PacketCodec>(entries: Seq<(u64, V)>) -> Seq<u8>
    decreases entries.len(),
{
    if entries.len() == 0 {
        Seq::empty()
    } else {
        entries_encoding(entries.drop_last()) + be_bytes(entries.last().0 as nat, 8)
            + entries.last().1.encoding()
    }
}

/// The map that inserting `entries` in order builds, each value by its model.
pub open spec fn entries_map<V: PacketCodec>(entries: Seq<(u64, V)>) -> Map<u64, V::Model>
    decreases entries.len(),
{
    if entries.len() == 0 {
        Map::empty()
    } else {
        entries_map(entries.drop_last()).insert(entries.last().0, entries.last().1.model())
    }
}

/// Reads `count` key/value pairs and inserts them in order; a later key replaces an earlier one.
pub open spec fn decoded_entries<V: PacketCodec>(bytes: Seq<u8>, count: nat) -> Result<
    (Map<u64, V::Model>, nat),
    DecodeFailure,
>
    decreases count,
{
    if count == 0 {
        Ok((Map::empty(), 0))
    } else {
        match decoded_entries::<V>(bytes, (count - 1) as nat) {
            Ok((map, n)) => match u64::decoded(bytes.skip(n as int)) {
                Ok((key, a)) => match V::decoded(bytes.skip((n + a) as int)) {
                    Ok((value, b)) => Ok((map.insert(key, value), n + a + b)),
                    Err(f) => Err(f),
                },
                Err(f) => Err(f),
            },
            Err(f) => Err(f),
        }
    }
}

pub proof fn lemma_decoded_entries_length<V: PacketCodec>(bytes: Seq<u8>, count: nat)
    ensures
        decoded_entries::<V>(bytes, count) matches Ok((_, n)) ==> n <= bytes.len(),
        decoded_entries::<V>(bytes, count) matches Err(f) ==> !f.is_framing(),
    decreases count,
{
    if count > 0 {
        lemma_decoded_entries_length::<V>(bytes, (count - 1) as nat);
        if let Ok((map, n)) = decoded_entries::<V>(bytes, (count - 1) as nat) {
            if let Ok((key, a)) = u64::decoded(bytes.skip(n as int)) {
                V::lemma_decoded_length(bytes.skip((n + a) as int));
            }
        }
    }
}

pub proof fn lemma_decoded_entries_failure<V: PacketCodec>(bytes: Seq<u8>, i: nat, count: nat)
    requires
        i <= count,
        decoded_entries::<V>(bytes, i) is Err,
    ensures
        decoded_entries::<V>(bytes, count) == decoded_entries::<V>(bytes, i),
    decreases count,
{
    if i < count {
        lemma_decoded_entries_failure::<V>(bytes, i, (count - 1) as nat);
    }
}

pub proof fn lemma_entries_roundtrip<V: PacketCodec>(entries: Seq<(u64, V)>, rest: Seq<u8>)
    requires
        forall|i: int| 0 <= i < entries.len() ==> (#[trigger] entries[i]).1.encodable(),
    ensures
        decoded_entries::<V>(entries_encoding(entries) + rest, entries.len()) == Ok::<
            (Map<u64, V::Model>, nat),
            DecodeFailure,
        >((entries_map(entries), entries_encoding(entries).len())),
    decreases entries.len(),
{
    if entries.len() > 0 {
        let init = entries.drop_last();
        let last = entries.last();
        assert forall|i: int| 0 <= i < init.len() implies (#[trigger] init[i]).1.encodable() by {
            assert(init[i] == entries[i]);
        }
        assert(last == entries[entries.len() - 1]);
        let key_bytes = be_bytes(last.0 as nat, 8);
        let tail = key_bytes + last.1.encoding() + rest;
        lemma_entries_roundtrip::<V>(init, tail);
        let all = entries_encoding(entries) + rest;
        let n = entries_encoding(init).len();
        assert(all =~= entries_encoding(init) + tail);
        assert(all.skip(n as int) =~= tail);
        last.0.lemma_roundtrip(last.1.encoding() + rest);
        assert(tail =~= last.0.encoding() + (last.1.encoding() + rest));
        lemma_be_bytes_len(last.0 as nat, 8);
        assert(all.skip((n + 8) as int) =~= last.1.encoding() + rest);
        last.1.lemma_roundtrip(rest);
    }
}

/// With distinct keys, every listed key is found with its own value, and nothing else is.
pub proof fn lemma_entries_map_contents<V: PacketCodec>(entries: Seq<(u64, V)>)
    requires
        forall|i: int, j: int|
            0 <= i < j < entries.len() ==> (#[trigger] entries[i]).0 != (#[trigger] entries[j]).0,
    ensures
        forall|i: int|
            0 <= i < entries.len() ==> entries_map(entries).contains_key(
                (#[trigger] entries[i]).0,
            ) && entries_map(entries)[entries[i].0] == entries[i].1.model(),
        forall|k: u64| #[trigger]
            entries_map(entries).contains_key(k) ==> exists|i: int|
                0 <= i < entries.len() && (#[trigger] entries[i]).0 == k,
    decreases entries.len(),
{
    if entries.len() > 0 {
        let init = entries.drop_last();
        assert forall|i: int, j: int| 0 <= i < j < init.len() implies (#[trigger] init[i]).0
            != (#[trigger] init[j]).0 by {
            assert(init[i] == entries[i] && init[j] == entries[j]);
        }
        lemma_entries_map_contents::<V>(init);
        let last = entries.last();
        assert forall|i: int| 0 <= i < entries.len() implies entries_map(entries).contains_key(
            (#[trigger] entries[i]).0,
        ) && entries_map(entries)[entries[i].0] == entries[i].1.model() by {
            if i < entries.len() - 1 {
                assert(init[i] == entries[i]);
                assert(entries[i].0 != entries[entries.len() - 1].0);
            }
        }
        assert forall|k: u64| #[trigger] entries_map(entries).contains_key(k) implies exists|i: int|
            0 <= i < entries.len() && (#[trigger] entries[i]).0 == k by {
            if k == last.0 {
                assert(entries[entries.len() - 1].0 == k);
            } else {
                assert(entries_map(init).contains_key(k));
                let i = choose|i: int| 0 <= i < init.len() && (#[trigger] init[i]).0 == k;
                assert(entries[i] == init[i]);
            }
        }
    }
}

/// A listing of every entry once builds the map back.
pub proof fn lemma_entries_map_enumerated<V: PacketCodec>(entries: Seq<(u64, V)>, m: Map<u64, V>)
    requires
        enumerates(entries, m),
    ensures
        entries_map(entries) == m.map_values(|v: V| v.model()),
{
    lemma_entries_map_contents::<V>(entries);
    let built = entries_map(entries);
    let expected = m.map_values(|v: V| v.model());
    assert forall|k: u64| #[trigger] built.contains_key(k) <==> expected.contains_key(k) by {
        if built.contains_key(k) {
            let i = choose|i: int| 0 <= i < entries.len() && (#[trigger] entries[i]).0 == k;
        }
        if m.contains_key(k) {
            let i = choose|i: int| 0 <= i < entries.len() && (#[trigger] entries[i]).0 == k;
        }
    }
    assert forall|k: u64| #[trigger] built.contains_key(k) implies built[k] == expected[k] by {
        let i = choose|i: int| 0 <= i < entries.len() && (#[trigger] entries[i]).0 == k;
    }
    assert(built =~= expected);
}

/// A map is its number of entries as a `u32`, then each entry as its key (a
/// `u64`) and its value, in the order in which the map is walked.
impl<V: PacketCodec> PacketCodec for HashMap<u64, V> {
    type Model = Map<u64, V::Model>;

    open spec fn model(&self) -> Map<u64, V::Model> {
        self@.map_values(|v: V| v.model())
    }

    open spec fn encoding(&self) -> Seq<u8> {
        be_bytes((self@.len() as u32) as nat, 4) + entries_encoding(map_entries(self))
    }

    /// The number of entries fits in 32 bits, every value is encodable, and the
    /// walk lists every entry once (which `serialize` establishes).
    open spec fn encodable(&self) -> bool {
        &&& self@.len() <= u32::MAX
        &&& map_entries(self).len() == self@.len()
        &&& enumerates(map_entries(self), self@)
        &&& forall|k: u64| #[trigger] self@.contains_key(k) ==> self@[k].encodable()
    }

    open spec fn decoded(bytes: Seq<u8>) -> Result<(Map<u64, V::Model>, nat), DecodeFailure> {
        if bytes.len() < 4 {
            Err(DecodeFailure::OutOfBytes)
        } else {
            match decoded_entries::<V>(bytes.skip(4), be_value(bytes.take(4))) {
                Ok((map, n)) => Ok((map, n + 4)),
                Err(f) => Err(f),
            }
        }
    }

    proof fn lemma_decoded_length(bytes: Seq<u8>) {
        if bytes.len() >= 4 {
            lemma_decoded_entries_length::<V>(bytes.skip(4), be_value(bytes.take(4)));
        }
    }

    proof fn lemma_roundtrip(&self, rest: Seq<u8>) {
        let entries = map_entries(self);
        let n = self@.len();
        let all = self.encoding() + rest;
        lemma_pow256_values();
        lemma_be_bytes_len(n, 4);
        lemma_be_roundtrip(n, 4);
        assert(all.take(4) =~= be_bytes(n, 4));
        assert(all.skip(4) =~= entries_encoding(entries) + rest);
        assert forall|i: int| 0 <= i < entries.len() implies (#[trigger] entries[i]).1.encodable() by {
            assert(self@.contains_key(entries[i].0));
        }
        lemma_entries_roundtrip::<V>(entries, rest);
        lemma_entries_map_enumerated::<V>(entries, self@);
    }

    /// Walking the map also shows that the walk lists every entry once, so the
    /// map is encodable when its size and its values are.
    fn serialize(&self, ctx: &mut PacketSerializerContext) -> (r: PacketSerializeResult<()>)
        ensures
            self@.len() <= u32::MAX && (forall|k: u64| #[trigger] self@.contains_key(k)
                ==> self@[k].encodable()) ==> self.encodable(),
    {
        broadcast use vstd::std_specs::hash::group_hash_axioms;

        ctx.serialize::<u32>(&(self.len() as u32))?;
        let ghost header = ctx@;
        let ghost entries = map_entries(self);
        let iter = self.iter();
        proof {
            let walk = iter.remaining();
            assert(entries == walk.unref());
            vstd::std_specs::hash::axiom_spec_hash_map_iter(self);
            assert forall|i: int, j: int| 0 <= i < j < entries.len() implies (
            #[trigger] entries[i]).0 != (#[trigger] entries[j]).0 by {
                if entries[i].0 == entries[j].0 {
                    assert(self@.contains_key(*walk[i].0) && self@[*walk[i].0] == *walk[i].1);
                    assert(self@.contains_key(*walk[j].0) && self@[*walk[j].0] == *walk[j].1);
                    assert(walk[i] == walk[j]);
                    assert(walk.no_duplicates());
                }
            }
            assert forall|i: int| 0 <= i < entries.len() implies self@.contains_key(
                (#[trigger] entries[i]).0,
            ) && self@[entries[i].0] == entries[i].1 by {
                assert(self@.contains_key(*walk[i].0) && self@[*walk[i].0] == *walk[i].1);
            }
            assert forall|k: u64| #[trigger] self@.contains_key(k) implies exists|i: int|
                0 <= i < entries.len() && (#[trigger] entries[i]).0 == k by {
                assert(walk.contains((&k, &self@[k])));
                let i = choose|i: int| 0 <= i < walk.len() && walk[i] == (&k, &self@[k]);
                assert(entries[i].0 == k);
            }
        }
        for item in it: iter
            invariant
                header == old(ctx)@ + be_bytes((self@.len() as u32) as nat, 4),
                entries == it.seq().unref(),
                ctx@ == header + entries_encoding(entries.take(it.index())),
        {
            let (key, value) = item;
            ctx.serialize::<u64>(key)?;
            ctx.serialize::<V>(value)?;
            proof {
                let i = it.index();
                assert(entries[i] == (*key, *value));
                assert(entries.take(i + 1).drop_last() =~= entries.take(i));
                assert(ctx@ =~= header + entries_encoding(entries.take(i + 1)));
            }
        }
        proof {
            assert(entries.take(entries.len() as int) =~= entries);
        }
        Ok(())
    }

    fn deserialize<'buf>(ctx: &mut PacketDeserializerContext<'buf>) -> (r: PacketDeserializeResult<
        Self,
    >) {
        broadcast use vstd::std_specs::hash::group_hash_axioms;

        let ghost start = *ctx;
        let length = ctx.deserialize::<u32>()?;
        let ghost items_start = *ctx;
        proof {
            PacketDeserializerContext::lemma_advance(&start, &items_start, 4);
            lemma_be_value_bound(start.remaining().take(4));
            lemma_pow256_values();
        }
        let ghost body = start.remaining().skip(4);

        // we'd like to do with_capacity here instead of new, but that would
        // mean trusting unsanitized input for the size of an allocation, which
        // is a big nono.
        let mut map: HashMap<u64, V> = HashMap::new();
        proof {
            assert(map@.map_values(|v: V| v.model()) =~= Map::<u64, V::Model>::empty());
        }
        // using the deserialized length here is okay, because if the client
        // lies about the size of the vec, then it'll either be legitimate, or
        // we'll run into an out of bytes error and cut it short.
        let mut i: u32 = 0;
        while i < length
            invariant
                i <= length,
                start.bytes() == old(ctx).bytes(),
                start.remaining() == old(ctx).remaining(),
                start.remaining().len() >= 4,
                items_start.bytes() == start.bytes(),
                length == be_value(start.remaining().take(4)),
                body == start.remaining().skip(4),
                items_start.remaining() == body,
                ctx.bytes() == start.bytes(),
                ctx.position() >= items_start.position(),
                items_start.position() <= items_start.bytes().len(),
                decoded_entries::<V>(body, i as nat) == Ok::<
                    (Map<u64, V::Model>, nat),
                    DecodeFailure,
                >((map@.map_values(|v: V| v.model()), (ctx.position() - items_start.position()) as nat)),
            decreases length - i,
        {
            let ghost before = *ctx;
            let ghost done = (ctx.position() - items_start.position()) as nat;
            proof {
                lemma_decoded_entries_length::<V>(body, i as nat);
                PacketDeserializerContext::lemma_advance(&items_start, &before, done);
            }
            let key = match ctx.deserialize::<u64>() {
                Ok(key) => key,
                Err(err) => {
                    proof {
                        let f = u64::decoded(body.skip(done as int))->Err_0;
                        assert(decoded_entries::<V>(body, (i + 1) as nat) == Err::<
                            (Map<u64, V::Model>, nat),
                            DecodeFailure,
                        >(f));
                        lemma_decoded_entries_failure::<V>(body, (i + 1) as nat, length as nat);
                        assert(err.reports(f));
                    }
                    return Err(err);
                },
            };
            let ghost after_key = *ctx;
            proof {
                PacketDeserializerContext::lemma_advance(&before, &after_key, 8);
                assert(after_key.remaining() =~= body.skip((done + 8) as int));
            }
            let value = match ctx.deserialize::<V>() {
                Ok(value) => value,
                Err(err) => {
                    proof {
                        let f = V::decoded(body.skip((done + 8) as int))->Err_0;
                        assert(decoded_entries::<V>(body, (i + 1) as nat) == Err::<
                            (Map<u64, V::Model>, nat),
                            DecodeFailure,
                        >(f));
                        lemma_decoded_entries_failure::<V>(body, (i + 1) as nat, length as nat);
                        assert(err.reports(f));
                    }
                    return Err(err);
                },
            };
            proof {
                V::lemma_decoded_length(after_key.remaining());
            }
            let ghost old_map = map@;
            map.insert(key, value);
            proof {
                assert(map@.map_values(|v: V| v.model()) =~= old_map.map_values(|v: V| v.model()).insert(
                    key,
                    value.model(),
                ));
            }
            i = i + 1;
        }
        Ok(map)
    }
}

} // verus!
