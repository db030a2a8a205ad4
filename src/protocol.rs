//! The codable-value contract and its implementations for the wire's building blocks.
use vstd::prelude::*;
use crate::reader::Reader;
use crate::types::{ErrorKind, KafkaError};
use crate::wire::{
    i16_from_be, i16_to_be, i32_from_be, i32_to_be, i64_from_be, i64_to_be, i8_from_be, i8_to_be,
    lemma_i16_round_trip, lemma_i32_round_trip, lemma_i64_round_trip, lemma_i8_round_trip,
};

verus! {

/// A value with a wire form: `encode` writes it, `decode` reads it back, and `size`
/// tells in advance how many bytes `encode` will write.
///
/// Each implementation describes its wire form with four spec functions over a model
/// of the value and proves the laws that tie them together; the executable functions
/// are checked against those descriptions.
pub trait KafkaSerializable: Sized {
    /// The value as the codec sees it.
    type Model;

    spec fn model(&self) -> Self::Model;

    /// Whether `m` can be written: every length field fits its width, and the whole
    /// encoding fits the `i32` that `size` returns.
    spec fn valid(m: Self::Model) -> bool;

    /// The bytes that encode `m`.
    spec fn wire(m: Self::Model) -> Seq<u8>;

    /// What decoding makes of `input`: the value read and the number of bytes it took,
    /// or the kind of failure.
    spec fn parse(input: Seq<u8>) -> Result<(Self::Model, int), ErrorKind>;

    /// A writable value's encoding fits an `i32` length.
    proof fn lemma_valid_len(m: Self::Model)
        requires
            Self::valid(m),
        ensures
            Self::wire(m).len() <= i32::MAX,
    ;

    /// Decoding takes no more bytes than there are.
    proof fn lemma_parse_len(input: Seq<u8>)
        ensures
            Self::parse(input) is Ok ==> 0 <= Self::parse(input)->Ok_0.1 <= input.len(),
    ;

    /// Decoding that succeeds looks at no byte past those it took: more input after
    /// them changes nothing.
    proof fn lemma_parse_extend(input: Seq<u8>, extra: Seq<u8>)
        requires
            Self::parse(input) is Ok,
        ensures
            Self::parse(input + extra) == Self::parse(input),
    ;

    /// Decoding an encoding gives back the value and takes exactly its bytes, whatever
    /// follows them.
    proof fn lemma_round_trip(m: Self::Model, rest: Seq<u8>)
        requires
            Self::valid(m),
        ensures
            Self::parse(Self::wire(m) + rest) == Ok::<(Self::Model, int), ErrorKind>(
                (m, Self::wire(m).len() as int),
            ),
    ;

    /// Appends the encoding of `self` to `writer`.
    fn encode(&self, writer: &mut Vec<u8>)
        requires
            Self::valid(self.model()),
        ensures
            final(writer)@ == old(writer)@ + Self::wire(self.model()),
    ;

    /// Reads a value from the bytes that `reader` has left, as
    /// [`KafkaSerializable::parse`] describes: on success the value it reads, with exactly
    /// the bytes it takes consumed; on failure an error of the kind it gives. The buffer
    /// and its limit are left as they were.
    fn decode(reader: &mut Reader) -> (r: Result<Self, KafkaError>)
        requires
            old(reader).wf(),
        ensures
            final(reader).wf(),
            final(reader).bytes() == old(reader).bytes(),
            final(reader).bound() == old(reader).bound(),
            match Self::parse(old(reader).remaining()) {
                Ok((m, n)) => r is Ok && r->Ok_0.model() == m && final(reader).position() == old(
                    reader,
                ).position() + n,
                Err(k) => r is Err && r->Err_0.kind == k,
            },
    ;

    /// The number of bytes that `encode` writes.
    fn size(&self) -> (r: i32)
        requires
            Self::valid(self.model()),
        ensures
            r == Self::wire(self.model()).len(),
    ;

    /// Whether `self` can be written, which `encode` and `size` ask of their callers.
    fn is_encodable(&self) -> (r: bool)
        ensures
            r == Self::valid(self.model()),
    ;
}

/// Reading a fixed-width field of `width` bytes from `input`.
pub open spec fn parse_fixed<V>(input: Seq<u8>, width: int, v: V) -> Result<(V, int), ErrorKind> {
    if input.len() < width {
        Err(ErrorKind::Truncated)
    } else {
        Ok((v, width))
    }
}

impl KafkaSerializable for i8 {
    type Model = i8;

    open spec fn model(&self) -> i8 {
        *self
    }

    open spec fn valid(m: i8) -> bool {
        true
    }

    open spec fn wire(m: i8) -> Seq<u8> {
        i8_to_be(m)
    }

    open spec fn parse(input: Seq<u8>) -> Result<(i8, int), ErrorKind> {
        parse_fixed(input, 1, i8_from_be(input))
    }

    proof fn lemma_valid_len(m: i8) {
    }

    proof fn lemma_parse_len(input: Seq<u8>) {
    }

    proof fn lemma_parse_extend(input: Seq<u8>, extra: Seq<u8>) {
        assert((input + extra)[0] == input[0]);
    }

    proof fn lemma_round_trip(m: i8, rest: Seq<u8>) {
        lemma_i8_round_trip(m);
        assert((i8_to_be(m) + rest)[0] == i8_to_be(m)[0]);
    }

    fn encode(&self, writer: &mut Vec<u8>) {
        writer.push(*self as u8);
        assert(writer@ =~= old(writer)@ + i8_to_be(*self));
    }

    fn decode(reader: &mut Reader) -> (r: Result<i8, KafkaError>) {
        match reader.read_bytes(1) {
            Ok(b) => Ok(b[0] as i8),
            Err(e) => Err(e),
        }
    }

    fn size(&self) -> (r: i32) {
        1
    }

    fn is_encodable(&self) -> (r: bool) {
        true
    }
}

impl KafkaSerializable for i16 {
    type Model = i16;

    open spec fn model(&self) -> i16 {
        *self
    }

    open spec fn valid(m: i16) -> bool {
        true
    }

    open spec fn wire(m: i16) -> Seq<u8> {
        i16_to_be(m)
    }

    open spec fn parse(input: Seq<u8>) -> Result<(i16, int), ErrorKind> {
        parse_fixed(input, 2, i16_from_be(input))
    }

    proof fn lemma_valid_len(m: i16) {
    }

    proof fn lemma_parse_len(input: Seq<u8>) {
    }

    proof fn lemma_parse_extend(input: Seq<u8>, extra: Seq<u8>) {
        if input.len() >= 2 {
            assert((input + extra)[0] == input[0]);
            assert((input + extra)[1] == input[1]);
        }
    }

    proof fn lemma_round_trip(m: i16, rest: Seq<u8>) {
        lemma_i16_round_trip(m);
        let w = i16_to_be(m);
        assert((w + rest)[0] == w[0]);
        assert((w + rest)[1] == w[1]);
    }

    fn encode(&self, writer: &mut Vec<u8>) {
        let u = *self as u16;
        writer.push((u >> 8u16) as u8);
        writer.push(u as u8);
        assert(writer@ =~= old(writer)@ + i16_to_be(*self));
    }

    fn decode(reader: &mut Reader) -> (r: Result<i16, KafkaError>) {
        match reader.read_bytes(2) {
            Ok(b) => Ok((((b[0] as u16) << 8u16) | (b[1] as u16)) as i16),
            Err(e) => Err(e),
        }
    }

    fn size(&self) -> (r: i32) {
        2
    }

    fn is_encodable(&self) -> (r: bool) {
        true
    }
}

impl KafkaSerializable for i32 {
    type Model = i32;

    open spec fn model(&self) -> i32 {
        *self
    }

    open spec fn valid(m: i32) -> bool {
        true
    }

    open spec fn wire(m: i32) -> Seq<u8> {
        i32_to_be(m)
    }

    open spec fn parse(input: Seq<u8>) -> Result<(i32, int), ErrorKind> {
        parse_fixed(input, 4, i32_from_be(input))
    }

    proof fn lemma_valid_len(m: i32) {
    }

    proof fn lemma_parse_len(input: Seq<u8>) {
    }

    proof fn lemma_parse_extend(input: Seq<u8>, extra: Seq<u8>) {
        if input.len() >= 4 {
            assert(forall|i: int| 0 <= i < 4 ==> (input + extra)[i] == input[i]);
        }
    }

    proof fn lemma_round_trip(m: i32, rest: Seq<u8>) {
        lemma_i32_round_trip(m);
        let w = i32_to_be(m);
        assert(forall|i: int| 0 <= i < 4 ==> (w + rest)[i] == w[i]);
    }

    fn encode(&self, writer: &mut Vec<u8>) {
        let u = *self as u32;
        writer.push((u >> 24u32) as u8);
        writer.push((u >> 16u32) as u8);
        writer.push((u >> 8u32) as u8);
        writer.push(u as u8);
        assert(writer@ =~= old(writer)@ + i32_to_be(*self));
    }

    fn decode(reader: &mut Reader) -> (r: Result<i32, KafkaError>) {
        match reader.read_bytes(4) {
            Ok(b) => Ok((((b[0] as u32) << 24u32) | ((b[1] as u32) << 16u32) | ((b[2] as u32) << 8u32)
                | (b[3] as u32)) as i32),
            Err(e) => Err(e),
        }
    }

    fn size(&self) -> (r: i32) {
        4
    }

    fn is_encodable(&self) -> (r: bool) {
        true
    }
}

impl KafkaSerializable for i64 {
    type Model = i64;

    open spec fn model(&self) -> i64 {
        *self
    }

    open spec fn valid(m: i64) -> bool {
        true
    }

    open spec fn wire(m: i64) -> Seq<u8> {
        i64_to_be(m)
    }

    open spec fn parse(input: Seq<u8>) -> Result<(i64, int), ErrorKind> {
        parse_fixed(input, 8, i64_from_be(input))
    }

    proof fn lemma_valid_len(m: i64) {
    }

    proof fn lemma_parse_len(input: Seq<u8>) {
    }

    proof fn lemma_parse_extend(input: Seq<u8>, extra: Seq<u8>) {
        if input.len() >= 8 {
            assert(forall|i: int| 0 <= i < 8 ==> (input + extra)[i] == input[i]);
        }
    }

    proof fn lemma_round_trip(m: i64, rest: Seq<u8>) {
        lemma_i64_round_trip(m);
        let w = i64_to_be(m);
        assert(forall|i: int| 0 <= i < 8 ==> (w + rest)[i] == w[i]);
    }

    fn encode(&self, writer: &mut Vec<u8>) {
        let u = *self as u64;
        writer.push((u >> 56u64) as u8);
        writer.push((u >> 48u64) as u8);
        writer.push((u >> 40u64) as u8);
        writer.push((u >> 32u64) as u8);
        writer.push((u >> 24u64) as u8);
        writer.push((u >> 16u64) as u8);
        writer.push((u >> 8u64) as u8);
        writer.push(u as u8);
        assert(writer@ =~= old(writer)@ + i64_to_be(*self));
    }

    fn decode(reader: &mut Reader) -> (r: Result<i64, KafkaError>) {
        match reader.read_bytes(8) {
            Ok(b) => Ok((((b[0] as u64) << 56u64) | ((b[1] as u64) << 48u64) | ((b[2] as u64) << 40u64)
                | ((b[3] as u64) << 32u64) | ((b[4] as u64) << 24u64) | ((b[5] as u64) << 16u64) | ((
            b[6] as u64) << 8u64) | (b[7] as u64)) as i64),
            Err(e) => Err(e),
        }
    }

    fn size(&self) -> (r: i32) {
        8
    }

    fn is_encodable(&self) -> (r: bool) {
        true
    }
}

} // verus!

verus! {

/// Decoding the encoding of any writable value gives the value back and consumes
/// exactly the bytes that `size` counts, whatever bytes follow.
pub proof fn round_trip<T: KafkaSerializable>(m: T::Model, rest: Seq<u8>)
    requires
        T::valid(m),
    ensures
        T::parse(T::wire(m) + rest) == Ok::<(T::Model, int), ErrorKind>((m, T::wire(m).len() as int)),
        T::wire(m).len() <= i32::MAX,
{
    T::lemma_round_trip(m, rest);
    T::lemma_valid_len(m);
}

} // verus!
