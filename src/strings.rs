//! Length-prefixed text and byte arrays, with their nullable forms.
use vstd::prelude::*;
use vstd::utf8::{decode_utf8, encode_utf8, encode_utf8_decode_utf8, encode_utf8_valid_utf8, valid_utf8};
use crate::protocol::KafkaSerializable;
use crate::reader::Reader;
use crate::types::{ErrorKind, KafkaError};
use crate::wire::{i16_to_be, i32_to_be};

verus! {

/// Relies on `String::from_utf8`: it succeeds exactly on valid UTF-8, and the string it
/// gives holds the characters that the bytes encode.
#[verifier::external_body]
fn string_from_utf8(bytes: Vec<u8>) -> (r: Option<String>)
    ensures
        r is Some <==> valid_utf8(bytes@),
        r is Some ==> r->Some_0@ == decode_utf8(bytes@),
{
    String::from_utf8(bytes).ok()
}

/// Appends `bytes` to `writer`.
fn write_bytes(writer: &mut Vec<u8>, bytes: &[u8])
    ensures
        final(writer)@ == old(writer)@ + bytes@,
{
    let mut i: usize = 0;
    while i < bytes.len()
        invariant
            0 <= i <= bytes@.len(),
            writer@ == old(writer)@ + bytes@.take(i as int),
        decreases bytes@.len() - i,
    {
        writer.push(bytes[i]);
        i = i + 1;
        assert(writer@ =~= old(writer)@ + bytes@.take(i as int));
    }
    assert(bytes@.take(i as int) =~= bytes@);
}

/// The error for a length field below what its type permits.
fn negative_length() -> (r: KafkaError)
    ensures
        r.kind == ErrorKind::MalformedPayload,
{
    KafkaError::from_error(ErrorKind::MalformedPayload, "length field below the permitted range")
}

/// The encoding of a text: its UTF-8 byte count as an `i16`, then those bytes.
pub open spec fn text_wire(s: Seq<char>) -> Seq<u8> {
    i16_to_be(encode_utf8(s).len() as i16) + encode_utf8(s)
}

/// Whether the UTF-8 form of `s` fits an `i16` length field.
pub open spec fn text_fits(s: Seq<char>) -> bool {
    encode_utf8(s).len() <= i16::MAX
}

/// The first `n` bytes of `body`, read as UTF-8 text.
pub open spec fn parse_text_body(body: Seq<u8>, n: int) -> Result<(Seq<char>, int), ErrorKind> {
    if body.len() < n {
        Err(ErrorKind::Truncated)
    } else if valid_utf8(body.take(n)) {
        Ok((decode_utf8(body.take(n)), n))
    } else {
        Err(ErrorKind::MalformedPayload)
    }
}

/// The encoding of a byte array: its length as an `i32`, then its bytes.
pub open spec fn bytes_wire(b: Seq<u8>) -> Seq<u8> {
    i32_to_be(b.len() as i32) + b
}

/// Whether a byte array's whole encoding fits an `i32` length.
pub open spec fn bytes_fit(b: Seq<u8>) -> bool {
    b.len() + 4 <= i32::MAX
}

/// The first `n` bytes of `body`.
pub open spec fn parse_bytes_body(body: Seq<u8>, n: int) -> Result<(Seq<u8>, int), ErrorKind> {
    if body.len() < n {
        Err(ErrorKind::Truncated)
    } else {
        Ok((body.take(n), n))
    }
}

proof fn lemma_text_body_extend(input: Seq<u8>, extra: Seq<u8>, n: int)
    requires
        0 <= n,
        parse_text_body(input, n) is Ok,
    ensures
        parse_text_body(input + extra, n) == parse_text_body(input, n),
{
    assert((input + extra).take(n) =~= input.take(n));
}

proof fn lemma_bytes_body_extend(input: Seq<u8>, extra: Seq<u8>, n: int)
    requires
        0 <= n,
        parse_bytes_body(input, n) is Ok,
    ensures
        parse_bytes_body(input + extra, n) == parse_bytes_body(input, n),
{
    assert((input + extra).take(n) =~= input.take(n));
}

/// The length field of an encoded text gives its byte count, and the body after it
/// gives the text back.
proof fn lemma_text_round_trip(s: Seq<char>, rest: Seq<u8>)
    requires
        text_fits(s),
    ensures
        <i16 as KafkaSerializable>::parse(text_wire(s) + rest) == Ok::<(i16, int), ErrorKind>(
            (encode_utf8(s).len() as i16, 2),
        ),
        (text_wire(s) + rest).skip(2) == encode_utf8(s) + rest,
        parse_text_body(encode_utf8(s) + rest, encode_utf8(s).len() as int) == Ok::<
            (Seq<char>, int),
            ErrorKind,
        >((s, encode_utf8(s).len() as int)),
{
    let e = encode_utf8(s);
    <i16 as KafkaSerializable>::lemma_round_trip(e.len() as i16, e + rest);
    assert(text_wire(s) + rest =~= i16_to_be(e.len() as i16) + (e + rest));
    assert((text_wire(s) + rest).skip(2) =~= e + rest);
    assert((e + rest).take(e.len() as int) =~= e);
    encode_utf8_valid_utf8(s);
    encode_utf8_decode_utf8(s);
}

/// The length field of an encoded byte array gives its length, and the body after it
/// gives the array back.
proof fn lemma_bytes_round_trip(b: Seq<u8>, rest: Seq<u8>)
    requires
        bytes_fit(b),
    ensures
        <i32 as KafkaSerializable>::parse(bytes_wire(b) + rest) == Ok::<(i32, int), ErrorKind>(
            (b.len() as i32, 4),
        ),
        (bytes_wire(b) + rest).skip(4) == b + rest,
        parse_bytes_body(b + rest, b.len() as int) == Ok::<(Seq<u8>, int), ErrorKind>(
            (b, b.len() as int),
        ),
{
    <i32 as KafkaSerializable>::lemma_round_trip(b.len() as i32, b + rest);
    assert(bytes_wire(b) + rest =~= i32_to_be(b.len() as i32) + (b + rest));
    assert((bytes_wire(b) + rest).skip(4) =~= b + rest);
    assert((b + rest).take(b.len() as int) =~= b);
}

/// Reads the `n` bytes of a text whose length field has been read.
fn decode_text_body(reader: &mut Reader, n: i16) -> (r: Result<String, KafkaError>)
    requires
        old(reader).wf(),
        n >= 0,
    ensures
        final(reader).wf(),
        final(reader).bytes() == old(reader).bytes(),
        final(reader).bound() == old(reader).bound(),
        match parse_text_body(old(reader).remaining(), n as int) {
            Ok((s, k)) => r is Ok && r->Ok_0@ == s && final(reader).position() == old(
                reader,
            ).position() + k,
            Err(e) => r is Err && r->Err_0.kind == e,
        },
{
    let bytes = match reader.read_bytes(n as usize) {
        Ok(b) => b,
        Err(e) => return Err(e),
    };
    match string_from_utf8(bytes) {
        Some(s) => Ok(s),
        None => Err(KafkaError::from_error(ErrorKind::MalformedPayload, "text is not valid UTF-8")),
    }
}

} // verus!

verus! {

impl KafkaSerializable for String {
    type Model = Seq<char>;

    open spec fn model(&self) -> Seq<char> {
        self@
    }

    open spec fn valid(m: Seq<char>) -> bool {
        text_fits(m)
    }

    open spec fn wire(m: Seq<char>) -> Seq<u8> {
        text_wire(m)
    }

    /// A length below zero is refused.
    open spec fn parse(input: Seq<u8>) -> Result<(Seq<char>, int), ErrorKind> {
        match <i16 as KafkaSerializable>::parse(input) {
            Err(k) => Err(k),
            Ok((n, _)) => if n < 0 {
                Err(ErrorKind::MalformedPayload)
            } else {
                match parse_text_body(input.skip(2), n as int) {
                    Ok((s, k)) => Ok((s, 2 + k)),
                    Err(e) => Err(e),
                }
            },
        }
    }

    proof fn lemma_valid_len(m: Seq<char>) {
    }

    proof fn lemma_parse_len(input: Seq<u8>) {
    }

    proof fn lemma_parse_extend(input: Seq<u8>, extra: Seq<u8>) {
        <i16 as KafkaSerializable>::lemma_parse_extend(input, extra);
        let n = <i16 as KafkaSerializable>::parse(input)->Ok_0.0;
        assert((input + extra).skip(2) =~= input.skip(2) + extra);
        lemma_text_body_extend(input.skip(2), extra, n as int);
    }

    proof fn lemma_round_trip(m: Seq<char>, rest: Seq<u8>) {
        lemma_text_round_trip(m, rest);
    }

    fn encode(&self, writer: &mut Vec<u8>) {
        let bytes = self.as_str().as_bytes();
        let n = bytes.len() as i16;
        n.encode(writer);
        write_bytes(writer, bytes);
        assert(writer@ =~= old(writer)@ + text_wire(self@));
    }

    fn decode(reader: &mut Reader) -> (r: Result<String, KafkaError>) {
        let ghost before = *reader;
        let n = match i16::decode(reader) {
            Ok(n) => n,
            Err(e) => return Err(e),
        };
        proof {
            Reader::lemma_advance(before, *reader, 2);
        }
        if n < 0 {
            return Err(negative_length());
        }
        decode_text_body(reader, n)
    }

    fn size(&self) -> (r: i32) {
        2 + self.as_str().as_bytes().len() as i32
    }

    fn is_encodable(&self) -> (r: bool) {
        self.as_str().as_bytes().len() <= i16::MAX as usize
    }
}

impl KafkaSerializable for Option<String> {
    type Model = Option<Seq<char>>;

    open spec fn model(&self) -> Option<Seq<char>> {
        match self {
            Some(s) => Some(s@),
            None => None,
        }
    }

    open spec fn valid(m: Option<Seq<char>>) -> bool {
        match m {
            Some(s) => text_fits(s),
            None => true,
        }
    }

    /// An absent text is the length `-1` alone.
    open spec fn wire(m: Option<Seq<char>>) -> Seq<u8> {
        match m {
            Some(s) => text_wire(s),
            None => i16_to_be(-1i16),
        }
    }

    /// The length `-1` reads as an absent text; a length below it is refused.
    open spec fn parse(input: Seq<u8>) -> Result<(Option<Seq<char>>, int), ErrorKind> {
        match <i16 as KafkaSerializable>::parse(input) {
            Err(k) => Err(k),
            Ok((n, _)) => if n == -1 {
                Ok((None, 2))
            } else if n < -1 {
                Err(ErrorKind::MalformedPayload)
            } else {
                match parse_text_body(input.skip(2), n as int) {
                    Ok((s, k)) => Ok((Some(s), 2 + k)),
                    Err(e) => Err(e),
                }
            },
        }
    }

    proof fn lemma_valid_len(m: Option<Seq<char>>) {
    }

    proof fn lemma_parse_len(input: Seq<u8>) {
    }

    proof fn lemma_parse_extend(input: Seq<u8>, extra: Seq<u8>) {
        <i16 as KafkaSerializable>::lemma_parse_extend(input, extra);
        let n = <i16 as KafkaSerializable>::parse(input)->Ok_0.0;
        if n >= 0 {
            assert((input + extra).skip(2) =~= input.skip(2) + extra);
            lemma_text_body_extend(input.skip(2), extra, n as int);
        }
    }

    proof fn lemma_round_trip(m: Option<Seq<char>>, rest: Seq<u8>) {
        match m {
            Some(s) => lemma_text_round_trip(s, rest),
            None => <i16 as KafkaSerializable>::lemma_round_trip(-1i16, rest),
        }
    }

    fn encode(&self, writer: &mut Vec<u8>) {
        match self {
            Some(s) => s.encode(writer),
            None => (-1i16).encode(writer),
        }
    }

    fn decode(reader: &mut Reader) -> (r: Result<Option<String>, KafkaError>) {
        let ghost before = *reader;
        let n = match i16::decode(reader) {
            Ok(n) => n,
            Err(e) => return Err(e),
        };
        proof {
            Reader::lemma_advance(before, *reader, 2);
        }
        if n == -1 {
            return Ok(None);
        }
        if n < -1 {
            return Err(negative_length());
        }
        match decode_text_body(reader, n) {
            Ok(s) => Ok(Some(s)),
            Err(e) => Err(e),
        }
    }

    fn size(&self) -> (r: i32) {
        match self {
            Some(s) => s.size(),
            None => 2,
        }
    }

    fn is_encodable(&self) -> (r: bool) {
        match self {
            Some(s) => s.is_encodable(),
            None => true,
        }
    }
}

impl KafkaSerializable for Vec<u8> {
    type Model = Seq<u8>;

    open spec fn model(&self) -> Seq<u8> {
        self@
    }

    open spec fn valid(m: Seq<u8>) -> bool {
        bytes_fit(m)
    }

    open spec fn wire(m: Seq<u8>) -> Seq<u8> {
        bytes_wire(m)
    }

    /// A length below zero is refused.
    open spec fn parse(input: Seq<u8>) -> Result<(Seq<u8>, int), ErrorKind> {
        match <i32 as KafkaSerializable>::parse(input) {
            Err(k) => Err(k),
            Ok((n, _)) => if n < 0 {
                Err(ErrorKind::MalformedPayload)
            } else {
                match parse_bytes_body(input.skip(4), n as int) {
                    Ok((b, k)) => Ok((b, 4 + k)),
                    Err(e) => Err(e),
                }
            },
        }
    }

    proof fn lemma_valid_len(m: Seq<u8>) {
    }

    proof fn lemma_parse_len(input: Seq<u8>) {
    }

    proof fn lemma_parse_extend(input: Seq<u8>, extra: Seq<u8>) {
        <i32 as KafkaSerializable>::lemma_parse_extend(input, extra);
        let n = <i32 as KafkaSerializable>::parse(input)->Ok_0.0;
        assert((input + extra).skip(4) =~= input.skip(4) + extra);
        lemma_bytes_body_extend(input.skip(4), extra, n as int);
    }

    proof fn lemma_round_trip(m: Seq<u8>, rest: Seq<u8>) {
        lemma_bytes_round_trip(m, rest);
    }

    fn encode(&self, writer: &mut Vec<u8>) {
        let n = self.len() as i32;
        n.encode(writer);
        write_bytes(writer, self.as_slice());
        assert(writer@ =~= old(writer)@ + bytes_wire(self@));
    }

    fn decode(reader: &mut Reader) -> (r: Result<Vec<u8>, KafkaError>) {
        let ghost before = *reader;
        let n = match i32::decode(reader) {
            Ok(n) => n,
            Err(e) => return Err(e),
        };
        proof {
            Reader::lemma_advance(before, *reader, 4);
        }
        if n < 0 {
            return Err(negative_length());
        }
        reader.read_bytes(n as usize)
    }

    fn size(&self) -> (r: i32) {
        4 + self.len() as i32
    }

    fn is_encodable(&self) -> (r: bool) {
        self.len() <= (i32::MAX - 4) as usize
    }
}

impl KafkaSerializable for Option<Vec<u8>> {
    type Model = Option<Seq<u8>>;

    open spec fn model(&self) -> Option<Seq<u8>> {
        match self {
            Some(b) => Some(b@),
            None => None,
        }
    }

    open spec fn valid(m: Option<Seq<u8>>) -> bool {
        match m {
            Some(b) => bytes_fit(b),
            None => true,
        }
    }

    /// An absent array is the length `-1` alone.
    open spec fn wire(m: Option<Seq<u8>>) -> Seq<u8> {
        match m {
            Some(b) => bytes_wire(b),
            None => i32_to_be(-1i32),
        }
    }

    /// The length `-1` reads as an absent array; a length below it is refused.
    open spec fn parse(input: Seq<u8>) -> Result<(Option<Seq<u8>>, int), ErrorKind> {
        match <i32 as KafkaSerializable>::parse(input) {
            Err(k) => Err(k),
            Ok((n, _)) => if n == -1 {
                Ok((None, 4))
            } else if n < -1 {
                Err(ErrorKind::MalformedPayload)
            } else {
                match parse_bytes_body(input.skip(4), n as int) {
                    Ok((b, k)) => Ok((Some(b), 4 + k)),
                    Err(e) => Err(e),
                }
            },
        }
    }

    proof fn lemma_valid_len(m: Option<Seq<u8>>) {
    }

    proof fn lemma_parse_len(input: Seq<u8>) {
    }

    proof fn lemma_parse_extend(input: Seq<u8>, extra: Seq<u8>) {
        <i32 as KafkaSerializable>::lemma_parse_extend(input, extra);
        let n = <i32 as KafkaSerializable>::parse(input)->Ok_0.0;
        if n >= 0 {
            assert((input + extra).skip(4) =~= input.skip(4) + extra);
            lemma_bytes_body_extend(input.skip(4), extra, n as int);
        }
    }

    proof fn lemma_round_trip(m: Option<Seq<u8>>, rest: Seq<u8>) {
        match m {
            Some(b) => lemma_bytes_round_trip(b, rest),
            None => <i32 as KafkaSerializable>::lemma_round_trip(-1i32, rest),
        }
    }

    fn encode(&self, writer: &mut Vec<u8>) {
        match self {
            Some(b) => b.encode(writer),
            None => (-1i32).encode(writer),
        }
    }

    fn decode(reader: &mut Reader) -> (r: Result<Option<Vec<u8>>, KafkaError>) {
        let ghost before = *reader;
        let n = match i32::decode(reader) {
            Ok(n) => n,
            Err(e) => return Err(e),
        };
        proof {
            Reader::lemma_advance(before, *reader, 4);
        }
        if n == -1 {
            return Ok(None);
        }
        if n < -1 {
            return Err(negative_length());
        }
        match reader.read_bytes(n as usize) {
            Ok(b) => Ok(Some(b)),
            Err(e) => Err(e),
        }
    }

    fn size(&self) -> (r: i32) {
        match self {
            Some(b) => b.size(),
            None => 4,
        }
    }

    fn is_encodable(&self) -> (r: bool) {
        match self {
            Some(b) => b.is_encodable(),
            None => true,
        }
    }
}

} // verus!

verus! {

/// A nullable text's length field: `-1` reads as absent, `0` as present and empty, and
/// anything below `-1` is refused.
pub proof fn optional_text_sentinels(n: i16, rest: Seq<u8>)
    ensures
        n == -1 ==> <Option<String>>::parse(i16_to_be(n) + rest) == Ok::<(Option<Seq<char>>, int), ErrorKind>(
            (None, 2),
        ),
        n == 0 ==> <Option<String>>::parse(i16_to_be(n) + rest) == Ok::<(Option<Seq<char>>, int), ErrorKind>(
            (Some(Seq::empty()), 2),
        ),
        n < -1 ==> <Option<String>>::parse(i16_to_be(n) + rest) == Err::<(Option<Seq<char>>, int), ErrorKind>(
            ErrorKind::MalformedPayload,
        ),
{
    <i16 as KafkaSerializable>::lemma_round_trip(n, rest);
    if n == 0 {
        let body = (i16_to_be(n) + rest).skip(2);
        assert(body.take(0) =~= Seq::<u8>::empty());
        assert(encode_utf8(Seq::<char>::empty()) =~= Seq::<u8>::empty());
        encode_utf8_decode_utf8(Seq::<char>::empty());
        encode_utf8_valid_utf8(Seq::<char>::empty());
    }
}

/// A nullable byte array's length field: `-1` reads as absent, `0` as present and
/// empty, and anything below `-1` is refused.
pub proof fn optional_bytes_sentinels(n: i32, rest: Seq<u8>)
    ensures
        n == -1 ==> <Option<Vec<u8>>>::parse(i32_to_be(n) + rest) == Ok::<(Option<Seq<u8>>, int), ErrorKind>(
            (None, 4),
        ),
        n == 0 ==> <Option<Vec<u8>>>::parse(i32_to_be(n) + rest) == Ok::<(Option<Seq<u8>>, int), ErrorKind>(
            (Some(Seq::empty()), 4),
        ),
        n < -1 ==> <Option<Vec<u8>>>::parse(i32_to_be(n) + rest) == Err::<(Option<Seq<u8>>, int), ErrorKind>(
            ErrorKind::MalformedPayload,
        ),
{
    <i32 as KafkaSerializable>::lemma_round_trip(n, rest);
    if n == 0 {
        let body = (i32_to_be(n) + rest).skip(4);
        assert(body.take(0) =~= Seq::<u8>::empty());
    }
}

} // verus!
