//! The request and response envelopes, and the outermost frame placed on the transport.
use vstd::prelude::*;
use crate::containers::{
    decode_frame, encode_frame, frame_encodable, frame_fits, frame_wire, lemma_frame_extend,
    lemma_frame_round_trip, parse_frame,
};
use crate::protocol::KafkaSerializable;
use crate::reader::Reader;
use crate::types::{ErrorKind, KafkaError};
use crate::wire::i16_to_be;

verus! {

/// A request body, with the API key that identifies its message type on the wire.
pub trait Request: KafkaSerializable {
    /// The API key of this message type.
    spec fn spec_api_key() -> i16;

    /// The API key of this message type; the argument only names the type.
    fn api_key(_marker: Option<Self>) -> (r: i16)
        ensures
            r == Self::spec_api_key(),
    ;
}

/// A response body. The caller knows which type to expect from the request it sent.
pub trait Response: KafkaSerializable {

}

/// The one API version this codec speaks.
pub const API_VERSION: i16 = 0;

/// A request as sent: its header, then the body.
#[derive(PartialEq, Eq, Debug)]
pub struct RequestMessage<T: Request> {
    pub correlation_id: i32,
    pub client_id: String,
    pub request_message: T,
}

/// The bytes in front of every request of type `T`: its API key and the API version.
pub open spec fn request_header<T: Request>() -> Seq<u8> {
    i16_to_be(T::spec_api_key()) + i16_to_be(API_VERSION)
}

impl<T: Request> KafkaSerializable for RequestMessage<T> {
    /// The correlation id, the client id, and the body, nested as the fields after the
    /// header are written.
    type Model = (i32, (Seq<char>, T::Model));

    open spec fn model(&self) -> (i32, (Seq<char>, T::Model)) {
        (self.correlation_id, (self.client_id@, self.request_message.model()))
    }

    open spec fn valid(m: (i32, (Seq<char>, T::Model))) -> bool {
        &&& <(i32, (String, T))>::valid(m)
        &&& 4 + <(i32, (String, T))>::wire(m).len() <= i32::MAX
    }

    /// The API key of `T`, the API version, the correlation id, the client id, the body.
    open spec fn wire(m: (i32, (Seq<char>, T::Model))) -> Seq<u8> {
        request_header::<T>() + <(i32, (String, T))>::wire(m)
    }

    /// A request with another API key, or another API version, is refused.
    open spec fn parse(input: Seq<u8>) -> Result<((i32, (Seq<char>, T::Model)), int), ErrorKind> {
        match <i16 as KafkaSerializable>::parse(input) {
            Err(e) => Err(e),
            Ok((key, _)) => if key != T::spec_api_key() {
                Err(ErrorKind::MalformedPayload)
            } else {
                match <i16 as KafkaSerializable>::parse(input.skip(2)) {
                    Err(e) => Err(e),
                    Ok((version, _)) => if version != API_VERSION {
                        Err(ErrorKind::MalformedPayload)
                    } else {
                        match <(i32, (String, T))>::parse(input.skip(4)) {
                            Err(e) => Err(e),
                            Ok((m, k)) => Ok((m, 4 + k)),
                        }
                    },
                }
            },
        }
    }

    proof fn lemma_valid_len(m: (i32, (Seq<char>, T::Model))) {
    }

    proof fn lemma_parse_len(input: Seq<u8>) {
        <(i32, (String, T))>::lemma_parse_len(input.skip(4));
    }

    proof fn lemma_parse_extend(input: Seq<u8>, extra: Seq<u8>) {
        <i16 as KafkaSerializable>::lemma_parse_extend(input, extra);
        assert((input + extra).skip(2) =~= input.skip(2) + extra);
        <i16 as KafkaSerializable>::lemma_parse_extend(input.skip(2), extra);
        assert((input + extra).skip(4) =~= input.skip(4) + extra);
        <(i32, (String, T))>::lemma_parse_extend(input.skip(4), extra);
    }

    proof fn lemma_round_trip(m: (i32, (Seq<char>, T::Model)), rest: Seq<u8>) {
        let key = i16_to_be(T::spec_api_key());
        let version = i16_to_be(API_VERSION);
        let body = <(i32, (String, T))>::wire(m);
        let input = Self::wire(m) + rest;
        assert(input =~= key + (version + body + rest));
        <i16 as KafkaSerializable>::lemma_round_trip(T::spec_api_key(), version + body + rest);
        assert(input.skip(2) =~= version + (body + rest));
        <i16 as KafkaSerializable>::lemma_round_trip(API_VERSION, body + rest);
        assert(input.skip(4) =~= body + rest);
        <(i32, (String, T))>::lemma_round_trip(m, rest);
    }

    fn encode(&self, writer: &mut Vec<u8>) {
        T::api_key(None).encode(writer);
        API_VERSION.encode(writer);
        self.correlation_id.encode(writer);
        self.client_id.encode(writer);
        self.request_message.encode(writer);
        assert(writer@ =~= old(writer)@ + Self::wire(self.model()));
    }

    fn decode(reader: &mut Reader) -> (r: Result<RequestMessage<T>, KafkaError>) {
        let ghost before = *reader;
        let key = match i16::decode(reader) {
            Ok(key) => key,
            Err(e) => return Err(e),
        };
        if key != T::api_key(None) {
            return Err(KafkaError::from_error(ErrorKind::MalformedPayload, "request carries another API key"));
        }
        proof {
            Reader::lemma_advance(before, *reader, 2);
        }
        let version = match i16::decode(reader) {
            Ok(version) => version,
            Err(e) => return Err(e),
        };
        if version != API_VERSION {
            return Err(KafkaError::from_error(ErrorKind::MalformedPayload, "unsupported API version"));
        }
        proof {
            Reader::lemma_advance(before, *reader, 4);
            assert(before.remaining().skip(2).skip(2) =~= before.remaining().skip(4));
        }
        match <(i32, (String, T))>::decode(reader) {
            Ok((correlation_id, (client_id, request_message))) => Ok(
                RequestMessage { correlation_id, client_id, request_message },
            ),
            Err(e) => Err(e),
        }
    }

    fn size(&self) -> (r: i32) {
        2 + 2 + 4 + self.client_id.size() + self.request_message.size()
    }

    fn is_encodable(&self) -> (r: bool) {
        self.client_id.is_encodable() && self.request_message.is_encodable() && 8
            + self.client_id.size() as i64 + self.request_message.size() as i64 <= i32::MAX as i64
    }
}

/// A response as received: the correlation id of the request it answers, then the body.
#[derive(PartialEq, Eq, Debug)]
pub struct ResponseMessage<T: Response> {
    pub correlation_id: i32,
    pub response: T,
}

impl<T: Response> KafkaSerializable for ResponseMessage<T> {
    type Model = (i32, T::Model);

    open spec fn model(&self) -> (i32, T::Model) {
        (self.correlation_id, self.response.model())
    }

    open spec fn valid(m: (i32, T::Model)) -> bool {
        <(i32, T)>::valid(m)
    }

    /// The correlation id, then the body.
    open spec fn wire(m: (i32, T::Model)) -> Seq<u8> {
        <(i32, T)>::wire(m)
    }

    open spec fn parse(input: Seq<u8>) -> Result<((i32, T::Model), int), ErrorKind> {
        <(i32, T)>::parse(input)
    }

    proof fn lemma_valid_len(m: (i32, T::Model)) {
    }

    proof fn lemma_parse_len(input: Seq<u8>) {
        <(i32, T)>::lemma_parse_len(input);
    }

    proof fn lemma_parse_extend(input: Seq<u8>, extra: Seq<u8>) {
        <(i32, T)>::lemma_parse_extend(input, extra);
    }

    proof fn lemma_round_trip(m: (i32, T::Model), rest: Seq<u8>) {
        <(i32, T)>::lemma_round_trip(m, rest);
    }

    fn encode(&self, writer: &mut Vec<u8>) {
        self.correlation_id.encode(writer);
        self.response.encode(writer);
        assert(writer@ =~= old(writer)@ + Self::wire(self.model()));
    }

    fn decode(reader: &mut Reader) -> (r: Result<ResponseMessage<T>, KafkaError>) {
        match <(i32, T)>::decode(reader) {
            Ok((correlation_id, response)) => Ok(ResponseMessage { correlation_id, response }),
            Err(e) => Err(e),
        }
    }

    fn size(&self) -> (r: i32) {
        4 + self.response.size()
    }

    fn is_encodable(&self) -> (r: bool) {
        self.response.is_encodable() && self.response.size() <= i32::MAX - 4
    }
}

/// The envelopes that travel on their own over the transport.
pub trait IsRequestOrResponse: KafkaSerializable {

}

impl<T: Request> IsRequestOrResponse for RequestMessage<T> {

}

impl<T: Response> IsRequestOrResponse for ResponseMessage<T> {

}

/// The unit placed on the transport: an envelope framed by its byte length.
#[derive(PartialEq, Eq, Debug)]
pub struct RequestOrResponse<T: IsRequestOrResponse>(pub T);

impl<T: IsRequestOrResponse> KafkaSerializable for RequestOrResponse<T> {
    type Model = T::Model;

    open spec fn model(&self) -> T::Model {
        self.0.model()
    }

    open spec fn valid(m: T::Model) -> bool {
        frame_fits::<T>(m)
    }

    open spec fn wire(m: T::Model) -> Seq<u8> {
        frame_wire::<T>(m)
    }

    open spec fn parse(input: Seq<u8>) -> Result<(T::Model, int), ErrorKind> {
        parse_frame::<T>(input)
    }

    proof fn lemma_valid_len(m: T::Model) {
    }

    proof fn lemma_parse_len(input: Seq<u8>) {
    }

    proof fn lemma_parse_extend(input: Seq<u8>, extra: Seq<u8>) {
        lemma_frame_extend::<T>(input, extra);
    }

    proof fn lemma_round_trip(m: T::Model, rest: Seq<u8>) {
        lemma_frame_round_trip::<T>(m, rest);
    }

    fn encode(&self, writer: &mut Vec<u8>) {
        encode_frame(&self.0, writer);
    }

    fn decode(reader: &mut Reader) -> (r: Result<RequestOrResponse<T>, KafkaError>) {
        match decode_frame(reader) {
            Ok(v) => Ok(RequestOrResponse(v)),
            Err(e) => Err(e),
        }
    }

    fn size(&self) -> (r: i32) {
        4 + self.0.size()
    }

    fn is_encodable(&self) -> (r: bool) {
        frame_encodable(&self.0)
    }
}

} // verus!

verus! {

/// A request whose API key is not that of the expected type, or whose API version is
/// not the supported one, is refused, whatever follows the header.
pub proof fn request_header_checked<T: Request>(key: i16, version: i16, rest: Seq<u8>)
    requires
        key != T::spec_api_key() || version != API_VERSION,
    ensures
        <RequestMessage<T>>::parse(i16_to_be(key) + i16_to_be(version) + rest) == Err::<
            ((i32, (Seq<char>, T::Model)), int),
            ErrorKind,
        >(ErrorKind::MalformedPayload),
{
    let input = i16_to_be(key) + i16_to_be(version) + rest;
    <i16 as KafkaSerializable>::lemma_round_trip(key, i16_to_be(version) + rest);
    assert(input =~= i16_to_be(key) + (i16_to_be(version) + rest));
    <i16 as KafkaSerializable>::lemma_round_trip(version, rest);
    assert(input.skip(2) =~= i16_to_be(version) + rest);
}

} // verus!
