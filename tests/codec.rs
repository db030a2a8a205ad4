use std::fmt::Debug;

use kafka::messages::{Broker, MetadataResponse, PartitionMetadata, TopicMetadata};
use kafka::{
    Error, ErrorKind, KafkaError, KafkaSerializable, MetadataRequest, Reader, RequestMessage,
    RequestOrResponse, ResponseMessage, WithSize,
};

fn encoded<T: KafkaSerializable>(value: &T) -> Vec<u8> {
    let mut writer: Vec<u8> = Vec::new();
    value.encode(&mut writer);
    writer
}

fn decoded<T: KafkaSerializable>(bytes: Vec<u8>) -> (Result<T, KafkaError>, Reader) {
    let mut reader = Reader::new(bytes);
    let result = T::decode(&mut reader);
    (result, reader)
}

fn round_trip<T: KafkaSerializable + PartialEq + Debug>(value: T) {
    let bytes = encoded(&value);
    assert_eq!(bytes.len() as i32, value.size());
    let (result, reader) = decoded::<T>(bytes);
    assert!(reader.eof());
    assert_eq!(result.unwrap(), value);
}

fn error_kind<T: KafkaSerializable + Debug>(bytes: Vec<u8>) -> ErrorKind {
    let (result, _) = decoded::<T>(bytes);
    result.unwrap_err().kind
}

fn metadata_request_bytes() -> Vec<u8> {
    vec![
        0, 0, 0, 26, 0, 3, 0, 0, 0, 0, 0, 0, 0, 6, b'C', b'l', b'i', b'e', b'n', b't', 0, 0, 0, 1, 0, 4,
        b't', b'e', b's', b't',
    ]
}

#[test]
fn decode_full_metadata_request() {
    let (result, reader) = decoded::<RequestOrResponse<RequestMessage<MetadataRequest>>>(metadata_request_bytes());
    assert!(reader.eof());
    let expected = RequestOrResponse(RequestMessage {
        correlation_id: 0,
        client_id: String::from("Client"),
        request_message: MetadataRequest { topic_names: vec![String::from("test")] },
    });
    assert_eq!(result.unwrap(), expected);
    assert_eq!(expected.size(), 30);
}

#[test]
fn error_code_resolution() {
    assert_eq!(Error::from_i64(0), Some(Error::NoError));
    assert_eq!(Error::from_i64(-1), Some(Error::Unknown));
    assert_eq!(Error::from_i64(13), None);
    assert_eq!(Error::from_i64(20), None);
    assert_eq!(Error::from_i64(-2), None);
    assert_eq!(Error::from_i64(16), Some(Error::NotCoordinatorForConsumerCode));
    assert_eq!(Error::from_i64(14), Some(Error::OffsetsLoadInProgressCode));
    assert_eq!(Error::OffsetsLoadInProgressCode.code(), 14);
    assert_eq!(Error::Unknown.code(), -1);
    for n in -5..30i64 {
        if let Some(e) = Error::from_i64(n) {
            assert_eq!(e.code() as i64, n);
        }
    }
}

#[test]
fn integer_layouts_are_big_endian() {
    assert_eq!(encoded(&-1i8), vec![0xff]);
    assert_eq!(encoded(&0x0102i16), vec![1, 2]);
    assert_eq!(encoded(&-2i32), vec![0xff, 0xff, 0xff, 0xfe]);
    assert_eq!(encoded(&0x0102030405060708i64), vec![1, 2, 3, 4, 5, 6, 7, 8]);
    let (v, _) = decoded::<i32>(vec![0x80, 0, 0, 0]);
    assert_eq!(v.unwrap(), i32::MIN);
    let (v, _) = decoded::<i64>(vec![0x7f, 0xff, 0xff, 0xff, 0xff, 0xff, 0xff, 0xff]);
    assert_eq!(v.unwrap(), i64::MAX);
    round_trip(i16::MIN);
    round_trip(i32::MAX);
    round_trip(i64::MIN);
}

#[test]
fn short_input_is_truncated() {
    assert_eq!(error_kind::<i8>(vec![]), ErrorKind::Truncated);
    assert_eq!(error_kind::<i32>(vec![0, 0, 0]), ErrorKind::Truncated);
    assert_eq!(error_kind::<i64>(vec![0; 7]), ErrorKind::Truncated);
    assert_eq!(error_kind::<String>(vec![0, 5, b'a', b'b', b'c']), ErrorKind::Truncated);
    assert_eq!(error_kind::<Vec<u8>>(vec![0, 0, 0, 4, 1, 2, 3]), ErrorKind::Truncated);
    assert_eq!(error_kind::<Vec<i16>>(vec![0, 0, 0, 2, 0, 1, 0]), ErrorKind::Truncated);
}

#[test]
fn string_layout_counts_utf8_bytes() {
    let text = String::from("h\u{e9}llo");
    let bytes = encoded(&text);
    assert_eq!(bytes, vec![0, 6, b'h', 0xc3, 0xa9, b'l', b'l', b'o']);
    assert_eq!(text.size(), 8);
    round_trip(text);
    round_trip(String::new());
}

#[test]
fn invalid_utf8_is_malformed() {
    assert_eq!(error_kind::<String>(vec![0, 2, 0xc3, 0x28]), ErrorKind::MalformedPayload);
    assert_eq!(error_kind::<Option<String>>(vec![0, 1, 0xff]), ErrorKind::MalformedPayload);
}

#[test]
fn negative_lengths_are_malformed() {
    assert_eq!(error_kind::<String>(vec![0xff, 0xff]), ErrorKind::MalformedPayload);
    assert_eq!(error_kind::<Vec<u8>>(vec![0xff, 0xff, 0xff, 0xff]), ErrorKind::MalformedPayload);
    assert_eq!(error_kind::<Vec<i32>>(vec![0xff, 0xff, 0xff, 0xff]), ErrorKind::MalformedPayload);
    assert_eq!(error_kind::<WithSize<i8>>(vec![0xff, 0xff, 0xff, 0xff, 0]), ErrorKind::MalformedPayload);
}

#[test]
fn optional_string_sentinels() {
    let (absent, reader) = decoded::<Option<String>>(vec![0xff, 0xff]);
    assert_eq!(absent.unwrap(), None);
    assert!(reader.eof());
    let (empty, reader) = decoded::<Option<String>>(vec![0, 0]);
    assert_eq!(empty.unwrap(), Some(String::new()));
    assert!(reader.eof());
    assert_eq!(error_kind::<Option<String>>(vec![0xff, 0xfe]), ErrorKind::MalformedPayload);
    assert_eq!(error_kind::<Option<String>>(vec![0x80, 0x00]), ErrorKind::MalformedPayload);
    assert_eq!(encoded(&None::<String>), vec![0xff, 0xff]);
    assert_eq!(encoded(&Some(String::new())), vec![0, 0]);
    round_trip(Some(String::new()));
}

#[test]
fn optional_bytes_sentinels() {
    let (absent, reader) = decoded::<Option<Vec<u8>>>(vec![0xff, 0xff, 0xff, 0xff]);
    assert_eq!(absent.unwrap(), None);
    assert!(reader.eof());
    let (empty, reader) = decoded::<Option<Vec<u8>>>(vec![0, 0, 0, 0]);
    assert_eq!(empty.unwrap(), Some(Vec::new()));
    assert!(reader.eof());
    assert_eq!(error_kind::<Option<Vec<u8>>>(vec![0xff, 0xff, 0xff, 0xfe]), ErrorKind::MalformedPayload);
    assert_eq!(encoded(&None::<Vec<u8>>), vec![0xff, 0xff, 0xff, 0xff]);
    assert_eq!(None::<Vec<u8>>.size(), 4);
    round_trip(Some(Vec::<u8>::new()));
}

#[test]
fn sequence_sizes_match_encodings() {
    round_trip(Vec::<i32>::new());
    round_trip(vec![7i64]);
    round_trip(vec![String::from("a"), String::new(), String::from("bcd")]);
    round_trip(vec![vec![1i8, 2], vec![], vec![3]]);
    assert_eq!(encoded(&Vec::<i32>::new()), vec![0, 0, 0, 0]);
    assert_eq!(vec![1i16, 2, 3].size(), 10);
}

#[test]
fn frame_length_one_more_fails() {
    let frame = WithSize(vec![1u8, 2, 3]);
    let mut bytes = encoded(&frame);
    assert_eq!(bytes, vec![0, 0, 0, 7, 0, 0, 0, 3, 1, 2, 3]);
    bytes[3] = 8;
    assert_eq!(error_kind::<WithSize<Vec<u8>>>(bytes.clone()), ErrorKind::Truncated);
    bytes.push(9);
    assert_eq!(error_kind::<WithSize<Vec<u8>>>(bytes), ErrorKind::MalformedPayload);
}

#[test]
fn frame_length_one_less_fails() {
    let mut bytes = encoded(&WithSize(vec![1u8, 2, 3]));
    bytes[3] = 6;
    assert_eq!(error_kind::<WithSize<Vec<u8>>>(bytes.clone()), ErrorKind::Truncated);
    let mut bytes = encoded(&WithSize(5i32));
    bytes[3] = 3;
    assert_eq!(error_kind::<WithSize<i32>>(bytes), ErrorKind::Truncated);
}

#[test]
fn frame_leaves_following_bytes() {
    let mut bytes = encoded(&WithSize(vec![1u8, 2]));
    bytes.extend_from_slice(&[0, 5]);
    let mut reader = Reader::new(bytes);
    let first = WithSize::<Vec<u8>>::decode(&mut reader).unwrap();
    assert_eq!(first, WithSize(vec![1u8, 2]));
    assert_eq!(reader.remaining_len(), 2);
    assert_eq!(i16::decode(&mut reader).unwrap(), 5);
    assert!(reader.eof());
}

#[test]
fn nested_frames_round_trip() {
    round_trip(WithSize(WithSize(vec![Some(vec![1u8]), None])));
    round_trip(vec![WithSize(String::from("x")), WithSize(String::new())]);
    assert_eq!(WithSize(WithSize(1i8)).size(), 9);
}

#[test]
fn request_with_wrong_api_key_fails() {
    let mut bytes = metadata_request_bytes();
    bytes[5] = 4;
    assert_eq!(
        error_kind::<RequestOrResponse<RequestMessage<MetadataRequest>>>(bytes),
        ErrorKind::MalformedPayload
    );
}

#[test]
fn request_with_wrong_api_version_fails() {
    let mut bytes = metadata_request_bytes();
    bytes[7] = 1;
    assert_eq!(
        error_kind::<RequestOrResponse<RequestMessage<MetadataRequest>>>(bytes),
        ErrorKind::MalformedPayload
    );
}

#[test]
fn metadata_response_round_trips() {
    let response = RequestOrResponse(ResponseMessage {
        correlation_id: 7,
        response: MetadataResponse {
            brokers: vec![Broker { node_id: 1, host: String::from("localhost"), port: 9092 }],
            topics: vec![TopicMetadata {
                error_code: 0,
                name: String::from("test"),
                partitions: vec![PartitionMetadata {
                    error_code: 0,
                    partition: 0,
                    leader: 1,
                    replicas: vec![1, 2],
                    isr: vec![1],
                }],
            }],
        },
    });
    let bytes = encoded(&response);
    assert_eq!(&bytes[..8], &[0, 0, 0, 73, 0, 0, 0, 7]);
    assert_eq!(bytes.len(), 77);
    round_trip(response);
}

#[test]
fn kafka_error_accessors() {
    let e = KafkaError::from_error(ErrorKind::Truncated, "short");
    assert_eq!(e.kind, ErrorKind::Truncated);
    assert_eq!(e.description(), "short");
    assert_eq!(e.detail(), None);
    let io = KafkaError::from_io_failure(String::from("connection reset"));
    assert_eq!(io.kind, ErrorKind::InternalIoError);
    assert_eq!(io.detail(), Some(String::from("connection reset")));
}

#[test]
fn reader_tracks_what_is_left() {
    let mut reader = Reader::new(vec![1, 2, 3, 4, 5]);
    assert_eq!(reader.remaining_len(), 5);
    assert_eq!(reader.read_bytes(2).unwrap(), vec![1, 2]);
    assert_eq!(reader.remaining_len(), 3);
    let saved = reader.limit_to(1);
    assert_eq!(reader.read_bytes(2).unwrap_err().kind, ErrorKind::Truncated);
    assert_eq!(reader.read_bytes(1).unwrap(), vec![3]);
    assert!(reader.eof());
    reader.restore_limit(saved);
    assert_eq!(reader.remaining_len(), 2);
}

#[test]
fn encodable_limits() {
    assert!("a".repeat(32767).is_encodable());
    assert!(!"a".repeat(32768).is_encodable());
    assert!(!Some("a".repeat(32768)).is_encodable());
    assert!(None::<String>.is_encodable());
    assert!(!vec![String::from("ok"), "a".repeat(40000)].is_encodable());
    assert!(vec![String::from("ok"), "a".repeat(30000)].is_encodable());
    assert!(WithSize(vec![1u8, 2, 3]).is_encodable());
    let request = RequestMessage {
        correlation_id: 1,
        client_id: "c".repeat(32768),
        request_message: MetadataRequest { topic_names: vec![] },
    };
    assert!(!request.is_encodable());
    assert_eq!("a".repeat(32767).size(), 32769);
}
