use std::fmt::Debug;

use kafka::{Error, KafkaSerializable, MetadataRequest, Reader, RequestMessage, RequestOrResponse, WithSize};

fn write_read_test<T: KafkaSerializable + PartialEq + Debug>(input: T) {
    let mut writer: Vec<u8> = Vec::new();
    input.encode(&mut writer);
    assert_eq!(writer.len() as i32, input.size());
    let mut reader = Reader::new(writer);
    let result = T::decode(&mut reader).ok().unwrap();
    assert!(reader.eof());
    assert_eq!(input, result);
}

#[test]
fn test_fromprimitive() {
    for &(n, expected) in [(0, Some(Error::NoError)), (-1, Some(Error::Unknown)), (20, None)].iter() {
        let error: Option<Error> = Error::from_i64(n);
        assert_eq!(error, expected);
    }
}

#[test]
fn test_full_metadata_request() {
    let mut writer: Vec<u8> = Vec::new();

    let request = RequestOrResponse(RequestMessage {
        correlation_id: 0,
        client_id: String::from("Client"),
        request_message: MetadataRequest { topic_names: vec![String::from("test")] },
    });

    request.encode(&mut writer);

    let expected: [u8; 30] = [
        0x00, 0x00, 0x00, 26,
        0x00, 3, // ApiKey
        0x00, 0x00, // Api Version
        0x00, 0x00, 0x00, 0x00, // Correlation ID
        0x00, 6, 'C' as u8, 'l' as u8, 'i' as u8, 'e' as u8, 'n' as u8, 't' as u8,
        0x00, 0x00, 0x00, 1,
        0x00, 4, 't' as u8, 'e' as u8, 's' as u8, 't' as u8,
    ];

    assert_eq!(&expected[..], &writer[..]);
}

#[test]
fn test_i8() {
    for i in i8::MIN..i8::MAX {
        write_read_test(i);
    }
}

#[test]
fn test_i16() {
    for i in -10..10i16 {
        write_read_test(i);
    }
}

#[test]
fn test_i32() {
    for i in -10..10i32 {
        write_read_test(i);
    }
}

#[test]
fn test_i64() {
    for i in -10..10i64 {
        write_read_test(i);
    }
}

#[test]
fn test_string() {
    write_read_test(String::from("Interesting"));
}

#[test]
fn test_option_string() {
    write_read_test(Some(String::from("Interesting")));
    let none_test: Option<String> = None;
    write_read_test(none_test);
}

#[test]
fn test_vec() {
    write_read_test(vec![-1, 0, 1, 2, 3, 4, 5i16]);
}

#[test]
fn test_vec_u8() {
    write_read_test(vec![0, 1, 2, 3, 4, 5, 6, 7, 8, 9, 10u8]);
}

#[test]
fn test_option_vec_u8() {
    write_read_test(Some(vec![0, 1, 2, 3, 4, 5, 6, 7, 8, 9, 10u8]));
    let none_test: Option<Vec<u8>> = None;
    write_read_test(none_test);
}

#[test]
fn test_option_withsize() {
    write_read_test(WithSize(vec![0, 1, 2, 3, 4, 5, 6, 7, 8, 9, 10u8]));
}
