//! The codec, exercised byte for byte: serializers, deserializers,
//! and the byte-level helpers.
use rust_redis::resp::deserialize::{
    deserialize_array, deserialize_bulk_string, deserialize_integer, deserialize_simple_error,
    deserialize_simple_string,
};
use rust_redis::resp::errors::DeserializeError;
use rust_redis::resp::helpers::{check_prefix, find_crlf, parse_resp_item_len};
use rust_redis::resp::serialize::{
    serialize_array, serialize_bulk_string, serialize_integer, serialize_simple_error,
    serialize_simple_string,
};
use rust_redis::resp::string::{
    deserialize_resp_array, deserialize_resp_bulk_string, deserialize_resp_simple_string,
    serialize_resp_array, serialize_resp_bulk_string, serialize_resp_simple_string,
};
use rust_redis::resp::{Resp, BULK_STRING_PREFIX, SIMPLE_ERROR_PREFIX};

const INPUT: &[u8] = b"$5\r\nhello\r\n";

#[test]
fn serialize_should_serialize_bulk_string() {
    const EXPECT: &[u8] = b"$5\r\nhello\r\n";
    const INPUT: &[u8] = b"hello";
    let result = serialize_bulk_string(INPUT).unwrap();
    assert_eq!(result, EXPECT)
}

#[test]
fn serialize_should_serialize_simple_string() {
    const EXPECT: &[u8] = b"+hello\r\n";
    const INPUT: &[u8] = b"hello";
    let result = serialize_simple_string(INPUT).unwrap();
    assert_eq!(result, EXPECT)
}

#[test]
fn serialize_should_serialize_array() {
    const EXPECT: &[u8] = b"*2\r\n$5\r\nhello\r\n$5\r\nworld\r\n";
    let input = vec![
        Resp::BulkString(b"hello".to_vec()),
        Resp::BulkString(b"world".to_vec()),
    ];
    let result = serialize_array(input).unwrap();
    assert_eq!(result, EXPECT)
}

#[test]
fn should_serialize_error() {
    const EXPECT: &[u8] = b"-WRONGTYPE Operation against a key holding the wrong kind of value\r\n";
    const INPUT: &[u8] = b"WRONGTYPE Operation against a key holding the wrong kind of value";
    let result = serialize_simple_error(INPUT);
    assert_eq!(result.unwrap(), EXPECT)
}

#[test]
fn should_serialize_integer() {
    const INPUT: i64 = 1000;
    const EXPECT: &[u8] = b":1000\r\n";
    let result = serialize_integer(INPUT);
    assert_eq!(result.unwrap(), EXPECT)
}

#[test]
fn should_serialize_negative_integer() {
    const INPUT: i64 = -1000;
    const EXPECT: &[u8] = b":-1000\r\n";
    let result = serialize_integer(INPUT);
    assert_eq!(result.unwrap(), EXPECT)
}

#[test]
fn deserialize_should_deserialize_bulk_string() {
    const INPUT: &[u8] = b"$5\r\nhello\r\n";
    const EXPECT: &[u8] = b"hello";
    let result = deserialize_bulk_string(INPUT).unwrap();
    assert_eq!(result, Resp::BulkString(EXPECT.to_owned()))
}

#[test]
fn deserialize_should_deserilaize_simple_string() {
    const INPUT: &[u8] = b"+hello\r\n";
    const EXPECT: &[u8] = b"hello";
    let result = deserialize_simple_string(INPUT).unwrap();
    assert_eq!(result, Resp::SimpleString(EXPECT.to_owned()))
}

#[test]
fn should_deserialize_simple_error() {
    const EXPECT: &[u8] = b"WRONGTYPE Operation against a key holding the wrong kind of value";
    const INPUT: &[u8] = b"-WRONGTYPE Operation against a key holding the wrong kind of value\r\n";
    let result: Result<Resp, DeserializeError> = deserialize_simple_error(INPUT);
    assert_eq!(result.unwrap(), Resp::SimpleError(EXPECT.to_owned()))
}

#[test]
fn deserialize_should_deserialize_array() {
    const INPUT: &[u8] = b"*2\r\n$5\r\nhello\r\n$5\r\nworld\r\n";
    let expect = vec![
        Resp::BulkString(b"hello".to_vec()),
        Resp::BulkString(b"world".to_vec()),
    ];
    let result = deserialize_array(INPUT);
    assert_eq!(result.unwrap(), Resp::Array(expect))
}

#[test]
fn deserialize_should_deserialize_multi_type_array() {
    const INPUT: &[u8] = b"*3\r\n$5\r\nhello\r\n$5\r\nworld\r\n+PONG\r\n";
    let expect = vec![
        Resp::BulkString(b"hello".to_vec()),
        Resp::BulkString(b"world".to_vec()),
        Resp::SimpleString(b"PONG".to_vec()),
    ];
    let result = deserialize_array(INPUT);
    assert_eq!(result.unwrap(), Resp::Array(expect))
}

#[test]
fn deserialize_should_deserialize_nested_array() {
    const INPUT: &[u8] = b"*1\r\n*3\r\n$5\r\nhello\r\n$5\r\nworld\r\n+PONG\r\n";
    let expect = vec![Resp::Array(vec![
        Resp::BulkString(b"hello".to_vec()),
        Resp::BulkString(b"world".to_vec()),
        Resp::SimpleString(b"PONG".to_vec()),
    ])];
    let result = deserialize_array(INPUT);
    assert_eq!(result.unwrap(), Resp::Array(expect))
}

#[test]
fn deserialize_should_deserialize_nested_array_with_multiple_types() {
    const INPUT: &[u8] =
        b"*4\r\n$5\r\nhello\r\n$5\r\nworld\r\n+PONG\r\n*3\r\n$5\r\nhello\r\n$5\r\nworld\r\n+PONG\r\n";
    let expect = vec![
        Resp::BulkString(b"hello".to_vec()),
        Resp::BulkString(b"world".to_vec()),
        Resp::SimpleString(b"PONG".to_vec()),
        Resp::Array(vec![
            Resp::BulkString(b"hello".to_vec()),
            Resp::BulkString(b"world".to_vec()),
            Resp::SimpleString(b"PONG".to_vec()),
        ]),
    ];
    let result = deserialize_array(INPUT);
    assert_eq!(result.unwrap(), Resp::Array(expect))
}

#[test]
fn deserialize_should_deserialize_nested_array_with_nested_in_the_middle() {
    const INPUT: &[u8] = b"*6\r\n$5\r\nhello\r\n$5\r\nworld\r\n+PONG\r\n*3\r\n$5\r\nhello\r\n$5\r\nworld\r\n+PONG\r\n$5\r\nhello\r\n$5\r\nworld\r\n";
    let expect = vec![
        Resp::BulkString(b"hello".to_vec()),
        Resp::BulkString(b"world".to_vec()),
        Resp::SimpleString(b"PONG".to_vec()),
        Resp::Array(vec![
            Resp::BulkString(b"hello".to_vec()),
            Resp::BulkString(b"world".to_vec()),
            Resp::SimpleString(b"PONG".to_vec()),
        ]),
        Resp::BulkString(b"hello".to_vec()),
        Resp::BulkString(b"world".to_vec()),
    ];
    let result = deserialize_array(INPUT);
    assert_eq!(result.unwrap(), Resp::Array(expect))
}

#[test]
fn should_deserialize_integer() {
    const INPUT: &[u8] = b":1000\r\n";
    const EXPECT: i64 = 1000;
    let result: Result<Resp, DeserializeError> = deserialize_integer(INPUT);
    assert_eq!(result.unwrap(), Resp::Integers(EXPECT))
}

#[test]
fn should_deserialize_negative_integer() {
    const INPUT: &[u8] = b":-1000\r\n";
    const EXPECT: i64 = -1000;
    let result: Result<Resp, DeserializeError> = deserialize_integer(INPUT);
    assert_eq!(result.unwrap(), Resp::Integers(EXPECT))
}

#[test]
fn should_deserialize_bulk_string_with_space() {
    const INPUT: &str = "$10\r\nCONFIG GET\r\n";
    const EXPECT: &[u8] = b"CONFIG GET";

    let result = deserialize_bulk_string(INPUT.as_bytes());
    assert_eq!(result.unwrap(), Resp::BulkString(EXPECT.to_owned()))
}

#[test]
fn check_prefix_is_ok() {
    assert!(check_prefix(INPUT, BULK_STRING_PREFIX).is_ok())
}

#[test]
fn check_prefix_error() {
    assert_eq!(
        check_prefix(INPUT, SIMPLE_ERROR_PREFIX).unwrap_err(),
        DeserializeError::InvalidPrefix
    )
}

#[test]
fn should_parse_length() {
    assert_eq!(parse_resp_item_len(&INPUT[1..2]).unwrap(), 5)
}

#[test]
fn parse_length_error() {
    assert_eq!(
        parse_resp_item_len(INPUT).unwrap_err(),
        DeserializeError::InvalidLength
    )
}

#[test]
fn should_find_crlf() {
    assert_eq!(find_crlf(INPUT).unwrap(), 2)
}

#[test]
fn find_crlf_error() {
    assert_eq!(
        find_crlf(b"flsqfklsd").unwrap_err(),
        DeserializeError::InvalidCRLF
    )
}

#[test]
fn should_round_trip_nested_value() {
    let value = Resp::Array(vec![
        Resp::BulkString(b"a\r\nb".to_vec()),
        Resp::Integers(i64::MIN),
        Resp::NullBulkString,
        Resp::Array(vec![Resp::SimpleString(b"fine".to_vec())]),
    ]);
    let encoded = Resp::Array(vec![
        Resp::BulkString(b"a\r\nb".to_vec()),
        Resp::Integers(i64::MIN),
        Resp::NullBulkString,
        Resp::Array(vec![Resp::SimpleString(b"fine".to_vec())]),
    ])
    .serialize()
    .unwrap();
    let parsed = Resp::deserialize(&encoded).unwrap();
    assert_eq!(parsed, value);
    assert_eq!(parsed.size(), encoded.len());
}

#[test]
fn should_reject_non_utf8_simple_string() {
    assert_eq!(
        deserialize_simple_string(b"+a\xffb\r\n").unwrap_err(),
        DeserializeError::InvalidUtf8
    );
    assert!(serialize_simple_string(b"a\xffb").is_err());
}

#[test]
fn should_reject_bad_integer_text() {
    assert_eq!(
        deserialize_integer(b":12a\r\n").unwrap_err(),
        DeserializeError::InvalidInteger
    );
    assert_eq!(
        deserialize_integer(b":+5\r\n").unwrap_err(),
        DeserializeError::InvalidInteger
    );
}

#[test]
fn should_reject_missing_terminator() {
    assert_eq!(
        deserialize_simple_string(b"+abc").unwrap_err(),
        DeserializeError::InvalidCRLF
    );
    assert_eq!(
        deserialize_bulk_string(b"$5\r\nhel").unwrap_err(),
        DeserializeError::InvalidCRLF
    );
}

#[test]
fn should_deserialize_null_bulk_string() {
    assert_eq!(
        deserialize_bulk_string(b"$-1\r\n").unwrap(),
        Resp::NullBulkString
    );
    assert_eq!(
        Resp::NullBulkString.serialize().unwrap(),
        b"$-1\r\n".to_vec()
    );
}

#[test]
fn size_matches_encoding_for_samples() {
    let samples = vec![
        Resp::SimpleString(b"OK".to_vec()),
        Resp::SimpleError(b"ERR x".to_vec()),
        Resp::BulkString(b"0123456789".to_vec()),
        Resp::NullBulkString,
        Resp::Integers(-7),
        Resp::Integers(0),
        Resp::Array(vec![Resp::Integers(12), Resp::BulkString(vec![])]),
    ];
    for v in samples {
        let size = v.size();
        let bytes = v.serialize().unwrap();
        assert_eq!(size, bytes.len());
    }
}

#[test]
fn as_str_reads_string_payloads() {
    assert_eq!(Resp::BulkString(b"hi".to_vec()).as_str().unwrap(), "hi");
    assert_eq!(Resp::SimpleString(b"PONG".to_vec()).as_str().unwrap(), "PONG");
    assert!(Resp::Integers(3).as_str().is_err());
}

#[test]
fn string_should_deserialize_array() {
    const INPUT: &[u8] = b"*2\r\n$5\r\nhello\r\n$5\r\nworld\r\n";
    let expect = vec![
        Resp::BulkString(b"hello".to_vec()),
        Resp::BulkString(b"world".to_vec()),
    ];
    let result = deserialize_resp_array(INPUT);
    assert_eq!(result.unwrap(), Resp::Array(expect))
}

#[test]
fn string_should_deserialize_multi_type_array() {
    const INPUT: &[u8] = b"*3\r\n$5\r\nhello\r\n$5\r\nworld\r\n+PONG\r\n";
    let expect = vec![
        Resp::BulkString(b"hello".to_vec()),
        Resp::BulkString(b"world".to_vec()),
        Resp::SimpleString(b"PONG".to_vec()),
    ];
    let result = deserialize_resp_array(INPUT);
    assert_eq!(result.unwrap(), Resp::Array(expect))
}

#[test]
fn string_should_deserialize_nested_array() {
    const INPUT: &[u8] = b"*1\r\n*3\r\n$5\r\nhello\r\n$5\r\nworld\r\n+PONG\r\n";
    let expect = vec![Resp::Array(vec![
        Resp::BulkString(b"hello".to_vec()),
        Resp::BulkString(b"world".to_vec()),
        Resp::SimpleString(b"PONG".to_vec()),
    ])];
    let result = deserialize_resp_array(INPUT);
    assert_eq!(result.unwrap(), Resp::Array(expect))
}

#[test]
fn string_should_deserialize_nested_array_with_multiple_types() {
    const INPUT: &[u8] =
        b"*4\r\n$5\r\nhello\r\n$5\r\nworld\r\n+PONG\r\n*3\r\n$5\r\nhello\r\n$5\r\nworld\r\n+PONG\r\n";
    let expect = vec![
        Resp::BulkString(b"hello".to_vec()),
        Resp::BulkString(b"world".to_vec()),
        Resp::SimpleString(b"PONG".to_vec()),
        Resp::Array(vec![
            Resp::BulkString(b"hello".to_vec()),
            Resp::BulkString(b"world".to_vec()),
            Resp::SimpleString(b"PONG".to_vec()),
        ]),
    ];
    let result = deserialize_resp_array(INPUT);
    assert_eq!(result.unwrap(), Resp::Array(expect))
}

#[test]
fn string_should_deserialize_nested_array_with_nested_in_the_middle() {
    const INPUT: &[u8] = b"*6\r\n$5\r\nhello\r\n$5\r\nworld\r\n+PONG\r\n*3\r\n$5\r\nhello\r\n$5\r\nworld\r\n+PONG\r\n$5\r\nhello\r\n$5\r\nworld\r\n";
    let expect = vec![
        Resp::BulkString(b"hello".to_vec()),
        Resp::BulkString(b"world".to_vec()),
        Resp::SimpleString(b"PONG".to_vec()),
        Resp::Array(vec![
            Resp::BulkString(b"hello".to_vec()),
            Resp::BulkString(b"world".to_vec()),
            Resp::SimpleString(b"PONG".to_vec()),
        ]),
        Resp::BulkString(b"hello".to_vec()),
        Resp::BulkString(b"world".to_vec()),
    ];
    let result = deserialize_resp_array(INPUT);
    assert_eq!(result.unwrap(), Resp::Array(expect))
}

#[test]
fn string_should_serialize_bulk_string() {
    const EXPECT: &[u8] = b"$5\r\nhello\r\n";
    const INPUT: &[u8] = b"hello";
    let result = serialize_resp_bulk_string(INPUT).unwrap();
    assert_eq!(result, EXPECT)
}

#[test]
fn string_should_deserialize_bulk_string() {
    const INPUT: &[u8] = b"$5\r\nhello\r\n";
    const EXPECT: &[u8] = b"hello";
    let result = deserialize_resp_bulk_string(INPUT).unwrap();
    assert_eq!(result, Resp::BulkString(EXPECT.to_owned()))
}

#[test]
fn string_should_serialize_simple_string() {
    const EXPECT: &[u8] = b"+hello\r\n";
    const INPUT: &[u8] = b"hello";
    let result = serialize_resp_simple_string(INPUT).unwrap();
    assert_eq!(result, EXPECT)
}

#[test]
fn string_should_deserilaize_simple_string() {
    const INPUT: &[u8] = b"+hello\r\n";
    const EXPECT: &[u8] = b"hello";
    let result = deserialize_resp_simple_string(INPUT).unwrap();
    assert_eq!(result, Resp::SimpleString(EXPECT.to_owned()))
}

#[test]
fn string_should_serialize_array() {
    const EXPECT: &[u8] = b"*2\r\n$5\r\nhello\r\n$5\r\nworld\r\n";
    let input = vec![
        Resp::BulkString(b"hello".to_vec()),
        Resp::BulkString(b"world".to_vec()),
    ];
    let result = serialize_resp_array(input).unwrap();
    assert_eq!(result, EXPECT)
}
