//! The flat, byte-level face of the codec: free functions over byte
//! slices, each a named entry to the same verified routines.
use vstd::prelude::*;

use crate::resp::errors::{DeserializeError, SerializeError};
use crate::resp::{deserialize, helpers, serialize, resp_view_items, Resp, RespData, spec_encode,
    utf8_ok_seq, BULK_STRING_PREFIX, SIMPLE_STRING_PREFIX};
use crate::resp::deserialize::{spec_parse_bulk, spec_parse_simple};
use crate::resp::helpers::{spec_find_crlf, spec_parse_len};

verus! {

/// Emits `+<payload>\r\n`; fails when the payload is not UTF-8.
pub fn serialize_resp_simple_string(simple_string: &[u8]) -> (r: Result<Vec<u8>, SerializeError>)
    ensures
        match r {
            Ok(b) => vstd::utf8::valid_utf8(simple_string@) && b@ == spec_encode(
                RespData::SimpleString(simple_string@),
            ),
            Err(e) => !vstd::utf8::valid_utf8(simple_string@) && e == SerializeError::InvalidUtf8,
        },
{
    serialize::serialize_simple_string(simple_string)
}

/// Reads one simple string: `+<payload>\r\n`.
pub fn deserialize_resp_simple_string(simple_string: &[u8]) -> (r: Result<Resp, DeserializeError>)
    requires
        simple_string@.len() >= 1,
    ensures
        simple_string@[0] != SIMPLE_STRING_PREFIX ==> r == Err::<Resp, DeserializeError>(
            DeserializeError::InvalidPrefix,
        ),
        simple_string@[0] == SIMPLE_STRING_PREFIX ==> match r {
            Ok(v) => spec_parse_simple(simple_string@, false) matches Ok(p) && p.0 == v@,
            Err(e) => spec_parse_simple(simple_string@, false) == Err::<
                (RespData, int),
                DeserializeError,
            >(e),
        },
{
    deserialize::deserialize_simple_string(simple_string)
}

/// Emits `$<len>\r\n<payload>\r\n`. Binary-safe: never fails.
pub fn serialize_resp_bulk_string(bulk_string: &[u8]) -> (r: Result<Vec<u8>, SerializeError>)
    ensures
        match r {
            Ok(b) => b@ == spec_encode(RespData::BulkString(bulk_string@)),
            Err(_) => false,
        },
{
    serialize::serialize_bulk_string(bulk_string)
}

/// Reads one bulk string: `$<len>\r\n<payload>\r\n`, or `$-1\r\n`.
pub fn deserialize_resp_bulk_string(bulk_string: &[u8]) -> (r: Result<Resp, DeserializeError>)
    requires
        bulk_string@.len() >= 1,
    ensures
        bulk_string@[0] != BULK_STRING_PREFIX ==> r == Err::<Resp, DeserializeError>(
            DeserializeError::InvalidPrefix,
        ),
        bulk_string@[0] == BULK_STRING_PREFIX ==> match r {
            Ok(v) => spec_parse_bulk(bulk_string@) matches Ok(p) && p.0 == v@,
            Err(e) => spec_parse_bulk(bulk_string@) == Err::<(RespData, int), DeserializeError>(e),
        },
{
    deserialize::deserialize_bulk_string(bulk_string)
}

/// Reads one array: `*<count>\r\n` then `count` nested values.
pub fn deserialize_resp_array(arr: &[u8]) -> (r: Result<Resp, DeserializeError>)
    requires
        arr@.len() >= 1,
    ensures
        arr@[0] != crate::resp::ARRAY_PREFIX ==> r == Err::<Resp, DeserializeError>(
            DeserializeError::InvalidPrefix,
        ),
        arr@[0] == crate::resp::ARRAY_PREFIX ==> match r {
            Ok(v) => crate::resp::deserialize::spec_parse(arr@) matches Ok(p) && p.0 == v@,
            Err(e) => crate::resp::deserialize::spec_parse(arr@) == Err::<
                (RespData, int),
                DeserializeError,
            >(e),
        },
{
    deserialize::deserialize_array(arr)
}

/// Emits `*<count>\r\n` followed by each element's encoding.
pub fn serialize_resp_array(input: Vec<Resp>) -> (r: Result<Vec<u8>, SerializeError>)
    ensures
        utf8_ok_seq(resp_view_items(input, 0)) ==> (r matches Ok(b) && b@ == spec_encode(
            RespData::Array(resp_view_items(input, 0)),
        )),
        !utf8_ok_seq(resp_view_items(input, 0)) ==> r == Err::<Vec<u8>, SerializeError>(
            SerializeError::InvalidUtf8,
        ),
{
    serialize::serialize_array(input)
}

/// Finds the first `\r\n` terminator in `data`.
pub fn find_crlf(data: &[u8]) -> (r: Result<usize, DeserializeError>)
    ensures
        match spec_find_crlf(data@) {
            Some(k) => r == Ok::<usize, DeserializeError>(k as usize),
            None => r == Err::<usize, DeserializeError>(DeserializeError::InvalidCRLF),
        },
{
    helpers::find_crlf(data)
}

/// Parses a length or count field as a nonnegative decimal integer.
pub fn parse_resp_item_len(input: &[u8]) -> (r: Result<usize, DeserializeError>)
    ensures
        match spec_parse_len(input@) {
            Some(v) => r == Ok::<usize, DeserializeError>(v as usize),
            None => r == Err::<usize, DeserializeError>(DeserializeError::InvalidLength),
        },
{
    helpers::parse_resp_item_len(input)
}

} // verus!
