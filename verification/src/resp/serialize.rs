//! The RESP emitter: one function per wire type, each producing the
//! canonical encoding that `spec_encode` defines.
use vstd::prelude::*;

use crate::resp::errors::SerializeError;
use crate::resp::helpers::{check_utf8, push_all};
use crate::resp::{
    lemma_digits_len, lemma_encode_seq_snoc, lemma_resp_view_items_len, lemma_seq_flags_index,
    lemma_utf8_ok_seq_snoc, resp_view, resp_view_items, spec_crlf, spec_digit_count, spec_digits,
    spec_encode, spec_encode_seq, spec_int_digits, utf8_ok, utf8_ok_seq, Resp, RespData,
    ARRAY_PREFIX, BULK_STRING_PREFIX, CR, INTEGERS_PREFIX, LF, SIMPLE_ERROR_PREFIX,
    SIMPLE_STRING_PREFIX,
};

verus! {

/// The decimal digits of `n`, most significant first.
pub fn digits_of(n: u64) -> (r: Vec<u8>)
    ensures
        r@ == spec_digits(n as nat),
    decreases n,
{
    if n < 10 {
        let mut r: Vec<u8> = Vec::new();
        r.push(48 + n as u8);
        proof {
            assert(r@ =~= spec_digits(n as nat));
        }
        r
    } else {
        let mut r = digits_of(n / 10);
        r.push(48 + (n % 10) as u8);
        proof {
            assert(r@ =~= spec_digits(n as nat));
        }
        r
    }
}

/// How many decimal digits `n` has.
pub fn digit_count_u64(n: u64) -> (r: usize)
    ensures
        r == spec_digit_count(n as nat),
{
    let d = digits_of(n);
    proof {
        lemma_digits_len(n as nat);
    }
    d.len()
}

/// The decimal form of `i`, with a leading `-` when negative.
pub fn int_digits_of(i: i64) -> (r: Vec<u8>)
    ensures
        r@ == spec_int_digits(i as int),
{
    let mut r: Vec<u8> = Vec::new();
    if i >= 0 {
        let d = digits_of(i as u64);
        push_all(&mut r, d.as_slice());
        proof {
            assert(r@ =~= spec_int_digits(i as int));
        }
    } else {
        r.push(45);
        let mag: u64 = if i == i64::MIN {
            9223372036854775808u64
        } else {
            (-i) as u64
        };
        let d = digits_of(mag);
        push_all(&mut r, d.as_slice());
        proof {
            assert(r@ =~= spec_int_digits(i as int));
        }
    }
    r
}

/// Emits `+<payload>\r\n`; fails when the payload is not UTF-8.
pub fn serialize_simple_string(simple_string: &[u8]) -> (r: Result<Vec<u8>, SerializeError>)
    ensures
        match r {
            Ok(b) => vstd::utf8::valid_utf8(simple_string@) && b@ == spec_encode(
                RespData::SimpleString(simple_string@),
            ),
            Err(e) => !vstd::utf8::valid_utf8(simple_string@) && e == SerializeError::InvalidUtf8,
        },
{
    if !check_utf8(simple_string) {
        return Err(SerializeError::InvalidUtf8);
    }
    let mut buf: Vec<u8> = Vec::new();
    buf.push(SIMPLE_STRING_PREFIX);
    push_all(&mut buf, simple_string);
    buf.push(CR);
    buf.push(LF);
    proof {
        assert(buf@ =~= spec_encode(RespData::SimpleString(simple_string@)));
    }
    Ok(buf)
}

/// Emits `-<payload>\r\n`; fails when the payload is not UTF-8.
pub fn serialize_simple_error(error: &[u8]) -> (r: Result<Vec<u8>, SerializeError>)
    ensures
        match r {
            Ok(b) => vstd::utf8::valid_utf8(error@) && b@ == spec_encode(
                RespData::SimpleError(error@),
            ),
            Err(e) => !vstd::utf8::valid_utf8(error@) && e == SerializeError::InvalidUtf8,
        },
{
    if !check_utf8(error) {
        return Err(SerializeError::InvalidUtf8);
    }
    let mut buf: Vec<u8> = Vec::new();
    buf.push(SIMPLE_ERROR_PREFIX);
    push_all(&mut buf, error);
    buf.push(CR);
    buf.push(LF);
    proof {
        assert(buf@ =~= spec_encode(RespData::SimpleError(error@)));
    }
    Ok(buf)
}

/// Emits `$<len>\r\n<payload>\r\n`. Binary-safe: never fails.
pub fn serialize_bulk_string(bulk_string: &[u8]) -> (r: Result<Vec<u8>, SerializeError>)
    ensures
        match r {
            Ok(b) => b@ == spec_encode(RespData::BulkString(bulk_string@)),
            Err(_) => false,
        },
{
    let length = bulk_string.len();
    let length_digits = digits_of(length as u64);
    let mut buf: Vec<u8> = Vec::new();
    buf.push(BULK_STRING_PREFIX);
    push_all(&mut buf, length_digits.as_slice());
    buf.push(CR);
    buf.push(LF);
    push_all(&mut buf, bulk_string);
    buf.push(CR);
    buf.push(LF);
    proof {
        assert(buf@ =~= spec_encode(RespData::BulkString(bulk_string@)));
    }
    Ok(buf)
}

/// Emits `:<decimal>\r\n`. Never fails.
pub fn serialize_integer(value: i64) -> (r: Result<Vec<u8>, SerializeError>)
    ensures
        match r {
            Ok(b) => b@ == spec_encode(RespData::Integers(value as int)),
            Err(_) => false,
        },
{
    let digits = int_digits_of(value);
    let mut buf: Vec<u8> = Vec::new();
    buf.push(INTEGERS_PREFIX);
    push_all(&mut buf, digits.as_slice());
    buf.push(CR);
    buf.push(LF);
    proof {
        assert(buf@ =~= spec_encode(RespData::Integers(value as int)));
    }
    Ok(buf)
}

/// Emits the encoding of any value; fails exactly when a simple
/// string or simple error payload somewhere inside is not UTF-8.
#[verifier::loop_isolation(false)]
pub fn serialize_value(v: &Resp) -> (r: Result<Vec<u8>, SerializeError>)
    ensures
        utf8_ok(v@) ==> (r matches Ok(b) && b@ == spec_encode(v@)),
        !utf8_ok(v@) ==> r == Err::<Vec<u8>, SerializeError>(SerializeError::InvalidUtf8),
    decreases *v,
{
    match v {
        Resp::BulkString(bulk) => serialize_bulk_string(bulk.as_slice()),
        Resp::SimpleString(simple) => serialize_simple_string(simple.as_slice()),
        Resp::SimpleError(error) => serialize_simple_error(error.as_slice()),
        Resp::NullBulkString => {
            let buf: Vec<u8> = vec![BULK_STRING_PREFIX, 45u8, 49u8, CR, LF];
            proof {
                assert(buf@ =~= spec_encode(RespData::NullBulkString));
            }
            Ok(buf)
        },
        Resp::Integers(n) => serialize_integer(*n),
        Resp::Array(items) => {
            let ghost view_items = resp_view_items(*items, 0);
            proof {
                lemma_resp_view_items_len(*items, 0);
            }
            let count_digits = digits_of(items.len() as u64);
            let mut buf: Vec<u8> = Vec::new();
            buf.push(ARRAY_PREFIX);
            push_all(&mut buf, count_digits.as_slice());
            buf.push(CR);
            buf.push(LF);
            let ghost header = seq![ARRAY_PREFIX] + spec_digits(view_items.len()) + spec_crlf();
            proof {
                assert(buf@ =~= header);
                assert(view_items.take(0) =~= Seq::<RespData>::empty());
                assert(buf@ =~= header + spec_encode_seq(view_items.take(0)));
            }
            let n = items.len();
            let mut i: usize = 0;
            while i < n
                invariant
                    0 <= i <= n,
                    n == items.len(),
                    view_items.len() == items.len(),
                    forall|j: int|
                        0 <= j < items.len() ==> view_items[j] == resp_view(#[trigger] items[j]),
                    utf8_ok_seq(view_items.take(i as int)),
                    buf@ == header + spec_encode_seq(view_items.take(i as int)),
                decreases n - i,
            {
                proof {
                    assert(decreases_to!(*v => (*v)->Array_0));
                    assert(decreases_to!((*v)->Array_0 => (*v)->Array_0@));
                    assert(decreases_to!((*v)->Array_0@ => (*v)->Array_0@[i as int]));
                    assert((*v)->Array_0 == *items);
                }
                let child = serialize_value(&items[i]);
                match child {
                    Ok(encoded) => {
                        push_all(&mut buf, encoded.as_slice());
                        proof {
                            lemma_encode_seq_snoc(view_items.take(i as int), view_items[i as int]);
                            lemma_utf8_ok_seq_snoc(view_items.take(i as int), view_items[i as int]);
                            assert(view_items.take(i as int).push(view_items[i as int])
                                =~= view_items.take(i as int + 1));
                        }
                    },
                    Err(e) => {
                        proof {
                            lemma_seq_flags_index(view_items, i as int);
                        }
                        return Err(e);
                    },
                }
                i += 1;
            }
            proof {
                assert(view_items.take(n as int) =~= view_items);
            }
            Ok(buf)
        },
    }
}

/// Emits `*<count>\r\n` followed by each element's encoding.
pub fn serialize_array(input: Vec<Resp>) -> (r: Result<Vec<u8>, SerializeError>)
    ensures
        utf8_ok_seq(resp_view_items(input, 0)) ==> (r matches Ok(b) && b@ == spec_encode(
            RespData::Array(resp_view_items(input, 0)),
        )),
        !utf8_ok_seq(resp_view_items(input, 0)) ==> r == Err::<Vec<u8>, SerializeError>(
            SerializeError::InvalidUtf8,
        ),
{
    let arr = Resp::Array(input);
    serialize_value(&arr)
}

} // verus!
