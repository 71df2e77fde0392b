//! The codec laws: every well-formed value round-trips through the
//! wire format, whatever bytes follow it.
use vstd::prelude::*;

use crate::resp::deserialize::{
    spec_parse, spec_parse_bulk, spec_parse_i64, spec_parse_integer, spec_parse_n,
    spec_parse_simple,
};
use crate::resp::errors::DeserializeError;
use crate::resp::helpers::{
    all_digits, dec_val, lemma_dec_val_nonneg, lemma_find_crlf_at, spec_find_crlf, spec_parse_len,
};
use crate::resp::{
    lemma_size_is_encoding_len, no_cr_lf, spec_crlf, spec_digit_count, spec_digits, spec_encode,
    spec_encode_seq, spec_int_digits, wf_data, wf_data_seq, RespData, ARRAY_PREFIX,
    BULK_STRING_PREFIX, CR, INTEGERS_PREFIX, LF, SIMPLE_ERROR_PREFIX, SIMPLE_STRING_PREFIX,
};

verus! {

/// Every byte of a canonical digit string is an ASCII digit.
pub proof fn lemma_digits_bounds(n: nat)
    ensures
        spec_digits(n).len() >= 1,
        all_digits(spec_digits(n)),
    decreases n,
{
    if n < 10 {
        assert(spec_digits(n)[0] == (48 + n) as u8);
    } else {
        lemma_digits_bounds(n / 10);
        let s = spec_digits(n);
        let left = spec_digits(n / 10);
        assert forall|i: int| 0 <= i < s.len() implies 48 <= #[trigger] s[i] <= 57 by {
            if i < left.len() {
                assert(s[i] == left[i]);
            } else {
                assert(s[i] == (48 + n % 10) as u8);
            }
        }
    }
}

/// Reading back the canonical digits of `n` gives `n`.
pub proof fn lemma_digits_dec_val(n: nat)
    ensures
        dec_val(spec_digits(n)) == n,
    decreases n,
{
    if n < 10 {
        let s = spec_digits(n);
        assert(s.drop_last() =~= Seq::<u8>::empty());
        assert(s.last() == (48 + n) as u8);
        assert((48 + n) as u8 == 48 + n);
        assert(dec_val(s) == dec_val(Seq::<u8>::empty()) * 10 + (s.last() - 48));
    } else {
        lemma_digits_dec_val(n / 10);
        let s = spec_digits(n);
        assert(0 <= n % 10 < 10) by {
            vstd::arithmetic::div_mod::lemma_mod_bound(n as int, 10);
        }
        assert(s.drop_last() =~= spec_digits(n / 10));
        assert(s.last() == (48 + n % 10) as u8);
        assert((48 + n % 10) as u8 == 48 + n % 10);
        assert(dec_val(s) == dec_val(spec_digits(n / 10)) * 10 + (s.last() - 48));
        assert(dec_val(s) == (n / 10) * 10 + n % 10);
        vstd::arithmetic::div_mod::lemma_fundamental_div_mod(n as int, 10);
    }
}

/// A sequence of bytes below 0x80 is valid UTF-8.
pub proof fn lemma_ascii_valid_utf8(s: Seq<u8>)
    requires
        forall|i: int| 0 <= i < s.len() ==> #[trigger] s[i] < 0x80,
    ensures
        vstd::utf8::valid_utf8(s),
    decreases s.len(),
{
    if s.len() > 0 {
        let b = s[0];
        assert((b & 0x7f) as u32 <= 0x7f) by (bit_vector);
        assert(vstd::utf8::valid_first_scalar(s));
        assert(vstd::utf8::pop_first_scalar(s) =~= s.skip(1));
        assert forall|i: int| 0 <= i < s.skip(1).len() implies #[trigger] s.skip(1)[i] < 0x80 by {
            assert(s.skip(1)[i] == s[i + 1]);
        }
        lemma_ascii_valid_utf8(s.skip(1));
    }
}

/// Every encoding is at least three bytes long.
pub proof fn lemma_encode_min_len(d: RespData)
    ensures
        spec_encode(d).len() >= 3,
{
    lemma_size_is_encoding_len(d);
    match d {
        RespData::SimpleString(_) => {},
        RespData::SimpleError(_) => {},
        RespData::BulkString(b) => {
            assert(spec_digit_count(b.len()) >= 1);
        },
        RespData::NullBulkString => {},
        RespData::Array(items) => {
            assert(spec_digit_count(items.len()) >= 1);
        },
        RespData::Integers(_) => {},
    }
}

/// The header of an encoded element is CRLF-free, so the first CRLF of
/// `prefix-byte + body + CRLF + anything` stands right after the body.
proof fn lemma_find_crlf_after_body(s: Seq<u8>, body: Seq<u8>)
    requires
        s.len() >= 1 + body.len() + 2,
        s[0] != CR,
        forall|i: int| 0 <= i < body.len() ==> s[i + 1] == #[trigger] body[i],
        no_cr_lf(body),
        s[1 + body.len() as int] == CR,
        s[1 + body.len() as int + 1] == LF,
    ensures
        spec_find_crlf(s) == Some(1 + body.len() as int),
{
    let k = 1 + body.len() as int;
    assert forall|j: int| 0 <= j < k implies !(#[trigger] s[j] == CR && s[j + 1] == LF) by {
        if j == 0 {
        } else {
            assert(s[j] == body[j - 1]);
        }
    }
    lemma_find_crlf_at(s, k);
}

/// Round-trip: parsing the canonical encoding of any well-formed value,
/// with any bytes at all following it, returns exactly that value and
/// consumes exactly the encoding's length.
pub proof fn lemma_round_trip(d: RespData, rest: Seq<u8>)
    requires
        wf_data(d),
    ensures
        spec_parse(spec_encode(d) + rest) == Ok::<(RespData, int), DeserializeError>(
            (d, spec_encode(d).len() as int),
        ),
    decreases d, 1nat,
{
    let enc = spec_encode(d);
    let s = enc + rest;
    match d {
        RespData::SimpleString(p) => {
            lemma_round_trip_simple(d, p, false, rest);
        },
        RespData::SimpleError(p) => {
            lemma_round_trip_simple(d, p, true, rest);
        },
        RespData::Integers(i) => {
            let body = spec_int_digits(i);
            let mag = if i < 0 {
                (-i) as nat
            } else {
                i as nat
            };
            lemma_digits_bounds(mag);
            assert forall|j: int| 0 <= j < body.len() implies s[j + 1] == #[trigger] body[j] by {}
            assert(s[0] == INTEGERS_PREFIX);
            assert(s[1 + body.len() as int] == CR && s[1 + body.len() as int + 1] == LF);
            assert forall|j: int| 0 <= j < body.len() implies body[j] != CR && body[j] != LF
                && body[j] < 0x80 by {
                if i < 0 {
                    if j == 0 {
                        assert(body[0] == 45u8);
                    } else {
                        assert(body[j] == spec_digits(mag)[j - 1]);
                        assert(48 <= spec_digits(mag)[j - 1] <= 57);
                    }
                } else {
                    assert(body[j] == spec_digits(mag)[j]);
                    assert(48 <= spec_digits(mag)[j] <= 57);
                }
            }
            lemma_find_crlf_after_body(s, body);
            let payload = s.subrange(1, 1 + body.len() as int);
            assert(payload =~= body);
            lemma_ascii_valid_utf8(body);
            lemma_digits_dec_val(mag);
            if i < 0 {
                assert(body[0] == 45u8);
                assert(body.skip(1) =~= spec_digits(mag));
                assert(spec_parse_i64(body) == Some(i));
            } else {
                assert(body[0] == spec_digits(mag)[0]);
                assert(48 <= body[0] <= 57);
                assert(body[0] != 45u8);
                assert(spec_parse_i64(body) == Some(i));
            }
            assert(spec_parse_integer(s) == Ok::<(RespData, int), DeserializeError>(
                (d, enc.len() as int),
            ));
        },
        RespData::NullBulkString => {
            assert(s[0] == BULK_STRING_PREFIX && s[1] == 45u8 && s[2] == 49u8 && s[3] == CR && s[4]
                == LF);
            let body = seq![45u8, 49u8];
            assert forall|j: int| 0 <= j < body.len() implies s[j + 1] == #[trigger] body[j] by {}
            lemma_find_crlf_after_body(s, body);
            assert(s.subrange(1, 3) =~= seq![45u8, 49u8]);
            assert(spec_parse_bulk(s) == Ok::<(RespData, int), DeserializeError>(
                (d, enc.len() as int),
            ));
        },
        RespData::BulkString(b) => {
            let digs = spec_digits(b.len());
            lemma_digits_bounds(b.len());
            let k = 1 + digs.len() as int;
            assert(s[0] == BULK_STRING_PREFIX);
            assert forall|j: int| 0 <= j < digs.len() implies s[j + 1] == #[trigger] digs[j] by {}
            assert forall|j: int| 0 <= j < digs.len() implies digs[j] != CR && digs[j] != LF by {
                assert(48 <= digs[j] <= 57);
            }
            assert(s[k] == CR && s[k + 1] == LF);
            lemma_find_crlf_after_body(s, digs);
            let header = s.subrange(1, k);
            assert(header =~= digs);
            assert(48 <= header[0] <= 57);
            if header == seq![45u8, 49u8] {
                assert(header[0] == 45u8);
                assert(false);
            }
            lemma_digits_dec_val(b.len());
            assert(spec_parse_len(header) == Some(b.len() as int));
            let n = b.len() as int;
            assert(s.len() >= k + 2 + n + 2);
            assert forall|j: int| 0 <= j < n implies s[k + 2 + j] == #[trigger] b[j] by {}
            assert(s[k + 2 + n] == CR && s[k + 2 + n + 1] == LF);
            assert(s.subrange(k + 2, k + 2 + n) =~= b);
            assert(spec_parse_bulk(s) == Ok::<(RespData, int), DeserializeError>(
                (d, enc.len() as int),
            ));
        },
        RespData::Array(items) => {
            let digs = spec_digits(items.len());
            lemma_digits_bounds(items.len());
            let k = 1 + digs.len() as int;
            assert(s[0] == ARRAY_PREFIX);
            assert forall|j: int| 0 <= j < digs.len() implies s[j + 1] == #[trigger] digs[j] by {}
            assert forall|j: int| 0 <= j < digs.len() implies digs[j] != CR && digs[j] != LF by {
                assert(48 <= digs[j] <= 57);
            }
            assert(s[k] == CR && s[k + 1] == LF);
            lemma_find_crlf_after_body(s, digs);
            let header = s.subrange(1, k);
            assert(header =~= digs);
            lemma_digits_dec_val(items.len());
            assert(spec_parse_len(header) == Some(items.len() as int));
            let pre = seq![ARRAY_PREFIX] + digs + spec_crlf();
            assert(enc =~= pre + spec_encode_seq(items));
            assert(s =~= pre + (spec_encode_seq(items) + rest));
            assert(pre.len() == k + 2);
            assert(s.skip(k + 2) =~= spec_encode_seq(items) + rest);
            lemma_round_trip_seq(items, rest);
            assert(spec_parse(s) == Ok::<(RespData, int), DeserializeError>(
                (d, enc.len() as int),
            ));
        },
    }
}

/// The round-trip for one simple string or simple error.
proof fn lemma_round_trip_simple(d: RespData, p: Seq<u8>, as_error: bool, rest: Seq<u8>)
    requires
        wf_data(d),
        d == if as_error {
            RespData::SimpleError(p)
        } else {
            RespData::SimpleString(p)
        },
    ensures
        spec_parse(spec_encode(d) + rest) == Ok::<(RespData, int), DeserializeError>(
            (d, spec_encode(d).len() as int),
        ),
{
    let enc = spec_encode(d);
    let s = enc + rest;
    assert(s[0] == if as_error {
        SIMPLE_ERROR_PREFIX
    } else {
        SIMPLE_STRING_PREFIX
    });
    assert forall|j: int| 0 <= j < p.len() implies s[j + 1] == #[trigger] p[j] by {}
    assert(s[1 + p.len() as int] == CR && s[1 + p.len() as int + 1] == LF);
    lemma_find_crlf_after_body(s, p);
    let payload = s.subrange(1, 1 + p.len() as int);
    assert(payload =~= p);
    assert(spec_parse_simple(s, as_error) == Ok::<(RespData, int), DeserializeError>(
        (d, enc.len() as int),
    ));
    assert(s.len() > 0);
    if as_error {
        assert(s[0] == SIMPLE_ERROR_PREFIX);
        assert(spec_parse(s) == spec_parse_simple(s, true));
    } else {
        assert(s[0] == SIMPLE_STRING_PREFIX);
        assert(spec_parse(s) == spec_parse_simple(s, false));
    }
}

/// The round-trip for a sequence of values laid end to end: the
/// streaming decomposition at the level of one array body.
pub proof fn lemma_round_trip_seq(items: Seq<RespData>, rest: Seq<u8>)
    requires
        wf_data_seq(items),
    ensures
        spec_parse_n(spec_encode_seq(items) + rest, items.len()) == Ok::<
            (Seq<RespData>, int),
            DeserializeError,
        >((items, spec_encode_seq(items).len() as int)),
    decreases items, 0nat,
{
    let s = spec_encode_seq(items) + rest;
    if items.len() == 0 {
        assert(spec_encode_seq(items) =~= Seq::<u8>::empty());
        assert(items =~= Seq::<RespData>::empty());
        assert(spec_parse_n(s, 0) == Ok::<(Seq<RespData>, int), DeserializeError>(
            (Seq::<RespData>::empty(), 0),
        ));
    } else {
        let hd = items[0];
        let tl = items.drop_first();
        let tail_bytes = spec_encode_seq(tl) + rest;
        assert(s =~= spec_encode(hd) + tail_bytes);
        lemma_round_trip(hd, tail_bytes);
        let used0 = spec_encode(hd).len() as int;
        lemma_encode_min_len(hd);
        assert(spec_parse(s) == Ok::<(RespData, int), DeserializeError>((hd, used0)));
        assert(s.skip(used0) =~= tail_bytes);
        lemma_round_trip_seq(tl, rest);
        assert(seq![hd] + tl =~= items);
        assert(spec_parse_n(s, items.len()) == Ok::<(Seq<RespData>, int), DeserializeError>(
            (items, spec_encode_seq(items).len() as int),
        ));
    }
}

/// What the parser hands back it can always hand out again: every
/// simple payload of a parsed value passed the UTF-8 check, so the
/// serializer accepts the value whole.
pub proof fn lemma_parse_utf8_ok(s: Seq<u8>)
    ensures
        spec_parse(s) matches Ok(p) ==> crate::resp::utf8_ok(p.0),
    decreases s.len(), 0nat,
{
    if s.len() == 0 {
    } else if s[0] == SIMPLE_STRING_PREFIX || s[0] == SIMPLE_ERROR_PREFIX {
    } else if s[0] == ARRAY_PREFIX {
        if spec_find_crlf(s) is Some {
            crate::resp::helpers::lemma_find_crlf_some(s);
            let k = spec_find_crlf(s)->0;
            if 0 <= k && k + 2 <= s.len() {
                if spec_parse_len(s.subrange(1, k)) is Some {
                    let n = spec_parse_len(s.subrange(1, k))->0;
                    lemma_dec_val_nonneg(s.subrange(1, k));
                    lemma_parse_n_utf8_ok(s.skip(k + 2), n as nat);
                }
            }
        }
    }
}

pub proof fn lemma_parse_n_utf8_ok(s: Seq<u8>, n: nat)
    ensures
        spec_parse_n(s, n) matches Ok(p) ==> crate::resp::utf8_ok_seq(p.0),
    decreases s.len(), n + 1,
{
    if n == 0 {
    } else {
        lemma_parse_utf8_ok(s);
        if spec_parse(s) is Ok {
            let (v, used) = spec_parse(s)->Ok_0;
            if 0 < used <= s.len() {
                lemma_parse_n_utf8_ok(s.skip(used), (n - 1) as nat);
                let r2 = spec_parse_n(s.skip(used), (n - 1) as nat);
                if r2 is Ok {
                    let rest = r2->Ok_0.0;
                    assert((seq![v] + rest)[0] == v);
                    assert((seq![v] + rest).drop_first() =~= rest);
                }
            }
        }
    }
}

} // verus!
