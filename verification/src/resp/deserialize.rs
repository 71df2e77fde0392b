//! The RESP parser: a one-byte look-ahead discriminator, then one
//! routine per wire type. `spec_parse` is the reference description;
//! every executable routine is proved to return exactly what it says.
use vstd::prelude::*;

use crate::resp::errors::DeserializeError;
use crate::resp::helpers::{
    all_digits, check_prefix, dec_val, find_crlf, is_valid_utf8, lemma_find_crlf_some,
    parse_resp_item_len, spec_find_crlf, spec_parse_len,
};
use crate::resp::{
    resp_view, resp_view_items, lemma_resp_view_items_len, Resp, RespData, ARRAY_PREFIX,
    BULK_STRING_PREFIX, CR, INTEGERS_PREFIX, LF, SIMPLE_ERROR_PREFIX, SIMPLE_STRING_PREFIX,
};
use vstd::slice::slice_subrange;
use vstd::slice::slice_to_vec;

verus! {

/// What the text of an integer element must be: an optional leading
/// `-`, then decimal digits, with a value that fits a signed 64-bit
/// word.
pub open spec fn spec_parse_i64(s: Seq<u8>) -> Option<int> {
    if s.len() >= 1 && s[0] == 45u8 {
        let mag = s.skip(1);
        if mag.len() >= 1 && all_digits(mag) && dec_val(mag) <= 0x8000000000000000 {
            Some(-dec_val(mag))
        } else {
            None
        }
    } else if s.len() >= 1 && all_digits(s) && dec_val(s) <= i64::MAX {
        Some(dec_val(s))
    } else {
        None
    }
}

/// One simple string or simple error element: everything up to the
/// first CRLF, which must be UTF-8.
pub open spec fn spec_parse_simple(s: Seq<u8>, as_error: bool) -> Result<
    (RespData, int),
    DeserializeError,
> {
    match spec_find_crlf(s) {
        None => Err(DeserializeError::InvalidCRLF),
        Some(k) => {
            let payload = s.subrange(1, k);
            if !vstd::utf8::valid_utf8(payload) {
                Err(DeserializeError::InvalidUtf8)
            } else if as_error {
                Ok((RespData::SimpleError(payload), k + 2))
            } else {
                Ok((RespData::SimpleString(payload), k + 2))
            }
        },
    }
}

/// One integer element.
pub open spec fn spec_parse_integer(s: Seq<u8>) -> Result<(RespData, int), DeserializeError> {
    match spec_find_crlf(s) {
        None => Err(DeserializeError::InvalidCRLF),
        Some(k) => {
            let payload = s.subrange(1, k);
            if !vstd::utf8::valid_utf8(payload) {
                Err(DeserializeError::InvalidUtf8)
            } else {
                match spec_parse_i64(payload) {
                    None => Err(DeserializeError::InvalidInteger),
                    Some(v) => Ok((RespData::Integers(v), k + 2)),
                }
            }
        },
    }
}

/// One bulk string element: `$<len>\r\n<len bytes>\r\n`, with `$-1\r\n`
/// the null bulk string. The payload is binary-safe: exactly `len`
/// bytes, whatever they hold.
pub open spec fn spec_parse_bulk(s: Seq<u8>) -> Result<(RespData, int), DeserializeError> {
    match spec_find_crlf(s) {
        None => Err(DeserializeError::InvalidCRLF),
        Some(k) => {
            let header = s.subrange(1, k);
            if header == seq![45u8, 49u8] {
                Ok((RespData::NullBulkString, k + 2))
            } else {
                match spec_parse_len(header) {
                    None => Err(DeserializeError::InvalidLength),
                    Some(n) => {
                        if s.len() < k + 2 + n + 2 {
                            Err(DeserializeError::InvalidCRLF)
                        } else if s[k + 2 + n] == CR && s[k + 2 + n + 1] == LF {
                            Ok((RespData::BulkString(s.subrange(k + 2, k + 2 + n)), k + 2 + n + 2))
                        } else {
                            Err(DeserializeError::InvalidCRLF)
                        }
                    },
                }
            }
        },
    }
}

/// One RESP value read from the front of `s`: the result and how many
/// bytes it occupied, or the first failure. Truncated input surfaces
/// as `InvalidCRLF`, the absent terminator.
pub open spec fn spec_parse(s: Seq<u8>) -> Result<(RespData, int), DeserializeError>
    decreases s.len(), 0nat,
{
    if s.len() == 0 {
        Err(DeserializeError::InvalidCRLF)
    } else if s[0] == SIMPLE_STRING_PREFIX {
        spec_parse_simple(s, false)
    } else if s[0] == SIMPLE_ERROR_PREFIX {
        spec_parse_simple(s, true)
    } else if s[0] == INTEGERS_PREFIX {
        spec_parse_integer(s)
    } else if s[0] == BULK_STRING_PREFIX {
        spec_parse_bulk(s)
    } else if s[0] == ARRAY_PREFIX {
        match spec_find_crlf(s) {
            None => Err(DeserializeError::InvalidCRLF),
            Some(k) => {
                if k < 0 || k + 2 > s.len() {
                    Err(DeserializeError::InvalidCRLF)
                } else {
                    match spec_parse_len(s.subrange(1, k)) {
                        None => Err(DeserializeError::InvalidLength),
                        Some(n) => match spec_parse_n(s.skip(k + 2), n as nat) {
                            Err(e) => Err(e),
                            Ok((items, used)) => Ok((RespData::Array(items), k + 2 + used)),
                        },
                    }
                }
            },
        }
    } else {
        Err(DeserializeError::InvalidPrefix)
    }
}

/// `n` consecutive RESP values read from the front of `s`.
pub open spec fn spec_parse_n(s: Seq<u8>, n: nat) -> Result<(Seq<RespData>, int), DeserializeError>
    decreases s.len(), n + 1,
{
    if n == 0 {
        Ok((Seq::empty(), 0))
    } else {
        match spec_parse(s) {
            Err(e) => Err(e),
            Ok((v, used)) => {
                if used <= 0 || used > s.len() {
                    Err(DeserializeError::InvalidCRLF)
                } else {
                    match spec_parse_n(s.skip(used), (n - 1) as nat) {
                        Err(e) => Err(e),
                        Ok((items, used2)) => Ok((seq![v] + items, used + used2)),
                    }
                }
            },
        }
    }
}

/// A successful parse consumes at least one element's minimum, and
/// never more than the input.
pub proof fn lemma_parse_used_bounds(s: Seq<u8>)
    ensures
        spec_parse(s) matches Ok(p) ==> 2 <= p.1 <= s.len(),
    decreases s.len(), 0nat,
{
    if s.len() == 0 {
    } else if s[0] == SIMPLE_STRING_PREFIX || s[0] == SIMPLE_ERROR_PREFIX || s[0]
        == INTEGERS_PREFIX {
        if spec_find_crlf(s) is Some {
            lemma_find_crlf_some(s);
        }
    } else if s[0] == BULK_STRING_PREFIX {
        if spec_find_crlf(s) is Some {
            lemma_find_crlf_some(s);
            let k = spec_find_crlf(s)->0;
            if spec_parse_len(s.subrange(1, k)) is Some {
                crate::resp::helpers::lemma_dec_val_nonneg(s.subrange(1, k));
            }
        }
    } else if s[0] == ARRAY_PREFIX {
        if spec_find_crlf(s) is Some {
            lemma_find_crlf_some(s);
            let k = spec_find_crlf(s)->0;
            if 0 <= k && k + 2 <= s.len() {
                if spec_parse_len(s.subrange(1, k)) is Some {
                    let n = spec_parse_len(s.subrange(1, k))->0;
                    crate::resp::helpers::lemma_dec_val_nonneg(s.subrange(1, k));
                    lemma_parse_n_used_bounds(s.skip(k + 2), n as nat);
                }
            }
        }
    }
}

pub proof fn lemma_parse_n_used_bounds(s: Seq<u8>, n: nat)
    ensures
        spec_parse_n(s, n) matches Ok(p) ==> 0 <= p.1 <= s.len() && p.0.len() == n,
    decreases s.len(), n + 1,
{
    if n == 0 {
    } else {
        lemma_parse_used_bounds(s);
        if spec_parse(s) is Ok {
            let used = spec_parse(s)->Ok_0.1;
            if 0 < used <= s.len() {
                lemma_parse_n_used_bounds(s.skip(used), (n - 1) as nat);
            }
        }
    }
}

/// Reads one value from the front of `input`, returning it and the
/// count of bytes it occupied.
#[verifier::loop_isolation(false)]
#[verifier::rlimit(60)]
pub fn parse_value(input: &[u8]) -> (r: Result<(Resp, usize), DeserializeError>)
    ensures
        match r {
            Ok((v, used)) => spec_parse(input@) == Ok::<(RespData, int), DeserializeError>(
                (v@, used as int),
            ),
            Err(e) => spec_parse(input@) == Err::<(RespData, int), DeserializeError>(e),
        },
    decreases input@.len(),
{
    if input.len() == 0 {
        return Err(DeserializeError::InvalidCRLF);
    }
    let b0 = input[0];
    if b0 == SIMPLE_STRING_PREFIX {
        parse_simple(input, false)
    } else if b0 == SIMPLE_ERROR_PREFIX {
        parse_simple(input, true)
    } else if b0 == INTEGERS_PREFIX {
        parse_integer_value(input)
    } else if b0 == BULK_STRING_PREFIX {
        parse_bulk(input)
    } else if b0 == ARRAY_PREFIX {
        let k = match find_crlf(input) {
            Ok(k) => k,
            Err(e) => {
                return Err(e);
            },
        };
        let ilen = input.len();
        proof {
            assert(input@.len() == ilen);
            assert(spec_find_crlf(input@) is Some);
            lemma_find_crlf_some(input@);
            let k0 = spec_find_crlf(input@)->0;
            assert(0 <= k0 && k0 + 1 < input@.len());
            assert(input@.len() <= usize::MAX);
            assert(k == k0 as usize);
            assert(k as int == k0);
            assert(input@[k as int] == CR && input@[0] == ARRAY_PREFIX);
            assert(k >= 1);
        }
        let header = slice_subrange(input, 1, k);
        let n = match parse_resp_item_len(header) {
            Ok(n) => n,
            Err(e) => {
                return Err(e);
            },
        };
        proof {
            assert(spec_parse_len(input@.subrange(1, k as int)) is Some);
            crate::resp::helpers::lemma_dec_val_nonneg(input@.subrange(1, k as int));
            assert(spec_parse_len(input@.subrange(1, k as int)) == Some(n as int));
        }
        let ghost s = input@;
        let ghost whole = spec_parse_n(s.skip(k + 2), n as nat);
        let mut items: Vec<Resp> = Vec::new();
        let mut pos: usize = k + 2;
        let mut j: usize = 0;
        proof {
            assert(s.skip(pos as int) =~= s.skip(k + 2));
            assert(resp_view_items(items, 0) =~= Seq::<RespData>::empty());
        }
        while j < n
            invariant
                j <= n,
                k + 2 <= pos <= input@.len(),
                items.len() == j,
                whole == match spec_parse_n(s.skip(pos as int), (n - j) as nat) {
                    Ok::<(Seq<RespData>, int), DeserializeError>((rest, used2)) => Ok::<
                        (Seq<RespData>, int),
                        DeserializeError,
                    >((resp_view_items(items, 0) + rest, (pos - (k + 2)) + used2)),
                    Err::<(Seq<RespData>, int), DeserializeError>(e) => Err::<
                        (Seq<RespData>, int),
                        DeserializeError,
                    >(e),
                },
            decreases n - j,
        {
            let suffix = slice_subrange(input, pos, input.len());
            proof {
                assert(suffix@ =~= s.skip(pos as int));
            }
            match parse_value(suffix) {
                Ok((v, used)) => {
                    proof {
                        lemma_parse_used_bounds(suffix@);
                        assert(2 <= used as int <= suffix@.len());
                        assert(suffix@.skip(used as int) =~= s.skip(pos + used));
                        lemma_resp_view_items_len(items, 0);
                    }
                    let ghost items_before = items;
                    items.push(v);
                    proof {
                        lemma_resp_view_items_len(items, 0);
                        assert forall|l: int| 0 <= l < items@.len() implies resp_view_items(
                            items,
                            0,
                        )[l] == resp_view_items(items_before, 0).push(v@)[l] by {
                            assert(resp_view_items(items, 0)[l - 0] == resp_view(items[l]));
                            if l < j as int {
                                assert(items[l] == items_before[l]);
                                assert(resp_view_items(items_before, 0)[l - 0] == resp_view(
                                    items_before[l],
                                ));
                            } else {
                                assert(items[l] == v);
                            }
                        }
                        assert(resp_view_items(items, 0) =~= resp_view_items(items_before, 0).push(
                            v@,
                        ));
                        let r2 = spec_parse_n(s.skip(pos + used), (n - j - 1) as nat);
                        if r2 is Ok {
                            let rest2 = r2->Ok_0.0;
                            assert(resp_view_items(items_before, 0) + (seq![v@] + rest2)
                                =~= resp_view_items(items, 0) + rest2);
                        }
                    }
                    pos = pos + used;
                    j = j + 1;
                },
                Err(e) => {
                    proof {
                        assert(spec_parse_n(s.skip(pos as int), (n - j) as nat) == Err::<
                            (Seq<RespData>, int),
                            DeserializeError,
                        >(e));
                        assert(whole == Err::<(Seq<RespData>, int), DeserializeError>(e));
                        assert(spec_parse(input@) == Err::<(RespData, int), DeserializeError>(e));
                    }
                    return Err(e);
                },
            }
        }
        proof {
            assert(s.skip(pos as int).len() == s.len() - pos >= 0);
            assert(spec_parse_n(s.skip(pos as int), 0) == Ok::<
                (Seq<RespData>, int),
                DeserializeError,
            >((Seq::<RespData>::empty(), 0)));
            assert(resp_view_items(items, 0) + Seq::<RespData>::empty() =~= resp_view_items(
                items,
                0,
            ));
            assert(whole == Ok::<(Seq<RespData>, int), DeserializeError>(
                (resp_view_items(items, 0), pos - (k + 2)),
            ));
            assert(spec_parse(input@) == Ok::<(RespData, int), DeserializeError>(
                (RespData::Array(resp_view_items(items, 0)), pos as int),
            ));
        }
        Ok((Resp::Array(items), pos))
    } else {
        Err(DeserializeError::InvalidPrefix)
    }
}

/// Reads one simple string (or, with `as_error`, simple error).
fn parse_simple(input: &[u8], as_error: bool) -> (r: Result<(Resp, usize), DeserializeError>)
    requires
        input@.len() >= 1,
        input@[0] == if as_error {
            SIMPLE_ERROR_PREFIX
        } else {
            SIMPLE_STRING_PREFIX
        },
    ensures
        match r {
            Ok((v, used)) => spec_parse_simple(input@, as_error) == Ok::<
                (RespData, int),
                DeserializeError,
            >((v@, used as int)),
            Err(e) => spec_parse_simple(input@, as_error) == Err::<
                (RespData, int),
                DeserializeError,
            >(e),
        },
{
    let k = match find_crlf(input) {
        Ok(k) => k,
        Err(e) => {
            return Err(e);
        },
    };
    let ilen = input.len();
    proof {
        assert(input@.len() == ilen);
        assert(spec_find_crlf(input@) is Some);
        lemma_find_crlf_some(input@);
        let k0 = spec_find_crlf(input@)->0;
        assert(0 <= k0 && k0 + 1 < input@.len());
        assert(input@.len() <= usize::MAX);
        assert(k == k0 as usize);
        assert(k as int == k0);
        assert(input@[k as int] == CR);
        assert(k >= 1);
    }
    let payload = slice_subrange(input, 1, k);
    match is_valid_utf8(payload) {
        Ok(()) => {},
        Err(e) => {
            return Err(e);
        },
    }
    let owned: Vec<u8> = slice_to_vec(payload);
    if as_error {
        Ok((Resp::SimpleError(owned), k + 2))
    } else {
        Ok((Resp::SimpleString(owned), k + 2))
    }
}

/// Reads one integer element.
fn parse_integer_value(input: &[u8]) -> (r: Result<(Resp, usize), DeserializeError>)
    requires
        input@.len() >= 1,
        input@[0] == INTEGERS_PREFIX,
    ensures
        match r {
            Ok((v, used)) => spec_parse_integer(input@) == Ok::<
                (RespData, int),
                DeserializeError,
            >((v@, used as int)),
            Err(e) => spec_parse_integer(input@) == Err::<(RespData, int), DeserializeError>(e),
        },
{
    let k = match find_crlf(input) {
        Ok(k) => k,
        Err(e) => {
            return Err(e);
        },
    };
    let ilen = input.len();
    proof {
        assert(input@.len() == ilen);
        assert(spec_find_crlf(input@) is Some);
        lemma_find_crlf_some(input@);
        let k0 = spec_find_crlf(input@)->0;
        assert(0 <= k0 && k0 + 1 < input@.len());
        assert(input@.len() <= usize::MAX);
        assert(k == k0 as usize);
        assert(k as int == k0);
        assert(input@[k as int] == CR);
        assert(k >= 1);
    }
    let payload = slice_subrange(input, 1, k);
    match is_valid_utf8(payload) {
        Ok(()) => {},
        Err(e) => {
            return Err(e);
        },
    }
    match parse_i64(payload) {
        Some(v) => Ok((Resp::Integers(v), k + 2)),
        None => Err(DeserializeError::InvalidInteger),
    }
}

/// Reads one bulk string or the null bulk string.
fn parse_bulk(input: &[u8]) -> (r: Result<(Resp, usize), DeserializeError>)
    requires
        input@.len() >= 1,
        input@[0] == BULK_STRING_PREFIX,
    ensures
        match r {
            Ok((v, used)) => spec_parse_bulk(input@) == Ok::<(RespData, int), DeserializeError>(
                (v@, used as int),
            ),
            Err(e) => spec_parse_bulk(input@) == Err::<(RespData, int), DeserializeError>(e),
        },
{
    let k = match find_crlf(input) {
        Ok(k) => k,
        Err(e) => {
            return Err(e);
        },
    };
    let ilen = input.len();
    proof {
        assert(input@.len() == ilen);
        assert(spec_find_crlf(input@) is Some);
        lemma_find_crlf_some(input@);
        let k0 = spec_find_crlf(input@)->0;
        assert(0 <= k0 && k0 + 1 < input@.len());
        assert(input@.len() <= usize::MAX);
        assert(k == k0 as usize);
        assert(k as int == k0);
        assert(input@[k as int] == CR);
        assert(k >= 1);
    }
    let ghost header = input@.subrange(1, k as int);
    if k == 3 && input[1] == 45 && input[2] == 49 {
        proof {
            assert(header =~= seq![45u8, 49u8]);
        }
        return Ok((Resp::NullBulkString, k + 2));
    }
    proof {
        if header == seq![45u8, 49u8] {
            assert(header.len() == 2);
            assert(input@[1] == header[0] && input@[2] == header[1]);
            assert(false);
        }
    }
    let header_slice = slice_subrange(input, 1, k);
    let n = match parse_resp_item_len(header_slice) {
        Ok(n) => n,
        Err(e) => {
            return Err(e);
        },
    };
    proof {
        crate::resp::helpers::lemma_dec_val_nonneg(header);
    }
    let start = k + 2;
    let rem = input.len() - start;
    if rem < n || rem - n < 2 {
        return Err(DeserializeError::InvalidCRLF);
    }
    if !(input[start + n] == CR && input[start + n + 1] == LF) {
        return Err(DeserializeError::InvalidCRLF);
    }
    let payload = slice_subrange(input, start, start + n);
    let owned: Vec<u8> = slice_to_vec(payload);
    Ok((Resp::BulkString(owned), start + n + 2))
}

/// Reads a decimal magnitude into a 64-bit word.
pub(crate) fn digits_val_u64(s: &[u8]) -> (r: Option<u64>)
    ensures
        match r {
            Some(v) => s@.len() >= 1 && all_digits(s@) && v == dec_val(s@),
            None => s@.len() == 0 || !all_digits(s@) || dec_val(s@) > u64::MAX,
        },
{
    let n = s.len();
    if n == 0 {
        return None;
    }
    let mut val: u64 = 0;
    let mut i: usize = 0;
    while i < n
        invariant
            0 <= i <= n,
            n == s@.len(),
            all_digits(s@.take(i as int)),
            val == dec_val(s@.take(i as int)),
        decreases n - i,
    {
        let b = s[i];
        if b < 48 || b > 57 {
            return None;
        }
        let d = (b - 48) as u64;
        proof {
            assert(s@.take(i + 1).drop_last() =~= s@.take(i as int));
        }
        let next = match val.checked_mul(10) {
            Some(x) => x.checked_add(d),
            None => None,
        };
        match next {
            Some(x) => {
                val = x;
            },
            None => {
                proof {
                    if all_digits(s@) {
                        crate::resp::helpers::lemma_dec_val_prefix_le(s@, i + 1);
                    }
                }
                return None;
            },
        }
        i += 1;
    }
    proof {
        assert(s@.take(n as int) =~= s@);
    }
    Some(val)
}

/// Parses the text of an integer element: an optional leading `-`,
/// then decimal digits.
pub fn parse_i64(s: &[u8]) -> (r: Option<i64>)
    ensures
        match r {
            Some(v) => spec_parse_i64(s@) == Some(v as int),
            None => spec_parse_i64(s@) is None,
        },
{
    if s.len() == 0 {
        return None;
    }
    if s[0] == 45 {
        let mag_slice = slice_subrange(s, 1, s.len());
        proof {
            assert(mag_slice@ =~= s@.skip(1));
        }
        match digits_val_u64(mag_slice) {
            Some(mag) => {
                if mag > 9223372036854775808u64 {
                    None
                } else if mag == 9223372036854775808u64 {
                    Some(i64::MIN)
                } else {
                    Some(-(mag as i64))
                }
            },
            None => None,
        }
    } else {
        match digits_val_u64(s) {
            Some(v) => {
                if v > 9223372036854775807u64 {
                    None
                } else {
                    Some(v as i64)
                }
            },
            None => None,
        }
    }
}

/// Reads one simple string: `+<payload>\r\n`.
pub fn deserialize_simple_string(simple_string: &[u8]) -> (r: Result<Resp, DeserializeError>)
    requires
        simple_string@.len() >= 1,
    ensures
        simple_string@[0] != SIMPLE_STRING_PREFIX ==> r == Err::<Resp, DeserializeError>(
            DeserializeError::InvalidPrefix,
        ),
        simple_string@[0] == SIMPLE_STRING_PREFIX ==> match r {
            Ok(v) => spec_parse_simple(simple_string@, false) matches Ok(p) && p.0 == v@,
            Err(e) => spec_parse_simple(simple_string@, false) == Err::<
                (RespData, int),
                DeserializeError,
            >(e),
        },
{
    match check_prefix(simple_string, SIMPLE_STRING_PREFIX) {
        Ok(()) => {},
        Err(e) => {
            return Err(e);
        },
    }
    match parse_simple(simple_string, false) {
        Ok((v, _)) => Ok(v),
        Err(e) => Err(e),
    }
}

/// Reads one simple error: `-<payload>\r\n`.
pub fn deserialize_simple_error(simple_error: &[u8]) -> (r: Result<Resp, DeserializeError>)
    requires
        simple_error@.len() >= 1,
    ensures
        simple_error@[0] != SIMPLE_ERROR_PREFIX ==> r == Err::<Resp, DeserializeError>(
            DeserializeError::InvalidPrefix,
        ),
        simple_error@[0] == SIMPLE_ERROR_PREFIX ==> match r {
            Ok(v) => spec_parse_simple(simple_error@, true) matches Ok(p) && p.0 == v@,
            Err(e) => spec_parse_simple(simple_error@, true) == Err::<
                (RespData, int),
                DeserializeError,
            >(e),
        },
{
    match check_prefix(simple_error, SIMPLE_ERROR_PREFIX) {
        Ok(()) => {},
        Err(e) => {
            return Err(e);
        },
    }
    match parse_simple(simple_error, true) {
        Ok((v, _)) => Ok(v),
        Err(e) => Err(e),
    }
}

/// Reads one bulk string: `$<len>\r\n<payload>\r\n`, or `$-1\r\n`.
pub fn deserialize_bulk_string(bulk_string: &[u8]) -> (r: Result<Resp, DeserializeError>)
    requires
        bulk_string@.len() >= 1,
    ensures
        bulk_string@[0] != BULK_STRING_PREFIX ==> r == Err::<Resp, DeserializeError>(
            DeserializeError::InvalidPrefix,
        ),
        bulk_string@[0] == BULK_STRING_PREFIX ==> match r {
            Ok(v) => spec_parse_bulk(bulk_string@) matches Ok(p) && p.0 == v@,
            Err(e) => spec_parse_bulk(bulk_string@) == Err::<(RespData, int), DeserializeError>(e),
        },
{
    match check_prefix(bulk_string, BULK_STRING_PREFIX) {
        Ok(()) => {},
        Err(e) => {
            return Err(e);
        },
    }
    match parse_bulk(bulk_string) {
        Ok((v, _)) => Ok(v),
        Err(e) => Err(e),
    }
}

/// Reads one integer: `:<optional '-'><digits>\r\n`.
pub fn deserialize_integer(input: &[u8]) -> (r: Result<Resp, DeserializeError>)
    requires
        input@.len() >= 1,
    ensures
        input@[0] != INTEGERS_PREFIX ==> r == Err::<Resp, DeserializeError>(
            DeserializeError::InvalidPrefix,
        ),
        input@[0] == INTEGERS_PREFIX ==> match r {
            Ok(v) => spec_parse_integer(input@) matches Ok(p) && p.0 == v@,
            Err(e) => spec_parse_integer(input@) == Err::<(RespData, int), DeserializeError>(e),
        },
{
    match check_prefix(input, INTEGERS_PREFIX) {
        Ok(()) => {},
        Err(e) => {
            return Err(e);
        },
    }
    match parse_integer_value(input) {
        Ok((v, _)) => Ok(v),
        Err(e) => Err(e),
    }
}

/// Reads one array: `*<count>\r\n` then `count` nested values.
pub fn deserialize_array(arr: &[u8]) -> (r: Result<Resp, DeserializeError>)
    requires
        arr@.len() >= 1,
    ensures
        arr@[0] != ARRAY_PREFIX ==> r == Err::<Resp, DeserializeError>(
            DeserializeError::InvalidPrefix,
        ),
        arr@[0] == ARRAY_PREFIX ==> match r {
            Ok(v) => spec_parse(arr@) matches Ok(p) && p.0 == v@,
            Err(e) => spec_parse(arr@) == Err::<(RespData, int), DeserializeError>(e),
        },
{
    match check_prefix(arr, ARRAY_PREFIX) {
        Ok(()) => {},
        Err(e) => {
            return Err(e);
        },
    }
    match parse_value(arr) {
        Ok((v, _)) => Ok(v),
        Err(e) => Err(e),
    }
}

} // verus!
