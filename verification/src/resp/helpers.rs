//! Byte-level helpers of the codec: CRLF search, decimal length
//! parsing, prefix checking, and UTF-8 validation.
use vstd::prelude::*;

use crate::resp::errors::DeserializeError;
use crate::resp::{CR, LF};
use vstd::string::StringSliceAdditionalSpecFns;

verus! {

/// The position of the first CRLF pair in `s`, if any.
pub open spec fn spec_find_crlf(s: Seq<u8>) -> Option<int>
    decreases s.len(),
{
    if s.len() < 2 {
        None
    } else if s[0] == CR && s[1] == LF {
        Some(0)
    } else {
        match spec_find_crlf(s.drop_first()) {
            Some(i) => Some(i + 1),
            None => None,
        }
    }
}

/// What a found CRLF position means: the pair stands there, and no
/// pair stands earlier.
pub proof fn lemma_find_crlf_some(s: Seq<u8>)
    requires
        spec_find_crlf(s) is Some,
    ensures
        0 <= spec_find_crlf(s)->0,
        spec_find_crlf(s)->0 + 1 < s.len(),
        s[spec_find_crlf(s)->0] == CR,
        s[spec_find_crlf(s)->0 + 1] == LF,
        forall|j: int|
            0 <= j < spec_find_crlf(s)->0 ==> !(#[trigger] s[j] == CR && s[j + 1] == LF),
    decreases s.len(),
{
    if s.len() < 2 {
    } else if s[0] == CR && s[1] == LF {
    } else {
        lemma_find_crlf_some(s.drop_first());
        assert forall|j: int| 0 <= j < spec_find_crlf(s)->0 implies !(#[trigger] s[j] == CR && s[
            j + 1] == LF) by {
            if j > 0 {
                assert(s.drop_first()[j - 1] == s[j]);
                assert(s.drop_first()[j] == s[j + 1]);
            }
        }
    }
}

/// The converse: a pair at `k` with none earlier is the one found.
pub proof fn lemma_find_crlf_at(s: Seq<u8>, k: int)
    requires
        0 <= k,
        k + 1 < s.len(),
        s[k] == CR,
        s[k + 1] == LF,
        forall|j: int| 0 <= j < k ==> !(#[trigger] s[j] == CR && s[j + 1] == LF),
    ensures
        spec_find_crlf(s) == Some(k),
    decreases k,
{
    if k > 0 {
        assert forall|j: int| 0 <= j < k - 1 implies !(#[trigger] s.drop_first()[j] == CR
            && s.drop_first()[j + 1] == LF) by {
            assert(s.drop_first()[j] == s[j + 1]);
            assert(s.drop_first()[j + 1] == s[j + 2]);
        }
        assert(s.drop_first()[k - 1] == s[k]);
        assert(s.drop_first()[k] == s[k + 1]);
        lemma_find_crlf_at(s.drop_first(), k - 1);
    }
}

/// No pair anywhere means nothing is found.
pub proof fn lemma_find_crlf_none(s: Seq<u8>)
    requires
        forall|j: int| 0 <= j && j + 1 < s.len() ==> !(#[trigger] s[j] == CR && s[j + 1] == LF),
    ensures
        spec_find_crlf(s) is None,
    decreases s.len(),
{
    if s.len() >= 2 {
        assert forall|j: int| 0 <= j && j + 1 < s.drop_first().len() implies !(
        #[trigger] s.drop_first()[j] == CR && s.drop_first()[j + 1] == LF) by {
            assert(s.drop_first()[j] == s[j + 1]);
            assert(s.drop_first()[j + 1] == s[j + 2]);
        }
        lemma_find_crlf_none(s.drop_first());
    }
}

/// Finds the first `\r\n` terminator in `data`, the absence of which
/// is the `InvalidCRLF` failure.
pub fn find_crlf(data: &[u8]) -> (r: Result<usize, DeserializeError>)
    ensures
        match spec_find_crlf(data@) {
            Some(k) => r == Ok::<usize, DeserializeError>(k as usize),
            None => r == Err::<usize, DeserializeError>(DeserializeError::InvalidCRLF),
        },
{
    let n = data.len();
    if n == 0 {
        proof {
            lemma_find_crlf_none(data@);
        }
        return Err(DeserializeError::InvalidCRLF);
    }
    let mut i: usize = 0;
    while i + 1 < n
        invariant
            i < n,
            n == data@.len(),
            forall|j: int| 0 <= j < i ==> !(#[trigger] data@[j] == CR && data@[j + 1] == LF),
        decreases n - i,
    {
        if data[i] == CR && data[i + 1] == LF {
            proof {
                lemma_find_crlf_at(data@, i as int);
            }
            return Ok(i);
        }
        i += 1;
    }
    proof {
        lemma_find_crlf_none(data@);
    }
    Err(DeserializeError::InvalidCRLF)
}

/// Every byte of `s` is an ASCII decimal digit.
pub open spec fn all_digits(s: Seq<u8>) -> bool {
    forall|i: int| 0 <= i < s.len() ==> 48 <= #[trigger] s[i] <= 57
}

/// The value of a digit string, most significant digit first.
pub open spec fn dec_val(s: Seq<u8>) -> int
    decreases s.len(),
{
    if s.len() == 0 {
        0
    } else {
        dec_val(s.drop_last()) * 10 + (s.last() - 48)
    }
}

pub proof fn lemma_dec_val_nonneg(s: Seq<u8>)
    requires
        all_digits(s),
    ensures
        dec_val(s) >= 0,
    decreases s.len(),
{
    if s.len() > 0 {
        lemma_dec_val_nonneg(s.drop_last());
    }
}

/// Along a digit string, prefixes never decrease in value.
pub proof fn lemma_dec_val_prefix_le(s: Seq<u8>, i: int)
    requires
        all_digits(s),
        0 <= i <= s.len(),
    ensures
        dec_val(s.take(i)) <= dec_val(s),
    decreases s.len() - i,
{
    if i < s.len() {
        lemma_dec_val_nonneg(s.take(i));
        assert(s.take(i + 1).drop_last() =~= s.take(i));
        assert(dec_val(s.take(i + 1)) == dec_val(s.take(i)) * 10 + (s[i] - 48));
        lemma_dec_val_prefix_le(s, i + 1);
    } else {
        assert(s.take(i) =~= s);
    }
}

/// What the length field of a bulk string or array header must be: a
/// nonempty string of decimal digits whose value fits the machine.
pub open spec fn spec_parse_len(s: Seq<u8>) -> Option<int> {
    if s.len() >= 1 && all_digits(s) && dec_val(s) <= usize::MAX {
        Some(dec_val(s))
    } else {
        None
    }
}

/// Parses a length or count field as a nonnegative decimal integer,
/// the `InvalidLength` failure otherwise.
pub fn parse_resp_item_len(input: &[u8]) -> (r: Result<usize, DeserializeError>)
    ensures
        match spec_parse_len(input@) {
            Some(v) => r == Ok::<usize, DeserializeError>(v as usize),
            None => r == Err::<usize, DeserializeError>(DeserializeError::InvalidLength),
        },
{
    let n = input.len();
    if n == 0 {
        return Err(DeserializeError::InvalidLength);
    }
    let mut val: usize = 0;
    let mut i: usize = 0;
    while i < n
        invariant
            0 <= i <= n,
            n == input@.len(),
            all_digits(input@.take(i as int)),
            val == dec_val(input@.take(i as int)),
        decreases n - i,
    {
        let b = input[i];
        if b < 48 || b > 57 {
            return Err(DeserializeError::InvalidLength);
        }
        let d = (b - 48) as usize;
        proof {
            assert(input@.take(i + 1).drop_last() =~= input@.take(i as int));
        }
        let next = match val.checked_mul(10) {
            Some(x) => x.checked_add(d),
            None => None,
        };
        match next {
            Some(x) => {
                val = x;
            },
            None => {
                proof {
                    if all_digits(input@) {
                        lemma_dec_val_prefix_le(input@, i + 1);
                    }
                }
                return Err(DeserializeError::InvalidLength);
            },
        }
        i += 1;
    }
    proof {
        assert(input@.take(n as int) =~= input@);
    }
    Ok(val)
}

/// Checks that the first byte of `input` is the expected type
/// discriminator.
pub fn check_prefix(input: &[u8], prefix: u8) -> (r: Result<(), DeserializeError>)
    requires
        input@.len() >= 1,
    ensures
        r == if input@[0] == prefix {
            Ok::<(), DeserializeError>(())
        } else {
            Err::<(), DeserializeError>(DeserializeError::InvalidPrefix)
        },
{
    if input[0] == prefix {
        return Ok(());
    }
    Err(DeserializeError::InvalidPrefix)
}

/// Whether `bytes` is a valid UTF-8 encoding, decided byte by byte
/// against the UTF-8 well-formedness rules.
pub fn check_utf8(bytes: &[u8]) -> (r: bool)
    ensures
        r == vstd::utf8::valid_utf8(bytes@),
{
    let n = bytes.len();
    let mut pos: usize = 0;
    proof {
        assert(bytes@.skip(0) =~= bytes@);
    }
    while pos < n
        invariant
            pos <= n,
            n == bytes@.len(),
            vstd::utf8::valid_utf8(bytes@) == vstd::utf8::valid_utf8(bytes@.skip(pos as int)),
        decreases n - pos,
    {
        let ghost suf = bytes@.skip(pos as int);
        let b0 = bytes[pos];
        assert(suf[0] == b0);
        if b0 < 0x80 {
            proof {
                assert(vstd::utf8::valid_first_scalar(suf));
                assert(vstd::utf8::pop_first_scalar(suf) =~= bytes@.skip(pos + 1));
            }
            pos += 1;
        } else if 0xc0 <= b0 && b0 <= 0xdf {
            if n - pos < 2 {
                proof {
                    assert(!vstd::utf8::valid_first_scalar(suf));
                }
                return false;
            }
            let b1 = bytes[pos + 1];
            assert(suf[1] == b1);
            if !(0x80 <= b1 && b1 <= 0xbf) {
                proof {
                    assert(!vstd::utf8::valid_first_scalar(suf));
                }
                return false;
            }
            let cp: u32 = (((b0 & 0x1f) as u32) << 6u32) | ((b1 & 0x3f) as u32);
            assert(cp == vstd::utf8::codepoint_width_2(b0, b1));
            if cp < 0x80 {
                proof {
                    assert(!vstd::utf8::valid_first_scalar(suf));
                }
                return false;
            }
            proof {
                assert((((b0 & 0x1f) as u32) << 6u32) | ((b1 & 0x3f) as u32) <= 0x7ff)
                    by (bit_vector);
                assert(vstd::utf8::valid_first_scalar(suf));
                assert(vstd::utf8::pop_first_scalar(suf) =~= bytes@.skip(pos + 2));
            }
            pos += 2;
        } else if 0xe0 <= b0 && b0 <= 0xef {
            if n - pos < 3 {
                proof {
                    assert(!vstd::utf8::valid_first_scalar(suf));
                }
                return false;
            }
            let b1 = bytes[pos + 1];
            let b2 = bytes[pos + 2];
            assert(suf[1] == b1 && suf[2] == b2);
            if !(0x80 <= b1 && b1 <= 0xbf) || !(0x80 <= b2 && b2 <= 0xbf) {
                proof {
                    assert(!vstd::utf8::valid_first_scalar(suf));
                }
                return false;
            }
            let cp: u32 = (((b0 & 0x0f) as u32) << 12u32) | (((b1 & 0x3f) as u32) << 6u32) | ((b2
                & 0x3f) as u32);
            assert(cp == vstd::utf8::codepoint_width_3(b0, b1, b2));
            if cp < 0x800 || (0xd800 <= cp && cp <= 0xdfff) {
                proof {
                    assert(!vstd::utf8::valid_first_scalar(suf));
                }
                return false;
            }
            proof {
                assert(vstd::utf8::valid_first_scalar(suf));
                assert(vstd::utf8::pop_first_scalar(suf) =~= bytes@.skip(pos + 3));
            }
            pos += 3;
        } else if 0xf0 <= b0 && b0 <= 0xf7 {
            if n - pos < 4 {
                proof {
                    assert(!vstd::utf8::valid_first_scalar(suf));
                }
                return false;
            }
            let b1 = bytes[pos + 1];
            let b2 = bytes[pos + 2];
            let b3 = bytes[pos + 3];
            assert(suf[1] == b1 && suf[2] == b2 && suf[3] == b3);
            if !(0x80 <= b1 && b1 <= 0xbf) || !(0x80 <= b2 && b2 <= 0xbf) || !(0x80 <= b3 && b3
                <= 0xbf) {
                proof {
                    assert(!vstd::utf8::valid_first_scalar(suf));
                }
                return false;
            }
            let cp: u32 = (((b0 & 0x07) as u32) << 18u32) | (((b1 & 0x3f) as u32) << 12u32) | (((b2
                & 0x3f) as u32) << 6u32) | ((b3 & 0x3f) as u32);
            assert(cp == vstd::utf8::codepoint_width_4(b0, b1, b2, b3));
            if cp < 0x10000 || cp > 0x10ffff {
                proof {
                    assert(!vstd::utf8::valid_first_scalar(suf));
                }
                return false;
            }
            proof {
                assert(vstd::utf8::valid_first_scalar(suf));
                assert(vstd::utf8::pop_first_scalar(suf) =~= bytes@.skip(pos + 4));
            }
            pos += 4;
        } else {
            proof {
                assert(!vstd::utf8::valid_first_scalar(suf));
            }
            return false;
        }
    }
    proof {
        assert(bytes@.skip(n as int) =~= Seq::<u8>::empty());
    }
    true
}

/// Checks that `input` is valid UTF-8, the `InvalidUtf8` failure
/// otherwise.
pub fn is_valid_utf8(input: &[u8]) -> (r: Result<(), DeserializeError>)
    ensures
        r == if vstd::utf8::valid_utf8(input@) {
            Ok::<(), DeserializeError>(())
        } else {
            Err::<(), DeserializeError>(DeserializeError::InvalidUtf8)
        },
{
    if check_utf8(input) {
        Ok(())
    } else {
        Err(DeserializeError::InvalidUtf8)
    }
}

/// Relies on std's `str::from_utf8`: a byte slice that is valid UTF-8
/// converts, without copying, to the `str` over exactly those bytes.
#[verifier::external_body]
pub fn bytes_as_str(b: &[u8]) -> (r: &str)
    requires
        vstd::utf8::valid_utf8(b@),
    ensures
        r.spec_bytes() == b@,
{
    std::str::from_utf8(b).unwrap()
}

/// Whether two byte slices hold the same bytes.
pub fn slice_eq(a: &[u8], b: &[u8]) -> (r: bool)
    ensures
        r == (a@ == b@),
{
    if a.len() != b.len() {
        return false;
    }
    let n = a.len();
    let mut i: usize = 0;
    while i < n
        invariant
            i <= n,
            n == a@.len() == b@.len(),
            forall|j: int| 0 <= j < i ==> a@[j] == b@[j],
        decreases n - i,
    {
        if a[i] != b[i] {
            return false;
        }
        i += 1;
    }
    proof {
        assert(a@ =~= b@);
    }
    true
}

/// Appends all of `s` to `out`.
pub fn push_all(out: &mut Vec<u8>, s: &[u8])
    ensures
        final(out)@ == old(out)@ + s@,
{
    let n = s.len();
    let mut i: usize = 0;
    while i < n
        invariant
            i <= n,
            n == s@.len(),
            out@ == old(out)@ + s@.take(i as int),
        decreases n - i,
    {
        out.push(s[i]);
        proof {
            assert(old(out)@ + s@.take(i + 1) =~= (old(out)@ + s@.take(i as int)).push(s@[i as int]));
        }
        i += 1;
    }
    proof {
        assert(s@.take(n as int) =~= s@);
    }
}

} // verus!
