//! The RESP value model: a tagged variant for every wire type, the
//! canonical encoding as a specification, and executable operations
//! (serialize, deserialize, size) proved against it.
use vstd::prelude::*;

pub mod deserialize;
pub mod errors;
pub mod helpers;
pub mod laws;
pub mod serialize;
pub mod string;

use crate::resp::errors::{DeserializeError, SerializeError};
use vstd::string::{StrSliceExecFns, StringSliceAdditionalSpecFns};

verus! {

/// One RESP wire value. `SimpleString` and `SimpleError` carry a single
/// line of UTF-8 with no CR or LF; `BulkString` carries arbitrary bytes;
/// `NullBulkString` is the distinguished absent value `$-1\r\n`;
/// `Array` is an ordered, possibly nested sequence.
#[derive(Debug)]
pub enum Resp {
    SimpleString(Vec<u8>),
    SimpleError(Vec<u8>),
    BulkString(Vec<u8>),
    NullBulkString,
    Array(Vec<Resp>),
    Integers(i64),
}

/// The mathematical shape of a RESP value: what a `Resp` holds, with
/// byte vectors abstracted to sequences. All contracts of the codec
/// speak of this type.
#[verifier::ext_equal]
pub enum RespData {
    SimpleString(Seq<u8>),
    SimpleError(Seq<u8>),
    BulkString(Seq<u8>),
    NullBulkString,
    Array(Seq<RespData>),
    Integers(int),
}

/// The abstraction of `items[i..]`, element by element.
pub open spec fn resp_view_items(items: Vec<Resp>, i: int) -> Seq<RespData>
    decreases items, items.len() - i,
{
    if i < 0 || i >= items.len() {
        Seq::empty()
    } else {
        seq![resp_view(items[i])] + resp_view_items(items, i + 1)
    }
}

/// The abstraction of one `Resp` value.
pub open spec fn resp_view(v: Resp) -> RespData
    decreases v, 0nat,
{
    match v {
        Resp::SimpleString(s) => RespData::SimpleString(s@),
        Resp::SimpleError(s) => RespData::SimpleError(s@),
        Resp::BulkString(b) => RespData::BulkString(b@),
        Resp::NullBulkString => RespData::NullBulkString,
        Resp::Array(items) => RespData::Array(resp_view_items(items, 0)),
        Resp::Integers(i) => RespData::Integers(i as int),
    }
}

/// The abstractions of a sequence of values, element by element.
pub open spec fn slice_views(s: Seq<Resp>) -> Seq<RespData> {
    s.map_values(|r: Resp| resp_view(r))
}

impl View for Resp {
    type V = RespData;

    open spec fn view(&self) -> RespData {
        resp_view(*self)
    }
}

pub proof fn lemma_resp_view_items_len(items: Vec<Resp>, i: int)
    requires
        0 <= i <= items.len(),
    ensures
        resp_view_items(items, i).len() == items.len() - i,
        forall|j: int|
            i <= j < items.len() ==> resp_view_items(items, i)[j - i] == resp_view(items[j]),
    decreases items.len() - i,
{
    if i < items.len() {
        lemma_resp_view_items_len(items, i + 1);
    }
}

pub const SIMPLE_STRING_PREFIX: u8 = 43u8;
pub const BULK_STRING_PREFIX: u8 = 36u8;
pub const ARRAY_PREFIX: u8 = 42u8;
pub const SIMPLE_ERROR_PREFIX: u8 = 45u8;
pub const INTEGERS_PREFIX: u8 = 58u8;
pub const CR: u8 = 13u8;
pub const LF: u8 = 10u8;

/// The two-byte terminator `\r\n`.
pub open spec fn spec_crlf() -> Seq<u8> {
    seq![CR, LF]
}

/// Canonical decimal digits of `n`, most significant first.
pub open spec fn spec_digits(n: nat) -> Seq<u8>
    decreases n,
{
    if n < 10 {
        seq![(48 + n) as u8]
    } else {
        spec_digits(n / 10) + seq![(48 + n % 10) as u8]
    }
}

/// Canonical decimal form of a signed value: a leading `-` for
/// negative values, then the digits of the magnitude.
pub open spec fn spec_int_digits(i: int) -> Seq<u8> {
    if i < 0 {
        seq![45u8] + spec_digits((-i) as nat)
    } else {
        spec_digits(i as nat)
    }
}

/// The canonical RESP encoding, as the wire format defines it.
pub open spec fn spec_encode(d: RespData) -> Seq<u8>
    decreases d, 1nat,
{
    match d {
        RespData::SimpleString(s) => seq![SIMPLE_STRING_PREFIX] + s + spec_crlf(),
        RespData::SimpleError(s) => seq![SIMPLE_ERROR_PREFIX] + s + spec_crlf(),
        RespData::BulkString(b) => seq![BULK_STRING_PREFIX] + spec_digits(b.len()) + spec_crlf()
            + b + spec_crlf(),
        RespData::NullBulkString => seq![BULK_STRING_PREFIX, 45u8, 49u8] + spec_crlf(),
        RespData::Array(items) => seq![ARRAY_PREFIX] + spec_digits(items.len()) + spec_crlf()
            + spec_encode_seq(items),
        RespData::Integers(i) => seq![INTEGERS_PREFIX] + spec_int_digits(i) + spec_crlf(),
    }
}

/// The concatenated encodings of a sequence of values.
pub open spec fn spec_encode_seq(items: Seq<RespData>) -> Seq<u8>
    decreases items, 0nat,
{
    if items.len() == 0 {
        Seq::empty()
    } else {
        spec_encode(items[0]) + spec_encode_seq(items.drop_first())
    }
}

/// A value all of whose simple-string and simple-error payloads are
/// valid UTF-8: exactly the values that `serialize` accepts.
pub open spec fn utf8_ok(d: RespData) -> bool
    decreases d, 1nat,
{
    match d {
        RespData::SimpleString(s) => vstd::utf8::valid_utf8(s),
        RespData::SimpleError(s) => vstd::utf8::valid_utf8(s),
        RespData::BulkString(_) => true,
        RespData::NullBulkString => true,
        RespData::Array(items) => utf8_ok_seq(items),
        RespData::Integers(_) => true,
    }
}

pub open spec fn utf8_ok_seq(items: Seq<RespData>) -> bool
    decreases items, 0nat,
{
    items.len() == 0 || (utf8_ok(items[0]) && utf8_ok_seq(items.drop_first()))
}

/// A well-formed wire value: simple payloads are UTF-8 and hold no CR
/// or LF, lengths fit the machine, integers fit a signed 64-bit word,
/// and arrays are well-formed throughout. Every value built from
/// executable data is well-formed but for the UTF-8 and CR/LF side
/// conditions, and every such value round-trips through the codec.
pub open spec fn wf_data(d: RespData) -> bool
    decreases d, 1nat,
{
    match d {
        RespData::SimpleString(s) => vstd::utf8::valid_utf8(s) && no_cr_lf(s),
        RespData::SimpleError(s) => vstd::utf8::valid_utf8(s) && no_cr_lf(s),
        RespData::BulkString(b) => b.len() <= usize::MAX,
        RespData::NullBulkString => true,
        RespData::Array(items) => items.len() <= usize::MAX && wf_data_seq(items),
        RespData::Integers(i) => i64::MIN <= i <= i64::MAX,
    }
}

pub open spec fn wf_data_seq(items: Seq<RespData>) -> bool
    decreases items, 0nat,
{
    items.len() == 0 || (wf_data(items[0]) && wf_data_seq(items.drop_first()))
}

/// No byte of `s` is CR or LF.
pub open spec fn no_cr_lf(s: Seq<u8>) -> bool {
    forall|i: int| 0 <= i < s.len() ==> s[i] != CR && s[i] != LF
}

/// The byte length a value occupies when serialized, written as the
/// direct arithmetic the wire format dictates.
pub open spec fn spec_size(d: RespData) -> nat
    decreases d, 1nat,
{
    match d {
        RespData::SimpleString(s) => s.len() + 3,
        RespData::SimpleError(s) => s.len() + 3,
        RespData::BulkString(b) => 1 + spec_digit_count(b.len()) + 2 + b.len() + 2,
        RespData::NullBulkString => 5,
        RespData::Array(items) => 1 + spec_digit_count(items.len()) + 2 + spec_size_seq(items),
        RespData::Integers(i) => (if i < 0 {
            2nat
        } else {
            1nat
        }) + spec_digit_count(if i < 0 {
            (-i) as nat
        } else {
            i as nat
        }) + 2,
    }
}

pub open spec fn spec_size_seq(items: Seq<RespData>) -> nat
    decreases items, 0nat,
{
    if items.len() == 0 {
        0
    } else {
        spec_size(items[0]) + spec_size_seq(items.drop_first())
    }
}

/// How many decimal digits `n` has.
pub open spec fn spec_digit_count(n: nat) -> nat
    decreases n,
{
    if n < 10 {
        1
    } else {
        1 + spec_digit_count(n / 10)
    }
}

pub proof fn lemma_digits_len(n: nat)
    ensures
        spec_digits(n).len() == spec_digit_count(n),
        spec_digits(n).len() >= 1,
    decreases n,
{
    if n >= 10 {
        lemma_digits_len(n / 10);
    }
}

/// Size consistency: the declared size of a value is exactly the length
/// of its canonical encoding. This holds of every value, well-formed or
/// not.
pub proof fn lemma_size_is_encoding_len(d: RespData)
    ensures
        spec_size(d) == spec_encode(d).len(),
    decreases d, 1nat,
{
    match d {
        RespData::SimpleString(s) => {},
        RespData::SimpleError(s) => {},
        RespData::BulkString(b) => {
            lemma_digits_len(b.len());
        },
        RespData::NullBulkString => {},
        RespData::Array(items) => {
            lemma_digits_len(items.len());
            lemma_size_seq_is_encoding_len(items);
        },
        RespData::Integers(i) => {
            if i < 0 {
                lemma_digits_len((-i) as nat);
            } else {
                lemma_digits_len(i as nat);
            }
        },
    }
}

pub proof fn lemma_size_seq_is_encoding_len(items: Seq<RespData>)
    ensures
        spec_size_seq(items) == spec_encode_seq(items).len(),
    decreases items, 0nat,
{
    if items.len() > 0 {
        lemma_size_is_encoding_len(items[0]);
        lemma_size_seq_is_encoding_len(items.drop_first());
    }
}

/// Appending one value to a sequence appends its encoding.
pub proof fn lemma_encode_seq_snoc(items: Seq<RespData>, x: RespData)
    ensures
        spec_encode_seq(items.push(x)) == spec_encode_seq(items) + spec_encode(x),
    decreases items.len(),
{
    if items.len() == 0 {
        assert(items.push(x)[0] == x);
        assert(items.push(x).drop_first() =~= Seq::<RespData>::empty());
        assert(spec_encode_seq(items.push(x)) == spec_encode(x) + spec_encode_seq(
            Seq::<RespData>::empty(),
        ));
        assert(spec_encode_seq(items.push(x)) =~= spec_encode_seq(items) + spec_encode(x));
    } else {
        assert(items.push(x)[0] == items[0]);
        assert(items.push(x).drop_first() =~= items.drop_first().push(x));
        lemma_encode_seq_snoc(items.drop_first(), x);
        assert(spec_encode_seq(items.push(x)) =~= spec_encode_seq(items) + spec_encode(x));
    }
}

pub proof fn lemma_size_seq_snoc(items: Seq<RespData>, x: RespData)
    ensures
        spec_size_seq(items.push(x)) == spec_size_seq(items) + spec_size(x),
    decreases items.len(),
{
    if items.len() == 0 {
        assert(items.push(x)[0] == x);
        assert(items.push(x).drop_first() =~= Seq::<RespData>::empty());
        assert(spec_size_seq(items.push(x)) == spec_size(x) + spec_size_seq(
            Seq::<RespData>::empty(),
        ));
    } else {
        assert(items.push(x)[0] == items[0]);
        assert(items.push(x).drop_first() =~= items.drop_first().push(x));
        lemma_size_seq_snoc(items.drop_first(), x);
        assert(spec_size_seq(items.push(x)) == spec_size(items[0]) + spec_size_seq(
            items.drop_first().push(x),
        ));
        assert(spec_size_seq(items) == spec_size(items[0]) + spec_size_seq(items.drop_first()));
    }
}

pub proof fn lemma_utf8_ok_seq_snoc(items: Seq<RespData>, x: RespData)
    ensures
        utf8_ok_seq(items.push(x)) == (utf8_ok_seq(items) && utf8_ok(x)),
    decreases items.len(),
{
    if items.len() == 0 {
        assert(items.push(x)[0] == x);
        assert(items.push(x).drop_first() =~= Seq::<RespData>::empty());
        assert(utf8_ok_seq(items.push(x)) == (utf8_ok(x) && utf8_ok_seq(
            Seq::<RespData>::empty(),
        )));
    } else {
        assert(items.push(x)[0] == items[0]);
        assert(items.push(x).drop_first() =~= items.drop_first().push(x));
        lemma_utf8_ok_seq_snoc(items.drop_first(), x);
        assert(utf8_ok_seq(items.push(x)) == (utf8_ok(items[0]) && utf8_ok_seq(
            items.drop_first().push(x),
        )));
        assert(utf8_ok_seq(items) == (utf8_ok(items[0]) && utf8_ok_seq(items.drop_first())));
    }
}


/// Each element of a well-formed sequence is well-formed; likewise for
/// the UTF-8 condition.
pub proof fn lemma_seq_flags_index(items: Seq<RespData>, i: int)
    requires
        0 <= i < items.len(),
    ensures
        utf8_ok_seq(items) ==> utf8_ok(items[i]),
        wf_data_seq(items) ==> wf_data(items[i]),
    decreases items.len(),
{
    if i > 0 {
        lemma_seq_flags_index(items.drop_first(), i - 1);
    }
}

/// The size of a sequence splits at any point.
pub proof fn lemma_size_seq_split(items: Seq<RespData>, j: int)
    requires
        0 <= j <= items.len(),
    ensures
        spec_size_seq(items) == spec_size_seq(items.take(j)) + spec_size_seq(items.skip(j)),
    decreases j,
{
    if j == 0 {
        assert(items.take(0) =~= Seq::<RespData>::empty());
        assert(items.skip(0) =~= items);
    } else {
        lemma_size_seq_split(items, j - 1);
        assert(items.take(j) =~= items.take(j - 1).push(items[j - 1]));
        lemma_size_seq_snoc(items.take(j - 1), items[j - 1]);
        assert(items.skip(j - 1)[0] == items[j - 1]);
        assert(items.skip(j - 1).drop_first() =~= items.skip(j));
    }
}


impl Resp {
    /// Produces the canonical RESP encoding of this value. Fails, with
    /// the one serialization failure kind, exactly when a simple
    /// string or simple error payload is not valid UTF-8.
    pub fn serialize(self) -> (r: Result<Vec<u8>, SerializeError>)
        ensures
            utf8_ok(self@) ==> (r matches Ok(b) && b@ == spec_encode(self@)),
            !utf8_ok(self@) ==> r == Err::<Vec<u8>, SerializeError>(SerializeError::InvalidUtf8),
    {
        serialize::serialize_value(&self)
    }

    /// A bulk string over the bytes of `value`.
    pub fn bulk_string_from_str(value: &str) -> (r: Self)
        ensures
            r@ == RespData::BulkString(value.spec_bytes()),
    {
        Resp::BulkString(value.as_bytes_vec())
    }

    /// A simple string over the bytes of `value`.
    pub fn simple_string_from_str(value: &str) -> (r: Self)
        ensures
            r@ == RespData::SimpleString(value.spec_bytes()),
    {
        Resp::SimpleString(value.as_bytes_vec())
    }

    /// The distinguished null bulk string.
    pub fn null_bulk_string() -> (r: Self)
        ensures
            r@ == RespData::NullBulkString,
    {
        Resp::NullBulkString
    }

    /// Whether this value is a bulk string.
    pub fn is_bulk_string(&self) -> (r: bool)
        ensures
            r == (self@ is BulkString),
    {
        match self {
            Resp::BulkString(_) => true,
            _ => false,
        }
    }

    /// The payload of a simple string or bulk string as text. The
    /// payload must be valid UTF-8: the caller either built the value
    /// from text or checked it.
    pub fn as_str(&self) -> (r: Result<&str, ()>)
        requires
            self@ matches RespData::BulkString(b) ==> vstd::utf8::valid_utf8(b),
            self@ matches RespData::SimpleString(s) ==> vstd::utf8::valid_utf8(s),
        ensures
            match r {
                Ok(s) => (self@ matches RespData::BulkString(b) && s.spec_bytes() == b) || (
                self@ matches RespData::SimpleString(p) && s.spec_bytes() == p),
                Err(()) => !(self@ is BulkString) && !(self@ is SimpleString),
            },
    {
        match self {
            Resp::BulkString(bulk) => Ok(helpers::bytes_as_str(bulk.as_slice())),
            Resp::SimpleString(simple_string) => Ok(helpers::bytes_as_str(
                simple_string.as_slice(),
            )),
            _ => Err(()),
        }
    }

    /// Parses exactly one RESP value from the start of `input`.
    /// Trailing bytes are not consumed; `self.size()` recovers how many
    /// bytes the value occupied. Empty or truncated input fails with
    /// `InvalidCRLF`, an unknown discriminator with `InvalidPrefix`.
    pub fn deserialize(input: &[u8]) -> (r: Result<Resp, DeserializeError>)
        ensures
            match r {
                Ok(v) => deserialize::spec_parse(input@) matches Ok(p) && p.0 == v@,
                Err(e) => deserialize::spec_parse(input@) == Err::<
                    (RespData, int),
                    DeserializeError,
                >(e),
            },
    {
        match deserialize::parse_value(input) {
            Ok((v, _)) => Ok(v),
            Err(e) => Err(e),
        }
    }

    /// The exact byte length this value occupies when serialized.
    #[verifier::loop_isolation(false)]
    pub fn size(&self) -> (r: usize)
        requires
            spec_size(self@) <= usize::MAX,
        ensures
            r == spec_size(self@),
        decreases *self,
    {
        match self {
            Resp::SimpleString(string) => string.len() + 3,
            Resp::SimpleError(string) => string.len() + 3,
            Resp::BulkString(string) => {
                let len = string.len();
                1 + serialize::digit_count_u64(len as u64) + 2 + len + 2
            },
            Resp::NullBulkString => 5,
            Resp::Array(arr) => {
                let ghost view_items = resp_view_items(*arr, 0);
                proof {
                    lemma_resp_view_items_len(*arr, 0);
                }
                let header: usize = 1 + serialize::digit_count_u64(arr.len() as u64) + 2;
                let mut acc: usize = header;
                let mut i: usize = 0;
                proof {
                    assert(view_items.take(0) =~= Seq::<RespData>::empty());
                }
                while i < arr.len()
                    invariant
                        0 <= i <= arr.len(),
                        view_items.len() == arr.len(),
                        forall|j: int|
                            0 <= j < arr.len() ==> view_items[j] == resp_view(#[trigger] arr[j]),
                        spec_size(RespData::Array(view_items)) <= usize::MAX,
                        header == 1 + spec_digit_count(view_items.len()) + 2,
                        acc == header + spec_size_seq(view_items.take(i as int)),
                    decreases arr.len() - i,
                {
                    proof {
                        lemma_seq_flags_index(view_items, i as int);
                        lemma_size_seq_split(view_items, i as int);
                        assert(view_items.skip(i as int)[0] == view_items[i as int]);
                        assert(view_items.skip(i as int).drop_first() =~= view_items.skip(
                            i as int + 1));
                        lemma_size_seq_snoc(view_items.take(i as int), view_items[i as int]);
                        assert(view_items.take(i as int).push(view_items[i as int])
                            =~= view_items.take(i as int + 1));
                    }
                    proof {
                        assert(decreases_to!(*self => (*self)->Array_0));
                        assert(decreases_to!((*self)->Array_0 => (*self)->Array_0@));
                        assert(decreases_to!((*self)->Array_0@ => (*self)->Array_0@[i as int]));
                        assert((*self)->Array_0 == *arr);
                    }
                    let cur = &arr[i];
                    let s = cur.size();
                    acc = acc + s;
                    i += 1;
                }
                proof {
                    assert(view_items.take(arr.len() as int) =~= view_items);
                }
                acc
            },
            Resp::Integers(n) => {
                let header_len: usize = if *n < 0 {
                    2
                } else {
                    1
                };
                let mag: u64 = if *n >= 0 {
                    *n as u64
                } else if *n == i64::MIN {
                    9223372036854775808u64
                } else {
                    (-*n) as u64
                };
                header_len + serialize::digit_count_u64(mag) + 2
            },
        }
    }
}


/// Whether two byte vectors hold the same bytes.
pub fn bytes_eq(a: &Vec<u8>, b: &Vec<u8>) -> (r: bool)
    ensures
        r == (a@ == b@),
{
    if a.len() != b.len() {
        return false;
    }
    let n = a.len();
    let mut i: usize = 0;
    while i < n
        invariant
            i <= n,
            n == a@.len() == b@.len(),
            forall|j: int| 0 <= j < i ==> a@[j] == b@[j],
        decreases n - i,
    {
        if a[i] != b[i] {
            return false;
        }
        i += 1;
    }
    proof {
        assert(a@ =~= b@);
    }
    true
}

/// Whether two values are equal, bulk payloads byte for byte, arrays
/// element by element.
#[verifier::loop_isolation(false)]
pub fn resp_eq(a: &Resp, b: &Resp) -> (r: bool)
    ensures
        r == (a@ == b@),
    decreases *a,
{
    match (a, b) {
        (Resp::SimpleString(x), Resp::SimpleString(y)) => bytes_eq(x, y),
        (Resp::SimpleError(x), Resp::SimpleError(y)) => bytes_eq(x, y),
        (Resp::BulkString(x), Resp::BulkString(y)) => bytes_eq(x, y),
        (Resp::NullBulkString, Resp::NullBulkString) => true,
        (Resp::Integers(x), Resp::Integers(y)) => x == y,
        (Resp::Array(xs), Resp::Array(ys)) => {
            proof {
                lemma_resp_view_items_len(*xs, 0);
                lemma_resp_view_items_len(*ys, 0);
            }
            if xs.len() != ys.len() {
                proof {
                    assert(resp_view_items(*xs, 0).len() != resp_view_items(*ys, 0).len());
                }
                return false;
            }
            let n = xs.len();
            let mut i: usize = 0;
            while i < n
                invariant
                    i <= n,
                    forall|j: int|
                        0 <= j < i ==> resp_view_items(*xs, 0)[j] == #[trigger] resp_view_items(
                            *ys,
                            0,
                        )[j],
                decreases n - i,
            {
                proof {
                    assert(decreases_to!(*a => (*a)->Array_0));
                    assert(decreases_to!((*a)->Array_0 => (*a)->Array_0@));
                    assert(decreases_to!((*a)->Array_0@ => (*a)->Array_0@[i as int]));
                    assert((*a)->Array_0 == *xs);
                }
                if !resp_eq(&xs[i], &ys[i]) {
                    proof {
                        assert(resp_view_items(*xs, 0)[i as int] != resp_view_items(
                            *ys,
                            0,
                        )[i as int]);
                    }
                    return false;
                }
                i += 1;
            }
            proof {
                assert(resp_view_items(*xs, 0) =~= resp_view_items(*ys, 0));
            }
            true
        },
        _ => {
            proof {
                assert(a@ != b@);
            }
            false
        },
    }
}

impl PartialEq for Resp {
    fn eq(&self, other: &Resp) -> (r: bool) {
        resp_eq(self, other)
    }
}

impl Eq for Resp {

}

impl vstd::std_specs::cmp::PartialEqSpecImpl for Resp {
    open spec fn obeys_eq_spec() -> bool {
        true
    }

    open spec fn eq_spec(&self, other: &Resp) -> bool {
        self@ == other@
    }
}

/// A deep copy: the same value in fresh storage.
#[verifier::loop_isolation(false)]
pub fn resp_duplicate(v: &Resp) -> (r: Resp)
    ensures
        r@ == v@,
    decreases *v,
{
    match v {
        Resp::SimpleString(x) => Resp::SimpleString(copy_bytes(x)),
        Resp::SimpleError(x) => Resp::SimpleError(copy_bytes(x)),
        Resp::BulkString(x) => Resp::BulkString(copy_bytes(x)),
        Resp::NullBulkString => Resp::NullBulkString,
        Resp::Integers(x) => Resp::Integers(*x),
        Resp::Array(xs) => {
            proof {
                lemma_resp_view_items_len(*xs, 0);
            }
            let n = xs.len();
            let mut out: Vec<Resp> = Vec::new();
            let mut i: usize = 0;
            while i < n
                invariant
                    i <= n,
                    out@.len() == i,
                    forall|j: int|
                        0 <= j < i ==> #[trigger] resp_view(out@[j]) == resp_view_items(*xs, 0)[j],
                decreases n - i,
            {
                proof {
                    assert(decreases_to!(*v => (*v)->Array_0));
                    assert(decreases_to!((*v)->Array_0 => (*v)->Array_0@));
                    assert(decreases_to!((*v)->Array_0@ => (*v)->Array_0@[i as int]));
                    assert((*v)->Array_0 == *xs);
                }
                let c = resp_duplicate(&xs[i]);
                out.push(c);
                i += 1;
            }
            let r = Resp::Array(out);
            proof {
                lemma_resp_view_items_len(r->Array_0, 0);
                assert forall|j: int| 0 <= j < out@.len() implies resp_view_items(
                    r->Array_0,
                    0,
                )[j] == resp_view_items(*xs, 0)[j] by {
                    assert(resp_view_items(r->Array_0, 0)[j - 0] == resp_view(out@[j]));
                }
                assert(resp_view_items(r->Array_0, 0) =~= resp_view_items(*xs, 0));
            }
            r
        },
    }
}

/// A fresh vector holding the same bytes.
pub fn copy_bytes(v: &Vec<u8>) -> (r: Vec<u8>)
    ensures
        r@ == v@,
{
    let mut out: Vec<u8> = Vec::new();
    crate::resp::helpers::push_all(&mut out, v.as_slice());
    proof {
        assert(out@ =~= v@);
    }
    out
}

} // verus!
