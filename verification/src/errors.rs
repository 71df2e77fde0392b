//! The error taxonomy: every kind carries its canonical user-visible
//! message, and any of them can be written to the wire as a RESP
//! simple error.
use vstd::prelude::*;

pub mod resp;

use crate::resp::errors::{DeserializeError, SerializeError};
use crate::resp::{Resp, RespData};
use vstd::string::{StrSliceExecFns, StringExecFns, StringSliceAdditionalSpecFns};

verus! {

/// Everything that can go wrong while serving a request, each kind
/// with one canonical message.
#[derive(Debug)]
pub enum RustRedisError {
    InvalidCommand(String),
    UnknownCommand(String),
    InvalidArgLength(String, String, String),
    SerializeError(SerializeError),
    DeserializeError(DeserializeError),
    InvalidArgType(String),
    InvalidArg(String, String, String),
    InvalidExpiry,
    InvalidConfigField(String),
}

impl RustRedisError {
    /// The canonical user-visible text of this error.
    pub open spec fn spec_message(self) -> Seq<char> {
        match self {
            RustRedisError::InvalidCommand(s) => "ERR invalid command '"@ + s@ + "'"@,
            RustRedisError::UnknownCommand(s) => "ERR unknown command '"@ + s@ + "'"@,
            RustRedisError::InvalidArgLength(cmd, expected, got) =>
                "ERR wrong number of arguments for '"@ + cmd@ + "' expected "@ + expected@
                + " command got "@ + got@,
            RustRedisError::SerializeError(e) => e.spec_message(),
            RustRedisError::DeserializeError(e) => e.spec_message(),
            RustRedisError::InvalidArgType(expected) => "Invalid args expected: '"@ + expected@
                + "'"@,
            RustRedisError::InvalidArg(cmd, expected, got) => "Invalid arg for command "@ + cmd@
                + " expected "@ + expected@ + " got "@ + got@,
            RustRedisError::InvalidExpiry => "Could not parse expiration to a valid number"@,
            RustRedisError::InvalidConfigField(s) => "ERR invalid config field '"@ + s@ + "'"@,
        }
    }

    /// Builds the canonical message.
    pub fn message(&self) -> (r: String)
        ensures
            r@ == self.spec_message(),
    {
        match self {
            RustRedisError::InvalidCommand(s) => {
                let mut m = String::from_str("ERR invalid command '");
                m.append(s.as_str());
                m.append("'");
                m
            },
            RustRedisError::UnknownCommand(s) => {
                let mut m = String::from_str("ERR unknown command '");
                m.append(s.as_str());
                m.append("'");
                m
            },
            RustRedisError::InvalidArgLength(cmd, expected, got) => {
                let mut m = String::from_str("ERR wrong number of arguments for '");
                m.append(cmd.as_str());
                m.append("' expected ");
                m.append(expected.as_str());
                m.append(" command got ");
                m.append(got.as_str());
                m
            },
            RustRedisError::SerializeError(e) => String::from_str(e.message()),
            RustRedisError::DeserializeError(e) => String::from_str(e.message()),
            RustRedisError::InvalidArgType(expected) => {
                let mut m = String::from_str("Invalid args expected: '");
                m.append(expected.as_str());
                m.append("'");
                m
            },
            RustRedisError::InvalidArg(cmd, expected, got) => {
                let mut m = String::from_str("Invalid arg for command ");
                m.append(cmd.as_str());
                m.append(" expected ");
                m.append(expected.as_str());
                m.append(" got ");
                m.append(got.as_str());
                m
            },
            RustRedisError::InvalidExpiry => String::from_str(
                "Could not parse expiration to a valid number",
            ),
            RustRedisError::InvalidConfigField(s) => {
                let mut m = String::from_str("ERR invalid config field '");
                m.append(s.as_str());
                m.append("'");
                m
            },
        }
    }

    /// The wire form of this error: a RESP simple error carrying the
    /// canonical message.
    pub fn to_resp(&self) -> (r: Resp)
        ensures
            r@ == RespData::SimpleError(vstd::utf8::encode_utf8(self.spec_message())),
    {
        let m = self.message();
        Resp::SimpleError(m.as_str().as_bytes_vec())
    }
}

/// The decimal text of `n`, as a string.
pub fn usize_string(n: usize) -> (r: String)
    ensures
        vstd::utf8::encode_utf8(r@) == crate::resp::spec_digits(n as nat),
{
    let d = crate::resp::serialize::digits_of(n as u64);
    proof {
        crate::resp::laws::lemma_digits_bounds(n as nat);
        assert forall|i: int| 0 <= i < d@.len() implies #[trigger] d@[i] < 0x80 by {
            assert(48 <= d@[i] <= 57);
        }
        crate::resp::laws::lemma_ascii_valid_utf8(d@);
    }
    let s = crate::resp::helpers::bytes_as_str(d.as_slice());
    String::from_str(s)
}

} // verus!
