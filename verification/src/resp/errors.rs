//! The error kinds of the RESP codec, each with its canonical
//! user-visible message.
use vstd::prelude::*;

verus! {

/// Why a byte sequence failed to parse as a RESP value.
#[derive(Debug, PartialEq, Eq, Structural, Clone, Copy)]
pub enum DeserializeError {
    InvalidPrefix,
    InvalidCRLF,
    InvalidUtf8,
    InvalidLength,
    InvalidInteger,
}

/// Why a RESP value failed to serialize: the one cause is a simple
/// string or simple error payload that is not valid UTF-8.
#[derive(Debug, PartialEq, Eq, Structural, Clone, Copy)]
pub enum SerializeError {
    InvalidUtf8,
}

impl DeserializeError {
    /// The canonical message for this kind, as written on the wire
    /// inside a RESP simple error.
    pub open spec fn spec_message(self) -> Seq<char> {
        match self {
            DeserializeError::InvalidPrefix => "ERR invalid resp prefix"@,
            DeserializeError::InvalidCRLF => "ERR invalid crlf"@,
            DeserializeError::InvalidUtf8 => "ERR invalid UTF-8"@,
            DeserializeError::InvalidLength => "ERR invalid length"@,
            DeserializeError::InvalidInteger => "ERR invalid integer"@,
        }
    }

    pub fn message(&self) -> (r: &'static str)
        ensures
            r@ == self.spec_message(),
    {
        match self {
            DeserializeError::InvalidPrefix => "ERR invalid resp prefix",
            DeserializeError::InvalidCRLF => "ERR invalid crlf",
            DeserializeError::InvalidUtf8 => "ERR invalid UTF-8",
            DeserializeError::InvalidLength => "ERR invalid length",
            DeserializeError::InvalidInteger => "ERR invalid integer",
        }
    }
}

impl SerializeError {
    pub open spec fn spec_message(self) -> Seq<char> {
        "ERR invalid UTF-8"@
    }

    pub fn message(&self) -> (r: &'static str)
        ensures
            r@ == self.spec_message(),
    {
        "ERR invalid UTF-8"
    }
}

} // verus!
