//! Startup configuration: the two optional fields the server knows,
//! and the closed set of names `CONFIG GET` accepts.
use vstd::prelude::*;

use crate::errors::RustRedisError;
use crate::resp::Resp;
use vstd::string::{StrSliceExecFns, StringExecFns, StringSliceAdditionalSpecFns};

verus! {

/// The closed set of configuration fields.
#[derive(Debug, Hash, PartialEq, Eq, Structural, Clone, Copy)]
pub enum ConfigField {
    Dbfilename,
    Dir,
}

/// The startup configuration: both fields optional, reported as null
/// bulk strings by `CONFIG GET` when unset.
#[derive(Debug, Default)]
pub struct AppConfig {
    pub dir: Option<String>,
    pub dbfilename: Option<String>,
}

/// What `String::from_utf8_lossy` makes of the given bytes: a function
/// of the bytes alone.
pub uninterp spec fn lossy_of(b: Seq<u8>) -> Seq<char>;

/// Relies on std's `String::from_utf8_lossy`: the result depends on
/// the bytes alone, and bytes that are valid UTF-8 decode to exactly
/// their own text.
#[verifier::external_body]
pub fn lossy_string(b: &[u8]) -> (r: String)
    ensures
        r@ == lossy_of(b@),
        vstd::utf8::valid_utf8(b@) ==> r@ == vstd::utf8::decode_utf8(b@),
{
    String::from_utf8_lossy(b).to_string()
}

impl ConfigField {
    /// Reads a field name out of a RESP value: the argument must be a
    /// bulk string holding exactly `dbfilename` or `dir`.
    pub fn try_from_resp(value: &Resp) -> (r: Result<ConfigField, RustRedisError>)
        ensures
            match value@ {
                crate::resp::RespData::BulkString(b) => {
                    if b == vstd::utf8::encode_utf8("dbfilename"@) {
                        r == Ok::<ConfigField, RustRedisError>(ConfigField::Dbfilename)
                    } else if b == vstd::utf8::encode_utf8("dir"@) {
                        r == Ok::<ConfigField, RustRedisError>(ConfigField::Dir)
                    } else {
                        r matches Err(RustRedisError::InvalidConfigField(s)) && s@ == lossy_of(b)
                    }
                },
                _ => r matches Err(RustRedisError::InvalidArgType(s)) && s@ == "bulk string"@,
            },
    {
        match value {
            Resp::BulkString(field) => {
                if crate::resp::helpers::slice_eq(field.as_slice(), "dbfilename".as_bytes()) {
                    Ok(ConfigField::Dbfilename)
                } else if crate::resp::helpers::slice_eq(field.as_slice(), "dir".as_bytes()) {
                    Ok(ConfigField::Dir)
                } else {
                    Err(RustRedisError::InvalidConfigField(lossy_string(field.as_slice())))
                }
            },
            _ => Err(RustRedisError::InvalidArgType(String::from_str("bulk string"))),
        }
    }
}

} // verus!
