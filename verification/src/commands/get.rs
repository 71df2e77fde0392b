//! GET: one bulk-string key, answered from the keyspace through the
//! datastore actor.
use vstd::prelude::*;

use crate::data_management::message::GetMessage;
use crate::errors::{usize_string, RustRedisError};
use crate::resp::{spec_encode, Resp};
use vstd::string::StringExecFns;

verus! {

pub const GET_COMMAND_NAME: &'static str = "GET";

/// The handler for GET. It validates the argument and builds the
/// lookup message for the actor; the runtime carries the message and
/// the reply.
#[derive(Debug)]
pub struct GetCommandHandler;

impl GetCommandHandler {
    pub fn new() -> (r: Self) {
        Self
    }

    /// Turns `GET key` into the actor's lookup message, keyed by the
    /// canonical encoding of the bulk-string key.
    pub fn handle(&self, args: &[Resp]) -> (r: Result<GetMessage, RustRedisError>)
        ensures
            args@.len() != 1 ==> (r matches Err(e) && e matches RustRedisError::InvalidArgLength(
                c,
                x,
                g,
            ) && c@ == "GET"@ && x@ == "1"@ && vstd::utf8::encode_utf8(g@)
                == crate::resp::spec_digits(args@.len())),
            args@.len() == 1 && !(args@[0]@ is BulkString) ==> (r matches Err(e) && e matches
                RustRedisError::InvalidArgType(s) && s@ == "bulk string"@),
            args@.len() == 1 && args@[0]@ is BulkString ==> (r matches Ok(m) && m.key@
                == spec_encode(args@[0]@)),
    {
        if args.len() != 1 {
            return Err(
                RustRedisError::InvalidArgLength(
                    String::from_str(GET_COMMAND_NAME),
                    String::from_str("1"),
                    usize_string(args.len()),
                ),
            );
        }
        if !args[0].is_bulk_string() {
            return Err(RustRedisError::InvalidArgType(String::from_str("bulk string")));
        }
        let key = crate::resp::resp_duplicate(&args[0]);
        match key.serialize() {
            Ok(encoded) => Ok(GetMessage::new(encoded)),
            Err(e) => Err(RustRedisError::SerializeError(e)),
        }
    }
}

} // verus!
