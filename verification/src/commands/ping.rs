//! PING: no arguments, answers `PONG`.
use vstd::prelude::*;

use crate::errors::RustRedisError;
use crate::resp::{Resp, RespData};

verus! {

/// The handler for PING.
#[derive(Debug)]
pub struct PingCommand;

impl PingCommand {
    /// Answers `PONG`, whatever the arguments.
    pub fn handle(&self, args: &[Resp]) -> (r: Result<Resp, RustRedisError>)
        ensures
            r matches Ok(v) && v@ == RespData::SimpleString(vstd::utf8::encode_utf8("PONG"@)),
    {
        Ok(Resp::simple_string_from_str("PONG"))
    }
}

} // verus!
