//! ECHO: exactly one argument, answered back unchanged.
use vstd::prelude::*;

use crate::errors::{usize_string, RustRedisError};
use crate::resp::{resp_duplicate, Resp};
use vstd::string::StringExecFns;

verus! {

pub const ECHO_COMMAND_NAME: &'static str = "ECHO";

/// The handler for ECHO; `args` is the arity it answers, as text.
#[derive(Debug)]
pub struct EchoCommand {
    args: String,
}

impl EchoCommand {
    #[verifier::type_invariant]
    spec fn wf(&self) -> bool {
        self.args@ == "1"@
    }

    pub fn new() -> (r: Self) {
        Self { args: String::from_str("1") }
    }

    /// Answers the one argument back; any other arity is an arity
    /// error naming it.
    pub fn handle(&self, args: &[Resp]) -> (r: Result<Resp, RustRedisError>)
        ensures
            args@.len() == 1 ==> (r matches Ok(v) && v@ == args@[0]@),
            args@.len() != 1 ==> (r matches Err(e) && e matches RustRedisError::InvalidArgLength(
                c,
                g,
                x,
            ) && c@ == "ECHO"@ && vstd::utf8::encode_utf8(g@) == crate::resp::spec_digits(
                args@.len(),
            ) && x@ == "1"@),
    {
        if args.len() != 1 {
            proof {
                use_type_invariant(&*self);
            }
            return Err(
                RustRedisError::InvalidArgLength(
                    String::from_str("ECHO"),
                    usize_string(args.len()),
                    self.args.clone(),
                ),
            );
        }
        Ok(resp_duplicate(&args[0]))
    }
}

} // verus!
