//! SET: a bulk-string key and value, with an optional `PX` lifetime in
//! milliseconds.
use vstd::prelude::*;

use crate::config::{lossy_of, lossy_string};
use crate::data_management::message::SetMessage;
use crate::errors::{usize_string, RustRedisError};
use crate::resp::deserialize::digits_val_u64;
use crate::resp::helpers::{all_digits, dec_val, slice_eq};
use crate::resp::{resp_duplicate, spec_encode, Resp, RespData};
use vstd::string::StringExecFns;

verus! {

pub const SET_COMMAND_NAME: &'static str = "SET";

/// The arity conditions of SET: two arguments, or four when a
/// lifetime follows.
pub open spec fn spec_set_arity_ok(n: nat) -> bool {
    n >= 2 && n != 3
}

/// The handler for SET; `args` is the base arity it expects, as text.
#[derive(Debug)]
pub struct SetCommandHandler {
    args: String,
}

impl SetCommandHandler {
    #[verifier::type_invariant]
    spec fn wf(&self) -> bool {
        self.args@ == "2"@
    }

    pub fn new() -> (r: Self) {
        Self { args: String::from_str("2") }
    }

    /// Rejects arities that can belong to no form of the command.
    pub fn check_args_len(&self, args_len: usize) -> (r: Result<(), RustRedisError>)
        ensures
            spec_set_arity_ok(args_len as nat) ==> r is Ok,
            args_len < 2 ==> (r matches Err(e) && e matches RustRedisError::InvalidArgLength(
                c,
                g,
                x,
            ) && c@ == "SET"@ && vstd::utf8::encode_utf8(g@) == crate::resp::spec_digits(
                args_len as nat,
            ) && x@ == "2"@),
            args_len == 3 ==> (r matches Err(e) && e matches RustRedisError::InvalidArgLength(
                c,
                g,
                x,
            ) && c@ == "SET with EXPIRY"@ && vstd::utf8::encode_utf8(g@)
                == crate::resp::spec_digits(3) && x@ == "4"@),
    {
        if args_len < 2 {
            proof {
                use_type_invariant(&*self);
            }
            return Err(
                RustRedisError::InvalidArgLength(
                    String::from_str("SET"),
                    usize_string(args_len),
                    self.args.clone(),
                ),
            );
        }
        if args_len > 2 && args_len < 4 {
            return Err(
                RustRedisError::InvalidArgLength(
                    String::from_str("SET with EXPIRY"),
                    usize_string(args_len),
                    String::from_str("4"),
                ),
            );
        }
        Ok(())
    }

    /// Reads key, value and the optional lifetime out of the
    /// arguments. Key and value must be bulk strings; the third
    /// argument, when present, must be the byte string `PX` exactly,
    /// and the fourth a nonnegative decimal count of milliseconds.
    pub fn handle_args(&self, args: &[Resp]) -> (r: Result<
        (Resp, Resp, Option<u64>),
        RustRedisError,
    >)
        requires
            args@.len() >= 2,
            args@.len() != 3,
        ensures
            spec_handle_args_ensures(args@, r),
    {
        if !(args[0].is_bulk_string() && args[1].is_bulk_string()) {
            return Err(RustRedisError::InvalidArgType(String::from_str("bulk string")));
        }
        let key = resp_duplicate(&args[0]);
        let value = resp_duplicate(&args[1]);
        if args.len() > 2 {
            match &args[2] {
                Resp::BulkString(px) => {
                    if !slice_eq(px.as_slice(), "PX".as_bytes()) {
                        return Err(
                            RustRedisError::InvalidArg(
                                String::from_str(SET_COMMAND_NAME),
                                String::from_str("PX"),
                                lossy_string(px.as_slice()),
                            ),
                        );
                    }
                },
                _ => {
                    return Err(RustRedisError::InvalidArgType(String::from_str("bulk string")));
                },
            }
            match &args[3] {
                Resp::BulkString(duration) => {
                    match digits_val_u64(duration.as_slice()) {
                        Some(ms) => Ok((key, value, Some(ms))),
                        None => Err(RustRedisError::InvalidExpiry),
                    }
                },
                _ => Err(RustRedisError::InvalidArgType(String::from_str("bulk string"))),
            }
        } else {
            Ok((key, value, None))
        }
    }

    /// Turns a full SET command into the actor's message: key and
    /// value travel as their canonical encodings.
    pub fn handle(&self, args: &[Resp]) -> (r: Result<SetMessage, RustRedisError>)
        ensures
            spec_set_ensures(args@, r),
    {
        match self.check_args_len(args.len()) {
            Ok(()) => {},
            Err(e) => {
                return Err(e);
            },
        }
        let parts = match self.handle_args(args) {
            Ok(p) => p,
            Err(e) => {
                return Err(e);
            },
        };
        let (key, value, duration) = parts;
        let key_enc = match key.serialize() {
            Ok(b) => b,
            Err(e) => {
                return Err(RustRedisError::SerializeError(e));
            },
        };
        let value_enc = match value.serialize() {
            Ok(b) => b,
            Err(e) => {
                return Err(RustRedisError::SerializeError(e));
            },
        };
        Ok(SetMessage::new(key_enc, value_enc, duration))
    }
}

/// The contract of `handle_args`, case by case over the arguments.
pub open spec fn spec_handle_args_ensures(
    args: Seq<Resp>,
    r: Result<(Resp, Resp, Option<u64>), RustRedisError>,
) -> bool {
    &&& (!(args[0]@ is BulkString && args[1]@ is BulkString) ==> (r matches Err(e) && e matches
        RustRedisError::InvalidArgType(s) && s@ == "bulk string"@))
    &&& (args[0]@ is BulkString && args[1]@ is BulkString && args.len() == 2 ==> (r matches Ok(p)
        && p.0@ == args[0]@ && p.1@ == args[1]@ && p.2 is None))
    &&& (args[0]@ is BulkString && args[1]@ is BulkString && args.len() > 2 ==> spec_px_ensures(
        args,
        r,
    ))
}

/// The contract of the `PX` tail: the marker must match byte for
/// byte, and the count must be decimal digits that fit the clock.
pub open spec fn spec_px_ensures(
    args: Seq<Resp>,
    r: Result<(Resp, Resp, Option<u64>), RustRedisError>,
) -> bool {
    match args[2]@ {
        RespData::BulkString(px) => {
            if px != vstd::utf8::encode_utf8("PX"@) {
                r matches Err(e) && e matches RustRedisError::InvalidArg(c, x, g) && c@ == "SET"@
                    && x@ == "PX"@ && g@ == lossy_of(px)
            } else {
                match args[3]@ {
                    RespData::BulkString(ms) => {
                        if ms.len() >= 1 && all_digits(ms) && dec_val(ms) <= u64::MAX {
                            r matches Ok(p) && p.0@ == args[0]@ && p.1@ == args[1]@ && p.2
                                == Some(dec_val(ms) as u64)
                        } else {
                            r == Err::<(Resp, Resp, Option<u64>), RustRedisError>(
                                RustRedisError::InvalidExpiry,
                            )
                        }
                    },
                    _ => r matches Err(e) && e matches RustRedisError::InvalidArgType(s) && s@
                        == "bulk string"@,
                }
            }
        },
        _ => r matches Err(e) && e matches RustRedisError::InvalidArgType(s) && s@
            == "bulk string"@,
    }
}

/// The contract of `handle`: every arity and argument-type failure,
/// and on success a message carrying the canonical encodings of key
/// and value and the parsed lifetime.
pub open spec fn spec_set_ensures(args: Seq<Resp>, r: Result<SetMessage, RustRedisError>) -> bool {
    &&& (args.len() < 2 ==> (r matches Err(e) && e matches RustRedisError::InvalidArgLength(c, g, x)
        && c@ == "SET"@ && vstd::utf8::encode_utf8(g@) == crate::resp::spec_digits(args.len())
        && x@ == "2"@))
    &&& (args.len() == 3 ==> (r matches Err(e) && e matches RustRedisError::InvalidArgLength(
        c,
        g,
        x,
    ) && c@ == "SET with EXPIRY"@ && vstd::utf8::encode_utf8(g@) == crate::resp::spec_digits(3)
        && x@ == "4"@))
    &&& (spec_set_arity_ok(args.len()) ==> {
        &&& (!(args[0]@ is BulkString && args[1]@ is BulkString) ==> (r matches Err(e) && e matches
            RustRedisError::InvalidArgType(s) && s@ == "bulk string"@))
        &&& (args[0]@ is BulkString && args[1]@ is BulkString && args.len() == 2 ==> (r matches Ok(
            m,
        ) && m.key@ == spec_encode(args[0]@) && m.value@ == spec_encode(args[1]@) && m.expiry
            is None))
        &&& (args[0]@ is BulkString && args[1]@ is BulkString && args.len() > 2 ==> spec_px_message(
            args,
            r,
        ))
    })
}

/// The success and failure shapes of the `PX` tail at the message
/// level.
pub open spec fn spec_px_message(args: Seq<Resp>, r: Result<SetMessage, RustRedisError>) -> bool {
    match args[2]@ {
        RespData::BulkString(px) => {
            if px != vstd::utf8::encode_utf8("PX"@) {
                r matches Err(e) && e matches RustRedisError::InvalidArg(c, x, g) && c@ == "SET"@
                    && x@ == "PX"@ && g@ == lossy_of(px)
            } else {
                match args[3]@ {
                    RespData::BulkString(ms) => {
                        if ms.len() >= 1 && all_digits(ms) && dec_val(ms) <= u64::MAX {
                            r matches Ok(m) && m.key@ == spec_encode(args[0]@) && m.value@
                                == spec_encode(args[1]@) && m.expiry == Some(dec_val(ms) as u64)
                        } else {
                            r == Err::<SetMessage, RustRedisError>(RustRedisError::InvalidExpiry)
                        }
                    },
                    _ => r matches Err(e) && e matches RustRedisError::InvalidArgType(s) && s@
                        == "bulk string"@,
                }
            }
        },
        _ => r matches Err(e) && e matches RustRedisError::InvalidArgType(s) && s@
            == "bulk string"@,
    }
}

} // verus!
