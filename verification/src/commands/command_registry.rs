//! The command registry: a case-insensitive mapping from command
//! names to handlers. Registration stores the name upper-cased;
//! lookup upper-cases its argument the same way, so any casing of a
//! registered name finds the same handler.
use vstd::prelude::*;

use crate::assoc::{assoc_map, has_key, lemma_push_assoc, lemma_swap_remove_assoc, lemma_value_at,
    unique_keys};
use crate::commands::echo::EchoCommand;
use crate::data_management::message::DataChannelMessage;
use crate::commands::get::GetCommandHandler;
use crate::commands::get_config::GetConfigCommandHandler;
use crate::commands::ping::PingCommand;
use crate::commands::set::SetCommandHandler;
use crate::errors::RustRedisError;
use crate::resp::helpers::slice_eq;
use crate::resp::{slice_views, spec_encode, Resp, RespData};
use vstd::string::{StrSliceExecFns, StringSliceAdditionalSpecFns};

verus! {

broadcast use vstd::utf8::encode_utf8_decode_utf8;

/// One registered handler.
#[derive(Debug)]
pub enum RegisteredHandler {
    Ping(PingCommand),
    Echo(EchoCommand),
    SetCmd(SetCommandHandler),
    GetCmd(GetCommandHandler),
    GetConfig(GetConfigCommandHandler),
}

/// What a handler is, for the registry's mapping: its kind, plus the
/// configuration snapshot where it carries one.
pub enum HandlerKind {
    Ping,
    Echo,
    SetCmd,
    GetCmd,
    GetConfig(RespDataPair),
}

/// A pair of snapshot values: `dir`, then `dbfilename`.
pub struct RespDataPair {
    pub dir: crate::resp::RespData,
    pub dbfilename: crate::resp::RespData,
}

impl View for RegisteredHandler {
    type V = HandlerKind;

    open spec fn view(&self) -> HandlerKind {
        match self {
            RegisteredHandler::Ping(_) => HandlerKind::Ping,
            RegisteredHandler::Echo(_) => HandlerKind::Echo,
            RegisteredHandler::SetCmd(_) => HandlerKind::SetCmd,
            RegisteredHandler::GetCmd(_) => HandlerKind::GetCmd,
            RegisteredHandler::GetConfig(h) => HandlerKind::GetConfig(
                RespDataPair { dir: h.spec_dir(), dbfilename: h.spec_dbfilename() },
            ),
        }
    }
}

/// What a connection does with one parsed value: answer it directly,
/// or send a message to the datastore actor and answer with the
/// actor's reply.
#[derive(Debug)]
pub enum CommandStep {
    Reply(Resp),
    Data(DataChannelMessage),
}

/// The abstraction of a step.
pub enum PlanData {
    Reply(RespData),
    SetMsg(Seq<u8>, Seq<u8>, Option<u64>),
    GetMsg(Seq<u8>),
}

impl View for CommandStep {
    type V = PlanData;

    open spec fn view(&self) -> PlanData {
        match self {
            CommandStep::Reply(v) => PlanData::Reply(v@),
            CommandStep::Data(DataChannelMessage::SetValue(m)) => PlanData::SetMsg(
                m.key@,
                m.value@,
                m.expiry,
            ),
            CommandStep::Data(DataChannelMessage::GetValue(m)) => PlanData::GetMsg(m.key@),
        }
    }
}

/// The decimal text of `n`.
pub open spec fn spec_digits_chars(n: nat) -> Seq<char> {
    vstd::utf8::decode_utf8(crate::resp::spec_digits(n))
}

/// The arity-error message, slots in the order the taxonomy prints
/// them.
pub open spec fn spec_arity_msg(cmd: Seq<char>, expected: Seq<char>, got: Seq<char>) -> Seq<char> {
    "ERR wrong number of arguments for '"@ + cmd + "' expected "@ + expected + " command got "@
        + got
}

/// The argument-type message for a handler that wanted bulk strings.
pub open spec fn spec_argtype_msg() -> Seq<char> {
    "Invalid args expected: '"@ + "bulk string"@ + "'"@
}

/// What one handler decides for its arguments.
pub open spec fn spec_plan_handler(h: HandlerKind, args: Seq<RespData>) -> Result<
    PlanData,
    Seq<char>,
> {
    match h {
        HandlerKind::Ping => Ok(
            PlanData::Reply(RespData::SimpleString(vstd::utf8::encode_utf8("PONG"@))),
        ),
        HandlerKind::Echo => {
            if args.len() == 1 {
                Ok(PlanData::Reply(args[0]))
            } else {
                Err(spec_arity_msg("ECHO"@, spec_digits_chars(args.len()), "1"@))
            }
        },
        HandlerKind::SetCmd => spec_plan_set(args),
        HandlerKind::GetCmd => {
            if args.len() != 1 {
                Err(spec_arity_msg("GET"@, "1"@, spec_digits_chars(args.len())))
            } else if !(args[0] is BulkString) {
                Err(spec_argtype_msg())
            } else {
                Ok(PlanData::GetMsg(spec_encode(args[0])))
            }
        },
        HandlerKind::GetConfig(pair) => spec_plan_config(pair, args),
    }
}

/// SET's decision: arity, argument types, the exact `PX` marker, and
/// a decimal lifetime.
pub open spec fn spec_plan_set(args: Seq<RespData>) -> Result<PlanData, Seq<char>> {
    if args.len() < 2 {
        Err(spec_arity_msg("SET"@, spec_digits_chars(args.len()), "2"@))
    } else if args.len() == 3 {
        Err(spec_arity_msg("SET with EXPIRY"@, spec_digits_chars(3), "4"@))
    } else if !(args[0] is BulkString && args[1] is BulkString) {
        Err(spec_argtype_msg())
    } else if args.len() == 2 {
        Ok(PlanData::SetMsg(spec_encode(args[0]), spec_encode(args[1]), None))
    } else {
        match args[2] {
            RespData::BulkString(px) => {
                if px != vstd::utf8::encode_utf8("PX"@) {
                    Err(
                        "Invalid arg for command "@ + "SET"@ + " expected "@ + "PX"@ + " got "@
                            + crate::config::lossy_of(px),
                    )
                } else {
                    match args[3] {
                        RespData::BulkString(ms) => {
                            if ms.len() >= 1 && crate::resp::helpers::all_digits(ms)
                                && crate::resp::helpers::dec_val(ms) <= u64::MAX {
                                Ok(
                                    PlanData::SetMsg(
                                        spec_encode(args[0]),
                                        spec_encode(args[1]),
                                        Some(crate::resp::helpers::dec_val(ms) as u64),
                                    ),
                                )
                            } else {
                                Err("Could not parse expiration to a valid number"@)
                            }
                        },
                        _ => Err(spec_argtype_msg()),
                    }
                }
            },
            _ => Err(spec_argtype_msg()),
        }
    }
}

/// CONFIG GET's decision.
pub open spec fn spec_plan_config(pair: RespDataPair, args: Seq<RespData>) -> Result<
    PlanData,
    Seq<char>,
> {
    if args.len() < 1 {
        Err(spec_arity_msg("CONFIG GET"@, "1"@, spec_digits_chars(args.len())))
    } else {
        match args[0] {
            RespData::BulkString(b) => {
                if b == vstd::utf8::encode_utf8("dbfilename"@) {
                    Ok(PlanData::Reply(RespData::Array(seq![args[0], pair.dbfilename])))
                } else if b == vstd::utf8::encode_utf8("dir"@) {
                    Ok(PlanData::Reply(RespData::Array(seq![args[0], pair.dir])))
                } else {
                    Err("ERR invalid config field '"@ + crate::config::lossy_of(b) + "'"@)
                }
            },
            _ => Err(spec_argtype_msg()),
        }
    }
}


impl RegisteredHandler {
    /// Invokes this handler on the given arguments: the direct reply,
    /// the message for the datastore actor, or the exact error.
    #[verifier::rlimit(60)]
    pub fn handle(&self, args: &[Resp]) -> (r: Result<CommandStep, RustRedisError>)
        ensures
            match r {
                Ok(step) => spec_plan_handler(self@, slice_views(args@)) == Ok::<
                    PlanData,
                    Seq<char>,
                >(step@),
                Err(e) => spec_plan_handler(self@, slice_views(args@)) == Err::<
                    PlanData,
                    Seq<char>,
                >(e.spec_message()),
            },
            (forall|i: int|
                0 <= i < args@.len() ==> crate::resp::utf8_ok(#[trigger] args@[i]@)) ==> match r {
                Ok(step) => (step@ matches PlanData::Reply(d) ==> crate::resp::utf8_ok(d)),
                _ => true,
            },
    {
        proof {
            assert(slice_views(args@).len() == args@.len());
            assert forall|i: int| 0 <= i < args@.len() implies #[trigger] slice_views(args@)[i]
                == args@[i]@ by {}
        }
        match self {
            RegisteredHandler::Ping(p) => {
                match p.handle(args) {
                    Ok(v) => {
                        proof {
                            vstd::utf8::encode_utf8_valid_utf8("PONG"@);
                        }
                        Ok(CommandStep::Reply(v))
                    },
                    Err(e) => Err(e),
                }
            },
            RegisteredHandler::Echo(ec) => {
                match ec.handle(args) {
                    Ok(v) => Ok(CommandStep::Reply(v)),
                    Err(e) => Err(e),
                }
            },
            RegisteredHandler::SetCmd(sc) => {
                match sc.handle(args) {
                    Ok(m) => Ok(CommandStep::Data(DataChannelMessage::SetValue(m))),
                    Err(e) => Err(e),
                }
            },
            RegisteredHandler::GetCmd(gc) => {
                match gc.handle(args) {
                    Ok(m) => Ok(CommandStep::Data(DataChannelMessage::GetValue(m))),
                    Err(e) => Err(e),
                }
            },
            RegisteredHandler::GetConfig(cfg) => {
                match cfg.handle(args) {
                    Ok(v) => Ok(CommandStep::Reply(v)),
                    Err(e) => Err(e),
                }
            },
        }
    }
}

/// ASCII upper-casing of one byte.
pub open spec fn spec_upper_byte(b: u8) -> u8 {
    if 97 <= b <= 122 {
        (b - 32) as u8
    } else {
        b
    }
}

/// ASCII upper-casing of a byte string: how the registry normalizes
/// command names on both registration and lookup.
pub open spec fn spec_upper(s: Seq<u8>) -> Seq<u8> {
    s.map_values(|b: u8| spec_upper_byte(b))
}

/// Upper-cases a byte string.
pub fn ascii_upper(s: &[u8]) -> (r: Vec<u8>)
    ensures
        r@ == spec_upper(s@),
{
    let n = s.len();
    let mut out: Vec<u8> = Vec::new();
    let mut i: usize = 0;
    while i < n
        invariant
            i <= n,
            n == s@.len(),
            out@.len() == i,
            forall|j: int| 0 <= j < i ==> out@[j] == spec_upper_byte(#[trigger] s@[j]),
        decreases n - i,
    {
        let b = s[i];
        if 97 <= b && b <= 122 {
            out.push(b - 32);
        } else {
            out.push(b);
        }
        i += 1;
    }
    proof {
        assert(out@ =~= spec_upper(s@));
    }
    out
}

/// The registry: a vector of upper-cased names and their handlers,
/// abstracted as a mapping.
#[derive(Debug)]
pub struct CommandRegistry {
    registry: Vec<(Vec<u8>, RegisteredHandler)>,
}

impl CommandRegistry {
    #[verifier::type_invariant]
    spec fn wf(&self) -> bool {
        unique_keys(self.registry@) && (forall|i: int|
            0 <= i < self.registry@.len() ==> (#[trigger] self.registry@[i]).0@ == spec_upper(
                self.registry@[i].0@,
            ))
    }

    /// The mapping from upper-cased names to handlers.
    pub closed spec fn view(&self) -> Map<Seq<u8>, HandlerKind> {
        assoc_map(self.registry@)
    }

    /// An empty registry.
    pub fn new() -> (r: Self)
        ensures
            r@ == Map::<Seq<u8>, HandlerKind>::empty(),
    {
        let r = CommandRegistry { registry: Vec::new() };
        proof {
            assert(assoc_map(r.registry@) =~= Map::<Seq<u8>, HandlerKind>::empty());
        }
        r
    }

    /// Registers a handler under the upper-cased name, replacing any
    /// earlier handler of the same name in any casing.
    pub fn register(&mut self, arg: &str, command_handler: RegisteredHandler)
        ensures
            final(self)@ == old(self)@.insert(
                spec_upper(vstd::utf8::encode_utf8(arg@)),
                command_handler@,
            ),
    {
        proof {
            use_type_invariant(&*self);
        }
        let key = ascii_upper(arg.as_bytes());
        let ghost k = key@;
        let idx = self.find_index(key.as_slice());
        let mut es: Vec<(Vec<u8>, RegisteredHandler)> = Vec::new();
        std::mem::swap(&mut es, &mut self.registry);
        let ghost es0 = es@;
        match idx {
            Some(i) => {
                proof {
                    lemma_swap_remove_assoc(es0, i as int);
                }
                es.swap_remove(i);
                proof {
                    lemma_push_assoc(es@, (key, command_handler));
                    assert(spec_upper(spec_upper(vstd::utf8::encode_utf8(arg@))) =~= spec_upper(
                        vstd::utf8::encode_utf8(arg@),
                    ));
                    assert(assoc_map(es@.push((key, command_handler))) =~= assoc_map(es0).insert(
                        k,
                        command_handler@,
                    ));
                }
                es.push((key, command_handler));
            },
            None => {
                proof {
                    lemma_push_assoc(es0, (key, command_handler));
                    assert(spec_upper(spec_upper(vstd::utf8::encode_utf8(arg@))) =~= spec_upper(
                        vstd::utf8::encode_utf8(arg@),
                    ));
                }
                es.push((key, command_handler));
            },
        }
        self.registry = es;
    }

    /// Looks the handler for `command` up and invokes it on `args`.
    pub fn command_with_args(&self, command: &str, args: &[Resp]) -> (r: Result<
        CommandStep,
        RustRedisError,
    >)
        ensures
            !self@.contains_key(spec_upper(vstd::utf8::encode_utf8(command@))) ==> (r matches Err(
                e,
            ) && e matches RustRedisError::UnknownCommand(s) && s@ == command@),
            self@.contains_key(spec_upper(vstd::utf8::encode_utf8(command@))) ==> match r {
                Ok(step) => spec_plan_handler(
                    self@[spec_upper(vstd::utf8::encode_utf8(command@))],
                    slice_views(args@),
                ) == Ok::<PlanData, Seq<char>>(step@),
                Err(e) => spec_plan_handler(
                    self@[spec_upper(vstd::utf8::encode_utf8(command@))],
                    slice_views(args@),
                ) == Err::<PlanData, Seq<char>>(e.spec_message()),
            },
    {
        let handler = match self.command_handler(command) {
            Ok(h) => h,
            Err(e) => {
                return Err(e);
            },
        };
        handler.handle(args)
    }

    /// The same, with no arguments at all: for clarity at call sites
    /// of argumentless commands.
    pub fn no_args_command(&self, command: &str) -> (r: Result<CommandStep, RustRedisError>)
        ensures
            !self@.contains_key(spec_upper(vstd::utf8::encode_utf8(command@))) ==> (r matches Err(
                e,
            ) && e matches RustRedisError::UnknownCommand(s) && s@ == command@),
            self@.contains_key(spec_upper(vstd::utf8::encode_utf8(command@))) ==> match r {
                Ok(step) => spec_plan_handler(
                    self@[spec_upper(vstd::utf8::encode_utf8(command@))],
                    Seq::<RespData>::empty(),
                ) == Ok::<PlanData, Seq<char>>(step@),
                Err(e) => spec_plan_handler(
                    self@[spec_upper(vstd::utf8::encode_utf8(command@))],
                    Seq::<RespData>::empty(),
                ) == Err::<PlanData, Seq<char>>(e.spec_message()),
            },
    {
        let empty: Vec<Resp> = Vec::new();
        proof {
            assert(slice_views(empty@) =~= Seq::<RespData>::empty());
        }
        self.command_with_args(command, empty.as_slice())
    }

    /// The index of the pair carrying `key`, if one does.
    fn find_index(&self, key: &[u8]) -> (r: Option<usize>)
        ensures
            match r {
                Some(i) => i < self.registry@.len() && self.registry@[i as int].0@ == key@,
                None => !has_key(self.registry@, key@),
            },
    {
        let n = self.registry.len();
        let mut i: usize = 0;
        while i < n
            invariant
                i <= n,
                n == self.registry@.len(),
                forall|j: int| 0 <= j < i ==> (#[trigger] self.registry@[j]).0@ != key@,
            decreases n - i,
        {
            if slice_eq(self.registry[i].0.as_slice(), key) {
                return Some(i);
            }
            i += 1;
        }
        None
    }

    /// Looks a command name up, upper-casing it first: any casing of
    /// a registered name finds the same handler.
    pub fn command_handler(&self, arg: &str) -> (r: Result<&RegisteredHandler, RustRedisError>)
        ensures
            self@.contains_key(spec_upper(vstd::utf8::encode_utf8(arg@))) ==> (r matches Ok(h)
                && h@ == self@[spec_upper(vstd::utf8::encode_utf8(arg@))]),
            !self@.contains_key(spec_upper(vstd::utf8::encode_utf8(arg@))) ==> (r matches Err(e)
                && e matches RustRedisError::UnknownCommand(s) && s@ == arg@),
    {
        proof {
            use_type_invariant(&*self);
        }
        let key = ascii_upper(arg.as_bytes());
        match self.find_index(key.as_slice()) {
            Some(i) => {
                proof {
                    lemma_value_at(self.registry@, i as int);
                }
                Ok(&self.registry[i].1)
            },
            None => Err(RustRedisError::UnknownCommand(arg.to_owned())),
        }
    }
}

/// Case-insensitive dispatch: registering a handler under one
/// spelling of a name makes lookup succeed, and find that same
/// handler, under every spelling that agrees with it up to ASCII
/// case.
pub proof fn lemma_case_insensitive_lookup(
    reg: Map<Seq<u8>, HandlerKind>,
    registered: Seq<u8>,
    h: HandlerKind,
    queried: Seq<u8>,
)
    requires
        spec_upper(queried) == spec_upper(registered),
    ensures
        reg.insert(spec_upper(registered), h).contains_key(spec_upper(queried)),
        reg.insert(spec_upper(registered), h)[spec_upper(queried)] == h,
{
}

} // verus!
