//! The request pipeline a connection runs: a buffer of bytes becomes
//! a sequence of commands, each command a response, and the responses
//! go back in the order the commands arrived.
use vstd::prelude::*;

use crate::commands::command_registry::{
    spec_plan_handler, spec_upper, CommandRegistry, CommandStep, HandlerKind, PlanData,
    RegisteredHandler, RespDataPair,
};
use crate::config::AppConfig;
use crate::data_management::datastore::{entry_expired, spec_absolute_expiry, DataStore, EntryModel};
use crate::data_management::hash_table_store::HashTableDataStore;
use crate::data_management::message::DataChannelMessage;
use crate::data_management::worker::{spec_get_reply, spec_set_reply, DataManager};
use crate::errors::RustRedisError;
use crate::resp::deserialize::{parse_value, spec_parse};
use crate::resp::errors::DeserializeError;
use crate::resp::helpers::bytes_as_str;
use crate::resp::deserialize::lemma_parse_used_bounds;
use crate::resp::laws::{lemma_encode_min_len, lemma_round_trip};
use crate::resp::{
    lemma_resp_view_items_len, resp_view, resp_view_items, slice_views, spec_encode,
    spec_encode_seq, wf_data_seq, Resp, RespData,
};
use vstd::string::{StringExecFns, StringSliceAdditionalSpecFns};

verus! {

broadcast use vstd::utf8::encode_utf8_decode_utf8, vstd::utf8::encode_utf8_valid_utf8;

/// The values read from a buffer by running the single-value parser
/// until the buffer is exhausted; the first failure aborts the whole
/// sequence.
pub open spec fn spec_parse_stream(s: Seq<u8>) -> Result<Seq<RespData>, DeserializeError>
    decreases s.len(),
{
    if s.len() == 0 {
        Ok(Seq::empty())
    } else {
        match spec_parse(s) {
            Err(e) => Err(e),
            Ok((v, used)) => {
                if used <= 0 || used > s.len() {
                    Err(DeserializeError::InvalidCRLF)
                } else {
                    match spec_parse_stream(s.skip(used)) {
                        Err(e) => Err(e),
                        Ok(rest) => Ok(seq![v] + rest),
                    }
                }
            },
        }
    }
}

/// Streaming decomposition: a buffer holding the encodings of
/// well-formed values laid end to end parses back to exactly those
/// values, in order.
pub proof fn lemma_streaming(items: Seq<RespData>)
    requires
        wf_data_seq(items),
    ensures
        spec_parse_stream(spec_encode_seq(items)) == Ok::<Seq<RespData>, DeserializeError>(items),
    decreases items.len(),
{
    let s = spec_encode_seq(items);
    if items.len() == 0 {
        assert(s =~= Seq::<u8>::empty());
        assert(items =~= Seq::<RespData>::empty());
    } else {
        let hd = items[0];
        let tl = items.drop_first();
        let tail_bytes = spec_encode_seq(tl);
        assert(s =~= spec_encode(hd) + tail_bytes);
        lemma_round_trip(hd, tail_bytes);
        lemma_encode_min_len(hd);
        let used0 = spec_encode(hd).len() as int;
        assert(s.skip(used0) =~= tail_bytes);
        lemma_streaming(tl);
        if tail_bytes.len() == 0 {
            assert(s.len() == used0);
        }
        assert(seq![hd] + tl =~= items);
    }
}

/// Parses a buffer into the sequence of values it holds.
#[verifier::loop_isolation(false)]
pub fn parse_commands(input: &[u8]) -> (r: Result<Vec<Resp>, RustRedisError>)
    ensures
        match r {
            Ok(vs) => spec_parse_stream(input@) == Ok::<Seq<RespData>, DeserializeError>(
                resp_view_items(vs, 0),
            ),
            Err(e) => e matches RustRedisError::DeserializeError(de) && spec_parse_stream(input@)
                == Err::<Seq<RespData>, DeserializeError>(de),
        },
{
    let ghost s = input@;
    let mut commands: Vec<Resp> = Vec::new();
    let mut parsed: usize = 0;
    let n = input.len();
    proof {
        assert(s.skip(0) =~= s);
        assert(resp_view_items(commands, 0) =~= Seq::<RespData>::empty());
    }
    while parsed < n
        invariant
            parsed <= n,
            n == s.len(),
            spec_parse_stream(s) == match spec_parse_stream(s.skip(parsed as int)) {
                Ok::<Seq<RespData>, DeserializeError>(rest) => Ok::<
                    Seq<RespData>,
                    DeserializeError,
                >(resp_view_items(commands, 0) + rest),
                Err::<Seq<RespData>, DeserializeError>(e) => Err::<
                    Seq<RespData>,
                    DeserializeError,
                >(e),
            },
        decreases n - parsed,
    {
        let suffix = vstd::slice::slice_subrange(input, parsed, n);
        proof {
            assert(suffix@ =~= s.skip(parsed as int));
        }
        match parse_value(suffix) {
            Ok((cur, used)) => {
                proof {
                    lemma_parse_used_bounds(suffix@);
                    assert(suffix@.skip(used as int) =~= s.skip(parsed + used));
                    lemma_resp_view_items_len(commands, 0);
                }
                let ghost commands_before = commands;
                commands.push(cur);
                proof {
                    lemma_resp_view_items_len(commands, 0);
                    assert forall|l: int| 0 <= l < commands@.len() implies resp_view_items(
                        commands,
                        0,
                    )[l] == resp_view_items(commands_before, 0).push(cur@)[l] by {
                        assert(resp_view_items(commands, 0)[l - 0] == resp_view(commands[l]));
                        if l < commands_before@.len() {
                            assert(commands[l] == commands_before[l]);
                            assert(resp_view_items(commands_before, 0)[l - 0] == resp_view(
                                commands_before[l],
                            ));
                        } else {
                            assert(commands[l] == cur);
                        }
                    }
                    assert(resp_view_items(commands, 0) =~= resp_view_items(
                        commands_before,
                        0,
                    ).push(cur@));
                    let r2 = spec_parse_stream(s.skip(parsed + used));
                    if r2 is Ok {
                        let rest2 = r2->Ok_0;
                        assert(resp_view_items(commands_before, 0) + (seq![cur@] + rest2)
                            =~= resp_view_items(commands, 0) + rest2);
                    }
                }
                parsed = parsed + used;
            },
            Err(e) => {
                return Err(RustRedisError::DeserializeError(e));
            },
        }
    }
    proof {
        assert(s.skip(n as int) =~= Seq::<u8>::empty());
        assert(resp_view_items(commands, 0) + Seq::<RespData>::empty() =~= resp_view_items(
            commands,
            0,
        ));
    }
    Ok(commands)
}

/// Reads a command name as text; bytes that are not UTF-8 are the
/// `InvalidCommand` failure.
pub fn command_as_str(input: &[u8]) -> (r: Result<&str, RustRedisError>)
    ensures
        vstd::utf8::valid_utf8(input@) ==> (r matches Ok(s) && s.spec_bytes() == input@),
        !vstd::utf8::valid_utf8(input@) ==> (r matches Err(e) && e matches
            RustRedisError::InvalidCommand(m) && m@ == "invalid utf-8 sequence"@),
{
    if crate::resp::helpers::check_utf8(input) {
        Ok(bytes_as_str(input))
    } else {
        Err(RustRedisError::InvalidCommand(String::from_str("invalid utf-8 sequence")))
    }
}

/// What the dispatch decides for one parsed value: nothing for a
/// value that is not a nonempty array led by a bulk string; an error
/// message for a name or argument failure; otherwise the step the
/// command calls for.
pub open spec fn spec_plan(reg: Map<Seq<u8>, HandlerKind>, v: RespData) -> Option<
    Result<PlanData, Seq<char>>,
> {
    match v {
        RespData::Array(items) => {
            if items.len() == 0 {
                None
            } else {
                match items[0] {
                    RespData::BulkString(name) => {
                        if !vstd::utf8::valid_utf8(name) {
                            Some(
                                Err(
                                    "ERR invalid command '"@ + "invalid utf-8 sequence"@ + "'"@,
                                ),
                            )
                        } else {
                            let key = spec_upper(name);
                            if !reg.contains_key(key) {
                                Some(
                                    Err(
                                        "ERR unknown command '"@ + vstd::utf8::decode_utf8(name)
                                            + "'"@,
                                    ),
                                )
                            } else {
                                Some(spec_plan_handler(reg[key], items.drop_first()))
                            }
                        }
                    },
                    _ => None,
                }
            }
        },
        _ => None,
    }
}

/// Decides what to do with one parsed value, without touching the
/// keyspace.
#[verifier::rlimit(60)]
pub fn plan_value(registry: &CommandRegistry, value: &Resp) -> (r: Option<
    Result<CommandStep, RustRedisError>,
>)
    ensures
        match r {
            None => spec_plan(registry@, value@) is None,
            Some(Ok(step)) => spec_plan(registry@, value@) == Some(
                Ok::<PlanData, Seq<char>>(step@),
            ),
            Some(Err(e)) => spec_plan(registry@, value@) == Some(
                Err::<PlanData, Seq<char>>(e.spec_message()),
            ),
        },
        match r {
            Some(Ok(step)) => crate::resp::utf8_ok(value@) ==> (step@ matches PlanData::Reply(d)
                ==> crate::resp::utf8_ok(d)),
            _ => true,
        },
{
    let cwa = match value {
        Resp::Array(cwa) => cwa,
        _ => {
            return None;
        },
    };
    if cwa.len() == 0 {
        return None;
    }
    proof {
        lemma_resp_view_items_len(*cwa, 0);
    }
    let ghost items = resp_view_items(*cwa, 0);
    let command = match &cwa[0] {
        Resp::BulkString(command) => command,
        _ => {
            return None;
        },
    };
    let cmd_str = match command_as_str(command.as_slice()) {
        Ok(s) => s,
        Err(e) => {
            return Some(Err(e));
        },
    };
    proof {
        vstd::utf8::encode_utf8_decode_utf8(cmd_str@);
    }
    let handler = match registry.command_handler(cmd_str) {
        Ok(h) => h,
        Err(e) => {
            return Some(Err(e));
        },
    };
    let args = vstd::slice::slice_subrange(cwa.as_slice(), 1, cwa.len());
    proof {
        assert(args@ =~= cwa@.skip(1));
        assert forall|i: int| 0 <= i < args@.len() implies #[trigger] args@[i]@
            == items.drop_first()[i] by {
            assert(args@[i] == cwa@[i + 1]);
            assert(resp_view_items(*cwa, 0)[(i + 1) - 0] == resp_view(cwa@[i + 1]));
        }
        if crate::resp::utf8_ok(value@) {
            crate::resp::lemma_seq_flags_index(items, 0);
            assert forall|i: int| 0 <= i < items.drop_first().len() implies crate::resp::utf8_ok(
                #[trigger] items.drop_first()[i],
            ) by {
                crate::resp::lemma_seq_flags_index(items, i + 1);
            }
        }
    }
    let ghost arg_views = items.drop_first();
    proof {
        assert(slice_views(args@) =~= arg_views);
        if crate::resp::utf8_ok(value@) {
            assert forall|i: int| 0 <= i < args@.len() implies crate::resp::utf8_ok(
                #[trigger] args@[i]@,
            ) by {
                assert(args@[i]@ == items.drop_first()[i]);
            }
        }
    }
    match handler.handle(args) {
        Ok(step) => Some(Ok(step)),
        Err(e) => Some(Err(e)),
    }
}

/// Everything a buffer parses to is serializable again.
pub proof fn lemma_parse_stream_utf8_ok(s: Seq<u8>)
    ensures
        spec_parse_stream(s) matches Ok(vs) ==> crate::resp::utf8_ok_seq(vs),
    decreases s.len(),
{
    if s.len() > 0 {
        crate::resp::laws::lemma_parse_utf8_ok(s);
        if spec_parse(s) is Ok {
            let (v, used) = spec_parse(s)->Ok_0;
            if 0 < used <= s.len() {
                lemma_parse_stream_utf8_ok(s.skip(used));
                let r2 = spec_parse_stream(s.skip(used));
                if r2 is Ok {
                    let rest = r2->Ok_0;
                    assert((seq![v] + rest)[0] == v);
                    assert((seq![v] + rest).drop_first() =~= rest);
                }
            }
        }
    }
}

/// One value's worth of the pipeline against a keyspace: the bytes
/// written back (none for a rejected value), and the keyspace left
/// behind.
pub open spec fn spec_value_response(
    reg: Map<Seq<u8>, HandlerKind>,
    store: Map<Seq<u8>, EntryModel>,
    v: RespData,
    now: u64,
) -> (Option<Seq<u8>>, Map<Seq<u8>, EntryModel>) {
    match spec_plan(reg, v) {
        None => (None, store),
        Some(Err(msg)) => (Some(spec_error_bytes(msg)), store),
        Some(Ok(PlanData::Reply(d))) => (Some(spec_encode(d)), store),
        Some(Ok(PlanData::SetMsg(k, value_bytes, expiry))) => (
            Some(spec_encode(spec_set_reply())),
            store.insert(
                k,
                EntryModel { data: value_bytes, expires_at: spec_absolute_expiry(expiry, now) },
            ),
        ),
        Some(Ok(PlanData::GetMsg(k))) => (
            Some(spec_encode(spec_get_reply(store, k, now))),
            if store.contains_key(k) && entry_expired(store[k], now) {
                store.remove(k)
            } else {
                store
            },
        ),
    }
}

/// The wire form of one error message.
pub open spec fn spec_error_bytes(msg: Seq<char>) -> Seq<u8> {
    spec_encode(RespData::SimpleError(vstd::utf8::encode_utf8(msg)))
}

/// A whole sequence of values, answered in order: the concatenated
/// responses and the final keyspace. Responses leave in exactly the
/// order the requests arrived.
pub open spec fn spec_values_response(
    reg: Map<Seq<u8>, HandlerKind>,
    store: Map<Seq<u8>, EntryModel>,
    vs: Seq<RespData>,
    now: u64,
) -> (Seq<u8>, Map<Seq<u8>, EntryModel>)
    decreases vs.len(),
{
    if vs.len() == 0 {
        (Seq::empty(), store)
    } else {
        let (head_bytes, store1) = spec_value_response(reg, store, vs[0], now);
        let (rest_bytes, store2) = spec_values_response(reg, store1, vs.drop_first(), now);
        (
            (match head_bytes {
                Some(b) => b,
                None => Seq::empty(),
            }) + rest_bytes,
            store2,
        )
    }
}

/// A whole buffer: parse failure answers the one error for the chunk,
/// otherwise every parsed value is answered in order.
pub open spec fn spec_chunk_response(
    reg: Map<Seq<u8>, HandlerKind>,
    store: Map<Seq<u8>, EntryModel>,
    input: Seq<u8>,
    now: u64,
) -> (Seq<u8>, Map<Seq<u8>, EntryModel>) {
    match spec_parse_stream(input) {
        Err(e) => (spec_error_bytes(e.spec_message()), store),
        Ok(vs) => spec_values_response(reg, store, vs, now),
    }
}

/// The reply a lookup owes is always serializable: either it came out
/// of the parser, or it is one of the library's own messages.
pub proof fn lemma_get_reply_utf8_ok(m: Map<Seq<u8>, EntryModel>, key: Seq<u8>, now: u64)
    ensures
        crate::resp::utf8_ok(spec_get_reply(m, key, now)),
{
    if m.contains_key(key) && !entry_expired(m[key], now) {
        crate::resp::laws::lemma_parse_utf8_ok(m[key].data);
    }
}

/// The registry the server starts with: the five commands, each under
/// its canonical name.
pub open spec fn spec_default_registry(dir: RespData, dbfilename: RespData) -> Map<
    Seq<u8>,
    HandlerKind,
> {
    Map::<Seq<u8>, HandlerKind>::empty().insert(
        spec_upper(vstd::utf8::encode_utf8("CONFIG GET"@)),
        HandlerKind::GetConfig(RespDataPair { dir, dbfilename }),
    ).insert(spec_upper(vstd::utf8::encode_utf8("GET"@)), HandlerKind::GetCmd).insert(
        spec_upper(vstd::utf8::encode_utf8("SET"@)),
        HandlerKind::SetCmd,
    ).insert(spec_upper(vstd::utf8::encode_utf8("ECHO"@)), HandlerKind::Echo).insert(
        spec_upper(vstd::utf8::encode_utf8("PING"@)),
        HandlerKind::Ping,
    )
}

/// The server core: the command registry and the keyspace actor, run
/// synchronously. Reading bytes from a socket and writing the answer
/// back is the runtime's affair; everything between is here.
#[derive(Debug)]
pub struct Server {
    registry: CommandRegistry,
    manager: DataManager<HashTableDataStore>,
}

impl Server {
    /// The registry's mapping.
    pub closed spec fn reg(&self) -> Map<Seq<u8>, HandlerKind> {
        self.registry@
    }

    /// The keyspace.
    pub closed spec fn store(&self) -> Map<Seq<u8>, EntryModel> {
        self.manager.contents()
    }

    /// A server over the given configuration, its keyspace primed
    /// with `data_store` where one is given.
    pub fn new(config: &AppConfig, data_store: Option<HashTableDataStore>) -> (r: Server)
        ensures
            r.reg() == spec_default_registry(
                crate::commands::get_config::spec_field_value(config.dir),
                crate::commands::get_config::spec_field_value(config.dbfilename),
            ),
            r.store() == match data_store {
                Some(s) => s.contents(),
                None => Map::<Seq<u8>, EntryModel>::empty(),
            },
    {
        let mut registry = CommandRegistry::new();
        registry.register(
            "CONFIG GET",
            RegisteredHandler::GetConfig(crate::commands::get_config::GetConfigCommandHandler::new(
                config,
            )),
        );
        registry.register(
            "GET",
            RegisteredHandler::GetCmd(crate::commands::get::GetCommandHandler::new()),
        );
        registry.register(
            "SET",
            RegisteredHandler::SetCmd(crate::commands::set::SetCommandHandler::new()),
        );
        registry.register(
            "ECHO",
            RegisteredHandler::Echo(crate::commands::echo::EchoCommand::new()),
        );
        registry.register(
            "PING",
            RegisteredHandler::Ping(crate::commands::ping::PingCommand),
        );
        let store = match data_store {
            Some(s) => s,
            None => Default::default(),
        };
        let manager = DataManager::new(store, None);
        Server { registry, manager }
    }

    /// Answers one parsed value, reading and writing the keyspace as
    /// the command demands. `None` is a rejected value: no response
    /// slot at all.
    fn respond_value(&mut self, value: &Resp, now: u64) -> (r: Option<Vec<u8>>)
        requires
            crate::resp::utf8_ok(value@),
        ensures
            final(self).reg() == old(self).reg(),
            ({
                let (resp, st) = spec_value_response(old(self).reg(), old(self).store(), value@, now);
                &&& final(self).store() == st
                &&& (match r {
                    Some(b) => resp == Some(b@),
                    None => resp is None,
                })
            }),
    {
        let plan = plan_value(&self.registry, value);
        match plan {
            None => None,
            Some(Err(e)) => Some(error_bytes(&e)),
            Some(Ok(CommandStep::Reply(v))) => {
                match crate::resp::serialize::serialize_value(&v) {
                    Ok(b) => Some(b),
                    Err(_) => {
                        proof {
                            assert(false);
                        }
                        None
                    },
                }
            },
            Some(Ok(CommandStep::Data(message))) => {
                let ghost st0 = self.manager.contents();
                let ghost msg_view = message;
                let reply = self.manager.process(message, now);
                proof {
                    if msg_view is GetValue {
                        lemma_get_reply_utf8_ok(st0, msg_view->GetValue_0.key@, now);
                    }
                }
                match crate::resp::serialize::serialize_value(&reply) {
                    Ok(b) => Some(b),
                    Err(_) => {
                        proof {
                            assert(false);
                        }
                        None
                    },
                }
            },
        }
    }

    /// Answers a whole buffer: parses it into requests, answers each
    /// in order, and hands back the concatenated responses. A parse
    /// failure answers with its error alone and leaves the keyspace
    /// untouched.
    #[verifier::loop_isolation(false)]
    pub fn handle_chunk(&mut self, input: &[u8], now: u64) -> (r: Vec<u8>)
        ensures
            final(self).reg() == old(self).reg(),
            ({
                let (bytes, st) = spec_chunk_response(old(self).reg(), old(self).store(), input@, now);
                r@ == bytes && final(self).store() == st
            }),
    {
        let commands = match parse_commands(input) {
            Ok(commands) => commands,
            Err(err) => {
                return error_bytes(&err);
            },
        };
        let ghost reg0 = self.reg();
        let ghost store0 = self.store();
        let ghost vs = resp_view_items(commands, 0);
        proof {
            lemma_resp_view_items_len(commands, 0);
            lemma_parse_stream_utf8_ok(input@);
            assert(vs.skip(0) =~= vs);
        }
        let mut out: Vec<u8> = Vec::new();
        let n = commands.len();
        let mut i: usize = 0;
        while i < n
            invariant
                i <= n,
                n == commands.len(),
                vs.len() == n,
                self.reg() == reg0,
                crate::resp::utf8_ok_seq(vs),
                forall|j: int| 0 <= j < n ==> vs[j] == resp_view(#[trigger] commands[j]),
                spec_values_response(reg0, store0, vs, now).0 == out@ + spec_values_response(
                    reg0,
                    self.store(),
                    vs.skip(i as int),
                    now,
                ).0,
                spec_values_response(reg0, store0, vs, now).1 == spec_values_response(
                    reg0,
                    self.store(),
                    vs.skip(i as int),
                    now,
                ).1,
            decreases n - i,
        {
            proof {
                crate::resp::lemma_seq_flags_index(vs, i as int);
                assert(vs.skip(i as int)[0] == vs[i as int]);
                assert(vs.skip(i as int).drop_first() =~= vs.skip(i as int + 1));
            }
            let response = self.respond_value(&commands[i], now);
            match response {
                Some(b) => {
                    crate::resp::helpers::push_all(&mut out, b.as_slice());
                },
                None => {},
            }
            i += 1;
        }
        proof {
            assert(vs.skip(n as int) =~= Seq::<RespData>::empty());
            assert(out@ + Seq::<u8>::empty() =~= out@);
        }
        out
    }
}

/// Whatever the keyspace holds, a registry that maps PING to the
/// PING handler answers a PING request with `PONG` and leaves the
/// keyspace untouched. Every connection of many running this request
/// concurrently therefore gets `PONG`, in whatever order the actor
/// serializes them.
pub proof fn lemma_ping_any_state(
    reg: Map<Seq<u8>, HandlerKind>,
    store: Map<Seq<u8>, EntryModel>,
    now: u64,
)
    requires
        reg.contains_key(spec_upper(vstd::utf8::encode_utf8("PING"@))),
        reg[spec_upper(vstd::utf8::encode_utf8("PING"@))] == HandlerKind::Ping,
    ensures
        ({
            let ping = RespData::Array(
                seq![RespData::BulkString(vstd::utf8::encode_utf8("PING"@))],
            );
            spec_value_response(reg, store, ping, now) == (
                Some(spec_encode(RespData::SimpleString(vstd::utf8::encode_utf8("PONG"@)))),
                store,
            )
        }),
{
    let name = vstd::utf8::encode_utf8("PING"@);
    let items = seq![RespData::BulkString(name)];
    assert(items[0] == RespData::BulkString(name));
    vstd::utf8::encode_utf8_valid_utf8("PING"@);
    assert(spec_plan_handler(HandlerKind::Ping, items.drop_first()) == Ok::<PlanData, Seq<char>>(
        PlanData::Reply(RespData::SimpleString(vstd::utf8::encode_utf8("PONG"@))),
    ));
}

/// The wire form of one error.
pub fn error_bytes(e: &RustRedisError) -> (r: Vec<u8>)
    ensures
        r@ == spec_error_bytes(e.spec_message()),
{
    let resp = e.to_resp();
    match crate::resp::serialize::serialize_value(&resp) {
        Ok(b) => b,
        Err(_) => {
            proof {
                assert(false);
            }
            Vec::new()
        },
    }
}

} // verus!
