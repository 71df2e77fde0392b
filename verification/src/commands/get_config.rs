//! CONFIG GET: one bulk-string field name out of the closed set,
//! answered as a two-element array of name and value.
use vstd::prelude::*;

use crate::config::{AppConfig, ConfigField};
use crate::errors::{usize_string, RustRedisError};
use crate::resp::{
    lemma_resp_view_items_len, resp_duplicate, resp_view_items, Resp, RespData,
};
use vstd::string::{StrSliceExecFns, StringExecFns, StringSliceAdditionalSpecFns};

verus! {

pub const GET_CONFIG_COMMAND_NAME: &'static str = "CONFIG GET";

/// The handler for CONFIG GET: it holds the immutable snapshot taken
/// at startup, one RESP value per field, a null bulk string where the
/// field was not configured.
#[derive(Debug)]
pub struct GetConfigCommandHandler {
    dir: Resp,
    dbfilename: Resp,
}

impl GetConfigCommandHandler {
    #[verifier::type_invariant]
    spec fn wf(&self) -> bool {
        (self.dir@ is BulkString || self.dir@ is NullBulkString) && (self.dbfilename@
            is BulkString || self.dbfilename@ is NullBulkString)
    }

    /// The snapshot value for `dir`.
    pub closed spec fn spec_dir(&self) -> RespData {
        self.dir@
    }

    /// The snapshot value for `dbfilename`.
    pub closed spec fn spec_dbfilename(&self) -> RespData {
        self.dbfilename@
    }

    /// Takes the snapshot from the startup configuration.
    pub fn new(config: &AppConfig) -> (r: Self)
        ensures
            r.spec_dir() == spec_field_value(config.dir),
            r.spec_dbfilename() == spec_field_value(config.dbfilename),
    {
        let dir = match &config.dir {
            Some(d) => Resp::bulk_string_from_str(d.as_str()),
            None => Resp::null_bulk_string(),
        };
        let dbfilename = match &config.dbfilename {
            Some(d) => Resp::bulk_string_from_str(d.as_str()),
            None => Resp::null_bulk_string(),
        };
        Self { dir, dbfilename }
    }

    /// Answers `[field_name, field_value]` for a known field.
    pub fn handle(&self, args: &[Resp]) -> (r: Result<Resp, RustRedisError>)
        ensures
            args@.len() < 1 ==> (r matches Err(e) && e matches RustRedisError::InvalidArgLength(
                c,
                x,
                g,
            ) && c@ == "CONFIG GET"@ && x@ == "1"@ && vstd::utf8::encode_utf8(g@)
                == crate::resp::spec_digits(args@.len())),
            args@.len() >= 1 ==> spec_config_reply(
                self.spec_dir(),
                self.spec_dbfilename(),
                args@[0]@,
                r,
            ),
            r matches Ok(v) ==> crate::resp::utf8_ok(v@),
    {
        proof {
            use_type_invariant(&*self);
        }
        if args.len() < 1 {
            return Err(
                RustRedisError::InvalidArgLength(
                    String::from_str(GET_CONFIG_COMMAND_NAME),
                    String::from_str("1"),
                    usize_string(args.len()),
                ),
            );
        }
        let field = match ConfigField::try_from_resp(&args[0]) {
            Ok(f) => f,
            Err(e) => {
                return Err(e);
            },
        };
        let value = match field {
            ConfigField::Dir => resp_duplicate(&self.dir),
            ConfigField::Dbfilename => resp_duplicate(&self.dbfilename),
        };
        let name = resp_duplicate(&args[0]);
        let items: Vec<Resp> = vec![name, value];
        let response = Resp::Array(items);
        proof {
            lemma_resp_view_items_len(response->Array_0, 0);
            assert(resp_view_items(response->Array_0, 0) =~= seq![args@[0]@, value@]);
            let pair = response@->Array_0;
            assert(args@[0]@ is BulkString);
            assert(pair[0] == args@[0]@ && pair[1] == value@);
            assert(crate::resp::utf8_ok(pair[0]));
            assert(value@ == self.dir@ || value@ == self.dbfilename@);
            assert(crate::resp::utf8_ok(pair[1]));
            assert(pair.drop_first()[0] == pair[1]);
            assert(pair.drop_first().drop_first() =~= Seq::<RespData>::empty());
            assert(crate::resp::utf8_ok_seq(pair.drop_first().drop_first()));
            assert(crate::resp::utf8_ok_seq(pair.drop_first()));
            assert(crate::resp::utf8_ok_seq(pair));
        }
        Ok(response)
    }
}

/// The snapshot value of one optional field.
pub open spec fn spec_field_value(field: Option<String>) -> RespData {
    match field {
        Some(s) => RespData::BulkString(vstd::utf8::encode_utf8(s@)),
        None => RespData::NullBulkString,
    }
}

/// What CONFIG GET answers for argument `arg` against the snapshot:
/// the two-element array for a known field, the exact error
/// otherwise.
pub open spec fn spec_config_reply(
    dir: RespData,
    dbfilename: RespData,
    arg: RespData,
    r: Result<Resp, RustRedisError>,
) -> bool {
    match arg {
        RespData::BulkString(b) => {
            if b == vstd::utf8::encode_utf8("dbfilename"@) {
                r matches Ok(v) && v@ == RespData::Array(seq![arg, dbfilename])
            } else if b == vstd::utf8::encode_utf8("dir"@) {
                r matches Ok(v) && v@ == RespData::Array(seq![arg, dir])
            } else {
                r matches Err(e) && e matches RustRedisError::InvalidConfigField(s) && s@
                    == crate::config::lossy_of(b)
            }
        },
        _ => r matches Err(e) && e matches RustRedisError::InvalidArgType(s) && s@
            == "bulk string"@,
    }
}

} // verus!
