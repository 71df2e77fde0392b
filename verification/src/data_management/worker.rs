//! The datastore actor's step: it owns the keyspace and folds one
//! message at a time into it, in arrival order, handing back the
//! reply for that message. The surrounding runtime does nothing but
//! carry messages to this function and replies away from it, so every
//! keyspace fact below holds of the running server.
use vstd::prelude::*;

use crate::data_management::datastore::{
    entry_expired, spec_absolute_expiry, DataStore, EntryModel,
};
use crate::data_management::message::DataChannelMessage;
use crate::errors::RustRedisError;
use crate::resp::deserialize::spec_parse;
use crate::resp::{Resp, RespData};

verus! {

/// The reply the actor owes for one message against contents `m` at
/// instant `now`, and the contents it leaves behind.
pub open spec fn spec_set_reply() -> RespData {
    RespData::SimpleString(vstd::utf8::encode_utf8("OK"@))
}

/// What a lookup against contents `m` answers at instant `now`: the
/// stored bytes parsed back into a value on a live key, the null bulk
/// string otherwise.
pub open spec fn spec_get_reply(m: Map<Seq<u8>, EntryModel>, key: Seq<u8>, now: u64) -> RespData {
    if m.contains_key(key) && !entry_expired(m[key], now) {
        match spec_parse(m[key].data) {
            Ok(p) => p.0,
            Err(e) => RespData::SimpleError(
                vstd::utf8::encode_utf8(RustRedisError::DeserializeError(e).spec_message()),
            ),
        }
    } else {
        RespData::NullBulkString
    }
}

/// The single consumer of the keyspace: all mutation goes through
/// `process`, one message at a time.
#[derive(Debug)]
pub struct DataManager<T: DataStore> {
    data_store: T,
    cleanup_intervall: u64,
}

impl<T: DataStore> DataManager<T> {
    /// The keyspace as the actor sees it.
    pub closed spec fn contents(&self) -> Map<Seq<u8>, EntryModel> {
        self.data_store.contents()
    }

    /// The sweep interval, in milliseconds.
    pub closed spec fn spec_cleanup_intervall(&self) -> u64 {
        self.cleanup_intervall
    }

    /// An actor over the given store; the sweep interval defaults to
    /// one hour.
    pub fn new(data_store: T, cleanup_intervall: Option<u64>) -> (r: Self)
        ensures
            r.contents() == data_store.contents(),
            r.spec_cleanup_intervall() == match cleanup_intervall {
                Some(d) => d,
                None => 3600000u64,
            },
    {
        Self {
            data_store,
            cleanup_intervall: match cleanup_intervall {
                Some(duration) => duration,
                None => 3600000,
            },
        }
    }

    /// Folds one message into the keyspace and returns the reply owed
    /// for it. A `Set` inserts and acknowledges with `OK`; a `Get`
    /// answers from the keyspace, evicting a dead entry as it passes.
    pub fn process(&mut self, message: DataChannelMessage, now: u64) -> (r: Resp)
        ensures
            (match message {
                DataChannelMessage::SetValue(mm) => {
                    &&& final(self).contents() == old(self).contents().insert(
                        mm.key@,
                        EntryModel {
                            data: mm.value@,
                            expires_at: spec_absolute_expiry(mm.expiry, now),
                        },
                    )
                    &&& r@ == spec_set_reply()
                },
                DataChannelMessage::GetValue(gm) => {
                    &&& r@ == spec_get_reply(old(self).contents(), gm.key@, now)
                    &&& final(self).contents() == (if old(self).contents().contains_key(gm.key@)
                        && entry_expired(old(self).contents()[gm.key@], now) {
                        old(self).contents().remove(gm.key@)
                    } else {
                        old(self).contents()
                    })
                },
            }),
            final(self).spec_cleanup_intervall() == old(self).spec_cleanup_intervall(),
    {
        match message {
            DataChannelMessage::SetValue(mm) => {
                self.data_store.insert(mm.key, mm.value, mm.expiry, now);
                Resp::simple_string_from_str("OK")
            },
            DataChannelMessage::GetValue(gm) => {
                match self.data_store.get(gm.key, now) {
                    Some(data) => {
                        match Resp::deserialize(data.as_slice()) {
                            Ok(value) => value,
                            Err(err) => RustRedisError::DeserializeError(err).to_resp(),
                        }
                    },
                    None => Resp::null_bulk_string(),
                }
            },
        }
    }
}

/// Keyspace law: a key set without a lifetime is alive at every later
/// instant and answers with exactly the stored bytes.
pub proof fn lemma_set_then_get(
    m: Map<Seq<u8>, EntryModel>,
    k: Seq<u8>,
    v: Seq<u8>,
    t_set: u64,
    t_get: u64,
)
    ensures
        ({
            let m1 = m.insert(k, EntryModel { data: v, expires_at: spec_absolute_expiry(None, t_set) });
            &&& m1.contains_key(k)
            &&& !entry_expired(m1[k], t_get)
            &&& m1[k].data == v
        }),
{
}

/// Keyspace law: a key set with lifetime `d` at `t_set` is alive and
/// answers with the stored bytes strictly before `t_set + d`, and is
/// logically absent from `t_set + d` on.
pub proof fn lemma_set_px_then_get(
    m: Map<Seq<u8>, EntryModel>,
    k: Seq<u8>,
    v: Seq<u8>,
    d: u64,
    t_set: u64,
    t_get: u64,
)
    ensures
        ({
            let m1 = m.insert(
                k,
                EntryModel { data: v, expires_at: spec_absolute_expiry(Some(d), t_set) },
            );
            &&& m1.contains_key(k)
            &&& m1[k].data == v
            &&& (t_get < t_set + d && t_set + d <= u64::MAX ==> !entry_expired(m1[k], t_get))
            &&& (t_set + d <= t_get ==> entry_expired(m1[k], t_get))
        }),
{
}

/// Keyspace law: a key never set answers as absent.
pub proof fn lemma_get_unset(m: Map<Seq<u8>, EntryModel>, k: Seq<u8>, now: u64)
    requires
        !m.contains_key(k),
    ensures
        spec_get_reply(m, k, now) == RespData::NullBulkString,
{
}

} // verus!
