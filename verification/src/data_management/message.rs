//! The messages the connection handlers send to the datastore actor,
//! and the reply they get back. Each message carries plain values;
//! the reply channel itself is the runtime's affair.
use vstd::prelude::*;

use crate::resp::Resp;

verus! {

/// Store `value` under `key`, expiring `expiry` milliseconds from the
/// moment the actor processes the message, if a lifetime is given.
#[derive(Debug)]
pub struct SetMessage {
    pub key: Vec<u8>,
    pub value: Vec<u8>,
    pub expiry: Option<u64>,
}

impl SetMessage {
    pub fn new(key: Vec<u8>, value: Vec<u8>, expiry: Option<u64>) -> (r: Self)
        ensures
            r.key@ == key@,
            r.value@ == value@,
            r.expiry == expiry,
    {
        Self { key, value, expiry }
    }
}

/// Look `key` up.
#[derive(Debug)]
pub struct GetMessage {
    pub key: Vec<u8>,
}

impl GetMessage {
    pub fn new(key: Vec<u8>) -> (r: Self)
        ensures
            r.key@ == key@,
    {
        Self { key }
    }
}

/// Everything the actor accepts.
#[derive(Debug)]
pub enum DataChannelMessage {
    SetValue(SetMessage),
    GetValue(GetMessage),
}

/// What the actor sends back: one RESP value per request.
#[derive(Debug)]
pub struct ResponseChannelMessage(pub Resp);

} // verus!
