//! One stored entry and the capability every keyspace offers: insert
//! with optional expiry, and lookup with lazy eviction.
use vstd::prelude::*;

verus! {

/// The mathematical shape of a stored entry: the value bytes and the
/// instant, in milliseconds, past which the entry is logically absent.
pub struct EntryModel {
    pub data: Seq<u8>,
    pub expires_at: Option<u64>,
}

/// An entry is logically absent once `now` has reached its expiry.
pub open spec fn entry_expired(e: EntryModel, now: u64) -> bool {
    e.expires_at matches Some(t) && now >= t
}

/// The instant an entry inserted at `now` with the given lifetime runs
/// out; a lifetime beyond the clock's range never runs out in it.
pub open spec fn spec_absolute_expiry(expiry: Option<u64>, now: u64) -> Option<u64> {
    match expiry {
        None => None,
        Some(d) => Some(
            if now + d > u64::MAX {
                u64::MAX
            } else {
                (now + d) as u64
            },
        ),
    }
}

/// A stored value with its optional expiry instant.
#[derive(Debug)]
pub struct DataStoreEntry {
    pub data: Vec<u8>,
    expiry: Option<u64>,
}

impl View for DataStoreEntry {
    type V = EntryModel;

    closed spec fn view(&self) -> EntryModel {
        EntryModel { data: self.data@, expires_at: self.expiry }
    }
}

impl DataStoreEntry {
    /// An entry created at instant `now` holding `data`, expiring
    /// `expiry` milliseconds later if a lifetime is given. A lifetime
    /// reaching past the clock's range saturates: the entry never
    /// expires within it.
    pub fn new(data: Vec<u8>, expiry: Option<u64>, now: u64) -> (r: Self)
        ensures
            r@.data == data@,
            r@.expires_at == spec_absolute_expiry(expiry, now),
    {
        let expiry_at = match expiry {
            None => None,
            Some(d) => {
                if d > u64::MAX - now {
                    Some(u64::MAX)
                } else {
                    Some(now + d)
                }
            },
        };
        Self { data, expiry: expiry_at }
    }

    /// A fresh copy of the stored bytes.
    pub fn clone_data(&self) -> (r: Vec<u8>)
        ensures
            r@ == self@.data,
    {
        crate::resp::copy_bytes(&self.data)
    }

    /// Whether this entry is logically absent at instant `now`.
    pub fn expired(&self, now: u64) -> (r: bool)
        ensures
            r == entry_expired(self@, now),
    {
        match self.expiry {
            Some(t) => now >= t,
            None => false,
        }
    }
}

/// What a keyspace does: it maps byte-string keys to entries, inserts
/// unconditionally, and evicts an expired entry the moment a lookup
/// touches it.
pub trait DataStore: Sized {
    spec fn contents(&self) -> Map<Seq<u8>, EntryModel>;

    fn insert(&mut self, key: Vec<u8>, data: Vec<u8>, expiry: Option<u64>, now: u64)
        ensures
            final(self).contents() == old(self).contents().insert(
                key@,
                EntryModel { data: data@, expires_at: spec_absolute_expiry(expiry, now) },
            ),
    ;

    fn get(&mut self, key: Vec<u8>, now: u64) -> (r: Option<Vec<u8>>)
        ensures
            ({
                let m = old(self).contents();
                if !m.contains_key(key@) {
                    r is None && final(self).contents() == m
                } else if entry_expired(m[key@], now) {
                    r is None && final(self).contents() == m.remove(key@)
                } else {
                    (r matches Some(v) && v@ == m[key@].data) && final(self).contents() == m
                }
            }),
    ;
}

} // verus!
