//! The keyspace: byte-string keys mapped to entries, kept as a vector
//! of pairs with pairwise-distinct keys and abstracted as a `Map`.
use vstd::prelude::*;

use crate::assoc::{
    assoc_map, has_key, lemma_push_assoc, lemma_swap_remove_assoc, lemma_value_at, unique_keys,
    value_for,
};
use crate::data_management::datastore::{
    entry_expired, spec_absolute_expiry, DataStore, DataStoreEntry, EntryModel,
};
use crate::resp::helpers::slice_eq;

verus! {

/// The pair is one of `es0[m..]`, not yet expired at `now`.
pub open spec fn from_suffix(
    p: (Vec<u8>, DataStoreEntry),
    es0: Seq<(Vec<u8>, DataStoreEntry)>,
    m: int,
    now: u64,
) -> bool {
    exists|j: int| m <= j < es0.len() && p == #[trigger] es0[j] && !entry_expired(es0[j].1@, now)
}

pub proof fn lemma_from_suffix_widen(
    p: (Vec<u8>, DataStoreEntry),
    es0: Seq<(Vec<u8>, DataStoreEntry)>,
    m: int,
    now: u64,
)
    requires
        from_suffix(p, es0, m + 1, now),
    ensures
        from_suffix(p, es0, m, now),
{
    let j = choose|j: int|
        m + 1 <= j < es0.len() && p == #[trigger] es0[j] && !entry_expired(es0[j].1@, now);
    assert(m <= j < es0.len() && p == es0[j] && !entry_expired(es0[j].1@, now));
}

/// The keyspace held as a vector of key/entry pairs with distinct
/// keys. Lookup is linear; the abstraction is the mapping the pairs
/// spell out.
#[derive(Debug)]
pub struct HashTableDataStore {
    entries: Vec<(Vec<u8>, DataStoreEntry)>,
}

impl HashTableDataStore {
    #[verifier::type_invariant]
    spec fn wf(&self) -> bool {
        unique_keys(self.entries@)
    }

    /// A keyspace holding the given pairs, later pairs winning on a
    /// repeated key.
    pub fn from_entries(mut entries: Vec<(Vec<u8>, DataStoreEntry)>) -> (r: Self)
        ensures
            r.contents() == spec_fill(
                Map::<Seq<u8>, EntryModel>::empty(),
                entries@.map_values(|p: (Vec<u8>, DataStoreEntry)| (p.0@, p.1@)),
            ),
    {
        let ghost pairs = entries@.map_values(|p: (Vec<u8>, DataStoreEntry)| (p.0@, p.1@));
        let mut store = HashTableDataStore { entries: Vec::new() };
        proof {
            assert(assoc_map(store.entries@) =~= Map::<Seq<u8>, EntryModel>::empty());
            assert(pairs.skip(0) =~= pairs);
        }
        while entries.len() > 0
            invariant
                entries@.len() <= pairs.len(),
                entries@.map_values(|p: (Vec<u8>, DataStoreEntry)| (p.0@, p.1@)) == pairs.skip(
                    pairs.len() - entries@.len(),
                ),
                spec_fill(Map::<Seq<u8>, EntryModel>::empty(), pairs) == spec_fill(
                    store.contents(),
                    pairs.skip(pairs.len() - entries@.len()),
                ),
            decreases entries@.len(),
        {
            let ghost pre = entries@;
            let ghost rem = pairs.skip(pairs.len() - pre.len());
            let pair = entries.remove(0);
            proof {
                assert(rem[0] == pre.map_values(
                    |p: (Vec<u8>, DataStoreEntry)| (p.0@, p.1@),
                )[0]);
                assert(rem[0] == (pair.0@, pair.1@));
                assert(entries@ =~= pre.skip(1));
                assert(entries@.map_values(|p: (Vec<u8>, DataStoreEntry)| (p.0@, p.1@))
                    =~= rem.drop_first());
                assert(rem.drop_first() =~= pairs.skip(pairs.len() - entries@.len()));
            }
            store.insert_entry(pair.0, pair.1);
        }
        proof {
            assert(pairs.skip(pairs.len() - 0) =~= Seq::<(Seq<u8>, EntryModel)>::empty());
        }
        store
    }

    /// Stores `entry` under `key`, replacing what was there.
    pub fn insert_entry(&mut self, key: Vec<u8>, entry: DataStoreEntry)
        ensures
            final(self).contents() == old(self).contents().insert(key@, entry@),
    {
        proof {
            use_type_invariant(&*self);
        }
        let ghost m0 = assoc_map(self.entries@);
        let idx = self.find_index(key.as_slice());
        let mut es: Vec<(Vec<u8>, DataStoreEntry)> = Vec::new();
        std::mem::swap(&mut es, &mut self.entries);
        let ghost es0 = es@;
        match idx {
            Some(i) => {
                proof {
                    lemma_swap_remove_assoc(es0, i as int);
                }
                es.swap_remove(i);
                proof {
                    assert(!has_key(es@, key@));
                    lemma_push_assoc(es@, (key, entry));
                }
                es.push((key, entry));
                proof {
                    assert(assoc_map(es@) =~= m0.insert(key@, entry@));
                }
            },
            None => {
                proof {
                    lemma_push_assoc(es0, (key, entry));
                }
                es.push((key, entry));
            },
        }
        self.entries = es;
    }

    /// The index of the pair carrying `key`, if one does.
    fn find_index(&self, key: &[u8]) -> (r: Option<usize>)
        ensures
            match r {
                Some(i) => i < self.entries@.len() && self.entries@[i as int].0@ == key@,
                None => !has_key(self.entries@, key@),
            },
    {
        let n = self.entries.len();
        let mut i: usize = 0;
        while i < n
            invariant
                i <= n,
                n == self.entries@.len(),
                forall|j: int| 0 <= j < i ==> (#[trigger] self.entries@[j]).0@ != key@,
            decreases n - i,
        {
            if slice_eq(self.entries[i].0.as_slice(), key) {
                return Some(i);
            }
            i += 1;
        }
        None
    }

    /// Drops every entry that has expired by instant `now`.
    pub fn clean(&mut self, now: u64)
        ensures
            final(self).contents() == Map::<Seq<u8>, EntryModel>::new(
                (|k: Seq<u8>| old(self).contents().dom().contains(k) && !entry_expired(
                    old(self).contents()[k],
                    now,
                )),
                (|k: Seq<u8>| old(self).contents()[k]),
            ),
    {
        proof {
            use_type_invariant(&*self);
        }
        let ghost m0 = assoc_map(self.entries@);
        let mut es: Vec<(Vec<u8>, DataStoreEntry)> = Vec::new();
        std::mem::swap(&mut es, &mut self.entries);
        let ghost es0 = es@;
        let mut kept: Vec<(Vec<u8>, DataStoreEntry)> = Vec::new();
        proof {
            assert(es0.take(es0.len() as int) =~= es0);
        }
        while es.len() > 0
            invariant
                unique_keys(es0),
                es@.len() <= es0.len(),
                es@ == es0.take(es@.len() as int),
                unique_keys(kept@),
                forall|a: int|
                    0 <= a < kept@.len() ==> from_suffix(
                        #[trigger] kept@[a],
                        es0,
                        es@.len() as int,
                        now,
                    ),
                forall|j: int|
                    es@.len() <= j < es0.len() && !entry_expired((#[trigger] es0[j]).1@, now)
                        ==> has_key(kept@, es0[j].0@) && value_for(kept@, es0[j].0@) == es0[j].1@,
            decreases es@.len(),
        {
            let ghost pre = es@;
            let ghost kept0 = kept@;
            let popped = es.pop();
            match popped {
                Some(pair) => {
                    let ghost m = es@.len() as int;
                    proof {
                        assert(pre == es0.take(m + 1));
                        assert(pair == pre.last());
                        assert(pre[m] == es0[m]);
                        assert(pair == es0[m]);
                        assert(es0.take(m + 1).drop_last() =~= es0.take(m));
                        assert(es@ == es0.take(m));
                    }
                    if !pair.1.expired(now) {
                        proof {
                            assert forall|a: int| 0 <= a < kept0.len() implies (
                            #[trigger] kept0[a]).0@ != pair.0@ by {
                                assert(from_suffix(kept0[a], es0, m + 1, now));
                                let j = choose|j: int|
                                    m + 1 <= j < es0.len() && kept0[a] == #[trigger] es0[j]
                                        && !entry_expired(es0[j].1@, now);
                                assert(es0[m].0@ != es0[j].0@);
                            }
                            assert(!has_key(kept0, pair.0@));
                            lemma_push_assoc(kept0, pair);
                            lemma_value_at(kept0.push(pair), kept0.len() as int);
                        }
                        kept.push(pair);
                        proof {
                            assert forall|a: int| 0 <= a < kept@.len() implies from_suffix(
                                #[trigger] kept@[a],
                                es0,
                                m,
                                now,
                            ) by {
                                if a < kept0.len() {
                                    assert(kept@[a] == kept0[a]);
                                    assert(from_suffix(kept0[a], es0, m + 1, now));
                                    lemma_from_suffix_widen(kept0[a], es0, m, now);
                                } else {
                                    assert(kept@[a] == pair);
                                    assert(m <= m < es0.len() && pair == es0[m] && !entry_expired(
                                        es0[m].1@,
                                        now,
                                    ));
                                }
                            }
                            assert forall|j: int|
                                m <= j < es0.len() && !entry_expired(
                                    (#[trigger] es0[j]).1@,
                                    now,
                                ) implies has_key(kept@, es0[j].0@) && value_for(kept@, es0[j].0@)
                                == es0[j].1@ by {
                                if j == m {
                                    lemma_value_at(kept@, kept0.len() as int);
                                } else {
                                    assert(has_key(kept0, es0[j].0@));
                                    let a = choose|a: int|
                                        0 <= a < kept0.len() && (#[trigger] kept0[a]).0@
                                            == es0[j].0@;
                                    assert(kept@[a] == kept0[a]);
                                    lemma_value_at(kept0, a);
                                    lemma_value_at(kept@, a);
                                }
                            }
                        }
                    } else {
                        proof {
                            assert forall|a: int| 0 <= a < kept@.len() implies from_suffix(
                                #[trigger] kept@[a],
                                es0,
                                m,
                                now,
                            ) by {
                                assert(from_suffix(kept@[a], es0, m + 1, now));
                                lemma_from_suffix_widen(kept@[a], es0, m, now);
                            }
                            assert forall|j: int|
                                m <= j < es0.len() && !entry_expired(
                                    (#[trigger] es0[j]).1@,
                                    now,
                                ) implies has_key(kept@, es0[j].0@) && value_for(kept@, es0[j].0@)
                                == es0[j].1@ by {
                                assert(j != m);
                            }
                        }
                    }
                },
                None => {
                    proof {
                        assert(false);
                    }
                },
            }
        }
        proof {
            assert(es@.len() == 0);
            assert forall|k: Seq<u8>| true implies #[trigger] assoc_map(kept@).dom().contains(k)
                == (m0.dom().contains(k) && !entry_expired(value_for(es0, k), now)) by {
                if has_key(kept@, k) {
                    let a = choose|a: int| 0 <= a < kept@.len() && (#[trigger] kept@[a]).0@ == k;
                    assert(from_suffix(kept@[a], es0, 0, now));
                    let j = choose|j: int|
                        0 <= j < es0.len() && kept@[a] == #[trigger] es0[j] && !entry_expired(
                            es0[j].1@,
                            now,
                        );
                    assert(has_key(es0, k));
                    lemma_value_at(es0, j);
                }
                if has_key(es0, k) && !entry_expired(value_for(es0, k), now) {
                    let j = choose|j: int| 0 <= j < es0.len() && (#[trigger] es0[j]).0@ == k;
                    lemma_value_at(es0, j);
                    assert(has_key(kept@, es0[j].0@));
                }
            }
            assert forall|k: Seq<u8>| assoc_map(kept@).dom().contains(k) implies
                #[trigger] value_for(kept@, k) == value_for(es0, k) by {
                let a = choose|a: int| 0 <= a < kept@.len() && (#[trigger] kept@[a]).0@ == k;
                assert(from_suffix(kept@[a], es0, 0, now));
                let j = choose|j: int|
                    0 <= j < es0.len() && kept@[a] == #[trigger] es0[j] && !entry_expired(
                        es0[j].1@,
                        now,
                    );
                lemma_value_at(kept@, a);
                lemma_value_at(es0, j);
            }
            assert(assoc_map(kept@) =~= Map::<Seq<u8>, EntryModel>::new(
                (|k: Seq<u8>| m0.dom().contains(k) && !entry_expired(m0[k], now)),
                (|k: Seq<u8>| m0[k]),
            ));
        }
        self.entries = kept;
    }
}

/// The mapping written by a list of pairs applied in order.
pub open spec fn spec_fill(
    m: Map<Seq<u8>, EntryModel>,
    l: Seq<(Seq<u8>, EntryModel)>,
) -> Map<Seq<u8>, EntryModel>
    decreases l.len(),
{
    if l.len() == 0 {
        m
    } else {
        spec_fill(m.insert(l[0].0, l[0].1), l.drop_first())
    }
}

impl Default for HashTableDataStore {
    /// The empty keyspace.
    fn default() -> (r: Self)
        ensures
            r.contents() == Map::<Seq<u8>, EntryModel>::empty(),
    {
        let r = HashTableDataStore { entries: Vec::new() };
        proof {
            assert(assoc_map(r.entries@) =~= Map::<Seq<u8>, EntryModel>::empty());
        }
        r
    }
}

impl DataStore for HashTableDataStore {
    closed spec fn contents(&self) -> Map<Seq<u8>, EntryModel> {
        assoc_map(self.entries@)
    }

    fn insert(&mut self, key: Vec<u8>, data: Vec<u8>, expiry: Option<u64>, now: u64) {
        let entry = DataStoreEntry::new(data, expiry, now);
        self.insert_entry(key, entry);
    }

    fn get(&mut self, key: Vec<u8>, now: u64) -> (r: Option<Vec<u8>>) {
        proof {
            use_type_invariant(&*self);
        }
        let ghost m0 = assoc_map(self.entries@);
        let idx = self.find_index(key.as_slice());
        match idx {
            Some(i) => {
                proof {
                    lemma_value_at(self.entries@, i as int);
                }
                if self.entries[i].1.expired(now) {
                    let mut es: Vec<(Vec<u8>, DataStoreEntry)> = Vec::new();
                    std::mem::swap(&mut es, &mut self.entries);
                    proof {
                        lemma_swap_remove_assoc(es@, i as int);
                    }
                    es.swap_remove(i);
                    self.entries = es;
                    None
                } else {
                    let value = self.entries[i].1.clone_data();
                    Some(value)
                }
            },
            None => None,
        }
    }
}

} // verus!
