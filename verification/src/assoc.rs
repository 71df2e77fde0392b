//! Association vectors: key/value pairs with pairwise-distinct
//! byte-string keys, read abstractly as a `Map` from keys to the
//! values' abstractions. Both the keyspace and the command registry
//! are built on this shape.
use vstd::prelude::*;

verus! {

/// No two pairs carry the same key.
pub open spec fn unique_keys<V>(es: Seq<(Vec<u8>, V)>) -> bool {
    forall|i: int, j: int|
        0 <= i < j < es.len() ==> (#[trigger] es[i]).0@ != (#[trigger] es[j]).0@
}

/// Some pair carries key `k`.
pub open spec fn has_key<V>(es: Seq<(Vec<u8>, V)>, k: Seq<u8>) -> bool {
    exists|i: int| 0 <= i < es.len() && (#[trigger] es[i]).0@ == k
}

/// The abstraction of the value stored under key `k`.
pub open spec fn value_for<V: View>(es: Seq<(Vec<u8>, V)>, k: Seq<u8>) -> V::V {
    es[choose|i: int| 0 <= i < es.len() && (#[trigger] es[i]).0@ == k].1@
}

/// The pairs, read as a mapping from keys to value abstractions.
pub open spec fn assoc_map<V: View>(es: Seq<(Vec<u8>, V)>) -> Map<Seq<u8>, V::V> {
    Map::new(|k: Seq<u8>| has_key(es, k), |k: Seq<u8>| value_for(es, k))
}

/// With distinct keys, the pair at any index is the one the mapping
/// reads for its key.
pub proof fn lemma_value_at<V: View>(es: Seq<(Vec<u8>, V)>, i: int)
    requires
        unique_keys(es),
        0 <= i < es.len(),
    ensures
        has_key(es, es[i].0@),
        value_for(es, es[i].0@) == es[i].1@,
{
    assert(0 <= i < es.len() && es[i].0@ == es[i].0@);
    let j = choose|j: int| 0 <= j < es.len() && (#[trigger] es[j]).0@ == es[i].0@;
    if i != j {
        if i < j {
            assert((es[i]).0@ != (es[j]).0@);
        } else {
            assert((es[j]).0@ != (es[i]).0@);
        }
    }
}

/// What removing the pair at `i` by a swap with the last pair does to
/// the mapping: its key leaves, nothing else moves.
pub proof fn lemma_swap_remove_assoc<V: View>(es: Seq<(Vec<u8>, V)>, i: int)
    requires
        unique_keys(es),
        0 <= i < es.len(),
    ensures
        ({
            let r = es.update(i, es.last()).drop_last();
            &&& unique_keys(r)
            &&& !has_key(r, es[i].0@)
            &&& assoc_map(r) == assoc_map(es).remove(es[i].0@)
        }),
{
    let r = es.update(i, es.last()).drop_last();
    let n = es.len() as int;
    let removed = es[i].0@;
    assert forall|j: int| 0 <= j < n - 1 implies #[trigger] r[j] == (if j == i {
        es[n - 1]
    } else {
        es[j]
    }) by {}
    assert forall|a: int, b: int| 0 <= a < b < r.len() implies (#[trigger] r[a]).0@ != (
    #[trigger] r[b]).0@ by {
        let oa = if a == i {
            n - 1
        } else {
            a
        };
        let ob = if b == i {
            n - 1
        } else {
            b
        };
        assert(r[a] == es[oa] && r[b] == es[ob]);
        assert(oa != ob);
    }
    assert forall|j: int| 0 <= j < r.len() implies (#[trigger] r[j]).0@ != removed by {
        let oj = if j == i {
            n - 1
        } else {
            j
        };
        assert(r[j] == es[oj]);
        if oj != i {
            if i < oj {
                assert(es[i].0@ != es[oj].0@);
            } else {
                assert(es[oj].0@ != es[i].0@);
            }
        }
    }
    assert forall|k: Seq<u8>| true implies #[trigger] assoc_map(r).dom().contains(k) == assoc_map(
        es,
    ).remove(removed).dom().contains(k) by {
        if k == removed {
            assert(!has_key(r, k));
        } else {
            if has_key(r, k) {
                let j = choose|j: int| 0 <= j < r.len() && (#[trigger] r[j]).0@ == k;
                let oj = if j == i {
                    n - 1
                } else {
                    j
                };
                assert(es[oj].0@ == k);
                assert(has_key(es, k));
            }
            if has_key(es, k) {
                let j = choose|j: int| 0 <= j < es.len() && (#[trigger] es[j]).0@ == k;
                assert(j != i);
                if j == n - 1 {
                    assert(i < n - 1);
                    assert(r[i] == es[n - 1]);
                    assert(has_key(r, k));
                } else {
                    assert(r[j] == es[j]);
                    assert(has_key(r, k));
                }
            }
        }
    }
    assert forall|k: Seq<u8>| has_key(r, k) && k != removed implies #[trigger] value_for(r, k)
        == value_for(es, k) by {
        let j = choose|j: int| 0 <= j < r.len() && (#[trigger] r[j]).0@ == k;
        let oj = if j == i {
            n - 1
        } else {
            j
        };
        assert(r[j] == es[oj]);
        lemma_value_at(r, j);
        lemma_value_at(es, oj);
    }
    assert(assoc_map(r) =~= assoc_map(es).remove(removed));
}

/// What appending a pair with a fresh key does to the mapping: its key
/// enters, nothing else moves.
pub proof fn lemma_push_assoc<V: View>(es: Seq<(Vec<u8>, V)>, p: (Vec<u8>, V))
    requires
        unique_keys(es),
        !has_key(es, p.0@),
    ensures
        unique_keys(es.push(p)),
        assoc_map(es.push(p)) == assoc_map(es).insert(p.0@, p.1@),
{
    let r = es.push(p);
    let n = es.len() as int;
    assert forall|a: int, b: int| 0 <= a < b < r.len() implies (#[trigger] r[a]).0@ != (
    #[trigger] r[b]).0@ by {
        if b < n {
            assert(r[a] == es[a] && r[b] == es[b]);
        } else {
            assert(r[b] == p);
            assert(r[a] == es[a]);
            assert(0 <= a < es.len() && (es[a]).0@ == es[a].0@);
            if es[a].0@ == p.0@ {
                assert(has_key(es, p.0@));
            }
        }
    }
    assert forall|k: Seq<u8>| true implies #[trigger] assoc_map(r).dom().contains(k) == assoc_map(
        es,
    ).insert(p.0@, p.1@).dom().contains(k) by {
        if k == p.0@ {
            assert(r[n].0@ == k);
            assert(has_key(r, k));
        } else {
            if has_key(r, k) {
                let j = choose|j: int| 0 <= j < r.len() && (#[trigger] r[j]).0@ == k;
                assert(j < n);
                assert(r[j] == es[j]);
                assert(has_key(es, k));
            }
            if has_key(es, k) {
                let j = choose|j: int| 0 <= j < es.len() && (#[trigger] es[j]).0@ == k;
                assert(r[j] == es[j]);
                assert(has_key(r, k));
            }
        }
    }
    assert forall|k: Seq<u8>| has_key(r, k) implies #[trigger] value_for(r, k) == (if k == p.0@ {
        p.1@
    } else {
        value_for(es, k)
    }) by {
        if k == p.0@ {
            assert(r[n].0@ == k);
            lemma_value_at(r, n);
        } else {
            let j = choose|j: int| 0 <= j < r.len() && (#[trigger] r[j]).0@ == k;
            assert(j < n);
            assert(r[j] == es[j]);
            lemma_value_at(r, j);
            lemma_value_at(es, j);
        }
    }
    assert(assoc_map(r) =~= assoc_map(es).insert(p.0@, p.1@));
}

} // verus!
