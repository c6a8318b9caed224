//! Lookups by key order in an ordered map of spans.

use std::collections::BTreeMap;
use vstd::prelude::*;
use vstd::laws_cmp::obeys_cmp;
use vstd::std_specs::btree::increasing_seq;
use vstd::std_specs::cmp::OrdSpec;
use vstd::std_specs::iter::IteratorSpec;
use super::span::{SpanKey, span_le, span_lt};

verus! {

/// In an increasing sequence of keys an earlier key is lexicographically
/// before a later one.
proof fn lemma_increasing_keys(keys: Seq<&SpanKey>, i: int, j: int)
    requires
        increasing_seq(keys),
        0 <= i < j < keys.len(),
    ensures
        span_lt(*keys[i], *keys[j]),
{
    broadcast use vstd::laws_cmp::group_laws_cmp;
    broadcast use vstd::std_specs::btree::group_btree_axioms;

    assert(obeys_cmp::<u32>());
    assert(obeys_cmp::<SpanKey>());
    assert(obeys_cmp::<&SpanKey>());
    assert(OrdSpec::cmp_spec(&keys[i], &keys[j]) is Less);
}

/// The lexicographically least key of `m`, or `None` where `m` is empty.
pub fn earliest_key<V>(m: &BTreeMap<SpanKey, V>) -> (r: Option<SpanKey>)
    ensures
        match r {
            Some(k) => m@.contains_key(k) && forall|j: SpanKey|
                m@.contains_key(j) ==> span_le(k, j),
            None => forall|j: SpanKey| !m@.contains_key(j),
        },
{
    broadcast use vstd::laws_cmp::group_laws_cmp;
    broadcast use vstd::std_specs::btree::group_btree_axioms;

    for k in it: m.keys()
        invariant
            it.index() == 0,
            forall|j: SpanKey| m@.contains_key(j) ==> it.seq().unref().contains(j),
    {
        proof {
            let keys = it.seq();
            assert(keys.unref().to_set() == m@.dom());
            assert(keys.unref()[0] == *k);
            assert forall|j: SpanKey| m@.contains_key(j) implies span_le(*k, j) by {
                assert(keys.unref().to_set().contains(j));
                let i = choose|i: int| 0 <= i < keys.unref().len() && keys.unref()[i] == j;
                assert(keys.unref()[i] == *keys[i]);
                if i != 0 {
                    lemma_increasing_keys(keys, 0, i);
                }
            }
        }
        return Some(*k);
    }
    None
}

/// The first key of `m`, in key order, that starts at `start`; `None` where
/// no key of `m` starts there.
pub fn first_key_at<V>(m: &BTreeMap<SpanKey, V>, start: u32) -> (r: Option<SpanKey>)
    ensures
        match r {
            Some(k) => m@.contains_key(k) && k.0 == start && forall|j: SpanKey|
                m@.contains_key(j) && j.0 == start ==> span_le(k, j),
            None => forall|j: SpanKey| m@.contains_key(j) ==> j.0 != start,
        },
{
    broadcast use vstd::laws_cmp::group_laws_cmp;
    broadcast use vstd::std_specs::btree::group_btree_axioms;

    for k in it: m.keys()
        invariant
            forall|i: int| 0 <= i < it.index() ==> it.seq()[i].0 != start,
    {
        if k.0 == start {
            proof {
                let keys = it.seq();
                let n = it.index();
                assert(keys.unref().to_set() == m@.dom());
                assert(keys.unref()[n] == *k);
                assert forall|j: SpanKey| m@.contains_key(j) && j.0 == start implies span_le(
                    *k,
                    j,
                ) by {
                    assert(keys.unref().to_set().contains(j));
                    let i = choose|i: int| 0 <= i < keys.unref().len() && keys.unref()[i] == j;
                    assert(keys.unref()[i] == *keys[i]);
                    if i != n {
                        lemma_increasing_keys(keys, n, i);
                    }
                }
            }
            return Some(*k);
        }
    }
    None
}

} // verus!
