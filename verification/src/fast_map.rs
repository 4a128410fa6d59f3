//! The hash map of `ahash` that the batch analysis aggregates into, behind trusted items.
use vstd::prelude::*;
use ahash::AHashMap;
use crate::batch::AggregatedAnalysisRow;

verus! {

#[verifier::external_type_specification]
#[verifier::external_body]
#[verifier::reject_recursive_types(K)]
#[verifier::reject_recursive_types(V)]
#[verifier::reject_recursive_types(S)]
pub struct ExAHashMap<K, V, S>(AHashMap<K, V, S>);

#[verifier::external_type_specification]
#[verifier::external_body]
pub struct ExAhashRandomState(ahash::RandomState);

/// What an `AHashMap` from model names to aggregated rows holds: each key, by its characters,
/// with its row.
pub uninterp spec fn row_map_contents(m: AHashMap<String, AggregatedAnalysisRow>) -> Map<Seq<char>, AggregatedAnalysisRow>;

/// `AHashMap::with_capacity`: an empty map (the capacity only reserves room).
#[verifier::external_body]
pub(crate) fn row_map_with_capacity(capacity: usize) -> (m: AHashMap<String, AggregatedAnalysisRow>)
    ensures
        row_map_contents(m).dom() == Set::<Seq<char>>::empty(),
{
    AHashMap::with_capacity(capacity)
}

/// `AHashMap::remove`: takes the entry of `key` out of the map and hands back its value.
#[verifier::external_body]
pub(crate) fn row_map_remove(m: &mut AHashMap<String, AggregatedAnalysisRow>, key: &str) -> (r: Option<AggregatedAnalysisRow>)
    ensures
        row_map_contents(*final(m)) == row_map_contents(*old(m)).remove(key@),
        r == (if row_map_contents(*old(m)).contains_key(key@) {
            Some(row_map_contents(*old(m))[key@])
        } else {
            None
        }),
{
    m.remove(key)
}

/// `AHashMap::insert`: maps `key` to `value`, replacing what it mapped to before.
#[verifier::external_body]
pub(crate) fn row_map_insert(m: &mut AHashMap<String, AggregatedAnalysisRow>, key: String, value: AggregatedAnalysisRow)
    ensures
        row_map_contents(*final(m)) == row_map_contents(*old(m)).insert(key@, value),
{
    m.insert(key, value);
}

/// `AHashMap::into_values`: every value of the map, once each, in an order that the map's
/// seeded hashing decides; nothing is said of that order.
#[verifier::external_body]
pub(crate) fn row_map_into_values(m: AHashMap<String, AggregatedAnalysisRow>) -> (r: Vec<AggregatedAnalysisRow>)
    ensures
        exists|keys: Seq<Seq<char>>|
            #![trigger keys.len()]
            {
                &&& keys.len() == r@.len()
                &&& keys.no_duplicates()
                &&& keys.to_set() == row_map_contents(m).dom()
                &&& forall|i: int| 0 <= i < r@.len() ==> #[trigger] r@[i] == row_map_contents(m)[keys[i]]
            },
{
    m.into_values().collect()
}

} // verus!
