//! The concurrent maps that hold the build graph, seen through their contents.
use vstd::prelude::*;
use dashmap::DashMap;
use crate::graph::BazelTarget;
use crate::text::texts;

verus! {

#[verifier::external_type_specification]
#[verifier::external_body]
#[verifier::reject_recursive_types(K)]
#[verifier::reject_recursive_types(V)]
#[verifier::reject_recursive_types(S)]
pub struct ExDashMap<K, V, S>(DashMap<K, V, S>);

/// Targets keyed by label.
pub type TargetMap = DashMap<String, BazelTarget>;

/// Lists of labels keyed by a label or a path.
pub type ListMap = DashMap<String, Vec<String>>;

/// What a target map holds: each key's text, mapped to its target.
pub uninterp spec fn target_entries(m: TargetMap) -> Map<Seq<char>, BazelTarget>;

/// What a label-list map holds: each key's text, mapped to the texts of its list.
pub uninterp spec fn list_entries(m: ListMap) -> Map<Seq<char>, Seq<Seq<char>>>;

/// Relies on `DashMap::new`: a new map is empty.
#[verifier::external_body]
pub fn new_target_map() -> (r: TargetMap)
    ensures
        target_entries(r).dom().len() == 0 && target_entries(r).dom().finite(),
{
    DashMap::new()
}

/// Relies on `DashMap::new`: a new map is empty.
#[verifier::external_body]
pub fn new_list_map() -> (r: ListMap)
    ensures
        list_entries(r).dom().len() == 0 && list_entries(r).dom().finite(),
{
    DashMap::new()
}

/// Relies on `DashMap::insert`: the key is mapped to the value, replacing any earlier one.
#[verifier::external_body]
pub fn put_target(m: &mut TargetMap, key: String, value: BazelTarget)
    ensures
        target_entries(*final(m)) == target_entries(*old(m)).insert(key@, value),
{
    m.insert(key, value);
}

/// Relies on `DashMap::get`: the value stored under the key, if any (cloned out).
#[verifier::external_body]
pub fn find_target(m: &TargetMap, key: &str) -> (r: Option<BazelTarget>)
    ensures
        r == (if target_entries(*m).contains_key(key@) {
            Some(target_entries(*m)[key@])
        } else {
            None
        }),
{
    m.get(key).map(|e| e.value().clone())
}

/// Relies on `DashMap::iter`: every entry once, keys and values cloned out, in an order
/// that the map does not fix.
#[verifier::external_body]
pub fn list_targets(m: &TargetMap) -> (r: Vec<(String, BazelTarget)>)
    ensures
        forall|i: int|
            0 <= i < r@.len() ==> #[trigger] target_entries(*m).contains_key(r@[i].0@)
                && target_entries(*m)[r@[i].0@] == r@[i].1,
        forall|k: Seq<char>|
            #[trigger] target_entries(*m).contains_key(k) ==> exists|i: int|
                0 <= i < r@.len() && r@[i].0@ == k,
        forall|i: int, j: int| 0 <= i < j < r@.len() ==> r@[i].0@ != r@[j].0@,
{
    m.iter().map(|e| (e.key().clone(), e.value().clone())).collect()
}

/// Relies on `DashMap::entry` and `Entry::or_default`: the value is appended to the key's
/// list, which starts empty.
#[verifier::external_body]
pub fn push_to_list(m: &mut ListMap, key: String, value: String)
    ensures
        list_entries(*final(m)) == list_entries(*old(m)).insert(
            key@,
            (if list_entries(*old(m)).contains_key(key@) {
                list_entries(*old(m))[key@]
            } else {
                Seq::<Seq<char>>::empty()
            }).push(value@),
        ),
{
    m.entry(key).or_default().push(value);
}

/// Relies on `DashMap::get`: the list stored under the key (cloned out), or an empty one.
#[verifier::external_body]
pub fn list_at(m: &ListMap, key: &str) -> (r: Vec<String>)
    ensures
        texts(r@) == (if list_entries(*m).contains_key(key@) {
            list_entries(*m)[key@]
        } else {
            Seq::<Seq<char>>::empty()
        }),
{
    m.get(key).map(|e| e.value().clone()).unwrap_or_default()
}

/// Relies on `DashMap::len`: the number of entries.
#[verifier::external_body]
pub fn count_targets(m: &TargetMap) -> (r: usize)
    ensures
        r == target_entries(*m).len(),
{
    m.len()
}

} // verus!
