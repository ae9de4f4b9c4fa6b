//! The in-memory index: a concurrent skip list from each live key to the
//! place of its latest record, `(generation, offset, length)`.
use crossbeam_skiplist::SkipMap;
use vstd::prelude::*;

verus! {

/// Where a record lies: the generation of its log, its offset and its length.
pub type Location = (u64, u64, u64);

#[verifier::external_type_specification]
#[verifier::external_body]
#[verifier::reject_recursive_types(K)]
#[verifier::reject_recursive_types(V)]
pub struct ExSkipMap<K, V>(SkipMap<K, V>);

/// The index type: key to location.
pub type Index = SkipMap<String, Location>;

/// The bindings that a skip list holds, keyed by the characters of each key.
pub uninterp spec fn index_contents(m: Index) -> Map<Seq<char>, Location>;

/// The empty map of bindings.
pub open spec fn no_bindings() -> Map<Seq<char>, Location> {
    Map::empty()
}

/// Relies on `SkipMap::new`: a new skip list is empty.
#[verifier::external_body]
pub(crate) fn index_new() -> (r: Index)
    ensures
        index_contents(r) == no_bindings(),
{
    SkipMap::new()
}

/// Relies on `SkipMap::insert`: the entry for `key` is replaced by `loc`,
/// the others stay.
#[verifier::external_body]
pub(crate) fn index_insert(m: &mut Index, key: String, loc: Location)
    ensures
        index_contents(*final(m)) == index_contents(*old(m)).insert(key@, loc),
{
    m.insert(key, loc);
}

/// Relies on `SkipMap::remove`: the entry for `key`, if any, goes, the others stay.
#[verifier::external_body]
pub(crate) fn index_remove(m: &mut Index, key: &String)
    ensures
        index_contents(*final(m)) == index_contents(*old(m)).remove(key@),
{
    m.remove(key);
}

/// Relies on `SkipMap::get`: the value of the entry for `key`, if any.
#[verifier::external_body]
pub(crate) fn index_get(m: &Index, key: &String) -> (r: Option<Location>)
    ensures
        match r {
            Some(loc) => index_contents(*m).contains_key(key@) && index_contents(*m)[key@] == loc,
            None => !index_contents(*m).contains_key(key@),
        },
{
    m.get(key).map(|e| *e.value())
}

/// Relies on `SkipMap::len`: the number of entries.
#[verifier::external_body]
pub(crate) fn index_len(m: &Index) -> (r: usize)
    ensures
        r == index_contents(*m).len(),
{
    m.len()
}

/// Relies on `SkipMap::iter`: each entry once, as a key and its value.
#[verifier::external_body]
pub(crate) fn index_entries(m: &Index) -> (r: Vec<(String, Location)>)
    ensures
        r@.len() == index_contents(*m).len(),
        forall|i: int|
            0 <= i < r@.len() ==> #[trigger] index_contents(*m).contains_key(r@[i].0@)
                && index_contents(*m)[r@[i].0@] == r@[i].1,
        forall|i: int, j: int| 0 <= i < j < r@.len() ==> r@[i].0@ != r@[j].0@,
{
    m.iter().map(|e| (e.key().clone(), *e.value())).collect()
}

} // verus!
