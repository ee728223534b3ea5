//! The insertion-ordered collections of `indexmap` used by prototype trees
//! and template lists: their declarations, the names of their contents, and
//! the operations the library calls.
use vstd::prelude::*;

use indexmap::{IndexMap, IndexSet};

verus! {

#[verifier::external_type_specification]
#[verifier::external_body]
#[verifier::reject_recursive_types(T)]
#[verifier::reject_recursive_types(S)]
pub struct ExIndexSet<T, S>(IndexSet<T, S>);

#[verifier::external_type_specification]
#[verifier::external_body]
#[verifier::reject_recursive_types(K)]
#[verifier::reject_recursive_types(V)]
#[verifier::reject_recursive_types(S)]
pub struct ExIndexMap<K, V, S>(IndexMap<K, V, S>);

/// The items of a set of handle ids, in insertion order.
pub uninterp spec fn handle_set_items(s: IndexSet<u64>) -> Seq<u64>;

/// The entries of a template map (path text, handle id), in map order.
pub uninterp spec fn template_map_entries(m: IndexMap<String, u64>) -> Seq<(Seq<char>, u64)>;

/// `IndexSet::new`: an empty set.
#[verifier::external_body]
pub(crate) fn handle_set_new() -> (r: IndexSet<u64>)
    ensures
        handle_set_items(r) == Seq::<u64>::empty(),
{
    IndexSet::new()
}

/// `IndexSet::insert`: a value already in the set leaves the set as it is
/// and gives `false`; a new value is added last and gives `true`.
#[verifier::external_body]
pub(crate) fn handle_set_insert(s: &mut IndexSet<u64>, value: u64) -> (r: bool)
    ensures
        handle_set_items(*old(s)).contains(value) ==> !r && handle_set_items(*final(s))
            == handle_set_items(*old(s)),
        !handle_set_items(*old(s)).contains(value) ==> r && handle_set_items(*final(s))
            == handle_set_items(*old(s)).push(value),
{
    s.insert(value)
}

/// `IndexSet::iter`, collected: the items in insertion order.
#[verifier::external_body]
pub(crate) fn handle_set_to_vec(s: &IndexSet<u64>) -> (r: Vec<u64>)
    ensures
        r@ == handle_set_items(*s),
{
    s.iter().copied().collect()
}

/// `IndexSet::clone`: a set with the same items in the same order.
#[verifier::external_body]
pub(crate) fn handle_set_clone(s: &IndexSet<u64>) -> (r: IndexSet<u64>)
    ensures
        handle_set_items(r) == handle_set_items(*s),
{
    s.clone()
}

/// `IndexMap::new`: an empty map.
#[verifier::external_body]
pub(crate) fn template_map_new() -> (r: IndexMap<String, u64>)
    ensures
        template_map_entries(r) == Seq::<(Seq<char>, u64)>::empty(),
{
    IndexMap::new()
}

/// `IndexMap::get_index_of`: the position of the entry whose key equals
/// `key`, if there is one.
#[verifier::external_body]
pub(crate) fn template_map_index_of(m: &IndexMap<String, u64>, key: &str) -> (r: Option<usize>)
    ensures
        match r {
            Some(i) => i < template_map_entries(*m).len() && template_map_entries(*m)[i as int].0
                == key@,
            None => forall|i: int|
                0 <= i < template_map_entries(*m).len() ==> #[trigger] template_map_entries(
                    *m,
                )[i].0 != key@,
        },
{
    m.get_index_of(key)
}

/// `IndexMap::insert`: an existing key keeps its position and gets the new
/// value (the old one is returned); a new key is added last.
#[verifier::external_body]
pub(crate) fn template_map_insert(m: &mut IndexMap<String, u64>, key: String, value: u64) -> (r:
    Option<u64>)
    ensures
        ({
            let old_e = template_map_entries(*old(m));
            let new_e = template_map_entries(*final(m));
            match r {
                Some(v) => exists|i: int|
                    0 <= i < old_e.len() && old_e[i].0 == key@ && v == old_e[i].1 && new_e
                        == old_e.update(i, (key@, value)),
                None => (forall|i: int| 0 <= i < old_e.len() ==> #[trigger] old_e[i].0 != key@)
                    && new_e == old_e.push((key@, value)),
            }
        }),
{
    m.insert(key, value)
}

/// `IndexMap::shift_remove`: the entry is removed and the entries after it
/// shift down one position, keeping their order; its value is returned.
#[verifier::external_body]
pub(crate) fn template_map_shift_remove(m: &mut IndexMap<String, u64>, key: &str) -> (r: Option<
    u64,
>)
    ensures
        ({
            let old_e = template_map_entries(*old(m));
            let new_e = template_map_entries(*final(m));
            match r {
                Some(v) => exists|i: int|
                    0 <= i < old_e.len() && old_e[i].0 == key@ && v == old_e[i].1 && new_e
                        == old_e.remove(i),
                None => (forall|i: int| 0 <= i < old_e.len() ==> #[trigger] old_e[i].0 != key@)
                    && new_e == old_e,
            }
        }),
{
    m.shift_remove(key)
}

/// `IndexMap::get_index`: the entry at a position.
#[verifier::external_body]
pub(crate) fn template_map_get_index(m: &IndexMap<String, u64>, i: usize) -> (r: (String, u64))
    requires
        i < template_map_entries(*m).len(),
    ensures
        (r.0@, r.1) == template_map_entries(*m)[i as int],
{
    let (k, v) = m.get_index(i).unwrap();
    (k.clone(), *v)
}

/// `IndexMap::len`.
#[verifier::external_body]
pub(crate) fn template_map_len(m: &IndexMap<String, u64>) -> (r: usize)
    ensures
        r == template_map_entries(*m).len(),
{
    m.len()
}

} // verus!
