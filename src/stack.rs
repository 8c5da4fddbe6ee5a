//! The ancestor stack used while the scene tree is rebuilt: an insertion-ordered
//! map from a path segment to a node id, held in an `indexmap::IndexMap`.
use indexmap::IndexMap;
use vstd::prelude::*;

verus! {

#[verifier::external_type_specification]
#[verifier::external_body]
#[verifier::reject_recursive_types(K)]
#[verifier::reject_recursive_types(V)]
#[verifier::reject_recursive_types(S)]
pub struct ExIndexMap<K, V, S>(IndexMap<K, V, S>);

/// The entries of the map, in their order.
pub uninterp spec fn stack_entries(m: IndexMap<String, usize>) -> Seq<(Seq<char>, usize)>;

/// No key occurs twice.
pub open spec fn keys_unique(s: Seq<(Seq<char>, usize)>) -> bool {
    forall|i: int, j: int| 0 <= i < s.len() && 0 <= j < s.len() && i != j ==> s[i].0 != s[j].0
}

/// Relies on `IndexMap::new`: the map starts empty.
#[verifier::external_body]
pub(crate) fn stack_new() -> (r: IndexMap<String, usize>)
    ensures
        stack_entries(r) == Seq::<(Seq<char>, usize)>::empty(),
{
    IndexMap::new()
}

/// Relies on `IndexMap::len`: the number of entries.
#[verifier::external_body]
pub(crate) fn stack_len(m: &IndexMap<String, usize>) -> (r: usize)
    ensures
        r == stack_entries(*m).len(),
{
    m.len()
}

/// Relies on `IndexMap::get_full`: the position and value stored under `key`.
#[verifier::external_body]
pub(crate) fn stack_find(m: &IndexMap<String, usize>, key: &str) -> (r: Option<(usize, usize)>)
    ensures
        match r {
            Some((i, v)) => i < stack_entries(*m).len() && stack_entries(*m)[i as int] == (key@, v),
            None => forall|i: int|
                0 <= i < stack_entries(*m).len() ==> stack_entries(*m)[i].0 != key@,
        },
{
    m.get_full(key).map(|(i, _, v)| (i, *v))
}

/// Relies on `IndexMap::insert`: an existing key keeps its place and takes the new
/// value; a new key goes last.
#[verifier::external_body]
pub(crate) fn stack_insert(m: &mut IndexMap<String, usize>, key: String, value: usize)
    requires
        keys_unique(stack_entries(*old(m))),
    ensures
        keys_unique(stack_entries(*final(m))),
        forall|i: int|
            0 <= i < stack_entries(*old(m)).len() && stack_entries(*old(m))[i].0 == key@
                ==> stack_entries(*final(m)) == stack_entries(*old(m)).update(i, (key@, value)),
        (forall|i: int|
            0 <= i < stack_entries(*old(m)).len() ==> stack_entries(*old(m))[i].0 != key@)
            ==> stack_entries(*final(m)) == stack_entries(*old(m)).push((key@, value)),
{
    m.insert(key, value);
}

/// Relies on `IndexMap::pop`: the last entry goes, the others keep their order.
#[verifier::external_body]
pub(crate) fn stack_pop(m: &mut IndexMap<String, usize>)
    ensures
        stack_entries(*old(m)).len() > 0 ==> stack_entries(*final(m)) == stack_entries(
            *old(m),
        ).drop_last(),
        stack_entries(*old(m)).len() == 0 ==> stack_entries(*final(m)) == stack_entries(*old(m)),
{
    m.pop();
}

/// Relies on `IndexMap::get_index`: the entry at a position.
#[verifier::external_body]
pub(crate) fn stack_entry(m: &IndexMap<String, usize>, i: usize) -> (r: (String, usize))
    requires
        i < stack_entries(*m).len(),
    ensures
        r.0@ == stack_entries(*m)[i as int].0,
        r.1 == stack_entries(*m)[i as int].1,
{
    let (k, v) = m.get_index(i).unwrap();
    (k.clone(), *v)
}

} // verus!
