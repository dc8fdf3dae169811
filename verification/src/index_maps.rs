//! The insertion-ordered maps of the `indexmap` crate, as this crate uses them.
//!
//! Every map type has a name for its contents, over which the contracts of the
//! map operations are stated. The maps that a program holds have a second name,
//! for the order of their keys.

use indexmap::IndexMap;
use vstd::prelude::*;

verus! {

/// Trusted: the type `indexmap::IndexMap`.
#[verifier::external_type_specification]
#[verifier::external_body]
#[verifier::reject_recursive_types(K)]
#[verifier::reject_recursive_types(V)]
#[verifier::reject_recursive_types(S)]
pub struct ExIndexMap<K, V, S>(indexmap::IndexMap<K, V, S>);

/// The entries of a map from field-name lists to shape ids.
pub uninterp spec fn shape_ids(m: IndexMap<Vec<String>, u32>) -> Map<Seq<Seq<char>>, u32>;

/// Trusted: `IndexMap::new` makes a map without entries.
#[verifier::external_body]
pub(crate) fn new_shape_ids() -> (m: IndexMap<Vec<String>, u32>)
    ensures
        (shape_ids(m) == Map::<Seq<Seq<char>>, u32>::empty()),
{
    IndexMap::new()
}

/// Trusted: `IndexMap::get` finds the entry whose key equals `key`, that is
/// the list of the same texts, if there is one.
#[verifier::external_body]
pub(crate) fn get_shape_id(m: &IndexMap<Vec<String>, u32>, key: &Vec<String>) -> (id: Option<u32>)
    ensures
        id == (if shape_ids(*m).contains_key(crate::text::texts(key@)) {
            Some(shape_ids(*m)[crate::text::texts(key@)])
        } else {
            None
        }),
{
    m.get(key).copied()
}

/// Trusted: `IndexMap::insert` adds an entry, or replaces the value of the
/// entry with an equal key.
#[verifier::external_body]
pub(crate) fn insert_shape_id(m: &mut IndexMap<Vec<String>, u32>, key: Vec<String>, id: u32)
    ensures
        shape_ids(*final(m)) == shape_ids(*old(m)).insert(crate::text::texts(key@), id),
{
    m.insert(key, id);
}

/// Trusted: `IndexMap::len` is the number of entries.
#[verifier::external_body]
pub(crate) fn count_shape_ids(m: &IndexMap<Vec<String>, u32>) -> (n: usize)
    ensures
        n == shape_ids(*m).dom().len(),
{
    m.len()
}

/// Keys in the order in which they were first inserted, with one more.
pub open spec fn listed(order: Seq<Seq<char>>, key: Seq<char>) -> Seq<Seq<char>> {
    if order.contains(key) {
        order
    } else {
        order.push(key)
    }
}

/// The entries of a map from names to numbers.
pub uninterp spec fn name_ids(m: IndexMap<String, u32>) -> Map<Seq<char>, u32>;

/// The keys of a map from names to numbers, in their order.
pub uninterp spec fn name_order(m: IndexMap<String, u32>) -> Seq<Seq<char>>;

/// Trusted: `IndexMap::new` makes a map without entries.
#[verifier::external_body]
pub(crate) fn new_name_ids() -> (m: IndexMap<String, u32>)
    ensures
        (name_ids(m) == Map::<Seq<char>, u32>::empty()),
        (name_order(m) == Seq::<Seq<char>>::empty()),
{
    IndexMap::new()
}

/// Trusted: `IndexMap::get` finds the entry whose key is the text `name`, if
/// there is one.
#[verifier::external_body]
pub(crate) fn get_name_id(m: &IndexMap<String, u32>, name: &str) -> (id: Option<u32>)
    ensures
        id == (if name_ids(*m).contains_key(name@) {
            Some(name_ids(*m)[name@])
        } else {
            None
        }),
{
    m.get(name).copied()
}

/// Trusted: `IndexMap::insert` adds an entry behind the others, or replaces the
/// value of the entry with an equal key, which keeps its place.
#[verifier::external_body]
pub(crate) fn insert_name_id(m: &mut IndexMap<String, u32>, name: String, id: u32)
    ensures
        name_ids(*final(m)) == name_ids(*old(m)).insert(name@, id),
        name_order(*final(m)) == listed(name_order(*old(m)), name@),
{
    m.insert(name, id);
}

/// Trusted: `<IndexMap as Clone>::clone` makes a map with the same entries in
/// the same order.
#[verifier::external_body]
pub(crate) fn copy_name_ids(m: &IndexMap<String, u32>) -> (copy: IndexMap<String, u32>)
    ensures
        name_ids(copy) == name_ids(*m),
        name_order(copy) == name_order(*m),
{
    m.clone()
}

/// The entries of a map from names to names.
pub uninterp spec fn aliases(m: IndexMap<String, String>) -> Map<Seq<char>, Seq<char>>;

/// The keys of a map from names to names, in their order.
pub uninterp spec fn alias_order(m: IndexMap<String, String>) -> Seq<Seq<char>>;

/// Trusted: `IndexMap::new` makes a map without entries.
#[verifier::external_body]
pub(crate) fn new_aliases() -> (m: IndexMap<String, String>)
    ensures
        (aliases(m) == Map::<Seq<char>, Seq<char>>::empty()),
        (alias_order(m) == Seq::<Seq<char>>::empty()),
{
    IndexMap::new()
}

/// Trusted: `IndexMap::get` finds the entry whose key is the text `name`, if
/// there is one.
#[verifier::external_body]
pub(crate) fn get_alias<'a>(m: &'a IndexMap<String, String>, name: &str) -> (target: Option<
    &'a String,
>)
    ensures
        target is Some <==> aliases(*m).contains_key(name@),
        target matches Some(t) ==> t@ == aliases(*m)[name@],
{
    m.get(name)
}

/// Trusted: `IndexMap::insert` adds an entry behind the others, or replaces the
/// value of the entry with an equal key, which keeps its place.
#[verifier::external_body]
pub(crate) fn insert_alias(m: &mut IndexMap<String, String>, name: String, target: String)
    ensures
        aliases(*final(m)) == aliases(*old(m)).insert(name@, target@),
        alias_order(*final(m)) == listed(alias_order(*old(m)), name@),
{
    m.insert(name, target);
}

/// The entries of a map from integers to numbers.
pub uninterp spec fn int_ids(m: IndexMap<i64, u32>) -> Map<i64, u32>;

/// Trusted: `IndexMap::new` makes a map without entries.
#[verifier::external_body]
pub(crate) fn new_int_ids() -> (m: IndexMap<i64, u32>)
    ensures
        (int_ids(m) == Map::<i64, u32>::empty()),
{
    IndexMap::new()
}

/// Trusted: `IndexMap::get` finds the entry whose key is `n`, if there is one.
#[verifier::external_body]
pub(crate) fn get_int_id(m: &IndexMap<i64, u32>, n: i64) -> (id: Option<u32>)
    ensures
        id == (if int_ids(*m).contains_key(n) {
            Some(int_ids(*m)[n])
        } else {
            None
        }),
{
    m.get(&n).copied()
}

/// Trusted: `IndexMap::insert` adds an entry, or replaces the value of the
/// entry with an equal key.
#[verifier::external_body]
pub(crate) fn insert_int_id(m: &mut IndexMap<i64, u32>, n: i64, id: u32)
    ensures
        int_ids(*final(m)) == int_ids(*old(m)).insert(n, id),
{
    m.insert(n, id);
}

/// The entries of a map from lists of numbers to numbers.
pub uninterp spec fn list_ids(m: IndexMap<Vec<u32>, u32>) -> Map<Seq<u32>, u32>;

/// Trusted: `IndexMap::new` makes a map without entries.
#[verifier::external_body]
pub(crate) fn new_list_ids() -> (m: IndexMap<Vec<u32>, u32>)
    ensures
        (list_ids(m) == Map::<Seq<u32>, u32>::empty()),
{
    IndexMap::new()
}

/// Trusted: `IndexMap::get` finds the entry whose key equals `key`, if there
/// is one.
#[verifier::external_body]
pub(crate) fn get_list_id(m: &IndexMap<Vec<u32>, u32>, key: &Vec<u32>) -> (id: Option<u32>)
    ensures
        id == (if list_ids(*m).contains_key(key@) {
            Some(list_ids(*m)[key@])
        } else {
            None
        }),
{
    m.get(key).copied()
}

/// Trusted: `IndexMap::insert` adds an entry, or replaces the value of the
/// entry with an equal key.
#[verifier::external_body]
pub(crate) fn insert_list_id(m: &mut IndexMap<Vec<u32>, u32>, key: Vec<u32>, id: u32)
    ensures
        list_ids(*final(m)) == list_ids(*old(m)).insert(key@, id),
{
    m.insert(key, id);
}

} // verus!
