//! Shape ids of records that are built at run time.
//!
//! A shape is a set of field names: the order in which the names were given
//! has no influence on its id. The ids live in the upper half of the `u32`
//! range, so they never meet the ids of shapes known at compile time, which
//! count up from 0; `u32::MAX` is kept for records without a shape.

use indexmap::IndexMap;
use vstd::prelude::*;

use crate::index_maps;
use crate::index_maps::{count_shape_ids, get_shape_id, insert_shape_id, new_shape_ids};
use crate::text;
use crate::text::sort_texts;

verus! {

/// The first shape id that is handed out at run time.
pub const DYNAMIC_SHAPE_ID_BASE: u32 = 0x8000_0000;

/// The shapes that have an id.
#[derive(Debug)]
pub struct ShapeRegistry {
    ids: IndexMap<Vec<String>, u32>,
}

impl View for ShapeRegistry {
    type V = Map<Seq<Seq<char>>, u32>;

    closed spec fn view(&self) -> Map<Seq<Seq<char>>, u32> {
        index_maps::shape_ids(self.ids)
    }
}

/// The ids are those from the base up, each given once.
pub open spec fn ids_are_dense(m: Map<Seq<Seq<char>>, u32>) -> bool {
    &&& m.dom().finite()
    &&& forall|k: Seq<Seq<char>>| #[trigger]
        m.contains_key(k) ==> DYNAMIC_SHAPE_ID_BASE <= m[k] < DYNAMIC_SHAPE_ID_BASE + m.dom().len()
    &&& forall|k: Seq<Seq<char>>, l: Seq<Seq<char>>| #[trigger]
        m.contains_key(k) && #[trigger] m.contains_key(l) && m[k] == m[l] ==> k == l
}

/// The registry after the shape with these field names has been interned.
pub open spec fn interned(
    m: Map<Seq<Seq<char>>, u32>,
    names: Seq<Seq<char>>,
) -> Map<Seq<Seq<char>>, u32> {
    let key = text::sorted(names);
    if m.contains_key(key) {
        m
    } else {
        m.insert(key, (DYNAMIC_SHAPE_ID_BASE + m.dom().len()) as u32)
    }
}

impl ShapeRegistry {
    /// The registry is well-formed.
    #[verifier::type_invariant]
    pub open spec fn wf(&self) -> bool {
        ids_are_dense(self@)
    }

    pub fn new() -> (r: ShapeRegistry)
        ensures
            r@ == Map::<Seq<Seq<char>>, u32>::empty(),
            r.wf(),
    {
        let ids = new_shape_ids();
        ShapeRegistry { ids }
    }

    /// How many shapes have an id.
    pub fn len(&self) -> (n: usize)
        ensures
            n == self@.dom().len(),
    {
        count_shape_ids(&self.ids)
    }

    /// Whether there is an id left for one more shape.
    pub fn has_room(&self) -> (yes: bool)
        ensures
            yes <==> self@.dom().len() < u32::MAX - DYNAMIC_SHAPE_ID_BASE,
    {
        count_shape_ids(&self.ids) < (u32::MAX - DYNAMIC_SHAPE_ID_BASE) as usize
    }
}

/// The id of the shape with the given field names, assigned now if it has
/// none yet.
pub fn intern(registry: &mut ShapeRegistry, field_names: Vec<String>) -> (id: u32)
    requires
        old(registry)@.dom().len() < u32::MAX - DYNAMIC_SHAPE_ID_BASE,
    ensures
        final(registry).wf(),
        final(registry)@ == interned(old(registry)@, text::texts(field_names@)),
        final(registry)@.contains_key(text::sorted(text::texts(field_names@))),
        id == final(registry)@[text::sorted(text::texts(field_names@))],
        DYNAMIC_SHAPE_ID_BASE <= id < u32::MAX,
{
    proof {
        use_type_invariant(&*registry);
    }
    let key = sort_texts(field_names);
    let known = get_shape_id(&registry.ids, &key);
    if let Some(id) = known {
        return id;
    }
    let id: u32 = DYNAMIC_SHAPE_ID_BASE + count_shape_ids(&registry.ids) as u32;
    let mut ids = new_shape_ids();
    std::mem::swap(&mut ids, &mut registry.ids);
    insert_shape_id(&mut ids, key, id);
    registry.ids = ids;
    id
}

/// Law: the same field names give the same id in any order, and different
/// field names give different ids, however many shapes are interned in
/// between.
pub proof fn law_ids_identify_field_sets(
    m: Map<Seq<Seq<char>>, u32>,
    names: Seq<Seq<char>>,
    other: Seq<Seq<char>>,
)
    requires
        ids_are_dense(m),
        m.contains_key(text::sorted(names)),
        m.dom().len() < u32::MAX - DYNAMIC_SHAPE_ID_BASE,
    ensures
        interned(m, other)[text::sorted(names)] == m[text::sorted(names)],
        interned(m, other)[text::sorted(other)] == m[text::sorted(names)] <==> names.to_multiset()
            == other.to_multiset(),
{
    text::lemma_sorted_same(names, other);
}

} // verus!
