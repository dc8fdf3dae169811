//! Records and tuples on the heap, in the slab and in the arena read alike.

use vstd::prelude::*;

use crate::program::Program;
use crate::value::Val;
use crate::value_ops::lemma_find_from;
use crate::vm::arena_doc_laws::lemma_fields_differ;
use crate::vm::fault::Fault;
use crate::vm::plain::{
    alloc_arena_record, alloc_arena_tuple, alloc_stack_record, alloc_stack_tuple, elem_of,
    make_record, make_tuple, Move,
};
use crate::vm::records::{
    field_name, field_of, find_in_shape, heap_record, lemma_shape_names_prefix, shape_at,
    shape_names,
};
use crate::vm::state::{operand, top_values, State};

verus! {

/// Two reads give the same, or both find nothing. The texts for a missing field
/// say where it was looked for.
pub open spec fn alike(a: Result<Val, Fault>, b: Result<Val, Fault>) -> bool {
    a == b || (a matches Err(Fault::TypeMismatch(_)) && b matches Err(Fault::TypeMismatch(_)))
}

/// The shape names as many fields as there are values, and none twice.
pub open spec fn names_fields(p: Program, shape_id: u32, n: nat) -> bool {
    shape_at(p, shape_id) matches Some(shape) && shape.len() == n && forall|i: int, j: int|
        0 <= i < j < n ==> field_name(p, #[trigger] shape[i]) != field_name(p, #[trigger] shape[j])
}

/// The cells from a start on hold these values.
pub open spec fn holds(cells: Seq<Val>, start: u32, values: Seq<Val>) -> bool {
    start + values.len() <= cells.len() && cells.subrange(
        start as int,
        start + values.len(),
    ) == values
}

/// The first field with a name, searched from a place on.
proof fn lemma_find_in_shape(p: Program, shape: Seq<u32>, name: Seq<char>, k: int)
    requires
        0 <= k,
    ensures
        match find_in_shape(p, shape, name, k) {
            Some(i) => k <= i < shape.len() && field_name(p, shape[i]) == Ok::<Seq<char>, Fault>(
                name,
            ),
            None => forall|j: int|
                k <= j < shape.len() ==> field_name(p, #[trigger] shape[j]) != Ok::<
                    Seq<char>,
                    Fault,
                >(name),
        },
    decreases shape.len() - k,
{
    if k < shape.len() {
        lemma_find_in_shape(p, shape, name, k + 1);
    }
}

/// Law: a field of a record in the slab or in the arena reads as that of the
/// record that the same shape and the same values make up on the heap.
pub proof fn law_records_read_alike(
    p: Program,
    shape_id: u32,
    values: Seq<Val>,
    cells: Seq<Val>,
    start: u32,
    count: u16,
    elsewhere: Seq<Val>,
    name_idx: u32,
    what: Seq<char>,
    place: Seq<char>,
)
    requires
        names_fields(p, shape_id, values.len()),
        heap_record(p, shape_id, values) is Ok,
        holds(cells, start, values),
    ensures
        ({
            let heap = heap_record(p, shape_id, values)->Ok_0;
            let slab = Val::StackRecord { shape_id, slab_start: start, field_count: count };
            let arena = Val::ArenaRecord { shape_id, slab_start: start, field_count: count };
            let read = field_of(p, cells, elsewhere, heap, name_idx, what, place);
            &&& alike(read, field_of(p, cells, elsewhere, slab, name_idx, what, place))
            &&& alike(read, field_of(p, elsewhere, cells, arena, name_idx, what, place))
        }),
{
    let shape = shape_at(p, shape_id)->0;
    let n = values.len();
    let names = shape_names(p, shape, n)->Ok_0;
    assert forall|i: int| 0 <= i < n implies names.len() == n && #[trigger] names[i]
        == field_name(p, shape[i])->Ok_0 && field_name(p, shape[i]) is Ok by {
        lemma_shape_names_prefix(p, shape, (i + 1) as nat, n);
    }
    if n == 0 {
        assert(names =~= Seq::<Seq<char>>::empty());
    }
    assert forall|i: int, j: int| 0 <= i < j < n implies #[trigger] names[i]
        != #[trigger] names[j] by {
        assert(field_name(p, shape[i]) != field_name(p, shape[j]));
    }
    lemma_fields_differ(names, values);
    assert(names.take(n as int) =~= names);
    if let Ok(name) = field_name(p, name_idx) {
        lemma_find_from(names, name, 0);
        lemma_find_in_shape(p, shape, name, 0);
        match find_in_shape(p, shape, name, 0) {
            Some(i) => {
                assert(names[i] == name);
                assert(cells.subrange(start as int, start + n)[i] == cells[start + i]);
            },
            None => {},
        }
    }
}

/// Law: an element of a tuple in the slab or in the arena reads as that of the
/// tuple of the same values on the heap.
pub proof fn law_tuples_read_alike(
    values: Seq<Val>,
    cells: Seq<Val>,
    start: u32,
    elsewhere: Seq<Val>,
    i: u16,
)
    requires
        values.len() <= u16::MAX,
        holds(cells, start, values),
    ensures
        ({
            let arity = values.len() as u16;
            let heap = elem_of(cells, elsewhere, Val::Tuple(values), i);
            let slab = Val::StackTuple { slab_start: start, arity };
            let arena = Val::ArenaTuple { slab_start: start, arity };
            &&& elem_of(cells, elsewhere, slab, i) == heap
            &&& elem_of(elsewhere, cells, arena, i) == heap
        }),
{
    if i < values.len() {
        assert(cells.subrange(start as int, start + values.len())[i as int] == cells[start + i]);
    }
}

/// The state after a move that goes on.
pub open spec fn went(m: Move) -> State {
    m->Go_0
}

/// What a field of the topmost operand reads as.
pub open spec fn top_field(
    p: Program,
    s: State,
    name_idx: u32,
    what: Seq<char>,
    place: Seq<char>,
) -> Result<Val, Fault> {
    field_of(p, s.slab, s.arena, operand(s, 0), name_idx, what, place)
}

/// What an element of the topmost operand reads as.
pub open spec fn top_elem(s: State, i: u16) -> Result<Val, Fault> {
    elem_of(s.slab, s.arena, operand(s, 0), i)
}

proof fn lemma_appended(cells: Seq<Val>, values: Seq<Val>)
    requires
        cells.len() <= u32::MAX,
    ensures
        holds(cells + values, cells.len() as u32, values),
{
    assert((cells + values).subrange(
        cells.len() as int,
        (cells.len() + values.len()) as int,
    ) =~= values);
}

/// Law: where a record can be built on the heap, the ops that build it in the
/// slab or in the arena build one whose fields read alike.
pub proof fn law_built_records_read_alike(
    p: Program,
    s: State,
    shape_id: u32,
    n: u16,
    name_idx: u32,
    what: Seq<char>,
    place: Seq<char>,
)
    requires
        names_fields(p, shape_id, n as nat),
        make_record(p, s, shape_id, n, s.counts) is Go,
        s.slab.len() <= u32::MAX,
        s.arena.len() <= u32::MAX,
    ensures
        alloc_stack_record(p, s, shape_id, n) is Go,
        alloc_arena_record(p, s, shape_id, n) is Go,
        ({
            let heap = went(make_record(p, s, shape_id, n, s.counts));
            let slab = went(alloc_stack_record(p, s, shape_id, n));
            let arena = went(alloc_arena_record(p, s, shape_id, n));
            let read = top_field(p, heap, name_idx, what, place);
            &&& alike(read, top_field(p, slab, name_idx, what, place))
            &&& alike(read, top_field(p, arena, name_idx, what, place))
        }),
{
    let vs = top_values(s, n as nat);
    lemma_appended(s.slab, vs);
    lemma_appended(s.arena, vs);
    law_records_read_alike(
        p,
        shape_id,
        vs,
        s.slab + vs,
        s.slab.len() as u32,
        n,
        s.arena,
        name_idx,
        what,
        place,
    );
    law_records_read_alike(
        p,
        shape_id,
        vs,
        s.arena + vs,
        s.arena.len() as u32,
        n,
        s.slab,
        name_idx,
        what,
        place,
    );
}

/// Law: where a tuple can be built on the heap, the ops that build it in the
/// slab or in the arena build one whose elements read alike.
pub proof fn law_built_tuples_read_alike(s: State, n: u16, i: u16)
    requires
        make_tuple(s, n, s.counts) is Go,
        s.slab.len() <= u32::MAX,
        s.arena.len() <= u32::MAX,
    ensures
        alloc_stack_tuple(s, n) is Go,
        alloc_arena_tuple(s, n) is Go,
        top_elem(went(alloc_stack_tuple(s, n)), i) == top_elem(
            went(make_tuple(s, n, s.counts)),
            i,
        ),
        top_elem(went(alloc_arena_tuple(s, n)), i) == top_elem(
            went(make_tuple(s, n, s.counts)),
            i,
        ),
{
    let vs = top_values(s, n as nat);
    lemma_appended(s.slab, vs);
    lemma_appended(s.arena, vs);
    law_tuples_read_alike(vs, s.slab + vs, s.slab.len() as u32, s.arena, i);
    law_tuples_read_alike(vs, s.arena + vs, s.arena.len() as u32, s.slab, i);
}

} // verus!
