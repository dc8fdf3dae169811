//! Values whose parts lie in the request arena, turned into values that own
//! their parts.

use vstd::prelude::*;

use crate::program::Program;
use crate::value;
use crate::value::{field_names, field_vals, vals, Field, Val, Value};
use crate::value_ops::{all_owned, is_owned, lemma_is_owned};
use crate::vm::fault::{panic_with, Fault, VmError};
use crate::vm::records::{build_record, fields_of, no_shape, no_slot, shape_at, shape_names};

verus! {

broadcast use crate::value::lemma_view;

/// A handle into a slab that is gone.
pub open spec fn stray_handle() -> Fault {
    Fault::Panic("stack handle outside its frame"@)
}

/// A value with every arena handle replaced by the record or tuple that it
/// stands for. A handle has to point below `bound`, and the handles in its
/// cells below the handle itself: cells are filled before a handle to them is
/// made. Closures, maps and other leaves stay as they are.
pub open spec fn materialize(p: Program, arena: Seq<Val>, v: Val, bound: nat) -> Result<Val, Fault>
    decreases bound, v, 0nat,
{
    match v {
        Val::List(items) => match materialize_all(p, arena, items, bound) {
            Ok(vs) => Ok(Val::List(vs)),
            Err(f) => Err(f),
        },
        Val::Tuple(items) => match materialize_all(p, arena, items, bound) {
            Ok(vs) => Ok(Val::Tuple(vs)),
            Err(f) => Err(f),
        },
        Val::Deque(items) => match materialize_all(p, arena, items, bound) {
            Ok(vs) => Ok(Val::Deque(vs)),
            Err(f) => Err(f),
        },
        Val::Variant { name, args } => match materialize_all(p, arena, args, bound) {
            Ok(vs) => Ok(Val::Variant { name, args: vs }),
            Err(f) => Err(f),
        },
        Val::Record { shape_id, names, values } => match materialize_all(p, arena, values, bound) {
            Ok(vs) => Ok(Val::Record { shape_id, names, values: vs }),
            Err(f) => Err(f),
        },
        Val::ArenaRecord { shape_id, slab_start, field_count } => if slab_start + field_count
            > bound || slab_start + field_count > arena.len() {
            Err(no_slot())
        } else {
            match shape_at(p, shape_id) {
                None => Err(no_shape()),
                Some(shape) => {
                    let n = if field_count < shape.len() {
                        field_count as nat
                    } else {
                        shape.len()
                    };
                    match (if n == 0 {
                        Ok(Seq::empty())
                    } else {
                        materialize_all(
                            p,
                            arena,
                            arena.subrange(slab_start as int, (slab_start + n) as int),
                            slab_start as nat,
                        )
                    }) {
                        Err(f) => Err(f),
                        Ok(vs) => match shape_names(p, shape, n) {
                            Err(f) => Err(f),
                            Ok(names) => {
                                let fields = fields_of(names, vs);
                                Ok(Val::Record { shape_id, names: fields.0, values: fields.1 })
                            },
                        },
                    }
                },
            }
        },
        Val::ArenaTuple { slab_start, arity } => if slab_start + arity > bound || slab_start + arity
            > arena.len() {
            Err(no_slot())
        } else {
            match (if arity == 0 {
                Ok(Seq::empty())
            } else {
                materialize_all(
                    p,
                    arena,
                    arena.subrange(slab_start as int, (slab_start + arity) as int),
                    slab_start as nat,
                )
            }) {
                Ok(vs) => Ok(Val::Tuple(vs)),
                Err(f) => Err(f),
            }
        },
        Val::StackRecord { .. } => Err(stray_handle()),
        Val::StackTuple { .. } => Err(stray_handle()),
        _ => Ok(v),
    }
}

/// Every value of a list, or the first failure.
pub open spec fn materialize_all(p: Program, arena: Seq<Val>, v: Seq<Val>, bound: nat) -> Result<
    Seq<Val>,
    Fault,
>
    decreases bound, v, 1nat,
{
    if v.len() == 0 {
        Ok(Seq::empty())
    } else {
        match materialize_all(p, arena, v.drop_last(), bound) {
            Err(f) => Err(f),
            Ok(front) => match materialize(p, arena, v.last(), bound) {
                Ok(x) => Ok(front.push(x)),
                Err(f) => Err(f),
            },
        }
    }
}

/// A failure among the first values is the failure of the list.
proof fn lemma_materialize_fails(
    p: Program,
    arena: Seq<Val>,
    v: Seq<Val>,
    bound: nat,
    k: int,
)
    requires
        0 <= k <= v.len(),
        materialize_all(p, arena, v.take(k), bound) is Err,
    ensures
        materialize_all(p, arena, v, bound) == materialize_all(p, arena, v.take(k), bound),
    decreases v.len(),
{
    if k == v.len() {
        assert(v.take(k) =~= v);
    } else {
        assert(v.drop_last().take(k) =~= v.take(k));
        lemma_materialize_fails(p, arena, v.drop_last(), bound, k);
    }
}

proof fn lemma_materialize_len(p: Program, arena: Seq<Val>, v: Seq<Val>, bound: nat)
    ensures
        materialize_all(p, arena, v, bound) matches Ok(vs) ==> vs.len() == v.len(),
    decreases v.len(),
{
    if v.len() > 0 {
        lemma_materialize_len(p, arena, v.drop_last(), bound);
    }
}

/// The relation between a materialized list and its description.
pub open spec fn list_agrees(r: Result<Vec<Value>, VmError>, m: Result<Seq<Val>, Fault>) -> bool {
    match r {
        Ok(vs) => m == Ok::<Seq<Val>, Fault>(vals(vs@)),
        Err(e) => m == Err::<Seq<Val>, Fault>(e@),
    }
}

/// The relation between a materialized value and its description.
pub open spec fn value_agrees(r: Result<Value, VmError>, m: Result<Val, Fault>) -> bool {
    match r {
        Ok(v) => m == Ok::<Val, Fault>(v@),
        Err(e) => m == Err::<Val, Fault>(e@),
    }
}

pub(crate) fn copy_list(program: &Program, arena: &Vec<Value>, items: &Vec<Value>,
    bound: usize) -> (r: Result<
    Vec<Value>,
    VmError,
>)
    ensures
        list_agrees(r, materialize_all(*program, vals(arena@), vals(items@), bound as nat)),
    decreases 2 * bound, items, 1nat,
{
    let ghost all = vals(items@);
    let ghost cells = vals(arena@);
    let mut out: Vec<Value> = Vec::with_capacity(items.len());
    let mut i: usize = 0;
    assert(all.take(0) =~= Seq::<Val>::empty());
    assert(vals(out@) =~= Seq::<Val>::empty());
    while i < items.len()
        invariant
            i <= items.len(),
            all == vals(items@),
            cells == vals(arena@),
            materialize_all(*program, cells, all.take(i as int), bound as nat) == Ok::<
                Seq<Val>,
                Fault,
            >(vals(out@)),
        decreases items.len() - i,
    {
        assert(all.take(i + 1).drop_last() =~= all.take(i as int));
        assert(all.take(i + 1).last() == items@[i as int]@);
        match copy_value(program, arena, &items[i], bound) {
            Ok(v) => {
                let ghost before = vals(out@);
                let ghost x = v@;
                out.push(v);
                assert(vals(out@) =~= before.push(x));
            },
            Err(e) => {
                proof {
                    lemma_materialize_fails(*program, cells, all, bound as nat, i + 1);
                }
                return Err(e);
            },
        }
        i = i + 1;
    }
    assert(all.take(i as int) =~= all);
    Ok(out)
}

fn copy_fields(program: &Program, arena: &Vec<Value>, fields: &Vec<Field>, bound: usize) -> (r:
    Result<Vec<Field>, VmError>)
    ensures
        match r {
            Ok(fs) => field_names(fs@) == field_names(fields@) && materialize_all(
                *program,
                vals(arena@),
                field_vals(fields@),
                bound as nat,
            ) == Ok::<Seq<Val>, Fault>(field_vals(fs@)),
            Err(e) => materialize_all(
                *program,
                vals(arena@),
                field_vals(fields@),
                bound as nat,
            ) == Err::<Seq<Val>, Fault>(e@),
        },
    decreases 2 * bound, fields, 1nat,
{
    let ghost all = field_vals(fields@);
    let ghost cells = vals(arena@);
    let mut out: Vec<Field> = Vec::with_capacity(fields.len());
    let mut i: usize = 0;
    assert(all.take(0) =~= Seq::<Val>::empty());
    assert(field_vals(out@) =~= Seq::<Val>::empty());
    while i < fields.len()
        invariant
            i <= fields.len(),
            all == field_vals(fields@),
            cells == vals(arena@),
            out@.len() == i,
            forall|j: int| 0 <= j < i ==> (#[trigger] out@[j]).name@ == fields@[j].name@,
            materialize_all(*program, cells, all.take(i as int), bound as nat) == Ok::<
                Seq<Val>,
                Fault,
            >(field_vals(out@)),
        decreases fields.len() - i,
    {
        assert(all.take(i + 1).drop_last() =~= all.take(i as int));
        assert(all.take(i + 1).last() == fields@[i as int].value@);
        match copy_value(program, arena, &fields[i].value, bound) {
            Ok(v) => {
                let ghost before = field_vals(out@);
                let ghost x = v@;
                out.push(Field { name: fields[i].name.clone(), value: v });
                assert(field_vals(out@) =~= before.push(x));
            },
            Err(e) => {
                proof {
                    lemma_materialize_fails(*program, cells, all, bound as nat, i + 1);
                }
                return Err(e);
            },
        }
        i = i + 1;
    }
    assert(all.take(i as int) =~= all);
    assert(field_names(out@) =~= field_names(fields@));
    Ok(out)
}

/// The cells of a handle, each materialized.
fn copy_cells(program: &Program, arena: &Vec<Value>, start: usize, n: usize) -> (r: Result<
    Vec<Value>,
    VmError,
>)
    requires
        start + n <= arena@.len(),
        n > 0,
    ensures
        list_agrees(
            r,
            materialize_all(
                *program,
                vals(arena@),
                vals(arena@).subrange(start as int, start + n),
                start as nat,
            ),
        ),
    decreases 2 * start + 1, *arena, 2nat,
{
    let ghost cells = vals(arena@);
    let ghost all = cells.subrange(start as int, start + n);
    let len: usize = arena.len();
    let mut out: Vec<Value> = Vec::with_capacity(n);
    let mut i: usize = 0;
    assert(all.take(0) =~= Seq::<Val>::empty());
    assert(vals(out@) =~= Seq::<Val>::empty());
    while i < n
        invariant
            i <= n,
            start + n <= len == arena@.len(),
            cells == vals(arena@),
            all == cells.subrange(start as int, start + n),
            materialize_all(*program, cells, all.take(i as int), start as nat) == Ok::<
                Seq<Val>,
                Fault,
            >(vals(out@)),
        decreases n - i,
    {
        assert(all.take(i + 1).drop_last() =~= all.take(i as int));
        assert(all.take(i + 1).last() == arena@[start + i]@);
        match copy_value(program, arena, &arena[start + i], start) {
            Ok(v) => {
                let ghost before = vals(out@);
                let ghost x = v@;
                out.push(v);
                assert(vals(out@) =~= before.push(x));
            },
            Err(e) => {
                proof {
                    lemma_materialize_fails(*program, cells, all, start as nat, i + 1);
                }
                return Err(e);
            },
        }
        i = i + 1;
    }
    assert(all.take(i as int) =~= all);
    Ok(out)
}

/// A copy of a value in which no part lies in the arena.
pub(crate) fn copy_value(program: &Program, arena: &Vec<Value>, v: &Value, bound: usize) -> (r:
    Result<Value, VmError>)
    ensures
        value_agrees(r, materialize(*program, vals(arena@), v@, bound as nat)),
    decreases 2 * bound, v, 0nat,
{
    assert(v@ == value::view_of(*v));
    match v {
        Value::List(items) => match copy_list(program, arena, items, bound) {
            Ok(vs) => Ok(Value::List(vs)),
            Err(e) => Err(e),
        },
        Value::Tuple(items) => match copy_list(program, arena, items, bound) {
            Ok(vs) => Ok(Value::Tuple(vs)),
            Err(e) => Err(e),
        },
        Value::Deque(items) => match copy_list(program, arena, items, bound) {
            Ok(vs) => Ok(Value::Deque(vs)),
            Err(e) => Err(e),
        },
        Value::Variant { name, args } => match copy_list(program, arena, args, bound) {
            Ok(vs) => Ok(Value::Variant { name: name.clone(), args: vs }),
            Err(e) => Err(e),
        },
        Value::Record { shape_id, fields } => match copy_fields(program, arena, fields, bound) {
            Ok(fs) => Ok(Value::Record { shape_id: *shape_id, fields: fs }),
            Err(e) => Err(e),
        },
        Value::ArenaRecord { shape_id, slab_start, field_count } => {
            let start: usize = *slab_start as usize;
            let count: usize = *field_count as usize;
            let len: usize = arena.len();
            if bound < count || start > bound - count || len < count || start > len - count {
                return Err(panic_with("slab index out of range"));
            }
            if (*shape_id as usize) >= program.record_shapes.len() {
                return Err(panic_with("record shape index out of range"));
            }
            let shape = &program.record_shapes[*shape_id as usize];
            let n: usize = if count < shape.len() {
                count
            } else {
                shape.len()
            };
            let cells: Vec<Value> = if n == 0 {
                Vec::new()
            } else {
                match copy_cells(program, arena, start, n) {
                    Ok(vs) => vs,
                    Err(e) => return Err(e),
                }
            };
            proof {
                if n == 0 {
                    assert(vals(cells@) =~= Seq::<Val>::empty());
                } else {
                    lemma_materialize_len(
                        *program,
                        vals(arena@),
                        vals(arena@).subrange(start as int, start + n),
                        start as nat,
                    );
                }
            }
            build_record(program, *shape_id, cells)
        },
        Value::ArenaTuple { slab_start, arity } => {
            let start: usize = *slab_start as usize;
            let n: usize = *arity as usize;
            let len: usize = arena.len();
            if bound < n || start > bound - n || len < n || start > len - n {
                return Err(panic_with("slab index out of range"));
            }
            if n == 0 {
                let empty: Vec<Value> = Vec::new();
                assert(vals(empty@) =~= Seq::<Val>::empty());
                return Ok(Value::Tuple(empty));
            }
            match copy_cells(program, arena, start, n) {
                Ok(vs) => Ok(Value::Tuple(vs)),
                Err(e) => Err(e),
            }
        },
        Value::StackRecord { .. } => Err(panic_with("stack handle outside its frame")),
        Value::StackTuple { .. } => Err(panic_with("stack handle outside its frame")),
        _ => Ok(v.duplicate()),
    }
}

/// Law: a value that owns its parts is its own materialization.
pub proof fn law_materialize_keeps_owned(p: Program, arena: Seq<Val>, v: Val, bound: nat)
    requires
        is_owned(v),
    ensures
        materialize(p, arena, v, bound) == Ok::<Val, Fault>(v),
    decreases v, 0nat,
{
    lemma_is_owned(v);
    match v {
        Val::List(items) => lemma_materialize_all_owned(p, arena, items, bound),
        Val::Tuple(items) => lemma_materialize_all_owned(p, arena, items, bound),
        Val::Deque(items) => lemma_materialize_all_owned(p, arena, items, bound),
        Val::Variant { name, args } => lemma_materialize_all_owned(p, arena, args, bound),
        Val::Record { shape_id, names, values } => lemma_materialize_all_owned(
            p,
            arena,
            values,
            bound,
        ),
        _ => {},
    }
}

proof fn lemma_materialize_all_owned(p: Program, arena: Seq<Val>, v: Seq<Val>, bound: nat)
    requires
        all_owned(v),
    ensures
        materialize_all(p, arena, v, bound) == Ok::<Seq<Val>, Fault>(v),
    decreases v, 1nat,
{
    if v.len() > 0 {
        assert forall|i: int| 0 <= i < v.len() - 1 implies is_owned(
            #[trigger] v.drop_last()[i],
        ) by {
            assert(v.drop_last()[i] == v[i]);
        }
        lemma_materialize_all_owned(p, arena, v.drop_last(), bound);
        law_materialize_keeps_owned(p, arena, v.last(), bound);
        assert(v.drop_last().push(v.last()) =~= v);
    } else {
        assert(v =~= Seq::<Val>::empty());
    }
}

} // verus!
