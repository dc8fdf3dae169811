//! Documents of values whose parts may lie in the request arena.

use vstd::prelude::*;

use crate::json;
use crate::json::{empty_obj, obj_view, put, put_member, Doc, Json, Member, Obj};
use crate::json_values::{doc_of, is_printable};
use crate::op::Const;
use crate::program::Program;
use crate::value;
use crate::value::{field_names, field_vals, vals, Field, Val, Value};
use crate::vm::arena_values::stray_handle;
use crate::vm::fault::{panic_with, Fault, VmError};
use crate::vm::records::{const_at, no_const, no_slot, shape_at};

verus! {

broadcast use {crate::value::lemma_view, crate::json::lemma_view};

/// A document, or why there is none.
pub type Drawn = Result<Doc, Fault>;

/// The first documents of a list, or the first failure among them.
pub open spec fn gathered(ds: Seq<Drawn>, n: nat) -> Result<Seq<Doc>, Fault>
    decreases n,
{
    if n == 0 {
        Ok(Seq::empty())
    } else {
        match (gathered(ds, (n - 1) as nat), ds[n - 1]) {
            (Err(f), _) => Err(f),
            (_, Err(f)) => Err(f),
            (Ok(front), Ok(d)) => Ok(front.push(d)),
        }
    }
}

/// The object of the first names and documents.
pub open spec fn named(names: Seq<Seq<char>>, ds: Seq<Drawn>, n: nat) -> Result<Obj, Fault>
    decreases n,
{
    if n == 0 {
        Ok(empty_obj())
    } else {
        match (named(names, ds, (n - 1) as nat), ds[n - 1]) {
            (Err(f), _) => Err(f),
            (_, Err(f)) => Err(f),
            (Ok(o), Ok(d)) => Ok(put(o, names[n - 1], d)),
        }
    }
}

/// The object of the first constants of a shape and the first documents. A
/// constant that is no field name is passed over with its document.
pub open spec fn shaped(p: Program, shape: Seq<u32>, ds: Seq<Drawn>, n: nat) -> Result<Obj, Fault>
    decreases n,
{
    if n == 0 {
        Ok(empty_obj())
    } else {
        match shaped(p, shape, ds, (n - 1) as nat) {
            Err(f) => Err(f),
            Ok(o) => match const_at(p, shape[n - 1]) {
                None => Err(no_const()),
                Some(Const::FieldName(s)) => match ds[n - 1] {
                    Ok(d) => Ok(put(o, s@, d)),
                    Err(f) => Err(f),
                },
                Some(_) => Ok(o),
            },
        }
    }
}

/// How many fields a handle and its shape have in common.
pub open spec fn common(field_count: u16, shape: Seq<u32>) -> nat {
    if field_count < shape.len() {
        field_count as nat
    } else {
        shape.len()
    }
}

pub open spec fn array_drawn(r: Result<Seq<Doc>, Fault>) -> Drawn {
    match r {
        Ok(ds) => Ok(Doc::Array(ds)),
        Err(f) => Err(f),
    }
}

pub open spec fn object_drawn(r: Result<Obj, Fault>) -> Drawn {
    match r {
        Ok(o) => Ok(Doc::Object(o)),
        Err(f) => Err(f),
    }
}

pub open spec fn variant_drawn(name: Seq<char>, r: Result<Seq<Doc>, Fault>) -> Drawn {
    match r {
        Ok(ds) => Ok(
            Doc::Object(put(put(empty_obj(), "$variant"@, Doc::Str(name)), "args"@,
                Doc::Array(ds))),
        ),
        Err(f) => Err(f),
    }
}

/// The document of a value. A handle has to point below `bound`, and the
/// handles in its cells below the handle itself: cells are filled before a
/// handle to them is made. A record of the arena whose shape is not known is
/// null.
pub open spec fn arena_doc(p: Program, arena: Seq<Val>, v: Val, bound: nat) -> Drawn
    decreases bound, v, 0nat,
{
    match v {
        Val::List(items) => array_drawn(
            gathered(list_cells(p, arena, items, bound), items.len()),
        ),
        Val::Tuple(items) => array_drawn(
            gathered(list_cells(p, arena, items, bound), items.len()),
        ),
        Val::Deque(items) => array_drawn(
            gathered(list_cells(p, arena, items, bound), items.len()),
        ),
        Val::Variant { name, args } => variant_drawn(
            name,
            gathered(list_cells(p, arena, args, bound), args.len()),
        ),
        Val::Record { names, values, .. } => object_drawn(
            named(names, list_cells(p, arena, values, bound), values.len()),
        ),
        Val::ArenaRecord { shape_id, slab_start, field_count } => match shape_at(p, shape_id) {
            None => Ok(Doc::Null),
            Some(shape) => object_drawn(
                shaped(
                    p,
                    shape,
                    if slab_start < bound {
                        slab_cells(p, arena, slab_start as nat, field_count as nat)
                    } else {
                        out_of_reach(field_count as nat)
                    },
                    common(field_count, shape),
                ),
            ),
        },
        Val::ArenaTuple { slab_start, arity } => array_drawn(
            gathered(
                if slab_start < bound {
                    slab_cells(p, arena, slab_start as nat, arity as nat)
                } else {
                    out_of_reach(arity as nat)
                },
                arity as nat,
            ),
        ),
        _ => if is_printable(v) {
            Ok(doc_of(v))
        } else {
            Err(stray_handle())
        },
    }
}

/// The documents of the values of a list.
pub open spec fn list_cells(p: Program, arena: Seq<Val>, items: Seq<Val>, bound: nat) -> Seq<Drawn>
    decreases bound, items, 1nat,
{
    if items.len() == 0 {
        Seq::empty()
    } else {
        list_cells(p, arena, items.drop_last(), bound).push(
            arena_doc(p, arena, items.last(), bound),
        )
    }
}

/// The documents of the cells of a handle.
pub open spec fn slab_cells(p: Program, arena: Seq<Val>, start: nat, n: nat) -> Seq<Drawn>
    decreases start, arena, n,
{
    if n == 0 {
        Seq::empty()
    } else {
        slab_cells(p, arena, start, (n - 1) as nat).push(
            if start + n - 1 < arena.len() {
                arena_doc(p, arena, arena[start + n - 1], start)
            } else {
                Err(no_slot())
            },
        )
    }
}

/// Cells that a handle cannot have.
pub open spec fn out_of_reach(n: nat) -> Seq<Drawn> {
    Seq::new(n, |i: int| Err(no_slot()))
}

/// The document of a cell of a handle.
pub open spec fn cell_doc(p: Program, arena: Seq<Val>, start: u32, i: int, bound: nat) -> Drawn {
    if start < bound && start + i < arena.len() {
        arena_doc(p, arena, arena[start + i], start as nat)
    } else {
        Err(no_slot())
    }
}

/// The cells of a handle, if it has any.
pub open spec fn handle_cells(p: Program, arena: Seq<Val>, start: u32, n: nat, bound: nat) -> Seq<
    Drawn,
> {
    if start < bound {
        slab_cells(p, arena, start as nat, n)
    } else {
        out_of_reach(n)
    }
}

pub proof fn lemma_list(p: Program, arena: Seq<Val>, items: Seq<Val>, bound: nat)
    ensures
        list_cells(p, arena, items, bound).len() == items.len(),
        forall|i: int|
            0 <= i < items.len() ==> #[trigger] list_cells(p, arena, items, bound)[i] == arena_doc(
                p,
                arena,
                items[i],
                bound,
            ),
    decreases items.len(),
{
    if items.len() > 0 {
        lemma_list(p, arena, items.drop_last(), bound);
    }
}

pub proof fn lemma_slab(p: Program, arena: Seq<Val>, start: u32, n: nat, bound: nat)
    ensures
        handle_cells(p, arena, start, n, bound).len() == n,
        forall|i: int|
            0 <= i < n ==> #[trigger] handle_cells(p, arena, start, n, bound)[i] == cell_doc(
                p,
                arena,
                start,
                i,
                bound,
            ),
    decreases n,
{
    if n > 0 {
        lemma_slab(p, arena, start, (n - 1) as nat, bound);
    }
}

proof fn lemma_gathered_fails(ds: Seq<Drawn>, k: nat, n: nat)
    requires
        k <= n,
        gathered(ds, k) is Err,
    ensures
        gathered(ds, n) == gathered(ds, k),
    decreases n,
{
    if k < n {
        lemma_gathered_fails(ds, k, (n - 1) as nat);
    }
}

proof fn lemma_named_fails(names: Seq<Seq<char>>, ds: Seq<Drawn>, k: nat, n: nat)
    requires
        k <= n,
        named(names, ds, k) is Err,
    ensures
        named(names, ds, n) == named(names, ds, k),
    decreases n,
{
    if k < n {
        lemma_named_fails(names, ds, k, (n - 1) as nat);
    }
}

proof fn lemma_shaped_fails(p: Program, shape: Seq<u32>, ds: Seq<Drawn>, k: nat, n: nat)
    requires
        k <= n,
        shaped(p, shape, ds, k) is Err,
    ensures
        shaped(p, shape, ds, n) == shaped(p, shape, ds, k),
    decreases n,
{
    if k < n {
        lemma_shaped_fails(p, shape, ds, k, (n - 1) as nat);
    }
}

/// The relation between a document and its description.
pub open spec fn draws(r: Result<Json, VmError>, d: Drawn) -> bool {
    match r {
        Ok(j) => d == Ok::<Doc, Fault>(j@),
        Err(e) => d == Err::<Doc, Fault>(e@),
    }
}

spec fn draws_list(r: Result<Vec<Json>, VmError>, d: Result<Seq<Doc>, Fault>) -> bool {
    match r {
        Ok(js) => d == Ok::<Seq<Doc>, Fault>(json::docs(js@)),
        Err(e) => d == Err::<Seq<Doc>, Fault>(e@),
    }
}

spec fn draws_object(r: Result<Vec<Member>, VmError>, d: Result<Obj, Fault>) -> bool {
    match r {
        Ok(m) => d == Ok::<Obj, Fault>(obj_view(m@)),
        Err(e) => d == Err::<Obj, Fault>(e@),
    }
}

fn no_members() -> (m: Vec<Member>)
    ensures
        obj_view(m@) == empty_obj(),
{
    let m: Vec<Member> = Vec::new();
    assert(obj_view(m@).keys =~= empty_obj().keys);
    assert(obj_view(m@).values =~= empty_obj().values);
    m
}

fn list_docs(program: &Program, arena: &Vec<Value>, items: &Vec<Value>, bound: usize) -> (r: Result<
    Vec<Json>,
    VmError,
>)
    ensures
        draws_list(
            r,
            gathered(
                list_cells(*program, vals(arena@), vals(items@), bound as nat),
                items@.len(),
            ),
        ),
    decreases 2 * bound + 1, items, 1nat,
{
    let ghost ds = list_cells(*program, vals(arena@), vals(items@), bound as nat);
    proof {
        lemma_list(*program, vals(arena@), vals(items@), bound as nat);
    }
    let mut out: Vec<Json> = Vec::new();
    let mut i: usize = 0;
    assert(json::docs(out@) =~= Seq::<Doc>::empty());
    while i < items.len()
        invariant
            i <= items.len(),
            ds == list_cells(*program, vals(arena@), vals(items@), bound as nat),
            forall|k: int|
                0 <= k < items@.len() ==> #[trigger] ds[k] == arena_doc(
                    *program,
                    vals(arena@),
                    vals(items@)[k],
                    bound as nat,
                ),
            gathered(ds, i as nat) == Ok::<Seq<Doc>, Fault>(json::docs(out@)),
        decreases items.len() - i,
    {
        assert(ds[i as int] == arena_doc(*program, vals(arena@), items@[i as int]@, bound as nat));
        match value_doc(program, arena, &items[i], bound) {
            Ok(j) => {
                let ghost before = json::docs(out@);
                out.push(j);
                assert(json::docs(out@) =~= before.push(out@.last()@));
            },
            Err(e) => {
                proof {
                    lemma_gathered_fails(ds, (i + 1) as nat, items@.len());
                }
                return Err(e);
            },
        }
        i = i + 1;
    }
    Ok(out)
}

fn field_docs(program: &Program, arena: &Vec<Value>, fields: &Vec<Field>, bound: usize) -> (r:
    Result<Vec<Member>, VmError>)
    ensures
        draws_object(
            r,
            named(
                field_names(fields@),
                list_cells(*program, vals(arena@), field_vals(fields@), bound as nat),
                fields@.len(),
            ),
        ),
    decreases 2 * bound + 1, fields, 1nat,
{
    let ghost names = field_names(fields@);
    let ghost ds = list_cells(*program, vals(arena@), field_vals(fields@), bound as nat);
    proof {
        lemma_list(*program, vals(arena@), field_vals(fields@), bound as nat);
    }
    let mut out = no_members();
    let mut i: usize = 0;
    while i < fields.len()
        invariant
            i <= fields.len(),
            names == field_names(fields@),
            ds == list_cells(*program, vals(arena@), field_vals(fields@), bound as nat),
            forall|k: int|
                0 <= k < fields@.len() ==> #[trigger] ds[k] == arena_doc(
                    *program,
                    vals(arena@),
                    field_vals(fields@)[k],
                    bound as nat,
                ),
            named(names, ds, i as nat) == Ok::<Obj, Fault>(obj_view(out@)),
        decreases fields.len() - i,
    {
        assert(ds[i as int] == arena_doc(
            *program,
            vals(arena@),
            fields@[i as int].value@,
            bound as nat,
        ));
        match value_doc(program, arena, &fields[i].value, bound) {
            Ok(j) => {
                put_member(&mut out, fields[i].name.clone(), j);
            },
            Err(e) => {
                proof {
                    lemma_named_fails(names, ds, (i + 1) as nat, fields@.len());
                }
                return Err(e);
            },
        }
        i = i + 1;
    }
    Ok(out)
}

fn cell_json(program: &Program, arena: &Vec<Value>, start: u32, i: usize,
    bound: usize) -> (r: Result<
    Json,
    VmError,
>)
    requires
        i <= u16::MAX,
    ensures
        draws(r, cell_doc(*program, vals(arena@), start, i as int, bound as nat)),
    decreases 2 * bound, *arena, 0nat,
{
    let len: usize = arena.len();
    let from: usize = start as usize;
    if from < bound && from < len && i < len - from {
        value_doc(program, arena, &arena[from + i], from)
    } else {
        Err(panic_with("slab index out of range"))
    }
}

fn slab_docs(program: &Program, arena: &Vec<Value>, start: u32, n: u16, bound: usize) -> (r: Result<
    Vec<Json>,
    VmError,
>)
    ensures
        draws_list(
            r,
            gathered(handle_cells(*program, vals(arena@), start, n as nat, bound as nat), n as nat),
        ),
    decreases 2 * bound, *arena, 1nat,
{
    let ghost ds = handle_cells(*program, vals(arena@), start, n as nat, bound as nat);
    proof {
        lemma_slab(*program, vals(arena@), start, n as nat, bound as nat);
    }
    let mut out: Vec<Json> = Vec::new();
    let mut i: usize = 0;
    assert(json::docs(out@) =~= Seq::<Doc>::empty());
    while i < n as usize
        invariant
            i <= n,
            ds == handle_cells(*program, vals(arena@), start, n as nat, bound as nat),
            forall|k: int|
                0 <= k < n ==> #[trigger] ds[k] == cell_doc(
                    *program,
                    vals(arena@),
                    start,
                    k,
                    bound as nat,
                ),
            gathered(ds, i as nat) == Ok::<Seq<Doc>, Fault>(json::docs(out@)),
        decreases n - i,
    {
        match cell_json(program, arena, start, i, bound) {
            Ok(j) => {
                let ghost before = json::docs(out@);
                out.push(j);
                assert(json::docs(out@) =~= before.push(out@.last()@));
            },
            Err(e) => {
                proof {
                    lemma_gathered_fails(ds, (i + 1) as nat, n as nat);
                }
                return Err(e);
            },
        }
        i = i + 1;
    }
    Ok(out)
}

fn shape_docs(
    program: &Program,
    arena: &Vec<Value>,
    shape: &Vec<u32>,
    start: u32,
    count: u16,
    bound: usize,
) -> (r: Result<Vec<Member>, VmError>)
    ensures
        draws_object(
            r,
            shaped(
                *program,
                shape@,
                handle_cells(*program, vals(arena@), start, count as nat, bound as nat),
                common(count, shape@),
            ),
        ),
    decreases 2 * bound, *arena, 1nat,
{
    let ghost ds = handle_cells(*program, vals(arena@), start, count as nat, bound as nat);
    proof {
        lemma_slab(*program, vals(arena@), start, count as nat, bound as nat);
    }
    let n: usize = if (count as usize) < shape.len() {
        count as usize
    } else {
        shape.len()
    };
    let mut out = no_members();
    let mut i: usize = 0;
    while i < n
        invariant
            i <= n <= count,
            n == common(count, shape@),
            n <= shape@.len(),
            ds == handle_cells(*program, vals(arena@), start, count as nat, bound as nat),
            forall|k: int|
                0 <= k < count ==> #[trigger] ds[k] == cell_doc(
                    *program,
                    vals(arena@),
                    start,
                    k,
                    bound as nat,
                ),
            shaped(*program, shape@, ds, i as nat) == Ok::<Obj, Fault>(obj_view(out@)),
        decreases n - i,
    {
        let at: u32 = shape[i];
        if (at as usize) >= program.constants.len() {
            proof {
                lemma_shaped_fails(*program, shape@, ds, (i + 1) as nat, n as nat);
            }
            return Err(panic_with("constant index out of range"));
        }
        if let Const::FieldName(s) = &program.constants[at as usize] {
            match cell_json(program, arena, start, i, bound) {
                Ok(j) => {
                    put_member(&mut out, s.clone(), j);
                },
                Err(e) => {
                    proof {
                        lemma_shaped_fails(*program, shape@, ds, (i + 1) as nat, n as nat);
                    }
                    return Err(e);
                },
            }
        }
        i = i + 1;
    }
    Ok(out)
}

fn array_json(r: Result<Vec<Json>, VmError>) -> (j: Result<Json, VmError>)
    ensures
        forall|d: Result<Seq<Doc>, Fault>| draws_list(r, d) ==> draws(j, #[trigger] array_drawn(d)),
{
    match r {
        Ok(js) => Ok(Json::Array(js)),
        Err(e) => Err(e),
    }
}

fn object_json(r: Result<Vec<Member>, VmError>) -> (j: Result<Json, VmError>)
    ensures
        forall|d: Result<Obj, Fault>| draws_object(r, d) ==> draws(j, #[trigger] object_drawn(d)),
{
    match r {
        Ok(m) => Ok(Json::Object(m)),
        Err(e) => Err(e),
    }
}

/// The document of a value whose parts may lie in the arena.
pub(crate) fn value_doc(program: &Program, arena: &Vec<Value>, v: &Value, bound: usize) -> (r:
    Result<Json, VmError>)
    ensures
        draws(r, arena_doc(*program, vals(arena@), v@, bound as nat)),
    decreases 2 * bound + 1, v, 0nat,
{
    proof {
        assert(v@ == value::view_of(*v));
    }
    match v {
        Value::List(items) => array_json(list_docs(program, arena, items, bound)),
        Value::Tuple(items) => array_json(list_docs(program, arena, items, bound)),
        Value::Deque(items) => array_json(list_docs(program, arena, items, bound)),
        Value::Variant { name, args } => match list_docs(program, arena, args, bound) {
            Ok(js) => {
                let mut m = no_members();
                put_member(&mut m, "$variant".to_owned(), Json::Str(name.clone()));
                put_member(&mut m, "args".to_owned(), Json::Array(js));
                Ok(Json::Object(m))
            },
            Err(e) => Err(e),
        },
        Value::Record { fields, .. } => object_json(field_docs(program, arena, fields, bound)),
        Value::ArenaRecord { shape_id, slab_start, field_count } => {
            if (*shape_id as usize) >= program.record_shapes.len() {
                return Ok(Json::Null);
            }
            object_json(
                shape_docs(
                    program,
                    arena,
                    &program.record_shapes[*shape_id as usize],
                    *slab_start,
                    *field_count,
                    bound,
                ),
            )
        },
        Value::ArenaTuple { slab_start, arity } => array_json(
            slab_docs(program, arena, *slab_start, *arity, bound),
        ),
        _ => if v.printable() {
            Ok(v.to_json())
        } else {
            Err(panic_with("stack handle outside its frame"))
        },
    }
}

} // verus!
