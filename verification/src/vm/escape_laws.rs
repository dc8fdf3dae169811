//! An aggregate that the escape analysis reports as local never leaves the
//! frame that built it: with such aggregates in the slab of the frame, no value
//! that is handed on holds a handle into the slab.

use vstd::prelude::*;

use crate::escape::{
    absorbed, covers, covers_slot, depths_agree, derivable, derived, entry_state, escaped_sites,
    flagged, flows, in_top, is_solution, lemma_absorbs_covers, lemma_derived_step,
    lemma_sites_alike, local_at, merge_loses, merge_states, no_sites, op_leaked_pops, op_pops,
    op_pushes, reports, site_list, step_leaks, step_state, successors, without_top, write_local,
    AbsState, EscapeReport, Policy, Slot,
};
use crate::compiler::lowering::on_stack;
use crate::op::Op;
use crate::program::{Function, Program};
use crate::value::Val;
use crate::vm::arith::{binary, unary, Calc};
use crate::vm::laws::lemma_plain_steady;
use crate::vm::op_laws::{is_one, is_two};
use crate::vm::paths::next_op;
use crate::vm::plain::{elem_of, is_plain, plain, Move};
use crate::vm::records::{field_of, fields_of, find_in_shape, heap_record, shape_names};
use crate::vm::state::{goto, has_local, local, operand, push, top_frame, top_values, State};

verus! {

/// The value holds no handle into the slab, however deep.
pub open spec fn is_free(v: Val) -> bool
    decreases v,
{
    match v {
        Val::StackRecord { .. } | Val::StackTuple { .. } => false,
        Val::List(x) => forall|i: int| 0 <= i < x.len() ==> is_free(#[trigger] x[i]),
        Val::Tuple(x) => forall|i: int| 0 <= i < x.len() ==> is_free(#[trigger] x[i]),
        Val::Deque(x) => forall|i: int| 0 <= i < x.len() ==> is_free(#[trigger] x[i]),
        Val::Record { names, values, .. } => names.len() == values.len() && forall|i: int|
            0 <= i < values.len() ==> is_free(#[trigger] values[i]),
        Val::Variant { args, .. } => forall|i: int|
            0 <= i < args.len() ==> is_free(#[trigger] args[i]),
        Val::Closure { captures, .. } => forall|i: int|
            0 <= i < captures.len() ==> is_free(#[trigger] captures[i]),
        Val::Dict { values, .. } => forall|i: int|
            0 <= i < values.len() ==> is_free(#[trigger] values[i]),
        _ => true,
    }
}

pub open spec fn all_free(v: Seq<Val>) -> bool {
    forall|i: int| 0 <= i < v.len() ==> is_free(#[trigger] v[i])
}

/// [`is_free`], one level deep.
proof fn lemma_free(v: Val)
    ensures
        is_free(v) == (match v {
            Val::StackRecord { .. } | Val::StackTuple { .. } => false,
            Val::List(x) => all_free(x),
            Val::Tuple(x) => all_free(x),
            Val::Deque(x) => all_free(x),
            Val::Record { names, values, .. } => names.len() == values.len() && all_free(values),
            Val::Variant { args, .. } => all_free(args),
            Val::Closure { captures, .. } => all_free(captures),
            Val::Dict { values, .. } => all_free(values),
            _ => true,
        }),
{
    reveal_with_fuel(is_free, 2);
}

/// A handle into the slab.
pub open spec fn is_handle(v: Val) -> bool {
    v is StackRecord || v is StackTuple
}

/// The value holds no handle, or is a handle of a site that is known not to
/// escape.
pub open spec fn follows(v: Val, slot: Slot, e: Set<u32>) -> bool {
    is_free(v) || (is_handle(v) && (slot matches Slot::Agg(q) && !e.contains(q)))
}

/// What the analysis knows of the running frame is true of it.
pub open spec fn modelled(s: State, d: AbsState, e: Set<u32>) -> bool {
    &&& s.frames.len() > 0
    &&& s.stack.len() == top_frame(s).stack_base + d.stack.len()
    &&& forall|i: int|
        0 <= i < d.stack.len() ==> follows(
            s.stack[top_frame(s).stack_base + i],
            #[trigger] d.stack[i],
            e,
        )
    &&& forall|i: int|
        0 <= i && top_frame(s).locals_start + i < s.locals.len() ==> follows(
            s.locals[top_frame(s).locals_start + i],
            #[trigger] local_at(d.locals, i),
            e,
        )
    &&& all_free(s.slab)
    &&& all_free(s.arena)
}

/// The same frame in another state: its operands and locals start where they
/// did.
spec fn same_place(s: State, t: State) -> bool {
    &&& t.frames.len() > 0
    &&& top_frame(t).stack_base == top_frame(s).stack_base
    &&& top_frame(t).locals_start == top_frame(s).locals_start
}

proof fn lemma_pushed(
    s: State,
    t: State,
    d: AbsState,
    d2: AbsState,
    e: Set<u32>,
    k: nat,
    v: Val,
    slot: Slot,
)
    requires
        modelled(s, d, e),
        same_place(s, t),
        k <= d.stack.len(),
        t.stack == s.stack.take(s.stack.len() - k).push(v),
        t.locals == s.locals,
        all_free(t.slab),
        all_free(t.arena),
        d2.stack == without_top(d.stack, k).push(slot),
        d2.locals == d.locals,
        follows(v, slot, e),
    ensures
        modelled(t, d2, e),
{
    assert forall|i: int| 0 <= i < d2.stack.len() implies follows(
        t.stack[top_frame(t).stack_base + i],
        #[trigger] d2.stack[i],
        e,
    ) by {
        if i < d.stack.len() - k {
            assert(follows(s.stack[top_frame(s).stack_base + i], d.stack[i], e));
        }
    }
}

proof fn lemma_dropped(s: State, t: State, d: AbsState, d2: AbsState, e: Set<u32>, k: nat)
    requires
        modelled(s, d, e),
        same_place(s, t),
        k <= d.stack.len(),
        t.stack == s.stack.take(s.stack.len() - k),
        t.locals == s.locals,
        t.slab == s.slab,
        t.arena == s.arena,
        d2.stack == without_top(d.stack, k),
        d2.locals == d.locals,
    ensures
        modelled(t, d2, e),
{
    assert forall|i: int| 0 <= i < d2.stack.len() implies follows(
        t.stack[top_frame(t).stack_base + i],
        #[trigger] d2.stack[i],
        e,
    ) by {
        assert(follows(s.stack[top_frame(s).stack_base + i], d.stack[i], e));
    }
}

/// The topmost operands that leak hold no handle.
proof fn lemma_leaked(s: State, d: AbsState, e: Set<u32>, k: nat)
    requires
        modelled(s, d, e),
        k <= d.stack.len(),
        forall|q: u32| in_top(d.stack, k, q) ==> #[trigger] e.contains(q),
    ensures
        all_free(s.stack.skip(s.stack.len() - k)),
{
    let w = s.stack.skip(s.stack.len() - k);
    assert forall|i: int| 0 <= i < w.len() implies is_free(#[trigger] w[i]) by {
        let j = d.stack.len() - k + i;
        assert(w[i] == s.stack[top_frame(s).stack_base + j]);
        assert(follows(s.stack[top_frame(s).stack_base + j], d.stack[j], e));
        if let Slot::Agg(q) = d.stack[j] {
            assert(in_top(d.stack, k, q));
        }
    }
}

/// The operand `k` places below the top.
proof fn lemma_operand(s: State, d: AbsState, e: Set<u32>, k: nat)
    requires
        modelled(s, d, e),
        k < d.stack.len(),
    ensures
        follows(operand(s, k), d.stack[d.stack.len() - 1 - k], e),
{
    assert(follows(
        s.stack[top_frame(s).stack_base + (d.stack.len() - 1 - k)],
        d.stack[d.stack.len() - 1 - k],
        e,
    ));
}

proof fn lemma_unary_free(op: Op, a: Val)
    requires
        is_free(a) || is_handle(a),
        is_one(op),
    ensures
        unary(op, a) matches Calc::Value(v) ==> is_free(v),
{
    lemma_free(a);
    if let Calc::Value(v) = unary(op, a) {
        lemma_free(v);
    }
}

proof fn lemma_binary_free(op: Op, a: Val, b: Val)
    requires
        is_free(a) || is_handle(a),
        is_free(b) || is_handle(b),
        op is ListAppend ==> is_free(b),
        is_two(op),
    ensures
        binary(op, a, b) matches Calc::Value(v) ==> is_free(v),
{
    lemma_free(a);
    if let Calc::Value(v) = binary(op, a, b) {
        lemma_free(v);
    }
}

proof fn lemma_in_shape(p: Program, shape: Seq<u32>, name: Seq<char>, k: int)
    requires
        0 <= k,
    ensures
        find_in_shape(p, shape, name, k) matches Some(i) ==> 0 <= i,
    decreases shape.len() - k,
{
    if k < shape.len() {
        lemma_in_shape(p, shape, name, k + 1);
    }
}

proof fn lemma_field_free(
    p: Program,
    slab: Seq<Val>,
    arena: Seq<Val>,
    rec: Val,
    name_idx: u32,
    what: Seq<char>,
    place: Seq<char>,
)
    requires
        all_free(slab),
        all_free(arena),
        is_free(rec) || is_handle(rec),
    ensures
        field_of(p, slab, arena, rec, name_idx, what, place) matches Ok(v) ==> is_free(v),
{
    lemma_free(rec);
    if let Ok(name) = crate::vm::records::field_name(p, name_idx) {
        match rec {
            Val::Record { names, .. } => {
                crate::value_ops::lemma_find_from(names, name, 0);
            },
            Val::StackRecord { shape_id, .. } | Val::ArenaRecord { shape_id, .. } => {
                if let Some(shape) = crate::vm::records::shape_at(p, shape_id) {
                    lemma_in_shape(p, shape, name, 0);
                }
            },
            _ => {},
        }
    }
}

proof fn lemma_elem_free(slab: Seq<Val>, arena: Seq<Val>, v: Val, i: u16)
    requires
        all_free(slab),
        all_free(arena),
        is_free(v) || is_handle(v),
    ensures
        elem_of(slab, arena, v, i) matches Ok(x) ==> is_free(x),
{
    lemma_free(v);
}

proof fn lemma_fields_free(names: Seq<Seq<char>>, values: Seq<Val>)
    requires
        all_free(values),
        names.len() == values.len(),
    ensures
        all_free(fields_of(names, values).1),
        fields_of(names, values).0.len() == fields_of(names, values).1.len(),
    decreases values.len(),
{
    lemma_fields_free_prefix(names, values);
}

proof fn lemma_fields_free_prefix(names: Seq<Seq<char>>, values: Seq<Val>)
    requires
        all_free(values),
        names.len() >= values.len(),
    ensures
        all_free(fields_of(names, values).1),
        fields_of(names, values).0.len() == fields_of(names, values).1.len(),
    decreases values.len(),
{
    if values.len() > 0 {
        let front = values.drop_last();
        assert forall|i: int| 0 <= i < front.len() implies is_free(#[trigger] front[i]) by {
            assert(front[i] == values[i]);
        }
        lemma_fields_free_prefix(names, front);
        let f = fields_of(names, front);
        let name = names[values.len() - 1];
        crate::value_ops::lemma_find_from(f.0, name, 0);
        assert(is_free(values[values.len() - 1]));
    }
}

proof fn lemma_record_free(p: Program, shape_idx: u32, values: Seq<Val>)
    requires
        all_free(values),
    ensures
        heap_record(p, shape_idx, values) matches Ok(v) ==> is_free(v),
{
    if let Some(shape) = crate::vm::records::shape_at(p, shape_idx) {
        lemma_names_len(p, shape, values.len());
        if let Ok(names) = shape_names(p, shape, values.len()) {
            lemma_fields_free(names, values);
            if let Ok(v) = heap_record(p, shape_idx, values) {
                lemma_free(v);
            }
        }
    }
}

proof fn lemma_names_len(p: Program, shape: Seq<u32>, k: nat)
    ensures
        shape_names(p, shape, k) matches Ok(names) ==> names.len() == k,
    decreases k,
{
    if k > 0 {
        lemma_names_len(p, shape, (k - 1) as nat);
    }
}

/// What the analysis knows stays true behind an op on the frame alone.
#[verifier::opaque]
pub open spec fn stays_modelled(p: Program, s: State, d: AbsState, e: Set<u32>, op: Op) -> bool {
    let d2 = step_state(top_frame(s).pc, op, d);
    match plain(p, s, op) {
        Move::Go(t) => modelled(t, d2, e),
        Move::Ask(_, _, _, u) => forall|x: u64| modelled(#[trigger] push(u, Val::Float(x)), d2, e),
        Move::Fail(_, _) => true,
    }
}

/// An op that puts an aggregate in the slab.
pub open spec fn on_slab(op: Op) -> bool {
    op is AllocStackRecord || op is AllocStackTuple
}

/// The op can be interpreted: it has its operands, what it lets go is known to
/// escape, and what it puts in the slab is known not to.
pub open spec fn interpretable(s: State, d: AbsState, e: Set<u32>, op: Op) -> bool {
    &&& modelled(s, d, e)
    &&& op_pops(op) <= d.stack.len()
    &&& forall|q: u32| step_leaks(Policy::Frame, op, d, q) ==> #[trigger] e.contains(q)
    &&& on_slab(op) ==> !e.contains(top_frame(s).pc as u32)
}

/// Ops that move values about.
#[verifier::spinoff_prover]
#[verifier::rlimit(40)]
proof fn lemma_moves(p: Program, s: State, d: AbsState, e: Set<u32>, op: Op)
    requires
        interpretable(s, d, e, op),
        op is PushConst || op is Pop || op is Dup || op is LoadLocal,
    ensures
        stays_modelled(p, s, d, e, op),
{
    reveal(stays_modelled);
    let d2 = step_state(top_frame(s).pc, op, d);
    if let Move::Go(t) = plain(p, s, op) {
        match op {
            Op::PushConst(_) => {
                let v = t.stack.last();
                lemma_free(v);
                assert(s.stack.take(s.stack.len() as int) =~= s.stack);
                assert(without_top(d.stack, 0) =~= d.stack);
                assert(d2.stack =~= d.stack.push(Slot::Other));
                lemma_pushed(s, t, d, d2, e, 0, v, Slot::Other);
            },
            Op::Pop => {
                assert(d2.stack =~= without_top(d.stack, 1));
                lemma_dropped(s, t, d, d2, e, 1);
            },
            Op::Dup => {
                lemma_leaked(s, d, e, 1);
                let v = operand(s, 0);
                assert(v == s.stack.skip(s.stack.len() - 1)[0]);
                let mid = State { stack: s.stack.take(s.stack.len() - 1).push(v), ..t };
                assert(mid.stack =~= s.stack);
                let d1 = AbsState { stack: without_top(d.stack, 1).push(Slot::Other), ..d };
                lemma_pushed(s, mid, d, d1, e, 1, v, Slot::Other);
                assert(t.stack =~= mid.stack.take(mid.stack.len() as int).push(v));
                assert(d2.stack =~= without_top(d1.stack, 0).push(Slot::Other));
                lemma_pushed(mid, t, d1, d2, e, 0, v, Slot::Other);
            },
            Op::LoadLocal(i) => {
                let slot = local_at(d.locals, i as int);
                assert(follows(s.locals[top_frame(s).locals_start + i], slot, e));
                assert(s.stack.take(s.stack.len() as int) =~= s.stack);
                assert(without_top(d.stack, 0) =~= d.stack);
                assert(d2.stack =~= d.stack.push(slot));
                lemma_pushed(s, t, d, d2, e, 0, local(s, i), slot);
            },
            _ => {},
        }
    }
}

/// A local that is written.
proof fn lemma_written(
    s: State,
    t: State,
    d: AbsState,
    d2: AbsState,
    e: Set<u32>,
    i: nat,
    v: Val,
    slot: Slot,
)
    requires
        modelled(s, d, e),
        same_place(s, t),
        t.stack == s.stack,
        t.slab == s.slab,
        t.arena == s.arena,
        t.locals == s.locals.update((top_frame(s).locals_start + i) as int, v),
        top_frame(s).locals_start + i < s.locals.len(),
        d2.stack == d.stack,
        forall|j: int| 0 <= j && j != i ==> #[trigger] local_at(d2.locals, j) == local_at(
            d.locals,
            j,
        ),
        local_at(d2.locals, i as int) == slot,
        follows(v, slot, e),
    ensures
        modelled(t, d2, e),
{
    assert forall|j: int| 0 <= j && top_frame(t).locals_start + j < t.locals.len() implies follows(
        t.locals[top_frame(t).locals_start + j],
        #[trigger] local_at(d2.locals, j),
        e,
    ) by {
        if j != i {
            assert(follows(
                s.locals[top_frame(s).locals_start + j],
                local_at(d.locals, j),
                e,
            ));
        }
    }
    assert forall|j: int| 0 <= j < d2.stack.len() implies follows(
        t.stack[top_frame(t).stack_base + j],
        #[trigger] d2.stack[j],
        e,
    ) by {
        assert(follows(s.stack[top_frame(s).stack_base + j], d.stack[j], e));
    }
}

proof fn lemma_write_local(locals: Seq<Slot>, i: nat, v: Slot)
    ensures
        local_at(write_local(locals, i, v), i as int) == v,
        forall|j: int| 0 <= j && j != i ==> #[trigger] local_at(write_local(locals, i, v), j)
            == local_at(locals, j),
{
}

#[verifier::spinoff_prover]
#[verifier::rlimit(40)]
proof fn lemma_stores(p: Program, s: State, d: AbsState, e: Set<u32>, op: Op)
    requires
        interpretable(s, d, e, op),
        op is StoreLocal || op is TakeLocal,
    ensures
        stays_modelled(p, s, d, e, op),
{
    reveal(stays_modelled);
    let d2 = step_state(top_frame(s).pc, op, d);
    if let Move::Go(t) = plain(p, s, op) {
        match op {
            Op::StoreLocal(i) => {
                let v = operand(s, 0);
                let slot = d.stack.last();
                lemma_operand(s, d, e, 0);
                let mid = State { stack: s.stack.take(s.stack.len() - 1), ..s };
                let d1 = AbsState { stack: without_top(d.stack, 1), ..d };
                lemma_dropped(s, mid, d, d1, e, 1);
                lemma_write_local(d.locals, i as nat, slot);
                assert(d2.stack =~= d1.stack);
                lemma_written(mid, t, d1, d2, e, i as nat, v, slot);
            },
            Op::TakeLocal(i) => {
                let slot = local_at(d.locals, i as int);
                let v = local(s, i);
                assert(follows(s.locals[top_frame(s).locals_start + i], slot, e));
                lemma_free(Val::Unit);
                let mid = State { stack: s.stack, ..t };
                let d1 = AbsState { stack: d.stack, ..d2 };
                lemma_written(s, mid, d, d1, e, i as nat, Val::Unit, Slot::Other);
                assert(t.stack =~= mid.stack.take(mid.stack.len() as int).push(v));
                assert(d2.stack =~= without_top(d1.stack, 0).push(slot));
                lemma_pushed(mid, t, d1, d2, e, 0, v, slot);
            },
            _ => {},
        }
    }
}

/// Ops that build a value out of operands.
#[verifier::spinoff_prover]
#[verifier::rlimit(60)]
proof fn lemma_builds(p: Program, s: State, d: AbsState, e: Set<u32>, op: Op)
    requires
        interpretable(s, d, e, op),
        op is MakeRecord || op is MakeTuple || op is MakeList || op is MakeVariant
            || op is MakeClosure || op is AllocArenaRecord || op is AllocArenaTuple,
    ensures
        stays_modelled(p, s, d, e, op),
{
    reveal(stays_modelled);
    let d2 = step_state(top_frame(s).pc, op, d);
    let k = op_pops(op);
    lemma_leaked(s, d, e, k);
    let parts = top_values(s, k);
    match op {
        Op::MakeRecord { shape_idx, .. } | Op::AllocArenaRecord { shape_idx, .. } => {
            lemma_record_free(p, shape_idx, parts);
        },
        _ => {},
    }
    if let Move::Go(t) = plain(p, s, op) {
        let v = t.stack.last();
        lemma_free(v);
        assert(is_free(v));
        let slot = op_pushes(top_frame(s).pc, op, d)[0];
        assert(t.stack =~= s.stack.take(s.stack.len() - k).push(v));
        assert(d2.stack =~= without_top(d.stack, k).push(slot));
        assert(all_free(t.arena)) by {
            assert forall|i: int| 0 <= i < t.arena.len() implies is_free(#[trigger] t.arena[i]) by {
                if i >= s.arena.len() {
                    assert(t.arena[i] == parts[i - s.arena.len()]);
                }
            }
        }
        lemma_pushed(s, t, d, d2, e, k, v, slot);
    }
}

/// Ops that put an aggregate in the slab.
#[verifier::spinoff_prover]
#[verifier::rlimit(60)]
proof fn lemma_allocates(p: Program, s: State, d: AbsState, e: Set<u32>, op: Op)
    requires
        interpretable(s, d, e, op),
        on_slab(op),
    ensures
        stays_modelled(p, s, d, e, op),
{
    reveal(stays_modelled);
    let d2 = step_state(top_frame(s).pc, op, d);
    let k = op_pops(op);
    lemma_leaked(s, d, e, k);
    let parts = top_values(s, k);
    if let Op::AllocStackRecord { shape_idx, .. } = op {
        lemma_record_free(p, shape_idx, parts);
    }
    if let Move::Go(t) = plain(p, s, op) {
        let v = t.stack.last();
        lemma_free(v);
        let slot = Slot::Agg(top_frame(s).pc as u32);
        assert(follows(v, slot, e));
        assert(t.stack =~= s.stack.take(s.stack.len() - k).push(v));
        assert(d2.stack =~= without_top(d.stack, k).push(slot));
        assert(all_free(t.slab)) by {
            assert forall|i: int| 0 <= i < t.slab.len() implies is_free(#[trigger] t.slab[i]) by {
                if i >= s.slab.len() {
                    assert(t.slab[i] == parts[i - s.slab.len()]);
                }
            }
        }
        lemma_pushed(s, t, d, d2, e, k, v, slot);
    }
}

/// Ops that read a part of a value.
#[verifier::spinoff_prover]
#[verifier::rlimit(40)]
proof fn lemma_reads(p: Program, s: State, d: AbsState, e: Set<u32>, op: Op)
    requires
        interpretable(s, d, e, op),
        op is GetField || op is GetElem || op is TestVariant,
    ensures
        stays_modelled(p, s, d, e, op),
{
    reveal(stays_modelled);
    let d2 = step_state(top_frame(s).pc, op, d);
    lemma_operand(s, d, e, 0);
    match op {
        Op::GetField { name_idx, .. } => {
            lemma_field_free(
                p,
                s.slab,
                s.arena,
                operand(s, 0),
                name_idx,
                "GetField on non-record: "@,
                "arena record"@,
            );
        },
        Op::GetElem(i) => {
            lemma_elem_free(s.slab, s.arena, operand(s, 0), i);
        },
        _ => {},
    }
    if let Move::Go(t) = plain(p, s, op) {
        let v = t.stack.last();
        lemma_free(v);
        assert(is_free(v));
        assert(t.stack =~= s.stack.take(s.stack.len() - 1).push(v));
        assert(d2.stack =~= without_top(d.stack, 1).push(Slot::Other));
        lemma_pushed(s, t, d, d2, e, 1, v, Slot::Other);
    }
}

#[verifier::spinoff_prover]
#[verifier::rlimit(40)]
proof fn lemma_jumps(p: Program, s: State, d: AbsState, e: Set<u32>, op: Op)
    requires
        interpretable(s, d, e, op),
        op is Jump || op is JumpIf || op is JumpIfNot || op is Panic,
    ensures
        stays_modelled(p, s, d, e, op),
{
    reveal(stays_modelled);
    let d2 = step_state(top_frame(s).pc, op, d);
    let k = op_pops(op);
    if let Move::Go(t) = plain(p, s, op) {
        assert(s.stack.take(s.stack.len() as int) =~= s.stack);
        assert(t.stack =~= s.stack.take(s.stack.len() - k));
        assert(d2.stack =~= without_top(d.stack, k));
        lemma_dropped(s, t, d, d2, e, k);
    }
}

/// Ops on operands alone.
#[verifier::spinoff_prover]
#[verifier::rlimit(60)]
proof fn lemma_computes(p: Program, s: State, d: AbsState, e: Set<u32>, op: Op)
    requires
        interpretable(s, d, e, op),
        is_one(op) || is_two(op),
    ensures
        stays_modelled(p, s, d, e, op),
{
    reveal(stays_modelled);
    let d2 = step_state(top_frame(s).pc, op, d);
    let k = op_pops(op);
    assert(k == (if is_one(op) {
        1nat
    } else {
        2nat
    }));
    lemma_operand(s, d, e, 0);
    if is_one(op) {
        lemma_unary_free(op, operand(s, 0));
    } else {
        lemma_operand(s, d, e, 1);
        if op is ListAppend {
            lemma_leaked(s, d, e, 1);
            assert(operand(s, 0) == s.stack.skip(s.stack.len() - 1)[0]);
        }
        lemma_binary_free(op, operand(s, 1), operand(s, 0));
    }
    match plain(p, s, op) {
        Move::Go(t) => {
            let v = t.stack.last();
            assert(is_free(v));
            assert(t.stack =~= s.stack.take(s.stack.len() - k).push(v));
            assert(d2.stack =~= without_top(d.stack, k).push(Slot::Other));
            lemma_pushed(s, t, d, d2, e, k, v, Slot::Other);
        },
        Move::Ask(_, _, _, u) => {
            assert forall|x: u64| modelled(#[trigger] push(u, Val::Float(x)), d2, e) by {
                let t = push(u, Val::Float(x));
                lemma_free(Val::Float(x));
                assert(t.stack =~= s.stack.take(s.stack.len() - k).push(Val::Float(x)));
                assert(d2.stack =~= without_top(d.stack, k).push(Slot::Other));
                lemma_pushed(s, t, d, d2, e, k, Val::Float(x), Slot::Other);
            }
        },
        _ => {},
    }
}

/// Superinstructions that leave a value.
#[verifier::spinoff_prover]
#[verifier::rlimit(60)]
proof fn lemma_fused_values(p: Program, s: State, d: AbsState, e: Set<u32>, op: Op)
    requires
        interpretable(s, d, e, op),
        op is LoadLocalAddIntConst || op is LoadLocalAddLocal || op is LoadLocalSubLocal
            || op is LoadLocalMulLocal || op is LoadLocalGetField,
    ensures
        stays_modelled(p, s, d, e, op),
{
    reveal(stays_modelled);
    let d2 = step_state(top_frame(s).pc, op, d);
    if let Op::LoadLocalGetField { local_idx, name_idx, .. } = op {
        if has_local(s, local_idx) {
            assert(follows(
                s.locals[top_frame(s).locals_start + local_idx],
                local_at(d.locals, local_idx as int),
                e,
            ));
            lemma_field_free(
                p,
                s.slab,
                s.arena,
                local(s, local_idx),
                name_idx,
                "LoadLocalGetField on non-record: "@,
                "stack record"@,
            );
        }
    }
    if let Move::Go(t) = plain(p, s, op) {
        let v = t.stack.last();
        lemma_free(v);
        assert(is_free(v));
        assert(t.stack =~= s.stack.take(s.stack.len() as int).push(v));
        assert(d2.stack =~= without_top(d.stack, 0).push(Slot::Other));
        lemma_pushed(s, t, d, d2, e, 0, v, Slot::Other);
    }
}

/// Superinstructions that take an operand and leave a value.
#[verifier::spinoff_prover]
#[verifier::rlimit(60)]
proof fn lemma_fused_fields(p: Program, s: State, d: AbsState, e: Set<u32>, op: Op)
    requires
        interpretable(s, d, e, op),
        op is LoadLocalGetFieldAdd || op is LoadLocalGetFieldSub || op is LoadLocalGetFieldMul,
    ensures
        stays_modelled(p, s, d, e, op),
{
    reveal(stays_modelled);
    let d2 = step_state(top_frame(s).pc, op, d);
    if let Move::Go(t) = plain(p, s, op) {
        let v = t.stack.last();
        lemma_free(v);
        assert(is_free(v));
        assert(t.stack =~= s.stack.take(s.stack.len() - 1).push(v));
        assert(d2.stack =~= without_top(d.stack, 1).push(Slot::Other));
        lemma_pushed(s, t, d, d2, e, 1, v, Slot::Other);
    }
}

/// Superinstructions that leave no value.
#[verifier::spinoff_prover]
#[verifier::rlimit(60)]
proof fn lemma_fused_stores(p: Program, s: State, d: AbsState, e: Set<u32>, op: Op)
    requires
        interpretable(s, d, e, op),
        op is LoadLocalAddIntConstStoreLocal || op is LoadLocalEqIntConstJumpIfNot
            || op is LoadLocalStoreEqIntConstJumpIfNot,
    ensures
        stays_modelled(p, s, d, e, op),
{
    reveal(stays_modelled);
    let d2 = step_state(top_frame(s).pc, op, d);
    assert(d2.stack =~= d.stack);
    if let Move::Go(t) = plain(p, s, op) {
        match op {
            Op::LoadLocalAddIntConstStoreLocal { dest: i, .. }
            | Op::LoadLocalStoreEqIntConstJumpIfNot { dst: i, .. } => {
                let v = t.locals[top_frame(s).locals_start + i];
                lemma_free(v);
                lemma_write_local(d.locals, i as nat, Slot::Other);
                assert(t.locals =~= s.locals.update((top_frame(s).locals_start + i) as int, v));
                lemma_written(s, t, d, d2, e, i as nat, v, Slot::Other);
            },
            _ => {
                assert(s.stack.take(s.stack.len() as int) =~= s.stack);
                assert(without_top(d.stack, 0) =~= d.stack);
                lemma_dropped(s, t, d, d2, e, 0);
            },
        }
    }
}

/// Every op on the frame alone.
proof fn lemma_plain_modelled(p: Program, s: State, d: AbsState, e: Set<u32>, op: Op)
    requires
        interpretable(s, d, e, op),
        is_plain(op),
    ensures
        stays_modelled(p, s, d, e, op),
{
    match op {
        Op::PushConst(_) | Op::Pop | Op::Dup | Op::LoadLocal(_) => {
            lemma_moves(p, s, d, e, op);
        },
        Op::StoreLocal(_) | Op::TakeLocal(_) => {
            lemma_stores(p, s, d, e, op);
        },
        Op::MakeRecord { .. }
        | Op::MakeTuple(_)
        | Op::MakeList(_)
        | Op::MakeVariant { .. }
        | Op::MakeClosure { .. }
        | Op::AllocArenaRecord { .. }
        | Op::AllocArenaTuple { .. } => {
            lemma_builds(p, s, d, e, op);
        },
        Op::AllocStackRecord { .. } | Op::AllocStackTuple { .. } => {
            lemma_allocates(p, s, d, e, op);
        },
        Op::GetField { .. } | Op::GetElem(_) | Op::TestVariant(_) => {
            lemma_reads(p, s, d, e, op);
        },
        Op::Jump(_) | Op::JumpIf(_) | Op::JumpIfNot(_) | Op::Panic(_) => {
            lemma_jumps(p, s, d, e, op);
        },
        Op::LoadLocalAddIntConst { .. }
        | Op::LoadLocalAddLocal { .. }
        | Op::LoadLocalSubLocal { .. }
        | Op::LoadLocalMulLocal { .. }
        | Op::LoadLocalGetField { .. } => {
            lemma_fused_values(p, s, d, e, op);
        },
        Op::LoadLocalGetFieldAdd { .. }
        | Op::LoadLocalGetFieldSub { .. }
        | Op::LoadLocalGetFieldMul { .. } => {
            lemma_fused_fields(p, s, d, e, op);
        },
        Op::LoadLocalAddIntConstStoreLocal { .. }
        | Op::LoadLocalEqIntConstJumpIfNot { .. }
        | Op::LoadLocalStoreEqIntConstJumpIfNot { .. } => {
            lemma_fused_stores(p, s, d, e, op);
        },
        _ => {
            lemma_computes(p, s, d, e, op);
        },
    }
}

/// An op on the frame alone goes on where the analysis goes on, or runs off the
/// end.
#[verifier::opaque]
spec fn lands(p: Program, s: State, op: Op, n: nat) -> bool {
    let next = successors(top_frame(s).pc, op, n);
    match plain(p, s, op) {
        Move::Go(t) => next.contains(top_frame(t).pc) || top_frame(t).pc >= n,
        Move::Ask(_, _, _, u) => next.contains(top_frame(u).pc) || top_frame(u).pc >= n,
        Move::Fail(_, _) => true,
    }
}

#[verifier::spinoff_prover]
#[verifier::rlimit(40)]
proof fn lemma_lands_jumps(p: Program, s: State, op: Op, n: nat)
    requires
        s.frames.len() > 0,
        crate::vm::plain::code_len(p, s) == n,
        op is Jump || op is JumpIf || op is JumpIfNot || op is Panic,
    ensures
        lands(p, s, op, n),
{
    reveal(lands);
    let pc = top_frame(s).pc;
    if let Op::Jump(off) | Op::JumpIf(off) | Op::JumpIfNot(off) = op {
        lemma_targets(pc + 1, off, n);
    }
}

#[verifier::spinoff_prover]
#[verifier::rlimit(40)]
proof fn lemma_lands_tests(p: Program, s: State, op: Op, n: nat)
    requires
        s.frames.len() > 0,
        crate::vm::plain::code_len(p, s) == n,
        op is LoadLocalEqIntConstJumpIfNot || op is LoadLocalStoreEqIntConstJumpIfNot,
    ensures
        lands(p, s, op, n),
{
    reveal(lands);
    let pc = top_frame(s).pc;
    match op {
        Op::LoadLocalEqIntConstJumpIfNot { jump_offset, .. } => {
            lemma_targets(pc + 4, jump_offset, n);
        },
        Op::LoadLocalStoreEqIntConstJumpIfNot { jump_offset, .. } => {
            lemma_targets(pc + 6, jump_offset, n);
        },
        _ => {},
    }
}

#[verifier::spinoff_prover]
#[verifier::rlimit(40)]
proof fn lemma_lands_fused(p: Program, s: State, op: Op, n: nat)
    requires
        s.frames.len() > 0,
        crate::vm::plain::code_len(p, s) == n,
        op is LoadLocalAddIntConstStoreLocal || op is LoadLocalAddLocal || op is LoadLocalSubLocal
            || op is LoadLocalMulLocal || op is LoadLocalGetField,
    ensures
        lands(p, s, op, n),
{
    reveal(lands);
    let pc = top_frame(s).pc;
    lemma_falls(pc + 2, n);
    lemma_falls(pc + 3, n);
    lemma_falls(pc + 4, n);
}

#[verifier::spinoff_prover]
#[verifier::rlimit(40)]
proof fn lemma_lands_fields(p: Program, s: State, op: Op, n: nat)
    requires
        s.frames.len() > 0,
        crate::vm::plain::code_len(p, s) == n,
        op is LoadLocalGetFieldAdd || op is LoadLocalGetFieldSub || op is LoadLocalGetFieldMul,
    ensures
        lands(p, s, op, n),
{
    reveal(lands);
    let pc = top_frame(s).pc;
    lemma_falls(pc + 3, n);
}

#[verifier::spinoff_prover]
#[verifier::rlimit(40)]
proof fn lemma_lands_builds(p: Program, s: State, op: Op, n: nat)
    requires
        s.frames.len() > 0,
        crate::vm::plain::code_len(p, s) == n,
        op is MakeRecord || op is MakeTuple || op is MakeList || op is MakeVariant
            || op is MakeClosure || op is AllocArenaRecord || op is AllocArenaTuple || on_slab(op),
    ensures
        lands(p, s, op, n),
{
    reveal(lands);
    let pc = top_frame(s).pc;
    lemma_falls(pc + 1, n);
}

#[verifier::spinoff_prover]
#[verifier::rlimit(40)]
proof fn lemma_lands_moves(p: Program, s: State, op: Op, n: nat)
    requires
        s.frames.len() > 0,
        crate::vm::plain::code_len(p, s) == n,
        op is PushConst || op is Pop || op is Dup || op is LoadLocal || op is StoreLocal
            || op is TakeLocal || op is GetField || op is GetElem || op is TestVariant,
    ensures
        lands(p, s, op, n),
{
    reveal(lands);
    let pc = top_frame(s).pc;
    lemma_falls(pc + 1, n);
}

#[verifier::spinoff_prover]
#[verifier::rlimit(40)]
proof fn lemma_lands_computes(p: Program, s: State, op: Op, n: nat)
    requires
        s.frames.len() > 0,
        crate::vm::plain::code_len(p, s) == n,
        is_one(op) || is_two(op),
    ensures
        lands(p, s, op, n),
{
    reveal(lands);
    let pc = top_frame(s).pc;
    lemma_falls(pc + 1, n);
}

proof fn lemma_lands(p: Program, s: State, op: Op, n: nat)
    requires
        s.frames.len() > 0,
        is_plain(op),
        !(op is LoadLocalAddIntConst),
        crate::vm::plain::code_len(p, s) == n,
    ensures
        lands(p, s, op, n),
{
    match op {
        Op::PushConst(_)
        | Op::Pop
        | Op::Dup
        | Op::LoadLocal(_)
        | Op::StoreLocal(_)
        | Op::TakeLocal(_)
        | Op::GetField { .. }
        | Op::GetElem(_)
        | Op::TestVariant(_) => {
            lemma_lands_moves(p, s, op, n);
        },
        Op::MakeRecord { .. }
        | Op::MakeTuple(_)
        | Op::MakeList(_)
        | Op::MakeVariant { .. }
        | Op::MakeClosure { .. }
        | Op::AllocArenaRecord { .. }
        | Op::AllocArenaTuple { .. }
        | Op::AllocStackRecord { .. }
        | Op::AllocStackTuple { .. } => {
            lemma_lands_builds(p, s, op, n);
        },
        Op::Jump(_) | Op::JumpIf(_) | Op::JumpIfNot(_) | Op::Panic(_) => {
            lemma_lands_jumps(p, s, op, n);
        },
        Op::LoadLocalGetFieldAdd { .. }
        | Op::LoadLocalGetFieldSub { .. }
        | Op::LoadLocalGetFieldMul { .. } => {
            lemma_lands_fields(p, s, op, n);
        },
        Op::LoadLocalAddLocal { .. }
        | Op::LoadLocalSubLocal { .. }
        | Op::LoadLocalMulLocal { .. }
        | Op::LoadLocalGetField { .. }
        | Op::LoadLocalAddIntConstStoreLocal { .. } => {
            lemma_lands_fused(p, s, op, n);
        },
        Op::LoadLocalEqIntConstJumpIfNot { .. }
        | Op::LoadLocalStoreEqIntConstJumpIfNot { .. } => {
            lemma_lands_tests(p, s, op, n);
        },
        _ => {
            lemma_lands_computes(p, s, op, n);
        },
    }
}

proof fn lemma_falls(t: nat, n: nat)
    ensures
        t < n ==> crate::escape::fall_through(t, n).contains(t),
{
    if t < n {
        assert(crate::escape::fall_through(t, n)[0] == t);
    }
}

proof fn lemma_targets(base: nat, off: i32, n: nat)
    ensures
        crate::op::jump_target(base, off, n) matches Some(t) ==> {
            &&& crate::escape::opt_target(crate::op::jump_target(base, off, n)).contains(t)
            &&& (crate::escape::fall_through(base, n) + crate::escape::opt_target(
                crate::op::jump_target(base, off, n),
            )).contains(t)
        },
        base < n ==> (crate::escape::fall_through(base, n) + crate::escape::opt_target(
            crate::op::jump_target(base, off, n),
        )).contains(base),
{
    let o = crate::escape::opt_target(crate::op::jump_target(base, off, n));
    let f = crate::escape::fall_through(base, n);
    if let Some(t) = crate::op::jump_target(base, off, n) {
        assert(o[0] == t);
        assert((f + o)[f.len() as int] == t);
    }
    if base < n {
        assert((f + o)[0] == base);
    }
}

/// How many operands an op hands on to another frame, to the caller or to the
/// world outside.
pub open spec fn handed_on(op: Op) -> nat {
    match op {
        Op::Return => 1,
        Op::Call { arity, .. } | Op::TailCall { arity, .. } | Op::EffectCall { arity, .. } =>
            arity as nat,
        Op::CallClosure { arity, .. } => arity as nat + 1,
        Op::MakeClosure { capture_count, .. } => capture_count as nat,
        Op::SortByKey { .. }
        | Op::ParallelMap { .. }
        | Op::ListMap { .. }
        | Op::ListFilter { .. } => 2,
        Op::ListFold { .. } => 3,
        _ => 0,
    }
}

/// The values that leave the frame when the op runs: what is returned, the
/// arguments of a call, of a tail call, of the call of a closure or of an
/// effect, and what a closure captures.
pub open spec fn leaving(s: State, op: Op) -> Seq<Val> {
    s.stack.skip(s.stack.len() - handed_on(op))
}

/// What was called has come back: in the place of its operands lies a result
/// that holds no handle into the slab, and the frame goes on with the next op.
pub open spec fn comes_back(s: State, t: State, op: Op) -> bool {
    &&& s.stack.len() >= handed_on(op)
    &&& t.stack.len() == s.stack.len() - handed_on(op) + 1
    &&& t.stack.drop_last() == s.stack.take(s.stack.len() - handed_on(op))
    &&& is_free(t.stack.last())
    &&& t.frames == goto(s, top_frame(s).pc + 1).frames
    &&& t.locals == s.locals
    &&& t.slab == s.slab
    &&& all_free(t.arena)
}

/// The frame moves on from one state to the next.
pub open spec fn moves_on(p: Program, code: Seq<Op>, s: State, t: State) -> bool {
    next_op(code, s) matches Some(op) && if is_plain(op) {
        match plain(p, s, op) {
            Move::Go(u) => t == u,
            Move::Ask(_, _, _, u) => exists|x: u64| t == #[trigger] push(u, Val::Float(x)),
            Move::Fail(_, _) => false,
        }
    } else {
        !(op is Return) && !(op is TailCall) && comes_back(s, t, op)
    }
}

/// The states of a frame, from the first op on.
pub open spec fn is_frame_run(p: Program, code: Seq<Op>, run: Seq<State>) -> bool {
    &&& run.len() > 0
    &&& forall|i: int| 0 <= i < run.len() - 1 ==> moves_on(p, code, #[trigger] run[i], run[i + 1])
}

/// A frame that was just opened: no operands, and no handle into the slab in
/// its arguments or in what the slab and the arena hold.
pub open spec fn is_fresh(p: Program, code: Seq<Op>, s: State) -> bool {
    &&& s.frames.len() > 0
    &&& top_frame(s).fn_id < p.functions@.len()
    &&& crate::vm::plain::code_len(p, s) == code.len()
    &&& top_frame(s).pc == 0
    &&& s.stack.len() == top_frame(s).stack_base
    &&& forall|i: int|
        top_frame(s).locals_start <= i < s.locals.len() ==> is_free(#[trigger] s.locals[i])
    &&& all_free(s.slab)
    &&& all_free(s.arena)
}

/// No op of the code lacks operands.
pub open spec fn has_operands(code: Seq<Op>, entry: AbsState) -> bool {
    forall|pc: nat, d: AbsState| #[trigger]
        derived(code, entry, pc, d) && pc < code.len() ==> op_pops(code[pc as int])
            <= d.stack.len()
}

/// The code was analysed, and nothing but a site that does not escape puts an
/// aggregate in the slab.
pub open spec fn keeps_sites_local(code: Seq<Op>, e: Set<u32>) -> bool {
    forall|i: int|
        0 <= i < code.len() ==> (on_slab(#[trigger] code[i]) ==> !e.contains(i as u32))
            && !(code[i] is LoadLocalAddIntConst)
}

/// The frame is at an op whose in-state is true of it.
spec fn in_step(
    p: Program,
    code: Seq<Op>,
    ds: Seq<Option<AbsState>>,
    e: Set<u32>,
    s: State,
) -> bool {
    let pc = top_frame(s).pc;
    &&& s.frames.len() > 0
    &&& crate::vm::plain::code_len(p, s) == code.len()
    &&& pc < code.len() ==> ds[pc as int] is Some && modelled(s, ds[pc as int]->0, e)
}

/// What covers a state that is true of the frame is true of it.
proof fn lemma_covered(s: State, d: AbsState, o: AbsState, e: Set<u32>)
    requires
        modelled(s, o, e),
        covers(d, o, e),
    ensures
        modelled(s, d, e),
{
    assert forall|i: int| 0 <= i < d.stack.len() implies follows(
        s.stack[top_frame(s).stack_base + i],
        #[trigger] d.stack[i],
        e,
    ) by {
        assert(covers_slot(d.stack[i], o.stack[i], e));
        assert(follows(s.stack[top_frame(s).stack_base + i], o.stack[i], e));
    }
    assert forall|i: int| 0 <= i && top_frame(s).locals_start + i < s.locals.len() implies follows(
        s.locals[top_frame(s).locals_start + i],
        #[trigger] local_at(d.locals, i),
        e,
    ) by {
        assert(covers_slot(local_at(d.locals, i), local_at(o.locals, i), e));
        assert(follows(s.locals[top_frame(s).locals_start + i], local_at(o.locals, i), e));
    }
}

/// The operands that an op hands on are among those that the analysis lets go.
proof fn lemma_handed(op: Op)
    ensures
        handed_on(op) <= op_leaked_pops(Policy::Frame, op),
        op_leaked_pops(Policy::Frame, op) <= op_pops(op),
        !is_plain(op) ==> handed_on(op) == op_pops(op),
{
}

/// The op behind a state that a call came back to.
proof fn lemma_back(s: State, t: State, d: AbsState, e: Set<u32>, op: Op)
    requires
        modelled(s, d, e),
        op_pops(op) <= d.stack.len(),
        !is_plain(op),
        !(op is Return),
        !(op is TailCall),
        comes_back(s, t, op),
    ensures
        modelled(t, step_state(top_frame(s).pc, op, d), e),
{
    let d2 = step_state(top_frame(s).pc, op, d);
    let k = op_pops(op);
    let v = t.stack.last();
    lemma_handed(op);
    assert(t.stack =~= s.stack.take(s.stack.len() - k).push(v));
    assert(d2.stack =~= without_top(d.stack, k).push(Slot::Other));
    lemma_pushed(s, t, d, d2, e, k, v, Slot::Other);
}

/// One move of the frame.
proof fn lemma_in_step(
    p: Program,
    code: Seq<Op>,
    entry: AbsState,
    ds: Seq<Option<AbsState>>,
    e: Set<u32>,
    s: State,
    t: State,
)
    requires
        is_solution(code, entry, Policy::Frame, ds, e),
        depths_agree(code, entry),
        has_operands(code, entry),
        keeps_sites_local(code, e),
        in_step(p, code, ds, e, s),
        moves_on(p, code, s, t),
    ensures
        in_step(p, code, ds, e, t),
{
    let pc = top_frame(s).pc;
    let op = next_op(code, s)->0;
    let d = ds[pc as int]->0;
    let d2 = step_state(pc, op, d);
    assert(derived(code, entry, pc, d));
    assert(on_slab(code[pc as int]) ==> !e.contains(pc as u32));
    assert(interpretable(s, d, e, op));
    if is_plain(op) {
        lemma_plain_modelled(p, s, d, e, op);
        lemma_lands(p, s, op, code.len());
        lemma_plain_steady(p, s, op);
        reveal(stays_modelled);
        reveal(lands);
    } else {
        lemma_back(s, t, d, e, op);
        lemma_falls(pc + 1, code.len());
    }
    assert(modelled(t, d2, e));
    let to = top_frame(t).pc;
    assert(crate::vm::plain::code_len(p, t) == code.len());
    if to < code.len() {
        assert(successors(pc, op, code.len()).contains(to));
        assert(absorbed(ds, to, d2, e));
        lemma_derived_step(code, entry, pc, d, to);
        assert(derived(code, entry, to, ds[to as int]->0));
        lemma_absorbs_covers(ds[to as int]->0, d2, e);
        lemma_covered(t, ds[to as int]->0, d2, e);
    }
}

/// The first state of the frame.
proof fn lemma_fresh_in_step(
    p: Program,
    code: Seq<Op>,
    locals_count: u16,
    arity: u16,
    ds: Seq<Option<AbsState>>,
    e: Set<u32>,
    s: State,
)
    requires
        is_solution(code, entry_state(locals_count, arity), Policy::Frame, ds, e),
        depths_agree(code, entry_state(locals_count, arity)),
        is_fresh(p, code, s),
    ensures
        in_step(p, code, ds, e, s),
{
    let entry = entry_state(locals_count, arity);
    if code.len() > 0 {
        assert forall|i: int| 0 <= i && top_frame(s).locals_start + i
            < s.locals.len() implies follows(
            s.locals[top_frame(s).locals_start + i],
            #[trigger] local_at(entry.locals, i),
            e,
        ) by {
            assert(is_free(s.locals[top_frame(s).locals_start + i]));
        }
        assert(modelled(s, entry, e));
        assert(absorbed(ds, 0, entry, e));
        assert(derivable(code, entry, 0, 0, entry));
        assert(derived(code, entry, 0, ds[0]->0));
        lemma_absorbs_covers(ds[0]->0, entry, e);
        lemma_covered(s, ds[0]->0, entry, e);
    }
}

proof fn lemma_run_in_step(
    p: Program,
    code: Seq<Op>,
    locals_count: u16,
    arity: u16,
    ds: Seq<Option<AbsState>>,
    e: Set<u32>,
    run: Seq<State>,
    k: int,
)
    requires
        is_solution(code, entry_state(locals_count, arity), Policy::Frame, ds, e),
        depths_agree(code, entry_state(locals_count, arity)),
        has_operands(code, entry_state(locals_count, arity)),
        keeps_sites_local(code, e),
        is_frame_run(p, code, run),
        is_fresh(p, code, run[0]),
        0 <= k < run.len(),
    ensures
        in_step(p, code, ds, e, run[k]),
    decreases k,
{
    if k == 0 {
        lemma_fresh_in_step(p, code, locals_count, arity, ds, e, run[0]);
    } else {
        lemma_run_in_step(p, code, locals_count, arity, ds, e, run, k - 1);
        assert(moves_on(p, code, run[k - 1], run[k - 1 + 1]));
        lemma_in_step(
            p,
            code,
            entry_state(locals_count, arity),
            ds,
            e,
            run[k - 1],
            run[k],
        );
    }
}

/// Law: with the aggregates of local sites in the slab of their frame, no value
/// that leaves the frame holds a handle into the slab, however deep: not what
/// is returned, nor an argument of a call, of a tail call, of the call of a
/// closure or of an effect, nor what a closure captures. This holds of every
/// run of the frame, whatever the calls that it makes come back with.
pub proof fn law_local_aggregates_stay_in_their_frame(
    p: Program,
    code: Seq<Op>,
    locals_count: u16,
    arity: u16,
    ds: Seq<Option<AbsState>>,
    e: Set<u32>,
    run: Seq<State>,
    k: int,
)
    requires
        is_solution(code, entry_state(locals_count, arity), Policy::Frame, ds, e),
        depths_agree(code, entry_state(locals_count, arity)),
        has_operands(code, entry_state(locals_count, arity)),
        keeps_sites_local(code, e),
        is_frame_run(p, code, run),
        is_fresh(p, code, run[0]),
        0 <= k < run.len(),
    ensures
        next_op(code, run[k]) matches Some(op) ==> all_free(leaving(run[k], op)),
{
    lemma_run_in_step(p, code, locals_count, arity, ds, e, run, k);
    let s = run[k];
    if let Some(op) = next_op(code, s) {
        let pc = top_frame(s).pc;
        let d = ds[pc as int]->0;
        assert(derived(code, entry_state(locals_count, arity), pc, d));
        lemma_handed(op);
        let n = op_leaked_pops(Policy::Frame, op);
        lemma_leaked(s, d, e, n);
        let w = leaving(s, op);
        let big = s.stack.skip(s.stack.len() - n);
        assert forall|i: int| 0 <= i < w.len() implies is_free(#[trigger] w[i]) by {
            assert(w[i] == big[i + (n - handed_on(op))]);
        }
    }
}

/// The code with some constructors moved to the slab.
pub open spec fn is_lowered(code: Seq<Op>, low: Seq<Op>) -> bool {
    &&& low.len() == code.len()
    &&& forall|i: int|
        0 <= i < code.len() ==> (#[trigger] low[i]) == code[i] || low[i] == on_stack(code[i])
}

/// An op and its form in the slab are interpreted alike.
proof fn lemma_alike(op: Op, pc: nat, d: AbsState, n: nat)
    ensures
        step_state(pc, on_stack(op), d) == step_state(pc, op, d),
        op_pops(on_stack(op)) == op_pops(op),
        op_leaked_pops(Policy::Frame, on_stack(op)) == op_leaked_pops(Policy::Frame, op),
        successors(pc, on_stack(op), n) == successors(pc, op, n),
{
}

proof fn lemma_flows_alike(code: Seq<Op>, low: Seq<Op>, q: nat, t: AbsState, pc: nat, d: AbsState)
    requires
        is_lowered(code, low),
    ensures
        flows(code, q, t, pc, d) == flows(low, q, t, pc, d),
{
    if q < code.len() {
        assert(low[q as int] == code[q as int] || low[q as int] == on_stack(code[q as int]));
        lemma_alike(code[q as int], q, t, code.len());
    }
}

/// Codes that are interpreted alike.
spec fn flow_alike(code: Seq<Op>, low: Seq<Op>) -> bool {
    forall|q: nat, t: AbsState, pc: nat, d: AbsState| #[trigger]
        flows(code, q, t, pc, d) ==> flows(low, q, t, pc, d)
}

proof fn lemma_derivable_alike(
    code: Seq<Op>,
    low: Seq<Op>,
    entry: AbsState,
    h: nat,
    pc: nat,
    d: AbsState,
)
    requires
        flow_alike(code, low),
        derivable(code, entry, h, pc, d),
    ensures
        derivable(low, entry, h, pc, d),
    decreases h,
{
    if h > 0 {
        let g = (h - 1) as nat;
        if derivable(code, entry, g, pc, d) {
            lemma_derivable_alike(code, low, entry, g, pc, d);
        } else if exists|q: nat, t: AbsState| #[trigger]
            flows(code, q, t, pc, d) && derivable(code, entry, g, q, t) {
            let (q, t) = choose|q: nat, t: AbsState| #[trigger]
                flows(code, q, t, pc, d) && derivable(code, entry, g, q, t);
            lemma_derivable_alike(code, low, entry, g, q, t);
            assert(flows(low, q, t, pc, d));
        } else {
            let (a, b) = choose|a: AbsState, b: AbsState|
                d == #[trigger] merge_states(a, b) && derivable(code, entry, g, pc, a)
                    && derivable(code, entry, g, pc, b);
            lemma_derivable_alike(code, low, entry, g, pc, a);
            lemma_derivable_alike(code, low, entry, g, pc, b);
        }
    }
}

proof fn lemma_derived_alike(code: Seq<Op>, low: Seq<Op>, entry: AbsState)
    requires
        is_lowered(code, low),
    ensures
        forall|pc: nat, d: AbsState| #[trigger]
            derived(code, entry, pc, d) == derived(low, entry, pc, d),
        forall|pc: nat, d: AbsState| #[trigger]
            derived(low, entry, pc, d) == derived(code, entry, pc, d),
{
    assert forall|q: nat, t: AbsState, pc: nat, d: AbsState| #[trigger]
        flows(code, q, t, pc, d) implies flows(low, q, t, pc, d) by {
        lemma_flows_alike(code, low, q, t, pc, d);
    }
    assert forall|q: nat, t: AbsState, pc: nat, d: AbsState| #[trigger]
        flows(low, q, t, pc, d) implies flows(code, q, t, pc, d) by {
        lemma_flows_alike(code, low, q, t, pc, d);
    }
    assert forall|pc: nat, d: AbsState| #[trigger] derived(code, entry, pc, d) == derived(
        low,
        entry,
        pc,
        d,
    ) by {
        if derived(code, entry, pc, d) {
            let h = choose|h: nat| derivable(code, entry, h, pc, d);
            lemma_derivable_alike(code, low, entry, h, pc, d);
            assert(derivable(low, entry, h, pc, d));
        }
        if derived(low, entry, pc, d) {
            let h = choose|h: nat| derivable(low, entry, h, pc, d);
            lemma_derivable_alike(low, code, entry, h, pc, d);
            assert(derivable(code, entry, h, pc, d));
        }
    }
}

/// The analysis of the code is one of the lowered code.
proof fn lemma_solution_alike(
    code: Seq<Op>,
    low: Seq<Op>,
    entry: AbsState,
    ds: Seq<Option<AbsState>>,
    e: Set<u32>,
)
    requires
        is_lowered(code, low),
        is_solution(code, entry, Policy::Frame, ds, e),
    ensures
        is_solution(low, entry, Policy::Frame, ds, e),
{
    lemma_derived_alike(code, low, entry);
    assert forall|pc: int| 0 <= pc < ds.len() && (#[trigger] ds[pc]) is Some implies {
        &&& derived(low, entry, pc as nat, ds[pc]->0)
        &&& forall|q: u32|
            step_leaks(Policy::Frame, low[pc], ds[pc]->0, q) ==> #[trigger] e.contains(q)
        &&& forall|s: nat| #[trigger]
            successors(pc as nat, low[pc], low.len()).contains(s) ==> absorbed(
                ds,
                s,
                step_state(pc as nat, low[pc], ds[pc]->0),
                e,
            )
    } by {
        assert(derived(code, entry, pc as nat, ds[pc]->0));
        assert(low[pc] == code[pc] || low[pc] == on_stack(code[pc]));
        lemma_alike(code[pc], pc as nat, ds[pc]->0, code.len());
        assert forall|q: u32| step_leaks(Policy::Frame, low[pc], ds[pc]->0, q) implies
            #[trigger] e.contains(q) by {
            assert(step_leaks(Policy::Frame, code[pc], ds[pc]->0, q));
        }
    }
    assert forall|q: u32| #[trigger] e.contains(q) implies flagged(
        low,
        entry,
        Policy::Frame,
        q,
    ) by {
        assert(flagged(code, entry, Policy::Frame, q));
        if exists|pc: nat, d: AbsState|
            pc < code.len() && #[trigger] derived(code, entry, pc, d) && step_leaks(
                Policy::Frame,
                code[pc as int],
                d,
                q,
            ) {
            let (pc, d) = choose|pc: nat, d: AbsState|
                pc < code.len() && #[trigger] derived(code, entry, pc, d) && step_leaks(
                    Policy::Frame,
                    code[pc as int],
                    d,
                    q,
                );
            assert(low[pc as int] == code[pc as int] || low[pc as int] == on_stack(
                code[pc as int],
            ));
            lemma_alike(code[pc as int], pc, d, code.len());
            assert(derived(low, entry, pc, d));
            assert(step_leaks(Policy::Frame, low[pc as int], d, q));
        } else {
            let (pc, a, b) = choose|pc: nat, a: AbsState, b: AbsState| #[trigger]
                derived(code, entry, pc, a) && #[trigger] derived(code, entry, pc, b)
                    && merge_loses(a, b, q);
            assert(derived(low, entry, pc, a) && derived(low, entry, pc, b));
        }
    }
}

/// The report lists the site at `pc` and says that it does not escape.
pub open spec fn says_local(r: EscapeReport, pc: int) -> bool {
    exists|k: int|
        0 <= k < r.sites@.len() && (#[trigger] r.sites@[k]).pc == pc as u32 && !r.sites@[k].escapes
}

/// Law: where a report says of sites that they do not escape, these can be
/// moved to the slab: in every run of a frame of the function, no value that
/// leaves the frame holds the aggregate that such a site built, however deep.
pub proof fn law_reported_sites_do_not_escape(
    p: Program,
    f: Function,
    r: EscapeReport,
    low: Seq<Op>,
    run: Seq<State>,
    k: int,
)
    requires
        reports(f, Policy::Frame, r),
        !no_sites(f.code@),
        depths_agree(f.code@, entry_state(f.locals_count, f.arity)),
        has_operands(f.code@, entry_state(f.locals_count, f.arity)),
        forall|i: int|
            0 <= i < f.code@.len() ==> !on_slab(#[trigger] f.code@[i]) && !(
            f.code@[i] is LoadLocalAddIntConst),
        is_lowered(f.code@, low),
        forall|i: int|
            0 <= i < low.len() && (#[trigger] low[i]) != f.code@[i] ==> says_local(r, i),
        is_frame_run(p, low, run),
        is_fresh(p, low, run[0]),
        0 <= k < run.len(),
    ensures
        next_op(low, run[k]) matches Some(op) ==> all_free(leaving(run[k], op)),
{
    let code = f.code@;
    let entry = entry_state(f.locals_count, f.arity);
    let (ds, e) = choose|ds: Seq<Option<AbsState>>, e: Set<u32>| #[trigger]
        is_solution(f.code@, entry_state(f.locals_count, f.arity), Policy::Frame, ds, e) && e
            == escaped_sites(f.code@, f.locals_count, f.arity, Policy::Frame) && r.sites@
            == site_list(f.code@, e);
    lemma_sites_alike(code, e, e);
    lemma_solution_alike(code, low, entry, ds, e);
    lemma_derived_alike(code, low, entry);
    assert(depths_agree(low, entry)) by {
        assert forall|pc: nat, a: AbsState, b: AbsState| #[trigger]
            derived(low, entry, pc, a) && #[trigger] derived(low, entry, pc, b) implies
            a.stack.len() == b.stack.len() by {
            assert(derived(code, entry, pc, a) && derived(code, entry, pc, b));
        }
    }
    assert(has_operands(low, entry)) by {
        assert forall|pc: nat, d: AbsState| #[trigger]
            derived(low, entry, pc, d) && pc < low.len() implies op_pops(low[pc as int])
            <= d.stack.len() by {
            assert(derived(code, entry, pc, d));
            assert(low[pc as int] == code[pc as int] || low[pc as int] == on_stack(
                code[pc as int],
            ));
            lemma_alike(code[pc as int], pc, d, code.len());
        }
    }
    assert(keeps_sites_local(low, e)) by {
        assert forall|i: int| 0 <= i < low.len() implies (on_slab(#[trigger] low[i])
            ==> !e.contains(i as u32)) && !(low[i] is LoadLocalAddIntConst) by {
            assert(!on_slab(code[i]));
            if low[i] != code[i] {
                assert(says_local(r, i));
                let j = choose|j: int|
                    0 <= j < r.sites@.len() && (#[trigger] r.sites@[j]).pc == i as u32
                        && !r.sites@[j].escapes;
                assert(site_list(code, e)[j] == r.sites@[j]);
            }
        }
    }
    law_local_aggregates_stay_in_their_frame(
        p,
        low,
        f.locals_count,
        f.arity,
        ds,
        e,
        run,
        k,
    );
}

} // verus!
