//! Ops that work on the running frame alone.
//!
//! Every op is a function from state to state.

use vstd::prelude::*;

use crate::op::{jump_target, Const, Op};
use crate::program::Program;
use crate::text::decimal;
use crate::value::Val;
use crate::vm::arith::{binary, is_unary, unary, Calc, FloatOp};
use crate::vm::fault::{expected_fault, mismatch_fault, Fault, VmError};
use crate::vm::records::{
    addend_const, const_at, const_val, field_of, heap_record, int_const, no_const, slot_of,
    variant_name,
};
use crate::vm::state::{
    drop_top, goto, has_local, local, met, operand, push, set_local, tick, top_frame, top_values,
    with_top_frame, AllocCounts, FrameView, State,
};

verus! {

/// What an op does to a state. A failure comes with the state it leaves.
pub enum Move {
    Go(State),
    Fail(Fault, State),
    /// The result of a float operation is to be pushed on the state.
    Ask(FloatOp, u64, u64, State),
}

/// The executable counterpart of [`Move`], apart from the state.
pub enum Moved {
    Gone,
    Asked(FloatOp, u64, u64),
}

/// The relation between a move and what was done.
pub open spec fn agrees(m: Move, r: Result<Moved, VmError>, after: State) -> bool {
    match r {
        Ok(Moved::Gone) => m == Move::Go(after),
        Ok(Moved::Asked(op, x, y)) => m == Move::Ask(op, x, y, after),
        Err(e) => m == Move::Fail(e@, after),
    }
}

/// The state with the running frame at the next slot.
pub open spec fn next(s: State) -> State {
    goto(s, top_frame(s).pc + 1)
}

/// The state with the running frame `k` slots further on.
pub open spec fn skip(s: State, k: nat) -> State {
    goto(s, top_frame(s).pc + k)
}

pub open spec fn no_local() -> Fault {
    Fault::Panic("local index out of range"@)
}

pub open spec fn no_function() -> Fault {
    Fault::Panic("function index out of range"@)
}

pub open spec fn bad_jump() -> Fault {
    Fault::Panic("jump out of range"@)
}

/// The length of the code of the running function.
pub open spec fn code_len(p: Program, s: State) -> nat {
    if top_frame(s).fn_id < p.functions@.len() {
        p.functions@[top_frame(s).fn_id as int].code@.len()
    } else {
        0
    }
}

/// A result on top of a state.
pub open spec fn settle(s: State, c: Calc) -> Move {
    match c {
        Calc::Value(v) => Move::Go(push(s, v)),
        Calc::Fail(f) => Move::Fail(f, s),
        Calc::Ask(op, x, y) => Move::Ask(op, x, y, s),
    }
}

/// A result or a failure on top of a state.
pub open spec fn settle_result(s: State, r: Result<Val, Fault>) -> Move {
    match r {
        Ok(v) => Move::Go(push(s, v)),
        Err(f) => Move::Fail(f, s),
    }
}

pub open spec fn push_const(p: Program, s: State, i: u32) -> Move {
    match const_at(p, i) {
        Some(c) => Move::Go(push(next(s), const_val(c))),
        None => Move::Fail(no_const(), s),
    }
}

pub open spec fn pop_top(s: State) -> Move {
    if s.stack.len() < 1 {
        Move::Fail(Fault::StackUnderflow, s)
    } else {
        Move::Go(drop_top(next(s), 1))
    }
}

pub open spec fn dup_top(s: State) -> Move {
    if s.stack.len() < 1 {
        Move::Fail(Fault::StackUnderflow, s)
    } else {
        Move::Go(push(next(s), operand(s, 0)))
    }
}

pub open spec fn load_local(s: State, i: u16) -> Move {
    if has_local(s, i) {
        Move::Go(push(next(s), local(s, i)))
    } else {
        Move::Fail(no_local(), s)
    }
}

pub open spec fn take_local(s: State, i: u16) -> Move {
    if has_local(s, i) {
        Move::Go(push(set_local(next(s), i, Val::Unit), local(s, i)))
    } else {
        Move::Fail(no_local(), s)
    }
}

pub open spec fn store_local(s: State, i: u16) -> Move {
    if s.stack.len() < 1 {
        Move::Fail(Fault::StackUnderflow, s)
    } else if has_local(s, i) {
        Move::Go(set_local(drop_top(next(s), 1), i, operand(s, 0)))
    } else {
        Move::Fail(no_local(), s)
    }
}

/// Builds a record on the heap; `counts` are the counters afterwards.
pub open spec fn make_record(
    p: Program,
    s: State,
    shape_idx: u32,
    n: u16,
    counts: AllocCounts,
) -> Move {
    if s.stack.len() < n {
        Move::Fail(Fault::StackUnderflow, s)
    } else {
        settle_result(
            drop_top(State { counts, ..next(s) }, n as nat),
            heap_record(p, shape_idx, top_values(s, n as nat)),
        )
    }
}

/// Builds a tuple on the heap; `counts` are the counters afterwards.
pub open spec fn make_tuple(s: State, n: u16, counts: AllocCounts) -> Move {
    if s.stack.len() < n {
        Move::Fail(Fault::StackUnderflow, s)
    } else {
        Move::Go(
            push(
                drop_top(State { counts, ..next(s) }, n as nat),
                Val::Tuple(top_values(s, n as nat)),
            ),
        )
    }
}

/// Moves the `n` topmost operands to the slab and pushes a handle.
pub open spec fn to_slab(s: State, n: u16, handle: Val) -> Move {
    if s.stack.len() < n {
        Move::Fail(Fault::StackUnderflow, s)
    } else {
        let f = top_frame(s);
        let t = with_top_frame(
            next(s),
            FrameView { pc: f.pc + 1, budget: (f.budget - n) as nat, ..f },
        );
        Move::Go(
            push(
                State {
                    slab: s.slab + top_values(s, n as nat),
                    counts: AllocCounts {
                        stack_record_allocs: tick(s.counts.stack_record_allocs),
                        ..s.counts
                    },
                    ..drop_top(t, n as nat)
                },
                handle,
            ),
        )
    }
}

/// Moves the `n` topmost operands to the arena and pushes a handle.
pub open spec fn to_arena(s: State, n: u16, handle: Val) -> Move {
    if s.stack.len() < n {
        Move::Fail(Fault::StackUnderflow, s)
    } else {
        Move::Go(
            push(
                State {
                    arena: s.arena + top_values(s, n as nat),
                    counts: AllocCounts {
                        arena_record_allocs: tick(s.counts.arena_record_allocs),
                        ..s.counts
                    },
                    ..drop_top(next(s), n as nat)
                },
                handle,
            ),
        )
    }
}

/// A record in the slab while the frame has budget left, else on the heap.
pub open spec fn alloc_stack_record(p: Program, s: State, shape_idx: u32, n: u16) -> Move {
    if top_frame(s).budget < n {
        make_record(
            p,
            s,
            shape_idx,
            n,
            AllocCounts {
                stack_record_heap_fallbacks: tick(s.counts.stack_record_heap_fallbacks),
                ..s.counts
            },
        )
    } else {
        to_slab(
            s,
            n,
            Val::StackRecord {
                shape_id: shape_idx,
                slab_start: s.slab.len() as u32,
                field_count: n,
            },
        )
    }
}

pub open spec fn alloc_stack_tuple(s: State, n: u16) -> Move {
    if top_frame(s).budget < n {
        make_tuple(
            s,
            n,
            AllocCounts {
                stack_record_heap_fallbacks: tick(s.counts.stack_record_heap_fallbacks),
                ..s.counts
            },
        )
    } else {
        to_slab(s, n, Val::StackTuple { slab_start: s.slab.len() as u32, arity: n })
    }
}

/// A record in the arena inside a request scope, else on the heap.
pub open spec fn alloc_arena_record(p: Program, s: State, shape_idx: u32, n: u16) -> Move {
    if s.scopes.len() == 0 {
        make_record(
            p,
            s,
            shape_idx,
            n,
            AllocCounts {
                arena_record_heap_fallbacks: tick(s.counts.arena_record_heap_fallbacks),
                ..s.counts
            },
        )
    } else {
        to_arena(
            s,
            n,
            Val::ArenaRecord {
                shape_id: shape_idx,
                slab_start: s.arena.len() as u32,
                field_count: n,
            },
        )
    }
}

pub open spec fn alloc_arena_tuple(s: State, n: u16) -> Move {
    if s.scopes.len() == 0 {
        make_tuple(
            s,
            n,
            AllocCounts {
                arena_record_heap_fallbacks: tick(s.counts.arena_record_heap_fallbacks),
                ..s.counts
            },
        )
    } else {
        to_arena(s, n, Val::ArenaTuple { slab_start: s.arena.len() as u32, arity: n })
    }
}

pub open spec fn make_list(s: State, n: u32) -> Move {
    if s.stack.len() < n {
        Move::Fail(Fault::StackUnderflow, s)
    } else {
        Move::Go(push(drop_top(next(s), n as nat), Val::List(top_values(s, n as nat))))
    }
}

pub open spec fn make_variant(p: Program, s: State, name_idx: u32, n: u16) -> Move {
    if s.stack.len() < n {
        Move::Fail(Fault::StackUnderflow, s)
    } else {
        match variant_name(p, name_idx) {
            Err(f) => Move::Fail(f, s),
            Ok(name) => Move::Go(
                push(
                    drop_top(next(s), n as nat),
                    Val::Variant { name, args: top_values(s, n as nat) },
                ),
            ),
        }
    }
}

pub open spec fn make_closure(p: Program, s: State, fn_id: u32, n: u16) -> Move {
    if s.stack.len() < n {
        Move::Fail(Fault::StackUnderflow, s)
    } else if fn_id >= p.functions@.len() {
        Move::Fail(no_function(), s)
    } else {
        Move::Go(
            push(
                drop_top(next(s), n as nat),
                Val::Closure {
                    fn_id,
                    body_hash: p.functions@[fn_id as int].body_hash@,
                    captures: top_values(s, n as nat),
                },
            ),
        )
    }
}

pub open spec fn get_field(p: Program, s: State, name_idx: u32, site_idx: u32) -> Move {
    if s.stack.len() < 1 {
        Move::Fail(Fault::StackUnderflow, s)
    } else {
        settle_result(
            drop_top(next(met(s, site_idx, operand(s, 0))), 1),
            field_of(
                p,
                s.slab,
                s.arena,
                operand(s, 0),
                name_idx,
                "GetField on non-record: "@,
                "arena record"@,
            ),
        )
    }
}

pub open spec fn no_elem(i: u16) -> Fault {
    Fault::TypeMismatch("tuple index "@ + decimal(i as nat) + " out of range"@)
}

/// The element of a tuple, wherever its elements lie.
pub open spec fn elem_of(slab: Seq<Val>, arena: Seq<Val>, v: Val, i: u16) -> Result<Val, Fault> {
    match v {
        Val::Tuple(items) => if i < items.len() {
            Ok(items[i as int])
        } else {
            Err(no_elem(i))
        },
        Val::StackTuple { slab_start, arity } => if i >= arity {
            Err(no_elem(i))
        } else {
            slot_of(slab, slab_start, i as int)
        },
        Val::ArenaTuple { slab_start, arity } => if i >= arity {
            Err(no_elem(i))
        } else {
            slot_of(arena, slab_start, i as int)
        },
        _ => Err(mismatch_fault("GetElem on non-tuple: "@, v)),
    }
}

pub open spec fn get_elem(s: State, i: u16) -> Move {
    if s.stack.len() < 1 {
        Move::Fail(Fault::StackUnderflow, s)
    } else {
        settle_result(drop_top(next(s), 1), elem_of(s.slab, s.arena, operand(s, 0), i))
    }
}

pub open spec fn test_variant(p: Program, s: State, i: u32) -> Move {
    match variant_name(p, i) {
        Err(f) => Move::Fail(f, s),
        Ok(name) => if s.stack.len() < 1 {
            Move::Fail(Fault::StackUnderflow, s)
        } else {
            match operand(s, 0) {
                Val::Variant { name: tag, .. } => Move::Go(
                    push(drop_top(next(s), 1), Val::Bool(tag == name)),
                ),
                other => Move::Fail(mismatch_fault("TestVariant on non-variant: "@, other), s),
            }
        },
    }
}

/// Goes to a slot relative to `base`.
pub open spec fn jump(p: Program, s: State, base: nat, off: i32) -> Move {
    match jump_target(base, off, code_len(p, s)) {
        Some(t) => Move::Go(goto(s, t)),
        None => Move::Fail(bad_jump(), s),
    }
}

/// Pops a truth value and jumps if it is `when`.
pub open spec fn jump_when(p: Program, s: State, when: bool, off: i32) -> Move {
    if s.stack.len() < 1 {
        Move::Fail(Fault::StackUnderflow, s)
    } else {
        match operand(s, 0) {
            Val::Bool(b) => if b == when {
                jump(p, drop_top(s, 1), top_frame(s).pc + 1, off)
            } else {
                Move::Go(drop_top(next(s), 1))
            },
            other => Move::Fail(expected_fault("Bool"@, other), s),
        }
    }
}

pub open spec fn unary_op(s: State, op: Op) -> Move {
    if s.stack.len() < 1 {
        Move::Fail(Fault::StackUnderflow, s)
    } else {
        settle(drop_top(next(s), 1), unary(op, operand(s, 0)))
    }
}

pub open spec fn binary_op(s: State, op: Op) -> Move {
    if s.stack.len() < 2 {
        Move::Fail(Fault::StackUnderflow, s)
    } else {
        settle(drop_top(next(s), 2), binary(op, operand(s, 1), operand(s, 0)))
    }
}

/// Aborts with a constant message.
pub open spec fn panic_op(p: Program, s: State, i: u32) -> Move {
    match const_at(p, i) {
        None => Move::Fail(no_const(), s),
        Some(Const::Str(text)) => Move::Fail(Fault::Panic(text@), s),
        _ => Move::Fail(Fault::Panic("panic"@), s),
    }
}

/// An integer in a local.
pub open spec fn int_local(s: State, i: u16) -> Result<i64, Fault> {
    if !has_local(s, i) {
        Err(no_local())
    } else {
        match local(s, i) {
            Val::Int(n) => Ok(n),
            other => Err(expected_fault("Int"@, other)),
        }
    }
}

pub open spec fn fused_add_const(p: Program, s: State, i: u16, c: u32) -> Move {
    match int_local(s, i) {
        Err(f) => Move::Fail(f, s),
        Ok(a) => match addend_const(p, c, "LoadLocalAddIntConst expected Int const, got "@) {
            Err(f) => Move::Fail(f, s),
            Ok(b) => Move::Go(push(skip(s, 3), Val::Int(a.wrapping_add(b)))),
        },
    }
}

pub open spec fn fused_add_const_store(p: Program, s: State, src: u16, c: u32, dest: u16) -> Move {
    match int_local(s, src) {
        Err(f) => Move::Fail(f, s),
        Ok(a) => match addend_const(
            p,
            c,
            "LoadLocalAddIntConstStoreLocal expected Int const, got "@,
        ) {
            Err(f) => Move::Fail(f, s),
            Ok(b) => if has_local(s, dest) {
                Move::Go(set_local(skip(s, 4), dest, Val::Int(a.wrapping_add(b))))
            } else {
                Move::Fail(no_local(), s)
            },
        },
    }
}

/// An integer op on two locals.
pub open spec fn fused_locals(s: State, op: Op, lhs: u16, rhs: u16) -> Move {
    match int_local(s, lhs) {
        Err(f) => Move::Fail(f, s),
        Ok(a) => match int_local(s, rhs) {
            Err(f) => Move::Fail(f, s),
            Ok(b) => settle(skip(s, 3), binary(op, Val::Int(a), Val::Int(b))),
        },
    }
}

pub open spec fn fused_eq_jump(p: Program, s: State, i: u16, c: u32, off: i32) -> Move {
    match int_local(s, i) {
        Err(f) => Move::Fail(f, s),
        Ok(a) => match int_const(p, c, "LoadLocalEqIntConstJumpIfNot expects Const::Int"@) {
            Err(f) => Move::Fail(f, s),
            Ok(b) => if a == b {
                Move::Go(skip(s, 4))
            } else {
                jump(p, s, top_frame(s).pc + 4, off)
            },
        },
    }
}

pub open spec fn fused_store_eq_jump(
    p: Program,
    s: State,
    src: u16,
    dst: u16,
    c: u32,
    off: i32,
) -> Move {
    match int_local(s, src) {
        Err(f) => Move::Fail(f, s),
        Ok(a) => if !has_local(s, dst) {
            Move::Fail(no_local(), s)
        } else {
            let t = set_local(s, dst, Val::Int(a));
            match int_const(p, c, "LoadLocalStoreEqIntConstJumpIfNot expects Const::Int"@) {
                Err(f) => Move::Fail(f, t),
                Ok(b) => if a == b {
                    Move::Go(skip(t, 6))
                } else {
                    jump(p, t, top_frame(s).pc + 6, off)
                },
            }
        },
    }
}

/// The field of a record in a local.
pub open spec fn local_field(p: Program, s: State, i: u16, name_idx: u32,
    what: Seq<char>) -> Result<
    Val,
    Fault,
> {
    if !has_local(s, i) {
        Err(no_local())
    } else {
        field_of(p, s.slab, s.arena, local(s, i), name_idx, what, "stack record"@)
    }
}

/// The state after a site met the value of a local.
pub open spec fn met_local(s: State, site_idx: u32, i: u16) -> State {
    if has_local(s, i) {
        met(s, site_idx, local(s, i))
    } else {
        s
    }
}

pub open spec fn fused_field(p: Program, s: State, i: u16, name_idx: u32, site_idx: u32) -> Move {
    settle_result(
        skip(met_local(s, site_idx, i), 2),
        local_field(p, s, i, name_idx, "LoadLocalGetField on non-record: "@),
    )
}

/// An integer op on the topmost operand and the field of a record in a local.
pub open spec fn fused_field_op(
    p: Program,
    s: State,
    op: Op,
    i: u16,
    name_idx: u32,
    site_idx: u32,
    what: Seq<char>,
) -> Move {
    if s.stack.len() < 1 {
        Move::Fail(Fault::StackUnderflow, s)
    } else {
        match operand(s, 0) {
            Val::Int(acc) => match local_field(p, s, i, name_idx, what) {
                Err(f) => Move::Fail(f, met_local(s, site_idx, i)),
                Ok(Val::Int(b)) => settle(
                    drop_top(skip(met_local(s, site_idx, i), 3), 1),
                    binary(op, Val::Int(acc), Val::Int(b)),
                ),
                Ok(other) => Move::Fail(
                    expected_fault("Int"@, other),
                    met_local(s, site_idx, i),
                ),
            },
            other => Move::Fail(expected_fault("Int"@, other), s),
        }
    }
}

/// The ops of [`plain`].
pub open spec fn is_plain(op: Op) -> bool {
    match op {
        Op::Call { .. }
        | Op::TailCall { .. }
        | Op::CallClosure { .. }
        | Op::SortByKey { .. }
        | Op::ParallelMap { .. }
        | Op::ListMap { .. }
        | Op::ListFilter { .. }
        | Op::ListFold { .. }
        | Op::EffectCall { .. }
        | Op::Return => false,
        _ => true,
    }
}

/// What an op that works on the running frame alone does.
pub open spec fn plain(p: Program, s: State, op: Op) -> Move {
    match op {
        Op::PushConst(i) => push_const(p, s, i),
        Op::Pop => pop_top(s),
        Op::Dup => dup_top(s),
        Op::LoadLocal(i) => load_local(s, i),
        Op::TakeLocal(i) => take_local(s, i),
        Op::StoreLocal(i) => store_local(s, i),
        Op::MakeRecord { shape_idx, field_count } => make_record(
            p,
            s,
            shape_idx,
            field_count,
            AllocCounts { heap_record_allocs: tick(s.counts.heap_record_allocs), ..s.counts },
        ),
        Op::AllocStackRecord { shape_idx, field_count } => alloc_stack_record(
            p,
            s,
            shape_idx,
            field_count,
        ),
        Op::AllocArenaRecord { shape_idx, field_count } => alloc_arena_record(
            p,
            s,
            shape_idx,
            field_count,
        ),
        Op::MakeTuple(n) => make_tuple(s, n, s.counts),
        Op::AllocStackTuple { arity } => alloc_stack_tuple(s, arity),
        Op::AllocArenaTuple { arity } => alloc_arena_tuple(s, arity),
        Op::MakeList(n) => make_list(s, n),
        Op::MakeVariant { name_idx, arity } => make_variant(p, s, name_idx, arity),
        Op::MakeClosure { fn_id, capture_count } => make_closure(p, s, fn_id, capture_count),
        Op::GetField { name_idx, site_idx } => get_field(p, s, name_idx, site_idx),
        Op::GetElem(i) => get_elem(s, i),
        Op::TestVariant(i) => test_variant(p, s, i),
        Op::Jump(off) => jump(p, s, top_frame(s).pc + 1, off),
        Op::JumpIf(off) => jump_when(p, s, true, off),
        Op::JumpIfNot(off) => jump_when(p, s, false, off),
        Op::Panic(i) => panic_op(p, s, i),
        Op::LoadLocalAddIntConst { local_idx, imm_const_idx } => fused_add_const(
            p,
            s,
            local_idx,
            imm_const_idx,
        ),
        Op::LoadLocalAddIntConstStoreLocal { src, imm_const_idx, dest } => fused_add_const_store(
            p,
            s,
            src,
            imm_const_idx,
            dest,
        ),
        Op::LoadLocalAddLocal { lhs_idx, rhs_idx } => fused_locals(s, Op::IntAdd, lhs_idx, rhs_idx),
        Op::LoadLocalSubLocal { lhs_idx, rhs_idx } => fused_locals(s, Op::IntSub, lhs_idx, rhs_idx),
        Op::LoadLocalMulLocal { lhs_idx, rhs_idx } => fused_locals(s, Op::IntMul, lhs_idx, rhs_idx),
        Op::LoadLocalEqIntConstJumpIfNot { local_idx, imm_const_idx, jump_offset } => fused_eq_jump(
            p,
            s,
            local_idx,
            imm_const_idx,
            jump_offset,
        ),
        Op::LoadLocalStoreEqIntConstJumpIfNot { src, dst, imm_const_idx, jump_offset } =>
            fused_store_eq_jump(p, s, src, dst, imm_const_idx, jump_offset),
        Op::LoadLocalGetField { local_idx, name_idx, site_idx } => fused_field(
            p,
            s,
            local_idx,
            name_idx,
            site_idx,
        ),
        Op::LoadLocalGetFieldAdd { local_idx, name_idx, site_idx } => fused_field_op(
            p,
            s,
            Op::IntAdd,
            local_idx,
            name_idx,
            site_idx,
            "LoadLocalGetFieldAdd on non-record: "@,
        ),
        Op::LoadLocalGetFieldSub { local_idx, name_idx, site_idx } => fused_field_op(
            p,
            s,
            Op::IntSub,
            local_idx,
            name_idx,
            site_idx,
            "LoadLocalGetFieldSub on non-record: "@,
        ),
        Op::LoadLocalGetFieldMul { local_idx, name_idx, site_idx } => fused_field_op(
            p,
            s,
            Op::IntMul,
            local_idx,
            name_idx,
            site_idx,
            "LoadLocalGetFieldMul on non-record: "@,
        ),
        _ => if is_unary(op) {
            unary_op(s, op)
        } else {
            binary_op(s, op)
        },
    }
}

} // verus!
