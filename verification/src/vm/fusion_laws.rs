//! A superinstruction does what the ops of its window do.

use vstd::prelude::*;

use crate::op::Op;
use crate::program::Program;
use crate::vm::plain::{plain, Move};
use crate::vm::state::State;

verus! {

/// What an op that works on the running frame alone does.
#[verifier::opaque]
pub open spec fn does(p: Program, s: State, op: Op) -> Move {
    plain(p, s, op)
}

/// One more op, if the ops before it went through.
pub open spec fn chain(p: Program, m: Move, op: Op) -> Move {
    match m {
        Move::Go(s) => does(p, s, op),
        other => other,
    }
}

/// The ops of the window of a superinstruction, one after the other.
pub open spec fn window(p: Program, s: State, op: Op) -> Move {
    match op {
        Op::LoadLocalAddIntConst { local_idx, imm_const_idx } => chain(
            p,
            chain(p, does(p, s, Op::LoadLocal(local_idx)), Op::PushConst(imm_const_idx)),
            Op::IntAdd,
        ),
        Op::LoadLocalAddIntConstStoreLocal { src, imm_const_idx, dest } => chain(
            p,
            chain(
                p,
                chain(p, does(p, s, Op::LoadLocal(src)), Op::PushConst(imm_const_idx)),
                Op::IntAdd,
            ),
            Op::StoreLocal(dest),
        ),
        Op::LoadLocalAddLocal { lhs_idx, rhs_idx } => chain(
            p,
            chain(p, does(p, s, Op::LoadLocal(lhs_idx)), Op::LoadLocal(rhs_idx)),
            Op::IntAdd,
        ),
        Op::LoadLocalSubLocal { lhs_idx, rhs_idx } => chain(
            p,
            chain(p, does(p, s, Op::LoadLocal(lhs_idx)), Op::LoadLocal(rhs_idx)),
            Op::IntSub,
        ),
        Op::LoadLocalMulLocal { lhs_idx, rhs_idx } => chain(
            p,
            chain(p, does(p, s, Op::LoadLocal(lhs_idx)), Op::LoadLocal(rhs_idx)),
            Op::IntMul,
        ),
        Op::LoadLocalEqIntConstJumpIfNot { local_idx, imm_const_idx, jump_offset } => chain(
            p,
            chain(
                p,
                chain(p, does(p, s, Op::LoadLocal(local_idx)), Op::PushConst(imm_const_idx)),
                Op::IntEq,
            ),
            Op::JumpIfNot(jump_offset),
        ),
        Op::LoadLocalStoreEqIntConstJumpIfNot { src, dst, imm_const_idx, jump_offset } => chain(
            p,
            chain(
                p,
                chain(
                    p,
                    chain(
                        p,
                        chain(p, does(p, s, Op::LoadLocal(src)), Op::StoreLocal(dst)),
                        Op::LoadLocal(dst),
                    ),
                    Op::PushConst(imm_const_idx),
                ),
                Op::IntEq,
            ),
            Op::JumpIfNot(jump_offset),
        ),
        Op::LoadLocalGetFieldAdd { local_idx, name_idx, site_idx } => chain(
            p,
            chain(p, does(p, s, Op::LoadLocal(local_idx)), Op::GetField { name_idx, site_idx }),
            Op::IntAdd,
        ),
        Op::LoadLocalGetFieldSub { local_idx, name_idx, site_idx } => chain(
            p,
            chain(p, does(p, s, Op::LoadLocal(local_idx)), Op::GetField { name_idx, site_idx }),
            Op::IntSub,
        ),
        Op::LoadLocalGetFieldMul { local_idx, name_idx, site_idx } => chain(
            p,
            chain(p, does(p, s, Op::LoadLocal(local_idx)), Op::GetField { name_idx, site_idx }),
            Op::IntMul,
        ),
        Op::LoadLocalGetField { local_idx, name_idx, site_idx } => chain(
            p,
            does(p, s, Op::LoadLocal(local_idx)),
            Op::GetField { name_idx, site_idx },
        ),
        _ => does(p, s, op),
    }
}

/// Two moves that go through to the same state, or both do not go through.
pub open spec fn same_progress(a: Move, b: Move) -> bool {
    a is Go <==> b is Go && (a is Go ==> a == b)
}

/// Two states with the same parts are the same.
proof fn lemma_same_state(a: State, b: State)
    requires
        a.stack =~= b.stack,
        a.frames =~= b.frames,
        a.locals =~= b.locals,
        a.slab == b.slab,
        a.arena == b.arena,
        a.scopes == b.scopes,
        a.counts == b.counts,
        a.hits == b.hits,
    ensures
        a == b,
{
}

proof fn lemma_ends(p: Program, s: State, op: Op)
    requires
        window(p, s, op) is Go && plain(p, s, op) is Go ==> ({
            let a = window(p, s, op)->Go_0;
            let b = plain(p, s, op)->Go_0;
            a.slab == b.slab && a.arena == b.arena && a.scopes == b.scopes && a.counts == b.counts
                && a.hits == b.hits
                && a.stack =~= b.stack && a.frames =~= b.frames && a.locals =~= b.locals
        }),
        window(p, s, op) is Go <==> plain(p, s, op) is Go,
    ensures
        same_progress(window(p, s, op), plain(p, s, op)),
{
    if window(p, s, op) is Go {
        lemma_same_state(window(p, s, op)->Go_0, plain(p, s, op)->Go_0);
    }
}

proof fn lemma_add_const(p: Program, s: State, op: Op)
    requires
        s.frames.len() > 0,
        op is LoadLocalAddIntConst,
    ensures
        same_progress(window(p, s, op), plain(p, s, op)),
{
    reveal(does);
    lemma_ends(p, s, op);
}

proof fn lemma_add_const_store(p: Program, s: State, op: Op)
    requires
        s.frames.len() > 0,
        op is LoadLocalAddIntConstStoreLocal,
    ensures
        same_progress(window(p, s, op), plain(p, s, op)),
{
    reveal(does);
    lemma_ends(p, s, op);
}

proof fn lemma_add_local(p: Program, s: State, op: Op)
    requires
        s.frames.len() > 0,
        op is LoadLocalAddLocal,
    ensures
        same_progress(window(p, s, op), plain(p, s, op)),
{
    reveal(does);
    lemma_ends(p, s, op);
}

proof fn lemma_sub_local(p: Program, s: State, op: Op)
    requires
        s.frames.len() > 0,
        op is LoadLocalSubLocal,
    ensures
        same_progress(window(p, s, op), plain(p, s, op)),
{
    reveal(does);
    lemma_ends(p, s, op);
}

proof fn lemma_mul_local(p: Program, s: State, op: Op)
    requires
        s.frames.len() > 0,
        op is LoadLocalMulLocal,
    ensures
        same_progress(window(p, s, op), plain(p, s, op)),
{
    reveal(does);
    lemma_ends(p, s, op);
}

proof fn lemma_eq_jump(p: Program, s: State, op: Op)
    requires
        s.frames.len() > 0,
        op is LoadLocalEqIntConstJumpIfNot,
    ensures
        same_progress(window(p, s, op), plain(p, s, op)),
{
    reveal(does);
    lemma_ends(p, s, op);
}

proof fn lemma_store_eq_jump(p: Program, s: State, op: Op)
    requires
        s.frames.len() > 0,
        op is LoadLocalStoreEqIntConstJumpIfNot,
    ensures
        same_progress(window(p, s, op), plain(p, s, op)),
{
    reveal(does);
    lemma_ends(p, s, op);
}

proof fn lemma_field_add(p: Program, s: State, op: Op)
    requires
        s.frames.len() > 0,
        op is LoadLocalGetFieldAdd,
    ensures
        same_progress(window(p, s, op), plain(p, s, op)),
{
    reveal(does);
    lemma_ends(p, s, op);
}

proof fn lemma_field_sub(p: Program, s: State, op: Op)
    requires
        s.frames.len() > 0,
        op is LoadLocalGetFieldSub,
    ensures
        same_progress(window(p, s, op), plain(p, s, op)),
{
    reveal(does);
    lemma_ends(p, s, op);
}

proof fn lemma_field_mul(p: Program, s: State, op: Op)
    requires
        s.frames.len() > 0,
        op is LoadLocalGetFieldMul,
    ensures
        same_progress(window(p, s, op), plain(p, s, op)),
{
    reveal(does);
    lemma_ends(p, s, op);
}

proof fn lemma_field(p: Program, s: State, op: Op)
    requires
        s.frames.len() > 0,
        op is LoadLocalGetField,
    ensures
        same_progress(window(p, s, op), plain(p, s, op)),
{
    reveal(does);
    lemma_ends(p, s, op);
}

/// Law: a superinstruction goes through exactly if the ops of its window do,
/// and leads to the same state: the same operands, locals and slot of the code.
pub proof fn law_fused_op_is_its_window(p: Program, s: State, op: Op)
    requires
        s.frames.len() > 0,
    ensures
        same_progress(window(p, s, op), plain(p, s, op)),
{
    match op {
        Op::LoadLocalAddIntConst { .. } => lemma_add_const(p, s, op),
        Op::LoadLocalAddIntConstStoreLocal { .. } => lemma_add_const_store(p, s, op),
        Op::LoadLocalAddLocal { .. } => lemma_add_local(p, s, op),
        Op::LoadLocalSubLocal { .. } => lemma_sub_local(p, s, op),
        Op::LoadLocalMulLocal { .. } => lemma_mul_local(p, s, op),
        Op::LoadLocalEqIntConstJumpIfNot { .. } => lemma_eq_jump(p, s, op),
        Op::LoadLocalStoreEqIntConstJumpIfNot { .. } => lemma_store_eq_jump(p, s, op),
        Op::LoadLocalGetFieldAdd { .. } => lemma_field_add(p, s, op),
        Op::LoadLocalGetFieldSub { .. } => lemma_field_sub(p, s, op),
        Op::LoadLocalGetFieldMul { .. } => lemma_field_mul(p, s, op),
        Op::LoadLocalGetField { .. } => lemma_field(p, s, op),
        _ => {
            reveal(does);
        },
    }
}

} // verus!
