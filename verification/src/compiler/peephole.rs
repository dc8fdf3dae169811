//! Fusion of common op windows into superinstructions.
//!
//! Every pass scans a body from left to right. Where a window matches, its
//! first op becomes the superinstruction and the scan goes on behind the
//! window; the other ops of the window stay in place as tombstones. No
//! tombstone may be the target of a jump.

use std::collections::HashSet;
use vstd::prelude::*;

use crate::op::{canonical, canonical_code, Const, Op};

verus! {

broadcast use vstd::std_specs::hash::group_hash_axioms;

/// The offset of a plain jump.
pub open spec fn jump_offset(op: Op) -> Option<i32> {
    match op {
        Op::Jump(off) | Op::JumpIf(off) | Op::JumpIfNot(off) => Some(off),
        _ => None,
    }
}

/// The jump at `pc` leads to `t`.
pub open spec fn jumps_to(code: Seq<Op>, pc: int, t: nat) -> bool {
    &&& 0 <= pc < code.len()
    &&& jump_offset(code[pc]) is Some
    &&& pc + 1 + jump_offset(code[pc])->0 == t
}

/// Some jump leads to `t`.
pub open spec fn is_target(code: Seq<Op>, t: nat) -> bool {
    exists|pc: int| #[trigger] jumps_to(code, pc, t)
}

/// No jump leads behind the first slot of the window of `w` slots at `k`.
pub open spec fn window_is_free(code: Seq<Op>, k: int, w: int) -> bool {
    forall|t: nat| k < t < k + w ==> !#[trigger] is_target(code, t)
}

/// The targets of all jumps, wherever they lie.
pub fn collect_jump_targets(code: &Vec<Op>) -> (targets: HashSet<usize>)
    ensures
        forall|t: usize| #[trigger] targets@.contains(t) <==> is_target(code@, t as nat),
{
    let mut targets: HashSet<usize> = HashSet::new();
    let mut pc: usize = 0;
    while pc < code.len()
        invariant
            pc <= code.len(),
            forall|t: usize| #[trigger]
                targets@.contains(t) <==> exists|q: int|
                    q < pc && #[trigger] jumps_to(code@, q, t as nat),
        decreases code.len() - pc,
    {
        let ghost before = targets@;
        let off: Option<i32> = match code[pc] {
            Op::Jump(off) | Op::JumpIf(off) | Op::JumpIfNot(off) => Some(off),
            _ => None,
        };
        if let Some(off) = off {
            let target: i128 = pc as i128 + 1 + off as i128;
            if 0 <= target && target <= usize::MAX as i128 {
                targets.insert(target as usize);
            }
        }
        proof {
            assert forall|t: usize| #[trigger]
                targets@.contains(t) <==> exists|q: int|
                    q < pc + 1 && #[trigger] jumps_to(code@, q, t as nat) by {
                assert(targets@.contains(t) <==> before.contains(t) || jumps_to(
                    code@,
                    pc as int,
                    t as nat,
                ));
            }
        }
        pc = pc + 1;
    }
    assert forall|t: usize| #[trigger] targets@.contains(t) <==> is_target(code@, t as nat) by {
        if is_target(code@, t as nat) {
            let q = choose|q: int| #[trigger] jumps_to(code@, q, t as nat);
            assert(q < pc);
        }
    }
    targets
}

fn window_free(targets: &HashSet<usize>, Ghost(code): Ghost<Seq<Op>>, k: usize, w: usize) -> (free:
    bool)
    requires
        k + w <= usize::MAX,
        forall|t: usize| #[trigger] targets@.contains(t) <==> is_target(code, t as nat),
    ensures
        free <==> window_is_free(code, k as int, w as int),
{
    let mut j: usize = 1;
    while j < w
        invariant
            k + w <= usize::MAX,
            1 <= j,
            forall|t: usize| #[trigger] targets@.contains(t) <==> is_target(code, t as nat),
            forall|t: nat| k < t < k + j && t < k + w ==> !#[trigger] is_target(code, t),
        decreases w - j,
    {
        if targets.contains(&(k + j)) {
            assert(is_target(code, (k + j) as nat));
            return false;
        }
        assert(!is_target(code, (k + j) as nat));
        j = j + 1;
    }
    true
}

/// Left-to-right scan with a window of `w` slots: where `rule` gives an op for
/// a position, it takes that position and the scan skips the window.
pub open spec fn fuse(code: Seq<Op>, k: int, w: int, rule: spec_fn(int) -> Option<Op>) -> Seq<Op>
    decreases code.len() - k,
{
    if k < 0 || w <= 0 || k + w > code.len() {
        code
    } else {
        match rule(k) {
            Some(op) => fuse(code.update(k, op), k + w, w, rule),
            None => fuse(code, k + 1, w, rule),
        }
    }
}

/// `LoadLocal, PushConst of an Int, IntAdd`.
pub open spec fn add_const_rule(code: Seq<Op>, constants: Seq<Const>, k: int) -> Option<Op> {
    match (code[k], code[k + 1], code[k + 2]) {
        (Op::LoadLocal(local_idx), Op::PushConst(imm_const_idx), Op::IntAdd) => if imm_const_idx
            < constants.len() && constants[imm_const_idx as int] is Int && window_is_free(
            code,
            k,
            3,
        ) {
            Some(Op::LoadLocalAddIntConst { local_idx, imm_const_idx })
        } else {
            None
        },
        _ => None,
    }
}

/// `LoadLocalAddIntConst` with its tombstones, `StoreLocal`.
pub open spec fn add_const_store_rule(code: Seq<Op>, k: int) -> Option<Op> {
    match (code[k], code[k + 3]) {
        (
            Op::LoadLocalAddIntConst { local_idx, imm_const_idx },
            Op::StoreLocal(dest),
        ) => if window_is_free(code, k, 4) {
            Some(Op::LoadLocalAddIntConstStoreLocal { src: local_idx, imm_const_idx, dest })
        } else {
            None
        },
        _ => None,
    }
}

/// `LoadLocal, LoadLocal, IntAdd`.
pub open spec fn add_locals_rule(code: Seq<Op>, k: int) -> Option<Op> {
    match (code[k], code[k + 1], code[k + 2]) {
        (Op::LoadLocal(lhs_idx), Op::LoadLocal(rhs_idx), Op::IntAdd) => if window_is_free(
            code,
            k,
            3,
        ) {
            Some(Op::LoadLocalAddLocal { lhs_idx, rhs_idx })
        } else {
            None
        },
        _ => None,
    }
}

/// `LoadLocal, LoadLocal, IntSub` or `IntMul`.
pub open spec fn sub_mul_locals_rule(code: Seq<Op>, k: int) -> Option<Op> {
    match (code[k], code[k + 1], code[k + 2]) {
        (Op::LoadLocal(lhs_idx), Op::LoadLocal(rhs_idx), Op::IntSub) => if window_is_free(
            code,
            k,
            3,
        ) {
            Some(Op::LoadLocalSubLocal { lhs_idx, rhs_idx })
        } else {
            None
        },
        (Op::LoadLocal(lhs_idx), Op::LoadLocal(rhs_idx), Op::IntMul) => if window_is_free(
            code,
            k,
            3,
        ) {
            Some(Op::LoadLocalMulLocal { lhs_idx, rhs_idx })
        } else {
            None
        },
        _ => None,
    }
}

/// `LoadLocal, PushConst of an Int, IntEq, JumpIfNot`.
pub open spec fn eq_const_jump_rule(code: Seq<Op>, constants: Seq<Const>, k: int) -> Option<Op> {
    match (code[k], code[k + 1], code[k + 2], code[k + 3]) {
        (
            Op::LoadLocal(local_idx),
            Op::PushConst(imm_const_idx),
            Op::IntEq,
            Op::JumpIfNot(jump_offset),
        ) => if imm_const_idx < constants.len() && constants[imm_const_idx as int] is Int
            && window_is_free(code, k, 4) {
            Some(Op::LoadLocalEqIntConstJumpIfNot { local_idx, imm_const_idx, jump_offset })
        } else {
            None
        },
        _ => None,
    }
}

/// `LoadLocal, StoreLocal`, and the fused test of the local just stored.
pub open spec fn store_eq_jump_rule(code: Seq<Op>, k: int) -> Option<Op> {
    match (code[k], code[k + 1], code[k + 2]) {
        (
            Op::LoadLocal(src),
            Op::StoreLocal(dst),
            Op::LoadLocalEqIntConstJumpIfNot { local_idx, imm_const_idx, jump_offset },
        ) => if local_idx == dst && window_is_free(code, k, 3) {
            Some(
                Op::LoadLocalStoreEqIntConstJumpIfNot { src, dst, imm_const_idx, jump_offset },
            )
        } else {
            None
        },
        _ => None,
    }
}

/// `LoadLocal, GetField, IntAdd`, `IntSub` or `IntMul`.
pub open spec fn field_arith_rule(code: Seq<Op>, k: int) -> Option<Op> {
    match (code[k], code[k + 1]) {
        (Op::LoadLocal(local_idx), Op::GetField { name_idx, site_idx }) => if window_is_free(
            code,
            k,
            3,
        ) {
            match code[k + 2] {
                Op::IntAdd => Some(Op::LoadLocalGetFieldAdd { local_idx, name_idx, site_idx }),
                Op::IntSub => Some(Op::LoadLocalGetFieldSub { local_idx, name_idx, site_idx }),
                Op::IntMul => Some(Op::LoadLocalGetFieldMul { local_idx, name_idx, site_idx }),
                _ => None,
            }
        } else {
            None
        },
        _ => None,
    }
}

/// `LoadLocal, GetField`.
pub open spec fn field_rule(code: Seq<Op>, k: int) -> Option<Op> {
    match (code[k], code[k + 1]) {
        (Op::LoadLocal(local_idx), Op::GetField { name_idx, site_idx }) => if window_is_free(
            code,
            k,
            2,
        ) {
            Some(Op::LoadLocalGetField { local_idx, name_idx, site_idx })
        } else {
            None
        },
        _ => None,
    }
}

fn is_int_const(constants: &Vec<Const>, i: u32) -> (yes: bool)
    ensures
        yes <==> i < constants@.len() && constants@[i as int] is Int,
{
    if (i as usize) < constants.len() {
        matches!(constants[i as usize], Const::Int(_))
    } else {
        false
    }
}

/// Fuses the addition of an integer constant to a local.
pub fn apply_peephole(code: &mut Vec<Op>, constants: &Vec<Const>)
    ensures
        final(code)@ == fuse(old(code)@, 0, 3, |k: int| add_const_rule(old(code)@, constants@, k)),
{
    let ghost c0 = code@;
    let targets = collect_jump_targets(code);
    let ghost rule = |k: int| add_const_rule(c0, constants@, k);
    let mut k: usize = 0;
    while code.len() >= 3 && k <= code.len() - 3
        invariant
            code@.len() == c0.len(),
            k <= code@.len(),
            rule == (|k: int| add_const_rule(c0, constants@, k)),
            forall|t: usize| #[trigger] targets@.contains(t) <==> is_target(c0, t as nat),
            forall|i: int| k <= i < code@.len() ==> code@[i] == c0[i],
            fuse(code@, k as int, 3, rule) == fuse(c0, 0, 3, rule),
        decreases code.len() - k,
    {
        let fused: Option<Op> = match (code[k], code[k + 1], code[k + 2]) {
            (Op::LoadLocal(local_idx), Op::PushConst(imm_const_idx), Op::IntAdd) => {
                if is_int_const(constants, imm_const_idx) && window_free(
                    &targets,
                    Ghost(c0),
                    k,
                    3,
                ) {
                    Some(Op::LoadLocalAddIntConst { local_idx, imm_const_idx })
                } else {
                    None
                }
            },
            _ => None,
        };
        assert(fused == rule(k as int));
        if let Some(op) = fused {
            code.set(k, op);
            k = k + 3;
        } else {
            k = k + 1;
        }
    }
}

/// Fuses such an addition with the store that follows it.
pub fn apply_peephole_slice2(code: &mut Vec<Op>)
    ensures
        final(code)@ == fuse(old(code)@, 0, 4, |k: int| add_const_store_rule(old(code)@, k)),
{
    let ghost c0 = code@;
    let targets = collect_jump_targets(code);
    let ghost rule = |k: int| add_const_store_rule(c0, k);
    let mut k: usize = 0;
    while code.len() >= 4 && k <= code.len() - 4
        invariant
            code@.len() == c0.len(),
            k <= code@.len(),
            rule == (|k: int| add_const_store_rule(c0, k)),
            forall|t: usize| #[trigger] targets@.contains(t) <==> is_target(c0, t as nat),
            forall|i: int| k <= i < code@.len() ==> code@[i] == c0[i],
            fuse(code@, k as int, 4, rule) == fuse(c0, 0, 4, rule),
        decreases code.len() - k,
    {
        let fused: Option<Op> = match (code[k], code[k + 3]) {
            (Op::LoadLocalAddIntConst { local_idx, imm_const_idx }, Op::StoreLocal(dest)) => {
                if window_free(&targets, Ghost(c0), k, 4) {
                    Some(
                        Op::LoadLocalAddIntConstStoreLocal { src: local_idx, imm_const_idx, dest },
                    )
                } else {
                    None
                }
            },
            _ => None,
        };
        assert(fused == rule(k as int));
        if let Some(op) = fused {
            code.set(k, op);
            k = k + 4;
        } else {
            k = k + 1;
        }
    }
}

/// Fuses the addition of two locals.
pub fn apply_peephole_slice3(code: &mut Vec<Op>)
    ensures
        final(code)@ == fuse(old(code)@, 0, 3, |k: int| add_locals_rule(old(code)@, k)),
{
    let ghost c0 = code@;
    let targets = collect_jump_targets(code);
    let ghost rule = |k: int| add_locals_rule(c0, k);
    let mut k: usize = 0;
    while code.len() >= 3 && k <= code.len() - 3
        invariant
            code@.len() == c0.len(),
            k <= code@.len(),
            rule == (|k: int| add_locals_rule(c0, k)),
            forall|t: usize| #[trigger] targets@.contains(t) <==> is_target(c0, t as nat),
            forall|i: int| k <= i < code@.len() ==> code@[i] == c0[i],
            fuse(code@, k as int, 3, rule) == fuse(c0, 0, 3, rule),
        decreases code.len() - k,
    {
        let fused: Option<Op> = match (code[k], code[k + 1], code[k + 2]) {
            (Op::LoadLocal(lhs_idx), Op::LoadLocal(rhs_idx), Op::IntAdd) => {
                if window_free(&targets, Ghost(c0), k, 3) {
                    Some(Op::LoadLocalAddLocal { lhs_idx, rhs_idx })
                } else {
                    None
                }
            },
            _ => None,
        };
        assert(fused == rule(k as int));
        if let Some(op) = fused {
            code.set(k, op);
            k = k + 3;
        } else {
            k = k + 1;
        }
    }
}

/// Fuses the subtraction and the multiplication of two locals.
pub fn apply_peephole_slice4(code: &mut Vec<Op>)
    ensures
        final(code)@ == fuse(old(code)@, 0, 3, |k: int| sub_mul_locals_rule(old(code)@, k)),
{
    let ghost c0 = code@;
    let targets = collect_jump_targets(code);
    let ghost rule = |k: int| sub_mul_locals_rule(c0, k);
    let mut k: usize = 0;
    while code.len() >= 3 && k <= code.len() - 3
        invariant
            code@.len() == c0.len(),
            k <= code@.len(),
            rule == (|k: int| sub_mul_locals_rule(c0, k)),
            forall|t: usize| #[trigger] targets@.contains(t) <==> is_target(c0, t as nat),
            forall|i: int| k <= i < code@.len() ==> code@[i] == c0[i],
            fuse(code@, k as int, 3, rule) == fuse(c0, 0, 3, rule),
        decreases code.len() - k,
    {
        let fused: Option<Op> = match (code[k], code[k + 1], code[k + 2]) {
            (Op::LoadLocal(lhs_idx), Op::LoadLocal(rhs_idx), Op::IntSub) => {
                if window_free(&targets, Ghost(c0), k, 3) {
                    Some(Op::LoadLocalSubLocal { lhs_idx, rhs_idx })
                } else {
                    None
                }
            },
            (Op::LoadLocal(lhs_idx), Op::LoadLocal(rhs_idx), Op::IntMul) => {
                if window_free(&targets, Ghost(c0), k, 3) {
                    Some(Op::LoadLocalMulLocal { lhs_idx, rhs_idx })
                } else {
                    None
                }
            },
            _ => None,
        };
        assert(fused == rule(k as int));
        if let Some(op) = fused {
            code.set(k, op);
            k = k + 3;
        } else {
            k = k + 1;
        }
    }
}

/// Fuses the comparison of a local with an integer constant and the branch on it.
pub fn apply_peephole_slice5(code: &mut Vec<Op>, constants: &Vec<Const>)
    ensures
        final(code)@ == fuse(old(code)@, 0, 4, |k: int| eq_const_jump_rule(old(code)@, constants@,
            k)),
{
    let ghost c0 = code@;
    let targets = collect_jump_targets(code);
    let ghost rule = |k: int| eq_const_jump_rule(c0, constants@, k);
    let mut k: usize = 0;
    while code.len() >= 4 && k <= code.len() - 4
        invariant
            code@.len() == c0.len(),
            k <= code@.len(),
            rule == (|k: int| eq_const_jump_rule(c0, constants@, k)),
            forall|t: usize| #[trigger] targets@.contains(t) <==> is_target(c0, t as nat),
            forall|i: int| k <= i < code@.len() ==> code@[i] == c0[i],
            fuse(code@, k as int, 4, rule) == fuse(c0, 0, 4, rule),
        decreases code.len() - k,
    {
        let fused: Option<Op> = match (code[k], code[k + 1], code[k + 2], code[k + 3]) {
            (
                Op::LoadLocal(local_idx),
                Op::PushConst(imm_const_idx),
                Op::IntEq,
                Op::JumpIfNot(jump_offset),
            ) => {
                if is_int_const(constants, imm_const_idx) && window_free(
                    &targets,
                    Ghost(c0),
                    k,
                    4,
                ) {
                    Some(
                        Op::LoadLocalEqIntConstJumpIfNot { local_idx, imm_const_idx, jump_offset },
                    )
                } else {
                    None
                }
            },
            _ => None,
        };
        assert(fused == rule(k as int));
        if let Some(op) = fused {
            code.set(k, op);
            k = k + 4;
        } else {
            k = k + 1;
        }
    }
}

/// Fuses the copy of a scrutinee with the first test of it.
pub fn apply_peephole_slice6(code: &mut Vec<Op>)
    ensures
        final(code)@ == fuse(old(code)@, 0, 3, |k: int| store_eq_jump_rule(old(code)@, k)),
{
    let ghost c0 = code@;
    let targets = collect_jump_targets(code);
    let ghost rule = |k: int| store_eq_jump_rule(c0, k);
    let mut k: usize = 0;
    while code.len() >= 3 && k <= code.len() - 3
        invariant
            code@.len() == c0.len(),
            k <= code@.len(),
            rule == (|k: int| store_eq_jump_rule(c0, k)),
            forall|t: usize| #[trigger] targets@.contains(t) <==> is_target(c0, t as nat),
            forall|i: int| k <= i < code@.len() ==> code@[i] == c0[i],
            fuse(code@, k as int, 3, rule) == fuse(c0, 0, 3, rule),
        decreases code.len() - k,
    {
        let fused: Option<Op> = match (code[k], code[k + 1], code[k + 2]) {
            (
                Op::LoadLocal(src),
                Op::StoreLocal(dst),
                Op::LoadLocalEqIntConstJumpIfNot { local_idx, imm_const_idx, jump_offset },
            ) => {
                if local_idx == dst && window_free(&targets, Ghost(c0), k, 3) {
                    Some(
                        Op::LoadLocalStoreEqIntConstJumpIfNot {
                            src,
                            dst,
                            imm_const_idx,
                            jump_offset,
                        },
                    )
                } else {
                    None
                }
            },
            _ => None,
        };
        assert(fused == rule(k as int));
        if let Some(op) = fused {
            code.set(k, op);
            k = k + 3;
        } else {
            k = k + 1;
        }
    }
}

/// Fuses a field read with the arithmetic on it.
pub fn apply_peephole_slice7(code: &mut Vec<Op>)
    ensures
        final(code)@ == fuse(old(code)@, 0, 3, |k: int| field_arith_rule(old(code)@, k)),
{
    let ghost c0 = code@;
    let targets = collect_jump_targets(code);
    let ghost rule = |k: int| field_arith_rule(c0, k);
    let mut k: usize = 0;
    while code.len() >= 3 && k <= code.len() - 3
        invariant
            code@.len() == c0.len(),
            k <= code@.len(),
            rule == (|k: int| field_arith_rule(c0, k)),
            forall|t: usize| #[trigger] targets@.contains(t) <==> is_target(c0, t as nat),
            forall|i: int| k <= i < code@.len() ==> code@[i] == c0[i],
            fuse(code@, k as int, 3, rule) == fuse(c0, 0, 3, rule),
        decreases code.len() - k,
    {
        let fused: Option<Op> = match (code[k], code[k + 1]) {
            (Op::LoadLocal(local_idx), Op::GetField { name_idx, site_idx }) => {
                if window_free(&targets, Ghost(c0), k, 3) {
                    match code[k + 2] {
                        Op::IntAdd => Some(
                            Op::LoadLocalGetFieldAdd { local_idx, name_idx, site_idx },
                        ),
                        Op::IntSub => Some(
                            Op::LoadLocalGetFieldSub { local_idx, name_idx, site_idx },
                        ),
                        Op::IntMul => Some(
                            Op::LoadLocalGetFieldMul { local_idx, name_idx, site_idx },
                        ),
                        _ => None,
                    }
                } else {
                    None
                }
            },
            _ => None,
        };
        assert(fused == rule(k as int));
        if let Some(op) = fused {
            code.set(k, op);
            k = k + 3;
        } else {
            k = k + 1;
        }
    }
}

/// Fuses the field reads that remain.
pub fn apply_peephole_slice9(code: &mut Vec<Op>)
    ensures
        final(code)@ == fuse(old(code)@, 0, 2, |k: int| field_rule(old(code)@, k)),
{
    let ghost c0 = code@;
    let targets = collect_jump_targets(code);
    let ghost rule = |k: int| field_rule(c0, k);
    let mut k: usize = 0;
    while code.len() >= 2 && k <= code.len() - 2
        invariant
            code@.len() == c0.len(),
            k <= code@.len(),
            rule == (|k: int| field_rule(c0, k)),
            forall|t: usize| #[trigger] targets@.contains(t) <==> is_target(c0, t as nat),
            forall|i: int| k <= i < code@.len() ==> code@[i] == c0[i],
            fuse(code@, k as int, 2, rule) == fuse(c0, 0, 2, rule),
        decreases code.len() - k,
    {
        let fused: Option<Op> = match (code[k], code[k + 1]) {
            (Op::LoadLocal(local_idx), Op::GetField { name_idx, site_idx }) => {
                if window_free(&targets, Ghost(c0), k, 2) {
                    Some(Op::LoadLocalGetField { local_idx, name_idx, site_idx })
                } else {
                    None
                }
            },
            _ => None,
        };
        assert(fused == rule(k as int));
        if let Some(op) = fused {
            code.set(k, op);
            k = k + 2;
        } else {
            k = k + 1;
        }
    }
}

// ---------------------------------------------------------------------------
// Laws
// ---------------------------------------------------------------------------

/// What every fusion does to a body: each slot keeps its op or takes the one
/// that the rule gives for it.
pub proof fn lemma_fuse_slots(code: Seq<Op>, k: int, w: int, rule: spec_fn(int) -> Option<Op>)
    ensures
        fuse(code, k, w, rule).len() == code.len(),
        forall|i: int|
            0 <= i < code.len() ==> (#[trigger] fuse(code, k, w, rule)[i]) == code[i] || (i >= k
                && i + w <= code.len() && rule(i) == Some(fuse(code, k, w, rule)[i])),
        forall|i: int| 0 <= i < k && i < code.len() ==> (#[trigger] fuse(code, k, w, rule)[i])
            == code[i],
    decreases code.len() - k,
{
    if k < 0 || w <= 0 || k + w > code.len() {
    } else {
        match rule(k) {
            Some(op) => {
                lemma_fuse_slots(code.update(k, op), k + w, w, rule);
            },
            None => {
                lemma_fuse_slots(code, k + 1, w, rule);
            },
        }
    }
}

/// A rule that keeps the canonical form of the slot it rewrites keeps that of
/// the whole body.
proof fn lemma_fuse_canonical(code: Seq<Op>, w: int, rule: spec_fn(int) -> Option<Op>)
    requires
        forall|i: int|
            0 <= i && i + w <= code.len() && (#[trigger] rule(i)) is Some ==> canonical(rule(i)->0)
                == canonical(code[i]),
    ensures
        canonical_code(fuse(code, 0, w, rule)) == canonical_code(code),
{
    lemma_fuse_slots(code, 0, w, rule);
    let fused = fuse(code, 0, w, rule);
    assert forall|i: int| 0 <= i < code.len() implies canonical(#[trigger] fused[i]) == canonical(
        code[i],
    ) by {
        if fused[i] != code[i] {
            assert(rule(i) is Some);
        }
    }
    assert(canonical_code(fused) =~= canonical_code(code));
}

/// Law: no fusion pass changes the canonical form of a body, so none changes
/// its hash.
pub proof fn law_fusion_keeps_canonical_code(code: Seq<Op>, constants: Seq<Const>)
    ensures
        canonical_code(fuse(code, 0, 3, |k: int| add_const_rule(code, constants, k)))
            == canonical_code(code),
        canonical_code(fuse(code, 0, 4, |k: int| add_const_store_rule(code, k))) == canonical_code(
            code,
        ),
        canonical_code(fuse(code, 0, 3, |k: int| add_locals_rule(code, k))) == canonical_code(code),
        canonical_code(fuse(code, 0, 3, |k: int| sub_mul_locals_rule(code, k))) == canonical_code(
            code,
        ),
        canonical_code(fuse(code, 0, 4, |k: int| eq_const_jump_rule(code, constants, k)))
            == canonical_code(code),
        canonical_code(fuse(code, 0, 3, |k: int| store_eq_jump_rule(code, k))) == canonical_code(
            code,
        ),
        canonical_code(fuse(code, 0, 3, |k: int| field_arith_rule(code,
            k))) == canonical_code(code),
        canonical_code(fuse(code, 0, 2, |k: int| field_rule(code, k))) == canonical_code(code),
{
    lemma_fuse_canonical(code, 3, |k: int| add_const_rule(code, constants, k));
    lemma_fuse_canonical(code, 4, |k: int| add_const_store_rule(code, k));
    lemma_fuse_canonical(code, 3, |k: int| add_locals_rule(code, k));
    lemma_fuse_canonical(code, 3, |k: int| sub_mul_locals_rule(code, k));
    lemma_fuse_canonical(code, 4, |k: int| eq_const_jump_rule(code, constants, k));
    lemma_fuse_canonical(code, 3, |k: int| store_eq_jump_rule(code, k));
    lemma_fuse_canonical(code, 3, |k: int| field_arith_rule(code, k));
    lemma_fuse_canonical(code, 2, |k: int| field_rule(code, k));
}

/// Law: a fusion pass touches no jump, so the targets of a body stay what they
/// were; and behind a rewritten slot lies a window into which no jump leads.
pub proof fn law_fusion_keeps_jumps(code: Seq<Op>, constants: Seq<Const>, t: nat)
    ensures
        is_target(fuse(code, 0, 3, |k: int| add_const_rule(code, constants, k)), t) == is_target(
            code,
            t,
        ),
        is_target(fuse(code, 0, 4, |k: int| add_const_store_rule(code, k)), t) == is_target(
            code,
            t,
        ),
        is_target(fuse(code, 0, 3, |k: int| add_locals_rule(code, k)), t) == is_target(code, t),
        is_target(fuse(code, 0, 3, |k: int| sub_mul_locals_rule(code, k)), t) == is_target(code, t),
        is_target(fuse(code, 0, 4, |k: int| eq_const_jump_rule(code, constants, k)), t)
            == is_target(code, t),
        is_target(fuse(code, 0, 3, |k: int| store_eq_jump_rule(code, k)), t) == is_target(code, t),
        is_target(fuse(code, 0, 3, |k: int| field_arith_rule(code, k)), t) == is_target(code, t),
        is_target(fuse(code, 0, 2, |k: int| field_rule(code, k)), t) == is_target(code, t),
        forall|k: int|
            (#[trigger] add_const_rule(code, constants, k)) is Some ==> window_is_free(code, k, 3),
        forall|k: int|
            (#[trigger] add_const_store_rule(code, k)) is Some ==> window_is_free(code, k, 4),
        forall|k: int| (#[trigger] add_locals_rule(code, k)) is Some ==> window_is_free(code, k, 3),
        forall|k: int|
            (#[trigger] sub_mul_locals_rule(code, k)) is Some ==> window_is_free(code, k, 3),
        forall|k: int|
            (#[trigger] eq_const_jump_rule(code, constants, k)) is Some ==> window_is_free(
                code,
                k,
                4,
            ),
        forall|k: int|
            (#[trigger] store_eq_jump_rule(code, k)) is Some ==> window_is_free(code, k, 3),
        forall|k: int|
            (#[trigger] field_arith_rule(code, k)) is Some ==> window_is_free(code, k, 3),
        forall|k: int| (#[trigger] field_rule(code, k)) is Some ==> window_is_free(code, k, 2),
{
    lemma_fuse_targets(code, 3, |k: int| add_const_rule(code, constants, k), t);
    lemma_fuse_targets(code, 4, |k: int| add_const_store_rule(code, k), t);
    lemma_fuse_targets(code, 3, |k: int| add_locals_rule(code, k), t);
    lemma_fuse_targets(code, 3, |k: int| sub_mul_locals_rule(code, k), t);
    lemma_fuse_targets(code, 4, |k: int| eq_const_jump_rule(code, constants, k), t);
    lemma_fuse_targets(code, 3, |k: int| store_eq_jump_rule(code, k), t);
    lemma_fuse_targets(code, 3, |k: int| field_arith_rule(code, k), t);
    lemma_fuse_targets(code, 2, |k: int| field_rule(code, k), t);
}

proof fn lemma_fuse_targets(code: Seq<Op>, w: int, rule: spec_fn(int) -> Option<Op>, t: nat)
    requires
        forall|i: int|
            0 <= i && i + w <= code.len() && (#[trigger] rule(i)) is Some ==> jump_offset(
                rule(i)->0,
            ) is None && jump_offset(code[i]) is None,
    ensures
        is_target(fuse(code, 0, w, rule), t) == is_target(code, t),
{
    lemma_fuse_slots(code, 0, w, rule);
    let fused = fuse(code, 0, w, rule);
    assert forall|pc: int| #[trigger] jumps_to(fused, pc, t) == jumps_to(code, pc, t) by {
        if 0 <= pc < code.len() && fused[pc] != code[pc] {
            assert(rule(pc) is Some);
        }
    }
    if is_target(code, t) {
        let pc = choose|pc: int| #[trigger] jumps_to(code, pc, t);
        assert(jumps_to(fused, pc, t));
    }
}

} // verus!
