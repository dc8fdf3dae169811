//! Paths through code: the turns of the interpreter loop take them, and fused
//! code takes the paths of the code that it was fused from.

use vstd::prelude::*;

use crate::compiler::assembly::fused;
use crate::compiler::peephole;
use crate::compiler::peephole::{fuse, lemma_fuse_slots};
use crate::op::{Const, Op};
use crate::program::Program;
use crate::vm::fusion_laws::{chain, does, law_fused_op_is_its_window, window};
use crate::vm::laws::lemma_plain_steady;
use crate::vm::paths::{next_op, step, steps};
use crate::vm::plain::{is_plain, plain, Move};
use crate::vm::runs::{leads_on, op_acts, valid_step};
use crate::vm::state::{top_frame, State};
use crate::vm::step::MAX_PC;
use crate::vm::world::{exhausted, fetch, Act, Step};

verus! {

/// The code of the running function.
pub open spec fn running_code(p: Program, s: State) -> Seq<Op> {
    if s.frames.len() > 0 && top_frame(s).fn_id < p.functions@.len() {
        p.functions@[top_frame(s).fn_id as int].code@
    } else {
        Seq::empty()
    }
}

/// No op on the running frame alone changes which function runs.
proof fn lemma_same_code(p: Program, code: Seq<Op>, s: State)
    requires
        step(p, code, s) is Some,
    ensures
        s.frames.len() > 0,
        step(p, code, s)->0.frames.len() == s.frames.len(),
        running_code(p, step(p, code, s)->0) == running_code(p, s),
{
    lemma_plain_steady(p, s, next_op(code, s)->0);
}

proof fn lemma_path_code(p: Program, code: Seq<Op>, s: State, n: nat)
    requires
        steps(p, code, s, n) is Some,
    ensures
        steps(p, code, s, n)->0.frames.len() == s.frames.len(),
        running_code(p, steps(p, code, s, n)->0) == running_code(p, s),
    decreases n,
{
    if n > 0 {
        lemma_path_code(p, code, s, (n - 1) as nat);
        lemma_same_code(p, code, steps(p, code, s, (n - 1) as nat)->0);
    }
}

/// A turn of the interpreter loop with an op that works on the running frame
/// alone.
proof fn lemma_turn(p: Program, base: nat, st: Step, op: Op)
    requires
        valid_step(p, base, st),
        !exhausted(st.before),
        fetch(p, st.before.m) == Some(op),
        is_plain(op),
        plain(p, st.before.m, op) is Go,
    ensures
        st.act matches Act::Next(w) && plain(p, st.before.m, op) == Move::Go(w.m),
{
    reveal(op_acts);
}

/// Law: as long as ops work on the running frame alone and the step limit is
/// not reached, the turns of the interpreter loop lead the machine from state
/// to state as the code of the running function does.
pub proof fn law_turns_follow_the_code(p: Program, base: nat, turns: Seq<Step>, n: nat)
    requires
        0 < n <= turns.len(),
        forall|i: int| 0 <= i < n ==> valid_step(p, base, #[trigger] turns[i]),
        forall|i: int| 0 <= i < n ==> !exhausted((#[trigger] turns[i]).before),
        forall|i: int| 0 <= i < n - 1 ==> #[trigger] leads_on(turns, i),
        ({
            let s = turns[0].before.m;
            steps(p, running_code(p, s), s, n) is Some
        }),
    ensures
        ({
            let s = turns[0].before.m;
            turns[n - 1].act matches Act::Next(w) && Some(w.m) == steps(
                p,
                running_code(p, s),
                s,
                n,
            )
        }),
    decreases n,
{
    let s = turns[0].before.m;
    let code = running_code(p, s);
    let last = turns[n - 1];
    assert(steps(p, code, s, (n - 1) as nat) is Some);
    if n > 1 {
        law_turns_follow_the_code(p, base, turns, (n - 1) as nat);
        assert(leads_on(turns, n - 2));
    }
    lemma_path_code(p, code, s, (n - 1) as nat);
    assert(valid_step(p, base, last));
    assert(fetch(p, last.before.m) == next_op(code, last.before.m));
    lemma_turn(p, base, last, next_op(code, last.before.m)->0);
}

/// The ops of the window of a superinstruction.
pub open spec fn window_ops(op: Op) -> Seq<Op> {
    match op {
        Op::LoadLocalAddIntConst { local_idx, imm_const_idx } => seq![
            Op::LoadLocal(local_idx),
            Op::PushConst(imm_const_idx),
            Op::IntAdd,
        ],
        Op::LoadLocalAddIntConstStoreLocal { src, imm_const_idx, dest } => seq![
            Op::LoadLocal(src),
            Op::PushConst(imm_const_idx),
            Op::IntAdd,
            Op::StoreLocal(dest),
        ],
        Op::LoadLocalAddLocal { lhs_idx, rhs_idx } => seq![
            Op::LoadLocal(lhs_idx),
            Op::LoadLocal(rhs_idx),
            Op::IntAdd,
        ],
        Op::LoadLocalSubLocal { lhs_idx, rhs_idx } => seq![
            Op::LoadLocal(lhs_idx),
            Op::LoadLocal(rhs_idx),
            Op::IntSub,
        ],
        Op::LoadLocalMulLocal { lhs_idx, rhs_idx } => seq![
            Op::LoadLocal(lhs_idx),
            Op::LoadLocal(rhs_idx),
            Op::IntMul,
        ],
        Op::LoadLocalEqIntConstJumpIfNot { local_idx, imm_const_idx, jump_offset } => seq![
            Op::LoadLocal(local_idx),
            Op::PushConst(imm_const_idx),
            Op::IntEq,
            Op::JumpIfNot(jump_offset),
        ],
        Op::LoadLocalStoreEqIntConstJumpIfNot { src, dst, imm_const_idx, jump_offset } => seq![
            Op::LoadLocal(src),
            Op::StoreLocal(dst),
            Op::LoadLocal(dst),
            Op::PushConst(imm_const_idx),
            Op::IntEq,
            Op::JumpIfNot(jump_offset),
        ],
        Op::LoadLocalGetFieldAdd { local_idx, name_idx, site_idx } => seq![
            Op::LoadLocal(local_idx),
            Op::GetField { name_idx, site_idx },
            Op::IntAdd,
        ],
        Op::LoadLocalGetFieldSub { local_idx, name_idx, site_idx } => seq![
            Op::LoadLocal(local_idx),
            Op::GetField { name_idx, site_idx },
            Op::IntSub,
        ],
        Op::LoadLocalGetFieldMul { local_idx, name_idx, site_idx } => seq![
            Op::LoadLocal(local_idx),
            Op::GetField { name_idx, site_idx },
            Op::IntMul,
        ],
        Op::LoadLocalGetField { local_idx, name_idx, site_idx } => seq![
            Op::LoadLocal(local_idx),
            Op::GetField { name_idx, site_idx },
        ],
        _ => seq![op],
    }
}

/// Whether an op stands for a window of several.
pub open spec fn is_fused(op: Op) -> bool {
    window_ops(op).len() > 1
}

/// The window of a superinstruction at `i`.
pub open spec fn stands_for(code: Seq<Op>, i: int, op: Op) -> bool {
    &&& is_fused(op)
    &&& i + window_ops(op).len() <= code.len()
    &&& forall|k: int|
        0 <= k < window_ops(op).len() ==> code[i + k] == #[trigger] window_ops(op)[k]
}

/// Every slot keeps its op or takes a superinstruction for the window there.
pub open spec fn fuses(code: Seq<Op>, to: Seq<Op>) -> bool {
    &&& to.len() == code.len()
    &&& forall|i: int|
        0 <= i < code.len() ==> (#[trigger] to[i]) == code[i] || stands_for(code, i, to[i])
}

/// A slot behind the first of a window that became a superinstruction.
pub open spec fn covered(code: Seq<Op>, to: Seq<Op>, pc: nat) -> bool {
    exists|j: int|
        0 <= j < pc && j < code.len() && (#[trigger] to[j]) != code[j] && pc < j + window_ops(
            to[j],
        ).len()
}

spec fn gone(m: Move) -> Option<State> {
    match m {
        Move::Go(s) => Some(s),
        _ => None,
    }
}

/// The first `k` ops of a list, one after the other.
spec fn run(p: Program, s: State, ops: Seq<Op>, k: nat) -> Option<State>
    decreases k,
{
    if k == 0 {
        Some(s)
    } else {
        match run(p, s, ops, (k - 1) as nat) {
            None => None,
            Some(t) => gone(does(p, t, ops[k - 1])),
        }
    }
}

/// The first `k` ops of a list, chained.
spec fn chained(p: Program, s: State, ops: Seq<Op>, k: nat) -> Move
    decreases k,
{
    if k == 0 {
        Move::Go(s)
    } else {
        chain(p, chained(p, s, ops, (k - 1) as nat), ops[k - 1])
    }
}

proof fn lemma_chained(p: Program, s: State, ops: Seq<Op>, k: nat)
    ensures
        gone(chained(p, s, ops, k)) == run(p, s, ops, k),
    decreases k,
{
    if k > 0 {
        lemma_chained(p, s, ops, (k - 1) as nat);
    }
}

/// The window of a superinstruction is the chain of its ops.
proof fn lemma_window(p: Program, s: State, op: Op)
    requires
        is_fused(op),
    ensures
        gone(window(p, s, op)) == run(p, s, window_ops(op), window_ops(op).len()),
{
    let ops = window_ops(op);
    lemma_chained(p, s, ops, ops.len());
    assert(chained(p, s, ops, 0) == Move::Go(s));
    assert(chained(p, s, ops, 1) == chain(p, Move::Go(s), ops[0]));
    assert(chained(p, s, ops, 2) == chain(p, chained(p, s, ops, 1), ops[1]));
    assert(chained(p, s, ops, 3) == chain(p, chained(p, s, ops, 2), ops[2]));
    assert(chained(p, s, ops, 4) == chain(p, chained(p, s, ops, 3), ops[3]));
    assert(chained(p, s, ops, 5) == chain(p, chained(p, s, ops, 4), ops[4]));
    assert(chained(p, s, ops, 6) == chain(p, chained(p, s, ops, 5), ops[5]));
    assert(window(p, s, op) == chained(p, s, ops, ops.len()));
}

/// An op behind which the next one comes.
spec fn straight(op: Op) -> bool {
    op is LoadLocal || op is PushConst || op is StoreLocal || op is GetField || op is IntAdd
        || op is IntSub || op is IntMul || op is IntEq
}

proof fn lemma_straight(p: Program, s: State, op: Op)
    requires
        s.frames.len() > 0,
        straight(op),
    ensures
        gone(does(p, s, op)) matches Some(t) ==> t.frames.len() == s.frames.len() && top_frame(
            t,
        ).pc == top_frame(s).pc + 1,
{
    reveal(does);
}

proof fn lemma_window_straight(op: Op)
    requires
        is_fused(op),
    ensures
        forall|k: int|
            0 <= k < window_ops(op).len() - 1 ==> straight(#[trigger] window_ops(op)[k]),
        forall|k: int| 0 <= k < window_ops(op).len() ==> is_plain(#[trigger] window_ops(op)[k]),
        is_plain(op),
{
}

/// The path through a window.
proof fn lemma_through(p: Program, code: Seq<Op>, s: State, op: Op, k: nat)
    requires
        s.frames.len() > 0,
        code.len() <= MAX_PC,
        stands_for(code, top_frame(s).pc as int, op),
        k <= window_ops(op).len(),
    ensures
        steps(p, code, s, k) == run(p, s, window_ops(op), k),
        k < window_ops(op).len() ==> (steps(p, code, s, k) matches Some(t) ==> t.frames.len()
            == s.frames.len() && top_frame(t).pc == top_frame(s).pc + k),
    decreases k,
{
    lemma_window_straight(op);
    if k > 0 {
        lemma_through(p, code, s, op, (k - 1) as nat);
        if let Some(t) = steps(p, code, s, (k - 1) as nat) {
            let last = window_ops(op)[k - 1];
            assert(code[top_frame(s).pc + (k - 1)] == last);
            assert(next_op(code, t) == Some(last));
            if k < window_ops(op).len() {
                lemma_straight(p, t, last);
            }
            assert(does(p, t, last) == plain(p, t, last)) by {
                reveal(does);
            }
        }
    }
}

/// A path in two parts.
pub proof fn lemma_two_parts(p: Program, code: Seq<Op>, s: State, a: nat, b: nat)
    ensures
        steps(p, code, s, a + b) == (match steps(p, code, s, a) {
            None => None,
            Some(t) => steps(p, code, t, b),
        }),
    decreases b,
{
    if b > 0 {
        lemma_two_parts(p, code, s, a, (b - 1) as nat);
        assert((a + b - 1) as nat == a + (b - 1) as nat);
    }
}

/// The fused code gets where the code gets.
proof fn lemma_follow(p: Program, code: Seq<Op>, to: Seq<Op>, s: State, n: nat) -> (m: nat)
    requires
        fuses(code, to),
        code.len() <= MAX_PC,
        s.frames.len() > 0,
        steps(p, code, s, n) is Some,
        !covered(code, to, top_frame(steps(p, code, s, n)->0).pc),
    ensures
        steps(p, to, s, m) == steps(p, code, s, n),
    decreases n,
{
    if n == 0 {
        0
    } else {
        let j = top_frame(s).pc as int;
        lemma_two_parts(p, code, s, 1, (n - 1) as nat);
        assert(steps(p, code, s, 1) is Some);
        assert(steps(p, code, s, 0) == Some(s));
        assert(steps(p, to, s, 0) == Some(s));
        assert(step(p, code, s) is Some);
        if to[j] == code[j] {
            let t = step(p, code, s)->0;
            lemma_same_code(p, code, s);
            let m = lemma_follow(p, code, to, t, (n - 1) as nat);
            assert(step(p, to, s) == Some(t));
            assert(steps(p, to, s, 1) == Some(t));
            lemma_two_parts(p, to, s, 1, m);
            1 + m
        } else {
            let op = to[j];
            let w = window_ops(op).len();
            assert(stands_for(code, j, op));
            if n < w {
                lemma_through(p, code, s, op, n);
                assert(covered(code, to, (j + n) as nat));
                0
            } else {
                lemma_through(p, code, s, op, w);
                lemma_two_parts(p, code, s, w, (n - w) as nat);
                let t = steps(p, code, s, w)->0;
                lemma_window(p, s, op);
                law_fused_op_is_its_window(p, s, op);
                lemma_window_straight(op);
                lemma_path_code(p, code, s, w);
                let m = lemma_follow(p, code, to, t, (n - w) as nat);
                assert(step(p, to, s) == Some(t));
                assert(steps(p, to, s, 1) == Some(t));
                lemma_two_parts(p, to, s, 1, m);
                1 + m
            }
        }
    }
}

/// Code without superinstructions.
pub open spec fn unfused(code: Seq<Op>) -> bool {
    forall|i: int| 0 <= i < code.len() ==> !is_fused(#[trigger] code[i])
}

/// A fusion pass over code that was fused from `code`.
proof fn lemma_pass(code: Seq<Op>, to: Seq<Op>, w: int, rule: spec_fn(int) -> Option<Op>)
    requires
        fuses(code, to),
        forall|i: int|
            0 <= i && i + w <= to.len() && (#[trigger] rule(i)) is Some ==> stands_for(
                code,
                i,
                rule(i)->0,
            ),
    ensures
        fuses(code, fuse(to, 0, w, rule)),
{
    lemma_fuse_slots(to, 0, w, rule);
    let end = fuse(to, 0, w, rule);
    assert forall|i: int| 0 <= i < code.len() implies (#[trigger] end[i]) == code[i] || stands_for(
        code,
        i,
        end[i],
    ) by {
        if end[i] != to[i] {
            assert(rule(i) == Some(end[i]));
        }
    }
}

/// A slot that holds no superinstruction holds the op that it was fused from.
proof fn lemma_kept(code: Seq<Op>, to: Seq<Op>, i: int)
    requires
        fuses(code, to),
        0 <= i < code.len(),
    ensures
        is_fused(to[i]) || to[i] == code[i],
        unfused(code) && is_fused(to[i]) ==> stands_for(code, i, to[i]),
{
    if to[i] == code[i] {
        assert(unfused(code) ==> !is_fused(code[i]));
    }
}

/// The rules that fuse ops as they are.
#[verifier::spinoff_prover]
proof fn lemma_rules(code: Seq<Op>, to: Seq<Op>, consts: Seq<Const>, i: int)
    requires
        fuses(code, to),
        unfused(code),
        0 <= i,
    ensures
        i + 3 <= to.len() ==> (peephole::add_const_rule(to, consts, i) matches Some(op)
            ==> stands_for(code, i, op)),
        i + 3 <= to.len() ==> (peephole::add_locals_rule(to, i) matches Some(op) ==> stands_for(
            code,
            i,
            op,
        )),
        i + 3 <= to.len() ==> (peephole::sub_mul_locals_rule(to, i) matches Some(op) ==> stands_for(
            code,
            i,
            op,
        )),
        i + 4 <= to.len() ==> (peephole::eq_const_jump_rule(to, consts, i) matches Some(op)
            ==> stands_for(code, i, op)),
        i + 3 <= to.len() ==> (peephole::field_arith_rule(to, i) matches Some(op) ==> stands_for(
            code,
            i,
            op,
        )),
        i + 2 <= to.len() ==> (peephole::field_rule(to, i) matches Some(op) ==> stands_for(
            code,
            i,
            op,
        )),
{
    if i < to.len() {
        lemma_kept(code, to, i);
    }
    if i + 1 < to.len() {
        lemma_kept(code, to, i + 1);
    }
    if i + 2 < to.len() {
        lemma_kept(code, to, i + 2);
    }
    if i + 3 < to.len() {
        lemma_kept(code, to, i + 3);
    }
}

/// The rules that fuse a superinstruction with its neighbours.
#[verifier::spinoff_prover]
proof fn lemma_wider_rules(code: Seq<Op>, to: Seq<Op>, i: int)
    requires
        fuses(code, to),
        unfused(code),
        0 <= i,
    ensures
        i + 4 <= to.len() ==> (peephole::add_const_store_rule(to, i) matches Some(op)
            ==> stands_for(code, i, op)),
        i + 3 <= to.len() ==> (peephole::store_eq_jump_rule(to, i) matches Some(op) ==> stands_for(
            code,
            i,
            op,
        )),
{
    if i + 4 <= to.len() && peephole::add_const_store_rule(to, i) is Some {
        let op = peephole::add_const_store_rule(to, i)->0;
        let inner = window_ops(to[i]);
        lemma_kept(code, to, i);
        lemma_kept(code, to, i + 3);
        assert(code[i + 0] == inner[0] && code[i + 1] == inner[1] && code[i + 2] == inner[2]);
        assert(stands_for(code, i, op));
    }
    if i + 3 <= to.len() && peephole::store_eq_jump_rule(to, i) is Some {
        let op = peephole::store_eq_jump_rule(to, i)->0;
        let inner = window_ops(to[i + 2]);
        lemma_kept(code, to, i);
        lemma_kept(code, to, i + 1);
        lemma_kept(code, to, i + 2);
        assert(code[i + 2 + 0] == inner[0] && code[i + 2 + 1] == inner[1]);
        assert(code[i + 2 + 2] == inner[2] && code[i + 2 + 3] == inner[3]);
        assert(stands_for(code, i, op));
    }
}

/// All fusion passes.
proof fn lemma_fused(code: Seq<Op>, consts: Seq<Const>)
    requires
        unfused(code),
    ensures
        fuses(code, fused(code, consts)),
{
    let r1 = |k: int| peephole::add_const_rule(code, consts, k);
    let c1 = fuse(code, 0, 3, r1);
    assert forall|i: int| 0 <= i && i + 3 <= code.len() && (#[trigger] r1(i)) is Some implies
        stands_for(code, i, r1(i)->0) by {
        lemma_rules(code, code, consts, i);
    }
    lemma_pass(code, code, 3, r1);
    let r2 = |k: int| peephole::add_const_store_rule(c1, k);
    let c2 = fuse(c1, 0, 4, r2);
    assert forall|i: int| 0 <= i && i + 4 <= c1.len() && (#[trigger] r2(i)) is Some implies
        stands_for(code, i, r2(i)->0) by {
        lemma_wider_rules(code, c1, i);
    }
    lemma_pass(code, c1, 4, r2);
    let r3 = |k: int| peephole::add_locals_rule(c2, k);
    let c3 = fuse(c2, 0, 3, r3);
    assert forall|i: int| 0 <= i && i + 3 <= c2.len() && (#[trigger] r3(i)) is Some implies
        stands_for(code, i, r3(i)->0) by {
        lemma_rules(code, c2, consts, i);
    }
    lemma_pass(code, c2, 3, r3);
    let r4 = |k: int| peephole::sub_mul_locals_rule(c3, k);
    let c4 = fuse(c3, 0, 3, r4);
    assert forall|i: int| 0 <= i && i + 3 <= c3.len() && (#[trigger] r4(i)) is Some implies
        stands_for(code, i, r4(i)->0) by {
        lemma_rules(code, c3, consts, i);
    }
    lemma_pass(code, c3, 3, r4);
    let r5 = |k: int| peephole::eq_const_jump_rule(c4, consts, k);
    let c5 = fuse(c4, 0, 4, r5);
    assert forall|i: int| 0 <= i && i + 4 <= c4.len() && (#[trigger] r5(i)) is Some implies
        stands_for(code, i, r5(i)->0) by {
        lemma_rules(code, c4, consts, i);
    }
    lemma_pass(code, c4, 4, r5);
    let r6 = |k: int| peephole::store_eq_jump_rule(c5, k);
    let c6 = fuse(c5, 0, 3, r6);
    assert forall|i: int| 0 <= i && i + 3 <= c5.len() && (#[trigger] r6(i)) is Some implies
        stands_for(code, i, r6(i)->0) by {
        lemma_wider_rules(code, c5, i);
    }
    lemma_pass(code, c5, 3, r6);
    let r7 = |k: int| peephole::field_arith_rule(c6, k);
    let c7 = fuse(c6, 0, 3, r7);
    assert forall|i: int| 0 <= i && i + 3 <= c6.len() && (#[trigger] r7(i)) is Some implies
        stands_for(code, i, r7(i)->0) by {
        lemma_rules(code, c6, consts, i);
    }
    lemma_pass(code, c6, 3, r7);
    let r8 = |k: int| peephole::field_rule(c7, k);
    assert forall|i: int| 0 <= i && i + 2 <= c7.len() && (#[trigger] r8(i)) is Some implies
        stands_for(code, i, r8(i)->0) by {
        lemma_rules(code, c7, consts, i);
    }
    lemma_pass(code, c7, 2, r8);
}

/// Law: the fusion passes do not change what code does. Where a path through
/// the code leads, a path through the fused code leads to the same state,
/// unless it ends in the middle of a window that was fused.
pub proof fn law_fused_code_takes_the_same_path(p: Program, code: Seq<Op>, s: State, n: nat)
    requires
        unfused(code),
        code.len() <= MAX_PC,
        s.frames.len() > 0,
        steps(p, code, s, n) is Some,
        !covered(code, fused(code, p.constants@), top_frame(steps(p, code, s, n)->0).pc),
    ensures
        exists|m: nat| #[trigger]
            steps(p, fused(code, p.constants@), s, m) == steps(p, code, s, n),
{
    lemma_fused(code, p.constants@);
    let m = lemma_follow(p, code, fused(code, p.constants@), s, n);
    assert(steps(p, fused(code, p.constants@), s, m) == steps(p, code, s, n));
}

/// The code gets where the fused code gets.
proof fn lemma_lead(p: Program, code: Seq<Op>, to: Seq<Op>, s: State, m: nat) -> (n: nat)
    requires
        fuses(code, to),
        code.len() <= MAX_PC,
        s.frames.len() > 0,
        steps(p, to, s, m) is Some,
    ensures
        steps(p, code, s, n) == steps(p, to, s, m),
    decreases m,
{
    if m == 0 {
        0
    } else {
        let k = lemma_lead(p, code, to, s, (m - 1) as nat);
        let t = steps(p, to, s, (m - 1) as nat)->0;
        let j = top_frame(t).pc as int;
        lemma_path_code(p, to, s, (m - 1) as nat);
        assert(step(p, to, t) is Some);
        assert(steps(p, code, t, 0) == Some(t));
        if to[j] == code[j] {
            assert(steps(p, code, t, 1) == step(p, to, t));
            lemma_two_parts(p, code, s, k, 1);
            k + 1
        } else {
            let op = to[j];
            let w = window_ops(op).len();
            assert(stands_for(code, j, op));
            lemma_through(p, code, t, op, w);
            lemma_window(p, t, op);
            law_fused_op_is_its_window(p, t, op);
            lemma_two_parts(p, code, s, k, w);
            k + w
        }
    }
}

/// Law: fused code does nothing that the code did not do. Where a path through
/// the fused code leads, a path through the code leads to the same state.
pub proof fn law_fused_code_takes_no_other_path(p: Program, code: Seq<Op>, s: State, m: nat)
    requires
        unfused(code),
        code.len() <= MAX_PC,
        s.frames.len() > 0,
        steps(p, fused(code, p.constants@), s, m) is Some,
    ensures
        exists|n: nat| #[trigger]
            steps(p, code, s, n) == steps(p, fused(code, p.constants@), s, m),
{
    lemma_fused(code, p.constants@);
    let n = lemma_lead(p, code, fused(code, p.constants@), s, m);
    assert(steps(p, code, s, n) == steps(p, fused(code, p.constants@), s, m));
}

} // verus!
