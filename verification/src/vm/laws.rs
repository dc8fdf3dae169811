//! What every run keeps.

use vstd::prelude::*;

use crate::op::Op;
use crate::program::Program;
use crate::value::Val;
use crate::vm::fault::Fault;
use crate::vm::outside::{say, say_all, Exchange};
use crate::vm::plain::{is_plain, jump, jump_when, plain, Move};
use crate::vm::runs::{
    fold_call, item_call, leads_on, op_acts, run_end, valid_call, valid_invocation, valid_run,
    valid_step, world_after, world_before,
};
use crate::vm::state::{drop_top, goto, operand, push, set_local, top_frame, FrameView, State};
use crate::vm::world::{
    budget_talk, call_act, call_closure_act, call_entry, call_talk, entered, give_back, heard,
    hook_steps, hooked, left, plain_act, refinement_asks, replaced, return_act, tail_call_act,
    unwound, Act, Call, Callee, Outcome, Replies, Run, Step, World,
};

verus! {

/// One list starts with another.
pub open spec fn starts<A>(long: Seq<A>, short: Seq<A>) -> bool {
    short.len() <= long.len() && long.take(short.len() as int) == short
}

/// The frame is the same but for where it is in its code and the budget it has
/// left.
pub open spec fn same_frame(a: FrameView, b: FrameView) -> bool {
    a == FrameView { pc: a.pc, budget: a.budget, ..b }
}

/// What an op on the running frame alone leaves as it is: the other frames, the
/// locals of other frames, what the slab and the arena held before, and the
/// request scopes.
pub open spec fn steady(s: State, t: State) -> bool {
    &&& t.frames.len() == s.frames.len()
    &&& t.frames.drop_last() == s.frames.drop_last()
    &&& same_frame(t.frames.last(), s.frames.last())
    &&& t.locals.len() == s.locals.len()
    &&& forall|j: int|
        0 <= j < s.locals.len() && j < top_frame(s).locals_start ==> t.locals[j]
            == #[trigger] s.locals[j]
    &&& starts(t.slab, s.slab)
    &&& starts(t.arena, s.arena)
    &&& t.scopes == s.scopes
}

/// The result of a move, where there is one.
pub open spec fn move_state(m: Move) -> State {
    match m {
        Move::Go(t) => t,
        Move::Fail(_, t) => t,
        Move::Ask(_, _, _, t) => t,
    }
}

proof fn lemma_goto(s: State, pc: nat)
    requires
        s.frames.len() > 0,
    ensures
        goto(s, pc).frames.len() == s.frames.len(),
        goto(s, pc).frames.drop_last() == s.frames.drop_last(),
        same_frame(goto(s, pc).frames.last(), s.frames.last()),
        top_frame(goto(s, pc)).locals_start == top_frame(s).locals_start,
{
    assert(goto(s, pc).frames.drop_last() =~= s.frames.drop_last());
}

proof fn lemma_self_starts(s: State)
    ensures
        starts(s.slab, s.slab),
        starts(s.arena, s.arena),
{
    assert(s.slab.take(s.slab.len() as int) =~= s.slab);
    assert(s.arena.take(s.arena.len() as int) =~= s.arena);
}

proof fn lemma_plain_jumps(p: Program, s: State, pc: nat, off: i32, when: bool)
    requires
        s.frames.len() > 0,
    ensures
        steady(s, move_state(jump(p, s, pc, off))),
        steady(s, move_state(jump_when(p, s, when, off))),
{
    lemma_self_starts(s);
    lemma_goto(s, crate::op::jump_target(pc, off, crate::vm::plain::code_len(p, s))->0);
    lemma_goto(s, top_frame(s).pc + 1);
    let t = drop_top(s, 1);
    lemma_goto(
        t,
        crate::op::jump_target(
            top_frame(s).pc + 1,
            off,
            crate::vm::plain::code_len(p, t),
        )->0,
    );
}

proof fn lemma_plain_builders(p: Program, s: State, op: Op)
    requires
        s.frames.len() > 0,
        match op {
            Op::MakeRecord { .. }
            | Op::AllocStackRecord { .. }
            | Op::AllocArenaRecord { .. }
            | Op::MakeTuple(_)
            | Op::AllocStackTuple { .. }
            | Op::AllocArenaTuple { .. }
            | Op::MakeList(_)
            | Op::MakeVariant { .. }
            | Op::MakeClosure { .. } => true,
            _ => false,
        },
    ensures
        steady(s, move_state(plain(p, s, op))),
{
    lemma_self_starts(s);
    lemma_goto(s, top_frame(s).pc + 1);
    let f = top_frame(s);
    let t = move_state(plain(p, s, op));
    assert(t.frames.drop_last() =~= s.frames.drop_last());
    assert(t.slab.len() >= s.slab.len() ==> t.slab.take(s.slab.len() as int) =~= s.slab);
    assert(t.arena.len() >= s.arena.len() ==> t.arena.take(s.arena.len() as int) =~= s.arena);
}

proof fn lemma_plain_fused(p: Program, s: State, op: Op)
    requires
        s.frames.len() > 0,
        match op {
            Op::LoadLocalAddIntConst { .. }
            | Op::LoadLocalAddIntConstStoreLocal { .. }
            | Op::LoadLocalAddLocal { .. }
            | Op::LoadLocalSubLocal { .. }
            | Op::LoadLocalMulLocal { .. }
            | Op::LoadLocalEqIntConstJumpIfNot { .. }
            | Op::LoadLocalStoreEqIntConstJumpIfNot { .. }
            | Op::LoadLocalGetField { .. }
            | Op::LoadLocalGetFieldAdd { .. }
            | Op::LoadLocalGetFieldSub { .. }
            | Op::LoadLocalGetFieldMul { .. } => true,
            _ => false,
        },
    ensures
        steady(s, move_state(plain(p, s, op))),
{
    lemma_self_starts(s);
    lemma_goto(s, top_frame(s).pc + 2);
    lemma_goto(s, top_frame(s).pc + 3);
    lemma_goto(s, top_frame(s).pc + 4);
    lemma_goto(s, top_frame(s).pc + 6);
    match op {
        Op::LoadLocalEqIntConstJumpIfNot { jump_offset, .. } => {
            lemma_plain_jumps(p, s, top_frame(s).pc + 4, jump_offset, true);
        },
        Op::LoadLocalStoreEqIntConstJumpIfNot { src, dst, jump_offset, .. } => {
            if crate::vm::plain::int_local(s, src) is Ok && crate::vm::state::has_local(s, dst) {
                let t = set_local(s, dst, Val::Int(crate::vm::plain::int_local(s, src)->Ok_0));
                lemma_self_starts(t);
                lemma_plain_jumps(p, t, top_frame(s).pc + 6, jump_offset, true);
                lemma_goto(t, top_frame(t).pc + 6);
            }
        },
        _ => {},
    }
}

/// An op on the running frame alone leaves the rest of the machine as it is.
pub proof fn lemma_plain_steady(p: Program, s: State, op: Op)
    requires
        s.frames.len() > 0,
        is_plain(op),
    ensures
        steady(s, move_state(plain(p, s, op))),
{
    lemma_self_starts(s);
    lemma_goto(s, top_frame(s).pc + 1);
    match op {
        Op::MakeRecord { .. }
        | Op::AllocStackRecord { .. }
        | Op::AllocArenaRecord { .. }
        | Op::MakeTuple(_)
        | Op::AllocStackTuple { .. }
        | Op::AllocArenaTuple { .. }
        | Op::MakeList(_)
        | Op::MakeVariant { .. }
        | Op::MakeClosure { .. } => {
            lemma_plain_builders(p, s, op);
        },
        Op::Jump(off) => {
            lemma_plain_jumps(p, s, top_frame(s).pc + 1, off, true);
        },
        Op::JumpIf(off) => {
            lemma_plain_jumps(p, s, 0, off, true);
        },
        Op::JumpIfNot(off) => {
            lemma_plain_jumps(p, s, 0, off, false);
        },
        Op::LoadLocalAddIntConst { .. }
        | Op::LoadLocalAddIntConstStoreLocal { .. }
        | Op::LoadLocalAddLocal { .. }
        | Op::LoadLocalSubLocal { .. }
        | Op::LoadLocalMulLocal { .. }
        | Op::LoadLocalEqIntConstJumpIfNot { .. }
        | Op::LoadLocalStoreEqIntConstJumpIfNot { .. }
        | Op::LoadLocalGetField { .. }
        | Op::LoadLocalGetFieldAdd { .. }
        | Op::LoadLocalGetFieldSub { .. }
        | Op::LoadLocalGetFieldMul { .. } => {
            lemma_plain_fused(p, s, op);
        },
        _ => {},
    }
}

/// What only ever grows: the step count, the arena, and the exchanges with the
/// program around the machine. The step limit and the request scopes stay.
pub open spec fn grows(a: World, b: World) -> bool {
    &&& rises(a, b)
    &&& a.sh.limit == b.sh.limit
    &&& starts(b.sh.said, a.sh.said)
    &&& starts(b.m.arena, a.m.arena)
    &&& a.m.scopes == b.m.scopes
}

/// The frames, the locals and the slab are what they were.
pub open spec fn restores(a: World, b: World) -> bool {
    &&& grows(a, b)
    &&& b.m.frames == a.m.frames
    &&& b.m.locals == a.m.locals
    &&& b.m.slab == a.m.slab
}

/// A world inside a call that was made in the world `a`: the frames of the call
/// lie above those of `a`, and their locals and slab slots above those of `a`.
pub open spec fn inside(a: World, b: World) -> bool {
    let base = a.m.frames.len();
    &&& grows(a, b)
    &&& b.m.frames.len() > base
    &&& starts(b.m.frames, a.m.frames)
    &&& b.m.frames[base as int].locals_start == a.m.locals.len()
    &&& b.m.frames[base as int].slab_start == a.m.slab.len()
    &&& stacked(b.m, base as int)
    &&& starts(b.m.locals, a.m.locals)
    &&& starts(b.m.slab, a.m.slab)
}

/// The frames from `base` on lie above one another.
pub open spec fn stacked(s: State, base: int) -> bool {
    &&& forall|i: int, j: int|
        base <= i <= j < s.frames.len() ==> (#[trigger] s.frames[i]).locals_start <= (
        #[trigger] s.frames[j]).locals_start && s.frames[i].slab_start <= s.frames[j].slab_start
    &&& forall|i: int|
        base <= i < s.frames.len() ==> (#[trigger] s.frames[i]).locals_start <= s.locals.len()
            && s.frames[i].slab_start <= s.slab.len()
}

broadcast proof fn lemma_starts_self<A>(s: Seq<A>)
    ensures
        #[trigger] starts(s, s),
{
    assert(s.take(s.len() as int) =~= s);
}

broadcast proof fn lemma_starts_push<A>(s: Seq<A>, x: A)
    ensures
        #[trigger] starts(s.push(x), s),
{
    assert(s.push(x).take(s.len() as int) =~= s);
}

broadcast proof fn lemma_starts_push_two<A>(s: Seq<A>, x: A, y: A)
    ensures
        #[trigger] starts(s.push(x).push(y), s),
{
    assert(s.push(x).push(y).take(s.len() as int) =~= s);
}

broadcast proof fn lemma_starts_add<A>(s: Seq<A>, t: Seq<A>)
    ensures
        #[trigger] starts(s + t, s),
{
    assert((s + t).take(s.len() as int) =~= s);
}

broadcast group group_starts {
    lemma_starts_self,
    lemma_starts_push,
    lemma_starts_push_two,
    lemma_starts_add,
}

proof fn lemma_starts_trans<A>(a: Seq<A>, b: Seq<A>, c: Seq<A>)
    requires
        starts(b, a),
        starts(c, b),
    ensures
        starts(c, a),
{
    assert(c.take(a.len() as int) =~= b.take(a.len() as int)) by {
        assert forall|i: int| 0 <= i < a.len() implies c[i] == b[i] by {
            assert(c.take(b.len() as int)[i] == c[i]);
        }
    }
}

proof fn lemma_grows_trans(a: World, b: World, c: World)
    requires
        grows(a, b),
        grows(b, c),
    ensures
        grows(a, c),
{
    lemma_starts_trans(a.m.arena, b.m.arena, c.m.arena);
    lemma_starts_trans(a.sh.said, b.sh.said, c.sh.said);
}

/// A steady change keeps a world inside a call.
proof fn lemma_steady_inside(a: World, b: World, c: World)
    requires
        inside(a, b),
        steady(b.m, c.m),
        counts(b, c),
        b.sh.limit == c.sh.limit,
        starts(c.sh.said, b.sh.said),
    ensures
        inside(a, c),
{
    lemma_setback(c.sh.said, b.sh.said);
    let base = a.m.frames.len() as int;
    lemma_grows_trans(a, b, c);
    let n = b.m.frames.len() - 1;
    assert forall|i: int| 0 <= i < c.m.frames.len() implies same_frame(
        #[trigger] c.m.frames[i],
        b.m.frames[i],
    ) by {
        if i < n {
            assert(c.m.frames.drop_last()[i] == b.m.frames.drop_last()[i]);
        }
    }
    assert(c.m.frames.take(base) =~= b.m.frames.take(base)) by {
        assert forall|i: int| 0 <= i < base implies c.m.frames[i] == b.m.frames[i] by {
            assert(c.m.frames.drop_last()[i] == b.m.frames.drop_last()[i]);
        }
    }
    assert(stacked(c.m, base)) by {
        assert forall|i: int, j: int| base <= i <= j < c.m.frames.len() implies (
        #[trigger] c.m.frames[i]).locals_start <= (#[trigger] c.m.frames[j]).locals_start
            && c.m.frames[i].slab_start <= c.m.frames[j].slab_start by {
            assert(b.m.frames[i].locals_start <= b.m.frames[j].locals_start);
        }
        assert forall|i: int| base <= i < c.m.frames.len() implies (
        #[trigger] c.m.frames[i]).locals_start <= c.m.locals.len() && c.m.frames[i].slab_start
            <= c.m.slab.len() by {
            assert(b.m.frames[i].locals_start <= b.m.locals.len());
        }
    }
    assert(c.m.locals.take(a.m.locals.len() as int) =~= b.m.locals.take(
        a.m.locals.len() as int,
    )) by {
        assert(b.m.frames[base].locals_start <= b.m.frames[n].locals_start);
        assert forall|j: int| 0 <= j < a.m.locals.len() implies c.m.locals[j] == b.m.locals[j] by {
            assert(b.m.locals[j] == b.m.locals[j]);
        }
    }
    lemma_starts_trans(a.m.slab, b.m.slab, c.m.slab);
}

/// A world with the same frames, locals and slab is inside the same call.
proof fn lemma_same_inside(a: World, b: World, c: World)
    requires
        inside(a, b),
        grows(b, c),
        c.m.frames == b.m.frames,
        c.m.locals == b.m.locals,
        c.m.slab == b.m.slab,
    ensures
        inside(a, c),
{
    lemma_grows_trans(a, b, c);
}

/// A new frame lies inside the call.
proof fn lemma_entered_inside(
    a: World,
    b: World,
    c: World,
    f: crate::program::Function,
    fn_id: u32,
    args: Seq<Val>,
    node: Option<Seq<char>>,
    key: Option<(u32, Seq<u8>)>,
)
    requires
        inside(a, b),
        c.m == entered(f, fn_id, b.m, args, node, key),
        counts(b, c),
        b.sh.limit == c.sh.limit,
        starts(c.sh.said, b.sh.said),
    ensures
        inside(a, c),
{
    lemma_setback(c.sh.said, b.sh.said);
    let base = a.m.frames.len() as int;
    assert(c.m.arena.take(b.m.arena.len() as int) =~= b.m.arena);
    lemma_grows_trans(a, b, c);
    assert(c.m.frames.take(base) =~= b.m.frames.take(base));
    assert(c.m.locals.take(a.m.locals.len() as int) =~= b.m.locals.take(a.m.locals.len() as int));
    assert(c.m.frames[base] == b.m.frames[base]);
    assert(stacked(c.m, base)) by {
        let n = b.m.frames.len() as int;
        assert forall|i: int, j: int| base <= i <= j < c.m.frames.len() implies (
        #[trigger] c.m.frames[i]).locals_start <= (#[trigger] c.m.frames[j]).locals_start
            && c.m.frames[i].slab_start <= c.m.frames[j].slab_start by {
            if i < n {
                assert(c.m.frames[i] == b.m.frames[i]);
                assert(b.m.frames[i].locals_start <= b.m.locals.len());
            }
            if j < n {
                assert(c.m.frames[j] == b.m.frames[j]);
                assert(b.m.frames[i].locals_start <= b.m.frames[j].locals_start);
            }
        }
        assert forall|i: int| base <= i < c.m.frames.len() implies (
        #[trigger] c.m.frames[i]).locals_start <= c.m.locals.len() && c.m.frames[i].slab_start
            <= c.m.slab.len() by {
            if i < n {
                assert(c.m.frames[i] == b.m.frames[i]);
                assert(b.m.frames[i].locals_start <= b.m.locals.len());
            }
        }
    }
}

/// The first frame of a call lies inside it.
proof fn lemma_first_frame_inside(
    a: World,
    b: World,
    c: World,
    f: crate::program::Function,
    fn_id: u32,
    args: Seq<Val>,
)
    requires
        grows(a, b),
        b.m == a.m,
        c.m == entered(f, fn_id, b.m, args, None, None),
        counts(b, c),
        b.sh.limit == c.sh.limit,
        starts(c.sh.said, b.sh.said),
    ensures
        inside(a, c),
{
    lemma_setback(c.sh.said, b.sh.said);
    lemma_starts_trans(a.sh.said, b.sh.said, c.sh.said);
    assert(c.m.arena.take(a.m.arena.len() as int) =~= a.m.arena);
    assert(c.m.frames.take(a.m.frames.len() as int) =~= a.m.frames);
    assert(c.m.locals.take(a.m.locals.len() as int) =~= a.m.locals);
    assert(c.m.slab.take(a.m.slab.len() as int) =~= a.m.slab);
}

/// Closing the last frame of a call restores what was there before; closing
/// another one stays inside.
proof fn lemma_left(a: World, b: World, c: World)
    requires
        inside(a, b),
        c.m == left(b.m),
        counts(b, c),
        b.sh.limit == c.sh.limit,
        starts(c.sh.said, b.sh.said),
    ensures
        c.m.frames.len() <= a.m.frames.len() ==> restores(a, c),
        c.m.frames.len() > a.m.frames.len() ==> inside(a, c),
{
    lemma_setback(c.sh.said, b.sh.said);
    let base = a.m.frames.len() as int;
    let n = b.m.frames.len() - 1;
    assert(c.m.arena.take(b.m.arena.len() as int) =~= b.m.arena);
    lemma_grows_trans(a, b, c);
    let f = b.m.frames[n];
    assert(b.m.frames[base].locals_start <= f.locals_start);
    assert(f.locals_start <= b.m.locals.len());
    if n == base {
        assert(c.m.frames =~= a.m.frames) by {
            assert(b.m.frames.take(base) =~= b.m.frames.drop_last());
        }
        assert(c.m.locals =~= a.m.locals);
        assert(c.m.slab =~= a.m.slab);
    } else {
        assert(c.m.frames.take(base) =~= b.m.frames.take(base));
        assert(c.m.locals.take(a.m.locals.len() as int) =~= b.m.locals.take(
            a.m.locals.len() as int,
        ));
        assert(c.m.slab.take(a.m.slab.len() as int) =~= b.m.slab.take(a.m.slab.len() as int));
        assert(stacked(c.m, base)) by {
            assert forall|i: int, j: int| base <= i <= j < c.m.frames.len() implies (
            #[trigger] c.m.frames[i]).locals_start <= (#[trigger] c.m.frames[j]).locals_start
                && c.m.frames[i].slab_start <= c.m.frames[j].slab_start by {
                assert(b.m.frames[i].locals_start <= b.m.frames[j].locals_start);
            }
            assert forall|i: int| base <= i < c.m.frames.len() implies (
            #[trigger] c.m.frames[i]).locals_start <= c.m.locals.len() && c.m.frames[i].slab_start
                <= c.m.slab.len() by {
                assert(b.m.frames[i].locals_start <= b.m.frames[n].locals_start);
            }
        }
    }
}

/// A replaced frame lies inside the call.
proof fn lemma_replaced_inside(
    a: World,
    b: World,
    c: World,
    f: crate::program::Function,
    fn_id: u32,
    args: Seq<Val>,
    node: Seq<char>,
)
    requires
        inside(a, b),
        c.m == replaced(f, fn_id, b.m, args, node),
        counts(b, c),
        b.sh.limit == c.sh.limit,
        starts(c.sh.said, b.sh.said),
    ensures
        inside(a, c),
{
    lemma_setback(c.sh.said, b.sh.said);
    let base = a.m.frames.len() as int;
    let n = b.m.frames.len() - 1;
    assert(c.m.arena.take(b.m.arena.len() as int) =~= b.m.arena);
    lemma_grows_trans(a, b, c);
    assert(b.m.frames[base].locals_start <= b.m.frames[n].locals_start);
    assert(b.m.frames[n].locals_start <= b.m.locals.len());
    assert(c.m.frames.take(base) =~= b.m.frames.take(base));
    assert(c.m.locals.take(a.m.locals.len() as int) =~= b.m.locals.take(a.m.locals.len() as int));
    assert(c.m.slab.take(a.m.slab.len() as int) =~= b.m.slab.take(a.m.slab.len() as int));
    assert(stacked(c.m, base)) by {
        assert forall|i: int, j: int| base <= i <= j < c.m.frames.len() implies (
        #[trigger] c.m.frames[i]).locals_start <= (#[trigger] c.m.frames[j]).locals_start
            && c.m.frames[i].slab_start <= c.m.frames[j].slab_start by {
            assert(b.m.frames[i].locals_start <= b.m.frames[j].locals_start);
        }
        assert forall|i: int| base <= i < c.m.frames.len() implies (
        #[trigger] c.m.frames[i]).locals_start <= c.m.locals.len() && c.m.frames[i].slab_start
            <= c.m.slab.len() by {
            assert(b.m.frames[i].locals_start <= b.m.frames[n].locals_start);
        }
    }
}

/// What a failed call drops is all that it added.
proof fn lemma_unwound_restores(a: World, b: World, c: World)
    requires
        inside(a, b),
        c.m == unwound(b.m, a.m),
        c.sh == b.sh,
    ensures
        restores(a, c),
{
    assert(c.m.frames =~= a.m.frames);
    assert(c.m.locals =~= a.m.locals);
    assert(c.m.slab =~= a.m.slab);
}

/// By how much an exchange set the step count back.
pub open spec fn taken_back(x: Exchange) -> nat {
    match x {
        Exchange::Hook { steps, reply, .. } => if hook_steps(steps, reply) < steps {
            (steps - hook_steps(steps, reply)) as nat
        } else {
            0
        },
        _ => 0,
    }
}

/// By how much the hook set the step count back in all.
pub open spec fn setback(said: Seq<Exchange>) -> nat
    decreases said.len(),
{
    if said.len() == 0 {
        0
    } else {
        setback(said.drop_last()) + taken_back(said.last())
    }
}

/// The steps that were counted, with those that the hook took back.
pub open spec fn earned(w: World) -> nat {
    w.sh.steps as nat + setback(w.sh.said)
}

/// Turns and steps are only added.
pub open spec fn counts(a: World, b: World) -> bool {
    a.sh.turns <= b.sh.turns && a.sh.steps <= b.sh.steps
}

/// Turns are only added, and so are steps, but for those that the hook takes
/// back.
pub open spec fn rises(a: World, b: World) -> bool {
    a.sh.turns <= b.sh.turns && earned(a) <= earned(b)
}

/// What was taken back stays so.
proof fn lemma_setback(long: Seq<Exchange>, short: Seq<Exchange>)
    requires
        starts(long, short),
    ensures
        setback(short) <= setback(long),
    decreases long.len(),
{
    if short.len() < long.len() {
        assert(long.drop_last().take(short.len() as int) =~= long.take(short.len() as int));
        lemma_setback(long.drop_last(), short);
    } else {
        assert(long.take(long.len() as int) =~= long);
    }
}

proof fn lemma_hooked_rises(
    w: World,
    fn_id: u32,
    args: Seq<Val>,
    h: crate::vm::world::HookReply,
)
    ensures
        grows(w, hooked(w, fn_id, args, h)),
{
    broadcast use group_starts;

    let c = hooked(w, fn_id, args, h);
    lemma_self_starts(w.m);
    if heard(w, h) is Absent {
    } else {
        assert(c.sh.said.drop_last() =~= w.sh.said);
    }
}

/// A call that was offered to the hook stays inside.
proof fn lemma_hooked_inside(
    a: World,
    w: World,
    fn_id: u32,
    args: Seq<Val>,
    h: crate::vm::world::HookReply,
)
    requires
        inside(a, w),
    ensures
        inside(a, hooked(w, fn_id, args, h)),
{
    let c = hooked(w, fn_id, args, h);
    lemma_hooked_rises(w, fn_id, args, h);
    lemma_grows_trans(a, w, c);
}

/// What a step inside a call may come to.
pub open spec fn stays(a: World, act: Act) -> bool {
    match act {
        Act::Next(w) => inside(a, w),
        Act::Done(_, w) => restores(a, w),
        Act::Fail(_, w) => inside(a, w),
    }
}

/// Taking operands off the stack and going on is steady.
proof fn lemma_taken_inside(a: World, w: World, n: nat)
    requires
        inside(a, w),
        n <= w.m.stack.len(),
    ensures
        inside(a, crate::vm::world::taken(w, n)),
{
    broadcast use group_starts;

    let t = crate::vm::world::taken(w, n);
    lemma_goto(w.m, top_frame(w.m).pc + 1);
    lemma_self_starts(w.m);
    assert(steady(w.m, t.m));
    lemma_steady_inside(a, w, t);
}

proof fn lemma_pushed_inside(a: World, w: World, c: World, v: Val)
    requires
        inside(a, w),
        c.m == push(w.m, v),
        counts(w, c),
        w.sh.limit == c.sh.limit,
        starts(c.sh.said, w.sh.said),
    ensures
        inside(a, c),
{
    lemma_self_starts(w.m);
    lemma_steady_inside(a, w, c);
}

proof fn lemma_counted_inside(a: World, w: World, c: World)
    requires
        inside(a, w),
        c.m == w.m,
        counts(w, c),
        w.sh.limit == c.sh.limit,
        starts(c.sh.said, w.sh.said),
    ensures
        inside(a, c),
{
    lemma_self_starts(w.m);
    lemma_steady_inside(a, w, c);
}

proof fn lemma_plain_stays(a: World, p: Program, w: World, op: Op, rp: Replies)
    requires
        inside(a, w),
        is_plain(op),
    ensures
        stays(a, plain_act(p, w, op, rp)),
{
    broadcast use group_starts;

    lemma_plain_steady(p, w.m, op);
    let s = move_state(plain(p, w.m, op));
    let c = crate::vm::world::with_machine(w, s);
    lemma_steady_inside(a, w, c);
    match plain(p, w.m, op) {
        Move::Ask(f, x, y, t) => {
            let v = Val::Float(rp.floats[0]);
            let d = say(c, Exchange::Float { op: f, a: x, b: y, answer: rp.floats[0] });
            lemma_counted_inside(a, c, d);
            lemma_pushed_inside(a, d, crate::vm::world::with_machine(d, push(t, v)), v);
        },
        _ => {},
    }
}

proof fn lemma_call_after_memo_stays(
    a: World,
    p: Program,
    w: World,
    fn_id: u32,
    args: Seq<Val>,
    node: u32,
    key: Option<(u32, Seq<u8>)>,
    rp: Replies,
)
    requires
        inside(a, w),
    ensures
        stays(a, crate::vm::world::call_after_memo(p, w, fn_id, args, node, key, rp)),
{
    broadcast use group_starts;

    let f = p.functions@[fn_id as int];
    let w0 = say(w, call_entry(p, fn_id, args, node));
    let w1 = hooked(w0, fn_id, args, rp.hook);
    lemma_counted_inside(a, w, w0);
    lemma_hooked_inside(a, w0, fn_id, args, rp.hook);
    let act = crate::vm::world::call_after_memo(p, w, fn_id, args, node, key, rp);
    match heard(w0, rp.hook) {
        crate::vm::world::HookReply::Answered(_, v) => {
            lemma_pushed_inside(a, w1, act->Next_0, v);
        },
        crate::vm::world::HookReply::Failed(_, _) => {},
        _ => {
            if act is Next {
                lemma_entered_inside(
                    a,
                    w1,
                    act->Next_0,
                    f,
                    fn_id,
                    args,
                    Some(crate::vm::records::const_text(p, node)),
                    key,
                );
            }
        },
    }
}

proof fn lemma_call_stays(
    a: World,
    p: Program,
    w: World,
    fn_id: u32,
    arity: u16,
    node: u32,
    rp: Replies,
)
    requires
        inside(a, w),
    ensures
        stays(a, call_act(p, w, fn_id, arity, node, rp)),
{
    broadcast use group_starts;

    if arity <= w.m.stack.len() && fn_id < p.functions@.len() {
        let f = p.functions@[fn_id as int];
        let args = crate::vm::state::top_values(w.m, arity as nat);
        let t = crate::vm::world::taken(w, arity as nat);
        let w0 = say_all(t, call_talk(p, fn_id, args, rp));
        lemma_taken_inside(a, w, arity as nat);
        lemma_counted_inside(a, t, w0);
        if crate::vm::world::memoizable(f, fn_id, args, w0.sh) {
            match crate::vm::world::remembered(fn_id, args, w0.sh) {
                Some(v) => {
                    let c = World {
                        m: push(w0.m, v),
                        sh: crate::vm::world::probed(fn_id, w0.sh, true),
                    };
                    lemma_pushed_inside(a, w0, c, v);
                    let d = say(c, call_entry(p, fn_id, args, node));
                    lemma_counted_inside(a, c, d);
                    lemma_counted_inside(a, d, say(d, Exchange::ExitOk(v)));
                },
                None => {
                    let c = World { sh: crate::vm::world::probed(fn_id, w0.sh, false), ..w0 };
                    lemma_counted_inside(a, w0, c);
                    lemma_call_after_memo_stays(
                        a,
                        p,
                        c,
                        fn_id,
                        args,
                        node,
                        Some((fn_id, crate::vm::memo::memo_key(args))),
                        rp,
                    );
                },
            }
        } else {
            let sh = if f.effects@.len() == 0 {
                crate::vm::world::Shared {
                    skips: crate::vm::state::tick(w0.sh.skips),
                    ..w0.sh
                }
            } else {
                w0.sh
            };
            let c = World { sh, ..w0 };
            lemma_counted_inside(a, w0, c);
            lemma_call_after_memo_stays(a, p, c, fn_id, args, node, None, rp);
        }
    }
}

proof fn lemma_give_back_stays(a: World, w: World, v: Val)
    requires
        w.m.frames.len() <= a.m.frames.len() ==> restores(a, w),
        w.m.frames.len() > a.m.frames.len() ==> inside(a, w),
    ensures
        stays(a, give_back(w, a.m.frames.len(), v)),
{
    broadcast use group_starts;

    if w.m.frames.len() > a.m.frames.len() {
        lemma_pushed_inside(a, w, crate::vm::world::with_machine(w, push(w.m, v)), v);
    }
}

proof fn lemma_tail_call_stays(
    a: World,
    p: Program,
    w: World,
    fn_id: u32,
    arity: u16,
    node: u32,
    rp: Replies,
)
    requires
        inside(a, w),
    ensures
        stays(a, tail_call_act(p, a.m.frames.len(), w, fn_id, arity, node, rp)),
{
    broadcast use group_starts;

    if arity <= w.m.stack.len() && fn_id < p.functions@.len() {
        let f = p.functions@[fn_id as int];
        let args = crate::vm::state::top_values(w.m, arity as nat);
        let t = crate::vm::world::taken(w, arity as nat);
        let w0 = say_all(t, call_talk(p, fn_id, args, rp));
        lemma_taken_inside(a, w, arity as nat);
        lemma_counted_inside(a, t, w0);
        let w1 = say(say(w0, Exchange::ExitTail), call_entry(p, fn_id, args, node));
        lemma_counted_inside(a, w0, w1);
        let w2 = hooked(w1, fn_id, args, rp.hook);
        lemma_hooked_inside(a, w1, fn_id, args, rp.hook);
        let text = crate::vm::records::const_text(p, node);
        let c = crate::vm::world::with_machine(w2, replaced(f, fn_id, w0.m, args, text));
        lemma_replaced_inside(a, w2, c, f, fn_id, args, text);
        match heard(w1, rp.hook) {
            crate::vm::world::HookReply::Answered(_, v) => {
                let w3 = say(w2, Exchange::ExitOk(v));
                lemma_counted_inside(a, w2, w3);
                let d = crate::vm::world::with_machine(w3, left(w0.m));
                lemma_left(a, w3, d);
                lemma_give_back_stays(a, d, v);
            },
            _ => {},
        }
    }
}

proof fn lemma_call_closure_stays(
    a: World,
    p: Program,
    w: World,
    arity: u16,
    node: u32,
    rp: Replies,
)
    requires
        inside(a, w),
    ensures
        stays(a, call_closure_act(p, w, arity, node, rp)),
{
    broadcast use group_starts;

    if arity + 1 <= w.m.stack.len() {
        lemma_taken_inside(a, w, (arity + 1) as nat);
        let t = crate::vm::world::taken(w, (arity + 1) as nat);
        match operand(w.m, arity as nat) {
            Val::Closure { fn_id, captures, .. } => {
                let w0 = say_all(t, budget_talk(p.functions@[fn_id as int], rp));
                lemma_counted_inside(a, t, w0);
                let args = captures + crate::vm::state::top_values(w.m, arity as nat);
                let w1 = say(w0, call_entry(p, fn_id, args, node));
                lemma_counted_inside(a, w0, w1);
                let act = call_closure_act(p, w, arity, node, rp);
                if act is Next {
                    lemma_entered_inside(
                        a,
                        w1,
                        act->Next_0,
                        p.functions@[fn_id as int],
                        fn_id,
                        args,
                        Some(crate::vm::records::const_text(p, node)),
                        None,
                    );
                }
            },
            _ => {},
        }
    }
}

proof fn lemma_return_stays(a: World, w: World)
    requires
        inside(a, w),
    ensures
        stays(a, return_act(a.m.frames.len(), w)),
{
    broadcast use group_starts;

    if w.m.stack.len() >= 1 {
        let v = operand(w.m, 0);
        let t = crate::vm::world::with_machine(w, drop_top(w.m, 1));
        lemma_self_starts(w.m);
        lemma_steady_inside(a, w, t);
        let told = if top_frame(w.m).node is Some {
            say(w, Exchange::ExitOk(v))
        } else {
            w
        };
        let c = World {
            m: left(drop_top(w.m, 1)),
            sh: crate::vm::world::remember(told.sh, top_frame(w.m).memo_key, v),
        };
        lemma_left(a, t, c);
        lemma_give_back_stays(a, c, v);
    }
}

/// The world behind calls that each restore the world they were made in.
proof fn lemma_row_restores(calls: Seq<Call>, w0: World, n: int)
    requires
        0 <= n <= calls.len(),
        forall|k: int|
            0 <= k < calls.len() ==> (#[trigger] calls[k]).before == world_before(calls, k, w0),
        forall|k: int|
            0 <= k < calls.len() ==> restores((#[trigger] calls[k]).before, calls[k].after),
    ensures
        restores(w0, world_before(calls, n, w0)),
    decreases n,
{
    broadcast use group_starts;

    if n > 0 {
        lemma_row_restores(calls, w0, n - 1);
        let c = calls[n - 1];
        assert(c.before == world_before(calls, n - 1, w0));
        lemma_grows_trans(w0, c.before, c.after);
    } else {
        lemma_self_starts(w0.m);
    }
}

proof fn lemma_row_inside(a: World, calls: Seq<Call>, w0: World)
    requires
        inside(a, w0),
        forall|k: int|
            0 <= k < calls.len() ==> (#[trigger] calls[k]).before == world_before(calls, k, w0),
        forall|k: int|
            0 <= k < calls.len() ==> restores((#[trigger] calls[k]).before, calls[k].after),
    ensures
        inside(a, world_after(calls, w0)),
{
    lemma_row_restores(calls, w0, calls.len() as int);
    lemma_same_inside(a, w0, world_after(calls, w0));
}

/// Calls that each restore the world they were made in.
pub open spec fn all_restore(calls: Seq<Call>) -> bool {
    forall|k: int| 0 <= k < calls.len() ==> restores((#[trigger] calls[k]).before, calls[k].after)
}

proof fn lemma_push_on_inside(a: World, w: World, v: Val)
    requires
        inside(a, w),
    ensures
        inside(a, crate::vm::runs::push_on(w, v)),
{
    broadcast use group_starts;

    lemma_pushed_inside(a, w, crate::vm::runs::push_on(w, v), v);
}

proof fn lemma_lists_stay(a: World, w: World, calls: Seq<Call>, act: Act)
    requires
        inside(a, w),
        all_restore(calls),
        crate::vm::runs::map_acts(w, calls, act) || crate::vm::runs::filter_acts(w, calls, act)
            || crate::vm::runs::sort_acts(w, calls, act),
    ensures
        stays(a, act),
{
    if w.m.stack.len() >= 2 {
        lemma_taken_inside(a, w, 2);
        let w0 = crate::vm::world::taken(w, 2);
        if (forall|k: int|
            0 <= k < calls.len() ==> (#[trigger] calls[k]).before == world_before(calls, k, w0)) {
            lemma_row_inside(a, calls, w0);
            match act {
                Act::Next(w1) => {
                    if w1.m.stack.len() > 0 {
                        lemma_push_on_inside(a, world_after(calls, w0), w1.m.stack.last());
                    }
                },
                _ => {},
            }
        } else {
            let f = operand(w.m, 0);
            if operand(w.m, 1) is List {
                let items = operand(w.m, 1)->List_0;
                assert forall|k: int| 0 <= k < calls.len() && item_call(
                    calls,
                    k,
                    w0,
                    f,
                    items,
                ) implies (#[trigger] calls[k]).before == world_before(calls, k, w0) by {}
            }
        }
    }
}

proof fn lemma_fold_stays(a: World, w: World, calls: Seq<Call>, act: Act)
    requires
        inside(a, w),
        all_restore(calls),
        crate::vm::runs::fold_acts(w, calls, act),
    ensures
        stays(a, act),
{
    if w.m.stack.len() >= 3 {
        lemma_taken_inside(a, w, 3);
        let w0 = crate::vm::world::taken(w, 3);
        let f = operand(w.m, 0);
        let init = operand(w.m, 1);
        match crate::vm::runs::list_operands(w.m, 1, "ListFold"@) {
            Ok((items, g)) => {
                assert forall|k: int| 0 <= k < calls.len() implies (#[trigger] calls[k]).before
                    == world_before(calls, k, w0) by {
                    assert(fold_call(calls, k, w0, g, init, items));
                }
                lemma_row_inside(a, calls, w0);
                match act {
                    Act::Next(w1) => {
                        lemma_push_on_inside(
                            a,
                            world_after(calls, w0),
                            crate::vm::runs::accumulated(calls, calls.len() as int, init),
                        );
                    },
                    _ => {},
                }
            },
            Err(_) => {},
        }
    }
}

proof fn lemma_par_map_stays(a: World, w: World, rp: Replies)
    requires
        inside(a, w),
    ensures
        stays(a, crate::vm::runs::par_map_act(w, rp)),
{
    broadcast use group_starts;

    if w.m.stack.len() >= 2 {
        lemma_taken_inside(a, w, 2);
        let popped = crate::vm::world::taken(w, 2);
        let asked = say(popped, Exchange::MaxWorkers(rp.max_workers));
        let w0 = say_all(asked, crate::vm::runs::seat_talk(rp.seats));
        lemma_counted_inside(a, popped, asked);
        lemma_counted_inside(a, asked, w0);
        match crate::vm::runs::list_operands(w.m, 0, "ParallelMap"@) {
            Ok((items, f)) => {
                let w1 = say(
                    w0,
                    Exchange::ParMap {
                        closure: f,
                        items,
                        seats: rp.seats,
                        limit: w.sh.limit,
                        answer: rp.mapped,
                    },
                );
                lemma_counted_inside(a, w0, w1);
                lemma_push_on_inside(a, w0, Val::List(Seq::empty()));
                if rp.mapped is Ok {
                    lemma_push_on_inside(a, w1, Val::List(rp.mapped->Ok_0));
                }
            },
            Err(_) => {},
        }
    }
}

proof fn lemma_effect_stays(
    a: World,
    p: Program,
    w: World,
    kind_idx: u32,
    op_idx: u32,
    n: u16,
    node_idx: u32,
    rp: Replies,
    calls: Seq<Call>,
    act: Act,
)
    requires
        inside(a, w),
        all_restore(calls),
        crate::vm::runs::effect_acts(p, w, kind_idx, op_idx, n, node_idx, rp, calls, act),
    ensures
        stays(a, act),
{
    broadcast use group_starts;

    if n <= w.m.stack.len() {
        lemma_taken_inside(a, w, n as nat);
        let w0 = crate::vm::world::taken(w, n as nat);
        let args = crate::vm::runs::effect_args(p, w.m, n);
        let kind = crate::vm::records::str_const(
            p,
            kind_idx,
            "expected Str const for effect kind"@,
        );
        let op = crate::vm::records::str_const(p, op_idx, "expected Str const for effect op"@);
        if args is Ok && kind is Ok && op is Ok {
            let told = crate::vm::runs::announced(
                p,
                w0,
                kind->Ok_0,
                op->Ok_0,
                args->Ok_0,
                node_idx,
                rp,
            );
            lemma_counted_inside(a, w0, told);
            let (r, w1) = choose|r: Result<Val, Seq<char>>, w1: World| #[trigger]
                crate::vm::runs::effect_ends(
                    p,
                    told,
                    kind->Ok_0,
                    op->Ok_0,
                    args->Ok_0,
                    rp,
                    calls,
                    r,
                    w1,
                    act,
                );
            lemma_effect_result_inside(
                a,
                p,
                told,
                kind->Ok_0,
                op->Ok_0,
                args->Ok_0,
                rp,
                calls,
                r,
                w1,
            );
            match r {
                Ok(v) => {
                    let w2 = say(w1, Exchange::ExitOk(v));
                    lemma_counted_inside(a, w1, w2);
                    lemma_push_on_inside(a, w2, v);
                },
                Err(t) => {
                    lemma_counted_inside(a, w1, say(w1, Exchange::ExitErr(t)));
                },
            }
        }
    }
}

proof fn lemma_effect_result_inside(
    a: World,
    p: Program,
    w: World,
    kind: Seq<char>,
    op: Seq<char>,
    args: Seq<Val>,
    rp: Replies,
    calls: Seq<Call>,
    r: Result<Val, Seq<char>>,
    w1: World,
)
    requires
        inside(a, w),
        all_restore(calls),
        crate::vm::runs::effect_result(p, w, kind, op, args, rp, calls, r, w1),
    ensures
        inside(a, w1),
{
    broadcast use group_starts;

    if rp.overridden is None {
        if kind == "parser"@ && op == "run"@ {
            if args.len() > 0 && crate::vm::runs::arg_text(args, 1) is Some {
                lemma_row_inside(a, calls, w);
                lemma_counted_inside(a, world_after(calls, w), w1);
            }
        } else if kind == "conc"@ {
            if op == "spawn"@ {
                lemma_counted_inside(a, w, w1);
            } else if op == "ask"@ || op == "tell"@ {
                let target = crate::vm::world::arg_at(args, 0);
                match (target, rp.actor) {
                    (Val::Actor(handle), Some(actor)) => match actor.handler {
                        crate::vm::world::Behaviour::Lex(_) => {
                            let w0 = say(
                                w,
                                Exchange::TakeActor { handle, actor: rp.actor },
                            );
                            lemma_counted_inside(a, w, w0);
                            assert(restores(calls[0].before, calls[0].after));
                            lemma_same_inside(a, w0, calls[0].after);
                            lemma_counted_inside(a, calls[0].after, w1);
                        },
                        _ => {
                            let w0 = say(
                                w,
                                Exchange::TakeActor { handle, actor: rp.actor },
                            );
                            let back = say(w0, Exchange::PutActor { handle, actor });
                            lemma_counted_inside(a, w, w0);
                            lemma_counted_inside(a, w0, back);
                            lemma_counted_inside(a, back, w1);
                        },
                    },
                    _ => {
                        lemma_counted_inside(a, w, w1);
                    },
                }
            } else {
                lemma_counted_inside(a, w, w1);
            }
        } else {
            lemma_counted_inside(a, w, w1);
        }
    }
}

proof fn lemma_op_stays(
    a: World,
    p: Program,
    w: World,
    op: Op,
    rp: Replies,
    calls: Seq<Call>,
    act: Act,
)
    requires
        inside(a, w),
        all_restore(calls),
        op_acts(p, a.m.frames.len(), w, op, rp, calls, act),
    ensures
        stays(a, act),
{
    reveal(op_acts);
    match op {
        Op::Call { fn_id, arity, node_id_idx } => {
            lemma_call_stays(a, p, w, fn_id, arity, node_id_idx, rp);
        },
        Op::TailCall { fn_id, arity, node_id_idx } => {
            lemma_tail_call_stays(a, p, w, fn_id, arity, node_id_idx, rp);
        },
        Op::CallClosure { arity, node_id_idx } => {
            lemma_call_closure_stays(a, p, w, arity, node_id_idx, rp);
        },
        Op::Return => {
            lemma_return_stays(a, w);
        },
        Op::ListMap { .. } => {
            lemma_lists_stay(a, w, calls, act);
        },
        Op::ListFilter { .. } => {
            lemma_lists_stay(a, w, calls, act);
        },
        Op::SortByKey { .. } => {
            lemma_lists_stay(a, w, calls, act);
        },
        Op::ListFold { .. } => {
            lemma_fold_stays(a, w, calls, act);
        },
        Op::ParallelMap { .. } => {
            lemma_par_map_stays(a, w, rp);
        },
        Op::EffectCall { kind_idx, op_idx, arity, node_id_idx } => {
            lemma_effect_stays(a, p, w, kind_idx, op_idx, arity, node_id_idx, rp, calls, act);
        },
        _ => {
            lemma_plain_stays(a, p, w, op, rp);
        },
    }
}

proof fn lemma_step_stays(a: World, p: Program, st: Step)
    requires
        inside(a, st.before),
        valid_step(p, a.m.frames.len(), st),
    ensures
        stays(a, st.act),
        st.act is Next ==> earned(st.before) < earned(st.act->Next_0) && starts(
            st.act->Next_0.sh.said,
            st.before.sh.said,
        ),
    decreases st, 0nat,
{
    broadcast use group_starts;

    assert forall|k: int| 0 <= k < st.calls.len() implies restores(
        (#[trigger] st.calls[k]).before,
        st.calls[k].after,
    ) by {
        law_call_restores(p, st.calls[k]);
    }
    if !crate::vm::world::exhausted(st.before) {
        let w = crate::vm::world::turned(st.before, (st.before.sh.steps + 1) as u64);
        lemma_counted_inside(a, st.before, w);
        match crate::vm::world::fetch(p, w.m) {
            Some(op) => {
                lemma_op_stays(a, p, w, op, st.replies, st.calls, st.act);
                // The same step, seen from the world it starts in.
                lemma_op_stays_from(a, p, w, op, st);
            },
            None => {},
        }
    }
}

/// The step count falls by no more than the hook took back during a step.
proof fn lemma_op_stays_from(a: World, p: Program, w: World, op: Op, st: Step)
    requires
        inside(a, w),
        all_restore(st.calls),
        op_acts(p, a.m.frames.len(), w, op, st.replies, st.calls, st.act),
    ensures
        st.act is Next ==> rises(w, st.act->Next_0) && starts(st.act->Next_0.sh.said, w.sh.said),
{
    // Counted from a world that has taken as many steps as `w`.
    let b = World { sh: w.sh, ..a };
    lemma_rebased(a, b, w);
    lemma_op_stays(b, p, w, op, st.replies, st.calls, st.act);
}

proof fn lemma_rebased(a: World, b: World, w: World)
    requires
        inside(a, w),
        b == (World { sh: w.sh, ..a }),
    ensures
        inside(b, w),
{
    broadcast use group_starts;

}

/// The run of a call, step by step.
proof fn lemma_run_stays(a: World, p: Program, run: Run, n: int)
    requires
        run.steps.len() > 0,
        valid_run(p, a.m.frames.len(), run.steps[0].before, run),
        inside(a, run.steps[0].before),
        0 <= n < run.steps.len(),
    ensures
        inside(a, run.steps[n].before),
        stays(a, run.steps[n].act),
    decreases run, n + 1,
{
    if n > 0 {
        lemma_run_stays(a, p, run, n - 1);
        assert(leads_on(run.steps, n - 1));
    }
    assert(valid_step(p, a.m.frames.len(), run.steps[n]));
    lemma_step_stays(a, p, run.steps[n]);
}

/// Law: a call, whether it ends with a value or fails, leaves the frames, the
/// locals and the slab exactly as it found them. The arena keeps what it held,
/// what was said stays said, request scopes stay open, and the step count falls
/// by no more than a hook took back.
pub proof fn law_call_restores(p: Program, c: Call)
    requires
        valid_call(p, c),
    ensures
        restores(c.before, c.after),
    decreases c, 1nat,
{
    broadcast use group_starts;

    lemma_self_starts(c.before.m);
    match c.callee {
        Callee::Function(fn_id) => {
            lemma_invocation_restores(p, c, fn_id, c.args);
        },
        Callee::Value(Val::Closure { fn_id, captures, .. }) => {
            lemma_invocation_restores(p, c, fn_id, captures + c.args);
        },
        _ => {},
    }
}

proof fn lemma_invocation_restores(p: Program, c: Call, fn_id: u32, args: Seq<Val>)
    requires
        valid_invocation(p, c, fn_id, args),
    ensures
        restores(c.before, c.after),
    decreases c, 0nat,
{
    broadcast use group_starts;

    lemma_self_starts(c.before.m);
    if fn_id < p.functions@.len() && args.len() == p.functions@[fn_id as int].arity {
        let f = p.functions@[fn_id as int];
        let told = say_all(c.before, refinement_asks(f, args, 0, c.replies.floats, 0));
        lemma_setback(told.sh.said, c.before.sh.said);
        assert(grows(c.before, told));
        if crate::vm::world::refinement_fault(f, args, 0, c.replies.floats, 0).0 is None {
            let w = hooked(told, fn_id, args, c.replies.hook);
            lemma_hooked_rises(told, fn_id, args, c.replies.hook);
            lemma_grows_trans(c.before, told, w);
            let goes_on = match heard(told, c.replies.hook) {
                crate::vm::world::HookReply::Failed(_, _) => false,
                crate::vm::world::HookReply::Answered(_, _) => false,
                _ => crate::vm::world::entry_fault(f, w.m, args) is None,
            };
            if goes_on {
                let inner = crate::vm::world::with_machine(
                    w,
                    entered(f, fn_id, w.m, args, None, None),
                );
                lemma_first_frame_inside(c.before, w, inner, f, fn_id, args);
                let n = c.run.steps.len() - 1;
                lemma_run_stays(c.before, p, c.run, n);
                match run_end(c.run) {
                    Some((Outcome::Fault(_), after)) => {
                        lemma_unwound_restores(c.before, after, c.after);
                    },
                    _ => {},
                }
            }
        }
    }
}

/// How many turns with an op are left.
pub open spec fn turns_left(w: World) -> nat {
    if crate::vm::world::exhausted(w) {
        0
    } else {
        (w.sh.limit - w.sh.steps + 1) as nat
    }
}

/// Law: a run makes one turn at most behind those that the step limit allows,
/// not counting those that a hook took back from the step count meanwhile.
pub proof fn law_step_limit_bounds_run(a: World, p: Program, w: World, run: Run)
    requires
        inside(a, w),
        valid_run(p, a.m.frames.len(), w, run),
    ensures
        run.steps.len() + setback(w.sh.said) <= turns_left(w) + 1 + setback(
            run.steps.last().before.sh.said,
        ),
{
    lemma_turns(a, p, w, run, run.steps.len() - 1);
}

proof fn lemma_turns(a: World, p: Program, w: World, run: Run, n: int)
    requires
        inside(a, w),
        valid_run(p, a.m.frames.len(), w, run),
        0 <= n < run.steps.len(),
    ensures
        n + turns_left(run.steps[n].before) + setback(w.sh.said) <= turns_left(w) + setback(
            run.steps[n].before.sh.said,
        ),
    decreases n,
{
    if n > 0 {
        lemma_turns(a, p, w, run, n - 1);
        assert(leads_on(run.steps, n - 1));
        lemma_run_stays(a, p, run, n - 1);
        assert(valid_step(p, a.m.frames.len(), run.steps[n - 1]));
        lemma_step_stays(a, p, run.steps[n - 1]);
        lemma_setback(run.steps[n].before.sh.said, run.steps[n - 1].before.sh.said);
    }
}

} // verus!
