//! What calls, closures, returns and tail calls do to frames, and when a call
//! is refused or answered from memory.

use vstd::prelude::*;

use crate::ast::CExpr;
use crate::meaning::value_of;
use crate::program::{Function, Program, Refinement};
use crate::value::Val;
use crate::vm::fault::Fault;
use crate::vm::memo::memo_key;
use crate::vm::refine_laws::{is_predicate, law_predicates_mean_their_expressions, tame};
use crate::vm::state::{FrameView, State};
use crate::vm::world::{
    call_act, call_checked, call_closure_act, refinement_fault, return_act, tail_call_act, Act,
    Replies, World,
};

verus! {

/// The frame that runs is one of this function at its start, its first locals
/// hold the arguments, and the others nothing yet.
pub open spec fn is_opened(s: State, fn_id: u32, args: Seq<Val>) -> bool {
    let f = s.frames.last();
    &&& s.frames.len() > 0
    &&& f.fn_id == fn_id
    &&& f.pc == 0
    &&& f.stack_base == s.stack.len()
    &&& f.locals_start + f.locals_len == s.locals.len()
    &&& args.len() <= f.locals_len
    &&& forall|i: int|
        0 <= i < args.len() ==> s.locals[f.locals_start + i] == #[trigger] args[i]
    &&& forall|j: int|
        f.locals_start + args.len() <= j < s.locals.len() ==> #[trigger] s.locals[j] == Val::Unit
}

/// The frames of the callers, the one that called being behind its op.
pub open spec fn callers(s: State) -> Seq<FrameView> {
    s.frames.drop_last().push(FrameView { pc: s.frames.last().pc + 1, ..s.frames.last() })
}

/// Law: a call that opens a frame takes its arguments off the stack and puts
/// them into the first locals of the frame, in their order. The caller goes on
/// behind the call, and its operands and locals stay. A call that opens none
/// leaves one value in the place of its arguments.
pub proof fn law_call_opens_a_frame(
    p: Program,
    w: World,
    fn_id: u32,
    arity: u16,
    node_idx: u32,
    rp: Replies,
    w2: World,
)
    requires
        w.m.frames.len() > 0,
        call_act(p, w, fn_id, arity, node_idx, rp) == Act::Next(w2),
    ensures
        w.m.stack.len() >= arity,
        w2.m.frames.len() > w.m.frames.len() ==> {
            &&& is_opened(w2.m, fn_id, w.m.stack.skip(w.m.stack.len() - arity))
            &&& w2.m.stack == w.m.stack.take(w.m.stack.len() - arity)
            &&& w2.m.frames.drop_last() == callers(w.m)
            &&& w2.m.frames.last().locals_start == w.m.locals.len()
            &&& w2.m.locals.take(w.m.locals.len() as int) == w.m.locals
            &&& w2.m.slab == w.m.slab
        },
        w2.m.frames.len() <= w.m.frames.len() ==> {
            &&& w2.m.stack.len() == w.m.stack.len() - arity + 1
            &&& w2.m.stack.drop_last() == w.m.stack.take(w.m.stack.len() - arity)
            &&& w2.m.frames == callers(w.m)
            &&& w2.m.locals == w.m.locals
        },
{
    let f = w.m.frames.last();
    assert(w.m.frames.update(w.m.frames.len() - 1, FrameView { pc: f.pc + 1, ..f }) =~= callers(
        w.m,
    ));
    assert(w2.m.frames.len() > w.m.frames.len() ==> w2.m.frames.drop_last() =~= callers(w.m));
    assert(w2.m.frames.len() > w.m.frames.len() ==> w2.m.locals.take(w.m.locals.len() as int)
        =~= w.m.locals);
    assert(w2.m.frames.len() <= w.m.frames.len() ==> w2.m.stack.drop_last() =~= w.m.stack.take(
        w.m.stack.len() - arity,
    ));
}

/// Law: the call of a closure opens a frame of the function of the closure,
/// whose first locals hold what the closure captured and behind that the
/// arguments.
pub proof fn law_closure_call_passes_captures_first(
    p: Program,
    w: World,
    arity: u16,
    node_idx: u32,
    rp: Replies,
    w2: World,
    st: Seq<Val>,
    fn_id: u32,
    body_hash: Seq<u8>,
    captures: Seq<Val>,
    args: Seq<Val>,
)
    requires
        w.m.frames.len() > 0,
        args.len() == arity,
        w.m.stack == st.push(Val::Closure { fn_id, body_hash, captures }) + args,
        call_closure_act(p, w, arity, node_idx, rp) == Act::Next(w2),
    ensures
        is_opened(w2.m, fn_id, captures + args),
        w2.m.stack == st,
        w2.m.frames.drop_last() == callers(w.m),
        w2.m.locals.take(w.m.locals.len() as int) == w.m.locals,
{
    let f = w.m.frames.last();
    assert(w.m.frames.update(w.m.frames.len() - 1, FrameView { pc: f.pc + 1, ..f }) =~= callers(
        w.m,
    ));
    assert(w.m.stack.skip(w.m.stack.len() - arity) =~= args);
    assert(w.m.stack.take(w.m.stack.len() - (arity + 1)) =~= st);
    assert(w2.m.frames.drop_last() =~= callers(w.m));
    assert(w2.m.locals.take(w.m.locals.len() as int) =~= w.m.locals);
}

/// Law: a return takes the topmost operand as the result, drops the frame with
/// its operands, locals and slab slots, and leaves the result on the stack of
/// the caller; the last frame of a run ends the run with the result.
pub proof fn law_return_gives_the_value_back(base: nat, w: World, v: Val)
    requires
        w.m.frames.len() > 0,
        w.m.stack.len() > w.m.frames.last().stack_base,
        w.m.stack.last() == v,
        w.m.locals.len() >= w.m.frames.last().locals_start,
        w.m.slab.len() >= w.m.frames.last().slab_start,
    ensures
        match return_act(base, w) {
            Act::Done(r, w2) => w.m.frames.len() - 1 <= base && r == v && w2.m.frames
                == w.m.frames.drop_last(),
            Act::Next(w2) => {
                &&& w.m.frames.len() - 1 > base
                &&& w2.m.frames == w.m.frames.drop_last()
                &&& w2.m.stack == w.m.stack.take(w.m.frames.last().stack_base as int).push(v)
                &&& w2.m.locals == w.m.locals.take(w.m.frames.last().locals_start as int)
                &&& w2.m.slab == w.m.slab.take(w.m.frames.last().slab_start as int)
            },
            Act::Fail(_, _) => false,
        },
{
    let f = w.m.frames.last();
    let short = w.m.stack.take(w.m.stack.len() - 1);
    assert(short.take(f.stack_base as int) =~= w.m.stack.take(f.stack_base as int));
}

/// Law: a tail call that goes on replaces the running frame by one of the called
/// function, whose first locals hold the arguments; the callers stay.
pub proof fn law_tail_call_replaces_the_frame(
    p: Program,
    base: nat,
    w: World,
    fn_id: u32,
    arity: u16,
    node_idx: u32,
    rp: Replies,
    w2: World,
)
    requires
        w.m.frames.len() > 0,
        w.m.locals.len() >= w.m.frames.last().locals_start,
        tail_call_act(p, base, w, fn_id, arity, node_idx, rp) == Act::Next(w2),
        w2.m.frames.len() == w.m.frames.len(),
    ensures
        w2.m.frames.drop_last() == w.m.frames.drop_last(),
        w2.m.frames.last().fn_id == fn_id,
        w2.m.frames.last().pc == 0,
        w2.m.frames.last().stack_base == w.m.frames.last().stack_base,
        w2.m.frames.last().locals_start == w.m.frames.last().locals_start,
        w2.m.stack == w.m.stack.take(w.m.stack.len() - arity),
        forall|i: int|
            0 <= i < arity ==> w2.m.locals[w.m.frames.last().locals_start + i]
                == #[trigger] w.m.stack[w.m.stack.len() - arity + i],
{
    assert(w2.m.frames.drop_last() =~= w.m.frames.drop_last());
    let args = w.m.stack.skip(w.m.stack.len() - arity);
    assert forall|i: int| 0 <= i < arity implies w2.m.locals[w.m.frames.last().locals_start + i]
        == #[trigger] w.m.stack[w.m.stack.len() - arity + i] by {
        assert(args[i] == w.m.stack[w.m.stack.len() - arity + i]);
    }
}

// ---------------------------------------------------------------------------
// Refined parameters
// ---------------------------------------------------------------------------

/// Whether the argument of a parameter satisfies its predicate, if the
/// parameter has one: the expression is true, or it is false.
pub open spec fn satisfied(f: Function, args: Seq<Val>, i: int, yes: bool) -> bool {
    f.refinements@[i] matches Some(r) ==> {
        let env = Map::empty().insert(
            r.binding@,
            if i < args.len() {
                args[i]
            } else {
                Val::Unit
            },
        );
        &&& is_predicate(*r.predicate)
        &&& tame(*r.predicate, env)
        &&& value_of(*r.predicate, env) == Some(Val::Bool(yes))
    }
}

spec fn predicate_of(r: Refinement) -> CExpr {
    *r.predicate
}

/// The refinements from parameter `i` on.
proof fn lemma_refined(
    f: Function,
    args: Seq<Val>,
    i: nat,
    k: nat,
    floats: Seq<u64>,
    at: nat,
)
    requires
        i <= k <= f.refinements@.len(),
        forall|j: int| i <= j < k ==> #[trigger] satisfied(f, args, j, true),
    ensures
        refinement_fault(f, args, i, floats, at) == refinement_fault(f, args, k, floats, at),
    decreases k - i,
{
    if i < k {
        assert(satisfied(f, args, i as int, true));
        if let Some(r) = f.refinements@[i as int] {
            law_predicates_mean_their_expressions(
                predicate_of(r),
                r.binding@,
                crate::vm::world::arg_at(args, i),
                floats,
                at,
                Val::Bool(true),
            );
        }
        lemma_refined(f, args, i + 1, k, floats, at);
    }
}

/// Law: a call is not refused on account of its arguments if the predicate of
/// every refined parameter is true of its argument.
pub proof fn law_satisfied_predicates_let_a_call_through(
    f: Function,
    args: Seq<Val>,
    floats: Seq<u64>,
)
    requires
        forall|j: int| 0 <= j < f.refinements@.len() ==> #[trigger] satisfied(f, args, j, true),
    ensures
        refinement_fault(f, args, 0, floats, 0).0 is None,
{
    lemma_refined(f, args, 0, f.refinements@.len(), floats, 0);
}

/// Law: a call is refused if the predicate of a refined parameter is false of
/// its argument, and the error names the function, the first such parameter and
/// its binding.
pub proof fn law_violated_predicates_refuse_a_call(
    f: Function,
    args: Seq<Val>,
    floats: Seq<u64>,
    k: int,
)
    requires
        0 <= k < f.refinements@.len(),
        f.refinements@[k] is Some,
        satisfied(f, args, k, false),
        forall|j: int| 0 <= j < k ==> #[trigger] satisfied(f, args, j, true),
    ensures
        refinement_fault(f, args, 0, floats, 0).0 matches Some(
            Fault::RefinementFailed { fn_name, param_index, binding, .. },
        ) && fn_name == f.name@ && param_index == k && binding == f.refinements@[k]->0.binding@,
{
    lemma_refined(f, args, 0, k as nat, floats, 0);
    let r = f.refinements@[k]->0;
    law_predicates_mean_their_expressions(
        predicate_of(r),
        r.binding@,
        crate::vm::world::arg_at(args, k as nat),
        floats,
        0,
        Val::Bool(false),
    );
}

// ---------------------------------------------------------------------------
// Memory
// ---------------------------------------------------------------------------

/// Law: a function that declares an effect is never answered from memory, and
/// nothing of it is remembered: its frame carries no place for its result.
pub proof fn law_effectful_calls_are_not_remembered(
    p: Program,
    w: World,
    fn_id: u32,
    args: Seq<Val>,
    node_idx: u32,
    rp: Replies,
)
    requires
        fn_id < p.functions@.len(),
        p.functions@[fn_id as int].effects@.len() > 0,
        w.m.frames.len() > 0,
    ensures
        call_checked(p, w, fn_id, args, node_idx, rp) matches Act::Next(w2) ==> {
            &&& w2.sh.memo == w.sh.memo
            &&& w2.m.frames.len() > w.m.frames.len() ==> w2.m.frames.last().memo_key is None
        },
{
}

/// Law: what a call of a pure function returned is the answer to the next call
/// of it with arguments of the same key. The return puts the result where the
/// call looks for it.
pub proof fn law_results_are_remembered(
    p: Program,
    base: nat,
    w: World,
    w2: World,
    v: Val,
    fn_id: u32,
    args: Seq<Val>,
    node_idx: u32,
    rp: Replies,
)
    requires
        w.m.frames.len() > 0,
        w.m.stack.len() > 0,
        w.m.stack.last() == v,
        w.m.frames.last().memo_key == Some((fn_id, memo_key(args))),
        return_act(base, w) == Act::Next(w2),
        fn_id < p.functions@.len(),
        p.functions@[fn_id as int].effects@.len() == 0,
        fn_id < w2.sh.fns.len(),
        w2.sh.fns[fn_id as int].enabled,
        crate::value_ops::all_owned(args),
        crate::vm::memo::args_cost(args) <= 4096,
    ensures
        call_checked(p, w2, fn_id, args, node_idx, rp) matches Act::Next(w3) && w3.m.stack
            == w2.m.stack.push(v) && w3.m.frames == w2.m.frames && w3.m.locals == w2.m.locals,
{
}

/// Law: a call of a pure function that opens a frame is looked up under its
/// function and the key of its arguments, so its result is remembered there.
pub proof fn law_a_missed_call_knows_its_place(
    p: Program,
    w: World,
    fn_id: u32,
    args: Seq<Val>,
    node_idx: u32,
    rp: Replies,
    w2: World,
)
    requires
        w.m.frames.len() > 0,
        fn_id < p.functions@.len(),
        call_checked(p, w, fn_id, args, node_idx, rp) == Act::Next(w2),
        w2.m.frames.len() > w.m.frames.len(),
    ensures
        w2.m.frames.last().memo_key matches Some(key) ==> key == (fn_id, memo_key(args))
            && !w.sh.memo.contains_key(key),
{
}

} // verus!
