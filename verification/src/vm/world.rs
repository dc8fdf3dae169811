//! What a run of the machine is.
//!
//! A run is a list of steps, one for each turn of the interpreter loop. A step
//! records what the host answered and the calls that were made on the way, each
//! with a run of its own. [`valid_run`] says which runs the machine can have:
//! every step is determined by the state it starts in and by the answers and
//! the calls that it records.

use vstd::prelude::*;

use crate::op::Op;
use crate::program::{EffectArg, Function, Program};
use crate::text::decimal;
use crate::value::Val;
use crate::value_ops::all_owned;
use crate::vm::fault::{mismatch_fault, Fault};
use crate::vm::shown::shown;
use crate::vm::memo::{args_cost, memo_key, MemoFnState, MEMO_MAX_ARG_BYTES};
use crate::vm::outside::{say, say_all, Exchange};
use crate::vm::plain::{next, no_function, plain, Move};
use crate::vm::records::const_text;
use crate::vm::refine::{asked, holds};
use crate::vm::state::{
    drop_top, operand, push, tick, top_frame, top_values, FrameView, State, MAX_CALL_DEPTH,
    STACK_RECORD_BUDGET_SLOTS,
};
use crate::vm::step::MAX_PC;

verus! {

/// What an actor does with a message.
pub enum Behaviour {
    /// Calls a closure on the state and the message.
    Lex(Val),
    /// Hands the message to the host.
    Native(u64),
}

/// An actor.
pub struct Actor {
    pub state: Val,
    pub handler: Behaviour,
}

/// What outlives the frames.
pub struct Shared {
    /// How many steps have been taken, and how many may be. A call hook counts
    /// as it likes.
    pub steps: u64,
    pub limit: u64,
    /// How many ops were carried out and calls offered to a hook. Without a
    /// hook that is the number of steps.
    pub turns: u64,
    /// Remembered results of pure functions.
    pub memo: Map<(u32, Seq<u8>), Val>,
    pub fns: Seq<MemoFnState>,
    pub hits: u64,
    pub misses: u64,
    pub skips: u64,
    /// Whether calls are offered to a hook.
    pub has_hook: bool,
    /// The exchanges with the program around the machine, in order.
    pub said: Seq<Exchange>,
}

/// Everything an op can change.
pub struct World {
    pub m: State,
    pub sh: Shared,
}

/// How a call or a run ends.
pub enum Outcome {
    Value(Val),
    Fault(Fault),
}

/// What a step comes to.
pub enum Act {
    /// The run goes on.
    Next(World),
    /// The run ends with a value.
    Done(Val, World),
    /// The run ends with a failure.
    Fail(Fault, World),
}

/// What an installed call hook answered, with the step count it left.
pub enum HookReply {
    Absent,
    Declined(u64),
    Answered(u64, Val),
    Failed(u64, Fault),
}

/// What the host answered during a step or at the start of a call.
pub struct Replies {
    /// Results of float operations, in order.
    pub floats: Seq<u64>,
    /// Why the budget was refused, if it was.
    pub refusal: Option<Seq<char>>,
    pub hook: HookReply,
    /// The value that the tracer put in the place of an effect.
    pub overridden: Option<Val>,
    /// The result of an effect or of a message to a native actor.
    pub effect: Result<Val, Seq<char>>,
    /// The result of a parallel map.
    pub mapped: Result<Seq<Val>, Fault>,
    /// How many workers it may have, and the names of their handlers.
    pub max_workers: usize,
    pub seats: Seq<Option<u64>>,
    /// The name of a new actor.
    pub handle: u64,
    /// The actor that was handed out.
    pub actor: Option<Actor>,
    /// The names of the actors that were handed out.
    pub names: Map<Seq<char>, Val>,
    /// The shape ids that were handed out.
    pub shapes: Map<Seq<Seq<char>>, u32>,
}

/// One turn of the interpreter loop.
pub struct Step {
    pub before: World,
    pub replies: Replies,
    pub calls: Seq<Call>,
    pub act: Act,
}

/// The turns of the interpreter loop up to the end.
pub struct Run {
    pub steps: Seq<Step>,
}

/// What is called from outside the interpreter loop.
pub enum Callee {
    Function(u32),
    /// A value; only a closure can be called.
    Value(Val),
}

/// One call from outside the interpreter loop.
pub struct Call {
    pub callee: Callee,
    pub args: Seq<Val>,
    pub before: World,
    pub replies: Replies,
    pub run: Run,
    pub outcome: Outcome,
    pub after: World,
}

// ---------------------------------------------------------------------------
// Entering and leaving functions
// ---------------------------------------------------------------------------

/// How many locals a function has.
pub open spec fn locals_needed(f: Function) -> nat {
    if f.locals_count > f.arity {
        f.locals_count as nat
    } else {
        f.arity as nat
    }
}

/// The arguments followed by units, `n` values in all.
pub open spec fn padded(args: Seq<Val>, n: nat) -> Seq<Val> {
    Seq::new(
        n,
        |i: int|
            if i < args.len() {
                args[i]
            } else {
                Val::Unit
            },
    )
}

/// The failure of a frame that would be one too many.
pub open spec fn too_deep() -> Fault {
    Fault::CallStackOverflow(MAX_CALL_DEPTH)
}

pub open spec fn too_many_args() -> Fault {
    Fault::Panic("more arguments than locals"@)
}

/// Whether a frame for a function with these arguments can be opened.
pub open spec fn entry_fault(f: Function, s: State, args: Seq<Val>) -> Option<Fault> {
    if s.frames.len() >= MAX_CALL_DEPTH {
        Some(too_deep())
    } else if args.len() > locals_needed(f) {
        Some(too_many_args())
    } else {
        None
    }
}

/// The state with a new frame.
pub open spec fn entered(
    f: Function,
    fn_id: u32,
    s: State,
    args: Seq<Val>,
    node: Option<Seq<char>>,
    key: Option<(u32, Seq<u8>)>,
) -> State {
    State {
        frames: s.frames.push(
            FrameView {
                fn_id,
                pc: 0,
                locals_start: s.locals.len(),
                locals_len: locals_needed(f),
                stack_base: s.stack.len(),
                node,
                memo_key: key,
                slab_start: s.slab.len(),
                budget: STACK_RECORD_BUDGET_SLOTS as nat,
            },
        ),
        locals: s.locals + padded(args, locals_needed(f)),
        ..s
    }
}

/// A list cut to at most `n` values.
pub open spec fn cut(v: Seq<Val>, n: nat) -> Seq<Val> {
    if n <= v.len() {
        v.take(n as int)
    } else {
        v
    }
}

/// The state without its running frame and what the frame held.
pub open spec fn left(s: State) -> State {
    let f = top_frame(s);
    State {
        frames: s.frames.drop_last(),
        stack: cut(s.stack, f.stack_base),
        locals: cut(s.locals, f.locals_start),
        slab: cut(s.slab, f.slab_start),
        ..s
    }
}

/// The state after a failed call: everything above what was there before the
/// call is dropped.
pub open spec fn unwound(s: State, before: State) -> State {
    State {
        frames: if before.frames.len() <= s.frames.len() {
            s.frames.take(before.frames.len() as int)
        } else {
            s.frames
        },
        stack: cut(s.stack, before.stack.len()),
        locals: cut(s.locals, before.locals.len()),
        slab: cut(s.slab, before.slab.len()),
        ..s
    }
}

/// The argument for a parameter.
pub open spec fn arg_at(args: Seq<Val>, i: nat) -> Val {
    if i < args.len() {
        args[i as int]
    } else {
        Val::Unit
    }
}

/// The first refined parameter from `i` on whose predicate rejects its
/// argument. The second result is the place of the next float answer.
pub open spec fn refinement_fault(
    f: Function,
    args: Seq<Val>,
    i: nat,
    floats: Seq<u64>,
    at: nat,
) -> (Option<Fault>, nat)
    decreases f.refinements@.len() - i,
{
    if i >= f.refinements@.len() {
        (None, at)
    } else {
        match f.refinements@[i as int] {
            None => refinement_fault(f, args, i + 1, floats, at),
            Some(r) => match holds(*r.predicate, r.binding@, arg_at(args, i), floats, at) {
                (Ok(true), n) => refinement_fault(f, args, i + 1, floats, n),
                (Ok(false), n) => (
                    Some(
                        Fault::RefinementFailed {
                            fn_name: f.name@,
                            param_index: i,
                            binding: r.binding@,
                            reason: "predicate failed for "@ + r.binding@ + " = "@ + shown(
                                arg_at(args, i),
                            ),
                        },
                    ),
                    n,
                ),
                (Err(reason), n) => (
                    Some(
                        Fault::RefinementFailed {
                            fn_name: f.name@,
                            param_index: i,
                            binding: r.binding@,
                            reason,
                        },
                    ),
                    n,
                ),
            },
        }
    }
}

/// What the host is asked while the refinements from parameter `i` on are
/// checked.
pub open spec fn refinement_asks(
    f: Function,
    args: Seq<Val>,
    i: nat,
    floats: Seq<u64>,
    at: nat,
) -> Seq<Exchange>
    decreases f.refinements@.len() - i,
{
    if i >= f.refinements@.len() {
        Seq::empty()
    } else {
        match f.refinements@[i as int] {
            None => refinement_asks(f, args, i + 1, floats, at),
            Some(r) => {
                let here = asked(*r.predicate, r.binding@, arg_at(args, i), floats, at);
                match holds(*r.predicate, r.binding@, arg_at(args, i), floats, at) {
                    (Ok(true), n) => here + refinement_asks(f, args, i + 1, floats, n),
                    _ => here,
                }
            },
        }
    }
}

/// The world after one more turn, with a step count.
pub open spec fn turned(w: World, steps: u64) -> World {
    World { sh: Shared { steps, turns: (w.sh.turns + 1) as u64, ..w.sh }, ..w }
}

pub open spec fn with_machine(w: World, m: State) -> World {
    World { m, ..w }
}

/// The step count after a hook reply: the hook's.
pub open spec fn hook_steps(steps: u64, h: HookReply) -> u64 {
    match h {
        HookReply::Absent => steps,
        HookReply::Declined(n) => n,
        HookReply::Answered(n, _) => n,
        HookReply::Failed(n, _) => n,
    }
}

/// The reply to a call. A call is offered exactly if there is a hook and the
/// turns can still be counted; a hook that is asked says something, at least
/// that it declines.
pub open spec fn heard(w: World, h: HookReply) -> HookReply {
    if !w.sh.has_hook || w.sh.turns == u64::MAX {
        HookReply::Absent
    } else {
        match h {
            HookReply::Absent => HookReply::Declined(w.sh.steps),
            _ => h,
        }
    }
}

/// The world after a call was offered to the hook.
pub open spec fn hooked(w: World, fn_id: u32, args: Seq<Val>, reply: HookReply) -> World {
    let h = heard(w, reply);
    match h {
        HookReply::Absent => w,
        _ => turned(
            say(
                w,
                Exchange::Hook {
                    fn_id,
                    args,
                    steps: w.sh.steps,
                    limit: w.sh.limit,
                    reply: h,
                },
            ),
            hook_steps(w.sh.steps, h),
        ),
    }
}

/// The sum of the budgets that a function declares.
pub open spec fn budget_of(f: Function, k: nat) -> u64
    decreases k,
{
    if k == 0 {
        0
    } else {
        let rest = budget_of(f, (k - 1) as nat);
        let e = f.effects@[k - 1];
        match e.arg {
            Some(EffectArg::Int(n)) => if e.kind@ == "budget"@ && n >= 0 {
                if rest + n <= u64::MAX {
                    (rest + n) as u64
                } else {
                    u64::MAX
                }
            } else {
                rest
            },
            _ => rest,
        }
    }
}

/// The budget that a call of a function costs.
pub open spec fn budget_cost(f: Function) -> u64 {
    budget_of(f, f.effects@.len())
}

// ---------------------------------------------------------------------------
// Calls
// ---------------------------------------------------------------------------

/// The code slot that a state is at.
pub open spec fn fetch(p: Program, s: State) -> Option<Op> {
    if s.frames.len() > 0 && top_frame(s).fn_id < p.functions@.len() {
        let code = p.functions@[top_frame(s).fn_id as int].code@;
        if top_frame(s).pc < code.len() && top_frame(s).pc <= MAX_PC {
            Some(code[top_frame(s).pc as int])
        } else {
            None
        }
    } else {
        None
    }
}

/// The name of the running function.
pub open spec fn running_name(p: Program, s: State) -> Seq<char> {
    if s.frames.len() > 0 && top_frame(s).fn_id < p.functions@.len() {
        p.functions@[top_frame(s).fn_id as int].name@
    } else {
        Seq::empty()
    }
}

pub open spec fn limit_fault(p: Program, w: World) -> Fault {
    Fault::Panic(
        "step limit exceeded in `"@ + running_name(p, w.m) + "` ("@ + decimal(w.sh.steps as nat)
            + " > "@ + decimal(w.sh.limit as nat) + ")"@,
    )
}

pub open spec fn past_end_fault(p: Program, s: State) -> Fault {
    Fault::Panic("ran past end of code in `"@ + running_name(p, s) + "`"@)
}

/// The steps are used up, or can no longer be counted.
pub open spec fn exhausted(w: World) -> bool {
    w.sh.steps > w.sh.limit || w.sh.steps == u64::MAX || w.sh.turns == u64::MAX
}

/// The arguments of a call can be looked up in the memo table.
pub open spec fn memoizable(f: Function, fn_id: u32, args: Seq<Val>, sh: Shared) -> bool {
    &&& f.effects@.len() == 0
    &&& fn_id < sh.fns.len()
    &&& sh.fns[fn_id as int].enabled
    &&& all_owned(args)
    &&& args_cost(args) <= MEMO_MAX_ARG_BYTES
}

/// The value that a call finds in the memo table.
pub open spec fn remembered(fn_id: u32, args: Seq<Val>, sh: Shared) -> Option<Val> {
    if sh.memo.contains_key((fn_id, memo_key(args))) {
        Some(sh.memo[(fn_id, memo_key(args))])
    } else {
        None
    }
}

/// The counters after a call has been looked up.
pub open spec fn probed(fn_id: u32, sh: Shared, hit: bool) -> Shared {
    Shared {
        fns: sh.fns.update(fn_id as int, sh.fns[fn_id as int].after_probe(hit)),
        hits: if hit {
            tick(sh.hits)
        } else {
            sh.hits
        },
        misses: if hit {
            sh.misses
        } else {
            tick(sh.misses)
        },
        ..sh
    }
}

/// The table with a result, if the call is to be remembered.
pub open spec fn remember(sh: Shared, key: Option<(u32, Seq<u8>)>, v: Val) -> Shared {
    match key {
        Some(k) => Shared { memo: sh.memo.insert(k, v), ..sh },
        None => sh,
    }
}

/// The world behind the operands of a call.
pub open spec fn taken(w: World, n: nat) -> World {
    with_machine(w, drop_top(next(w.m), n))
}

/// A call that could not be looked up or was not found, in the world behind its
/// operands.
pub open spec fn call_after_memo(
    p: Program,
    w: World,
    fn_id: u32,
    args: Seq<Val>,
    node_idx: u32,
    key: Option<(u32, Seq<u8>)>,
    rp: Replies,
) -> Act {
    let f = p.functions@[fn_id as int];
    let w0 = say(w, call_entry(p, fn_id, args, node_idx));
    let w1 = hooked(w0, fn_id, args, rp.hook);
    match heard(w0, rp.hook) {
        HookReply::Failed(_, fault) => Act::Fail(fault, w1),
        HookReply::Answered(_, v) => Act::Next(
            World { m: push(w.m, v), sh: remember(say(w1, Exchange::ExitOk(v)).sh, key, v) },
        ),
        _ => match entry_fault(f, w.m, args) {
            Some(fault) => Act::Fail(fault, w1),
            None => Act::Next(
                with_machine(
                    w1,
                    entered(f, fn_id, w.m, args, Some(const_text(p, node_idx)), key),
                ),
            ),
        },
    }
}

/// What the tracer hears of a call.
pub open spec fn call_entry(p: Program, fn_id: u32, args: Seq<Val>, node_idx: u32) -> Exchange {
    Exchange::EnterCall {
        node: const_text(p, node_idx),
        name: p.functions@[fn_id as int].name@,
        args,
    }
}

/// A call whose arguments satisfy the refinements, in the world behind its
/// operands.
pub open spec fn call_checked(
    p: Program,
    w: World,
    fn_id: u32,
    args: Seq<Val>,
    node_idx: u32,
    rp: Replies,
) -> Act {
    let f = p.functions@[fn_id as int];
    if memoizable(f, fn_id, args, w.sh) {
        match remembered(fn_id, args, w.sh) {
            Some(v) => Act::Next(
                say(
                    say(
                        World { m: push(w.m, v), sh: probed(fn_id, w.sh, true) },
                        call_entry(p, fn_id, args, node_idx),
                    ),
                    Exchange::ExitOk(v),
                ),
            ),
            None => call_after_memo(
                p,
                World { sh: probed(fn_id, w.sh, false), ..w },
                fn_id,
                args,
                node_idx,
                Some((fn_id, memo_key(args))),
                rp,
            ),
        }
    } else {
        let sh = if f.effects@.len() == 0 {
            Shared { skips: tick(w.sh.skips), ..w.sh }
        } else {
            w.sh
        };
        call_after_memo(p, World { sh, ..w }, fn_id, args, node_idx, None, rp)
    }
}

/// Why a call is refused before it starts.
pub open spec fn call_fault(p: Program, fn_id: u32, args: Seq<Val>, rp: Replies) -> Option<Fault> {
    let f = p.functions@[fn_id as int];
    if budget_cost(f) > 0 && rp.refusal is Some {
        Some(Fault::Effect(rp.refusal->0))
    } else {
        refinement_fault(f, args, 0, rp.floats, 0).0
    }
}

/// What the handler hears of the budget of a call.
pub open spec fn budget_talk(f: Function, rp: Replies) -> Seq<Exchange> {
    if budget_cost(f) > 0 {
        seq![Exchange::Budget { cost: budget_cost(f), refusal: rp.refusal }]
    } else {
        Seq::empty()
    }
}

/// The exchanges before a call starts or is refused.
pub open spec fn call_talk(p: Program, fn_id: u32, args: Seq<Val>, rp: Replies) -> Seq<Exchange> {
    let f = p.functions@[fn_id as int];
    if budget_cost(f) > 0 && rp.refusal is Some {
        budget_talk(f, rp)
    } else {
        budget_talk(f, rp) + refinement_asks(f, args, 0, rp.floats, 0)
    }
}

/// What a call of a function by its index does.
pub open spec fn call_act(
    p: Program,
    w: World,
    fn_id: u32,
    arity: u16,
    node_idx: u32,
    rp: Replies,
) -> Act {
    if w.m.stack.len() < arity {
        Act::Fail(Fault::StackUnderflow, w)
    } else if fn_id >= p.functions@.len() {
        Act::Fail(no_function(), w)
    } else {
        let args = top_values(w.m, arity as nat);
        let w0 = say_all(taken(w, arity as nat), call_talk(p, fn_id, args, rp));
        match call_fault(p, fn_id, args, rp) {
            Some(fault) => Act::Fail(fault, w0),
            None => call_checked(p, w0, fn_id, args, node_idx, rp),
        }
    }
}

/// A value that leaves the running frame: the run ends if the frame is the
/// last above `base`, else the caller gets the value.
pub open spec fn give_back(w: World, base: nat, v: Val) -> Act {
    if w.m.frames.len() <= base {
        Act::Done(v, w)
    } else {
        Act::Next(with_machine(w, push(w.m, v)))
    }
}

/// What a tail call does: the running frame is replaced.
pub open spec fn tail_call_act(
    p: Program,
    base: nat,
    w: World,
    fn_id: u32,
    arity: u16,
    node_idx: u32,
    rp: Replies,
) -> Act {
    if w.m.stack.len() < arity {
        Act::Fail(Fault::StackUnderflow, w)
    } else if fn_id >= p.functions@.len() {
        Act::Fail(no_function(), w)
    } else {
        let f = p.functions@[fn_id as int];
        let args = top_values(w.m, arity as nat);
        let w0 = say_all(taken(w, arity as nat), call_talk(p, fn_id, args, rp));
        match call_fault(p, fn_id, args, rp) {
            Some(fault) => Act::Fail(fault, w0),
            None => {
                let w1 = say(
                    say(w0, Exchange::ExitTail),
                    call_entry(p, fn_id, args, node_idx),
                );
                let w2 = hooked(w1, fn_id, args, rp.hook);
                match heard(w1, rp.hook) {
                    HookReply::Failed(_, fault) => Act::Fail(fault, w2),
                    HookReply::Answered(_, v) => give_back(
                        with_machine(say(w2, Exchange::ExitOk(v)), left(w0.m)),
                        base,
                        v,
                    ),
                    _ => if args.len() > locals_needed(f) {
                        Act::Fail(too_many_args(), w2)
                    } else {
                        Act::Next(
                            with_machine(
                                w2,
                                replaced(f, fn_id, w0.m, args, const_text(p, node_idx)),
                            ),
                        )
                    },
                }
            },
        }
    }
}

/// The state with its running frame replaced by a frame for another function.
pub open spec fn replaced(
    f: Function,
    fn_id: u32,
    s: State,
    args: Seq<Val>,
    node: Seq<char>,
) -> State {
    let t = top_frame(s);
    State {
        frames: s.frames.update(
            s.frames.len() - 1,
            FrameView {
                fn_id,
                pc: 0,
                locals_len: locals_needed(f),
                node: Some(node),
                budget: STACK_RECORD_BUDGET_SLOTS as nat,
                ..t
            },
        ),
        locals: cut(s.locals, t.locals_start) + padded(args, locals_needed(f)),
        slab: cut(s.slab, t.slab_start),
        ..s
    }
}

/// What a call of a closure does.
pub open spec fn call_closure_act(
    p: Program,
    w: World,
    arity: u16,
    node_idx: u32,
    rp: Replies,
) -> Act {
    if w.m.stack.len() < arity + 1 {
        Act::Fail(Fault::StackUnderflow, w)
    } else {
        match operand(w.m, arity as nat) {
            Val::Closure { fn_id, captures, .. } => if fn_id >= p.functions@.len() {
                Act::Fail(no_function(), w)
            } else {
                let f = p.functions@[fn_id as int];
                let args = captures + top_values(w.m, arity as nat);
                let w0 = say_all(taken(w, (arity + 1) as nat), budget_talk(f, rp));
                if budget_cost(f) > 0 && rp.refusal is Some {
                    Act::Fail(Fault::Effect(rp.refusal->0), w0)
                } else {
                    let w1 = say(w0, call_entry(p, fn_id, args, node_idx));
                    match entry_fault(f, w0.m, args) {
                        Some(fault) => Act::Fail(fault, w1),
                        None => Act::Next(
                            with_machine(
                                w1,
                                entered(
                                    f,
                                    fn_id,
                                    w0.m,
                                    args,
                                    Some(const_text(p, node_idx)),
                                    None,
                                ),
                            ),
                        ),
                    }
                }
            },
            other => Act::Fail(mismatch_fault("CallClosure on non-closure: "@, other), w),
        }
    }
}

/// What a return does.
pub open spec fn return_act(base: nat, w: World) -> Act {
    if w.m.stack.len() < 1 {
        Act::Fail(Fault::StackUnderflow, w)
    } else {
        let v = operand(w.m, 0);
        let told = if top_frame(w.m).node is Some {
            say(w, Exchange::ExitOk(v))
        } else {
            w
        };
        let sh = remember(told.sh, top_frame(w.m).memo_key, v);
        give_back(World { m: left(drop_top(w.m, 1)), sh }, base, v)
    }
}

/// What an op on the running frame alone does.
pub open spec fn plain_act(p: Program, w: World, op: Op, rp: Replies) -> Act {
    match plain(p, w.m, op) {
        Move::Go(s) => Act::Next(with_machine(w, s)),
        Move::Fail(f, s) => Act::Fail(f, with_machine(w, s)),
        Move::Ask(op, a, b, s) => Act::Next(
            with_machine(
                say(w, Exchange::Float { op, a, b, answer: rp.floats[0] }),
                push(s, Val::Float(rp.floats[0])),
            ),
        ),
    }
}

} // verus!
