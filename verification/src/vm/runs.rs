//! Ops that call closures or the host, and the runs of the machine.

use vstd::prelude::*;

use crate::op::Op;
use crate::parser_runtime::{parse, Reply};
use crate::program::Program;
use crate::shape_registry::{interned, DYNAMIC_SHAPE_ID_BASE};
use crate::text;
use crate::text::bytes_of;
use crate::value::{Val, NO_SHAPE_ID};
use crate::vm::arena_values::{materialize, materialize_all};
use crate::vm::fault::{expected_fault, mismatch_fault, Fault};
use crate::vm::shown::{shown, shown_fault};
use crate::vm::plain::{next, no_function};
use crate::vm::outside::{say, say_all, Exchange};
use crate::vm::records::{const_text, str_const};
use crate::vm::sort_keys::{arranges, consistent, in_order};
use crate::vm::state::{drop_top, operand, push, top_values, State};
use crate::vm::workers::workers;
use crate::vm::world::{
    arg_at, call_act, call_closure_act, entered, entry_fault, exhausted, fetch, heard, hooked,
    limit_fault, past_end_fault, plain_act, refinement_asks, refinement_fault, return_act,
    tail_call_act, turned, unwound, with_machine, Act, Actor, Behaviour, Call, Callee, HookReply,
    Outcome, Replies, Run, Step, World,
};

verus! {

// ---------------------------------------------------------------------------
// Calls in a row
// ---------------------------------------------------------------------------

/// The call of a value on arguments, made in a world.
pub open spec fn is_call_of(c: Call, f: Val, args: Seq<Val>, before: World) -> bool {
    c.callee == Callee::Value(f) && c.args == args && c.before == before
}

/// The world in front of call `k`.
pub open spec fn world_before(calls: Seq<Call>, k: int, w0: World) -> World {
    if k <= 0 {
        w0
    } else {
        calls[k - 1].after
    }
}

/// The world behind all calls.
pub open spec fn world_after(calls: Seq<Call>, w0: World) -> World {
    world_before(calls, calls.len() as int, w0)
}

/// A row of calls ends with this outcome: it is a failure, or no truth value
/// where one is needed.
pub open spec fn stops(o: Outcome, bools: bool) -> bool {
    match o {
        Outcome::Fault(_) => true,
        Outcome::Value(v) => bools && !(v is Bool),
    }
}

/// Call `k` is the call of a closure on item `k`.
pub open spec fn item_call(
    calls: Seq<Call>,
    k: int,
    w0: World,
    f: Val,
    items: Seq<Val>,
) -> bool {
    is_call_of(calls[k], f, seq![items[k]], world_before(calls, k, w0))
}

/// A closure is called on one item after the other, up to the first outcome
/// that ends the row.
pub open spec fn one_by_one(
    calls: Seq<Call>,
    w0: World,
    f: Val,
    items: Seq<Val>,
    bools: bool,
) -> bool {
    &&& calls.len() <= items.len()
    &&& forall|k: int| 0 <= k < calls.len() ==> #[trigger] item_call(calls, k, w0, f, items)
    &&& forall|k: int| 0 <= k < calls.len() - 1 ==> !stops((#[trigger] calls[k]).outcome, bools)
    &&& calls.len() < items.len() ==> calls.len() > 0 && stops(calls.last().outcome, bools)
}

/// Why a row of calls ended early.
pub open spec fn stop_fault(calls: Seq<Call>, bools: bool) -> Option<Fault> {
    if calls.len() > 0 && stops(calls.last().outcome, bools) {
        match calls.last().outcome {
            Outcome::Fault(f) => Some(f),
            Outcome::Value(v) => Some(expected_fault("Bool"@, v)),
        }
    } else {
        None
    }
}

/// The values that the calls gave.
pub open spec fn values_of(calls: Seq<Call>) -> Seq<Val> {
    Seq::new(
        calls.len(),
        |k: int|
            match calls[k].outcome {
                Outcome::Value(v) => v,
                Outcome::Fault(_) => Val::Unit,
            },
    )
}

/// The items whose flag is true.
pub open spec fn kept(items: Seq<Val>, flags: Seq<Val>) -> Seq<Val>
    decreases flags.len(),
{
    if flags.len() == 0 {
        Seq::empty()
    } else if flags.last() == Val::Bool(true) {
        kept(items, flags.drop_last()).push(items[flags.len() - 1])
    } else {
        kept(items, flags.drop_last())
    }
}

/// What a fold has accumulated in front of call `k`.
pub open spec fn accumulated(calls: Seq<Call>, k: int, init: Val) -> Val {
    if k <= 0 {
        init
    } else {
        match calls[k - 1].outcome {
            Outcome::Value(v) => v,
            Outcome::Fault(_) => Val::Unit,
        }
    }
}

/// Call `k` is the call of a closure on what has been accumulated and item `k`.
pub open spec fn fold_call(
    calls: Seq<Call>,
    k: int,
    w0: World,
    f: Val,
    init: Val,
    items: Seq<Val>,
) -> bool {
    is_call_of(
        calls[k],
        f,
        seq![accumulated(calls, k, init), items[k]],
        world_before(calls, k, w0),
    )
}

/// A closure is called on what has been accumulated and one item after the
/// other, up to the first failure.
pub open spec fn folded(calls: Seq<Call>, w0: World, f: Val, init: Val, items: Seq<Val>) -> bool {
    &&& calls.len() <= items.len()
    &&& forall|k: int| 0 <= k < calls.len() ==> #[trigger] fold_call(calls, k, w0, f, init, items)
    &&& forall|k: int| 0 <= k < calls.len() - 1 ==> (#[trigger] calls[k]).outcome is Value
    &&& calls.len() < items.len() ==> calls.len() > 0 && calls.last().outcome is Fault
}

/// Pushes a value on the machine of a world.
pub open spec fn push_on(w: World, v: Val) -> World {
    with_machine(w, push(w.m, v))
}

/// The list and the closure that a list op takes, or why it cannot run.
pub open spec fn list_operands(s: State, extra: nat, op: Seq<char>) -> Result<
    (Seq<Val>, Val),
    Fault,
> {
    if s.stack.len() < 2 + extra {
        Err(Fault::StackUnderflow)
    } else {
        match operand(s, 1 + extra) {
            Val::List(items) => if operand(s, 0) is Closure {
                Ok((items, operand(s, 0)))
            } else {
                Err(mismatch_fault(op + " requires a closure, got: "@, operand(s, 0)))
            },
            other => Err(mismatch_fault(op + " requires a List, got: "@, other)),
        }
    }
}

pub open spec fn map_acts(w: World, calls: Seq<Call>, act: Act) -> bool {
    match list_operands(w.m, 0, "ListMap"@) {
        Err(f) => act == Act::Fail(f, w),
        Ok((items, f)) => {
            let w0 = with_machine(w, drop_top(next(w.m), 2));
            one_by_one(calls, w0, f, items, false) && act == (match stop_fault(calls, false) {
                Some(fault) => Act::Fail(fault, world_after(calls, w0)),
                None => Act::Next(
                    push_on(world_after(calls, w0), Val::List(values_of(calls))),
                ),
            })
        },
    }
}

pub open spec fn filter_acts(w: World, calls: Seq<Call>, act: Act) -> bool {
    match list_operands(w.m, 0, "ListFilter"@) {
        Err(f) => act == Act::Fail(f, w),
        Ok((items, f)) => {
            let w0 = with_machine(w, drop_top(next(w.m), 2));
            one_by_one(calls, w0, f, items, true) && act == (match stop_fault(calls, true) {
                Some(fault) => Act::Fail(fault, world_after(calls, w0)),
                None => Act::Next(
                    push_on(world_after(calls, w0), Val::List(kept(items, values_of(calls)))),
                ),
            })
        },
    }
}

pub open spec fn fold_acts(w: World, calls: Seq<Call>, act: Act) -> bool {
    match list_operands(w.m, 1, "ListFold"@) {
        Err(f) => act == Act::Fail(f, w),
        Ok((items, f)) => {
            let w0 = with_machine(w, drop_top(next(w.m), 3));
            let init = operand(w.m, 1);
            folded(calls, w0, f, init, items) && act == (match stop_fault(calls, false) {
                Some(fault) => Act::Fail(fault, world_after(calls, w0)),
                None => Act::Next(
                    push_on(
                        world_after(calls, w0),
                        accumulated(calls, calls.len() as int, init),
                    ),
                ),
            })
        },
    }
}

/// The items in an order.
pub open spec fn reordered(items: Seq<Val>, order: Seq<usize>) -> Seq<Val> {
    Seq::new(order.len(), |i: int| items[order[i] as int])
}

/// The items in the order of their keys, equal keys as they came.
pub open spec fn sorted_by_keys(items: Seq<Val>, keys: Seq<Val>, sorted: Seq<Val>) -> bool {
    exists|order: Seq<usize>| #[trigger]
        arranges(order, 0, items.len()) && (consistent(keys) ==> in_order(keys, order)) && sorted
            == reordered(items, order)
}

pub open spec fn sort_acts(w: World, calls: Seq<Call>, act: Act) -> bool {
    match list_operands(w.m, 0, "SortByKey"@) {
        Err(f) => act == Act::Fail(f, w),
        Ok((items, f)) => {
            let w0 = with_machine(w, drop_top(next(w.m), 2));
            one_by_one(calls, w0, f, items, false) && match stop_fault(calls, false) {
                Some(fault) => act == Act::Fail(fault, world_after(calls, w0)),
                None => match act {
                    Act::Next(w1) => w1.m.stack.len() > 0 && w1 == push_on(
                        world_after(calls, w0),
                        w1.m.stack.last(),
                    ) && match w1.m.stack.last() {
                        Val::List(sorted) => sorted_by_keys(items, values_of(calls), sorted),
                        _ => false,
                    },
                    _ => false,
                },
            }
        },
    }
}

/// A parallel map; the host does the work.
/// The exchanges in which the handler makes handlers for workers.
pub open spec fn seat_talk(seats: Seq<Option<u64>>) -> Seq<Exchange> {
    Seq::new(seats.len(), |i: int| Exchange::WorkerHandler(seats[i]))
}

pub open spec fn par_map_act(w: World, rp: Replies) -> Act {
    match list_operands(w.m, 0, "ParallelMap"@) {
        Err(f) => Act::Fail(f, w),
        Ok((items, f)) => {
            let w0 = say_all(
                say(
                    with_machine(w, drop_top(next(w.m), 2)),
                    Exchange::MaxWorkers(rp.max_workers),
                ),
                seat_talk(rp.seats),
            );
            if items.len() == 0 {
                Act::Next(push_on(w0, Val::List(Seq::empty())))
            } else {
                let w1 = say(
                    w0,
                    Exchange::ParMap {
                        closure: f,
                        items,
                        seats: rp.seats,
                        limit: w.sh.limit,
                        answer: rp.mapped,
                    },
                );
                match rp.mapped {
                    Err(f) => Act::Fail(f, w1),
                    Ok(vs) => if vs.len() == items.len() {
                        Act::Next(push_on(w1, Val::List(vs)))
                    } else {
                        Act::Fail(
                            Fault::Panic("par_map worker did not produce a result"@),
                            w1,
                        )
                    },
                }
            }
        },
    }
}

/// A parallel map takes as many handlers for workers as it has workers.
pub open spec fn par_map_acts(w: World, rp: Replies, act: Act) -> bool {
    &&& act == par_map_act(w, rp)
    &&& list_operands(w.m, 0, "ParallelMap"@) matches Ok((items, _)) ==> rp.seats.len() == workers(
        rp.max_workers,
        items.len(),
    )
}

// ---------------------------------------------------------------------------
// Effects
// ---------------------------------------------------------------------------

pub open spec fn variant(name: Seq<char>, args: Seq<Val>) -> Val {
    Val::Variant { name, args }
}

pub open spec fn ok_of(v: Val) -> Val {
    variant("Ok"@, seq![v])
}

pub open spec fn err_of(v: Val) -> Val {
    variant("Err"@, seq![v])
}

/// An argument, or that there is none.
pub open spec fn shown_arg(args: Seq<Val>, i: nat) -> Seq<char> {
    if i < args.len() {
        "Some("@ + shown(args[i as int]) + ")"@
    } else {
        "None"@
    }
}

/// The text in an argument.
pub open spec fn arg_text(args: Seq<Val>, i: nat) -> Option<Seq<char>> {
    match arg_at(args, i) {
        Val::Str(s) => Some(s),
        _ => None,
    }
}

/// The names in ascending order.
pub open spec fn lists_names(names: Map<Seq<char>, Val>, list: Seq<Seq<char>>) -> bool {
    &&& vstd::relations::sorted_by(list, text::text_order())
    &&& list.no_duplicates()
    &&& forall|n: Seq<char>| #[trigger] list.contains(n) <==> names.contains_key(n)
}

pub open spec fn texts_val(list: Seq<Seq<char>>) -> Val {
    Val::List(Seq::new(list.len(), |i: int| Val::Str(list[i])))
}

/// The reply to a message once the closure of an actor has given `v`, and the
/// world in which the actor is back.
pub open spec fn handled(
    p: Program,
    w: World,
    handle: u64,
    actor: Actor,
    v: Val,
    op: Seq<char>,
    ask: bool,
) -> (Result<Val, Seq<char>>, World) {
    let unchanged = say(w, Exchange::PutActor { handle, actor });
    match materialize(p, w.m.arena, v, w.m.arena.len()) {
        Err(f) => (Err("conc."@ + op + ": handler error: "@ + shown_fault(f)), unchanged),
        Ok(Val::Tuple(parts)) => if parts.len() == 2 {
            (
                Ok(
                    if ask {
                        parts[1]
                    } else {
                        Val::Unit
                    },
                ),
                say(
                    w,
                    Exchange::PutActor {
                        handle,
                        actor: Actor { state: parts[0], ..actor },
                    },
                ),
            )
        } else {
            (
                Err(
                    "conc."@ + op + ": handler must return a 2-tuple (new_state, reply), got "@
                        + shown(Val::Tuple(parts)),
                ),
                unchanged,
            )
        },
        Ok(other) => (
            Err(
                "conc."@ + op + ": handler must return a 2-tuple (new_state, reply), got "@
                    + shown(other),
            ),
            unchanged,
        ),
    }
}

/// What sending a message to an actor comes to. The actor is taken out for the
/// time in which its closure runs.
pub open spec fn message_result(
    p: Program,
    w: World,
    op: Seq<char>,
    ask: bool,
    args: Seq<Val>,
    rp: Replies,
    calls: Seq<Call>,
    r: Result<Val, Seq<char>>,
    w1: World,
) -> bool {
    let target = arg_at(args, 0);
    let msg = arg_at(args, 1);
    match target {
        Val::Actor(handle) => {
            let w0 = say(w, Exchange::TakeActor { handle, actor: rp.actor });
            match rp.actor {
                None => r == Err::<Val, Seq<char>>("conc."@ + op + ": no such actor"@) && w1 == w0,
                Some(actor) => match actor.handler {
                    Behaviour::Lex(f) => calls.len() == 1 && is_call_of(
                        calls[0],
                        f,
                        seq![actor.state, msg],
                        w0,
                    ) && match calls[0].outcome {
                        Outcome::Fault(fault) => r == Err::<Val, Seq<char>>(
                            "conc."@ + op + ": handler error: "@ + shown_fault(fault),
                        ) && w1 == say(calls[0].after, Exchange::PutActor { handle, actor }),
                        Outcome::Value(v) => (r, w1) == handled(
                            p,
                            calls[0].after,
                            handle,
                            actor,
                            v,
                            op,
                            ask,
                        ),
                    },
                    Behaviour::Native(id) => w1 == say(
                        say(w0, Exchange::PutActor { handle, actor }),
                        Exchange::Native { id, msg, answer: rp.effect },
                    ) && r == (match rp.effect {
                        Ok(v) => Ok(
                            if ask {
                                v
                            } else {
                                Val::Unit
                            },
                        ),
                        Err(t) => Err("conc."@ + op + ": native handler error: "@ + t),
                    }),
                },
            }
        },
        other => r == Err::<Val, Seq<char>>(
            "conc."@ + op + ": first arg must be an Actor, got "@ + shown(other),
        ) && w1 == w,
    }
}

pub open spec fn spawn_result(w: World, args: Seq<Val>, rp: Replies) -> (
    Result<Val, Seq<char>>,
    World,
) {
    let handler = arg_at(args, 1);
    if handler is Closure {
        (
            Ok(Val::Actor(rp.handle)),
            say(
                w,
                Exchange::AddActor {
                    actor: Actor { state: arg_at(args, 0), handler: Behaviour::Lex(handler) },
                    handle: rp.handle,
                },
            ),
        )
    } else {
        (Err("conc.spawn: handler must be a Closure, got "@ + shown(handler)), w)
    }
}

/// The names are taken and put back.
pub open spec fn names_changed(w: World, rp: Replies, names: Map<Seq<char>, Val>) -> World {
    say(say(w, Exchange::TakeNames(rp.names)), Exchange::PutNames(names))
}

pub open spec fn register_result(w: World, args: Seq<Val>, rp: Replies) -> (
    Result<Val, Seq<char>>,
    World,
) {
    let actor = arg_at(args, 0);
    if !(actor is Actor) {
        (Err("conc.register: first arg must be an Actor, got "@ + shown(actor)), w)
    } else {
        match arg_text(args, 1) {
            None => (Err("conc.register: name must be Str, got "@ + shown_arg(args, 1)), w),
            Some(name) => if rp.names.contains_key(name) {
                (
                    Ok(err_of(variant("AlreadyRegistered"@, seq![Val::Str(name)]))),
                    names_changed(w, rp, rp.names),
                )
            } else {
                (Ok(ok_of(Val::Unit)), names_changed(w, rp, rp.names.insert(name, actor)))
            },
        }
    }
}

pub open spec fn lookup_result(w: World, args: Seq<Val>, rp: Replies) -> (
    Result<Val, Seq<char>>,
    World,
) {
    match arg_text(args, 0) {
        None => (Err("conc.lookup: name must be Str, got "@ + shown_arg(args, 0)), w),
        Some(name) => (
            if rp.names.contains_key(name) {
                Ok(variant("Some"@, seq![rp.names[name]]))
            } else {
                Ok(variant("None"@, Seq::empty()))
            },
            names_changed(w, rp, rp.names),
        ),
    }
}

pub open spec fn unregister_result(w: World, args: Seq<Val>, rp: Replies) -> (
    Result<Val, Seq<char>>,
    World,
) {
    match arg_text(args, 0) {
        None => (Err("conc.unregister: name must be Str, got "@ + shown_arg(args, 0)), w),
        Some(name) => (
            if rp.names.contains_key(name) {
                Ok(ok_of(Val::Unit))
            } else {
                Ok(err_of(variant("NotRegistered"@, seq![Val::Str(name)])))
            },
            names_changed(w, rp, rp.names.remove(name)),
        ),
    }
}

/// What an op on actors comes to.
pub open spec fn conc_result(
    p: Program,
    w: World,
    op: Seq<char>,
    args: Seq<Val>,
    rp: Replies,
    calls: Seq<Call>,
    r: Result<Val, Seq<char>>,
    w1: World,
) -> bool {
    if op == "spawn"@ {
        (r, w1) == spawn_result(w, args, rp)
    } else if op == "ask"@ {
        message_result(p, w, op, true, args, rp, calls, r, w1)
    } else if op == "tell"@ {
        message_result(p, w, op, false, args, rp, calls, r, w1)
    } else if op == "register"@ {
        (r, w1) == register_result(w, args, rp)
    } else if op == "lookup"@ {
        (r, w1) == lookup_result(w, args, rp)
    } else if op == "unregister"@ {
        (r, w1) == unregister_result(w, args, rp)
    } else if op == "registered"@ {
        w1 == names_changed(w, rp, rp.names) && exists|list: Seq<Seq<char>>| #[trigger]
            lists_names(rp.names, list) && r == Ok::<Val, Seq<char>>(texts_val(list))
    } else {
        r == Err::<Val, Seq<char>>("unknown conc."@ + op) && w1 == w
    }
}

/// What a parser hears of the end of a call.
pub open spec fn answer_of(o: Outcome) -> Result<Val, Seq<char>> {
    match o {
        Outcome::Value(v) => Ok(v),
        Outcome::Fault(f) => Err(shown_fault(f)),
    }
}

/// The reply that a call gives to a parser.
pub open spec fn reply_of(c: Call) -> Reply {
    Reply {
        closure: match c.callee {
            Callee::Value(f) => f,
            Callee::Function(_) => Val::Unit,
        },
        arg: c.args[0],
        answer: answer_of(c.outcome),
    }
}

pub open spec fn replies_of(calls: Seq<Call>) -> Seq<Reply> {
    Seq::new(calls.len(), |k: int| reply_of(calls[k]))
}

/// Calls of values on one argument each, one after the other.
pub open spec fn in_a_row(calls: Seq<Call>, w0: World) -> bool {
    forall|k: int|
        0 <= k < calls.len() ==> (#[trigger] calls[k]).callee is Value && calls[k].args.len() == 1
            && calls[k].before == world_before(calls, k, w0)
}

/// The names of the fields of a parse error.
pub open spec fn parse_error_names() -> Seq<Seq<char>> {
    seq!["pos"@, "message"@]
}

/// The record of a parse error, and the shapes behind it.
pub open spec fn parse_error(shapes: Map<Seq<Seq<char>>, u32>, pos: nat, text: Seq<char>) -> (
    Val,
    Map<Seq<Seq<char>>, u32>,
) {
    let names = parse_error_names();
    let values = seq![Val::Int(pos as i64), Val::Str(text)];
    if shapes.dom().len() < u32::MAX - DYNAMIC_SHAPE_ID_BASE {
        let after = interned(shapes, names);
        (Val::Record { shape_id: after[text::sorted(names)], names, values }, after)
    } else {
        (Val::Record { shape_id: NO_SHAPE_ID, names, values }, shapes)
    }
}

/// The world after the shape ids were handed out and given back.
pub open spec fn shapes_changed(
    w: World,
    rp: Replies,
    shapes: Map<Seq<Seq<char>>, u32>,
) -> World {
    say(say(w, Exchange::TakeShapes(rp.shapes)), Exchange::PutShapes(shapes))
}

/// What running a parser comes to.
pub open spec fn parser_result(
    w: World,
    args: Seq<Val>,
    rp: Replies,
    calls: Seq<Call>,
    r: Result<Val, Seq<char>>,
    w1: World,
) -> bool {
    if args.len() == 0 {
        r == Err::<Val, Seq<char>>("parser.run: missing parser arg"@) && w1 == w
    } else {
        match arg_text(args, 1) {
            None => r == Err::<Val, Seq<char>>("parser.run: input must be Str"@) && w1 == w,
            Some(input) => {
                let after = world_after(calls, w);
                in_a_row(calls, w) && match parse(
                    args[0],
                    bytes_of(input),
                    0,
                    replies_of(calls),
                    0,
                ) {
                    None => false,
                    Some((Ok((v, _)), n)) => n == calls.len() && r == Ok::<Val, Seq<char>>(
                        ok_of(v),
                    ) && w1 == after,
                    Some((Err((pos, text)), n)) => {
                        let e = parse_error(rp.shapes, pos, text);
                        n == calls.len() && r == Ok::<Val, Seq<char>>(err_of(e.0)) && w1
                            == shapes_changed(after, rp, e.1)
                    },
                }
            },
        }
    }
}

/// The arguments of an effect. If the arena is in use, no part of them lies in
/// it any more.
pub open spec fn effect_args(p: Program, s: State, n: u16) -> Result<Seq<Val>, Fault> {
    let args = top_values(s, n as nat);
    if s.arena.len() == 0 {
        Ok(args)
    } else {
        materialize_all(p, s.arena, args, s.arena.len())
    }
}

/// The result of an effect, in the world behind it.
pub open spec fn effect_end(r: Result<Val, Seq<char>>, w: World) -> Act {
    match r {
        Ok(v) => Act::Next(push_on(say(w, Exchange::ExitOk(v)), v)),
        Err(t) => Act::Fail(Fault::Effect(t), say(w, Exchange::ExitErr(t))),
    }
}

/// An effect goes to the tracer, the parser interpreter, the actors or the
/// handler.
pub open spec fn effect_result(
    p: Program,
    w: World,
    kind: Seq<char>,
    op: Seq<char>,
    args: Seq<Val>,
    rp: Replies,
    calls: Seq<Call>,
    r: Result<Val, Seq<char>>,
    w1: World,
) -> bool {
    match rp.overridden {
        Some(v) => r == Ok::<Val, Seq<char>>(v) && w1 == w,
        None => if kind == "parser"@ && op == "run"@ {
            parser_result(w, args, rp, calls, r, w1)
        } else if kind == "conc"@ {
            conc_result(p, w, op, args, rp, calls, r, w1)
        } else {
            r == rp.effect && w1 == say(
                w,
                Exchange::Dispatch { kind, op, args, answer: rp.effect },
            )
        },
    }
}

/// An effect comes to a result, and the step with it to an end.
pub open spec fn effect_ends(
    p: Program,
    w: World,
    kind: Seq<char>,
    op: Seq<char>,
    args: Seq<Val>,
    rp: Replies,
    calls: Seq<Call>,
    r: Result<Val, Seq<char>>,
    w1: World,
    act: Act,
) -> bool {
    effect_result(p, w, kind, op, args, rp, calls, r, w1) && act == effect_end(r, w1)
}

/// The world after the tracer was told of an effect and asked for a value in
/// its place.
pub open spec fn announced(
    p: Program,
    w: World,
    kind: Seq<char>,
    op: Seq<char>,
    args: Seq<Val>,
    node_idx: u32,
    rp: Replies,
) -> World {
    let node = const_text(p, node_idx);
    say(
        say(w, Exchange::EnterEffect { node, kind, op, args }),
        Exchange::Override { node, value: rp.overridden },
    )
}

pub open spec fn effect_acts(
    p: Program,
    w: World,
    kind_idx: u32,
    op_idx: u32,
    n: u16,
    node_idx: u32,
    rp: Replies,
    calls: Seq<Call>,
    act: Act,
) -> bool {
    if w.m.stack.len() < n {
        act == Act::Fail(Fault::StackUnderflow, w)
    } else {
        let w0 = with_machine(w, drop_top(next(w.m), n as nat));
        match effect_args(p, w.m, n) {
            Err(f) => act == Act::Fail(f, w0),
            Ok(args) => match str_const(p, kind_idx, "expected Str const for effect kind"@) {
                Err(f) => act == Act::Fail(f, w0),
                Ok(kind) => match str_const(p, op_idx, "expected Str const for effect op"@) {
                    Err(f) => act == Act::Fail(f, w0),
                    Ok(op) => exists|r: Result<Val, Seq<char>>, w1: World| #[trigger]
                        effect_ends(
                            p,
                            announced(p, w0, kind, op, args, node_idx, rp),
                            kind,
                            op,
                            args,
                            rp,
                            calls,
                            r,
                            w1,
                            act,
                        ),
                },
            },
        }
    }
}

// ---------------------------------------------------------------------------
// Runs
// ---------------------------------------------------------------------------

/// What an op does, given what the host answered and the calls on the way.
#[verifier::opaque]
pub open spec fn op_acts(
    p: Program,
    base: nat,
    w: World,
    op: Op,
    rp: Replies,
    calls: Seq<Call>,
    act: Act,
) -> bool {
    match op {
        Op::Call { fn_id, arity, node_id_idx } => act == call_act(
            p,
            w,
            fn_id,
            arity,
            node_id_idx,
            rp,
        ),
        Op::TailCall { fn_id, arity, node_id_idx } => act == tail_call_act(
            p,
            base,
            w,
            fn_id,
            arity,
            node_id_idx,
            rp,
        ),
        Op::CallClosure { arity, node_id_idx } => act == call_closure_act(
            p,
            w,
            arity,
            node_id_idx,
            rp,
        ),
        Op::Return => act == return_act(base, w),
        Op::ListMap { .. } => map_acts(w, calls, act),
        Op::ListFilter { .. } => filter_acts(w, calls, act),
        Op::ListFold { .. } => fold_acts(w, calls, act),
        Op::SortByKey { .. } => sort_acts(w, calls, act),
        Op::ParallelMap { .. } => par_map_acts(w, rp, act),
        Op::EffectCall { kind_idx, op_idx, arity, node_id_idx } => effect_acts(
            p,
            w,
            kind_idx,
            op_idx,
            arity,
            node_id_idx,
            rp,
            calls,
            act,
        ),
        _ => act == plain_act(p, w, op, rp),
    }
}

/// One turn of the interpreter loop: the step is counted, the op is fetched and
/// carried out.
pub open spec fn valid_step(p: Program, base: nat, st: Step) -> bool
    decreases st, 0nat,
{
    &&& forall|k: int| 0 <= k < st.calls.len() ==> valid_call(p, #[trigger] st.calls[k])
    &&& if exhausted(st.before) {
        st.act == Act::Fail(limit_fault(p, st.before), st.before)
    } else {
        let w = turned(st.before, (st.before.sh.steps + 1) as u64);
        match fetch(p, w.m) {
            None => st.act == Act::Fail(past_end_fault(p, w.m), w),
            Some(op) => op_acts(p, base, w, op, st.replies, st.calls, st.act),
        }
    }
}

/// How a run ends.
pub open spec fn run_end(run: Run) -> Option<(Outcome, World)> {
    if run.steps.len() == 0 {
        None
    } else {
        match run.steps.last().act {
            Act::Next(_) => None,
            Act::Done(v, w) => Some((Outcome::Value(v), w)),
            Act::Fail(f, w) => Some((Outcome::Fault(f), w)),
        }
    }
}

/// The turns from a world on. The run ends when the frames are down to `base`
/// again, or with a failure.
pub open spec fn valid_run(p: Program, base: nat, w: World, run: Run) -> bool
    decreases run, 0nat,
{
    &&& run_end(run) is Some
    &&& run.steps[0].before == w
    &&& forall|i: int| 0 <= i < run.steps.len() ==> valid_step(p, base, #[trigger] run.steps[i])
    &&& forall|i: int| 0 <= i < run.steps.len() - 1 ==> #[trigger] leads_on(run.steps, i)
}

/// The turn behind turn `i` starts where turn `i` ends.
pub open spec fn leads_on(steps: Seq<Step>, i: int) -> bool {
    steps[i].act == Act::Next(steps[i + 1].before)
}

/// A call of a function with all its arguments.
pub open spec fn valid_invocation(p: Program, c: Call, fn_id: u32, args: Seq<Val>) -> bool
    decreases c, 0nat,
{
    if fn_id >= p.functions@.len() {
        c.outcome == Outcome::Fault(no_function()) && c.after == c.before
    } else {
        let f = p.functions@[fn_id as int];
        if args.len() != f.arity {
            c.outcome == Outcome::Fault(Fault::Panic("arity mismatch calling "@ + f.name@))
                && c.after == c.before
        } else {
            let told = say_all(c.before, refinement_asks(f, args, 0, c.replies.floats, 0));
            match refinement_fault(f, args, 0, c.replies.floats, 0).0 {
                Some(fault) => c.outcome == Outcome::Fault(fault) && c.after == told,
                None => {
                    let w = hooked(told, fn_id, args, c.replies.hook);
                    match heard(told, c.replies.hook) {
                        HookReply::Failed(_, fault) => c.outcome == Outcome::Fault(fault)
                            && c.after == w,
                        HookReply::Answered(_, v) => c.outcome == Outcome::Value(v) && c.after
                            == w,
                        _ => match entry_fault(f, w.m, args) {
                            Some(fault) => c.outcome == Outcome::Fault(fault) && c.after == w,
                            None => valid_run(
                                p,
                                w.m.frames.len(),
                                with_machine(w, entered(f, fn_id, w.m, args, None, None)),
                                c.run,
                            ) && match run_end(c.run) {
                                Some((Outcome::Value(v), after)) => c.outcome == Outcome::Value(v)
                                    && c.after == after,
                                Some((Outcome::Fault(fault), after)) => c.outcome
                                    == Outcome::Fault(fault) && c.after == with_machine(
                                    after,
                                    unwound(after.m, c.before.m),
                                ),
                                None => false,
                            },
                        },
                    }
                },
            }
        }
    }
}

/// A call from outside the interpreter loop. A closure puts its captures in
/// front of the arguments.
pub open spec fn valid_call(p: Program, c: Call) -> bool
    decreases c, 1nat,
{
    match c.callee {
        Callee::Function(fn_id) => valid_invocation(p, c, fn_id, c.args),
        Callee::Value(Val::Closure { fn_id, captures, .. }) => valid_invocation(
            p,
            c,
            fn_id,
            captures + c.args,
        ),
        Callee::Value(other) => c.outcome == Outcome::Fault(
            mismatch_fault("invoke_closure_value: not a closure: "@, other),
        ) && c.after == c.before,
    }
}

} // verus!
