//! The virtual machine: a stack machine that hands effects to a host.

use vstd::prelude::*;

use crate::jit_hook::JitHook;
use crate::program::Program;
use crate::value::{ActorCell, ActorHandler};
use crate::vm::memo::MemoFnState;
use crate::vm::memo_table::MemoTable;
use crate::vm::outside::{
    attended, attends, begun, handler_heard, hook_heard, host_heard, record, refused, same_starts,
    tracer_heard, Log, Role,
};
use crate::vm::records::FieldCache;
use crate::vm::state::Machine;
use crate::vm::world::{Actor, Behaviour, Shared, World};

pub mod api;
pub mod arena_doc_laws;
pub mod arena_docs;
pub mod arena_values;
pub mod arith;
pub mod call_laws;
pub mod calls;
pub mod closures;
pub mod compiled_laws;
pub mod dispatch;
pub mod effects;
pub mod escape_laws;
pub mod expr_laws;
pub mod fault;
pub mod frame_laws;
pub mod frames;
pub mod fusion_laws;
pub mod host;
pub mod ic_stats;
pub mod iter_laws;
pub mod iter_next_laws;
pub mod iter_take_laws;
pub mod laws;
pub mod list_laws;
pub mod lists;
pub mod memo;
pub mod memo_laws;
pub mod memo_table;
pub mod op_laws;
pub mod outside;
pub mod parsing;
pub mod path_laws;
pub mod paths;
pub mod pattern_laws;
pub mod plain;
pub mod records;
pub mod refine;
pub mod refine_laws;
pub mod runs;
pub mod shown;
pub mod sort_keys;
pub mod state;
pub mod step;
pub mod tier_laws;
pub mod workers;
pub mod world;

pub use fault::VmError;
pub use host::{DenyAllEffects, EffectHandler, Host, NullTracer, Tracer};
pub use state::MAX_CALL_DEPTH;

verus! {

/// A machine for one program.
pub struct Vm<'a> {
    program: &'a Program,
    handler: Option<Box<dyn EffectHandler + 'a>>,
    tracer: Option<Box<dyn Tracer + 'a>>,
    jit_hook: Option<Box<dyn JitHook + 'a>>,
    host: Option<Box<dyn Host + 'a>>,
    machine: Machine,
    /// How many steps may be taken.
    pub step_limit: u64,
    pub steps: u64,
    /// How many ops were carried out and calls offered to the hook.
    turns: u64,
    pure_memo: MemoTable,
    pub pure_memo_hits: u64,
    pub pure_memo_misses: u64,
    /// How many calls of effect-free functions were not looked up.
    pub pure_memo_skips: u64,
    memo_fn_state: Vec<MemoFnState>,
    field_ics: FieldCache<'a>,
    /// The exchanges with the program around the machine.
    log: Ghost<Log<'a>>,
}

/// An actor, seen as a mathematical object.
pub open spec fn actor_view(c: ActorCell) -> Actor {
    Actor {
        state: c.state@,
        handler: match c.handler {
            ActorHandler::Lex(f) => Behaviour::Lex(f@),
            ActorHandler::Native(h) => Behaviour::Native(h.id),
        },
    }
}

impl<'a> View for Vm<'a> {
    type V = World;

    closed spec fn view(&self) -> World {
        World {
            m: self.machine@,
            sh: Shared {
                steps: self.steps,
                limit: self.step_limit,
                turns: self.turns,
                memo: self.pure_memo@,
                fns: self.memo_fn_state@,
                hits: self.pure_memo_hits,
                misses: self.pure_memo_misses,
                skips: self.pure_memo_skips,
                has_hook: self.jit_hook is Some,
                said: self.log@.said,
            },
        }
    }
}

impl<'a> Vm<'a> {
    /// The program that the machine runs.
    pub closed spec fn program(&self) -> Program {
        *self.program
    }

    /// Who carries out effects; without a handler they are refused.
    pub closed spec fn handler(&self) -> Option<Box<dyn EffectHandler + 'a>> {
        self.handler
    }

    /// Who hears of calls and effects.
    pub closed spec fn tracer(&self) -> Option<Box<dyn Tracer + 'a>> {
        self.tracer
    }

    /// Whom calls are offered to.
    pub closed spec fn jit_hook(&self) -> Option<Box<dyn JitHook + 'a>> {
        self.jit_hook
    }

    /// Who computes what the machine cannot.
    pub closed spec fn host(&self) -> Option<Box<dyn Host + 'a>> {
        self.host
    }

    /// The exchanges with the program around the machine, and with whom they
    /// were.
    pub closed spec fn log(&self) -> Log<'a> {
        self.log@
    }

    /// The machine proper.
    pub closed spec fn machine_of(&self) -> Machine {
        self.machine
    }

    /// The parts of the machine fit together.
    pub closed spec fn wf(&self) -> bool {
        &&& self.field_ics.program() == *self.program
        &&& self.host is Some
        &&& attended(self.log@)
        &&& begun(self.log@)
        &&& tracer_heard(self.log@, self.tracer)
        &&& handler_heard(self.log@, self.handler)
        &&& hook_heard(self.log@, self.jit_hook)
        &&& host_heard(self.log@, self.host)
        &&& self.handler is None ==> refused(self.log@.said)
    }

    /// How many more turns can be counted.
    pub open spec fn fuel(&self) -> nat {
        (u64::MAX - self@.sh.turns) as nat
    }
}

/// The machine still runs the same program, its parts still fit together, and
/// it still has the handler, the tracer, the hook and the host that it had.
pub open spec fn kept(before: Vm, after: Vm) -> bool {
    &&& after.wf()
    &&& after.program() == before.program()
    &&& after.handler() is Some <==> before.handler() is Some
    &&& after.tracer() is Some <==> before.tracer() is Some
    &&& after.jit_hook() is Some <==> before.jit_hook() is Some
    &&& after.host() is Some <==> before.host() is Some
    &&& same_starts(before.log(), after.log())
}

/// Nobody that the machine speaks to has changed.
pub open spec fn same_parties(before: Vm, after: Vm) -> bool {
    &&& after.handler() == before.handler()
    &&& after.tracer() == before.tracer()
    &&& after.jit_hook() == before.jit_hook()
    &&& after.host() == before.host()
    &&& after.log() == before.log()
}

/// Law: every exchange that a machine has had was one that its party may have
/// taken part in: the party was told what the exchange says, and gave the
/// answer that the exchange says.
pub proof fn law_every_exchange_is_attended(vm: Vm)
    requires
        vm.wf(),
    ensures
        vm.log().said == vm@.sh.said,
        vm.log().by.len() == vm@.sh.said.len(),
        forall|i: int|
            0 <= i < vm@.sh.said.len() ==> attends(
                #[trigger] vm.log().by[i],
                #[trigger] vm@.sh.said[i],
            ),
{
}

/// Law: a party that keeps a record of what it hears has heard every exchange
/// with it since it came in exactly once, in order, and nothing else.
pub proof fn law_every_exchange_is_heard_once(vm: Vm)
    requires
        vm.wf(),
    ensures
        vm.tracer() matches Some(t) ==> t.heard() == record(
            vm.log().tracer,
            vm@.sh.said,
            Role::Tracer,
        ),
        vm.handler() matches Some(h) ==> h.heard() == record(
            vm.log().handler,
            vm@.sh.said,
            Role::Handler,
        ),
        vm.jit_hook() matches Some(h) ==> h.heard() == record(
            vm.log().hook,
            vm@.sh.said,
            Role::Hook,
        ),
        vm.host() matches Some(h) ==> h.heard() == record(vm.log().host, vm@.sh.said, Role::Host),
{
}

/// Law: a machine without a handler has refused every effect that came to it,
/// with a text that names the effect.
pub proof fn law_no_handler_refuses(vm: Vm)
    requires
        vm.wf(),
        vm.handler() is None,
    ensures
        refused(vm@.sh.said),
{
}

} // verus!
