//! What the host does with a machine.

use vstd::prelude::*;

use crate::index_maps;
use crate::jit_hook::JitHook;
use crate::json::Json;
use crate::program::Program;
use crate::value;
use crate::value::{vals, Val, Value};
use crate::value_ops::{find_field, find_name};
use crate::vm::arena_docs::{arena_doc, draws, value_doc};
use crate::vm::arena_values::{copy_value, materialize, value_agrees};
use crate::vm::dispatch::{called, moved_on};
use crate::vm::fault::{mismatch_fault, mismatch_with, Fault, VmError};
use crate::vm::host::{EffectHandler, Host, Tracer};
use crate::vm::memo::MemoFnState;
use crate::vm::memo_table::MemoTable;
use crate::vm::ic_stats::IcStats;
use crate::vm::outside::{say, Exchange, Log, Start};
use crate::vm::records::{find_in_shape, read_slot, resolve_stack_field, shape_at, FieldCache};
use crate::vm::state::{AllocCounts, FrameView, Machine, State};
use crate::vm::world::{Call, Callee, Shared, World};
use crate::vm::{kept, same_parties, Vm};

verus! {

broadcast use crate::value::lemma_view;

/// How many steps a machine may take if nothing else is said.
pub const DEFAULT_STEP_LIMIT: u64 = 10_000_000;

/// The world of a machine that has not run.
pub open spec fn fresh_world(p: Program) -> World {
    World {
        m: State {
            stack: Seq::empty(),
            frames: Seq::empty(),
            locals: Seq::empty(),
            slab: Seq::empty(),
            arena: Seq::empty(),
            scopes: Seq::empty(),
            counts: AllocCounts {
                stack_record_allocs: 0,
                stack_record_heap_fallbacks: 0,
                heap_record_allocs: 0,
                arena_record_allocs: 0,
                arena_record_heap_fallbacks: 0,
            },
            hits: None,
        },
        sh: Shared {
            steps: 0,
            limit: DEFAULT_STEP_LIMIT,
            turns: 0,
            memo: Map::empty(),
            fns: Seq::new(
                p.functions@.len(),
                |i: int| MemoFnState { calls: 0, hits: 0, enabled: true },
            ),
            hits: 0,
            misses: 0,
            skips: 0,
            has_hook: false,
            said: Seq::empty(),
        },
    }
}

/// The record of a hook, if there is one and it keeps one.
pub open spec fn hook_record<'a>(hook: Option<Box<dyn JitHook + 'a>>) -> Option<Seq<Exchange>> {
    match hook {
        Some(h) => h.heard(),
        None => None,
    }
}

/// The log of a machine that has not run.
pub open spec fn fresh_log<'a>(
    handler: Option<Box<dyn EffectHandler + 'a>>,
    host: Option<Box<dyn Host + 'a>>,
) -> Log<'a> {
    Log {
        said: Seq::empty(),
        by: Seq::empty(),
        tracer: Start { heard: None, from: 0 },
        handler: Start {
            heard: match handler {
                Some(h) => h.heard(),
                None => None,
            },
            from: 0,
        },
        hook: Start { heard: None, from: 0 },
        host: Start {
            heard: match host {
                Some(h) => h.heard(),
                None => None,
            },
            from: 0,
        },
    }
}

/// The state behind the start of a request scope.
pub open spec fn scope_entered(s: State) -> State {
    State { scopes: s.scopes.push(s.arena.len() as usize), ..s }
}

/// The state behind the end of a request scope: the arena is what it was at the
/// start. Without an open scope nothing happens.
pub open spec fn scope_exited(s: State) -> State {
    if s.scopes.len() == 0 {
        s
    } else {
        State {
            scopes: s.scopes.drop_last(),
            arena: if s.scopes.last() <= s.arena.len() {
                s.arena.take(s.scopes.last() as int)
            } else {
                s.arena
            },
            ..s
        }
    }
}

/// Law: whatever a request puts into the arena, the end of its scope restores
/// the state from before its start.
pub proof fn law_scope_exit_restores(s: State, more: Seq<Val>)
    requires
        s.arena.len() <= usize::MAX,
    ensures
        scope_exited(State { arena: s.arena + more, ..scope_entered(s) }) == s,
{
    let t = State { arena: s.arena + more, ..scope_entered(s) };
    assert(t.scopes.drop_last() =~= s.scopes);
    assert(t.arena.take(s.arena.len() as int) =~= s.arena);
}

/// The field of a record that the host asks for. Nothing is found in a value
/// that is no record, nor behind a handle to a slot that is gone.
pub open spec fn host_field(p: Program, arena: Seq<Val>, v: Val, name: Seq<char>) -> Option<Val> {
    match v {
        Val::Record { names, values, .. } => match find_name(names, name) {
            Some(i) => Some(values[i]),
            None => None,
        },
        Val::ArenaRecord { shape_id, slab_start, field_count } => match shape_at(p, shape_id) {
            None => None,
            Some(shape) => match find_in_shape(p, shape, name, 0) {
                Some(i) => if i < field_count && slab_start + i < arena.len() {
                    Some(arena[slab_start + i])
                } else {
                    None
                },
                None => None,
            },
        },
        _ => None,
    }
}

/// The element of a tuple that the host asks for.
pub open spec fn host_elem(arena: Seq<Val>, v: Val, i: u16) -> Option<Val> {
    match v {
        Val::Tuple(items) => if i < items.len() {
            Some(items[i as int])
        } else {
            None
        },
        Val::ArenaTuple { slab_start, arity } => if i < arity && slab_start + i < arena.len() {
            Some(arena[slab_start + i])
        } else {
            None
        },
        _ => None,
    }
}

/// An optional value, seen as a mathematical object.
pub open spec fn option_view(v: Option<Value>) -> Option<Val> {
    match v {
        Some(x) => Some(x@),
        None => None,
    }
}

impl<'a> Vm<'a> {
    /// A machine that refuses every effect.
    pub fn new(program: &'a Program, host: Box<dyn Host + 'a>) -> (vm: Vm<'a>)
        ensures
            vm.wf(),
            vm.program() == *program,
            vm@ == fresh_world(*program),
            vm.handler() is None,
            vm.host() == Some(host),
            vm.tracer() is None,
            vm.jit_hook() is None,
    {
        let helper = Some(host);
        Vm::assemble(program, None, helper)
    }

    /// A machine whose effects go to a handler.
    pub fn with_handler(
        program: &'a Program,
        handler: Box<dyn EffectHandler + 'a>,
        host: Box<dyn Host + 'a>,
    ) -> (vm: Vm<'a>)
        ensures
            vm.wf(),
            vm.program() == *program,
            vm@ == fresh_world(*program),
            vm.handler() == Some(handler),
            vm.host() == Some(host),
            vm.tracer() is None,
            vm.jit_hook() is None,
    {
        let worker = Some(handler);
        let helper = Some(host);
        Vm::assemble(program, worker, helper)
    }

    fn assemble(
        program: &'a Program,
        handler: Option<Box<dyn EffectHandler + 'a>>,
        host: Option<Box<dyn Host + 'a>>,
    ) -> (vm: Vm<'a>)
        requires
            host is Some,
        ensures
            vm.wf(),
            vm.program() == *program,
            vm@ == fresh_world(*program),
            vm.handler() == handler,
            vm.host() == host,
            vm.tracer() is None,
            vm.jit_hook() is None,
            vm.log() == fresh_log(handler, host),
    {
        let n: usize = program.functions.len();
        let mut fns: Vec<MemoFnState> = Vec::with_capacity(n);
        let mut i: usize = 0;
        while i < n
            invariant
                i <= n,
                fns@ == Seq::new(
                    i as nat,
                    |i: int| MemoFnState { calls: 0, hits: 0, enabled: true },
                ),
            decreases n - i,
        {
            fns.push(MemoFnState::new());
            i = i + 1;
        }
        let machine = Machine {
            stack: Vec::new(),
            frames: Vec::new(),
            locals: Vec::new(),
            slab: Vec::new(),
            arena: Vec::new(),
            scopes: Vec::new(),
            counts: AllocCounts {
                stack_record_allocs: 0,
                stack_record_heap_fallbacks: 0,
                heap_record_allocs: 0,
                arena_record_allocs: 0,
                arena_record_heap_fallbacks: 0,
            },
            hits: None,
        };
        let log = Ghost(fresh_log(handler, host));
        let vm = Vm {
            program,
            handler,
            tracer: None,
            jit_hook: None,
            host,
            machine,
            step_limit: DEFAULT_STEP_LIMIT,
            steps: 0,
            turns: 0,
            pure_memo: MemoTable::new(),
            pure_memo_hits: 0,
            pure_memo_misses: 0,
            pure_memo_skips: 0,
            memo_fn_state: fns,
            field_ics: FieldCache::new(program),
            log,
        };
        proof {
            let none = Seq::<Val>::empty();
            assert(vm@.m.stack =~= none);
            assert(vm@.m.locals =~= none);
            assert(vm@.m.slab =~= none);
            assert(vm@.m.arena =~= none);
            assert(vm@.m.frames =~= Seq::<FrameView>::empty());
            assert(vm@.m.scopes =~= Seq::<usize>::empty());
            assert(vm@.sh.said =~= Seq::<Exchange>::empty());
        }
        vm
    }

    /// Sends the events of calls and effects to a tracer.
    pub fn set_tracer(&mut self, tracer: Box<dyn Tracer + 'a>)
        requires
            old(self).wf(),
        ensures
            final(self).wf(),
            final(self).program() == old(self).program(),
            final(self)@ == old(self)@,
            final(self).tracer() == Some(tracer),
            final(self).handler() == old(self).handler(),
            final(self).jit_hook() == old(self).jit_hook(),
            final(self).host() == old(self).host(),
            final(self).log() == (Log {
                tracer: Start { heard: tracer.heard(), from: old(self)@.sh.said.len() },
                ..old(self).log()
            }),
    {
        let ghost start = Start { heard: tracer.heard(), from: self.log@.said.len() };
        let listener = Some(tracer);
        self.tracer = listener;
        self.log = Ghost(Log { tracer: start, ..self.log@ });
    }

    /// Installs or removes the hook that calls are offered to.
    pub fn set_jit_hook(&mut self, hook: Option<Box<dyn JitHook + 'a>>)
        requires
            old(self).wf(),
        ensures
            final(self).wf(),
            final(self).program() == old(self).program(),
            final(self)@ == (World {
                sh: Shared { has_hook: hook is Some, ..old(self)@.sh },
                ..old(self)@
            }),
            final(self).jit_hook() == hook,
            final(self).tracer() == old(self).tracer(),
            final(self).handler() == old(self).handler(),
            final(self).host() == old(self).host(),
            final(self).log() == (Log {
                hook: Start { heard: hook_record(hook), from: old(self)@.sh.said.len() },
                ..old(self).log()
            }),
    {
        let ghost start = Start { heard: hook_record(hook), from: self.log@.said.len() };
        self.jit_hook = hook;
        self.log = Ghost(Log { hook: start, ..self.log@ });
    }

    /// Sets how many steps may be taken.
    pub fn set_step_limit(&mut self, limit: u64)
        requires
            old(self).wf(),
        ensures
            kept(*old(self), *final(self)),
            same_parties(*old(self), *final(self)),
            final(self)@ == (World {
                sh: Shared { limit, ..old(self)@.sh },
                ..old(self)@
            }),
    {
        self.step_limit = limit;
    }

    /// Starts to count field accesses by site and shape.
    pub fn keep_ic_stats(&mut self)
        requires
            old(self).wf(),
        ensures
            kept(*old(self), *final(self)),
            same_parties(*old(self), *final(self)),
            final(self)@ == (World {
                m: State { hits: Some(Map::empty()), ..old(self)@.m },
                ..old(self)@
            }),
    {
        self.machine.hits = Some(IcStats::new());
    }

    /// The counts of field accesses, if they are kept.
    pub fn ic_stats(&self) -> (s: Option<&IcStats>)
        ensures
            match s {
                Some(x) => self@.m.hits == Some(x@),
                None => self@.m.hits is None,
            },
    {
        self.machine.hits.as_ref()
    }

    /// How often records and tuples were built, and where.
    pub fn alloc_counts(&self) -> (counts: AllocCounts)
        ensures
            counts == self@.m.counts,
    {
        self.machine.counts
    }

    /// Calls a function by its name.
    pub fn call(&mut self, name: &str, args: Vec<Value>) -> (r: Result<Value, VmError>)
        requires
            old(self).wf(),
        ensures
            kept(*old(self), *final(self)),
            moved_on(old(self)@, final(self)@),
            ({
                let ids = index_maps::name_ids(old(self).program().function_names);
                if ids.contains_key(name@) {
                    exists|c: Call| #[trigger]
                        called(
                            old(self).program(),
                            c,
                            Callee::Function(ids[name@]),
                            vals(args@),
                            old(self)@,
                            final(self)@,
                            r,
                        )
                } else {
                    final(self)@ == old(self)@ && (r matches Err(e) && e@ == Fault::Panic(
                        "no function `"@ + name@ + "`"@,
                    ))
                }
            }),
    {
        match self.program.lookup(name) {
            Some(fn_id) => self.invoke(fn_id, args),
            None => {
                let mut t = "no function `".to_owned();
                t.append(name);
                t.append("`");
                Err(VmError::Panic(t))
            },
        }
    }

    /// Calls a closure with one argument.
    pub fn invoke_closure_1(&mut self, closure: Value, arg: Value) -> (r: Result<Value, VmError>)
        requires
            old(self).wf(),
        ensures
            kept(*old(self), *final(self)),
            moved_on(old(self)@, final(self)@),
            if closure@ is Closure {
                let args = seq![arg@];
                exists|c: Call| #[trigger]
                    called(
                        old(self).program(),
                        c,
                        Callee::Value(closure@),
                        args,
                        old(self)@,
                        final(self)@,
                        r,
                    )
            } else {
                final(self)@ == old(self)@ && (r matches Err(e) && e@ == mismatch_fault(
                    "invoke_closure_1: not a closure: "@,
                    closure@,
                ))
            },
    {
        assert(closure@ == value::view_of(closure));
        if let Value::Closure { .. } = &closure {
            let args = vec![arg];
            assert(vals(args@) =~= seq![arg@]);
            self.invoke_closure_value(closure, args)
        } else {
            Err(mismatch_with("invoke_closure_1: not a closure: ", &closure))
        }
    }

    /// Calls a closure with two arguments.
    pub fn invoke_closure_2(&mut self, closure: Value, a: Value, b: Value) -> (r: Result<
        Value,
        VmError,
    >)
        requires
            old(self).wf(),
        ensures
            kept(*old(self), *final(self)),
            moved_on(old(self)@, final(self)@),
            if closure@ is Closure {
                let args = seq![a@, b@];
                exists|c: Call| #[trigger]
                    called(
                        old(self).program(),
                        c,
                        Callee::Value(closure@),
                        args,
                        old(self)@,
                        final(self)@,
                        r,
                    )
            } else {
                final(self)@ == old(self)@ && (r matches Err(e) && e@ == mismatch_fault(
                    "invoke_closure_2: not a closure: "@,
                    closure@,
                ))
            },
    {
        assert(closure@ == value::view_of(closure));
        if let Value::Closure { .. } = &closure {
            let args = vec![a, b];
            assert(vals(args@) =~= seq![a@, b@]);
            self.invoke_closure_value(closure, args)
        } else {
            Err(mismatch_with("invoke_closure_2: not a closure: ", &closure))
        }
    }

    /// Opens a request scope. What the arena takes in until the scope is closed
    /// is dropped then. Gives the name that the handler has for the scope.
    pub fn enter_request_scope(&mut self) -> (scope_id: u64)
        requires
            old(self).wf(),
        ensures
            kept(*old(self), *final(self)),
            final(self)@ == say(
                World { m: scope_entered(old(self)@.m), ..old(self)@ },
                Exchange::OpenScope(scope_id),
            ),
    {
        let n: usize = self.machine.arena.len();
        self.machine.scopes.push(n);
        self.ask_scope()
    }

    /// Whether a request scope is open.
    pub fn arena_scope_active(&self) -> (yes: bool)
        ensures
            yes == (self@.m.scopes.len() > 0),
    {
        self.machine.scopes.len() > 0
    }

    /// Closes the request scope that was opened last.
    pub fn exit_request_scope(&mut self, scope_id: u64)
        requires
            old(self).wf(),
        ensures
            kept(*old(self), *final(self)),
            final(self)@ == say(
                World { m: scope_exited(old(self)@.m), ..old(self)@ },
                Exchange::CloseScope(scope_id),
            ),
    {
        if let Some(start) = self.machine.scopes.pop() {
            crate::vm::frames::cut_values(&mut self.machine.arena, start);
        }
        self.say_scope_end(scope_id)
    }

    /// The value with every arena handle replaced by the record or tuple that it
    /// stands for.
    pub fn materialize_arena_handles(&self, value: Value) -> (r: Result<Value, VmError>)
        ensures
            value_agrees(
                r,
                materialize(
                    self.program(),
                    self@.m.arena,
                    value@,
                    self@.m.arena.len(),
                ),
            ),
    {
        let bound: usize = self.machine.arena.len();
        copy_value(self.program, &self.machine.arena, &value, bound)
    }

    /// Reads a field of a record on the heap or in the arena.
    pub fn get_record_field(&self, value: &Value, name: &str) -> (v: Option<Value>)
        ensures
            option_view(v) == host_field(self.program(), self@.m.arena, value@, name@),
    {
        assert(value@ == value::view_of(*value));
        match value {
            Value::Record { fields, .. } => match find_field(fields, name) {
                Some(i) => Some(fields[i].value.duplicate()),
                None => None,
            },
            Value::ArenaRecord { shape_id, slab_start, field_count } => {
                match resolve_stack_field(self.program, *shape_id, name, "arena record") {
                    Ok(i) => if i < *field_count as usize {
                        match read_slot(&self.machine.arena, *slab_start, i) {
                            Ok(v) => Some(v),
                            Err(_) => None,
                        }
                    } else {
                        None
                    },
                    Err(_) => None,
                }
            },
            _ => None,
        }
    }

    /// Reads an element of a tuple on the heap or in the arena.
    pub fn get_tuple_elem(&self, value: &Value, idx: u16) -> (v: Option<Value>)
        ensures
            option_view(v) == host_elem(self@.m.arena, value@, idx),
    {
        assert(value@ == value::view_of(*value));
        match value {
            Value::Tuple(items) => if (idx as usize) < items.len() {
                assert(vals(items@)[idx as int] == items@[idx as int]@);
                Some(items[idx as usize].duplicate())
            } else {
                None
            },
            Value::ArenaTuple { slab_start, arity } => if idx < *arity {
                match read_slot(&self.machine.arena, *slab_start, idx as usize) {
                    Ok(v) => Some(v),
                    Err(_) => None,
                }
            } else {
                None
            },
            _ => None,
        }
    }

    /// The document of a value whose parts may lie in the arena.
    pub fn value_to_json(&self, value: &Value) -> (r: Result<Json, VmError>)
        ensures
            draws(r, arena_doc(self.program(), self@.m.arena, value@, self@.m.arena.len())),
    {
        let bound: usize = self.machine.arena.len();
        value_doc(self.program, &self.machine.arena, value, bound)
    }
}

} // verus!
