//! What the machine asks of the program around it.

use vstd::prelude::*;

use crate::conc_registry::ActorRegistry;
use crate::parser_runtime::answer_view;
use crate::shape_registry::ShapeRegistry;
use crate::value::{vals, ActorCell, Val, Value};
use crate::vm::api::option_view;
use crate::vm::arith::FloatOp;
use crate::vm::fault::VmError;
use crate::vm::outside::{actor_option_view, hears, mapped_view, refusal_view, Exchange};
use crate::vm::actor_view;

verus! {

/// Decides what effects mean and carries them out.
pub trait EffectHandler {
    /// Which exchanges the handler may take part in, by what it is told and
    /// what it answers.
    open spec fn may(&self, x: Exchange) -> bool {
        true
    }

    /// What the handler has heard, if it keeps a record of it.
    open spec fn heard(&self) -> Option<Seq<Exchange>> {
        None
    }

    fn dispatch(&mut self, kind: &str, op: &str, args: Vec<Value>) -> (r: Result<Value, String>)
        ensures
            old(self).may(
                Exchange::Dispatch {
                    kind: kind@,
                    op: op@,
                    args: vals(args@),
                    answer: answer_view(r),
                },
            ),
            hears(
                old(self).heard(),
                Exchange::Dispatch {
                    kind: kind@,
                    op: op@,
                    args: vals(args@),
                    answer: answer_view(r),
                },
                final(self).heard(),
            ),
    ;

    /// Called at every call of a function that declares a budget, with the sum
    /// of its budgets; an error refuses the call.
    fn note_call_budget(&mut self, budget_cost: u64) -> (r: Result<(), String>)
        ensures
            old(self).may(Exchange::Budget { cost: budget_cost, refusal: refusal_view(r) }),
            hears(
                old(self).heard(),
                Exchange::Budget { cost: budget_cost, refusal: refusal_view(r) },
                final(self).heard(),
            ),
    ;

    /// Opens a request scope and names it.
    fn enter_request_scope(&mut self) -> (scope_id: u64)
        ensures
            old(self).may(Exchange::OpenScope(scope_id)),
            hears(old(self).heard(), Exchange::OpenScope(scope_id), final(self).heard()),
    ;

    /// Closes a request scope.
    fn exit_request_scope(&mut self, scope_id: u64)
        ensures
            old(self).may(Exchange::CloseScope(scope_id)),
            hears(old(self).heard(), Exchange::CloseScope(scope_id), final(self).heard()),
    ;

    /// Makes a handler for a worker of a parallel map and names it, so that the
    /// host finds it; without one the worker refuses every effect.
    fn spawn_for_worker(&mut self) -> (seat: Option<u64>)
        ensures
            old(self).may(Exchange::WorkerHandler(seat)),
            hears(old(self).heard(), Exchange::WorkerHandler(seat), final(self).heard()),
    ;
}

/// A handler that refuses every effect.
pub struct DenyAllEffects;

/// The refusal of an effect.
pub open spec fn denial(kind: Seq<char>, op: Seq<char>) -> Seq<char> {
    "effects not permitted (attempted "@ + kind + "."@ + op + ")"@
}

impl EffectHandler for DenyAllEffects {
    /// Every effect is refused, and no call. Scopes and workers get nothing of
    /// their own.
    open spec fn may(&self, x: Exchange) -> bool {
        match x {
            Exchange::Dispatch { kind, op, answer, .. } => answer == Err::<Val, Seq<char>>(
                denial(kind, op),
            ),
            Exchange::Budget { refusal, .. } => refusal is None,
            Exchange::OpenScope(scope_id) => scope_id == 0,
            Exchange::WorkerHandler(seat) => seat is None,
            _ => true,
        }
    }

    fn dispatch(&mut self, kind: &str, op: &str, _args: Vec<Value>) -> (r: Result<Value, String>)
        ensures
            r matches Err(t) && t@ == denial(kind@, op@),
    {
        let mut t = "effects not permitted (attempted ".to_owned();
        t.append(kind);
        t.append(".");
        t.append(op);
        t.append(")");
        Err(t)
    }

    fn note_call_budget(&mut self, _budget_cost: u64) -> (r: Result<(), String>)
        ensures
            r is Ok,
    {
        Ok(())
    }

    fn enter_request_scope(&mut self) -> (scope_id: u64)
        ensures
            scope_id == 0,
    {
        0
    }

    fn exit_request_scope(&mut self, _scope_id: u64) {
    }

    fn spawn_for_worker(&mut self) -> (seat: Option<u64>)
        ensures
            seat is None,
    {
        None
    }
}

/// Receives the tree of calls and effects, and may put values in the place of
/// effects.
pub trait Tracer {
    /// Which exchanges the tracer may take part in, by what it is told and what
    /// it answers.
    open spec fn may(&self, x: Exchange) -> bool {
        true
    }

    /// What the tracer has heard, if it keeps a record of it.
    open spec fn heard(&self) -> Option<Seq<Exchange>> {
        None
    }

    fn enter_call(&mut self, node_id: &str, name: &str, args: &[Value])
        ensures
            old(self).may(
                Exchange::EnterCall { node: node_id@, name: name@, args: vals(args@) },
            ),
            hears(
                old(self).heard(),
                Exchange::EnterCall { node: node_id@, name: name@, args: vals(args@) },
                final(self).heard(),
            ),
    ;

    fn enter_effect(&mut self, node_id: &str, kind: &str, op: &str, args: &[Value])
        ensures
            old(self).may(
                Exchange::EnterEffect {
                    node: node_id@,
                    kind: kind@,
                    op: op@,
                    args: vals(args@),
                },
            ),
            hears(
                old(self).heard(),
                Exchange::EnterEffect { node: node_id@, kind: kind@, op: op@, args: vals(args@) },
                final(self).heard(),
            ),
    ;

    fn exit_ok(&mut self, value: &Value)
        ensures
            old(self).may(Exchange::ExitOk(value@)),
            hears(old(self).heard(), Exchange::ExitOk(value@), final(self).heard()),
    ;

    fn exit_err(&mut self, message: &str)
        ensures
            old(self).may(Exchange::ExitErr(message@)),
            hears(old(self).heard(), Exchange::ExitErr(message@), final(self).heard()),
    ;

    /// Closes the open call because a tail call takes its place.
    fn exit_call_tail(&mut self)
        ensures
            old(self).may(Exchange::ExitTail),
            hears(old(self).heard(), Exchange::ExitTail, final(self).heard()),
    ;

    /// The value to use in the place of an effect, if there is one.
    fn override_effect(&mut self, node_id: &str) -> (value: Option<Value>)
        ensures
            old(self).may(Exchange::Override { node: node_id@, value: option_view(value) }),
            hears(
                old(self).heard(),
                Exchange::Override { node: node_id@, value: option_view(value) },
                final(self).heard(),
            ),
    ;
}

/// A tracer that records nothing.
pub struct NullTracer;

impl Tracer for NullTracer {
    /// No effect is replaced.
    open spec fn may(&self, x: Exchange) -> bool {
        x matches Exchange::Override { value, .. } ==> value is None
    }

    fn enter_call(&mut self, _node_id: &str, _name: &str, _args: &[Value]) {
    }

    fn enter_effect(&mut self, _node_id: &str, _kind: &str, _op: &str, _args: &[Value]) {
    }

    fn exit_ok(&mut self, _value: &Value) {
    }

    fn exit_err(&mut self, _message: &str) {
    }

    fn exit_call_tail(&mut self) {
    }

    fn override_effect(&mut self, _node_id: &str) -> (value: Option<Value>)
        ensures
            value is None,
    {
        None
    }
}

/// What only the host can compute or keep: float arithmetic on bit patterns,
/// work on several threads, messages to native actors, and what all machines of
/// a process share: the actors, their names, and the shape ids that are given at
/// run time.
pub trait Host {
    /// Which exchanges the host may take part in, by what it is told and what
    /// it answers.
    open spec fn may(&self, x: Exchange) -> bool {
        true
    }

    /// What the host has heard, if it keeps a record of it.
    open spec fn heard(&self) -> Option<Seq<Exchange>> {
        None
    }

    fn float_op(&mut self, op: FloatOp, a: u64, b: u64) -> (answer: u64)
        ensures
            old(self).may(Exchange::Float { op, a, b, answer }),
            hears(old(self).heard(), Exchange::Float { op, a, b, answer }, final(self).heard()),
    ;

    /// How many workers a parallel map may have.
    fn max_workers(&mut self) -> (n: usize)
        ensures
            old(self).may(Exchange::MaxWorkers(n)),
            hears(old(self).heard(), Exchange::MaxWorkers(n), final(self).heard()),
    ;

    /// Calls a closure on every item, with as many workers as there are seats.
    /// Each worker is a machine of its own with this step limit and with the
    /// handler that its seat names. The results are in the order of the items.
    fn par_map(
        &mut self,
        closure: Value,
        items: Vec<Value>,
        seats: Vec<Option<u64>>,
        step_limit: u64,
    ) -> (r: Result<Vec<Value>, VmError>)
        ensures
            old(self).may(
                Exchange::ParMap {
                    closure: closure@,
                    items: vals(items@),
                    seats: seats@,
                    limit: step_limit,
                    answer: mapped_view(r),
                },
            ),
            hears(
                old(self).heard(),
                Exchange::ParMap {
                    closure: closure@,
                    items: vals(items@),
                    seats: seats@,
                    limit: step_limit,
                    answer: mapped_view(r),
                },
                final(self).heard(),
            ),
    ;

    /// Sends a message to a native actor.
    fn native_send(&mut self, handler: u64, msg: Value) -> (r: Result<Value, String>)
        ensures
            old(self).may(
                Exchange::Native { id: handler, msg: msg@, answer: answer_view(r) },
            ),
            hears(
                old(self).heard(),
                Exchange::Native { id: handler, msg: msg@, answer: answer_view(r) },
                final(self).heard(),
            ),
    ;

    /// Keeps a new actor and names it by a handle that no other actor has.
    fn add_actor(&mut self, cell: ActorCell) -> (handle: u64)
        ensures
            old(self).may(Exchange::AddActor { actor: actor_view(cell), handle }),
            hears(
                old(self).heard(),
                Exchange::AddActor { actor: actor_view(cell), handle },
                final(self).heard(),
            ),
    ;

    /// Takes an actor out, for one message. Waits while another machine has it.
    fn take_actor(&mut self, handle: u64) -> (cell: Option<ActorCell>)
        ensures
            old(self).may(Exchange::TakeActor { handle, actor: actor_option_view(cell) }),
            hears(
                old(self).heard(),
                Exchange::TakeActor { handle, actor: actor_option_view(cell) },
                final(self).heard(),
            ),
    ;

    /// Puts an actor back.
    fn put_actor(&mut self, handle: u64, cell: ActorCell)
        ensures
            old(self).may(Exchange::PutActor { handle, actor: actor_view(cell) }),
            hears(
                old(self).heard(),
                Exchange::PutActor { handle, actor: actor_view(cell) },
                final(self).heard(),
            ),
    ;

    /// Takes the names of the actors. Waits while another machine has them.
    fn take_names(&mut self) -> (names: ActorRegistry)
        ensures
            old(self).may(Exchange::TakeNames(names@)),
            hears(old(self).heard(), Exchange::TakeNames(names@), final(self).heard()),
    ;

    /// Puts the names of the actors back.
    fn put_names(&mut self, names: ActorRegistry)
        ensures
            old(self).may(Exchange::PutNames(names@)),
            hears(old(self).heard(), Exchange::PutNames(names@), final(self).heard()),
    ;

    /// Takes the shape ids that were given at run time. Waits while another
    /// machine has them.
    fn take_shapes(&mut self) -> (shapes: ShapeRegistry)
        ensures
            old(self).may(Exchange::TakeShapes(shapes@)),
            hears(old(self).heard(), Exchange::TakeShapes(shapes@), final(self).heard()),
    ;

    /// Puts the shape ids back.
    fn put_shapes(&mut self, shapes: ShapeRegistry)
        ensures
            old(self).may(Exchange::PutShapes(shapes@)),
            hears(old(self).heard(), Exchange::PutShapes(shapes@), final(self).heard()),
    ;
}

} // verus!
