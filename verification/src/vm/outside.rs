//! What the machine says to the program around it, and what it hears.
//!
//! The tracer, the effect handler, the call hook and the host are spoken to
//! here and nowhere else. Every exchange is written down, so that the contract
//! of an op fixes whom it speaks to, in which order, and what it says.

use vstd::prelude::*;

use crate::conc_registry::ActorRegistry;
use crate::jit_hook::JitHook;
use crate::parser_runtime::answer_view;
use crate::shape_registry::ShapeRegistry;
use crate::value::{vals, ActorCell, Val, Value};
use crate::vm::api::option_view;
use crate::vm::arith::FloatOp;
use crate::vm::fault::{Fault, VmError};
use crate::vm::host::{denial, DenyAllEffects, EffectHandler, Host, Tracer};
use crate::vm::world::{Actor, HookReply, Shared, World};
use crate::vm::{actor_view, kept, Vm};

verus! {

/// One exchange: what was said, and what came back.
pub enum Exchange {
    /// The tracer hears of a call.
    EnterCall { node: Seq<char>, name: Seq<char>, args: Seq<Val> },
    /// The tracer hears of an effect.
    EnterEffect { node: Seq<char>, kind: Seq<char>, op: Seq<char>, args: Seq<Val> },
    /// The tracer hears how a call or an effect ended.
    ExitOk(Val),
    ExitErr(Seq<char>),
    /// The tracer hears that a tail call takes the place of a call.
    ExitTail,
    /// The tracer is asked for a value in the place of an effect.
    Override { node: Seq<char>, value: Option<Val> },
    /// The handler is asked whether a call may use its budget; a text refuses.
    Budget { cost: u64, refusal: Option<Seq<char>> },
    /// The handler carries out an effect.
    Dispatch {
        kind: Seq<char>,
        op: Seq<char>,
        args: Seq<Val>,
        answer: Result<Val, Seq<char>>,
    },
    /// The handler opens a request scope and names it.
    OpenScope(u64),
    /// The handler closes a request scope.
    CloseScope(u64),
    /// A call is offered to the hook, with the steps taken and the limit.
    Hook { fn_id: u32, args: Seq<Val>, steps: u64, limit: u64, reply: HookReply },
    /// The host computes with floats.
    Float { op: FloatOp, a: u64, b: u64, answer: u64 },
    /// The host says how many workers a parallel map may have.
    MaxWorkers(usize),
    /// The handler makes a handler for a worker and names it, or makes none.
    WorkerHandler(Option<u64>),
    /// The host calls a closure on many items.
    ParMap {
        closure: Val,
        items: Seq<Val>,
        seats: Seq<Option<u64>>,
        limit: u64,
        answer: Result<Seq<Val>, Fault>,
    },
    /// The host sends a message to a native actor.
    Native { id: u64, msg: Val, answer: Result<Val, Seq<char>> },
    /// The host keeps a new actor and names it.
    AddActor { actor: Actor, handle: u64 },
    /// The host hands out an actor, if there is one.
    TakeActor { handle: u64, actor: Option<Actor> },
    /// The host gets an actor back.
    PutActor { handle: u64, actor: Actor },
    /// The host hands out the names of the actors.
    TakeNames(Map<Seq<char>, Val>),
    /// The host gets the names of the actors back.
    PutNames(Map<Seq<char>, Val>),
    /// The host hands out the shape ids that were given at run time.
    TakeShapes(Map<Seq<Seq<char>>, u32>),
    /// The host gets the shape ids back.
    PutShapes(Map<Seq<Seq<char>>, u32>),
}

/// Who took part in an exchange, as they were before it; `None` where there was
/// nobody to speak to.
pub enum Party<'a> {
    Tracer(Option<Box<dyn Tracer + 'a>>),
    Handler(Option<Box<dyn EffectHandler + 'a>>),
    Hook(Option<Box<dyn JitHook + 'a>>),
    Host(Option<Box<dyn Host + 'a>>),
}

/// Where a party came in: what it had heard before, and how much had been said.
pub struct Start {
    pub heard: Option<Seq<Exchange>>,
    pub from: nat,
}

/// The exchanges of a machine, with whom they were, and where the parties that
/// it has now came in.
pub struct Log<'a> {
    pub said: Seq<Exchange>,
    pub by: Seq<Party<'a>>,
    pub tracer: Start,
    pub handler: Start,
    pub hook: Start,
    pub host: Start,
}

/// The log with one more exchange.
pub open spec fn noted<'a>(log: Log<'a>, p: Party<'a>, x: Exchange) -> Log<'a> {
    Log { said: log.said.push(x), by: log.by.push(p), ..log }
}

/// A party that keeps a record hears an exchange once.
pub open spec fn hears(
    before: Option<Seq<Exchange>>,
    x: Exchange,
    after: Option<Seq<Exchange>>,
) -> bool {
    match before {
        Some(h) => after == Some(h.push(x)),
        None => after is None,
    }
}

/// Whom an exchange is with.
pub enum Role {
    Tracer,
    Handler,
    Hook,
    Host,
}

pub open spec fn role_of(x: Exchange) -> Role {
    if for_tracer(x) {
        Role::Tracer
    } else if for_handler(x) {
        Role::Handler
    } else if x is Hook {
        Role::Hook
    } else {
        Role::Host
    }
}

/// What a party has heard that came in at a start: each exchange with it once,
/// in order.
pub open spec fn record(start: Start, said: Seq<Exchange>, role: Role) -> Option<Seq<Exchange>>
    decreases said.len(),
{
    if said.len() <= start.from {
        start.heard
    } else if role_of(said.last()) == role {
        match record(start, said.drop_last(), role) {
            Some(h) => Some(h.push(said.last())),
            None => None,
        }
    } else {
        record(start, said.drop_last(), role)
    }
}

pub broadcast proof fn lemma_record_push(
    start: Start,
    said: Seq<Exchange>,
    x: Exchange,
    role: Role,
)
    requires
        start.from <= said.len(),
    ensures
        #[trigger] record(start, said.push(x), role) == (if role_of(x) == role {
            match record(start, said, role) {
                Some(h) => Some(h.push(x)),
                None => None,
            }
        } else {
            record(start, said, role)
        }),
{
    assert(said.push(x).drop_last() =~= said);
}

/// The parties came in before now.
pub open spec fn begun(log: Log) -> bool {
    &&& log.tracer.from <= log.said.len()
    &&& log.handler.from <= log.said.len()
    &&& log.hook.from <= log.said.len()
    &&& log.host.from <= log.said.len()
}

/// The tracer has heard what was said to it.
pub open spec fn tracer_heard<'a>(log: Log<'a>, tracer: Option<Box<dyn Tracer + 'a>>) -> bool {
    tracer matches Some(t) ==> t.heard() == record(log.tracer, log.said, Role::Tracer)
}

/// The handler has heard what was said to it.
pub open spec fn handler_heard<'a>(
    log: Log<'a>,
    handler: Option<Box<dyn EffectHandler + 'a>>,
) -> bool {
    handler matches Some(h) ==> h.heard() == record(log.handler, log.said, Role::Handler)
}

/// The hook has heard what was said to it.
pub open spec fn hook_heard<'a>(log: Log<'a>, hook: Option<Box<dyn JitHook + 'a>>) -> bool {
    hook matches Some(h) ==> h.heard() == record(log.hook, log.said, Role::Hook)
}

/// The host has heard what was said to it.
pub open spec fn host_heard<'a>(log: Log<'a>, host: Option<Box<dyn Host + 'a>>) -> bool {
    host matches Some(h) ==> h.heard() == record(log.host, log.said, Role::Host)
}

/// The same parties, at the same starts.
pub open spec fn same_starts(a: Log, b: Log) -> bool {
    b.tracer == a.tracer && b.handler == a.handler && b.hook == a.hook && b.host == a.host
}

/// Nothing was said to anybody but the host.
pub open spec fn only_host(a: Log, b: Log) -> bool {
    &&& same_starts(a, b)
    &&& a.said.len() <= b.said.len()
    &&& record(a.tracer, b.said, Role::Tracer) == record(a.tracer, a.said, Role::Tracer)
    &&& record(a.handler, b.said, Role::Handler) == record(a.handler, a.said, Role::Handler)
    &&& record(a.hook, b.said, Role::Hook) == record(a.hook, a.said, Role::Hook)
}

/// Nothing was said to anybody but the host, and the host has heard it.
#[verifier::opaque]
pub open spec fn host_only_heard<'a>(
    a: Log<'a>,
    before: Option<Box<dyn Host + 'a>>,
    b: Log<'a>,
    after: Option<Box<dyn Host + 'a>>,
) -> bool {
    begun(a) ==> begun(b) && only_host(a, b) && (host_heard(a, before) ==> host_heard(b, after))
}

pub broadcast proof fn lemma_host_silent<'a>(a: Log<'a>, host: Option<Box<dyn Host + 'a>>)
    ensures
        #[trigger] host_only_heard(a, host, a, host),
{
    reveal(host_only_heard);
}

pub broadcast proof fn lemma_host_heard_on<'a>(
    a: Log<'a>,
    first: Option<Box<dyn Host + 'a>>,
    b: Log<'a>,
    second: Option<Box<dyn Host + 'a>>,
    c: Log<'a>,
    third: Option<Box<dyn Host + 'a>>,
)
    requires
        #[trigger] host_only_heard(a, first, b, second),
        #[trigger] host_only_heard(b, second, c, third),
    ensures
        host_only_heard(a, first, c, third),
{
    reveal(host_only_heard);
}

/// The exchange is one that goes to the tracer.
pub open spec fn for_tracer(x: Exchange) -> bool {
    x is EnterCall || x is EnterEffect || x is ExitOk || x is ExitErr || x is ExitTail
        || x is Override
}

/// The exchange is one that goes to the handler.
pub open spec fn for_handler(x: Exchange) -> bool {
    x is Budget || x is Dispatch || x is OpenScope || x is CloseScope || x is WorkerHandler
}

/// What is taken for an answer where there is nobody to ask: no effect is
/// carried out, and nothing else is refused or replaced.
pub open spec fn unheard(x: Exchange) -> bool {
    match x {
        Exchange::Dispatch { kind, op, answer, .. } => answer == Err::<Val, Seq<char>>(
            denial(kind, op),
        ),
        Exchange::Override { value, .. } => value is None,
        Exchange::Budget { refusal, .. } => refusal is None,
        Exchange::OpenScope(scope_id) => scope_id == 0,
        Exchange::WorkerHandler(seat) => seat is None,
        _ => for_tracer(x) || for_handler(x),
    }
}

/// The party may have taken part in the exchange: it was told what the exchange
/// says, and gave the answer that the exchange says.
pub open spec fn attends(p: Party, x: Exchange) -> bool {
    match p {
        Party::Tracer(Some(t)) => for_tracer(x) && t.may(x),
        Party::Tracer(None) => for_tracer(x) && unheard(x),
        Party::Handler(Some(h)) => for_handler(x) && h.may(x),
        Party::Handler(None) => for_handler(x) && unheard(x),
        Party::Hook(Some(h)) => x is Hook && h.may(x),
        Party::Hook(None) => false,
        Party::Host(Some(h)) => !for_tracer(x) && !for_handler(x) && !(x is Hook) && h.may(x),
        Party::Host(None) => false,
    }
}

/// Every exchange in the log was attended by its party.
pub open spec fn attended(log: Log) -> bool {
    &&& log.by.len() == log.said.len()
    &&& forall|i: int|
        0 <= i < log.said.len() ==> attends(#[trigger] log.by[i], #[trigger] log.said[i])
}

broadcast proof fn lemma_attended_noted(log: Log, p: Party, x: Exchange)
    requires
        attended(log),
        attends(p, x),
    ensures
        #[trigger] attended(noted(log, p, x)),
{
    let more = noted(log, p, x);
    assert forall|i: int| 0 <= i < more.said.len() implies attends(
        #[trigger] more.by[i],
        #[trigger] more.said[i],
    ) by {
        if i < log.said.len() {
            assert(more.by[i] == log.by[i]);
            assert(more.said[i] == log.said[i]);
        }
    }
}

/// With whom a machine has an exchange.
pub open spec fn party_of<'a>(vm: Vm<'a>, x: Exchange) -> Party<'a> {
    if for_tracer(x) {
        Party::Tracer(vm.tracer())
    } else if for_handler(x) {
        Party::Handler(vm.handler())
    } else if x is Hook {
        Party::Hook(vm.jit_hook())
    } else {
        Party::Host(vm.host())
    }
}

/// The world after one more exchange.
pub open spec fn say(w: World, x: Exchange) -> World {
    World { sh: Shared { said: w.sh.said.push(x), ..w.sh }, ..w }
}

/// The world after more exchanges.
pub open spec fn say_all(w: World, xs: Seq<Exchange>) -> World {
    World { sh: Shared { said: w.sh.said + xs, ..w.sh }, ..w }
}

/// Every effect that was to be carried out was refused.
pub open spec fn refused(said: Seq<Exchange>) -> bool {
    forall|i: int|
        0 <= i < said.len() ==> (
        #[trigger] said[i] matches Exchange::Dispatch { kind, op, answer, .. } ==> answer == Err::<
            Val,
            Seq<char>,
        >(denial(kind, op)))
}

broadcast proof fn lemma_refused_push(said: Seq<Exchange>, x: Exchange)
    requires
        refused(said),
        x matches Exchange::Dispatch { kind, op, answer, .. } ==> answer == Err::<
            Val,
            Seq<char>,
        >(denial(kind, op)),
    ensures
        #[trigger] refused(said.push(x)),
{
    let more = said.push(x);
    assert forall|i: int| 0 <= i < more.len() implies (
    #[trigger] more[i] matches Exchange::Dispatch { kind, op, answer, .. } ==> answer == Err::<
        Val,
        Seq<char>,
    >(denial(kind, op))) by {
        if i < said.len() {
            assert(more[i] == said[i]);
        }
    }
}

/// Nothing but one exchange happened to a machine.
pub open spec fn spoke(before: Vm, after: Vm, x: Exchange) -> bool {
    &&& kept(before, after)
    &&& after@ == say(before@, x)
    &&& after.machine_of() == before.machine_of()
    &&& after.log() == noted(before.log(), party_of(before, x), x)
}

pub open spec fn refusal_view(r: Result<(), String>) -> Option<Seq<char>> {
    match r {
        Ok(()) => None,
        Err(t) => Some(t@),
    }
}

pub open spec fn mapped_view(r: Result<Vec<Value>, VmError>) -> Result<Seq<Val>, Fault> {
    match r {
        Ok(vs) => Ok(vals(vs@)),
        Err(e) => Err(e@),
    }
}

pub open spec fn actor_option_view(c: Option<ActorCell>) -> Option<Actor> {
    match c {
        Some(c) => Some(actor_view(c)),
        None => None,
    }
}

/// What a hook answered, with the step count it left.
pub open spec fn reply_view(r: Result<Option<Value>, VmError>, steps: u64) -> HookReply {
    match r {
        Ok(None) => HookReply::Declined(steps),
        Ok(Some(v)) => HookReply::Answered(steps, v@),
        Err(e) => HookReply::Failed(steps, e@),
    }
}

/// Asks the host for the result of a float operation.
pub(crate) fn ask_float<'a>(
    host: &mut Option<Box<dyn Host + 'a>>,
    log: &mut Ghost<Log<'a>>,
    op: FloatOp,
    a: u64,
    b: u64,
) -> (answer: u64)
    requires
        (*old(host)) is Some,
    ensures
        (*final(host)) is Some,
        attended(old(log)@) ==> attended(final(log)@),
        host_only_heard(old(log)@, *old(host), final(log)@, *final(host)),
        refused(old(log)@.said) ==> refused(final(log)@.said),
        final(log)@ == noted(
            old(log)@,
            Party::Host(*old(host)),
            Exchange::Float { op, a, b, answer },
        ),
{
    broadcast use {lemma_attended_noted, lemma_record_push, lemma_refused_push};

    reveal(host_only_heard);
    let ghost p = Party::Host(*host);
    let answer = match host {
        Some(host) => host.float_op(op, a, b),
        None => {
            assert(false);
            0
        },
    };
    *log = Ghost(noted(log@, p, Exchange::Float { op, a, b, answer }));
    answer
}

impl<'a> Vm<'a> {
    pub(crate) fn say_enter_call(&mut self, node: &str, name: &str, args: &Vec<Value>)
        requires
            old(self).wf(),
        ensures
            spoke(*old(self), *final(self), Exchange::EnterCall { node: node@, name: name@,
                args: vals(args@) }),
    {
        broadcast use {lemma_attended_noted, lemma_record_push, lemma_refused_push};

        let ghost x = Exchange::EnterCall { node: node@, name: name@, args: vals(args@) };
        let ghost p = party_of(*self, x);
        if let Some(tracer) = &mut self.tracer {
            tracer.enter_call(node, name, args.as_slice());
        }
        self.log = Ghost(noted(self.log@, p, x));
    }

    pub(crate) fn say_enter_effect(&mut self, node: &str, kind: &str, op: &str, args: &Vec<Value>)
        requires
            old(self).wf(),
        ensures
            spoke(*old(self), *final(self), Exchange::EnterEffect { node: node@, kind: kind@,
                op: op@, args: vals(args@) }),
    {
        broadcast use {lemma_attended_noted, lemma_record_push, lemma_refused_push};

        let ghost x = Exchange::EnterEffect { node: node@, kind: kind@, op: op@,
            args: vals(args@) };
        let ghost p = party_of(*self, x);
        if let Some(tracer) = &mut self.tracer {
            tracer.enter_effect(node, kind, op, args.as_slice());
        }
        self.log = Ghost(noted(self.log@, p, x));
    }

    pub(crate) fn say_exit_ok(&mut self, v: &Value)
        requires
            old(self).wf(),
        ensures
            spoke(*old(self), *final(self), Exchange::ExitOk(v@)),
    {
        broadcast use {lemma_attended_noted, lemma_record_push, lemma_refused_push};

        let ghost x = Exchange::ExitOk(v@);
        let ghost p = party_of(*self, x);
        if let Some(tracer) = &mut self.tracer {
            tracer.exit_ok(v);
        }
        self.log = Ghost(noted(self.log@, p, x));
    }

    pub(crate) fn say_exit_err(&mut self, message: &str)
        requires
            old(self).wf(),
        ensures
            spoke(*old(self), *final(self), Exchange::ExitErr(message@)),
    {
        broadcast use {lemma_attended_noted, lemma_record_push, lemma_refused_push};

        let ghost x = Exchange::ExitErr(message@);
        let ghost p = party_of(*self, x);
        if let Some(tracer) = &mut self.tracer {
            tracer.exit_err(message);
        }
        self.log = Ghost(noted(self.log@, p, x));
    }

    pub(crate) fn say_exit_tail(&mut self)
        requires
            old(self).wf(),
        ensures
            spoke(*old(self), *final(self), Exchange::ExitTail),
    {
        broadcast use {lemma_attended_noted, lemma_record_push, lemma_refused_push};

        let ghost x = Exchange::ExitTail;
        let ghost p = party_of(*self, x);
        if let Some(tracer) = &mut self.tracer {
            tracer.exit_call_tail();
        }
        self.log = Ghost(noted(self.log@, p, x));
    }

    /// Has the handler close a request scope.
    pub(crate) fn say_scope_end(&mut self, scope_id: u64)
        requires
            old(self).wf(),
        ensures
            spoke(*old(self), *final(self), Exchange::CloseScope(scope_id)),
    {
        broadcast use {lemma_attended_noted, lemma_record_push, lemma_refused_push};

        let ghost x = Exchange::CloseScope(scope_id);
        let ghost p = party_of(*self, x);
        if let Some(handler) = &mut self.handler {
            handler.exit_request_scope(scope_id);
        }
        self.log = Ghost(noted(self.log@, p, x));
    }

    /// Asks the tracer for a value in the place of an effect.
    pub(crate) fn ask_override(&mut self, node: &str) -> (v: Option<Value>)
        requires
            old(self).wf(),
        ensures
            spoke(*old(self), *final(self), Exchange::Override { node: node@,
                value: option_view(v) }),
    {
        broadcast use {lemma_attended_noted, lemma_record_push, lemma_refused_push};

        let ghost before = *self;
        let v = match &mut self.tracer {
            Some(tracer) => tracer.override_effect(node),
            None => None,
        };
        let ghost x = Exchange::Override { node: node@, value: option_view(v) };
        let ghost p = party_of(before, x);
        self.log = Ghost(noted(self.log@, p, x));
        v
    }

    /// Asks the handler whether a call may use its budget.
    pub(crate) fn ask_budget(&mut self, cost: u64) -> (r: Result<(), String>)
        requires
            old(self).wf(),
        ensures
            spoke(*old(self), *final(self), Exchange::Budget { cost, refusal: refusal_view(r) }),
    {
        broadcast use {lemma_attended_noted, lemma_record_push, lemma_refused_push};

        let ghost before = *self;
        let r = match &mut self.handler {
            Some(handler) => handler.note_call_budget(cost),
            None => Ok(()),
        };
        let ghost x = Exchange::Budget { cost, refusal: refusal_view(r) };
        let ghost p = party_of(before, x);
        self.log = Ghost(noted(self.log@, p, x));
        r
    }

    /// Hands an effect to the handler.
    pub(crate) fn ask_handler(&mut self, kind: &str, op: &str,
        args: Vec<Value>) -> (r: Result<Value, String>)
        requires
            old(self).wf(),
        ensures
            spoke(*old(self), *final(self), Exchange::Dispatch { kind: kind@, op: op@,
                args: vals(args@), answer: answer_view(r) }),
    {
        broadcast use {lemma_attended_noted, lemma_record_push, lemma_refused_push};

        let ghost before = *self;
        let ghost given = vals(args@);
        let r = match &mut self.handler {
            Some(handler) => handler.dispatch(kind, op, args),
            None => DenyAllEffects.dispatch(kind, op, args),
        };
        let ghost x = Exchange::Dispatch { kind: kind@, op: op@, args: given,
            answer: answer_view(r) };
        let ghost p = party_of(before, x);
        self.log = Ghost(noted(self.log@, p, x));
        r
    }

    /// Has the handler open a request scope.
    pub(crate) fn ask_scope(&mut self) -> (scope_id: u64)
        requires
            old(self).wf(),
        ensures
            spoke(*old(self), *final(self), Exchange::OpenScope(scope_id)),
    {
        broadcast use {lemma_attended_noted, lemma_record_push, lemma_refused_push};

        let ghost before = *self;
        let scope_id: u64 = match &mut self.handler {
            Some(handler) => handler.enter_request_scope(),
            None => 0,
        };
        let ghost x = Exchange::OpenScope(scope_id);
        let ghost p = party_of(before, x);
        self.log = Ghost(noted(self.log@, p, x));
        scope_id
    }

    /// Has the handler make a handler for a worker.
    pub(crate) fn ask_seat(&mut self) -> (seat: Option<u64>)
        requires
            old(self).wf(),
        ensures
            spoke(*old(self), *final(self), Exchange::WorkerHandler(seat)),
    {
        broadcast use {lemma_attended_noted, lemma_record_push, lemma_refused_push};

        let ghost before = *self;
        let seat = match &mut self.handler {
            Some(handler) => handler.spawn_for_worker(),
            None => None,
        };
        let ghost x = Exchange::WorkerHandler(seat);
        let ghost p = party_of(before, x);
        self.log = Ghost(noted(self.log@, p, x));
        seat
    }

    /// Offers a call to the hook, if there is one.
    pub(crate) fn offer(&mut self, fn_id: u32, args: &Vec<Value>) -> (out: Option<
        (Result<Option<Value>, VmError>, u64),
    >)
        requires
            old(self).wf(),
        ensures
            out is Some <==> old(self).jit_hook() is Some,
            out is None ==> *final(self) == *old(self),
            out matches Some(answer) ==> spoke(
                *old(self),
                *final(self),
                Exchange::Hook {
                    fn_id,
                    args: vals(args@),
                    steps: old(self)@.sh.steps,
                    limit: old(self)@.sh.limit,
                    reply: reply_view(answer.0, answer.1),
                },
            ),
    {
        broadcast use {lemma_attended_noted, lemma_record_push, lemma_refused_push};

        let ghost before = *self;
        let steps = self.steps;
        let limit = self.step_limit;
        let answer = match &mut self.jit_hook {
            None => return None,
            Some(hook) => hook.try_call(fn_id, args.as_slice(), steps, limit),
        };
        let ghost x = Exchange::Hook {
            fn_id,
            args: vals(args@),
            steps,
            limit,
            reply: reply_view(answer.0, answer.1),
        };
        let ghost p = party_of(before, x);
        self.log = Ghost(noted(self.log@, p, x));
        Some(answer)
    }

    /// Asks the host for the result of a float operation.
    pub(crate) fn ask_host_float(&mut self, op: FloatOp, a: u64, b: u64) -> (answer: u64)
        requires
            old(self).wf(),
        ensures
            spoke(*old(self), *final(self), Exchange::Float { op, a, b, answer }),
    {
        reveal(host_only_heard);
        ask_float(&mut self.host, &mut self.log, op, a, b)
    }

    /// Asks the host how many workers a parallel map may have.
    pub(crate) fn ask_workers(&mut self) -> (n: usize)
        requires
            old(self).wf(),
        ensures
            spoke(*old(self), *final(self), Exchange::MaxWorkers(n)),
    {
        broadcast use {lemma_attended_noted, lemma_record_push, lemma_refused_push};

        let ghost before = *self;
        let n: usize = match &mut self.host {
            Some(host) => host.max_workers(),
            None => {
                assert(false);
                0
            },
        };
        let ghost x = Exchange::MaxWorkers(n);
        let ghost p = party_of(before, x);
        self.log = Ghost(noted(self.log@, p, x));
        n
    }

    /// Has the host call a closure on many items.
    pub(crate) fn ask_par_map(&mut self, closure: Value, items: Vec<Value>,
        seats: Vec<Option<u64>>) -> (r: Result<Vec<Value>, VmError>)
        requires
            old(self).wf(),
        ensures
            spoke(*old(self), *final(self), Exchange::ParMap { closure: closure@,
                items: vals(items@), seats: seats@, limit: old(self)@.sh.limit,
                answer: mapped_view(r) }),
    {
        broadcast use {lemma_attended_noted, lemma_record_push, lemma_refused_push};

        let ghost before = *self;
        let ghost f = closure@;
        let ghost given = vals(items@);
        let ghost places = seats@;
        let limit = self.step_limit;
        let r = match &mut self.host {
            Some(host) => host.par_map(closure, items, seats, limit),
            None => {
                assert(false);
                Ok(items)
            },
        };
        let ghost x = Exchange::ParMap { closure: f, items: given, seats: places, limit,
            answer: mapped_view(r) };
        let ghost p = party_of(before, x);
        self.log = Ghost(noted(self.log@, p, x));
        r
    }

    /// Has the host send a message to a native actor.
    pub(crate) fn ask_native(&mut self, id: u64, msg: Value) -> (r: Result<Value, String>)
        requires
            old(self).wf(),
        ensures
            spoke(*old(self), *final(self), Exchange::Native { id, msg: msg@,
                answer: answer_view(r) }),
    {
        broadcast use {lemma_attended_noted, lemma_record_push, lemma_refused_push};

        let ghost before = *self;
        let ghost sent = msg@;
        let r = match &mut self.host {
            Some(host) => host.native_send(id, msg),
            None => {
                assert(false);
                Ok(msg)
            },
        };
        let ghost x = Exchange::Native { id, msg: sent, answer: answer_view(r) };
        let ghost p = party_of(before, x);
        self.log = Ghost(noted(self.log@, p, x));
        r
    }

    /// Has the host keep a new actor.
    pub(crate) fn ask_add_actor(&mut self, cell: ActorCell) -> (handle: u64)
        requires
            old(self).wf(),
        ensures
            spoke(*old(self), *final(self), Exchange::AddActor { actor: actor_view(cell), handle }),
    {
        broadcast use {lemma_attended_noted, lemma_record_push, lemma_refused_push};

        let ghost before = *self;
        let ghost actor = actor_view(cell);
        let handle: u64 = match &mut self.host {
            Some(host) => host.add_actor(cell),
            None => {
                assert(false);
                0
            },
        };
        let ghost x = Exchange::AddActor { actor, handle };
        let ghost p = party_of(before, x);
        self.log = Ghost(noted(self.log@, p, x));
        handle
    }

    /// Has the host hand out an actor.
    pub(crate) fn ask_take_actor(&mut self, handle: u64) -> (cell: Option<ActorCell>)
        requires
            old(self).wf(),
        ensures
            spoke(*old(self), *final(self), Exchange::TakeActor { handle,
                actor: actor_option_view(cell) }),
    {
        broadcast use {lemma_attended_noted, lemma_record_push, lemma_refused_push};

        let ghost before = *self;
        let cell = match &mut self.host {
            Some(host) => host.take_actor(handle),
            None => {
                assert(false);
                None
            },
        };
        let ghost x = Exchange::TakeActor { handle, actor: actor_option_view(cell) };
        let ghost p = party_of(before, x);
        self.log = Ghost(noted(self.log@, p, x));
        cell
    }

    /// Gives an actor back to the host.
    pub(crate) fn say_put_actor(&mut self, handle: u64, cell: ActorCell)
        requires
            old(self).wf(),
        ensures
            spoke(*old(self), *final(self), Exchange::PutActor { handle, actor: actor_view(cell) }),
    {
        broadcast use {lemma_attended_noted, lemma_record_push, lemma_refused_push};

        let ghost x = Exchange::PutActor { handle, actor: actor_view(cell) };
        let ghost p = party_of(*self, x);
        if let Some(host) = &mut self.host {
            host.put_actor(handle, cell);
        }
        self.log = Ghost(noted(self.log@, p, x));
    }

    /// Has the host hand out the names of the actors.
    pub(crate) fn ask_take_names(&mut self) -> (names: ActorRegistry)
        requires
            old(self).wf(),
        ensures
            spoke(*old(self), *final(self), Exchange::TakeNames(names@)),
    {
        broadcast use {lemma_attended_noted, lemma_record_push, lemma_refused_push};

        let ghost before = *self;
        let names = match &mut self.host {
            Some(host) => host.take_names(),
            None => {
                assert(false);
                ActorRegistry::new()
            },
        };
        let ghost x = Exchange::TakeNames(names@);
        let ghost p = party_of(before, x);
        self.log = Ghost(noted(self.log@, p, x));
        names
    }

    /// Gives the names of the actors back to the host.
    pub(crate) fn say_put_names(&mut self, names: ActorRegistry)
        requires
            old(self).wf(),
        ensures
            spoke(*old(self), *final(self), Exchange::PutNames(names@)),
    {
        broadcast use {lemma_attended_noted, lemma_record_push, lemma_refused_push};

        let ghost x = Exchange::PutNames(names@);
        let ghost p = party_of(*self, x);
        if let Some(host) = &mut self.host {
            host.put_names(names);
        }
        self.log = Ghost(noted(self.log@, p, x));
    }

    /// Has the host hand out the shape ids.
    pub(crate) fn ask_take_shapes(&mut self) -> (shapes: ShapeRegistry)
        requires
            old(self).wf(),
        ensures
            spoke(*old(self), *final(self), Exchange::TakeShapes(shapes@)),
    {
        broadcast use {lemma_attended_noted, lemma_record_push, lemma_refused_push};

        let ghost before = *self;
        let shapes = match &mut self.host {
            Some(host) => host.take_shapes(),
            None => {
                assert(false);
                ShapeRegistry::new()
            },
        };
        let ghost x = Exchange::TakeShapes(shapes@);
        let ghost p = party_of(before, x);
        self.log = Ghost(noted(self.log@, p, x));
        shapes
    }

    /// Gives the shape ids back to the host.
    pub(crate) fn say_put_shapes(&mut self, shapes: ShapeRegistry)
        requires
            old(self).wf(),
        ensures
            spoke(*old(self), *final(self), Exchange::PutShapes(shapes@)),
    {
        broadcast use {lemma_attended_noted, lemma_record_push, lemma_refused_push};

        let ghost x = Exchange::PutShapes(shapes@);
        let ghost p = party_of(*self, x);
        if let Some(host) = &mut self.host {
            host.put_shapes(shapes);
        }
        self.log = Ghost(noted(self.log@, p, x));
    }
}

} // verus!
