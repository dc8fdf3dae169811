//! The interpreter loop, and calls from outside it.

use vstd::prelude::*;

use crate::op::Op;
use crate::text::append_decimal;
use crate::value;
use crate::value::{vals, Val, Value};
use crate::vm::calls::{act_of, no_replies, HookAnswer};
use crate::vm::fault::{mismatch_with, panic_with, Fault, VmError};
use crate::vm::plain::{is_plain, Moved};
use crate::vm::runs::{
    leads_on, op_acts, run_end, valid_call, valid_invocation, valid_run, valid_step,
};
use crate::vm::state::{push, FrameKind};
use crate::vm::step::{running, MAX_PC};
use crate::vm::world::{
    entered, fetch, plain_act, running_name, turned, with_machine, Act, Call, Callee, Outcome,
    Replies, Run, Step, World,
};
use crate::vm::{kept, Vm};

verus! {

broadcast use crate::value::lemma_view;

/// A result, seen as an outcome.
pub open spec fn outcome_of(r: Result<Value, VmError>) -> Outcome {
    match r {
        Ok(v) => Outcome::Value(v@),
        Err(e) => Outcome::Fault(e@),
    }
}

/// The turns only go up, and the limit stays.
pub open spec fn moved_on(a: World, b: World) -> bool {
    b.sh.limit == a.sh.limit && b.sh.turns >= a.sh.turns
}

/// A function was called with all its arguments.
pub open spec fn invoked(
    p: crate::program::Program,
    c: Call,
    fn_id: u32,
    args: Seq<Val>,
    before: World,
    after: World,
    r: Result<Value, VmError>,
) -> bool {
    c.before == before && c.after == after && c.outcome == outcome_of(r) && valid_invocation(
        p,
        c,
        fn_id,
        args,
    )
}

/// A call was made.
pub open spec fn called(
    p: crate::program::Program,
    c: Call,
    callee: Callee,
    args: Seq<Val>,
    before: World,
    after: World,
    r: Result<Value, VmError>,
) -> bool {
    c.callee == callee && c.args == args && c.before == before && c.after == after && c.outcome
        == outcome_of(r) && valid_call(p, c)
}

pub open spec fn all_valid(p: crate::program::Program, calls: Seq<Call>) -> bool {
    forall|k: int| 0 <= k < calls.len() ==> valid_call(p, #[trigger] calls[k])
}

/// An op was carried out with these answers and these calls on the way.
pub open spec fn op_done(
    p: crate::program::Program,
    base: nat,
    w: World,
    op: Op,
    rp: Replies,
    calls: Seq<Call>,
    r: Result<Option<Value>, VmError>,
    w1: World,
) -> bool {
    all_valid(p, calls) && op_acts(p, base, w, op, rp, calls, act_of(r, w1))
}

/// A run was made from a world on.
pub open spec fn ran(
    p: crate::program::Program,
    base: nat,
    before: World,
    run: Run,
    r: Result<Value, VmError>,
    after: World,
) -> bool {
    valid_run(p, base, before, run) && run_end(run) == Some((outcome_of(r), after))
}

/// A turn of the loop was made.
pub open spec fn stepped(
    p: crate::program::Program,
    base: nat,
    before: World,
    st: Step,
    r: Result<Option<Value>, VmError>,
    after: World,
) -> bool {
    st.before == before && st.act == act_of(r, after) && valid_step(p, base, st)
}

/// Turns that lead from one world to another.
#[verifier::opaque]
spec fn linked(
    p: crate::program::Program,
    base: nat,
    start: World,
    steps: Seq<Step>,
    here: World,
) -> bool {
    &&& forall|i: int| 0 <= i < steps.len() ==> valid_step(p, base, #[trigger] steps[i])
    &&& steps.len() > 0 ==> steps[0].before == start && steps.last().act == Act::Next(here)
    &&& steps.len() == 0 ==> here == start
    &&& forall|i: int| 0 <= i < steps.len() - 1 ==> #[trigger] leads_on(steps, i)
}

proof fn lemma_linked_start(p: crate::program::Program, base: nat, start: World)
    ensures
        linked(p, base, start, Seq::empty(), start),
{
    reveal(linked);
}

proof fn lemma_linked_next(
    p: crate::program::Program,
    base: nat,
    start: World,
    steps: Seq<Step>,
    here: World,
    st: Step,
    after: World,
)
    requires
        linked(p, base, start, steps, here),
        st.before == here,
        st.act == Act::Next(after),
        valid_step(p, base, st),
    ensures
        linked(p, base, start, steps.push(st), after),
{
    reveal(linked);
    let more = steps.push(st);
    assert forall|i: int| 0 <= i < more.len() - 1 implies #[trigger] leads_on(more, i) by {
        if i < steps.len() - 1 {
            assert(leads_on(steps, i));
        }
    }
}

proof fn lemma_linked_end(
    p: crate::program::Program,
    base: nat,
    start: World,
    steps: Seq<Step>,
    here: World,
    st: Step,
)
    requires
        linked(p, base, start, steps, here),
        st.before == here,
        valid_step(p, base, st),
        !(st.act is Next),
    ensures
        valid_run(p, base, start, Run { steps: steps.push(st) }),
        (Run { steps: steps.push(st) }).steps.last() == st,
{
    reveal(linked);
    let more = steps.push(st);
    assert(more.last() == st);
    assert forall|i: int| 0 <= i < more.len() - 1 implies #[trigger] leads_on(more, i) by {
        if i < steps.len() - 1 {
            assert(leads_on(steps, i));
        }
    }
    assert forall|i: int| 0 <= i < more.len() implies valid_step(p, base, #[trigger] more[i]) by {
        if i < steps.len() {
            assert(more[i] == steps[i]);
        }
    }
    assert(more[0].before == start) by {
        if steps.len() > 0 {
            assert(more[0] == steps[0]);
        }
    }
    assert(run_end(Run { steps: more }) is Some);
}

impl<'a> Vm<'a> {
    /// The text of a failure that names the running function.
    fn running_function(&self) -> (name: String)
        ensures
            name@ == running_name(self.program(), self@.m),
    {
        let n: usize = self.machine.frames.len();
        if n > 0 {
            let fn_id = self.machine.fn_id();
            if (fn_id as usize) < self.program.functions.len() {
                return self.program.functions[fn_id as usize].name.clone();
            }
        }
        let s = String::new();
        assert(s@ =~= Seq::<char>::empty());
        s
    }

    /// The op that the machine is at.
    fn fetch_op(&self) -> (op: Option<Op>)
        ensures
            op == fetch(self.program(), self@.m),
            op is Some ==> running(self.machine_of()),
    {
        if self.machine.frames.len() == 0 {
            return None;
        }
        let fn_id = self.machine.fn_id();
        if (fn_id as usize) >= self.program.functions.len() {
            return None;
        }
        let code = &self.program.functions[fn_id as usize].code;
        let pc = self.machine.pc();
        if pc < code.len() && pc <= MAX_PC {
            Some(code[pc])
        } else {
            None
        }
    }

    /// Carries out an op on the running frame alone.
    fn op_plain(&mut self, op: Op) -> (r: Result<Option<Value>, VmError>)
        requires
            old(self).wf(),
            running(old(self).machine_of()),
            is_plain(op),
        ensures
            kept(*old(self), *final(self)),
            final(self)@.sh.turns == old(self)@.sh.turns,
            final(self)@.sh.limit == old(self)@.sh.limit,
            exists|rp: Replies|
                act_of(r, final(self)@) == #[trigger] plain_act(
                    old(self).program(),
                    old(self)@,
                    op,
                    rp,
                ),
    {
        let ghost p = self.program();
        let ghost w = self@;
        let program = self.program;
        match self.machine.step_plain(program, &mut self.field_ics, op) {
            Ok(Moved::Gone) => {
                let r: Result<Option<Value>, VmError> = Ok(None);
                assert(act_of(r, self@) == plain_act(p, w, op, no_replies()));
                r
            },
            Ok(Moved::Asked(f, x, y)) => {
                let bits = self.ask_host_float(f, x, y);
                self.machine.push(Value::Float(bits));
                let ghost rp = Replies { floats: seq![bits], ..no_replies() };
                let r: Result<Option<Value>, VmError> = Ok(None);
                assert(act_of(r, self@) == plain_act(p, w, op, rp));
                r
            },
            Err(e) => {
                let r: Result<Option<Value>, VmError> = Err(e);
                assert(act_of(r, self@) == plain_act(p, w, op, no_replies()));
                r
            },
        }
    }

    /// One turn of the loop. Gives the value that ends the run, or nothing.
    fn turn(&mut self, base: usize) -> (r: Result<Option<Value>, VmError>)
        requires
            old(self).wf(),
        ensures
            kept(*old(self), *final(self)),
            moved_on(old(self)@, final(self)@),
            r is Ok ==> final(self).fuel() < old(self).fuel(),
            exists|st: Step| #[trigger]
                stepped(old(self).program(), base as nat, old(self)@, st, r, final(self)@),
        decreases old(self).fuel(), 1nat, Val::Unit, 0nat, 0nat,
    {
        let ghost p = self.program();
        let ghost before = self@;
        let ghost b = base as nat;
        if self.steps > self.step_limit || self.steps == u64::MAX || self.turns == u64::MAX {
            let mut t = "step limit exceeded in `".to_owned();
            t.append(self.running_function().as_str());
            t.append("` (");
            append_decimal(&mut t, self.steps as u128);
            t.append(" > ");
            append_decimal(&mut t, self.step_limit as u128);
            t.append(")");
            let r: Result<Option<Value>, VmError> = Err(VmError::Panic(t));
            proof {
                let st = Step {
                    before,
                    replies: no_replies(),
                    calls: Seq::empty(),
                    act: act_of(r, self@),
                };
                assert(stepped(p, b, before, st, r, self@));
            }
            return r;
        }
        self.steps = self.steps + 1;
        self.turns = self.turns + 1;
        let ghost w = self@;
        assert(w == turned(before, (before.sh.steps + 1) as u64));
        let op = match self.fetch_op() {
            Some(op) => op,
            None => {
                let mut t = "ran past end of code in `".to_owned();
                t.append(self.running_function().as_str());
                t.append("`");
                let r: Result<Option<Value>, VmError> = Err(VmError::Panic(t));
                proof {
                    let st = Step {
                        before,
                        replies: no_replies(),
                        calls: Seq::empty(),
                        act: act_of(r, self@),
                    };
                    assert(stepped(p, b, before, st, r, self@));
                }
                return r;
            },
        };
        let r = self.carry_out(base, op);
        proof {
            let (rp, calls) = choose|rp: Replies, calls: Seq<Call>| #[trigger]
                op_done(p, b, w, op, rp, calls, r, self@);
            let st = Step { before, replies: rp, calls, act: act_of(r, self@) };
            assert(stepped(p, b, before, st, r, self@));
        }
        r
    }

    /// Carries out an op.
    fn carry_out(&mut self, base: usize, op: Op) -> (r: Result<Option<Value>, VmError>)
        requires
            old(self).wf(),
            running(old(self).machine_of()),
        ensures
            kept(*old(self), *final(self)),
            moved_on(old(self)@, final(self)@),
            exists|rp: Replies, calls: Seq<Call>| #[trigger]
                op_done(
                    old(self).program(),
                    base as nat,
                    old(self)@,
                    op,
                    rp,
                    calls,
                    r,
                    final(self)@,
                ),
        decreases old(self).fuel(), 8nat, Val::Unit, 0nat, 0nat,
    {
        let ghost p = self.program();
        let ghost w = self@;
        let ghost b = base as nat;
        let ghost none = Seq::<Call>::empty();
        proof {
            reveal(op_acts);
        }
        match op {
            Op::Call { fn_id, arity, node_id_idx } => {
                let r = self.op_call(fn_id, arity, node_id_idx);
                proof {
                    let rp = choose|rp: Replies|
                        act_of(r, self@) == #[trigger] crate::vm::world::call_act(
                            p,
                            w,
                            fn_id,
                            arity,
                            node_id_idx,
                            rp,
                        );
                    assert(op_done(p, b, w, op, rp, none, r, self@));
                }
                r
            },
            Op::TailCall { fn_id, arity, node_id_idx } => {
                let r = self.op_tail_call(base, fn_id, arity, node_id_idx);
                proof {
                    let rp = choose|rp: Replies|
                        act_of(r, self@) == #[trigger] crate::vm::world::tail_call_act(
                            p,
                            b,
                            w,
                            fn_id,
                            arity,
                            node_id_idx,
                            rp,
                        );
                    assert(op_done(p, b, w, op, rp, none, r, self@));
                }
                r
            },
            Op::CallClosure { arity, node_id_idx } => {
                let r = self.op_call_closure(arity, node_id_idx);
                proof {
                    let rp = choose|rp: Replies|
                        act_of(r, self@) == #[trigger] crate::vm::world::call_closure_act(
                            p,
                            w,
                            arity,
                            node_id_idx,
                            rp,
                        );
                    assert(op_done(p, b, w, op, rp, none, r, self@));
                }
                r
            },
            Op::Return => {
                let r = self.op_return(base);
                assert(op_done(p, b, w, op, no_replies(), none, r, self@));
                r
            },
            Op::ListMap { .. } => {
                let (r, calls) = self.op_list_map();
                assert(op_done(p, b, w, op, no_replies(), calls@, r, self@));
                r
            },
            Op::ListFilter { .. } => {
                let (r, calls) = self.op_list_filter();
                assert(op_done(p, b, w, op, no_replies(), calls@, r, self@));
                r
            },
            Op::ListFold { .. } => {
                let (r, calls) = self.op_list_fold();
                assert(op_done(p, b, w, op, no_replies(), calls@, r, self@));
                r
            },
            Op::SortByKey { .. } => {
                let (r, calls) = self.op_sort_by_key();
                assert(op_done(p, b, w, op, no_replies(), calls@, r, self@));
                r
            },
            Op::ParallelMap { .. } => {
                let (r, rp) = self.op_parallel_map();
                assert(op_done(p, b, w, op, rp@, none, r, self@));
                r
            },
            Op::EffectCall { kind_idx, op_idx, arity, node_id_idx } => {
                let (r, rp, calls) = self.op_effect_call(kind_idx, op_idx, arity, node_id_idx);
                assert(op_done(p, b, w, op, rp@, calls@, r, self@));
                r
            },
            _ => {
                let r = self.op_plain(op);
                proof {
                    let rp = choose|rp: Replies|
                        act_of(r, self@) == #[trigger] plain_act(p, w, op, rp);
                    assert(op_done(p, b, w, op, rp, none, r, self@));
                }
                r
            },
        }
    }

    /// Runs until the frames are down to `base`.
    pub(crate) fn run_to(&mut self, base: usize) -> (r: Result<Value, VmError>)
        requires
            old(self).wf(),
        ensures
            kept(*old(self), *final(self)),
            moved_on(old(self)@, final(self)@),
            r is Ok ==> final(self).fuel() < old(self).fuel(),
            exists|run: Run| #[trigger]
                ran(old(self).program(), base as nat, old(self)@, run, r, final(self)@),
        decreases old(self).fuel(), 2nat, Val::Unit, 0nat, 0nat,
    {
        let ghost p = self.program();
        let ghost start = self@;
        let ghost b = base as nat;
        let ghost mut steps: Seq<Step> = Seq::empty();
        proof {
            lemma_linked_start(p, b, start);
        }
        loop
            invariant
                kept(*old(self), *self),
                p == old(self).program(),
                start == old(self)@,
                b == base as nat,
                moved_on(start, self@),
                self.fuel() <= old(self).fuel(),
                linked(p, b, start, steps, self@),
            decreases self.fuel(),
        {
            let ghost here = self@;
            let turned = self.turn(base);
            let ghost st = choose|st: Step| #[trigger] stepped(p, b, here, st, turned, self@);
            match turned {
                Ok(None) => {
                    proof {
                        lemma_linked_next(p, b, start, steps, here, st, self@);
                        steps = steps.push(st);
                    }
                },
                Ok(Some(v)) => {
                    let r: Result<Value, VmError> = Ok(v);
                    proof {
                        lemma_linked_end(p, b, start, steps, here, st);
                        assert(ran(p, b, start, Run { steps: steps.push(st) }, r, self@));
                    }
                    return r;
                },
                Err(e) => {
                    let r: Result<Value, VmError> = Err(e);
                    proof {
                        lemma_linked_end(p, b, start, steps, here, st);
                        assert(ran(p, b, start, Run { steps: steps.push(st) }, r, self@));
                    }
                    return r;
                },
            }
        }
    }

    /// Calls a function with all its arguments.
    fn enter(&mut self, fn_id: u32, args: Vec<Value>) -> (r: Result<Value, VmError>)
        requires
            old(self).wf(),
        ensures
            kept(*old(self), *final(self)),
            moved_on(old(self)@, final(self)@),
            r is Ok ==> final(self).fuel() < old(self).fuel(),
            exists|c: Call| #[trigger]
                invoked(
                    old(self).program(),
                    c,
                    fn_id,
                    vals(args@),
                    old(self)@,
                    final(self)@,
                    r,
                ),
        decreases old(self).fuel(), 3nat, Val::Unit, 0nat, 0nat,
    {
        let ghost p = self.program();
        let ghost before = self@;
        let ghost given = vals(args@);
        assert(given.len() == args@.len());
        let ghost blank = Call {
            callee: Callee::Function(fn_id),
            args: given,
            before,
            replies: no_replies(),
            run: Run { steps: Seq::empty() },
            outcome: Outcome::Value(Val::Unit),
            after: before,
        };
        let program = self.program;
        if (fn_id as usize) >= program.functions.len() {
            let r: Result<Value, VmError> = Err(panic_with("function index out of range"));
            assert(invoked(
                p,
                Call { outcome: outcome_of(r), ..blank },
                fn_id,
                given,
                before,
                self@,
                r,
            ));
            return r;
        }
        let f = &program.functions[fn_id as usize];
        if args.len() != f.arity as usize {
            let r: Result<Value, VmError> = Err(
                VmError::Panic("arity mismatch calling ".to_owned().concat(f.name.as_str())),
            );
            assert(invoked(
                p,
                Call { outcome: outcome_of(r), ..blank },
                fn_id,
                given,
                before,
                self@,
                r,
            ));
            return r;
        }
        let (refused, floats) = self.check_refinements(fn_id, &args);
        let ghost rp = Replies { floats: floats@, ..no_replies() };
        if let Some(e) = refused {
            let r: Result<Value, VmError> = Err(e);
            assert(invoked(
                p,
                Call { outcome: outcome_of(r), replies: rp, after: self@, ..blank },
                fn_id,
                given,
                before,
                self@,
                r,
            ));
            return r;
        }
        let (answer, hook) = self.ask_hook(fn_id, &args);
        let ghost rp = Replies { hook: hook@, ..rp };
        let ghost w = self@;
        match answer {
            HookAnswer::Fail(e) => {
                let r: Result<Value, VmError> = Err(e);
                assert(invoked(
                    p,
                    Call { outcome: outcome_of(r), replies: rp, after: self@, ..blank },
                    fn_id,
                    given,
                    before,
                    self@,
                    r,
                ));
                return r;
            },
            HookAnswer::Value(v) => {
                let r: Result<Value, VmError> = Ok(v);
                assert(invoked(
                    p,
                    Call { outcome: outcome_of(r), replies: rp, after: self@, ..blank },
                    fn_id,
                    given,
                    before,
                    self@,
                    r,
                ));
                return r;
            },
            HookAnswer::Pass => {},
        }
        if let Some(e) = self.machine.check_entry(f, args.len()) {
            let r: Result<Value, VmError> = Err(e);
            assert(invoked(
                p,
                Call { outcome: outcome_of(r), replies: rp, after: self@, ..blank },
                fn_id,
                given,
                before,
                self@,
                r,
            ));
            return r;
        }
        let base: usize = self.machine.frames.len();
        let stack: usize = self.machine.stack.len();
        let locals: usize = self.machine.locals.len();
        let slab: usize = self.machine.slab.len();
        self.machine.push_frame(f, fn_id, args, FrameKind::Entry, None);
        let ghost inside = self@;
        assert(inside == with_machine(w, entered(*f, fn_id, w.m, given, None, None)));
        let r = self.run_to(base);
        let ghost ended = self@;
        let ghost run = choose|run: Run| #[trigger] ran(p, base as nat, inside, run, r, ended);
        if r.is_err() {
            self.machine.unwind(base, stack, locals, slab, Ghost(before.m));
        }
        assert(invoked(
            p,
            Call { outcome: outcome_of(r), replies: rp, run, after: self@, ..blank },
            fn_id,
            given,
            before,
            self@,
            r,
        ));
        r
    }

    /// Calls a function by its index.
    pub fn invoke(&mut self, fn_id: u32, args: Vec<Value>) -> (r: Result<Value, VmError>)
        requires
            old(self).wf(),
        ensures
            kept(*old(self), *final(self)),
            moved_on(old(self)@, final(self)@),
            r is Ok ==> final(self).fuel() < old(self).fuel(),
            exists|c: Call| #[trigger]
                called(
                    old(self).program(),
                    c,
                    Callee::Function(fn_id),
                    vals(args@),
                    old(self)@,
                    final(self)@,
                    r,
                ),
        decreases old(self).fuel(), 4nat, Val::Unit, 0nat, 0nat,
    {
        let ghost p = self.program();
        let ghost before = self@;
        let ghost given = vals(args@);
        let r = self.enter(fn_id, args);
        proof {
            let c = choose|c: Call| #[trigger] invoked(p, c, fn_id, given, before, self@, r);
            let d = Call { callee: Callee::Function(fn_id), args: given, ..c };
            assert(valid_invocation(p, d, fn_id, given));
            assert(called(p, d, Callee::Function(fn_id), given, before, self@, r));
        }
        r
    }

    /// Calls a closure: its captures come in front of the arguments.
    pub fn invoke_closure_value(&mut self, closure: Value, args: Vec<Value>) -> (r: Result<
        Value,
        VmError,
    >)
        requires
            old(self).wf(),
        ensures
            kept(*old(self), *final(self)),
            moved_on(old(self)@, final(self)@),
            r is Ok ==> final(self).fuel() < old(self).fuel(),
            exists|c: Call| #[trigger]
                called(
                    old(self).program(),
                    c,
                    Callee::Value(closure@),
                    vals(args@),
                    old(self)@,
                    final(self)@,
                    r,
                ),
        decreases old(self).fuel(), 4nat, Val::Unit, 0nat, 0nat,
    {
        let ghost p = self.program();
        let ghost before = self@;
        let ghost given = vals(args@);
        let ghost callee = closure@;
        match closure {
            Value::Closure { fn_id, captures, .. } => {
                let mut combined = captures;
                let mut args = args;
                let ghost front = vals(combined@);
                proof {
                    crate::vm::state::lemma_vals_add(combined@, args@);
                }
                combined.append(&mut args);
                let r = self.enter(fn_id, combined);
                proof {
                    let c = choose|c: Call| #[trigger]
                        invoked(p, c, fn_id, front + given, before, self@, r);
                    let d = Call { callee: Callee::Value(callee), args: given, ..c };
                    assert(valid_invocation(p, d, fn_id, front + given));
                    assert(called(p, d, Callee::Value(callee), given, before, self@, r));
                }
                r
            },
            other => {
                let r: Result<Value, VmError> = Err(
                    mismatch_with("invoke_closure_value: not a closure: ", &other),
                );
                proof {
                    let d = Call {
                        callee: Callee::Value(callee),
                        args: given,
                        before,
                        replies: no_replies(),
                        run: Run { steps: Seq::empty() },
                        outcome: outcome_of(r),
                        after: before,
                    };
                    assert(called(p, d, Callee::Value(callee), given, before, self@, r));
                }
                r
            },
        }
    }
}

} // verus!
