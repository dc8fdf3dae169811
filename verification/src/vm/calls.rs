//! Calls, tail calls, closure calls and returns.

use vstd::prelude::*;

use crate::ast::CExpr;
use crate::value;
use crate::value::{vals, Val, Value};
use crate::value_ops::all_owned;
use crate::vm::fault::{mismatch_with, panic_with, Fault, VmError};
use crate::vm::frames::{call_budget_cost, locals_len};
use crate::vm::memo::{hash_call_args, memo_args_exceed, memo_key, MEMO_MAX_ARG_BYTES};
use crate::vm::records::const_str;
use crate::vm::outside::{host_only_heard, refusal_view, say_all, Exchange};
use crate::vm::refine::{asked, eval_refinement, holds, lemma_asked_prefix, lemma_evaluate_prefix};
use crate::vm::state::{memo_key_view, push, ticked, FrameKind};
use crate::vm::world::{
    arg_at, budget_cost, budget_talk, call_act, call_after_memo, call_closure_act, call_fault,
    call_talk, give_back, heard, hooked, memoizable, probed, refinement_asks, refinement_fault,
    remember, remembered, return_act, taken, tail_call_act, Act, HookReply, Replies, Shared, World,
};
use crate::vm::{kept, Vm};

verus! {

broadcast use crate::value::lemma_view;

/// What a step comes to, read off what was done: nothing more, a value that
/// ends the run, or a failure.
pub open spec fn act_of(r: Result<Option<Value>, VmError>, w: World) -> Act {
    match r {
        Ok(None) => Act::Next(w),
        Ok(Some(v)) => Act::Done(v@, w),
        Err(e) => Act::Fail(e@, w),
    }
}

/// What a hook said.
pub enum HookAnswer {
    Pass,
    Value(Value),
    Fail(VmError),
}

pub open spec fn answer_fits(a: HookAnswer, h: HookReply) -> bool {
    match a {
        HookAnswer::Pass => h is Absent || h is Declined,
        HookAnswer::Value(v) => h matches HookReply::Answered(_, x) && x == v@,
        HookAnswer::Fail(e) => h matches HookReply::Failed(_, f) && f == e@,
    }
}

spec fn starts_with(long: Seq<u64>, short: Seq<u64>) -> bool {
    short.len() <= long.len() && long.take(short.len() as int) == short
}

proof fn lemma_starts_with(a: Seq<u64>, b: Seq<u64>, c: Seq<u64>)
    requires
        starts_with(b, a),
        starts_with(c, b),
    ensures
        starts_with(c, a),
        forall|i: int| 0 <= i < b.len() ==> b[i] == c[i],
{
    assert forall|i: int| 0 <= i < b.len() implies b[i] == c[i] by {
        assert(c.take(b.len() as int)[i] == c[i]);
    }
    assert(c.take(a.len() as int) =~= b.take(a.len() as int));
}

/// The option of a failure, seen as a mathematical object.
pub open spec fn fault_view(e: Option<VmError>) -> Option<Fault> {
    match e {
        Some(e) => Some(e@),
        None => None,
    }
}

impl<'a> Vm<'a> {
    /// Decides a predicate for an argument.
    fn ask_refinement(
        &mut self,
        predicate: &CExpr,
        binding: &str,
        arg: &Value,
        before: Ghost<Seq<u64>>,
    ) -> (out: (Result<bool, String>, Ghost<Seq<u64>>))
        requires
            old(self).wf(),
        ensures
            kept(*old(self), *final(self)),
            final(self)@ == say_all(
                old(self)@,
                asked(*predicate, binding@, arg@, out.1@, before@.len()),
            ),
            final(self).machine_of() == old(self).machine_of(),
            before@.len() <= out.1@.len(),
            out.1@.take(before@.len() as int) == before@,
            holds(*predicate, binding@, arg@, out.1@, before@.len()).1 == out.1@.len(),
            match out.0 {
                Ok(b) => holds(*predicate, binding@, arg@, out.1@, before@.len()).0 == Ok::<
                    bool,
                    Seq<char>,
                >(b),
                Err(t) => holds(*predicate, binding@, arg@, out.1@, before@.len()).0 == Err::<
                    bool,
                    Seq<char>,
                >(t@),
            },
    {
        reveal(host_only_heard);
        eval_refinement(predicate, binding, arg, &mut self.host, &mut self.log, before)
    }

    /// Checks the refinements of a function on arguments.
    pub(crate) fn check_refinements(&mut self, fn_id: u32, args: &Vec<Value>) -> (out: (
        Option<VmError>,
        Ghost<Seq<u64>>,
    ))
        requires
            old(self).wf(),
            fn_id < old(self).program().functions@.len(),
        ensures
            kept(*old(self), *final(self)),
            final(self)@ == say_all(
                old(self)@,
                refinement_asks(
                    old(self).program().functions@[fn_id as int],
                    vals(args@),
                    0,
                    out.1@,
                    0,
                ),
            ),
            final(self).machine_of() == old(self).machine_of(),
            refinement_fault(
                old(self).program().functions@[fn_id as int],
                vals(args@),
                0,
                out.1@,
                0,
            ).0 == fault_view(out.0),
    {
        let program = self.program;
        let f = &program.functions[fn_id as usize];
        let ghost given = vals(args@);
        let mut floats: Ghost<Seq<u64>> = Ghost(Seq::empty());
        let ghost mut asks: Seq<Exchange> = Seq::empty();
        let mut i: usize = 0;
        assert(self@.sh.said + asks =~= self@.sh.said);
        while i < f.refinements.len()
            invariant
                i <= f.refinements.len(),
                given == vals(args@),
                kept(*old(self), *self),
                self@ == say_all(old(self)@, asks),
                self.machine_of() == old(self).machine_of(),
                *f == old(self).program().functions@[fn_id as int],
                forall|longer: Seq<u64>| #[trigger]
                    starts_with(longer, floats@) ==> refinement_fault(*f, given, 0, longer, 0)
                        == refinement_fault(*f, given, i as nat, longer, floats@.len())
                        && refinement_asks(*f, given, 0, longer, 0) == asks + refinement_asks(
                        *f,
                        given,
                        i as nat,
                        longer,
                        floats@.len(),
                    ),
            decreases f.refinements.len() - i,
        {
            if let Some(r) = &f.refinements[i] {
                let arg = if i < args.len() {
                    args[i].duplicate()
                } else {
                    Value::Unit
                };
                proof {
                    value::lemma_view(Value::Unit);
                    assert(arg@ == arg_at(given, i as nat));
                }
                let ghost said = self.log@.said;
                let (verdict, answers) = self.ask_refinement(
                    &*r.predicate,
                    r.binding.as_str(),
                    &arg,
                    floats,
                );
                let ghost before = floats@;
                proof {
                    let here = self.log@.said.skip(said.len() as int);
                    let so_far = asks;
                    assert(here =~= asked(
                        *r.predicate,
                        r.binding@,
                        arg@,
                        answers@,
                        before.len(),
                    ));
                    assert(answers@.take(answers@.len() as int) =~= answers@);
                    assert forall|longer: Seq<u64>| #[trigger]
                        starts_with(longer, answers@) implies refinement_fault(
                        *f,
                        given,
                        0,
                        longer,
                        0,
                    ) == refinement_fault(*f, given, i as nat, longer, before.len()) && holds(
                        *r.predicate,
                        r.binding@,
                        arg@,
                        longer,
                        before.len(),
                    ) == holds(
                        *r.predicate,
                        r.binding@,
                        arg@,
                        answers@,
                        before.len(),
                    ) && asked(*r.predicate, r.binding@, arg@, longer, before.len()) == here
                        && refinement_asks(*f, given, 0, longer, 0) == so_far + refinement_asks(
                        *f,
                        given,
                        i as nat,
                        longer,
                        before.len(),
                    ) by {
                        lemma_starts_with(before, answers@, longer);
                        lemma_evaluate_prefix(
                            *r.predicate,
                            r.binding@,
                            arg@,
                            answers@,
                            longer,
                            before.len(),
                        );
                        lemma_asked_prefix(
                            *r.predicate,
                            r.binding@,
                            arg@,
                            answers@,
                            longer,
                            before.len(),
                        );
                    }
                    assert(starts_with(answers@, answers@));
                    asks = so_far + here;
                    assert(old(self)@.sh.said + so_far + here =~= old(self)@.sh.said + asks);
                    assert forall|longer: Seq<u64>| #[trigger]
                        starts_with(longer, answers@) implies so_far + (here + refinement_asks(
                        *f,
                        given,
                        (i + 1) as nat,
                        longer,
                        answers@.len(),
                    )) =~= asks + refinement_asks(
                        *f,
                        given,
                        (i + 1) as nat,
                        longer,
                        answers@.len(),
                    ) by {}
                }
                match verdict {
                    Ok(true) => {},
                    Ok(false) => {
                        let mut reason = "predicate failed for ".to_owned();
                        reason.append(r.binding.as_str());
                        reason.append(" = ");
                        reason.append(arg.show().as_str());
                        return (
                            Some(
                                VmError::RefinementFailed {
                                    fn_name: f.name.clone(),
                                    param_index: i,
                                    binding: r.binding.clone(),
                                    reason,
                                },
                            ),
                            answers,
                        );
                    },
                    Err(reason) => {
                        return (
                            Some(
                                VmError::RefinementFailed {
                                    fn_name: f.name.clone(),
                                    param_index: i,
                                    binding: r.binding.clone(),
                                    reason,
                                },
                            ),
                            answers,
                        );
                    },
                }
                floats = answers;
            }
            i = i + 1;
        }
        assert(floats@.take(floats@.len() as int) =~= floats@);
        assert(starts_with(floats@, floats@));
        assert(asks + Seq::<Exchange>::empty() =~= asks);
        (None, floats)
    }

    /// Offers a call to the hook, if there is one.
    pub(crate) fn ask_hook(&mut self, fn_id: u32, args: &Vec<Value>) -> (out: (
        HookAnswer,
        Ghost<HookReply>,
    ))
        requires
            old(self).wf(),
        ensures
            kept(*old(self), *final(self)),
            final(self)@ == hooked(old(self)@, fn_id, vals(args@), out.1@),
            final(self).machine_of() == old(self).machine_of(),
            answer_fits(out.0, out.1@),
            out.1@ == heard(old(self)@, out.1@),
            out.0 is Value ==> final(self)@.sh.turns > old(self)@.sh.turns,
    {
        if self.turns == u64::MAX {
            return (HookAnswer::Pass, Ghost(HookReply::Absent));
        }
        match self.offer(fn_id, args) {
            None => (HookAnswer::Pass, Ghost(HookReply::Absent)),
            Some((r, n)) => {
                self.turns = self.turns + 1;
                self.steps = n;
                match r {
                    Ok(None) => (HookAnswer::Pass, Ghost(HookReply::Declined(n))),
                    Ok(Some(v)) => {
                        let ghost x = v@;
                        (HookAnswer::Value(v), Ghost(HookReply::Answered(n, x)))
                    },
                    Err(e) => {
                        let ghost x = e@;
                        (HookAnswer::Fail(e), Ghost(HookReply::Failed(n, x)))
                    },
                }
            },
        }
    }
}

/// Replies of a host that is not asked for anything.
pub open spec fn no_replies() -> Replies {
    Replies {
        floats: Seq::empty(),
        refusal: None,
        hook: HookReply::Absent,
        overridden: None,
        effect: Ok(Val::Unit),
        mapped: Ok(Seq::empty()),
        max_workers: 0,
        seats: Seq::empty(),
        handle: 0,
        actor: None,
        names: Map::empty(),
        shapes: Map::empty(),
    }
}

pub open spec fn text_view(t: Option<String>) -> Option<Seq<char>> {
    match t {
        Some(t) => Some(t@),
        None => None,
    }
}

/// What is left of a call once it was looked up.
pub enum Looked {
    Found(Value),
    Missed(Option<(u32, [u8; 16])>),
}

impl<'a> Vm<'a> {
    /// Tells the handler what a call costs. Gives the text of a refusal.
    pub(crate) fn note_budget(&mut self, fn_id: u32) -> (refusal: Option<String>)
        requires
            old(self).wf(),
            fn_id < old(self).program().functions@.len(),
        ensures
            kept(*old(self), *final(self)),
            refusal is Some ==> budget_cost(old(self).program().functions@[fn_id as int]) > 0,
            final(self).machine_of() == old(self).machine_of(),
            forall|rp: Replies|
                rp.refusal == text_view(refusal) ==> final(self)@ == say_all(
                    old(self)@,
                    #[trigger] budget_talk(old(self).program().functions@[fn_id as int], rp),
                ),
    {
        let ghost said = self@.sh.said;
        let cost = call_budget_cost(&self.program.functions[fn_id as usize]);
        if cost > 0 {
            let r = self.ask_budget(cost);
            proof {
                let x = Exchange::Budget { cost, refusal: refusal_view(r) };
                assert(said.push(x) =~= said + seq![x]);
            }
            match r {
                Ok(()) => None,
                Err(t) => Some(t),
            }
        } else {
            assert(said + Seq::<Exchange>::empty() =~= said);
            None
        }
    }

    /// Checks the budget and the refinements of a call.
    fn check_call(&mut self, fn_id: u32, args: &Vec<Value>) -> (out: (
        Option<VmError>,
        Ghost<Replies>,
    ))
        requires
            old(self).wf(),
            fn_id < old(self).program().functions@.len(),
        ensures
            kept(*old(self), *final(self)),
            final(self)@ == say_all(
                old(self)@,
                call_talk(old(self).program(), fn_id, vals(args@), out.1@),
            ),
            final(self).machine_of() == old(self).machine_of(),
            call_fault(old(self).program(), fn_id, vals(args@), out.1@) == fault_view(out.0),
    {
        let ghost f = self.program().functions@[fn_id as int];
        let ghost said = self@.sh.said;
        match self.note_budget(fn_id) {
            Some(t) => {
                let ghost rp = Replies { refusal: Some(t@), ..no_replies() };
                assert(self@ == say_all(old(self)@, budget_talk(f, rp)));
                (Some(VmError::Effect(t)), Ghost(rp))
            },
            None => {
                let (e, floats) = self.check_refinements(fn_id, args);
                let ghost rp = Replies { floats: floats@, ..no_replies() };
                proof {
                    let asks = refinement_asks(f, vals(args@), 0, floats@, 0);
                    assert(said + budget_talk(f, rp) + asks =~= said + (budget_talk(f, rp)
                        + asks));
                }
                (e, Ghost(rp))
            },
        }
    }

    /// Looks a call up in the memo table.
    fn look_up(&mut self, fn_id: u32, args: &Vec<Value>) -> (out: Looked)
        requires
            old(self).wf(),
            fn_id < old(self).program().functions@.len(),
        ensures
            kept(*old(self), *final(self)),
            final(self)@.m == old(self)@.m,
            ({
                let f = old(self).program().functions@[fn_id as int];
                let sh = old(self)@.sh;
                if memoizable(f, fn_id, vals(args@), sh) {
                    match remembered(fn_id, vals(args@), sh) {
                        Some(v) => out matches Looked::Found(x) && x@ == v && final(self)@.sh
                            == probed(fn_id, sh, true),
                        None => out matches Looked::Missed(k) && memo_key_view(k) == Some(
                            (fn_id, memo_key(vals(args@))),
                        ) && final(self)@.sh == probed(fn_id, sh, false),
                    }
                } else {
                    out matches Looked::Missed(k) && k is None && final(self)@.sh == (
                    if f.effects@.len() == 0 {
                        Shared { skips: crate::vm::state::tick(sh.skips), ..sh }
                    } else {
                        sh
                    })
                }
            }),
    {
        let program = self.program;
        let f = &program.functions[fn_id as usize];
        let fid: usize = fn_id as usize;
        if f.effects.len() > 0 {
            return Looked::Missed(None);
        }
        if fid >= self.memo_fn_state.len() || !self.memo_fn_state[fid].enabled || !all_own(args)
            || memo_args_exceed(args, MEMO_MAX_ARG_BYTES) {
            self.pure_memo_skips = ticked(self.pure_memo_skips);
            return Looked::Missed(None);
        }
        let key = hash_call_args(args);
        match self.pure_memo.get(fn_id, &key) {
            Some(v) => {
                self.memo_fn_state[fid].probe(true);
                self.pure_memo_hits = ticked(self.pure_memo_hits);
                Looked::Found(v)
            },
            None => {
                self.memo_fn_state[fid].probe(false);
                self.pure_memo_misses = ticked(self.pure_memo_misses);
                Looked::Missed(Some((fn_id, key)))
            },
        }
    }

    /// Remembers a result.
    fn store(&mut self, key: Option<(u32, [u8; 16])>, v: &Value)
        requires
            old(self).wf(),
        ensures
            kept(*old(self), *final(self)),
            final(self)@ == (World {
                m: old(self)@.m,
                sh: remember(old(self)@.sh, memo_key_view(key), v@),
            }),
    {
        if let Some((fn_id, key)) = key {
            self.pure_memo.insert(fn_id, &key, v.duplicate());
        }
    }

    /// Carries out a call of a function by its index.
    pub(crate) fn op_call(&mut self, fn_id: u32, arity: u16, node_id_idx: u32) -> (r: Result<
        Option<Value>,
        VmError,
    >)
        requires
            old(self).wf(),
            crate::vm::step::running(old(self).machine_of()),
        ensures
            kept(*old(self), *final(self)),
            final(self)@.sh.turns >= old(self)@.sh.turns,
            final(self)@.sh.limit == old(self)@.sh.limit,
            exists|rp: Replies|
                act_of(r, final(self)@) == #[trigger] call_act(
                    old(self).program(),
                    old(self)@,
                    fn_id,
                    arity,
                    node_id_idx,
                    rp,
                ),
    {
        let ghost p = self.program();
        let ghost w = self@;
        let n: usize = arity as usize;
        if self.machine.stack.len() < n {
            let r: Result<Option<Value>, VmError> = Err(VmError::StackUnderflow);
            assert(act_of(r, self@) == call_act(p, w, fn_id, arity, node_id_idx, no_replies()));
            return r;
        }
        if (fn_id as usize) >= self.program.functions.len() {
            let r: Result<Option<Value>, VmError> = Err(panic_with("function index out of range"));
            assert(act_of(r, self@) == call_act(p, w, fn_id, arity, node_id_idx, no_replies()));
            return r;
        }
        let program = self.program;
        let f = &program.functions[fn_id as usize];
        self.machine.advance(1);
        let args = self.machine.take_top(n);
        let ghost given = vals(args@);
        assert(self@ == taken(w, n as nat));
        let (refused, rp) = self.check_call(fn_id, &args);
        if let Some(e) = refused {
            let r: Result<Option<Value>, VmError> = Err(e);
            proof {
                assert(act_of(r, self@) == call_act(p, w, fn_id, arity, node_id_idx, rp@));
            }
            return r;
        }
        let node = const_str(program, node_id_idx);
        match self.look_up(fn_id, &args) {
            Looked::Found(v) => {
                self.say_enter_call(node.as_str(), f.name.as_str(), &args);
                self.say_exit_ok(&v);
                self.machine.push(v);
                let r: Result<Option<Value>, VmError> = Ok(None);
                proof {
                    assert(act_of(r, self@) == call_act(p, w, fn_id, arity, node_id_idx, rp@));
                }
                r
            },
            Looked::Missed(key) => {
                let ghost w1 = self@;
                self.say_enter_call(node.as_str(), f.name.as_str(), &args);
                let (answer, hook) = self.ask_hook(fn_id, &args);
                let ghost rp2 = Replies { hook: hook@, ..rp@ };
                let r: Result<Option<Value>, VmError> = match answer {
                    HookAnswer::Fail(e) => Err(e),
                    HookAnswer::Value(v) => {
                        self.say_exit_ok(&v);
                        self.store(key, &v);
                        self.machine.push(v);
                        Ok(None)
                    },
                    HookAnswer::Pass => match self.machine.check_entry(f, args.len()) {
                        Some(e) => Err(e),
                        None => {
                            self.machine.push_frame(f, fn_id, args, FrameKind::Call(node), key);
                            Ok(None)
                        },
                    },
                };
                proof {
                    assert(given.len() == args@.len());
                    assert(act_of(r, self@) == call_after_memo(
                        p,
                        w1,
                        fn_id,
                        given,
                        node_id_idx,
                        memo_key_view(key),
                        rp2,
                    ));
                    assert(act_of(r, self@) == call_act(p, w, fn_id, arity, node_id_idx, rp2));
                }
                r
            },
        }
    }

    /// Hands a value out of the frame that was just closed.
    fn hand_back(&mut self, base: usize, v: Value) -> (r: Result<Option<Value>, VmError>)
        requires
            old(self).wf(),
        ensures
            kept(*old(self), *final(self)),
            act_of(r, final(self)@) == give_back(old(self)@, base as nat, v@),
            final(self)@.sh == old(self)@.sh,
    {
        if self.machine.frames.len() <= base {
            Ok(Some(v))
        } else {
            self.machine.push(v);
            Ok(None)
        }
    }

    /// Carries out a return.
    pub(crate) fn op_return(&mut self, base: usize) -> (r: Result<Option<Value>, VmError>)
        requires
            old(self).wf(),
            crate::vm::step::running(old(self).machine_of()),
        ensures
            kept(*old(self), *final(self)),
            final(self)@.sh.turns == old(self)@.sh.turns,
            final(self)@.sh.limit == old(self)@.sh.limit,
            act_of(r, final(self)@) == return_act(base as nat, old(self)@),
    {
        if self.machine.stack.len() < 1 {
            return Err(VmError::StackUnderflow);
        }
        let v = self.machine.take_one();
        let frame = self.machine.pop_frame();
        if let FrameKind::Call(_) = &frame.trace_kind {
            self.say_exit_ok(&v);
        }
        self.store(frame.memo_key, &v);
        self.hand_back(base, v)
    }

    /// Carries out a tail call.
    pub(crate) fn op_tail_call(&mut self, base: usize, fn_id: u32, arity: u16,
        node_id_idx: u32) -> (
    r: Result<Option<Value>, VmError>)
        requires
            old(self).wf(),
            crate::vm::step::running(old(self).machine_of()),
        ensures
            kept(*old(self), *final(self)),
            final(self)@.sh.turns >= old(self)@.sh.turns,
            final(self)@.sh.limit == old(self)@.sh.limit,
            exists|rp: Replies|
                act_of(r, final(self)@) == #[trigger] tail_call_act(
                    old(self).program(),
                    base as nat,
                    old(self)@,
                    fn_id,
                    arity,
                    node_id_idx,
                    rp,
                ),
    {
        let ghost p = self.program();
        let ghost w = self@;
        let ghost b = base as nat;
        let n: usize = arity as usize;
        if self.machine.stack.len() < n {
            let r: Result<Option<Value>, VmError> = Err(VmError::StackUnderflow);
            assert(act_of(r, self@) == tail_call_act(
                p,
                b,
                w,
                fn_id,
                arity,
                node_id_idx,
                no_replies(),
            ));
            return r;
        }
        if (fn_id as usize) >= self.program.functions.len() {
            let r: Result<Option<Value>, VmError> = Err(panic_with("function index out of range"));
            assert(act_of(r, self@) == tail_call_act(
                p,
                b,
                w,
                fn_id,
                arity,
                node_id_idx,
                no_replies(),
            ));
            return r;
        }
        let program = self.program;
        let f = &program.functions[fn_id as usize];
        self.machine.advance(1);
        let args = self.machine.take_top(n);
        let ghost given = vals(args@);
        assert(self@ == taken(w, n as nat));
        let (refused, rp) = self.check_call(fn_id, &args);
        if let Some(e) = refused {
            let r: Result<Option<Value>, VmError> = Err(e);
            assert(act_of(r, self@) == tail_call_act(p, b, w, fn_id, arity, node_id_idx, rp@));
            return r;
        }
        let node = const_str(program, node_id_idx);
        self.say_exit_tail();
        self.say_enter_call(node.as_str(), f.name.as_str(), &args);
        let (answer, hook) = self.ask_hook(fn_id, &args);
        let ghost rp2 = Replies { hook: hook@, ..rp@ };
        assert(given.len() == args@.len());
        let r: Result<Option<Value>, VmError> = match answer {
            HookAnswer::Fail(e) => Err(e),
            HookAnswer::Value(v) => {
                self.say_exit_ok(&v);
                self.machine.pop_frame();
                self.hand_back(base, v)
            },
            HookAnswer::Pass => if args.len() > locals_len(f) {
                Err(panic_with("more arguments than locals"))
            } else {
                self.machine.replace_frame(f, fn_id, args, node);
                Ok(None)
            },
        };
        assert(act_of(r, self@) == tail_call_act(p, b, w, fn_id, arity, node_id_idx, rp2));
        r
    }

    /// Carries out a call of a closure.
    pub(crate) fn op_call_closure(&mut self, arity: u16, node_id_idx: u32) -> (r: Result<
        Option<Value>,
        VmError,
    >)
        requires
            old(self).wf(),
            crate::vm::step::running(old(self).machine_of()),
        ensures
            kept(*old(self), *final(self)),
            final(self)@.sh.turns == old(self)@.sh.turns,
            final(self)@.sh.limit == old(self)@.sh.limit,
            exists|rp: Replies|
                act_of(r, final(self)@) == #[trigger] call_closure_act(
                    old(self).program(),
                    old(self)@,
                    arity,
                    node_id_idx,
                    rp,
                ),
    {
        let ghost p = self.program();
        let ghost w = self@;
        let n: usize = arity as usize;
        let len: usize = self.machine.stack.len();
        if len < n + 1 {
            let r: Result<Option<Value>, VmError> = Err(VmError::StackUnderflow);
            assert(act_of(r, self@) == call_closure_act(p, w, arity, node_id_idx, no_replies()));
            return r;
        }
        let callee = &self.machine.stack[len - 1 - n];
        assert(callee@ == value::view_of(*callee));
        let fn_id: u32 = match callee {
            Value::Closure { fn_id, .. } => *fn_id,
            other => {
                let r: Result<Option<Value>, VmError> = Err(
                    mismatch_with("CallClosure on non-closure: ", other),
                );
                assert(act_of(r, self@) == call_closure_act(p, w, arity, node_id_idx,
                    no_replies()));
                return r;
            },
        };
        if (fn_id as usize) >= self.program.functions.len() {
            let r: Result<Option<Value>, VmError> = Err(panic_with("function index out of range"));
            assert(act_of(r, self@) == call_closure_act(p, w, arity, node_id_idx, no_replies()));
            return r;
        }
        let program = self.program;
        let f = &program.functions[fn_id as usize];
        self.machine.advance(1);
        let mut rest = self.machine.take_top(n);
        let closure = self.machine.take_one();
        let ghost w0 = taken(w, n as nat + 1);
        proof {
            assert(self@.m.stack =~= w0.m.stack);
            assert(self@ == w0);
            assert(closure@ == crate::vm::state::operand(w.m, n as nat));
            assert(closure@ == value::view_of(closure));
        }
        let mut args: Vec<Value> = match closure {
            Value::Closure { captures, .. } => captures,
            _ => Vec::new(),
        };
        proof {
            crate::vm::state::lemma_vals_add(args@, rest@);
        }
        args.append(&mut rest);
        let ghost given = vals(args@);
        assert(given.len() == args@.len());
        match self.note_budget(fn_id) {
            Some(t) => {
                let ghost rp = Replies { refusal: Some(t@), ..no_replies() };
                let r: Result<Option<Value>, VmError> = Err(VmError::Effect(t));
                assert(act_of(r, self@) == call_closure_act(p, w, arity, node_id_idx, rp));
                r
            },
            None => {
                let node = const_str(program, node_id_idx);
                self.say_enter_call(node.as_str(), f.name.as_str(), &args);
                let r: Result<Option<Value>, VmError> = match self.machine.check_entry(
                    f,
                    args.len(),
                ) {
                    Some(e) => Err(e),
                    None => {
                        self.machine.push_frame(f, fn_id, args, FrameKind::Call(node), None);
                        Ok(None)
                    },
                };
                assert(act_of(r, self@) == call_closure_act(p, w, arity, node_id_idx,
                    no_replies()));
                r
            },
        }
    }

}

/// Whether no argument holds a handle into a slab or an arena.
fn all_own(args: &Vec<Value>) -> (yes: bool)
    ensures
        yes == all_owned(vals(args@)),
{
    let mut i: usize = 0;
    while i < args.len()
        invariant
            i <= args.len(),
            forall|j: int|
                0 <= j < i ==> crate::value_ops::is_owned(#[trigger] vals(args@)[j]),
        decreases args.len() - i,
    {
        if !args[i].owned() {
            assert(!crate::value_ops::is_owned(vals(args@)[i as int]));
            return false;
        }
        i = i + 1;
    }
    true
}

} // verus!
