//! List ops that call a closure on the items.

use vstd::prelude::*;

use crate::program::Program;
use crate::value;
use crate::value::{vals, Val, Value};
use crate::vm::calls::{act_of, no_replies};
use crate::vm::dispatch::{all_valid, called, moved_on};
use crate::vm::fault::{expected, mismatch_with, panic_with, Fault, VmError};
use crate::vm::runs::{
    accumulated, filter_acts, fold_acts, fold_call, is_call_of, item_call, kept as kept_items,
    list_operands, map_acts, one_by_one, par_map_acts, push_on, reordered, seat_talk, sort_acts,
    sorted_by_keys, stop_fault, stops, valid_call, values_of, world_after,
};
use crate::vm::sort_keys::{arranges, sort_order};
use crate::vm::state::{operand, push};
use crate::vm::step::running;
use crate::vm::outside::{say_all, Exchange};
use crate::vm::workers::worker_count;
use crate::vm::world::{taken, Call, Callee, Outcome, Replies, World};
use crate::vm::{kept, Vm};

verus! {

broadcast use crate::value::lemma_view;

/// The failure of an op that needs another kind of operand.
fn wrong_operand(op: &str, need: &str, v: &Value) -> (e: VmError)
    ensures
        e@ == crate::vm::fault::mismatch_fault(op@ + need@, v@),
{
    let what = op.to_owned().concat(need);
    mismatch_with(what.as_str(), v)
}

/// One more call in a row of calls on items.
proof fn lemma_one_more(p: Program, calls: Seq<Call>, w0: World, f: Val, items: Seq<Val>, c: Call)
    requires
        calls.len() < items.len(),
        all_valid(p, calls),
        valid_call(p, c),
        forall|k: int| 0 <= k < calls.len() ==> #[trigger] item_call(calls, k, w0, f, items),
        is_call_of(c, f, seq![items[calls.len() as int]], world_after(calls, w0)),
    ensures
        all_valid(p, calls.push(c)),
        forall|k: int|
            0 <= k < calls.len() + 1 ==> #[trigger] item_call(calls.push(c), k, w0, f, items),
        world_after(calls.push(c), w0) == c.after,
{
    let more = calls.push(c);
    assert forall|k: int| 0 <= k < more.len() implies #[trigger] item_call(
        more,
        k,
        w0,
        f,
        items,
    ) by {
        if k < calls.len() {
            assert(item_call(calls, k, w0, f, items));
        }
    }
    assert forall|k: int| 0 <= k < more.len() implies valid_call(p, #[trigger] more[k]) by {
        if k < calls.len() {
            assert(more[k] == calls[k]);
        }
    }
}

/// One more call in a fold.
proof fn lemma_fold_more(
    p: Program,
    calls: Seq<Call>,
    w0: World,
    f: Val,
    init: Val,
    items: Seq<Val>,
    c: Call,
)
    requires
        calls.len() < items.len(),
        all_valid(p, calls),
        valid_call(p, c),
        forall|k: int| 0 <= k < calls.len() ==> #[trigger] fold_call(calls, k, w0, f, init, items),
        is_call_of(
            c,
            f,
            seq![accumulated(calls, calls.len() as int, init), items[calls.len() as int]],
            world_after(calls, w0),
        ),
    ensures
        all_valid(p, calls.push(c)),
        forall|k: int|
            0 <= k < calls.len() + 1 ==> #[trigger] fold_call(
                calls.push(c),
                k,
                w0,
                f,
                init,
                items,
            ),
        world_after(calls.push(c), w0) == c.after,
{
    let more = calls.push(c);
    assert forall|k: int| 0 <= k < more.len() implies #[trigger] fold_call(
        more,
        k,
        w0,
        f,
        init,
        items,
    ) by {
        if k < calls.len() {
            assert(fold_call(calls, k, w0, f, init, items));
        }
    }
    assert forall|k: int| 0 <= k < more.len() implies valid_call(p, #[trigger] more[k]) by {
        if k < calls.len() {
            assert(more[k] == calls[k]);
        }
    }
}

impl<'a> Vm<'a> {
    /// Why a list op cannot run on the operands, if it cannot.
    fn check_list(&self, extra: usize, op: &str) -> (e: Option<VmError>)
        requires
            extra <= 1,
        ensures
            match e {
                Some(e) => list_operands(self@.m, extra as nat, op@) == Err::<
                    (Seq<Val>, Val),
                    Fault,
                >(e@),
                None => list_operands(self@.m, extra as nat, op@) is Ok,
            },
    {
        let n: usize = self.machine.stack.len();
        if n < 2 + extra {
            return Some(VmError::StackUnderflow);
        }
        let xs = &self.machine.stack[n - 2 - extra];
        let f = &self.machine.stack[n - 1];
        assert(xs@ == value::view_of(*xs));
        assert(f@ == value::view_of(*f));
        assert(xs@ == operand(self@.m, 1 + extra as nat));
        assert(f@ == operand(self@.m, 0));
        match xs {
            Value::List(_) => {},
            other => return Some(wrong_operand(op, " requires a List, got: ", other)),
        }
        match f {
            Value::Closure { .. } => None,
            other => Some(wrong_operand(op, " requires a closure, got: ", other)),
        }
    }

    /// Calls a closure on one item after the other, up to the first failure, or
    /// to the first value that is no truth value where one is needed.
    fn call_each(&mut self, f: &Value, items: &Vec<Value>, bools: bool) -> (out: (
        Result<Vec<Value>, VmError>,
        Ghost<Seq<Call>>,
    ))
        requires
            old(self).wf(),
        ensures
            kept(*old(self), *final(self)),
            moved_on(old(self)@, final(self)@),
            all_valid(old(self).program(), out.1@),
            one_by_one(out.1@, old(self)@, f@, vals(items@), bools),
            final(self)@ == world_after(out.1@, old(self)@),
            match out.0 {
                Ok(vs) => stop_fault(out.1@, bools) is None && out.1@.len() == items@.len()
                    && vals(vs@) == values_of(out.1@),
                Err(e) => stop_fault(out.1@, bools) == Some(e@),
            },
        decreases old(self).fuel(), 5nat, Val::Unit, 0nat, 0nat,
    {
        let ghost p = self.program();
        let ghost w0 = self@;
        let ghost all = vals(items@);
        let mut calls: Ghost<Seq<Call>> = Ghost(Seq::empty());
        let mut out: Vec<Value> = Vec::with_capacity(items.len());
        let mut i: usize = 0;
        while i < items.len()
            invariant
                i <= items.len(),
                kept(*old(self), *self),
                p == old(self).program(),
                w0 == old(self)@,
                moved_on(w0, self@),
                self.fuel() <= old(self).fuel(),
                all == vals(items@),
                calls@.len() == i,
                out@.len() == i,
                all_valid(p, calls@),
                self@ == world_after(calls@, w0),
                forall|k: int|
                    0 <= k < calls@.len() ==> #[trigger] item_call(calls@, k, w0, f@, all),
                forall|k: int|
                    0 <= k < calls@.len() ==> !stops((#[trigger] calls@[k]).outcome, bools),
                forall|k: int|
                    0 <= k < calls@.len() ==> (#[trigger] calls@[k]).outcome == Outcome::Value(
                        vals(out@)[k],
                    ),
            decreases items.len() - i,
        {
            let ghost here = self@;
            let arg = vec![items[i].duplicate()];
            assert(vals(arg@) =~= seq![all[i as int]]);
            let ghost given = vals(arg@);
            let r = self.invoke_closure_value(f.duplicate(), arg);
            let ghost c = choose|c: Call| #[trigger]
                called(p, c, Callee::Value(f@), given, here, self@, r);
            let ghost before = calls@;
            let more: Ghost<Seq<Call>> = Ghost(before.push(c));
            proof {
                lemma_one_more(p, before, w0, f@, all, c);
                assert forall|k: int| 0 <= k < more@.len() - 1 implies !stops(
                    (#[trigger] more@[k]).outcome,
                    bools,
                ) by {
                    assert(more@[k] == before[k]);
                }
            }
            match r {
                Ok(v) => {
                    if bools {
                        assert(v@ == value::view_of(v));
                        match &v {
                            Value::Bool(_) => {},
                            other => {
                                return (Err(expected("Bool", other)), more);
                            },
                        }
                    }
                    let ghost outs = out@;
                    let ghost x = v@;
                    out.push(v);
                    proof {
                        assert forall|k: int| 0 <= k < more@.len() implies (
                        #[trigger] more@[k]).outcome == Outcome::Value(vals(out@)[k]) by {
                            if k < before.len() {
                                assert(more@[k] == before[k]);
                                assert(vals(out@)[k] == vals(outs)[k]);
                            }
                        }
                        assert forall|k: int| 0 <= k < more@.len() implies !stops(
                            (#[trigger] more@[k]).outcome,
                            bools,
                        ) by {
                            if k < before.len() {
                                assert(more@[k] == before[k]);
                            }
                        }
                    }
                    calls = more;
                },
                Err(e) => {
                    return (Err(e), more);
                },
            }
            i = i + 1;
        }
        proof {
            if calls@.len() > 0 {
                assert(!stops(calls@[calls@.len() - 1].outcome, bools));
            }
            assert forall|k: int| 0 <= k < calls@.len() implies #[trigger] vals(out@)[k]
                == values_of(calls@)[k] by {
                assert(calls@[k].outcome == Outcome::Value(vals(out@)[k]));
            }
            assert(vals(out@) =~= values_of(calls@));
        }
        (Ok(out), calls)
    }

    /// Takes the closure and the list off the stack.
    fn take_list(&mut self) -> (out: (Vec<Value>, Value))
        requires
            old(self).wf(),
            running(old(self).machine_of()),
            old(self)@.m.stack.len() >= 2,
            operand(old(self)@.m, 1) is List,
        ensures
            kept(*old(self), *final(self)),
            final(self)@ == taken(old(self)@, 2),
            out.1@ == operand(old(self)@.m, 0),
            Val::List(vals(out.0@)) == operand(old(self)@.m, 1),
    {
        let ghost w = self@;
        self.machine.advance(1);
        let f = self.machine.take_one();
        let xs = self.machine.take_one();
        assert(self@.m.stack =~= taken(w, 2).m.stack);
        assert(xs@ == operand(w.m, 1));
        let items = match xs {
            Value::List(items) => items,
            _ => Vec::new(),
        };
        (items, f)
    }

    /// Carries out a map over a list.
    pub(crate) fn op_list_map(&mut self) -> (out: (
        Result<Option<Value>, VmError>,
        Ghost<Seq<Call>>,
    ))
        requires
            old(self).wf(),
            running(old(self).machine_of()),
        ensures
            kept(*old(self), *final(self)),
            moved_on(old(self)@, final(self)@),
            all_valid(old(self).program(), out.1@),
            map_acts(old(self)@, out.1@, act_of(out.0, final(self)@)),
        decreases old(self).fuel(), 6nat, Val::Unit, 0nat, 0nat,
    {
        if let Some(e) = self.check_list(0, "ListMap") {
            return (Err(e), Ghost(Seq::empty()));
        }
        let (items, f) = self.take_list();
        let (r, calls) = self.call_each(&f, &items, false);
        match r {
            Ok(vs) => {
                self.machine.push(Value::List(vs));
                (Ok(None), calls)
            },
            Err(e) => (Err(e), calls),
        }
    }

    /// Carries out a filter of a list.
    pub(crate) fn op_list_filter(&mut self) -> (out: (
        Result<Option<Value>, VmError>,
        Ghost<Seq<Call>>,
    ))
        requires
            old(self).wf(),
            running(old(self).machine_of()),
        ensures
            kept(*old(self), *final(self)),
            moved_on(old(self)@, final(self)@),
            all_valid(old(self).program(), out.1@),
            filter_acts(old(self)@, out.1@, act_of(out.0, final(self)@)),
        decreases old(self).fuel(), 6nat, Val::Unit, 0nat, 0nat,
    {
        if let Some(e) = self.check_list(0, "ListFilter") {
            return (Err(e), Ghost(Seq::empty()));
        }
        let (items, f) = self.take_list();
        let (r, calls) = self.call_each(&f, &items, true);
        match r {
            Ok(flags) => {
                assert(vals(flags@).len() == flags@.len());
                let out = keep_flagged(&items, &flags);
                self.machine.push(Value::List(out));
                (Ok(None), calls)
            },
            Err(e) => (Err(e), calls),
        }
    }

    /// Carries out a stable sort of a list by keys.
    pub(crate) fn op_sort_by_key(&mut self) -> (out: (
        Result<Option<Value>, VmError>,
        Ghost<Seq<Call>>,
    ))
        requires
            old(self).wf(),
            running(old(self).machine_of()),
        ensures
            kept(*old(self), *final(self)),
            moved_on(old(self)@, final(self)@),
            all_valid(old(self).program(), out.1@),
            sort_acts(old(self)@, out.1@, act_of(out.0, final(self)@)),
        decreases old(self).fuel(), 6nat, Val::Unit, 0nat, 0nat,
    {
        if let Some(e) = self.check_list(0, "SortByKey") {
            return (Err(e), Ghost(Seq::empty()));
        }
        let ghost w = self@;
        let (items, f) = self.take_list();
        let ghost w0 = self@;
        let (r, calls) = self.call_each(&f, &items, false);
        match r {
            Ok(keys) => {
                assert(vals(keys@).len() == keys@.len());
                let order = sort_order(&keys);
                let sorted = pick(&items, &order);
                assert(sorted_by_keys(vals(items@), values_of(calls@), vals(sorted@))) by {
                    assert(arranges(order@, 0, vals(items@).len()));
                }
                let ghost ended = self@;
                self.machine.push(Value::List(sorted));
                proof {
                    let v = Val::List(vals(sorted@));
                    assert(self@ == push_on(ended, v));
                    assert(self@.m.stack.last() == v);
                }
                (Ok(None), calls)
            },
            Err(e) => (Err(e), calls),
        }
    }

    /// Carries out a parallel map over a list; the host does the work.
    pub(crate) fn op_parallel_map(&mut self) -> (out: (
        Result<Option<Value>, VmError>,
        Ghost<Replies>,
    ))
        requires
            old(self).wf(),
            running(old(self).machine_of()),
        ensures
            kept(*old(self), *final(self)),
            moved_on(old(self)@, final(self)@),
            par_map_acts(old(self)@, out.1@, act_of(out.0, final(self)@)),
    {
        if let Some(e) = self.check_list(0, "ParallelMap") {
            return (Err(e), Ghost(no_replies()));
        }
        let (items, f) = self.take_list();
        let n: usize = items.len();
        assert(vals(items@).len() == n);
        let ghost w0 = self@;
        let limit: usize = self.ask_workers();
        let count: usize = worker_count(limit, n);
        let ghost w1 = self@;
        let mut seats: Vec<Option<u64>> = Vec::new();
        assert(seat_talk(seats@) =~= Seq::<Exchange>::empty());
        assert(w1.sh.said + Seq::<Exchange>::empty() =~= w1.sh.said);
        let mut i: usize = 0;
        while i < count
            invariant
                i <= count,
                kept(*old(self), *self),
                seats@.len() == i,
                self@ == say_all(w1, seat_talk(seats@)),
            decreases count - i,
        {
            let ghost before = seats@;
            let seat = self.ask_seat();
            seats.push(seat);
            proof {
                let more = seat_talk(seats@);
                assert(more =~= seat_talk(before).push(Exchange::WorkerHandler(seat)));
                assert(w1.sh.said + more =~= (w1.sh.said + seat_talk(before)).push(
                    Exchange::WorkerHandler(seat),
                ));
            }
            i = i + 1;
        }
        let ghost rp = Replies { max_workers: limit, seats: seats@, ..no_replies() };
        if n == 0 {
            assert(vals(items@) =~= Seq::<Val>::empty());
            self.machine.push(Value::List(items));
            return (Ok(None), Ghost(rp));
        }
        match self.ask_par_map(f, items, seats) {
            Ok(vs) => {
                let ghost rp = Replies { mapped: Ok(vals(vs@)), ..rp };
                if vs.len() == n {
                    assert(vals(vs@).len() == n);
                    self.machine.push(Value::List(vs));
                    (Ok(None), Ghost(rp))
                } else {
                    assert(vals(vs@).len() == vs@.len());
                    (Err(panic_with("par_map worker did not produce a result")), Ghost(rp))
                }
            },
            Err(e) => {
                let ghost rp = Replies { mapped: Err(e@), ..rp };
                (Err(e), Ghost(rp))
            },
        }
    }

    /// Carries out a left fold of a list.
    #[verifier::rlimit(40)]
    #[verifier::spinoff_prover]
    pub(crate) fn op_list_fold(&mut self) -> (out: (
        Result<Option<Value>, VmError>,
        Ghost<Seq<Call>>,
    ))
        requires
            old(self).wf(),
            running(old(self).machine_of()),
        ensures
            kept(*old(self), *final(self)),
            moved_on(old(self)@, final(self)@),
            all_valid(old(self).program(), out.1@),
            fold_acts(old(self)@, out.1@, act_of(out.0, final(self)@)),
        decreases old(self).fuel(), 6nat, Val::Unit, 0nat, 0nat,
    {
        if let Some(e) = self.check_list(1, "ListFold") {
            return (Err(e), Ghost(Seq::empty()));
        }
        let ghost p = self.program();
        let ghost w = self@;
        self.machine.advance(1);
        let f = self.machine.take_one();
        let init = self.machine.take_one();
        let xs = self.machine.take_one();
        let ghost w0 = taken(w, 3);
        assert(self@.m.stack =~= w0.m.stack);
        assert(xs@ == operand(w.m, 2));
        assert(init@ == operand(w.m, 1));
        let items = match xs {
            Value::List(items) => items,
            _ => Vec::new(),
        };
        let ghost all = vals(items@);
        let ghost first = init@;
        let mut acc = init;
        let mut calls: Ghost<Seq<Call>> = Ghost(Seq::empty());
        let mut i: usize = 0;
        while i < items.len()
            invariant
                i <= items.len(),
                kept(*old(self), *self),
                p == old(self).program(),
                w == old(self)@,
                moved_on(w, self@),
                self.fuel() <= old(self).fuel(),
                all == vals(items@),
                calls@.len() == i,
                all_valid(p, calls@),
                self@ == world_after(calls@, w0),
                list_operands(w.m, 1, "ListFold"@) == Ok::<(Seq<Val>, Val), Fault>((all, f@)),
                w0 == taken(w, 3),
                first == operand(w.m, 1),
                acc@ == accumulated(calls@, i as int, first),
                forall|k: int|
                    0 <= k < calls@.len() ==> #[trigger] fold_call(calls@, k, w0, f@, first, all),
                forall|k: int| 0 <= k < calls@.len() ==> (#[trigger] calls@[k]).outcome is Value,
            decreases items.len() - i,
        {
            let ghost here = self@;
            let ghost before = calls@;
            let ghost so_far = acc@;
            let args = vec![acc, items[i].duplicate()];
            assert(vals(args@) =~= seq![so_far, all[i as int]]);
            let ghost given = vals(args@);
            let r = self.invoke_closure_value(f.duplicate(), args);
            let ghost c = choose|c: Call| #[trigger]
                called(p, c, Callee::Value(f@), given, here, self@, r);
            let more: Ghost<Seq<Call>> = Ghost(before.push(c));
            proof {
                lemma_fold_more(p, before, w0, f@, first, all, c);
                assert forall|k: int| 0 <= k < more@.len() - 1 implies (
                #[trigger] more@[k]).outcome is Value by {
                    assert(more@[k] == before[k]);
                }
            }
            match r {
                Ok(v) => {
                    acc = v;
                    calls = more;
                },
                Err(e) => {
                    return (Err(e), more);
                },
            }
            i = i + 1;
        }
        proof {
            if calls@.len() > 0 {
                assert(calls@[calls@.len() - 1].outcome is Value);
            }
        }
        self.machine.push(acc);
        (Ok(None), calls)
    }
}

/// The items whose flag is true.
fn keep_flagged(items: &Vec<Value>, flags: &Vec<Value>) -> (out: Vec<Value>)
    requires
        flags@.len() == items@.len(),
    ensures
        vals(out@) == kept_items(vals(items@), vals(flags@)),
{
    let ghost all = vals(items@);
    let ghost marks = vals(flags@);
    let mut out: Vec<Value> = Vec::new();
    let mut i: usize = 0;
    assert(marks.take(0) =~= Seq::<Val>::empty());
    assert(vals(out@) =~= Seq::<Val>::empty());
    while i < items.len()
        invariant
            i <= items.len(),
            flags@.len() == items@.len(),
            all == vals(items@),
            marks == vals(flags@),
            vals(out@) == kept_items(all, marks.take(i as int)),
        decreases items.len() - i,
    {
        assert(marks.take(i + 1).drop_last() =~= marks.take(i as int));
        assert(marks.take(i + 1).last() == flags@[i as int]@);
        let flag = &flags[i];
        assert(flag@ == value::view_of(*flag));
        let keep = match flag {
            Value::Bool(b) => *b,
            _ => false,
        };
        if keep {
            let ghost before = out@;
            out.push(items[i].duplicate());
            assert(vals(out@) =~= vals(before).push(all[i as int]));
        }
        i = i + 1;
    }
    assert(marks.take(i as int) =~= marks);
    out
}

/// The items in an order.
fn pick(items: &Vec<Value>, order: &Vec<usize>) -> (out: Vec<Value>)
    requires
        arranges(order@, 0, items@.len()),
    ensures
        vals(out@) == reordered(vals(items@), order@),
{
    let mut out: Vec<Value> = Vec::with_capacity(order.len());
    let mut i: usize = 0;
    while i < order.len()
        invariant
            i <= order.len(),
            out@.len() == i,
            arranges(order@, 0, items@.len()),
            forall|j: int| 0 <= j < i ==> (#[trigger] out@[j])@ == items@[order@[j] as int]@,
        decreases order.len() - i,
    {
        out.push(items[order[i]].duplicate());
        i = i + 1;
    }
    assert(vals(out@) =~= reordered(vals(items@), order@));
    out
}

} // verus!
