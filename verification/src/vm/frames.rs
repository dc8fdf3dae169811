//! Opening, replacing and closing frames.

use vstd::prelude::*;

use crate::program::{EffectArg, Function};
use crate::text::same_text;
use crate::value::{vals, Val, Value};
use crate::vm::fault::{panic_with, VmError};
use crate::vm::state::{
    frame_views, lemma_vals_add, lemma_vals_take, memo_key_view, top_frame, Frame, FrameKind,
    Machine, State, MAX_CALL_DEPTH, STACK_RECORD_BUDGET_SLOTS,
};
use crate::vm::world::{
    budget_cost, budget_of, cut, entered, entry_fault, left, locals_needed, padded, replaced,
    unwound,
};

verus! {

/// How many locals a function has.
pub(crate) fn locals_len(f: &Function) -> (n: usize)
    ensures
        n == locals_needed(*f),
{
    if f.locals_count > f.arity {
        f.locals_count as usize
    } else {
        f.arity as usize
    }
}

/// The sum of the budgets that a function declares.
pub(crate) fn call_budget_cost(f: &Function) -> (cost: u64)
    ensures
        cost == budget_cost(*f),
{
    let mut total: u64 = 0;
    let mut i: usize = 0;
    while i < f.effects.len()
        invariant
            i <= f.effects.len(),
            total == budget_of(*f, i as nat),
        decreases f.effects.len() - i,
    {
        let e = &f.effects[i];
        if let Some(EffectArg::Int(n)) = &e.arg {
            if same_text(e.kind.as_str(), "budget") && *n >= 0 {
                total = total.saturating_add(*n as u64);
            }
        }
        i = i + 1;
    }
    total
}

/// Appends arguments and fills up with units.
fn push_locals(locals: &mut Vec<Value>, args: Vec<Value>, n: usize)
    requires
        args@.len() <= n,
    ensures
        vals(final(locals)@) == vals(old(locals)@) + padded(vals(args@), n as nat),
{
    let ghost start = vals(locals@);
    let ghost given = vals(args@);
    let mut args = args;
    let mut i: usize = args.len();
    proof {
        lemma_vals_add(locals@, args@);
    }
    locals.append(&mut args);
    assert(given =~= padded(given, n as nat).take(i as int));
    while i < n
        invariant
            given.len() <= i <= n,
            vals(locals@) == start + padded(given, n as nat).take(i as int),
        decreases n - i,
    {
        let ghost before = locals@;
        locals.push(Value::Unit);
        proof {
            crate::value::lemma_view(Value::Unit);
            assert(vals(locals@) =~= vals(before).push(Val::Unit));
            assert(vals(locals@) =~= start + padded(given, n as nat).take(i + 1));
        }
        i = i + 1;
    }
    assert(padded(given, n as nat).take(n as int) =~= padded(given, n as nat));
}

/// Cuts a list of values to at most `n`.
pub(crate) fn cut_values(v: &mut Vec<Value>, n: usize)
    ensures
        vals(final(v)@) == cut(vals(old(v)@), n as nat),
{
    proof {
        if n <= v@.len() {
            lemma_vals_take(v@, n as int);
        }
    }
    v.truncate(n);
    assert(n <= old(v)@.len() ==> v@ =~= old(v)@.take(n as int));
}

impl Machine {
    /// Whether a frame for a function with this many arguments can be opened.
    pub fn check_entry(&self, f: &Function, args: usize) -> (e: Option<VmError>)
        ensures
            forall|a: Seq<Val>| #[trigger]
                a.len() == args ==> (match e {
                    Some(e) => entry_fault(*f, self@, a) == Some(e@),
                    None => entry_fault(*f, self@, a) is None,
                }),
    {
        if self.frames.len() >= MAX_CALL_DEPTH as usize {
            Some(VmError::CallStackOverflow(MAX_CALL_DEPTH))
        } else if args > locals_len(f) {
            Some(panic_with("more arguments than locals"))
        } else {
            None
        }
    }

    /// Opens a frame.
    pub fn push_frame(
        &mut self,
        f: &Function,
        fn_id: u32,
        args: Vec<Value>,
        trace_kind: FrameKind,
        memo_key: Option<(u32, [u8; 16])>,
    )
        requires
            args@.len() <= locals_needed(*f),
        ensures
            final(self)@ == entered(
                *f,
                fn_id,
                old(self)@,
                vals(args@),
                match trace_kind {
                    FrameKind::Entry => None,
                    FrameKind::Call(node) => Some(node@),
                },
                memo_key_view(memo_key),
            ),
    {
        let locals_start: usize = self.locals.len();
        let n: usize = locals_len(f);
        push_locals(&mut self.locals, args, n);
        let frame = Frame {
            fn_id,
            pc: 0,
            locals_start,
            locals_len: n,
            stack_base: self.stack.len(),
            trace_kind,
            memo_key,
            stack_record_arena_start: self.slab.len(),
            stack_record_budget_remaining: STACK_RECORD_BUDGET_SLOTS,
        };
        let ghost view = frame@;
        let ghost before = self.frames@;
        self.frames.push(frame);
        assert(frame_views(self.frames@) =~= frame_views(before).push(view));
    }

    /// Closes the running frame.
    pub fn pop_frame(&mut self) -> (frame: Frame)
        requires
            old(self).frames@.len() > 0,
        ensures
            final(self)@ == left(old(self)@),
            frame@ == top_frame(old(self)@),
            final(self).frames@.len() == old(self).frames@.len() - 1,
    {
        let ghost before = self.frames@;
        let frame = self.frames.pop().unwrap();
        assert(frame_views(self.frames@) =~= frame_views(before).drop_last());
        cut_values(&mut self.stack, frame.stack_base);
        cut_values(&mut self.locals, frame.locals_start);
        cut_values(&mut self.slab, frame.stack_record_arena_start);
        frame
    }

    /// Replaces the running frame by a frame for another function.
    pub fn replace_frame(&mut self, f: &Function, fn_id: u32, args: Vec<Value>, node: String)
        requires
            old(self).frames@.len() > 0,
            args@.len() <= locals_needed(*f),
        ensures
            final(self)@ == replaced(*f, fn_id, old(self)@, vals(args@), node@),
            final(self).frames@.len() == old(self).frames@.len(),
    {
        let ghost s = self@;
        let i: usize = self.frames.len() - 1;
        let ghost before = self.frames@;
        assert(before[i as int]@ == top_frame(s));
        let locals_start: usize = self.frames[i].locals_start;
        let slab_start: usize = self.frames[i].stack_record_arena_start;
        let stack_base: usize = self.frames[i].stack_base;
        let memo_key = self.frames[i].memo_key;
        cut_values(&mut self.locals, locals_start);
        cut_values(&mut self.slab, slab_start);
        let n: usize = locals_len(f);
        push_locals(&mut self.locals, args, n);
        let frame = Frame {
            fn_id,
            pc: 0,
            locals_start,
            locals_len: n,
            stack_base,
            trace_kind: FrameKind::Call(node),
            memo_key,
            stack_record_arena_start: slab_start,
            stack_record_budget_remaining: STACK_RECORD_BUDGET_SLOTS,
        };
        let ghost view = frame@;
        self.frames[i] = frame;
        assert(frame_views(self.frames@) =~= frame_views(before).update(i as int, view));
    }

    /// Drops everything above what was there before.
    pub fn unwind(
        &mut self,
        frames: usize,
        stack: usize,
        locals: usize,
        slab: usize,
        before: Ghost<State>,
    )
        requires
            frames == before@.frames.len(),
            stack == before@.stack.len(),
            locals == before@.locals.len(),
            slab == before@.slab.len(),
        ensures
            final(self)@ == unwound(old(self)@, before@),
    {
        let ghost old_frames = self.frames@;
        self.frames.truncate(frames);
        assert(frames <= old_frames.len() ==> frame_views(self.frames@) =~= frame_views(
            old_frames,
        ).take(frames as int));
        cut_values(&mut self.stack, stack);
        cut_values(&mut self.locals, locals);
        cut_values(&mut self.slab, slab);
    }
}

} // verus!
