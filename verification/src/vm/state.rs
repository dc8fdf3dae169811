//! The state of the machine: operands, frames, locals and slabs.

use vstd::prelude::*;

use crate::value::{vals, Val, Value};
use crate::vm::ic_stats::{with_hit, IcStats};

verus! {

/// The largest number of frames that can be active at once.
pub const MAX_CALL_DEPTH: u32 = 1024;

/// How many slab slots one frame may fill before its stack allocations fall
/// back to the heap.
pub const STACK_RECORD_BUDGET_SLOTS: u32 = 64;

/// How a frame was opened.
#[derive(Debug)]
pub enum FrameKind {
    /// By the host.
    Entry,
    /// By a call op with this node id.
    Call(String),
}

#[derive(Debug)]
pub struct Frame {
    pub fn_id: u32,
    pub pc: usize,
    /// Where the locals of the frame start.
    pub locals_start: usize,
    pub locals_len: usize,
    /// How many operands lay on the stack when the frame was opened.
    pub stack_base: usize,
    pub trace_kind: FrameKind,
    /// Where the result is to be remembered, for a call that was looked up and
    /// not found.
    pub memo_key: Option<(u32, [u8; 16])>,
    /// Where the slab slots of the frame start.
    pub stack_record_arena_start: usize,
    /// How many slab slots the frame may still fill.
    pub stack_record_budget_remaining: u32,
}

/// A frame, seen as a mathematical object.
pub struct FrameView {
    pub fn_id: u32,
    pub pc: nat,
    pub locals_start: nat,
    pub locals_len: nat,
    pub stack_base: nat,
    /// The node id of the call that opened the frame, if it was a call.
    pub node: Option<Seq<char>>,
    pub memo_key: Option<(u32, Seq<u8>)>,
    pub slab_start: nat,
    pub budget: nat,
}

pub open spec fn memo_key_view(k: Option<(u32, [u8; 16])>) -> Option<(u32, Seq<u8>)> {
    match k {
        Some(pair) => Some((pair.0, pair.1@)),
        None => None,
    }
}

impl View for Frame {
    type V = FrameView;

    open spec fn view(&self) -> FrameView {
        FrameView {
            fn_id: self.fn_id,
            pc: self.pc as nat,
            locals_start: self.locals_start as nat,
            locals_len: self.locals_len as nat,
            stack_base: self.stack_base as nat,
            node: match self.trace_kind {
                FrameKind::Entry => None,
                FrameKind::Call(node) => Some(node@),
            },
            memo_key: memo_key_view(self.memo_key),
            slab_start: self.stack_record_arena_start as nat,
            budget: self.stack_record_budget_remaining as nat,
        }
    }
}

pub open spec fn frame_views(v: Seq<Frame>) -> Seq<FrameView> {
    Seq::new(v.len(), |i: int| v[i]@)
}

/// How often records and tuples were built, and where.
#[derive(Debug, Clone, Copy, PartialEq, Eq, Structural)]
pub struct AllocCounts {
    pub stack_record_allocs: u64,
    pub stack_record_heap_fallbacks: u64,
    pub heap_record_allocs: u64,
    pub arena_record_allocs: u64,
    pub arena_record_heap_fallbacks: u64,
}

/// A counter that stops at the largest number.
pub open spec fn tick(x: u64) -> u64 {
    if x < u64::MAX {
        (x + 1) as u64
    } else {
        x
    }
}

pub(crate) fn ticked(x: u64) -> (y: u64)
    ensures
        y == tick(x),
{
    if x < u64::MAX {
        x + 1
    } else {
        x
    }
}

/// What the ops of a function work on.
pub struct Machine {
    /// Operands.
    pub stack: Vec<Value>,
    pub frames: Vec<Frame>,
    /// The locals of all frames, one frame after the other.
    pub locals: Vec<Value>,
    /// The fields of stack records and the elements of stack tuples of all
    /// frames, one frame after the other.
    pub slab: Vec<Value>,
    /// The fields of arena records and the elements of arena tuples.
    pub arena: Vec<Value>,
    /// The size of the arena when each open request scope was entered.
    pub scopes: Vec<usize>,
    pub counts: AllocCounts,
    /// The field accesses, if they are counted.
    pub hits: Option<IcStats>,
}

/// The machine, seen as a mathematical object.
pub struct State {
    pub stack: Seq<Val>,
    pub frames: Seq<FrameView>,
    pub locals: Seq<Val>,
    pub slab: Seq<Val>,
    pub arena: Seq<Val>,
    pub scopes: Seq<usize>,
    pub counts: AllocCounts,
    /// How often each site met each shape, by function, site and shape.
    pub hits: Option<Map<(u32, u32, u32), u64>>,
}

impl View for Machine {
    type V = State;

    open spec fn view(&self) -> State {
        State {
            stack: vals(self.stack@),
            frames: frame_views(self.frames@),
            locals: vals(self.locals@),
            slab: vals(self.slab@),
            arena: vals(self.arena@),
            scopes: self.scopes@,
            counts: self.counts,
            hits: hits_view(self.hits),
        }
    }
}

pub open spec fn hits_view(h: Option<IcStats>) -> Option<Map<(u32, u32, u32), u64>> {
    match h {
        Some(stats) => Some(stats@),
        None => None,
    }
}

/// The shape of a record.
pub open spec fn record_shape(v: Val) -> Option<u32> {
    match v {
        Val::Record { shape_id, .. } => Some(shape_id),
        Val::StackRecord { shape_id, .. } => Some(shape_id),
        Val::ArenaRecord { shape_id, .. } => Some(shape_id),
        _ => None,
    }
}

/// The state after a site of the running function met a value: a record is
/// counted, if accesses are counted.
pub open spec fn met(s: State, site_idx: u32, v: Val) -> State {
    match (s.hits, record_shape(v)) {
        (Some(m), Some(shape_id)) => State {
            hits: Some(with_hit(m, top_frame(s).fn_id, site_idx, shape_id)),
            ..s
        },
        _ => s,
    }
}

/// The state with one more operand.
pub open spec fn push(s: State, v: Val) -> State {
    State { stack: s.stack.push(v), ..s }
}

/// The state without its `n` topmost operands.
pub open spec fn drop_top(s: State, n: nat) -> State {
    State { stack: s.stack.take(s.stack.len() - n), ..s }
}

/// The `n` topmost operands, the deepest first.
pub open spec fn top_values(s: State, n: nat) -> Seq<Val> {
    s.stack.skip(s.stack.len() - n)
}

/// The operand `k` places below the top.
pub open spec fn operand(s: State, k: nat) -> Val {
    s.stack[s.stack.len() - 1 - k]
}

/// The frame that runs.
pub open spec fn top_frame(s: State) -> FrameView {
    s.frames.last()
}

pub open spec fn with_top_frame(s: State, f: FrameView) -> State {
    State { frames: s.frames.update(s.frames.len() - 1, f), ..s }
}

/// The state with the running frame at another slot of its code.
pub open spec fn goto(s: State, pc: nat) -> State {
    with_top_frame(s, FrameView { pc, ..top_frame(s) })
}

/// Where a local of the running frame is held.
pub open spec fn local_slot(s: State, i: u16) -> int {
    top_frame(s).locals_start + i
}

pub open spec fn has_local(s: State, i: u16) -> bool {
    local_slot(s, i) < s.locals.len()
}

pub open spec fn local(s: State, i: u16) -> Val {
    s.locals[local_slot(s, i)]
}

pub open spec fn set_local(s: State, i: u16, v: Val) -> State {
    State { locals: s.locals.update(local_slot(s, i), v), ..s }
}

pub proof fn lemma_vals_push(v: Seq<Value>, x: Value)
    ensures
        vals(v.push(x)) == vals(v).push(x@),
{
    assert(vals(v.push(x)) =~= vals(v).push(x@));
}

pub proof fn lemma_vals_update(v: Seq<Value>, i: int, x: Value)
    requires
        0 <= i < v.len(),
    ensures
        vals(v.update(i, x)) == vals(v).update(i, x@),
{
    assert(vals(v.update(i, x)) =~= vals(v).update(i, x@));
}

pub proof fn lemma_vals_take(v: Seq<Value>, n: int)
    requires
        0 <= n <= v.len(),
    ensures
        vals(v.take(n)) == vals(v).take(n),
        vals(v.skip(n)) == vals(v).skip(n),
{
    assert(vals(v.take(n)) =~= vals(v).take(n));
    assert(vals(v.skip(n)) =~= vals(v).skip(n));
}

pub proof fn lemma_vals_add(v: Seq<Value>, w: Seq<Value>)
    ensures
        vals(v + w) == vals(v) + vals(w),
{
    assert(vals(v + w) =~= vals(v) + vals(w));
}

impl Machine {
    /// Pushes an operand.
    pub fn push(&mut self, v: Value)
        ensures
            final(self)@ == push(old(self)@, v@),
    {
        proof {
            lemma_vals_push(self.stack@, v);
        }
        self.stack.push(v);
    }

    /// Takes the `n` topmost operands off the stack, the deepest first.
    pub fn take_top(&mut self, n: usize) -> (out: Vec<Value>)
        requires
            n <= old(self).stack@.len(),
        ensures
            final(self)@ == drop_top(old(self)@, n as nat),
            vals(out@) == top_values(old(self)@, n as nat),
            final(self).frames == old(self).frames,
            final(self).locals == old(self).locals,
            final(self).slab == old(self).slab,
            final(self).arena == old(self).arena,
            final(self).scopes == old(self).scopes,
            final(self).counts == old(self).counts,
            final(self).hits == old(self).hits,
            final(self).stack@ == old(self).stack@.take(old(self).stack@.len() - n),
    {
        let at: usize = self.stack.len() - n;
        proof {
            lemma_vals_take(self.stack@, at as int);
        }
        let out = self.stack.split_off(at);
        assert(self.stack@ == old(self).stack@.take(at as int));
        assert(out@ == old(self).stack@.skip(at as int));
        out
    }

    /// Takes the topmost operand.
    pub fn take_one(&mut self) -> (v: Value)
        requires
            old(self).stack@.len() >= 1,
        ensures
            final(self)@ == drop_top(old(self)@, 1),
            v@ == operand(old(self)@, 0),
            final(self).stack@ == old(self).stack@.drop_last(),
            final(self).frames == old(self).frames,
            final(self).locals == old(self).locals,
            final(self).slab == old(self).slab,
            final(self).arena == old(self).arena,
            final(self).scopes == old(self).scopes,
            final(self).counts == old(self).counts,
            final(self).hits == old(self).hits,
    {
        proof {
            lemma_vals_take(self.stack@, self.stack@.len() - 1);
        }
        let v = self.stack.pop();
        assert(self.stack@ =~= old(self).stack@.take(old(self).stack@.len() - 1));
        v.unwrap()
    }

    /// Counts the access of a site to a record of a shape, if accesses are
    /// counted.
    pub fn record_ic_hit(&mut self, site_idx: u32, shape_id: Option<u32>)
        requires
            old(self).frames@.len() > 0,
        ensures
            forall|v: Val| record_shape(v) == shape_id ==> final(self)@ == #[trigger] met(
                old(self)@,
                site_idx,
                v,
            ),
            final(self).frames == old(self).frames,
            final(self).stack == old(self).stack,
            final(self).locals == old(self).locals,
            final(self).slab == old(self).slab,
            final(self).arena == old(self).arena,
            final(self).scopes == old(self).scopes,
            final(self).counts == old(self).counts,
    {
        let fn_id = self.frames[self.frames.len() - 1].fn_id;
        let mut hits: Option<IcStats> = None;
        std::mem::swap(&mut self.hits, &mut hits);
        match (hits, shape_id) {
            (Some(stats), Some(shape_id)) => {
                let mut stats = stats;
                stats.record(fn_id, site_idx, shape_id);
                self.hits = Some(stats);
            },
            (hits, _) => {
                self.hits = hits;
            },
        }
    }

    /// Moves the running frame to another slot.
    pub fn go(&mut self, pc: usize)
        requires
            old(self).frames@.len() > 0,
        ensures
            final(self)@ == goto(old(self)@, pc as nat),
            final(self).frames@.len() == old(self).frames@.len(),
            final(self).stack == old(self).stack,
            final(self).locals == old(self).locals,
            final(self).slab == old(self).slab,
            final(self).arena == old(self).arena,
            final(self).scopes == old(self).scopes,
            final(self).counts == old(self).counts,
            final(self).hits == old(self).hits,
    {
        let i: usize = self.frames.len() - 1;
        self.frames[i].pc = pc;
        assert(frame_views(self.frames@) =~= goto(old(self)@, pc as nat).frames);
    }
}

} // verus!
