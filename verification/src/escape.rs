//! Escape analysis for stack-allocatable aggregates, that is records and
//! tuples.
//!
//! The analysis interprets a function body abstractly. Every stack slot and
//! every local holds either an aggregate that was allocated at a known pc and
//! is still local, or something else. Control-flow joins merge two states slot
//! by slot; a slot on which they differ is no longer tracked, and the sites it
//! held escape. A worklist iterates until no state changes.
//!
//! [`derivable`] says which states the interpretation can produce,
//! [`flagged`] which sites leak from one of them, and [`is_solution`] what the
//! result of the worklist satisfies. The two meet in
//! [`law_solution_is_exact`].

use std::collections::HashSet;
use vstd::prelude::*;

use crate::op::{resolve_jump, Op};
use crate::program::Function;
use crate::site_index::SiteIndex;

verus! {

broadcast use vstd::std_specs::hash::group_hash_axioms;

/// Abstract value of a stack slot or a local.
#[derive(Debug, Clone, Copy, PartialEq, Eq, Hash, Structural)]
pub enum Slot {
    /// The aggregate allocated at this pc, still local.
    Agg(u32),
    /// Anything else.
    Other,
}

/// What a slot holds behind a join of two paths.
pub open spec fn slot_merge(a: Slot, b: Slot) -> Slot {
    if a == b {
        a
    } else {
        Slot::Other
    }
}

impl Slot {
    /// Merge at a join: the same site survives, anything else is `Other`.
    pub fn merge(self, other: Slot) -> (merged: Slot)
        ensures
            merged == slot_merge(self, other),
    {
        match (self, other) {
            (Slot::Agg(a), Slot::Agg(b)) => if a == b {
                Slot::Agg(a)
            } else {
                Slot::Other
            },
            _ => Slot::Other,
        }
    }
}

/// Where a tracked aggregate stops being local.
#[derive(Debug, Clone, Copy, PartialEq, Eq, Structural)]
pub enum Policy {
    /// The aggregate must not leave the function's frame.
    Frame,
    /// The aggregate must not leave the request: returning it is no escape.
    RequestScope,
}

/// Abstract state at a program point: the value stack from the bottom up, and
/// the locals.
#[verifier::ext_equal]
pub struct AbsState {
    pub stack: Seq<Slot>,
    pub locals: Seq<Slot>,
}

/// The slot at `i`; a local that was never written holds `Other`.
pub open spec fn local_at(locals: Seq<Slot>, i: int) -> Slot {
    if 0 <= i < locals.len() {
        locals[i]
    } else {
        Slot::Other
    }
}

pub open spec fn min_len(a: Seq<Slot>, b: Seq<Slot>) -> nat {
    if a.len() <= b.len() {
        a.len()
    } else {
        b.len()
    }
}

pub open spec fn max_len(a: Seq<Slot>, b: Seq<Slot>) -> nat {
    if a.len() >= b.len() {
        a.len()
    } else {
        b.len()
    }
}

/// Slot-wise merge. Stacks of different depth are cut to the shorter one.
pub open spec fn merge_states(a: AbsState, b: AbsState) -> AbsState {
    AbsState {
        stack: Seq::new(min_len(a.stack, b.stack), |i: int| slot_merge(a.stack[i], b.stack[i])),
        locals: Seq::new(
            max_len(a.locals, b.locals),
            |i: int| slot_merge(local_at(a.locals, i), local_at(b.locals, i)),
        ),
    }
}

/// The merge loses track of the site `p` at stack depth `i`.
pub open spec fn stack_loses(a: Seq<Slot>, b: Seq<Slot>, i: int, p: u32) -> bool {
    if i < min_len(a, b) {
        0 <= i && a[i] != b[i] && (a[i] == Slot::Agg(p) || b[i] == Slot::Agg(p))
    } else {
        ||| i < a.len() && a[i] == Slot::Agg(p)
        ||| i < b.len() && b[i] == Slot::Agg(p)
    }
}

/// The merge loses track of the site `p` at local `i`.
pub open spec fn local_loses(a: Seq<Slot>, b: Seq<Slot>, i: int, p: u32) -> bool {
    &&& 0 <= i
    &&& local_at(a, i) != local_at(b, i)
    &&& local_at(a, i) == Slot::Agg(p) || local_at(b, i) == Slot::Agg(p)
}

/// The merge loses track of the site `p`.
pub open spec fn merge_loses(a: AbsState, b: AbsState, p: u32) -> bool {
    ||| exists|i: int| #[trigger] stack_loses(a.stack, b.stack, i, p)
    ||| exists|i: int| #[trigger] local_loses(a.locals, b.locals, i, p)
}

/// The state on entry: an empty stack, and locals whose values the caller
/// allocated.
pub open spec fn entry_state(locals_count: u16, arity: u16) -> AbsState {
    AbsState {
        stack: Seq::empty(),
        locals: Seq::new(
            if locals_count >= arity { locals_count as nat } else { arity as nat },
            |i: int| Slot::Other,
        ),
    }
}

/// The stack without its top `k` slots.
pub open spec fn without_top(stack: Seq<Slot>, k: nat) -> Seq<Slot> {
    if k <= stack.len() {
        stack.take(stack.len() - k)
    } else {
        Seq::empty()
    }
}

/// The site `p` is among the top `k` slots.
pub open spec fn in_top(stack: Seq<Slot>, k: nat, p: u32) -> bool {
    exists|i: int|
        0 <= i < stack.len() && stack.len() - k <= i && #[trigger] stack[i] == Slot::Agg(p)
}

/// The locals after a write.
pub open spec fn write_local(locals: Seq<Slot>, i: nat, v: Slot) -> Seq<Slot> {
    if i < locals.len() {
        locals.update(i as int, v)
    } else {
        (locals + Seq::new((i - locals.len()) as nat, |j: int| Slot::Other)).push(v)
    }
}

/// How many slots the op takes off the stack.
pub open spec fn op_pops(op: Op) -> nat {
    match op {
        Op::PushConst(_) | Op::LoadLocal(_) | Op::TakeLocal(_) | Op::Jump(_) | Op::Panic(_) => 0,
        Op::LoadLocalAddIntConst { .. }
        | Op::LoadLocalAddIntConstStoreLocal { .. }
        | Op::LoadLocalAddLocal { .. }
        | Op::LoadLocalSubLocal { .. }
        | Op::LoadLocalMulLocal { .. }
        | Op::LoadLocalGetField { .. }
        | Op::LoadLocalEqIntConstJumpIfNot { .. }
        | Op::LoadLocalStoreEqIntConstJumpIfNot { .. } => 0,
        Op::MakeRecord { field_count, .. }
        | Op::AllocStackRecord { field_count, .. }
        | Op::AllocArenaRecord { field_count, .. } => field_count as nat,
        Op::MakeTuple(n) => n as nat,
        Op::AllocStackTuple { arity } | Op::AllocArenaTuple { arity } => arity as nat,
        Op::MakeList(n) => n as nat,
        Op::MakeVariant { arity, .. } => arity as nat,
        Op::MakeClosure { capture_count, .. } => capture_count as nat,
        Op::Call { arity, .. } | Op::TailCall { arity, .. } | Op::EffectCall { arity, .. } =>
            arity as nat,
        Op::CallClosure { arity, .. } => arity as nat + 1,
        Op::ListFold { .. } => 3,
        Op::SortByKey { .. }
        | Op::ParallelMap { .. }
        | Op::ListMap { .. }
        | Op::ListFilter { .. }
        | Op::ListAppend
        | Op::GetListElemDyn => 2,
        Op::IntAdd
        | Op::IntSub
        | Op::IntMul
        | Op::IntDiv
        | Op::IntMod
        | Op::IntEq
        | Op::IntLt
        | Op::IntLe
        | Op::FloatAdd
        | Op::FloatSub
        | Op::FloatMul
        | Op::FloatDiv
        | Op::FloatEq
        | Op::FloatLt
        | Op::FloatLe
        | Op::NumAdd
        | Op::NumSub
        | Op::NumMul
        | Op::NumDiv
        | Op::NumMod
        | Op::NumEq
        | Op::NumLt
        | Op::NumLe
        | Op::BoolAnd
        | Op::BoolOr
        | Op::StrConcat
        | Op::StrEq
        | Op::BytesEq => 2,
        _ => 1,
    }
}

/// How many of the popped slots, from the top, leave the frame.
pub open spec fn op_leaked_pops(policy: Policy, op: Op) -> nat {
    match op {
        Op::Dup => 1,
        Op::Return => if policy == Policy::Frame {
            1
        } else {
            0
        },
        // The appended value ends up inside the list.
        Op::ListAppend => 1,
        Op::MakeRecord { .. }
        | Op::AllocStackRecord { .. }
        | Op::AllocArenaRecord { .. }
        | Op::MakeTuple(_)
        | Op::AllocStackTuple { .. }
        | Op::AllocArenaTuple { .. }
        | Op::MakeList(_)
        | Op::MakeVariant { .. }
        | Op::MakeClosure { .. }
        | Op::Call { .. }
        | Op::TailCall { .. }
        | Op::EffectCall { .. }
        | Op::CallClosure { .. }
        | Op::SortByKey { .. }
        | Op::ParallelMap { .. }
        | Op::ListMap { .. }
        | Op::ListFilter { .. }
        | Op::ListFold { .. } => op_pops(op),
        _ => 0,
    }
}

/// The op is an aggregate constructor, in any of its allocation tiers.
pub open spec fn is_alloc(op: Op) -> bool {
    match op {
        Op::MakeRecord { .. }
        | Op::AllocStackRecord { .. }
        | Op::AllocArenaRecord { .. }
        | Op::MakeTuple(_)
        | Op::AllocStackTuple { .. }
        | Op::AllocArenaTuple { .. } => true,
        _ => false,
    }
}

/// What the op pushes, given the state it runs on.
pub open spec fn op_pushes(pc: nat, op: Op, s: AbsState) -> Seq<Slot> {
    match op {
        Op::LoadLocal(i) | Op::TakeLocal(i) => seq![local_at(s.locals, i as int)],
        Op::Dup => if s.stack.len() > 0 {
            seq![Slot::Other, Slot::Other]
        } else {
            Seq::empty()
        },
        Op::Pop
        | Op::StoreLocal(_)
        | Op::Jump(_)
        | Op::JumpIf(_)
        | Op::JumpIfNot(_)
        | Op::Return
        | Op::Panic(_)
        | Op::TailCall { .. }
        | Op::LoadLocalAddIntConstStoreLocal { .. }
        | Op::LoadLocalEqIntConstJumpIfNot { .. }
        | Op::LoadLocalStoreEqIntConstJumpIfNot { .. } => Seq::empty(),
        _ => if is_alloc(op) {
            seq![Slot::Agg(pc as u32)]
        } else {
            seq![Slot::Other]
        },
    }
}

/// The locals behind the op.
pub open spec fn op_locals(op: Op, s: AbsState) -> Seq<Slot> {
    match op {
        Op::TakeLocal(i) => if i < s.locals.len() {
            s.locals.update(i as int, Slot::Other)
        } else {
            s.locals
        },
        Op::StoreLocal(i) => if s.stack.len() > 0 {
            write_local(s.locals, i as nat, s.stack.last())
        } else {
            s.locals
        },
        Op::LoadLocalAddIntConstStoreLocal { dest, .. } => write_local(
            s.locals,
            dest as nat,
            Slot::Other,
        ),
        Op::LoadLocalStoreEqIntConstJumpIfNot { dst, .. } => write_local(
            s.locals,
            dst as nat,
            Slot::Other,
        ),
        _ => s.locals,
    }
}

/// The state behind the op.
pub open spec fn step_state(pc: nat, op: Op, s: AbsState) -> AbsState {
    AbsState {
        stack: without_top(s.stack, op_pops(op)) + op_pushes(pc, op, s),
        locals: op_locals(op, s),
    }
}

/// The site `p` escapes when the op runs on `s`.
pub open spec fn step_leaks(policy: Policy, op: Op, s: AbsState, p: u32) -> bool {
    in_top(s.stack, op_leaked_pops(policy, op), p)
}

/// The pc that control falls through to, if the body goes that far.
pub open spec fn fall_through(t: nat, n: nat) -> Seq<nat> {
    if t < n {
        seq![t]
    } else {
        Seq::empty()
    }
}

pub open spec fn opt_target(t: Option<nat>) -> Seq<nat> {
    match t {
        Some(t) => seq![t],
        None => Seq::empty(),
    }
}

/// The pcs that control can reach next, inside a body of `n` ops.
pub open spec fn successors(pc: nat, op: Op, n: nat) -> Seq<nat> {
    match op {
        Op::Jump(off) => opt_target(crate::op::jump_target(pc + 1, off, n)),
        Op::JumpIf(off) | Op::JumpIfNot(off) => fall_through(pc + 1, n) + opt_target(
            crate::op::jump_target(pc + 1, off, n),
        ),
        Op::Return | Op::Panic(_) | Op::TailCall { .. } => Seq::empty(),
        Op::LoadLocalAddIntConstStoreLocal { .. } => fall_through(pc + 4, n),
        Op::LoadLocalAddLocal { .. }
        | Op::LoadLocalSubLocal { .. }
        | Op::LoadLocalMulLocal { .. }
        | Op::LoadLocalGetFieldAdd { .. }
        | Op::LoadLocalGetFieldSub { .. }
        | Op::LoadLocalGetFieldMul { .. } => fall_through(pc + 3, n),
        Op::LoadLocalGetField { .. } => fall_through(pc + 2, n),
        Op::LoadLocalEqIntConstJumpIfNot { jump_offset, .. } => fall_through(pc + 4, n)
            + opt_target(crate::op::jump_target(pc + 4, jump_offset, n)),
        Op::LoadLocalStoreEqIntConstJumpIfNot { jump_offset, .. } => fall_through(pc + 6, n)
            + opt_target(crate::op::jump_target(pc + 6, jump_offset, n)),
        _ => fall_through(pc + 1, n),
    }
}

/// Executable form of [`AbsState`].
#[derive(Debug)]
pub struct State {
    pub stack: Vec<Slot>,
    pub locals: Vec<Slot>,
}

impl View for State {
    type V = AbsState;

    open spec fn view(&self) -> AbsState {
        AbsState { stack: self.stack@, locals: self.locals@ }
    }
}

/// Records the site of a slot that leaks.
fn leak(slot: Slot, escapes: &mut HashSet<u32>)
    ensures
        forall|p: u32| #[trigger]
            final(escapes)@.contains(p) <==> old(escapes)@.contains(p) || slot == Slot::Agg(p),
{
    if let Slot::Agg(p) = slot {
        escapes.insert(p);
    }
}

fn slot_at(locals: &Vec<Slot>, i: usize) -> (slot: Slot)
    ensures
        slot == local_at(locals@, i as int),
{
    if i < locals.len() {
        locals[i]
    } else {
        Slot::Other
    }
}

impl State {
    pub fn entry(locals_count: usize, arity: usize) -> (s: State)
        requires
            locals_count <= u16::MAX,
            arity <= u16::MAX,
        ensures
            s@ == entry_state(locals_count as u16, arity as u16),
    {
        let n: usize = if locals_count >= arity {
            locals_count
        } else {
            arity
        };
        let mut locals: Vec<Slot> = Vec::new();
        let mut i: usize = 0;
        while i < n
            invariant
                i <= n,
                locals@ == Seq::new(i as nat, |j: int| Slot::Other),
            decreases n - i,
        {
            locals.push(Slot::Other);
            i = i + 1;
            assert(locals@ =~= Seq::new(i as nat, |j: int| Slot::Other));
        }
        let s = State { stack: Vec::new(), locals };
        assert(s@ =~= entry_state(locals_count as u16, arity as u16));
        s
    }

    fn duplicate(&self) -> (s: State)
        ensures
            s@ == self@,
    {
        let s = State { stack: self.stack.clone(), locals: self.locals.clone() };
        assert(s.stack@ =~= self.stack@);
        assert(s.locals@ =~= self.locals@);
        s
    }

    fn same(&self, other: &State) -> (eq: bool)
        ensures
            eq <==> self@ == other@,
    {
        if self.stack.len() != other.stack.len() || self.locals.len() != other.locals.len() {
            return false;
        }
        let mut i: usize = 0;
        while i < self.stack.len()
            invariant
                i <= self.stack.len(),
                self.stack.len() == other.stack.len(),
                forall|j: int| 0 <= j < i ==> self.stack@[j] == other.stack@[j],
            decreases self.stack.len() - i,
        {
            if self.stack[i] != other.stack[i] {
                return false;
            }
            i = i + 1;
        }
        let mut k: usize = 0;
        while k < self.locals.len()
            invariant
                k <= self.locals.len(),
                self.locals.len() == other.locals.len(),
                forall|j: int| 0 <= j < k ==> self.locals@[j] == other.locals@[j],
            decreases self.locals.len() - k,
        {
            if self.locals[k] != other.locals[k] {
                return false;
            }
            k = k + 1;
        }
        assert(self@ =~= other@);
        true
    }

    /// Merges two states at a join and records the sites that were lost track
    /// of.
    pub fn merge_with(&self, other: &State, escaped: &mut HashSet<u32>) -> (merged: State)
        ensures
            merged@ == merge_states(self@, other@),
            forall|p: u32| #[trigger]
                final(escaped)@.contains(p) <==> old(escaped)@.contains(p) || merge_loses(
                    self@,
                    other@,
                    p,
                ),
    {
        let ghost before = escaped@;
        let ghost a = self.stack@;
        let ghost b = other.stack@;
        let stack_len: usize = if self.stack.len() <= other.stack.len() {
            self.stack.len()
        } else {
            other.stack.len()
        };
        let full_len: usize = if self.stack.len() >= other.stack.len() {
            self.stack.len()
        } else {
            other.stack.len()
        };
        let mut stack: Vec<Slot> = Vec::new();
        let mut i: usize = 0;
        while i < full_len
            invariant
                i <= full_len,
                a == self.stack@,
                b == other.stack@,
                stack_len == min_len(a, b),
                full_len == max_len(a, b),
                stack@ == Seq::new(
                    if i < stack_len { i as nat } else { stack_len as nat },
                    |j: int| slot_merge(a[j], b[j]),
                ),
                forall|p: u32| #[trigger]
                    escaped@.contains(p) <==> before.contains(p) || (exists|j: int|
                        j < i && #[trigger] stack_loses(a, b, j, p)),
            decreases full_len - i,
        {
            let ghost prev = escaped@;
            if i < stack_len {
                let merged = self.stack[i].merge(other.stack[i]);
                if self.stack[i] != other.stack[i] {
                    leak(self.stack[i], escaped);
                    leak(other.stack[i], escaped);
                }
                stack.push(merged);
            } else if i < self.stack.len() {
                leak(self.stack[i], escaped);
            } else {
                leak(other.stack[i], escaped);
            }
            proof {
                assert forall|p: u32| #[trigger]
                    escaped@.contains(p) <==> before.contains(p) || (exists|j: int|
                        j < i + 1 && #[trigger] stack_loses(a, b, j, p)) by {
                    assert(escaped@.contains(p) <==> prev.contains(p) || stack_loses(
                        a,
                        b,
                        i as int,
                        p,
                    ));
                }
            }
            i = i + 1;
            assert(stack@ =~= Seq::new(
                if i < stack_len { i as nat } else { stack_len as nat },
                |j: int| slot_merge(a[j], b[j]),
            ));
        }
        let ghost mid = escaped@;
        proof {
            assert forall|p: u32| #[trigger]
                mid.contains(p) <==> before.contains(p) || (exists|j: int| #[trigger]
                    stack_loses(a, b, j, p)) by {
                if exists|j: int| #[trigger] stack_loses(a, b, j, p) {
                    let j = choose|j: int| #[trigger] stack_loses(a, b, j, p);
                    assert(j < full_len);
                }
            }
        }
        let ghost la = self.locals@;
        let ghost lb = other.locals@;
        let local_len: usize = if self.locals.len() >= other.locals.len() {
            self.locals.len()
        } else {
            other.locals.len()
        };
        let mut locals: Vec<Slot> = Vec::new();
        let mut k: usize = 0;
        while k < local_len
            invariant
                k <= local_len,
                la == self.locals@,
                lb == other.locals@,
                local_len == max_len(la, lb),
                locals@ == Seq::new(
                    k as nat,
                    |j: int| slot_merge(local_at(la, j), local_at(lb, j)),
                ),
                forall|p: u32| #[trigger]
                    escaped@.contains(p) <==> mid.contains(p) || (exists|j: int|
                        j < k && #[trigger] local_loses(la, lb, j, p)),
            decreases local_len - k,
        {
            let ghost prev = escaped@;
            let x = slot_at(&self.locals, k);
            let y = slot_at(&other.locals, k);
            if x != y {
                leak(x, escaped);
                leak(y, escaped);
            }
            locals.push(x.merge(y));
            proof {
                assert forall|p: u32| #[trigger]
                    escaped@.contains(p) <==> mid.contains(p) || (exists|j: int|
                        j < k + 1 && #[trigger] local_loses(la, lb, j, p)) by {
                    assert(escaped@.contains(p) <==> prev.contains(p) || local_loses(
                        la,
                        lb,
                        k as int,
                        p,
                    ));
                }
            }
            k = k + 1;
            assert(locals@ =~= Seq::new(
                k as nat,
                |j: int| slot_merge(local_at(la, j), local_at(lb, j)),
            ));
        }
        proof {
            assert forall|p: u32| #[trigger]
                escaped@.contains(p) <==> before.contains(p) || merge_loses(self@, other@, p) by {
                if exists|j: int| #[trigger] local_loses(la, lb, j, p) {
                    let j = choose|j: int| #[trigger] local_loses(la, lb, j, p);
                    assert(j < k);
                    assert(escaped@.contains(p));
                }
                if escaped@.contains(p) && !mid.contains(p) {
                    let j = choose|j: int| j < k && #[trigger] local_loses(la, lb, j, p);
                    assert(local_loses(self@.locals, other@.locals, j, p));
                }
                assert(escaped@.contains(p) <==> mid.contains(p) || (exists|j: int| #[trigger]
                    local_loses(la, lb, j, p)));
                assert(mid.contains(p) <==> before.contains(p) || (exists|j: int| #[trigger]
                    stack_loses(a, b, j, p)));
                assert(self@.stack == a && other@.stack == b);
                assert(self@.locals == la && other@.locals == lb);
                assert(merge_loses(self@, other@, p) <==> (exists|j: int| #[trigger]
                    stack_loses(self@.stack, other@.stack, j, p)) || (exists|j: int| #[trigger]
                    local_loses(self@.locals, other@.locals, j, p)));
            }
        }
        let merged = State { stack, locals };
        assert(merged@ =~= merge_states(self@, other@));
        merged
    }

    /// Pops `n` slots, or all of them if there are fewer, and records as
    /// escaped the sites among the first `leaked` of them.
    fn pop_n(&mut self, n: usize, leaked: usize, escapes: &mut HashSet<u32>)
        requires
            leaked <= n,
        ensures
            final(self).stack@ == without_top(old(self).stack@, n as nat),
            final(self).locals@ == old(self).locals@,
            forall|p: u32| #[trigger]
                final(escapes)@.contains(p) <==> old(escapes)@.contains(p) || in_top(
                    old(self).stack@,
                    leaked as nat,
                    p,
                ),
    {
        let ghost s0 = self.stack@;
        let ghost before = escapes@;
        let mut i: usize = 0;
        while i < n
            invariant
                i <= n,
                leaked <= n,
                s0 == old(self).stack@,
                self.stack@ == without_top(s0, i as nat),
                self.locals@ == old(self).locals@,
                forall|p: u32| #[trigger]
                    escapes@.contains(p) <==> before.contains(p) || in_top(
                        s0,
                        if i < leaked { i as nat } else { leaked as nat },
                        p,
                    ),
            decreases n - i,
        {
            let ghost prev = escapes@;
            let ghost cur = self.stack@;
            let top = self.stack.pop();
            if let Some(slot) = top {
                if i < leaked {
                    leak(slot, escapes);
                }
            }
            proof {
                assert forall|p: u32| #[trigger]
                    escapes@.contains(p) <==> before.contains(p) || in_top(
                        s0,
                        if i + 1 < leaked { (i + 1) as nat } else { leaked as nat },
                        p,
                    ) by {
                    lemma_in_top_grows(s0, i as nat, p);
                }
                assert(self.stack@ =~= without_top(s0, (i + 1) as nat));
            }
            i = i + 1;
        }
    }

    fn write(&mut self, i: usize, v: Slot)
        requires
            i <= u16::MAX,
        ensures
            final(self).stack@ == old(self).stack@,
            final(self).locals@ == write_local(old(self).locals@, i as nat, v),
    {
        let ghost l0 = self.locals@;
        if i < self.locals.len() {
            self.locals.set(i, v);
        } else {
            while self.locals.len() < i
                invariant
                    l0.len() <= self.locals@.len() <= i,
                    self.stack@ == old(self).stack@,
                    self.locals@ == l0 + Seq::new(
                        (self.locals@.len() - l0.len()) as nat,
                        |j: int| Slot::Other,
                    ),
                decreases i - self.locals.len(),
            {
                self.locals.push(Slot::Other);
                assert(self.locals@ =~= l0 + Seq::new(
                    (self.locals@.len() - l0.len()) as nat,
                    |j: int| Slot::Other,
                ));
            }
            self.locals.push(v);
            assert(self.locals@ =~= write_local(l0, i as nat, v));
        }
    }
}

proof fn lemma_in_top_grows(s: Seq<Slot>, k: nat, p: u32)
    ensures
        in_top(s, k + 1, p) <==> in_top(s, k, p) || (k < s.len() && s[s.len() - k - 1]
            == Slot::Agg(p)),
{
    if k < s.len() && s[s.len() - k - 1] == Slot::Agg(p) {
        let i = s.len() - k - 1;
        assert(0 <= i < s.len() && s.len() - (k + 1) <= i && s[i] == Slot::Agg(p));
    }
}


fn pops_of(op: &Op) -> (k: usize)
    ensures
        k == op_pops(*op),
{
    match *op {
        Op::PushConst(_) | Op::LoadLocal(_) | Op::TakeLocal(_) | Op::Jump(_) | Op::Panic(_) => 0,
        Op::LoadLocalAddIntConst { .. }
        | Op::LoadLocalAddIntConstStoreLocal { .. }
        | Op::LoadLocalAddLocal { .. }
        | Op::LoadLocalSubLocal { .. }
        | Op::LoadLocalMulLocal { .. }
        | Op::LoadLocalGetField { .. }
        | Op::LoadLocalEqIntConstJumpIfNot { .. }
        | Op::LoadLocalStoreEqIntConstJumpIfNot { .. } => 0,
        Op::MakeRecord { field_count, .. }
        | Op::AllocStackRecord { field_count, .. }
        | Op::AllocArenaRecord { field_count, .. } => field_count as usize,
        Op::MakeTuple(n) => n as usize,
        Op::AllocStackTuple { arity } | Op::AllocArenaTuple { arity } => arity as usize,
        Op::MakeList(n) => n as usize,
        Op::MakeVariant { arity, .. } => arity as usize,
        Op::MakeClosure { capture_count, .. } => capture_count as usize,
        Op::Call { arity, .. } | Op::TailCall { arity, .. } | Op::EffectCall { arity, .. } =>
            arity as usize,
        Op::CallClosure { arity, .. } => arity as usize + 1,
        Op::ListFold { .. } => 3,
        Op::SortByKey { .. }
        | Op::ParallelMap { .. }
        | Op::ListMap { .. }
        | Op::ListFilter { .. }
        | Op::ListAppend
        | Op::GetListElemDyn => 2,
        Op::IntAdd
        | Op::IntSub
        | Op::IntMul
        | Op::IntDiv
        | Op::IntMod
        | Op::IntEq
        | Op::IntLt
        | Op::IntLe
        | Op::FloatAdd
        | Op::FloatSub
        | Op::FloatMul
        | Op::FloatDiv
        | Op::FloatEq
        | Op::FloatLt
        | Op::FloatLe
        | Op::NumAdd
        | Op::NumSub
        | Op::NumMul
        | Op::NumDiv
        | Op::NumMod
        | Op::NumEq
        | Op::NumLt
        | Op::NumLe
        | Op::BoolAnd
        | Op::BoolOr
        | Op::StrConcat
        | Op::StrEq
        | Op::BytesEq => 2,
        _ => 1,
    }
}

fn leaked_pops_of(policy: Policy, op: &Op) -> (k: usize)
    ensures
        k == op_leaked_pops(policy, *op),
        k <= op_pops(*op),
{
    match *op {
        Op::Dup => 1,
        Op::Return => if policy == Policy::Frame {
            1
        } else {
            0
        },
        Op::ListAppend => 1,
        Op::MakeRecord { .. }
        | Op::AllocStackRecord { .. }
        | Op::AllocArenaRecord { .. }
        | Op::MakeTuple(_)
        | Op::AllocStackTuple { .. }
        | Op::AllocArenaTuple { .. }
        | Op::MakeList(_)
        | Op::MakeVariant { .. }
        | Op::MakeClosure { .. }
        | Op::Call { .. }
        | Op::TailCall { .. }
        | Op::EffectCall { .. }
        | Op::CallClosure { .. }
        | Op::SortByKey { .. }
        | Op::ParallelMap { .. }
        | Op::ListMap { .. }
        | Op::ListFilter { .. }
        | Op::ListFold { .. } => pops_of(op),
        _ => 0,
    }
}

/// The successors as program counters, seen as numbers.
pub open spec fn pcs(v: Seq<usize>) -> Seq<nat> {
    v.map_values(|x: usize| x as nat)
}

fn push_fall_through(succs: &mut Vec<usize>, pc: usize, width: usize, n: usize)
    requires
        pc < n,
    ensures
        pcs(final(succs)@) == pcs(old(succs)@) + fall_through((pc + width) as nat, n as nat),
{
    if width < n - pc {
        succs.push(pc + width);
    }
    assert(pcs(succs@) =~= pcs(old(succs)@) + fall_through((pc + width) as nat, n as nat));
}

fn push_target(succs: &mut Vec<usize>, pc: usize, width: usize, off: i32, n: usize)
    ensures
        pcs(final(succs)@) == pcs(old(succs)@) + opt_target(
            crate::op::jump_target((pc + width) as nat, off, n as nat),
        ),
{
    let target = resolve_jump(pc, width, off, n);
    if let Some(t) = target {
        succs.push(t);
    }
    assert(pcs(succs@) =~= pcs(old(succs)@) + opt_target(
        crate::op::jump_target((pc + width) as nat, off, n as nat),
    ));
}

pub(crate) fn successors_of(pc: usize, op: &Op, n: usize) -> (succs: Vec<usize>)
    requires
        pc < n,
    ensures
        pcs(succs@) == successors(pc as nat, *op, n as nat),
        forall|i: int| 0 <= i < succs@.len() ==> #[trigger] succs@[i] < n,
{
    let mut succs: Vec<usize> = Vec::new();
    assert(pcs(succs@) =~= Seq::<nat>::empty());
    match *op {
        Op::Jump(off) => {
            push_target(&mut succs, pc, 1, off, n);
        },
        Op::JumpIf(off) | Op::JumpIfNot(off) => {
            push_fall_through(&mut succs, pc, 1, n);
            push_target(&mut succs, pc, 1, off, n);
        },
        Op::Return | Op::Panic(_) | Op::TailCall { .. } => {},
        Op::LoadLocalAddIntConstStoreLocal { .. } => {
            push_fall_through(&mut succs, pc, 4, n);
        },
        Op::LoadLocalAddLocal { .. }
        | Op::LoadLocalSubLocal { .. }
        | Op::LoadLocalMulLocal { .. }
        | Op::LoadLocalGetFieldAdd { .. }
        | Op::LoadLocalGetFieldSub { .. }
        | Op::LoadLocalGetFieldMul { .. } => {
            push_fall_through(&mut succs, pc, 3, n);
        },
        Op::LoadLocalGetField { .. } => {
            push_fall_through(&mut succs, pc, 2, n);
        },
        Op::LoadLocalEqIntConstJumpIfNot { jump_offset, .. } => {
            push_fall_through(&mut succs, pc, 4, n);
            push_target(&mut succs, pc, 4, jump_offset, n);
        },
        Op::LoadLocalStoreEqIntConstJumpIfNot { jump_offset, .. } => {
            push_fall_through(&mut succs, pc, 6, n);
            push_target(&mut succs, pc, 6, jump_offset, n);
        },
        _ => {
            push_fall_through(&mut succs, pc, 1, n);
        },
    }
    assert(pcs(succs@) =~= successors(pc as nat, *op, n as nat));
    assert forall|i: int| 0 <= i < succs@.len() implies #[trigger] succs@[i] < n by {
        assert(pcs(succs@)[i] == succs@[i] as nat);
        assert(successors(pc as nat, *op, n as nat)[i] < n);
    }
    succs
}

/// Applies one op to the abstract state, records the sites that escape, and
/// returns the pcs that control can reach next.
pub fn step(
    policy: Policy,
    pc: usize,
    op: &Op,
    s: &mut State,
    n: usize,
    escapes: &mut HashSet<u32>,
) -> (succs: Vec<usize>)
    requires
        pc < n,
    ensures
        final(s)@ == step_state(pc as nat, *op, old(s)@),
        pcs(succs@) == successors(pc as nat, *op, n as nat),
        forall|i: int| 0 <= i < succs@.len() ==> #[trigger] succs@[i] < n,
        forall|p: u32| #[trigger]
            final(escapes)@.contains(p) <==> old(escapes)@.contains(p) || step_leaks(
                policy,
                *op,
                old(s)@,
                p,
            ),
{
    let ghost s0 = s@;
    let depth: usize = s.stack.len();
    let top: Slot = if depth > 0 {
        s.stack[depth - 1]
    } else {
        Slot::Other
    };
    s.pop_n(pops_of(op), leaked_pops_of(policy, op), escapes);
    match *op {
        Op::LoadLocal(i) => {
            let slot = slot_at(&s.locals, i as usize);
            s.stack.push(slot);
        },
        Op::TakeLocal(i) => {
            let slot = slot_at(&s.locals, i as usize);
            s.stack.push(slot);
            if (i as usize) < s.locals.len() {
                s.locals.set(i as usize, Slot::Other);
            }
        },
        Op::Dup => {
            // Both copies alias the aggregate, which is no longer tracked.
            if depth > 0 {
                s.stack.push(Slot::Other);
                s.stack.push(Slot::Other);
            }
        },
        Op::StoreLocal(i) => {
            // Overwriting a local drops its old value, which is no escape.
            if depth > 0 {
                s.write(i as usize, top);
            }
        },
        Op::LoadLocalAddIntConstStoreLocal { dest, .. } => {
            s.write(dest as usize, Slot::Other);
        },
        Op::LoadLocalStoreEqIntConstJumpIfNot { dst, .. } => {
            s.write(dst as usize, Slot::Other);
        },
        Op::Pop
        | Op::Jump(_)
        | Op::JumpIf(_)
        | Op::JumpIfNot(_)
        | Op::Return
        | Op::Panic(_)
        | Op::TailCall { .. }
        | Op::LoadLocalEqIntConstJumpIfNot { .. } => {},
        Op::MakeRecord { .. }
        | Op::AllocStackRecord { .. }
        | Op::AllocArenaRecord { .. }
        | Op::MakeTuple(_)
        | Op::AllocStackTuple { .. }
        | Op::AllocArenaTuple { .. } => {
            s.stack.push(Slot::Agg(pc as u32));
        },
        _ => {
            s.stack.push(Slot::Other);
        },
    }
    assert(s@ =~= step_state(pc as nat, *op, s0));
    successors_of(pc, op, n)
}


/// The op at `q` turns the state `t` into `s` and can hand it to `pc`.
pub open spec fn flows(code: Seq<Op>, q: nat, t: AbsState, pc: nat, s: AbsState) -> bool {
    &&& q < code.len()
    &&& successors(q, code[q as int], code.len()).contains(pc)
    &&& s == step_state(q, code[q as int], t)
}

/// The interpretation can produce the state `s` at `pc` within `h` rounds:
/// it is the entry state, the state behind an op that leads to `pc`, or the
/// merge of two states at `pc`.
pub open spec fn derivable(code: Seq<Op>, entry: AbsState, h: nat, pc: nat, s: AbsState) -> bool
    decreases h,
{
    if h == 0 {
        pc == 0 && s == entry
    } else {
        let g = (h - 1) as nat;
        ||| derivable(code, entry, g, pc, s)
        ||| exists|q: nat, t: AbsState| #[trigger]
            flows(code, q, t, pc, s) && derivable(code, entry, g, q, t)
        ||| exists|a: AbsState, b: AbsState|
            s == #[trigger] merge_states(a, b) && derivable(code, entry, g, pc, a) && derivable(
                code,
                entry,
                g,
                pc,
                b,
            )
    }
}

/// The interpretation can produce the state `s` at `pc`.
pub open spec fn derived(code: Seq<Op>, entry: AbsState, pc: nat, s: AbsState) -> bool {
    exists|h: nat| derivable(code, entry, h, pc, s)
}

/// The site `p` leaks from a state that the interpretation can produce: an op
/// lets it escape, or a join loses track of it.
pub open spec fn flagged(code: Seq<Op>, entry: AbsState, policy: Policy, p: u32) -> bool {
    ||| exists|pc: nat, s: AbsState|
        pc < code.len() && #[trigger] derived(code, entry, pc, s) && step_leaks(
            policy,
            code[pc as int],
            s,
            p,
        )
    ||| exists|pc: nat, a: AbsState, b: AbsState| #[trigger]
        derived(code, entry, pc, a) && #[trigger] derived(code, entry, pc, b) && merge_loses(
            a,
            b,
            p,
        )
}

/// Merging `o` into `d` changes nothing, and what it loses is known to escape.
pub open spec fn absorbs(d: AbsState, o: AbsState, e: Set<u32>) -> bool {
    &&& merge_states(d, o) == d
    &&& forall|p: u32| merge_loses(d, o, p) ==> #[trigger] e.contains(p)
}

/// The in-state at `pc` absorbs `o`.
pub open spec fn absorbed(ds: Seq<Option<AbsState>>, pc: nat, o: AbsState, e: Set<u32>) -> bool {
    pc < ds.len() && ds[pc as int] is Some && absorbs(ds[pc as int]->0, o, e)
}

/// In-states `ds` and escaped sites `e` that the analysis may report: they are
/// closed under the interpretation, every in-state is derivable and every
/// escaped site leaks somewhere.
pub open spec fn is_solution(
    code: Seq<Op>,
    entry: AbsState,
    policy: Policy,
    ds: Seq<Option<AbsState>>,
    e: Set<u32>,
) -> bool {
    &&& ds.len() == code.len()
    &&& code.len() > 0 ==> absorbed(ds, 0, entry, e)
    &&& forall|pc: int|
        0 <= pc < ds.len() && (#[trigger] ds[pc]) is Some ==> {
            &&& derived(code, entry, pc as nat, ds[pc]->0)
            &&& forall|p: u32|
                step_leaks(policy, code[pc], ds[pc]->0, p) ==> #[trigger] e.contains(p)
            &&& forall|s: nat| #[trigger]
                successors(pc as nat, code[pc], code.len()).contains(s) ==> absorbed(
                    ds,
                    s,
                    step_state(pc as nat, code[pc], ds[pc]->0),
                    e,
                )
        }
    &&& forall|p: u32| #[trigger] e.contains(p) ==> flagged(code, entry, policy, p)
}

proof fn lemma_derivable_grows(
    code: Seq<Op>,
    entry: AbsState,
    h: nat,
    k: nat,
    pc: nat,
    s: AbsState,
)
    requires
        derivable(code, entry, h, pc, s),
        h <= k,
    ensures
        derivable(code, entry, k, pc, s),
    decreases k,
{
    if h < k {
        lemma_derivable_grows(code, entry, h, (k - 1) as nat, pc, s);
    }
}

pub proof fn lemma_derived_step(code: Seq<Op>, entry: AbsState, q: nat, t: AbsState, pc: nat)
    requires
        q < code.len(),
        derived(code, entry, q, t),
        successors(q, code[q as int], code.len()).contains(pc),
    ensures
        derived(code, entry, pc, step_state(q, code[q as int], t)),
{
    let h = choose|h: nat| derivable(code, entry, h, q, t);
    assert(flows(code, q, t, pc, step_state(q, code[q as int], t)));
    assert(derivable(code, entry, h + 1, pc, step_state(q, code[q as int], t)));
}

proof fn lemma_derived_merge(code: Seq<Op>, entry: AbsState, pc: nat, a: AbsState, b: AbsState)
    requires
        derived(code, entry, pc, a),
        derived(code, entry, pc, b),
    ensures
        derived(code, entry, pc, merge_states(a, b)),
{
    let h = choose|h: nat| derivable(code, entry, h, pc, a);
    let k = choose|h: nat| derivable(code, entry, h, pc, b);
    let m = if h <= k {
        k
    } else {
        h
    };
    lemma_derivable_grows(code, entry, h, m, pc, a);
    lemma_derivable_grows(code, entry, k, m, pc, b);
    assert(derivable(code, entry, m + 1, pc, merge_states(a, b)));
}

/// A merge absorbs both of its sides.
proof fn lemma_merge_absorbs(d: AbsState, inc: AbsState, o: AbsState, e: Set<u32>)
    requires
        absorbs(d, o, e) || o == inc,
        forall|p: u32| merge_loses(d, inc, p) ==> #[trigger] e.contains(p),
    ensures
        absorbs(merge_states(d, inc), o, e),
{
    let m = merge_states(d, inc);
    let r = merge_states(m, o);
    if o != inc {
        assert(merge_states(d, o).stack.len() == d.stack.len());
        assert(merge_states(d, o).locals.len() == d.locals.len());
    }
    assert forall|i: int| 0 <= i < m.stack.len() implies r.stack[i] == #[trigger] m.stack[i] by {
        if o != inc {
            assert(merge_states(d, o).stack[i] == d.stack[i]);
        }
    }
    assert forall|i: int| 0 <= i < m.locals.len() implies r.locals[i] == #[trigger] m.locals[i] by {
        if o != inc && i < d.locals.len() {
            assert(merge_states(d, o).locals[i] == d.locals[i]);
        }
    }
    assert(r =~= m);
    assert forall|p: u32| merge_loses(m, o, p) implies #[trigger] e.contains(p) by {
        if exists|i: int| #[trigger] stack_loses(m.stack, o.stack, i, p) {
            let i = choose|i: int| #[trigger] stack_loses(m.stack, o.stack, i, p);
            if o != inc && i < d.stack.len() {
                assert(merge_states(d, o).stack[i] == d.stack[i]);
            }
            assert(stack_loses(d.stack, inc.stack, i, p) || stack_loses(d.stack, o.stack, i, p));
        } else {
            let i = choose|i: int| #[trigger] local_loses(m.locals, o.locals, i, p);
            if o != inc && i < d.locals.len() {
                assert(merge_states(d, o).locals[i] == d.locals[i]);
            }
            assert(local_loses(d.locals, inc.locals, i, p) || local_loses(
                d.locals,
                o.locals,
                i,
                p,
            ));
        }
    }
}

proof fn lemma_absorbs_itself(d: AbsState, e: Set<u32>)
    ensures
        absorbs(d, d, e),
{
    assert(merge_states(d, d) =~= d);
    assert forall|p: u32| merge_loses(d, d, p) implies #[trigger] e.contains(p) by {
        if exists|i: int| #[trigger] stack_loses(d.stack, d.stack, i, p) {
            let i = choose|i: int| #[trigger] stack_loses(d.stack, d.stack, i, p);
            assert(false);
        }
    }
}

/// The edge to `pc` with the state `o` still waits in the worklist.
spec fn pending(wl: Seq<(nat, AbsState)>, pc: nat, o: AbsState) -> bool {
    exists|i: int| 0 <= i < wl.len() && #[trigger] wl[i] == (pc, o)
}

/// Closed under the interpretation, up to the edges that wait.
spec fn closed_up_to(
    code: Seq<Op>,
    entry: AbsState,
    policy: Policy,
    ds: Seq<Option<AbsState>>,
    wl: Seq<(nat, AbsState)>,
    e: Set<u32>,
) -> bool {
    &&& ds.len() == code.len()
    &&& pending(wl, 0, entry) || absorbed(ds, 0, entry, e)
    &&& forall|pc: int|
        0 <= pc < ds.len() && (#[trigger] ds[pc]) is Some ==> {
            &&& forall|p: u32|
                step_leaks(policy, code[pc], ds[pc]->0, p) ==> #[trigger] e.contains(p)
            &&& forall|s: nat| #[trigger]
                successors(pc as nat, code[pc], code.len()).contains(s) ==> {
                    let out = step_state(pc as nat, code[pc], ds[pc]->0);
                    pending(wl, s, out) || absorbed(ds, s, out, e)
                }
        }
}

/// Everything that the worklist has seen so far is justified.
spec fn justified(
    code: Seq<Op>,
    entry: AbsState,
    policy: Policy,
    ds: Seq<Option<AbsState>>,
    wl: Seq<(nat, AbsState)>,
    e: Set<u32>,
) -> bool {
    &&& forall|pc: int|
        0 <= pc < ds.len() && (#[trigger] ds[pc]) is Some ==> derived(
            code,
            entry,
            pc as nat,
            ds[pc]->0,
        )
    &&& forall|i: int|
        0 <= i < wl.len() ==> (#[trigger] wl[i]).0 < code.len() && derived(
            code,
            entry,
            wl[i].0,
            wl[i].1,
        )
    &&& forall|p: u32| #[trigger] e.contains(p) ==> flagged(code, entry, policy, p)
}

/// One edge left the worklist and reached an in-state that absorbs it.
proof fn lemma_skip(
    code: Seq<Op>,
    entry: AbsState,
    policy: Policy,
    ds: Seq<Option<AbsState>>,
    wl: Seq<(nat, AbsState)>,
    e: Set<u32>,
    e2: Set<u32>,
)
    requires
        closed_up_to(code, entry, policy, ds, wl, e),
        justified(code, entry, policy, ds, wl, e),
        wl.len() > 0,
        ds[wl.last().0 as int] is Some,
        merge_states(ds[wl.last().0 as int]->0, wl.last().1) == ds[wl.last().0 as int]->0,
        forall|p: u32| #[trigger]
            e2.contains(p) <==> e.contains(p) || merge_loses(
                ds[wl.last().0 as int]->0,
                wl.last().1,
                p,
            ),
    ensures
        closed_up_to(code, entry, policy, ds, wl.drop_last(), e2),
        justified(code, entry, policy, ds, wl.drop_last(), e2),
{
    let pc = wl.last().0;
    let inc = wl.last().1;
    let d = ds[pc as int]->0;
    let wl2 = wl.drop_last();
    assert(wl[wl.len() - 1].0 < code.len());
    assert(absorbs(d, inc, e2));
    assert forall|t: nat, o: AbsState|
        #[trigger] pending(wl, t, o) || absorbed(ds, t, o, e) implies pending(wl2, t, o)
        || absorbed(ds, t, o, e2) by {
        if pending(wl, t, o) {
            let i = choose|i: int| 0 <= i < wl.len() && #[trigger] wl[i] == (t, o);
            if i < wl.len() - 1 {
                assert(wl2[i] == (t, o));
            }
        }
    }
    assert(pending(wl, 0, entry) || absorbed(ds, 0, entry, e));
    assert forall|q: int| 0 <= q < ds.len() && (#[trigger] ds[q]) is Some implies {
        forall|s: nat| #[trigger]
            successors(q as nat, code[q], code.len()).contains(s) ==> {
                let out = step_state(q as nat, code[q], ds[q]->0);
                pending(wl2, s, out) || absorbed(ds, s, out, e2)
            }
    } by {
        assert forall|s: nat| #[trigger]
            successors(q as nat, code[q], code.len()).contains(s) implies {
            let out = step_state(q as nat, code[q], ds[q]->0);
            pending(wl2, s, out) || absorbed(ds, s, out, e2)
        } by {
            let out = step_state(q as nat, code[q], ds[q]->0);
            assert(pending(wl, s, out) || absorbed(ds, s, out, e));
        }
    }
    assert forall|p: u32| #[trigger] e2.contains(p) implies flagged(code, entry, policy, p) by {
        if !e.contains(p) {
            assert(derived(code, entry, pc, d));
            assert(derived(code, entry, pc, wl[wl.len() - 1].1));
        }
    }
    assert forall|i: int| 0 <= i < wl2.len() implies (#[trigger] wl2[i]).0 < code.len() && derived(
        code,
        entry,
        wl2[i].0,
        wl2[i].1,
    ) by {
        assert(wl2[i] == wl[i]);
    }
}

/// The edges that an op adds to the worklist.
pub open spec fn edges(succs: Seq<nat>, out: AbsState) -> Seq<(nat, AbsState)> {
    Seq::new(succs.len(), |i: int| (succs[i], out))
}

/// One edge left the worklist, changed the in-state it reached, and the op
/// there was interpreted again.
proof fn lemma_advance(
    code: Seq<Op>,
    entry: AbsState,
    policy: Policy,
    ds: Seq<Option<AbsState>>,
    wl: Seq<(nat, AbsState)>,
    e: Set<u32>,
    m: AbsState,
    e2: Set<u32>,
)
    requires
        closed_up_to(code, entry, policy, ds, wl, e),
        justified(code, entry, policy, ds, wl, e),
        wl.len() > 0,
        match ds[wl.last().0 as int] {
            Some(d) => m == merge_states(d, wl.last().1),
            None => m == wl.last().1,
        },
        forall|p: u32| #[trigger]
            e2.contains(p) <==> e.contains(p) || (ds[wl.last().0 as int] is Some && merge_loses(
                ds[wl.last().0 as int]->0,
                wl.last().1,
                p,
            )) || step_leaks(policy, code[wl.last().0 as int], m, p),
    ensures
        ({
            let pc = wl.last().0;
            let op = code[pc as int];
            let ds2 = ds.update(pc as int, Some(m));
            let wl2 = wl.drop_last() + edges(
                successors(pc, op, code.len()),
                step_state(pc, op, m),
            );
            &&& closed_up_to(code, entry, policy, ds2, wl2, e2)
            &&& justified(code, entry, policy, ds2, wl2, e2)
        }),
{
    let pc = wl.last().0;
    let inc = wl.last().1;
    let op = code[pc as int];
    let ds2 = ds.update(pc as int, Some(m));
    let base = wl.drop_last();
    let out2 = step_state(pc, op, m);
    let succs = successors(pc, op, code.len());
    let wl2 = base + edges(succs, out2);
    assert(wl[wl.len() - 1].0 < code.len() && derived(
        code,
        entry,
        wl[wl.len() - 1].0,
        wl[wl.len() - 1].1,
    ));
    // The new in-state absorbs the edge and all that the old one absorbed.
    assert forall|o: AbsState|
        o == inc || absorbed(ds, pc, o, e) implies #[trigger] absorbs(m, o, e2) by {
        match ds[pc as int] {
            Some(d) => {
                if absorbed(ds, pc, o, e) {
                    assert(absorbs(d, o, e2));
                }
                lemma_merge_absorbs(d, inc, o, e2);
            },
            None => {
                lemma_absorbs_itself(m, e2);
            },
        }
    }
    assert forall|t: nat, o: AbsState|
        #[trigger] pending(wl, t, o) || absorbed(ds, t, o, e) implies pending(wl2, t, o)
        || absorbed(ds2, t, o, e2) by {
        if pending(wl, t, o) {
            let i = choose|i: int| 0 <= i < wl.len() && #[trigger] wl[i] == (t, o);
            if i < wl.len() - 1 {
                assert(wl2[i] == (t, o));
            } else {
                assert(absorbs(m, o, e2));
            }
        } else if t == pc {
            assert(absorbs(m, o, e2));
        } else {
            assert(absorbs(ds[t as int]->0, o, e2));
        }
    }
    assert(pending(wl, 0, entry) || absorbed(ds, 0, entry, e));
    assert forall|q: int| 0 <= q < ds2.len() && (#[trigger] ds2[q]) is Some implies {
        &&& forall|p: u32|
            step_leaks(policy, code[q], ds2[q]->0, p) ==> #[trigger] e2.contains(p)
        &&& forall|s: nat| #[trigger]
            successors(q as nat, code[q], code.len()).contains(s) ==> {
                let out = step_state(q as nat, code[q], ds2[q]->0);
                pending(wl2, s, out) || absorbed(ds2, s, out, e2)
            }
    } by {
        assert forall|s: nat| #[trigger]
            successors(q as nat, code[q], code.len()).contains(s) implies {
            let out = step_state(q as nat, code[q], ds2[q]->0);
            pending(wl2, s, out) || absorbed(ds2, s, out, e2)
        } by {
            let out = step_state(q as nat, code[q], ds2[q]->0);
            if q == pc {
                let j = choose|j: int| 0 <= j < succs.len() && succs[j] == s;
                assert(wl2[base.len() + j] == (s, out2));
            } else {
                assert(ds[q] is Some);
                assert(pending(wl, s, out) || absorbed(ds, s, out, e));
            }
        }
        if q != pc {
            assert(ds[q] is Some);
        }
    }
    // Justification.
    assert(derived(code, entry, pc, m)) by {
        match ds[pc as int] {
            Some(d) => {
                assert(derived(code, entry, pc, d));
                lemma_derived_merge(code, entry, pc, d, inc);
            },
            None => {},
        }
    }
    assert forall|i: int| 0 <= i < wl2.len() implies (#[trigger] wl2[i]).0 < code.len() && derived(
        code,
        entry,
        wl2[i].0,
        wl2[i].1,
    ) by {
        if i < base.len() {
            assert(wl2[i] == wl[i]);
        } else {
            let j = i - base.len();
            assert(wl2[i] == (succs[j], out2));
            assert(succs.contains(succs[j]));
            lemma_derived_step(code, entry, pc, m, succs[j]);
        }
    }
    assert forall|q: int| 0 <= q < ds2.len() && (#[trigger] ds2[q]) is Some implies derived(
        code,
        entry,
        q as nat,
        ds2[q]->0,
    ) by {
        if q != pc {
            assert(ds[q] is Some);
        }
    }
    assert forall|p: u32| #[trigger] e2.contains(p) implies flagged(code, entry, policy, p) by {
        if !e.contains(p) {
            if step_leaks(policy, op, m, p) {
                assert(derived(code, entry, pc, m));
            } else {
                assert(derived(code, entry, pc, ds[pc as int]->0));
                assert(derived(code, entry, pc, inc));
            }
        }
    }
}


/// How many slots hold a tracked aggregate.
pub open spec fn count_tracked(s: Seq<Slot>) -> nat
    decreases s.len(),
{
    if s.len() == 0 {
        0
    } else {
        count_tracked(s.drop_last()) + (if s.last() is Agg { 1nat } else { 0nat })
    }
}

/// `b` holds at most what `a` holds, slot by slot, except for `Other`s at its
/// end.
spec fn fades_to(a: Seq<Slot>, b: Seq<Slot>) -> bool {
    forall|i: int| 0 <= i < b.len() ==> #[trigger] b[i] == Slot::Other || (i < a.len()
        && b[i] == a[i])
}

proof fn lemma_fade_counts(a: Seq<Slot>, b: Seq<Slot>)
    requires
        fades_to(a, b),
    ensures
        count_tracked(b) <= count_tracked(a),
        a.len() == b.len() && a != b ==> count_tracked(b) < count_tracked(a),
    decreases a.len() + b.len(),
{
    if b.len() == 0 {
        assert(a.len() == 0 ==> a =~= b);
    } else if b.len() > a.len() {
        assert(fades_to(a, b.drop_last()));
        lemma_fade_counts(a, b.drop_last());
        assert(b[b.len() - 1] == Slot::Other);
    } else if b.len() < a.len() {
        assert(fades_to(a.drop_last(), b));
        lemma_fade_counts(a.drop_last(), b);
    } else {
        assert(fades_to(a.drop_last(), b.drop_last()));
        lemma_fade_counts(a.drop_last(), b.drop_last());
        assert(b[b.len() - 1] == Slot::Other || b[b.len() - 1] == a[a.len() - 1]);
        if a != b && a.last() == b.last() {
            assert(a.drop_last() != b.drop_last()) by {
                if a.drop_last() == b.drop_last() {
                    assert(a =~= a.drop_last().push(a.last()));
                    assert(b =~= b.drop_last().push(b.last()));
                }
            }
        }
    }
}

/// No local has an index beyond the range of `u16`.
pub open spec fn bounded(s: AbsState) -> bool {
    s.locals.len() <= 0x1_0000
}

/// Goes down with every merge that changes the state.
pub open spec fn rank(s: AbsState) -> nat {
    (s.stack.len() + count_tracked(s.stack) + count_tracked(s.locals) + (0x1_0000
        - s.locals.len())) as nat
}

pub proof fn lemma_merge_ranks(d: AbsState, inc: AbsState)
    requires
        bounded(d),
        bounded(inc),
    ensures
        bounded(merge_states(d, inc)),
        merge_states(d, inc) != d ==> rank(merge_states(d, inc)) < rank(d),
{
    let m = merge_states(d, inc);
    lemma_fade_counts(d.stack, m.stack);
    assert(fades_to(d.locals, m.locals)) by {
        assert forall|i: int| 0 <= i < m.locals.len() implies #[trigger] m.locals[i] == Slot::Other
            || (i < d.locals.len() && m.locals[i] == d.locals[i]) by {}
    }
    lemma_fade_counts(d.locals, m.locals);
    if m != d {
        assert(m.stack != d.stack || m.locals != d.locals);
    }
}

proof fn lemma_step_bounded(pc: nat, op: Op, s: AbsState)
    requires
        bounded(s),
    ensures
        bounded(step_state(pc, op, s)),
{
}

pub open spec fn unseen(ds: Seq<Option<AbsState>>) -> nat
    decreases ds.len(),
{
    if ds.len() == 0 {
        0
    } else {
        unseen(ds.drop_last()) + (if ds.last() is None { 1nat } else { 0nat })
    }
}

pub open spec fn total_rank(ds: Seq<Option<AbsState>>) -> nat
    decreases ds.len(),
{
    if ds.len() == 0 {
        0
    } else {
        total_rank(ds.drop_last()) + (match ds.last() {
            Some(s) => rank(s),
            None => 0,
        })
    }
}

pub proof fn lemma_update_measures(ds: Seq<Option<AbsState>>, pc: int, m: AbsState)
    requires
        0 <= pc < ds.len(),
    ensures
        ds[pc] is None ==> unseen(ds.update(pc, Some(m))) < unseen(ds),
        ds[pc] is Some ==> unseen(ds.update(pc, Some(m))) == unseen(ds) && total_rank(
            ds.update(pc, Some(m)),
        ) + rank(ds[pc]->0) == total_rank(ds) + rank(m),
    decreases ds.len(),
{
    let ds2 = ds.update(pc, Some(m));
    if pc == ds.len() - 1 {
        assert(ds2.drop_last() =~= ds.drop_last());
    } else {
        lemma_update_measures(ds.drop_last(), pc, m);
        assert(ds2.drop_last() =~= ds.drop_last().update(pc, Some(m)));
    }
}

spec fn view_in_states(v: Seq<Option<State>>) -> Seq<Option<AbsState>> {
    Seq::new(
        v.len(),
        |i: int|
            match v[i] {
                Some(s) => Some(s@),
                None => None,
            },
    )
}

spec fn view_worklist(v: Seq<(usize, State)>) -> Seq<(nat, AbsState)> {
    Seq::new(v.len(), |i: int| (v[i].0 as nat, v[i].1@))
}

pub open spec fn all_bounded(ds: Seq<Option<AbsState>>, wl: Seq<(nat, AbsState)>) -> bool {
    &&& forall|i: int| 0 <= i < ds.len() && (#[trigger] ds[i]) is Some ==> bounded(ds[i]->0)
    &&& forall|i: int| 0 <= i < wl.len() ==> bounded((#[trigger] wl[i]).1)
}

/// The escaped sites with those that a merge loses track of.
pub open spec fn with_lost(e: Set<u32>, a: AbsState, b: AbsState) -> Set<u32> {
    Set::new(|p: u32| e.contains(p) || merge_loses(a, b, p))
}

/// The escaped sites with those that leak when the op runs.
pub open spec fn with_leaked(e: Set<u32>, policy: Policy, op: Op, s: AbsState) -> Set<u32> {
    Set::new(|p: u32| e.contains(p) || step_leaks(policy, op, s, p))
}

/// The sites that the analysis finds to escape, from these in-states and
/// waiting edges on: the last edge is taken and merged into the in-state that
/// it reaches; if that is new or changes, the op there is interpreted again.
pub open spec fn interpreted(
    code: Seq<Op>,
    policy: Policy,
    ds: Seq<Option<AbsState>>,
    wl: Seq<(nat, AbsState)>,
    e: Set<u32>,
) -> Set<u32>
    decreases unseen(ds), total_rank(ds), wl.len(),
{
    if wl.len() == 0 || wl.last().0 >= ds.len() || !all_bounded(ds, wl) {
        e
    } else {
        let pc = wl.last().0;
        let inc = wl.last().1;
        let rest = wl.drop_last();
        let op = code[pc as int];
        let succs = successors(pc, op, code.len());
        match ds[pc as int] {
            None => {
                proof {
                    lemma_update_measures(ds, pc as int, inc);
                }
                interpreted(
                    code,
                    policy,
                    ds.update(pc as int, Some(inc)),
                    rest + edges(succs, step_state(pc, op, inc)),
                    with_leaked(e, policy, op, inc),
                )
            },
            Some(prev) => {
                let m = merge_states(prev, inc);
                let lost = with_lost(e, prev, inc);
                if m == prev {
                    interpreted(code, policy, ds, rest, lost)
                } else {
                    proof {
                        assert(bounded(ds[pc as int]->0));
                        assert(bounded(wl[wl.len() - 1].1));
                        lemma_merge_ranks(prev, inc);
                        lemma_update_measures(ds, pc as int, m);
                    }
                    interpreted(
                        code,
                        policy,
                        ds.update(pc as int, Some(m)),
                        rest + edges(succs, step_state(pc, op, m)),
                        with_leaked(lost, policy, op, m),
                    )
                }
            },
        }
    }
}

/// The sites of a body that the analysis finds to escape.
pub open spec fn escaped_sites(
    code: Seq<Op>,
    locals_count: u16,
    arity: u16,
    policy: Policy,
) -> Set<u32> {
    interpreted(
        code,
        policy,
        Seq::new(code.len(), |i: int| None),
        seq![(0nat, entry_state(locals_count, arity))],
        Set::empty(),
    )
}

/// Runs the worklist over a body that is not empty.
fn solve(code: &Vec<Op>, locals_count: u16, arity: u16, policy: Policy) -> (escaped: HashSet<u32>)
    requires
        code.len() > 0,
    ensures
        exists|ds: Seq<Option<AbsState>>| #[trigger]
            is_solution(code@, entry_state(locals_count, arity), policy, ds, escaped@),
        escaped@ == escaped_sites(code@, locals_count, arity, policy),
{
    let n: usize = code.len();
    let ghost entry = entry_state(locals_count, arity);
    let mut in_state: Vec<Option<State>> = Vec::new();
    let mut i: usize = 0;
    while i < n
        invariant
            i <= n,
            in_state@.len() == i,
            forall|j: int| 0 <= j < i ==> (#[trigger] in_state@[j]) is None,
        decreases n - i,
    {
        in_state.push(None);
        i = i + 1;
    }
    let mut escaped: HashSet<u32> = HashSet::new();
    let mut worklist: Vec<(usize, State)> = Vec::new();
    worklist.push((0, State::entry(locals_count as usize, arity as usize)));
    proof {
        let ds = view_in_states(in_state@);
        let wl = view_worklist(worklist@);
        assert(wl[0] == (0nat, entry));
        assert(pending(wl, 0, entry));
        assert(derivable(code@, entry, 0, 0, entry));
        assert(derived(code@, entry, 0, entry));
        assert(closed_up_to(code@, entry, policy, ds, wl, escaped@));
        assert(justified(code@, entry, policy, ds, wl, escaped@));
        assert(all_bounded(ds, wl));
        assert(ds =~= Seq::new(code@.len(), |i: int| None));
        assert(wl =~= seq![(0nat, entry)]);
        assert(escaped@ =~= Set::empty());
    }
    let ghost goal = escaped_sites(code@, locals_count, arity, policy);
    while worklist.len() > 0
        invariant
            n == code.len(),
            in_state@.len() == n,
            entry == entry_state(locals_count, arity),
            closed_up_to(
                code@,
                entry,
                policy,
                view_in_states(in_state@),
                view_worklist(worklist@),
                escaped@,
            ),
            justified(
                code@,
                entry,
                policy,
                view_in_states(in_state@),
                view_worklist(worklist@),
                escaped@,
            ),
            all_bounded(view_in_states(in_state@), view_worklist(worklist@)),
            goal == escaped_sites(code@, locals_count, arity, policy),
            goal == interpreted(
                code@,
                policy,
                view_in_states(in_state@),
                view_worklist(worklist@),
                escaped@,
            ),
        decreases
                unseen(view_in_states(in_state@)),
                total_rank(view_in_states(in_state@)),
                worklist.len(),
    {
        let ghost ds = view_in_states(in_state@);
        let ghost wl = view_worklist(worklist@);
        let ghost e = escaped@;
        let ghost wl_exec = worklist@;
        let popped = worklist.pop();
        let (pc, incoming) = match popped {
            Some(item) => item,
            None => {
                assert(false);
                (0, State::entry(0, 0))
            },
        };
        proof {
            assert(wl.last() == (pc as nat, incoming@));
            assert(wl[wl.len() - 1].0 < code@.len());
            assert(bounded(wl[wl.len() - 1].1));
            assert(view_worklist(worklist@) =~= wl.drop_last());
        }
        let ghost inc = incoming@;
        let mut state = match &in_state[pc] {
            Some(prev) => {
                let merged = prev.merge_with(&incoming, &mut escaped);
                if merged.same(prev) {
                    // The op has already been interpreted on this state.
                    proof {
                        assert(ds[pc as int] == Some(prev@));
                        assert(escaped@ =~= with_lost(e, prev@, inc));
                        lemma_skip(code@, entry, policy, ds, wl, e, escaped@);
                        assert forall|i: int| 0 <= i < wl.drop_last().len() implies bounded(
                            (#[trigger] wl.drop_last()[i]).1,
                        ) by {
                            assert(wl.drop_last()[i] == wl[i]);
                        }
                    }
                    continue ;
                }
                proof {
                    assert(ds[pc as int] == Some(prev@));
                    assert(escaped@ =~= with_lost(e, prev@, inc));
                    lemma_merge_ranks(prev@, inc);
                }
                merged
            },
            None => incoming,
        };
        let ghost m = state@;
        in_state.set(pc, Some(state.duplicate()));
        assert(view_in_states(in_state@) =~= ds.update(pc as int, Some(m)));
        let ghost lost = escaped@;
        let succs = step(policy, pc, &code[pc], &mut state, n, &mut escaped);
        proof {
            assert(escaped@ =~= with_leaked(lost, policy, code@[pc as int], m));
            lemma_advance(code@, entry, policy, ds, wl, e, m, escaped@);
            lemma_update_measures(ds, pc as int, m);
            lemma_step_bounded(pc as nat, code@[pc as int], m);
        }
        let ghost succ_pcs = successors(pc as nat, code@[pc as int], code@.len());
        let ghost out = state@;
        let mut k: usize = 0;
        assert(view_worklist(worklist@) =~= wl.drop_last() + edges(succ_pcs.take(0), out));
        while k < succs.len()
            invariant
                k <= succs.len(),
                out == state@,
                pcs(succs@) == succ_pcs,
                view_worklist(worklist@) == wl.drop_last() + edges(succ_pcs.take(k as int), out),
            decreases succs.len() - k,
        {
            let ghost before = view_worklist(worklist@);
            worklist.push((succs[k], state.duplicate()));
            assert(pcs(succs@)[k as int] == succs@[k as int] as nat);
            assert(view_worklist(worklist@) =~= before.push((succ_pcs[k as int], out)));
            assert(edges(succ_pcs.take(k + 1), out) =~= edges(succ_pcs.take(k as int), out).push(
                (succ_pcs[k as int], out),
            ));
            k = k + 1;
            assert(view_worklist(worklist@) =~= wl.drop_last() + edges(
                succ_pcs.take(k as int),
                out,
            ));
        }
        proof {
            assert(succ_pcs.take(k as int) =~= succ_pcs);
            let ds2 = view_in_states(in_state@);
            let wl2 = view_worklist(worklist@);
            assert forall|i: int| 0 <= i < ds2.len() && (#[trigger] ds2[i]) is Some implies bounded(
                ds2[i]->0,
            ) by {
                if i != pc {
                    assert(ds[i] is Some);
                }
            }
            assert forall|i: int| 0 <= i < wl2.len() implies bounded((#[trigger] wl2[i]).1) by {
                if i < wl.len() - 1 {
                    assert(wl2[i] == wl[i]);
                }
            }
        }
    }
    assert(is_solution(code@, entry, policy, view_in_states(in_state@), escaped@));
    escaped
}


/// Which aggregate constructor stands at a site.
#[derive(Debug, Clone, Copy, PartialEq, Eq, Hash, Structural)]
pub enum SiteKind {
    /// `Op::MakeRecord`: `shape_idx` is its shape, `field_count` its number of
    /// fields.
    Record,
    /// `Op::MakeTuple`: `shape_idx` is 0, `field_count` is the arity.
    Tuple,
}

#[derive(Debug, Clone, Copy, PartialEq, Eq, Hash, Structural)]
pub struct EscapeSite {
    pub pc: u32,
    pub kind: SiteKind,
    pub shape_idx: u32,
    pub field_count: u16,
    pub escapes: bool,
}

/// What the analysis found in one function. `escapes` is false for a site
/// whose aggregate is only read locally on every path: it is never returned,
/// captured, stored in another aggregate or passed to a call.
#[derive(Debug, Clone, PartialEq, Eq)]
pub struct EscapeReport {
    pub fn_name: String,
    /// The `MakeRecord` and `MakeTuple` sites, in pc order.
    pub sites: Vec<EscapeSite>,
}

/// The site at `pc`, if the op there allocates an aggregate.
pub open spec fn site_of(pc: int, op: Op, e: Set<u32>) -> Option<EscapeSite> {
    match op {
        Op::MakeRecord { shape_idx, field_count } => Some(
            EscapeSite {
                pc: pc as u32,
                kind: SiteKind::Record,
                shape_idx,
                field_count,
                escapes: e.contains(pc as u32),
            },
        ),
        Op::MakeTuple(arity) => Some(
            EscapeSite {
                pc: pc as u32,
                kind: SiteKind::Tuple,
                shape_idx: 0,
                field_count: arity,
                escapes: e.contains(pc as u32),
            },
        ),
        _ => None,
    }
}

/// The sites of a body in pc order, flagged by `e`.
pub open spec fn site_list(code: Seq<Op>, e: Set<u32>) -> Seq<EscapeSite>
    decreases code.len(),
{
    if code.len() == 0 {
        Seq::empty()
    } else {
        let front = site_list(code.drop_last(), e);
        match site_of(code.len() - 1, code.last(), e) {
            Some(site) => front.push(site),
            None => front,
        }
    }
}

/// The body allocates no aggregate.
pub open spec fn no_sites(code: Seq<Op>) -> bool {
    forall|i: int|
        0 <= i < code.len() ==> !((#[trigger] code[i]) is MakeRecord) && !(code[i] is MakeTuple)
}

/// The report states a solution of the analysis.
pub open spec fn reports(f: Function, policy: Policy, r: EscapeReport) -> bool {
    &&& r.fn_name@ == f.name@
    &&& if no_sites(f.code@) {
        r.sites@.len() == 0
    } else {
        exists|ds: Seq<Option<AbsState>>, e: Set<u32>| #[trigger]
            is_solution(f.code@, entry_state(f.locals_count, f.arity), policy, ds, e) && e
                == escaped_sites(f.code@, f.locals_count, f.arity, policy) && r.sites@ == site_list(
                f.code@,
                e,
            )
    }
}

proof fn lemma_site_list_empty(code: Seq<Op>, e: Set<u32>)
    ensures
        site_list(code, e).len() == 0 <==> no_sites(code),
    decreases code.len(),
{
    if code.len() > 0 {
        lemma_site_list_empty(code.drop_last(), e);
        if no_sites(code) {
            assert(no_sites(code.drop_last()));
            assert(!(code[code.len() - 1] is MakeRecord));
        } else if no_sites(code.drop_last()) {
            let i = choose|i: int|
                0 <= i < code.len() && ((#[trigger] code[i]) is MakeRecord || code[i] is MakeTuple);
            assert(i == code.len() - 1 || code.drop_last()[i] == code[i]);
        }
    }
}

/// A report is empty if and only if the body allocates no aggregate.
pub proof fn lemma_report_empty(f: Function, policy: Policy, r: EscapeReport)
    requires
        reports(f, policy, r),
    ensures
        r.sites@.len() == 0 <==> no_sites(f.code@),
{
    assert forall|e: Set<u32>| (#[trigger] site_list(f.code@, e)).len() == 0 <==> no_sites(
        f.code@,
    ) by {
        lemma_site_list_empty(f.code@, e);
    }
}

fn has_sites(code: &Vec<Op>) -> (found: bool)
    ensures
        found <==> !no_sites(code@),
{
    let mut i: usize = 0;
    while i < code.len()
        invariant
            i <= code.len(),
            forall|j: int|
                0 <= j < i ==> !((#[trigger] code@[j]) is MakeRecord) && !(code@[j] is MakeTuple),
        decreases code.len() - i,
    {
        match code[i] {
            Op::MakeRecord { .. } | Op::MakeTuple(_) => {
                return true;
            },
            _ => {},
        }
        i = i + 1;
    }
    false
}

fn collect_sites(code: &Vec<Op>, escaped: &HashSet<u32>) -> (sites: Vec<EscapeSite>)
    ensures
        sites@ == site_list(code@, escaped@),
{
    let mut sites: Vec<EscapeSite> = Vec::new();
    let mut pc: usize = 0;
    while pc < code.len()
        invariant
            pc <= code.len(),
            sites@ == site_list(code@.take(pc as int), escaped@),
        decreases code.len() - pc,
    {
        assert(code@.take(pc + 1).drop_last() =~= code@.take(pc as int));
        match code[pc] {
            Op::MakeRecord { shape_idx, field_count } => {
                let escapes = escaped.contains(&(pc as u32));
                sites.push(
                    EscapeSite {
                        pc: pc as u32,
                        kind: SiteKind::Record,
                        shape_idx,
                        field_count,
                        escapes,
                    },
                );
            },
            Op::MakeTuple(arity) => {
                let escapes = escaped.contains(&(pc as u32));
                sites.push(
                    EscapeSite {
                        pc: pc as u32,
                        kind: SiteKind::Tuple,
                        shape_idx: 0,
                        field_count: arity,
                        escapes,
                    },
                );
            },
            _ => {},
        }
        pc = pc + 1;
    }
    assert(code@.take(pc as int) =~= code@);
    sites
}

/// Analyzes one function under the given policy. A body without allocation
/// sites is not interpreted at all.
pub fn analyze_function_with_policy(func: &Function, policy: Policy) -> (r: EscapeReport)
    ensures
        reports(*func, policy, r),
{
    if !has_sites(&func.code) {
        return EscapeReport { fn_name: func.name.clone(), sites: Vec::new() };
    }
    let escaped = solve(&func.code, func.locals_count, func.arity, policy);
    let sites = collect_sites(&func.code, &escaped);
    proof {
        let entry = entry_state(func.locals_count, func.arity);
        let ds = choose|ds: Seq<Option<AbsState>>| #[trigger]
            is_solution(func.code@, entry, policy, ds, escaped@);
        assert(is_solution(func.code@, entry, policy, ds, escaped@));
    }
    EscapeReport { fn_name: func.name.clone(), sites }
}

/// Analyzes one function: which aggregates stay inside its frame.
pub fn analyze_function(func: &Function) -> (r: EscapeReport)
    ensures
        reports(*func, Policy::Frame, r),
{
    analyze_function_with_policy(func, Policy::Frame)
}

/// One report for each function that allocates an aggregate, in order.
pub open spec fn program_reports(fs: Seq<Function>, policy: Policy, rs: Seq<EscapeReport>) -> bool
    decreases fs.len(),
{
    if fs.len() == 0 {
        rs.len() == 0
    } else if no_sites(fs.last().code@) {
        program_reports(fs.drop_last(), policy, rs)
    } else {
        &&& rs.len() > 0
        &&& reports(fs.last(), policy, rs.last())
        &&& program_reports(fs.drop_last(), policy, rs.drop_last())
    }
}

/// Analyzes every function. Functions without allocation sites are left out.
pub fn analyze_program(functions: &[Function]) -> (rs: Vec<EscapeReport>)
    ensures
        program_reports(functions@, Policy::Frame, rs@),
{
    let mut rs: Vec<EscapeReport> = Vec::new();
    let mut i: usize = 0;
    while i < functions.len()
        invariant
            i <= functions.len(),
            program_reports(functions@.take(i as int), Policy::Frame, rs@),
        decreases functions.len() - i,
    {
        let ghost rs0 = rs@;
        let r = analyze_function(&functions[i]);
        proof {
            assert(functions@.take(i + 1).drop_last() =~= functions@.take(i as int));
            lemma_report_empty(functions@[i as int], Policy::Frame, r);
        }
        if r.sites.len() > 0 {
            rs.push(r);
            assert(rs@.drop_last() =~= rs0);
        }
        i = i + 1;
    }
    assert(functions@.take(i as int) =~= functions@);
    rs
}

/// The flags of one report, entered into an index.
pub open spec fn index_sites(
    idx: Map<(Seq<char>, u32), bool>,
    fn_name: Seq<char>,
    sites: Seq<EscapeSite>,
) -> Map<(Seq<char>, u32), bool>
    decreases sites.len(),
{
    if sites.len() == 0 {
        idx
    } else {
        index_sites(idx, fn_name, sites.drop_last()).insert(
            (fn_name, sites.last().pc),
            sites.last().escapes,
        )
    }
}

/// The flags of all reports.
pub open spec fn index_of(rs: Seq<EscapeReport>) -> Map<(Seq<char>, u32), bool>
    decreases rs.len(),
{
    if rs.len() == 0 {
        Map::empty()
    } else {
        index_sites(index_of(rs.drop_last()), rs.last().fn_name@, rs.last().sites@)
    }
}

/// The result of [`analyze_program`] as an index by function name and pc. A
/// name that occurs twice has the flags of its last function.
pub fn build_escape_index(functions: &[Function]) -> (idx: SiteIndex)
    ensures
        exists|rs: Seq<EscapeReport>| #[trigger]
            program_reports(functions@, Policy::Frame, rs) && idx@ == index_of(rs),
{
    let reports = analyze_program(functions);
    let mut idx = SiteIndex::new();
    let mut i: usize = 0;
    while i < reports.len()
        invariant
            i <= reports.len(),
            idx@ == index_of(reports@.take(i as int)),
        decreases reports.len() - i,
    {
        let report = &reports[i];
        let ghost idx0 = idx@;
        let mut k: usize = 0;
        while k < report.sites.len()
            invariant
                k <= report.sites.len(),
                idx@ == index_sites(idx0, report.fn_name@, report.sites@.take(k as int)),
            decreases report.sites.len() - k,
        {
            idx.insert(report.fn_name.clone(), report.sites[k].pc, report.sites[k].escapes);
            assert(report.sites@.take(k + 1).drop_last() =~= report.sites@.take(k as int));
            k = k + 1;
        }
        assert(report.sites@.take(k as int) =~= report.sites@);
        assert(reports@.take(i + 1).drop_last() =~= reports@.take(i as int));
        i = i + 1;
    }
    assert(reports@.take(i as int) =~= reports@);
    idx
}

// ---------------------------------------------------------------------------
// Laws
// ---------------------------------------------------------------------------

/// All paths into a pc leave the same stack depth there.
pub open spec fn depths_agree(code: Seq<Op>, entry: AbsState) -> bool {
    forall|pc: nat, a: AbsState, b: AbsState| #[trigger]
        derived(code, entry, pc, a) && #[trigger] derived(code, entry, pc, b) ==> a.stack.len()
            == b.stack.len()
}

/// The slot `b` stands for `a` once the sites in `e` are known to escape.
pub open spec fn covers_slot(b: Slot, a: Slot, e: Set<u32>) -> bool {
    a == b || (b == Slot::Other && (a matches Slot::Agg(p) ==> e.contains(p)))
}

pub open spec fn covers(d: AbsState, s: AbsState, e: Set<u32>) -> bool {
    &&& d.stack.len() == s.stack.len()
    &&& forall|i: int|
        0 <= i < s.stack.len() ==> covers_slot(d.stack[i], #[trigger] s.stack[i], e)
    &&& forall|i: int|
        0 <= i ==> covers_slot(local_at(d.locals, i), #[trigger] local_at(s.locals, i), e)
}

pub proof fn lemma_absorbs_covers(d: AbsState, o: AbsState, e: Set<u32>)
    requires
        absorbs(d, o, e),
        d.stack.len() == o.stack.len(),
    ensures
        covers(d, o, e),
{
    let m = merge_states(d, o);
    assert forall|i: int| 0 <= i < o.stack.len() implies covers_slot(
        d.stack[i],
        #[trigger] o.stack[i],
        e,
    ) by {
        assert(m.stack[i] == d.stack[i]);
        if let Slot::Agg(p) = o.stack[i] {
            if d.stack[i] != o.stack[i] {
                assert(stack_loses(d.stack, o.stack, i, p));
            }
        }
    }
    assert forall|i: int| 0 <= i implies covers_slot(
        local_at(d.locals, i),
        #[trigger] local_at(o.locals, i),
        e,
    ) by {
        assert(m.locals.len() == d.locals.len());
        if i < d.locals.len() {
            assert(m.locals[i] == d.locals[i]);
        }
        if let Slot::Agg(p) = local_at(o.locals, i) {
            if local_at(d.locals, i) != local_at(o.locals, i) {
                assert(local_loses(d.locals, o.locals, i, p));
            }
        }
    }
}

proof fn lemma_covers_trans(c: AbsState, b: AbsState, a: AbsState, e: Set<u32>)
    requires
        covers(c, b, e),
        covers(b, a, e),
    ensures
        covers(c, a, e),
{
    assert forall|i: int| 0 <= i < a.stack.len() implies covers_slot(
        c.stack[i],
        #[trigger] a.stack[i],
        e,
    ) by {
        assert(covers_slot(c.stack[i], b.stack[i], e));
    }
    assert forall|i: int| 0 <= i implies covers_slot(
        local_at(c.locals, i),
        #[trigger] local_at(a.locals, i),
        e,
    ) by {
        assert(covers_slot(local_at(c.locals, i), local_at(b.locals, i), e));
    }
}

proof fn lemma_step_covers(policy: Policy, pc: nat, op: Op, d: AbsState, s: AbsState, e: Set<u32>)
    requires
        covers(d, s, e),
        forall|p: u32| step_leaks(policy, op, d, p) ==> #[trigger] e.contains(p),
    ensures
        covers(step_state(pc, op, d), step_state(pc, op, s), e),
        forall|p: u32| step_leaks(policy, op, s, p) ==> #[trigger] e.contains(p),
{
    let d2 = step_state(pc, op, d);
    let s2 = step_state(pc, op, s);
    let kept = without_top(s.stack, op_pops(op));
    if d.stack.len() > 0 {
        assert(covers_slot(d.stack[d.stack.len() - 1], s.stack[s.stack.len() - 1], e));
    }
    assert forall|i: int| 0 <= i implies covers_slot(
        local_at(d2.locals, i),
        #[trigger] local_at(s2.locals, i),
        e,
    ) by {
        assert(covers_slot(local_at(d.locals, i), local_at(s.locals, i), e));
    }
    assert forall|i: int| 0 <= i < s2.stack.len() implies covers_slot(
        d2.stack[i],
        #[trigger] s2.stack[i],
        e,
    ) by {
        if i < kept.len() {
            assert(covers_slot(d.stack[i], s.stack[i], e));
        } else {
            match op {
                Op::LoadLocal(k) | Op::TakeLocal(k) => {
                    assert(covers_slot(
                        local_at(d.locals, k as int),
                        local_at(s.locals, k as int),
                        e,
                    ));
                },
                _ => {},
            }
        }
    }
    assert forall|p: u32| step_leaks(policy, op, s, p) implies #[trigger] e.contains(p) by {
        let k = op_leaked_pops(policy, op);
        let i = choose|i: int|
            0 <= i < s.stack.len() && s.stack.len() - k <= i && #[trigger] s.stack[i] == Slot::Agg(
                p,
            );
        assert(covers_slot(d.stack[i], s.stack[i], e));
        if d.stack[i] == s.stack[i] {
            assert(step_leaks(policy, op, d, p));
        }
    }
}

proof fn lemma_merge_covers(d: AbsState, a: AbsState, b: AbsState, e: Set<u32>)
    requires
        covers(d, a, e),
        covers(d, b, e),
    ensures
        covers(d, merge_states(a, b), e),
        forall|p: u32| merge_loses(a, b, p) ==> #[trigger] e.contains(p),
{
    let m = merge_states(a, b);
    assert forall|i: int| 0 <= i < m.stack.len() implies covers_slot(
        d.stack[i],
        #[trigger] m.stack[i],
        e,
    ) by {
        assert(covers_slot(d.stack[i], a.stack[i], e));
        assert(covers_slot(d.stack[i], b.stack[i], e));
    }
    assert forall|i: int| 0 <= i implies covers_slot(
        local_at(d.locals, i),
        #[trigger] local_at(m.locals, i),
        e,
    ) by {
        assert(covers_slot(local_at(d.locals, i), local_at(a.locals, i), e));
        assert(covers_slot(local_at(d.locals, i), local_at(b.locals, i), e));
    }
    assert forall|p: u32| merge_loses(a, b, p) implies #[trigger] e.contains(p) by {
        if exists|i: int| #[trigger] stack_loses(a.stack, b.stack, i, p) {
            let i = choose|i: int| #[trigger] stack_loses(a.stack, b.stack, i, p);
            assert(covers_slot(d.stack[i], a.stack[i], e));
            assert(covers_slot(d.stack[i], b.stack[i], e));
        } else {
            let i = choose|i: int| #[trigger] local_loses(a.locals, b.locals, i, p);
            assert(covers_slot(local_at(d.locals, i), local_at(a.locals, i), e));
            assert(covers_slot(local_at(d.locals, i), local_at(b.locals, i), e));
        }
    }
}

proof fn lemma_solution_covers(
    code: Seq<Op>,
    entry: AbsState,
    policy: Policy,
    ds: Seq<Option<AbsState>>,
    e: Set<u32>,
    h: nat,
    pc: nat,
    s: AbsState,
)
    requires
        is_solution(code, entry, policy, ds, e),
        depths_agree(code, entry),
        derivable(code, entry, h, pc, s),
        code.len() > 0,
    ensures
        pc < ds.len(),
        ds[pc as int] is Some,
        covers(ds[pc as int]->0, s, e),
    decreases h,
{
    assert(derived(code, entry, pc, s));
    if h == 0 {
        let d = ds[0]->0;
        assert(derived(code, entry, 0, d));
        lemma_absorbs_covers(d, entry, e);
    } else {
        let g = (h - 1) as nat;
        if derivable(code, entry, g, pc, s) {
            lemma_solution_covers(code, entry, policy, ds, e, g, pc, s);
        } else if exists|q: nat, t: AbsState| #[trigger]
            flows(code, q, t, pc, s) && derivable(code, entry, g, q, t) {
            let (q, t) = choose|q: nat, t: AbsState| #[trigger]
                flows(code, q, t, pc, s) && derivable(code, entry, g, q, t);
            lemma_solution_covers(code, entry, policy, ds, e, g, q, t);
            let d = ds[q as int]->0;
            let op = code[q as int];
            lemma_step_covers(policy, q, op, d, t, e);
            assert(absorbed(ds, pc, step_state(q, op, d), e));
            assert(derived(code, entry, q, d));
            lemma_derived_step(code, entry, q, d, pc);
            let target = ds[pc as int]->0;
            assert(derived(code, entry, pc, target));
            lemma_absorbs_covers(target, step_state(q, op, d), e);
            lemma_covers_trans(target, step_state(q, op, d), s, e);
        } else {
            let (a, b) = choose|a: AbsState, b: AbsState|
                s == #[trigger] merge_states(a, b) && derivable(code, entry, g, pc, a)
                    && derivable(code, entry, g, pc, b);
            lemma_solution_covers(code, entry, policy, ds, e, g, pc, a);
            lemma_solution_covers(code, entry, policy, ds, e, g, pc, b);
            lemma_merge_covers(ds[pc as int]->0, a, b, e);
        }
    }
}

/// Law: where all paths agree on the stack depth, the analysis reports exactly
/// the sites that leak from a state that the interpretation can produce. In
/// particular no leak is missed, and the result does not depend on the order
/// in which the worklist was processed.
pub proof fn law_solution_is_exact(
    code: Seq<Op>,
    entry: AbsState,
    policy: Policy,
    ds: Seq<Option<AbsState>>,
    e: Set<u32>,
)
    requires
        code.len() > 0,
        is_solution(code, entry, policy, ds, e),
        depths_agree(code, entry),
    ensures
        forall|p: u32| #[trigger] e.contains(p) <==> flagged(code, entry, policy, p),
{
    assert forall|p: u32| flagged(code, entry, policy, p) implies #[trigger] e.contains(p) by {
        if exists|pc: nat, s: AbsState|
            pc < code.len() && #[trigger] derived(code, entry, pc, s) && step_leaks(
                policy,
                code[pc as int],
                s,
                p,
            ) {
            let (pc, s) = choose|pc: nat, s: AbsState|
                pc < code.len() && #[trigger] derived(code, entry, pc, s) && step_leaks(
                    policy,
                    code[pc as int],
                    s,
                    p,
                );
            let h = choose|h: nat| derivable(code, entry, h, pc, s);
            lemma_solution_covers(code, entry, policy, ds, e, h, pc, s);
            lemma_step_covers(policy, pc, code[pc as int], ds[pc as int]->0, s, e);
        } else {
            let (pc, a, b) = choose|pc: nat, a: AbsState, b: AbsState| #[trigger]
                derived(code, entry, pc, a) && #[trigger] derived(code, entry, pc, b)
                    && merge_loses(a, b, p);
            let h = choose|h: nat| derivable(code, entry, h, pc, a);
            let k = choose|h: nat| derivable(code, entry, h, pc, b);
            lemma_solution_covers(code, entry, policy, ds, e, h, pc, a);
            lemma_solution_covers(code, entry, policy, ds, e, k, pc, b);
            lemma_merge_covers(ds[pc as int]->0, a, b, e);
        }
    }
}

/// The state behind a straight run along `path`, which starts at the entry.
pub open spec fn path_state(code: Seq<Op>, entry: AbsState, path: Seq<nat>) -> AbsState
    decreases path.len(),
{
    if path.len() <= 1 {
        entry
    } else {
        let before = path.drop_last();
        step_state(before.last(), code[before.last() as int], path_state(code, entry, before))
    }
}

/// `path` follows the control flow from the entry.
pub open spec fn is_path(code: Seq<Op>, path: Seq<nat>) -> bool {
    &&& path.len() > 0
    &&& path[0] == 0
    &&& forall|i: int| 0 <= i < path.len() ==> #[trigger] path[i] < code.len()
    &&& forall|i: int|
        1 <= i < path.len() ==> successors(
            path[i - 1],
            code[path[i - 1] as int],
            code.len(),
        ).contains(#[trigger] path[i])
}

proof fn lemma_path_derived(code: Seq<Op>, entry: AbsState, path: Seq<nat>)
    requires
        is_path(code, path),
    ensures
        derived(code, entry, path.last(), path_state(code, entry, path)),
    decreases path.len(),
{
    if path.len() <= 1 {
        assert(derivable(code, entry, 0, 0, entry));
    } else {
        let before = path.drop_last();
        assert forall|i: int| 1 <= i < before.len() implies successors(
            before[i - 1],
            code[before[i - 1] as int],
            code.len(),
        ).contains(#[trigger] before[i]) by {
            assert(path[i] == before[i]);
        }
        assert forall|i: int| 0 <= i < before.len() implies #[trigger] before[i] < code.len() by {
            assert(path[i] == before[i]);
        }
        lemma_path_derived(code, entry, before);
        assert(path[path.len() - 1] == path.last());
        assert(before.last() == path[path.len() - 2]);
        lemma_derived_step(
            code,
            entry,
            before.last(),
            path_state(code, entry, before),
            path.last(),
        );
    }
}

/// Law: a site that the analysis reports as local does not leak on any path
/// through the function.
pub proof fn law_local_site_never_leaks(
    code: Seq<Op>,
    entry: AbsState,
    policy: Policy,
    ds: Seq<Option<AbsState>>,
    e: Set<u32>,
    path: Seq<nat>,
    p: u32,
)
    requires
        is_solution(code, entry, policy, ds, e),
        depths_agree(code, entry),
        is_path(code, path),
        !e.contains(p),
    ensures
        !step_leaks(policy, code[path.last() as int], path_state(code, entry, path), p),
{
    lemma_path_derived(code, entry, path);
    assert(path[path.len() - 1] < code.len());
    law_solution_is_exact(code, entry, policy, ds, e);
}

/// No op of the body returns.
pub open spec fn never_returns(code: Seq<Op>) -> bool {
    forall|i: int| 0 <= i < code.len() ==> !((#[trigger] code[i]) is Return)
}

/// The two policies run over the same states, and only a return makes the
/// difference.
proof fn lemma_policies(
    code: Seq<Op>,
    ds: Seq<Option<AbsState>>,
    wl: Seq<(nat, AbsState)>,
    frame: Set<u32>,
    request: Set<u32>,
)
    requires
        ds.len() == code.len(),
        request.subset_of(frame),
    ensures
        interpreted(code, Policy::RequestScope, ds, wl, request).subset_of(
            interpreted(code, Policy::Frame, ds, wl, frame),
        ),
        never_returns(code) && request == frame ==> interpreted(
            code,
            Policy::RequestScope,
            ds,
            wl,
            request,
        ) == interpreted(code, Policy::Frame, ds, wl, frame),
    decreases unseen(ds), total_rank(ds), wl.len(),
{
    if wl.len() == 0 || wl.last().0 >= ds.len() || !all_bounded(ds, wl) {
    } else {
        let pc = wl.last().0;
        let inc = wl.last().1;
        let rest = wl.drop_last();
        let op = code[pc as int];
        let succs = successors(pc, op, code.len());
        assert(bounded(wl[wl.len() - 1].1));
        match ds[pc as int] {
            None => {
                lemma_update_measures(ds, pc as int, inc);
                let f = with_leaked(frame, Policy::Frame, op, inc);
                let r = with_leaked(request, Policy::RequestScope, op, inc);
                lemma_leaks_alike(op, inc);
                if never_returns(code) && request == frame {
                    assert(r =~= f);
                }
                lemma_policies(
                    code,
                    ds.update(pc as int, Some(inc)),
                    rest + edges(succs, step_state(pc, op, inc)),
                    f,
                    r,
                );
            },
            Some(prev) => {
                let m = merge_states(prev, inc);
                let fl = with_lost(frame, prev, inc);
                let rl = with_lost(request, prev, inc);
                if request == frame {
                    assert(rl =~= fl);
                }
                if m == prev {
                    lemma_policies(code, ds, rest, fl, rl);
                } else {
                    assert(bounded(ds[pc as int]->0));
                    lemma_merge_ranks(prev, inc);
                    lemma_update_measures(ds, pc as int, m);
                    let f = with_leaked(fl, Policy::Frame, op, m);
                    let r = with_leaked(rl, Policy::RequestScope, op, m);
                    lemma_leaks_alike(op, m);
                    if never_returns(code) && request == frame {
                        assert(r =~= f);
                    }
                    lemma_policies(
                        code,
                        ds.update(pc as int, Some(m)),
                        rest + edges(succs, step_state(pc, op, m)),
                        f,
                        r,
                    );
                }
            },
        }
    }
}

proof fn lemma_leaks_alike(op: Op, s: AbsState)
    ensures
        forall|p: u32| #[trigger]
            step_leaks(Policy::RequestScope, op, s, p) ==> step_leaks(Policy::Frame, op, s, p),
        !(op is Return) ==> forall|p: u32| #[trigger]
            step_leaks(Policy::RequestScope, op, s, p) == step_leaks(Policy::Frame, op, s, p),
{
    if op is Return {
        assert forall|p: u32| #[trigger] step_leaks(
            Policy::RequestScope,
            op,
            s,
            p,
        ) implies step_leaks(Policy::Frame, op, s, p) by {}
    }
}

/// The sites of a body do not depend on the flags.
pub proof fn lemma_sites_alike(code: Seq<Op>, a: Set<u32>, b: Set<u32>)
    ensures
        site_list(code, a).len() == site_list(code, b).len(),
        forall|i: int|
            0 <= i < site_list(code, a).len() ==> {
                let x = #[trigger] site_list(code, a)[i];
                let y = site_list(code, b)[i];
                &&& x.pc == y.pc
                &&& x.kind == y.kind
                &&& x.shape_idx == y.shape_idx
                &&& x.field_count == y.field_count
                &&& x.escapes == a.contains(x.pc)
                &&& y.escapes == b.contains(x.pc)
            },
    decreases code.len(),
{
    if code.len() > 0 {
        lemma_sites_alike(code.drop_last(), a, b);
    }
}

/// Law: for every function, the analysis for the request scope and the one for
/// the frame find the same sites in the same order; a site that does not escape
/// the frame does not escape the request, and in a body without a return the
/// two analyses agree.
pub proof fn law_policies_agree(f: Function, frame: EscapeReport, request: EscapeReport)
    requires
        reports(f, Policy::Frame, frame),
        reports(f, Policy::RequestScope, request),
    ensures
        frame.sites@.len() == request.sites@.len(),
        forall|i: int|
            0 <= i < frame.sites@.len() ==> {
                let x = #[trigger] frame.sites@[i];
                let y = request.sites@[i];
                &&& x.pc == y.pc
                &&& x.kind == y.kind
                &&& x.shape_idx == y.shape_idx
                &&& x.field_count == y.field_count
                &&& !x.escapes ==> !y.escapes
                &&& never_returns(f.code@) ==> x.escapes == y.escapes
            },
{
    if !no_sites(f.code@) {
        let a = escaped_sites(f.code@, f.locals_count, f.arity, Policy::Frame);
        let b = escaped_sites(f.code@, f.locals_count, f.arity, Policy::RequestScope);
        lemma_sites_alike(f.code@, a, b);
        lemma_policies(
            f.code@,
            Seq::new(f.code@.len(), |i: int| None),
            seq![(0nat, entry_state(f.locals_count, f.arity))],
            Set::empty(),
            Set::empty(),
        );
    }
}

/// Law: what leaves the request leaves the frame, so every site that may live
/// on the stack may live in the request arena.
pub proof fn law_request_escapes_are_frame_escapes(code: Seq<Op>, entry: AbsState, p: u32)
    ensures
        flagged(code, entry, Policy::RequestScope, p) ==> flagged(code, entry, Policy::Frame, p),
{
    if exists|pc: nat, s: AbsState|
        pc < code.len() && #[trigger] derived(code, entry, pc, s) && step_leaks(
            Policy::RequestScope,
            code[pc as int],
            s,
            p,
        ) {
        let (pc, s) = choose|pc: nat, s: AbsState|
            pc < code.len() && #[trigger] derived(code, entry, pc, s) && step_leaks(
                Policy::RequestScope,
                code[pc as int],
                s,
                p,
            );
        assert(step_leaks(Policy::Frame, code[pc as int], s, p));
    }
}

/// Law: merging slots is commutative, associative and idempotent.
pub proof fn law_slot_merge(a: Slot, b: Slot, c: Slot)
    ensures
        slot_merge(a, b) == slot_merge(b, a),
        slot_merge(slot_merge(a, b), c) == slot_merge(a, slot_merge(b, c)),
        slot_merge(a, a) == a,
{
}

/// Law: an op and its lowered forms act alike on the abstract state, so the
/// analysis classifies lowered code as it did before.
pub proof fn law_lowered_ops_act_alike(policy: Policy, pc: nat, s: AbsState, shape: u32, k: u16)
    ensures
        ({
            let record = Op::MakeRecord { shape_idx: shape, field_count: k };
            let on_stack = Op::AllocStackRecord { shape_idx: shape, field_count: k };
            let in_arena = Op::AllocArenaRecord { shape_idx: shape, field_count: k };
            &&& step_state(pc, on_stack, s) == step_state(pc, record, s)
            &&& step_state(pc, in_arena, s) == step_state(pc, record, s)
            &&& forall|p: u32|
                step_leaks(policy, on_stack, s, p) == step_leaks(policy, record, s, p)
            &&& forall|p: u32|
                step_leaks(policy, in_arena, s, p) == step_leaks(policy, record, s, p)
        }),
        ({
            let tuple = Op::MakeTuple(k);
            let on_stack = Op::AllocStackTuple { arity: k };
            let in_arena = Op::AllocArenaTuple { arity: k };
            &&& step_state(pc, on_stack, s) == step_state(pc, tuple, s)
            &&& step_state(pc, in_arena, s) == step_state(pc, tuple, s)
            &&& forall|p: u32|
                step_leaks(policy, on_stack, s, p) == step_leaks(policy, tuple, s, p)
            &&& forall|p: u32|
                step_leaks(policy, in_arena, s, p) == step_leaks(policy, tuple, s, p)
        }),
{
}

} // verus!
