//! Carrying out the ops of [`plain`].

use vstd::prelude::*;

use crate::op::{resolve_jump, Const, Op};
use crate::program::Program;
use crate::text::{append_decimal, same_text};
use crate::value;
use crate::value::{vals, Val, Value};
use crate::vm::arith::{apply_binary, apply_unary, Computed};
use crate::vm::fault::{expected, mismatch_with, panic_with, Fault, VmError};
use crate::vm::plain::{
    agrees, alloc_arena_record, alloc_arena_tuple, alloc_stack_record, alloc_stack_tuple, binary_op,
    dup_top, elem_of, fused_add_const, fused_add_const_store, fused_eq_jump, fused_field,
    fused_field_op, fused_locals, fused_store_eq_jump, get_elem, get_field, int_local, is_plain,
    jump, jump_when, load_local, local_field, met_local, make_closure, make_list, make_record,
    make_tuple, make_variant, next, no_elem, panic_op, plain, pop_top, push_const, skip,
    store_local, take_local, test_variant, to_arena, to_slab, unary_op, Moved,
};
use crate::vm::records::{
    build_record, const_to_value, get_addend_const, get_int_const, get_variant_name, read_field,
    read_slot, FieldCache, shape_of,
};
use crate::vm::state::{
    drop_top, frame_views, has_local, lemma_vals_add, lemma_vals_update, local, local_slot, push,
    ticked, top_frame, with_top_frame, AllocCounts, FrameView, Machine, State,
};

verus! {

broadcast use crate::value::lemma_view;

/// The last slot from which the longest op can count on.
pub const MAX_PC: usize = usize::MAX - 6;

/// A state with a running frame inside its code.
pub open spec fn running(m: Machine) -> bool {
    m.frames@.len() > 0 && m.frames@.last().pc <= MAX_PC
}

impl Machine {
    /// The slot that the running frame is at.
    pub fn pc(&self) -> (pc: usize)
        requires
            self.frames@.len() > 0,
        ensures
            pc == top_frame(self@).pc,
            pc == self.frames@.last().pc,
    {
        self.frames[self.frames.len() - 1].pc
    }

    /// The function that the running frame runs.
    pub fn fn_id(&self) -> (fn_id: u32)
        requires
            self.frames@.len() > 0,
        ensures
            fn_id == top_frame(self@).fn_id,
    {
        self.frames[self.frames.len() - 1].fn_id
    }

    /// Goes to the next slot.
    pub fn advance(&mut self, k: usize)
        requires
            running(*old(self)),
            k <= 6,
        ensures
            final(self)@ == skip(old(self)@, k as nat),
            final(self).stack == old(self).stack,
            final(self).locals == old(self).locals,
            final(self).slab == old(self).slab,
            final(self).arena == old(self).arena,
            final(self).scopes == old(self).scopes,
            final(self).counts == old(self).counts,
            final(self).hits == old(self).hits,
            final(self).frames@.len() == old(self).frames@.len(),
    {
        let pc = self.pc();
        self.go(pc + k);
    }

    fn op_push_const(&mut self, program: &Program, i: u32) -> (r: Result<Moved, VmError>)
        requires
            running(*old(self)),
        ensures
            agrees(push_const(*program, old(self)@, i), r, final(self)@),
    {
        if (i as usize) >= program.constants.len() {
            return Err(panic_with("constant index out of range"));
        }
        let v = const_to_value(&program.constants[i as usize]);
        self.advance(1);
        self.push(v);
        Ok(Moved::Gone)
    }

    fn op_pop(&mut self) -> (r: Result<Moved, VmError>)
        requires
            running(*old(self)),
        ensures
            agrees(pop_top(old(self)@), r, final(self)@),
    {
        if self.stack.len() < 1 {
            return Err(VmError::StackUnderflow);
        }
        self.advance(1);
        self.take_one();
        Ok(Moved::Gone)
    }

    fn op_dup(&mut self) -> (r: Result<Moved, VmError>)
        requires
            running(*old(self)),
        ensures
            agrees(dup_top(old(self)@), r, final(self)@),
    {
        if self.stack.len() < 1 {
            return Err(VmError::StackUnderflow);
        }
        let v = self.stack[self.stack.len() - 1].duplicate();
        self.advance(1);
        self.push(v);
        Ok(Moved::Gone)
    }

    /// Where a local of the running frame is held, if it is held.
    pub fn find_local(&self, i: u16) -> (at: Option<usize>)
        requires
            self.frames@.len() > 0,
        ensures
            at is Some <==> has_local(self@, i),
            at matches Some(k) ==> k == local_slot(self@, i) && k < self.locals@.len(),
    {
        let start: usize = self.frames[self.frames.len() - 1].locals_start;
        let n: usize = self.locals.len();
        match start.checked_add(i as usize) {
            Some(at) => if at < n {
                Some(at)
            } else {
                None
            },
            None => None,
        }
    }

    fn op_load_local(&mut self, i: u16) -> (r: Result<Moved, VmError>)
        requires
            running(*old(self)),
        ensures
            agrees(load_local(old(self)@, i), r, final(self)@),
    {
        match self.find_local(i) {
            Some(at) => {
                let v = self.locals[at].duplicate();
                self.advance(1);
                self.push(v);
                Ok(Moved::Gone)
            },
            None => Err(panic_with("local index out of range")),
        }
    }

    /// Replaces a local.
    fn put_local(&mut self, at: usize, v: Value) -> (before: Value)
        requires
            at < old(self).locals@.len(),
        ensures
            final(self)@ == (State {
                locals: old(self)@.locals.update(at as int, v@),
                ..old(self)@
            }),
            before == old(self).locals@[at as int],
            final(self).stack == old(self).stack,
            final(self).frames == old(self).frames,
    {
        let mut v = v;
        let ghost new = v;
        std::mem::swap(&mut self.locals[at], &mut v);
        proof {
            lemma_vals_update(old(self).locals@, at as int, new);
            assert(self.locals@ =~= old(self).locals@.update(at as int, new));
        }
        v
    }

    fn op_take_local(&mut self, i: u16) -> (r: Result<Moved, VmError>)
        requires
            running(*old(self)),
        ensures
            agrees(take_local(old(self)@, i), r, final(self)@),
    {
        match self.find_local(i) {
            Some(at) => {
                self.advance(1);
                let v = self.put_local(at, Value::Unit);
                self.push(v);
                Ok(Moved::Gone)
            },
            None => Err(panic_with("local index out of range")),
        }
    }

    fn op_store_local(&mut self, i: u16) -> (r: Result<Moved, VmError>)
        requires
            running(*old(self)),
        ensures
            agrees(store_local(old(self)@, i), r, final(self)@),
    {
        if self.stack.len() < 1 {
            return Err(VmError::StackUnderflow);
        }
        match self.find_local(i) {
            Some(at) => {
                self.advance(1);
                let v = self.take_one();
                self.put_local(at, v);
                Ok(Moved::Gone)
            },
            None => Err(panic_with("local index out of range")),
        }
    }
}

impl Machine {
    /// Builds a record on the heap.
    fn op_make_record(
        &mut self,
        program: &Program,
        shape_idx: u32,
        n: u16,
        counts: AllocCounts,
    ) -> (r: Result<Moved, VmError>)
        requires
            running(*old(self)),
        ensures
            agrees(make_record(*program, old(self)@, shape_idx, n, counts), r, final(self)@),
    {
        if self.stack.len() < n as usize {
            return Err(VmError::StackUnderflow);
        }
        self.advance(1);
        self.counts = counts;
        let values = self.take_top(n as usize);
        match build_record(program, shape_idx, values) {
            Ok(v) => {
                self.push(v);
                Ok(Moved::Gone)
            },
            Err(e) => Err(e),
        }
    }

    /// Builds a tuple on the heap.
    fn op_make_tuple(&mut self, n: u16, counts: AllocCounts) -> (r: Result<Moved, VmError>)
        requires
            running(*old(self)),
        ensures
            agrees(make_tuple(old(self)@, n, counts), r, final(self)@),
    {
        if self.stack.len() < n as usize {
            return Err(VmError::StackUnderflow);
        }
        self.advance(1);
        self.counts = counts;
        let items = self.take_top(n as usize);
        self.push(Value::Tuple(items));
        Ok(Moved::Gone)
    }

    fn op_to_slab(&mut self, n: u16, handle: Value) -> (r: Result<Moved, VmError>)
        requires
            running(*old(self)),
            top_frame(old(self)@).budget >= n,
        ensures
            agrees(to_slab(old(self)@, n, handle@), r, final(self)@),
    {
        if self.stack.len() < n as usize {
            return Err(VmError::StackUnderflow);
        }
        let ghost s = self@;
        self.advance(1);
        let i: usize = self.frames.len() - 1;
        let ghost advanced = self.frames@;
        assert forall|j: int| 0 <= j < advanced.len() implies (#[trigger] advanced[j])@ == next(
            s,
        ).frames[j] by {
            assert(self@.frames[j] == advanced[j]@);
        }
        let left: u32 = self.frames[i].stack_record_budget_remaining - n as u32;
        self.frames[i].stack_record_budget_remaining = left;
        proof {
            let f = top_frame(s);
            assert(frame_views(self.frames@) =~= with_top_frame(
                next(s),
                FrameView { pc: f.pc + 1, budget: (f.budget - n) as nat, ..f },
            ).frames);
        }
        self.counts.stack_record_allocs = ticked(self.counts.stack_record_allocs);
        let mut values = self.take_top(n as usize);
        proof {
            lemma_vals_add(self.slab@, values@);
        }
        self.slab.append(&mut values);
        self.push(handle);
        Ok(Moved::Gone)
    }

    fn op_to_arena(&mut self, n: u16, handle: Value) -> (r: Result<Moved, VmError>)
        requires
            running(*old(self)),
        ensures
            agrees(to_arena(old(self)@, n, handle@), r, final(self)@),
    {
        if self.stack.len() < n as usize {
            return Err(VmError::StackUnderflow);
        }
        self.advance(1);
        self.counts.arena_record_allocs = ticked(self.counts.arena_record_allocs);
        let mut values = self.take_top(n as usize);
        proof {
            lemma_vals_add(self.arena@, values@);
        }
        self.arena.append(&mut values);
        self.push(handle);
        Ok(Moved::Gone)
    }

    /// The remaining slab budget of the running frame.
    fn budget(&self) -> (b: u32)
        requires
            self.frames@.len() > 0,
        ensures
            b == top_frame(self@).budget,
    {
        self.frames[self.frames.len() - 1].stack_record_budget_remaining
    }

    fn op_alloc_stack_record(&mut self, program: &Program, shape_idx: u32, n: u16) -> (r: Result<
        Moved,
        VmError,
    >)
        requires
            running(*old(self)),
        ensures
            agrees(alloc_stack_record(*program, old(self)@, shape_idx, n), r, final(self)@),
    {
        if self.budget() < n as u32 {
            let mut counts = self.counts;
            counts.stack_record_heap_fallbacks = ticked(counts.stack_record_heap_fallbacks);
            self.op_make_record(program, shape_idx, n, counts)
        } else {
            let slab_start: u32 = self.slab.len() as u32;
            self.op_to_slab(
                n,
                Value::StackRecord { shape_id: shape_idx, slab_start, field_count: n },
            )
        }
    }

    fn op_alloc_stack_tuple(&mut self, n: u16) -> (r: Result<Moved, VmError>)
        requires
            running(*old(self)),
        ensures
            agrees(alloc_stack_tuple(old(self)@, n), r, final(self)@),
    {
        if self.budget() < n as u32 {
            let mut counts = self.counts;
            counts.stack_record_heap_fallbacks = ticked(counts.stack_record_heap_fallbacks);
            self.op_make_tuple(n, counts)
        } else {
            let slab_start: u32 = self.slab.len() as u32;
            self.op_to_slab(n, Value::StackTuple { slab_start, arity: n })
        }
    }

    fn op_alloc_arena_record(&mut self, program: &Program, shape_idx: u32, n: u16) -> (r: Result<
        Moved,
        VmError,
    >)
        requires
            running(*old(self)),
        ensures
            agrees(alloc_arena_record(*program, old(self)@, shape_idx, n), r, final(self)@),
    {
        if self.scopes.len() == 0 {
            let mut counts = self.counts;
            counts.arena_record_heap_fallbacks = ticked(counts.arena_record_heap_fallbacks);
            self.op_make_record(program, shape_idx, n, counts)
        } else {
            let slab_start: u32 = self.arena.len() as u32;
            self.op_to_arena(
                n,
                Value::ArenaRecord { shape_id: shape_idx, slab_start, field_count: n },
            )
        }
    }

    fn op_alloc_arena_tuple(&mut self, n: u16) -> (r: Result<Moved, VmError>)
        requires
            running(*old(self)),
        ensures
            agrees(alloc_arena_tuple(old(self)@, n), r, final(self)@),
    {
        if self.scopes.len() == 0 {
            let mut counts = self.counts;
            counts.arena_record_heap_fallbacks = ticked(counts.arena_record_heap_fallbacks);
            self.op_make_tuple(n, counts)
        } else {
            let slab_start: u32 = self.arena.len() as u32;
            self.op_to_arena(n, Value::ArenaTuple { slab_start, arity: n })
        }
    }

    fn op_make_list(&mut self, n: u32) -> (r: Result<Moved, VmError>)
        requires
            running(*old(self)),
        ensures
            agrees(make_list(old(self)@, n), r, final(self)@),
    {
        if self.stack.len() < n as usize {
            return Err(VmError::StackUnderflow);
        }
        self.advance(1);
        let items = self.take_top(n as usize);
        self.push(Value::List(items));
        Ok(Moved::Gone)
    }

    fn op_make_variant(&mut self, program: &Program, name_idx: u32, n: u16) -> (r: Result<
        Moved,
        VmError,
    >)
        requires
            running(*old(self)),
        ensures
            agrees(make_variant(*program, old(self)@, name_idx, n), r, final(self)@),
    {
        if self.stack.len() < n as usize {
            return Err(VmError::StackUnderflow);
        }
        let name = match get_variant_name(program, name_idx) {
            Ok(name) => name.clone(),
            Err(e) => return Err(e),
        };
        self.advance(1);
        let args = self.take_top(n as usize);
        self.push(Value::Variant { name, args });
        Ok(Moved::Gone)
    }

    fn op_make_closure(&mut self, program: &Program, fn_id: u32, n: u16) -> (r: Result<
        Moved,
        VmError,
    >)
        requires
            running(*old(self)),
        ensures
            agrees(make_closure(*program, old(self)@, fn_id, n), r, final(self)@),
    {
        if self.stack.len() < n as usize {
            return Err(VmError::StackUnderflow);
        }
        if (fn_id as usize) >= program.functions.len() {
            return Err(panic_with("function index out of range"));
        }
        let body_hash = program.functions[fn_id as usize].body_hash;
        self.advance(1);
        let captures = self.take_top(n as usize);
        self.push(Value::Closure { fn_id, body_hash, captures });
        Ok(Moved::Gone)
    }

    fn op_get_field(
        &mut self,
        cache: &mut FieldCache,
        name_idx: u32,
        site_idx: u32,
    ) -> (r: Result<Moved, VmError>)
        requires
            running(*old(self)),
        ensures
            agrees(
                get_field(old(cache).program(), old(self)@, name_idx, site_idx),
                r,
                final(self)@,
            ),
            final(cache).program() == old(cache).program(),
    {
        if self.stack.len() < 1 {
            return Err(VmError::StackUnderflow);
        }
        let shape_id = shape_of(&self.stack[self.stack.len() - 1]);
        self.record_ic_hit(site_idx, shape_id);
        let fn_id = self.fn_id();
        let got = read_field(
            cache,
            &self.slab,
            &self.arena,
            &self.stack[self.stack.len() - 1],
            fn_id,
            name_idx,
            site_idx,
            "GetField on non-record: ",
            "arena record",
        );
        self.advance(1);
        self.take_one();
        match got {
            Ok(v) => {
                self.push(v);
                Ok(Moved::Gone)
            },
            Err(e) => Err(e),
        }
    }

    fn op_get_elem(&mut self, i: u16) -> (r: Result<Moved, VmError>)
        requires
            running(*old(self)),
        ensures
            agrees(get_elem(old(self)@, i), r, final(self)@),
    {
        if self.stack.len() < 1 {
            return Err(VmError::StackUnderflow);
        }
        self.advance(1);
        let v = self.take_one();
        match read_elem(&self.slab, &self.arena, v, i) {
            Ok(v) => {
                self.push(v);
                Ok(Moved::Gone)
            },
            Err(e) => Err(e),
        }
    }

    fn op_test_variant(&mut self, program: &Program, i: u32) -> (r: Result<Moved, VmError>)
        requires
            running(*old(self)),
        ensures
            agrees(test_variant(*program, old(self)@, i), r, final(self)@),
    {
        let name = match get_variant_name(program, i) {
            Ok(name) => name,
            Err(e) => return Err(e),
        };
        if self.stack.len() < 1 {
            return Err(VmError::StackUnderflow);
        }
        let top = &self.stack[self.stack.len() - 1];
        assert(top@ == value::view_of(*top));
        match top {
            Value::Variant { name: tag, .. } => {
                let same = same_text(tag.as_str(), name.as_str());
                self.advance(1);
                self.take_one();
                self.push(Value::Bool(same));
                Ok(Moved::Gone)
            },
            other => Err(mismatch_with("TestVariant on non-variant: ", other)),
        }
    }

    /// Goes to a slot relative to the slot `width` further on.
    fn op_jump(&mut self, program: &Program, width: usize, off: i32) -> (r: Result<Moved, VmError>)
        requires
            running(*old(self)),
            width <= 8,
        ensures
            agrees(
                jump(*program, old(self)@, top_frame(old(self)@).pc + width as nat, off),
                r,
                final(self)@,
            ),
    {
        let fn_id = self.fn_id();
        let n: usize = if (fn_id as usize) < program.functions.len() {
            program.functions[fn_id as usize].code.len()
        } else {
            0
        };
        match resolve_jump(self.pc(), width, off, n) {
            Some(t) => {
                self.go(t);
                Ok(Moved::Gone)
            },
            None => Err(panic_with("jump out of range")),
        }
    }

    fn op_jump_when(&mut self, program: &Program, when: bool, off: i32) -> (r: Result<
        Moved,
        VmError,
    >)
        requires
            running(*old(self)),
        ensures
            agrees(jump_when(*program, old(self)@, when, off), r, final(self)@),
    {
        if self.stack.len() < 1 {
            return Err(VmError::StackUnderflow);
        }
        let top = &self.stack[self.stack.len() - 1];
        assert(top@ == value::view_of(*top));
        match top {
            Value::Bool(b) => {
                let b = *b;
                if b == when {
                    self.take_one();
                    self.op_jump(program, 1, off)
                } else {
                    self.advance(1);
                    self.take_one();
                    Ok(Moved::Gone)
                }
            },
            other => Err(expected("Bool", other)),
        }
    }

    fn op_unary(&mut self, op: Op) -> (r: Result<Moved, VmError>)
        requires
            running(*old(self)),
        ensures
            agrees(unary_op(old(self)@, op), r, final(self)@),
    {
        if self.stack.len() < 1 {
            return Err(VmError::StackUnderflow);
        }
        self.advance(1);
        let a = self.take_one();
        match apply_unary(op, a) {
            Computed::Value(v) => {
                self.push(v);
                Ok(Moved::Gone)
            },
            Computed::Fail(e) => Err(e),
            Computed::Ask(f, x, y) => Ok(Moved::Asked(f, x, y)),
        }
    }

    fn op_binary(&mut self, op: Op) -> (r: Result<Moved, VmError>)
        requires
            running(*old(self)),
        ensures
            agrees(binary_op(old(self)@, op), r, final(self)@),
    {
        if self.stack.len() < 2 {
            return Err(VmError::StackUnderflow);
        }
        let ghost s = self@;
        self.advance(1);
        let b = self.take_one();
        let a = self.take_one();
        assert(self@.stack =~= drop_top(next(s), 2).stack);
        match apply_binary(op, a, b) {
            Computed::Value(v) => {
                self.push(v);
                Ok(Moved::Gone)
            },
            Computed::Fail(e) => Err(e),
            Computed::Ask(f, x, y) => Ok(Moved::Asked(f, x, y)),
        }
    }

    fn op_panic(&self, program: &Program, i: u32) -> (r: Result<Moved, VmError>)
        ensures
            agrees(panic_op(*program, self@, i), r, self@),
    {
        if (i as usize) >= program.constants.len() {
            return Err(panic_with("constant index out of range"));
        }
        match &program.constants[i as usize] {
            Const::Str(s) => Err(VmError::Panic(s.clone())),
            _ => Err(panic_with("panic")),
        }
    }

    /// The integer in a local.
    fn get_int_local(&self, i: u16) -> (r: Result<i64, VmError>)
        requires
            self.frames@.len() > 0,
        ensures
            match r {
                Ok(n) => int_local(self@, i) == Ok::<i64, Fault>(n),
                Err(e) => int_local(self@, i) == Err::<i64, Fault>(e@),
            },
    {
        match self.find_local(i) {
            Some(at) => {
                let v = &self.locals[at];
                assert(v@ == value::view_of(*v));
                match v {
                    Value::Int(n) => Ok(*n),
                    other => Err(expected("Int", other)),
                }
            },
            None => Err(panic_with("local index out of range")),
        }
    }

    fn op_fused_add_const(&mut self, program: &Program, i: u16, c: u32) -> (r: Result<
        Moved,
        VmError,
    >)
        requires
            running(*old(self)),
        ensures
            agrees(fused_add_const(*program, old(self)@, i, c), r, final(self)@),
    {
        let a = match self.get_int_local(i) {
            Ok(a) => a,
            Err(e) => return Err(e),
        };
        let b = match get_addend_const(
            program,
            c,
            "LoadLocalAddIntConst expected Int const, got ",
        ) {
            Ok(b) => b,
            Err(e) => return Err(e),
        };
        self.advance(3);
        self.push(Value::Int(a.wrapping_add(b)));
        Ok(Moved::Gone)
    }

    fn op_fused_add_const_store(&mut self, program: &Program, src: u16, c: u32, dest: u16) -> (r:
        Result<Moved, VmError>)
        requires
            running(*old(self)),
        ensures
            agrees(fused_add_const_store(*program, old(self)@, src, c, dest), r, final(self)@),
    {
        let a = match self.get_int_local(src) {
            Ok(a) => a,
            Err(e) => return Err(e),
        };
        let b = match get_addend_const(
            program,
            c,
            "LoadLocalAddIntConstStoreLocal expected Int const, got ",
        ) {
            Ok(b) => b,
            Err(e) => return Err(e),
        };
        match self.find_local(dest) {
            Some(at) => {
                self.advance(4);
                self.put_local(at, Value::Int(a.wrapping_add(b)));
                Ok(Moved::Gone)
            },
            None => Err(panic_with("local index out of range")),
        }
    }

    fn op_fused_locals(&mut self, op: Op, lhs: u16, rhs: u16) -> (r: Result<Moved, VmError>)
        requires
            running(*old(self)),
        ensures
            agrees(fused_locals(old(self)@, op, lhs, rhs), r, final(self)@),
    {
        let a = match self.get_int_local(lhs) {
            Ok(a) => a,
            Err(e) => return Err(e),
        };
        let b = match self.get_int_local(rhs) {
            Ok(b) => b,
            Err(e) => return Err(e),
        };
        self.advance(3);
        match apply_binary(op, Value::Int(a), Value::Int(b)) {
            Computed::Value(v) => {
                self.push(v);
                Ok(Moved::Gone)
            },
            Computed::Fail(e) => Err(e),
            Computed::Ask(f, x, y) => Ok(Moved::Asked(f, x, y)),
        }
    }

    fn op_fused_eq_jump(&mut self, program: &Program, i: u16, c: u32, off: i32) -> (r: Result<
        Moved,
        VmError,
    >)
        requires
            running(*old(self)),
        ensures
            agrees(fused_eq_jump(*program, old(self)@, i, c, off), r, final(self)@),
    {
        let a = match self.get_int_local(i) {
            Ok(a) => a,
            Err(e) => return Err(e),
        };
        let b = match get_int_const(program, c, "LoadLocalEqIntConstJumpIfNot expects Const::Int") {
            Ok(b) => b,
            Err(e) => return Err(e),
        };
        if a == b {
            self.advance(4);
            Ok(Moved::Gone)
        } else {
            self.op_jump(program, 4, off)
        }
    }

    fn op_fused_store_eq_jump(
        &mut self,
        program: &Program,
        src: u16,
        dst: u16,
        c: u32,
        off: i32,
    ) -> (r: Result<Moved, VmError>)
        requires
            running(*old(self)),
        ensures
            agrees(fused_store_eq_jump(*program, old(self)@, src, dst, c, off), r, final(self)@),
    {
        let a = match self.get_int_local(src) {
            Ok(a) => a,
            Err(e) => return Err(e),
        };
        let at = match self.find_local(dst) {
            Some(at) => at,
            None => return Err(panic_with("local index out of range")),
        };
        self.put_local(at, Value::Int(a));
        let b = match get_int_const(
            program,
            c,
            "LoadLocalStoreEqIntConstJumpIfNot expects Const::Int",
        ) {
            Ok(b) => b,
            Err(e) => return Err(e),
        };
        if a == b {
            self.advance(6);
            Ok(Moved::Gone)
        } else {
            self.op_jump(program, 6, off)
        }
    }

    /// The field of a record in a local, read in place.
    fn read_local_record_field(
        &mut self,
        cache: &mut FieldCache,
        local_idx: u16,
        name_idx: u32,
        site_idx: u32,
        what: &str,
    ) -> (r: Result<Value, VmError>)
        requires
            running(*old(self)),
        ensures
            final(cache).program() == old(cache).program(),
            final(self)@ == met_local(old(self)@, site_idx, local_idx),
            final(self).frames == old(self).frames,
            final(self).stack == old(self).stack,
            match r {
                Ok(v) => local_field(old(cache).program(), old(self)@, local_idx, name_idx, what@)
                    == Ok::<Val, Fault>(v@),
                Err(e) => local_field(old(cache).program(), old(self)@, local_idx, name_idx, what@)
                    == Err::<Val, Fault>(e@),
            },
    {
        match self.find_local(local_idx) {
            Some(at) => {
                let shape_id = shape_of(&self.locals[at]);
                self.record_ic_hit(site_idx, shape_id);
                read_field(
                    cache,
                    &self.slab,
                    &self.arena,
                    &self.locals[at],
                    self.fn_id(),
                    name_idx,
                    site_idx,
                    what,
                    "stack record",
                )
            },
            None => Err(panic_with("local index out of range")),
        }
    }

    fn op_fused_field(
        &mut self,
        cache: &mut FieldCache,
        i: u16,
        name_idx: u32,
        site_idx: u32,
    ) -> (r: Result<Moved, VmError>)
        requires
            running(*old(self)),
        ensures
            agrees(
                fused_field(old(cache).program(), old(self)@, i, name_idx, site_idx),
                r,
                final(self)@,
            ),
            final(cache).program() == old(cache).program(),
    {
        let got = self.read_local_record_field(
            cache,
            i,
            name_idx,
            site_idx,
            "LoadLocalGetField on non-record: ",
        );
        self.advance(2);
        match got {
            Ok(v) => {
                self.push(v);
                Ok(Moved::Gone)
            },
            Err(e) => Err(e),
        }
    }

    fn op_fused_field_op(
        &mut self,
        cache: &mut FieldCache,
        op: Op,
        i: u16,
        name_idx: u32,
        site_idx: u32,
        what: &str,
    ) -> (r: Result<Moved, VmError>)
        requires
            running(*old(self)),
        ensures
            agrees(
                fused_field_op(old(cache).program(), old(self)@, op, i, name_idx, site_idx, what@),
                r,
                final(self)@,
            ),
            final(cache).program() == old(cache).program(),
    {
        if self.stack.len() < 1 {
            return Err(VmError::StackUnderflow);
        }
        let top = &self.stack[self.stack.len() - 1];
        assert(top@ == value::view_of(*top));
        let acc = match top {
            Value::Int(n) => *n,
            other => return Err(expected("Int", other)),
        };
        let got = match self.read_local_record_field(cache, i, name_idx, site_idx, what) {
            Ok(v) => v,
            Err(e) => return Err(e),
        };
        let b = match &got {
            Value::Int(n) => *n,
            other => return Err(expected("Int", other)),
        };
        self.advance(3);
        self.take_one();
        match apply_binary(op, Value::Int(acc), Value::Int(b)) {
            Computed::Value(v) => {
                self.push(v);
                Ok(Moved::Gone)
            },
            Computed::Fail(e) => Err(e),
            Computed::Ask(f, x, y) => Ok(Moved::Asked(f, x, y)),
        }
    }
}

impl Machine {
    /// Carries out an op that works on the running frame alone.
    pub fn step_plain(&mut self, program: &Program, cache: &mut FieldCache, op: Op) -> (r: Result<
        Moved,
        VmError,
    >)
        requires
            running(*old(self)),
            is_plain(op),
            old(cache).program() == *program,
        ensures
            agrees(plain(*program, old(self)@, op), r, final(self)@),
            final(cache).program() == *program,
    {
        match op {
            Op::PushConst(i) => self.op_push_const(program, i),
            Op::Pop => self.op_pop(),
            Op::Dup => self.op_dup(),
            Op::LoadLocal(i) => self.op_load_local(i),
            Op::TakeLocal(i) => self.op_take_local(i),
            Op::StoreLocal(i) => self.op_store_local(i),
            Op::MakeRecord { shape_idx, field_count } => {
                let mut counts = self.counts;
                counts.heap_record_allocs = ticked(counts.heap_record_allocs);
                self.op_make_record(program, shape_idx, field_count, counts)
            },
            Op::AllocStackRecord { shape_idx, field_count } => self.op_alloc_stack_record(
                program,
                shape_idx,
                field_count,
            ),
            Op::AllocArenaRecord { shape_idx, field_count } => self.op_alloc_arena_record(
                program,
                shape_idx,
                field_count,
            ),
            Op::MakeTuple(n) => {
                let counts = self.counts;
                self.op_make_tuple(n, counts)
            },
            Op::AllocStackTuple { arity } => self.op_alloc_stack_tuple(arity),
            Op::AllocArenaTuple { arity } => self.op_alloc_arena_tuple(arity),
            Op::MakeList(n) => self.op_make_list(n),
            Op::MakeVariant { name_idx, arity } => self.op_make_variant(program, name_idx, arity),
            Op::MakeClosure { fn_id, capture_count } => self.op_make_closure(
                program,
                fn_id,
                capture_count,
            ),
            Op::GetField { name_idx, site_idx } => self.op_get_field(cache, name_idx, site_idx),
            Op::GetElem(i) => self.op_get_elem(i),
            Op::TestVariant(i) => self.op_test_variant(program, i),
            Op::Jump(off) => self.op_jump(program, 1, off),
            Op::JumpIf(off) => self.op_jump_when(program, true, off),
            Op::JumpIfNot(off) => self.op_jump_when(program, false, off),
            Op::Panic(i) => self.op_panic(program, i),
            Op::LoadLocalAddIntConst { local_idx, imm_const_idx } => self.op_fused_add_const(
                program,
                local_idx,
                imm_const_idx,
            ),
            Op::LoadLocalAddIntConstStoreLocal { src, imm_const_idx, dest } =>
                self.op_fused_add_const_store(program, src, imm_const_idx, dest),
            Op::LoadLocalAddLocal { lhs_idx, rhs_idx } => self.op_fused_locals(
                Op::IntAdd,
                lhs_idx,
                rhs_idx,
            ),
            Op::LoadLocalSubLocal { lhs_idx, rhs_idx } => self.op_fused_locals(
                Op::IntSub,
                lhs_idx,
                rhs_idx,
            ),
            Op::LoadLocalMulLocal { lhs_idx, rhs_idx } => self.op_fused_locals(
                Op::IntMul,
                lhs_idx,
                rhs_idx,
            ),
            Op::LoadLocalEqIntConstJumpIfNot { local_idx, imm_const_idx, jump_offset } =>
                self.op_fused_eq_jump(program, local_idx, imm_const_idx, jump_offset),
            Op::LoadLocalStoreEqIntConstJumpIfNot { src, dst, imm_const_idx, jump_offset } =>
                self.op_fused_store_eq_jump(program, src, dst, imm_const_idx, jump_offset),
            Op::LoadLocalGetField { local_idx, name_idx, site_idx } => self.op_fused_field(
                cache,
                local_idx,
                name_idx,
                site_idx,
            ),
            Op::LoadLocalGetFieldAdd { local_idx, name_idx, site_idx } => self.op_fused_field_op(
                cache,
                Op::IntAdd,
                local_idx,
                name_idx,
                site_idx,
                "LoadLocalGetFieldAdd on non-record: ",
            ),
            Op::LoadLocalGetFieldSub { local_idx, name_idx, site_idx } => self.op_fused_field_op(
                cache,
                Op::IntSub,
                local_idx,
                name_idx,
                site_idx,
                "LoadLocalGetFieldSub on non-record: ",
            ),
            Op::LoadLocalGetFieldMul { local_idx, name_idx, site_idx } => self.op_fused_field_op(
                cache,
                Op::IntMul,
                local_idx,
                name_idx,
                site_idx,
                "LoadLocalGetFieldMul on non-record: ",
            ),
            Op::IntNeg
            | Op::FloatNeg
            | Op::NumNeg
            | Op::BoolNot
            | Op::StrLen
            | Op::BytesLen
            | Op::GetVariant(_)
            | Op::GetVariantArg(_)
            | Op::GetListElem(_)
            | Op::GetListLen => self.op_unary(op),
            _ => self.op_binary(op),
        }
    }
}

/// Reads an element of a tuple.
pub(crate) fn read_elem(slab: &Vec<Value>, arena: &Vec<Value>, v: Value, i: u16) -> (r: Result<
    Value,
    VmError,
>)
    ensures
        match r {
            Ok(x) => elem_of(vals(slab@), vals(arena@), v@, i) == Ok::<Val, Fault>(x@),
            Err(e) => elem_of(vals(slab@), vals(arena@), v@, i) == Err::<Val, Fault>(e@),
        },
{
    match v {
        Value::Tuple(items) => {
            let mut items = items;
            if (i as usize) < items.len() {
                assert(vals(items@)[i as int] == items@[i as int]@);
                Ok(items.swap_remove(i as usize))
            } else {
                Err(elem_error(i))
            }
        },
        Value::StackTuple { slab_start, arity } => if i >= arity {
            Err(elem_error(i))
        } else {
            read_slot(slab, slab_start, i as usize)
        },
        Value::ArenaTuple { slab_start, arity } => if i >= arity {
            Err(elem_error(i))
        } else {
            read_slot(arena, slab_start, i as usize)
        },
        other => Err(mismatch_with("GetElem on non-tuple: ", &other)),
    }
}

fn elem_error(i: u16) -> (e: VmError)
    ensures
        e@ == no_elem(i),
{
    let mut t = "tuple index ".to_owned();
    append_decimal(&mut t, i as u128);
    t.append(" out of range");
    VmError::TypeMismatch(t)
}

} // verus!
