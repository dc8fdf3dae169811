//! The code of the iterator combinators and of the fold over a map.
//!
//! A list iterator is the variant `__IterEager(list, position)`, a lazy one
//! `__IterLazy(seed, step)`, a database cursor `__IterCursor(handle)`. The
//! arguments of a combinator are in locals already, but for those that are
//! taken from the stack.

use vstd::prelude::*;

use crate::compiler::draft::{emitted_all, interned, number, with_local, Draft, FnCompiler};
use crate::compiler::pool::Constant;
use crate::op::Op;

verus! {

/// An iterator at the start of the list on the stack.
pub open spec fn iter_from_list(s: Draft) -> Draft {
    let zero = number(s, Constant::Int(0));
    let s = interned(s, Constant::Int(0));
    let eager = number(s, Constant::VariantName("__IterEager"@));
    let s = interned(s, Constant::VariantName("__IterEager"@));
    emitted_all(
        s,
        seq![
            Op::PushConst(zero),
            Op::MakeVariant { name_idx: eager, arity: 2 },
        ],
    )
}

/// A lazy iterator over the seed and the step function on the stack.
pub open spec fn iter_unfold(s: Draft) -> Draft {
    let lazy = number(s, Constant::VariantName("__IterLazy"@));
    let s = interned(s, Constant::VariantName("__IterLazy"@));
    emitted_all(
        s,
        seq![
            Op::MakeVariant { name_idx: lazy, arity: 2 },
        ],
    )
}

/// The next element with the iterator behind it, or `None`. A lazy iterator
/// calls its step function, a cursor asks the database, and a list iterator
/// reads at its position. Whichever it is, the code leaves one value.
pub open spec fn iter_next(s: Draft, it: u16) -> Draft {
    let lazy = number(s, Constant::VariantName("__IterLazy"@));
    let s = interned(s, Constant::VariantName("__IterLazy"@));
    let nid_lazy = number(s, Constant::NodeId("n_iter_next_lazy"@));
    let s = interned(s, Constant::NodeId("n_iter_next_lazy"@));
    let some = number(s, Constant::VariantName("Some"@));
    let s = interned(s, Constant::VariantName("Some"@));
    let none = number(s, Constant::VariantName("None"@));
    let s = interned(s, Constant::VariantName("None"@));
    let cursor = number(s, Constant::VariantName("__IterCursor"@));
    let s = interned(s, Constant::VariantName("__IterCursor"@));
    let kind_idx = number(s, Constant::Str("sql"@));
    let s = interned(s, Constant::Str("sql"@));
    let op_idx = number(s, Constant::Str("cursor_next"@));
    let s = interned(s, Constant::Str("cursor_next"@));
    let nid_cursor = number(s, Constant::NodeId("n_iter_next_cursor"@));
    let s = interned(s, Constant::NodeId("n_iter_next_cursor"@));
    let one = number(s, Constant::Int(1));
    let s = interned(s, Constant::Int(1));
    let eager = number(s, Constant::VariantName("__IterEager"@));
    let s = interned(s, Constant::VariantName("__IterEager"@));
    let seed = s.next_local;
    let s = with_local(s, "__in_seed"@);
    let step = s.next_local;
    let s = with_local(s, "__in_step"@);
    let opt = s.next_local;
    let s = with_local(s, "__in_opt"@);
    let pair = s.next_local;
    let s = with_local(s, "__in_pair"@);
    let handle = s.next_local;
    let s = with_local(s, "__in_handle"@);
    let cur_opt = s.next_local;
    let s = with_local(s, "__in_cur_opt"@);
    let list = s.next_local;
    let s = with_local(s, "__in_list"@);
    let idx = s.next_local;
    let s = with_local(s, "__in_idx"@);
    let s = emitted_all(
        s,
        seq![
            Op::LoadLocal(it),
            Op::TestVariant(lazy),
            Op::JumpIfNot(27),
            Op::LoadLocal(it),
            Op::GetVariantArg(0),
            Op::StoreLocal(seed),
            Op::LoadLocal(it),
            Op::GetVariantArg(1),
            Op::StoreLocal(step),
            Op::LoadLocal(step),
            Op::LoadLocal(seed),
            Op::CallClosure { arity: 1, node_id_idx: nid_lazy },
            Op::StoreLocal(opt),
            Op::LoadLocal(opt),
            Op::TestVariant(some),
            Op::JumpIfNot(12),
            Op::LoadLocal(opt),
            Op::GetVariantArg(0),
            Op::StoreLocal(pair),
            Op::LoadLocal(pair),
            Op::GetElem(0),
            Op::LoadLocal(pair),
            Op::GetElem(1),
            Op::LoadLocal(step),
            Op::MakeVariant { name_idx: lazy, arity: 2 },
            Op::MakeTuple(2),
            Op::MakeVariant { name_idx: some, arity: 1 },
            Op::Jump(46),
            Op::MakeVariant { name_idx: none, arity: 0 },
            Op::Jump(44),
        ],
    );
    let s = emitted_all(
        s,
        seq![
            Op::LoadLocal(it),
            Op::TestVariant(cursor),
            Op::JumpIfNot(18),
            Op::LoadLocal(it),
            Op::GetVariantArg(0),
            Op::StoreLocal(handle),
            Op::LoadLocal(handle),
            Op::EffectCall { kind_idx, op_idx, arity: 1, node_id_idx: nid_cursor },
            Op::StoreLocal(cur_opt),
            Op::LoadLocal(cur_opt),
            Op::TestVariant(some),
            Op::JumpIfNot(7),
            Op::LoadLocal(cur_opt),
            Op::GetVariantArg(0),
            Op::LoadLocal(handle),
            Op::MakeVariant { name_idx: cursor, arity: 1 },
            Op::MakeTuple(2),
            Op::MakeVariant { name_idx: some, arity: 1 },
            Op::Jump(25),
            Op::MakeVariant { name_idx: none, arity: 0 },
            Op::Jump(23),
        ],
    );
    emitted_all(
        s,
        seq![
            Op::LoadLocal(it),
            Op::GetVariantArg(0),
            Op::StoreLocal(list),
            Op::LoadLocal(it),
            Op::GetVariantArg(1),
            Op::StoreLocal(idx),
            Op::LoadLocal(idx),
            Op::LoadLocal(list),
            Op::GetListLen,
            Op::IntLt,
            Op::JumpIfNot(11),
            Op::LoadLocal(list),
            Op::LoadLocal(idx),
            Op::GetListElemDyn,
            Op::LoadLocal(list),
            Op::LoadLocal(idx),
            Op::PushConst(one),
            Op::IntAdd,
            Op::MakeVariant { name_idx: eager, arity: 2 },
            Op::MakeTuple(2),
            Op::MakeVariant { name_idx: some, arity: 1 },
            Op::Jump(1),
            Op::MakeVariant { name_idx: none, arity: 0 },
        ],
    )
}

/// Whether a list iterator stands at its end.
pub open spec fn iter_is_empty(s: Draft, it: u16) -> Draft {
    emitted_all(
        s,
        seq![
            Op::LoadLocal(it),
            Op::GetVariantArg(1),
            Op::LoadLocal(it),
            Op::GetVariantArg(0),
            Op::GetListLen,
            Op::IntLt,
            Op::BoolNot,
        ],
    )
}

/// How many elements a list iterator has before it.
pub open spec fn iter_count(s: Draft, it: u16) -> Draft {
    emitted_all(
        s,
        seq![
            Op::LoadLocal(it),
            Op::GetVariantArg(0),
            Op::GetListLen,
            Op::LoadLocal(it),
            Op::GetVariantArg(1),
            Op::IntSub,
        ],
    )
}

/// An iterator over up to `n` elements.
pub open spec fn iter_take(s: Draft, it: u16, n: u16) -> Draft {
    let zero = number(s, Constant::Int(0));
    let s = interned(s, Constant::Int(0));
    let one = number(s, Constant::Int(1));
    let s = interned(s, Constant::Int(1));
    let eager = number(s, Constant::VariantName("__IterEager"@));
    let s = interned(s, Constant::VariantName("__IterEager"@));
    let list = s.next_local;
    let s = with_local(s, "__itk_list"@);
    let i = s.next_local;
    let s = with_local(s, "__itk_i"@);
    let out = s.next_local;
    let s = with_local(s, "__itk_out"@);
    let cnt = s.next_local;
    let s = with_local(s, "__itk_cnt"@);
    emitted_all(
        s,
        seq![
            Op::LoadLocal(it),
            Op::GetVariantArg(0),
            Op::StoreLocal(list),
            Op::LoadLocal(it),
            Op::GetVariantArg(1),
            Op::StoreLocal(i),
            Op::MakeList(0),
            Op::StoreLocal(out),
            Op::PushConst(zero),
            Op::StoreLocal(cnt),
            Op::LoadLocal(cnt),
            Op::LoadLocal(n),
            Op::IntLt,
            Op::JumpIfNot(20),
            Op::LoadLocal(i),
            Op::LoadLocal(list),
            Op::GetListLen,
            Op::IntLt,
            Op::JumpIfNot(15),
            Op::LoadLocal(out),
            Op::LoadLocal(list),
            Op::LoadLocal(i),
            Op::GetListElemDyn,
            Op::ListAppend,
            Op::StoreLocal(out),
            Op::LoadLocal(i),
            Op::PushConst(one),
            Op::IntAdd,
            Op::StoreLocal(i),
            Op::LoadLocal(cnt),
            Op::PushConst(one),
            Op::IntAdd,
            Op::StoreLocal(cnt),
            Op::Jump((-24) as i32),
            Op::LoadLocal(out),
            Op::PushConst(zero),
            Op::MakeVariant { name_idx: eager, arity: 2 },
        ],
    )
}

/// An iterator `n` elements further on, or at the end.
pub open spec fn iter_skip(s: Draft, it: u16, n: u16) -> Draft {
    let eager = number(s, Constant::VariantName("__IterEager"@));
    let s = interned(s, Constant::VariantName("__IterEager"@));
    let list = s.next_local;
    let s = with_local(s, "__isk_list"@);
    let idx = s.next_local;
    let s = with_local(s, "__isk_idx"@);
    let raw = s.next_local;
    let s = with_local(s, "__isk_raw"@);
    let new_idx = s.next_local;
    let s = with_local(s, "__isk_ni"@);
    emitted_all(
        s,
        seq![
            Op::LoadLocal(it),
            Op::GetVariantArg(0),
            Op::StoreLocal(list),
            Op::LoadLocal(it),
            Op::GetVariantArg(1),
            Op::StoreLocal(idx),
            Op::LoadLocal(idx),
            Op::LoadLocal(n),
            Op::IntAdd,
            Op::StoreLocal(raw),
            Op::LoadLocal(raw),
            Op::LoadLocal(list),
            Op::GetListLen,
            Op::IntLt,
            Op::JumpIf(3),
            Op::LoadLocal(list),
            Op::GetListLen,
            Op::Jump(1),
            Op::LoadLocal(raw),
            Op::StoreLocal(new_idx),
            Op::LoadLocal(list),
            Op::LoadLocal(new_idx),
            Op::MakeVariant { name_idx: eager, arity: 2 },
        ],
    )
}

/// The remaining elements of a lazy or a list iterator.
pub open spec fn iter_to_list(s: Draft, it: u16) -> Draft {
    let lazy = number(s, Constant::VariantName("__IterLazy"@));
    let s = interned(s, Constant::VariantName("__IterLazy"@));
    let nid = number(s, Constant::NodeId("n_iter_to_list_lazy"@));
    let s = interned(s, Constant::NodeId("n_iter_to_list_lazy"@));
    let some = number(s, Constant::VariantName("Some"@));
    let s = interned(s, Constant::VariantName("Some"@));
    let one = number(s, Constant::Int(1));
    let s = interned(s, Constant::Int(1));
    let out = s.next_local;
    let s = with_local(s, "__itl_out"@);
    let seed = s.next_local;
    let s = with_local(s, "__itl_seed"@);
    let step = s.next_local;
    let s = with_local(s, "__itl_step"@);
    let opt = s.next_local;
    let s = with_local(s, "__itl_opt"@);
    let pair = s.next_local;
    let s = with_local(s, "__itl_pair"@);
    let list = s.next_local;
    let s = with_local(s, "__itl_list"@);
    let i = s.next_local;
    let s = with_local(s, "__itl_i"@);
    emitted_all(
        s,
        seq![
            Op::MakeList(0),
            Op::StoreLocal(out),
            Op::LoadLocal(it),
            Op::TestVariant(lazy),
            Op::JumpIfNot(26),
            Op::LoadLocal(it),
            Op::GetVariantArg(0),
            Op::StoreLocal(seed),
            Op::LoadLocal(it),
            Op::GetVariantArg(1),
            Op::StoreLocal(step),
            Op::LoadLocal(step),
            Op::LoadLocal(seed),
            Op::CallClosure { arity: 1, node_id_idx: nid },
            Op::StoreLocal(opt),
            Op::LoadLocal(opt),
            Op::TestVariant(some),
            Op::JumpIfNot(12),
            Op::LoadLocal(opt),
            Op::GetVariantArg(0),
            Op::StoreLocal(pair),
            Op::LoadLocal(out),
            Op::LoadLocal(pair),
            Op::GetElem(0),
            Op::ListAppend,
            Op::StoreLocal(out),
            Op::LoadLocal(pair),
            Op::GetElem(1),
            Op::StoreLocal(seed),
            Op::Jump((-19) as i32),
            Op::Jump(22),
            Op::LoadLocal(it),
            Op::GetVariantArg(0),
            Op::StoreLocal(list),
            Op::LoadLocal(it),
            Op::GetVariantArg(1),
            Op::StoreLocal(i),
            Op::LoadLocal(i),
            Op::LoadLocal(list),
            Op::GetListLen,
            Op::IntLt,
            Op::JumpIfNot(11),
            Op::LoadLocal(out),
            Op::LoadLocal(list),
            Op::LoadLocal(i),
            Op::GetListElemDyn,
            Op::ListAppend,
            Op::StoreLocal(out),
            Op::LoadLocal(i),
            Op::PushConst(one),
            Op::IntAdd,
            Op::StoreLocal(i),
            Op::Jump((-16) as i32),
            Op::LoadLocal(out),
        ],
    )
}

/// An iterator over what the function makes of the remaining elements.
pub open spec fn iter_map(s: Draft, it: u16, f: u16) -> Draft {
    let nid = number(s, Constant::NodeId("n_iter_map"@));
    let s = interned(s, Constant::NodeId("n_iter_map"@));
    let one = number(s, Constant::Int(1));
    let s = interned(s, Constant::Int(1));
    let zero = number(s, Constant::Int(0));
    let s = interned(s, Constant::Int(0));
    let eager = number(s, Constant::VariantName("__IterEager"@));
    let s = interned(s, Constant::VariantName("__IterEager"@));
    let list = s.next_local;
    let s = with_local(s, "__im_list"@);
    let i = s.next_local;
    let s = with_local(s, "__im_i"@);
    let out = s.next_local;
    let s = with_local(s, "__im_out"@);
    emitted_all(
        s,
        seq![
            Op::LoadLocal(it),
            Op::GetVariantArg(0),
            Op::StoreLocal(list),
            Op::LoadLocal(it),
            Op::GetVariantArg(1),
            Op::StoreLocal(i),
            Op::MakeList(0),
            Op::StoreLocal(out),
            Op::LoadLocal(i),
            Op::LoadLocal(list),
            Op::GetListLen,
            Op::IntLt,
            Op::JumpIfNot(13),
            Op::LoadLocal(out),
            Op::LoadLocal(f),
            Op::LoadLocal(list),
            Op::LoadLocal(i),
            Op::GetListElemDyn,
            Op::CallClosure { arity: 1, node_id_idx: nid },
            Op::ListAppend,
            Op::StoreLocal(out),
            Op::LoadLocal(i),
            Op::PushConst(one),
            Op::IntAdd,
            Op::StoreLocal(i),
            Op::Jump((-18) as i32),
            Op::LoadLocal(out),
            Op::PushConst(zero),
            Op::MakeVariant { name_idx: eager, arity: 2 },
        ],
    )
}

/// An iterator over the remaining elements for which the predicate holds.
pub open spec fn iter_filter(s: Draft, it: u16, f: u16) -> Draft {
    let nid = number(s, Constant::NodeId("n_iter_filter"@));
    let s = interned(s, Constant::NodeId("n_iter_filter"@));
    let one = number(s, Constant::Int(1));
    let s = interned(s, Constant::Int(1));
    let zero = number(s, Constant::Int(0));
    let s = interned(s, Constant::Int(0));
    let eager = number(s, Constant::VariantName("__IterEager"@));
    let s = interned(s, Constant::VariantName("__IterEager"@));
    let list = s.next_local;
    let s = with_local(s, "__if_list"@);
    let i = s.next_local;
    let s = with_local(s, "__if_i"@);
    let out = s.next_local;
    let s = with_local(s, "__if_out"@);
    let x = s.next_local;
    let s = with_local(s, "__if_x"@);
    emitted_all(
        s,
        seq![
            Op::LoadLocal(it),
            Op::GetVariantArg(0),
            Op::StoreLocal(list),
            Op::LoadLocal(it),
            Op::GetVariantArg(1),
            Op::StoreLocal(i),
            Op::MakeList(0),
            Op::StoreLocal(out),
            Op::LoadLocal(i),
            Op::LoadLocal(list),
            Op::GetListLen,
            Op::IntLt,
            Op::JumpIfNot(17),
            Op::LoadLocal(list),
            Op::LoadLocal(i),
            Op::GetListElemDyn,
            Op::StoreLocal(x),
            Op::LoadLocal(f),
            Op::LoadLocal(x),
            Op::CallClosure { arity: 1, node_id_idx: nid },
            Op::JumpIfNot(4),
            Op::LoadLocal(out),
            Op::LoadLocal(x),
            Op::ListAppend,
            Op::StoreLocal(out),
            Op::LoadLocal(i),
            Op::PushConst(one),
            Op::IntAdd,
            Op::StoreLocal(i),
            Op::Jump((-22) as i32),
            Op::LoadLocal(out),
            Op::PushConst(zero),
            Op::MakeVariant { name_idx: eager, arity: 2 },
        ],
    )
}

/// The left fold over the remaining elements.
pub open spec fn iter_fold(s: Draft, it: u16, acc: u16, f: u16) -> Draft {
    let nid = number(s, Constant::NodeId("n_iter_fold"@));
    let s = interned(s, Constant::NodeId("n_iter_fold"@));
    let one = number(s, Constant::Int(1));
    let s = interned(s, Constant::Int(1));
    let list = s.next_local;
    let s = with_local(s, "__ifo_list"@);
    let i = s.next_local;
    let s = with_local(s, "__ifo_i"@);
    emitted_all(
        s,
        seq![
            Op::LoadLocal(it),
            Op::GetVariantArg(0),
            Op::StoreLocal(list),
            Op::LoadLocal(it),
            Op::GetVariantArg(1),
            Op::StoreLocal(i),
            Op::LoadLocal(i),
            Op::LoadLocal(list),
            Op::GetListLen,
            Op::IntLt,
            Op::JumpIfNot(12),
            Op::LoadLocal(f),
            Op::LoadLocal(acc),
            Op::LoadLocal(list),
            Op::LoadLocal(i),
            Op::GetListElemDyn,
            Op::CallClosure { arity: 2, node_id_idx: nid },
            Op::StoreLocal(acc),
            Op::LoadLocal(i),
            Op::PushConst(one),
            Op::IntAdd,
            Op::StoreLocal(i),
            Op::Jump((-17) as i32),
            Op::LoadLocal(acc),
        ],
    )
}

/// The left fold over the entries `xs` of a map.
pub open spec fn map_fold(s: Draft, xs: u16, acc: u16, f: u16) -> Draft {
    let zero = number(s, Constant::Int(0));
    let s = interned(s, Constant::Int(0));
    let nid = number(s, Constant::NodeId("n_map_fold"@));
    let s = interned(s, Constant::NodeId("n_map_fold"@));
    let one = number(s, Constant::Int(1));
    let s = interned(s, Constant::Int(1));
    let i = s.next_local;
    let s = with_local(s, "__mf_i"@);
    let pair = s.next_local;
    let s = with_local(s, "__mf_pair"@);
    emitted_all(
        s,
        seq![
            Op::PushConst(zero),
            Op::StoreLocal(i),
            Op::LoadLocal(i),
            Op::LoadLocal(xs),
            Op::GetListLen,
            Op::IntLt,
            Op::JumpIfNot(17),
            Op::LoadLocal(xs),
            Op::LoadLocal(i),
            Op::GetListElemDyn,
            Op::StoreLocal(pair),
            Op::LoadLocal(f),
            Op::LoadLocal(acc),
            Op::LoadLocal(pair),
            Op::GetElem(0),
            Op::LoadLocal(pair),
            Op::GetElem(1),
            Op::CallClosure { arity: 3, node_id_idx: nid },
            Op::StoreLocal(acc),
            Op::LoadLocal(i),
            Op::PushConst(one),
            Op::IntAdd,
            Op::StoreLocal(i),
            Op::Jump((-22) as i32),
            Op::LoadLocal(acc),
        ],
    )
}

impl<'a> FnCompiler<'a> {
    pub fn emit_iter_from_list(&mut self)
        requires
            old(self).wf(),
        ensures
            final(self).wf(),
            final(self)@ == iter_from_list(old(self)@),
    {
        let zero: u32 = self.integer(0);
        let eager: u32 = self.variant("__IterEager");
        let mut code: Vec<Op> = Vec::new();
        code.push(Op::PushConst(zero));
        code.push(Op::MakeVariant { name_idx: eager, arity: 2 });
        self.emit_all(code);
    }

    pub fn emit_iter_unfold(&mut self)
        requires
            old(self).wf(),
        ensures
            final(self).wf(),
            final(self)@ == iter_unfold(old(self)@),
    {
        let lazy: u32 = self.variant("__IterLazy");
        let mut code: Vec<Op> = Vec::new();
        code.push(Op::MakeVariant { name_idx: lazy, arity: 2 });
        self.emit_all(code);
    }

    #[verifier::rlimit(40)]
    pub fn emit_iter_next(&mut self, it: u16)
        requires
            old(self).wf(),
        ensures
            final(self).wf(),
            final(self)@ == iter_next(old(self)@, it),
    {
        let lazy: u32 = self.variant("__IterLazy");
        let nid_lazy: u32 = self.node_id("n_iter_next_lazy");
        let some: u32 = self.variant("Some");
        let none: u32 = self.variant("None");
        let cursor: u32 = self.variant("__IterCursor");
        let kind_idx: u32 = self.text("sql");
        let op_idx: u32 = self.text("cursor_next");
        let nid_cursor: u32 = self.node_id("n_iter_next_cursor");
        let one: u32 = self.integer(1);
        let eager: u32 = self.variant("__IterEager");
        let seed: u16 = self.alloc_local("__in_seed");
        let step: u16 = self.alloc_local("__in_step");
        let opt: u16 = self.alloc_local("__in_opt");
        let pair: u16 = self.alloc_local("__in_pair");
        let handle: u16 = self.alloc_local("__in_handle");
        let cur_opt: u16 = self.alloc_local("__in_cur_opt");
        let list: u16 = self.alloc_local("__in_list");
        let idx: u16 = self.alloc_local("__in_idx");
        let mut code: Vec<Op> = Vec::new();
        code.push(Op::LoadLocal(it));
        code.push(Op::TestVariant(lazy));
        code.push(Op::JumpIfNot(27));
        code.push(Op::LoadLocal(it));
        code.push(Op::GetVariantArg(0));
        code.push(Op::StoreLocal(seed));
        code.push(Op::LoadLocal(it));
        code.push(Op::GetVariantArg(1));
        code.push(Op::StoreLocal(step));
        code.push(Op::LoadLocal(step));
        code.push(Op::LoadLocal(seed));
        code.push(Op::CallClosure { arity: 1, node_id_idx: nid_lazy });
        code.push(Op::StoreLocal(opt));
        code.push(Op::LoadLocal(opt));
        code.push(Op::TestVariant(some));
        code.push(Op::JumpIfNot(12));
        code.push(Op::LoadLocal(opt));
        code.push(Op::GetVariantArg(0));
        code.push(Op::StoreLocal(pair));
        code.push(Op::LoadLocal(pair));
        code.push(Op::GetElem(0));
        code.push(Op::LoadLocal(pair));
        code.push(Op::GetElem(1));
        code.push(Op::LoadLocal(step));
        code.push(Op::MakeVariant { name_idx: lazy, arity: 2 });
        code.push(Op::MakeTuple(2));
        code.push(Op::MakeVariant { name_idx: some, arity: 1 });
        code.push(Op::Jump(46));
        code.push(Op::MakeVariant { name_idx: none, arity: 0 });
        code.push(Op::Jump(44));
        self.emit_all(code);
        let mut code: Vec<Op> = Vec::new();
        code.push(Op::LoadLocal(it));
        code.push(Op::TestVariant(cursor));
        code.push(Op::JumpIfNot(18));
        code.push(Op::LoadLocal(it));
        code.push(Op::GetVariantArg(0));
        code.push(Op::StoreLocal(handle));
        code.push(Op::LoadLocal(handle));
        code.push(Op::EffectCall { kind_idx, op_idx, arity: 1, node_id_idx: nid_cursor });
        code.push(Op::StoreLocal(cur_opt));
        code.push(Op::LoadLocal(cur_opt));
        code.push(Op::TestVariant(some));
        code.push(Op::JumpIfNot(7));
        code.push(Op::LoadLocal(cur_opt));
        code.push(Op::GetVariantArg(0));
        code.push(Op::LoadLocal(handle));
        code.push(Op::MakeVariant { name_idx: cursor, arity: 1 });
        code.push(Op::MakeTuple(2));
        code.push(Op::MakeVariant { name_idx: some, arity: 1 });
        code.push(Op::Jump(25));
        code.push(Op::MakeVariant { name_idx: none, arity: 0 });
        code.push(Op::Jump(23));
        self.emit_all(code);
        let mut code: Vec<Op> = Vec::new();
        code.push(Op::LoadLocal(it));
        code.push(Op::GetVariantArg(0));
        code.push(Op::StoreLocal(list));
        code.push(Op::LoadLocal(it));
        code.push(Op::GetVariantArg(1));
        code.push(Op::StoreLocal(idx));
        code.push(Op::LoadLocal(idx));
        code.push(Op::LoadLocal(list));
        code.push(Op::GetListLen);
        code.push(Op::IntLt);
        code.push(Op::JumpIfNot(11));
        code.push(Op::LoadLocal(list));
        code.push(Op::LoadLocal(idx));
        code.push(Op::GetListElemDyn);
        code.push(Op::LoadLocal(list));
        code.push(Op::LoadLocal(idx));
        code.push(Op::PushConst(one));
        code.push(Op::IntAdd);
        code.push(Op::MakeVariant { name_idx: eager, arity: 2 });
        code.push(Op::MakeTuple(2));
        code.push(Op::MakeVariant { name_idx: some, arity: 1 });
        code.push(Op::Jump(1));
        code.push(Op::MakeVariant { name_idx: none, arity: 0 });
        self.emit_all(code);
    }

    pub fn emit_iter_is_empty(&mut self, it: u16)
        requires
            old(self).wf(),
        ensures
            final(self).wf(),
            final(self)@ == iter_is_empty(old(self)@, it),
    {
        let mut code: Vec<Op> = Vec::new();
        code.push(Op::LoadLocal(it));
        code.push(Op::GetVariantArg(1));
        code.push(Op::LoadLocal(it));
        code.push(Op::GetVariantArg(0));
        code.push(Op::GetListLen);
        code.push(Op::IntLt);
        code.push(Op::BoolNot);
        self.emit_all(code);
    }

    pub fn emit_iter_count(&mut self, it: u16)
        requires
            old(self).wf(),
        ensures
            final(self).wf(),
            final(self)@ == iter_count(old(self)@, it),
    {
        let mut code: Vec<Op> = Vec::new();
        code.push(Op::LoadLocal(it));
        code.push(Op::GetVariantArg(0));
        code.push(Op::GetListLen);
        code.push(Op::LoadLocal(it));
        code.push(Op::GetVariantArg(1));
        code.push(Op::IntSub);
        self.emit_all(code);
    }

    pub fn emit_iter_take(&mut self, it: u16, n: u16)
        requires
            old(self).wf(),
        ensures
            final(self).wf(),
            final(self)@ == iter_take(old(self)@, it, n),
    {
        let zero: u32 = self.integer(0);
        let one: u32 = self.integer(1);
        let eager: u32 = self.variant("__IterEager");
        let list: u16 = self.alloc_local("__itk_list");
        let i: u16 = self.alloc_local("__itk_i");
        let out: u16 = self.alloc_local("__itk_out");
        let cnt: u16 = self.alloc_local("__itk_cnt");
        let mut code: Vec<Op> = Vec::new();
        code.push(Op::LoadLocal(it));
        code.push(Op::GetVariantArg(0));
        code.push(Op::StoreLocal(list));
        code.push(Op::LoadLocal(it));
        code.push(Op::GetVariantArg(1));
        code.push(Op::StoreLocal(i));
        code.push(Op::MakeList(0));
        code.push(Op::StoreLocal(out));
        code.push(Op::PushConst(zero));
        code.push(Op::StoreLocal(cnt));
        code.push(Op::LoadLocal(cnt));
        code.push(Op::LoadLocal(n));
        code.push(Op::IntLt);
        code.push(Op::JumpIfNot(20));
        code.push(Op::LoadLocal(i));
        code.push(Op::LoadLocal(list));
        code.push(Op::GetListLen);
        code.push(Op::IntLt);
        code.push(Op::JumpIfNot(15));
        code.push(Op::LoadLocal(out));
        code.push(Op::LoadLocal(list));
        code.push(Op::LoadLocal(i));
        code.push(Op::GetListElemDyn);
        code.push(Op::ListAppend);
        code.push(Op::StoreLocal(out));
        code.push(Op::LoadLocal(i));
        code.push(Op::PushConst(one));
        code.push(Op::IntAdd);
        code.push(Op::StoreLocal(i));
        code.push(Op::LoadLocal(cnt));
        code.push(Op::PushConst(one));
        code.push(Op::IntAdd);
        code.push(Op::StoreLocal(cnt));
        code.push(Op::Jump(-24));
        code.push(Op::LoadLocal(out));
        code.push(Op::PushConst(zero));
        code.push(Op::MakeVariant { name_idx: eager, arity: 2 });
        self.emit_all(code);
    }

    pub fn emit_iter_skip(&mut self, it: u16, n: u16)
        requires
            old(self).wf(),
        ensures
            final(self).wf(),
            final(self)@ == iter_skip(old(self)@, it, n),
    {
        let eager: u32 = self.variant("__IterEager");
        let list: u16 = self.alloc_local("__isk_list");
        let idx: u16 = self.alloc_local("__isk_idx");
        let raw: u16 = self.alloc_local("__isk_raw");
        let new_idx: u16 = self.alloc_local("__isk_ni");
        let mut code: Vec<Op> = Vec::new();
        code.push(Op::LoadLocal(it));
        code.push(Op::GetVariantArg(0));
        code.push(Op::StoreLocal(list));
        code.push(Op::LoadLocal(it));
        code.push(Op::GetVariantArg(1));
        code.push(Op::StoreLocal(idx));
        code.push(Op::LoadLocal(idx));
        code.push(Op::LoadLocal(n));
        code.push(Op::IntAdd);
        code.push(Op::StoreLocal(raw));
        code.push(Op::LoadLocal(raw));
        code.push(Op::LoadLocal(list));
        code.push(Op::GetListLen);
        code.push(Op::IntLt);
        code.push(Op::JumpIf(3));
        code.push(Op::LoadLocal(list));
        code.push(Op::GetListLen);
        code.push(Op::Jump(1));
        code.push(Op::LoadLocal(raw));
        code.push(Op::StoreLocal(new_idx));
        code.push(Op::LoadLocal(list));
        code.push(Op::LoadLocal(new_idx));
        code.push(Op::MakeVariant { name_idx: eager, arity: 2 });
        self.emit_all(code);
    }

    pub fn emit_iter_to_list(&mut self, it: u16)
        requires
            old(self).wf(),
        ensures
            final(self).wf(),
            final(self)@ == iter_to_list(old(self)@, it),
    {
        let lazy: u32 = self.variant("__IterLazy");
        let nid: u32 = self.node_id("n_iter_to_list_lazy");
        let some: u32 = self.variant("Some");
        let one: u32 = self.integer(1);
        let out: u16 = self.alloc_local("__itl_out");
        let seed: u16 = self.alloc_local("__itl_seed");
        let step: u16 = self.alloc_local("__itl_step");
        let opt: u16 = self.alloc_local("__itl_opt");
        let pair: u16 = self.alloc_local("__itl_pair");
        let list: u16 = self.alloc_local("__itl_list");
        let i: u16 = self.alloc_local("__itl_i");
        let mut code: Vec<Op> = Vec::new();
        code.push(Op::MakeList(0));
        code.push(Op::StoreLocal(out));
        code.push(Op::LoadLocal(it));
        code.push(Op::TestVariant(lazy));
        code.push(Op::JumpIfNot(26));
        code.push(Op::LoadLocal(it));
        code.push(Op::GetVariantArg(0));
        code.push(Op::StoreLocal(seed));
        code.push(Op::LoadLocal(it));
        code.push(Op::GetVariantArg(1));
        code.push(Op::StoreLocal(step));
        code.push(Op::LoadLocal(step));
        code.push(Op::LoadLocal(seed));
        code.push(Op::CallClosure { arity: 1, node_id_idx: nid });
        code.push(Op::StoreLocal(opt));
        code.push(Op::LoadLocal(opt));
        code.push(Op::TestVariant(some));
        code.push(Op::JumpIfNot(12));
        code.push(Op::LoadLocal(opt));
        code.push(Op::GetVariantArg(0));
        code.push(Op::StoreLocal(pair));
        code.push(Op::LoadLocal(out));
        code.push(Op::LoadLocal(pair));
        code.push(Op::GetElem(0));
        code.push(Op::ListAppend);
        code.push(Op::StoreLocal(out));
        code.push(Op::LoadLocal(pair));
        code.push(Op::GetElem(1));
        code.push(Op::StoreLocal(seed));
        code.push(Op::Jump(-19));
        code.push(Op::Jump(22));
        code.push(Op::LoadLocal(it));
        code.push(Op::GetVariantArg(0));
        code.push(Op::StoreLocal(list));
        code.push(Op::LoadLocal(it));
        code.push(Op::GetVariantArg(1));
        code.push(Op::StoreLocal(i));
        code.push(Op::LoadLocal(i));
        code.push(Op::LoadLocal(list));
        code.push(Op::GetListLen);
        code.push(Op::IntLt);
        code.push(Op::JumpIfNot(11));
        code.push(Op::LoadLocal(out));
        code.push(Op::LoadLocal(list));
        code.push(Op::LoadLocal(i));
        code.push(Op::GetListElemDyn);
        code.push(Op::ListAppend);
        code.push(Op::StoreLocal(out));
        code.push(Op::LoadLocal(i));
        code.push(Op::PushConst(one));
        code.push(Op::IntAdd);
        code.push(Op::StoreLocal(i));
        code.push(Op::Jump(-16));
        code.push(Op::LoadLocal(out));
        self.emit_all(code);
    }

    pub fn emit_iter_map(&mut self, it: u16, f: u16)
        requires
            old(self).wf(),
        ensures
            final(self).wf(),
            final(self)@ == iter_map(old(self)@, it, f),
    {
        let nid: u32 = self.node_id("n_iter_map");
        let one: u32 = self.integer(1);
        let zero: u32 = self.integer(0);
        let eager: u32 = self.variant("__IterEager");
        let list: u16 = self.alloc_local("__im_list");
        let i: u16 = self.alloc_local("__im_i");
        let out: u16 = self.alloc_local("__im_out");
        let mut code: Vec<Op> = Vec::new();
        code.push(Op::LoadLocal(it));
        code.push(Op::GetVariantArg(0));
        code.push(Op::StoreLocal(list));
        code.push(Op::LoadLocal(it));
        code.push(Op::GetVariantArg(1));
        code.push(Op::StoreLocal(i));
        code.push(Op::MakeList(0));
        code.push(Op::StoreLocal(out));
        code.push(Op::LoadLocal(i));
        code.push(Op::LoadLocal(list));
        code.push(Op::GetListLen);
        code.push(Op::IntLt);
        code.push(Op::JumpIfNot(13));
        code.push(Op::LoadLocal(out));
        code.push(Op::LoadLocal(f));
        code.push(Op::LoadLocal(list));
        code.push(Op::LoadLocal(i));
        code.push(Op::GetListElemDyn);
        code.push(Op::CallClosure { arity: 1, node_id_idx: nid });
        code.push(Op::ListAppend);
        code.push(Op::StoreLocal(out));
        code.push(Op::LoadLocal(i));
        code.push(Op::PushConst(one));
        code.push(Op::IntAdd);
        code.push(Op::StoreLocal(i));
        code.push(Op::Jump(-18));
        code.push(Op::LoadLocal(out));
        code.push(Op::PushConst(zero));
        code.push(Op::MakeVariant { name_idx: eager, arity: 2 });
        self.emit_all(code);
    }

    pub fn emit_iter_filter(&mut self, it: u16, f: u16)
        requires
            old(self).wf(),
        ensures
            final(self).wf(),
            final(self)@ == iter_filter(old(self)@, it, f),
    {
        let nid: u32 = self.node_id("n_iter_filter");
        let one: u32 = self.integer(1);
        let zero: u32 = self.integer(0);
        let eager: u32 = self.variant("__IterEager");
        let list: u16 = self.alloc_local("__if_list");
        let i: u16 = self.alloc_local("__if_i");
        let out: u16 = self.alloc_local("__if_out");
        let x: u16 = self.alloc_local("__if_x");
        let mut code: Vec<Op> = Vec::new();
        code.push(Op::LoadLocal(it));
        code.push(Op::GetVariantArg(0));
        code.push(Op::StoreLocal(list));
        code.push(Op::LoadLocal(it));
        code.push(Op::GetVariantArg(1));
        code.push(Op::StoreLocal(i));
        code.push(Op::MakeList(0));
        code.push(Op::StoreLocal(out));
        code.push(Op::LoadLocal(i));
        code.push(Op::LoadLocal(list));
        code.push(Op::GetListLen);
        code.push(Op::IntLt);
        code.push(Op::JumpIfNot(17));
        code.push(Op::LoadLocal(list));
        code.push(Op::LoadLocal(i));
        code.push(Op::GetListElemDyn);
        code.push(Op::StoreLocal(x));
        code.push(Op::LoadLocal(f));
        code.push(Op::LoadLocal(x));
        code.push(Op::CallClosure { arity: 1, node_id_idx: nid });
        code.push(Op::JumpIfNot(4));
        code.push(Op::LoadLocal(out));
        code.push(Op::LoadLocal(x));
        code.push(Op::ListAppend);
        code.push(Op::StoreLocal(out));
        code.push(Op::LoadLocal(i));
        code.push(Op::PushConst(one));
        code.push(Op::IntAdd);
        code.push(Op::StoreLocal(i));
        code.push(Op::Jump(-22));
        code.push(Op::LoadLocal(out));
        code.push(Op::PushConst(zero));
        code.push(Op::MakeVariant { name_idx: eager, arity: 2 });
        self.emit_all(code);
    }

    pub fn emit_iter_fold(&mut self, it: u16, acc: u16, f: u16)
        requires
            old(self).wf(),
        ensures
            final(self).wf(),
            final(self)@ == iter_fold(old(self)@, it, acc, f),
    {
        let nid: u32 = self.node_id("n_iter_fold");
        let one: u32 = self.integer(1);
        let list: u16 = self.alloc_local("__ifo_list");
        let i: u16 = self.alloc_local("__ifo_i");
        let mut code: Vec<Op> = Vec::new();
        code.push(Op::LoadLocal(it));
        code.push(Op::GetVariantArg(0));
        code.push(Op::StoreLocal(list));
        code.push(Op::LoadLocal(it));
        code.push(Op::GetVariantArg(1));
        code.push(Op::StoreLocal(i));
        code.push(Op::LoadLocal(i));
        code.push(Op::LoadLocal(list));
        code.push(Op::GetListLen);
        code.push(Op::IntLt);
        code.push(Op::JumpIfNot(12));
        code.push(Op::LoadLocal(f));
        code.push(Op::LoadLocal(acc));
        code.push(Op::LoadLocal(list));
        code.push(Op::LoadLocal(i));
        code.push(Op::GetListElemDyn);
        code.push(Op::CallClosure { arity: 2, node_id_idx: nid });
        code.push(Op::StoreLocal(acc));
        code.push(Op::LoadLocal(i));
        code.push(Op::PushConst(one));
        code.push(Op::IntAdd);
        code.push(Op::StoreLocal(i));
        code.push(Op::Jump(-17));
        code.push(Op::LoadLocal(acc));
        self.emit_all(code);
    }

    pub fn emit_map_fold(&mut self, xs: u16, acc: u16, f: u16)
        requires
            old(self).wf(),
        ensures
            final(self).wf(),
            final(self)@ == map_fold(old(self)@, xs, acc, f),
    {
        let zero: u32 = self.integer(0);
        let nid: u32 = self.node_id("n_map_fold");
        let one: u32 = self.integer(1);
        let i: u16 = self.alloc_local("__mf_i");
        let pair: u16 = self.alloc_local("__mf_pair");
        let mut code: Vec<Op> = Vec::new();
        code.push(Op::PushConst(zero));
        code.push(Op::StoreLocal(i));
        code.push(Op::LoadLocal(i));
        code.push(Op::LoadLocal(xs));
        code.push(Op::GetListLen);
        code.push(Op::IntLt);
        code.push(Op::JumpIfNot(17));
        code.push(Op::LoadLocal(xs));
        code.push(Op::LoadLocal(i));
        code.push(Op::GetListElemDyn);
        code.push(Op::StoreLocal(pair));
        code.push(Op::LoadLocal(f));
        code.push(Op::LoadLocal(acc));
        code.push(Op::LoadLocal(pair));
        code.push(Op::GetElem(0));
        code.push(Op::LoadLocal(pair));
        code.push(Op::GetElem(1));
        code.push(Op::CallClosure { arity: 3, node_id_idx: nid });
        code.push(Op::StoreLocal(acc));
        code.push(Op::LoadLocal(i));
        code.push(Op::PushConst(one));
        code.push(Op::IntAdd);
        code.push(Op::StoreLocal(i));
        code.push(Op::Jump(-22));
        code.push(Op::LoadLocal(acc));
        self.emit_all(code);
    }
}

} // verus!
