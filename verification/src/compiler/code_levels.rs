//! The code of the combinators hands on the depths that are noted for it.

use vstd::prelude::*;

use crate::compiler::code_fits::lemma_closing_keeps;
use crate::compiler::combinators::{closing, keeper, taken, Combinator};
use crate::compiler::draft::{interned, number, with_local, Draft, Globals};
use crate::compiler::flow_code::{
    flow_branch, flow_branch_code, flow_parallel, flow_parallel_code, flow_parallel_list,
    flow_retry, flow_retry_code, flow_retry_with_backoff, flow_retry_with_backoff_code,
    flow_sequential, flow_sequential_code, with_trampoline,
};
use crate::compiler::iter_code::{
    iter_count, iter_filter, iter_fold, iter_from_list, iter_is_empty, iter_map, iter_next,
    iter_skip, iter_take, iter_to_list, iter_unfold, map_fold,
};
use crate::compiler::levels::{
    balanced, block_level, deepened, lemma_block, lemma_block_empty, lemma_block_push, lemma_one,
    lemma_rises, lemma_still, leveled, rises, settled,
};
use crate::compiler::list_code::{list_filter, list_fold, list_map, list_par_map, list_sort_by};
use crate::compiler::pool::Constant;
use crate::compiler::variant_code::{
    option_or_else, option_unwrap_or_else, result_or_else, result_unwrap_or_else, variant_and_then,
    variant_map,
};
use crate::op::Op;

verus! {

broadcast use crate::compiler::draft::lemma_with_local;

/// A synthetic function with balanced code, and a closure of it.
proof fn lemma_trampoline(
    s: Draft,
    name: Seq<char>,
    arity: u16,
    locals_count: u16,
    capture_count: u16,
    code: Seq<Op>,
    rel: Seq<int>,
    ds: Seq<int>,
    open: Set<int>,
) -> (ds2: Seq<int>)
    requires
        rel.len() == code.len() + 1,
        rel[0] == 0,
        block_level(code, rel),
    ensures
        rises(
            s,
            with_trampoline(s, name, arity, locals_count, capture_count, code),
            ds,
            ds2,
            open,
            1 - capture_count,
        ),
{
    let t = with_trampoline(s, name, arity, locals_count, capture_count, code);
    let u = Draft { functions: t.functions, ..s };
    assert(leveled(code, rel, Set::empty()));
    assert(balanced(code));
    if settled(s.functions, s.pending) {
        assert forall|j: int|
            0 <= j < u.functions.len() && (#[trigger] u.functions[j]).code.len() > 0
                && u.functions[j].code.len() <= i32::MAX implies balanced(
            u.functions[j].code,
        ) by {
            if j < s.functions.len() {
                assert(u.functions[j] == s.functions[j]);
            }
        }
    }
    assert(ds.take(ds.len() as int) =~= ds);
    assert(s.code.take(s.code.len() as int) =~= s.code);
    assert(rises(s, u, ds, ds, open, 0));
    let op = Op::MakeClosure { fn_id: s.functions.len() as u32, capture_count };
    let ds2 = lemma_one(u, t, op, 1 - capture_count, ds, open);
    lemma_rises(s, u, t, ds, ds, ds2, open, 0, 1 - capture_count);
    ds2
}

proof fn levels_variant_map(s: Draft, val: u16, f: u16, tag: u32, ds: Seq<int>,
    open: Set<int>) -> (ds2: Seq<int>)
    requires
        variant_map(s, val, f, tag).fault is None ==> s.fault is None,
    ensures
        rises(s, variant_map(s, val, f, tag), ds, ds2, open, 1),
{
    let t = variant_map(s, val, f, tag);
    let nid = number(s, Constant::NodeId("n_hov"@));
    let s1 = interned(s, Constant::NodeId("n_hov"@));
    let arg = s1.next_local;
    let s2 = with_local(s1, "__hov_arg"@);
    let ops = seq![
        Op::LoadLocal(val),
        Op::Dup,
        Op::TestVariant(tag),
        Op::JumpIfNot(7),
        Op::GetVariantArg(0),
        Op::StoreLocal(arg),
        Op::LoadLocal(f),
        Op::LoadLocal(arg),
        Op::CallClosure { arity: 1, node_id_idx: nid },
        Op::MakeVariant { name_idx: tag, arity: 1 },
        Op::Jump(0),
    ];
    let rel = seq![0int, 1int, 2int, 2int, 1int, 1int, 0int, 1int, 2int, 1int, 1int, 1int];
    assert(t.code =~= s.code + ops);
    assert(block_level(ops, rel)) by {
        broadcast use {lemma_block_push, lemma_block_empty};

    }
    lemma_block(s, t, ops, rel, ds, open);
    deepened(ds, rel)
}

proof fn levels_variant_and_then(s: Draft, val: u16, f: u16, tag: u32, ds: Seq<int>,
    open: Set<int>) -> (ds2: Seq<int>)
    requires
        variant_and_then(s, val, f, tag).fault is None ==> s.fault is None,
    ensures
        rises(s, variant_and_then(s, val, f, tag), ds, ds2, open, 1),
{
    let t = variant_and_then(s, val, f, tag);
    let nid = number(s, Constant::NodeId("n_hov"@));
    let s1 = interned(s, Constant::NodeId("n_hov"@));
    let arg = s1.next_local;
    let s2 = with_local(s1, "__hov_arg"@);
    let ops = seq![
        Op::LoadLocal(val),
        Op::Dup,
        Op::TestVariant(tag),
        Op::JumpIfNot(6),
        Op::GetVariantArg(0),
        Op::StoreLocal(arg),
        Op::LoadLocal(f),
        Op::LoadLocal(arg),
        Op::CallClosure { arity: 1, node_id_idx: nid },
        Op::Jump(0),
    ];
    let rel = seq![0int, 1int, 2int, 2int, 1int, 1int, 0int, 1int, 2int, 1int, 1int];
    assert(t.code =~= s.code + ops);
    assert(block_level(ops, rel)) by {
        broadcast use {lemma_block_push, lemma_block_empty};

    }
    lemma_block(s, t, ops, rel, ds, open);
    deepened(ds, rel)
}

proof fn levels_result_or_else(s: Draft, val: u16, f: u16, tag: u32, ds: Seq<int>,
    open: Set<int>) -> (ds2: Seq<int>)
    requires
        result_or_else(s, val, f, tag).fault is None ==> s.fault is None,
    ensures
        rises(s, result_or_else(s, val, f, tag), ds, ds2, open, 1),
{
    let t = result_or_else(s, val, f, tag);
    let nid = number(s, Constant::NodeId("n_hoe"@));
    let s1 = interned(s, Constant::NodeId("n_hoe"@));
    let ops = seq![
        Op::LoadLocal(val),
        Op::Dup,
        Op::TestVariant(tag),
        Op::JumpIfNot(6),
        Op::Pop,
        Op::LoadLocal(f),
        Op::LoadLocal(val),
        Op::GetVariantArg(0),
        Op::CallClosure { arity: 1, node_id_idx: nid },
        Op::Jump(0),
    ];
    let rel = seq![0int, 1int, 2int, 2int, 1int, 0int, 1int, 2int, 2int, 1int, 1int];
    assert(t.code =~= s.code + ops);
    assert(block_level(ops, rel)) by {
        broadcast use {lemma_block_push, lemma_block_empty};

    }
    lemma_block(s, t, ops, rel, ds, open);
    deepened(ds, rel)
}

proof fn levels_option_or_else(s: Draft, val: u16, f: u16, tag: u32, ds: Seq<int>,
    open: Set<int>) -> (ds2: Seq<int>)
    requires
        option_or_else(s, val, f, tag).fault is None ==> s.fault is None,
    ensures
        rises(s, option_or_else(s, val, f, tag), ds, ds2, open, 1),
{
    let t = option_or_else(s, val, f, tag);
    let nid = number(s, Constant::NodeId("n_hoe"@));
    let s1 = interned(s, Constant::NodeId("n_hoe"@));
    let ops = seq![
        Op::LoadLocal(val),
        Op::Dup,
        Op::TestVariant(tag),
        Op::JumpIfNot(4),
        Op::Pop,
        Op::LoadLocal(f),
        Op::CallClosure { arity: 0, node_id_idx: nid },
        Op::Jump(0),
    ];
    let rel = seq![0int, 1int, 2int, 2int, 1int, 0int, 1int, 1int, 1int];
    assert(t.code =~= s.code + ops);
    assert(block_level(ops, rel)) by {
        broadcast use {lemma_block_push, lemma_block_empty};

    }
    lemma_block(s, t, ops, rel, ds, open);
    deepened(ds, rel)
}

proof fn levels_option_unwrap_or_else(s: Draft, val: u16, f: u16, tag: u32, ds: Seq<int>,
    open: Set<int>) -> (ds2: Seq<int>)
    requires
        option_unwrap_or_else(s, val, f, tag).fault is None ==> s.fault is None,
    ensures
        rises(s, option_unwrap_or_else(s, val, f, tag), ds, ds2, open, 1),
{
    let t = option_unwrap_or_else(s, val, f, tag);
    let nid = number(s, Constant::NodeId("n_uoe"@));
    let s1 = interned(s, Constant::NodeId("n_uoe"@));
    let ops = seq![
        Op::LoadLocal(val),
        Op::Dup,
        Op::TestVariant(tag),
        Op::JumpIfNot(2),
        Op::GetVariantArg(0),
        Op::Jump(3),
        Op::Pop,
        Op::LoadLocal(f),
        Op::CallClosure { arity: 0, node_id_idx: nid },
    ];
    let rel = seq![0int, 1int, 2int, 2int, 1int, 1int, 1int, 0int, 1int, 1int];
    assert(t.code =~= s.code + ops);
    assert(block_level(ops, rel)) by {
        broadcast use {lemma_block_push, lemma_block_empty};

    }
    lemma_block(s, t, ops, rel, ds, open);
    deepened(ds, rel)
}

proof fn levels_result_unwrap_or_else(s: Draft, val: u16, f: u16, tag: u32, ds: Seq<int>,
    open: Set<int>) -> (ds2: Seq<int>)
    requires
        result_unwrap_or_else(s, val, f, tag).fault is None ==> s.fault is None,
    ensures
        rises(s, result_unwrap_or_else(s, val, f, tag), ds, ds2, open, 1),
{
    let t = result_unwrap_or_else(s, val, f, tag);
    let nid = number(s, Constant::NodeId("n_ruoe"@));
    let s1 = interned(s, Constant::NodeId("n_ruoe"@));
    let ops = seq![
        Op::LoadLocal(val),
        Op::Dup,
        Op::TestVariant(tag),
        Op::JumpIfNot(2),
        Op::GetVariantArg(0),
        Op::Jump(5),
        Op::Pop,
        Op::LoadLocal(f),
        Op::LoadLocal(val),
        Op::GetVariantArg(0),
        Op::CallClosure { arity: 1, node_id_idx: nid },
    ];
    let rel = seq![0int, 1int, 2int, 2int, 1int, 1int, 1int, 0int, 1int, 2int, 2int, 1int];
    assert(t.code =~= s.code + ops);
    assert(block_level(ops, rel)) by {
        broadcast use {lemma_block_push, lemma_block_empty};

    }
    lemma_block(s, t, ops, rel, ds, open);
    deepened(ds, rel)
}

proof fn levels_iter_from_list(s: Draft, ds: Seq<int>, open: Set<int>) -> (ds2: Seq<int>)
    requires
        iter_from_list(s).fault is None ==> s.fault is None,
    ensures
        rises(s, iter_from_list(s), ds, ds2, open, 0),
{
    let t = iter_from_list(s);
    let zero = number(s, Constant::Int(0));
    let s1 = interned(s, Constant::Int(0));
    let eager = number(s1, Constant::VariantName("__IterEager"@));
    let s2 = interned(s1, Constant::VariantName("__IterEager"@));
    let ops = seq![
        Op::PushConst(zero),
        Op::MakeVariant { name_idx: eager, arity: 2 },
    ];
    let rel = seq![0int, 1int, 0int];
    assert(t.code =~= s.code + ops);
    assert(block_level(ops, rel)) by {
        broadcast use {lemma_block_push, lemma_block_empty};

    }
    lemma_block(s, t, ops, rel, ds, open);
    deepened(ds, rel)
}

proof fn levels_iter_unfold(s: Draft, ds: Seq<int>, open: Set<int>) -> (ds2: Seq<int>)
    requires
        iter_unfold(s).fault is None ==> s.fault is None,
    ensures
        rises(s, iter_unfold(s), ds, ds2, open, (-1)),
{
    let t = iter_unfold(s);
    let lazy = number(s, Constant::VariantName("__IterLazy"@));
    let s1 = interned(s, Constant::VariantName("__IterLazy"@));
    let ops = seq![
        Op::MakeVariant { name_idx: lazy, arity: 2 },
    ];
    let rel = seq![0int, -1int];
    assert(t.code =~= s.code + ops);
    assert(block_level(ops, rel)) by {
        broadcast use {lemma_block_push, lemma_block_empty};

    }
    lemma_block(s, t, ops, rel, ds, open);
    deepened(ds, rel)
}

#[verifier::rlimit(40)]
proof fn levels_iter_next(s: Draft, it: u16, ds: Seq<int>, open: Set<int>) -> (ds2: Seq<int>)
    requires
        iter_next(s, it).fault is None ==> s.fault is None,
    ensures
        rises(s, iter_next(s, it), ds, ds2, open, 1),
{
    let t = iter_next(s, it);
    let lazy = number(s, Constant::VariantName("__IterLazy"@));
    let s1 = interned(s, Constant::VariantName("__IterLazy"@));
    let nid_lazy = number(s1, Constant::NodeId("n_iter_next_lazy"@));
    let s2 = interned(s1, Constant::NodeId("n_iter_next_lazy"@));
    let some = number(s2, Constant::VariantName("Some"@));
    let s3 = interned(s2, Constant::VariantName("Some"@));
    let none = number(s3, Constant::VariantName("None"@));
    let s4 = interned(s3, Constant::VariantName("None"@));
    let cursor = number(s4, Constant::VariantName("__IterCursor"@));
    let s5 = interned(s4, Constant::VariantName("__IterCursor"@));
    let kind_idx = number(s5, Constant::Str("sql"@));
    let s6 = interned(s5, Constant::Str("sql"@));
    let op_idx = number(s6, Constant::Str("cursor_next"@));
    let s7 = interned(s6, Constant::Str("cursor_next"@));
    let nid_cursor = number(s7, Constant::NodeId("n_iter_next_cursor"@));
    let s8 = interned(s7, Constant::NodeId("n_iter_next_cursor"@));
    let one = number(s8, Constant::Int(1));
    let s9 = interned(s8, Constant::Int(1));
    let eager = number(s9, Constant::VariantName("__IterEager"@));
    let s10 = interned(s9, Constant::VariantName("__IterEager"@));
    let seed = s10.next_local;
    let s11 = with_local(s10, "__in_seed"@);
    let step = s11.next_local;
    let s12 = with_local(s11, "__in_step"@);
    let opt = s12.next_local;
    let s13 = with_local(s12, "__in_opt"@);
    let pair = s13.next_local;
    let s14 = with_local(s13, "__in_pair"@);
    let handle = s14.next_local;
    let s15 = with_local(s14, "__in_handle"@);
    let cur_opt = s15.next_local;
    let s16 = with_local(s15, "__in_cur_opt"@);
    let list = s16.next_local;
    let s17 = with_local(s16, "__in_list"@);
    let idx = s17.next_local;
    let s18 = with_local(s17, "__in_idx"@);
    let ops = seq![
        Op::LoadLocal(it),
        Op::TestVariant(lazy),
        Op::JumpIfNot(27),
        Op::LoadLocal(it),
        Op::GetVariantArg(0),
        Op::StoreLocal(seed),
        Op::LoadLocal(it),
        Op::GetVariantArg(1),
        Op::StoreLocal(step),
        Op::LoadLocal(step),
        Op::LoadLocal(seed),
        Op::CallClosure { arity: 1, node_id_idx: nid_lazy },
        Op::StoreLocal(opt),
        Op::LoadLocal(opt),
        Op::TestVariant(some),
        Op::JumpIfNot(12),
        Op::LoadLocal(opt),
        Op::GetVariantArg(0),
        Op::StoreLocal(pair),
        Op::LoadLocal(pair),
        Op::GetElem(0),
        Op::LoadLocal(pair),
        Op::GetElem(1),
        Op::LoadLocal(step),
        Op::MakeVariant { name_idx: lazy, arity: 2 },
        Op::MakeTuple(2),
        Op::MakeVariant { name_idx: some, arity: 1 },
        Op::Jump(46),
        Op::MakeVariant { name_idx: none, arity: 0 },
        Op::Jump(44),
        Op::LoadLocal(it),
        Op::TestVariant(cursor),
        Op::JumpIfNot(18),
        Op::LoadLocal(it),
        Op::GetVariantArg(0),
        Op::StoreLocal(handle),
        Op::LoadLocal(handle),
        Op::EffectCall { kind_idx, op_idx, arity: 1, node_id_idx: nid_cursor },
        Op::StoreLocal(cur_opt),
        Op::LoadLocal(cur_opt),
        Op::TestVariant(some),
        Op::JumpIfNot(7),
        Op::LoadLocal(cur_opt),
        Op::GetVariantArg(0),
        Op::LoadLocal(handle),
        Op::MakeVariant { name_idx: cursor, arity: 1 },
        Op::MakeTuple(2),
        Op::MakeVariant { name_idx: some, arity: 1 },
        Op::Jump(25),
        Op::MakeVariant { name_idx: none, arity: 0 },
        Op::Jump(23),
        Op::LoadLocal(it),
        Op::GetVariantArg(0),
        Op::StoreLocal(list),
        Op::LoadLocal(it),
        Op::GetVariantArg(1),
        Op::StoreLocal(idx),
        Op::LoadLocal(idx),
        Op::LoadLocal(list),
        Op::GetListLen,
        Op::IntLt,
        Op::JumpIfNot(11),
        Op::LoadLocal(list),
        Op::LoadLocal(idx),
        Op::GetListElemDyn,
        Op::LoadLocal(list),
        Op::LoadLocal(idx),
        Op::PushConst(one),
        Op::IntAdd,
        Op::MakeVariant { name_idx: eager, arity: 2 },
        Op::MakeTuple(2),
        Op::MakeVariant { name_idx: some, arity: 1 },
        Op::Jump(1),
        Op::MakeVariant { name_idx: none, arity: 0 },
    ];
    let rel = seq![0int, 1int, 1int, 0int, 1int, 1int, 0int, 1int, 1int, 0int, 1int, 2int, 1int,
        0int, 1int, 1int, 0int, 1int, 1int, 0int, 1int, 1int, 2int, 2int, 3int, 2int, 1int, 1int,
        0int, 1int, 0int, 1int, 1int, 0int, 1int, 1int, 0int, 1int, 1int, 0int, 1int, 1int, 0int,
        1int, 1int, 2int, 2int, 1int, 1int, 0int, 1int, 0int, 1int, 1int, 0int, 1int, 1int, 0int,
        1int, 2int, 2int, 1int, 0int, 1int, 2int, 1int, 2int, 3int, 4int, 3int, 2int, 1int, 1int,
        0int, 1int];
    assert(t.code =~= s.code + ops);
    assert(block_level(ops, rel)) by {
        broadcast use {lemma_block_push, lemma_block_empty};

    }
    lemma_block(s, t, ops, rel, ds, open);
    deepened(ds, rel)
}

proof fn levels_iter_is_empty(s: Draft, it: u16, ds: Seq<int>, open: Set<int>) -> (ds2: Seq<int>)
    requires
        iter_is_empty(s, it).fault is None ==> s.fault is None,
    ensures
        rises(s, iter_is_empty(s, it), ds, ds2, open, 1),
{
    let t = iter_is_empty(s, it);
    let ops = seq![
        Op::LoadLocal(it),
        Op::GetVariantArg(1),
        Op::LoadLocal(it),
        Op::GetVariantArg(0),
        Op::GetListLen,
        Op::IntLt,
        Op::BoolNot,
    ];
    let rel = seq![0int, 1int, 1int, 2int, 2int, 2int, 1int, 1int];
    assert(t.code =~= s.code + ops);
    assert(block_level(ops, rel)) by {
        broadcast use {lemma_block_push, lemma_block_empty};

    }
    lemma_block(s, t, ops, rel, ds, open);
    deepened(ds, rel)
}

proof fn levels_iter_count(s: Draft, it: u16, ds: Seq<int>, open: Set<int>) -> (ds2: Seq<int>)
    requires
        iter_count(s, it).fault is None ==> s.fault is None,
    ensures
        rises(s, iter_count(s, it), ds, ds2, open, 1),
{
    let t = iter_count(s, it);
    let ops = seq![
        Op::LoadLocal(it),
        Op::GetVariantArg(0),
        Op::GetListLen,
        Op::LoadLocal(it),
        Op::GetVariantArg(1),
        Op::IntSub,
    ];
    let rel = seq![0int, 1int, 1int, 1int, 2int, 2int, 1int];
    assert(t.code =~= s.code + ops);
    assert(block_level(ops, rel)) by {
        broadcast use {lemma_block_push, lemma_block_empty};

    }
    lemma_block(s, t, ops, rel, ds, open);
    deepened(ds, rel)
}

proof fn levels_iter_take(s: Draft, it: u16, n: u16, ds: Seq<int>,
    open: Set<int>) -> (ds2: Seq<int>)
    requires
        iter_take(s, it, n).fault is None ==> s.fault is None,
    ensures
        rises(s, iter_take(s, it, n), ds, ds2, open, 1),
{
    let t = iter_take(s, it, n);
    let zero = number(s, Constant::Int(0));
    let s1 = interned(s, Constant::Int(0));
    let one = number(s1, Constant::Int(1));
    let s2 = interned(s1, Constant::Int(1));
    let eager = number(s2, Constant::VariantName("__IterEager"@));
    let s3 = interned(s2, Constant::VariantName("__IterEager"@));
    let list = s3.next_local;
    let s4 = with_local(s3, "__itk_list"@);
    let i = s4.next_local;
    let s5 = with_local(s4, "__itk_i"@);
    let out = s5.next_local;
    let s6 = with_local(s5, "__itk_out"@);
    let cnt = s6.next_local;
    let s7 = with_local(s6, "__itk_cnt"@);
    let ops = seq![
        Op::LoadLocal(it),
        Op::GetVariantArg(0),
        Op::StoreLocal(list),
        Op::LoadLocal(it),
        Op::GetVariantArg(1),
        Op::StoreLocal(i),
        Op::MakeList(0),
        Op::StoreLocal(out),
        Op::PushConst(zero),
        Op::StoreLocal(cnt),
        Op::LoadLocal(cnt),
        Op::LoadLocal(n),
        Op::IntLt,
        Op::JumpIfNot(20),
        Op::LoadLocal(i),
        Op::LoadLocal(list),
        Op::GetListLen,
        Op::IntLt,
        Op::JumpIfNot(15),
        Op::LoadLocal(out),
        Op::LoadLocal(list),
        Op::LoadLocal(i),
        Op::GetListElemDyn,
        Op::ListAppend,
        Op::StoreLocal(out),
        Op::LoadLocal(i),
        Op::PushConst(one),
        Op::IntAdd,
        Op::StoreLocal(i),
        Op::LoadLocal(cnt),
        Op::PushConst(one),
        Op::IntAdd,
        Op::StoreLocal(cnt),
        Op::Jump((-24) as i32),
        Op::LoadLocal(out),
        Op::PushConst(zero),
        Op::MakeVariant { name_idx: eager, arity: 2 },
    ];
    let rel = seq![0int, 1int, 1int, 0int, 1int, 1int, 0int, 1int, 0int, 1int, 0int, 1int, 2int,
        1int, 0int, 1int, 2int, 2int, 1int, 0int, 1int, 2int, 3int, 2int, 1int, 0int, 1int, 2int,
        1int, 0int, 1int, 2int, 1int, 0int, 0int, 1int, 2int, 1int];
    assert(t.code =~= s.code + ops);
    assert(block_level(ops, rel)) by {
        broadcast use {lemma_block_push, lemma_block_empty};

    }
    lemma_block(s, t, ops, rel, ds, open);
    deepened(ds, rel)
}

proof fn levels_iter_skip(s: Draft, it: u16, n: u16, ds: Seq<int>,
    open: Set<int>) -> (ds2: Seq<int>)
    requires
        iter_skip(s, it, n).fault is None ==> s.fault is None,
    ensures
        rises(s, iter_skip(s, it, n), ds, ds2, open, 1),
{
    let t = iter_skip(s, it, n);
    let eager = number(s, Constant::VariantName("__IterEager"@));
    let s1 = interned(s, Constant::VariantName("__IterEager"@));
    let list = s1.next_local;
    let s2 = with_local(s1, "__isk_list"@);
    let idx = s2.next_local;
    let s3 = with_local(s2, "__isk_idx"@);
    let raw = s3.next_local;
    let s4 = with_local(s3, "__isk_raw"@);
    let new_idx = s4.next_local;
    let s5 = with_local(s4, "__isk_ni"@);
    let ops = seq![
        Op::LoadLocal(it),
        Op::GetVariantArg(0),
        Op::StoreLocal(list),
        Op::LoadLocal(it),
        Op::GetVariantArg(1),
        Op::StoreLocal(idx),
        Op::LoadLocal(idx),
        Op::LoadLocal(n),
        Op::IntAdd,
        Op::StoreLocal(raw),
        Op::LoadLocal(raw),
        Op::LoadLocal(list),
        Op::GetListLen,
        Op::IntLt,
        Op::JumpIf(3),
        Op::LoadLocal(list),
        Op::GetListLen,
        Op::Jump(1),
        Op::LoadLocal(raw),
        Op::StoreLocal(new_idx),
        Op::LoadLocal(list),
        Op::LoadLocal(new_idx),
        Op::MakeVariant { name_idx: eager, arity: 2 },
    ];
    let rel = seq![0int, 1int, 1int, 0int, 1int, 1int, 0int, 1int, 2int, 1int, 0int, 1int, 2int,
        2int, 1int, 0int, 1int, 1int, 0int, 1int, 0int, 1int, 2int, 1int];
    assert(t.code =~= s.code + ops);
    assert(block_level(ops, rel)) by {
        broadcast use {lemma_block_push, lemma_block_empty};

    }
    lemma_block(s, t, ops, rel, ds, open);
    deepened(ds, rel)
}

#[verifier::rlimit(40)]
proof fn levels_iter_to_list(s: Draft, it: u16, ds: Seq<int>, open: Set<int>) -> (ds2: Seq<int>)
    requires
        iter_to_list(s, it).fault is None ==> s.fault is None,
    ensures
        rises(s, iter_to_list(s, it), ds, ds2, open, 1),
{
    let t = iter_to_list(s, it);
    let lazy = number(s, Constant::VariantName("__IterLazy"@));
    let s1 = interned(s, Constant::VariantName("__IterLazy"@));
    let nid = number(s1, Constant::NodeId("n_iter_to_list_lazy"@));
    let s2 = interned(s1, Constant::NodeId("n_iter_to_list_lazy"@));
    let some = number(s2, Constant::VariantName("Some"@));
    let s3 = interned(s2, Constant::VariantName("Some"@));
    let one = number(s3, Constant::Int(1));
    let s4 = interned(s3, Constant::Int(1));
    let out = s4.next_local;
    let s5 = with_local(s4, "__itl_out"@);
    let seed = s5.next_local;
    let s6 = with_local(s5, "__itl_seed"@);
    let step = s6.next_local;
    let s7 = with_local(s6, "__itl_step"@);
    let opt = s7.next_local;
    let s8 = with_local(s7, "__itl_opt"@);
    let pair = s8.next_local;
    let s9 = with_local(s8, "__itl_pair"@);
    let list = s9.next_local;
    let s10 = with_local(s9, "__itl_list"@);
    let i = s10.next_local;
    let s11 = with_local(s10, "__itl_i"@);
    let ops = seq![
        Op::MakeList(0),
        Op::StoreLocal(out),
        Op::LoadLocal(it),
        Op::TestVariant(lazy),
        Op::JumpIfNot(26),
        Op::LoadLocal(it),
        Op::GetVariantArg(0),
        Op::StoreLocal(seed),
        Op::LoadLocal(it),
        Op::GetVariantArg(1),
        Op::StoreLocal(step),
        Op::LoadLocal(step),
        Op::LoadLocal(seed),
        Op::CallClosure { arity: 1, node_id_idx: nid },
        Op::StoreLocal(opt),
        Op::LoadLocal(opt),
        Op::TestVariant(some),
        Op::JumpIfNot(12),
        Op::LoadLocal(opt),
        Op::GetVariantArg(0),
        Op::StoreLocal(pair),
        Op::LoadLocal(out),
        Op::LoadLocal(pair),
        Op::GetElem(0),
        Op::ListAppend,
        Op::StoreLocal(out),
        Op::LoadLocal(pair),
        Op::GetElem(1),
        Op::StoreLocal(seed),
        Op::Jump((-19) as i32),
        Op::Jump(22),
        Op::LoadLocal(it),
        Op::GetVariantArg(0),
        Op::StoreLocal(list),
        Op::LoadLocal(it),
        Op::GetVariantArg(1),
        Op::StoreLocal(i),
        Op::LoadLocal(i),
        Op::LoadLocal(list),
        Op::GetListLen,
        Op::IntLt,
        Op::JumpIfNot(11),
        Op::LoadLocal(out),
        Op::LoadLocal(list),
        Op::LoadLocal(i),
        Op::GetListElemDyn,
        Op::ListAppend,
        Op::StoreLocal(out),
        Op::LoadLocal(i),
        Op::PushConst(one),
        Op::IntAdd,
        Op::StoreLocal(i),
        Op::Jump((-16) as i32),
        Op::LoadLocal(out),
    ];
    let rel = seq![0int, 1int, 0int, 1int, 1int, 0int, 1int, 1int, 0int, 1int, 1int, 0int, 1int,
        2int, 1int, 0int, 1int, 1int, 0int, 1int, 1int, 0int, 1int, 2int, 2int, 1int, 0int, 1int,
        1int, 0int, 0int, 0int, 1int, 1int, 0int, 1int, 1int, 0int, 1int, 2int, 2int, 1int, 0int,
        1int, 2int, 3int, 2int, 1int, 0int, 1int, 2int, 1int, 0int, 0int, 1int];
    assert(t.code =~= s.code + ops);
    assert(block_level(ops, rel)) by {
        broadcast use {lemma_block_push, lemma_block_empty};

    }
    lemma_block(s, t, ops, rel, ds, open);
    deepened(ds, rel)
}

proof fn levels_iter_map(s: Draft, it: u16, f: u16, ds: Seq<int>, open: Set<int>) -> (ds2: Seq<int>)
    requires
        iter_map(s, it, f).fault is None ==> s.fault is None,
    ensures
        rises(s, iter_map(s, it, f), ds, ds2, open, 1),
{
    let t = iter_map(s, it, f);
    let nid = number(s, Constant::NodeId("n_iter_map"@));
    let s1 = interned(s, Constant::NodeId("n_iter_map"@));
    let one = number(s1, Constant::Int(1));
    let s2 = interned(s1, Constant::Int(1));
    let zero = number(s2, Constant::Int(0));
    let s3 = interned(s2, Constant::Int(0));
    let eager = number(s3, Constant::VariantName("__IterEager"@));
    let s4 = interned(s3, Constant::VariantName("__IterEager"@));
    let list = s4.next_local;
    let s5 = with_local(s4, "__im_list"@);
    let i = s5.next_local;
    let s6 = with_local(s5, "__im_i"@);
    let out = s6.next_local;
    let s7 = with_local(s6, "__im_out"@);
    let ops = seq![
        Op::LoadLocal(it),
        Op::GetVariantArg(0),
        Op::StoreLocal(list),
        Op::LoadLocal(it),
        Op::GetVariantArg(1),
        Op::StoreLocal(i),
        Op::MakeList(0),
        Op::StoreLocal(out),
        Op::LoadLocal(i),
        Op::LoadLocal(list),
        Op::GetListLen,
        Op::IntLt,
        Op::JumpIfNot(13),
        Op::LoadLocal(out),
        Op::LoadLocal(f),
        Op::LoadLocal(list),
        Op::LoadLocal(i),
        Op::GetListElemDyn,
        Op::CallClosure { arity: 1, node_id_idx: nid },
        Op::ListAppend,
        Op::StoreLocal(out),
        Op::LoadLocal(i),
        Op::PushConst(one),
        Op::IntAdd,
        Op::StoreLocal(i),
        Op::Jump((-18) as i32),
        Op::LoadLocal(out),
        Op::PushConst(zero),
        Op::MakeVariant { name_idx: eager, arity: 2 },
    ];
    let rel = seq![0int, 1int, 1int, 0int, 1int, 1int, 0int, 1int, 0int, 1int, 2int, 2int, 1int,
        0int, 1int, 2int, 3int, 4int, 3int, 2int, 1int, 0int, 1int, 2int, 1int, 0int, 0int, 1int,
        2int, 1int];
    assert(t.code =~= s.code + ops);
    assert(block_level(ops, rel)) by {
        broadcast use {lemma_block_push, lemma_block_empty};

    }
    lemma_block(s, t, ops, rel, ds, open);
    deepened(ds, rel)
}

proof fn levels_iter_filter(s: Draft, it: u16, f: u16, ds: Seq<int>,
    open: Set<int>) -> (ds2: Seq<int>)
    requires
        iter_filter(s, it, f).fault is None ==> s.fault is None,
    ensures
        rises(s, iter_filter(s, it, f), ds, ds2, open, 1),
{
    let t = iter_filter(s, it, f);
    let nid = number(s, Constant::NodeId("n_iter_filter"@));
    let s1 = interned(s, Constant::NodeId("n_iter_filter"@));
    let one = number(s1, Constant::Int(1));
    let s2 = interned(s1, Constant::Int(1));
    let zero = number(s2, Constant::Int(0));
    let s3 = interned(s2, Constant::Int(0));
    let eager = number(s3, Constant::VariantName("__IterEager"@));
    let s4 = interned(s3, Constant::VariantName("__IterEager"@));
    let list = s4.next_local;
    let s5 = with_local(s4, "__if_list"@);
    let i = s5.next_local;
    let s6 = with_local(s5, "__if_i"@);
    let out = s6.next_local;
    let s7 = with_local(s6, "__if_out"@);
    let x = s7.next_local;
    let s8 = with_local(s7, "__if_x"@);
    let ops = seq![
        Op::LoadLocal(it),
        Op::GetVariantArg(0),
        Op::StoreLocal(list),
        Op::LoadLocal(it),
        Op::GetVariantArg(1),
        Op::StoreLocal(i),
        Op::MakeList(0),
        Op::StoreLocal(out),
        Op::LoadLocal(i),
        Op::LoadLocal(list),
        Op::GetListLen,
        Op::IntLt,
        Op::JumpIfNot(17),
        Op::LoadLocal(list),
        Op::LoadLocal(i),
        Op::GetListElemDyn,
        Op::StoreLocal(x),
        Op::LoadLocal(f),
        Op::LoadLocal(x),
        Op::CallClosure { arity: 1, node_id_idx: nid },
        Op::JumpIfNot(4),
        Op::LoadLocal(out),
        Op::LoadLocal(x),
        Op::ListAppend,
        Op::StoreLocal(out),
        Op::LoadLocal(i),
        Op::PushConst(one),
        Op::IntAdd,
        Op::StoreLocal(i),
        Op::Jump((-22) as i32),
        Op::LoadLocal(out),
        Op::PushConst(zero),
        Op::MakeVariant { name_idx: eager, arity: 2 },
    ];
    let rel = seq![0int, 1int, 1int, 0int, 1int, 1int, 0int, 1int, 0int, 1int, 2int, 2int, 1int,
        0int, 1int, 2int, 1int, 0int, 1int, 2int, 1int, 0int, 1int, 2int, 1int, 0int, 1int, 2int,
        1int, 0int, 0int, 1int, 2int, 1int];
    assert(t.code =~= s.code + ops);
    assert(block_level(ops, rel)) by {
        broadcast use {lemma_block_push, lemma_block_empty};

    }
    lemma_block(s, t, ops, rel, ds, open);
    deepened(ds, rel)
}

proof fn levels_iter_fold(s: Draft, it: u16, acc: u16, f: u16, ds: Seq<int>,
    open: Set<int>) -> (ds2: Seq<int>)
    requires
        iter_fold(s, it, acc, f).fault is None ==> s.fault is None,
    ensures
        rises(s, iter_fold(s, it, acc, f), ds, ds2, open, 1),
{
    let t = iter_fold(s, it, acc, f);
    let nid = number(s, Constant::NodeId("n_iter_fold"@));
    let s1 = interned(s, Constant::NodeId("n_iter_fold"@));
    let one = number(s1, Constant::Int(1));
    let s2 = interned(s1, Constant::Int(1));
    let list = s2.next_local;
    let s3 = with_local(s2, "__ifo_list"@);
    let i = s3.next_local;
    let s4 = with_local(s3, "__ifo_i"@);
    let ops = seq![
        Op::LoadLocal(it),
        Op::GetVariantArg(0),
        Op::StoreLocal(list),
        Op::LoadLocal(it),
        Op::GetVariantArg(1),
        Op::StoreLocal(i),
        Op::LoadLocal(i),
        Op::LoadLocal(list),
        Op::GetListLen,
        Op::IntLt,
        Op::JumpIfNot(12),
        Op::LoadLocal(f),
        Op::LoadLocal(acc),
        Op::LoadLocal(list),
        Op::LoadLocal(i),
        Op::GetListElemDyn,
        Op::CallClosure { arity: 2, node_id_idx: nid },
        Op::StoreLocal(acc),
        Op::LoadLocal(i),
        Op::PushConst(one),
        Op::IntAdd,
        Op::StoreLocal(i),
        Op::Jump((-17) as i32),
        Op::LoadLocal(acc),
    ];
    let rel = seq![0int, 1int, 1int, 0int, 1int, 1int, 0int, 1int, 2int, 2int, 1int, 0int, 1int,
        2int, 3int, 4int, 3int, 1int, 0int, 1int, 2int, 1int, 0int, 0int, 1int];
    assert(t.code =~= s.code + ops);
    assert(block_level(ops, rel)) by {
        broadcast use {lemma_block_push, lemma_block_empty};

    }
    lemma_block(s, t, ops, rel, ds, open);
    deepened(ds, rel)
}

proof fn levels_map_fold(s: Draft, xs: u16, acc: u16, f: u16, ds: Seq<int>,
    open: Set<int>) -> (ds2: Seq<int>)
    requires
        map_fold(s, xs, acc, f).fault is None ==> s.fault is None,
    ensures
        rises(s, map_fold(s, xs, acc, f), ds, ds2, open, 1),
{
    let t = map_fold(s, xs, acc, f);
    let zero = number(s, Constant::Int(0));
    let s1 = interned(s, Constant::Int(0));
    let nid = number(s1, Constant::NodeId("n_map_fold"@));
    let s2 = interned(s1, Constant::NodeId("n_map_fold"@));
    let one = number(s2, Constant::Int(1));
    let s3 = interned(s2, Constant::Int(1));
    let i = s3.next_local;
    let s4 = with_local(s3, "__mf_i"@);
    let pair = s4.next_local;
    let s5 = with_local(s4, "__mf_pair"@);
    let ops = seq![
        Op::PushConst(zero),
        Op::StoreLocal(i),
        Op::LoadLocal(i),
        Op::LoadLocal(xs),
        Op::GetListLen,
        Op::IntLt,
        Op::JumpIfNot(17),
        Op::LoadLocal(xs),
        Op::LoadLocal(i),
        Op::GetListElemDyn,
        Op::StoreLocal(pair),
        Op::LoadLocal(f),
        Op::LoadLocal(acc),
        Op::LoadLocal(pair),
        Op::GetElem(0),
        Op::LoadLocal(pair),
        Op::GetElem(1),
        Op::CallClosure { arity: 3, node_id_idx: nid },
        Op::StoreLocal(acc),
        Op::LoadLocal(i),
        Op::PushConst(one),
        Op::IntAdd,
        Op::StoreLocal(i),
        Op::Jump((-22) as i32),
        Op::LoadLocal(acc),
    ];
    let rel = seq![0int, 1int, 0int, 1int, 2int, 2int, 1int, 0int, 1int, 2int, 1int, 0int, 1int,
        2int, 3int, 3int, 4int, 4int, 1int, 0int, 1int, 2int, 1int, 0int, 0int, 1int];
    assert(t.code =~= s.code + ops);
    assert(block_level(ops, rel)) by {
        broadcast use {lemma_block_push, lemma_block_empty};

    }
    lemma_block(s, t, ops, rel, ds, open);
    deepened(ds, rel)
}

proof fn levels_flow_sequential(s: Draft, ds: Seq<int>, open: Set<int>) -> (ds2: Seq<int>)
    requires
        flow_sequential(s).fault is None ==> s.fault is None,
    ensures
        rises(s, flow_sequential(s), ds, ds2, open, (-1)),
{
    let nid = number(s, Constant::NodeId("n_flow_sequential"@));
    let s1 = interned(s, Constant::NodeId("n_flow_sequential"@));
    let code = flow_sequential_code(nid);
    let rel = seq![0int, 1int, 2int, 1int, 0int, 1int, 2int, 1int, 0int];
    assert(block_level(code, rel)) by {
        broadcast use {lemma_block_push, lemma_block_empty};

    }
    lemma_still(s, s1, ds, open);
    let ds2 = lemma_trampoline(s1, "__flow_sequential"@, 3, 4, 2, code, rel, ds, open);
    lemma_rises(s, s1, flow_sequential(s), ds, ds, ds2, open, 0, (-1));
    ds2
}

proof fn levels_flow_parallel(s: Draft, ds: Seq<int>, open: Set<int>) -> (ds2: Seq<int>)
    requires
        flow_parallel(s).fault is None ==> s.fault is None,
    ensures
        rises(s, flow_parallel(s), ds, ds2, open, (-1)),
{
    let nid = number(s, Constant::NodeId("n_flow_parallel"@));
    let s1 = interned(s, Constant::NodeId("n_flow_parallel"@));
    let code = flow_parallel_code(nid);
    let rel = seq![0int, 1int, 1int, 2int, 2int, 1int, 0int];
    assert(block_level(code, rel)) by {
        broadcast use {lemma_block_push, lemma_block_empty};

    }
    lemma_still(s, s1, ds, open);
    let ds2 = lemma_trampoline(s1, "__flow_parallel"@, 2, 2, 2, code, rel, ds, open);
    lemma_rises(s, s1, flow_parallel(s), ds, ds, ds2, open, 0, (-1));
    ds2
}

proof fn levels_flow_branch(s: Draft, ds: Seq<int>, open: Set<int>) -> (ds2: Seq<int>)
    requires
        flow_branch(s).fault is None ==> s.fault is None,
    ensures
        rises(s, flow_branch(s), ds, ds2, open, (-2)),
{
    let nid = number(s, Constant::NodeId("n_flow_branch"@));
    let s1 = interned(s, Constant::NodeId("n_flow_branch"@));
    let code = flow_branch_code(nid);
    let rel = seq![0int, 1int, 2int, 1int, 0int, 1int, 2int, 1int, 0int, 1int, 2int, 1int, 0int];
    assert(block_level(code, rel)) by {
        broadcast use {lemma_block_push, lemma_block_empty};

    }
    lemma_still(s, s1, ds, open);
    let ds2 = lemma_trampoline(s1, "__flow_branch"@, 4, 4, 3, code, rel, ds, open);
    lemma_rises(s, s1, flow_branch(s), ds, ds, ds2, open, 0, (-2));
    ds2
}

proof fn levels_flow_retry(s: Draft, ds: Seq<int>, open: Set<int>) -> (ds2: Seq<int>)
    requires
        flow_retry(s).fault is None ==> s.fault is None,
    ensures
        rises(s, flow_retry(s), ds, ds2, open, (-1)),
{
    let nid = number(s, Constant::NodeId("n_flow_retry"@));
    let s1 = interned(s, Constant::NodeId("n_flow_retry"@));
    let ok = number(s1, Constant::VariantName("Ok"@));
    let s2 = interned(s1, Constant::VariantName("Ok"@));
    let zero = number(s2, Constant::Int(0));
    let s3 = interned(s2, Constant::Int(0));
    let one = number(s3, Constant::Int(1));
    let s4 = interned(s3, Constant::Int(1));
    let code = flow_retry_code(nid, ok, zero, one);
    let rel = seq![0int, 1int, 0int, 1int, 2int, 1int, 0int, 1int, 2int, 1int, 0int, 1int, 1int,
        0int, 1int, 0int, 1int, 2int, 1int, 0int, 0int, 1int, 0int];
    assert(block_level(code, rel)) by {
        broadcast use {lemma_block_push, lemma_block_empty};

    }
    lemma_still(s, s4, ds, open);
    let ds2 = lemma_trampoline(s4, "__flow_retry"@, 3, 5, 2, code, rel, ds, open);
    lemma_rises(s, s4, flow_retry(s), ds, ds, ds2, open, 0, (-1));
    ds2
}

proof fn levels_flow_retry_with_backoff(s: Draft, ds: Seq<int>, open: Set<int>) -> (ds2: Seq<int>)
    requires
        flow_retry_with_backoff(s).fault is None ==> s.fault is None,
    ensures
        rises(s, flow_retry_with_backoff(s), ds, ds2, open, (-2)),
{
    let call_nid = number(s, Constant::NodeId("n_flow_retry_backoff"@));
    let s1 = interned(s, Constant::NodeId("n_flow_retry_backoff"@));
    let sleep_nid = number(s1, Constant::NodeId("n_flow_retry_backoff_sleep"@));
    let s2 = interned(s1, Constant::NodeId("n_flow_retry_backoff_sleep"@));
    let kind_idx = number(s2, Constant::Str("time"@));
    let s3 = interned(s2, Constant::Str("time"@));
    let op_idx = number(s3, Constant::Str("sleep_ms"@));
    let s4 = interned(s3, Constant::Str("sleep_ms"@));
    let ok = number(s4, Constant::VariantName("Ok"@));
    let s5 = interned(s4, Constant::VariantName("Ok"@));
    let zero = number(s5, Constant::Int(0));
    let s6 = interned(s5, Constant::Int(0));
    let one = number(s6, Constant::Int(1));
    let s7 = interned(s6, Constant::Int(1));
    let two = number(s7, Constant::Int(2));
    let s8 = interned(s7, Constant::Int(2));
    let code = flow_retry_with_backoff_code(call_nid, sleep_nid, kind_idx, op_idx, ok, zero, one,
        two);
    let rel = seq![0int, 1int, 0int, 1int, 0int, 1int, 2int, 1int, 0int, 1int, 2int, 1int, 0int,
        1int, 1int, 0int, 1int, 2int, 1int, 0int, 1int, 2int, 1int, 0int, 1int, 1int, 0int, 1int,
        0int, 1int, 2int, 1int, 0int, 0int, 1int, 0int];
    assert(block_level(code, rel)) by {
        broadcast use {lemma_block_push, lemma_block_empty};

    }
    lemma_still(s, s8, ds, open);
    let ds2 = lemma_trampoline(s8, "__flow_retry_backoff"@, 4, 7, 3, code, rel, ds, open);
    lemma_rises(s, s8, flow_retry_with_backoff(s), ds, ds, ds2, open, 0, (-2));
    ds2
}

proof fn levels_flow_parallel_list(s: Draft, xs: u16, ds: Seq<int>,
    open: Set<int>) -> (ds2: Seq<int>)
    requires
        flow_parallel_list(s, xs).fault is None ==> s.fault is None,
    ensures
        rises(s, flow_parallel_list(s, xs), ds, ds2, open, 1),
{
    let t = flow_parallel_list(s, xs);
    let zero = number(s, Constant::Int(0));
    let s1 = interned(s, Constant::Int(0));
    let nid = number(s1, Constant::NodeId("n_flow_parallel_list"@));
    let s2 = interned(s1, Constant::NodeId("n_flow_parallel_list"@));
    let one = number(s2, Constant::Int(1));
    let s3 = interned(s2, Constant::Int(1));
    let out = s3.next_local;
    let s4 = with_local(s3, "__fpl_out"@);
    let i = s4.next_local;
    let s5 = with_local(s4, "__fpl_i"@);
    let ops = seq![
        Op::MakeList(0),
        Op::StoreLocal(out),
        Op::PushConst(zero),
        Op::StoreLocal(i),
        Op::LoadLocal(i),
        Op::LoadLocal(xs),
        Op::GetListLen,
        Op::IntLt,
        Op::JumpIfNot(12),
        Op::LoadLocal(out),
        Op::LoadLocal(xs),
        Op::LoadLocal(i),
        Op::GetListElemDyn,
        Op::CallClosure { arity: 0, node_id_idx: nid },
        Op::ListAppend,
        Op::StoreLocal(out),
        Op::LoadLocal(i),
        Op::PushConst(one),
        Op::IntAdd,
        Op::StoreLocal(i),
        Op::Jump((-17) as i32),
        Op::LoadLocal(out),
    ];
    let rel = seq![0int, 1int, 0int, 1int, 0int, 1int, 2int, 2int, 1int, 0int, 1int, 2int, 3int,
        2int, 2int, 1int, 0int, 1int, 2int, 1int, 0int, 0int, 1int];
    assert(t.code =~= s.code + ops);
    assert(block_level(ops, rel)) by {
        broadcast use {lemma_block_push, lemma_block_empty};

    }
    lemma_block(s, t, ops, rel, ds, open);
    deepened(ds, rel)
}

proof fn levels_list_map(s: Draft, ds: Seq<int>, open: Set<int>) -> (ds2: Seq<int>)
    requires
        list_map(s).fault is None ==> s.fault is None,
    ensures
        rises(s, list_map(s), ds, ds2, open, (-1)),
{
    let t = list_map(s);
    let node_id_idx = number(s, Constant::NodeId("n_list_map"@));
    let s1 = interned(s, Constant::NodeId("n_list_map"@));
    let ops = seq![
        Op::ListMap { node_id_idx },
    ];
    let rel = seq![0int, -1int];
    assert(t.code =~= s.code + ops);
    assert(block_level(ops, rel)) by {
        broadcast use {lemma_block_push, lemma_block_empty};

    }
    lemma_block(s, t, ops, rel, ds, open);
    deepened(ds, rel)
}

proof fn levels_list_par_map(s: Draft, ds: Seq<int>, open: Set<int>) -> (ds2: Seq<int>)
    requires
        list_par_map(s).fault is None ==> s.fault is None,
    ensures
        rises(s, list_par_map(s), ds, ds2, open, (-1)),
{
    let t = list_par_map(s);
    let node_id_idx = number(s, Constant::NodeId("n_list_par_map"@));
    let s1 = interned(s, Constant::NodeId("n_list_par_map"@));
    let ops = seq![
        Op::ParallelMap { node_id_idx },
    ];
    let rel = seq![0int, -1int];
    assert(t.code =~= s.code + ops);
    assert(block_level(ops, rel)) by {
        broadcast use {lemma_block_push, lemma_block_empty};

    }
    lemma_block(s, t, ops, rel, ds, open);
    deepened(ds, rel)
}

proof fn levels_list_sort_by(s: Draft, ds: Seq<int>, open: Set<int>) -> (ds2: Seq<int>)
    requires
        list_sort_by(s).fault is None ==> s.fault is None,
    ensures
        rises(s, list_sort_by(s), ds, ds2, open, (-1)),
{
    let t = list_sort_by(s);
    let node_id_idx = number(s, Constant::NodeId("n_list_sort_by"@));
    let s1 = interned(s, Constant::NodeId("n_list_sort_by"@));
    let ops = seq![
        Op::SortByKey { node_id_idx },
    ];
    let rel = seq![0int, -1int];
    assert(t.code =~= s.code + ops);
    assert(block_level(ops, rel)) by {
        broadcast use {lemma_block_push, lemma_block_empty};

    }
    lemma_block(s, t, ops, rel, ds, open);
    deepened(ds, rel)
}

proof fn levels_list_filter(s: Draft, ds: Seq<int>, open: Set<int>) -> (ds2: Seq<int>)
    requires
        list_filter(s).fault is None ==> s.fault is None,
    ensures
        rises(s, list_filter(s), ds, ds2, open, (-1)),
{
    let t = list_filter(s);
    let node_id_idx = number(s, Constant::NodeId("n_list_filter"@));
    let s1 = interned(s, Constant::NodeId("n_list_filter"@));
    let ops = seq![
        Op::ListFilter { node_id_idx },
    ];
    let rel = seq![0int, -1int];
    assert(t.code =~= s.code + ops);
    assert(block_level(ops, rel)) by {
        broadcast use {lemma_block_push, lemma_block_empty};

    }
    lemma_block(s, t, ops, rel, ds, open);
    deepened(ds, rel)
}

proof fn levels_list_fold(s: Draft, ds: Seq<int>, open: Set<int>) -> (ds2: Seq<int>)
    requires
        list_fold(s).fault is None ==> s.fault is None,
    ensures
        rises(s, list_fold(s), ds, ds2, open, (-2)),
{
    let t = list_fold(s);
    let node_id_idx = number(s, Constant::NodeId("n_list_fold"@));
    let s1 = interned(s, Constant::NodeId("n_list_fold"@));
    let ops = seq![
        Op::ListFold { node_id_idx },
    ];
    let rel = seq![0int, -2int];
    assert(t.code =~= s.code + ops);
    assert(block_level(ops, rel)) by {
        broadcast use {lemma_block_push, lemma_block_empty};

    }
    lemma_block(s, t, ops, rel, ds, open);
    deepened(ds, rel)
}

/// How many of the arguments stay on the stack.
pub open spec fn left(c: Combinator, k: nat) -> int
    decreases k,
{
    if k == 0 {
        0
    } else {
        left(c, (k - 1) as nat) + (if keeper(c, (k - 1) as nat) is None { 1int } else { 0int })
    }
}

/// The code of a combinator makes one value of its arguments.
pub proof fn lemma_closing_levels(
    g: Globals,
    s: Draft,
    c: Combinator,
    slots: Seq<u16>,
    tag: u32,
    ds: Seq<int>,
    open: Set<int>,
) -> (ds2: Seq<int>)
    ensures
        rises(s, closing(s, c, slots, tag), ds, ds2, open, 1 - left(c, taken(c))),
{
    lemma_closing_keeps(g, s, c, slots, tag);
    reveal_with_fuel(left, 4);
    match c {
        Combinator::ResultMap => levels_variant_map(s, slots[0], slots[1], tag, ds, open),
        Combinator::ResultAndThen => levels_variant_and_then(s, slots[0], slots[1], tag, ds, open),
        Combinator::ResultMapErr => levels_variant_map(s, slots[0], slots[1], tag, ds, open),
        Combinator::ResultOrElse => levels_result_or_else(s, slots[0], slots[1], tag, ds, open),
        Combinator::ResultUnwrapOrElse => levels_result_unwrap_or_else(s, slots[0], slots[1],
            tag, ds, open),
        Combinator::OptionMap => levels_variant_map(s, slots[0], slots[1], tag, ds, open),
        Combinator::OptionAndThen => levels_variant_and_then(s, slots[0], slots[1], tag, ds, open),
        Combinator::OptionOrElse => levels_option_or_else(s, slots[0], slots[1], tag, ds, open),
        Combinator::OptionUnwrapOrElse => levels_option_unwrap_or_else(s, slots[0], slots[1],
            tag, ds, open),
        Combinator::ListMap => levels_list_map(s, ds, open),
        Combinator::ListParMap => levels_list_par_map(s, ds, open),
        Combinator::ListSortBy => levels_list_sort_by(s, ds, open),
        Combinator::ListFilter => levels_list_filter(s, ds, open),
        Combinator::ListFold => levels_list_fold(s, ds, open),
        Combinator::IterFromList => levels_iter_from_list(s, ds, open),
        Combinator::IterUnfold => levels_iter_unfold(s, ds, open),
        Combinator::IterNext => levels_iter_next(s, slots[0], ds, open),
        Combinator::IterIsEmpty => levels_iter_is_empty(s, slots[0], ds, open),
        Combinator::IterCount => levels_iter_count(s, slots[0], ds, open),
        Combinator::IterTake => levels_iter_take(s, slots[0], slots[1], ds, open),
        Combinator::IterSkip => levels_iter_skip(s, slots[0], slots[1], ds, open),
        Combinator::IterToList => levels_iter_to_list(s, slots[0], ds, open),
        Combinator::IterMap => levels_iter_map(s, slots[0], slots[1], ds, open),
        Combinator::IterFilter => levels_iter_filter(s, slots[0], slots[1], ds, open),
        Combinator::IterFold => levels_iter_fold(s, slots[0], slots[1], slots[2], ds, open),
        Combinator::MapFold => levels_map_fold(s, slots[0], slots[1], slots[2], ds, open),
        Combinator::FlowSequential => levels_flow_sequential(s, ds, open),
        Combinator::FlowBranch => levels_flow_branch(s, ds, open),
        Combinator::FlowRetry => levels_flow_retry(s, ds, open),
        Combinator::FlowRetryWithBackoff => levels_flow_retry_with_backoff(s, ds, open),
        Combinator::FlowParallel => levels_flow_parallel(s, ds, open),
        Combinator::FlowParallelList => levels_flow_parallel_list(s, slots[0], ds, open),
    }
}

} // verus!
