//! The code of the combinators finds what it refers to.

use vstd::prelude::*;

use crate::compiler::combinators::{closing, keeper, taken, tested_tag, Combinator};
use crate::compiler::draft::{emitted_all, interned, number, with_local, Draft, Globals};
use crate::compiler::flow_code::{
    flow_branch, flow_branch_code, flow_parallel, flow_parallel_code, flow_parallel_list,
    flow_retry, flow_retry_code, flow_retry_with_backoff, flow_retry_with_backoff_code,
    flow_sequential, flow_sequential_code, with_trampoline,
};
use crate::compiler::iter_code::{
    iter_count, iter_filter, iter_fold, iter_from_list, iter_is_empty, iter_map, iter_next,
    iter_skip, iter_take, iter_to_list, iter_unfold, map_fold,
};
use crate::compiler::list_code::{list_filter, list_fold, list_map, list_par_map, list_sort_by};
use crate::compiler::pool::Constant;
use crate::compiler::soundness::{
    fine, fits_within, body_fits, coded, function_fits, grew, is_const, is_variant_name, keeps,
    lemma_emitted, lemma_emitted_all, lemma_fits_empty, lemma_code_grew, lemma_fits_grew,
    lemma_fits_parts, lemma_fits_push, lemma_functions_grew, lemma_coded_same, lemma_grew,
    lemma_interned, lemma_keeps, lemma_with_local, sound,
};
use crate::compiler::variant_code::{
    option_or_else, option_unwrap_or_else, result_or_else, result_unwrap_or_else, variant_and_then,
    variant_map,
};
use crate::op::Op;

verus! {

broadcast use {crate::compiler::draft::lemma_with_local, lemma_coded_same};

/// A synthetic function whose code fits.
proof fn lemma_trampoline(
    g: Globals,
    s: Draft,
    name: Seq<char>,
    arity: u16,
    locals_count: u16,
    capture_count: u16,
    code: Seq<Op>,
)
    ensures
        code.len() > 0 ==> grew(
            s,
            with_trampoline(s, name, arity, locals_count, capture_count, code),
        ),
        sound(g, s) && fine(with_trampoline(s, name, arity, locals_count, capture_count, code))
            && body_fits(code, s.pool, s.functions.len(), locals_count) ==> sound(
            g,
            with_trampoline(s, name, arity, locals_count, capture_count, code),
        ),
{
    let t = with_trampoline(s, name, arity, locals_count, capture_count, code);
    if code.len() > 0 {
        reveal(coded);
    }
    if sound(g, s) && fine(t) && body_fits(code, s.pool, s.functions.len(), locals_count) {
        let f = t.functions.last();
        let u = Draft { functions: s.functions.push(f), ..s };
        lemma_functions_grew(s, u);
        if code.len() <= i32::MAX {
            lemma_fits_grew(
                code,
                code.len() - 1,
                s.pool,
                s.functions.len(),
                locals_count,
                code.len() - 1,
                u.pool,
                u.functions.len(),
                locals_count,
            );
        }
        assert(f.code == code);
        lemma_code_grew(s, u);
        assert forall|i: int| 0 <= i < u.functions.len() implies function_fits(
            #[trigger] u.functions[i],
            u.pool,
            u.functions.len(),
        ) by {
            if i < s.functions.len() {
                assert(u.functions[i] == s.functions[i]);
            }
        }
        assert(sound(g, u));
        lemma_emitted(g, u, Op::MakeClosure { fn_id: s.functions.len() as u32, capture_count });
    }
}

proof fn keeps_variant_map(g: Globals, s: Draft, val: u16, f: u16, tag: u32)
    ensures
        grew(s, variant_map(s, val, f, tag)),
        sound(g, s) && val < s.peak_local && f < s.peak_local && is_variant_name(s.pool, tag)
            && fine(variant_map(s, val, f, tag)) ==> sound(g, variant_map(s, val, f, tag)),
{
    let t = variant_map(s, val, f, tag);
    let nid = number(s, Constant::NodeId("n_hov"@));
    let s1 = interned(s, Constant::NodeId("n_hov"@));
    lemma_interned(g, s, Constant::NodeId("n_hov"@));
    let arg = s1.next_local;
    let s2 = with_local(s1, "__hov_arg"@);
    lemma_with_local(g, s1, "__hov_arg"@);
    lemma_keeps(g, s, s1, s2);
    let ops0 = seq![
        Op::LoadLocal(val),
        Op::Dup,
        Op::TestVariant(tag),
        Op::JumpIfNot(7),
        Op::GetVariantArg(0),
        Op::StoreLocal(arg),
        Op::LoadLocal(f),
        Op::LoadLocal(arg),
        Op::CallClosure { arity: 1, node_id_idx: nid },
        Op::MakeVariant { name_idx: tag, arity: 1 },
        Op::Jump(0),
    ];
    assert(keeps(g, s, s2));
    if sound(g, s) && val < s.peak_local && f < s.peak_local && is_variant_name(s.pool, tag)
        && fine(variant_map(s, val, f, tag)) {
        assert(fine(s2));
        lemma_grew(s, s1, s2);
        assert(is_const(s2.pool, nid, Constant::NodeId("n_hov"@)));
        assert(arg < s2.peak_local);
        assert(fits_within(
            ops0,
            0,
            11,
            s2.pool,
            s2.functions.len(),
            s2.peak_local,
        )) by {
            broadcast use {lemma_fits_push, lemma_fits_empty};
        }
        lemma_emitted_all(g, s2, ops0);
        assert(t =~= emitted_all(s2, ops0));
    }
}

proof fn keeps_variant_and_then(g: Globals, s: Draft, val: u16, f: u16, tag: u32)
    ensures
        grew(s, variant_and_then(s, val, f, tag)),
        sound(g, s) && val < s.peak_local && f < s.peak_local && is_variant_name(s.pool, tag)
            && fine(variant_and_then(s, val, f, tag))
            ==> sound(g, variant_and_then(s, val, f, tag)),
{
    let t = variant_and_then(s, val, f, tag);
    let nid = number(s, Constant::NodeId("n_hov"@));
    let s1 = interned(s, Constant::NodeId("n_hov"@));
    lemma_interned(g, s, Constant::NodeId("n_hov"@));
    let arg = s1.next_local;
    let s2 = with_local(s1, "__hov_arg"@);
    lemma_with_local(g, s1, "__hov_arg"@);
    lemma_keeps(g, s, s1, s2);
    let ops0 = seq![
        Op::LoadLocal(val),
        Op::Dup,
        Op::TestVariant(tag),
        Op::JumpIfNot(6),
        Op::GetVariantArg(0),
        Op::StoreLocal(arg),
        Op::LoadLocal(f),
        Op::LoadLocal(arg),
        Op::CallClosure { arity: 1, node_id_idx: nid },
        Op::Jump(0),
    ];
    assert(keeps(g, s, s2));
    if sound(g, s) && val < s.peak_local && f < s.peak_local && is_variant_name(s.pool, tag)
        && fine(variant_and_then(s, val, f, tag)) {
        assert(fine(s2));
        lemma_grew(s, s1, s2);
        assert(is_const(s2.pool, nid, Constant::NodeId("n_hov"@)));
        assert(arg < s2.peak_local);
        assert(fits_within(
            ops0,
            0,
            10,
            s2.pool,
            s2.functions.len(),
            s2.peak_local,
        )) by {
            broadcast use {lemma_fits_push, lemma_fits_empty};
        }
        lemma_emitted_all(g, s2, ops0);
        assert(t =~= emitted_all(s2, ops0));
    }
}

proof fn keeps_result_or_else(g: Globals, s: Draft, val: u16, f: u16, tag: u32)
    ensures
        grew(s, result_or_else(s, val, f, tag)),
        sound(g, s) && val < s.peak_local && f < s.peak_local && is_variant_name(s.pool, tag)
            && fine(result_or_else(s, val, f, tag)) ==> sound(g, result_or_else(s, val, f, tag)),
{
    let t = result_or_else(s, val, f, tag);
    let nid = number(s, Constant::NodeId("n_hoe"@));
    let s1 = interned(s, Constant::NodeId("n_hoe"@));
    lemma_interned(g, s, Constant::NodeId("n_hoe"@));
    let ops0 = seq![
        Op::LoadLocal(val),
        Op::Dup,
        Op::TestVariant(tag),
        Op::JumpIfNot(6),
        Op::Pop,
        Op::LoadLocal(f),
        Op::LoadLocal(val),
        Op::GetVariantArg(0),
        Op::CallClosure { arity: 1, node_id_idx: nid },
        Op::Jump(0),
    ];
    assert(keeps(g, s, s1));
    if sound(g, s) && val < s.peak_local && f < s.peak_local && is_variant_name(s.pool, tag)
        && fine(result_or_else(s, val, f, tag)) {
        assert(fine(s1));
        assert(is_const(s1.pool, nid, Constant::NodeId("n_hoe"@)));
        assert(fits_within(
            ops0,
            0,
            10,
            s1.pool,
            s1.functions.len(),
            s1.peak_local,
        )) by {
            broadcast use {lemma_fits_push, lemma_fits_empty};
        }
        lemma_emitted_all(g, s1, ops0);
        assert(t =~= emitted_all(s1, ops0));
    }
}

proof fn keeps_option_or_else(g: Globals, s: Draft, val: u16, f: u16, tag: u32)
    ensures
        grew(s, option_or_else(s, val, f, tag)),
        sound(g, s) && val < s.peak_local && f < s.peak_local && is_variant_name(s.pool, tag)
            && fine(option_or_else(s, val, f, tag)) ==> sound(g, option_or_else(s, val, f, tag)),
{
    let t = option_or_else(s, val, f, tag);
    let nid = number(s, Constant::NodeId("n_hoe"@));
    let s1 = interned(s, Constant::NodeId("n_hoe"@));
    lemma_interned(g, s, Constant::NodeId("n_hoe"@));
    let ops0 = seq![
        Op::LoadLocal(val),
        Op::Dup,
        Op::TestVariant(tag),
        Op::JumpIfNot(4),
        Op::Pop,
        Op::LoadLocal(f),
        Op::CallClosure { arity: 0, node_id_idx: nid },
        Op::Jump(0),
    ];
    assert(keeps(g, s, s1));
    if sound(g, s) && val < s.peak_local && f < s.peak_local && is_variant_name(s.pool, tag)
        && fine(option_or_else(s, val, f, tag)) {
        assert(fine(s1));
        assert(is_const(s1.pool, nid, Constant::NodeId("n_hoe"@)));
        assert(fits_within(
            ops0,
            0,
            8,
            s1.pool,
            s1.functions.len(),
            s1.peak_local,
        )) by {
            broadcast use {lemma_fits_push, lemma_fits_empty};
        }
        lemma_emitted_all(g, s1, ops0);
        assert(t =~= emitted_all(s1, ops0));
    }
}

proof fn keeps_option_unwrap_or_else(g: Globals, s: Draft, val: u16, f: u16, tag: u32)
    ensures
        grew(s, option_unwrap_or_else(s, val, f, tag)),
        sound(g, s) && val < s.peak_local && f < s.peak_local && is_variant_name(s.pool, tag)
            && fine(option_unwrap_or_else(s, val, f, tag))
            ==> sound(g, option_unwrap_or_else(s, val, f, tag)),
{
    let t = option_unwrap_or_else(s, val, f, tag);
    let nid = number(s, Constant::NodeId("n_uoe"@));
    let s1 = interned(s, Constant::NodeId("n_uoe"@));
    lemma_interned(g, s, Constant::NodeId("n_uoe"@));
    let ops0 = seq![
        Op::LoadLocal(val),
        Op::Dup,
        Op::TestVariant(tag),
        Op::JumpIfNot(2),
        Op::GetVariantArg(0),
        Op::Jump(3),
        Op::Pop,
        Op::LoadLocal(f),
        Op::CallClosure { arity: 0, node_id_idx: nid },
    ];
    assert(keeps(g, s, s1));
    if sound(g, s) && val < s.peak_local && f < s.peak_local && is_variant_name(s.pool, tag)
        && fine(option_unwrap_or_else(s, val, f, tag)) {
        assert(fine(s1));
        assert(is_const(s1.pool, nid, Constant::NodeId("n_uoe"@)));
        assert(fits_within(
            ops0,
            0,
            9,
            s1.pool,
            s1.functions.len(),
            s1.peak_local,
        )) by {
            broadcast use {lemma_fits_push, lemma_fits_empty};
        }
        lemma_emitted_all(g, s1, ops0);
        assert(t =~= emitted_all(s1, ops0));
    }
}

proof fn keeps_result_unwrap_or_else(g: Globals, s: Draft, val: u16, f: u16, tag: u32)
    ensures
        grew(s, result_unwrap_or_else(s, val, f, tag)),
        sound(g, s) && val < s.peak_local && f < s.peak_local && is_variant_name(s.pool, tag)
            && fine(result_unwrap_or_else(s, val, f, tag))
            ==> sound(g, result_unwrap_or_else(s, val, f, tag)),
{
    let t = result_unwrap_or_else(s, val, f, tag);
    let nid = number(s, Constant::NodeId("n_ruoe"@));
    let s1 = interned(s, Constant::NodeId("n_ruoe"@));
    lemma_interned(g, s, Constant::NodeId("n_ruoe"@));
    let ops0 = seq![
        Op::LoadLocal(val),
        Op::Dup,
        Op::TestVariant(tag),
        Op::JumpIfNot(2),
        Op::GetVariantArg(0),
        Op::Jump(5),
        Op::Pop,
        Op::LoadLocal(f),
        Op::LoadLocal(val),
        Op::GetVariantArg(0),
        Op::CallClosure { arity: 1, node_id_idx: nid },
    ];
    assert(keeps(g, s, s1));
    if sound(g, s) && val < s.peak_local && f < s.peak_local && is_variant_name(s.pool, tag)
        && fine(result_unwrap_or_else(s, val, f, tag)) {
        assert(fine(s1));
        assert(is_const(s1.pool, nid, Constant::NodeId("n_ruoe"@)));
        assert(fits_within(
            ops0,
            0,
            11,
            s1.pool,
            s1.functions.len(),
            s1.peak_local,
        )) by {
            broadcast use {lemma_fits_push, lemma_fits_empty};
        }
        lemma_emitted_all(g, s1, ops0);
        assert(t =~= emitted_all(s1, ops0));
    }
}

proof fn keeps_iter_from_list(g: Globals, s: Draft)
    ensures
        grew(s, iter_from_list(s)),
        sound(g, s) && fine(iter_from_list(s)) ==> sound(g, iter_from_list(s)),
{
    let t = iter_from_list(s);
    let zero = number(s, Constant::Int(0));
    let s1 = interned(s, Constant::Int(0));
    lemma_interned(g, s, Constant::Int(0));
    let eager = number(s1, Constant::VariantName("__IterEager"@));
    let s2 = interned(s1, Constant::VariantName("__IterEager"@));
    lemma_interned(g, s1, Constant::VariantName("__IterEager"@));
    lemma_keeps(g, s, s1, s2);
    let ops0 = seq![
        Op::PushConst(zero),
        Op::MakeVariant { name_idx: eager, arity: 2 },
    ];
    assert(keeps(g, s, s2));
    if sound(g, s) && fine(iter_from_list(s)) {
        assert(fine(s2));
        lemma_grew(s, s1, s2);
        assert(is_const(s2.pool, zero, Constant::Int(0)));
        assert(is_const(s2.pool, eager, Constant::VariantName("__IterEager"@)));
        assert(fits_within(
            ops0,
            0,
            2,
            s2.pool,
            s2.functions.len(),
            s2.peak_local,
        )) by {
            broadcast use {lemma_fits_push, lemma_fits_empty};
        }
        lemma_emitted_all(g, s2, ops0);
        assert(t =~= emitted_all(s2, ops0));
    }
}

proof fn keeps_iter_unfold(g: Globals, s: Draft)
    ensures
        grew(s, iter_unfold(s)),
        sound(g, s) && fine(iter_unfold(s)) ==> sound(g, iter_unfold(s)),
{
    let t = iter_unfold(s);
    let lazy = number(s, Constant::VariantName("__IterLazy"@));
    let s1 = interned(s, Constant::VariantName("__IterLazy"@));
    lemma_interned(g, s, Constant::VariantName("__IterLazy"@));
    let ops0 = seq![
        Op::MakeVariant { name_idx: lazy, arity: 2 },
    ];
    assert(keeps(g, s, s1));
    if sound(g, s) && fine(iter_unfold(s)) {
        assert(fine(s1));
        assert(is_const(s1.pool, lazy, Constant::VariantName("__IterLazy"@)));
        assert(fits_within(
            ops0,
            0,
            1,
            s1.pool,
            s1.functions.len(),
            s1.peak_local,
        )) by {
            broadcast use {lemma_fits_push, lemma_fits_empty};
        }
        lemma_emitted_all(g, s1, ops0);
        assert(t =~= emitted_all(s1, ops0));
    }
}

#[verifier::rlimit(60)]
proof fn keeps_iter_next(g: Globals, s: Draft, it: u16)
    ensures
        grew(s, iter_next(s, it)),
        sound(g, s) && it < s.peak_local && fine(iter_next(s, it)) ==> sound(g, iter_next(s, it)),
{
    let t = iter_next(s, it);
    let lazy = number(s, Constant::VariantName("__IterLazy"@));
    let s1 = interned(s, Constant::VariantName("__IterLazy"@));
    lemma_interned(g, s, Constant::VariantName("__IterLazy"@));
    let nid_lazy = number(s1, Constant::NodeId("n_iter_next_lazy"@));
    let s2 = interned(s1, Constant::NodeId("n_iter_next_lazy"@));
    lemma_interned(g, s1, Constant::NodeId("n_iter_next_lazy"@));
    let some = number(s2, Constant::VariantName("Some"@));
    let s3 = interned(s2, Constant::VariantName("Some"@));
    lemma_interned(g, s2, Constant::VariantName("Some"@));
    let none = number(s3, Constant::VariantName("None"@));
    let s4 = interned(s3, Constant::VariantName("None"@));
    lemma_interned(g, s3, Constant::VariantName("None"@));
    let cursor = number(s4, Constant::VariantName("__IterCursor"@));
    let s5 = interned(s4, Constant::VariantName("__IterCursor"@));
    lemma_interned(g, s4, Constant::VariantName("__IterCursor"@));
    let kind_idx = number(s5, Constant::Str("sql"@));
    let s6 = interned(s5, Constant::Str("sql"@));
    lemma_interned(g, s5, Constant::Str("sql"@));
    let op_idx = number(s6, Constant::Str("cursor_next"@));
    let s7 = interned(s6, Constant::Str("cursor_next"@));
    lemma_interned(g, s6, Constant::Str("cursor_next"@));
    let nid_cursor = number(s7, Constant::NodeId("n_iter_next_cursor"@));
    let s8 = interned(s7, Constant::NodeId("n_iter_next_cursor"@));
    lemma_interned(g, s7, Constant::NodeId("n_iter_next_cursor"@));
    let one = number(s8, Constant::Int(1));
    let s9 = interned(s8, Constant::Int(1));
    lemma_interned(g, s8, Constant::Int(1));
    let eager = number(s9, Constant::VariantName("__IterEager"@));
    let s10 = interned(s9, Constant::VariantName("__IterEager"@));
    lemma_interned(g, s9, Constant::VariantName("__IterEager"@));
    let seed = s10.next_local;
    let s11 = with_local(s10, "__in_seed"@);
    lemma_with_local(g, s10, "__in_seed"@);
    let step = s11.next_local;
    let s12 = with_local(s11, "__in_step"@);
    lemma_with_local(g, s11, "__in_step"@);
    let opt = s12.next_local;
    let s13 = with_local(s12, "__in_opt"@);
    lemma_with_local(g, s12, "__in_opt"@);
    let pair = s13.next_local;
    let s14 = with_local(s13, "__in_pair"@);
    lemma_with_local(g, s13, "__in_pair"@);
    let handle = s14.next_local;
    let s15 = with_local(s14, "__in_handle"@);
    lemma_with_local(g, s14, "__in_handle"@);
    let cur_opt = s15.next_local;
    let s16 = with_local(s15, "__in_cur_opt"@);
    lemma_with_local(g, s15, "__in_cur_opt"@);
    let list = s16.next_local;
    let s17 = with_local(s16, "__in_list"@);
    lemma_with_local(g, s16, "__in_list"@);
    let idx = s17.next_local;
    let s18 = with_local(s17, "__in_idx"@);
    lemma_with_local(g, s17, "__in_idx"@);
    lemma_keeps(g, s, s1, s2);
    lemma_keeps(g, s, s2, s3);
    lemma_keeps(g, s, s3, s4);
    lemma_keeps(g, s, s4, s5);
    lemma_keeps(g, s, s5, s6);
    lemma_keeps(g, s, s6, s7);
    lemma_keeps(g, s, s7, s8);
    lemma_keeps(g, s, s8, s9);
    lemma_keeps(g, s, s9, s10);
    lemma_keeps(g, s, s10, s11);
    lemma_keeps(g, s, s11, s12);
    lemma_keeps(g, s, s12, s13);
    lemma_keeps(g, s, s13, s14);
    lemma_keeps(g, s, s14, s15);
    lemma_keeps(g, s, s15, s16);
    lemma_keeps(g, s, s16, s17);
    lemma_keeps(g, s, s17, s18);
    let ops0 = seq![
        Op::LoadLocal(it),
        Op::TestVariant(lazy),
        Op::JumpIfNot(27),
        Op::LoadLocal(it),
        Op::GetVariantArg(0),
        Op::StoreLocal(seed),
        Op::LoadLocal(it),
        Op::GetVariantArg(1),
        Op::StoreLocal(step),
        Op::LoadLocal(step),
        Op::LoadLocal(seed),
        Op::CallClosure { arity: 1, node_id_idx: nid_lazy },
        Op::StoreLocal(opt),
        Op::LoadLocal(opt),
        Op::TestVariant(some),
        Op::JumpIfNot(12),
        Op::LoadLocal(opt),
        Op::GetVariantArg(0),
        Op::StoreLocal(pair),
        Op::LoadLocal(pair),
        Op::GetElem(0),
        Op::LoadLocal(pair),
        Op::GetElem(1),
        Op::LoadLocal(step),
        Op::MakeVariant { name_idx: lazy, arity: 2 },
        Op::MakeTuple(2),
        Op::MakeVariant { name_idx: some, arity: 1 },
        Op::Jump(46),
        Op::MakeVariant { name_idx: none, arity: 0 },
        Op::Jump(44),
    ];
    let ops1 = seq![
        Op::LoadLocal(it),
        Op::TestVariant(cursor),
        Op::JumpIfNot(18),
        Op::LoadLocal(it),
        Op::GetVariantArg(0),
        Op::StoreLocal(handle),
        Op::LoadLocal(handle),
        Op::EffectCall { kind_idx, op_idx, arity: 1, node_id_idx: nid_cursor },
        Op::StoreLocal(cur_opt),
        Op::LoadLocal(cur_opt),
        Op::TestVariant(some),
        Op::JumpIfNot(7),
        Op::LoadLocal(cur_opt),
        Op::GetVariantArg(0),
        Op::LoadLocal(handle),
        Op::MakeVariant { name_idx: cursor, arity: 1 },
        Op::MakeTuple(2),
        Op::MakeVariant { name_idx: some, arity: 1 },
        Op::Jump(25),
        Op::MakeVariant { name_idx: none, arity: 0 },
        Op::Jump(23),
    ];
    let ops2 = seq![
        Op::LoadLocal(it),
        Op::GetVariantArg(0),
        Op::StoreLocal(list),
        Op::LoadLocal(it),
        Op::GetVariantArg(1),
        Op::StoreLocal(idx),
        Op::LoadLocal(idx),
        Op::LoadLocal(list),
        Op::GetListLen,
        Op::IntLt,
        Op::JumpIfNot(11),
        Op::LoadLocal(list),
        Op::LoadLocal(idx),
        Op::GetListElemDyn,
        Op::LoadLocal(list),
        Op::LoadLocal(idx),
        Op::PushConst(one),
        Op::IntAdd,
        Op::MakeVariant { name_idx: eager, arity: 2 },
        Op::MakeTuple(2),
        Op::MakeVariant { name_idx: some, arity: 1 },
        Op::Jump(1),
        Op::MakeVariant { name_idx: none, arity: 0 },
    ];
    assert(keeps(g, s, s18));
    if sound(g, s) && it < s.peak_local && fine(iter_next(s, it)) {
        assert(fine(s18));
        lemma_grew(s16, s17, s18);
        lemma_grew(s15, s16, s18);
        lemma_grew(s14, s15, s18);
        lemma_grew(s13, s14, s18);
        lemma_grew(s12, s13, s18);
        lemma_grew(s11, s12, s18);
        lemma_grew(s10, s11, s18);
        lemma_grew(s9, s10, s18);
        lemma_grew(s8, s9, s18);
        lemma_grew(s7, s8, s18);
        lemma_grew(s6, s7, s18);
        lemma_grew(s5, s6, s18);
        lemma_grew(s4, s5, s18);
        lemma_grew(s3, s4, s18);
        lemma_grew(s2, s3, s18);
        lemma_grew(s1, s2, s18);
        lemma_grew(s, s1, s18);
        assert(is_const(s18.pool, lazy, Constant::VariantName("__IterLazy"@)));
        assert(is_const(s18.pool, nid_lazy, Constant::NodeId("n_iter_next_lazy"@)));
        assert(is_const(s18.pool, some, Constant::VariantName("Some"@)));
        assert(is_const(s18.pool, none, Constant::VariantName("None"@)));
        assert(is_const(s18.pool, cursor, Constant::VariantName("__IterCursor"@)));
        assert(is_const(s18.pool, kind_idx, Constant::Str("sql"@)));
        assert(is_const(s18.pool, op_idx, Constant::Str("cursor_next"@)));
        assert(is_const(s18.pool, nid_cursor, Constant::NodeId("n_iter_next_cursor"@)));
        assert(is_const(s18.pool, one, Constant::Int(1)));
        assert(is_const(s18.pool, eager, Constant::VariantName("__IterEager"@)));
        assert(seed < s18.peak_local);
        assert(step < s18.peak_local);
        assert(opt < s18.peak_local);
        assert(pair < s18.peak_local);
        assert(handle < s18.peak_local);
        assert(cur_opt < s18.peak_local);
        assert(list < s18.peak_local);
        assert(idx < s18.peak_local);
        assert(fits_within(
            ops0,
            0,
            76,
            s18.pool,
            s18.functions.len(),
            s18.peak_local,
        )) by {
            broadcast use {lemma_fits_push, lemma_fits_empty};
        }
        assert(fits_within(
            ops1,
            31,
            76,
            s18.pool,
            s18.functions.len(),
            s18.peak_local,
        )) by {
            broadcast use {lemma_fits_push, lemma_fits_empty};
        }
        assert(fits_within(
            ops2,
            53,
            76,
            s18.pool,
            s18.functions.len(),
            s18.peak_local,
        )) by {
            broadcast use {lemma_fits_push, lemma_fits_empty};
        }
        lemma_fits_parts(ops0, ops1, 76, s18.pool, s18.functions.len(), s18.peak_local);
        lemma_fits_parts(ops0 + ops1, ops2, 76, s18.pool, s18.functions.len(), s18.peak_local);
        lemma_emitted_all(g, s18, ops0 + ops1 + ops2);
        assert(t =~= emitted_all(s18, ops0 + ops1 + ops2));
    }
}

proof fn keeps_iter_is_empty(g: Globals, s: Draft, it: u16)
    ensures
        grew(s, iter_is_empty(s, it)),
        sound(g, s) && it < s.peak_local && fine(iter_is_empty(s, it))
            ==> sound(g, iter_is_empty(s, it)),
{
    let t = iter_is_empty(s, it);
    let ops0 = seq![
        Op::LoadLocal(it),
        Op::GetVariantArg(1),
        Op::LoadLocal(it),
        Op::GetVariantArg(0),
        Op::GetListLen,
        Op::IntLt,
        Op::BoolNot,
    ];
    if sound(g, s) && it < s.peak_local && fine(iter_is_empty(s, it)) {
        assert(fine(s));
        assert(fits_within(
            ops0,
            0,
            7,
            s.pool,
            s.functions.len(),
            s.peak_local,
        )) by {
            broadcast use {lemma_fits_push, lemma_fits_empty};
        }
        lemma_emitted_all(g, s, ops0);
        assert(t =~= emitted_all(s, ops0));
    }
}

proof fn keeps_iter_count(g: Globals, s: Draft, it: u16)
    ensures
        grew(s, iter_count(s, it)),
        sound(g, s) && it < s.peak_local && fine(iter_count(s, it)) ==> sound(g, iter_count(s, it)),
{
    let t = iter_count(s, it);
    let ops0 = seq![
        Op::LoadLocal(it),
        Op::GetVariantArg(0),
        Op::GetListLen,
        Op::LoadLocal(it),
        Op::GetVariantArg(1),
        Op::IntSub,
    ];
    if sound(g, s) && it < s.peak_local && fine(iter_count(s, it)) {
        assert(fine(s));
        assert(fits_within(
            ops0,
            0,
            6,
            s.pool,
            s.functions.len(),
            s.peak_local,
        )) by {
            broadcast use {lemma_fits_push, lemma_fits_empty};
        }
        lemma_emitted_all(g, s, ops0);
        assert(t =~= emitted_all(s, ops0));
    }
}

proof fn keeps_iter_take(g: Globals, s: Draft, it: u16, n: u16)
    ensures
        grew(s, iter_take(s, it, n)),
        sound(g, s) && it < s.peak_local && n < s.peak_local && fine(iter_take(s, it, n))
            ==> sound(g, iter_take(s, it, n)),
{
    let t = iter_take(s, it, n);
    let zero = number(s, Constant::Int(0));
    let s1 = interned(s, Constant::Int(0));
    lemma_interned(g, s, Constant::Int(0));
    let one = number(s1, Constant::Int(1));
    let s2 = interned(s1, Constant::Int(1));
    lemma_interned(g, s1, Constant::Int(1));
    let eager = number(s2, Constant::VariantName("__IterEager"@));
    let s3 = interned(s2, Constant::VariantName("__IterEager"@));
    lemma_interned(g, s2, Constant::VariantName("__IterEager"@));
    let list = s3.next_local;
    let s4 = with_local(s3, "__itk_list"@);
    lemma_with_local(g, s3, "__itk_list"@);
    let i = s4.next_local;
    let s5 = with_local(s4, "__itk_i"@);
    lemma_with_local(g, s4, "__itk_i"@);
    let out = s5.next_local;
    let s6 = with_local(s5, "__itk_out"@);
    lemma_with_local(g, s5, "__itk_out"@);
    let cnt = s6.next_local;
    let s7 = with_local(s6, "__itk_cnt"@);
    lemma_with_local(g, s6, "__itk_cnt"@);
    lemma_keeps(g, s, s1, s2);
    lemma_keeps(g, s, s2, s3);
    lemma_keeps(g, s, s3, s4);
    lemma_keeps(g, s, s4, s5);
    lemma_keeps(g, s, s5, s6);
    lemma_keeps(g, s, s6, s7);
    let ops0 = seq![
        Op::LoadLocal(it),
        Op::GetVariantArg(0),
        Op::StoreLocal(list),
        Op::LoadLocal(it),
        Op::GetVariantArg(1),
        Op::StoreLocal(i),
        Op::MakeList(0),
        Op::StoreLocal(out),
        Op::PushConst(zero),
        Op::StoreLocal(cnt),
        Op::LoadLocal(cnt),
        Op::LoadLocal(n),
        Op::IntLt,
        Op::JumpIfNot(20),
        Op::LoadLocal(i),
        Op::LoadLocal(list),
        Op::GetListLen,
        Op::IntLt,
        Op::JumpIfNot(15),
        Op::LoadLocal(out),
        Op::LoadLocal(list),
        Op::LoadLocal(i),
        Op::GetListElemDyn,
        Op::ListAppend,
        Op::StoreLocal(out),
        Op::LoadLocal(i),
        Op::PushConst(one),
        Op::IntAdd,
        Op::StoreLocal(i),
        Op::LoadLocal(cnt),
        Op::PushConst(one),
        Op::IntAdd,
        Op::StoreLocal(cnt),
        Op::Jump((-24) as i32),
        Op::LoadLocal(out),
        Op::PushConst(zero),
        Op::MakeVariant { name_idx: eager, arity: 2 },
    ];
    assert(keeps(g, s, s7));
    if sound(g, s) && it < s.peak_local && n < s.peak_local && fine(iter_take(s, it, n)) {
        assert(fine(s7));
        lemma_grew(s5, s6, s7);
        lemma_grew(s4, s5, s7);
        lemma_grew(s3, s4, s7);
        lemma_grew(s2, s3, s7);
        lemma_grew(s1, s2, s7);
        lemma_grew(s, s1, s7);
        assert(is_const(s7.pool, zero, Constant::Int(0)));
        assert(is_const(s7.pool, one, Constant::Int(1)));
        assert(is_const(s7.pool, eager, Constant::VariantName("__IterEager"@)));
        assert(list < s7.peak_local);
        assert(i < s7.peak_local);
        assert(out < s7.peak_local);
        assert(cnt < s7.peak_local);
        assert(fits_within(
            ops0,
            0,
            37,
            s7.pool,
            s7.functions.len(),
            s7.peak_local,
        )) by {
            broadcast use {lemma_fits_push, lemma_fits_empty};
        }
        lemma_emitted_all(g, s7, ops0);
        assert(t =~= emitted_all(s7, ops0));
    }
}

proof fn keeps_iter_skip(g: Globals, s: Draft, it: u16, n: u16)
    ensures
        grew(s, iter_skip(s, it, n)),
        sound(g, s) && it < s.peak_local && n < s.peak_local && fine(iter_skip(s, it, n))
            ==> sound(g, iter_skip(s, it, n)),
{
    let t = iter_skip(s, it, n);
    let eager = number(s, Constant::VariantName("__IterEager"@));
    let s1 = interned(s, Constant::VariantName("__IterEager"@));
    lemma_interned(g, s, Constant::VariantName("__IterEager"@));
    let list = s1.next_local;
    let s2 = with_local(s1, "__isk_list"@);
    lemma_with_local(g, s1, "__isk_list"@);
    let idx = s2.next_local;
    let s3 = with_local(s2, "__isk_idx"@);
    lemma_with_local(g, s2, "__isk_idx"@);
    let raw = s3.next_local;
    let s4 = with_local(s3, "__isk_raw"@);
    lemma_with_local(g, s3, "__isk_raw"@);
    let new_idx = s4.next_local;
    let s5 = with_local(s4, "__isk_ni"@);
    lemma_with_local(g, s4, "__isk_ni"@);
    lemma_keeps(g, s, s1, s2);
    lemma_keeps(g, s, s2, s3);
    lemma_keeps(g, s, s3, s4);
    lemma_keeps(g, s, s4, s5);
    let ops0 = seq![
        Op::LoadLocal(it),
        Op::GetVariantArg(0),
        Op::StoreLocal(list),
        Op::LoadLocal(it),
        Op::GetVariantArg(1),
        Op::StoreLocal(idx),
        Op::LoadLocal(idx),
        Op::LoadLocal(n),
        Op::IntAdd,
        Op::StoreLocal(raw),
        Op::LoadLocal(raw),
        Op::LoadLocal(list),
        Op::GetListLen,
        Op::IntLt,
        Op::JumpIf(3),
        Op::LoadLocal(list),
        Op::GetListLen,
        Op::Jump(1),
        Op::LoadLocal(raw),
        Op::StoreLocal(new_idx),
        Op::LoadLocal(list),
        Op::LoadLocal(new_idx),
        Op::MakeVariant { name_idx: eager, arity: 2 },
    ];
    assert(keeps(g, s, s5));
    if sound(g, s) && it < s.peak_local && n < s.peak_local && fine(iter_skip(s, it, n)) {
        assert(fine(s5));
        lemma_grew(s3, s4, s5);
        lemma_grew(s2, s3, s5);
        lemma_grew(s1, s2, s5);
        lemma_grew(s, s1, s5);
        assert(is_const(s5.pool, eager, Constant::VariantName("__IterEager"@)));
        assert(list < s5.peak_local);
        assert(idx < s5.peak_local);
        assert(raw < s5.peak_local);
        assert(new_idx < s5.peak_local);
        assert(fits_within(
            ops0,
            0,
            23,
            s5.pool,
            s5.functions.len(),
            s5.peak_local,
        )) by {
            broadcast use {lemma_fits_push, lemma_fits_empty};
        }
        lemma_emitted_all(g, s5, ops0);
        assert(t =~= emitted_all(s5, ops0));
    }
}

proof fn keeps_iter_to_list(g: Globals, s: Draft, it: u16)
    ensures
        grew(s, iter_to_list(s, it)),
        sound(g, s) && it < s.peak_local && fine(iter_to_list(s, it))
            ==> sound(g, iter_to_list(s, it)),
{
    let t = iter_to_list(s, it);
    let lazy = number(s, Constant::VariantName("__IterLazy"@));
    let s1 = interned(s, Constant::VariantName("__IterLazy"@));
    lemma_interned(g, s, Constant::VariantName("__IterLazy"@));
    let nid = number(s1, Constant::NodeId("n_iter_to_list_lazy"@));
    let s2 = interned(s1, Constant::NodeId("n_iter_to_list_lazy"@));
    lemma_interned(g, s1, Constant::NodeId("n_iter_to_list_lazy"@));
    let some = number(s2, Constant::VariantName("Some"@));
    let s3 = interned(s2, Constant::VariantName("Some"@));
    lemma_interned(g, s2, Constant::VariantName("Some"@));
    let one = number(s3, Constant::Int(1));
    let s4 = interned(s3, Constant::Int(1));
    lemma_interned(g, s3, Constant::Int(1));
    let out = s4.next_local;
    let s5 = with_local(s4, "__itl_out"@);
    lemma_with_local(g, s4, "__itl_out"@);
    let seed = s5.next_local;
    let s6 = with_local(s5, "__itl_seed"@);
    lemma_with_local(g, s5, "__itl_seed"@);
    let step = s6.next_local;
    let s7 = with_local(s6, "__itl_step"@);
    lemma_with_local(g, s6, "__itl_step"@);
    let opt = s7.next_local;
    let s8 = with_local(s7, "__itl_opt"@);
    lemma_with_local(g, s7, "__itl_opt"@);
    let pair = s8.next_local;
    let s9 = with_local(s8, "__itl_pair"@);
    lemma_with_local(g, s8, "__itl_pair"@);
    let list = s9.next_local;
    let s10 = with_local(s9, "__itl_list"@);
    lemma_with_local(g, s9, "__itl_list"@);
    let i = s10.next_local;
    let s11 = with_local(s10, "__itl_i"@);
    lemma_with_local(g, s10, "__itl_i"@);
    lemma_keeps(g, s, s1, s2);
    lemma_keeps(g, s, s2, s3);
    lemma_keeps(g, s, s3, s4);
    lemma_keeps(g, s, s4, s5);
    lemma_keeps(g, s, s5, s6);
    lemma_keeps(g, s, s6, s7);
    lemma_keeps(g, s, s7, s8);
    lemma_keeps(g, s, s8, s9);
    lemma_keeps(g, s, s9, s10);
    lemma_keeps(g, s, s10, s11);
    let ops0 = seq![
        Op::MakeList(0),
        Op::StoreLocal(out),
        Op::LoadLocal(it),
        Op::TestVariant(lazy),
        Op::JumpIfNot(26),
        Op::LoadLocal(it),
        Op::GetVariantArg(0),
        Op::StoreLocal(seed),
        Op::LoadLocal(it),
        Op::GetVariantArg(1),
        Op::StoreLocal(step),
        Op::LoadLocal(step),
        Op::LoadLocal(seed),
        Op::CallClosure { arity: 1, node_id_idx: nid },
        Op::StoreLocal(opt),
        Op::LoadLocal(opt),
        Op::TestVariant(some),
        Op::JumpIfNot(12),
        Op::LoadLocal(opt),
        Op::GetVariantArg(0),
        Op::StoreLocal(pair),
        Op::LoadLocal(out),
        Op::LoadLocal(pair),
        Op::GetElem(0),
        Op::ListAppend,
        Op::StoreLocal(out),
        Op::LoadLocal(pair),
        Op::GetElem(1),
        Op::StoreLocal(seed),
        Op::Jump((-19) as i32),
        Op::Jump(22),
        Op::LoadLocal(it),
        Op::GetVariantArg(0),
        Op::StoreLocal(list),
        Op::LoadLocal(it),
        Op::GetVariantArg(1),
        Op::StoreLocal(i),
        Op::LoadLocal(i),
        Op::LoadLocal(list),
        Op::GetListLen,
        Op::IntLt,
        Op::JumpIfNot(11),
        Op::LoadLocal(out),
        Op::LoadLocal(list),
        Op::LoadLocal(i),
        Op::GetListElemDyn,
        Op::ListAppend,
        Op::StoreLocal(out),
        Op::LoadLocal(i),
        Op::PushConst(one),
        Op::IntAdd,
        Op::StoreLocal(i),
        Op::Jump((-16) as i32),
        Op::LoadLocal(out),
    ];
    assert(keeps(g, s, s11));
    if sound(g, s) && it < s.peak_local && fine(iter_to_list(s, it)) {
        assert(fine(s11));
        lemma_grew(s9, s10, s11);
        lemma_grew(s8, s9, s11);
        lemma_grew(s7, s8, s11);
        lemma_grew(s6, s7, s11);
        lemma_grew(s5, s6, s11);
        lemma_grew(s4, s5, s11);
        lemma_grew(s3, s4, s11);
        lemma_grew(s2, s3, s11);
        lemma_grew(s1, s2, s11);
        lemma_grew(s, s1, s11);
        assert(is_const(s11.pool, lazy, Constant::VariantName("__IterLazy"@)));
        assert(is_const(s11.pool, nid, Constant::NodeId("n_iter_to_list_lazy"@)));
        assert(is_const(s11.pool, some, Constant::VariantName("Some"@)));
        assert(is_const(s11.pool, one, Constant::Int(1)));
        assert(out < s11.peak_local);
        assert(seed < s11.peak_local);
        assert(step < s11.peak_local);
        assert(opt < s11.peak_local);
        assert(pair < s11.peak_local);
        assert(list < s11.peak_local);
        assert(i < s11.peak_local);
        assert(fits_within(
            ops0,
            0,
            54,
            s11.pool,
            s11.functions.len(),
            s11.peak_local,
        )) by {
            broadcast use {lemma_fits_push, lemma_fits_empty};
        }
        lemma_emitted_all(g, s11, ops0);
        assert(t =~= emitted_all(s11, ops0));
    }
}

proof fn keeps_iter_map(g: Globals, s: Draft, it: u16, f: u16)
    ensures
        grew(s, iter_map(s, it, f)),
        sound(g, s) && it < s.peak_local && f < s.peak_local && fine(iter_map(s, it, f))
            ==> sound(g, iter_map(s, it, f)),
{
    let t = iter_map(s, it, f);
    let nid = number(s, Constant::NodeId("n_iter_map"@));
    let s1 = interned(s, Constant::NodeId("n_iter_map"@));
    lemma_interned(g, s, Constant::NodeId("n_iter_map"@));
    let one = number(s1, Constant::Int(1));
    let s2 = interned(s1, Constant::Int(1));
    lemma_interned(g, s1, Constant::Int(1));
    let zero = number(s2, Constant::Int(0));
    let s3 = interned(s2, Constant::Int(0));
    lemma_interned(g, s2, Constant::Int(0));
    let eager = number(s3, Constant::VariantName("__IterEager"@));
    let s4 = interned(s3, Constant::VariantName("__IterEager"@));
    lemma_interned(g, s3, Constant::VariantName("__IterEager"@));
    let list = s4.next_local;
    let s5 = with_local(s4, "__im_list"@);
    lemma_with_local(g, s4, "__im_list"@);
    let i = s5.next_local;
    let s6 = with_local(s5, "__im_i"@);
    lemma_with_local(g, s5, "__im_i"@);
    let out = s6.next_local;
    let s7 = with_local(s6, "__im_out"@);
    lemma_with_local(g, s6, "__im_out"@);
    lemma_keeps(g, s, s1, s2);
    lemma_keeps(g, s, s2, s3);
    lemma_keeps(g, s, s3, s4);
    lemma_keeps(g, s, s4, s5);
    lemma_keeps(g, s, s5, s6);
    lemma_keeps(g, s, s6, s7);
    let ops0 = seq![
        Op::LoadLocal(it),
        Op::GetVariantArg(0),
        Op::StoreLocal(list),
        Op::LoadLocal(it),
        Op::GetVariantArg(1),
        Op::StoreLocal(i),
        Op::MakeList(0),
        Op::StoreLocal(out),
        Op::LoadLocal(i),
        Op::LoadLocal(list),
        Op::GetListLen,
        Op::IntLt,
        Op::JumpIfNot(13),
        Op::LoadLocal(out),
        Op::LoadLocal(f),
        Op::LoadLocal(list),
        Op::LoadLocal(i),
        Op::GetListElemDyn,
        Op::CallClosure { arity: 1, node_id_idx: nid },
        Op::ListAppend,
        Op::StoreLocal(out),
        Op::LoadLocal(i),
        Op::PushConst(one),
        Op::IntAdd,
        Op::StoreLocal(i),
        Op::Jump((-18) as i32),
        Op::LoadLocal(out),
        Op::PushConst(zero),
        Op::MakeVariant { name_idx: eager, arity: 2 },
    ];
    assert(keeps(g, s, s7));
    if sound(g, s) && it < s.peak_local && f < s.peak_local && fine(iter_map(s, it, f)) {
        assert(fine(s7));
        lemma_grew(s5, s6, s7);
        lemma_grew(s4, s5, s7);
        lemma_grew(s3, s4, s7);
        lemma_grew(s2, s3, s7);
        lemma_grew(s1, s2, s7);
        lemma_grew(s, s1, s7);
        assert(is_const(s7.pool, nid, Constant::NodeId("n_iter_map"@)));
        assert(is_const(s7.pool, one, Constant::Int(1)));
        assert(is_const(s7.pool, zero, Constant::Int(0)));
        assert(is_const(s7.pool, eager, Constant::VariantName("__IterEager"@)));
        assert(list < s7.peak_local);
        assert(i < s7.peak_local);
        assert(out < s7.peak_local);
        assert(fits_within(
            ops0,
            0,
            29,
            s7.pool,
            s7.functions.len(),
            s7.peak_local,
        )) by {
            broadcast use {lemma_fits_push, lemma_fits_empty};
        }
        lemma_emitted_all(g, s7, ops0);
        assert(t =~= emitted_all(s7, ops0));
    }
}

proof fn keeps_iter_filter(g: Globals, s: Draft, it: u16, f: u16)
    ensures
        grew(s, iter_filter(s, it, f)),
        sound(g, s) && it < s.peak_local && f < s.peak_local && fine(iter_filter(s, it, f))
            ==> sound(g, iter_filter(s, it, f)),
{
    let t = iter_filter(s, it, f);
    let nid = number(s, Constant::NodeId("n_iter_filter"@));
    let s1 = interned(s, Constant::NodeId("n_iter_filter"@));
    lemma_interned(g, s, Constant::NodeId("n_iter_filter"@));
    let one = number(s1, Constant::Int(1));
    let s2 = interned(s1, Constant::Int(1));
    lemma_interned(g, s1, Constant::Int(1));
    let zero = number(s2, Constant::Int(0));
    let s3 = interned(s2, Constant::Int(0));
    lemma_interned(g, s2, Constant::Int(0));
    let eager = number(s3, Constant::VariantName("__IterEager"@));
    let s4 = interned(s3, Constant::VariantName("__IterEager"@));
    lemma_interned(g, s3, Constant::VariantName("__IterEager"@));
    let list = s4.next_local;
    let s5 = with_local(s4, "__if_list"@);
    lemma_with_local(g, s4, "__if_list"@);
    let i = s5.next_local;
    let s6 = with_local(s5, "__if_i"@);
    lemma_with_local(g, s5, "__if_i"@);
    let out = s6.next_local;
    let s7 = with_local(s6, "__if_out"@);
    lemma_with_local(g, s6, "__if_out"@);
    let x = s7.next_local;
    let s8 = with_local(s7, "__if_x"@);
    lemma_with_local(g, s7, "__if_x"@);
    lemma_keeps(g, s, s1, s2);
    lemma_keeps(g, s, s2, s3);
    lemma_keeps(g, s, s3, s4);
    lemma_keeps(g, s, s4, s5);
    lemma_keeps(g, s, s5, s6);
    lemma_keeps(g, s, s6, s7);
    lemma_keeps(g, s, s7, s8);
    let ops0 = seq![
        Op::LoadLocal(it),
        Op::GetVariantArg(0),
        Op::StoreLocal(list),
        Op::LoadLocal(it),
        Op::GetVariantArg(1),
        Op::StoreLocal(i),
        Op::MakeList(0),
        Op::StoreLocal(out),
        Op::LoadLocal(i),
        Op::LoadLocal(list),
        Op::GetListLen,
        Op::IntLt,
        Op::JumpIfNot(17),
        Op::LoadLocal(list),
        Op::LoadLocal(i),
        Op::GetListElemDyn,
        Op::StoreLocal(x),
        Op::LoadLocal(f),
        Op::LoadLocal(x),
        Op::CallClosure { arity: 1, node_id_idx: nid },
        Op::JumpIfNot(4),
        Op::LoadLocal(out),
        Op::LoadLocal(x),
        Op::ListAppend,
        Op::StoreLocal(out),
        Op::LoadLocal(i),
        Op::PushConst(one),
        Op::IntAdd,
        Op::StoreLocal(i),
        Op::Jump((-22) as i32),
        Op::LoadLocal(out),
        Op::PushConst(zero),
        Op::MakeVariant { name_idx: eager, arity: 2 },
    ];
    assert(keeps(g, s, s8));
    if sound(g, s) && it < s.peak_local && f < s.peak_local && fine(iter_filter(s, it, f)) {
        assert(fine(s8));
        lemma_grew(s6, s7, s8);
        lemma_grew(s5, s6, s8);
        lemma_grew(s4, s5, s8);
        lemma_grew(s3, s4, s8);
        lemma_grew(s2, s3, s8);
        lemma_grew(s1, s2, s8);
        lemma_grew(s, s1, s8);
        assert(is_const(s8.pool, nid, Constant::NodeId("n_iter_filter"@)));
        assert(is_const(s8.pool, one, Constant::Int(1)));
        assert(is_const(s8.pool, zero, Constant::Int(0)));
        assert(is_const(s8.pool, eager, Constant::VariantName("__IterEager"@)));
        assert(list < s8.peak_local);
        assert(i < s8.peak_local);
        assert(out < s8.peak_local);
        assert(x < s8.peak_local);
        assert(fits_within(
            ops0,
            0,
            33,
            s8.pool,
            s8.functions.len(),
            s8.peak_local,
        )) by {
            broadcast use {lemma_fits_push, lemma_fits_empty};
        }
        lemma_emitted_all(g, s8, ops0);
        assert(t =~= emitted_all(s8, ops0));
    }
}

proof fn keeps_iter_fold(g: Globals, s: Draft, it: u16, acc: u16, f: u16)
    ensures
        grew(s, iter_fold(s, it, acc, f)),
        sound(g, s) && it < s.peak_local && acc < s.peak_local && f < s.peak_local
            && fine(iter_fold(s, it, acc, f)) ==> sound(g, iter_fold(s, it, acc, f)),
{
    let t = iter_fold(s, it, acc, f);
    let nid = number(s, Constant::NodeId("n_iter_fold"@));
    let s1 = interned(s, Constant::NodeId("n_iter_fold"@));
    lemma_interned(g, s, Constant::NodeId("n_iter_fold"@));
    let one = number(s1, Constant::Int(1));
    let s2 = interned(s1, Constant::Int(1));
    lemma_interned(g, s1, Constant::Int(1));
    let list = s2.next_local;
    let s3 = with_local(s2, "__ifo_list"@);
    lemma_with_local(g, s2, "__ifo_list"@);
    let i = s3.next_local;
    let s4 = with_local(s3, "__ifo_i"@);
    lemma_with_local(g, s3, "__ifo_i"@);
    lemma_keeps(g, s, s1, s2);
    lemma_keeps(g, s, s2, s3);
    lemma_keeps(g, s, s3, s4);
    let ops0 = seq![
        Op::LoadLocal(it),
        Op::GetVariantArg(0),
        Op::StoreLocal(list),
        Op::LoadLocal(it),
        Op::GetVariantArg(1),
        Op::StoreLocal(i),
        Op::LoadLocal(i),
        Op::LoadLocal(list),
        Op::GetListLen,
        Op::IntLt,
        Op::JumpIfNot(12),
        Op::LoadLocal(f),
        Op::LoadLocal(acc),
        Op::LoadLocal(list),
        Op::LoadLocal(i),
        Op::GetListElemDyn,
        Op::CallClosure { arity: 2, node_id_idx: nid },
        Op::StoreLocal(acc),
        Op::LoadLocal(i),
        Op::PushConst(one),
        Op::IntAdd,
        Op::StoreLocal(i),
        Op::Jump((-17) as i32),
        Op::LoadLocal(acc),
    ];
    assert(keeps(g, s, s4));
    if sound(g, s) && it < s.peak_local && acc < s.peak_local && f < s.peak_local
        && fine(iter_fold(s, it, acc, f)) {
        assert(fine(s4));
        lemma_grew(s2, s3, s4);
        lemma_grew(s1, s2, s4);
        lemma_grew(s, s1, s4);
        assert(is_const(s4.pool, nid, Constant::NodeId("n_iter_fold"@)));
        assert(is_const(s4.pool, one, Constant::Int(1)));
        assert(list < s4.peak_local);
        assert(i < s4.peak_local);
        assert(fits_within(
            ops0,
            0,
            24,
            s4.pool,
            s4.functions.len(),
            s4.peak_local,
        )) by {
            broadcast use {lemma_fits_push, lemma_fits_empty};
        }
        lemma_emitted_all(g, s4, ops0);
        assert(t =~= emitted_all(s4, ops0));
    }
}

proof fn keeps_map_fold(g: Globals, s: Draft, xs: u16, acc: u16, f: u16)
    ensures
        grew(s, map_fold(s, xs, acc, f)),
        sound(g, s) && xs < s.peak_local && acc < s.peak_local && f < s.peak_local
            && fine(map_fold(s, xs, acc, f)) ==> sound(g, map_fold(s, xs, acc, f)),
{
    let t = map_fold(s, xs, acc, f);
    let zero = number(s, Constant::Int(0));
    let s1 = interned(s, Constant::Int(0));
    lemma_interned(g, s, Constant::Int(0));
    let nid = number(s1, Constant::NodeId("n_map_fold"@));
    let s2 = interned(s1, Constant::NodeId("n_map_fold"@));
    lemma_interned(g, s1, Constant::NodeId("n_map_fold"@));
    let one = number(s2, Constant::Int(1));
    let s3 = interned(s2, Constant::Int(1));
    lemma_interned(g, s2, Constant::Int(1));
    let i = s3.next_local;
    let s4 = with_local(s3, "__mf_i"@);
    lemma_with_local(g, s3, "__mf_i"@);
    let pair = s4.next_local;
    let s5 = with_local(s4, "__mf_pair"@);
    lemma_with_local(g, s4, "__mf_pair"@);
    lemma_keeps(g, s, s1, s2);
    lemma_keeps(g, s, s2, s3);
    lemma_keeps(g, s, s3, s4);
    lemma_keeps(g, s, s4, s5);
    let ops0 = seq![
        Op::PushConst(zero),
        Op::StoreLocal(i),
        Op::LoadLocal(i),
        Op::LoadLocal(xs),
        Op::GetListLen,
        Op::IntLt,
        Op::JumpIfNot(17),
        Op::LoadLocal(xs),
        Op::LoadLocal(i),
        Op::GetListElemDyn,
        Op::StoreLocal(pair),
        Op::LoadLocal(f),
        Op::LoadLocal(acc),
        Op::LoadLocal(pair),
        Op::GetElem(0),
        Op::LoadLocal(pair),
        Op::GetElem(1),
        Op::CallClosure { arity: 3, node_id_idx: nid },
        Op::StoreLocal(acc),
        Op::LoadLocal(i),
        Op::PushConst(one),
        Op::IntAdd,
        Op::StoreLocal(i),
        Op::Jump((-22) as i32),
        Op::LoadLocal(acc),
    ];
    assert(keeps(g, s, s5));
    if sound(g, s) && xs < s.peak_local && acc < s.peak_local && f < s.peak_local
        && fine(map_fold(s, xs, acc, f)) {
        assert(fine(s5));
        lemma_grew(s3, s4, s5);
        lemma_grew(s2, s3, s5);
        lemma_grew(s1, s2, s5);
        lemma_grew(s, s1, s5);
        assert(is_const(s5.pool, zero, Constant::Int(0)));
        assert(is_const(s5.pool, nid, Constant::NodeId("n_map_fold"@)));
        assert(is_const(s5.pool, one, Constant::Int(1)));
        assert(i < s5.peak_local);
        assert(pair < s5.peak_local);
        assert(fits_within(
            ops0,
            0,
            25,
            s5.pool,
            s5.functions.len(),
            s5.peak_local,
        )) by {
            broadcast use {lemma_fits_push, lemma_fits_empty};
        }
        lemma_emitted_all(g, s5, ops0);
        assert(t =~= emitted_all(s5, ops0));
    }
}

proof fn keeps_flow_sequential(g: Globals, s: Draft)
    ensures
        grew(s, flow_sequential(s)),
        sound(g, s) && fine(flow_sequential(s)) ==> sound(g, flow_sequential(s)),
{
    let t = flow_sequential(s);
    let nid = number(s, Constant::NodeId("n_flow_sequential"@));
    let s1 = interned(s, Constant::NodeId("n_flow_sequential"@));
    lemma_interned(g, s, Constant::NodeId("n_flow_sequential"@));
    let code = flow_sequential_code(nid);
    assert(keeps(g, s, s1));
    lemma_trampoline(g, s1, "__flow_sequential"@, 3, 4, 2, code);
    lemma_grew(s, s1, t);
    if sound(g, s) && fine(flow_sequential(s)) {
        assert(fine(s1));
        assert(is_const(s1.pool, nid, Constant::NodeId("n_flow_sequential"@)));
        assert(body_fits(code, s1.pool, s1.functions.len(), 4)) by {
            broadcast use {lemma_fits_push, lemma_fits_empty};
        }
    }
}

proof fn keeps_flow_parallel(g: Globals, s: Draft)
    ensures
        grew(s, flow_parallel(s)),
        sound(g, s) && fine(flow_parallel(s)) ==> sound(g, flow_parallel(s)),
{
    let t = flow_parallel(s);
    let nid = number(s, Constant::NodeId("n_flow_parallel"@));
    let s1 = interned(s, Constant::NodeId("n_flow_parallel"@));
    lemma_interned(g, s, Constant::NodeId("n_flow_parallel"@));
    let code = flow_parallel_code(nid);
    assert(keeps(g, s, s1));
    lemma_trampoline(g, s1, "__flow_parallel"@, 2, 2, 2, code);
    lemma_grew(s, s1, t);
    if sound(g, s) && fine(flow_parallel(s)) {
        assert(fine(s1));
        assert(is_const(s1.pool, nid, Constant::NodeId("n_flow_parallel"@)));
        assert(body_fits(code, s1.pool, s1.functions.len(), 2)) by {
            broadcast use {lemma_fits_push, lemma_fits_empty};
        }
    }
}

proof fn keeps_flow_branch(g: Globals, s: Draft)
    ensures
        grew(s, flow_branch(s)),
        sound(g, s) && fine(flow_branch(s)) ==> sound(g, flow_branch(s)),
{
    let t = flow_branch(s);
    let nid = number(s, Constant::NodeId("n_flow_branch"@));
    let s1 = interned(s, Constant::NodeId("n_flow_branch"@));
    lemma_interned(g, s, Constant::NodeId("n_flow_branch"@));
    let code = flow_branch_code(nid);
    assert(keeps(g, s, s1));
    lemma_trampoline(g, s1, "__flow_branch"@, 4, 4, 3, code);
    lemma_grew(s, s1, t);
    if sound(g, s) && fine(flow_branch(s)) {
        assert(fine(s1));
        assert(is_const(s1.pool, nid, Constant::NodeId("n_flow_branch"@)));
        assert(body_fits(code, s1.pool, s1.functions.len(), 4)) by {
            broadcast use {lemma_fits_push, lemma_fits_empty};
        }
    }
}

proof fn keeps_flow_retry(g: Globals, s: Draft)
    ensures
        grew(s, flow_retry(s)),
        sound(g, s) && fine(flow_retry(s)) ==> sound(g, flow_retry(s)),
{
    let t = flow_retry(s);
    let nid = number(s, Constant::NodeId("n_flow_retry"@));
    let s1 = interned(s, Constant::NodeId("n_flow_retry"@));
    lemma_interned(g, s, Constant::NodeId("n_flow_retry"@));
    let ok = number(s1, Constant::VariantName("Ok"@));
    let s2 = interned(s1, Constant::VariantName("Ok"@));
    lemma_interned(g, s1, Constant::VariantName("Ok"@));
    let zero = number(s2, Constant::Int(0));
    let s3 = interned(s2, Constant::Int(0));
    lemma_interned(g, s2, Constant::Int(0));
    let one = number(s3, Constant::Int(1));
    let s4 = interned(s3, Constant::Int(1));
    lemma_interned(g, s3, Constant::Int(1));
    lemma_keeps(g, s, s1, s2);
    lemma_keeps(g, s, s2, s3);
    lemma_keeps(g, s, s3, s4);
    let code = flow_retry_code(nid, ok, zero, one);
    assert(keeps(g, s, s4));
    lemma_trampoline(g, s4, "__flow_retry"@, 3, 5, 2, code);
    lemma_grew(s, s4, t);
    if sound(g, s) && fine(flow_retry(s)) {
        assert(fine(s4));
        lemma_grew(s2, s3, s4);
        lemma_grew(s1, s2, s4);
        lemma_grew(s, s1, s4);
        assert(is_const(s4.pool, nid, Constant::NodeId("n_flow_retry"@)));
        assert(is_const(s4.pool, ok, Constant::VariantName("Ok"@)));
        assert(is_const(s4.pool, zero, Constant::Int(0)));
        assert(is_const(s4.pool, one, Constant::Int(1)));
        assert(body_fits(code, s4.pool, s4.functions.len(), 5)) by {
            broadcast use {lemma_fits_push, lemma_fits_empty};
        }
    }
}

proof fn keeps_flow_retry_with_backoff(g: Globals, s: Draft)
    ensures
        grew(s, flow_retry_with_backoff(s)),
        sound(g, s) && fine(flow_retry_with_backoff(s)) ==> sound(g, flow_retry_with_backoff(s)),
{
    let t = flow_retry_with_backoff(s);
    let call_nid = number(s, Constant::NodeId("n_flow_retry_backoff"@));
    let s1 = interned(s, Constant::NodeId("n_flow_retry_backoff"@));
    lemma_interned(g, s, Constant::NodeId("n_flow_retry_backoff"@));
    let sleep_nid = number(s1, Constant::NodeId("n_flow_retry_backoff_sleep"@));
    let s2 = interned(s1, Constant::NodeId("n_flow_retry_backoff_sleep"@));
    lemma_interned(g, s1, Constant::NodeId("n_flow_retry_backoff_sleep"@));
    let kind_idx = number(s2, Constant::Str("time"@));
    let s3 = interned(s2, Constant::Str("time"@));
    lemma_interned(g, s2, Constant::Str("time"@));
    let op_idx = number(s3, Constant::Str("sleep_ms"@));
    let s4 = interned(s3, Constant::Str("sleep_ms"@));
    lemma_interned(g, s3, Constant::Str("sleep_ms"@));
    let ok = number(s4, Constant::VariantName("Ok"@));
    let s5 = interned(s4, Constant::VariantName("Ok"@));
    lemma_interned(g, s4, Constant::VariantName("Ok"@));
    let zero = number(s5, Constant::Int(0));
    let s6 = interned(s5, Constant::Int(0));
    lemma_interned(g, s5, Constant::Int(0));
    let one = number(s6, Constant::Int(1));
    let s7 = interned(s6, Constant::Int(1));
    lemma_interned(g, s6, Constant::Int(1));
    let two = number(s7, Constant::Int(2));
    let s8 = interned(s7, Constant::Int(2));
    lemma_interned(g, s7, Constant::Int(2));
    lemma_keeps(g, s, s1, s2);
    lemma_keeps(g, s, s2, s3);
    lemma_keeps(g, s, s3, s4);
    lemma_keeps(g, s, s4, s5);
    lemma_keeps(g, s, s5, s6);
    lemma_keeps(g, s, s6, s7);
    lemma_keeps(g, s, s7, s8);
    let code = flow_retry_with_backoff_code(call_nid, sleep_nid, kind_idx, op_idx, ok, zero, one,
        two);
    assert(keeps(g, s, s8));
    lemma_trampoline(g, s8, "__flow_retry_backoff"@, 4, 7, 3, code);
    lemma_grew(s, s8, t);
    if sound(g, s) && fine(flow_retry_with_backoff(s)) {
        assert(fine(s8));
        lemma_grew(s6, s7, s8);
        lemma_grew(s5, s6, s8);
        lemma_grew(s4, s5, s8);
        lemma_grew(s3, s4, s8);
        lemma_grew(s2, s3, s8);
        lemma_grew(s1, s2, s8);
        lemma_grew(s, s1, s8);
        assert(is_const(s8.pool, call_nid, Constant::NodeId("n_flow_retry_backoff"@)));
        assert(is_const(s8.pool, sleep_nid, Constant::NodeId("n_flow_retry_backoff_sleep"@)));
        assert(is_const(s8.pool, kind_idx, Constant::Str("time"@)));
        assert(is_const(s8.pool, op_idx, Constant::Str("sleep_ms"@)));
        assert(is_const(s8.pool, ok, Constant::VariantName("Ok"@)));
        assert(is_const(s8.pool, zero, Constant::Int(0)));
        assert(is_const(s8.pool, one, Constant::Int(1)));
        assert(is_const(s8.pool, two, Constant::Int(2)));
        assert(body_fits(code, s8.pool, s8.functions.len(), 7)) by {
            broadcast use {lemma_fits_push, lemma_fits_empty};
        }
    }
}

proof fn keeps_flow_parallel_list(g: Globals, s: Draft, xs: u16)
    ensures
        grew(s, flow_parallel_list(s, xs)),
        sound(g, s) && xs < s.peak_local && fine(flow_parallel_list(s, xs))
            ==> sound(g, flow_parallel_list(s, xs)),
{
    let t = flow_parallel_list(s, xs);
    let zero = number(s, Constant::Int(0));
    let s1 = interned(s, Constant::Int(0));
    lemma_interned(g, s, Constant::Int(0));
    let nid = number(s1, Constant::NodeId("n_flow_parallel_list"@));
    let s2 = interned(s1, Constant::NodeId("n_flow_parallel_list"@));
    lemma_interned(g, s1, Constant::NodeId("n_flow_parallel_list"@));
    let one = number(s2, Constant::Int(1));
    let s3 = interned(s2, Constant::Int(1));
    lemma_interned(g, s2, Constant::Int(1));
    let out = s3.next_local;
    let s4 = with_local(s3, "__fpl_out"@);
    lemma_with_local(g, s3, "__fpl_out"@);
    let i = s4.next_local;
    let s5 = with_local(s4, "__fpl_i"@);
    lemma_with_local(g, s4, "__fpl_i"@);
    lemma_keeps(g, s, s1, s2);
    lemma_keeps(g, s, s2, s3);
    lemma_keeps(g, s, s3, s4);
    lemma_keeps(g, s, s4, s5);
    let ops0 = seq![
        Op::MakeList(0),
        Op::StoreLocal(out),
        Op::PushConst(zero),
        Op::StoreLocal(i),
        Op::LoadLocal(i),
        Op::LoadLocal(xs),
        Op::GetListLen,
        Op::IntLt,
        Op::JumpIfNot(12),
        Op::LoadLocal(out),
        Op::LoadLocal(xs),
        Op::LoadLocal(i),
        Op::GetListElemDyn,
        Op::CallClosure { arity: 0, node_id_idx: nid },
        Op::ListAppend,
        Op::StoreLocal(out),
        Op::LoadLocal(i),
        Op::PushConst(one),
        Op::IntAdd,
        Op::StoreLocal(i),
        Op::Jump((-17) as i32),
        Op::LoadLocal(out),
    ];
    assert(keeps(g, s, s5));
    if sound(g, s) && xs < s.peak_local && fine(flow_parallel_list(s, xs)) {
        assert(fine(s5));
        lemma_grew(s3, s4, s5);
        lemma_grew(s2, s3, s5);
        lemma_grew(s1, s2, s5);
        lemma_grew(s, s1, s5);
        assert(is_const(s5.pool, zero, Constant::Int(0)));
        assert(is_const(s5.pool, nid, Constant::NodeId("n_flow_parallel_list"@)));
        assert(is_const(s5.pool, one, Constant::Int(1)));
        assert(out < s5.peak_local);
        assert(i < s5.peak_local);
        assert(fits_within(
            ops0,
            0,
            22,
            s5.pool,
            s5.functions.len(),
            s5.peak_local,
        )) by {
            broadcast use {lemma_fits_push, lemma_fits_empty};
        }
        lemma_emitted_all(g, s5, ops0);
        assert(t =~= emitted_all(s5, ops0));
    }
}

proof fn keeps_list_map(g: Globals, s: Draft)
    ensures
        grew(s, list_map(s)),
        sound(g, s) && fine(list_map(s)) ==> sound(g, list_map(s)),
{
    let t = list_map(s);
    let node_id_idx = number(s, Constant::NodeId("n_list_map"@));
    let s1 = interned(s, Constant::NodeId("n_list_map"@));
    lemma_interned(g, s, Constant::NodeId("n_list_map"@));
    let ops0 = seq![
        Op::ListMap { node_id_idx },
    ];
    assert(keeps(g, s, s1));
    if sound(g, s) && fine(list_map(s)) {
        assert(fine(s1));
        assert(is_const(s1.pool, node_id_idx, Constant::NodeId("n_list_map"@)));
        assert(fits_within(
            ops0,
            0,
            1,
            s1.pool,
            s1.functions.len(),
            s1.peak_local,
        )) by {
            broadcast use {lemma_fits_push, lemma_fits_empty};
        }
        lemma_emitted_all(g, s1, ops0);
        assert(t =~= emitted_all(s1, ops0));
    }
}

proof fn keeps_list_par_map(g: Globals, s: Draft)
    ensures
        grew(s, list_par_map(s)),
        sound(g, s) && fine(list_par_map(s)) ==> sound(g, list_par_map(s)),
{
    let t = list_par_map(s);
    let node_id_idx = number(s, Constant::NodeId("n_list_par_map"@));
    let s1 = interned(s, Constant::NodeId("n_list_par_map"@));
    lemma_interned(g, s, Constant::NodeId("n_list_par_map"@));
    let ops0 = seq![
        Op::ParallelMap { node_id_idx },
    ];
    assert(keeps(g, s, s1));
    if sound(g, s) && fine(list_par_map(s)) {
        assert(fine(s1));
        assert(is_const(s1.pool, node_id_idx, Constant::NodeId("n_list_par_map"@)));
        assert(fits_within(
            ops0,
            0,
            1,
            s1.pool,
            s1.functions.len(),
            s1.peak_local,
        )) by {
            broadcast use {lemma_fits_push, lemma_fits_empty};
        }
        lemma_emitted_all(g, s1, ops0);
        assert(t =~= emitted_all(s1, ops0));
    }
}

proof fn keeps_list_sort_by(g: Globals, s: Draft)
    ensures
        grew(s, list_sort_by(s)),
        sound(g, s) && fine(list_sort_by(s)) ==> sound(g, list_sort_by(s)),
{
    let t = list_sort_by(s);
    let node_id_idx = number(s, Constant::NodeId("n_list_sort_by"@));
    let s1 = interned(s, Constant::NodeId("n_list_sort_by"@));
    lemma_interned(g, s, Constant::NodeId("n_list_sort_by"@));
    let ops0 = seq![
        Op::SortByKey { node_id_idx },
    ];
    assert(keeps(g, s, s1));
    if sound(g, s) && fine(list_sort_by(s)) {
        assert(fine(s1));
        assert(is_const(s1.pool, node_id_idx, Constant::NodeId("n_list_sort_by"@)));
        assert(fits_within(
            ops0,
            0,
            1,
            s1.pool,
            s1.functions.len(),
            s1.peak_local,
        )) by {
            broadcast use {lemma_fits_push, lemma_fits_empty};
        }
        lemma_emitted_all(g, s1, ops0);
        assert(t =~= emitted_all(s1, ops0));
    }
}

proof fn keeps_list_filter(g: Globals, s: Draft)
    ensures
        grew(s, list_filter(s)),
        sound(g, s) && fine(list_filter(s)) ==> sound(g, list_filter(s)),
{
    let t = list_filter(s);
    let node_id_idx = number(s, Constant::NodeId("n_list_filter"@));
    let s1 = interned(s, Constant::NodeId("n_list_filter"@));
    lemma_interned(g, s, Constant::NodeId("n_list_filter"@));
    let ops0 = seq![
        Op::ListFilter { node_id_idx },
    ];
    assert(keeps(g, s, s1));
    if sound(g, s) && fine(list_filter(s)) {
        assert(fine(s1));
        assert(is_const(s1.pool, node_id_idx, Constant::NodeId("n_list_filter"@)));
        assert(fits_within(
            ops0,
            0,
            1,
            s1.pool,
            s1.functions.len(),
            s1.peak_local,
        )) by {
            broadcast use {lemma_fits_push, lemma_fits_empty};
        }
        lemma_emitted_all(g, s1, ops0);
        assert(t =~= emitted_all(s1, ops0));
    }
}

proof fn keeps_list_fold(g: Globals, s: Draft)
    ensures
        grew(s, list_fold(s)),
        sound(g, s) && fine(list_fold(s)) ==> sound(g, list_fold(s)),
{
    let t = list_fold(s);
    let node_id_idx = number(s, Constant::NodeId("n_list_fold"@));
    let s1 = interned(s, Constant::NodeId("n_list_fold"@));
    lemma_interned(g, s, Constant::NodeId("n_list_fold"@));
    let ops0 = seq![
        Op::ListFold { node_id_idx },
    ];
    assert(keeps(g, s, s1));
    if sound(g, s) && fine(list_fold(s)) {
        assert(fine(s1));
        assert(is_const(s1.pool, node_id_idx, Constant::NodeId("n_list_fold"@)));
        assert(fits_within(
            ops0,
            0,
            1,
            s1.pool,
            s1.functions.len(),
            s1.peak_local,
        )) by {
            broadcast use {lemma_fits_push, lemma_fits_empty};
        }
        lemma_emitted_all(g, s1, ops0);
        assert(t =~= emitted_all(s1, ops0));
    }
}

/// The locals that keep the arguments of a combinator.
pub open spec fn slots_fit(c: Combinator, slots: Seq<u16>, locals: u16) -> bool {
    &&& slots.len() == taken(c)
    &&& forall|k: nat|
        k < taken(c) && (#[trigger] keeper(c, k)) is Some ==> slots[k as int] < locals
}

/// The code behind the arguments of a combinator fits.
pub proof fn lemma_closing_keeps(g: Globals, s: Draft, c: Combinator, slots: Seq<u16>, tag: u32)
    ensures
        grew(s, closing(s, c, slots, tag)),
        sound(g, s) && slots_fit(c, slots, s.peak_local) && (tested_tag(c) is Some
            ==> is_variant_name(s.pool, tag)) && fine(closing(s, c, slots, tag)) ==> sound(
            g,
            closing(s, c, slots, tag),
        ),
{
    if slots_fit(c, slots, s.peak_local) {
        assert(keeper(c, 0) is Some ==> slots[0] < s.peak_local);
        assert(taken(c) > 1 && keeper(c, 1) is Some ==> slots[1] < s.peak_local);
        assert(taken(c) > 2 && keeper(c, 2) is Some ==> slots[2] < s.peak_local);
    }
    match c {
        Combinator::ResultMap => keeps_variant_map(g, s, slots[0], slots[1], tag),
        Combinator::ResultAndThen => keeps_variant_and_then(g, s, slots[0], slots[1], tag),
        Combinator::ResultMapErr => keeps_variant_map(g, s, slots[0], slots[1], tag),
        Combinator::ResultOrElse => keeps_result_or_else(g, s, slots[0], slots[1], tag),
        Combinator::ResultUnwrapOrElse => keeps_result_unwrap_or_else(g, s, slots[0], slots[1],
            tag),
        Combinator::OptionMap => keeps_variant_map(g, s, slots[0], slots[1], tag),
        Combinator::OptionAndThen => keeps_variant_and_then(g, s, slots[0], slots[1], tag),
        Combinator::OptionOrElse => keeps_option_or_else(g, s, slots[0], slots[1], tag),
        Combinator::OptionUnwrapOrElse => keeps_option_unwrap_or_else(g, s, slots[0], slots[1],
            tag),
        Combinator::ListMap => keeps_list_map(g, s),
        Combinator::ListParMap => keeps_list_par_map(g, s),
        Combinator::ListSortBy => keeps_list_sort_by(g, s),
        Combinator::ListFilter => keeps_list_filter(g, s),
        Combinator::ListFold => keeps_list_fold(g, s),
        Combinator::IterFromList => keeps_iter_from_list(g, s),
        Combinator::IterUnfold => keeps_iter_unfold(g, s),
        Combinator::IterNext => keeps_iter_next(g, s, slots[0]),
        Combinator::IterIsEmpty => keeps_iter_is_empty(g, s, slots[0]),
        Combinator::IterCount => keeps_iter_count(g, s, slots[0]),
        Combinator::IterTake => keeps_iter_take(g, s, slots[0], slots[1]),
        Combinator::IterSkip => keeps_iter_skip(g, s, slots[0], slots[1]),
        Combinator::IterToList => keeps_iter_to_list(g, s, slots[0]),
        Combinator::IterMap => keeps_iter_map(g, s, slots[0], slots[1]),
        Combinator::IterFilter => keeps_iter_filter(g, s, slots[0], slots[1]),
        Combinator::IterFold => keeps_iter_fold(g, s, slots[0], slots[1], slots[2]),
        Combinator::MapFold => keeps_map_fold(g, s, slots[0], slots[1], slots[2]),
        Combinator::FlowSequential => keeps_flow_sequential(g, s),
        Combinator::FlowBranch => keeps_flow_branch(g, s),
        Combinator::FlowRetry => keeps_flow_retry(g, s),
        Combinator::FlowRetryWithBackoff => keeps_flow_retry_with_backoff(g, s),
        Combinator::FlowParallel => keeps_flow_parallel(g, s),
        Combinator::FlowParallelList => keeps_flow_parallel_list(g, s, slots[0]),
    }
}

} // verus!
