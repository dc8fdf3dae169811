//! What the code of the iterator combinators does when it runs on a list
//! iterator.

use vstd::prelude::*;

use crate::compiler::draft::{interned, number, with_local, Draft};
use crate::compiler::iter_code::{
    iter_count, iter_from_list, iter_is_empty, iter_next, iter_skip, iter_to_list,
};
use crate::compiler::pool::Constant;
use crate::compiler::soundness::{fine, is_const};
use crate::op::Op;
use crate::program::Program;
use crate::value::Val;
use crate::vm::paths::{
    at, lemma_binary, lemma_const, lemma_entered, lemma_fresh, lemma_jump, lemma_jump_when,
    lemma_load, lemma_make_pair, lemma_make_variant, lemma_no_items, lemma_ops, lemma_reached,
    lemma_start, lemma_store, lemma_tags, lemma_test, lemma_unary, poised, reaches, steps,
};
use crate::vm::runs::variant;
use crate::vm::state::{local_slot, State};

verus! {

/// The list iterator that stands at `i`.
pub open spec fn eager(xs: Seq<Val>, i: i64) -> Val {
    variant("__IterEager"@, seq![Val::List(xs), Val::Int(i)])
}

/// What a list iterator that stands at `i` gives next: an element and the
/// iterator behind it, or `None` at the end.
pub open spec fn next_of(xs: Seq<Val>, i: i64) -> Val {
    if i < xs.len() {
        variant("Some"@, seq![Val::Tuple(seq![xs[i as int], eager(xs, (i + 1) as i64)])])
    } else {
        variant("None"@, Seq::empty())
    }
}

/// The constants and locals of the code that gives the next element.
spec fn next_ready(d: Draft, it: u16) -> bool {
    let t = iter_next(d, it);
    let s1 = interned(d, Constant::VariantName("__IterLazy"@));
    let s2 = interned(s1, Constant::NodeId("n_iter_next_lazy"@));
    let s3 = interned(s2, Constant::VariantName("Some"@));
    let s4 = interned(s3, Constant::VariantName("None"@));
    let s5 = interned(s4, Constant::VariantName("__IterCursor"@));
    let s6 = interned(s5, Constant::Str("sql"@));
    let s7 = interned(s6, Constant::Str("cursor_next"@));
    let s8 = interned(s7, Constant::NodeId("n_iter_next_cursor"@));
    let s9 = interned(s8, Constant::Int(1));
    let lazy = number(d, Constant::VariantName("__IterLazy"@));
    let some = number(s2, Constant::VariantName("Some"@));
    let none = number(s3, Constant::VariantName("None"@));
    let cursor = number(s4, Constant::VariantName("__IterCursor"@));
    let one = number(s8, Constant::Int(1));
    let eager = number(s9, Constant::VariantName("__IterEager"@));
    let list = (d.next_local + 6) as u16;
    let idx = (d.next_local + 7) as u16;
    let k = d.code.len() as int;
    &&& d.next_local + 8 <= t.peak_local
    &&& t.code.len() == k + 74
    &&& is_const(t.pool, lazy, Constant::VariantName("__IterLazy"@))
    &&& is_const(t.pool, some, Constant::VariantName("Some"@))
    &&& is_const(t.pool, none, Constant::VariantName("None"@))
    &&& is_const(t.pool, cursor, Constant::VariantName("__IterCursor"@))
    &&& is_const(t.pool, one, Constant::Int(1))
    &&& is_const(t.pool, eager, Constant::VariantName("__IterEager"@))
    &&& t.code[k] == Op::LoadLocal(it)
    &&& t.code[k + 1] == Op::TestVariant(lazy)
    &&& t.code[k + 2] == Op::JumpIfNot(27)
    &&& t.code[k + 30] == Op::LoadLocal(it)
    &&& t.code[k + 31] == Op::TestVariant(cursor)
    &&& t.code[k + 32] == Op::JumpIfNot(18)
    &&& t.code[k + 51] == Op::LoadLocal(it)
    &&& t.code[k + 52] == Op::GetVariantArg(0)
    &&& t.code[k + 53] == Op::StoreLocal(list)
    &&& t.code[k + 54] == Op::LoadLocal(it)
    &&& t.code[k + 55] == Op::GetVariantArg(1)
    &&& t.code[k + 56] == Op::StoreLocal(idx)
    &&& t.code[k + 57] == Op::LoadLocal(idx)
    &&& t.code[k + 58] == Op::LoadLocal(list)
    &&& t.code[k + 59] == Op::GetListLen
    &&& t.code[k + 60] == Op::IntLt
    &&& t.code[k + 61] == Op::JumpIfNot(11)
    &&& t.code[k + 62] == Op::LoadLocal(list)
    &&& t.code[k + 63] == Op::LoadLocal(idx)
    &&& t.code[k + 64] == Op::GetListElemDyn
    &&& t.code[k + 65] == Op::LoadLocal(list)
    &&& t.code[k + 66] == Op::LoadLocal(idx)
    &&& t.code[k + 67] == Op::PushConst(one)
    &&& t.code[k + 68] == Op::IntAdd
    &&& t.code[k + 69] == Op::MakeVariant { name_idx: eager, arity: 2 }
    &&& t.code[k + 70] == Op::MakeTuple(2)
    &&& t.code[k + 71] == Op::MakeVariant { name_idx: some, arity: 1 }
    &&& t.code[k + 72] == Op::Jump(1)
    &&& t.code[k + 73] == Op::MakeVariant { name_idx: none, arity: 0 }
}

proof fn lemma_next_ready(d: Draft, it: u16)
    requires
        fine(iter_next(d, it)),
    ensures
        next_ready(d, it),
{
    let s1 = interned(d, Constant::VariantName("__IterLazy"@));
    let s2 = interned(s1, Constant::NodeId("n_iter_next_lazy"@));
    let s3 = interned(s2, Constant::VariantName("Some"@));
    let s4 = interned(s3, Constant::VariantName("None"@));
    let s5 = interned(s4, Constant::VariantName("__IterCursor"@));
    let s6 = interned(s5, Constant::Str("sql"@));
    let s7 = interned(s6, Constant::Str("cursor_next"@));
    let s8 = interned(s7, Constant::NodeId("n_iter_next_cursor"@));
    let s9 = interned(s8, Constant::Int(1));
    let s10 = interned(s9, Constant::VariantName("__IterEager"@));
    lemma_entered(d, Constant::VariantName("__IterLazy"@));
    lemma_entered(s1, Constant::NodeId("n_iter_next_lazy"@));
    lemma_entered(s2, Constant::VariantName("Some"@));
    lemma_entered(s3, Constant::VariantName("None"@));
    lemma_entered(s4, Constant::VariantName("__IterCursor"@));
    lemma_entered(s5, Constant::Str("sql"@));
    lemma_entered(s6, Constant::Str("cursor_next"@));
    lemma_entered(s7, Constant::NodeId("n_iter_next_cursor"@));
    lemma_entered(s8, Constant::Int(1));
    lemma_entered(s9, Constant::VariantName("__IterEager"@));
    let s11 = with_local(s10, "__in_seed"@);
    let s12 = with_local(s11, "__in_step"@);
    let s13 = with_local(s12, "__in_opt"@);
    let s14 = with_local(s13, "__in_pair"@);
    let s15 = with_local(s14, "__in_handle"@);
    let s16 = with_local(s15, "__in_cur_opt"@);
    let s17 = with_local(s16, "__in_list"@);
    lemma_fresh(s10, "__in_seed"@);
    lemma_fresh(s11, "__in_step"@);
    lemma_fresh(s12, "__in_opt"@);
    lemma_fresh(s13, "__in_pair"@);
    lemma_fresh(s14, "__in_handle"@);
    lemma_fresh(s15, "__in_cur_opt"@);
    lemma_fresh(s16, "__in_list"@);
    lemma_fresh(s17, "__in_idx"@);
}

/// The locals behind the code that gives the next element of a list iterator.
pub open spec fn next_locals(s: State, d: Draft, xs: Seq<Val>, i: i64) -> Seq<Val> {
    s.locals.update(local_slot(s, (d.next_local + 6) as u16), Val::List(xs)).update(
        local_slot(s, (d.next_local + 7) as u16),
        Val::Int(i),
    )
}

/// Up to the comparison of the position with the length.
proof fn lemma_next_reads(p: Program, code: Seq<Op>, s: State, d: Draft, it: u16, xs: Seq<Val>,
    i: i64)
    requires
        poised(p, code, s, d, iter_next(d, it)),
        it < d.next_local,
        s.locals[local_slot(s, it)] == eager(xs, i),
        0 <= i,
        xs.len() <= i64::MAX,
    ensures
        reaches(
            p,
            code,
            s,
            17,
            d.code.len() + (if i < xs.len() {
                62nat
            } else {
                73nat
            }),
            s.stack,
            next_locals(s, d, xs, i),
        ),
{
    let t = iter_next(d, it);
    let k = d.code.len();
    let st = s.stack;
    let l0 = s.locals;
    let v = eager(xs, i);
    let args = seq![Val::List(xs), Val::Int(i)];
    let list = (d.next_local + 6) as u16;
    let idx = (d.next_local + 7) as u16;
    lemma_next_ready(d, it);
    lemma_ops(p, code, s, t);
    lemma_tags(p, code, s, t);
    lemma_start(p, code, s);
    reveal_strlit("__IterEager");
    reveal_strlit("__IterLazy");
    reveal_strlit("__IterCursor");
    assert("__IterEager"@.len() != "__IterLazy"@.len());
    assert("__IterEager"@.len() != "__IterCursor"@.len());
    let lazy = t.code[k as int + 1]->TestVariant_0;
    let cursor = t.code[k as int + 31]->TestVariant_0;
    lemma_load(p, code, s, 0, k, st, l0, it);
    lemma_test(p, code, s, 1, k + 1, st, "__IterEager"@, args, l0, lazy, "__IterLazy"@);
    lemma_jump_when(p, code, s, 2, k + 2, st, false, l0, false, 27);
    lemma_load(p, code, s, 3, k + 30, st, l0, it);
    lemma_test(p, code, s, 4, k + 31, st, "__IterEager"@, args, l0, cursor, "__IterCursor"@);
    lemma_jump_when(p, code, s, 5, k + 32, st, false, l0, false, 18);
    lemma_load(p, code, s, 6, k + 51, st, l0, it);
    lemma_unary(p, code, s, 7, k + 52, st, v, l0, Op::GetVariantArg(0), Val::List(xs));
    lemma_store(p, code, s, 8, k + 53, st, Val::List(xs), l0, list);
    let l1 = l0.update(local_slot(s, list), Val::List(xs));
    lemma_load(p, code, s, 9, k + 54, st, l1, it);
    lemma_unary(p, code, s, 10, k + 55, st, v, l1, Op::GetVariantArg(1), Val::Int(i));
    lemma_store(p, code, s, 11, k + 56, st, Val::Int(i), l1, idx);
    let l2 = next_locals(s, d, xs, i);
    lemma_load(p, code, s, 12, k + 57, st, l2, idx);
    lemma_load(p, code, s, 13, k + 58, st.push(Val::Int(i)), l2, list);
    let len = xs.len() as i64;
    lemma_unary(
        p,
        code,
        s,
        14,
        k + 59,
        st.push(Val::Int(i)),
        Val::List(xs),
        l2,
        Op::GetListLen,
        Val::Int(len),
    );
    let less = Val::Bool(i < len);
    lemma_binary(p, code, s, 15, k + 60, st, Val::Int(i), Val::Int(len), l2, Op::IntLt, less);
    lemma_jump_when(p, code, s, 16, k + 61, st, i < len, l2, false, 11);
}

/// The element and the iterator behind it.
#[verifier::spinoff_prover]
#[verifier::rlimit(40)]
proof fn lemma_next_some(p: Program, code: Seq<Op>, s: State, d: Draft, it: u16, xs: Seq<Val>,
    i: i64)
    requires
        poised(p, code, s, d, iter_next(d, it)),
        it < d.next_local,
        s.locals[local_slot(s, it)] == eager(xs, i),
        0 <= i,
        xs.len() <= i64::MAX,
        i < xs.len(),
    ensures
        reaches(
            p,
            code,
            s,
            28,
            iter_next(d, it).code.len(),
            s.stack.push(next_of(xs, i)),
            next_locals(s, d, xs, i),
        ),
{
    let t = iter_next(d, it);
    let k = d.code.len();
    let st = s.stack;
    let lo = next_locals(s, d, xs, i);
    let list = (d.next_local + 6) as u16;
    let idx = (d.next_local + 7) as u16;
    lemma_next_ready(d, it);
    lemma_ops(p, code, s, t);
    lemma_tags(p, code, s, t);
    lemma_next_reads(p, code, s, d, it, xs, i);
    let x = xs[i as int];
    let one = t.code[k as int + 67]->PushConst_0;
    let eager_idx = t.code[k as int + 69]->MakeVariant_name_idx;
    let some = t.code[k as int + 71]->MakeVariant_name_idx;
    let more = eager(xs, (i + 1) as i64);
    let pair = Val::Tuple(seq![x, more]);
    lemma_load(p, code, s, 17, k + 62, st, lo, list);
    lemma_load(p, code, s, 18, k + 63, st.push(Val::List(xs)), lo, idx);
    lemma_binary(
        p,
        code,
        s,
        19,
        k + 64,
        st,
        Val::List(xs),
        Val::Int(i),
        lo,
        Op::GetListElemDyn,
        x,
    );
    let s1 = st.push(x);
    lemma_load(p, code, s, 20, k + 65, s1, lo, list);
    let s2 = s1.push(Val::List(xs));
    lemma_load(p, code, s, 21, k + 66, s2, lo, idx);
    lemma_const(p, code, s, 22, k + 67, s2.push(Val::Int(i)), lo, one, 1);
    lemma_binary(
        p,
        code,
        s,
        23,
        k + 68,
        s2,
        Val::Int(i),
        Val::Int(1),
        lo,
        Op::IntAdd,
        Val::Int((i + 1) as i64),
    );
    let args = seq![Val::List(xs), Val::Int((i + 1) as i64)];
    assert(s2.push(Val::Int((i + 1) as i64)) =~= s1 + args);
    lemma_make_variant(p, code, s, 24, k + 69, s1, args, lo, eager_idx, 2, "__IterEager"@);
    lemma_make_pair(p, code, s, 25, k + 70, st, x, more, lo);
    assert(st.push(pair) =~= st + seq![pair]);
    lemma_make_variant(p, code, s, 26, k + 71, st, seq![pair], lo, some, 1, "Some"@);
    lemma_jump(p, code, s, 27, k + 72, st.push(next_of(xs, i)), lo, 1);
}

/// The end of the list.
proof fn lemma_next_none(p: Program, code: Seq<Op>, s: State, d: Draft, it: u16, xs: Seq<Val>,
    i: i64)
    requires
        poised(p, code, s, d, iter_next(d, it)),
        it < d.next_local,
        s.locals[local_slot(s, it)] == eager(xs, i),
        0 <= i,
        xs.len() <= i64::MAX,
        i >= xs.len(),
    ensures
        reaches(
            p,
            code,
            s,
            18,
            iter_next(d, it).code.len(),
            s.stack.push(next_of(xs, i)),
            next_locals(s, d, xs, i),
        ),
{
    let t = iter_next(d, it);
    let k = d.code.len();
    let st = s.stack;
    let lo = next_locals(s, d, xs, i);
    lemma_next_ready(d, it);
    lemma_ops(p, code, s, t);
    lemma_tags(p, code, s, t);
    lemma_next_reads(p, code, s, d, it, xs, i);
    let none = t.code[k as int + 73]->MakeVariant_name_idx;
    assert(st =~= st + Seq::<Val>::empty());
    lemma_make_variant(p, code, s, 17, k + 73, st, Seq::empty(), lo, none, 0, "None"@);
}

/// Law: the code that gives the next element of an iterator, run on a list
/// iterator that stands at `i`, leaves `Some` of element `i` and the iterator
/// that stands at `i + 1`, or `None` at the end of the list. But for the value
/// on the stack and the locals that the code brings along, nothing changes.
pub proof fn law_next_of_a_list_iterator(
    p: Program,
    code: Seq<Op>,
    s: State,
    d: Draft,
    it: u16,
    xs: Seq<Val>,
    i: i64,
)
    requires
        poised(p, code, s, d, iter_next(d, it)),
        it < d.next_local,
        s.locals[local_slot(s, it)] == eager(xs, i),
        0 <= i,
        xs.len() <= i64::MAX,
    ensures
        exists|n: nat| #[trigger]
            steps(p, code, s, n) == Some(
                at(
                    s,
                    iter_next(d, it).code.len(),
                    s.stack.push(next_of(xs, i)),
                    next_locals(s, d, xs, i),
                ),
            ),
{
    let k = iter_next(d, it).code.len();
    let st = s.stack.push(next_of(xs, i));
    if i < xs.len() {
        lemma_next_some(p, code, s, d, it, xs, i);
        lemma_reached(p, code, s, 28, k, st, next_locals(s, d, xs, i));
    } else {
        lemma_next_none(p, code, s, d, it, xs, i);
        lemma_reached(p, code, s, 18, k, st, next_locals(s, d, xs, i));
    }
}

/// Law: the code that makes an iterator, run on a list, leaves the iterator
/// that stands at the start of that list.
pub proof fn law_iterator_from_a_list(p: Program, code: Seq<Op>, s: State, d: Draft, st: Seq<Val>,
    xs: Seq<Val>)
    requires
        poised(p, code, s, d, iter_from_list(d)),
        s.stack == st.push(Val::List(xs)),
    ensures
        exists|n: nat| #[trigger]
            steps(p, code, s, n) == Some(
                at(s, iter_from_list(d).code.len(), st.push(eager(xs, 0)), s.locals),
            ),
{
    let t = iter_from_list(d);
    let k = d.code.len();
    let lo = s.locals;
    let s1 = interned(d, Constant::Int(0));
    let zero = number(d, Constant::Int(0));
    let eager_idx = number(s1, Constant::VariantName("__IterEager"@));
    lemma_entered(d, Constant::Int(0));
    lemma_entered(s1, Constant::VariantName("__IterEager"@));
    lemma_ops(p, code, s, t);
    lemma_tags(p, code, s, t);
    lemma_start(p, code, s);
    assert(t.code[k as int] == Op::PushConst(zero));
    assert(t.code[k as int + 1] == Op::MakeVariant { name_idx: eager_idx, arity: 2 });
    lemma_const(p, code, s, 0, k, s.stack, lo, zero, 0);
    let args = seq![Val::List(xs), Val::Int(0)];
    assert(s.stack.push(Val::Int(0)) =~= st + args);
    lemma_make_variant(p, code, s, 1, k + 1, st, args, lo, eager_idx, 2, "__IterEager"@);
    lemma_reached(p, code, s, 2, k + 2, st.push(eager(xs, 0)), lo);
}

/// Law: the code that asks whether an iterator is empty, run on a list
/// iterator that stands at `i`, leaves whether no element is left.
pub proof fn law_list_iterator_is_empty(
    p: Program,
    code: Seq<Op>,
    s: State,
    d: Draft,
    it: u16,
    xs: Seq<Val>,
    i: i64,
)
    requires
        poised(p, code, s, d, iter_is_empty(d, it)),
        it < d.peak_local,
        s.locals[local_slot(s, it)] == eager(xs, i),
        xs.len() <= i64::MAX,
    ensures
        exists|n: nat| #[trigger]
            steps(p, code, s, n) == Some(
                at(
                    s,
                    iter_is_empty(d, it).code.len(),
                    s.stack.push(Val::Bool(i >= xs.len())),
                    s.locals,
                ),
            ),
{
    let t = iter_is_empty(d, it);
    let k = d.code.len();
    let st = s.stack;
    let lo = s.locals;
    let v = eager(xs, i);
    let n = Val::Int(i);
    let list = Val::List(xs);
    let len = Val::Int(xs.len() as i64);
    lemma_ops(p, code, s, t);
    lemma_start(p, code, s);
    assert(t.code[k as int] == Op::LoadLocal(it));
    assert(t.code[k as int + 1] == Op::GetVariantArg(1));
    assert(t.code[k as int + 2] == Op::LoadLocal(it));
    assert(t.code[k as int + 3] == Op::GetVariantArg(0));
    assert(t.code[k as int + 4] == Op::GetListLen);
    assert(t.code[k as int + 5] == Op::IntLt);
    assert(t.code[k as int + 6] == Op::BoolNot);
    lemma_load(p, code, s, 0, k, st, lo, it);
    lemma_unary(p, code, s, 1, k + 1, st, v, lo, Op::GetVariantArg(1), n);
    lemma_load(p, code, s, 2, k + 2, st.push(n), lo, it);
    lemma_unary(p, code, s, 3, k + 3, st.push(n), v, lo, Op::GetVariantArg(0), list);
    lemma_unary(p, code, s, 4, k + 4, st.push(n), list, lo, Op::GetListLen, len);
    let less = Val::Bool(i < xs.len());
    lemma_binary(p, code, s, 5, k + 5, st, n, len, lo, Op::IntLt, less);
    lemma_unary(p, code, s, 6, k + 6, st, less, lo, Op::BoolNot, Val::Bool(i >= xs.len()));
    lemma_reached(p, code, s, 7, k + 7, st.push(Val::Bool(i >= xs.len())), lo);
}

/// Law: the code that counts the elements of an iterator, run on a list
/// iterator that stands at `i`, leaves how many elements lie from `i` on.
pub proof fn law_list_iterator_count(
    p: Program,
    code: Seq<Op>,
    s: State,
    d: Draft,
    it: u16,
    xs: Seq<Val>,
    i: i64,
)
    requires
        poised(p, code, s, d, iter_count(d, it)),
        it < d.peak_local,
        s.locals[local_slot(s, it)] == eager(xs, i),
        0 <= i,
        xs.len() <= i64::MAX,
    ensures
        exists|n: nat| #[trigger]
            steps(p, code, s, n) == Some(
                at(
                    s,
                    iter_count(d, it).code.len(),
                    s.stack.push(Val::Int((xs.len() - i) as i64)),
                    s.locals,
                ),
            ),
{
    let t = iter_count(d, it);
    let k = d.code.len();
    let st = s.stack;
    let lo = s.locals;
    let v = eager(xs, i);
    let n = Val::Int(i);
    let list = Val::List(xs);
    let len = Val::Int(xs.len() as i64);
    lemma_ops(p, code, s, t);
    lemma_start(p, code, s);
    assert(t.code[k as int] == Op::LoadLocal(it));
    assert(t.code[k as int + 1] == Op::GetVariantArg(0));
    assert(t.code[k as int + 2] == Op::GetListLen);
    assert(t.code[k as int + 3] == Op::LoadLocal(it));
    assert(t.code[k as int + 4] == Op::GetVariantArg(1));
    assert(t.code[k as int + 5] == Op::IntSub);
    lemma_load(p, code, s, 0, k, st, lo, it);
    lemma_unary(p, code, s, 1, k + 1, st, v, lo, Op::GetVariantArg(0), list);
    lemma_unary(p, code, s, 2, k + 2, st, list, lo, Op::GetListLen, len);
    lemma_load(p, code, s, 3, k + 3, st.push(len), lo, it);
    lemma_unary(p, code, s, 4, k + 4, st.push(len), v, lo, Op::GetVariantArg(1), n);
    let left = Val::Int((xs.len() - i) as i64);
    lemma_binary(p, code, s, 5, k + 5, st, len, n, lo, Op::IntSub, left);
    lemma_reached(p, code, s, 6, k + 6, st.push(left), lo);
}

/// The locals of the code that collects a list: what was collected, the list
/// and the position.
pub open spec fn collect_locals(
    s: State,
    d: Draft,
    out: Seq<Val>,
    xs: Seq<Val>,
    i: i64,
) -> Seq<Val> {
    s.locals.update(local_slot(s, d.next_local), Val::List(out)).update(
        local_slot(s, (d.next_local + 5) as u16),
        Val::List(xs),
    ).update(local_slot(s, (d.next_local + 6) as u16), Val::Int(i))
}

/// The constants and locals of the code that collects a list.
spec fn collect_ready(d: Draft, it: u16) -> bool {
    let t = iter_to_list(d, it);
    let s1 = interned(d, Constant::VariantName("__IterLazy"@));
    let s2 = interned(s1, Constant::NodeId("n_iter_to_list_lazy"@));
    let s3 = interned(s2, Constant::VariantName("Some"@));
    let lazy = number(d, Constant::VariantName("__IterLazy"@));
    let one = number(s3, Constant::Int(1));
    let out = d.next_local;
    let list = (d.next_local + 5) as u16;
    let i = (d.next_local + 6) as u16;
    let k = d.code.len() as int;
    &&& d.next_local + 7 <= t.peak_local
    &&& t.code.len() == k + 54
    &&& is_const(t.pool, lazy, Constant::VariantName("__IterLazy"@))
    &&& is_const(t.pool, one, Constant::Int(1))
    &&& t.code[k] == Op::MakeList(0)
    &&& t.code[k + 1] == Op::StoreLocal(out)
    &&& t.code[k + 2] == Op::LoadLocal(it)
    &&& t.code[k + 3] == Op::TestVariant(lazy)
    &&& t.code[k + 4] == Op::JumpIfNot(26)
    &&& t.code[k + 31] == Op::LoadLocal(it)
    &&& t.code[k + 32] == Op::GetVariantArg(0)
    &&& t.code[k + 33] == Op::StoreLocal(list)
    &&& t.code[k + 34] == Op::LoadLocal(it)
    &&& t.code[k + 35] == Op::GetVariantArg(1)
    &&& t.code[k + 36] == Op::StoreLocal(i)
    &&& t.code[k + 37] == Op::LoadLocal(i)
    &&& t.code[k + 38] == Op::LoadLocal(list)
    &&& t.code[k + 39] == Op::GetListLen
    &&& t.code[k + 40] == Op::IntLt
    &&& t.code[k + 41] == Op::JumpIfNot(11)
    &&& t.code[k + 42] == Op::LoadLocal(out)
    &&& t.code[k + 43] == Op::LoadLocal(list)
    &&& t.code[k + 44] == Op::LoadLocal(i)
    &&& t.code[k + 45] == Op::GetListElemDyn
    &&& t.code[k + 46] == Op::ListAppend
    &&& t.code[k + 47] == Op::StoreLocal(out)
    &&& t.code[k + 48] == Op::LoadLocal(i)
    &&& t.code[k + 49] == Op::PushConst(one)
    &&& t.code[k + 50] == Op::IntAdd
    &&& t.code[k + 51] == Op::StoreLocal(i)
    &&& t.code[k + 52] == Op::Jump((-16) as i32)
    &&& t.code[k + 53] == Op::LoadLocal(out)
}

proof fn lemma_collect_ready(d: Draft, it: u16)
    requires
        fine(iter_to_list(d, it)),
    ensures
        collect_ready(d, it),
{
    let s1 = interned(d, Constant::VariantName("__IterLazy"@));
    let s2 = interned(s1, Constant::NodeId("n_iter_to_list_lazy"@));
    let s3 = interned(s2, Constant::VariantName("Some"@));
    let s4 = interned(s3, Constant::Int(1));
    lemma_entered(d, Constant::VariantName("__IterLazy"@));
    lemma_entered(s1, Constant::NodeId("n_iter_to_list_lazy"@));
    lemma_entered(s2, Constant::VariantName("Some"@));
    lemma_entered(s3, Constant::Int(1));
    let s5 = with_local(s4, "__itl_out"@);
    let s6 = with_local(s5, "__itl_seed"@);
    let s7 = with_local(s6, "__itl_step"@);
    let s8 = with_local(s7, "__itl_opt"@);
    let s9 = with_local(s8, "__itl_pair"@);
    let s10 = with_local(s9, "__itl_list"@);
    lemma_fresh(s4, "__itl_out"@);
    lemma_fresh(s5, "__itl_seed"@);
    lemma_fresh(s6, "__itl_step"@);
    lemma_fresh(s7, "__itl_opt"@);
    lemma_fresh(s8, "__itl_pair"@);
    lemma_fresh(s9, "__itl_list"@);
    lemma_fresh(s10, "__itl_i"@);
}

/// Up to the loop.
#[verifier::spinoff_prover]
proof fn lemma_collect_starts(p: Program, code: Seq<Op>, s: State, d: Draft, it: u16, xs: Seq<Val>,
    i: i64)
    requires
        poised(p, code, s, d, iter_to_list(d, it)),
        it < d.next_local,
        s.locals[local_slot(s, it)] == eager(xs, i),
    ensures
        reaches(
            p,
            code,
            s,
            11,
            d.code.len() + 37,
            s.stack,
            collect_locals(s, d, Seq::empty(), xs, i),
        ),
{
    let t = iter_to_list(d, it);
    let k = d.code.len();
    let st = s.stack;
    let v = eager(xs, i);
    let args = seq![Val::List(xs), Val::Int(i)];
    let out = d.next_local;
    let list = (d.next_local + 5) as u16;
    let at_i = (d.next_local + 6) as u16;
    lemma_collect_ready(d, it);
    lemma_ops(p, code, s, t);
    lemma_tags(p, code, s, t);
    lemma_start(p, code, s);
    reveal_strlit("__IterEager");
    reveal_strlit("__IterLazy");
    assert("__IterEager"@.len() != "__IterLazy"@.len());
    let lazy = t.code[k as int + 3]->TestVariant_0;
    let none = Val::List(Seq::empty());
    lemma_no_items(p, code, s, 0, k, st, s.locals);
    lemma_store(p, code, s, 1, k + 1, st, none, s.locals, out);
    let l0 = s.locals.update(local_slot(s, out), none);
    lemma_load(p, code, s, 2, k + 2, st, l0, it);
    lemma_test(p, code, s, 3, k + 3, st, "__IterEager"@, args, l0, lazy, "__IterLazy"@);
    lemma_jump_when(p, code, s, 4, k + 4, st, false, l0, false, 26);
    lemma_load(p, code, s, 5, k + 31, st, l0, it);
    lemma_unary(p, code, s, 6, k + 32, st, v, l0, Op::GetVariantArg(0), Val::List(xs));
    lemma_store(p, code, s, 7, k + 33, st, Val::List(xs), l0, list);
    let l1 = l0.update(local_slot(s, list), Val::List(xs));
    lemma_load(p, code, s, 8, k + 34, st, l1, it);
    lemma_unary(p, code, s, 9, k + 35, st, v, l1, Op::GetVariantArg(1), Val::Int(i));
    lemma_store(p, code, s, 10, k + 36, st, Val::Int(i), l1, at_i);
}

/// One more element, or the end.
#[verifier::spinoff_prover]
#[verifier::rlimit(40)]
proof fn lemma_collect_turn(
    p: Program,
    code: Seq<Op>,
    s: State,
    d: Draft,
    it: u16,
    n: nat,
    out: Seq<Val>,
    xs: Seq<Val>,
    i: i64,
)
    requires
        poised(p, code, s, d, iter_to_list(d, it)),
        reaches(p, code, s, n, d.code.len() + 37, s.stack, collect_locals(s, d, out, xs, i)),
        0 <= i,
        xs.len() <= i64::MAX,
    ensures
        i < xs.len() ==> reaches(
            p,
            code,
            s,
            n + 16,
            d.code.len() + 37,
            s.stack,
            collect_locals(s, d, out.push(xs[i as int]), xs, (i + 1) as i64),
        ),
        i >= xs.len() ==> reaches(
            p,
            code,
            s,
            n + 6,
            d.code.len() + 54,
            s.stack.push(Val::List(out)),
            collect_locals(s, d, out, xs, i),
        ),
{
    let t = iter_to_list(d, it);
    let k = d.code.len();
    let st = s.stack;
    let lo = collect_locals(s, d, out, xs, i);
    let at_out = d.next_local;
    let list = (d.next_local + 5) as u16;
    let at_i = (d.next_local + 6) as u16;
    lemma_collect_ready(d, it);
    lemma_ops(p, code, s, t);
    lemma_tags(p, code, s, t);
    let one = t.code[k as int + 49]->PushConst_0;
    let len = xs.len() as i64;
    lemma_load(p, code, s, n, k + 37, st, lo, at_i);
    lemma_load(p, code, s, n + 1, k + 38, st.push(Val::Int(i)), lo, list);
    lemma_unary(
        p,
        code,
        s,
        n + 2,
        k + 39,
        st.push(Val::Int(i)),
        Val::List(xs),
        lo,
        Op::GetListLen,
        Val::Int(len),
    );
    let less = Val::Bool(i < len);
    lemma_binary(p, code, s, n + 3, k + 40, st, Val::Int(i), Val::Int(len), lo, Op::IntLt, less);
    lemma_jump_when(p, code, s, n + 4, k + 41, st, i < len, lo, false, 11);
    if i < xs.len() {
        let x = xs[i as int];
        let more = out.push(x);
        let s1 = st.push(Val::List(out));
        lemma_load(p, code, s, n + 5, k + 42, st, lo, at_out);
        lemma_load(p, code, s, n + 6, k + 43, s1, lo, list);
        lemma_load(p, code, s, n + 7, k + 44, s1.push(Val::List(xs)), lo, at_i);
        lemma_binary(
            p,
            code,
            s,
            n + 8,
            k + 45,
            s1,
            Val::List(xs),
            Val::Int(i),
            lo,
            Op::GetListElemDyn,
            x,
        );
        lemma_binary(
            p,
            code,
            s,
            n + 9,
            k + 46,
            st,
            Val::List(out),
            x,
            lo,
            Op::ListAppend,
            Val::List(more),
        );
        lemma_store(p, code, s, n + 10, k + 47, st, Val::List(more), lo, at_out);
        let l1 = collect_locals(s, d, more, xs, i);
        assert(lo.update(local_slot(s, at_out), Val::List(more)) =~= l1);
        lemma_load(p, code, s, n + 11, k + 48, st, l1, at_i);
        lemma_const(p, code, s, n + 12, k + 49, st.push(Val::Int(i)), l1, one, 1);
        let j = (i + 1) as i64;
        lemma_binary(p, code, s, n + 13, k + 50, st, Val::Int(i), Val::Int(1), l1, Op::IntAdd,
            Val::Int(j));
        lemma_store(p, code, s, n + 14, k + 51, st, Val::Int(j), l1, at_i);
        let l2 = collect_locals(s, d, more, xs, j);
        assert(l1.update(local_slot(s, at_i), Val::Int(j)) =~= l2);
        lemma_jump(p, code, s, n + 15, k + 52, st, l2, (-16) as i32);
    } else {
        lemma_load(p, code, s, n + 5, k + 53, st, lo, at_out);
    }
}

/// The elements from `i` on.
pub open spec fn rest_of(xs: Seq<Val>, i: i64) -> Seq<Val> {
    if i < xs.len() {
        xs.skip(i as int)
    } else {
        Seq::empty()
    }
}

/// The position behind the elements from `i` on.
pub open spec fn end_from(xs: Seq<Val>, i: i64) -> i64 {
    if i < xs.len() {
        xs.len() as i64
    } else {
        i
    }
}

/// All turns of the loop.
proof fn lemma_collect_loop(
    p: Program,
    code: Seq<Op>,
    s: State,
    d: Draft,
    it: u16,
    n: nat,
    out: Seq<Val>,
    xs: Seq<Val>,
    i: i64,
) -> (m: nat)
    requires
        poised(p, code, s, d, iter_to_list(d, it)),
        reaches(p, code, s, n, d.code.len() + 37, s.stack, collect_locals(s, d, out, xs, i)),
        0 <= i,
        xs.len() <= i64::MAX,
    ensures
        reaches(
            p,
            code,
            s,
            m,
            d.code.len() + 54,
            s.stack.push(Val::List(out + rest_of(xs, i))),
            collect_locals(s, d, out + rest_of(xs, i), xs, end_from(xs, i)),
        ),
    decreases xs.len() - i,
{
    lemma_collect_turn(p, code, s, d, it, n, out, xs, i);
    if i < xs.len() {
        let x = xs[i as int];
        let j = (i + 1) as i64;
        assert(out.push(x) + rest_of(xs, j) =~= out + rest_of(xs, i));
        lemma_collect_loop(p, code, s, d, it, n + 16, out.push(x), xs, j)
    } else {
        assert(out + rest_of(xs, i) =~= out);
        n + 6
    }
}

/// Law: the code that collects an iterator, run on a list iterator that stands
/// at `i`, leaves the list of the elements from `i` on. So a list that was made
/// an iterator comes back whole.
pub proof fn law_list_iterator_to_list(
    p: Program,
    code: Seq<Op>,
    s: State,
    d: Draft,
    it: u16,
    xs: Seq<Val>,
    i: i64,
)
    requires
        poised(p, code, s, d, iter_to_list(d, it)),
        it < d.next_local,
        s.locals[local_slot(s, it)] == eager(xs, i),
        0 <= i,
        xs.len() <= i64::MAX,
    ensures
        exists|n: nat| #[trigger]
            steps(p, code, s, n) == Some(
                at(
                    s,
                    iter_to_list(d, it).code.len(),
                    s.stack.push(Val::List(rest_of(xs, i))),
                    collect_locals(s, d, rest_of(xs, i), xs, end_from(xs, i)),
                ),
            ),
        i == 0 ==> rest_of(xs, i) == xs,
{
    lemma_collect_starts(p, code, s, d, it, xs, i);
    let n = lemma_collect_loop(p, code, s, d, it, 11, Seq::empty(), xs, i);
    assert(Seq::<Val>::empty() + rest_of(xs, i) =~= rest_of(xs, i));
    if i == 0 {
        assert(rest_of(xs, i) =~= xs);
    }
    lemma_collect_ready(d, it);
    lemma_reached(
        p,
        code,
        s,
        n,
        d.code.len() + 54,
        s.stack.push(Val::List(rest_of(xs, i))),
        collect_locals(s, d, rest_of(xs, i), xs, end_from(xs, i)),
    );
}

/// The locals of the code that skips elements: the list, the old position, the
/// sum and the new position.
pub open spec fn skip_locals(s: State, d: Draft, xs: Seq<Val>, i: i64, c: i64) -> Seq<Val> {
    s.locals.update(local_slot(s, d.next_local), Val::List(xs)).update(
        local_slot(s, (d.next_local + 1) as u16),
        Val::Int(i),
    ).update(local_slot(s, (d.next_local + 2) as u16), Val::Int((i + c) as i64)).update(
        local_slot(s, (d.next_local + 3) as u16),
        Val::Int(skipped_to(xs, i, c)),
    )
}

/// The position `c` elements behind `i`, or the end of the list.
pub open spec fn skipped_to(xs: Seq<Val>, i: i64, c: i64) -> i64 {
    if i + c < xs.len() {
        (i + c) as i64
    } else {
        xs.len() as i64
    }
}

/// Law: the code that skips elements, run on a list iterator that stands at
/// `i`, leaves the iterator that stands so many elements further on, or at the
/// end of the list.
#[verifier::spinoff_prover]
#[verifier::rlimit(60)]
pub proof fn law_list_iterator_skip(
    p: Program,
    code: Seq<Op>,
    s: State,
    d: Draft,
    it: u16,
    n: u16,
    xs: Seq<Val>,
    i: i64,
    c: i64,
)
    requires
        poised(p, code, s, d, iter_skip(d, it, n)),
        it < d.next_local,
        n < d.next_local,
        s.locals[local_slot(s, it)] == eager(xs, i),
        s.locals[local_slot(s, n)] == Val::Int(c),
        i64::MIN <= i + c <= i64::MAX,
        xs.len() <= i64::MAX,
    ensures
        exists|m: nat| #[trigger]
            steps(p, code, s, m) == Some(
                at(
                    s,
                    iter_skip(d, it, n).code.len(),
                    s.stack.push(eager(xs, skipped_to(xs, i, c))),
                    skip_locals(s, d, xs, i, c),
                ),
            ),
{
    let t = iter_skip(d, it, n);
    let k = d.code.len();
    let st = s.stack;
    let v = eager(xs, i);
    let len = Val::Int(xs.len() as i64);
    let sum = (i + c) as i64;
    let to = skipped_to(xs, i, c);
    let s1 = interned(d, Constant::VariantName("__IterEager"@));
    let eager_idx = number(d, Constant::VariantName("__IterEager"@));
    lemma_entered(d, Constant::VariantName("__IterEager"@));
    let s2 = with_local(s1, "__isk_list"@);
    let s3 = with_local(s2, "__isk_idx"@);
    let s4 = with_local(s3, "__isk_raw"@);
    lemma_fresh(s1, "__isk_list"@);
    lemma_fresh(s2, "__isk_idx"@);
    lemma_fresh(s3, "__isk_raw"@);
    lemma_fresh(s4, "__isk_ni"@);
    let list = d.next_local;
    let idx = (d.next_local + 1) as u16;
    let raw = (d.next_local + 2) as u16;
    let new_idx = (d.next_local + 3) as u16;
    lemma_ops(p, code, s, t);
    lemma_tags(p, code, s, t);
    lemma_start(p, code, s);
    assert(t.code[k as int] == Op::LoadLocal(it));
    assert(t.code[k as int + 1] == Op::GetVariantArg(0));
    assert(t.code[k as int + 2] == Op::StoreLocal(list));
    assert(t.code[k as int + 3] == Op::LoadLocal(it));
    assert(t.code[k as int + 4] == Op::GetVariantArg(1));
    assert(t.code[k as int + 5] == Op::StoreLocal(idx));
    assert(t.code[k as int + 6] == Op::LoadLocal(idx));
    assert(t.code[k as int + 7] == Op::LoadLocal(n));
    assert(t.code[k as int + 8] == Op::IntAdd);
    assert(t.code[k as int + 9] == Op::StoreLocal(raw));
    assert(t.code[k as int + 10] == Op::LoadLocal(raw));
    assert(t.code[k as int + 11] == Op::LoadLocal(list));
    assert(t.code[k as int + 12] == Op::GetListLen);
    assert(t.code[k as int + 13] == Op::IntLt);
    assert(t.code[k as int + 14] == Op::JumpIf(3));
    assert(t.code[k as int + 15] == Op::LoadLocal(list));
    assert(t.code[k as int + 16] == Op::GetListLen);
    assert(t.code[k as int + 17] == Op::Jump(1));
    assert(t.code[k as int + 18] == Op::LoadLocal(raw));
    assert(t.code[k as int + 19] == Op::StoreLocal(new_idx));
    assert(t.code[k as int + 20] == Op::LoadLocal(list));
    assert(t.code[k as int + 21] == Op::LoadLocal(new_idx));
    assert(t.code[k as int + 22] == Op::MakeVariant { name_idx: eager_idx, arity: 2 });
    let l0 = s.locals;
    lemma_load(p, code, s, 0, k, st, l0, it);
    lemma_unary(p, code, s, 1, k + 1, st, v, l0, Op::GetVariantArg(0), Val::List(xs));
    lemma_store(p, code, s, 2, k + 2, st, Val::List(xs), l0, list);
    let l1 = l0.update(local_slot(s, list), Val::List(xs));
    lemma_load(p, code, s, 3, k + 3, st, l1, it);
    lemma_unary(p, code, s, 4, k + 4, st, v, l1, Op::GetVariantArg(1), Val::Int(i));
    lemma_store(p, code, s, 5, k + 5, st, Val::Int(i), l1, idx);
    let l2 = l1.update(local_slot(s, idx), Val::Int(i));
    lemma_load(p, code, s, 6, k + 6, st, l2, idx);
    lemma_load(p, code, s, 7, k + 7, st.push(Val::Int(i)), l2, n);
    lemma_binary(p, code, s, 8, k + 8, st, Val::Int(i), Val::Int(c), l2, Op::IntAdd, Val::Int(sum));
    lemma_store(p, code, s, 9, k + 9, st, Val::Int(sum), l2, raw);
    let l3 = l2.update(local_slot(s, raw), Val::Int(sum));
    lemma_load(p, code, s, 10, k + 10, st, l3, raw);
    lemma_load(p, code, s, 11, k + 11, st.push(Val::Int(sum)), l3, list);
    lemma_unary(
        p,
        code,
        s,
        12,
        k + 12,
        st.push(Val::Int(sum)),
        Val::List(xs),
        l3,
        Op::GetListLen,
        len,
    );
    let less = sum < xs.len();
    lemma_binary(p, code, s, 13, k + 13, st, Val::Int(sum), len, l3, Op::IntLt, Val::Bool(less));
    lemma_jump_when(p, code, s, 14, k + 14, st, less, l3, true, 3);
    let m: nat = if less {
        lemma_load(p, code, s, 15, k + 18, st, l3, raw);
        16
    } else {
        lemma_load(p, code, s, 15, k + 15, st, l3, list);
        lemma_unary(p, code, s, 16, k + 16, st, Val::List(xs), l3, Op::GetListLen, len);
        lemma_jump(p, code, s, 17, k + 17, st.push(len), l3, 1);
        18
    };
    assert(reaches(p, code, s, m, k + 19, st.push(Val::Int(to)), l3));
    lemma_store(p, code, s, m, k + 19, st, Val::Int(to), l3, new_idx);
    let l4 = skip_locals(s, d, xs, i, c);
    lemma_load(p, code, s, m + 1, k + 20, st, l4, list);
    lemma_load(p, code, s, m + 2, k + 21, st.push(Val::List(xs)), l4, new_idx);
    let args = seq![Val::List(xs), Val::Int(to)];
    assert(st.push(Val::List(xs)).push(Val::Int(to)) =~= st + args);
    lemma_make_variant(p, code, s, m + 3, k + 22, st, args, l4, eager_idx, 2, "__IterEager"@);
    lemma_reached(p, code, s, m + 4, k + 23, st.push(eager(xs, to)), l4);
}

} // verus!
