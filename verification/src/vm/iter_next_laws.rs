//! What the code that gives the next element does when it runs on a lazy
//! iterator and on a cursor: what it asks, and what it makes of the answer.

use vstd::prelude::*;

use crate::compiler::draft::{interned, number, with_local, Draft};
use crate::compiler::iter_code::iter_next;
use crate::compiler::pool::Constant;
use crate::compiler::soundness::{fine, is_const};
use crate::op::Op;
use crate::program::Program;
use crate::value::Val;
use crate::vm::paths::{
    at, lemma_elem, lemma_entered, lemma_fresh, lemma_jump, lemma_jump_when, lemma_load,
    lemma_make_pair, lemma_make_variant, lemma_ops, lemma_reached, lemma_start, lemma_store,
    lemma_tags, lemma_test, lemma_unary, next_op, op_at, poised, stands, steps,
};
use crate::vm::records::{const_at, const_val};
use crate::vm::runs::variant;
use crate::vm::state::{goto, local_slot, State};

verus! {

/// The lazy iterator over a seed and a step function.
pub open spec fn lazy(seed: Val, step: Val) -> Val {
    variant("__IterLazy"@, seq![seed, step])
}

/// The iterator over a database cursor.
pub open spec fn cursor(handle: Val) -> Val {
    variant("__IterCursor"@, seq![handle])
}

pub open spec fn some(v: Val) -> Val {
    variant("Some"@, seq![v])
}

pub open spec fn none() -> Val {
    variant("None"@, Seq::empty())
}

/// A local of the code, counted from its first.
spec fn fresh(d: Draft, j: int) -> u16 {
    (d.next_local + j) as u16
}

/// The constants and locals of the code that gives the next element.
spec fn ready(d: Draft, it: u16) -> bool {
    let t = iter_next(d, it);
    let s1 = interned(d, Constant::VariantName("__IterLazy"@));
    let s2 = interned(s1, Constant::NodeId("n_iter_next_lazy"@));
    let s3 = interned(s2, Constant::VariantName("Some"@));
    let s4 = interned(s3, Constant::VariantName("None"@));
    let s5 = interned(s4, Constant::VariantName("__IterCursor"@));
    let s6 = interned(s5, Constant::Str("sql"@));
    let s7 = interned(s6, Constant::Str("cursor_next"@));
    let lazy_idx = number(d, Constant::VariantName("__IterLazy"@));
    let nid_lazy = number(s1, Constant::NodeId("n_iter_next_lazy"@));
    let some_idx = number(s2, Constant::VariantName("Some"@));
    let none_idx = number(s3, Constant::VariantName("None"@));
    let cursor_idx = number(s4, Constant::VariantName("__IterCursor"@));
    let kind_idx = number(s5, Constant::Str("sql"@));
    let op_idx = number(s6, Constant::Str("cursor_next"@));
    let nid_cursor = number(s7, Constant::NodeId("n_iter_next_cursor"@));
    let k = d.code.len() as int;
    &&& d.next_local + 8 <= t.peak_local
    &&& t.code.len() == k + 74
    &&& is_const(t.pool, lazy_idx, Constant::VariantName("__IterLazy"@))
    &&& is_const(t.pool, some_idx, Constant::VariantName("Some"@))
    &&& is_const(t.pool, none_idx, Constant::VariantName("None"@))
    &&& is_const(t.pool, cursor_idx, Constant::VariantName("__IterCursor"@))
    &&& is_const(t.pool, kind_idx, Constant::Str("sql"@))
    &&& is_const(t.pool, op_idx, Constant::Str("cursor_next"@))
    &&& t.code[k] == Op::LoadLocal(it)
    &&& t.code[k + 1] == Op::TestVariant(lazy_idx)
    &&& t.code[k + 2] == Op::JumpIfNot(27)
    &&& t.code[k + 3] == Op::LoadLocal(it)
    &&& t.code[k + 4] == Op::GetVariantArg(0)
    &&& t.code[k + 5] == Op::StoreLocal(fresh(d, 0))
    &&& t.code[k + 6] == Op::LoadLocal(it)
    &&& t.code[k + 7] == Op::GetVariantArg(1)
    &&& t.code[k + 8] == Op::StoreLocal(fresh(d, 1))
    &&& t.code[k + 9] == Op::LoadLocal(fresh(d, 1))
    &&& t.code[k + 10] == Op::LoadLocal(fresh(d, 0))
    &&& t.code[k + 11] == Op::CallClosure { arity: 1, node_id_idx: nid_lazy }
    &&& t.code[k + 12] == Op::StoreLocal(fresh(d, 2))
    &&& t.code[k + 13] == Op::LoadLocal(fresh(d, 2))
    &&& t.code[k + 14] == Op::TestVariant(some_idx)
    &&& t.code[k + 15] == Op::JumpIfNot(12)
    &&& t.code[k + 16] == Op::LoadLocal(fresh(d, 2))
    &&& t.code[k + 17] == Op::GetVariantArg(0)
    &&& t.code[k + 18] == Op::StoreLocal(fresh(d, 3))
    &&& t.code[k + 19] == Op::LoadLocal(fresh(d, 3))
    &&& t.code[k + 20] == Op::GetElem(0)
    &&& t.code[k + 21] == Op::LoadLocal(fresh(d, 3))
    &&& t.code[k + 22] == Op::GetElem(1)
    &&& t.code[k + 23] == Op::LoadLocal(fresh(d, 1))
    &&& t.code[k + 24] == Op::MakeVariant { name_idx: lazy_idx, arity: 2 }
    &&& t.code[k + 25] == Op::MakeTuple(2)
    &&& t.code[k + 26] == Op::MakeVariant { name_idx: some_idx, arity: 1 }
    &&& t.code[k + 27] == Op::Jump(46)
    &&& t.code[k + 28] == Op::MakeVariant { name_idx: none_idx, arity: 0 }
    &&& t.code[k + 29] == Op::Jump(44)
    &&& t.code[k + 30] == Op::LoadLocal(it)
    &&& t.code[k + 31] == Op::TestVariant(cursor_idx)
    &&& t.code[k + 32] == Op::JumpIfNot(18)
    &&& t.code[k + 33] == Op::LoadLocal(it)
    &&& t.code[k + 34] == Op::GetVariantArg(0)
    &&& t.code[k + 35] == Op::StoreLocal(fresh(d, 4))
    &&& t.code[k + 36] == Op::LoadLocal(fresh(d, 4))
    &&& t.code[k + 37] == Op::EffectCall { kind_idx, op_idx, arity: 1, node_id_idx: nid_cursor }
    &&& t.code[k + 38] == Op::StoreLocal(fresh(d, 5))
    &&& t.code[k + 39] == Op::LoadLocal(fresh(d, 5))
    &&& t.code[k + 40] == Op::TestVariant(some_idx)
    &&& t.code[k + 41] == Op::JumpIfNot(7)
    &&& t.code[k + 42] == Op::LoadLocal(fresh(d, 5))
    &&& t.code[k + 43] == Op::GetVariantArg(0)
    &&& t.code[k + 44] == Op::LoadLocal(fresh(d, 4))
    &&& t.code[k + 45] == Op::MakeVariant { name_idx: cursor_idx, arity: 1 }
    &&& t.code[k + 46] == Op::MakeTuple(2)
    &&& t.code[k + 47] == Op::MakeVariant { name_idx: some_idx, arity: 1 }
    &&& t.code[k + 48] == Op::Jump(25)
    &&& t.code[k + 49] == Op::MakeVariant { name_idx: none_idx, arity: 0 }
    &&& t.code[k + 50] == Op::Jump(23)
}

proof fn lemma_ready(d: Draft, it: u16)
    requires
        fine(iter_next(d, it)),
    ensures
        ready(d, it),
{
    let s1 = interned(d, Constant::VariantName("__IterLazy"@));
    let s2 = interned(s1, Constant::NodeId("n_iter_next_lazy"@));
    let s3 = interned(s2, Constant::VariantName("Some"@));
    let s4 = interned(s3, Constant::VariantName("None"@));
    let s5 = interned(s4, Constant::VariantName("__IterCursor"@));
    let s6 = interned(s5, Constant::Str("sql"@));
    let s7 = interned(s6, Constant::Str("cursor_next"@));
    let s8 = interned(s7, Constant::NodeId("n_iter_next_cursor"@));
    let s9 = interned(s8, Constant::Int(1));
    let s10 = interned(s9, Constant::VariantName("__IterEager"@));
    lemma_entered(d, Constant::VariantName("__IterLazy"@));
    lemma_entered(s1, Constant::NodeId("n_iter_next_lazy"@));
    lemma_entered(s2, Constant::VariantName("Some"@));
    lemma_entered(s3, Constant::VariantName("None"@));
    lemma_entered(s4, Constant::VariantName("__IterCursor"@));
    lemma_entered(s5, Constant::Str("sql"@));
    lemma_entered(s6, Constant::Str("cursor_next"@));
    lemma_entered(s7, Constant::NodeId("n_iter_next_cursor"@));
    lemma_entered(s8, Constant::Int(1));
    lemma_entered(s9, Constant::VariantName("__IterEager"@));
    let s11 = with_local(s10, "__in_seed"@);
    let s12 = with_local(s11, "__in_step"@);
    let s13 = with_local(s12, "__in_opt"@);
    let s14 = with_local(s13, "__in_pair"@);
    let s15 = with_local(s14, "__in_handle"@);
    let s16 = with_local(s15, "__in_cur_opt"@);
    let s17 = with_local(s16, "__in_list"@);
    lemma_fresh(s10, "__in_seed"@);
    lemma_fresh(s11, "__in_step"@);
    lemma_fresh(s12, "__in_opt"@);
    lemma_fresh(s13, "__in_pair"@);
    lemma_fresh(s14, "__in_handle"@);
    lemma_fresh(s15, "__in_cur_opt"@);
    lemma_fresh(s16, "__in_list"@);
    lemma_fresh(s17, "__in_idx"@);
}

/// The locals once the code has read a lazy iterator.
pub open spec fn lazy_locals(s: State, d: Draft, seed: Val, step: Val) -> Seq<Val> {
    s.locals.update(local_slot(s, d.next_local), seed).update(
        local_slot(s, (d.next_local + 1) as u16),
        step,
    )
}

/// Law: the code that gives the next element of an iterator, run on a lazy
/// iterator, comes to the call of the step function on the seed.
#[verifier::spinoff_prover]
pub proof fn law_next_of_a_lazy_iterator_calls_its_step(
    p: Program,
    code: Seq<Op>,
    s: State,
    d: Draft,
    it: u16,
    seed: Val,
    step: Val,
)
    requires
        poised(p, code, s, d, iter_next(d, it)),
        it < d.next_local,
        s.locals[local_slot(s, it)] == lazy(seed, step),
    ensures
        exists|n: nat| #[trigger]
            steps(p, code, s, n) == Some(
                at(
                    s,
                    d.code.len() + 11,
                    s.stack.push(step).push(seed),
                    lazy_locals(s, d, seed, step),
                ),
            ),
        next_op(code, goto(s, d.code.len() + 11)) matches Some(Op::CallClosure { arity, .. })
            && arity
            == 1,
{
    let t = iter_next(d, it);
    let k = d.code.len();
    let st = s.stack;
    let v = lazy(seed, step);
    let args = seq![seed, step];
    lemma_ready(d, it);
    lemma_ops(p, code, s, t);
    lemma_tags(p, code, s, t);
    lemma_start(p, code, s);
    let lazy_idx = t.code[k as int + 1]->TestVariant_0;
    let l0 = s.locals;
    lemma_load(p, code, s, 0, k, st, l0, it);
    lemma_test(p, code, s, 1, k + 1, st, "__IterLazy"@, args, l0, lazy_idx, "__IterLazy"@);
    lemma_jump_when(p, code, s, 2, k + 2, st, true, l0, false, 27);
    lemma_load(p, code, s, 3, k + 3, st, l0, it);
    lemma_unary(p, code, s, 4, k + 4, st, v, l0, Op::GetVariantArg(0), seed);
    lemma_store(p, code, s, 5, k + 5, st, seed, l0, fresh(d, 0));
    let l1 = l0.update(local_slot(s, fresh(d, 0)), seed);
    lemma_load(p, code, s, 6, k + 6, st, l1, it);
    lemma_unary(p, code, s, 7, k + 7, st, v, l1, Op::GetVariantArg(1), step);
    lemma_store(p, code, s, 8, k + 8, st, step, l1, fresh(d, 1));
    let l2 = lazy_locals(s, d, seed, step);
    lemma_load(p, code, s, 9, k + 9, st, l2, fresh(d, 1));
    lemma_load(p, code, s, 10, k + 10, st.push(step), l2, fresh(d, 0));
    assert(op_at(code, s, k + 11, t.code[k as int + 11]));
    lemma_reached(p, code, s, 11, k + 11, st.push(step).push(seed), l2);
}

/// Law: once the step function of a lazy iterator has given `Some` of an
/// element and a seed, the code leaves `Some` of the element and the lazy
/// iterator over that seed.
#[verifier::spinoff_prover]
#[verifier::rlimit(60)]
pub proof fn law_lazy_iterator_goes_on_from_the_seed(
    p: Program,
    code: Seq<Op>,
    s: State,
    d: Draft,
    it: u16,
    st: Seq<Val>,
    x: Val,
    seed: Val,
    step: Val,
)
    requires
        stands(p, code, s, iter_next(d, it), d.code.len() + 12),
        s.locals[local_slot(s, (d.next_local + 1) as u16)] == step,
        s.stack == st.push(some(Val::Tuple(seq![x, seed]))),
    ensures
        exists|n: nat| #[trigger]
            steps(p, code, s, n) == Some(
                at(
                    s,
                    iter_next(d, it).code.len(),
                    st.push(some(Val::Tuple(seq![x, lazy(seed, step)]))),
                    s.locals.update(
                        local_slot(s, (d.next_local + 2) as u16),
                        some(Val::Tuple(seq![x, seed])),
                    ).update(local_slot(s, (d.next_local + 3) as u16), Val::Tuple(seq![x, seed])),
                ),
            ),
{
    let t = iter_next(d, it);
    let k = d.code.len();
    let items = seq![x, seed];
    let pair = Val::Tuple(items);
    let opt = some(pair);
    lemma_ready(d, it);
    lemma_ops(p, code, s, t);
    lemma_tags(p, code, s, t);
    lemma_start(p, code, s);
    let some_idx = t.code[k as int + 14]->TestVariant_0;
    let lazy_idx = t.code[k as int + 1]->TestVariant_0;
    lemma_store(p, code, s, 0, k + 12, st, opt, s.locals, fresh(d, 2));
    let l1 = s.locals.update(local_slot(s, fresh(d, 2)), opt);
    lemma_load(p, code, s, 1, k + 13, st, l1, fresh(d, 2));
    lemma_test(p, code, s, 2, k + 14, st, "Some"@, seq![pair], l1, some_idx, "Some"@);
    lemma_jump_when(p, code, s, 3, k + 15, st, true, l1, false, 12);
    lemma_load(p, code, s, 4, k + 16, st, l1, fresh(d, 2));
    lemma_unary(p, code, s, 5, k + 17, st, opt, l1, Op::GetVariantArg(0), pair);
    lemma_store(p, code, s, 6, k + 18, st, pair, l1, fresh(d, 3));
    let l2 = l1.update(local_slot(s, fresh(d, 3)), pair);
    lemma_load(p, code, s, 7, k + 19, st, l2, fresh(d, 3));
    lemma_elem(p, code, s, 8, k + 20, st, items, l2, 0);
    let s1 = st.push(x);
    lemma_load(p, code, s, 9, k + 21, s1, l2, fresh(d, 3));
    lemma_elem(p, code, s, 10, k + 22, s1, items, l2, 1);
    lemma_load(p, code, s, 11, k + 23, s1.push(seed), l2, fresh(d, 1));
    let args = seq![seed, step];
    assert(s1.push(seed).push(step) =~= s1 + args);
    lemma_make_variant(p, code, s, 12, k + 24, s1, args, l2, lazy_idx, 2, "__IterLazy"@);
    let more = lazy(seed, step);
    let next = Val::Tuple(seq![x, more]);
    lemma_make_pair(p, code, s, 13, k + 25, st, x, more, l2);
    assert(st.push(next) =~= st + seq![next]);
    lemma_make_variant(p, code, s, 14, k + 26, st, seq![next], l2, some_idx, 1, "Some"@);
    lemma_jump(p, code, s, 15, k + 27, st.push(some(next)), l2, 46);
    lemma_reached(p, code, s, 16, k + 74, st.push(some(next)), l2);
}

/// Law: once the step function of a lazy iterator has given `None`, the code
/// leaves `None`.
#[verifier::spinoff_prover]
pub proof fn law_lazy_iterator_ends(p: Program, code: Seq<Op>, s: State, d: Draft, it: u16,
    st: Seq<Val>)
    requires
        stands(p, code, s, iter_next(d, it), d.code.len() + 12),
        s.stack == st.push(none()),
    ensures
        exists|n: nat| #[trigger]
            steps(p, code, s, n) == Some(
                at(
                    s,
                    iter_next(d, it).code.len(),
                    st.push(none()),
                    s.locals.update(local_slot(s, (d.next_local + 2) as u16), none()),
                ),
            ),
{
    let t = iter_next(d, it);
    let k = d.code.len();
    lemma_ready(d, it);
    lemma_ops(p, code, s, t);
    lemma_tags(p, code, s, t);
    lemma_start(p, code, s);
    lemma_tags_differ();
    let some_idx = t.code[k as int + 14]->TestVariant_0;
    let none_idx = t.code[k as int + 28]->MakeVariant_name_idx;
    lemma_store(p, code, s, 0, k + 12, st, none(), s.locals, fresh(d, 2));
    let l1 = s.locals.update(local_slot(s, fresh(d, 2)), none());
    lemma_load(p, code, s, 1, k + 13, st, l1, fresh(d, 2));
    lemma_test(p, code, s, 2, k + 14, st, "None"@, Seq::empty(), l1, some_idx, "Some"@);
    lemma_jump_when(p, code, s, 3, k + 15, st, false, l1, false, 12);
    assert(st =~= st + Seq::<Val>::empty());
    lemma_make_variant(p, code, s, 4, k + 28, st, Seq::empty(), l1, none_idx, 0, "None"@);
    lemma_jump(p, code, s, 5, k + 29, st.push(none()), l1, 44);
    lemma_reached(p, code, s, 6, k + 74, st.push(none()), l1);
}

proof fn lemma_tags_differ()
    ensures
        "None"@ != "Some"@,
        "__IterLazy"@ != "__IterCursor"@,
{
    reveal_strlit("None");
    reveal_strlit("Some");
    reveal_strlit("__IterLazy");
    reveal_strlit("__IterCursor");
    assert("None"@[0] != "Some"@[0]);
    assert("__IterLazy"@.len() != "__IterCursor"@.len());
}

/// Law: the code that gives the next element of an iterator, run on a cursor,
/// comes to the effect `sql.cursor_next` on the handle of the cursor.
#[verifier::spinoff_prover]
pub proof fn law_next_of_a_cursor_asks_the_database(
    p: Program,
    code: Seq<Op>,
    s: State,
    d: Draft,
    it: u16,
    handle: Val,
)
    requires
        poised(p, code, s, d, iter_next(d, it)),
        it < d.next_local,
        s.locals[local_slot(s, it)] == cursor(handle),
    ensures
        exists|n: nat| #[trigger]
            steps(p, code, s, n) == Some(
                at(
                    s,
                    d.code.len() + 37,
                    s.stack.push(handle),
                    s.locals.update(local_slot(s, (d.next_local + 4) as u16), handle),
                ),
            ),
        next_op(code, goto(s, d.code.len() + 37)) matches Some(
            Op::EffectCall { kind_idx, op_idx, arity, .. },
        ) && arity == 1 && text_at(p, kind_idx, "sql"@) && text_at(p, op_idx, "cursor_next"@),
{
    let t = iter_next(d, it);
    let k = d.code.len();
    let st = s.stack;
    let v = cursor(handle);
    let args = seq![handle];
    lemma_ready(d, it);
    lemma_ops(p, code, s, t);
    lemma_tags(p, code, s, t);
    lemma_start(p, code, s);
    lemma_tags_differ();
    let lazy_idx = t.code[k as int + 1]->TestVariant_0;
    let cursor_idx = t.code[k as int + 31]->TestVariant_0;
    let l0 = s.locals;
    lemma_load(p, code, s, 0, k, st, l0, it);
    lemma_test(p, code, s, 1, k + 1, st, "__IterCursor"@, args, l0, lazy_idx, "__IterLazy"@);
    lemma_jump_when(p, code, s, 2, k + 2, st, false, l0, false, 27);
    lemma_load(p, code, s, 3, k + 30, st, l0, it);
    lemma_test(p, code, s, 4, k + 31, st, "__IterCursor"@, args, l0, cursor_idx, "__IterCursor"@);
    lemma_jump_when(p, code, s, 5, k + 32, st, true, l0, false, 18);
    lemma_load(p, code, s, 6, k + 33, st, l0, it);
    lemma_unary(p, code, s, 7, k + 34, st, v, l0, Op::GetVariantArg(0), handle);
    lemma_store(p, code, s, 8, k + 35, st, handle, l0, fresh(d, 4));
    let l1 = l0.update(local_slot(s, fresh(d, 4)), handle);
    lemma_load(p, code, s, 9, k + 36, st, l1, fresh(d, 4));
    lemma_reached(p, code, s, 10, k + 37, st.push(handle), l1);
    assert(op_at(code, s, k + 37, t.code[k as int + 37]));
    let kind_idx = t.code[k as int + 37]->EffectCall_kind_idx;
    let op_idx = t.code[k as int + 37]->EffectCall_op_idx;
    assert(p.constants@[kind_idx as int]@ == t.pool.consts[kind_idx as int]);
    assert(p.constants@[op_idx as int]@ == t.pool.consts[op_idx as int]);
}

/// A text among the constants of a program.
pub open spec fn text_at(p: Program, i: u32, text: Seq<char>) -> bool {
    const_at(p, i) matches Some(c) && const_val(c) == Val::Str(text)
}

/// Law: once the database has answered for a cursor, the code leaves `Some` of
/// the row and the same cursor, or `None`.
#[verifier::spinoff_prover]
#[verifier::rlimit(60)]
pub proof fn law_cursor_goes_on(
    p: Program,
    code: Seq<Op>,
    s: State,
    d: Draft,
    it: u16,
    st: Seq<Val>,
    row: Option<Val>,
    handle: Val,
)
    requires
        stands(p, code, s, iter_next(d, it), d.code.len() + 38),
        s.locals[local_slot(s, (d.next_local + 4) as u16)] == handle,
        s.stack == st.push(
            match row {
                Some(x) => some(x),
                None => none(),
            },
        ),
    ensures
        exists|n: nat| #[trigger]
            steps(p, code, s, n) == Some(
                at(
                    s,
                    iter_next(d, it).code.len(),
                    st.push(
                        match row {
                            Some(x) => some(Val::Tuple(seq![x, cursor(handle)])),
                            None => none(),
                        },
                    ),
                    s.locals.update(
                        local_slot(s, (d.next_local + 5) as u16),
                        match row {
                            Some(x) => some(x),
                            None => none(),
                        },
                    ),
                ),
            ),
{
    let t = iter_next(d, it);
    let k = d.code.len();
    lemma_ready(d, it);
    lemma_ops(p, code, s, t);
    lemma_tags(p, code, s, t);
    lemma_start(p, code, s);
    lemma_tags_differ();
    let some_idx = t.code[k as int + 40]->TestVariant_0;
    let none_idx = t.code[k as int + 49]->MakeVariant_name_idx;
    let cursor_idx = t.code[k as int + 31]->TestVariant_0;
    match row {
        Some(x) => {
            let opt = some(x);
            lemma_store(p, code, s, 0, k + 38, st, opt, s.locals, fresh(d, 5));
            let l1 = s.locals.update(local_slot(s, fresh(d, 5)), opt);
            lemma_load(p, code, s, 1, k + 39, st, l1, fresh(d, 5));
            lemma_test(p, code, s, 2, k + 40, st, "Some"@, seq![x], l1, some_idx, "Some"@);
            lemma_jump_when(p, code, s, 3, k + 41, st, true, l1, false, 7);
            lemma_load(p, code, s, 4, k + 42, st, l1, fresh(d, 5));
            lemma_unary(p, code, s, 5, k + 43, st, opt, l1, Op::GetVariantArg(0), x);
            let s1 = st.push(x);
            lemma_load(p, code, s, 6, k + 44, s1, l1, fresh(d, 4));
            let args = seq![handle];
            assert(s1.push(handle) =~= s1 + args);
            lemma_make_variant(p, code, s, 7, k + 45, s1, args, l1, cursor_idx, 1, "__IterCursor"@);
            let next = Val::Tuple(seq![x, cursor(handle)]);
            lemma_make_pair(p, code, s, 8, k + 46, st, x, cursor(handle), l1);
            assert(st.push(next) =~= st + seq![next]);
            lemma_make_variant(p, code, s, 9, k + 47, st, seq![next], l1, some_idx, 1, "Some"@);
            lemma_jump(p, code, s, 10, k + 48, st.push(some(next)), l1, 25);
            lemma_reached(p, code, s, 11, k + 74, st.push(some(next)), l1);
        },
        None => {
            lemma_store(p, code, s, 0, k + 38, st, none(), s.locals, fresh(d, 5));
            let l1 = s.locals.update(local_slot(s, fresh(d, 5)), none());
            lemma_load(p, code, s, 1, k + 39, st, l1, fresh(d, 5));
            lemma_test(p, code, s, 2, k + 40, st, "None"@, Seq::empty(), l1, some_idx, "Some"@);
            lemma_jump_when(p, code, s, 3, k + 41, st, false, l1, false, 7);
            assert(st =~= st + Seq::<Val>::empty());
            lemma_make_variant(p, code, s, 4, k + 49, st, Seq::empty(), l1, none_idx, 0, "None"@);
            lemma_jump(p, code, s, 5, k + 50, st.push(none()), l1, 23);
            lemma_reached(p, code, s, 6, k + 74, st.push(none()), l1);
        },
    }
}

} // verus!
