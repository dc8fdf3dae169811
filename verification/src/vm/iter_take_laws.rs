//! What the code that takes elements does when it runs on a list iterator.

use vstd::prelude::*;

use crate::compiler::draft::{interned, number, with_local, Draft};
use crate::compiler::iter_code::iter_take;
use crate::compiler::pool::Constant;
use crate::compiler::soundness::{fine, is_const};
use crate::op::Op;
use crate::program::Program;
use crate::value::Val;
use crate::vm::iter_laws::eager;
use crate::vm::paths::{
    at, lemma_binary, lemma_const, lemma_entered, lemma_fresh, lemma_jump, lemma_jump_when,
    lemma_load, lemma_make_variant, lemma_no_items, lemma_ops, lemma_reached, lemma_start,
    lemma_store, lemma_tags, lemma_unary, poised, reaches, steps,
};
use crate::vm::state::{local_slot, State};

verus! {

/// The elements from `i` on, up to `c` of them.
pub open spec fn taken(xs: Seq<Val>, i: i64, c: int) -> Seq<Val> {
    if i < xs.len() && c > 0 {
        xs.subrange(
            i as int,
            if i + c < xs.len() {
                i + c
            } else {
                xs.len() as int
            },
        )
    } else {
        Seq::empty()
    }
}

/// The locals of the code that takes elements: the list, the position, what
/// was taken and how much.
pub open spec fn take_locals(
    s: State,
    d: Draft,
    xs: Seq<Val>,
    i: i64,
    out: Seq<Val>,
    cnt: i64,
) -> Seq<Val> {
    s.locals.update(local_slot(s, d.next_local), Val::List(xs)).update(
        local_slot(s, (d.next_local + 1) as u16),
        Val::Int(i),
    ).update(local_slot(s, (d.next_local + 2) as u16), Val::List(out)).update(
        local_slot(s, (d.next_local + 3) as u16),
        Val::Int(cnt),
    )
}

/// The constants and locals of the code that takes elements.
spec fn take_ready(d: Draft, it: u16, n: u16) -> bool {
    let t = iter_take(d, it, n);
    let s1 = interned(d, Constant::Int(0));
    let s2 = interned(s1, Constant::Int(1));
    let zero = number(d, Constant::Int(0));
    let one = number(s1, Constant::Int(1));
    let eager_idx = number(s2, Constant::VariantName("__IterEager"@));
    let list = d.next_local;
    let i = (d.next_local + 1) as u16;
    let out = (d.next_local + 2) as u16;
    let cnt = (d.next_local + 3) as u16;
    let k = d.code.len() as int;
    &&& d.next_local + 4 <= t.peak_local
    &&& t.code.len() == k + 37
    &&& is_const(t.pool, zero, Constant::Int(0))
    &&& is_const(t.pool, one, Constant::Int(1))
    &&& is_const(t.pool, eager_idx, Constant::VariantName("__IterEager"@))
    &&& t.code[k] == Op::LoadLocal(it)
    &&& t.code[k + 1] == Op::GetVariantArg(0)
    &&& t.code[k + 2] == Op::StoreLocal(list)
    &&& t.code[k + 3] == Op::LoadLocal(it)
    &&& t.code[k + 4] == Op::GetVariantArg(1)
    &&& t.code[k + 5] == Op::StoreLocal(i)
    &&& t.code[k + 6] == Op::MakeList(0)
    &&& t.code[k + 7] == Op::StoreLocal(out)
    &&& t.code[k + 8] == Op::PushConst(zero)
    &&& t.code[k + 9] == Op::StoreLocal(cnt)
    &&& t.code[k + 10] == Op::LoadLocal(cnt)
    &&& t.code[k + 11] == Op::LoadLocal(n)
    &&& t.code[k + 12] == Op::IntLt
    &&& t.code[k + 13] == Op::JumpIfNot(20)
    &&& t.code[k + 14] == Op::LoadLocal(i)
    &&& t.code[k + 15] == Op::LoadLocal(list)
    &&& t.code[k + 16] == Op::GetListLen
    &&& t.code[k + 17] == Op::IntLt
    &&& t.code[k + 18] == Op::JumpIfNot(15)
    &&& t.code[k + 19] == Op::LoadLocal(out)
    &&& t.code[k + 20] == Op::LoadLocal(list)
    &&& t.code[k + 21] == Op::LoadLocal(i)
    &&& t.code[k + 22] == Op::GetListElemDyn
    &&& t.code[k + 23] == Op::ListAppend
    &&& t.code[k + 24] == Op::StoreLocal(out)
    &&& t.code[k + 25] == Op::LoadLocal(i)
    &&& t.code[k + 26] == Op::PushConst(one)
    &&& t.code[k + 27] == Op::IntAdd
    &&& t.code[k + 28] == Op::StoreLocal(i)
    &&& t.code[k + 29] == Op::LoadLocal(cnt)
    &&& t.code[k + 30] == Op::PushConst(one)
    &&& t.code[k + 31] == Op::IntAdd
    &&& t.code[k + 32] == Op::StoreLocal(cnt)
    &&& t.code[k + 33] == Op::Jump((-24) as i32)
    &&& t.code[k + 34] == Op::LoadLocal(out)
    &&& t.code[k + 35] == Op::PushConst(zero)
    &&& t.code[k + 36] == Op::MakeVariant { name_idx: eager_idx, arity: 2 }
}

proof fn lemma_take_ready(d: Draft, it: u16, n: u16)
    requires
        fine(iter_take(d, it, n)),
    ensures
        take_ready(d, it, n),
{
    let s1 = interned(d, Constant::Int(0));
    let s2 = interned(s1, Constant::Int(1));
    let s3 = interned(s2, Constant::VariantName("__IterEager"@));
    lemma_entered(d, Constant::Int(0));
    lemma_entered(s1, Constant::Int(1));
    lemma_entered(s2, Constant::VariantName("__IterEager"@));
    let s4 = with_local(s3, "__itk_list"@);
    let s5 = with_local(s4, "__itk_i"@);
    let s6 = with_local(s5, "__itk_out"@);
    lemma_fresh(s3, "__itk_list"@);
    lemma_fresh(s4, "__itk_i"@);
    lemma_fresh(s5, "__itk_out"@);
    lemma_fresh(s6, "__itk_cnt"@);
}

/// Up to the loop.
#[verifier::spinoff_prover]
proof fn lemma_take_starts(p: Program, code: Seq<Op>, s: State, d: Draft, it: u16, n: u16,
    xs: Seq<Val>, i: i64)
    requires
        poised(p, code, s, d, iter_take(d, it, n)),
        it < d.next_local,
        s.locals[local_slot(s, it)] == eager(xs, i),
    ensures
        reaches(p, code, s, 10, d.code.len() + 10, s.stack, take_locals(s, d, xs, i, Seq::empty(),
            0)),
{
    let t = iter_take(d, it, n);
    let k = d.code.len();
    let st = s.stack;
    let v = eager(xs, i);
    let list = d.next_local;
    let at_i = (d.next_local + 1) as u16;
    let out = (d.next_local + 2) as u16;
    let cnt = (d.next_local + 3) as u16;
    lemma_take_ready(d, it, n);
    lemma_ops(p, code, s, t);
    lemma_tags(p, code, s, t);
    lemma_start(p, code, s);
    let zero = t.code[k as int + 8]->PushConst_0;
    let none = Val::List(Seq::empty());
    let l0 = s.locals;
    lemma_load(p, code, s, 0, k, st, l0, it);
    lemma_unary(p, code, s, 1, k + 1, st, v, l0, Op::GetVariantArg(0), Val::List(xs));
    lemma_store(p, code, s, 2, k + 2, st, Val::List(xs), l0, list);
    let l1 = l0.update(local_slot(s, list), Val::List(xs));
    lemma_load(p, code, s, 3, k + 3, st, l1, it);
    lemma_unary(p, code, s, 4, k + 4, st, v, l1, Op::GetVariantArg(1), Val::Int(i));
    lemma_store(p, code, s, 5, k + 5, st, Val::Int(i), l1, at_i);
    let l2 = l1.update(local_slot(s, at_i), Val::Int(i));
    lemma_no_items(p, code, s, 6, k + 6, st, l2);
    lemma_store(p, code, s, 7, k + 7, st, none, l2, out);
    let l3 = l2.update(local_slot(s, out), none);
    lemma_const(p, code, s, 8, k + 8, st, l3, zero, 0);
    lemma_store(p, code, s, 9, k + 9, st, Val::Int(0), l3, cnt);
}

/// Whether one more element is taken.
#[verifier::spinoff_prover]
#[verifier::rlimit(40)]
proof fn lemma_take_asks(
    p: Program,
    code: Seq<Op>,
    s: State,
    d: Draft,
    it: u16,
    n: u16,
    m: nat,
    xs: Seq<Val>,
    i: i64,
    out: Seq<Val>,
    cnt: i64,
    c: i64,
) -> (r: nat)
    requires
        poised(p, code, s, d, iter_take(d, it, n)),
        n < d.next_local,
        s.locals[local_slot(s, n)] == Val::Int(c),
        reaches(p, code, s, m, d.code.len() + 10, s.stack, take_locals(s, d, xs, i, out, cnt)),
        xs.len() <= i64::MAX,
    ensures
        reaches(
            p,
            code,
            s,
            r,
            d.code.len() + (if cnt < c && i < xs.len() {
                19nat
            } else {
                34nat
            }),
            s.stack,
            take_locals(s, d, xs, i, out, cnt),
        ),
{
    let t = iter_take(d, it, n);
    let k = d.code.len();
    let st = s.stack;
    let lo = take_locals(s, d, xs, i, out, cnt);
    let list = d.next_local;
    let at_i = (d.next_local + 1) as u16;
    let at_cnt = (d.next_local + 3) as u16;
    lemma_take_ready(d, it, n);
    lemma_ops(p, code, s, t);
    assert(lo[local_slot(s, n)] == Val::Int(c));
    lemma_load(p, code, s, m, k + 10, st, lo, at_cnt);
    lemma_load(p, code, s, m + 1, k + 11, st.push(Val::Int(cnt)), lo, n);
    let open = cnt < c;
    lemma_binary(p, code, s, m + 2, k + 12, st, Val::Int(cnt), Val::Int(c), lo, Op::IntLt,
        Val::Bool(open));
    lemma_jump_when(p, code, s, m + 3, k + 13, st, open, lo, false, 20);
    if open {
        let len = xs.len() as i64;
        lemma_load(p, code, s, m + 4, k + 14, st, lo, at_i);
        lemma_load(p, code, s, m + 5, k + 15, st.push(Val::Int(i)), lo, list);
        lemma_unary(
            p,
            code,
            s,
            m + 6,
            k + 16,
            st.push(Val::Int(i)),
            Val::List(xs),
            lo,
            Op::GetListLen,
            Val::Int(len),
        );
        let less = Val::Bool(i < len);
        lemma_binary(p, code, s, m + 7, k + 17, st, Val::Int(i), Val::Int(len), lo, Op::IntLt,
            less);
        lemma_jump_when(p, code, s, m + 8, k + 18, st, i < len, lo, false, 15);
        m + 9
    } else {
        m + 4
    }
}

/// One more element.
#[verifier::spinoff_prover]
#[verifier::rlimit(60)]
proof fn lemma_take_turn(
    p: Program,
    code: Seq<Op>,
    s: State,
    d: Draft,
    it: u16,
    n: u16,
    m: nat,
    xs: Seq<Val>,
    i: i64,
    out: Seq<Val>,
    cnt: i64,
)
    requires
        poised(p, code, s, d, iter_take(d, it, n)),
        reaches(p, code, s, m, d.code.len() + 19, s.stack, take_locals(s, d, xs, i, out, cnt)),
        0 <= i < xs.len() <= i64::MAX,
        0 <= cnt < i64::MAX,
    ensures
        reaches(
            p,
            code,
            s,
            m + 15,
            d.code.len() + 10,
            s.stack,
            take_locals(s, d, xs, (i + 1) as i64, out.push(xs[i as int]), (cnt + 1) as i64),
        ),
{
    let t = iter_take(d, it, n);
    let k = d.code.len();
    let st = s.stack;
    let lo = take_locals(s, d, xs, i, out, cnt);
    let list = d.next_local;
    let at_i = (d.next_local + 1) as u16;
    let at_out = (d.next_local + 2) as u16;
    let at_cnt = (d.next_local + 3) as u16;
    lemma_take_ready(d, it, n);
    lemma_ops(p, code, s, t);
    lemma_tags(p, code, s, t);
    let one = t.code[k as int + 26]->PushConst_0;
    let x = xs[i as int];
    let more = out.push(x);
    let j = (i + 1) as i64;
    let count = (cnt + 1) as i64;
    let s1 = st.push(Val::List(out));
    lemma_load(p, code, s, m, k + 19, st, lo, at_out);
    lemma_load(p, code, s, m + 1, k + 20, s1, lo, list);
    lemma_load(p, code, s, m + 2, k + 21, s1.push(Val::List(xs)), lo, at_i);
    lemma_binary(
        p,
        code,
        s,
        m + 3,
        k + 22,
        s1,
        Val::List(xs),
        Val::Int(i),
        lo,
        Op::GetListElemDyn,
        x,
    );
    lemma_binary(
        p,
        code,
        s,
        m + 4,
        k + 23,
        st,
        Val::List(out),
        x,
        lo,
        Op::ListAppend,
        Val::List(more),
    );
    lemma_store(p, code, s, m + 5, k + 24, st, Val::List(more), lo, at_out);
    let l1 = take_locals(s, d, xs, i, more, cnt);
    assert(lo.update(local_slot(s, at_out), Val::List(more)) =~= l1);
    lemma_load(p, code, s, m + 6, k + 25, st, l1, at_i);
    lemma_const(p, code, s, m + 7, k + 26, st.push(Val::Int(i)), l1, one, 1);
    lemma_binary(p, code, s, m + 8, k + 27, st, Val::Int(i), Val::Int(1), l1, Op::IntAdd,
        Val::Int(j));
    lemma_store(p, code, s, m + 9, k + 28, st, Val::Int(j), l1, at_i);
    let l2 = take_locals(s, d, xs, j, more, cnt);
    assert(l1.update(local_slot(s, at_i), Val::Int(j)) =~= l2);
    lemma_load(p, code, s, m + 10, k + 29, st, l2, at_cnt);
    lemma_const(p, code, s, m + 11, k + 30, st.push(Val::Int(cnt)), l2, one, 1);
    lemma_binary(
        p,
        code,
        s,
        m + 12,
        k + 31,
        st,
        Val::Int(cnt),
        Val::Int(1),
        l2,
        Op::IntAdd,
        Val::Int(count),
    );
    lemma_store(p, code, s, m + 13, k + 32, st, Val::Int(count), l2, at_cnt);
    let l3 = take_locals(s, d, xs, j, more, count);
    assert(l2.update(local_slot(s, at_cnt), Val::Int(count)) =~= l3);
    lemma_jump(p, code, s, m + 14, k + 33, st, l3, (-24) as i32);
}

/// The iterator over what was taken.
proof fn lemma_take_ends(
    p: Program,
    code: Seq<Op>,
    s: State,
    d: Draft,
    it: u16,
    n: u16,
    m: nat,
    xs: Seq<Val>,
    i: i64,
    out: Seq<Val>,
    cnt: i64,
)
    requires
        poised(p, code, s, d, iter_take(d, it, n)),
        reaches(p, code, s, m, d.code.len() + 34, s.stack, take_locals(s, d, xs, i, out, cnt)),
    ensures
        reaches(
            p,
            code,
            s,
            m + 3,
            d.code.len() + 37,
            s.stack.push(eager(out, 0)),
            take_locals(s, d, xs, i, out, cnt),
        ),
{
    let t = iter_take(d, it, n);
    let k = d.code.len();
    let st = s.stack;
    let lo = take_locals(s, d, xs, i, out, cnt);
    let at_out = (d.next_local + 2) as u16;
    lemma_take_ready(d, it, n);
    lemma_ops(p, code, s, t);
    lemma_tags(p, code, s, t);
    let zero = t.code[k as int + 35]->PushConst_0;
    let eager_idx = t.code[k as int + 36]->MakeVariant_name_idx;
    lemma_load(p, code, s, m, k + 34, st, lo, at_out);
    lemma_const(p, code, s, m + 1, k + 35, st.push(Val::List(out)), lo, zero, 0);
    let args = seq![Val::List(out), Val::Int(0)];
    assert(st.push(Val::List(out)).push(Val::Int(0)) =~= st + args);
    lemma_make_variant(p, code, s, m + 2, k + 36, st, args, lo, eager_idx, 2, "__IterEager"@);
}

/// All turns of the loop.
proof fn lemma_take_loop(
    p: Program,
    code: Seq<Op>,
    s: State,
    d: Draft,
    it: u16,
    n: u16,
    m: nat,
    xs: Seq<Val>,
    i: i64,
    out: Seq<Val>,
    cnt: i64,
    c: i64,
) -> (r: nat)
    requires
        poised(p, code, s, d, iter_take(d, it, n)),
        n < d.next_local,
        s.locals[local_slot(s, n)] == Val::Int(c),
        reaches(p, code, s, m, d.code.len() + 10, s.stack, take_locals(s, d, xs, i, out, cnt)),
        0 <= i,
        0 <= cnt,
        xs.len() <= i64::MAX,
    ensures
        ({
            let more = taken(xs, i, c - cnt);
            reaches(
                p,
                code,
                s,
                r,
                d.code.len() + 37,
                s.stack.push(eager(out + more, 0)),
                take_locals(
                    s,
                    d,
                    xs,
                    (i + more.len()) as i64,
                    out + more,
                    (cnt + more.len()) as i64,
                ),
            )
        }),
    decreases xs.len() - i,
{
    let more = taken(xs, i, c - cnt);
    let r = lemma_take_asks(p, code, s, d, it, n, m, xs, i, out, cnt, c);
    if cnt < c && i < xs.len() {
        let x = xs[i as int];
        let j = (i + 1) as i64;
        let count = (cnt + 1) as i64;
        lemma_take_turn(p, code, s, d, it, n, r, xs, i, out, cnt);
        let rest = taken(xs, j, c - count);
        assert(out.push(x) + rest =~= out + more);
        assert(more.len() == rest.len() + 1);
        lemma_take_loop(p, code, s, d, it, n, r + 15, xs, j, out.push(x), count, c)
    } else {
        assert(out + more =~= out);
        lemma_take_ends(p, code, s, d, it, n, r, xs, i, out, cnt);
        r + 3
    }
}

/// Law: the code that takes elements, run on a list iterator that stands at
/// `i`, leaves an iterator at the start of the list of the elements from `i`
/// on, up to so many of them.
pub proof fn law_list_iterator_take(
    p: Program,
    code: Seq<Op>,
    s: State,
    d: Draft,
    it: u16,
    n: u16,
    xs: Seq<Val>,
    i: i64,
    c: i64,
)
    requires
        poised(p, code, s, d, iter_take(d, it, n)),
        it < d.next_local,
        n < d.next_local,
        s.locals[local_slot(s, it)] == eager(xs, i),
        s.locals[local_slot(s, n)] == Val::Int(c),
        0 <= i,
        xs.len() <= i64::MAX,
    ensures
        exists|m: nat| #[trigger]
            steps(p, code, s, m) == Some(
                at(
                    s,
                    iter_take(d, it, n).code.len(),
                    s.stack.push(eager(taken(xs, i, c as int), 0)),
                    take_locals(
                        s,
                        d,
                        xs,
                        (i + taken(xs, i, c as int).len()) as i64,
                        taken(xs, i, c as int),
                        taken(xs, i, c as int).len() as i64,
                    ),
                ),
            ),
{
    let more = taken(xs, i, c as int);
    lemma_take_starts(p, code, s, d, it, n, xs, i);
    let m = lemma_take_loop(p, code, s, d, it, n, 10, xs, i, Seq::empty(), 0, c);
    assert(Seq::<Val>::empty() + more =~= more);
    lemma_take_ready(d, it, n);
    lemma_reached(
        p,
        code,
        s,
        m,
        d.code.len() + 37,
        s.stack.push(eager(more, 0)),
        take_locals(s, d, xs, (i + more.len()) as i64, more, more.len() as i64),
    );
}

} // verus!
