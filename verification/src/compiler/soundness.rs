//! What every op of compiled code can rely on: its constants, locals, shapes
//! and functions are there, and its jumps stay in the code.

use vstd::prelude::*;

use crate::compiler::draft::{emitted, emitted_all, interned, number, with_local, Draft, Globals};
use crate::compiler::pool;
use crate::compiler::pool::{including, lemma_including, lemma_place_of_member, Constant, PoolView};
use crate::op::Op;
use crate::program::FunctionView;

verus! {

/// A constant stands under a number.
pub open spec fn is_const(p: PoolView, i: u32, c: Constant) -> bool {
    i < p.consts.len() && p.consts[i as int] == c
}

pub open spec fn is_variant_name(p: PoolView, i: u32) -> bool {
    i < p.consts.len() && p.consts[i as int] is VariantName
}

pub open spec fn is_field_name(p: PoolView, i: u32) -> bool {
    i < p.consts.len() && p.consts[i as int] is FieldName
}

pub open spec fn is_text(p: PoolView, i: u32) -> bool {
    i < p.consts.len() && p.consts[i as int] is Str
}

pub open spec fn is_node_id(p: PoolView, i: u32) -> bool {
    i < p.consts.len() && p.consts[i as int] is NodeId
}

/// A jump that stays in code of this length.
pub open spec fn stays(at: int, off: i32, n: int) -> bool {
    0 <= at + 1 + off <= n
}

/// Whether an op finds what it refers to. `n` is the length of the code, `fns`
/// the number of functions, `locals` the number of locals. The ops of the
/// lowering passes are not among those that fit.
pub open spec fn op_fits(op: Op, at: int, n: int, p: PoolView, fns: nat, locals: u16) -> bool {
    match op {
        Op::PushConst(i) => i < p.consts.len(),
        Op::LoadLocal(i) | Op::StoreLocal(i) => i < locals,
        Op::MakeRecord { shape_idx, field_count } => shape_idx < p.shapes.len() && field_count
            == p.shapes[shape_idx as int].len() as u16,
        Op::MakeVariant { name_idx, .. } => is_variant_name(p, name_idx),
        Op::TestVariant(i) => is_variant_name(p, i),
        Op::GetField { name_idx, .. } => is_field_name(p, name_idx),
        Op::Jump(off) | Op::JumpIf(off) | Op::JumpIfNot(off) => stays(at, off, n),
        Op::Call { fn_id, node_id_idx, .. } | Op::TailCall { fn_id, node_id_idx, .. } => fn_id
            < fns && is_node_id(p, node_id_idx),
        Op::MakeClosure { fn_id, .. } => fn_id < fns,
        Op::CallClosure { node_id_idx, .. }
        | Op::SortByKey { node_id_idx }
        | Op::ParallelMap { node_id_idx }
        | Op::ListMap { node_id_idx }
        | Op::ListFilter { node_id_idx }
        | Op::ListFold { node_id_idx } => is_node_id(p, node_id_idx),
        Op::EffectCall { kind_idx, op_idx, node_id_idx, .. } => is_text(p, kind_idx) && is_text(
            p,
            op_idx,
        ) && is_node_id(p, node_id_idx),
        Op::Panic(i) => is_text(p, i),
        Op::TakeLocal(_)
        | Op::AllocStackRecord { .. }
        | Op::AllocArenaRecord { .. }
        | Op::AllocStackTuple { .. }
        | Op::AllocArenaTuple { .. }
        | Op::LoadLocalAddIntConst { .. }
        | Op::LoadLocalAddIntConstStoreLocal { .. }
        | Op::LoadLocalAddLocal { .. }
        | Op::LoadLocalSubLocal { .. }
        | Op::LoadLocalMulLocal { .. }
        | Op::LoadLocalEqIntConstJumpIfNot { .. }
        | Op::LoadLocalStoreEqIntConstJumpIfNot { .. }
        | Op::LoadLocalGetFieldAdd { .. }
        | Op::LoadLocalGetFieldSub { .. }
        | Op::LoadLocalGetFieldMul { .. }
        | Op::LoadLocalGetField { .. } => false,
        _ => true,
    }
}

/// Whether ops that stand from `base` on fit in code of length `n`.
pub open spec fn fits_within(
    code: Seq<Op>,
    base: int,
    n: int,
    p: PoolView,
    fns: nat,
    locals: u16,
) -> bool {
    forall|i: int|
        0 <= i < code.len() ==> op_fits(#[trigger] code[i], base + i, n, p, fns, locals)
}

/// Whether every op of a body fits.
pub open spec fn fits(code: Seq<Op>, p: PoolView, fns: nat, locals: u16) -> bool {
    fits_within(code, 0, code.len() as int, p, fns, locals)
}

/// Adding an op to ops that fit.
pub broadcast proof fn lemma_fits_push(
    code: Seq<Op>,
    op: Op,
    base: int,
    n: int,
    p: PoolView,
    fns: nat,
    locals: u16,
)
    ensures
        #[trigger] fits_within(code.push(op), base, n, p, fns, locals) <==> fits_within(
            code,
            base,
            n,
            p,
            fns,
            locals,
        ) && op_fits(op, base + code.len(), n, p, fns, locals),
{
    let w = code.push(op);
    if fits_within(w, base, n, p, fns, locals) {
        assert(w[code.len() as int] == op);
        assert forall|i: int| 0 <= i < code.len() implies op_fits(
            #[trigger] code[i],
            base + i,
            n,
            p,
            fns,
            locals,
        ) by {
            assert(w[i] == code[i]);
        }
    }
}

/// No ops at all fit.
pub broadcast proof fn lemma_fits_empty(base: int, n: int, p: PoolView, fns: nat, locals: u16)
    ensures
        #[trigger] fits_within(Seq::<Op>::empty(), base, n, p, fns, locals),
{
}

/// What was there is still there.
pub open spec fn pool_grew(a: PoolView, b: PoolView) -> bool {
    &&& a.consts.len() <= b.consts.len()
    &&& forall|i: int| 0 <= i < a.consts.len() ==> #[trigger] b.consts[i] == a.consts[i]
    &&& a.shapes.len() <= b.shapes.len()
    &&& forall|i: int| 0 <= i < a.shapes.len() ==> #[trigger] b.shapes[i] == a.shapes[i]
}

/// Code that fits goes on fitting as the program grows.
pub proof fn lemma_fits_grew(
    code: Seq<Op>,
    n: int,
    p: PoolView,
    fns: nat,
    locals: u16,
    m: int,
    q: PoolView,
    gns: nat,
    more: u16,
)
    requires
        fits_within(code, 0, n, p, fns, locals),
        n <= m,
        pool_grew(p, q),
        fns <= gns,
        locals <= more,
    ensures
        fits_within(code, 0, m, q, gns, more),
{
    assert forall|i: int| 0 <= i < code.len() implies op_fits(
        #[trigger] code[i],
        i,
        m,
        q,
        gns,
        more,
    ) by {
        assert(op_fits(code[i], i, n, p, fns, locals));
    }
}

/// Whether every op of a body fits, if the body is so short that jumps reach
/// all of it.
pub open spec fn fits_if_short(code: Seq<Op>, p: PoolView, fns: nat, locals: u16) -> bool {
    code.len() <= i32::MAX ==> fits(code, p, fns, locals)
}

/// Two parts of a block.
pub proof fn lemma_fits_parts(
    a: Seq<Op>,
    b: Seq<Op>,
    n: int,
    p: PoolView,
    fns: nat,
    locals: u16,
)
    requires
        fits_within(a, 0, n, p, fns, locals),
        fits_within(b, a.len() as int, n, p, fns, locals),
    ensures
        fits_within(a + b, 0, n, p, fns, locals),
{
    let w = a + b;
    assert forall|i: int| 0 <= i < w.len() implies op_fits(
        #[trigger] w[i],
        i,
        n,
        p,
        fns,
        locals,
    ) by {
        if i < a.len() {
            assert(w[i] == a[i]);
        } else {
            assert(w[i] == b[i - a.len()]);
        }
    }
}

/// Code behind code.
pub proof fn lemma_fits_concat(a: Seq<Op>, b: Seq<Op>, p: PoolView, fns: nat, locals: u16)
    requires
        fits(a, p, fns, locals),
        fits(b, p, fns, locals),
    ensures
        fits(a + b, p, fns, locals),
{
    let w = a + b;
    assert forall|i: int| 0 <= i < w.len() implies op_fits(
        #[trigger] w[i],
        i,
        w.len() as int,
        p,
        fns,
        locals,
    ) by {
        if i < a.len() {
            assert(w[i] == a[i]);
        } else {
            assert(w[i] == b[i - a.len()]);
        }
    }
}

/// The numbers still have room.
pub open spec fn small(s: Draft) -> bool {
    &&& s.pool.consts.len() <= u32::MAX
    &&& s.pool.shapes.len() <= u32::MAX
    &&& s.functions.len() <= u32::MAX
}

/// No error so far, and room.
pub open spec fn fine(s: Draft) -> bool {
    s.fault is None && small(s)
}

/// Functions and queued lambdas stay, and a function that was added has code
/// or waits for it in the queue.
#[verifier::opaque]
pub open spec fn coded(s: Draft, t: Draft) -> bool {
    &&& s.functions.len() <= t.functions.len()
    &&& s.pending.len() <= t.pending.len()
    &&& forall|j: int|
        0 <= j < s.functions.len() ==> #[trigger] t.functions[j] == s.functions[j]
    &&& forall|j: int| 0 <= j < s.pending.len() ==> #[trigger] t.pending[j] == s.pending[j]
    &&& forall|j: int|
        s.functions.len() <= j < t.functions.len() && j <= u32::MAX ==> (
        #[trigger] t.functions[j]).code.len() > 0 || waits(s.pending.len() as int, t, j)
}

/// Whether a function waits in the queue, behind its first `from` lambdas.
pub open spec fn waits(from: int, s: Draft, j: int) -> bool {
    exists|k: int| from <= k < s.pending.len() && (#[trigger] s.pending[k]).fn_id == j
}

/// Nothing was added.
pub broadcast proof fn lemma_coded_same(s: Draft, t: Draft)
    requires
        t.functions == s.functions,
        t.pending == s.pending,
    ensures
        #[trigger] coded(s, t),
{
    reveal(coded);
}

proof fn lemma_coded(a: Draft, b: Draft, c: Draft)
    requires
        coded(a, b),
        coded(b, c),
    ensures
        coded(a, c),
{
    reveal(coded);
    assert forall|j: int| 0 <= j < a.functions.len() implies #[trigger] c.functions[j]
        == a.functions[j] by {
        assert(b.functions[j] == a.functions[j]);
    }
    assert forall|j: int| 0 <= j < a.pending.len() implies #[trigger] c.pending[j]
        == a.pending[j] by {
        assert(b.pending[j] == a.pending[j]);
    }
    assert forall|j: int|
        a.functions.len() <= j < c.functions.len() && j <= u32::MAX implies (
    #[trigger] c.functions[j]).code.len() > 0 || waits(a.pending.len() as int, c, j) by {
        if j < b.functions.len() {
            assert(c.functions[j] == b.functions[j]);
            if waits(a.pending.len() as int, b, j) {
                let k = choose|k: int|
                    a.pending.len() <= k < b.pending.len() && (#[trigger] b.pending[k]).fn_id == j;
                assert(c.pending[k] == b.pending[k]);
            }
        } else if waits(b.pending.len() as int, c, j) {
            let k = choose|k: int|
                b.pending.len() <= k < c.pending.len() && (#[trigger] c.pending[k]).fn_id == j;
            assert(c.pending[k].fn_id == j);
        }
    }
}

/// What compiling does not undo.
pub open spec fn grew(s: Draft, t: Draft) -> bool {
    &&& pool_grew(s.pool, t.pool)
    &&& s.functions.len() <= t.functions.len()
    &&& s.code.len() <= t.code.len()
    &&& s.peak_local <= t.peak_local
    &&& t.fault is None ==> s.fault is None
    &&& coded(s, t)
}

/// Every shape lists field names.
pub open spec fn shapes_fit(p: PoolView) -> bool {
    forall|i: int, j: int|
        0 <= i < p.shapes.len() && 0 <= j < p.shapes[i].len() ==> is_field_name(
            p,
            #[trigger] p.shapes[i][j],
        )
}

/// The code of a function ends with a return. If it is so short that jumps
/// reach all of it, every op fits, and no jump leads behind the return.
pub open spec fn body_fits(code: Seq<Op>, p: PoolView, fns: nat, locals: u16) -> bool {
    &&& code.last() == Op::Return
    &&& code.len() <= i32::MAX ==> fits_within(code, 0, code.len() - 1, p, fns, locals)
}

/// A function has no code yet, or its code fits.
pub open spec fn function_fits(f: FunctionView, p: PoolView, fns: nat) -> bool {
    f.code.len() > 0 ==> body_fits(f.code, p, fns, f.locals_count)
}

/// Everything that has been compiled fits, and so do the tables that the next
/// ops will be made from.
pub open spec fn sound(n: Globals, s: Draft) -> bool {
    &&& fits_if_short(s.code, s.pool, s.functions.len(), s.peak_local)
    &&& shapes_fit(s.pool)
    &&& forall|i: int|
        0 <= i < s.functions.len() ==> function_fits(
            #[trigger] s.functions[i],
            s.pool,
            s.functions.len(),
        )
    &&& forall|name: Seq<char>| #[trigger]
        s.locals.contains_key(name) ==> s.locals[name] < s.peak_local
    &&& s.next_local <= s.peak_local
    &&& forall|name: Seq<char>| #[trigger]
        n.functions.contains_key(name) ==> n.functions[name] < s.functions.len()
    &&& forall|i: int|
        0 <= i < s.pending.len() ==> (#[trigger] s.pending[i]).fn_id < s.functions.len()
}

/// A step that undoes nothing and keeps everything fitting.
pub open spec fn keeps(n: Globals, s: Draft, t: Draft) -> bool {
    &&& grew(s, t)
    &&& sound(n, s) && fine(t) ==> sound(n, t)
}

pub proof fn lemma_grew(a: Draft, b: Draft, c: Draft)
    requires
        grew(a, b),
        grew(b, c),
    ensures
        grew(a, c),
        fine(c) ==> fine(b),
{
    lemma_coded(a, b, c);
    assert forall|i: int| 0 <= i < a.pool.consts.len() implies #[trigger] c.pool.consts[i]
        == a.pool.consts[i] by {
        assert(b.pool.consts[i] == a.pool.consts[i]);
    }
    assert forall|i: int| 0 <= i < a.pool.shapes.len() implies #[trigger] c.pool.shapes[i]
        == a.pool.shapes[i] by {
        assert(b.pool.shapes[i] == a.pool.shapes[i]);
    }
}

/// One step after another.
pub proof fn lemma_keeps(n: Globals, a: Draft, b: Draft, c: Draft)
    requires
        keeps(n, a, b),
        keeps(n, b, c),
    ensures
        keeps(n, a, c),
{
    lemma_grew(a, b, c);
}

/// The functions go on fitting as the program grows.
pub proof fn lemma_functions_grew(s: Draft, t: Draft)
    requires
        pool_grew(s.pool, t.pool),
        s.functions.len() <= t.functions.len(),
        forall|i: int|
            0 <= i < s.functions.len() ==> function_fits(
                #[trigger] s.functions[i],
                s.pool,
                s.functions.len(),
            ),
    ensures
        forall|i: int|
            0 <= i < s.functions.len() ==> function_fits(
                #[trigger] s.functions[i],
                t.pool,
                t.functions.len(),
            ),
{
    assert forall|i: int| 0 <= i < s.functions.len() implies function_fits(
        #[trigger] s.functions[i],
        t.pool,
        t.functions.len(),
    ) by {
        let f = s.functions[i];
        if 0 < f.code.len() <= i32::MAX {
            lemma_fits_grew(
                f.code,
                f.code.len() - 1,
                s.pool,
                s.functions.len(),
                f.locals_count,
                f.code.len() - 1,
                t.pool,
                t.functions.len(),
                f.locals_count,
            );
        }
    }
}

/// So does the code of the body that is being compiled.
pub proof fn lemma_code_grew(s: Draft, t: Draft)
    requires
        t.code == s.code,
        pool_grew(s.pool, t.pool),
        s.functions.len() <= t.functions.len(),
        s.peak_local <= t.peak_local,
        fits_if_short(s.code, s.pool, s.functions.len(), s.peak_local),
    ensures
        fits_if_short(t.code, t.pool, t.functions.len(), t.peak_local),
{
    if s.code.len() <= i32::MAX {
        lemma_fits_grew(
            s.code,
            s.code.len() as int,
            s.pool,
            s.functions.len(),
            s.peak_local,
            s.code.len() as int,
            t.pool,
            t.functions.len(),
            t.peak_local,
        );
    }
}

/// An op that fits, behind code that fits.
pub proof fn lemma_emitted(n: Globals, s: Draft, op: Op)
    requires
        op_fits(
            op,
            s.code.len() as int,
            s.code.len() as int + 1,
            s.pool,
            s.functions.len(),
            s.peak_local,
        ),
    ensures
        keeps(n, s, emitted(s, op)),
{
    let t = emitted(s, op);
    lemma_coded_same(s, t);
    if sound(n, s) && t.code.len() <= i32::MAX {
        lemma_fits_grew(
            s.code,
            s.code.len() as int,
            s.pool,
            s.functions.len(),
            s.peak_local,
            s.code.len() as int + 1,
            s.pool,
            s.functions.len(),
            s.peak_local,
        );
        lemma_fits_push(
            s.code,
            op,
            0,
            s.code.len() as int + 1,
            s.pool,
            s.functions.len(),
            s.peak_local,
        );
    }
}

/// Ops that fit, behind code that fits.
pub proof fn lemma_emitted_all(n: Globals, s: Draft, ops: Seq<Op>)
    requires
        fits(ops, s.pool, s.functions.len(), s.peak_local),
    ensures
        keeps(n, s, emitted_all(s, ops)),
{
    lemma_coded_same(s, emitted_all(s, ops));
    if sound(n, s) && s.code.len() <= i32::MAX {
        lemma_fits_concat(s.code, ops, s.pool, s.functions.len(), s.peak_local);
    }
}

/// A pool that grows by constants.
pub proof fn lemma_pool(n: Globals, s: Draft, t: Draft)
    requires
        t == (Draft { pool: t.pool, ..s }),
        pool_grew(s.pool, t.pool),
        t.pool.shapes == s.pool.shapes,
    ensures
        keeps(n, s, t),
{
    lemma_coded_same(s, t);
    if sound(n, s) {
        lemma_code_grew(s, t);
        lemma_functions_grew(s, t);
        assert forall|i: int, j: int|
            0 <= i < t.pool.shapes.len() && 0 <= j < t.pool.shapes[i].len() implies is_field_name(
            t.pool,
            #[trigger] t.pool.shapes[i][j],
        ) by {
            assert(is_field_name(s.pool, s.pool.shapes[i][j]));
        }
    }
}

/// A constant that is entered stands under its number.
pub proof fn lemma_interned(n: Globals, s: Draft, c: Constant)
    ensures
        keeps(n, s, interned(s, c)),
        fine(interned(s, c)) ==> is_const(interned(s, c).pool, number(s, c), c),
{
    let t = interned(s, c);
    lemma_including(s.pool.consts, c, c);
    lemma_place_of_member(including(s.pool.consts, c), c);
    lemma_pool(n, s, t);
}

/// A fresh local is one of the locals.
pub proof fn lemma_with_local(n: Globals, s: Draft, name: Seq<char>)
    ensures
        keeps(n, s, with_local(s, name)),
        sound(n, s) && with_local(s, name).fault is None ==> s.next_local < with_local(
            s,
            name,
        ).peak_local,
{
    reveal(with_local);
    let t = with_local(s, name);
    lemma_coded_same(s, t);
    if sound(n, s) && fine(t) {
        lemma_code_grew(s, t);
    }
}

} // verus!
