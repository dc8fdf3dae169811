//! The depth of the value stack in compiled code: one depth for every op, on
//! which all paths agree.

use vstd::prelude::*;

use crate::ast::{Arm, CExpr, RecordField};
use crate::compiler::draft::{Draft, LambdaJob};
use crate::compiler::free_vars::{free, param_names};
use crate::compiler::patterns::patched;
use crate::op::Op;
use crate::program::FunctionView;
use crate::verify::{consistent, is_primitive, mismatches, next_pcs, op_delta};

verus! {

/// The depth at a target.
pub open spec fn lands(ds: Seq<int>, t: int, d: int) -> bool {
    0 <= t < ds.len() && ds[t] == d
}

/// The op at `i` hands on the depth that is noted for what follows it. Behind
/// the last op one more depth is noted.
pub open spec fn op_level(op: Op, i: int, ds: Seq<int>) -> bool {
    match op {
        Op::Jump(off) => lands(ds, i + 1 + off, ds[i]),
        Op::JumpIf(off) | Op::JumpIfNot(off) => lands(ds, i + 1, ds[i] - 1) && lands(
            ds,
            i + 1 + off,
            ds[i] - 1,
        ),
        Op::Return | Op::Panic(_) | Op::TailCall { .. } => true,
        _ => is_primitive(op) && lands(ds, i + 1, ds[i] + op_delta(op)),
    }
}

/// Ops, each of which hands on the depth that is noted.
pub open spec fn block_level(ops: Seq<Op>, ds: Seq<int>) -> bool {
    forall|i: int| 0 <= i < ops.len() ==> op_level(#[trigger] ops[i], i, ds)
}

pub broadcast proof fn lemma_block_push(ops: Seq<Op>, op: Op, ds: Seq<int>)
    ensures
        #[trigger] block_level(ops.push(op), ds) <==> block_level(ops, ds) && op_level(
            op,
            ops.len() as int,
            ds,
        ),
{
    let w = ops.push(op);
    if block_level(w, ds) {
        assert(w[ops.len() as int] == op);
        assert forall|i: int| 0 <= i < ops.len() implies op_level(#[trigger] ops[i], i, ds) by {
            assert(w[i] == ops[i]);
        }
    }
}

pub broadcast proof fn lemma_block_empty(ds: Seq<int>)
    ensures
        #[trigger] block_level(Seq::<Op>::empty(), ds),
{
}

/// A body from depth 0 on. The jumps in `open` are not aimed yet.
pub open spec fn leveled(code: Seq<Op>, ds: Seq<int>, open: Set<int>) -> bool {
    &&& ds.len() == code.len() + 1
    &&& ds[0] == 0
    &&& forall|i: int|
        0 <= i < code.len() && !open.contains(i) ==> op_level(#[trigger] code[i], i, ds)
}

/// All paths through a body agree on the depths.
pub open spec fn balanced(code: Seq<Op>) -> bool {
    exists|ds: Seq<int>| #[trigger] leveled(code, ds, Set::empty())
}

/// The functions that have code have balanced code, and the lambdas that wait
/// will have.
pub open spec fn settled(functions: Seq<FunctionView>, pending: Seq<LambdaJob>) -> bool {
    &&& forall|j: int|
        0 <= j < functions.len() && (#[trigger] functions[j]).code.len() > 0
            && functions[j].code.len() <= i32::MAX ==> balanced(functions[j].code)
    &&& forall|j: int| 0 <= j < pending.len() ==> narrow((#[trigger] pending[j]).body)
}

/// No error so far, and jumps reach all of the code.
pub open spec fn okay(s: Draft) -> bool {
    s.fault is None && s.code.len() <= i32::MAX
}

pub open spec fn begins(longer: Seq<Op>, code: Seq<Op>) -> bool {
    code.len() <= longer.len() && longer.take(code.len() as int) == code
}

pub open spec fn prolongs(longer: Seq<int>, ds: Seq<int>) -> bool {
    ds.len() <= longer.len() && longer.take(ds.len() as int) == ds
}

/// Code was added that makes the stack deeper by `by`.
pub open spec fn rises(
    s: Draft,
    t: Draft,
    ds: Seq<int>,
    ds2: Seq<int>,
    open: Set<int>,
    by: int,
) -> bool {
    &&& okay(t) ==> okay(s)
    &&& t.fault is None ==> s.fault is None
    &&& okay(t) && leveled(s.code, ds, open) ==> {
        &&& leveled(t.code, ds2, open)
        &&& prolongs(ds2, ds)
        &&& ds2.last() == ds.last() + by
        &&& begins(t.code, s.code)
    }
    &&& t.fault is None && settled(s.functions, s.pending) ==> settled(t.functions, t.pending)
}

/// One addition behind another.
pub proof fn lemma_rises(
    a: Draft,
    b: Draft,
    c: Draft,
    da: Seq<int>,
    db: Seq<int>,
    dc: Seq<int>,
    open: Set<int>,
    x: int,
    y: int,
)
    requires
        rises(a, b, da, db, open, x),
        rises(b, c, db, dc, open, y),
    ensures
        rises(a, c, da, dc, open, x + y),
{
    if okay(c) && leveled(a.code, da, open) {
        assert(dc.take(da.len() as int) =~= db.take(da.len() as int)) by {
            assert forall|i: int| 0 <= i < da.len() implies dc[i] == db[i] by {
                assert(dc.take(db.len() as int)[i] == dc[i]);
            }
        }
        assert(c.code.take(a.code.len() as int) =~= b.code.take(a.code.len() as int)) by {
            assert forall|i: int| 0 <= i < a.code.len() implies c.code[i] == b.code[i] by {
                assert(c.code.take(b.code.len() as int)[i] == c.code[i]);
            }
        }
    }
}

/// Depths of a block, counted from the depth that it starts at.
pub open spec fn deepened(ds: Seq<int>, rel: Seq<int>) -> Seq<int> {
    ds + Seq::new((rel.len() - 1) as nat, |i: int| ds.last() + rel[i + 1])
}

/// Ops, each of which but those in the holes hands on the depth that is noted.
pub open spec fn holed_level(ops: Seq<Op>, ds: Seq<int>, holes: Set<int>) -> bool {
    forall|i: int|
        0 <= i < ops.len() && !holes.contains(i) ==> op_level(#[trigger] ops[i], i, ds)
}

/// The places that were open, and holes in a block that starts at `n`.
pub open spec fn with_holes(open: Set<int>, n: int, holes: Set<int>) -> Set<int> {
    Set::new(|i: int| open.contains(i) || holes.contains(i - n))
}

/// A block of ops with holes at the end of the code.
pub proof fn lemma_holed_block(
    code: Seq<Op>,
    ops: Seq<Op>,
    rel: Seq<int>,
    holes: Set<int>,
    ds: Seq<int>,
    open: Set<int>,
)
    requires
        rel.len() == ops.len() + 1,
        rel[0] == 0,
        holed_level(ops, rel, holes),
        leveled(code, ds, open),
    ensures
        leveled(code + ops, deepened(ds, rel), with_holes(open, code.len() as int, holes)),
        prolongs(deepened(ds, rel), ds),
        deepened(ds, rel).last() == ds.last() + rel.last(),
        begins(code + ops, code),
        forall|k: int|
            0 <= k < rel.len() ==> #[trigger] deepened(ds, rel)[code.len() + k] == ds.last()
                + rel[k],
{
    let ds2 = deepened(ds, rel);
    let all = code + ops;
    let n = code.len() as int;
    assert(ds2.take(ds.len() as int) =~= ds);
    assert(all.take(n) =~= code);
    assert forall|k: int| 0 <= k < rel.len() implies ds2[n + k] == ds.last()
        + #[trigger] rel[k] by {
        if k > 0 {
            assert(ds2[n + k] == Seq::new(
                (rel.len() - 1) as nat,
                |i: int| ds.last() + rel[i + 1],
            )[k - 1]);
        }
    }
    assert forall|k: int| 0 <= k < rel.len() implies #[trigger] ds2[n + k] == ds.last()
        + rel[k] by {
        assert(rel[k] == rel[k]);
    }
    assert(ds2.last() == ds2[n + (rel.len() - 1)]);
    assert forall|i: int|
        0 <= i < all.len() && !with_holes(open, n, holes).contains(i) implies op_level(
        #[trigger] all[i],
        i,
        ds2,
    ) by {
        if i < n {
            assert(all[i] == code[i]);
            assert(op_level(code[i], i, ds));
            assert(forall|k: int| 0 <= k < ds.len() ==> #[trigger] ds2[k] == ds[k]);
        } else {
            let k = i - n;
            assert(all[i] == ops[k]);
            assert(op_level(ops[k], k, rel));
            assert(ds2[i] == ds.last() + rel[k]);
            assert(ds2[n + (k + 1)] == ds.last() + rel[k + 1]);
            match ops[k] {
                Op::Jump(off) => {
                    assert(ds2[n + (k + 1 + off)] == ds.last() + rel[k + 1 + off]);
                },
                Op::JumpIf(off) | Op::JumpIfNot(off) => {
                    assert(ds2[n + (k + 1 + off)] == ds.last() + rel[k + 1 + off]);
                },
                _ => {},
            }
        }
    }
}

/// A block of ops at the end of the code.
pub proof fn lemma_block(
    s: Draft,
    t: Draft,
    ops: Seq<Op>,
    rel: Seq<int>,
    ds: Seq<int>,
    open: Set<int>,
)
    requires
        t.code == s.code + ops,
        t.functions == s.functions,
        t.pending == s.pending,
        t.fault is None ==> s.fault is None,
        rel.len() == ops.len() + 1,
        rel[0] == 0,
        block_level(ops, rel),
    ensures
        rises(s, t, ds, deepened(ds, rel), open, rel.last()),
{
    if okay(t) && leveled(s.code, ds, open) {
        lemma_holed_block(s.code, ops, rel, Set::empty(), ds, open);
        assert(with_holes(open, s.code.len() as int, Set::empty()) =~= open);
    }
}

// ---------------------------------------------------------------------------
// Jumps that are aimed later
// ---------------------------------------------------------------------------

/// The places that are open, with those of some jumps.
pub open spec fn joined(open: Set<int>, js: Seq<nat>) -> Set<int> {
    Set::new(|i: int| open.contains(i) || (0 <= i && js.contains(i as nat)))
}

/// The jump at `j` will carry the depth `d` to where it is aimed.
pub open spec fn carries(op: Op, j: int, ds: Seq<int>, d: int) -> bool {
    match op {
        Op::Jump(_) => ds[j] == d,
        Op::JumpIfNot(_) => ds[j] - 1 == d && lands(ds, j + 1, d),
        _ => false,
    }
}

/// Code from `lo` on with jumps `js` that are not aimed yet and will carry the
/// depth `d`.
pub open spec fn awaiting(
    code: Seq<Op>,
    ds: Seq<int>,
    open: Set<int>,
    js: Seq<nat>,
    lo: nat,
    d: int,
) -> bool {
    &&& leveled(code, ds, joined(open, js))
    &&& forall|k: int|
        0 <= k < js.len() ==> lo <= #[trigger] js[k] < code.len() && carries(
            code[js[k] as int],
            js[k] as int,
            ds,
            d,
        )
}

/// Jumps stay as they are while code is added.
pub proof fn lemma_still_awaiting(
    code: Seq<Op>,
    more: Seq<Op>,
    ds: Seq<int>,
    ds2: Seq<int>,
    open: Set<int>,
    js: Seq<nat>,
    lo: nat,
    d: int,
)
    requires
        awaiting(code, ds, open, js, lo, d),
        leveled(more, ds2, joined(open, js)),
        prolongs(ds2, ds),
        begins(more, code),
    ensures
        awaiting(more, ds2, open, js, lo, d),
{
    assert forall|k: int| 0 <= k < js.len() implies lo <= #[trigger] js[k] < more.len() && carries(
        more[js[k] as int],
        js[k] as int,
        ds2,
        d,
    ) by {
        let j = js[k] as int;
        assert(more.take(code.len() as int)[j] == more[j]);
        assert(ds2.take(ds.len() as int)[j] == ds2[j]);
        assert(ds2.take(ds.len() as int)[j + 1] == ds2[j + 1]);
    }
}

/// Jumps aimed at the end of the code, at the depth that they carry.
pub proof fn lemma_aimed(
    code: Seq<Op>,
    ds: Seq<int>,
    open: Set<int>,
    js: Seq<nat>,
    lo: nat,
    d: int,
)
    requires
        awaiting(code, ds, open, js, lo, d),
        ds.last() == d,
        code.len() <= i32::MAX,
    ensures
        leveled(patched(code, js, code.len() as int), ds, open),
        forall|i: int|
            0 <= i < code.len() && i < lo ==> #[trigger] patched(code, js, code.len() as int)[i]
                == code[i],
{
    let n = code.len() as int;
    let all = patched(code, js, n);
    assert forall|i: int| 0 <= i < n && i < lo implies #[trigger] all[i] == code[i] by {
        if js.contains(i as nat) {
            let k = choose|k: int| 0 <= k < js.len() && js[k] == i as nat;
            assert(js[k] >= lo);
        }
    }
    assert forall|i: int| 0 <= i < all.len() && !open.contains(i) implies op_level(
        #[trigger] all[i],
        i,
        ds,
    ) by {
        if js.contains(i as nat) {
            let k = choose|k: int| 0 <= k < js.len() && js[k] == i as nat;
            assert(carries(code[js[k] as int], js[k] as int, ds, d));
            assert(ds[n] == d);
        } else {
            assert(!joined(open, js).contains(i));
            assert(op_level(code[i], i, ds));
            assert(all[i] == code[i]);
        }
    }
}

/// Nothing was added to the code.
pub proof fn lemma_still(s: Draft, t: Draft, ds: Seq<int>, open: Set<int>)
    requires
        t.code == s.code,
        t.functions == s.functions,
        t.pending == s.pending,
        t.fault is None ==> s.fault is None,
    ensures
        rises(s, t, ds, ds, open, 0),
{
    assert(ds.take(ds.len() as int) =~= ds);
    assert(s.code.take(s.code.len() as int) =~= s.code);
}

/// The op has one way on, to the op behind it, and `by` is what it adds.
pub open spec fn goes_on(op: Op, by: int) -> bool {
    match op {
        Op::Jump(_) | Op::JumpIf(_) | Op::JumpIfNot(_) => false,
        Op::Return | Op::Panic(_) | Op::TailCall { .. } => true,
        _ => is_primitive(op) && by == op_delta(op),
    }
}

/// One op at the end of the code.
pub proof fn lemma_one(s: Draft, t: Draft, op: Op, by: int, ds: Seq<int>, open: Set<int>) -> (ds2:
    Seq<int>)
    requires
        t.code == s.code.push(op),
        t.functions == s.functions,
        t.pending == s.pending,
        t.fault is None ==> s.fault is None,
        goes_on(op, by),
    ensures
        rises(s, t, ds, ds2, open, by),
{
    let ops = seq![op];
    let rel = seq![0int, by];
    assert(s.code + ops =~= s.code.push(op));
    lemma_block(s, t, ops, rel, ds, open);
    deepened(ds, rel)
}

// ---------------------------------------------------------------------------
// Counts that ops can hold
// ---------------------------------------------------------------------------

/// No list in the expression is longer than the op that is made from it can
/// say, and no lambda has more captures and parameters.
pub open spec fn narrow(e: CExpr) -> bool
    decreases e, 0nat,
{
    match e {
        CExpr::Literal { .. } | CExpr::Var { .. } => true,
        CExpr::Let { value, body, .. } => narrow(*value) && narrow(*body),
        CExpr::Block { statements, result } => narrow_exprs(statements@, statements@.len())
            && narrow(*result),
        CExpr::Call { callee, args, .. } => args@.len() <= u16::MAX && narrow(*callee)
            && narrow_exprs(args@, args@.len()),
        CExpr::Constructor { args, .. } => args@.len() <= u16::MAX && narrow_exprs(
            args@,
            args@.len(),
        ),
        CExpr::Match { scrutinee, arms } => narrow(*scrutinee) && narrow_arms(arms@, arms@.len()),
        CExpr::RecordLit { fields } => fields@.len() <= u16::MAX && narrow_fields(
            fields@,
            fields@.len(),
        ),
        CExpr::TupleLit { items } => items@.len() <= u16::MAX && narrow_exprs(
            items@,
            items@.len(),
        ),
        CExpr::ListLit { items } => items@.len() <= u32::MAX && narrow_exprs(items@, items@.len()),
        CExpr::FieldAccess { value, .. } => narrow(*value),
        CExpr::BinOp { lhs, rhs, .. } => narrow(*lhs) && narrow(*rhs),
        CExpr::UnaryOp { expr, .. } => narrow(*expr),
        CExpr::Lambda { params, body } => free(
            *body,
            param_names(params@, Set::empty()),
            Seq::empty(),
        ).len() <= u16::MAX && narrow(*body),
        CExpr::Return { value } => narrow(*value),
    }
}

pub open spec fn narrow_exprs(xs: Seq<CExpr>, k: nat) -> bool
    decreases xs, k,
{
    if k == 0 || k > xs.len() {
        true
    } else {
        narrow_exprs(xs, (k - 1) as nat) && narrow(xs[k - 1])
    }
}

pub open spec fn narrow_arms(arms: Seq<Arm>, k: nat) -> bool
    decreases arms, k,
{
    if k == 0 || k > arms.len() {
        true
    } else {
        narrow_arms(arms, (k - 1) as nat) && narrow(arms[k - 1].body)
    }
}

pub open spec fn narrow_fields(fs: Seq<RecordField>, k: nat) -> bool
    decreases fs, k,
{
    if k == 0 || k > fs.len() {
        true
    } else {
        narrow_fields(fs, (k - 1) as nat) && narrow(fs[k - 1].value)
    }
}

// ---------------------------------------------------------------------------
// The verifier
// ---------------------------------------------------------------------------

/// The verifier has nothing to say of balanced code.
pub proof fn lemma_balanced_is_silent(code: Seq<Op>)
    requires
        code.len() > 0,
        balanced(code),
    ensures
        mismatches(code).len() == 0,
{
    let ds = choose|ds: Seq<int>| #[trigger] leveled(code, ds, Set::empty());
    let full = Seq::new(code.len(), |i: int| Some(ds[i]));
    assert(consistent(code, full)) by {
        assert forall|pc: nat, t: nat|
            pc < full.len() && full[pc as int] is Some && #[trigger] next_pcs(
                pc,
                code[pc as int],
                code.len(),
            ).contains(t) implies full[t as int] == Some(
            full[pc as int]->0 + op_delta(code[pc as int]),
        ) by {
            let op = code[pc as int];
            assert(op_level(op, pc as int, ds));
            let next = next_pcs(pc, op, code.len());
            let k = choose|k: int| 0 <= k < next.len() && next[k] == t;
            assert(next[k] == t);
        }
    }
    crate::verify::law_silent_iff_consistent(code);
}

} // verus!
