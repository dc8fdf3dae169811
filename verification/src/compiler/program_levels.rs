//! The verifier has nothing to say of compiled code.

use vstd::prelude::*;

use crate::arena;
use crate::ast::{CExpr, FnDecl, Param, Stage};
use crate::compiler::assembly::{
    compiled, compiled_decls, declaration, declared, draft_of, drained, finished, fused, globals,
    lemma_next_lambda, lowered_to, next_lambda, opened, sealed, started, with_captures,
    with_lambda_params, with_params, with_typed_local, Passes,
};
use crate::compiler::draft::{with_local, Draft, Globals};
use crate::compiler::expr::expr;
use crate::compiler::expr_levels::lemma_expr_levels;
use crate::compiler::levels::{
    balanced, lemma_balanced_is_silent, leveled, narrow, op_level, settled,
};
use crate::compiler::liveness::law_takes_keep_shape;
use crate::compiler::lowering::law_lowering_keeps_shape;
use crate::compiler::peephole;
use crate::compiler::peephole::{fuse, lemma_fuse_slots};
use crate::compiler::queue::queued;
use crate::escape;
use crate::op::{Const, Op};
use crate::program::{function_views, Function, Program};
use crate::verify::{
    consistent, is_primitive, mismatches, next_pcs, op_delta, program_mismatches, StackError,
};

verus! {

broadcast use crate::compiler::draft::lemma_with_local;

// ---------------------------------------------------------------------------
// Bodies
// ---------------------------------------------------------------------------

/// Locals are all that is added.
spec fn same_bodies(s: Draft, t: Draft) -> bool {
    &&& t.code == s.code
    &&& t.functions == s.functions
    &&& t.pending == s.pending
    &&& t.fault is None ==> s.fault is None
}

proof fn lemma_typed_local(s: Draft, name: Seq<char>, t: crate::compiler::numeric::NumTy)
    ensures
        same_bodies(s, with_typed_local(s, name, t)),
{
    reveal(with_local);
}

proof fn lemma_captures(s: Draft, names: Seq<Seq<char>>, k: nat)
    ensures
        same_bodies(s, with_captures(s, names, k)),
    decreases k,
{
    if k == 0 || k > names.len() {
    } else {
        let a = with_captures(s, names, (k - 1) as nat);
        lemma_captures(s, names, (k - 1) as nat);
        lemma_typed_local(a, names[k - 1], crate::compiler::numeric::NumTy::Unknown);
    }
}

proof fn lemma_lambda_params(s: Draft, ps: Seq<Param>, k: nat)
    ensures
        same_bodies(s, with_lambda_params(s, ps, k)),
    decreases k,
{
    if k == 0 || k > ps.len() {
    } else {
        let a = with_lambda_params(s, ps, (k - 1) as nat);
        lemma_lambda_params(s, ps, (k - 1) as nat);
        lemma_typed_local(
            a,
            ps[k - 1].name@,
            crate::compiler::numeric::type_num(ps[k - 1].ty),
        );
    }
}

proof fn lemma_params(s: Draft, ps: Seq<Param>, k: nat, stages: Seq<Stage>)
    ensures
        same_bodies(s, with_params(s, ps, k, stages)),
    decreases k,
{
    if k == 0 || k > ps.len() {
    } else {
        let a = with_params(s, ps, (k - 1) as nat, stages);
        lemma_params(s, ps, (k - 1) as nat, stages);
        lemma_typed_local(
            a,
            ps[k - 1].name@,
            crate::compiler::numeric::type_num(ps[k - 1].ty),
        );
    }
}

/// A body that starts without code and is compiled from a narrow expression.
proof fn lemma_body(g: Globals, s: Draft, body: CExpr, fn_id: u32)
    requires
        s.code.len() == 0,
        narrow(body),
    ensures
        expr(g, s, body, true).fault is None ==> s.fault is None,
        expr(g, s, body, true).fault is None && settled(s.functions, s.pending) ==> {
            let b = expr(g, s, body, true);
            let t = finished(b, fn_id);
            settled(b.functions, b.pending) && settled(t.functions, t.pending)
        },
{
    let none = Set::<int>::empty();
    let ds = seq![0int];
    let b = expr(g, s, body, true);
    let t = finished(b, fn_id);
    let db = lemma_expr_levels(g, s, body, true, ds, none);
    if b.fault is None && settled(s.functions, s.pending) && fn_id < b.functions.len() {
        let code = b.code.push(Op::Return);
        if code.len() <= i32::MAX {
            assert(leveled(s.code, ds, none));
            let dc = db.push(0);
            assert forall|i: int| 0 <= i < code.len() && !none.contains(i) implies op_level(
                #[trigger] code[i],
                i,
                dc,
            ) by {
                if i < b.code.len() {
                    assert(code[i] == b.code[i]);
                    assert(op_level(b.code[i], i, db));
                    assert(forall|k: int| 0 <= k < db.len() ==> #[trigger] dc[k] == db[k]);
                }
            }
            assert(leveled(code, dc, none));
            assert(balanced(code));
        }
        assert forall|j: int|
            0 <= j < t.functions.len() && (#[trigger] t.functions[j]).code.len() > 0
                && t.functions[j].code.len() <= i32::MAX implies balanced(
            t.functions[j].code,
        ) by {
            if j != fn_id {
                assert(t.functions[j] == b.functions[j]);
            }
        }
    }
}

/// All declared bodies are narrow.
pub open spec fn all_narrow(stages: Seq<Stage>) -> bool {
    forall|i: int|
        0 <= i < stages.len() ==> (#[trigger] stages[i] matches Stage::FnDecl(d) ==> narrow(d.body))
}

proof fn lemma_decls(g: Globals, s: Draft, stages: Seq<Stage>, k: nat)
    requires
        all_narrow(stages),
    ensures
        compiled_decls(g, s, stages, k).fault is None ==> s.fault is None,
        compiled_decls(g, s, stages, k).fault is None && settled(s.functions, s.pending)
            ==> settled(
            compiled_decls(g, s, stages, k).functions,
            compiled_decls(g, s, stages, k).pending,
        ),
    decreases k,
{
    if k == 0 || k > stages.len() {
    } else {
        let a = compiled_decls(g, s, stages, (k - 1) as nat);
        lemma_decls(g, s, stages, (k - 1) as nat);
        match stages[k - 1] {
            Stage::FnDecl(d) => {
                assert(narrow(d.body));
                let b = with_params(started(a), d.params@, d.params@.len(), stages);
                lemma_params(started(a), d.params@, d.params@.len(), stages);
                lemma_body(
                    g,
                    b,
                    d.body,
                    if g.functions.contains_key(d.name@) {
                        g.functions[d.name@]
                    } else {
                        0
                    },
                );
            },
            _ => {},
        }
    }
}

proof fn lemma_drained(g: Globals, s: Draft)
    ensures
        drained(g, s).fault is None ==> s.fault is None,
        drained(g, s).fault is None && settled(s.functions, s.pending) ==> settled(
            drained(g, s).functions,
            drained(g, s).pending,
        ),
    decreases queued(s.pending),
{
    if s.pending.len() > 0 {
        let job = s.pending.last();
        let s1 = Draft { pending: s.pending.drop_last(), ..s };
        let a = with_captures(started(s1), job.captures, job.captures.len());
        let b = with_lambda_params(a, job.params, job.params.len());
        let t = next_lambda(g, s);
        lemma_next_lambda(g, s);
        lemma_captures(started(s1), job.captures, job.captures.len());
        lemma_lambda_params(a, job.params, job.params.len());
        lemma_drained(g, t);
        if drained(g, s).fault is None && settled(s.functions, s.pending) {
            assert(narrow(s.pending[s.pending.len() - 1].body));
            lemma_body(g, b, job.body, job.fn_id);
            assert forall|j: int| 0 <= j < s1.pending.len() implies narrow(
                (#[trigger] s1.pending[j]).body,
            ) by {
                assert(s1.pending[j] == s.pending[j]);
            }
        } else if t.fault is None {
            lemma_fault_stays(g, b, job.body);
        }
    }
}

/// Compiling does not undo an error.
proof fn lemma_fault_stays(g: Globals, s: Draft, body: CExpr)
    ensures
        expr(g, s, body, true).fault is None ==> s.fault is None,
{
    crate::compiler::expr_fits::lemma_expr_keeps(g, s, body, true);
}

proof fn lemma_declared(stages: Seq<Stage>)
    ensures
        forall|i: int|
            0 <= i < declared(stages).len() ==> (#[trigger] declared(stages)[i]).code.len() == 0,
    decreases stages.len(),
{
    if stages.len() > 0 {
        let rest = stages.drop_last();
        lemma_declared(rest);
        match stages.last() {
            Stage::FnDecl(d) => {
                assert(declared(stages) == declared(rest).push(declaration(d)));
            },
            _ => {
                assert(declared(stages) == declared(rest));
            },
        }
    }
}

/// The bodies of a program are balanced before the passes.
proof fn lemma_draft_settled(stages: Seq<Stage>)
    requires
        all_narrow(stages),
        draft_of(stages).fault is None,
    ensures
        settled(draft_of(stages).functions, draft_of(stages).pending),
{
    let g = globals(stages, true);
    let h = globals(stages, false);
    let s = opened(stages);
    lemma_declared(stages);
    lemma_decls(g, s, stages, stages.len());
    lemma_drained(h, compiled_decls(g, s, stages, stages.len()));
}

// ---------------------------------------------------------------------------
// Fusion
// ---------------------------------------------------------------------------

/// The op fits the depths at a pc: every way on leads to the depth that is
/// noted there.
spec fn agrees_at(op: Op, pc: nat, ds: Seq<Option<int>>) -> bool {
    forall|t: nat| #[trigger]
        next_pcs(pc, op, ds.len()).contains(t) ==> ds[t as int] == Some(
            ds[pc as int]->0 + op_delta(op),
        )
}

/// The depth behind an op that goes on to the next one.
proof fn lemma_edge(code: Seq<Op>, ds: Seq<Option<int>>, k: int)
    requires
        consistent(code, ds),
        0 <= k,
        k + 1 < code.len(),
        ds[k] is Some,
        escape::successors(k as nat, code[k], code.len()) == escape::fall_through(
            (k + 1) as nat,
            code.len(),
        ),
        is_primitive(code[k]) || code[k] is LoadLocalAddIntConst,
    ensures
        ds[k + 1] == Some(ds[k]->0 + op_delta(code[k])),
{
    let next = next_pcs(k as nat, code[k], code.len());
    assert(next[0] == (k + 1) as nat);
    assert(next.contains((k + 1) as nat));
}

/// A fusion keeps the depths where each op that it puts in agrees with them.
proof fn lemma_fuse_consistent(
    code: Seq<Op>,
    ds: Seq<Option<int>>,
    w: int,
    rule: spec_fn(int) -> Option<Op>,
)
    requires
        consistent(code, ds),
        forall|k: int|
            0 <= k && k + w <= code.len() && (#[trigger] rule(k)) is Some && ds[k] is Some
                ==> agrees_at(rule(k)->0, k as nat, ds),
    ensures
        consistent(fuse(code, 0, w, rule), ds),
{
    let c = fuse(code, 0, w, rule);
    lemma_fuse_slots(code, 0, w, rule);
    assert forall|pc: nat, t: nat|
        pc < ds.len() && ds[pc as int] is Some && #[trigger] next_pcs(
            pc,
            c[pc as int],
            c.len(),
        ).contains(t) implies ds[t as int] == Some(ds[pc as int]->0 + op_delta(c[pc as int])) by {
        if c[pc as int] == code[pc as int] {
            assert(next_pcs(pc, code[pc as int], code.len()).contains(t));
        } else {
            assert(rule(pc as int) == Some(c[pc as int]));
            assert(agrees_at(c[pc as int], pc, ds));
            assert(next_pcs(pc, c[pc as int], ds.len()).contains(t));
        }
    }
}

/// Two and three ops in a row.
proof fn lemma_two(code: Seq<Op>, ds: Seq<Option<int>>, k: int, n: int)
    requires
        consistent(code, ds),
        0 <= k,
        2 <= n <= 3,
        k + n <= code.len(),
        ds[k] is Some,
        goes_straight(code[k]),
        goes_straight(code[k + 1]),
        n == 3 ==> goes_straight(code[k + 2]),
    ensures
        ds[k + 1] == Some(ds[k]->0 + op_delta(code[k])),
        k + 2 < code.len() ==> ds[k + 2] == Some(
            ds[k]->0 + op_delta(code[k]) + op_delta(code[k + 1]),
        ),
        n == 3 && k + 3 < code.len() ==> ds[k + 3] == Some(
            ds[k]->0 + op_delta(code[k]) + op_delta(code[k + 1]) + op_delta(code[k + 2]),
        ),
{
    lemma_edge(code, ds, k);
    if k + 2 < code.len() {
        lemma_edge(code, ds, k + 1);
    }
    if n == 3 && k + 3 < code.len() {
        lemma_edge(code, ds, k + 2);
    }
}

/// The op goes on to the next one.
spec fn goes_straight(op: Op) -> bool {
    match op {
        Op::LoadLocal(_)
        | Op::StoreLocal(_)
        | Op::PushConst(_)
        | Op::GetField { .. }
        | Op::IntAdd
        | Op::IntSub
        | Op::IntMul
        | Op::IntEq => true,
        _ => false,
    }
}

/// The depths of a body without superinstructions are those of its fused form.
#[verifier::rlimit(40)]
proof fn lemma_fused_consistent(code: Seq<Op>, ds: Seq<Option<int>>, consts: Seq<Const>)
    requires
        consistent(code, ds),
        forall|i: int| 0 <= i < code.len() ==> is_primitive(#[trigger] code[i]),
    ensures
        consistent(fused(code, consts), ds),
{
    let n = code.len();
    let r1 = |k: int| peephole::add_const_rule(code, consts, k);
    let c1 = fuse(code, 0, 3, r1);
    assert forall|k: int|
        0 <= k && k + 3 <= code.len() && (#[trigger] r1(k)) is Some && ds[k]
            is Some implies agrees_at(r1(k)->0, k as nat, ds) by {
        lemma_two(code, ds, k, 3);
        lemma_agrees(r1(k)->0, k as nat, ds);
    }
    lemma_fuse_consistent(code, ds, 3, r1);
    lemma_fuse_slots(code, 0, 3, r1);
    let r2 = |k: int| peephole::add_const_store_rule(c1, k);
    let c2 = fuse(c1, 0, 4, r2);
    assert forall|k: int|
        0 <= k && k + 4 <= c1.len() && (#[trigger] r2(k)) is Some && ds[k]
            is Some implies agrees_at(r2(k)->0, k as nat, ds) by {
        assert(c1[k] is LoadLocalAddIntConst);
        assert(is_primitive(code[k]));
        assert(r1(k) == Some(c1[k]));
        lemma_two(code, ds, k, 3);
        if k + 4 < n {
            lemma_edge(c1, ds, k + 3);
        }
        lemma_agrees(r2(k)->0, k as nat, ds);
    }
    lemma_fuse_consistent(c1, ds, 4, r2);
    lemma_fuse_slots(c1, 0, 4, r2);
    let r3 = |k: int| peephole::add_locals_rule(c2, k);
    let c3 = fuse(c2, 0, 3, r3);
    assert forall|k: int|
        0 <= k && k + 3 <= c2.len() && (#[trigger] r3(k)) is Some && ds[k]
            is Some implies agrees_at(r3(k)->0, k as nat, ds) by {
        lemma_two(c2, ds, k, 3);
        lemma_agrees(r3(k)->0, k as nat, ds);
    }
    lemma_fuse_consistent(c2, ds, 3, r3);
    lemma_fuse_slots(c2, 0, 3, r3);
    let r4 = |k: int| peephole::sub_mul_locals_rule(c3, k);
    let c4 = fuse(c3, 0, 3, r4);
    assert forall|k: int|
        0 <= k && k + 3 <= c3.len() && (#[trigger] r4(k)) is Some && ds[k]
            is Some implies agrees_at(r4(k)->0, k as nat, ds) by {
        lemma_two(c3, ds, k, 3);
        lemma_agrees(r4(k)->0, k as nat, ds);
    }
    lemma_fuse_consistent(c3, ds, 3, r4);
    lemma_fuse_slots(c3, 0, 3, r4);
    lemma_rest_consistent(c4, ds, consts);
}

/// The ways on from a fused op.
proof fn lemma_agrees(op: Op, pc: nat, ds: Seq<Option<int>>)
    requires
        ds[pc as int] is Some,
        pc < ds.len(),
        ({
            let d = ds[pc as int]->0 + op_delta(op);
            let n = ds.len();
            let at = pc as int;
            match op {
                Op::LoadLocalAddIntConst { .. }
                | Op::LoadLocalAddLocal { .. }
                | Op::LoadLocalSubLocal { .. }
                | Op::LoadLocalMulLocal { .. }
                | Op::LoadLocalGetField { .. } => at + 1 < n ==> ds[at + 1] == Some(d),
                Op::LoadLocalAddIntConstStoreLocal { .. } => at + 4 < n ==> ds[at + 4] == Some(d),
                Op::LoadLocalGetFieldAdd { .. }
                | Op::LoadLocalGetFieldSub { .. }
                | Op::LoadLocalGetFieldMul { .. } => at + 3 < n ==> ds[at + 3] == Some(d),
                Op::LoadLocalEqIntConstJumpIfNot { jump_offset, .. } => (at + 4 < n ==> ds[at + 4]
                    == Some(d)) && (0 <= at + 4 + jump_offset < n ==> ds[at + 4 + jump_offset]
                    == Some(d)),
                Op::LoadLocalStoreEqIntConstJumpIfNot { jump_offset, .. } => (at + 6 < n ==> ds[at
                    + 6] == Some(d)) && (0 <= at + 6 + jump_offset < n ==> ds[at + 6 + jump_offset]
                    == Some(d)),
                _ => false,
            }
        }),
    ensures
        agrees_at(op, pc, ds),
{
    assert forall|t: nat| #[trigger] next_pcs(pc, op, ds.len()).contains(t) implies ds[t as int]
        == Some(ds[pc as int]->0 + op_delta(op)) by {
        let next = next_pcs(pc, op, ds.len());
        let k = choose|k: int| 0 <= k < next.len() && next[k] == t;
        assert(next[k] == t);
    }
}

#[verifier::rlimit(40)]
proof fn lemma_rest_consistent(c4: Seq<Op>, ds: Seq<Option<int>>, consts: Seq<Const>)
    requires
        consistent(c4, ds),
    ensures
        ({
            let c5 = fuse(c4, 0, 4, |k: int| peephole::eq_const_jump_rule(c4, consts, k));
            let c6 = fuse(c5, 0, 3, |k: int| peephole::store_eq_jump_rule(c5, k));
            let c7 = fuse(c6, 0, 3, |k: int| peephole::field_arith_rule(c6, k));
            consistent(fuse(c7, 0, 2, |k: int| peephole::field_rule(c7, k)), ds)
        }),
{
    let n = c4.len();
    let r5 = |k: int| peephole::eq_const_jump_rule(c4, consts, k);
    let c5 = fuse(c4, 0, 4, r5);
    assert forall|k: int|
        0 <= k && k + 4 <= c4.len() && (#[trigger] r5(k)) is Some && ds[k]
            is Some implies agrees_at(r5(k)->0, k as nat, ds) by {
        lemma_two(c4, ds, k, 3);
        let j = (k + 3) as nat;
        let next = next_pcs(j, c4[k + 3], n);
        let off = c4[k + 3]->JumpIfNot_0;
        if k + 4 < n {
            assert(next[0] == (k + 4) as nat);
            assert(next.contains((k + 4) as nat));
        }
        if 0 <= k + 4 + off < n {
            assert(next[next.len() - 1] == (k + 4 + off) as nat);
            assert(next.contains((k + 4 + off) as nat));
        }
        lemma_agrees(r5(k)->0, k as nat, ds);
    }
    lemma_fuse_consistent(c4, ds, 4, r5);
    lemma_fuse_slots(c4, 0, 4, r5);
    let r6 = |k: int| peephole::store_eq_jump_rule(c5, k);
    let c6 = fuse(c5, 0, 3, r6);
    assert forall|k: int|
        0 <= k && k + 3 <= c5.len() && (#[trigger] r6(k)) is Some && ds[k]
            is Some implies agrees_at(r6(k)->0, k as nat, ds) by {
        lemma_two(c5, ds, k, 2);
        let j = (k + 2) as nat;
        let next = next_pcs(j, c5[k + 2], n);
        let off = c5[k + 2]->LoadLocalEqIntConstJumpIfNot_jump_offset;
        if k + 6 < n {
            assert(next[0] == (k + 6) as nat);
            assert(next.contains((k + 6) as nat));
        }
        if 0 <= k + 6 + off < n {
            assert(next[next.len() - 1] == (k + 6 + off) as nat);
            assert(next.contains((k + 6 + off) as nat));
        }
        lemma_agrees(r6(k)->0, k as nat, ds);
    }
    lemma_fuse_consistent(c5, ds, 3, r6);
    lemma_fuse_slots(c5, 0, 3, r6);
    let r7 = |k: int| peephole::field_arith_rule(c6, k);
    let c7 = fuse(c6, 0, 3, r7);
    assert forall|k: int|
        0 <= k && k + 3 <= c6.len() && (#[trigger] r7(k)) is Some && ds[k]
            is Some implies agrees_at(r7(k)->0, k as nat, ds) by {
        lemma_two(c6, ds, k, 3);
        lemma_agrees(r7(k)->0, k as nat, ds);
    }
    lemma_fuse_consistent(c6, ds, 3, r7);
    lemma_fuse_slots(c6, 0, 3, r7);
    let r8 = |k: int| peephole::field_rule(c7, k);
    assert forall|k: int|
        0 <= k && k + 2 <= c7.len() && (#[trigger] r8(k)) is Some && ds[k]
            is Some implies agrees_at(r8(k)->0, k as nat, ds) by {
        lemma_two(c7, ds, k, 2);
        lemma_agrees(r8(k)->0, k as nat, ds);
    }
    lemma_fuse_consistent(c7, ds, 2, r8);
}

/// Law: fusion makes no mismatch: where the verifier is silent on a body
/// without superinstructions, it is silent on the fused body.
pub proof fn law_fusion_keeps_silence(code: Seq<Op>, consts: Seq<Const>)
    requires
        mismatches(code).len() == 0,
        forall|i: int| 0 <= i < code.len() ==> is_primitive(#[trigger] code[i]),
    ensures
        mismatches(fused(code, consts)).len() == 0,
{
    if code.len() > 0 {
        crate::verify::law_silent_iff_consistent(code);
        let ds = choose|ds: Seq<Option<int>>| consistent(code, ds);
        lemma_fused_consistent(code, ds, consts);
        crate::verify::law_silent_iff_consistent(fused(code, consts));
    } else {
        lemma_fuse_slots(code, 0, 3, |k: int| peephole::add_const_rule(code, consts, k));
    }
}

// ---------------------------------------------------------------------------
// Programs
// ---------------------------------------------------------------------------

proof fn lemma_balanced_is_primitive(code: Seq<Op>)
    requires
        balanced(code),
    ensures
        forall|i: int| 0 <= i < code.len() ==> is_primitive(#[trigger] code[i]),
{
    let ds = choose|ds: Seq<int>| #[trigger] leveled(code, ds, Set::empty());
    assert forall|i: int| 0 <= i < code.len() implies is_primitive(#[trigger] code[i]) by {
        assert(op_level(code[i], i, ds));
    }
}

/// Law: in a compiled program, the verifier is silent on every function whose
/// code jumps can reach all of, unless some list in the source is longer than
/// an op can say.
pub proof fn law_compiled_code_is_silent(
    stages: Seq<Stage>,
    passes: Passes,
    p: Program,
    i: int,
)
    requires
        compiled(stages, passes, p),
        draft_of(stages).fault is None,
        all_narrow(stages),
        0 <= i < p.functions@.len(),
        p.functions@[i].code@.len() <= i32::MAX,
    ensures
        mismatches(p.functions@[i].code@).len() == 0,
{
    lemma_draft_settled(stages);
    let (a, b, c) = choose|a: Seq<Function>, b: Seq<Function>, c: Seq<Function>| #[trigger]
        lowered_to(stages, passes, a, b, c, p);
    assert(function_views(p.functions@).len() == p.functions@.len());
    lemma_tiers(stages, passes, a, b, c, p, i);
    assert(function_views(p.functions@)[i] == sealed(c[i]@, p.constants@, passes.take_locals));
    assert(function_views(p.functions@)[i].code == p.functions@[i].code@);
    let code = draft_of(stages).functions[i].code;
    assert(function_views(a)[i].code == a[i].code@);
    let last = c[i].code@;
    let f = fused(last, p.constants@);
    lemma_fused_len(last, p.constants@);
    law_takes_keep_shape(f);
    if last.len() > 0 {
        assert(code.len() == last.len());
        assert(balanced(code));
        lemma_balanced_is_silent(code);
        lemma_balanced_is_primitive(code);
        law_fusion_keeps_silence(last, p.constants@);
    } else {
        law_fusion_keeps_silence(last, p.constants@);
    }
}

proof fn lemma_fused_len(code: Seq<Op>, consts: Seq<Const>)
    ensures
        fused(code, consts).len() == code.len(),
        crate::compiler::liveness::with_takes(fused(code, consts)).len() == code.len(),
{
    let c1 = fuse(code, 0, 3, |k: int| peephole::add_const_rule(code, consts, k));
    lemma_fuse_slots(code, 0, 3, |k: int| peephole::add_const_rule(code, consts, k));
    let c2 = fuse(c1, 0, 4, |k: int| peephole::add_const_store_rule(c1, k));
    lemma_fuse_slots(c1, 0, 4, |k: int| peephole::add_const_store_rule(c1, k));
    let c3 = fuse(c2, 0, 3, |k: int| peephole::add_locals_rule(c2, k));
    lemma_fuse_slots(c2, 0, 3, |k: int| peephole::add_locals_rule(c2, k));
    let c4 = fuse(c3, 0, 3, |k: int| peephole::sub_mul_locals_rule(c3, k));
    lemma_fuse_slots(c3, 0, 3, |k: int| peephole::sub_mul_locals_rule(c3, k));
    let c5 = fuse(c4, 0, 4, |k: int| peephole::eq_const_jump_rule(c4, consts, k));
    lemma_fuse_slots(c4, 0, 4, |k: int| peephole::eq_const_jump_rule(c4, consts, k));
    let c6 = fuse(c5, 0, 3, |k: int| peephole::store_eq_jump_rule(c5, k));
    lemma_fuse_slots(c5, 0, 3, |k: int| peephole::store_eq_jump_rule(c5, k));
    let c7 = fuse(c6, 0, 3, |k: int| peephole::field_arith_rule(c6, k));
    lemma_fuse_slots(c6, 0, 3, |k: int| peephole::field_arith_rule(c6, k));
    lemma_fuse_slots(c7, 0, 2, |k: int| peephole::field_rule(c7, k));
}

/// The two tiers change neither the length of a body nor what the verifier
/// finds in it, and put in no superinstructions.
proof fn lemma_tiers(
    stages: Seq<Stage>,
    passes: Passes,
    a: Seq<Function>,
    b: Seq<Function>,
    c: Seq<Function>,
    p: Program,
    i: int,
)
    requires
        lowered_to(stages, passes, a, b, c, p),
        0 <= i < p.functions@.len(),
    ensures
        0 <= i < a.len(),
        a.len() == b.len() == c.len(),
        c[i].code@.len() == a[i].code@.len(),
        mismatches(c[i].code@) == mismatches(a[i].code@),
        (forall|k: int| 0 <= k < a[i].code@.len() ==> is_primitive(#[trigger] a[i].code@[k]))
            ==> forall|k: int|
            0 <= k < c[i].code@.len() ==> is_primitive(#[trigger] c[i].code@[k]),
{
    assert(function_views(p.functions@).len() == p.functions@.len());
    assert(function_views(b).len() == b.len());
    assert(function_views(c).len() == c.len());
    assert(function_views(a).len() == a.len());
    assert(function_views(b)[i].code == b[i].code@);
    assert(function_views(c)[i].code == c[i].code@);
    if passes.stack_records {
        let rs = choose|rs: Seq<escape::EscapeReport>| #[trigger]
            escape::program_reports(a, escape::Policy::Frame, rs) && function_views(b)
                == crate::compiler::assembly::on_stack_tier(a, escape::index_of(rs));
        law_lowering_keeps_shape(a[i].code@, a[i].name@, escape::index_of(rs));
        assert(b[i].code@ == crate::compiler::lowering::stack_lowered(
            a[i].code@,
            a[i].name@,
            escape::index_of(rs),
        ));
    } else {
        assert(function_views(a)[i].code == a[i].code@);
    }
    if passes.arena_records {
        let rs = choose|rs: Seq<arena::ArenaReport>| #[trigger]
            arena::program_reports(b, rs) && function_views(c)
                == crate::compiler::assembly::on_arena_tier(b, arena::index_of(rs));
        law_lowering_keeps_shape(b[i].code@, b[i].name@, arena::index_of(rs));
        assert(c[i].code@ == crate::compiler::lowering::arena_lowered(
            b[i].code@,
            b[i].name@,
            arena::index_of(rs),
        ));
    } else {
        assert(function_views(b)[i].code == b[i].code@);
    }
}

/// Law: the verifier reports nothing for a compiled program whose code jumps
/// can reach all of, unless some list in the source is longer than an op can
/// say.
pub proof fn law_compiled_programs_verify(
    stages: Seq<Stage>,
    passes: Passes,
    p: Program,
    errors: Seq<StackError>,
)
    requires
        compiled(stages, passes, p),
        draft_of(stages).fault is None,
        all_narrow(stages),
        forall|i: int|
            0 <= i < p.functions@.len() ==> (#[trigger] p.functions@[i]).code@.len() <= i32::MAX,
        program_mismatches(p.functions@, errors),
    ensures
        errors.len() == 0,
{
    assert forall|i: int| 0 <= i < p.functions@.len() implies mismatches(
        (#[trigger] p.functions@[i]).code@,
    ).len() == 0 by {
        law_compiled_code_is_silent(stages, passes, p, i);
    }
    lemma_all_silent(p.functions@, errors);
}

proof fn lemma_all_silent(fs: Seq<Function>, errors: Seq<StackError>)
    requires
        forall|i: int| 0 <= i < fs.len() ==> mismatches((#[trigger] fs[i]).code@).len() == 0,
        program_mismatches(fs, errors),
    ensures
        errors.len() == 0,
    decreases fs.len(),
{
    if fs.len() > 0 {
        let front = fs.drop_last();
        assert forall|i: int| 0 <= i < front.len() implies mismatches(
            (#[trigger] front[i]).code@,
        ).len() == 0 by {
            assert(front[i] == fs[i]);
        }
        assert(mismatches(fs[fs.len() - 1].code@).len() == 0);
        lemma_all_silent(front, errors.take(errors.len() as int));
    }
}

} // verus!
