//! How many lambdas an expression holds, which bounds the queue of lambdas
//! whose bodies are still to be compiled.

use vstd::prelude::*;

use crate::ast::{Arm, CExpr, Pattern, PatternField, RecordField};
use crate::compiler::combinators::{closing, combinator, taken, tested_tag, Combinator};
use crate::compiler::draft::{
    emitted, emitted_all, field_read, interned, number, stored, Draft, Globals, LambdaJob,
};
use crate::compiler::expr::{
    arguments, bound_to, call, call_id, expr, exprs, in_line, lambda, match_arms, module_call,
    record_fields, statements_of, variable, with_record_types,
};
use crate::compiler::numeric::{expr_num, type_num};
use crate::compiler::patterns::{part, tested, tested_fields, tested_parts};
use crate::compiler::pool::Constant;
use crate::op::Op;

verus! {

broadcast use crate::compiler::draft::lemma_with_local;

/// The number of lambdas in an expression, those in the bodies of lambdas
/// included.
pub open spec fn lambdas(e: CExpr) -> nat
    decreases e, 0nat,
{
    match e {
        CExpr::Literal { .. } | CExpr::Var { .. } => 0,
        CExpr::Let { value, body, .. } => lambdas(*value) + lambdas(*body),
        CExpr::Block { statements, result } => lambdas_of(statements@, statements@.len())
            + lambdas(*result),
        CExpr::Call { callee, args, .. } => lambdas(*callee) + lambdas_of(args@, args@.len()),
        CExpr::Constructor { args, .. } => lambdas_of(args@, args@.len()),
        CExpr::Match { scrutinee, arms } => lambdas(*scrutinee) + arm_lambdas(arms@, arms@.len()),
        CExpr::RecordLit { fields } => field_lambdas(fields@, fields@.len()),
        CExpr::TupleLit { items } => lambdas_of(items@, items@.len()),
        CExpr::ListLit { items } => lambdas_of(items@, items@.len()),
        CExpr::FieldAccess { value, .. } => lambdas(*value),
        CExpr::BinOp { lhs, rhs, .. } => lambdas(*lhs) + lambdas(*rhs),
        CExpr::UnaryOp { expr, .. } => lambdas(*expr),
        CExpr::Lambda { body, .. } => 1 + lambdas(*body),
        CExpr::Return { value } => lambdas(*value),
    }
}

pub open spec fn lambdas_of(xs: Seq<CExpr>, k: nat) -> nat
    decreases xs, k,
{
    if k == 0 || k > xs.len() {
        0
    } else {
        lambdas_of(xs, (k - 1) as nat) + lambdas(xs[k - 1])
    }
}

pub open spec fn field_lambdas(fs: Seq<RecordField>, k: nat) -> nat
    decreases fs, k,
{
    if k == 0 || k > fs.len() {
        0
    } else {
        field_lambdas(fs, (k - 1) as nat) + lambdas(fs[k - 1].value)
    }
}

pub open spec fn arm_lambdas(arms: Seq<Arm>, k: nat) -> nat
    decreases arms, k,
{
    if k == 0 || k > arms.len() {
        0
    } else {
        arm_lambdas(arms, (k - 1) as nat) + lambdas(arms[k - 1].body)
    }
}

/// The number of lambdas that are queued, or stand in the body of a queued one.
pub open spec fn queued(jobs: Seq<LambdaJob>) -> nat
    decreases jobs.len(),
{
    if jobs.len() == 0 {
        0
    } else {
        queued(jobs.drop_last()) + 1 + lambdas(jobs.last().body)
    }
}

/// A pattern test queues nothing.
proof fn lemma_tested(p: Pattern)
    ensures
        forall|s: Draft, fails: Seq<nat>| (#[trigger] tested(s, fails, p)).0.pending == s.pending,
    decreases p, 0nat,
{
    match p {
        Pattern::PConstructor { name, args } => {
            if args@.len() == 1 {
                lemma_tested(args@[0]);
            }
            lemma_tested_parts(args@, args@.len());
            assert forall|s: Draft, fails: Seq<nat>|
                (#[trigger] tested(s, fails, p)).0.pending == s.pending by {
                let c = Constant::VariantName(name@);
                let t = emitted_all(
                    interned(s, c),
                    seq![
                        Op::Dup,
                        Op::TestVariant(number(s, c)),
                        Op::JumpIf(2),
                        Op::Pop,
                        Op::Jump(0),
                    ],
                );
                let f = fails.push((s.code.len() + 4) as nat);
                if args@.len() == 1 {
                    let b = emitted(t, Op::GetVariantArg(0));
                    assert(tested(b, f, args@[0]).0.pending == b.pending);
                } else if args@.len() > 1 {
                    let b = stored(t, "__variant"@);
                    assert(tested_parts(b, f, args@, args@.len(), t.next_local, true).0.pending
                        == b.pending);
                }
            }
        },
        Pattern::PTuple { items } => {
            lemma_tested_parts(items@, items@.len());
            assert forall|s: Draft, fails: Seq<nat>|
                (#[trigger] tested(s, fails, p)).0.pending == s.pending by {
                let b = stored(s, "__tuple"@);
                assert(tested_parts(b, fails, items@, items@.len(), s.next_local, false).0.pending
                    == b.pending);
            }
        },
        Pattern::PRecord { fields } => {
            lemma_tested_fields(fields@, fields@.len());
            assert forall|s: Draft, fails: Seq<nat>|
                (#[trigger] tested(s, fails, p)).0.pending == s.pending by {
                let b = stored(s, "__record"@);
                assert(tested_fields(b, fails, fields@, fields@.len(), s.next_local).0.pending
                    == b.pending);
            }
        },
        _ => {},
    }
}

proof fn lemma_tested_parts(ps: Seq<Pattern>, k: nat)
    ensures
        forall|s: Draft, fails: Seq<nat>, slot: u16, v: bool|
            (#[trigger] tested_parts(s, fails, ps, k, slot, v)).0.pending == s.pending,
    decreases ps, k,
{
    if k == 0 || k > ps.len() {
    } else {
        lemma_tested_parts(ps, (k - 1) as nat);
        lemma_tested(ps[k - 1]);
        assert forall|s: Draft, fails: Seq<nat>, slot: u16, v: bool|
            (#[trigger] tested_parts(s, fails, ps, k, slot, v)).0.pending == s.pending by {
            let (a, f) = tested_parts(s, fails, ps, (k - 1) as nat, slot, v);
            let b = emitted(emitted(a, Op::LoadLocal(slot)), part(v, (k - 1) as nat));
            assert(tested(b, f, ps[k - 1]).0.pending == b.pending);
        }
    }
}

proof fn lemma_tested_fields(fs: Seq<PatternField>, k: nat)
    ensures
        forall|s: Draft, fails: Seq<nat>, slot: u16|
            (#[trigger] tested_fields(s, fails, fs, k, slot)).0.pending == s.pending,
    decreases fs, k,
{
    if k == 0 || k > fs.len() {
    } else {
        lemma_tested_fields(fs, (k - 1) as nat);
        lemma_tested(fs[k - 1].pattern);
        assert forall|s: Draft, fails: Seq<nat>, slot: u16|
            (#[trigger] tested_fields(s, fails, fs, k, slot)).0.pending == s.pending by {
            let (a, f) = tested_fields(s, fails, fs, (k - 1) as nat, slot);
            let b = field_read(emitted(a, Op::LoadLocal(slot)), fs[k - 1].name@);
            assert(tested(b, f, fs[k - 1].pattern).0.pending == b.pending);
        }
    }
}

/// The code behind the arguments of a combinator queues nothing.
proof fn lemma_closing(s: Draft, c: Combinator, slots: Seq<u16>, tag: u32)
    ensures
        closing(s, c, slots, tag).pending == s.pending,
{
}

/// What compiling an expression queues is what the expression holds.
pub open spec fn queues_at_most(before: Draft, after: Draft, count: nat) -> bool {
    queued(after.pending) <= queued(before.pending) + count
}

proof fn lemma_expr(e: CExpr)
    ensures
        forall|n: Globals, s: Draft, tail: bool|
            queues_at_most(s, #[trigger] expr(n, s, e, tail), lambdas(e)),
    decreases e, 3nat,
{
    assert forall|n: Globals, s: Draft, tail: bool| queues_at_most(
        s,
        #[trigger] expr(n, s, e, tail),
        lambdas(e),
    ) by {
        lemma_expr_at(n, s, e, tail);
    }
}

proof fn lemma_expr_at(n: Globals, s: Draft, e: CExpr, tail: bool)
    ensures
        queues_at_most(s, expr(n, s, e, tail), lambdas(e)),
    decreases e, 2nat,
{
    match e {
        CExpr::Let { name, ty, value, body } => {
            let t = match ty {
                Some(ty) => type_num(ty),
                None => expr_num(s.types, s.records, *value),
            };
            let s1 = with_record_types(s, name@, *value);
            lemma_expr_at(n, s1, *value, false);
            let a = bound_to(expr(n, s1, *value, false), name@, t);
            lemma_expr_at(n, a, *body, tail);
        },
        CExpr::Block { statements, result } => {
            lemma_statements(statements@, statements@.len());
            let a = statements_of(n, s, statements@, statements@.len());
            lemma_expr_at(n, a, *result, tail);
        },
        CExpr::Call { .. } => {
            lemma_call(e);
            assert(queues_at_most(s, call(n, s, e, tail), lambdas(e)));
        },
        CExpr::Constructor { args, .. } => {
            lemma_exprs(args@, args@.len());
            let a = exprs(n, s, args@, args@.len());
        },
        CExpr::Match { scrutinee, arms } => {
            lemma_expr_at(n, s, *scrutinee, false);
            let a = expr(n, s, *scrutinee, false);
            lemma_arms(arms@, arms@.len());
            let (b, ends) = match_arms(
                n,
                stored(a, "__scrut"@),
                arms@,
                arms@.len(),
                tail,
                a.next_local,
            );
            assert(queues_at_most(stored(a, "__scrut"@), b, arm_lambdas(arms@, arms@.len())));
        },
        CExpr::RecordLit { fields } => {
            lemma_fields(fields@, fields@.len());
            let (a, ids) = record_fields(n, s, fields@, fields@.len());
            assert(queues_at_most(s, a, field_lambdas(fields@, fields@.len())));
        },
        CExpr::TupleLit { items } => {
            lemma_exprs(items@, items@.len());
            let a = exprs(n, s, items@, items@.len());
        },
        CExpr::ListLit { items } => {
            lemma_exprs(items@, items@.len());
            let a = exprs(n, s, items@, items@.len());
        },
        CExpr::FieldAccess { value, .. } => {
            lemma_expr_at(n, s, *value, false);
        },
        CExpr::BinOp { lhs, rhs, .. } => {
            lemma_expr_at(n, s, *lhs, false);
            lemma_expr_at(n, expr(n, s, *lhs, false), *rhs, false);
        },
        CExpr::UnaryOp { expr: x, .. } => {
            lemma_expr_at(n, s, *x, false);
        },
        CExpr::Lambda { params, body } => {
            let t = lambda(s, params@, *body);
            assert(t.pending.drop_last() =~= s.pending);
            assert(t.pending.last().body == *body);
        },
        CExpr::Return { value } => {
            lemma_expr_at(n, s, *value, true);
        },
        _ => {},
    }
}

proof fn lemma_exprs(xs: Seq<CExpr>, k: nat)
    ensures
        forall|n: Globals, s: Draft|
            queues_at_most(s, #[trigger] exprs(n, s, xs, k), lambdas_of(xs, k)),
    decreases xs, k,
{
    if k == 0 || k > xs.len() {
    } else {
        lemma_exprs(xs, (k - 1) as nat);
        lemma_expr(xs[k - 1]);
        assert forall|n: Globals, s: Draft| queues_at_most(
            s,
            #[trigger] exprs(n, s, xs, k),
            lambdas_of(xs, k),
        ) by {
            let a = exprs(n, s, xs, (k - 1) as nat);
            assert(queues_at_most(a, expr(n, a, xs[k - 1], false), lambdas(xs[k - 1])));
        }
    }
}

proof fn lemma_statements(xs: Seq<CExpr>, k: nat)
    ensures
        forall|n: Globals, s: Draft|
            queues_at_most(s, #[trigger] statements_of(n, s, xs, k), lambdas_of(xs, k)),
    decreases xs, k,
{
    if k == 0 || k > xs.len() {
    } else {
        lemma_statements(xs, (k - 1) as nat);
        lemma_expr(xs[k - 1]);
        assert forall|n: Globals, s: Draft| queues_at_most(
            s,
            #[trigger] statements_of(n, s, xs, k),
            lambdas_of(xs, k),
        ) by {
            let a = statements_of(n, s, xs, (k - 1) as nat);
            assert(queues_at_most(a, expr(n, a, xs[k - 1], false), lambdas(xs[k - 1])));
        }
    }
}

proof fn lemma_fields(fs: Seq<RecordField>, k: nat)
    ensures
        forall|n: Globals, s: Draft|
            queues_at_most(s, (#[trigger] record_fields(n, s, fs, k)).0, field_lambdas(fs, k)),
    decreases fs, k,
{
    if k == 0 || k > fs.len() {
    } else {
        lemma_fields(fs, (k - 1) as nat);
        lemma_expr(fs[k - 1].value);
        assert forall|n: Globals, s: Draft| queues_at_most(
            s,
            (#[trigger] record_fields(n, s, fs, k)).0,
            field_lambdas(fs, k),
        ) by {
            let (a, ids) = record_fields(n, s, fs, (k - 1) as nat);
            let b = expr(n, a, fs[k - 1].value, false);
            assert(queues_at_most(a, b, lambdas(fs[k - 1].value)));
        }
    }
}

proof fn lemma_arms(arms: Seq<Arm>, k: nat)
    ensures
        forall|n: Globals, s: Draft, tail: bool, slot: u16|
            queues_at_most(
                s,
                (#[trigger] match_arms(n, s, arms, k, tail, slot)).0,
                arm_lambdas(arms, k),
            ),
    decreases arms, k,
{
    if k == 0 || k > arms.len() {
    } else {
        lemma_arms(arms, (k - 1) as nat);
        lemma_tested(arms[k - 1].pattern);
        lemma_expr(arms[k - 1].body);
        assert forall|n: Globals, s: Draft, tail: bool, slot: u16| queues_at_most(
            s,
            (#[trigger] match_arms(n, s, arms, k, tail, slot)).0,
            arm_lambdas(arms, k),
        ) by {
            let (a, ends) = match_arms(n, s, arms, (k - 1) as nat, tail, slot);
            let b = emitted(a, Op::LoadLocal(slot));
            let (t, fails) = tested(b, Seq::empty(), arms[k - 1].pattern);
            assert(t.pending == b.pending);
            let d = expr(n, t, arms[k - 1].body, tail);
            assert(queues_at_most(t, d, lambdas(arms[k - 1].body)));
        }
    }
}

proof fn lemma_lambdas_grow(xs: Seq<CExpr>, k: nat)
    requires
        k <= xs.len(),
    ensures
        lambdas_of(xs, k) <= lambdas_of(xs, xs.len()),
    decreases xs.len() - k,
{
    if k < xs.len() {
        lemma_lambdas_grow(xs, k + 1);
    }
}

proof fn lemma_arguments(args: Seq<CExpr>, k: nat)
    ensures
        forall|n: Globals, s: Draft, c: Combinator, id: u32|
            queues_at_most(
                s,
                (#[trigger] arguments(n, s, c, args, k, id)).0,
                lambdas_of(args, if k < args.len() { k } else { args.len() }),
            ),
    decreases args, k,
{
    if k > 0 {
        let i = (k - 1) as nat;
        lemma_arguments(args, i);
        if i < args.len() {
            lemma_expr(args[i as int]);
        }
        assert forall|n: Globals, s: Draft, c: Combinator, id: u32| queues_at_most(
            s,
            (#[trigger] arguments(n, s, c, args, k, id)).0,
            lambdas_of(args, if k < args.len() { k } else { args.len() }),
        ) by {
            let (a, slots) = arguments(n, s, c, args, i, id);
            if i < args.len() {
                let b = expr(n, a, args[i as int], false);
                assert(queues_at_most(a, b, lambdas(args[i as int])));
            }
        }
    }
}

proof fn lemma_in_line(args: Seq<CExpr>)
    ensures
        forall|n: Globals, s: Draft, c: Combinator, id: u32|
            queues_at_most(s, #[trigger] in_line(n, s, c, args, id), lambdas_of(args, args.len())),
    decreases args, 4nat,
{
    assert forall|n: Globals, s: Draft, c: Combinator, id: u32| queues_at_most(
        s,
        #[trigger] in_line(n, s, c, args, id),
        lambdas_of(args, args.len()),
    ) by {
        let k = taken(c);
        lemma_arguments(args, k);
        lemma_lambdas_grow(args, if k < args.len() { k } else { args.len() });
        match tested_tag(c) {
            Some(tag) => {
                let t = Constant::VariantName(tag);
                let (a, slots) = arguments(n, interned(s, t), c, args, k, id);
                lemma_closing(a, c, slots, number(s, t));
            },
            None => {
                let (a, slots) = arguments(n, s, c, args, k, id);
                lemma_closing(a, c, slots, 0);
            },
        }
    }
}

proof fn lemma_call(e: CExpr)
    ensures
        forall|n: Globals, s: Draft, tail: bool|
            queues_at_most(s, #[trigger] call(n, s, e, tail), lambdas(e)),
    decreases e, 1nat,
{
    match e {
        CExpr::Call { node_id, callee, args } => {
            lemma_expr(*callee);
            lemma_exprs(args@, args@.len());
            lemma_in_line(args@);
            assert forall|n: Globals, s: Draft, tail: bool| queues_at_most(
                s,
                #[trigger] call(n, s, e, tail),
                lambdas(e),
            ) by {
                let id = Constant::NodeId(call_id(n, node_id));
                let s1 = interned(s, id);
                match module_call(n, *callee) {
                    Some((module, op)) => match combinator(module, op) {
                        Some(c) => {
                            let t = in_line(n, s1, c, args@, number(s, id));
                            assert(queues_at_most(s1, t, lambdas_of(args@, args@.len())));
                        },
                        None => {
                            let t = exprs(n, s1, args@, args@.len());
                            assert(queues_at_most(s1, t, lambdas_of(args@, args@.len())));
                        },
                    },
                    None => {
                        let a = match *callee {
                            CExpr::Var { name } => if n.functions.contains_key(name@) {
                                s1
                            } else {
                                variable(n, s1, name@)
                            },
                            _ => expr(n, s1, *callee, false),
                        };
                        assert(queues_at_most(s1, a, lambdas(*callee)));
                        let t = exprs(n, a, args@, args@.len());
                        assert(queues_at_most(a, t, lambdas_of(args@, args@.len())));
                    },
                }
            }
        },
        _ => {},
    }
}

/// Law: compiling an expression queues no more lambdas than it holds, so
/// working off the queue comes to an end.
pub proof fn law_queue_is_bounded(n: Globals, s: Draft, e: CExpr, tail: bool)
    ensures
        queued(expr(n, s, e, tail).pending) <= queued(s.pending) + lambdas(e),
{
    lemma_expr(e);
    assert(queues_at_most(s, expr(n, s, e, tail), lambdas(e)));
}

} // verus!
