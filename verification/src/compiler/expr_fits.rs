//! The code of every expression finds what it refers to.

use vstd::prelude::*;

use crate::ast::{Arm, CExpr, CLit, Param, Pattern, PatternField, RecordField};
use crate::compiler::code_fits::lemma_closing_keeps;
use crate::compiler::combinators::{closing, combinator, keeper, taken, tested_tag, Combinator};
use crate::compiler::draft::{
    emitted, emitted_all, failed, field_read, interned, number, stored, with_local, CompileFault,
    Draft, Globals,
};
use crate::compiler::expr::{
    arguments, binary, bound_to, call, call_id, captured, effect, entries, expr, exprs, in_line,
    lambda, lambda_stub, loads, match_arms, module_call, record_fields, statements_of, swapped,
    typed, unary, variable, with_record_types,
};
use crate::compiler::numeric::{common, expr_num, type_num, NumTy};
use crate::compiler::patterns::{
    literal, literal_test, part, patched, pushed, pushed_fresh, tested, tested_fields, tested_parts,
};
use crate::compiler::pool;
use crate::compiler::pool::{lemma_including, lemma_place_of_member, Constant};
use crate::compiler::soundness::{
    coded, fine, fits, function_fits, grew, is_const, is_field_name, is_node_id, is_text,
    is_variant_name, keeps, lemma_emitted, lemma_emitted_all, lemma_code_grew, lemma_fits_empty,
    lemma_fits_push, lemma_functions_grew, lemma_coded_same, lemma_grew, lemma_interned,
    lemma_keeps, lemma_pool, lemma_with_local, op_fits, small, sound,
};
use crate::op::Op;

verus! {

broadcast use {crate::compiler::draft::lemma_with_local, lemma_coded_same};

/// An op behind the code: it has to fit only where the code does.
proof fn lemma_op(g: Globals, s: Draft, op: Op)
    ensures
        grew(s, emitted(s, op)),
        sound(g, s) && fine(emitted(s, op)) && op_fits(
            op,
            s.code.len() as int,
            s.code.len() as int + 1,
            s.pool,
            s.functions.len(),
            s.peak_local,
        ) ==> sound(g, emitted(s, op)),
{
    if op_fits(
        op,
        s.code.len() as int,
        s.code.len() as int + 1,
        s.pool,
        s.functions.len(),
        s.peak_local,
    ) {
        lemma_emitted(g, s, op);
    }
}

proof fn lemma_failed(g: Globals, s: Draft, f: CompileFault)
    ensures
        keeps(g, s, failed(s, f)),
{
}

/// Constants stay where they are.
proof fn lemma_consts_stay(s: Draft, t: Draft, i: u32)
    requires
        grew(s, t),
    ensures
        is_variant_name(s.pool, i) ==> is_variant_name(t.pool, i),
        is_field_name(s.pool, i) ==> is_field_name(t.pool, i),
        is_text(s.pool, i) ==> is_text(t.pool, i),
        is_node_id(s.pool, i) ==> is_node_id(t.pool, i),
{
    if i < s.pool.consts.len() {
        assert(t.pool.consts[i as int] == s.pool.consts[i as int]);
    }
}

proof fn lemma_pushed(g: Globals, s: Draft, c: Constant)
    ensures
        keeps(g, s, pushed(s, c)),
{
    lemma_interned(g, s, c);
    lemma_op(g, interned(s, c), Op::PushConst(number(s, c)));
    lemma_grew(s, interned(s, c), pushed(s, c));
}

proof fn lemma_pushed_fresh(g: Globals, s: Draft, c: Constant)
    ensures
        keeps(g, s, pushed_fresh(s, c)),
{
    let t = Draft { pool: pool::with_fresh_const(s.pool, c), ..s };
    lemma_pool(g, s, t);
    lemma_op(g, t, Op::PushConst(s.pool.consts.len() as u32));
    lemma_grew(s, t, pushed_fresh(s, c));
}

proof fn lemma_literal(g: Globals, s: Draft, l: CLit)
    ensures
        keeps(g, s, literal(s, l)),
{
    match l {
        CLit::Int { value } => lemma_pushed(g, s, Constant::Int(value)),
        CLit::Bool { value } => lemma_pushed(g, s, Constant::Bool(value)),
        CLit::Float { bits, .. } => lemma_pushed_fresh(g, s, Constant::Float(bits)),
        CLit::Str { value } => lemma_pushed(g, s, Constant::Str(value@)),
        CLit::Bytes { .. } => lemma_pushed_fresh(g, s, Constant::Bytes(Seq::empty())),
        CLit::Unit => lemma_pushed_fresh(g, s, Constant::Unit),
    }
}

/// The new local is one of the locals.
proof fn lemma_stored(g: Globals, s: Draft, name: Seq<char>)
    ensures
        keeps(g, s, stored(s, name)),
        sound(g, s) && fine(stored(s, name)) ==> s.next_local < stored(s, name).peak_local,
{
    lemma_with_local(g, s, name);
    lemma_op(g, with_local(s, name), Op::StoreLocal(s.next_local));
    lemma_grew(s, with_local(s, name), stored(s, name));
}

proof fn lemma_field_read(g: Globals, s: Draft, field: Seq<char>)
    ensures
        keeps(g, s, field_read(s, field)),
{
    let c = Constant::FieldName(field);
    let a = interned(s, c);
    let op = Op::GetField { name_idx: number(s, c), site_idx: s.sites };
    lemma_interned(g, s, c);
    lemma_op(g, a, op);
    lemma_grew(s, a, emitted(a, op));
}

/// Aiming jumps at the end of the code.
proof fn lemma_patched(g: Globals, s: Draft, js: Seq<nat>)
    ensures
        keeps(g, s, (Draft { code: patched(s.code, js, s.code.len() as int), ..s })),
{
    let t = Draft { code: patched(s.code, js, s.code.len() as int), ..s };
    if sound(g, s) && t.code.len() <= i32::MAX {
        assert forall|i: int| 0 <= i < t.code.len() implies op_fits(
            #[trigger] t.code[i],
            i,
            t.code.len() as int,
            t.pool,
            t.functions.len(),
            t.peak_local,
        ) by {
            assert(op_fits(
                s.code[i],
                0 + i,
                s.code.len() as int,
                s.pool,
                s.functions.len(),
                s.peak_local,
            ));
        }
    }
}

proof fn lemma_variable(g: Globals, s: Draft, name: Seq<char>)
    ensures
        keeps(g, s, variable(g, s, name)),
{
    if s.locals.contains_key(name) {
        lemma_op(g, s, Op::LoadLocal(s.locals[name] as u16));
    } else if g.functions.contains_key(name) {
        lemma_op(g, s, Op::MakeClosure { fn_id: g.functions[name], capture_count: 0 });
    }
}

proof fn lemma_bound_to(g: Globals, s: Draft, name: Seq<char>, t: NumTy)
    ensures
        keeps(g, s, bound_to(s, name, t)),
{
    lemma_stored(g, s, name);
}

proof fn lemma_unary(g: Globals, s: Draft, op: Seq<char>)
    ensures
        keeps(g, s, unary(s, op)),
{
    lemma_op(g, s, Op::NumNeg);
    lemma_op(g, s, Op::BoolNot);
}

proof fn lemma_swapped(g: Globals, s: Draft)
    ensures
        keeps(g, s, swapped(s)),
{
    let a = s.next_local;
    let s1 = with_local(s, "__swap_a"@);
    let b = s1.next_local;
    let s2 = with_local(s1, "__swap_b"@);
    lemma_with_local(g, s, "__swap_a"@);
    lemma_with_local(g, s1, "__swap_b"@);
    lemma_keeps(g, s, s1, s2);
    let ops = seq![Op::StoreLocal(b), Op::StoreLocal(a), Op::LoadLocal(b), Op::LoadLocal(a)];
    let t = emitted_all(s2, ops);
    if sound(g, s) && fine(t) {
        assert(fine(s2));
        assert(fits(ops, s2.pool, s2.functions.len(), s2.peak_local)) by {
            broadcast use {lemma_fits_push, lemma_fits_empty};

        }
        lemma_emitted_all(g, s2, ops);
    }
}

proof fn lemma_binary(g: Globals, s: Draft, op: Seq<char>, t: NumTy)
    ensures
        keeps(g, s, binary(s, op, t)),
{
    let r = binary(s, op, t);
    lemma_swapped(g, s);
    let w = swapped(s);
    let eq = typed(t, Op::IntEq, Op::FloatEq, Op::NumEq);
    let lt = typed(t, Op::IntLt, Op::FloatLt, Op::NumLt);
    let le = typed(t, Op::IntLe, Op::FloatLe, Op::NumLe);
    lemma_op(g, s, typed(t, Op::IntAdd, Op::FloatAdd, Op::NumAdd));
    lemma_op(g, s, typed(t, Op::IntSub, Op::FloatSub, Op::NumSub));
    lemma_op(g, s, typed(t, Op::IntMul, Op::FloatMul, Op::NumMul));
    lemma_op(g, s, typed(t, Op::IntDiv, Op::FloatDiv, Op::NumDiv));
    lemma_op(g, s, typed(t, Op::IntMod, Op::NumMod, Op::NumMod));
    lemma_op(g, s, eq);
    lemma_op(g, emitted(s, eq), Op::BoolNot);
    lemma_grew(s, emitted(s, eq), emitted(emitted(s, eq), Op::BoolNot));
    lemma_op(g, s, lt);
    lemma_op(g, s, le);
    lemma_op(g, w, lt);
    lemma_op(g, w, le);
    lemma_grew(s, w, emitted(w, lt));
    lemma_grew(s, w, emitted(w, le));
    lemma_op(g, s, Op::BoolAnd);
    lemma_op(g, s, Op::BoolOr);
}

proof fn lemma_effect(
    g: Globals,
    s: Draft,
    kind: Seq<char>,
    op: Seq<char>,
    arity: u16,
    node_id_idx: u32,
)
    ensures
        grew(s, effect(s, kind, op, arity, node_id_idx)),
        sound(g, s) && is_node_id(s.pool, node_id_idx) && fine(
            effect(s, kind, op, arity, node_id_idx),
        ) ==> sound(g, effect(s, kind, op, arity, node_id_idx)),
{
    let kind_idx = number(s, Constant::Str(kind));
    let s1 = interned(s, Constant::Str(kind));
    let op_idx = number(s1, Constant::Str(op));
    let s2 = interned(s1, Constant::Str(op));
    let e = Op::EffectCall { kind_idx, op_idx, arity, node_id_idx };
    lemma_interned(g, s, Constant::Str(kind));
    lemma_interned(g, s1, Constant::Str(op));
    lemma_keeps(g, s, s1, s2);
    lemma_op(g, s2, e);
    lemma_grew(s, s2, emitted(s2, e));
    lemma_grew(s1, s2, emitted(s2, e));
    lemma_consts_stay(s1, s2, kind_idx);
    lemma_consts_stay(s, s2, node_id_idx);
}

proof fn lemma_entries(g: Globals, s: Draft, node_id_idx: u32)
    ensures
        grew(s, entries(s, node_id_idx)),
        sound(g, s) && is_node_id(s.pool, node_id_idx) && fine(entries(s, node_id_idx)) ==> sound(
            g,
            entries(s, node_id_idx),
        ),
{
    lemma_effect(g, s, "map"@, "entries"@, 1, node_id_idx);
}

proof fn lemma_lambda(g: Globals, s: Draft, params: Seq<Param>, body: CExpr)
    ensures
        keeps(g, s, lambda(s, params, body)),
{
    let captures = captured(s, params, body);
    let fn_id = s.functions.len() as u32;
    let arity = (captures.len() + params.len()) as u16;
    let t = lambda(s, params, body);
    assert(coded(s, t)) by {
        reveal(coded);
        if s.functions.len() <= u32::MAX {
            assert(t.pending[s.pending.len() as int].fn_id == s.functions.len());
        }
    }
    if sound(g, s) && fine(t) {
        let stub = lambda_stub(fn_id, arity);
        let u = Draft {
            functions: s.functions.push(stub),
            pending: t.pending,
            ..s
        };
        lemma_functions_grew(s, u);
        lemma_code_grew(s, u);
        assert forall|i: int| 0 <= i < u.functions.len() implies function_fits(
            #[trigger] u.functions[i],
            u.pool,
            u.functions.len(),
        ) by {
            if i < s.functions.len() {
                assert(u.functions[i] == s.functions[i]);
            } else {
                assert(u.functions[i] == stub);
            }
        }
        assert forall|i: int| 0 <= i < u.pending.len() implies (#[trigger] u.pending[i]).fn_id
            < u.functions.len() by {
            if i < s.pending.len() {
                assert(u.pending[i] == s.pending[i]);
            }
        }
        assert(sound(g, u));
        let ops = loads(s, captures);
        assert(fits(ops, u.pool, u.functions.len(), u.peak_local)) by {
            assert forall|i: int| 0 <= i < ops.len() implies op_fits(
                #[trigger] ops[i],
                0 + i,
                ops.len() as int,
                u.pool,
                u.functions.len(),
                u.peak_local,
            ) by {
                lemma_captured(s, params, body, i);
                assert(s.locals.contains_key(captures[i]));
            }
        }
        lemma_emitted_all(g, u, ops);
        lemma_op(
            g,
            emitted_all(u, ops),
            Op::MakeClosure { fn_id, capture_count: captures.len() as u16 },
        );
    }
}

/// What is captured is a local.
proof fn lemma_captured(s: Draft, params: Seq<Param>, body: CExpr, i: int)
    requires
        0 <= i < captured(s, params, body).len(),
    ensures
        s.locals.contains_key(captured(s, params, body)[i]),
{
    let all = crate::compiler::free_vars::free(
        body,
        crate::compiler::free_vars::param_names(params, Set::empty()),
        Seq::empty(),
    );
    let known = |n: Seq<char>| s.locals.contains_key(n);
    all.lemma_filter_pred(known, i);
}

// ---------------------------------------------------------------------------
// Patterns
// ---------------------------------------------------------------------------

proof fn lemma_tested_keeps(g: Globals, s: Draft, fails: Seq<nat>, p: Pattern)
    ensures
        keeps(g, s, tested(s, fails, p).0),
    decreases p, 0nat,
{
    match p {
        Pattern::PWild => lemma_op(g, s, Op::Pop),
        Pattern::PVar { name } => lemma_stored(g, s, name@),
        Pattern::PLiteral { value } => {
            let a = literal(s, value);
            let b = emitted(a, literal_test(value));
            lemma_literal(g, s, value);
            lemma_op(g, a, literal_test(value));
            lemma_keeps(g, s, a, b);
            lemma_op(g, b, Op::JumpIfNot(0));
            lemma_keeps(g, s, b, emitted(b, Op::JumpIfNot(0)));
        },
        Pattern::PConstructor { name, args } => {
            let c = Constant::VariantName(name@);
            let a = interned(s, c);
            let ops = seq![
                Op::Dup,
                Op::TestVariant(number(s, c)),
                Op::JumpIf(2),
                Op::Pop,
                Op::Jump(0),
            ];
            let t = emitted_all(a, ops);
            let f = fails.push((s.code.len() + 4) as nat);
            lemma_interned(g, s, c);
            if is_const(a.pool, number(s, c), c) {
                assert(fits(ops, a.pool, a.functions.len(), a.peak_local)) by {
                    broadcast use {lemma_fits_push, lemma_fits_empty};

                }
                lemma_emitted_all(g, a, ops);
            }
            assert(keeps(g, a, t));
            lemma_keeps(g, s, a, t);
            if args@.len() == 0 {
                lemma_op(g, t, Op::Pop);
                lemma_keeps(g, s, t, emitted(t, Op::Pop));
            } else if args@.len() == 1 {
                let b = emitted(t, Op::GetVariantArg(0));
                lemma_op(g, t, Op::GetVariantArg(0));
                lemma_keeps(g, s, t, b);
                lemma_tested_keeps(g, b, f, args@[0]);
                lemma_keeps(g, s, b, tested(b, f, args@[0]).0);
            } else {
                let b = stored(t, "__variant"@);
                lemma_stored(g, t, "__variant"@);
                lemma_parts_keep(g, b, f, args@, args@.len(), t.next_local, true);
                let r = tested_parts(b, f, args@, args@.len(), t.next_local, true).0;
                lemma_grew(t, b, r);
                lemma_keeps(g, s, t, r);
            }
        },
        Pattern::PRecord { fields } => {
            let b = stored(s, "__record"@);
            lemma_stored(g, s, "__record"@);
            lemma_fields_keep(g, b, fails, fields@, fields@.len(), s.next_local);
            lemma_grew(s, b, tested_fields(b, fails, fields@, fields@.len(), s.next_local).0);
        },
        Pattern::PTuple { items } => {
            let b = stored(s, "__tuple"@);
            lemma_stored(g, s, "__tuple"@);
            lemma_parts_keep(g, b, fails, items@, items@.len(), s.next_local, false);
            lemma_grew(s, b, tested_parts(b, fails, items@, items@.len(), s.next_local, false).0);
        },
    }
}

proof fn lemma_parts_keep(
    g: Globals,
    s: Draft,
    fails: Seq<nat>,
    ps: Seq<Pattern>,
    k: nat,
    slot: u16,
    of_variant: bool,
)
    ensures
        grew(s, tested_parts(s, fails, ps, k, slot, of_variant).0),
        sound(g, s) && slot < s.peak_local && fine(
            tested_parts(s, fails, ps, k, slot, of_variant).0,
        ) ==> sound(g, tested_parts(s, fails, ps, k, slot, of_variant).0),
    decreases ps, k,
{
    if k == 0 || k > ps.len() {
    } else {
        lemma_parts_keep(g, s, fails, ps, (k - 1) as nat, slot, of_variant);
        let (a, f) = tested_parts(s, fails, ps, (k - 1) as nat, slot, of_variant);
        let b = emitted(a, Op::LoadLocal(slot));
        let op = part(of_variant, (k - 1) as nat);
        let c = emitted(b, op);
        lemma_op(g, a, Op::LoadLocal(slot));
        lemma_op(g, b, op);
        lemma_tested_keeps(g, c, f, ps[k - 1]);
        let t = tested(c, f, ps[k - 1]).0;
        lemma_grew(b, c, t);
        lemma_grew(a, b, t);
        lemma_grew(s, a, t);
    }
}

proof fn lemma_fields_keep(
    g: Globals,
    s: Draft,
    fails: Seq<nat>,
    fs: Seq<PatternField>,
    k: nat,
    slot: u16,
)
    ensures
        grew(s, tested_fields(s, fails, fs, k, slot).0),
        sound(g, s) && slot < s.peak_local && fine(tested_fields(s, fails, fs, k, slot).0)
            ==> sound(g, tested_fields(s, fails, fs, k, slot).0),
    decreases fs, k,
{
    if k == 0 || k > fs.len() {
    } else {
        lemma_fields_keep(g, s, fails, fs, (k - 1) as nat, slot);
        let (a, f) = tested_fields(s, fails, fs, (k - 1) as nat, slot);
        let b = emitted(a, Op::LoadLocal(slot));
        let c = field_read(b, fs[k - 1].name@);
        lemma_op(g, a, Op::LoadLocal(slot));
        lemma_field_read(g, b, fs[k - 1].name@);
        lemma_tested_keeps(g, c, f, fs[k - 1].pattern);
        let t = tested(c, f, fs[k - 1].pattern).0;
        lemma_grew(b, c, t);
        lemma_grew(a, b, t);
        lemma_grew(s, a, t);
    }
}

// ---------------------------------------------------------------------------
// Expressions
// ---------------------------------------------------------------------------

proof fn lemma_with_record_types(g: Globals, s: Draft, name: Seq<char>, value: CExpr)
    ensures
        keeps(g, s, with_record_types(s, name, value)),
{
}

/// A record shape whose fields are field names.
proof fn lemma_shape(g: Globals, s: Draft, ids: Seq<u32>)
    ensures
        grew(s, (Draft { pool: pool::with_shape(s.pool, ids), ..s })),
        sound(g, s) && small(Draft { pool: pool::with_shape(s.pool, ids), ..s }) && (forall|j: int|
            0 <= j < ids.len() ==> is_field_name(s.pool, #[trigger] ids[j])) ==> {
            let t = Draft { pool: pool::with_shape(s.pool, ids), ..s };
            let i = pool::shape_number(s.pool, ids);
            sound(g, t) && i < t.pool.shapes.len() && t.pool.shapes[i as int] == ids
        },
{
    let t = Draft { pool: pool::with_shape(s.pool, ids), ..s };
    lemma_including(s.pool.shapes, ids, ids);
    lemma_place_of_member(t.pool.shapes, ids);
    if sound(g, s) && small(t) && (forall|j: int|
        0 <= j < ids.len() ==> is_field_name(s.pool, #[trigger] ids[j])) {
        lemma_code_grew(s, t);
        lemma_functions_grew(s, t);
        assert forall|i: int, j: int|
            0 <= i < t.pool.shapes.len() && 0 <= j < t.pool.shapes[i].len() implies is_field_name(
            t.pool,
            #[trigger] t.pool.shapes[i][j],
        ) by {
            if i < s.pool.shapes.len() {
                assert(is_field_name(s.pool, s.pool.shapes[i][j]));
            } else {
                assert(is_field_name(s.pool, ids[j]));
            }
        }
    }
}

/// Compiling an expression undoes nothing and keeps everything fitting.
pub proof fn lemma_expr_keeps(g: Globals, s: Draft, e: CExpr, tail: bool)
    ensures
        keeps(g, s, expr(g, s, e, tail)),
    decreases e, 2nat,
{
    match e {
        CExpr::Literal { value } => lemma_literal(g, s, value),
        CExpr::Var { name } => lemma_variable(g, s, name@),
        CExpr::Let { name, ty, value, body } => {
            let t = match ty {
                Some(ty) => type_num(ty),
                None => expr_num(s.types, s.records, *value),
            };
            let s1 = with_record_types(s, name@, *value);
            let a = expr(g, s1, *value, false);
            let b = bound_to(a, name@, t);
            lemma_with_record_types(g, s, name@, *value);
            lemma_expr_keeps(g, s1, *value, false);
            lemma_keeps(g, s, s1, a);
            lemma_bound_to(g, a, name@, t);
            lemma_keeps(g, s, a, b);
            lemma_expr_keeps(g, b, *body, tail);
            lemma_keeps(g, s, b, expr(g, b, *body, tail));
        },
        CExpr::Block { statements, result } => {
            let a = statements_of(g, s, statements@, statements@.len());
            lemma_statements_keep(g, s, statements@, statements@.len());
            lemma_expr_keeps(g, a, *result, tail);
            lemma_keeps(g, s, a, expr(g, a, *result, tail));
        },
        CExpr::Call { .. } => lemma_call_keeps(g, s, e, tail),
        CExpr::Constructor { name, args } => {
            let a = exprs(g, s, args@, args@.len());
            let c = Constant::VariantName(name@);
            let b = interned(a, c);
            let op = Op::MakeVariant { name_idx: number(a, c), arity: args@.len() as u16 };
            lemma_exprs_keep(g, s, args@, args@.len());
            lemma_interned(g, a, c);
            lemma_keeps(g, s, a, b);
            lemma_op(g, b, op);
            lemma_grew(s, b, emitted(b, op));
        },
        CExpr::Match { scrutinee, arms } => {
            let a = expr(g, s, *scrutinee, false);
            let a1 = stored(a, "__scrut"@);
            let (b, ends) = match_arms(g, a1, arms@, arms@.len(), tail, a.next_local);
            let c = Constant::Str("non-exhaustive match"@);
            let b1 = interned(b, c);
            let op = Op::Panic(number(b, c));
            let d = emitted(b1, op);
            let r = Draft { code: patched(d.code, ends, d.code.len() as int), ..d };
            lemma_expr_keeps(g, s, *scrutinee, false);
            lemma_stored(g, a, "__scrut"@);
            lemma_arms_keep(g, a1, arms@, arms@.len(), tail, a.next_local);
            lemma_grew(a, a1, b);
            lemma_keeps(g, s, a, b);
            lemma_interned(g, b, c);
            lemma_keeps(g, s, b, b1);
            lemma_op(g, b1, op);
            lemma_grew(s, b1, d);
            lemma_patched(g, d, ends);
            lemma_keeps(g, s, d, r);
        },
        CExpr::RecordLit { fields } => {
            let (a, ids) = record_fields(g, s, fields@, fields@.len());
            let b = Draft { pool: pool::with_shape(a.pool, ids), ..a };
            let op = Op::MakeRecord {
                shape_idx: pool::shape_number(a.pool, ids),
                field_count: ids.len() as u16,
            };
            lemma_record_fields_keep(g, s, fields@, fields@.len());
            lemma_shape(g, a, ids);
            lemma_op(g, b, op);
            lemma_grew(a, b, emitted(b, op));
            lemma_grew(s, a, emitted(b, op));
        },
        CExpr::TupleLit { items } => {
            let a = exprs(g, s, items@, items@.len());
            let op = Op::MakeTuple(items@.len() as u16);
            lemma_exprs_keep(g, s, items@, items@.len());
            lemma_op(g, a, op);
            lemma_grew(s, a, emitted(a, op));
        },
        CExpr::ListLit { items } => {
            let a = exprs(g, s, items@, items@.len());
            let op = Op::MakeList(items@.len() as u32);
            lemma_exprs_keep(g, s, items@, items@.len());
            lemma_op(g, a, op);
            lemma_grew(s, a, emitted(a, op));
        },
        CExpr::FieldAccess { value, field } => {
            let a = expr(g, s, *value, false);
            lemma_expr_keeps(g, s, *value, false);
            lemma_field_read(g, a, field@);
            lemma_keeps(g, s, a, field_read(a, field@));
        },
        CExpr::BinOp { op, lhs, rhs } => {
            let t = common(
                expr_num(s.types, s.records, *lhs),
                expr_num(s.types, s.records, *rhs),
            );
            let a = expr(g, s, *lhs, false);
            let b = expr(g, a, *rhs, false);
            lemma_expr_keeps(g, s, *lhs, false);
            lemma_expr_keeps(g, a, *rhs, false);
            lemma_keeps(g, s, a, b);
            lemma_binary(g, b, op@, t);
            lemma_keeps(g, s, b, binary(b, op@, t));
        },
        CExpr::UnaryOp { op, expr: x } => {
            let a = expr(g, s, *x, false);
            lemma_expr_keeps(g, s, *x, false);
            lemma_unary(g, a, op@);
            lemma_keeps(g, s, a, unary(a, op@));
        },
        CExpr::Lambda { params, body } => lemma_lambda(g, s, params@, *body),
        CExpr::Return { value } => {
            let a = expr(g, s, *value, true);
            lemma_expr_keeps(g, s, *value, true);
            lemma_op(g, a, Op::Return);
            lemma_grew(s, a, emitted(a, Op::Return));
        },
    }
}

proof fn lemma_exprs_keep(g: Globals, s: Draft, xs: Seq<CExpr>, k: nat)
    ensures
        keeps(g, s, exprs(g, s, xs, k)),
    decreases xs, k,
{
    if k == 0 || k > xs.len() {
    } else {
        let a = exprs(g, s, xs, (k - 1) as nat);
        lemma_exprs_keep(g, s, xs, (k - 1) as nat);
        lemma_expr_keeps(g, a, xs[k - 1], false);
        lemma_keeps(g, s, a, expr(g, a, xs[k - 1], false));
    }
}

proof fn lemma_statements_keep(g: Globals, s: Draft, xs: Seq<CExpr>, k: nat)
    ensures
        keeps(g, s, statements_of(g, s, xs, k)),
    decreases xs, k,
{
    if k == 0 || k > xs.len() {
    } else {
        let a = statements_of(g, s, xs, (k - 1) as nat);
        let b = expr(g, a, xs[k - 1], false);
        lemma_statements_keep(g, s, xs, (k - 1) as nat);
        lemma_expr_keeps(g, a, xs[k - 1], false);
        lemma_keeps(g, s, a, b);
        lemma_op(g, b, Op::Pop);
        lemma_keeps(g, s, b, emitted(b, Op::Pop));
    }
}

/// The numbers of the fields are those of field names.
proof fn lemma_record_fields_keep(g: Globals, s: Draft, fs: Seq<RecordField>, k: nat)
    ensures
        keeps(g, s, record_fields(g, s, fs, k).0),
        fine(record_fields(g, s, fs, k).0) ==> forall|j: int|
            0 <= j < record_fields(g, s, fs, k).1.len() ==> is_field_name(
                record_fields(g, s, fs, k).0.pool,
                #[trigger] record_fields(g, s, fs, k).1[j],
            ),
    decreases fs, k,
{
    if k == 0 || k > fs.len() {
    } else {
        let (a, ids) = record_fields(g, s, fs, (k - 1) as nat);
        let b = expr(g, a, fs[k - 1].value, false);
        let c = Constant::FieldName(fs[k - 1].name@);
        let t = interned(b, c);
        lemma_record_fields_keep(g, s, fs, (k - 1) as nat);
        lemma_expr_keeps(g, a, fs[k - 1].value, false);
        lemma_keeps(g, s, a, b);
        lemma_interned(g, b, c);
        lemma_keeps(g, s, b, t);
        lemma_grew(a, b, t);
        if fine(t) {
            let all = ids.push(number(b, c));
            lemma_grew(s, a, t);
            assert forall|j: int| 0 <= j < all.len() implies is_field_name(
                t.pool,
                #[trigger] all[j],
            ) by {
                if j < ids.len() {
                    assert(is_field_name(a.pool, ids[j]));
                    lemma_consts_stay(a, t, ids[j]);
                }
            }
        }
    }
}

proof fn lemma_arms_keep(
    g: Globals,
    s: Draft,
    arms: Seq<Arm>,
    k: nat,
    tail: bool,
    scrutinee: u16,
)
    ensures
        grew(s, match_arms(g, s, arms, k, tail, scrutinee).0),
        sound(g, s) && scrutinee < s.peak_local && fine(
            match_arms(g, s, arms, k, tail, scrutinee).0,
        ) ==> sound(g, match_arms(g, s, arms, k, tail, scrutinee).0),
    decreases arms, k,
{
    if k == 0 || k > arms.len() {
    } else {
        let (a, ends) = match_arms(g, s, arms, (k - 1) as nat, tail, scrutinee);
        let a1 = emitted(a, Op::LoadLocal(scrutinee));
        let (t, fails) = tested(a1, Seq::empty(), arms[k - 1].pattern);
        let b = expr(g, t, arms[k - 1].body, tail);
        let d = emitted(b, Op::Jump(0));
        let p = Draft { code: patched(d.code, fails, d.code.len() as int), ..d };
        let r = Draft { next_local: a.next_local, locals: a.locals, ..p };
        lemma_arms_keep(g, s, arms, (k - 1) as nat, tail, scrutinee);
        lemma_op(g, a, Op::LoadLocal(scrutinee));
        lemma_tested_keeps(g, a1, Seq::empty(), arms[k - 1].pattern);
        lemma_expr_keeps(g, t, arms[k - 1].body, tail);
        lemma_keeps(g, a1, t, b);
        lemma_op(g, b, Op::Jump(0));
        lemma_keeps(g, a1, b, d);
        lemma_patched(g, d, fails);
        lemma_keeps(g, a1, d, p);
        lemma_grew(a, a1, p);
        lemma_grew(s, a, p);
        assert(r == match_arms(g, s, arms, k, tail, scrutinee).0);
        assert(grew(p, r));
        lemma_grew(s, p, r);
        if sound(g, s) && scrutinee < s.peak_local && fine(r) {
            assert(fine(p));
            assert(sound(g, a));
            assert(sound(g, p));
        }
    }
}

/// Every argument that is kept in a local is kept in one of the locals.
proof fn lemma_arguments_keep(
    g: Globals,
    s: Draft,
    c: Combinator,
    args: Seq<CExpr>,
    k: nat,
    node_id_idx: u32,
)
    ensures
        grew(s, arguments(g, s, c, args, k, node_id_idx).0),
        arguments(g, s, c, args, k, node_id_idx).1.len() == k,
        sound(g, s) && is_node_id(s.pool, node_id_idx) && fine(
            arguments(g, s, c, args, k, node_id_idx).0,
        ) ==> sound(g, arguments(g, s, c, args, k, node_id_idx).0) && forall|i: nat|
            i < k && (#[trigger] keeper(c, i)) is Some ==> arguments(
                g,
                s,
                c,
                args,
                k,
                node_id_idx,
            ).1[i as int] < arguments(g, s, c, args, k, node_id_idx).0.peak_local,
    decreases args, k,
{
    if k > 0 {
        let i = (k - 1) as nat;
        let (a, slots) = arguments(g, s, c, args, i, node_id_idx);
        let (r, all) = arguments(g, s, c, args, k, node_id_idx);
        lemma_arguments_keep(g, s, c, args, i, node_id_idx);
        if i >= args.len() {
            lemma_failed(g, a, CompileFault::MissingArgument(i));
            lemma_grew(s, a, r);
        } else {
            let b = expr(g, a, args[i as int], false);
            let d = if c == Combinator::MapFold && i == 0 {
                entries(b, node_id_idx)
            } else {
                b
            };
            lemma_expr_keeps(g, a, args[i as int], false);
            lemma_grew(s, a, b);
            lemma_entries(g, b, node_id_idx);
            lemma_consts_stay(s, b, node_id_idx);
            lemma_grew(a, b, d);
            lemma_grew(s, a, d);
            match keeper(c, i) {
                Some(name) => {
                    lemma_stored(g, d, name);
                    lemma_grew(b, d, r);
                    lemma_grew(a, b, r);
                    lemma_grew(s, a, r);
                },
                None => {},
            }
            if sound(g, s) && is_node_id(s.pool, node_id_idx) && fine(r) {
                assert(fine(d) && fine(b) && fine(a));
                assert(sound(g, d));
                assert forall|j: nat| j < k
                    && (#[trigger] keeper(c, j)) is Some implies all[j as int]
                    < r.peak_local by {
                    if j < i {
                        assert(all[j as int] == slots[j as int]);
                    }
                }
            }
        }
    }
}

proof fn lemma_in_line_keeps(
    g: Globals,
    s: Draft,
    c: Combinator,
    args: Seq<CExpr>,
    node_id_idx: u32,
)
    ensures
        grew(s, in_line(g, s, c, args, node_id_idx)),
        sound(g, s) && is_node_id(s.pool, node_id_idx) && fine(
            in_line(g, s, c, args, node_id_idx),
        ) ==> sound(g, in_line(g, s, c, args, node_id_idx)),
    decreases args, 4nat,
{
    match tested_tag(c) {
        Some(tag) => {
            let t = Constant::VariantName(tag);
            let s1 = interned(s, t);
            let (a, slots) = arguments(g, s1, c, args, taken(c), node_id_idx);
            let r = closing(a, c, slots, number(s, t));
            lemma_interned(g, s, t);
            lemma_consts_stay(s, s1, node_id_idx);
            lemma_arguments_keep(g, s1, c, args, taken(c), node_id_idx);
            lemma_consts_stay(s1, a, number(s, t));
            lemma_closing_keeps(g, a, c, slots, number(s, t));
            lemma_grew(s1, a, r);
            lemma_grew(s, s1, r);
        },
        None => {
            let (a, slots) = arguments(g, s, c, args, taken(c), node_id_idx);
            let r = closing(a, c, slots, 0);
            lemma_arguments_keep(g, s, c, args, taken(c), node_id_idx);
            lemma_closing_keeps(g, a, c, slots, 0);
            lemma_grew(s, a, r);
        },
    }
}

proof fn lemma_call_keeps(g: Globals, s: Draft, e: CExpr, tail: bool)
    ensures
        keeps(g, s, call(g, s, e, tail)),
    decreases e, 1nat,
{
    match e {
        CExpr::Call { node_id, callee, args } => {
            let id = Constant::NodeId(call_id(g, node_id));
            let i = number(s, id);
            let s1 = interned(s, id);
            let arity = args@.len() as u16;
            let r = call(g, s, e, tail);
            lemma_interned(g, s, id);
            match module_call(g, *callee) {
                Some((module, op)) => match combinator(module, op) {
                    Some(c) => {
                        lemma_in_line_keeps(g, s1, c, args@, i);
                        lemma_grew(s, s1, r);
                    },
                    None => {
                        let a = exprs(g, s1, args@, args@.len());
                        lemma_exprs_keep(g, s1, args@, args@.len());
                        lemma_consts_stay(s1, a, i);
                        lemma_effect(g, a, module, op, arity, i);
                        lemma_grew(s1, a, r);
                        lemma_grew(s, s1, r);
                    },
                },
                None => {
                    let a = match *callee {
                        CExpr::Var { name } => if g.functions.contains_key(name@) {
                            s1
                        } else {
                            variable(g, s1, name@)
                        },
                        _ => expr(g, s1, *callee, false),
                    };
                    let b = exprs(g, a, args@, args@.len());
                    let op = match *callee {
                        CExpr::Var { name } => if g.functions.contains_key(name@) {
                            let fn_id = g.functions[name@];
                            if tail {
                                Op::TailCall { fn_id, arity, node_id_idx: i }
                            } else {
                                Op::Call { fn_id, arity, node_id_idx: i }
                            }
                        } else {
                            Op::CallClosure { arity, node_id_idx: i }
                        },
                        _ => Op::CallClosure { arity, node_id_idx: i },
                    };
                    match *callee {
                        CExpr::Var { name } => lemma_variable(g, s1, name@),
                        _ => lemma_expr_keeps(g, s1, *callee, false),
                    }
                    lemma_exprs_keep(g, a, args@, args@.len());
                    lemma_keeps(g, s1, a, b);
                    lemma_consts_stay(s1, b, i);
                    lemma_op(g, b, op);
                    assert(r == emitted(b, op));
                    lemma_grew(s1, b, r);
                    lemma_grew(s, s1, r);
                },
            }
        },
        _ => {},
    }
}

} // verus!
