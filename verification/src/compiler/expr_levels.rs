//! The code of every expression leaves one value, on every path.

use vstd::prelude::*;

use crate::ast::{Arm, CExpr, CLit, Param, Pattern, PatternField, RecordField};
use crate::compiler::code_levels::{left, lemma_closing_levels};
use crate::compiler::combinators::{combinator, keeper, taken, tested_tag, Combinator};
use crate::compiler::draft::{
    emitted, emitted_all, field_read, interned, number, stored, with_local, Draft, Globals,
};
use crate::compiler::expr::{
    arguments, binary, bound_to, call, call_id, captured, effect, entries, expr, exprs, in_line,
    lambda, lambda_stub, loads, match_arms, module_call, record_fields, statements_of, swapped,
    typed, unary, variable, with_record_types,
};
use crate::compiler::free_vars::{free, param_names};
use crate::compiler::levels::{
    awaiting, balanced, begins, block_level, carries, deepened, goes_on, holed_level, joined,
    lemma_aimed, lemma_block, lemma_block_empty, lemma_block_push, lemma_holed_block, lemma_one,
    lemma_rises, lemma_still, lemma_still_awaiting, leveled, narrow, narrow_arms, narrow_exprs,
    narrow_fields, okay, op_level, prolongs, rises, settled, with_holes,
};
use crate::compiler::numeric::{common, expr_num, type_num, NumTy};
use crate::compiler::patterns::{
    literal, literal_test, part, patched, tested, tested_fields, tested_parts,
};
use crate::compiler::pool::Constant;
use crate::op::Op;

verus! {

broadcast use crate::compiler::draft::lemma_with_local;

// ---------------------------------------------------------------------------
// Small pieces
// ---------------------------------------------------------------------------

/// A fresh local does not undo an error.
proof fn lemma_local_fault(s: Draft, name: Seq<char>)
    ensures
        with_local(s, name).fault is None ==> s.fault is None,
{
    reveal(with_local);
}

proof fn lemma_literal_levels(s: Draft, l: CLit, ds: Seq<int>, open: Set<int>) -> (ds2: Seq<int>)
    ensures
        rises(s, literal(s, l), ds, ds2, open, 1),
{
    lemma_one(s, literal(s, l), literal(s, l).code.last(), 1, ds, open)
}

proof fn lemma_stored_levels(s: Draft, name: Seq<char>, ds: Seq<int>, open: Set<int>) -> (ds2:
    Seq<int>)
    ensures
        rises(s, stored(s, name), ds, ds2, open, -1),
{
    lemma_local_fault(s, name);
    lemma_one(s, stored(s, name), Op::StoreLocal(s.next_local), -1, ds, open)
}

proof fn lemma_field_read_levels(s: Draft, field: Seq<char>, ds: Seq<int>, open: Set<int>) -> (ds2:
    Seq<int>)
    ensures
        rises(s, field_read(s, field), ds, ds2, open, 0),
{
    lemma_one(s, field_read(s, field), field_read(s, field).code.last(), 0, ds, open)
}

proof fn lemma_variable_levels(g: Globals, s: Draft, name: Seq<char>, ds: Seq<int>, open: Set<int>)
    -> (ds2: Seq<int>)
    ensures
        rises(s, variable(g, s, name), ds, ds2, open, 1),
{
    let t = variable(g, s, name);
    if s.locals.contains_key(name) || g.functions.contains_key(name) {
        lemma_one(s, t, t.code.last(), 1, ds, open)
    } else {
        ds
    }
}

proof fn lemma_unary_levels(s: Draft, op: Seq<char>, ds: Seq<int>, open: Set<int>) -> (ds2: Seq<
    int,
>)
    ensures
        rises(s, unary(s, op), ds, ds2, open, 0),
{
    let t = unary(s, op);
    if t.fault is None {
        lemma_one(s, t, t.code.last(), 0, ds, open)
    } else {
        ds
    }
}

proof fn lemma_swapped_levels(s: Draft, ds: Seq<int>, open: Set<int>) -> (ds2: Seq<int>)
    ensures
        rises(s, swapped(s), ds, ds2, open, 0),
{
    let a = s.next_local;
    let s1 = with_local(s, "__swap_a"@);
    let b = s1.next_local;
    lemma_local_fault(s, "__swap_a"@);
    lemma_local_fault(s1, "__swap_b"@);
    let ops = seq![Op::StoreLocal(b), Op::StoreLocal(a), Op::LoadLocal(b), Op::LoadLocal(a)];
    let rel = seq![0int, -1int, -2int, -1int, 0int];
    assert(block_level(ops, rel)) by {
        broadcast use {lemma_block_push, lemma_block_empty};

    }
    lemma_block(s, swapped(s), ops, rel, ds, open);
    deepened(ds, rel)
}

proof fn lemma_binary_levels(s: Draft, op: Seq<char>, t: NumTy, ds: Seq<int>, open: Set<int>)
    -> (ds2: Seq<int>)
    ensures
        rises(s, binary(s, op, t), ds, ds2, open, -1),
{
    let r = binary(s, op, t);
    let eq = typed(t, Op::IntEq, Op::FloatEq, Op::NumEq);
    if r == emitted(s, r.code.last()) && goes_on(r.code.last(), -1) {
        lemma_one(s, r, r.code.last(), -1, ds, open)
    } else if r == emitted(emitted(s, eq), Op::BoolNot) {
        let a = emitted(s, eq);
        let da = lemma_one(s, a, eq, -1, ds, open);
        let dr = lemma_one(a, r, Op::BoolNot, 0, da, open);
        lemma_rises(s, a, r, ds, da, dr, open, -1, 0);
        dr
    } else if r == emitted(swapped(s), r.code.last()) && goes_on(r.code.last(), -1) {
        let w = swapped(s);
        let dw = lemma_swapped_levels(s, ds, open);
        let dr = lemma_one(w, r, r.code.last(), -1, dw, open);
        lemma_rises(s, w, r, ds, dw, dr, open, 0, -1);
        dr
    } else {
        assert(r.fault is Some);
        ds
    }
}

proof fn lemma_lambda_levels(
    s: Draft,
    params: Seq<Param>,
    body: CExpr,
    ds: Seq<int>,
    open: Set<int>,
) -> (ds2: Seq<int>)
    requires
        free(body, param_names(params, Set::empty()), Seq::empty()).len() <= u16::MAX,
        narrow(body),
    ensures
        rises(s, lambda(s, params, body), ds, ds2, open, 1),
{
    let captures = captured(s, params, body);
    let t = lambda(s, params, body);
    let u = Draft { functions: t.functions, pending: t.pending, ..s };
    let known = |n: Seq<char>| s.locals.contains_key(n);
    free(body, param_names(params, Set::empty()), Seq::empty()).lemma_filter_len(known);
    let stub = lambda_stub(s.functions.len() as u32, (captures.len() + params.len()) as u16);
    if settled(s.functions, s.pending) {
        assert forall|j: int|
            0 <= j < u.functions.len() && (#[trigger] u.functions[j]).code.len() > 0
                && u.functions[j].code.len() <= i32::MAX implies balanced(
            u.functions[j].code,
        ) by {
            if j < s.functions.len() {
                assert(u.functions[j] == s.functions[j]);
            } else {
                assert(u.functions[j] == stub);
            }
        }
        assert forall|j: int| 0 <= j < u.pending.len() implies narrow(
            (#[trigger] u.pending[j]).body,
        ) by {
            if j < s.pending.len() {
                assert(u.pending[j] == s.pending[j]);
            }
        }
    }
    assert(ds.take(ds.len() as int) =~= ds);
    assert(s.code.take(s.code.len() as int) =~= s.code);
    assert(rises(s, u, ds, ds, open, 0));
    let ops = loads(s, captures);
    let n = captures.len();
    let rel = Seq::new((n + 1) as nat, |i: int| i);
    let a = emitted_all(u, ops);
    assert(block_level(ops, rel));
    lemma_block(u, a, ops, rel, ds, open);
    let da = deepened(ds, rel);
    lemma_rises(s, u, a, ds, ds, da, open, 0, n as int);
    let dt = lemma_one(a, t, t.code.last(), 1 - n, da, open);
    lemma_rises(s, a, t, ds, da, dt, open, n as int, 1 - n);
    dt
}

proof fn lemma_effect_levels(
    s: Draft,
    kind: Seq<char>,
    op: Seq<char>,
    arity: u16,
    node_id_idx: u32,
    ds: Seq<int>,
    open: Set<int>,
) -> (ds2: Seq<int>)
    ensures
        rises(s, effect(s, kind, op, arity, node_id_idx), ds, ds2, open, 1 - arity),
{
    let t = effect(s, kind, op, arity, node_id_idx);
    lemma_one(s, t, t.code.last(), 1 - arity, ds, open)
}

// ---------------------------------------------------------------------------
// Patterns
// ---------------------------------------------------------------------------

/// The code tests parts of a value. It starts `from` above the depth `d`, and
/// ends at `d` whether the tests succeed or fail.
pub open spec fn sifts(
    s: Draft,
    t: Draft,
    ds: Seq<int>,
    ds2: Seq<int>,
    open: Set<int>,
    js: Seq<nat>,
    js2: Seq<nat>,
    lo: nat,
    d: int,
    from: int,
) -> bool {
    &&& okay(t) ==> okay(s)
    &&& t.fault is None ==> s.fault is None
    &&& okay(t) && awaiting(s.code, ds, open, js, lo, d) && lo <= s.code.len() && ds.last() == d
        + from ==> {
        &&& awaiting(t.code, ds2, open, js2, lo, d)
        &&& prolongs(ds2, ds)
        &&& ds2.last() == d
        &&& begins(t.code, s.code)
    }
    &&& t.fault is None && settled(s.functions, s.pending) ==> settled(t.functions, t.pending)
}

/// Code without tests, before the tests.
proof fn lemma_before_tests(
    s: Draft,
    a: Draft,
    t: Draft,
    ds: Seq<int>,
    da: Seq<int>,
    dt: Seq<int>,
    open: Set<int>,
    js: Seq<nat>,
    js2: Seq<nat>,
    lo: nat,
    d: int,
    from: int,
    x: int,
)
    requires
        rises(s, a, ds, da, joined(open, js), x),
        sifts(a, t, da, dt, open, js, js2, lo, d, from + x),
    ensures
        sifts(s, t, ds, dt, open, js, js2, lo, d, from),
{
    if okay(t) && awaiting(s.code, ds, open, js, lo, d) && lo <= s.code.len() && ds.last() == d
        + from {
        lemma_still_awaiting(s.code, a.code, ds, da, open, js, lo, d);
        lemma_prefixes(s, a, t, ds, da, dt);
    }
}

proof fn lemma_prefixes(
    s: Draft,
    a: Draft,
    t: Draft,
    ds: Seq<int>,
    da: Seq<int>,
    dt: Seq<int>,
)
    requires
        begins(a.code, s.code),
        begins(t.code, a.code),
        prolongs(da, ds),
        prolongs(dt, da),
    ensures
        begins(t.code, s.code),
        prolongs(dt, ds),
{
    assert(dt.take(ds.len() as int) =~= da.take(ds.len() as int)) by {
        assert forall|i: int| 0 <= i < ds.len() implies dt[i] == da[i] by {
            assert(dt.take(da.len() as int)[i] == dt[i]);
        }
    }
    assert(t.code.take(s.code.len() as int) =~= a.code.take(s.code.len() as int)) by {
        assert forall|i: int| 0 <= i < s.code.len() implies t.code[i] == a.code[i] by {
            assert(t.code.take(a.code.len() as int)[i] == t.code[i]);
        }
    }
}

/// Tests behind tests.
proof fn lemma_sifts(
    s: Draft,
    a: Draft,
    t: Draft,
    ds: Seq<int>,
    da: Seq<int>,
    dt: Seq<int>,
    open: Set<int>,
    js: Seq<nat>,
    ja: Seq<nat>,
    jt: Seq<nat>,
    lo: nat,
    d: int,
    from: int,
)
    requires
        sifts(s, a, ds, da, open, js, ja, lo, d, from),
        sifts(a, t, da, dt, open, ja, jt, lo, d, 0),
    ensures
        sifts(s, t, ds, dt, open, js, jt, lo, d, from),
{
    if okay(t) && awaiting(s.code, ds, open, js, lo, d) && lo <= s.code.len() && ds.last() == d
        + from {
        lemma_prefixes(s, a, t, ds, da, dt);
    }
}

/// Code that cannot fail.
proof fn lemma_without_test(
    s: Draft,
    t: Draft,
    ds: Seq<int>,
    ds2: Seq<int>,
    open: Set<int>,
    js: Seq<nat>,
    lo: nat,
    d: int,
    from: int,
)
    requires
        rises(s, t, ds, ds2, joined(open, js), -from),
    ensures
        sifts(s, t, ds, ds2, open, js, js, lo, d, from),
{
    if okay(t) && awaiting(s.code, ds, open, js, lo, d) && lo <= s.code.len() && ds.last() == d
        + from {
        lemma_still_awaiting(s.code, t.code, ds, ds2, open, js, lo, d);
    }
}

/// Ops with one jump that is aimed later.
proof fn lemma_with_test(
    s: Draft,
    t: Draft,
    ops: Seq<Op>,
    rel: Seq<int>,
    hole: int,
    ds: Seq<int>,
    open: Set<int>,
    js: Seq<nat>,
    lo: nat,
    d: int,
    from: int,
)
    requires
        t.code == s.code + ops,
        t.functions == s.functions,
        t.pending == s.pending,
        t.fault is None ==> s.fault is None,
        rel.len() == ops.len() + 1,
        rel[0] == 0,
        0 <= hole < ops.len(),
        holed_level(ops, rel, set![hole]),
        carries(ops[hole], hole, rel, -from),
    ensures
        okay(t) && awaiting(s.code, ds, open, js, lo, d) && lo <= s.code.len() && ds.last() == d
            + from ==> {
            let ds2 = deepened(ds, rel);
            &&& awaiting(t.code, ds2, open, js.push((s.code.len() + hole) as nat), lo, d)
            &&& prolongs(ds2, ds)
            &&& ds2.last() == ds.last() + rel.last()
            &&& begins(t.code, s.code)
        },
{
    if okay(t) && awaiting(s.code, ds, open, js, lo, d) && lo <= s.code.len() && ds.last() == d
        + from {
        let n = s.code.len() as int;
        let ds2 = deepened(ds, rel);
        let j = (n + hole) as nat;
        let all = js.push(j);
        lemma_holed_block(s.code, ops, rel, set![hole], ds, joined(open, js));
        assert(with_holes(joined(open, js), n, set![hole]) =~= joined(open, all)) by {
            assert forall|i: int| #[trigger]
                with_holes(joined(open, js), n, set![hole]).contains(i) <==> joined(
                    open,
                    all,
                ).contains(i) by {
                if 0 <= i && js.contains(i as nat) {
                    let k = choose|k: int| 0 <= k < js.len() && js[k] == i as nat;
                    assert(all[k] == i as nat);
                }
                if 0 <= i && all.contains(i as nat) {
                    let k = choose|k: int| 0 <= k < all.len() && all[k] == i as nat;
                    if k < js.len() {
                        assert(js[k] == i as nat);
                    }
                }
                if i == n + hole {
                    assert(all[js.len() as int] == i as nat);
                }
            }
        }
        assert forall|k: int| 0 <= k < all.len() implies lo <= #[trigger] all[k] < t.code.len()
            && carries(t.code[all[k] as int], all[k] as int, ds2, d) by {
            if k < js.len() {
                let q = js[k] as int;
                assert(all[k] == js[k]);
                assert(t.code[q] == s.code[q]);
                assert(ds2.take(ds.len() as int)[q] == ds2[q]);
                assert(ds2.take(ds.len() as int)[q + 1] == ds2[q + 1]);
            } else {
                assert(t.code[n + hole] == ops[hole]);
                assert(ds2[n + hole] == ds.last() + rel[hole]);
                assert(ds2[n + (hole + 1)] == ds.last() + rel[hole + 1]);
            }
        }
    }
}

proof fn lemma_tested_levels(
    s: Draft,
    js: Seq<nat>,
    p: Pattern,
    ds: Seq<int>,
    open: Set<int>,
    lo: nat,
    d: int,
) -> (ds2: Seq<int>)
    ensures
        sifts(s, tested(s, js, p).0, ds, ds2, open, js, tested(s, js, p).1, lo, d, 1),
    decreases p, 0nat,
{
    let (t, jt) = tested(s, js, p);
    let busy = joined(open, js);
    match p {
        Pattern::PWild => {
            let ds2 = lemma_one(s, t, Op::Pop, -1, ds, busy);
            lemma_without_test(s, t, ds, ds2, open, js, lo, d, 1);
            ds2
        },
        Pattern::PVar { name } => {
            let ds2 = lemma_stored_levels(s, name@, ds, busy);
            lemma_without_test(s, t, ds, ds2, open, js, lo, d, 1);
            ds2
        },
        Pattern::PLiteral { value } => {
            let a = literal(s, value);
            let b = emitted(a, literal_test(value));
            let da = lemma_literal_levels(s, value, ds, busy);
            let db = lemma_one(a, b, literal_test(value), -1, da, busy);
            lemma_rises(s, a, b, ds, da, db, busy, 1, -1);
            let ops = seq![Op::JumpIfNot(0)];
            let rel = seq![0int, -1int];
            assert(b.code + ops =~= b.code.push(Op::JumpIfNot(0)));
            lemma_with_test(b, t, ops, rel, 0, db, open, js, lo, d, 1);
            let dt = deepened(db, rel);
            assert(jt =~= js.push((b.code.len() + 0) as nat));
            assert(sifts(b, t, db, dt, open, js, jt, lo, d, 1));
            lemma_before_tests(s, b, t, ds, db, dt, open, js, jt, lo, d, 1, 0);
            dt
        },
        Pattern::PConstructor { name, args } => {
            let c = Constant::VariantName(name@);
            let ops = seq![
                Op::Dup,
                Op::TestVariant(number(s, c)),
                Op::JumpIf(2),
                Op::Pop,
                Op::Jump(0),
            ];
            let rel = seq![0int, 1int, 1int, 0int, -1int, 0int];
            let a = emitted_all(interned(s, c), ops);
            let f = js.push((s.code.len() + 4) as nat);
            assert(holed_level(ops, rel, set![4int]));
            lemma_with_test(s, a, ops, rel, 4, ds, open, js, lo, d, 1);
            let da = deepened(ds, rel);
            let busy = joined(open, f);
            if args@.len() == 0 {
                let dt = lemma_one(a, t, Op::Pop, -1, da, busy);
                lemma_without_test(a, t, da, dt, open, f, lo, d, 1);
                lemma_step_over(s, a, t, ds, da, dt, open, js, f, jt, lo, d);
                dt
            } else if args@.len() == 1 {
                let b = emitted(a, Op::GetVariantArg(0));
                let db = lemma_one(a, b, Op::GetVariantArg(0), 0, da, busy);
                let dt = lemma_tested_levels(b, f, args@[0], db, open, lo, d);
                lemma_before_tests(a, b, t, da, db, dt, open, f, jt, lo, d, 1, 0);
                lemma_step_over(s, a, t, ds, da, dt, open, js, f, jt, lo, d);
                dt
            } else {
                let b = stored(a, "__variant"@);
                let db = lemma_stored_levels(a, "__variant"@, da, busy);
                let dt = lemma_parts_levels(
                    b,
                    f,
                    args@,
                    args@.len(),
                    a.next_local,
                    true,
                    db,
                    open,
                    lo,
                    d,
                );
                lemma_before_tests(a, b, t, da, db, dt, open, f, jt, lo, d, 1, -1);
                lemma_step_over(s, a, t, ds, da, dt, open, js, f, jt, lo, d);
                dt
            }
        },
        Pattern::PRecord { fields } => {
            let b = stored(s, "__record"@);
            let db = lemma_stored_levels(s, "__record"@, ds, busy);
            let dt = lemma_fields_levels(
                b,
                js,
                fields@,
                fields@.len(),
                s.next_local,
                db,
                open,
                lo,
                d,
            );
            lemma_before_tests(s, b, t, ds, db, dt, open, js, jt, lo, d, 1, -1);
            dt
        },
        Pattern::PTuple { items } => {
            let b = stored(s, "__tuple"@);
            let db = lemma_stored_levels(s, "__tuple"@, ds, busy);
            let dt = lemma_parts_levels(
                b,
                js,
                items@,
                items@.len(),
                s.next_local,
                false,
                db,
                open,
                lo,
                d,
            );
            lemma_before_tests(s, b, t, ds, db, dt, open, js, jt, lo, d, 1, -1);
            dt
        },
    }
}

/// The test of a tag, which leaves the value where it was, and what follows.
proof fn lemma_step_over(
    s: Draft,
    a: Draft,
    t: Draft,
    ds: Seq<int>,
    da: Seq<int>,
    dt: Seq<int>,
    open: Set<int>,
    js: Seq<nat>,
    ja: Seq<nat>,
    jt: Seq<nat>,
    lo: nat,
    d: int,
)
    requires
        okay(a) ==> okay(s),
        a.fault is None ==> s.fault is None,
        a.functions == s.functions,
        a.pending == s.pending,
        okay(a) && awaiting(s.code, ds, open, js, lo, d) && lo <= s.code.len() && ds.last() == d + 1
            ==> awaiting(a.code, da, open, ja, lo, d) && prolongs(da, ds) && da.last() == ds.last()
            && begins(a.code, s.code),
        sifts(a, t, da, dt, open, ja, jt, lo, d, 1),
    ensures
        sifts(s, t, ds, dt, open, js, jt, lo, d, 1),
{
    if okay(t) && awaiting(s.code, ds, open, js, lo, d) && lo <= s.code.len() && ds.last() == d
        + 1 {
        lemma_prefixes(s, a, t, ds, da, dt);
    }
}

proof fn lemma_parts_levels(
    s: Draft,
    js: Seq<nat>,
    ps: Seq<Pattern>,
    k: nat,
    slot: u16,
    of_variant: bool,
    ds: Seq<int>,
    open: Set<int>,
    lo: nat,
    d: int,
) -> (ds2: Seq<int>)
    ensures
        sifts(
            s,
            tested_parts(s, js, ps, k, slot, of_variant).0,
            ds,
            ds2,
            open,
            js,
            tested_parts(s, js, ps, k, slot, of_variant).1,
            lo,
            d,
            0,
        ),
    decreases ps, k,
{
    if k == 0 || k > ps.len() {
        lemma_still(s, s, ds, joined(open, js));
        lemma_without_test(s, s, ds, ds, open, js, lo, d, 0);
        ds
    } else {
        let (a, f) = tested_parts(s, js, ps, (k - 1) as nat, slot, of_variant);
        let da = lemma_parts_levels(
            s,
            js,
            ps,
            (k - 1) as nat,
            slot,
            of_variant,
            ds,
            open,
            lo,
            d,
        );
        let busy = joined(open, f);
        let b = emitted(a, Op::LoadLocal(slot));
        let op = part(of_variant, (k - 1) as nat);
        let c = emitted(b, op);
        let db = lemma_one(a, b, Op::LoadLocal(slot), 1, da, busy);
        let dc = lemma_one(b, c, op, 0, db, busy);
        lemma_rises(a, b, c, da, db, dc, busy, 1, 0);
        let (t, jt) = tested(c, f, ps[k - 1]);
        let dt = lemma_tested_levels(c, f, ps[k - 1], dc, open, lo, d);
        lemma_before_tests(a, c, t, da, dc, dt, open, f, jt, lo, d, 0, 1);
        lemma_sifts(s, a, t, ds, da, dt, open, js, f, jt, lo, d, 0);
        dt
    }
}

proof fn lemma_fields_levels(
    s: Draft,
    js: Seq<nat>,
    fs: Seq<PatternField>,
    k: nat,
    slot: u16,
    ds: Seq<int>,
    open: Set<int>,
    lo: nat,
    d: int,
) -> (ds2: Seq<int>)
    ensures
        sifts(
            s,
            tested_fields(s, js, fs, k, slot).0,
            ds,
            ds2,
            open,
            js,
            tested_fields(s, js, fs, k, slot).1,
            lo,
            d,
            0,
        ),
    decreases fs, k,
{
    if k == 0 || k > fs.len() {
        lemma_still(s, s, ds, joined(open, js));
        lemma_without_test(s, s, ds, ds, open, js, lo, d, 0);
        ds
    } else {
        let (a, f) = tested_fields(s, js, fs, (k - 1) as nat, slot);
        let da = lemma_fields_levels(s, js, fs, (k - 1) as nat, slot, ds, open, lo, d);
        let busy = joined(open, f);
        let b = emitted(a, Op::LoadLocal(slot));
        let c = field_read(b, fs[k - 1].name@);
        let db = lemma_one(a, b, Op::LoadLocal(slot), 1, da, busy);
        let dc = lemma_field_read_levels(b, fs[k - 1].name@, db, busy);
        lemma_rises(a, b, c, da, db, dc, busy, 1, 0);
        let (t, jt) = tested(c, f, fs[k - 1].pattern);
        let dt = lemma_tested_levels(c, f, fs[k - 1].pattern, dc, open, lo, d);
        lemma_before_tests(a, c, t, da, dc, dt, open, f, jt, lo, d, 0, 1);
        lemma_sifts(s, a, t, ds, da, dt, open, js, f, jt, lo, d, 0);
        dt
    }
}

// ---------------------------------------------------------------------------
// Expressions
// ---------------------------------------------------------------------------

/// Compiling an expression makes the stack deeper by one.
pub proof fn lemma_expr_levels(
    g: Globals,
    s: Draft,
    e: CExpr,
    tail: bool,
    ds: Seq<int>,
    open: Set<int>,
) -> (ds2: Seq<int>)
    requires
        narrow(e),
    ensures
        rises(s, expr(g, s, e, tail), ds, ds2, open, 1),
    decreases e, 2nat,
{
    let r = expr(g, s, e, tail);
    match e {
        CExpr::Literal { value } => lemma_literal_levels(s, value, ds, open),
        CExpr::Var { name } => lemma_variable_levels(g, s, name@, ds, open),
        CExpr::Let { name, ty, value, body } => {
            let t = match ty {
                Some(ty) => type_num(ty),
                None => expr_num(s.types, s.records, *value),
            };
            let s1 = with_record_types(s, name@, *value);
            let a = expr(g, s1, *value, false);
            let b = bound_to(a, name@, t);
            lemma_still(s, s1, ds, open);
            let da = lemma_expr_levels(g, s1, *value, false, ds, open);
            lemma_rises(s, s1, a, ds, ds, da, open, 0, 1);
            lemma_local_fault(a, name@);
            let db = lemma_one(a, b, Op::StoreLocal(a.next_local), -1, da, open);
            lemma_rises(s, a, b, ds, da, db, open, 1, -1);
            let dr = lemma_expr_levels(g, b, *body, tail, db, open);
            lemma_rises(s, b, r, ds, db, dr, open, 0, 1);
            dr
        },
        CExpr::Block { statements, result } => {
            let a = statements_of(g, s, statements@, statements@.len());
            let da = lemma_statements_levels(g, s, statements@, statements@.len(), ds, open);
            let dr = lemma_expr_levels(g, a, *result, tail, da, open);
            lemma_rises(s, a, r, ds, da, dr, open, 0, 1);
            dr
        },
        CExpr::Call { .. } => lemma_call_levels(g, s, e, tail, ds, open),
        CExpr::Constructor { name, args } => {
            let n = args@.len();
            let a = exprs(g, s, args@, n);
            let da = lemma_exprs_levels(g, s, args@, n, ds, open);
            let dr = lemma_one(a, r, r.code.last(), 1 - n, da, open);
            lemma_rises(s, a, r, ds, da, dr, open, n as int, 1 - n);
            dr
        },
        CExpr::Match { scrutinee, arms } => {
            let a = expr(g, s, *scrutinee, false);
            let a1 = stored(a, "__scrut"@);
            let (b, ends) = match_arms(g, a1, arms@, arms@.len(), tail, a.next_local);
            let c = Constant::Str("non-exhaustive match"@);
            let op = Op::Panic(number(b, c));
            let p = emitted(interned(b, c), op);
            let da = lemma_expr_levels(g, s, *scrutinee, false, ds, open);
            let d1 = lemma_stored_levels(a, "__scrut"@, da, open);
            lemma_rises(s, a, a1, ds, da, d1, open, 1, -1);
            let db = lemma_arms_levels(
                g,
                a1,
                arms@,
                arms@.len(),
                tail,
                a.next_local,
                d1,
                open,
            );
            let dp = lemma_one(b, p, op, 1, db, joined(open, ends));
            if okay(r) && leveled(s.code, ds, open) {
                let d = ds.last();
                let lo = a1.code.len();
                lemma_still_awaiting(b.code, p.code, db, dp, open, ends, lo, d + 1);
                lemma_aimed(p.code, dp, open, ends, lo, d + 1);
                lemma_prefixes(a1, b, p, d1, db, dp);
                lemma_prefixes(s, a1, p, ds, d1, dp);
                assert(r.code.take(s.code.len() as int) =~= s.code) by {
                    assert forall|i: int| 0 <= i < s.code.len() implies r.code[i] == s.code[i] by {
                        assert(p.code.take(s.code.len() as int)[i] == p.code[i]);
                    }
                }
            }
            dp
        },
        CExpr::RecordLit { fields } => {
            let n = fields@.len();
            let (a, ids) = record_fields(g, s, fields@, n);
            let da = lemma_record_fields_levels(g, s, fields@, n, ds, open);
            let dr = lemma_one(a, r, r.code.last(), 1 - n, da, open);
            lemma_rises(s, a, r, ds, da, dr, open, n as int, 1 - n);
            dr
        },
        CExpr::TupleLit { items } => {
            let n = items@.len();
            let a = exprs(g, s, items@, n);
            let da = lemma_exprs_levels(g, s, items@, n, ds, open);
            let dr = lemma_one(a, r, r.code.last(), 1 - n, da, open);
            lemma_rises(s, a, r, ds, da, dr, open, n as int, 1 - n);
            dr
        },
        CExpr::ListLit { items } => {
            let n = items@.len();
            let a = exprs(g, s, items@, n);
            let da = lemma_exprs_levels(g, s, items@, n, ds, open);
            let dr = lemma_one(a, r, r.code.last(), 1 - n, da, open);
            lemma_rises(s, a, r, ds, da, dr, open, n as int, 1 - n);
            dr
        },
        CExpr::FieldAccess { value, field } => {
            let a = expr(g, s, *value, false);
            let da = lemma_expr_levels(g, s, *value, false, ds, open);
            let dr = lemma_field_read_levels(a, field@, da, open);
            lemma_rises(s, a, r, ds, da, dr, open, 1, 0);
            dr
        },
        CExpr::BinOp { op, lhs, rhs } => {
            let t = common(
                expr_num(s.types, s.records, *lhs),
                expr_num(s.types, s.records, *rhs),
            );
            let a = expr(g, s, *lhs, false);
            let b = expr(g, a, *rhs, false);
            let da = lemma_expr_levels(g, s, *lhs, false, ds, open);
            let db = lemma_expr_levels(g, a, *rhs, false, da, open);
            lemma_rises(s, a, b, ds, da, db, open, 1, 1);
            let dr = lemma_binary_levels(b, op@, t, db, open);
            lemma_rises(s, b, r, ds, db, dr, open, 2, -1);
            dr
        },
        CExpr::UnaryOp { op, expr: x } => {
            let a = expr(g, s, *x, false);
            let da = lemma_expr_levels(g, s, *x, false, ds, open);
            let dr = lemma_unary_levels(a, op@, da, open);
            lemma_rises(s, a, r, ds, da, dr, open, 1, 0);
            dr
        },
        CExpr::Lambda { params, body } => lemma_lambda_levels(s, params@, *body, ds, open),
        CExpr::Return { value } => {
            let a = expr(g, s, *value, true);
            let da = lemma_expr_levels(g, s, *value, true, ds, open);
            let dr = lemma_one(a, r, Op::Return, 0, da, open);
            lemma_rises(s, a, r, ds, da, dr, open, 1, 0);
            dr
        },
    }
}

proof fn lemma_exprs_levels(
    g: Globals,
    s: Draft,
    xs: Seq<CExpr>,
    k: nat,
    ds: Seq<int>,
    open: Set<int>,
) -> (ds2: Seq<int>)
    requires
        narrow_exprs(xs, k),
        k <= xs.len(),
    ensures
        rises(s, exprs(g, s, xs, k), ds, ds2, open, k as int),
    decreases xs, k,
{
    if k == 0 {
        lemma_still(s, s, ds, open);
        ds
    } else {
        let a = exprs(g, s, xs, (k - 1) as nat);
        let da = lemma_exprs_levels(g, s, xs, (k - 1) as nat, ds, open);
        let dr = lemma_expr_levels(g, a, xs[k - 1], false, da, open);
        lemma_rises(s, a, expr(g, a, xs[k - 1], false), ds, da, dr, open, k - 1, 1);
        dr
    }
}

proof fn lemma_statements_levels(
    g: Globals,
    s: Draft,
    xs: Seq<CExpr>,
    k: nat,
    ds: Seq<int>,
    open: Set<int>,
) -> (ds2: Seq<int>)
    requires
        narrow_exprs(xs, k),
    ensures
        rises(s, statements_of(g, s, xs, k), ds, ds2, open, 0),
    decreases xs, k,
{
    if k == 0 || k > xs.len() {
        lemma_still(s, s, ds, open);
        ds
    } else {
        let a = statements_of(g, s, xs, (k - 1) as nat);
        let b = expr(g, a, xs[k - 1], false);
        let r = emitted(b, Op::Pop);
        let da = lemma_statements_levels(g, s, xs, (k - 1) as nat, ds, open);
        let db = lemma_expr_levels(g, a, xs[k - 1], false, da, open);
        lemma_rises(s, a, b, ds, da, db, open, 0, 1);
        let dr = lemma_one(b, r, Op::Pop, -1, db, open);
        lemma_rises(s, b, r, ds, db, dr, open, 1, -1);
        dr
    }
}

proof fn lemma_record_fields_levels(
    g: Globals,
    s: Draft,
    fs: Seq<RecordField>,
    k: nat,
    ds: Seq<int>,
    open: Set<int>,
) -> (ds2: Seq<int>)
    requires
        narrow_fields(fs, k),
        k <= fs.len(),
    ensures
        rises(s, record_fields(g, s, fs, k).0, ds, ds2, open, k as int),
        record_fields(g, s, fs, k).1.len() == k,
    decreases fs, k,
{
    if k == 0 {
        lemma_still(s, s, ds, open);
        ds
    } else {
        let (a, ids) = record_fields(g, s, fs, (k - 1) as nat);
        let b = expr(g, a, fs[k - 1].value, false);
        let c = Constant::FieldName(fs[k - 1].name@);
        let r = interned(b, c);
        let da = lemma_record_fields_levels(g, s, fs, (k - 1) as nat, ds, open);
        let db = lemma_expr_levels(g, a, fs[k - 1].value, false, da, open);
        lemma_rises(s, a, b, ds, da, db, open, k - 1, 1);
        lemma_still(b, r, db, open);
        lemma_rises(s, b, r, ds, db, db, open, k as int, 0);
        db
    }
}

/// The arms of a match: the jumps to its end carry one value more than there
/// was, and where an arm fails the next one starts as it did.
proof fn lemma_arms_levels(
    g: Globals,
    s: Draft,
    arms: Seq<Arm>,
    k: nat,
    tail: bool,
    scrutinee: u16,
    ds: Seq<int>,
    open: Set<int>,
) -> (ds2: Seq<int>)
    requires
        narrow_arms(arms, k),
    ensures
        ({
            let (t, ends) = match_arms(g, s, arms, k, tail, scrutinee);
            &&& okay(t) ==> okay(s)
            &&& t.fault is None ==> s.fault is None
            &&& okay(t) && leveled(s.code, ds, open) ==> {
                &&& awaiting(t.code, ds2, open, ends, s.code.len(), ds.last() + 1)
                &&& prolongs(ds2, ds)
                &&& ds2.last() == ds.last()
                &&& begins(t.code, s.code)
            }
            &&& t.fault is None && settled(s.functions, s.pending) ==> settled(
                t.functions,
                t.pending,
            )
        }),
    decreases arms, k,
{
    if k == 0 || k > arms.len() {
        let none = Seq::<nat>::empty();
        assert(joined(open, none) =~= open);
        lemma_still(s, s, ds, open);
        ds
    } else {
        let (a, ends) = match_arms(g, s, arms, (k - 1) as nat, tail, scrutinee);
        let da = lemma_arms_levels(g, s, arms, (k - 1) as nat, tail, scrutinee, ds, open);
        let d = ds.last();
        let lo = s.code.len();
        let busy = joined(open, ends);
        let none = Seq::<nat>::empty();
        let a1 = emitted(a, Op::LoadLocal(scrutinee));
        let d1 = lemma_one(a, a1, Op::LoadLocal(scrutinee), 1, da, busy);
        let (t, fails) = tested(a1, none, arms[k - 1].pattern);
        let dt = lemma_tested_levels(a1, none, arms[k - 1].pattern, d1, busy, a1.code.len(), d);
        let both = joined(busy, fails);
        let b = expr(g, t, arms[k - 1].body, tail);
        let db = lemma_expr_levels(g, t, arms[k - 1].body, tail, dt, both);
        let p = emitted(b, Op::Jump(0));
        let (r, all) = match_arms(g, s, arms, k, tail, scrutinee);
        let dp = db.push(d);
        assert(all == ends.push(b.code.len()));
        assert(r.code == patched(p.code, fails, p.code.len() as int));
        if okay(r) && leveled(s.code, ds, open) {
            assert(joined(busy, none) =~= busy);
            assert(awaiting(a1.code, d1, busy, none, a1.code.len(), d));
            lemma_still_awaiting(t.code, b.code, dt, db, busy, fails, a1.code.len(), d);
            lemma_prefixes(a, a1, t, da, d1, dt);
            lemma_prefixes(a, t, b, da, dt, db);
            lemma_still_open(b.code, db, busy, fails, a1.code.len(), d);
            let wide = busy.insert(b.code.len() as int);
            lemma_aimed(p.code, dp, wide, fails, a1.code.len(), d);
            assert(wide =~= joined(open, all)) by {
                assert forall|i: int| #[trigger] wide.contains(i) <==> joined(
                    open,
                    all,
                ).contains(i) by {
                    if 0 <= i && ends.contains(i as nat) {
                        let q = choose|q: int| 0 <= q < ends.len() && ends[q] == i as nat;
                        assert(all[q] == i as nat);
                    }
                    if 0 <= i && all.contains(i as nat) {
                        let q = choose|q: int| 0 <= q < all.len() && all[q] == i as nat;
                        if q < ends.len() {
                            assert(ends[q] == i as nat);
                        }
                    }
                    if i == b.code.len() {
                        assert(all[ends.len() as int] == i as nat);
                    }
                }
            }
            assert(dp.take(da.len() as int) =~= db.take(da.len() as int));
            assert forall|i: int| 0 <= i < a.code.len() implies r.code[i] == a.code[i] by {
                assert(b.code.take(a.code.len() as int)[i] == b.code[i]);
                assert(p.code[i] == b.code[i]);
            }
            assert(r.code.take(a.code.len() as int) =~= a.code);
            lemma_prefixes(s, a, r, ds, da, dp);
            assert forall|q: int| 0 <= q < all.len() implies lo <= #[trigger] all[q] < r.code.len()
                && carries(r.code[all[q] as int], all[q] as int, dp, d + 1) by {
                if q < ends.len() {
                    let j = ends[q] as int;
                    assert(all[q] == ends[q]);
                    assert(r.code[j] == a.code[j]);
                    assert(dp.take(da.len() as int)[j] == dp[j]);
                    assert(dp.take(da.len() as int)[j + 1] == dp[j + 1]);
                } else {
                    let j = b.code.len() as int;
                    assert(!fails.contains(j as nat)) by {
                        if fails.contains(j as nat) {
                            let z = choose|z: int| 0 <= z < fails.len() && fails[z] == j as nat;
                            assert(fails[z] < t.code.len());
                        }
                    }
                    assert(r.code[j] == Op::Jump(0));
                    assert(dp[j] == db[j]);
                }
            }
        }
        dp
    }
}

/// One more op that stands open, with any depth behind it.
proof fn lemma_still_open(
    code: Seq<Op>,
    ds: Seq<int>,
    open: Set<int>,
    js: Seq<nat>,
    lo: nat,
    d: int,
)
    requires
        awaiting(code, ds, open, js, lo, d),
    ensures
        awaiting(
            code.push(Op::Jump(0)),
            ds.push(d),
            open.insert(code.len() as int),
            js,
            lo,
            d,
        ),
{
    let more = code.push(Op::Jump(0));
    let dm = ds.push(d);
    let wide = open.insert(code.len() as int);
    assert forall|i: int| 0 <= i < more.len() && !joined(wide, js).contains(i) implies op_level(
        #[trigger] more[i],
        i,
        dm,
    ) by {
        assert(!joined(open, js).contains(i));
        assert(more[i] == code[i]);
        assert(op_level(code[i], i, ds));
        assert(forall|k: int| 0 <= k < ds.len() ==> #[trigger] dm[k] == ds[k]);
    }
    assert forall|k: int| 0 <= k < js.len() implies lo <= #[trigger] js[k] < more.len() && carries(
        more[js[k] as int],
        js[k] as int,
        dm,
        d,
    ) by {
        let j = js[k] as int;
        assert(more[j] == code[j]);
        assert(dm[j] == ds[j]);
        assert(dm[j + 1] == ds[j + 1]);
    }
}

proof fn lemma_arguments_levels(
    g: Globals,
    s: Draft,
    c: Combinator,
    args: Seq<CExpr>,
    k: nat,
    node_id_idx: u32,
    ds: Seq<int>,
    open: Set<int>,
) -> (ds2: Seq<int>)
    requires
        narrow_exprs(args, args.len()),
    ensures
        rises(s, arguments(g, s, c, args, k, node_id_idx).0, ds, ds2, open, left(c, k)),
    decreases args, k,
{
    let (r, all) = arguments(g, s, c, args, k, node_id_idx);
    if k == 0 {
        lemma_still(s, s, ds, open);
        ds
    } else {
        let i = (k - 1) as nat;
        let (a, slots) = arguments(g, s, c, args, i, node_id_idx);
        let da = lemma_arguments_levels(g, s, c, args, i, node_id_idx, ds, open);
        if i >= args.len() {
            assert(r.fault is Some);
            ds
        } else {
            lemma_one_narrow(args, args.len(), i as int);
            let b = expr(g, a, args[i as int], false);
            let db = lemma_expr_levels(g, a, args[i as int], false, da, open);
            lemma_rises(s, a, b, ds, da, db, open, left(c, i), 1);
            let d = if c == Combinator::MapFold && i == 0 {
                entries(b, node_id_idx)
            } else {
                b
            };
            let dd = if c == Combinator::MapFold && i == 0 {
                lemma_one(b, d, d.code.last(), 0, db, open)
            } else {
                lemma_still(b, b, db, open);
                db
            };
            lemma_rises(s, b, d, ds, db, dd, open, left(c, i) + 1, 0);
            match keeper(c, i) {
                Some(name) => {
                    let dr = lemma_stored_levels(d, name, dd, open);
                    lemma_rises(s, d, r, ds, dd, dr, open, left(c, i) + 1, -1);
                    dr
                },
                None => dd,
            }
        }
    }
}

proof fn lemma_one_narrow(xs: Seq<CExpr>, k: nat, i: int)
    requires
        narrow_exprs(xs, k),
        0 <= i < k <= xs.len(),
    ensures
        narrow(xs[i]),
    decreases k,
{
    if i < k - 1 {
        lemma_one_narrow(xs, (k - 1) as nat, i);
    }
}

proof fn lemma_in_line_levels(
    g: Globals,
    s: Draft,
    c: Combinator,
    args: Seq<CExpr>,
    node_id_idx: u32,
    ds: Seq<int>,
    open: Set<int>,
) -> (ds2: Seq<int>)
    requires
        narrow_exprs(args, args.len()),
    ensures
        rises(s, in_line(g, s, c, args, node_id_idx), ds, ds2, open, 1),
    decreases args, 4nat,
{
    let r = in_line(g, s, c, args, node_id_idx);
    let k = taken(c);
    match tested_tag(c) {
        Some(tag) => {
            let t = Constant::VariantName(tag);
            let s1 = interned(s, t);
            let (a, slots) = arguments(g, s1, c, args, k, node_id_idx);
            lemma_still(s, s1, ds, open);
            let da = lemma_arguments_levels(g, s1, c, args, k, node_id_idx, ds, open);
            lemma_rises(s, s1, a, ds, ds, da, open, 0, left(c, k));
            let dr = lemma_closing_levels(g, a, c, slots, number(s, t), da, open);
            lemma_rises(s, a, r, ds, da, dr, open, left(c, k), 1 - left(c, k));
            dr
        },
        None => {
            let (a, slots) = arguments(g, s, c, args, k, node_id_idx);
            let da = lemma_arguments_levels(g, s, c, args, k, node_id_idx, ds, open);
            let dr = lemma_closing_levels(g, a, c, slots, 0, da, open);
            lemma_rises(s, a, r, ds, da, dr, open, left(c, k), 1 - left(c, k));
            dr
        },
    }
}

proof fn lemma_call_levels(
    g: Globals,
    s: Draft,
    e: CExpr,
    tail: bool,
    ds: Seq<int>,
    open: Set<int>,
) -> (ds2: Seq<int>)
    requires
        narrow(e),
        e is Call,
    ensures
        rises(s, call(g, s, e, tail), ds, ds2, open, 1),
    decreases e, 1nat,
{
    let r = call(g, s, e, tail);
    match e {
        CExpr::Call { node_id, callee, args } => {
            let id = Constant::NodeId(call_id(g, node_id));
            let i = number(s, id);
            let s1 = interned(s, id);
            let n = args@.len();
            lemma_still(s, s1, ds, open);
            match module_call(g, *callee) {
                Some((module, op)) => match combinator(module, op) {
                    Some(c) => {
                        let dr = lemma_in_line_levels(g, s1, c, args@, i, ds, open);
                        lemma_rises(s, s1, r, ds, ds, dr, open, 0, 1);
                        dr
                    },
                    None => {
                        let a = exprs(g, s1, args@, n);
                        let da = lemma_exprs_levels(g, s1, args@, n, ds, open);
                        lemma_rises(s, s1, a, ds, ds, da, open, 0, n as int);
                        let dr = lemma_effect_levels(a, module, op, n as u16, i, da, open);
                        lemma_rises(s, a, r, ds, da, dr, open, n as int, 1 - n);
                        dr
                    },
                },
                None => {
                    let named = match *callee {
                        CExpr::Var { name } => g.functions.contains_key(name@),
                        _ => false,
                    };
                    if named {
                        let a = exprs(g, s1, args@, n);
                        let da = lemma_exprs_levels(g, s1, args@, n, ds, open);
                        lemma_rises(s, s1, a, ds, ds, da, open, 0, n as int);
                        let dr = lemma_one(a, r, r.code.last(), 1 - n, da, open);
                        lemma_rises(s, a, r, ds, da, dr, open, n as int, 1 - n);
                        dr
                    } else {
                        let a = match *callee {
                            CExpr::Var { name } => variable(g, s1, name@),
                            _ => expr(g, s1, *callee, false),
                        };
                        let da = match *callee {
                            CExpr::Var { name } => lemma_variable_levels(g, s1, name@, ds, open),
                            _ => lemma_expr_levels(g, s1, *callee, false, ds, open),
                        };
                        lemma_rises(s, s1, a, ds, ds, da, open, 0, 1);
                        let b = exprs(g, a, args@, n);
                        let db = lemma_exprs_levels(g, a, args@, n, da, open);
                        lemma_rises(s, a, b, ds, da, db, open, 1, n as int);
                        let dr = lemma_one(b, r, r.code.last(), -(n as int), db, open);
                        lemma_rises(s, b, r, ds, db, dr, open, 1 + n as int, -(n as int));
                        dr
                    }
                },
            }
        },
        _ => ds,
    }
}

} // verus!
