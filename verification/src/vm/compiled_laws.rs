//! The code of a whole expression computes the value of the expression.

use vstd::prelude::*;

use crate::ast::{CExpr, CLit, TypeExpr};
use crate::compiler::draft::{emitted, interned, number, stored, with_local, Draft, Globals};
use crate::compiler::expr::{binary, bound_to, expr, exprs, swapped, unary, with_record_types};
use crate::compiler::numeric::{common, expr_num, num_at, type_num, NumTy};
use crate::compiler::patterns::literal;
use crate::compiler::pool::Constant;
use crate::compiler::soundness::is_const;
use crate::meaning::{
    alone_gives, gives, lemma_spellings, literal_value, of_type, value_of, values_of,
};
use crate::op::Op;
use crate::program::Program;
use crate::value::Val;
use crate::vm::expr_laws::{
    arrives, keeps_locals, law_operator_code_computes, law_unary_code_computes, lemma_arrives,
    lemma_goes_on, suits,
};
use crate::vm::paths::{
    at, holds, lemma_at, lemma_entered, lemma_fresh, lemma_load, lemma_make_variant, lemma_ops,
    lemma_start, lemma_step, lemma_store, lemma_tags, op_at, poised,
};
use crate::vm::plain::{plain, Move};
use crate::vm::state::{local_slot, top_frame, State};

verus! {

/// A draft that went on from another.
pub open spec fn extends(d: Draft, t: Draft) -> bool {
    &&& d.code.len() <= t.code.len()
    &&& forall|i: int| 0 <= i < d.code.len() ==> #[trigger] t.code[i] == d.code[i]
    &&& d.pool.consts.len() <= t.pool.consts.len()
    &&& forall|i: int|
        0 <= i < d.pool.consts.len() ==> #[trigger] t.pool.consts[i] == d.pool.consts[i]
    &&& d.pool.shapes.len() <= t.pool.shapes.len()
    &&& d.functions.len() <= t.functions.len()
    &&& d.peak_local <= t.peak_local
    &&& t.fault is None ==> d.fault is None && d.next_local <= t.next_local
    &&& t.fault is None && d.next_local <= d.peak_local ==> t.next_local <= t.peak_local
}

proof fn lemma_extends(a: Draft, b: Draft, c: Draft)
    requires
        extends(a, b),
        extends(b, c),
    ensures
        extends(a, c),
{
    assert forall|i: int| 0 <= i < a.code.len() implies #[trigger] c.code[i] == a.code[i] by {
        assert(b.code[i] == a.code[i]);
    }
    assert forall|i: int| 0 <= i < a.pool.consts.len() implies #[trigger] c.pool.consts[i]
        == a.pool.consts[i] by {
        assert(b.pool.consts[i] == a.pool.consts[i]);
    }
}

/// What is known of these names stays.
pub open spec fn keeps_names(d: Draft, t: Draft, keep: Set<Seq<char>>) -> bool {
    forall|name: Seq<char>| #[trigger]
        keep.contains(name) ==> (d.locals.contains_key(name) ==> t.locals.contains_key(name)
            && t.locals[name] == d.locals[name]) && num_at(t.types, name) == num_at(d.types, name)
}

/// The names of an expression are bound where they are used: no binding inside
/// a part hides a name that is used behind that part.
pub open spec fn well_scoped(e: CExpr, names: Set<Seq<char>>, keep: Set<Seq<char>>) -> bool
    decreases e,
{
    match e {
        CExpr::Literal { .. } | CExpr::Var { .. } => true,
        CExpr::UnaryOp { expr, .. } => well_scoped(*expr, names, keep),
        CExpr::BinOp { lhs, rhs, .. } => {
            &&& !keep.contains("__swap_a"@)
            &&& !keep.contains("__swap_b"@)
            &&& well_scoped(*lhs, names, keep.union(names))
            &&& well_scoped(*rhs, names, keep)
        },
        CExpr::Let { name, value, body, .. } => {
            &&& !keep.contains(name@)
            &&& well_scoped(*value, names, keep.union(names))
            &&& well_scoped(*body, names.insert(name@), keep)
        },
        CExpr::TupleLit { items } => forall|i: int|
            0 <= i < items@.len() ==> well_scoped(#[trigger] items@[i], names, keep.union(names)),
        CExpr::ListLit { items } => forall|i: int|
            0 <= i < items@.len() ==> well_scoped(#[trigger] items@[i], names, keep.union(names)),
        CExpr::Constructor { args, .. } => forall|i: int|
            0 <= i < args@.len() ==> well_scoped(#[trigger] args@[i], names, keep.union(names)),
        _ => false,
    }
}

pub open spec fn all_well_scoped(
    xs: Seq<CExpr>,
    names: Set<Seq<char>>,
    keep: Set<Seq<char>>,
) -> bool {
    forall|i: int| 0 <= i < xs.len() ==> well_scoped(#[trigger] xs[i], names, keep)
}

proof fn lemma_well_scoped(e: CExpr, names: Set<Seq<char>>, keep: Set<Seq<char>>)
    requires
        well_scoped(e, names, keep),
    ensures
        match e {
            CExpr::TupleLit { items } => all_well_scoped(items@, names, keep.union(names)),
            CExpr::ListLit { items } => all_well_scoped(items@, names, keep.union(names)),
            CExpr::Constructor { args, .. } => all_well_scoped(args@, names, keep.union(names)),
            _ => true,
        },
{
    reveal_with_fuel(well_scoped, 2);
}

/// A constant goes in.
proof fn lemma_interned_extends(d: Draft, c: Constant)
    ensures
        extends(d, interned(d, c)),
        interned(d, c).locals == d.locals,
        interned(d, c).types == d.types,
{
}

/// An op goes behind.
proof fn lemma_emitted_extends(d: Draft, op: Op)
    ensures
        extends(d, emitted(d, op)),
{
}

proof fn lemma_local_extends(d: Draft, name: Seq<char>)
    ensures
        extends(d, with_local(d, name)),
        with_local(d, name).locals == d.locals.insert(name, d.next_local as u32),
        with_local(d, name).types == d.types,
{
    reveal(with_local);
}

proof fn lemma_swapped_extends(d: Draft, keep: Set<Seq<char>>)
    requires
        !keep.contains("__swap_a"@),
        !keep.contains("__swap_b"@),
    ensures
        extends(d, swapped(d)),
        keeps_names(d, swapped(d), keep),
{
    let d1 = with_local(d, "__swap_a"@);
    let d2 = with_local(d1, "__swap_b"@);
    lemma_local_extends(d, "__swap_a"@);
    lemma_local_extends(d1, "__swap_b"@);
    lemma_extends(d, d1, d2);
    lemma_extends(d, d2, swapped(d));
}

/// The draft behind an operator.
#[verifier::spinoff_prover]
#[verifier::rlimit(40)]
proof fn lemma_binary_extends(d: Draft, op: Seq<char>, t: NumTy, keep: Set<Seq<char>>)
    requires
        !keep.contains("__swap_a"@),
        !keep.contains("__swap_b"@),
    ensures
        extends(d, binary(d, op, t)),
        keeps_names(d, binary(d, op, t), keep),
{
    let w = binary(d, op, t);
    if op == ">"@ || op == ">="@ {
        lemma_swapped_extends(d, keep);
        if w.code.len() > swapped(d).code.len() {
            lemma_emitted_extends(swapped(d), w.code.last());
            if w == emitted(swapped(d), w.code.last()) {
                lemma_extends(d, swapped(d), w);
            }
        }
    }
}

proof fn lemma_bound_extends(d: Draft, name: Seq<char>, t: NumTy, keep: Set<Seq<char>>)
    requires
        !keep.contains(name),
    ensures
        extends(d, bound_to(d, name, t)),
        keeps_names(d, bound_to(d, name, t), keep),
        bound_to(d, name, t).locals == d.locals.insert(name, d.next_local as u32),
        bound_to(d, name, t).types == d.types.insert(name, t),
        bound_to(d, name, t).code == d.code.push(Op::StoreLocal(d.next_local)),
        bound_to(d, name, t).pool == d.pool,
        bound_to(d, name, t).fault is None ==> bound_to(d, name, t).next_local == d.next_local + 1
            && bound_to(d, name, t).next_local <= bound_to(d, name, t).peak_local,
{
    lemma_local_extends(d, name);
    lemma_fresh(d, name);
    lemma_emitted_extends(with_local(d, name), Op::StoreLocal(d.next_local));
    lemma_extends(d, with_local(d, name), stored(d, name));
}

proof fn lemma_kept(a: Draft, b: Draft, c: Draft, k1: Set<Seq<char>>, keep: Set<Seq<char>>)
    requires
        keeps_names(a, b, k1),
        keeps_names(b, c, keep),
        keep.subset_of(k1),
    ensures
        keeps_names(a, c, keep),
{
    assert forall|name: Seq<char>| #[trigger] keep.contains(name) implies (d_has(a, name) ==> d_has(
        c,
        name,
    ) && c.locals[name] == a.locals[name]) && num_at(c.types, name) == num_at(a.types, name) by {
        assert(k1.contains(name));
    }
}

spec fn d_has(d: Draft, name: Seq<char>) -> bool {
    d.locals.contains_key(name)
}

/// The draft behind an expression.
#[verifier::spinoff_prover]
#[verifier::rlimit(60)]
proof fn lemma_draft(
    n: Globals,
    d: Draft,
    e: CExpr,
    tail: bool,
    names: Set<Seq<char>>,
    keep: Set<Seq<char>>,
)
    requires
        well_scoped(e, names, keep),
    ensures
        extends(d, expr(n, d, e, tail)),
        keeps_names(d, expr(n, d, e, tail), keep),
    decreases e, 1nat, 0nat,
{
    let both = keep.union(names);
    lemma_well_scoped(e, names, keep);
    match e {
        CExpr::Literal { value } => {},
        CExpr::Var { name } => {},
        CExpr::UnaryOp { op, expr: x } => {
            let a = expr(n, d, *x, false);
            lemma_draft(n, d, *x, false, names, keep);
            let t = unary(a, op@);
            assert(extends(a, t));
            lemma_extends(d, a, t);
        },
        CExpr::BinOp { op, lhs, rhs } => {
            let a = expr(n, d, *lhs, false);
            let b = expr(n, a, *rhs, false);
            let t = common(
                expr_num(d.types, d.records, *lhs),
                expr_num(d.types, d.records, *rhs),
            );
            lemma_draft(n, d, *lhs, false, names, both);
            lemma_draft(n, a, *rhs, false, names, keep);
            lemma_binary_extends(b, op@, t, keep);
            lemma_extends(d, a, b);
            lemma_extends(d, b, binary(b, op@, t));
            lemma_kept(d, a, b, both, keep);
            lemma_kept(d, b, binary(b, op@, t), keep, keep);
        },
        CExpr::Let { name, ty, value, body } => {
            let t = match ty {
                Some(ty) => type_num(ty),
                None => expr_num(d.types, d.records, *value),
            };
            let d1 = with_record_types(d, name@, *value);
            let a = expr(n, d1, *value, false);
            let b = bound_to(a, name@, t);
            let c = expr(n, b, *body, tail);
            lemma_draft(n, d1, *value, false, names, both);
            lemma_bound_extends(a, name@, t, keep);
            lemma_draft(n, b, *body, tail, names.insert(name@), keep);
            assert(extends(d, d1) && keeps_names(d, d1, both));
            lemma_extends(d, d1, a);
            lemma_extends(d, a, b);
            lemma_extends(d, b, c);
            lemma_kept(d, d1, a, both, both);
            lemma_kept(d, a, b, both, keep);
            lemma_kept(d, b, c, keep, keep);
        },
        CExpr::TupleLit { items } => {
            lemma_drafts(n, d, items@, items@.len(), names, both);
            let a = exprs(n, d, items@, items@.len());
            lemma_emitted_extends(a, Op::MakeTuple(items@.len() as u16));
            lemma_extends(d, a, emitted(a, Op::MakeTuple(items@.len() as u16)));
            lemma_kept(d, a, expr(n, d, e, tail), both, keep);
        },
        CExpr::ListLit { items } => {
            lemma_drafts(n, d, items@, items@.len(), names, both);
            let a = exprs(n, d, items@, items@.len());
            lemma_emitted_extends(a, Op::MakeList(items@.len() as u32));
            lemma_extends(d, a, emitted(a, Op::MakeList(items@.len() as u32)));
            lemma_kept(d, a, expr(n, d, e, tail), both, keep);
        },
        CExpr::Constructor { name, args } => {
            lemma_drafts(n, d, args@, args@.len(), names, both);
            let a = exprs(n, d, args@, args@.len());
            let c = Constant::VariantName(name@);
            lemma_interned_extends(a, c);
            lemma_extends(d, a, interned(a, c));
            lemma_extends(d, interned(a, c), expr(n, d, e, tail));
            lemma_kept(d, a, expr(n, d, e, tail), both, keep);
        },
        _ => {},
    }
}

/// The draft behind the first `k` expressions.
proof fn lemma_drafts(
    n: Globals,
    d: Draft,
    xs: Seq<CExpr>,
    k: nat,
    names: Set<Seq<char>>,
    keep: Set<Seq<char>>,
)
    requires
        all_well_scoped(xs, names, keep),
        k <= xs.len(),
    ensures
        extends(d, exprs(n, d, xs, k)),
        keeps_names(d, exprs(n, d, xs, k), keep),
    decreases xs, 0nat, k,
{
    if k > 0 {
        let a = exprs(n, d, xs, (k - 1) as nat);
        lemma_drafts(n, d, xs, (k - 1) as nat, names, keep);
        assert(well_scoped(xs[k - 1], names, keep));
        lemma_draft(n, a, xs[k - 1], false, names, keep);
        lemma_extends(d, a, exprs(n, d, xs, k));
        lemma_kept(d, a, exprs(n, d, xs, k), keep, keep);
    }
}

/// The locals hold the values of the names, and what is known of their types is
/// true.
pub open spec fn knows(s: State, d: Draft, env: Map<Seq<char>, Val>) -> bool {
    &&& d.next_local <= d.peak_local
    &&& forall|name: Seq<char>| #[trigger]
        env.contains_key(name) ==> {
            &&& d.locals.contains_key(name)
            &&& d.locals[name] < d.next_local
            &&& s.locals[top_frame(s).locals_start + d.locals[name]] == env[name]
            &&& suits(num_at(d.types, name), env[name])
        }
}

/// What is known of the type of an expression is true of its value.
proof fn lemma_num(
    types: Map<Seq<char>, NumTy>,
    records: Map<Seq<char>, Map<Seq<char>, NumTy>>,
    e: CExpr,
    env: Map<Seq<char>, Val>,
    v: Val,
)
    requires
        value_of(e, env) == Some(v),
        forall|name: Seq<char>| #[trigger]
            env.contains_key(name) ==> suits(num_at(types, name), env[name]),
    ensures
        suits(expr_num(types, records, e), v),
    decreases e,
{
    match e {
        CExpr::BinOp { op, lhs, rhs } => {
            let a = value_of(*lhs, env)->0;
            let b = value_of(*rhs, env)->0;
            lemma_num(types, records, *lhs, env, a);
            lemma_num(types, records, *rhs, env, b);
            lemma_spellings();
            assert(gives(op@, a, b, v));
        },
        CExpr::UnaryOp { op, expr } => {
            let a = value_of(*expr, env)->0;
            lemma_num(types, records, *expr, env, a);
            lemma_spellings();
            assert(alone_gives(op@, a, v));
        },
        _ => {},
    }
}

proof fn lemma_type(ty: TypeExpr, v: Val)
    requires
        of_type(ty, v),
    ensures
        suits(type_num(ty), v),
    decreases ty,
{
    if let TypeExpr::Refined { base, .. } = ty {
        lemma_type(*base, v);
    }
}

/// A part of the code.
pub proof fn lemma_part(p: Program, code: Seq<Op>, s: State, d: Draft, a: Draft, t: Draft)
    requires
        poised(p, code, s, d, t),
        extends(a, t),
    ensures
        poised(p, code, s, d, a),
{
    assert forall|i: int| 0 <= i < a.code.len() implies #[trigger] code[i] == a.code[i] by {
        assert(t.code[i] == a.code[i]);
    }
    lemma_constants(p, code, s, t);
    assert forall|i: int| 0 <= i < a.pool.consts.len() implies (#[trigger] p.constants@[i])@
        == a.pool.consts[i] by {
        assert(t.pool.consts[i] == a.pool.consts[i]);
    }
    assert(holds(p, code, s, a));
}

/// Behind a part of the code.
pub proof fn lemma_behind(
    p: Program,
    code: Seq<Op>,
    s: State,
    d: Draft,
    a: Draft,
    t: Draft,
    stack: Seq<Val>,
    lo: Seq<Val>,
)
    requires
        poised(p, code, s, d, t),
        lo.len() == s.locals.len(),
    ensures
        poised(p, code, at(s, a.code.len(), stack, lo), a, t),
        top_frame(at(s, a.code.len(), stack, lo)).locals_start == top_frame(s).locals_start,
{
    let u = at(s, a.code.len(), stack, lo);
    lemma_at(s, a.code.len(), stack, lo, a.code.len());
    assert(u.frames.len() > 0 && u.locals == lo);
    assert(crate::vm::plain::code_len(p, u) == crate::vm::plain::code_len(p, s));
    lemma_constants(p, code, s, t);
    assert(holds(p, code, u, t));
}

/// The program has all constants of the code.
proof fn lemma_constants(p: Program, code: Seq<Op>, s: State, t: Draft)
    requires
        holds(p, code, s, t),
    ensures
        t.pool.consts.len() <= p.constants@.len(),
{
    if t.pool.consts.len() > p.constants@.len() {
        let i = p.constants@.len() as int;
        assert(p.constants@[i]@ == t.pool.consts[i]);
    }
}

/// What was known stays known behind code that keeps the names.
proof fn lemma_still_known(
    s: State,
    d: Draft,
    a: Draft,
    env: Map<Seq<char>, Val>,
    keep: Set<Seq<char>>,
    pc: nat,
    stack: Seq<Val>,
    lo: Seq<Val>,
)
    requires
        s.frames.len() > 0,
        knows(s, d, env),
        keeps_names(d, a, keep),
        env.dom().subset_of(keep),
        d.next_local <= a.next_local <= a.peak_local,
        keeps_locals(s, d, lo),
        top_frame(s).locals_start + d.next_local <= s.locals.len(),
    ensures
        knows(at(s, pc, stack, lo), a, env),
{
    let t = at(s, pc, stack, lo);
    lemma_at(s, pc, stack, lo, pc);
    assert forall|name: Seq<char>| #[trigger] env.contains_key(name) implies {
        &&& a.locals.contains_key(name)
        &&& a.locals[name] < a.next_local
        &&& t.locals[top_frame(t).locals_start + a.locals[name]] == env[name]
        &&& suits(num_at(a.types, name), env[name])
    } by {
        assert(keep.contains(name));
        let j = top_frame(s).locals_start + d.locals[name];
        assert(lo[j as int] == s.locals[j as int]);
    }
}

/// A constant on the stack.
proof fn lemma_push_const(p: Program, code: Seq<Op>, s: State, d: Draft, i: u32, c: Constant,
    v: Val, t: Draft)
    requires
        poised(p, code, s, d, t),
        t.code.len() == d.code.len() + 1,
        t.code.last() == Op::PushConst(i),
        is_const(t.pool, i, c),
        match c {
            Constant::Int(n) => v == Val::Int(n),
            Constant::Float(b) => v == Val::Float(b),
            Constant::Bool(b) => v == Val::Bool(b),
            Constant::Str(x) => v == Val::Str(x),
            Constant::Unit => v == Val::Unit,
            _ => false,
        },
    ensures
        arrives(p, code, s, t.code.len(), s.stack.push(v), s.locals),
{
    let k = d.code.len();
    lemma_ops(p, code, s, t);
    lemma_start(p, code, s);
    assert(p.constants@[i as int]@ == t.pool.consts[i as int]);
    assert(t.code[k as int] == Op::PushConst(i));
    assert(op_at(code, s, k, Op::PushConst(i)));
    lemma_at(s, k, s.stack, s.locals, k + 1);
    let out = s.stack.push(v);
    assert(plain(p, at(s, k, s.stack, s.locals), Op::PushConst(i)) == Move::Go(
        at(s, k + 1, out, s.locals),
    ));
    lemma_step(p, code, s, 0, k, s.stack, s.locals, Op::PushConst(i), k + 1, out, s.locals);
    lemma_arrives(p, code, s, 1, k + 1, out, s.locals);
}

/// Law: the code of a literal leaves the value of the literal.
pub proof fn law_literal_code_computes(
    p: Program,
    code: Seq<Op>,
    s: State,
    d: Draft,
    l: CLit,
    v: Val,
)
    requires
        poised(p, code, s, d, literal(d, l)),
        literal_value(l) == Some(v),
    ensures
        arrives(p, code, s, literal(d, l).code.len(), s.stack.push(v), s.locals),
{
    let t = literal(d, l);
    match l {
        CLit::Int { value } => {
            let c = Constant::Int(value);
            lemma_entered(d, c);
            lemma_push_const(p, code, s, d, number(d, c), c, v, t);
        },
        CLit::Bool { value } => {
            let c = Constant::Bool(value);
            lemma_entered(d, c);
            lemma_push_const(p, code, s, d, number(d, c), c, v, t);
        },
        CLit::Str { value } => {
            let c = Constant::Str(value@);
            lemma_entered(d, c);
            lemma_push_const(p, code, s, d, number(d, c), c, v, t);
        },
        CLit::Float { bits, .. } => {
            let c = Constant::Float(bits);
            lemma_push_const(p, code, s, d, d.pool.consts.len() as u32, c, v, t);
        },
        CLit::Unit => {
            let c = Constant::Unit;
            lemma_push_const(p, code, s, d, d.pool.consts.len() as u32, c, v, t);
        },
        _ => {},
    }
}

/// The code of an expression ends with its value on the stack.
#[verifier::opaque]
pub open spec fn computes(
    p: Program,
    code: Seq<Op>,
    s: State,
    d: Draft,
    t: Draft,
    out: Seq<Val>,
) -> bool {
    exists|lo: Seq<Val>| #[trigger]
        arrives(p, code, s, t.code.len(), s.stack + out, lo) && keeps_locals(s, d, lo)
}

proof fn lemma_computes(
    p: Program,
    code: Seq<Op>,
    s: State,
    d: Draft,
    t: Draft,
    v: Val,
    lo: Seq<Val>,
)
    requires
        arrives(p, code, s, t.code.len(), s.stack.push(v), lo),
        keeps_locals(s, d, lo),
    ensures
        computes(p, code, s, d, t, seq![v]),
{
    reveal(computes);
    assert(s.stack + seq![v] =~= s.stack.push(v));
}

/// The locals behind code that computes.
proof fn lemma_computed(
    p: Program,
    code: Seq<Op>,
    s: State,
    d: Draft,
    t: Draft,
    out: Seq<Val>,
) -> (lo: Seq<Val>)
    requires
        computes(p, code, s, d, t, out),
    ensures
        arrives(p, code, s, t.code.len(), s.stack + out, lo),
        keeps_locals(s, d, lo),
{
    reveal(computes);
    choose|lo: Seq<Val>| #[trigger]
        arrives(p, code, s, t.code.len(), s.stack + out, lo) && keeps_locals(s, d, lo)
}

/// The operator behind its two operands.
proof fn lemma_operator_computes(
    p: Program,
    code: Seq<Op>,
    s: State,
    d: Draft,
    b: Draft,
    op: Seq<char>,
    t: NumTy,
    x: Val,
    y: Val,
    v: Val,
    lo: Seq<Val>,
)
    requires
        poised(p, code, s, d, binary(b, op, t)),
        arrives(p, code, s, b.code.len(), s.stack.push(x).push(y), lo),
        keeps_locals(s, d, lo),
        d.next_local <= b.next_local,
        suits(t, x),
        suits(t, y),
        gives(op, x, y, v),
    ensures
        computes(p, code, s, d, binary(b, op, t), seq![v]),
{
    let w = binary(b, op, t);
    let s2 = at(s, b.code.len(), s.stack.push(x).push(y), lo);
    lemma_behind(p, code, s, d, b, w, s.stack.push(x).push(y), lo);
    law_operator_code_computes(p, code, s2, b, op, t, s.stack, x, y, v);
    let l2 = choose|l2: Seq<Val>| #[trigger]
        arrives(p, code, s2, w.code.len(), s.stack.push(v), l2) && keeps_locals(s2, b, l2);
    lemma_goes_on(
        p,
        code,
        s,
        b.code.len(),
        s.stack.push(x).push(y),
        lo,
        w.code.len(),
        s.stack.push(v),
        l2,
    );
    assert(keeps_locals(s, d, l2)) by {
        assert forall|j: int| 0 <= j < l2.len() && j < top_frame(s).locals_start
            + d.next_local implies l2[j] == #[trigger] s.locals[j] by {
            assert(l2[j] == s2.locals[j]);
        }
    }
    lemma_computes(p, code, s, d, w, v, l2);
}

/// The value of a local on the stack.
proof fn lemma_variable(
    p: Program,
    code: Seq<Op>,
    s: State,
    d: Draft,
    t: Draft,
    i: u16,
    v: Val,
)
    requires
        poised(p, code, s, d, t),
        t == emitted(d, Op::LoadLocal(i)),
        local_slot(s, i) < s.locals.len(),
        s.locals[local_slot(s, i)] == v,
    ensures
        computes(p, code, s, d, t, seq![v]),
{
    let k = d.code.len();
    lemma_ops(p, code, s, t);
    lemma_start(p, code, s);
    assert(t.code[k as int] == Op::LoadLocal(i));
    lemma_load(p, code, s, 0, k, s.stack, s.locals, i);
    lemma_arrives(p, code, s, 1, k + 1, s.stack.push(v), s.locals);
    lemma_computes(p, code, s, d, t, v, s.locals);
}

/// The value on the stack goes into a fresh local.
proof fn lemma_bind(
    p: Program,
    code: Seq<Op>,
    s: State,
    a: Draft,
    name: Seq<char>,
    t: NumTy,
    st: Seq<Val>,
    v: Val,
)
    requires
        poised(p, code, s, a, bound_to(a, name, t)),
        s.stack == st.push(v),
    ensures
        arrives(
            p,
            code,
            s,
            a.code.len() + 1,
            st,
            s.locals.update(local_slot(s, a.next_local), v),
        ),
{
    let b = bound_to(a, name, t);
    let k = a.code.len();
    lemma_bound_extends(a, name, t, Set::empty());
    lemma_ops(p, code, s, b);
    lemma_start(p, code, s);
    assert(b.code[k as int] == Op::StoreLocal(a.next_local));
    lemma_store(p, code, s, 0, k, st, v, s.locals, a.next_local);
    lemma_arrives(
        p,
        code,
        s,
        1,
        k + 1,
        st,
        s.locals.update(local_slot(s, a.next_local), v),
    );
}

/// An aggregate of the values on the stack.
proof fn lemma_gather(
    p: Program,
    code: Seq<Op>,
    s: State,
    d: Draft,
    a: Draft,
    t: Draft,
    op: Op,
    vs: Seq<Val>,
    v: Val,
    lo: Seq<Val>,
)
    requires
        poised(p, code, s, d, t),
        t.code == a.code.push(op),
        arrives(p, code, s, a.code.len(), s.stack + vs, lo),
        keeps_locals(s, d, lo),
        (op is MakeTuple && vs.len() == op->MakeTuple_0 && v == Val::Tuple(vs)) || (op is MakeList
            && vs.len() == op->MakeList_0 && v == Val::List(vs)),
    ensures
        computes(p, code, s, d, t, seq![v]),
{
    let k = a.code.len();
    let u = at(s, k, s.stack + vs, lo);
    lemma_behind(p, code, s, d, a, t, s.stack + vs, lo);
    lemma_ops(p, code, u, t);
    lemma_start(p, code, u);
    assert(t.code[k as int] == op);
    assert(op_at(code, u, k, op));
    lemma_at(u, k, u.stack, u.locals, k + 1);
    assert(u.stack.take(s.stack.len() as int) =~= s.stack);
    assert(u.stack.skip(s.stack.len() as int) =~= vs);
    assert(plain(p, at(u, k, u.stack, u.locals), op) == Move::Go(
        at(u, k + 1, s.stack.push(v), u.locals),
    ));
    lemma_step(p, code, u, 0, k, u.stack, u.locals, op, k + 1, s.stack.push(v), u.locals);
    lemma_arrives(p, code, u, 1, k + 1, s.stack.push(v), lo);
    lemma_goes_on(p, code, s, k, s.stack + vs, lo, k + 1, s.stack.push(v), lo);
    lemma_computes(p, code, s, d, t, v, lo);
}

/// A variant of the values on the stack.
proof fn lemma_tag(
    p: Program,
    code: Seq<Op>,
    s: State,
    d: Draft,
    a: Draft,
    name: Seq<char>,
    vs: Seq<Val>,
    lo: Seq<Val>,
)
    requires
        ({
            let c = Constant::VariantName(name);
            poised(
                p,
                code,
                s,
                d,
                emitted(
                    interned(a, c),
                    Op::MakeVariant { name_idx: number(a, c), arity: vs.len() as u16 },
                ),
            )
        }),
        vs.len() <= u16::MAX,
        arrives(p, code, s, a.code.len(), s.stack + vs, lo),
        keeps_locals(s, d, lo),
    ensures
        ({
            let c = Constant::VariantName(name);
            computes(
                p,
                code,
                s,
                d,
                emitted(
                    interned(a, c),
                    Op::MakeVariant { name_idx: number(a, c), arity: vs.len() as u16 },
                ),
                seq![Val::Variant { name, args: vs }],
            )
        }),
{
    let c = Constant::VariantName(name);
    let i = number(a, c);
    let t = emitted(interned(a, c), Op::MakeVariant { name_idx: i, arity: vs.len() as u16 });
    let k = a.code.len();
    let v = Val::Variant { name, args: vs };
    let u = at(s, k, s.stack + vs, lo);
    lemma_entered(a, c);
    lemma_behind(p, code, s, d, a, t, s.stack + vs, lo);
    lemma_ops(p, code, u, t);
    lemma_tags(p, code, u, t);
    lemma_start(p, code, u);
    assert(t.code[k as int] == Op::MakeVariant { name_idx: i, arity: vs.len() as u16 });
    lemma_make_variant(p, code, u, 0, k, s.stack, vs, lo, i, vs.len() as u16, name);
    lemma_arrives(p, code, u, 1, k + 1, s.stack.push(v), lo);
    lemma_goes_on(p, code, s, k, s.stack + vs, lo, k + 1, s.stack.push(v), lo);
    lemma_computes(p, code, s, d, t, v, lo);
}

/// No more parts than a tuple, a list or a variant can have.
pub open spec fn is_small(e: CExpr) -> bool
    decreases e,
{
    match e {
        CExpr::UnaryOp { expr, .. } => is_small(*expr),
        CExpr::BinOp { lhs, rhs, .. } => is_small(*lhs) && is_small(*rhs),
        CExpr::Let { value, body, .. } => is_small(*value) && is_small(*body),
        CExpr::TupleLit { items } => items@.len() <= u16::MAX && forall|i: int|
            0 <= i < items@.len() ==> is_small(#[trigger] items@[i]),
        CExpr::ListLit { items } => items@.len() <= u32::MAX && forall|i: int|
            0 <= i < items@.len() ==> is_small(#[trigger] items@[i]),
        CExpr::Constructor { args, .. } => args@.len() <= u16::MAX && forall|i: int|
            0 <= i < args@.len() ==> is_small(#[trigger] args@[i]),
        _ => true,
    }
}

pub open spec fn all_small(xs: Seq<CExpr>) -> bool {
    forall|i: int| 0 <= i < xs.len() ==> is_small(#[trigger] xs[i])
}

proof fn lemma_small(e: CExpr)
    requires
        is_small(e),
    ensures
        match e {
            CExpr::TupleLit { items } => items@.len() <= u16::MAX && all_small(items@),
            CExpr::ListLit { items } => items@.len() <= u32::MAX && all_small(items@),
            CExpr::Constructor { args, .. } => args@.len() <= u16::MAX && all_small(args@),
            _ => true,
        },
{
    reveal_with_fuel(is_small, 2);
}

proof fn lemma_values_len(xs: Seq<CExpr>, k: nat, env: Map<Seq<char>, Val>)
    requires
        k <= xs.len(),
    ensures
        values_of(xs, k, env) matches Some(vs) ==> vs.len() == k,
    decreases k,
{
    if k > 0 {
        lemma_values_len(xs, (k - 1) as nat, env);
    }
}

/// Locals that were kept twice were kept.
proof fn lemma_kept_on(
    s: State,
    d: Draft,
    a: Draft,
    pc: nat,
    stack: Seq<Val>,
    lo: Seq<Val>,
    l2: Seq<Val>,
)
    requires
        s.frames.len() > 0,
        keeps_locals(s, d, lo),
        keeps_locals(at(s, pc, stack, lo), a, l2),
        d.next_local <= a.next_local,
    ensures
        keeps_locals(s, d, l2),
{
    let t = at(s, pc, stack, lo);
    lemma_at(s, pc, stack, lo, pc);
    assert forall|j: int| 0 <= j < l2.len() && j < top_frame(s).locals_start
        + d.next_local implies l2[j] == #[trigger] s.locals[j] by {
        assert(l2[j] == t.locals[j]);
    }
}

/// The code of an expression computes its value.
#[verifier::spinoff_prover]
#[verifier::rlimit(80)]
proof fn lemma_expression(
    p: Program,
    code: Seq<Op>,
    s: State,
    n: Globals,
    d: Draft,
    e: CExpr,
    tail: bool,
    env: Map<Seq<char>, Val>,
    keep: Set<Seq<char>>,
    v: Val,
)
    requires
        poised(p, code, s, d, expr(n, d, e, tail)),
        value_of(e, env) == Some(v),
        well_scoped(e, env.dom(), keep),
        is_small(e),
        knows(s, d, env),
    ensures
        computes(p, code, s, d, expr(n, d, e, tail), seq![v]),
    decreases e, 1nat, 0nat,
{
    let t = expr(n, d, e, tail);
    let names = env.dom();
    let both = keep.union(names);
    lemma_draft(n, d, e, tail, names, keep);
    lemma_well_scoped(e, names, keep);
    lemma_small(e);
    match e {
        CExpr::Literal { value } => {
            law_literal_code_computes(p, code, s, d, value, v);
            lemma_computes(p, code, s, d, t, v, s.locals);
        },
        CExpr::Var { name } => {
            assert(env.contains_key(name@));
            assert(d.peak_local <= t.peak_local);
            lemma_variable(p, code, s, d, t, d.locals[name@] as u16, v);
        },
        CExpr::UnaryOp { op, expr: x } => {
            let a = expr(n, d, *x, false);
            let w = value_of(*x, env)->0;
            lemma_draft(n, d, *x, false, names, keep);
            assert(extends(a, t));
            lemma_part(p, code, s, d, a, t);
            lemma_expression(p, code, s, n, d, *x, false, env, keep, w);
            let lo = lemma_computed(p, code, s, d, a, seq![w]);
            assert(s.stack + seq![w] =~= s.stack.push(w));
            let u = at(s, a.code.len(), s.stack.push(w), lo);
            lemma_behind(p, code, s, d, a, t, s.stack.push(w), lo);
            assert(alone_gives(op@, w, v));
            law_unary_code_computes(p, code, u, a, op@, s.stack, w, v);
            lemma_goes_on(
                p,
                code,
                s,
                a.code.len(),
                s.stack.push(w),
                lo,
                t.code.len(),
                s.stack.push(v),
                lo,
            );
            lemma_computes(p, code, s, d, t, v, lo);
        },
        CExpr::BinOp { op, lhs, rhs } => {
            let a = expr(n, d, *lhs, false);
            let b = expr(n, a, *rhs, false);
            let x = value_of(*lhs, env)->0;
            let y = value_of(*rhs, env)->0;
            let ty = common(
                expr_num(d.types, d.records, *lhs),
                expr_num(d.types, d.records, *rhs),
            );
            lemma_draft(n, d, *lhs, false, names, both);
            lemma_draft(n, a, *rhs, false, names, keep);
            lemma_binary_extends(b, op@, ty, keep);
            lemma_extends(a, b, t);
            lemma_part(p, code, s, d, a, t);
            lemma_scope_known(*lhs, names, keep);
            lemma_expression(p, code, s, n, d, *lhs, false, env, both, x);
            let lo = lemma_computed(p, code, s, d, a, seq![x]);
            assert(s.stack + seq![x] =~= s.stack.push(x));
            let s1 = s.stack.push(x);
            let u = at(s, a.code.len(), s1, lo);
            lemma_behind(p, code, s, d, a, t, s1, lo);
            lemma_part(p, code, u, a, b, t);
            lemma_still_known(s, d, a, env, both, a.code.len(), s1, lo);
            lemma_expression(p, code, u, n, a, *rhs, false, env, keep, y);
            let l2 = lemma_computed(p, code, u, a, b, seq![y]);
            assert(u.stack + seq![y] =~= s1.push(y));
            lemma_goes_on(p, code, s, a.code.len(), s1, lo, b.code.len(), s1.push(y), l2);
            lemma_kept_on(s, d, a, a.code.len(), s1, lo, l2);
            lemma_num(d.types, d.records, *lhs, env, x);
            lemma_num(d.types, d.records, *rhs, env, y);
            assert(gives(op@, x, y, v));
            lemma_operator_computes(p, code, s, d, b, op@, ty, x, y, v, l2);
        },
        CExpr::Let { name, ty, value, body } => {
            lemma_let(p, code, s, n, d, e, tail, env, keep, v);
        },
        CExpr::TupleLit { items } => {
            let k = items@.len();
            let a = exprs(n, d, items@, k);
            let vs = values_of(items@, k, env)->0;
            lemma_values_len(items@, k, env);
            lemma_drafts(n, d, items@, k, names, both);
            assert(extends(a, t));
            lemma_part(p, code, s, d, a, t);
            lemma_expressions(p, code, s, n, d, items@, k, env, both, vs);
            let lo = lemma_computed(p, code, s, d, a, vs);
            lemma_gather(p, code, s, d, a, t, Op::MakeTuple(k as u16), vs, v, lo);
        },
        CExpr::ListLit { items } => {
            let k = items@.len();
            let a = exprs(n, d, items@, k);
            let vs = values_of(items@, k, env)->0;
            lemma_values_len(items@, k, env);
            lemma_drafts(n, d, items@, k, names, both);
            assert(extends(a, t));
            lemma_part(p, code, s, d, a, t);
            lemma_expressions(p, code, s, n, d, items@, k, env, both, vs);
            let lo = lemma_computed(p, code, s, d, a, vs);
            lemma_gather(p, code, s, d, a, t, Op::MakeList(k as u32), vs, v, lo);
        },
        CExpr::Constructor { name, args } => {
            let k = args@.len();
            let a = exprs(n, d, args@, k);
            let vs = values_of(args@, k, env)->0;
            lemma_values_len(args@, k, env);
            lemma_drafts(n, d, args@, k, names, both);
            lemma_interned_extends(a, Constant::VariantName(name@));
            lemma_extends(a, interned(a, Constant::VariantName(name@)), t);
            lemma_part(p, code, s, d, a, t);
            lemma_expressions(p, code, s, n, d, args@, k, env, both, vs);
            let lo = lemma_computed(p, code, s, d, a, vs);
            lemma_tag(p, code, s, d, a, name@, vs, lo);
        },
        _ => {},
    }
}

proof fn lemma_scope_known(e: CExpr, names: Set<Seq<char>>, keep: Set<Seq<char>>)
    ensures
        names.subset_of(keep.union(names)),
{
}

/// The code of a binding.
#[verifier::spinoff_prover]
#[verifier::rlimit(80)]
proof fn lemma_let(
    p: Program,
    code: Seq<Op>,
    s: State,
    n: Globals,
    d: Draft,
    e: CExpr,
    tail: bool,
    env: Map<Seq<char>, Val>,
    keep: Set<Seq<char>>,
    v: Val,
)
    requires
        e is Let,
        poised(p, code, s, d, expr(n, d, e, tail)),
        value_of(e, env) == Some(v),
        well_scoped(e, env.dom(), keep),
        is_small(e),
        knows(s, d, env),
    ensures
        computes(p, code, s, d, expr(n, d, e, tail), seq![v]),
    decreases e, 0nat, 0nat,
{
    let t = expr(n, d, e, tail);
    let names = env.dom();
    let both = keep.union(names);
    if let CExpr::Let { name, ty, value, body } = e {
        let nt = match ty {
            Some(ty) => type_num(ty),
            None => expr_num(d.types, d.records, *value),
        };
        let d1 = with_record_types(d, name@, *value);
        let a = expr(n, d1, *value, false);
        let b = bound_to(a, name@, nt);
        let x = value_of(*value, env)->0;
        let inner = env.insert(name@, x);
        assert(inner.dom() =~= names.insert(name@));
        lemma_draft(n, d1, *value, false, names, both);
        lemma_bound_extends(a, name@, nt, keep);
        lemma_draft(n, b, *body, tail, names.insert(name@), keep);
        lemma_extends(a, b, t);
        assert(poised(p, code, s, d1, t));
        lemma_part(p, code, s, d1, a, t);
        assert(knows(s, d1, env));
        lemma_expression(p, code, s, n, d1, *value, false, env, both, x);
        let lo = lemma_computed(p, code, s, d1, a, seq![x]);
        assert(s.stack + seq![x] =~= s.stack.push(x));
        let s1 = s.stack.push(x);
        let u = at(s, a.code.len(), s1, lo);
        lemma_behind(p, code, s, d1, a, t, s1, lo);
        lemma_part(p, code, u, a, b, t);
        lemma_still_known(s, d1, a, env, both, a.code.len(), s1, lo);
        lemma_bind(p, code, u, a, name@, nt, s.stack, x);
        let l2 = lo.update(local_slot(u, a.next_local), x);
        lemma_goes_on(p, code, s, a.code.len(), s1, lo, b.code.len(), s.stack, l2);
        let w = at(s, b.code.len(), s.stack, l2);
        lemma_at(s, b.code.len(), s.stack, l2, b.code.len());
        lemma_at(s, a.code.len(), s1, lo, a.code.len());
        lemma_behind(p, code, s, d1, b, t, s.stack, l2);
        match ty {
            Some(ty) => {
                lemma_type(ty, x);
            },
            None => {
                lemma_num(d.types, d.records, *value, env, x);
            },
        }
        assert(keeps_locals(s, d, l2)) by {
            assert forall|j: int| 0 <= j < l2.len() && j < top_frame(s).locals_start
                + d.next_local implies l2[j] == #[trigger] s.locals[j] by {
                assert(lo[j] == s.locals[j]);
            }
        }
        assert(knows(w, b, inner)) by {
            assert forall|q: Seq<char>| #[trigger] inner.contains_key(q) implies {
                &&& b.locals.contains_key(q)
                &&& b.locals[q] < b.next_local
                &&& w.locals[top_frame(w).locals_start + b.locals[q]] == inner[q]
                &&& suits(num_at(b.types, q), inner[q])
            } by {
                if q != name@ {
                    assert(env.contains_key(q));
                    assert(u.locals[top_frame(u).locals_start + a.locals[q]] == env[q]);
                }
            }
        }
        lemma_expression(p, code, w, n, b, *body, tail, inner, keep, v);
        let l3 = lemma_computed(p, code, w, b, t, seq![v]);
        assert(w.stack + seq![v] =~= s.stack.push(v));
        lemma_goes_on(
            p,
            code,
            s,
            b.code.len(),
            s.stack,
            l2,
            t.code.len(),
            s.stack.push(v),
            l3,
        );
        lemma_kept_on(s, d, b, b.code.len(), s.stack, l2, l3);
        lemma_computes(p, code, s, d, t, v, l3);
    }
}

/// The code of expressions one after the other.
#[verifier::spinoff_prover]
#[verifier::rlimit(60)]
proof fn lemma_expressions(
    p: Program,
    code: Seq<Op>,
    s: State,
    n: Globals,
    d: Draft,
    xs: Seq<CExpr>,
    k: nat,
    env: Map<Seq<char>, Val>,
    keep: Set<Seq<char>>,
    vs: Seq<Val>,
)
    requires
        poised(p, code, s, d, exprs(n, d, xs, k)),
        k <= xs.len(),
        values_of(xs, k, env) == Some(vs),
        all_well_scoped(xs, env.dom(), keep),
        env.dom().subset_of(keep),
        all_small(xs),
        knows(s, d, env),
    ensures
        computes(p, code, s, d, exprs(n, d, xs, k), vs),
    decreases xs, 0nat, k,
{
    if k == 0 {
        reveal(computes);
        lemma_start(p, code, s);
        lemma_arrives(p, code, s, 0, d.code.len(), s.stack, s.locals);
        assert(s.stack + vs =~= s.stack);
        assert(keeps_locals(s, d, s.locals));
    } else {
        let j = (k - 1) as nat;
        let a = exprs(n, d, xs, j);
        let t = exprs(n, d, xs, k);
        let front = values_of(xs, j, env)->0;
        let v = value_of(xs[k - 1], env)->0;
        lemma_drafts(n, d, xs, j, env.dom(), keep);
        assert(well_scoped(xs[k - 1], env.dom(), keep));
        assert(is_small(xs[k - 1]));
        lemma_draft(n, a, xs[k - 1], false, env.dom(), keep);
        lemma_part(p, code, s, d, a, t);
        lemma_expressions(p, code, s, n, d, xs, j, env, keep, front);
        let lo = lemma_computed(p, code, s, d, a, front);
        let s1 = s.stack + front;
        let u = at(s, a.code.len(), s1, lo);
        lemma_behind(p, code, s, d, a, t, s1, lo);
        lemma_still_known(s, d, a, env, keep, a.code.len(), s1, lo);
        lemma_expression(p, code, u, n, a, xs[k - 1], false, env, keep, v);
        let l2 = lemma_computed(p, code, u, a, t, seq![v]);
        assert(u.stack + seq![v] =~= s.stack + vs);
        lemma_goes_on(p, code, s, a.code.len(), s1, lo, t.code.len(), s.stack + vs, l2);
        lemma_kept_on(s, d, a, a.code.len(), s1, lo, l2);
        reveal(computes);
        assert(arrives(p, code, s, t.code.len(), s.stack + vs, l2));
    }
}

/// Law: the code that is compiled for an expression computes the value of the
/// expression. From a state whose locals hold the values of the names in scope,
/// it leads to its end with that value on top of the operands, and the locals
/// that were taken already stay as they are.
pub proof fn law_compiled_code_computes_the_value(
    p: Program,
    code: Seq<Op>,
    s: State,
    n: Globals,
    d: Draft,
    e: CExpr,
    tail: bool,
    env: Map<Seq<char>, Val>,
    v: Val,
)
    requires
        poised(p, code, s, d, expr(n, d, e, tail)),
        value_of(e, env) == Some(v),
        well_scoped(e, env.dom(), Set::empty()),
        is_small(e),
        knows(s, d, env),
    ensures
        exists|lo: Seq<Val>| #[trigger]
            arrives(p, code, s, expr(n, d, e, tail).code.len(), s.stack.push(v), lo)
                && keeps_locals(s, d, lo),
{
    lemma_expression(p, code, s, n, d, e, tail, env, Set::empty(), v);
    let lo = lemma_computed(p, code, s, d, expr(n, d, e, tail), seq![v]);
    assert(s.stack + seq![v] =~= s.stack.push(v));
}

} // verus!
