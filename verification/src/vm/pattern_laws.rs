//! The code of a pattern tells the values that fit from the others.

use vstd::prelude::*;

use crate::ast::{CLit, Pattern};
use crate::compiler::draft::{emitted, emitted_all, interned, number, with_local, Draft};
use crate::compiler::patterns::{literal, literal_test, patched, tested};
use crate::compiler::pool::Constant;
use crate::compiler::soundness::is_const;
use crate::meaning::literal_value;
use crate::op::Op;
use crate::program::Program;
use crate::value::Val;
use crate::value_ops::lemma_val_eq;
use crate::vm::arith::{binary, Calc};
use crate::vm::compiled_laws::{extends, law_literal_code_computes, lemma_behind, lemma_part};
use crate::vm::expr_laws::{arrives, keeps_locals, lemma_arrives, lemma_goes_on};
use crate::vm::op_laws::is_two;
use crate::vm::paths::{
    at, lemma_at, lemma_binary, lemma_entered, lemma_fresh, lemma_jump, lemma_jump_when, lemma_ops,
    lemma_start, lemma_step, lemma_store, lemma_tags, lemma_test, op_at, poised, reaches, stands,
};
use crate::vm::plain::{plain, Move};
use crate::vm::state::{local_slot, top_frame, State};

verus! {

/// A pattern without tuples and records, whose constructors have one part at
/// most.
pub open spec fn is_straight(p: Pattern) -> bool
    decreases p,
{
    match p {
        Pattern::PWild | Pattern::PVar { .. } => true,
        Pattern::PLiteral { value } => value is Int || value is Bool || value is Str
            || value is Unit,
        Pattern::PConstructor { args, .. } => args@.len() == 0 || args@.len() == 1 && is_straight(
            args@[0],
        ),
        _ => false,
    }
}

/// The value is of the type of the pattern.
pub open spec fn is_meant(p: Pattern, v: Val) -> bool
    decreases p,
{
    match p {
        Pattern::PLiteral { value } => match value {
            CLit::Int { .. } => v is Int,
            CLit::Bool { .. } => v is Bool,
            CLit::Str { .. } => v is Str,
            _ => v is Unit,
        },
        Pattern::PConstructor { name, args } => v matches Val::Variant { name: tag, args: parts }
            && (tag == name@ ==> parts.len() == args@.len() && (args@.len() == 1 ==> is_meant(
            args@[0],
            parts[0],
        ))),
        _ => true,
    }
}

/// The value fits the pattern.
pub open spec fn fits(p: Pattern, v: Val) -> bool
    decreases p,
{
    match p {
        Pattern::PLiteral { value } => literal_value(value) == Some(v),
        Pattern::PConstructor { name, args } => v matches Val::Variant { name: tag, args: parts }
            && tag == name@ && (args@.len() == 1 ==> fits(args@[0], parts[0])),
        _ => true,
    }
}

/// The name that the pattern binds, and the part of the value that it is bound
/// to.
pub open spec fn binding(p: Pattern, v: Val) -> Option<(Seq<char>, Val)>
    decreases p,
{
    match p {
        Pattern::PVar { name } => Some((name@, v)),
        Pattern::PConstructor { args, .. } => if args@.len() == 1 && v is Variant {
            binding(args@[0], v->Variant_args[0])
        } else {
            None
        },
        _ => None,
    }
}

/// The draft with the jumps of failed tests aimed.
pub open spec fn with_aim(t: Draft, fails: Seq<nat>, target: nat) -> Draft {
    Draft { code: patched(t.code, fails, target as int), ..t }
}

/// The jumps stand in the code.
pub open spec fn are_inside(fails: Seq<nat>, d: Draft) -> bool {
    forall|i: int| 0 <= i < fails.len() ==> #[trigger] fails[i] < d.code.len()
}

/// The bound name stands for a local that holds what it is bound to.
pub open spec fn is_bound(s: State, t: Draft, b: Option<(Seq<char>, Val)>, lo: Seq<Val>) -> bool {
    b matches Some((name, v)) ==> t.locals.contains_key(name) && lo[top_frame(s).locals_start
        + t.locals[name]] == v
}

/// What a test adds to a draft.
proof fn lemma_tested(d: Draft, fails: Seq<nat>, p: Pattern)
    requires
        is_straight(p),
    ensures
        ({
            let (t, f) = tested(d, fails, p);
            &&& d.code.len() <= t.code.len()
            &&& forall|i: int| 0 <= i < d.code.len() ==> #[trigger] t.code[i] == d.code[i]
            &&& fails.len() <= f.len()
            &&& forall|i: int| 0 <= i < fails.len() ==> #[trigger] f[i] == fails[i]
            &&& forall|i: int| fails.len() <= i < f.len() ==> #[trigger] f[i] >= d.code.len()
            &&& forall|i: u32, c: Constant| #[trigger]
                is_const(d.pool, i, c) ==> is_const(t.pool, i, c)
            &&& d.pool.consts.len() <= t.pool.consts.len()
            &&& d.peak_local <= t.peak_local
        }),
    decreases p,
{
    match p {
        Pattern::PVar { name } => {
            lemma_fresh(d, name@);
        },
        Pattern::PLiteral { value } => {
            match value {
                CLit::Int { value } => {
                    lemma_entered(d, Constant::Int(value));
                },
                CLit::Bool { value } => {
                    lemma_entered(d, Constant::Bool(value));
                },
                CLit::Str { value } => {
                    lemma_entered(d, Constant::Str(value@));
                },
                _ => {},
            }
        },
        Pattern::PConstructor { name, args } => {
            let c = Constant::VariantName(name@);
            lemma_entered(d, c);
            if args@.len() == 1 {
                let (d2, f2) = opened(d, fails, name@);
                lemma_tested(emitted(d2, Op::GetVariantArg(0)), f2, args@[0]);
            }
        },
        _ => {},
    }
}

/// The test of a tag.
spec fn opened(d: Draft, fails: Seq<nat>, name: Seq<char>) -> (Draft, Seq<nat>) {
    let c = Constant::VariantName(name);
    (
        emitted_all(
            interned(d, c),
            seq![Op::Dup, Op::TestVariant(number(d, c)), Op::JumpIf(2), Op::Pop, Op::Jump(0)],
        ),
        fails.push((d.code.len() + 4) as nat),
    )
}

/// Where an op of the draft stands in the code, and how.
proof fn lemma_aimed(t: Draft, f: Seq<nat>, target: nat, e: Draft, g: Seq<nat>)
    requires
        e.code.len() <= t.code.len(),
        forall|i: int| 0 <= i < e.code.len() ==> #[trigger] t.code[i] == e.code[i],
        g.len() <= f.len(),
        forall|i: int| 0 <= i < g.len() ==> #[trigger] f[i] == g[i],
        forall|i: int| g.len() <= i < f.len() ==> #[trigger] f[i] >= e.code.len(),
    ensures
        forall|i: int|
            0 <= i < e.code.len() ==> #[trigger] with_aim(t, f, target).code[i] == with_aim(
                e,
                g,
                target,
            ).code[i],
{
    assert forall|i: int| 0 <= i < e.code.len() implies #[trigger] with_aim(t, f, target).code[i]
        == with_aim(e, g, target).code[i] by {
        assert(t.code[i] == e.code[i]);
        if g.contains(i as nat) {
            let j = choose|j: int| 0 <= j < g.len() && g[j] == i as nat;
            assert(f[j] == g[j]);
        }
        if f.contains(i as nat) {
            let j = choose|j: int| 0 <= j < f.len() && f[j] == i as nat;
            assert(j < g.len());
            assert(g[j] == f[j]);
        }
    }
}

proof fn lemma_pop(
    p: Program,
    code: Seq<Op>,
    s: State,
    n: nat,
    pc: nat,
    stack: Seq<Val>,
    v: Val,
    locals: Seq<Val>,
)
    requires
        reaches(p, code, s, n, pc, stack.push(v), locals),
        op_at(code, s, pc, Op::Pop),
    ensures
        reaches(p, code, s, n + 1, pc + 1, stack, locals),
{
    lemma_at(s, pc, stack.push(v), locals, pc + 1);
    assert(stack.push(v).take(stack.len() as int) =~= stack);
    assert(plain(p, at(s, pc, stack.push(v), locals), Op::Pop) == Move::Go(
        at(s, pc + 1, stack, locals),
    ));
    lemma_step(p, code, s, n, pc, stack.push(v), locals, Op::Pop, pc + 1, stack, locals);
}

proof fn lemma_dup(
    p: Program,
    code: Seq<Op>,
    s: State,
    n: nat,
    pc: nat,
    stack: Seq<Val>,
    v: Val,
    locals: Seq<Val>,
)
    requires
        reaches(p, code, s, n, pc, stack.push(v), locals),
        op_at(code, s, pc, Op::Dup),
    ensures
        reaches(p, code, s, n + 1, pc + 1, stack.push(v).push(v), locals),
{
    let st = stack.push(v);
    lemma_at(s, pc, st, locals, pc + 1);
    assert(plain(p, at(s, pc, st, locals), Op::Dup) == Move::Go(
        at(s, pc + 1, st.push(v), locals),
    ));
    lemma_step(p, code, s, n, pc, st, locals, Op::Dup, pc + 1, st.push(v), locals);
}

proof fn lemma_first_part(
    p: Program,
    code: Seq<Op>,
    s: State,
    n: nat,
    pc: nat,
    stack: Seq<Val>,
    tag: Seq<char>,
    args: Seq<Val>,
    locals: Seq<Val>,
)
    requires
        reaches(p, code, s, n, pc, stack.push(Val::Variant { name: tag, args }), locals),
        op_at(code, s, pc, Op::GetVariantArg(0)),
        args.len() > 0,
    ensures
        reaches(p, code, s, n + 1, pc + 1, stack.push(args[0]), locals),
{
    let st = stack.push(Val::Variant { name: tag, args });
    lemma_at(s, pc, st, locals, pc + 1);
    assert(st.take(stack.len() as int) =~= stack);
    let out = stack.push(args[0]);
    assert(plain(p, at(s, pc, st, locals), Op::GetVariantArg(0)) == Move::Go(
        at(s, pc + 1, out, locals),
    ));
    lemma_step(p, code, s, n, pc, st, locals, Op::GetVariantArg(0), pc + 1, out, locals);
}

/// The code stands in the running function, with a value on the stack.
#[verifier::opaque]
pub open spec fn is_put(
    p: Program,
    code: Seq<Op>,
    s: State,
    d: Draft,
    fails: Seq<nat>,
    pat: Pattern,
    target: nat,
    st: Seq<Val>,
    v: Val,
) -> bool {
    let (t, f) = tested(d, fails, pat);
    &&& stands(p, code, s, with_aim(t, f, target), d.code.len())
    &&& target < code.len() <= i32::MAX
    &&& are_inside(fails, d)
    &&& s.stack == st.push(v)
}

/// The way that the code takes with a value.
#[verifier::opaque]
pub open spec fn is_told(
    p: Program,
    code: Seq<Op>,
    s: State,
    d: Draft,
    t: Draft,
    pat: Pattern,
    target: nat,
    st: Seq<Val>,
    v: Val,
) -> bool {
    if fits(pat, v) {
        exists|lo: Seq<Val>| #[trigger]
            arrives(p, code, s, t.code.len(), st, lo) && keeps_locals(s, d, lo) && is_bound(
                s,
                t,
                binding(pat, v),
                lo,
            )
    } else {
        arrives(p, code, s, target, st, s.locals)
    }
}

#[verifier::spinoff_prover]
proof fn lemma_literal_test(
    p: Program,
    code: Seq<Op>,
    s: State,
    d: Draft,
    fails: Seq<nat>,
    pat: Pattern,
    target: nat,
    st: Seq<Val>,
    v: Val,
)
    requires
        pat is PLiteral,
        is_straight(pat),
        is_meant(pat, v),
        is_put(p, code, s, d, fails, pat, target, st, v),
    ensures
        is_told(p, code, s, d, tested(d, fails, pat).0, pat, target, st, v),
{
    reveal(is_put);
    reveal(is_told);
    let (t, f) = tested(d, fails, pat);
    let q = with_aim(t, f, target);
    let l = pat->PLiteral_value;
    let k = d.code.len();
    let x = literal_value(l)->Some_0;
    lemma_tested(d, fails, pat);
    lemma_aimed(t, f, target, d, fails);
    let d1 = with_aim(d, fails, target);
    let a = literal(d1, l);
    let test = literal_test(l);
    assert(literal(d, l).code.len() == k + 1);
    assert(f == fails.push((k + 2) as nat));
    assert(a.code.len() == k + 1);
    assert(f[fails.len() as int] == k + 2);
    assert(f.contains((k + 2) as nat));
    assert(!f.contains(k)) by {
        if f.contains(k) {
            let j = choose|j: int| 0 <= j < f.len() && f[j] == k;
            assert(j < fails.len() ==> fails[j] < k);
        }
    }
    assert(!f.contains((k + 1) as nat)) by {
        if f.contains((k + 1) as nat) {
            let j = choose|j: int| 0 <= j < f.len() && f[j] == k + 1;
            assert(j < fails.len() ==> fails[j] < k);
        }
    }
    let off = (target - (k + 3)) as i32;
    assert(q.code[k as int] == a.code[k as int]);
    assert(q.code[k as int + 1] == test);
    assert(q.code[k as int + 2] == Op::JumpIfNot(off));
    assert(extends(a, q)) by {
        assert forall|i: int| 0 <= i < a.code.len() implies #[trigger] q.code[i] == a.code[i] by {
            if i < k {
                assert(q.code[i] == d1.code[i]);
            }
        }
    }
    lemma_part(p, code, s, d1, a, q);
    law_literal_code_computes(p, code, s, d1, l, x);
    let s1 = s.stack.push(x);
    lemma_behind(p, code, s, d1, a, q, s1, s.locals);
    let u = at(s, k + 1, s1, s.locals);
    lemma_at(s, k + 1, s1, s.locals, k + 1);
    lemma_start(p, code, u);
    lemma_ops(p, code, u, q);
    lemma_val_eq(v, x);
    assert(binary(test, v, x) == Calc::Value(Val::Bool(v == x)));
    assert(is_two(test));
    lemma_binary(p, code, u, 0, k + 1, st, v, x, s.locals, test, Val::Bool(v == x));
    lemma_jump_when(p, code, u, 1, k + 2, st, v == x, s.locals, false, off);
    let to = if v == x {
        (k + 3) as nat
    } else {
        target
    };
    assert(reaches(p, code, u, 2, to, st, s.locals));
    lemma_arrives(p, code, u, 2, to, st, s.locals);
    lemma_goes_on(p, code, s, k + 1, s1, s.locals, to, st, s.locals);
}

/// The pattern fits all values.
#[verifier::spinoff_prover]
#[verifier::rlimit(30)]
proof fn lemma_open_test(
    p: Program,
    code: Seq<Op>,
    s: State,
    d: Draft,
    fails: Seq<nat>,
    pat: Pattern,
    target: nat,
    st: Seq<Val>,
    v: Val,
)
    requires
        pat is PWild || pat is PVar,
        is_put(p, code, s, d, fails, pat, target, st, v),
        d.next_local <= d.peak_local,
    ensures
        is_told(p, code, s, d, tested(d, fails, pat).0, pat, target, st, v),
{
    reveal(is_put);
    reveal(is_told);
    let (t, f) = tested(d, fails, pat);
    let q = with_aim(t, f, target);
    let k = d.code.len();
    assert(f == fails);
    lemma_start(p, code, s);
    lemma_ops(p, code, s, q);
    if let Pattern::PVar { name } = pat {
        lemma_fresh(d, name@);
        lemma_plain_place(t, f, target, d, fails, k);
        lemma_store(p, code, s, 0, k, st, v, s.locals, d.next_local);
        let lo = s.locals.update(local_slot(s, d.next_local), v);
        lemma_arrives(p, code, s, 1, k + 1, st, lo);
        assert(keeps_locals(s, d, lo));
        assert(t.locals[name@] == d.next_local && t.locals.contains_key(name@)) by {
            reveal(with_local);
        }
        assert(is_bound(s, t, binding(pat, v), lo));
    } else {
        lemma_plain_place(t, f, target, d, fails, k);
        lemma_pop(p, code, s, 0, k, st, v, s.locals);
        lemma_arrives(p, code, s, 1, k + 1, st, s.locals);
    }
}

/// Law: the code of a pattern takes the value off and goes on behind itself if
/// the value fits, with the name bound to its part; if it does not, the code
/// goes to where its failures are aimed. Locals that were taken stay as they
/// are.
#[verifier::spinoff_prover]
#[verifier::rlimit(30)]
pub proof fn law_pattern_code_tells_values_apart(
    p: Program,
    code: Seq<Op>,
    s: State,
    d: Draft,
    fails: Seq<nat>,
    pat: Pattern,
    target: nat,
    st: Seq<Val>,
    v: Val,
)
    requires
        is_straight(pat),
        is_meant(pat, v),
        is_put(p, code, s, d, fails, pat, target, st, v),
        d.next_local <= d.peak_local,
    ensures
        is_told(p, code, s, d, tested(d, fails, pat).0, pat, target, st, v),
    decreases pat,
{
    reveal_with_fuel(is_straight, 2);
    reveal_with_fuel(is_meant, 2);
    assert(s.frames.len() > 0) by {
        reveal(is_put);
    }
    match pat {
        Pattern::PLiteral { .. } => {
            lemma_literal_test(p, code, s, d, fails, pat, target, st, v);
        },
        Pattern::PWild => {
            lemma_open_test(p, code, s, d, fails, pat, target, st, v);
        },
        Pattern::PVar { .. } => {
            lemma_open_test(p, code, s, d, fails, pat, target, st, v);
        },
        Pattern::PConstructor { name, args } => {
            lemma_constructor_test(p, code, s, d, fails, pat, target, st, v);
            if v->Variant_name == name@ && args@.len() == 1 {
                let (d2, f2) = opened(d, fails, name@);
                let d3 = emitted(d2, Op::GetVariantArg(0));
                let part = v->Variant_args[0];
                let u = at(s, d.code.len() + 6, st.push(part), s.locals);
                lemma_inside(p, code, s, d, fails, pat, target, st, v);
                law_pattern_code_tells_values_apart(
                    p,
                    code,
                    u,
                    d3,
                    f2,
                    args@[0],
                    target,
                    st,
                    part,
                );
                lemma_outside(p, code, s, d, fails, pat, target, st, v);
            }
        },
        _ => {},
    }
}

/// The code of the part of a constructor pattern.
#[verifier::spinoff_prover]
#[verifier::rlimit(30)]
proof fn lemma_inside(
    p: Program,
    code: Seq<Op>,
    s: State,
    d: Draft,
    fails: Seq<nat>,
    pat: Pattern,
    target: nat,
    st: Seq<Val>,
    v: Val,
)
    requires
        pat is PConstructor,
        pat->PConstructor_args@.len() == 1,
        is_put(p, code, s, d, fails, pat, target, st, v),
    ensures
        ({
            let (d2, f2) = opened(d, fails, pat->PConstructor_name@);
            let part = v->Variant_args[0];
            is_put(
                p,
                code,
                at(s, d.code.len() + 6, st.push(part), s.locals),
                emitted(d2, Op::GetVariantArg(0)),
                f2,
                pat->PConstructor_args@[0],
                target,
                st,
                part,
            )
        }),
{
    reveal(is_put);
    let (t, f) = tested(d, fails, pat);
    let q = with_aim(t, f, target);
    let (d2, f2) = opened(d, fails, pat->PConstructor_name@);
    let d3 = emitted(d2, Op::GetVariantArg(0));
    let part = v->Variant_args[0];
    assert(tested(d3, f2, pat->PConstructor_args@[0]) == (t, f));
    assert(poised(p, code, s, d, q));
    assert(d3.code.len() == d.code.len() + 6);
    lemma_behind(p, code, s, d, d3, q, st.push(part), s.locals);
    assert(are_inside(f2, d3));
}

/// Behind the code of the part of a constructor pattern.
#[verifier::spinoff_prover]
#[verifier::rlimit(30)]
proof fn lemma_outside(
    p: Program,
    code: Seq<Op>,
    s: State,
    d: Draft,
    fails: Seq<nat>,
    pat: Pattern,
    target: nat,
    st: Seq<Val>,
    v: Val,
)
    requires
        s.frames.len() > 0,
        pat is PConstructor,
        pat->PConstructor_args@.len() == 1,
        v is Variant,
        v->Variant_name == pat->PConstructor_name@,
        arrives(p, code, s, d.code.len() + 6, st.push(v->Variant_args[0]), s.locals),
        is_told(
            p,
            code,
            at(s, d.code.len() + 6, st.push(v->Variant_args[0]), s.locals),
            emitted(opened(d, fails, pat->PConstructor_name@).0, Op::GetVariantArg(0)),
            tested(d, fails, pat).0,
            pat->PConstructor_args@[0],
            target,
            st,
            v->Variant_args[0],
        ),
    ensures
        is_told(p, code, s, d, tested(d, fails, pat).0, pat, target, st, v),
{
    reveal(is_told);
    let t = tested(d, fails, pat).0;
    let inner = pat->PConstructor_args@[0];
    let d3 = emitted(opened(d, fails, pat->PConstructor_name@).0, Op::GetVariantArg(0));
    let part = v->Variant_args[0];
    let s1 = st.push(part);
    let pc = d.code.len() + 6;
    let u = at(s, pc, s1, s.locals);
    lemma_at(s, pc, s1, s.locals, pc);
    assert(fits(pat, v) == fits(inner, part));
    assert(binding(pat, v) == binding(inner, part));
    if fits(inner, part) {
        let lo = choose|lo: Seq<Val>| #[trigger]
            arrives(p, code, u, t.code.len(), st, lo) && keeps_locals(u, d3, lo) && is_bound(
                u,
                t,
                binding(inner, part),
                lo,
            );
        lemma_goes_on(p, code, s, pc, s1, s.locals, t.code.len(), st, lo);
        assert(keeps_locals(s, d, lo));
    } else {
        lemma_goes_on(p, code, s, pc, s1, s.locals, target, st, s.locals);
    }
}

/// A single op behind the draft, which is no jump.
proof fn lemma_plain_place(
    t: Draft,
    f: Seq<nat>,
    target: nat,
    d: Draft,
    fails: Seq<nat>,
    k: nat,
)
    requires
        f == fails,
        are_inside(fails, d),
        k == d.code.len(),
        k < t.code.len(),
    ensures
        with_aim(t, f, target).code[k as int] == t.code[k as int],
{
    if f.contains(k) {
        let j = choose|j: int| 0 <= j < f.len() && f[j] == k;
        assert(fails[j] < k);
    }
}

/// The test of the tag, up to the first part of the value.
#[verifier::spinoff_prover]
#[verifier::rlimit(30)]
proof fn lemma_constructor_test(
    p: Program,
    code: Seq<Op>,
    s: State,
    d: Draft,
    fails: Seq<nat>,
    pat: Pattern,
    target: nat,
    st: Seq<Val>,
    v: Val,
)
    requires
        pat is PConstructor,
        is_straight(pat),
        is_meant(pat, v),
        is_put(p, code, s, d, fails, pat, target, st, v),
    ensures
        v->Variant_name != pat->PConstructor_name@ || pat->PConstructor_args@.len() == 0
            ==> is_told(p, code, s, d, tested(d, fails, pat).0, pat, target, st, v),
        v->Variant_name == pat->PConstructor_name@ && pat->PConstructor_args@.len() == 1
            ==> arrives(
            p,
            code,
            s,
            d.code.len() + 6,
            st.push(v->Variant_args[0]),
            s.locals,
        ),
{
    reveal(is_put);
    reveal(is_told);
    let (t, f) = tested(d, fails, pat);
    let q = with_aim(t, f, target);
    let k = d.code.len();
    let name = pat->PConstructor_name@;
    let args = pat->PConstructor_args@;
    let c = Constant::VariantName(name);
    let (d2, f2) = opened(d, fails, name);
    let last = if args.len() == 0 {
        Op::Pop
    } else {
        Op::GetVariantArg(0)
    };
    let d3 = emitted(d2, last);
    lemma_entered(d, c);
    if args.len() == 1 {
        lemma_tested(d3, f2, args[0]);
        assert(tested(d3, f2, args[0]) == (t, f));
    } else {
        assert(t == d3 && f == f2);
    }
    lemma_aimed(t, f, target, d3, f2);
    let e = with_aim(d3, f2, target);
    assert(f2[fails.len() as int] == k + 4);
    assert(f2.contains((k + 4) as nat));
    assert forall|i: nat| k <= i < k + 6 && i != k + 4 implies !(#[trigger] f2.contains(i)) by {
        if f2.contains(i) {
            let j = choose|j: int| 0 <= j < f2.len() && f2[j] == i;
            assert(j < fails.len() ==> fails[j] < k);
        }
    }
    let off = (target - (k + 5)) as i32;
    assert(d3.code[k as int] == Op::Dup);
    assert(d3.code[k as int + 4] == Op::Jump(0));
    assert(!f2.contains(k) && !f2.contains((k + 1) as nat) && !f2.contains((k + 2) as nat)
        && !f2.contains((k + 3) as nat) && !f2.contains((k + 5) as nat));
    assert(e.code[k as int] == Op::Dup);
    assert(e.code[k as int + 1] == Op::TestVariant(number(d, c)));
    assert(e.code[k as int + 2] == Op::JumpIf(2));
    assert(e.code[k as int + 3] == Op::Pop);
    assert(e.code[k as int + 4] == Op::Jump(off));
    assert(e.code[k as int + 5] == last);
    assert(q.code[k as int] == Op::Dup);
    assert(q.code[k as int + 1] == Op::TestVariant(number(d, c)));
    assert(q.code[k as int + 2] == Op::JumpIf(2));
    assert(q.code[k as int + 3] == Op::Pop);
    assert(q.code[k as int + 4] == Op::Jump(off));
    assert(q.code[k as int + 5] == last);
    lemma_start(p, code, s);
    lemma_ops(p, code, s, q);
    lemma_tags(p, code, s, q);
    assert(is_const(q.pool, number(d, c), c));
    if let Val::Variant { name: tag, args: parts } = v {
        let lo = s.locals;
        lemma_dup(p, code, s, 0, k, st, v, lo);
        lemma_test(p, code, s, 1, k + 1, st.push(v), tag, parts, lo, number(d, c), name);
        lemma_jump_when(p, code, s, 2, k + 2, st.push(v), tag == name, lo, true, 2);
        if tag == name {
            assert(reaches(p, code, s, 3, k + 5, st.push(v), lo));
            if args.len() == 0 {
                lemma_pop(p, code, s, 3, k + 5, st, v, lo);
                lemma_arrives(p, code, s, 4, k + 6, st, lo);
            } else {
                lemma_first_part(p, code, s, 3, k + 5, st, tag, parts, lo);
                lemma_arrives(p, code, s, 4, k + 6, st.push(parts[0]), lo);
            }
        } else {
            lemma_pop(p, code, s, 3, k + 3, st, v, lo);
            lemma_jump(p, code, s, 4, k + 4, st, lo, off);
            lemma_arrives(p, code, s, 5, target, st, lo);
        }
    }
}

} // verus!
