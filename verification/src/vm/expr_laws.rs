//! The code of an expression computes what the expression means.

use vstd::prelude::*;

use crate::compiler::draft::{emitted, with_local, Draft};
use crate::compiler::expr;
use crate::compiler::expr::{swapped, typed};
use crate::compiler::numeric::NumTy;
use crate::meaning::{alone_gives, gives, law_operators_have_one_value, lemma_spellings};
use crate::op::Op;
use crate::program::Program;
use crate::text::{bytes_of, lemma_bytes_injective};
use crate::value::Val;
use crate::vm::arith::{binary, unary, Calc};
use crate::vm::op_laws::{is_two, lemma_comparable, lemma_int_value, lemma_one_way, lemma_order};
use crate::vm::path_laws::lemma_two_parts;
use crate::vm::paths::{
    at, lemma_at, lemma_binary, lemma_fresh, lemma_load, lemma_ops, lemma_start, lemma_store,
    lemma_unary, op_at, poised, reaches, steps,
};
use crate::vm::state::{local_slot, top_frame, State};

verus! {

/// Some number of ops of the code leads to a slot with these operands and
/// locals.
pub open spec fn arrives(
    p: Program,
    code: Seq<Op>,
    s: State,
    pc: nat,
    stack: Seq<Val>,
    locals: Seq<Val>,
) -> bool {
    exists|m: nat| #[trigger] steps(p, code, s, m) == Some(at(s, pc, stack, locals))
}

/// The locals below the first that a draft has free are what they were.
pub open spec fn keeps_locals(s: State, d: Draft, locals: Seq<Val>) -> bool {
    &&& locals.len() == s.locals.len()
    &&& forall|j: int|
        0 <= j < locals.len() && j < top_frame(s).locals_start + d.next_local ==> locals[j]
            == #[trigger] s.locals[j]
}

/// The operands are of the type that is known of them.
pub open spec fn suits(t: NumTy, v: Val) -> bool {
    match t {
        NumTy::Int => v is Int,
        NumTy::Float => v is Float,
        NumTy::Unknown => true,
    }
}

pub proof fn lemma_arrives(
    p: Program,
    code: Seq<Op>,
    s: State,
    n: nat,
    pc: nat,
    stack: Seq<Val>,
    locals: Seq<Val>,
)
    requires
        reaches(p, code, s, n, pc, stack, locals),
    ensures
        arrives(p, code, s, pc, stack, locals),
{
    reveal(reaches);
}

/// One way behind another.
pub proof fn lemma_goes_on(
    p: Program,
    code: Seq<Op>,
    s: State,
    pc1: nat,
    stack1: Seq<Val>,
    locals1: Seq<Val>,
    pc2: nat,
    stack2: Seq<Val>,
    locals2: Seq<Val>,
)
    requires
        s.frames.len() > 0,
        arrives(p, code, s, pc1, stack1, locals1),
        arrives(p, code, at(s, pc1, stack1, locals1), pc2, stack2, locals2),
    ensures
        arrives(p, code, s, pc2, stack2, locals2),
{
    let t = at(s, pc1, stack1, locals1);
    let m = choose|m: nat| #[trigger] steps(p, code, s, m) == Some(t);
    let k = choose|k: nat| #[trigger] steps(p, code, t, k) == Some(at(t, pc2, stack2, locals2));
    lemma_two_parts(p, code, s, m, k);
    lemma_at(s, pc1, stack1, locals1, pc2);
    assert(at(t, pc2, stack2, locals2) == at(s, pc2, stack2, locals2));
    assert(steps(p, code, s, m + k) == Some(at(s, pc2, stack2, locals2)));
}

// ---------------------------------------------------------------------------
// Operators
// ---------------------------------------------------------------------------

/// The value of the op that stands for an operator.
#[verifier::spinoff_prover]
#[verifier::rlimit(60)]
proof fn lemma_form(op: Seq<char>, t: NumTy, a: Val, b: Val, v: Val)
    requires
        gives(op, a, b, v),
        suits(t, a),
        suits(t, b),
    ensures
        op == "+"@ ==> binary(typed(t, Op::IntAdd, Op::FloatAdd, Op::NumAdd), a, b) == Calc::Value(
            v,
        ),
        op == "-"@ ==> binary(typed(t, Op::IntSub, Op::FloatSub, Op::NumSub), a, b) == Calc::Value(
            v,
        ),
        op == "*"@ ==> binary(typed(t, Op::IntMul, Op::FloatMul, Op::NumMul), a, b) == Calc::Value(
            v,
        ),
        op == "/"@ ==> binary(typed(t, Op::IntDiv, Op::FloatDiv, Op::NumDiv), a, b) == Calc::Value(
            v,
        ),
        op == "%"@ ==> binary(typed(t, Op::IntMod, Op::NumMod, Op::NumMod), a, b) == Calc::Value(v),
        op == "=="@ ==> binary(typed(t, Op::IntEq, Op::FloatEq, Op::NumEq), a, b) == Calc::Value(v),
        op == "<"@ ==> binary(typed(t, Op::IntLt, Op::FloatLt, Op::NumLt), a, b) == Calc::Value(v),
        op == "<="@ ==> binary(typed(t, Op::IntLe, Op::FloatLe, Op::NumLe), a, b) == Calc::Value(v),
        op == "and"@ ==> binary(Op::BoolAnd, a, b) == Calc::Value(v),
        op == "or"@ ==> binary(Op::BoolOr, a, b) == Calc::Value(v),
{
    lemma_spellings();
    match (a, b) {
        (Val::Int(x), Val::Int(y)) => {
            lemma_int_form(op, t, x, y, v);
        },
        (Val::Str(x), Val::Str(y)) => {
            lemma_order(bytes_of(x), bytes_of(y));
            lemma_order(bytes_of(y), bytes_of(x));
            lemma_one_way(bytes_of(x), bytes_of(y));
            lemma_one_way(bytes_of(y), bytes_of(x));
            lemma_comparable(bytes_of(x), bytes_of(y));
            lemma_bytes_injective(x, y);
        },
        _ => {},
    }
}

/// [`lemma_form`] on integers.
#[verifier::spinoff_prover]
#[verifier::rlimit(60)]
proof fn lemma_int_form(op: Seq<char>, t: NumTy, x: i64, y: i64, v: Val)
    requires
        gives(op, Val::Int(x), Val::Int(y), v),
        suits(t, Val::Int(x)),
    ensures
        ({
            let a = Val::Int(x);
            let b = Val::Int(y);
            &&& op == "+"@ ==> binary(typed(t, Op::IntAdd, Op::FloatAdd, Op::NumAdd), a, b)
                == Calc::Value(v)
            &&& op == "-"@ ==> binary(typed(t, Op::IntSub, Op::FloatSub, Op::NumSub), a, b)
                == Calc::Value(v)
            &&& op == "*"@ ==> binary(typed(t, Op::IntMul, Op::FloatMul, Op::NumMul), a, b)
                == Calc::Value(v)
            &&& op == "/"@ ==> binary(typed(t, Op::IntDiv, Op::FloatDiv, Op::NumDiv), a, b)
                == Calc::Value(v)
            &&& op == "%"@ ==> binary(typed(t, Op::IntMod, Op::NumMod, Op::NumMod), a, b)
                == Calc::Value(v)
            &&& op == "=="@ ==> binary(typed(t, Op::IntEq, Op::FloatEq, Op::NumEq), a, b)
                == Calc::Value(v)
            &&& op == "<"@ ==> binary(typed(t, Op::IntLt, Op::FloatLt, Op::NumLt), a, b)
                == Calc::Value(v)
            &&& op == "<="@ ==> binary(typed(t, Op::IntLe, Op::FloatLe, Op::NumLe), a, b)
                == Calc::Value(v)
            &&& op != "and"@
            &&& op != "or"@
        }),
{
    let a = Val::Int(x);
    let b = Val::Int(y);
    lemma_spellings();
    let form = if op == "+"@ {
        typed(t, Op::IntAdd, Op::FloatAdd, Op::NumAdd)
    } else if op == "-"@ {
        typed(t, Op::IntSub, Op::FloatSub, Op::NumSub)
    } else if op == "*"@ {
        typed(t, Op::IntMul, Op::FloatMul, Op::NumMul)
    } else if op == "/"@ {
        typed(t, Op::IntDiv, Op::FloatDiv, Op::NumDiv)
    } else if op == "%"@ {
        typed(t, Op::IntMod, Op::NumMod, Op::NumMod)
    } else if op == "=="@ {
        typed(t, Op::IntEq, Op::FloatEq, Op::NumEq)
    } else if op == "<"@ {
        typed(t, Op::IntLt, Op::FloatLt, Op::NumLt)
    } else {
        typed(t, Op::IntLe, Op::FloatLe, Op::NumLe)
    };
    if crate::vm::op_laws::is_form(op, form) {
        lemma_int_value(op, form, x, y);
        lemma_not_by_zero(op, x, y, v);
        let w = binary(form, a, b)->Value_0;
        law_operators_have_one_value(op, a, b, v, w);
    }
    lemma_spellings();
}

/// A quotient has a divisor.
proof fn lemma_not_by_zero(op: Seq<char>, x: i64, y: i64, v: Val)
    requires
        gives(op, Val::Int(x), Val::Int(y), v),
    ensures
        !(y == 0 && (op == "/"@ || op == "%"@)),
{
    lemma_spellings();
}

/// The code of an operator on the two operands on top of the stack.
#[verifier::spinoff_prover]
#[verifier::rlimit(60)]
proof fn lemma_direct(
    p: Program,
    code: Seq<Op>,
    s: State,
    d: Draft,
    form: Op,
    st: Seq<Val>,
    a: Val,
    b: Val,
    v: Val,
)
    requires
        poised(p, code, s, d, emitted(d, form)),
        s.stack == st.push(a).push(b),
        is_two(form),
        binary(form, a, b) == Calc::Value(v),
    ensures
        reaches(p, code, s, 1, d.code.len() + 1, st.push(v), s.locals),
{
    let t = emitted(d, form);
    lemma_start(p, code, s);
    lemma_ops(p, code, s, t);
    assert(t.code[d.code.len() as int] == form);
    assert(op_at(code, s, d.code.len(), form));
    lemma_binary(p, code, s, 0, d.code.len(), st, a, b, s.locals, form, v);
}

/// `a op b` in place of `b op' a`, where there is no op for it.
pub open spec fn reversed(op: Seq<char>) -> Seq<char> {
    if op == ">"@ {
        "<"@
    } else {
        "<="@
    }
}

proof fn lemma_reversed(op: Seq<char>, a: Val, b: Val, v: Val)
    requires
        gives(op, a, b, v),
        op == ">"@ || op == ">="@,
    ensures
        gives(reversed(op), b, a, v),
{
    lemma_spellings();
}

/// The code of an operator that takes its operands in reverse.
#[verifier::spinoff_prover]
#[verifier::rlimit(60)]
proof fn lemma_swapping(
    p: Program,
    code: Seq<Op>,
    s: State,
    d: Draft,
    form: Op,
    st: Seq<Val>,
    a: Val,
    b: Val,
    v: Val,
) -> (lo: Seq<Val>)
    requires
        poised(p, code, s, d, emitted(swapped(d), form)),
        s.stack == st.push(a).push(b),
        is_two(form),
        binary(form, b, a) == Calc::Value(v),
    ensures
        reaches(p, code, s, 5, d.code.len() + 5, st.push(v), lo),
        keeps_locals(s, d, lo),
{
    let t = emitted(swapped(d), form);
    let k = d.code.len();
    let d1 = with_local(d, "__swap_a"@);
    lemma_fresh(d, "__swap_a"@);
    lemma_fresh(d1, "__swap_b"@);
    let la = d.next_local;
    let lb = d1.next_local;
    lemma_start(p, code, s);
    lemma_ops(p, code, s, t);
    assert(t.code[k as int] == Op::StoreLocal(lb));
    assert(t.code[k as int + 1] == Op::StoreLocal(la));
    assert(t.code[k as int + 2] == Op::LoadLocal(lb));
    assert(t.code[k as int + 3] == Op::LoadLocal(la));
    assert(t.code[k as int + 4] == form);
    lemma_store(p, code, s, 0, k, st.push(a), b, s.locals, lb);
    let l1 = s.locals.update(local_slot(s, lb), b);
    lemma_store(p, code, s, 1, k + 1, st, a, l1, la);
    let l2 = l1.update(local_slot(s, la), a);
    lemma_load(p, code, s, 2, k + 2, st, l2, lb);
    lemma_load(p, code, s, 3, k + 3, st.push(b), l2, la);
    lemma_binary(p, code, s, 4, k + 4, st, b, a, l2, form, v);
    l2
}

/// The ops that an operator has.
spec fn direct(op: Seq<char>) -> bool {
    op == "+"@ || op == "-"@ || op == "*"@ || op == "/"@ || op == "%"@ || op == "=="@ || op == "<"@
        || op == "<="@ || op == "and"@ || op == "or"@
}

proof fn lemma_gives_known(op: Seq<char>, a: Val, b: Val, v: Val)
    requires
        gives(op, a, b, v),
    ensures
        direct(op) || op == "!="@ || op == ">"@ || op == ">="@,
{
}

/// Law: the code that is compiled for an operator, run on two operands, leaves
/// the value of the operator in their place. Locals that were taken already
/// stay as they are.
#[verifier::spinoff_prover]
#[verifier::rlimit(60)]
pub proof fn law_operator_code_computes(
    p: Program,
    code: Seq<Op>,
    s: State,
    d: Draft,
    op: Seq<char>,
    t: NumTy,
    st: Seq<Val>,
    a: Val,
    b: Val,
    v: Val,
)
    requires
        poised(p, code, s, d, expr::binary(d, op, t)),
        s.stack == st.push(a).push(b),
        suits(t, a),
        suits(t, b),
        gives(op, a, b, v),
    ensures
        exists|lo: Seq<Val>| #[trigger]
            arrives(p, code, s, expr::binary(d, op, t).code.len(), st.push(v), lo)
                && keeps_locals(s, d, lo),
{
    let k = d.code.len();
    lemma_gives_known(op, a, b, v);
    lemma_spellings();
    if direct(op) {
        lemma_form(op, t, a, b, v);
        let form = expr::binary(d, op, t).code[k as int];
        assert(is_two(form) && binary(form, a, b) == Calc::Value(v) && expr::binary(d, op, t)
            == emitted(d, form));
        lemma_direct(p, code, s, d, form, st, a, b, v);
        lemma_arrives(p, code, s, 1, k + 1, st.push(v), s.locals);
    } else if op == "!="@ {
        let same = Val::Bool(!v->Bool_0);
        assert(gives("=="@, a, b, same));
        lemma_form("=="@, t, a, b, same);
        let form = typed(t, Op::IntEq, Op::FloatEq, Op::NumEq);
        let whole = expr::binary(d, op, t);
        assert(whole == emitted(emitted(d, form), Op::BoolNot));
        lemma_start(p, code, s);
        lemma_ops(p, code, s, whole);
        assert(whole.code[k as int] == form);
        assert(whole.code[k as int + 1] == Op::BoolNot);
        lemma_binary(p, code, s, 0, k, st, a, b, s.locals, form, same);
        lemma_unary(p, code, s, 1, k + 1, st, same, s.locals, Op::BoolNot, v);
        lemma_arrives(p, code, s, 2, k + 2, st.push(v), s.locals);
    } else {
        lemma_reversed(op, a, b, v);
        lemma_form(reversed(op), t, b, a, v);
        let form = if op == ">"@ {
            typed(t, Op::IntLt, Op::FloatLt, Op::NumLt)
        } else {
            typed(t, Op::IntLe, Op::FloatLe, Op::NumLe)
        };
        assert(expr::binary(d, op, t) == emitted(swapped(d), form));
        let lo = lemma_swapping(p, code, s, d, form, st, a, b, v);
        lemma_arrives(p, code, s, 5, k + 5, st.push(v), lo);
        lemma_swapped_len(d);
    }
}

proof fn lemma_swapped_len(d: Draft)
    ensures
        swapped(d).code.len() == d.code.len() + 4,
{
    let d1 = with_local(d, "__swap_a"@);
    lemma_fresh(d, "__swap_a"@);
    lemma_fresh(d1, "__swap_b"@);
}

/// Law: the code that is compiled for a sign or a negation, run on an operand,
/// leaves its value in the place of the operand.
pub proof fn law_unary_code_computes(
    p: Program,
    code: Seq<Op>,
    s: State,
    d: Draft,
    op: Seq<char>,
    st: Seq<Val>,
    a: Val,
    v: Val,
)
    requires
        poised(p, code, s, d, expr::unary(d, op)),
        s.stack == st.push(a),
        alone_gives(op, a, v),
    ensures
        arrives(p, code, s, expr::unary(d, op).code.len(), st.push(v), s.locals),
{
    let k = d.code.len();
    let t = expr::unary(d, op);
    lemma_spellings();
    lemma_start(p, code, s);
    lemma_ops(p, code, s, t);
    let form = if op == "-"@ {
        Op::NumNeg
    } else {
        Op::BoolNot
    };
    assert(t.code[k as int] == form);
    if let Val::Int(x) = a {
        crate::meaning::lemma_wraps_once(-x, v->Int_0, 0i64.wrapping_sub(x));
    }
    assert(unary(form, a) == Calc::Value(v));
    lemma_unary(p, code, s, 0, k, st, a, s.locals, form, v);
    lemma_arrives(p, code, s, 1, k + 1, st.push(v), s.locals);
}

} // verus!
