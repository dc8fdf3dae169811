//! Predicates of refined types mean what their expressions mean.

use vstd::prelude::*;

use crate::ast::CExpr;
use crate::compiler::draft::Draft;
use crate::compiler::expr;
use crate::compiler::numeric::NumTy;
use crate::meaning::{
    alone_gives, gives, law_operators_have_one_value, lemma_spellings, lemma_wraps_once, value_of,
};
use crate::op::Op;
use crate::program::Program;
use crate::value::Val;
use crate::vm::expr_laws::{arrives, keeps_locals, law_operator_code_computes};
use crate::vm::op_laws::{is_form, lemma_int_value};
use crate::vm::paths::poised;
use crate::vm::refine::{binop_verdict, evaluate, holds, unary_verdict, Verdict};
use crate::vm::state::State;

verus! {

/// The operators that a predicate has on integers are those of the language.
#[verifier::spinoff_prover]
#[verifier::rlimit(60)]
proof fn lemma_int_operator(op: Seq<char>, x: i64, y: i64)
    ensures
        forall|v: Val| #[trigger]
            gives(op, Val::Int(x), Val::Int(y), v) <==> binop_verdict(op, Val::Int(x), Val::Int(y))
                == Verdict::Value(v),
{
    let a = Val::Int(x);
    let b = Val::Int(y);
    lemma_spellings();
    let form = if op == "+"@ {
        Op::IntAdd
    } else if op == "-"@ {
        Op::IntSub
    } else if op == "*"@ {
        Op::IntMul
    } else if op == "/"@ {
        Op::IntDiv
    } else {
        Op::IntMod
    };
    if is_form(op, form) {
        lemma_int_value(op, form, x, y);
    }
    assert forall|v: Val| #[trigger] gives(op, a, b, v) implies binop_verdict(op, a, b)
        == Verdict::Value(v) by {
        if let Verdict::Value(w) = binop_verdict(op, a, b) {
            if gives(op, a, b, w) {
                law_operators_have_one_value(op, a, b, v, w);
            }
        }
    }
}

/// Law: an operator in a predicate on two integers has the value of the
/// operator, and none where the operator has none. In particular `a < b` holds
/// if and only if `a` is below `b`.
pub proof fn law_predicate_operators_on_integers(op: Seq<char>, x: i64, y: i64)
    ensures
        forall|v: Val| #[trigger]
            gives(op, Val::Int(x), Val::Int(y), v) <==> binop_verdict(op, Val::Int(x), Val::Int(y))
                == Verdict::Value(v),
        binop_verdict("<"@, Val::Int(x), Val::Int(y)) == Verdict::Value(Val::Bool(x < y)),
        binop_verdict("<="@, Val::Int(x), Val::Int(y)) == Verdict::Value(Val::Bool(x <= y)),
        binop_verdict(">"@, Val::Int(x), Val::Int(y)) == Verdict::Value(Val::Bool(x > y)),
        binop_verdict(">="@, Val::Int(x), Val::Int(y)) == Verdict::Value(Val::Bool(x >= y)),
        binop_verdict("=="@, Val::Int(x), Val::Int(y)) == Verdict::Value(Val::Bool(x == y)),
        binop_verdict("!="@, Val::Int(x), Val::Int(y)) == Verdict::Value(Val::Bool(x != y)),
{
    lemma_int_operator(op, x, y);
    lemma_spellings();
}

/// Law: an operator in a predicate has the value that running its compiled code
/// leaves.
pub proof fn law_predicates_agree_with_code(
    p: Program,
    code: Seq<Op>,
    s: State,
    d: Draft,
    op: Seq<char>,
    t: NumTy,
    st: Seq<Val>,
    x: i64,
    y: i64,
    v: Val,
)
    requires
        poised(p, code, s, d, expr::binary(d, op, t)),
        s.stack == st.push(Val::Int(x)).push(Val::Int(y)),
        t != NumTy::Float,
        binop_verdict(op, Val::Int(x), Val::Int(y)) == Verdict::Value(v),
    ensures
        exists|lo: Seq<Val>| #[trigger]
            arrives(p, code, s, expr::binary(d, op, t).code.len(), st.push(v), lo)
                && keeps_locals(s, d, lo),
{
    lemma_int_operator(op, x, y);
    assert(gives(op, Val::Int(x), Val::Int(y), v));
    law_operator_code_computes(p, code, s, d, op, t, st, Val::Int(x), Val::Int(y), v);
}

/// A predicate over literals, the bound name and operators on integers, truth
/// values and equality of texts.
pub open spec fn is_predicate(e: CExpr) -> bool
    decreases e,
{
    match e {
        CExpr::Literal { .. } | CExpr::Var { .. } => true,
        CExpr::UnaryOp { expr, .. } => is_predicate(*expr),
        CExpr::BinOp { lhs, rhs, .. } => is_predicate(*lhs) && is_predicate(*rhs),
        _ => false,
    }
}

/// No text is compared but for equality.
pub open spec fn plain_texts(op: Seq<char>, a: Val) -> bool {
    a is Str ==> op == "=="@ || op == "!="@
}

/// The operators of a predicate on values that are no texts.
proof fn lemma_operator(op: Seq<char>, a: Val, b: Val, v: Val)
    requires
        gives(op, a, b, v),
        op != "and"@,
        op != "or"@,
        plain_texts(op, a),
    ensures
        binop_verdict(op, a, b) == Verdict::Value(v),
{
    lemma_spellings();
    match (a, b) {
        (Val::Int(x), Val::Int(y)) => {
            lemma_int_operator(op, x, y);
        },
        _ => {},
    }
}

proof fn lemma_unary_operator(op: Seq<char>, a: Val, v: Val)
    requires
        alone_gives(op, a, v),
    ensures
        unary_verdict(op, a) == Ok::<Val, Seq<char>>(v),
{
    if let Val::Int(x) = a {
        lemma_wraps_once(-x, v->Int_0, 0i64.wrapping_sub(x));
    }
}

/// Every text in a predicate is compared for equality only.
pub open spec fn tame(e: CExpr, env: Map<Seq<char>, Val>) -> bool
    decreases e,
{
    match e {
        CExpr::UnaryOp { expr, .. } => tame(*expr, env),
        CExpr::BinOp { op, lhs, rhs } => tame(*lhs, env) && tame(*rhs, env) && (value_of(
            *lhs,
            env,
        ) matches Some(a) ==> plain_texts(op@, a)),
        _ => true,
    }
}

/// Law: a predicate comes to the value of its expression, where the bound name
/// stands for the argument. So it holds of an argument if and only if its
/// expression is true of it.
pub proof fn law_predicates_mean_their_expressions(
    e: CExpr,
    binding: Seq<char>,
    arg: Val,
    floats: Seq<u64>,
    at: nat,
    v: Val,
)
    requires
        is_predicate(e),
        value_of(e, Map::empty().insert(binding, arg)) == Some(v),
        tame(e, Map::empty().insert(binding, arg)),
    ensures
        evaluate(e, binding, arg, floats, at) == (Ok::<Val, Seq<char>>(v), at),
        v matches Val::Bool(b) ==> holds(e, binding, arg, floats, at) == (
            Ok::<bool, Seq<char>>(b),
            at,
        ),
    decreases e,
{
    let env = Map::empty().insert(binding, arg);
    match e {
        CExpr::UnaryOp { op, expr } => {
            let a = value_of(*expr, env)->0;
            law_predicates_mean_their_expressions(*expr, binding, arg, floats, at, a);
            lemma_unary_operator(op@, a, v);
        },
        CExpr::BinOp { op, lhs, rhs } => {
            let a = value_of(*lhs, env)->0;
            let b = value_of(*rhs, env)->0;
            assert(gives(op@, a, b, v));
            law_predicates_mean_their_expressions(*lhs, binding, arg, floats, at, a);
            law_predicates_mean_their_expressions(*rhs, binding, arg, floats, at, b);
            lemma_spellings();
            if op@ != "and"@ && op@ != "or"@ {
                lemma_operator(op@, a, b, v);
            }
        },
        _ => {},
    }
}

} // verus!
