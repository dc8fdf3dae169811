//! The predicates of refined parameter types, evaluated on arguments.

use vstd::prelude::*;

use crate::ast::{CExpr, CLit};
use crate::float_bits;
use crate::text::same_text;
use crate::value;
use crate::value::{Val, Value};
use crate::value_ops::val_eq;
use crate::vm::arith::{int_quotient, int_remainder, quotient, remainder, FloatOp};
use crate::vm::shown::shown;
use crate::vm::host::Host;
use crate::vm::outside::{
    ask_float, attended, host_only_heard, lemma_host_heard_on, lemma_host_silent, refused, Exchange,
    Log,
};

verus! {

broadcast use crate::value::lemma_view;

/// What a predicate or an operator in it comes to.
pub enum Verdict {
    Value(Val),
    Reject(Seq<char>),
    Ask(FloatOp, u64, u64),
}

/// The name of the kind of an expression.
pub open spec fn node_text(e: CExpr) -> Seq<char> {
    match e {
        CExpr::Literal { .. } => "Literal"@,
        CExpr::Var { .. } => "Var"@,
        CExpr::Let { .. } => "Let"@,
        CExpr::Block { .. } => "Block"@,
        CExpr::Call { .. } => "Call"@,
        CExpr::Constructor { .. } => "Constructor"@,
        CExpr::Match { .. } => "Match"@,
        CExpr::RecordLit { .. } => "RecordLit"@,
        CExpr::TupleLit { .. } => "TupleLit"@,
        CExpr::ListLit { .. } => "ListLit"@,
        CExpr::FieldAccess { .. } => "FieldAccess"@,
        CExpr::BinOp { .. } => "BinOp"@,
        CExpr::UnaryOp { .. } => "UnaryOp"@,
        CExpr::Lambda { .. } => "Lambda"@,
        CExpr::Return { .. } => "Return"@,
    }
}

fn node_name(e: &CExpr) -> (s: &'static str)
    ensures
        s@ == node_text(*e),
{
    match e {
        CExpr::Literal { .. } => "Literal",
        CExpr::Var { .. } => "Var",
        CExpr::Let { .. } => "Let",
        CExpr::Block { .. } => "Block",
        CExpr::Call { .. } => "Call",
        CExpr::Constructor { .. } => "Constructor",
        CExpr::Match { .. } => "Match",
        CExpr::RecordLit { .. } => "RecordLit",
        CExpr::TupleLit { .. } => "TupleLit",
        CExpr::ListLit { .. } => "ListLit",
        CExpr::FieldAccess { .. } => "FieldAccess",
        CExpr::BinOp { .. } => "BinOp",
        CExpr::UnaryOp { .. } => "UnaryOp",
        CExpr::Lambda { .. } => "Lambda",
        CExpr::Return { .. } => "Return",
    }
}

/// The value of a literal. Bytes stay the text they were written as.
pub open spec fn literal_val(l: CLit) -> Val {
    match l {
        CLit::Int { value } => Val::Int(value),
        CLit::Float { bits, .. } => Val::Float(bits),
        CLit::Bool { value } => Val::Bool(value),
        CLit::Str { value } => Val::Str(value@),
        CLit::Bytes { value } => Val::Str(value@),
        CLit::Unit => Val::Unit,
    }
}

fn literal_value(l: &CLit) -> (v: Value)
    ensures
        v@ == literal_val(*l),
{
    match l {
        CLit::Int { value } => Value::Int(*value),
        CLit::Float { bits, .. } => Value::Float(*bits),
        CLit::Bool { value } => Value::Bool(*value),
        CLit::Str { value } => Value::Str(value.clone()),
        CLit::Bytes { value } => Value::Str(value.clone()),
        CLit::Unit => Value::Unit,
    }
}

pub open spec fn no_binop(op: Seq<char>, l: Val, r: Val) -> Verdict {
    Verdict::Reject(
        "unsupported binop `"@ + op + "` on "@ + shown(l) + " and "@ + shown(r),
    )
}

/// An operator other than `and` and `or`.
pub open spec fn binop_verdict(op: Seq<char>, l: Val, r: Val) -> Verdict {
    if op == "=="@ {
        Verdict::Value(Val::Bool(val_eq(l, r)))
    } else if op == "!="@ {
        Verdict::Value(Val::Bool(!val_eq(l, r)))
    } else {
        match (l, r) {
            (Val::Int(a), Val::Int(b)) => int_verdict(op, a, b),
            (Val::Float(a), Val::Float(b)) => float_verdict(op, a, b),
            _ => no_binop(op, l, r),
        }
    }
}

pub open spec fn int_verdict(op: Seq<char>, a: i64, b: i64) -> Verdict {
    if op == "+"@ {
        Verdict::Value(Val::Int(a.wrapping_add(b)))
    } else if op == "-"@ {
        Verdict::Value(Val::Int(a.wrapping_sub(b)))
    } else if op == "*"@ {
        Verdict::Value(Val::Int(a.wrapping_mul(b)))
    } else if op == "/"@ && b != 0 {
        Verdict::Value(Val::Int(int_quotient(a, b)))
    } else if op == "%"@ && b != 0 {
        Verdict::Value(Val::Int(int_remainder(a, b)))
    } else if op == "<"@ {
        Verdict::Value(Val::Bool(a < b))
    } else if op == "<="@ {
        Verdict::Value(Val::Bool(a <= b))
    } else if op == ">"@ {
        Verdict::Value(Val::Bool(a > b))
    } else if op == ">="@ {
        Verdict::Value(Val::Bool(a >= b))
    } else {
        no_binop(op, Val::Int(a), Val::Int(b))
    }
}

pub open spec fn float_verdict(op: Seq<char>, a: u64, b: u64) -> Verdict {
    if op == "+"@ {
        Verdict::Ask(FloatOp::Add, a, b)
    } else if op == "-"@ {
        Verdict::Ask(FloatOp::Sub, a, b)
    } else if op == "*"@ {
        Verdict::Ask(FloatOp::Mul, a, b)
    } else if op == "/"@ {
        Verdict::Ask(FloatOp::Div, a, b)
    } else if op == "<"@ {
        Verdict::Value(Val::Bool(float_bits::float_lt(a, b)))
    } else if op == "<="@ {
        Verdict::Value(Val::Bool(float_bits::float_le(a, b)))
    } else if op == ">"@ {
        Verdict::Value(Val::Bool(float_bits::float_lt(b, a)))
    } else if op == ">="@ {
        Verdict::Value(Val::Bool(float_bits::float_le(b, a)))
    } else {
        no_binop(op, Val::Float(a), Val::Float(b))
    }
}

pub open spec fn unary_verdict(op: Seq<char>, v: Val) -> Result<Val, Seq<char>> {
    match v {
        Val::Bool(b) => if op == "not"@ {
            Ok(Val::Bool(!b))
        } else {
            Err("unsupported unary `"@ + op + "` on "@ + shown(v))
        },
        Val::Int(n) => if op == "-"@ {
            Ok(Val::Int(0i64.wrapping_sub(n)))
        } else {
            Err("unsupported unary `"@ + op + "` on "@ + shown(v))
        },
        Val::Float(x) => if op == "-"@ {
            Ok(Val::Float(float_bits::float_neg(x)))
        } else {
            Err("unsupported unary `"@ + op + "` on "@ + shown(v))
        },
        _ => Err("unsupported unary `"@ + op + "` on "@ + shown(v)),
    }
}

pub open spec fn not_bool(op: Seq<char>, v: Val) -> Seq<char> {
    "`"@ + op + "` on non-bool: "@ + shown(v)
}

pub open spec fn free_var(name: Seq<char>) -> Seq<char> {
    "predicate references free var `"@ + name
        + "`; runtime check only resolves the binding (slice 4 will plumb call-site context)"@
}

/// The value of a predicate or a part of it, or why it has none. The host
/// answers float arithmetic with the numbers `floats[at]`, `floats[at + 1]` and
/// so on; the second result is the place of the next answer.
pub open spec fn evaluate(
    e: CExpr,
    binding: Seq<char>,
    arg: Val,
    floats: Seq<u64>,
    at: nat,
) -> (Result<Val, Seq<char>>, nat)
    decreases e,
{
    match e {
        CExpr::Literal { value } => (Ok(literal_val(value)), at),
        CExpr::Var { name } => if name@ == binding {
            (Ok(arg), at)
        } else {
            (Err(free_var(name@)), at)
        },
        CExpr::UnaryOp { op, expr } => match evaluate(*expr, binding, arg, floats, at) {
            (Ok(v), next) => (unary_verdict(op@, v), next),
            (Err(t), next) => (Err(t), next),
        },
        CExpr::BinOp { op, lhs, rhs } => if op@ == "and"@ || op@ == "or"@ {
            match evaluate(*lhs, binding, arg, floats, at) {
                (Ok(Val::Bool(l)), next) => if op@ == "and"@ && !l {
                    (Ok(Val::Bool(false)), next)
                } else if op@ == "or"@ && l {
                    (Ok(Val::Bool(true)), next)
                } else {
                    match evaluate(*rhs, binding, arg, floats, next) {
                        (Ok(Val::Bool(r)), last) => (Ok(Val::Bool(r)), last),
                        (Ok(v), last) => (Err(not_bool(op@, v)), last),
                        (Err(t), last) => (Err(t), last),
                    }
                },
                (Ok(v), next) => (Err(not_bool(op@, v)), next),
                (Err(t), next) => (Err(t), next),
            }
        } else {
            match evaluate(*lhs, binding, arg, floats, at) {
                (Err(t), next) => (Err(t), next),
                (Ok(l), next) => match evaluate(*rhs, binding, arg, floats, next) {
                    (Err(t), last) => (Err(t), last),
                    (Ok(r), last) => match binop_verdict(op@, l, r) {
                        Verdict::Value(v) => (Ok(v), last),
                        Verdict::Reject(t) => (Err(t), last),
                        Verdict::Ask(_, _, _) => (Ok(Val::Float(floats[last as int])), last + 1),
                    },
                },
            }
        },
        _ => (Err("unsupported predicate node: "@ + node_text(e)), at),
    }
}

/// What the host is asked while a predicate or a part of it is evaluated.
pub open spec fn asked(
    e: CExpr,
    binding: Seq<char>,
    arg: Val,
    floats: Seq<u64>,
    at: nat,
) -> Seq<Exchange>
    decreases e,
{
    match e {
        CExpr::UnaryOp { expr, .. } => asked(*expr, binding, arg, floats, at),
        CExpr::BinOp { op, lhs, rhs } => {
            let first = asked(*lhs, binding, arg, floats, at);
            match evaluate(*lhs, binding, arg, floats, at) {
                (Err(_), _) => first,
                (Ok(l), next) => {
                    let both = first + asked(*rhs, binding, arg, floats, next);
                    if op@ == "and"@ || op@ == "or"@ {
                        match l {
                            Val::Bool(b) => if (op@ == "and"@ && !b) || (op@ == "or"@ && b) {
                                first
                            } else {
                                both
                            },
                            _ => first,
                        }
                    } else {
                        match evaluate(*rhs, binding, arg, floats, next) {
                            (Err(_), _) => both,
                            (Ok(r), last) => match binop_verdict(op@, l, r) {
                                Verdict::Ask(f, a, b) => both.push(
                                    Exchange::Float { op: f, a, b, answer: floats[last as int] },
                                ),
                                _ => both,
                            },
                        }
                    }
                },
            }
        },
        _ => Seq::empty(),
    }
}

/// Whether a predicate holds, or why that cannot be said.
pub open spec fn holds(
    e: CExpr,
    binding: Seq<char>,
    arg: Val,
    floats: Seq<u64>,
    at: nat,
) -> (Result<bool, Seq<char>>, nat) {
    match evaluate(e, binding, arg, floats, at) {
        (Ok(Val::Bool(b)), next) => (Ok(b), next),
        (Ok(v), next) => (
            Err("predicate didn't reduce to a Bool, got "@ + shown(v)),
            next,
        ),
        (Err(t), next) => (Err(t), next),
    }
}

/// An evaluation does not depend on answers behind the last one it took.
pub proof fn lemma_evaluate_prefix(
    e: CExpr,
    binding: Seq<char>,
    arg: Val,
    short: Seq<u64>,
    long: Seq<u64>,
    at: nat,
)
    requires
        evaluate(e, binding, arg, short, at).1 <= short.len() <= long.len(),
        forall|i: int| 0 <= i < short.len() ==> short[i] == long[i],
    ensures
        evaluate(e, binding, arg, short, at) == evaluate(e, binding, arg, long, at),
        at <= evaluate(e, binding, arg, short, at).1,
    decreases e,
{
    lemma_evaluate_grows(e, binding, arg, short, at);
    match e {
        CExpr::UnaryOp { op, expr } => {
            lemma_evaluate_prefix(*expr, binding, arg, short, long, at);
        },
        CExpr::BinOp { op, lhs, rhs } => {
            let l = evaluate(*lhs, binding, arg, short, at);
            lemma_evaluate_grows(*rhs, binding, arg, short, l.1);
            lemma_evaluate_prefix(*lhs, binding, arg, short, long, at);
            if evaluate(*rhs, binding, arg, short, l.1).1 <= short.len() {
                lemma_evaluate_prefix(*rhs, binding, arg, short, long, l.1);
            }
        },
        _ => {},
    }
}

/// Nor do the questions to the host.
pub proof fn lemma_asked_prefix(
    e: CExpr,
    binding: Seq<char>,
    arg: Val,
    short: Seq<u64>,
    long: Seq<u64>,
    at: nat,
)
    requires
        evaluate(e, binding, arg, short, at).1 <= short.len() <= long.len(),
        forall|i: int| 0 <= i < short.len() ==> short[i] == long[i],
    ensures
        asked(e, binding, arg, short, at) == asked(e, binding, arg, long, at),
    decreases e,
{
    match e {
        CExpr::UnaryOp { op, expr } => {
            lemma_asked_prefix(*expr, binding, arg, short, long, at);
        },
        CExpr::BinOp { op, lhs, rhs } => {
            let l = evaluate(*lhs, binding, arg, short, at);
            lemma_evaluate_grows(*rhs, binding, arg, short, l.1);
            lemma_asked_prefix(*lhs, binding, arg, short, long, at);
            lemma_evaluate_prefix(*lhs, binding, arg, short, long, at);
            if evaluate(*rhs, binding, arg, short, l.1).1 <= short.len() {
                lemma_asked_prefix(*rhs, binding, arg, short, long, l.1);
                lemma_evaluate_prefix(*rhs, binding, arg, short, long, l.1);
            }
        },
        _ => {},
    }
}

proof fn lemma_evaluate_grows(
    e: CExpr,
    binding: Seq<char>,
    arg: Val,
    floats: Seq<u64>,
    at: nat,
)
    ensures
        at <= evaluate(e, binding, arg, floats, at).1,
    decreases e,
{
    match e {
        CExpr::UnaryOp { op, expr } => {
            lemma_evaluate_grows(*expr, binding, arg, floats, at);
        },
        CExpr::BinOp { op, lhs, rhs } => {
            lemma_evaluate_grows(*lhs, binding, arg, floats, at);
            lemma_evaluate_grows(
                *rhs,
                binding,
                arg,
                floats,
                evaluate(*lhs, binding, arg, floats, at).1,
            );
        },
        _ => {},
    }
}

/// The executable counterpart of [`Verdict`].
enum Judged {
    Value(Value),
    Reject(String),
    Ask(FloatOp, u64, u64),
}

impl Judged {
    spec fn verdict(self) -> Verdict {
        match self {
            Judged::Value(v) => Verdict::Value(v@),
            Judged::Reject(t) => Verdict::Reject(t@),
            Judged::Ask(op, a, b) => Verdict::Ask(op, a, b),
        }
    }
}

fn reject_binop(op: &str, l: &str, r: &str) -> (j: Judged)
    ensures
        j.verdict() == Verdict::Reject(
            "unsupported binop `"@ + op@ + "` on "@ + l@ + " and "@ + r@,
        ),
{
    let mut t = "unsupported binop `".to_owned();
    t.append(op);
    t.append("` on ");
    t.append(l);
    t.append(" and ");
    t.append(r);
    Judged::Reject(t)
}

fn judge_ints(op: &str, a: i64, b: i64) -> (j: Judged)
    ensures
        j.verdict() == int_verdict(op@, a, b),
{
    if same_text(op, "+") {
        Judged::Value(Value::Int(a.wrapping_add(b)))
    } else if same_text(op, "-") {
        Judged::Value(Value::Int(a.wrapping_sub(b)))
    } else if same_text(op, "*") {
        Judged::Value(Value::Int(a.wrapping_mul(b)))
    } else if same_text(op, "/") && b != 0 {
        Judged::Value(Value::Int(quotient(a, b)))
    } else if same_text(op, "%") && b != 0 {
        Judged::Value(Value::Int(remainder(a, b)))
    } else if same_text(op, "<") {
        Judged::Value(Value::Bool(a < b))
    } else if same_text(op, "<=") {
        Judged::Value(Value::Bool(a <= b))
    } else if same_text(op, ">") {
        Judged::Value(Value::Bool(a > b))
    } else if same_text(op, ">=") {
        Judged::Value(Value::Bool(a >= b))
    } else {
        let l = Value::Int(a);
        let r = Value::Int(b);
        reject_binop(op, l.show().as_str(), r.show().as_str())
    }
}

fn judge_floats(op: &str, a: u64, b: u64) -> (j: Judged)
    ensures
        j.verdict() == float_verdict(op@, a, b),
{
    if same_text(op, "+") {
        Judged::Ask(FloatOp::Add, a, b)
    } else if same_text(op, "-") {
        Judged::Ask(FloatOp::Sub, a, b)
    } else if same_text(op, "*") {
        Judged::Ask(FloatOp::Mul, a, b)
    } else if same_text(op, "/") {
        Judged::Ask(FloatOp::Div, a, b)
    } else if same_text(op, "<") {
        Judged::Value(Value::Bool(float_bits::lt(a, b)))
    } else if same_text(op, "<=") {
        Judged::Value(Value::Bool(float_bits::le(a, b)))
    } else if same_text(op, ">") {
        Judged::Value(Value::Bool(float_bits::lt(b, a)))
    } else if same_text(op, ">=") {
        Judged::Value(Value::Bool(float_bits::le(b, a)))
    } else {
        reject_binop(op, "Float", "Float")
    }
}

/// Applies an operator other than `and` and `or`.
fn apply_refinement_binop(op: &str, l: &Value, r: &Value) -> (j: Judged)
    ensures
        j.verdict() == binop_verdict(op@, l@, r@),
{
    proof {
        assert(l@ == value::view_of(*l));
        assert(r@ == value::view_of(*r));
    }
    if same_text(op, "==") {
        Judged::Value(Value::Bool(l.same(r)))
    } else if same_text(op, "!=") {
        Judged::Value(Value::Bool(!l.same(r)))
    } else {
        match (l, r) {
            (Value::Int(a), Value::Int(b)) => judge_ints(op, *a, *b),
            (Value::Float(a), Value::Float(b)) => judge_floats(op, *a, *b),
            _ => reject_binop(op, l.show().as_str(), r.show().as_str()),
        }
    }
}

fn apply_refinement_unary(op: &str, v: &Value) -> (r: Result<Value, String>)
    ensures
        match r {
            Ok(x) => unary_verdict(op@, v@) == Ok::<Val, Seq<char>>(x@),
            Err(t) => unary_verdict(op@, v@) == Err::<Val, Seq<char>>(t@),
        },
{
    proof {
        assert(v@ == value::view_of(*v));
    }
    match v {
        Value::Bool(b) => if same_text(op, "not") {
            return Ok(Value::Bool(!*b));
        },
        Value::Int(n) => if same_text(op, "-") {
            return Ok(Value::Int(0i64.wrapping_sub(*n)));
        },
        Value::Float(x) => if same_text(op, "-") {
            return Ok(Value::Float(float_bits::neg(*x)));
        },
        _ => {},
    }
    let mut t = "unsupported unary `".to_owned();
    t.append(op);
    t.append("` on ");
    t.append(v.show().as_str());
    Err(t)
}

fn non_bool(op: &str, v: &Value) -> (t: String)
    ensures
        t@ == not_bool(op@, v@),
{
    let mut t = "`".to_owned();
    t.append(op);
    t.append("` on non-bool: ");
    t.append(v.show().as_str());
    t
}

/// A result that an evaluation with these answers gives.
pub open spec fn matches_result(r: Result<Value, String>, spec: Result<Val, Seq<char>>) -> bool {
    match r {
        Ok(v) => spec == Ok::<Val, Seq<char>>(v@),
        Err(t) => spec == Err::<Val, Seq<char>>(t@),
    }
}

/// Evaluates a predicate or a part of it. The answers of the host are appended
/// to the answers that were there before.
fn eval_refinement_inner<'a>(
    e: &CExpr,
    binding: &str,
    arg: &Value,
    host: &mut Option<Box<dyn Host + 'a>>,
    log: &mut Ghost<Log<'a>>,
    before: Ghost<Seq<u64>>,
) -> (out: (Result<Value, String>, Ghost<Seq<u64>>))
    requires
        (*old(host)) is Some,
    ensures
        (*final(host)) is Some,
        attended(old(log)@) ==> attended(final(log)@),
        host_only_heard(old(log)@, *old(host), final(log)@, *final(host)),
        refused(old(log)@.said) ==> refused(final(log)@.said),
        final(log)@.said == old(log)@.said + asked(*e, binding@, arg@, out.1@, before@.len()),
        before@.len() <= out.1@.len(),
        out.1@.take(before@.len() as int) == before@,
        evaluate(*e, binding@, arg@, out.1@, before@.len()).1 == out.1@.len(),
        matches_result(
            out.0,
            evaluate(*e, binding@, arg@, out.1@, before@.len()).0,
        ),
    decreases e, 1nat,
{
    let ghost s0 = log@.said;
    let ghost l0 = log@;
    let ghost h0 = *host;
    proof {
        lemma_host_silent(l0, h0);
    }
    assert(before@.take(before@.len() as int) =~= before@);
    assert(s0 + Seq::<Exchange>::empty() =~= s0);
    match e {
        CExpr::Literal { value } => (Ok(literal_value(value)), before),
        CExpr::Var { name } => {
            if same_text(name.as_str(), binding) {
                (Ok(arg.duplicate()), before)
            } else {
                let mut t = "predicate references free var `".to_owned();
                t.append(name.as_str());
                t.append(
                    "`; runtime check only resolves the binding (slice 4 will plumb call-site context)",
                );
                (Err(t), before)
            }
        },
        CExpr::UnaryOp { op, expr } => {
            let (r, answers) = eval_refinement_inner(expr, binding, arg, host, log, before);
            match r {
                Ok(v) => (apply_refinement_unary(op.as_str(), &v), answers),
                Err(t) => (Err(t), answers),
            }
        },
        CExpr::BinOp { op, lhs, rhs } => eval_binop(
            e,
            op.as_str(),
            lhs,
            rhs,
            binding,
            arg,
            host,
            log,
            before,
        ),
        _ => {
            let t = "unsupported predicate node: ".to_owned().concat(node_name(e));
            (Err(t), before)
        },
    }
}

/// Evaluates an operator and its operands.
#[verifier::rlimit(40)]
#[verifier::spinoff_prover]
fn eval_binop<'a>(
    e: &CExpr,
    op: &str,
    lhs: &CExpr,
    rhs: &CExpr,
    binding: &str,
    arg: &Value,
    host: &mut Option<Box<dyn Host + 'a>>,
    log: &mut Ghost<Log<'a>>,
    before: Ghost<Seq<u64>>,
) -> (out: (Result<Value, String>, Ghost<Seq<u64>>))
    requires
        (*old(host)) is Some,
        e matches CExpr::BinOp { op: o, lhs: l, rhs: r } && o@ == op@ && **l == *lhs && **r == *rhs,
    ensures
        (*final(host)) is Some,
        attended(old(log)@) ==> attended(final(log)@),
        host_only_heard(old(log)@, *old(host), final(log)@, *final(host)),
        refused(old(log)@.said) ==> refused(final(log)@.said),
        final(log)@.said == old(log)@.said + asked(*e, binding@, arg@, out.1@, before@.len()),
        before@.len() <= out.1@.len(),
        out.1@.take(before@.len() as int) == before@,
        evaluate(*e, binding@, arg@, out.1@, before@.len()).1 == out.1@.len(),
        matches_result(
            out.0,
            evaluate(*e, binding@, arg@, out.1@, before@.len()).0,
        ),
    decreases e, 0nat,
{
    let ghost s0 = log@.said;
    let ghost l0 = log@;
    let ghost h0 = *host;
    assert(before@.take(before@.len() as int) =~= before@);
    assert(s0 + Seq::<Exchange>::empty() =~= s0);
    let (l, first) = eval_refinement_inner(lhs, binding, arg, host, log, before);
    let is_and = same_text(op, "and");
    let is_or = same_text(op, "or");
    let l = match l {
        Ok(v) => v,
        Err(t) => return (Err(t), first),
    };
    if is_and || is_or {
        match &l {
            Value::Bool(b) => {
                if is_and && !*b {
                    return (Ok(Value::Bool(false)), first);
                }
                if is_or && *b {
                    return (Ok(Value::Bool(true)), first);
                }
            },
            other => return (Err(non_bool(op, other)), first),
        }
    }
    let ghost l1 = log@;
    let ghost h1 = *host;
    let (r, second) = eval_refinement_inner(rhs, binding, arg, host, log, first);
    let ghost l2 = log@;
    let ghost h2 = *host;
    proof {
        lemma_host_heard_on(l0, h0, l1, h1, l2, h2);
        lemma_kept(before@, first@, second@);
        lemma_evaluate_prefix(
            *lhs,
            binding@,
            arg@,
            first@,
            second@,
            before@.len(),
        );
        lemma_asked_prefix(*lhs, binding@, arg@, first@, second@, before@.len());
        assert(log@.said =~= s0 + (asked(*lhs, binding@, arg@, second@,
            before@.len()) + asked(
            *rhs,
            binding@,
            arg@,
            second@,
            first@.len(),
        )));
    }
    let r = match r {
        Ok(v) => v,
        Err(t) => return (Err(t), second),
    };
    if is_and || is_or {
        return match r {
            Value::Bool(b) => (Ok(Value::Bool(b)), second),
            other => (Err(non_bool(op, &other)), second),
        };
    }
    match apply_refinement_binop(op, &l, &r) {
        Judged::Value(v) => (Ok(v), second),
        Judged::Reject(t) => (Err(t), second),
        Judged::Ask(f, a, b) => {
            let ghost s1 = log@.said;
            let x = ask_float(host, log, f, a, b);
            let third: Ghost<Seq<u64>> = Ghost(second@.push(x));
            proof {
                lemma_host_heard_on(l0, h0, l2, h2, log@, *host);
                assert(third@.take(second@.len() as int) =~= second@);
                lemma_kept(before@, second@, third@);
                lemma_kept(first@, second@, third@);
                lemma_kept(before@, first@, third@);
                lemma_evaluate_prefix(
                    *lhs,
                    binding@,
                    arg@,
                    first@,
                    third@,
                    before@.len(),
                );
                lemma_evaluate_prefix(
                    *rhs,
                    binding@,
                    arg@,
                    second@,
                    third@,
                    first@.len(),
                );
                lemma_asked_prefix(*lhs, binding@, arg@, first@, third@, before@.len());
                lemma_asked_prefix(*rhs, binding@, arg@, second@, third@, first@.len());
                let both = asked(*lhs, binding@, arg@, third@, before@.len()) + asked(
                    *rhs,
                    binding@,
                    arg@,
                    third@,
                    first@.len(),
                );
                let q = Exchange::Float { op: f, a, b, answer: x };
                assert(s1 == s0 + both);
                assert(log@.said =~= s0 + both.push(q));
            }
            (Ok(Value::Float(x)), third)
        },
    }
}

/// Prefixes of prefixes.
proof fn lemma_kept(a: Seq<u64>, b: Seq<u64>, c: Seq<u64>)
    requires
        a.len() <= b.len() <= c.len(),
        b.take(a.len() as int) == a,
        c.take(b.len() as int) == b,
    ensures
        c.take(a.len() as int) == a,
        forall|i: int| 0 <= i < b.len() ==> b[i] == c[i],
{
    assert forall|i: int| 0 <= i < b.len() implies b[i] == c[i] by {
        assert(c.take(b.len() as int)[i] == c[i]);
    }
    assert(c.take(a.len() as int) =~= b.take(a.len() as int));
}

/// Decides a predicate for an argument.
pub(crate) fn eval_refinement<'a>(
    predicate: &CExpr,
    binding: &str,
    arg: &Value,
    host: &mut Option<Box<dyn Host + 'a>>,
    log: &mut Ghost<Log<'a>>,
    before: Ghost<Seq<u64>>,
) -> (out: (Result<bool, String>, Ghost<Seq<u64>>))
    requires
        (*old(host)) is Some,
    ensures
        (*final(host)) is Some,
        attended(old(log)@) ==> attended(final(log)@),
        host_only_heard(old(log)@, *old(host), final(log)@, *final(host)),
        refused(old(log)@.said) ==> refused(final(log)@.said),
        final(log)@.said == old(log)@.said + asked(*predicate, binding@, arg@, out.1@,
            before@.len()),
        before@.len() <= out.1@.len(),
        out.1@.take(before@.len() as int) == before@,
        holds(*predicate, binding@, arg@, out.1@, before@.len()).1 == out.1@.len(),
        match out.0 {
            Ok(b) => holds(*predicate, binding@, arg@, out.1@, before@.len()).0 == Ok::<
                bool,
                Seq<char>,
            >(b),
            Err(t) => holds(*predicate, binding@, arg@, out.1@, before@.len()).0 == Err::<
                bool,
                Seq<char>,
            >(t@),
        },
{
    let (r, answers) = eval_refinement_inner(predicate, binding, arg, host, log, before);
    match r {
        Ok(Value::Bool(b)) => (Ok(b), answers),
        Ok(other) => (
            Err("predicate didn't reduce to a Bool, got ".to_owned().concat(other.show().as_str())),
            answers,
        ),
        Err(t) => (Err(t), answers),
    }
}

} // verus!
