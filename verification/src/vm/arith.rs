//! Ops on operands alone: arithmetic, comparison, text, lists and variants.

use vstd::prelude::*;

use crate::float_bits;
use crate::op::Op;
use crate::text::{bytes_of, not_after, same_text, text_le};
use crate::value;
use crate::value::{vals, Val, Value};
use crate::value_ops::{same_bytes, val_eq};
use crate::vm::fault::{
    expected, expected_fault, mismatch, mismatch_fault, mismatch_with, Fault, VmError,
};
use crate::vm::shown::shown;

verus! {

broadcast use crate::value::lemma_view;

/// Float operations that only the host can compute.
#[derive(Debug, Clone, Copy, PartialEq, Eq, Structural)]
pub enum FloatOp {
    Add,
    Sub,
    Mul,
    Div,
    Rem,
}

/// What an op makes of its operands: a value, a failure, or a float operation
/// that is left to the host.
pub enum Calc {
    Value(Val),
    Fail(Fault),
    Ask(FloatOp, u64, u64),
}

/// The executable counterpart of [`Calc`].
pub enum Computed {
    Value(Value),
    Fail(VmError),
    Ask(FloatOp, u64, u64),
}

impl View for Computed {
    type V = Calc;

    open spec fn view(&self) -> Calc {
        match self {
            Computed::Value(v) => Calc::Value(v@),
            Computed::Fail(e) => Calc::Fail(e@),
            Computed::Ask(op, x, y) => Calc::Ask(*op, *x, *y),
        }
    }
}

/// Division that rounds towards zero; the one quotient that does not fit
/// wraps around.
pub open spec fn int_quotient(a: i64, b: i64) -> i64 {
    if a == i64::MIN && b == -1 {
        i64::MIN
    } else if a >= 0 {
        (a as int / b as int) as i64
    } else {
        (-((-(a as int)) / b as int)) as i64
    }
}

/// The remainder of [`int_quotient`]; it has the sign of the dividend.
pub open spec fn int_remainder(a: i64, b: i64) -> i64 {
    if b == -1 {
        0
    } else if a >= 0 {
        (a as int % b as int) as i64
    } else {
        (-((-(a as int)) % b as int)) as i64
    }
}

pub(crate) fn quotient(a: i64, b: i64) -> (q: i64)
    requires
        b != 0,
    ensures
        q == int_quotient(a, b),
{
    if a == i64::MIN && b == -1 {
        i64::MIN
    } else {
        a / b
    }
}

pub(crate) fn remainder(a: i64, b: i64) -> (r: i64)
    requires
        b != 0,
    ensures
        r == int_remainder(a, b),
{
    if b == -1 {
        0
    } else {
        a % b
    }
}

/// An op on two integers.
pub open spec fn int_calc(op: Op, a: i64, b: i64) -> Calc {
    match op {
        Op::IntAdd => Calc::Value(Val::Int(a.wrapping_add(b))),
        Op::IntSub => Calc::Value(Val::Int(a.wrapping_sub(b))),
        Op::IntMul => Calc::Value(Val::Int(a.wrapping_mul(b))),
        Op::IntDiv => if b == 0 {
            Calc::Fail(Fault::DivByZero { op: "division"@ })
        } else {
            Calc::Value(Val::Int(int_quotient(a, b)))
        },
        Op::IntMod => if b == 0 {
            Calc::Fail(Fault::DivByZero { op: "modulo"@ })
        } else {
            Calc::Value(Val::Int(int_remainder(a, b)))
        },
        Op::IntEq => Calc::Value(Val::Bool(a == b)),
        Op::IntLt => Calc::Value(Val::Bool(a < b)),
        _ => Calc::Value(Val::Bool(a <= b)),
    }
}

/// An op on two floats.
pub open spec fn float_calc(op: Op, a: u64, b: u64) -> Calc {
    match op {
        Op::FloatAdd => Calc::Ask(FloatOp::Add, a, b),
        Op::FloatSub => Calc::Ask(FloatOp::Sub, a, b),
        Op::FloatMul => Calc::Ask(FloatOp::Mul, a, b),
        Op::FloatDiv => Calc::Ask(FloatOp::Div, a, b),
        Op::FloatEq => Calc::Value(Val::Bool(float_bits::float_eq(a, b))),
        Op::FloatLt => Calc::Value(Val::Bool(float_bits::float_lt(a, b))),
        _ => Calc::Value(Val::Bool(float_bits::float_le(a, b))),
    }
}

/// Operands that an overloaded op does not take.
pub open spec fn num_fault(a: Val, b: Val) -> Fault {
    Fault::TypeMismatch("Num op: "@ + shown(a) + " "@ + shown(b))
}

/// An overloaded op: on two integers, on two floats, or, for some, on two
/// texts.
pub open spec fn num_calc(op: Op, a: Val, b: Val) -> Calc {
    match (a, b) {
        (Val::Int(x), Val::Int(y)) => match op {
            Op::NumAdd => int_calc(Op::IntAdd, x, y),
            Op::NumSub => int_calc(Op::IntSub, x, y),
            Op::NumMul => int_calc(Op::IntMul, x, y),
            Op::NumDiv => int_calc(Op::IntDiv, x, y),
            Op::NumMod => int_calc(Op::IntMod, x, y),
            Op::NumLt => int_calc(Op::IntLt, x, y),
            _ => int_calc(Op::IntLe, x, y),
        },
        (Val::Float(x), Val::Float(y)) => match op {
            Op::NumAdd => float_calc(Op::FloatAdd, x, y),
            Op::NumSub => float_calc(Op::FloatSub, x, y),
            Op::NumMul => float_calc(Op::FloatMul, x, y),
            Op::NumDiv => float_calc(Op::FloatDiv, x, y),
            Op::NumMod => Calc::Ask(FloatOp::Rem, x, y),
            Op::NumLt => float_calc(Op::FloatLt, x, y),
            _ => float_calc(Op::FloatLe, x, y),
        },
        (Val::Str(x), Val::Str(y)) => match op {
            Op::NumAdd => Calc::Value(Val::Str(x + y)),
            Op::NumLt => Calc::Value(Val::Bool(!text_le(y, x))),
            Op::NumLe => Calc::Value(Val::Bool(text_le(x, y))),
            _ => Calc::Fail(num_fault(a, b)),
        },
        _ => Calc::Fail(num_fault(a, b)),
    }
}

/// The element of a list at an index.
pub open spec fn list_elem(items: Seq<Val>, i: int) -> Calc {
    if 0 <= i < items.len() {
        Calc::Value(items[i])
    } else {
        Calc::Fail(Fault::TypeMismatch("list index oob"@))
    }
}

/// An op that takes two operands, `b` on top of `a`.
pub open spec fn binary(op: Op, a: Val, b: Val) -> Calc {
    match op {
        Op::IntAdd
        | Op::IntSub
        | Op::IntMul
        | Op::IntDiv
        | Op::IntMod
        | Op::IntEq
        | Op::IntLt
        | Op::IntLe => match (a, b) {
            (Val::Int(x), Val::Int(y)) => int_calc(op, x, y),
            (_, Val::Int(_)) => Calc::Fail(expected_fault("Int"@, a)),
            _ => Calc::Fail(expected_fault("Int"@, b)),
        },
        Op::FloatAdd
        | Op::FloatSub
        | Op::FloatMul
        | Op::FloatDiv
        | Op::FloatEq
        | Op::FloatLt
        | Op::FloatLe => match (a, b) {
            (Val::Float(x), Val::Float(y)) => float_calc(op, x, y),
            (_, Val::Float(_)) => Calc::Fail(expected_fault("Float"@, a)),
            _ => Calc::Fail(expected_fault("Float"@, b)),
        },
        Op::NumEq => Calc::Value(Val::Bool(val_eq(a, b))),
        Op::BoolAnd => match (a, b) {
            (Val::Bool(x), Val::Bool(y)) => Calc::Value(Val::Bool(x && y)),
            (_, Val::Bool(_)) => Calc::Fail(expected_fault("Bool"@, a)),
            _ => Calc::Fail(expected_fault("Bool"@, b)),
        },
        Op::BoolOr => match (a, b) {
            (Val::Bool(x), Val::Bool(y)) => Calc::Value(Val::Bool(x || y)),
            (_, Val::Bool(_)) => Calc::Fail(expected_fault("Bool"@, a)),
            _ => Calc::Fail(expected_fault("Bool"@, b)),
        },
        Op::StrConcat => match (a, b) {
            (Val::Str(x), Val::Str(y)) => Calc::Value(Val::Str(x + y)),
            (Val::Str(_), _) => Calc::Fail(expected_fault("Str"@, b)),
            _ => Calc::Fail(expected_fault("Str"@, a)),
        },
        Op::StrEq => match (a, b) {
            (Val::Str(x), Val::Str(y)) => Calc::Value(Val::Bool(x == y)),
            (Val::Str(_), _) => Calc::Fail(expected_fault("Str"@, b)),
            _ => Calc::Fail(expected_fault("Str"@, a)),
        },
        Op::BytesEq => match (a, b) {
            (Val::Bytes(x), Val::Bytes(y)) => Calc::Value(Val::Bool(x == y)),
            _ => Calc::Fail(Fault::TypeMismatch("BytesEq operands"@)),
        },
        Op::GetListElemDyn => match (a, b) {
            (Val::List(items), Val::Int(i)) => list_elem(items, i as int),
            (_, Val::Int(_)) => Calc::Fail(mismatch_fault("GetListElemDyn on non-list: "@, a)),
            _ => Calc::Fail(mismatch_fault("GetListElemDyn idx: "@, b)),
        },
        Op::ListAppend => match a {
            Val::List(items) => Calc::Value(Val::List(items.push(b))),
            _ => Calc::Fail(mismatch_fault("ListAppend on non-list: "@, a)),
        },
        _ => num_calc(op, a, b),
    }
}

/// An op that takes one operand.
pub open spec fn unary(op: Op, a: Val) -> Calc {
    match op {
        Op::IntNeg => match a {
            Val::Int(x) => Calc::Value(Val::Int(0i64.wrapping_sub(x))),
            _ => Calc::Fail(expected_fault("Int"@, a)),
        },
        Op::FloatNeg => match a {
            Val::Float(x) => Calc::Value(Val::Float(float_bits::float_neg(x))),
            _ => Calc::Fail(expected_fault("Float"@, a)),
        },
        Op::NumNeg => match a {
            Val::Int(x) => Calc::Value(Val::Int(0i64.wrapping_sub(x))),
            Val::Float(x) => Calc::Value(Val::Float(float_bits::float_neg(x))),
            _ => Calc::Fail(mismatch_fault("NumNeg on "@, a)),
        },
        Op::BoolNot => match a {
            Val::Bool(x) => Calc::Value(Val::Bool(!x)),
            _ => Calc::Fail(expected_fault("Bool"@, a)),
        },
        Op::StrLen => match a {
            Val::Str(s) => Calc::Value(Val::Int(bytes_of(s).len() as i64)),
            _ => Calc::Fail(expected_fault("Str"@, a)),
        },
        Op::BytesLen => match a {
            Val::Bytes(b) => Calc::Value(Val::Int(b.len() as i64)),
            _ => Calc::Fail(mismatch_fault("BytesLen on "@, a)),
        },
        Op::GetVariant(_) => match a {
            Val::Variant { args, .. } => Calc::Value(Val::Tuple(args)),
            _ => Calc::Fail(mismatch_fault("GetVariant on non-variant: "@, a)),
        },
        Op::GetVariantArg(i) => match a {
            Val::Variant { args, .. } => if i < args.len() {
                Calc::Value(args[i as int])
            } else {
                Calc::Fail(Fault::TypeMismatch("variant arg index oob"@))
            },
            _ => Calc::Fail(mismatch_fault("GetVariantArg on non-variant: "@, a)),
        },
        Op::GetListElem(i) => match a {
            Val::List(items) => list_elem(items, i as int),
            _ => Calc::Fail(mismatch_fault("GetListElem on non-list: "@, a)),
        },
        _ => match a {
            Val::List(items) => Calc::Value(Val::Int(items.len() as i64)),
            _ => Calc::Fail(mismatch_fault("GetListLen on non-list: "@, a)),
        },
    }
}

/// The ops of [`unary`].
pub open spec fn is_unary(op: Op) -> bool {
    match op {
        Op::IntNeg
        | Op::FloatNeg
        | Op::NumNeg
        | Op::BoolNot
        | Op::StrLen
        | Op::BytesLen
        | Op::GetVariant(_)
        | Op::GetVariantArg(_)
        | Op::GetListElem(_)
        | Op::GetListLen => true,
        _ => false,
    }
}

fn value(v: Value) -> (c: Computed)
    ensures
        c@ == Calc::Value(v@),
{
    Computed::Value(v)
}

fn flag(b: bool) -> (c: Computed)
    ensures
        c@ == Calc::Value(Val::Bool(b)),
{
    Computed::Value(Value::Bool(b))
}

fn number(n: i64) -> (c: Computed)
    ensures
        c@ == Calc::Value(Val::Int(n)),
{
    Computed::Value(Value::Int(n))
}

fn on_ints(op: Op, a: i64, b: i64) -> (c: Computed)
    ensures
        c@ == int_calc(op, a, b),
{
    match op {
        Op::IntAdd => number(a.wrapping_add(b)),
        Op::IntSub => number(a.wrapping_sub(b)),
        Op::IntMul => number(a.wrapping_mul(b)),
        Op::IntDiv => if b == 0 {
            Computed::Fail(VmError::DivByZero { op: "division" })
        } else {
            number(quotient(a, b))
        },
        Op::IntMod => if b == 0 {
            Computed::Fail(VmError::DivByZero { op: "modulo" })
        } else {
            number(remainder(a, b))
        },
        Op::IntEq => flag(a == b),
        Op::IntLt => flag(a < b),
        _ => flag(a <= b),
    }
}

fn on_floats(op: Op, a: u64, b: u64) -> (c: Computed)
    ensures
        c@ == float_calc(op, a, b),
{
    match op {
        Op::FloatAdd => Computed::Ask(FloatOp::Add, a, b),
        Op::FloatSub => Computed::Ask(FloatOp::Sub, a, b),
        Op::FloatMul => Computed::Ask(FloatOp::Mul, a, b),
        Op::FloatDiv => Computed::Ask(FloatOp::Div, a, b),
        Op::FloatEq => flag(float_bits::eq(a, b)),
        Op::FloatLt => flag(float_bits::lt(a, b)),
        _ => flag(float_bits::le(a, b)),
    }
}

fn no_num(a: &Value, b: &Value) -> (c: Computed)
    ensures
        c@ == Calc::Fail(num_fault(a@, b@)),
{
    let mut s = "Num op: ".to_owned();
    s.append(a.show().as_str());
    s.append(" ");
    s.append(b.show().as_str());
    Computed::Fail(VmError::TypeMismatch(s))
}

fn on_nums(op: Op, a: Value, b: Value) -> (c: Computed)
    ensures
        c@ == num_calc(op, a@, b@),
{
    match (&a, &b) {
        (Value::Int(x), Value::Int(y)) => match op {
            Op::NumAdd => on_ints(Op::IntAdd, *x, *y),
            Op::NumSub => on_ints(Op::IntSub, *x, *y),
            Op::NumMul => on_ints(Op::IntMul, *x, *y),
            Op::NumDiv => on_ints(Op::IntDiv, *x, *y),
            Op::NumMod => on_ints(Op::IntMod, *x, *y),
            Op::NumLt => on_ints(Op::IntLt, *x, *y),
            _ => on_ints(Op::IntLe, *x, *y),
        },
        (Value::Float(x), Value::Float(y)) => match op {
            Op::NumAdd => on_floats(Op::FloatAdd, *x, *y),
            Op::NumSub => on_floats(Op::FloatSub, *x, *y),
            Op::NumMul => on_floats(Op::FloatMul, *x, *y),
            Op::NumDiv => on_floats(Op::FloatDiv, *x, *y),
            Op::NumMod => Computed::Ask(FloatOp::Rem, *x, *y),
            Op::NumLt => on_floats(Op::FloatLt, *x, *y),
            _ => on_floats(Op::FloatLe, *x, *y),
        },
        (Value::Str(x), Value::Str(y)) => match op {
            Op::NumAdd => value(Value::Str(x.clone().concat(y.as_str()))),
            Op::NumLt => flag(!not_after(y.as_str(), x.as_str())),
            Op::NumLe => flag(not_after(x.as_str(), y.as_str())),
            _ => no_num(&a, &b),
        },
        _ => no_num(&a, &b),
    }
}

fn need(kind: &str, v: &Value) -> (c: Computed)
    ensures
        c@ == Calc::Fail(expected_fault(kind@, v@)),
{
    Computed::Fail(expected(kind, v))
}

fn wrong(what: &str, v: &Value) -> (c: Computed)
    ensures
        c@ == Calc::Fail(mismatch_fault(what@, v@)),
{
    Computed::Fail(mismatch_with(what, v))
}

/// Takes the element of a list at an index.
fn take_elem(items: Vec<Value>, i: i64) -> (c: Computed)
    ensures
        c@ == list_elem(vals(items@), i as int),
{
    let mut items = items;
    if i >= 0 && (i as u64) < items.len() as u64 {
        value(items.swap_remove(i as usize))
    } else {
        Computed::Fail(mismatch("list index oob"))
    }
}

/// Applies an op with two operands, `b` on top of `a`.
pub fn apply_binary(op: Op, a: Value, b: Value) -> (c: Computed)
    ensures
        c@ == binary(op, a@, b@),
{
    match op {
        Op::IntAdd
        | Op::IntSub
        | Op::IntMul
        | Op::IntDiv
        | Op::IntMod
        | Op::IntEq
        | Op::IntLt
        | Op::IntLe => match (&a, &b) {
            (Value::Int(x), Value::Int(y)) => on_ints(op, *x, *y),
            (_, Value::Int(_)) => need("Int", &a),
            _ => need("Int", &b),
        },
        Op::FloatAdd
        | Op::FloatSub
        | Op::FloatMul
        | Op::FloatDiv
        | Op::FloatEq
        | Op::FloatLt
        | Op::FloatLe => match (&a, &b) {
            (Value::Float(x), Value::Float(y)) => on_floats(op, *x, *y),
            (_, Value::Float(_)) => need("Float", &a),
            _ => need("Float", &b),
        },
        Op::NumEq => flag(a.same(&b)),
        Op::BoolAnd => match (&a, &b) {
            (Value::Bool(x), Value::Bool(y)) => flag(*x && *y),
            (_, Value::Bool(_)) => need("Bool", &a),
            _ => need("Bool", &b),
        },
        Op::BoolOr => match (&a, &b) {
            (Value::Bool(x), Value::Bool(y)) => flag(*x || *y),
            (_, Value::Bool(_)) => need("Bool", &a),
            _ => need("Bool", &b),
        },
        Op::StrConcat => match (&a, &b) {
            (Value::Str(x), Value::Str(y)) => value(Value::Str(x.clone().concat(y.as_str()))),
            (Value::Str(_), _) => need("Str", &b),
            _ => need("Str", &a),
        },
        Op::StrEq => match (&a, &b) {
            (Value::Str(x), Value::Str(y)) => flag(same_text(x.as_str(), y.as_str())),
            (Value::Str(_), _) => need("Str", &b),
            _ => need("Str", &a),
        },
        Op::BytesEq => match (&a, &b) {
            (Value::Bytes(x), Value::Bytes(y)) => flag(same_bytes(x, y)),
            _ => Computed::Fail(mismatch("BytesEq operands")),
        },
        Op::GetListElemDyn => match b {
            Value::Int(i) => match a {
                Value::List(items) => take_elem(items, i),
                other => wrong("GetListElemDyn on non-list: ", &other),
            },
            other => wrong("GetListElemDyn idx: ", &other),
        },
        Op::ListAppend => match a {
            Value::List(items) => {
                let mut items = items;
                let ghost before = items@;
                let ghost last = b@;
                items.push(b);
                assert(vals(items@) =~= vals(before).push(last));
                value(Value::List(items))
            },
            other => wrong("ListAppend on non-list: ", &other),
        },
        _ => on_nums(op, a, b),
    }
}

/// Applies an op with one operand.
pub fn apply_unary(op: Op, a: Value) -> (c: Computed)
    ensures
        c@ == unary(op, a@),
{
    match op {
        Op::IntNeg => match a {
            Value::Int(x) => number(0i64.wrapping_sub(x)),
            other => need("Int", &other),
        },
        Op::FloatNeg => match a {
            Value::Float(x) => value(Value::Float(float_bits::neg(x))),
            other => need("Float", &other),
        },
        Op::NumNeg => match a {
            Value::Int(x) => number(0i64.wrapping_sub(x)),
            Value::Float(x) => value(Value::Float(float_bits::neg(x))),
            other => wrong("NumNeg on ", &other),
        },
        Op::BoolNot => match a {
            Value::Bool(x) => flag(!x),
            other => need("Bool", &other),
        },
        Op::StrLen => match a {
            Value::Str(s) => number(s.as_str().as_bytes().len() as i64),
            other => need("Str", &other),
        },
        Op::BytesLen => match a {
            Value::Bytes(b) => number(b.len() as i64),
            other => wrong("BytesLen on ", &other),
        },
        Op::GetVariant(_) => match a {
            Value::Variant { args, .. } => value(Value::Tuple(args)),
            other => wrong("GetVariant on non-variant: ", &other),
        },
        Op::GetVariantArg(i) => match a {
            Value::Variant { args, .. } => {
                let mut args = args;
                if (i as usize) < args.len() {
                    value(args.swap_remove(i as usize))
                } else {
                    Computed::Fail(mismatch("variant arg index oob"))
                }
            },
            other => wrong("GetVariantArg on non-variant: ", &other),
        },
        Op::GetListElem(i) => match a {
            Value::List(items) => take_elem(items, i as i64),
            other => wrong("GetListElem on non-list: ", &other),
        },
        _ => match a {
            Value::List(items) => number(items.len() as i64),
            other => wrong("GetListLen on non-list: ", &other),
        },
    }
}

} // verus!
