//! Errors of the virtual machine.

use vstd::prelude::*;

use crate::text::{append_decimal, decimal};
use crate::value::{Val, Value};
use crate::vm::shown::shown;

verus! {

#[derive(Debug, Clone, PartialEq, Eq)]
pub enum VmError {
    Panic(String),
    TypeMismatch(String),
    StackUnderflow,
    UnknownFunction(String),
    Effect(String),
    CallStackOverflow(u32),
    /// A refined parameter got an argument that its predicate rejects.
    RefinementFailed { fn_name: String, param_index: usize, binding: String, reason: String },
    /// Integer division or modulo by zero; `op` is `"division"` or `"modulo"`.
    DivByZero { op: &'static str },
}

/// An error, seen as a mathematical object.
pub enum Fault {
    Panic(Seq<char>),
    TypeMismatch(Seq<char>),
    StackUnderflow,
    UnknownFunction(Seq<char>),
    Effect(Seq<char>),
    CallStackOverflow(u32),
    RefinementFailed {
        fn_name: Seq<char>,
        param_index: nat,
        binding: Seq<char>,
        reason: Seq<char>,
    },
    DivByZero { op: Seq<char> },
}

impl View for VmError {
    type V = Fault;

    open spec fn view(&self) -> Fault {
        match self {
            VmError::Panic(s) => Fault::Panic(s@),
            VmError::TypeMismatch(s) => Fault::TypeMismatch(s@),
            VmError::StackUnderflow => Fault::StackUnderflow,
            VmError::UnknownFunction(s) => Fault::UnknownFunction(s@),
            VmError::Effect(s) => Fault::Effect(s@),
            VmError::CallStackOverflow(n) => Fault::CallStackOverflow(*n),
            VmError::RefinementFailed { fn_name, param_index, binding, reason } =>
                Fault::RefinementFailed {
                    fn_name: fn_name@,
                    param_index: *param_index as nat,
                    binding: binding@,
                    reason: reason@,
                },
            VmError::DivByZero { op } => Fault::DivByZero { op: op@ },
        }
    }
}

/// The text of an error.
pub open spec fn fault_text(f: Fault) -> Seq<char> {
    match f {
        Fault::Panic(s) => "runtime panic: "@ + s,
        Fault::TypeMismatch(s) => "type mismatch at runtime: "@ + s,
        Fault::StackUnderflow => "stack underflow"@,
        Fault::UnknownFunction(s) => "unknown function: "@ + s,
        Fault::Effect(s) => "effect handler error: "@ + s,
        Fault::CallStackOverflow(n) => "call stack overflow: recursion depth exceeded ("@ + decimal(
            n as nat,
        ) + ")"@,
        Fault::RefinementFailed { fn_name, param_index, binding, reason } =>
            "refinement violated: argument "@ + decimal(param_index) + " of `"@ + fn_name
                + "` (binding `"@ + binding + "`): "@ + reason,
        Fault::DivByZero { op } => "integer "@ + op + " by zero"@,
    }
}

impl VmError {
    /// The text of the error.
    pub fn message(&self) -> (s: String)
        ensures
            s@ == fault_text(self@),
    {
        match self {
            VmError::Panic(s) => "runtime panic: ".to_owned().concat(s.as_str()),
            VmError::TypeMismatch(s) => "type mismatch at runtime: ".to_owned().concat(s.as_str()),
            VmError::StackUnderflow => "stack underflow".to_owned(),
            VmError::UnknownFunction(s) => "unknown function: ".to_owned().concat(s.as_str()),
            VmError::Effect(s) => "effect handler error: ".to_owned().concat(s.as_str()),
            VmError::CallStackOverflow(n) => {
                let mut t = "call stack overflow: recursion depth exceeded (".to_owned();
                append_decimal(&mut t, *n as u128);
                t.append(")");
                t
            },
            VmError::RefinementFailed { fn_name, param_index, binding, reason } => {
                let mut t = "refinement violated: argument ".to_owned();
                append_decimal(&mut t, *param_index as u128);
                t.append(" of `");
                t.append(fn_name.as_str());
                t.append("` (binding `");
                t.append(binding.as_str());
                t.append("`): ");
                t.append(reason.as_str());
                t
            },
            VmError::DivByZero { op } => {
                let mut t = "integer ".to_owned();
                t.append(op);
                t.append(" by zero");
                t
            },
        }
    }
}

/// A type mismatch with a text and the offending value.
pub open spec fn mismatch_fault(what: Seq<char>, v: Val) -> Fault {
    Fault::TypeMismatch(what + shown(v))
}

pub(crate) fn mismatch_with(what: &str, v: &Value) -> (e: VmError)
    ensures
        e@ == mismatch_fault(what@, v@),
{
    VmError::TypeMismatch(what.to_owned().concat(v.show().as_str()))
}

/// An operand of the wrong kind.
pub open spec fn expected_fault(kind: Seq<char>, v: Val) -> Fault {
    Fault::Panic("expected "@ + kind + ", got "@ + shown(v))
}

pub(crate) fn expected(kind: &str, v: &Value) -> (e: VmError)
    ensures
        e@ == expected_fault(kind@, v@),
{
    let mut s = "expected ".to_owned();
    s.append(kind);
    s.append(", got ");
    s.append(v.show().as_str());
    VmError::Panic(s)
}

pub(crate) fn mismatch(what: &str) -> (e: VmError)
    ensures
        e@ == Fault::TypeMismatch(what@),
{
    VmError::TypeMismatch(what.to_owned())
}

pub(crate) fn panic_with(what: &str) -> (e: VmError)
    ensures
        e@ == Fault::Panic(what@),
{
    VmError::Panic(what.to_owned())
}

} // verus!
