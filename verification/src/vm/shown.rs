//! Values and errors in the notation of the source that builds them, for error
//! texts.
//!
//! A float, a matrix and a handle are shown by the names of their kinds.

use vstd::prelude::*;

use crate::op::Const;
use crate::parser_runtime::{quote, quoted};
use crate::text::{append_decimal, append_signed, decimal, signed_decimal};
use crate::value;
use crate::value::{
    entry_keys, entry_vals, field_names, field_vals, keys, vals, Field, Key, MapEntry, MapKey, Val,
    Value,
};
use crate::vm::fault::{Fault, VmError};

verus! {

/// A part of a list: a comma before all but the first.
pub open spec fn after_comma(n: nat) -> Seq<char> {
    if n == 0 {
        ""@
    } else {
        ", "@
    }
}

/// The first bytes, separated by commas.
pub open spec fn shown_bytes(b: Seq<u8>, n: nat) -> Seq<char>
    decreases n,
{
    if n == 0 {
        ""@
    } else {
        shown_bytes(b, (n - 1) as nat) + after_comma((n - 1) as nat) + decimal(b[n - 1] as nat)
    }
}

/// A key of a map or a set.
pub open spec fn shown_key(k: Key) -> Seq<char> {
    match k {
        Key::Str(s) => "Str("@ + quoted(s) + ")"@,
        Key::Int(n) => "Int("@ + signed_decimal(n as int) + ")"@,
    }
}

/// The first keys, separated by commas.
pub open spec fn shown_keys(ks: Seq<Key>, n: nat) -> Seq<char>
    decreases n,
{
    if n == 0 {
        ""@
    } else {
        shown_keys(ks, (n - 1) as nat) + after_comma((n - 1) as nat) + shown_key(ks[n - 1])
    }
}

/// A value.
pub open spec fn shown(v: Val) -> Seq<char>
    decreases v, 0nat,
{
    match v {
        Val::Int(n) => "Int("@ + signed_decimal(n as int) + ")"@,
        Val::Float(_) => "Float"@,
        Val::Bool(b) => if b {
            "Bool(true)"@
        } else {
            "Bool(false)"@
        },
        Val::Str(s) => "Str("@ + quoted(s) + ")"@,
        Val::Bytes(b) => "Bytes(["@ + shown_bytes(b, b.len()) + "])"@,
        Val::Unit => "Unit"@,
        Val::List(items) => "List(["@ + shown_all(items, items.len()) + "])"@,
        Val::Tuple(items) => "Tuple(["@ + shown_all(items, items.len()) + "])"@,
        Val::Record { shape_id, names, values } => "Record { shape_id: "@ + decimal(
            shape_id as nat,
        ) + ", fields: {"@ + shown_fields(names, values, values.len()) + "} }"@,
        Val::StackRecord { shape_id, slab_start, field_count } => "StackRecord { shape_id: "@
            + decimal(shape_id as nat) + ", slab_start: "@ + decimal(slab_start as nat)
            + ", field_count: "@ + decimal(field_count as nat) + " }"@,
        Val::StackTuple { slab_start, arity } => "StackTuple { slab_start: "@ + decimal(
            slab_start as nat,
        ) + ", arity: "@ + decimal(arity as nat) + " }"@,
        Val::ArenaRecord { shape_id, slab_start, field_count } => "ArenaRecord { shape_id: "@
            + decimal(shape_id as nat) + ", slab_start: "@ + decimal(slab_start as nat)
            + ", field_count: "@ + decimal(field_count as nat) + " }"@,
        Val::ArenaTuple { slab_start, arity } => "ArenaTuple { slab_start: "@ + decimal(
            slab_start as nat,
        ) + ", arity: "@ + decimal(arity as nat) + " }"@,
        Val::Variant { name, args } => "Variant { name: "@ + quoted(name) + ", args: ["@
            + shown_all(args, args.len()) + "] }"@,
        Val::Closure { fn_id, body_hash, captures } => "Closure { fn_id: "@ + decimal(fn_id as nat)
            + ", body_hash: ["@ + shown_bytes(body_hash, body_hash.len()) + "], captures: ["@
            + shown_all(captures, captures.len()) + "] }"@,
        Val::F64Array { .. } => "F64Array"@,
        Val::Dict { keys, values } => "Map({"@ + shown_entries(keys, values, values.len()) + "})"@,
        Val::KeySet(ks) => "Set({"@ + shown_keys(ks, ks.len()) + "})"@,
        Val::Deque(items) => "Deque(["@ + shown_all(items, items.len()) + "])"@,
        Val::Actor(_) => "Actor"@,
        Val::Ticker(_) => "Ticker"@,
        Val::ArrowTable(_) => "ArrowTable"@,
    }
}

/// The first values, separated by commas.
pub open spec fn shown_all(items: Seq<Val>, n: nat) -> Seq<char>
    decreases items, n,
{
    if n == 0 || n > items.len() {
        ""@
    } else {
        shown_all(items, (n - 1) as nat) + after_comma((n - 1) as nat) + shown(items[n - 1])
    }
}

/// The first fields, separated by commas.
pub open spec fn shown_fields(names: Seq<Seq<char>>, values: Seq<Val>, n: nat) -> Seq<char>
    decreases values, n,
{
    if n == 0 || n > values.len() {
        ""@
    } else {
        shown_fields(names, values, (n - 1) as nat) + after_comma((n - 1) as nat) + quoted(
            names[n - 1],
        ) + ": "@ + shown(values[n - 1])
    }
}

/// The first entries, separated by commas.
pub open spec fn shown_entries(ks: Seq<Key>, values: Seq<Val>, n: nat) -> Seq<char>
    decreases values, n,
{
    if n == 0 || n > values.len() {
        ""@
    } else {
        shown_entries(ks, values, (n - 1) as nat) + after_comma((n - 1) as nat) + shown_key(
            ks[n - 1],
        ) + ": "@ + shown(values[n - 1])
    }
}

fn comma(n: usize) -> (s: &'static str)
    ensures
        s@ == after_comma(n as nat),
{
    if n == 0 {
        ""
    } else {
        ", "
    }
}

fn show_bytes(b: &[u8]) -> (s: String)
    ensures
        s@ == shown_bytes(b@, b@.len()),
{
    let mut s = "".to_owned();
    let mut i: usize = 0;
    while i < b.len()
        invariant
            i <= b.len(),
            s@ == shown_bytes(b@, i as nat),
        decreases b.len() - i,
    {
        s.append(comma(i));
        append_decimal(&mut s, b[i] as u128);
        i = i + 1;
    }
    s
}

fn show_key(k: &MapKey) -> (s: String)
    ensures
        s@ == shown_key(k@),
{
    match k {
        MapKey::Str(t) => {
            let mut s = "Str(".to_owned();
            s.append(quote(t.as_str()).as_str());
            s.append(")");
            s
        },
        MapKey::Int(n) => {
            let mut s = "Int(".to_owned();
            append_signed(&mut s, *n as i128);
            s.append(")");
            s
        },
    }
}

fn show_keys(ks: &Vec<MapKey>) -> (s: String)
    ensures
        s@ == shown_keys(keys(ks@), ks@.len()),
{
    let mut s = "".to_owned();
    let mut i: usize = 0;
    while i < ks.len()
        invariant
            i <= ks.len(),
            s@ == shown_keys(keys(ks@), i as nat),
        decreases ks.len() - i,
    {
        s.append(comma(i));
        s.append(show_key(&ks[i]).as_str());
        i = i + 1;
    }
    s
}

fn show_all(items: &Vec<Value>) -> (s: String)
    ensures
        s@ == shown_all(vals(items@), items@.len()),
    decreases items,
{
    let mut s = "".to_owned();
    let mut i: usize = 0;
    while i < items.len()
        invariant
            i <= items.len(),
            s@ == shown_all(vals(items@), i as nat),
        decreases items.len() - i,
    {
        s.append(comma(i));
        s.append(items[i].show().as_str());
        i = i + 1;
    }
    s
}

fn show_fields(fields: &Vec<Field>) -> (s: String)
    ensures
        s@ == shown_fields(field_names(fields@), field_vals(fields@), fields@.len()),
    decreases fields,
{
    let mut s = "".to_owned();
    let mut i: usize = 0;
    while i < fields.len()
        invariant
            i <= fields.len(),
            s@ == shown_fields(field_names(fields@), field_vals(fields@), i as nat),
        decreases fields.len() - i,
    {
        s.append(comma(i));
        s.append(quote(fields[i].name.as_str()).as_str());
        s.append(": ");
        s.append(fields[i].value.show().as_str());
        i = i + 1;
    }
    s
}

fn show_entries(entries: &Vec<MapEntry>) -> (s: String)
    ensures
        s@ == shown_entries(entry_keys(entries@), entry_vals(entries@), entries@.len()),
    decreases entries,
{
    let mut s = "".to_owned();
    let mut i: usize = 0;
    while i < entries.len()
        invariant
            i <= entries.len(),
            s@ == shown_entries(entry_keys(entries@), entry_vals(entries@), i as nat),
        decreases entries.len() - i,
    {
        s.append(comma(i));
        s.append(show_key(&entries[i].key).as_str());
        s.append(": ");
        s.append(entries[i].value.show().as_str());
        i = i + 1;
    }
    s
}

fn show_slab(kind: &str, shape_id: u32, slab_start: u32, field_count: u16) -> (s: String)
    ensures
        s@ == kind@ + decimal(shape_id as nat) + ", slab_start: "@ + decimal(slab_start as nat)
            + ", field_count: "@ + decimal(field_count as nat) + " }"@,
{
    let mut s = kind.to_owned();
    append_decimal(&mut s, shape_id as u128);
    s.append(", slab_start: ");
    append_decimal(&mut s, slab_start as u128);
    s.append(", field_count: ");
    append_decimal(&mut s, field_count as u128);
    s.append(" }");
    s
}

fn show_pair(kind: &str, slab_start: u32, arity: u16) -> (s: String)
    ensures
        s@ == kind@ + decimal(slab_start as nat) + ", arity: "@ + decimal(arity as nat) + " }"@,
{
    let mut s = kind.to_owned();
    append_decimal(&mut s, slab_start as u128);
    s.append(", arity: ");
    append_decimal(&mut s, arity as u128);
    s.append(" }");
    s
}

fn enclosed(before: &str, inner: String, after: &str) -> (s: String)
    ensures
        s@ == before@ + inner@ + after@,
{
    let mut s = before.to_owned();
    s.append(inner.as_str());
    s.append(after);
    s
}

impl Value {
    /// The value, as error texts show it.
    pub fn show(&self) -> (s: String)
        ensures
            s@ == shown(self@),
        decreases self,
    {
        proof {
            value::lemma_view(*self);
        }
        match self {
            Value::Int(n) => {
                let mut s = "Int(".to_owned();
                append_signed(&mut s, *n as i128);
                s.append(")");
                s
            },
            Value::Float(_) => "Float".to_owned(),
            Value::Bool(b) => if *b {
                "Bool(true)".to_owned()
            } else {
                "Bool(false)".to_owned()
            },
            Value::Str(t) => enclosed("Str(", quote(t.as_str()), ")"),
            Value::Bytes(b) => enclosed("Bytes([", show_bytes(b.as_slice()), "])"),
            Value::Unit => "Unit".to_owned(),
            Value::List(items) => enclosed("List([", show_all(items), "])"),
            Value::Tuple(items) => enclosed("Tuple([", show_all(items), "])"),
            Value::Record { shape_id, fields } => {
                let mut s = "Record { shape_id: ".to_owned();
                append_decimal(&mut s, *shape_id as u128);
                s.append(", fields: {");
                s.append(show_fields(fields).as_str());
                s.append("} }");
                s
            },
            Value::StackRecord { shape_id, slab_start, field_count } => show_slab(
                "StackRecord { shape_id: ",
                *shape_id,
                *slab_start,
                *field_count,
            ),
            Value::StackTuple { slab_start, arity } => show_pair(
                "StackTuple { slab_start: ",
                *slab_start,
                *arity,
            ),
            Value::ArenaRecord { shape_id, slab_start, field_count } => show_slab(
                "ArenaRecord { shape_id: ",
                *shape_id,
                *slab_start,
                *field_count,
            ),
            Value::ArenaTuple { slab_start, arity } => show_pair(
                "ArenaTuple { slab_start: ",
                *slab_start,
                *arity,
            ),
            Value::Variant { name, args } => {
                let mut s = "Variant { name: ".to_owned();
                s.append(quote(name.as_str()).as_str());
                s.append(", args: [");
                s.append(show_all(args).as_str());
                s.append("] }");
                s
            },
            Value::Closure { fn_id, body_hash, captures } => {
                let mut s = "Closure { fn_id: ".to_owned();
                append_decimal(&mut s, *fn_id as u128);
                s.append(", body_hash: [");
                s.append(show_bytes(body_hash.as_slice()).as_str());
                s.append("], captures: [");
                s.append(show_all(captures).as_str());
                s.append("] }");
                s
            },
            Value::F64Array { .. } => "F64Array".to_owned(),
            Value::Dict(entries) => enclosed("Map({", show_entries(entries), "})"),
            Value::KeySet(ks) => enclosed("Set({", show_keys(ks), "})"),
            Value::Deque(items) => enclosed("Deque([", show_all(items), "])"),
            Value::Actor(_) => "Actor".to_owned(),
            Value::Ticker(_) => "Ticker".to_owned(),
            Value::ArrowTable(_) => "ArrowTable".to_owned(),
        }
    }
}

/// A constant.
pub open spec fn shown_const(c: Const) -> Seq<char> {
    match c {
        Const::Int(n) => "Int("@ + signed_decimal(n as int) + ")"@,
        Const::Float(_) => "Float"@,
        Const::Bool(b) => if b {
            "Bool(true)"@
        } else {
            "Bool(false)"@
        },
        Const::Str(s) => "Str("@ + quoted(s@) + ")"@,
        Const::Bytes(b) => "Bytes(["@ + shown_bytes(b@, b@.len()) + "])"@,
        Const::Unit => "Unit"@,
        Const::FieldName(s) => "FieldName("@ + quoted(s@) + ")"@,
        Const::VariantName(s) => "VariantName("@ + quoted(s@) + ")"@,
        Const::NodeId(s) => "NodeId("@ + quoted(s@) + ")"@,
    }
}

pub(crate) fn show_const(c: &Const) -> (s: String)
    ensures
        s@ == shown_const(*c),
{
    match c {
        Const::Int(n) => {
            let mut s = "Int(".to_owned();
            append_signed(&mut s, *n as i128);
            s.append(")");
            s
        },
        Const::Float(_) => "Float".to_owned(),
        Const::Bool(b) => if *b {
            "Bool(true)".to_owned()
        } else {
            "Bool(false)".to_owned()
        },
        Const::Str(s) => enclosed("Str(", quote(s.as_str()), ")"),
        Const::Bytes(b) => enclosed("Bytes([", show_bytes(b.as_slice()), "])"),
        Const::Unit => "Unit".to_owned(),
        Const::FieldName(s) => enclosed("FieldName(", quote(s.as_str()), ")"),
        Const::VariantName(s) => enclosed("VariantName(", quote(s.as_str()), ")"),
        Const::NodeId(s) => enclosed("NodeId(", quote(s.as_str()), ")"),
    }
}

/// An error.
pub open spec fn shown_fault(f: Fault) -> Seq<char> {
    match f {
        Fault::Panic(s) => "Panic("@ + quoted(s) + ")"@,
        Fault::TypeMismatch(s) => "TypeMismatch("@ + quoted(s) + ")"@,
        Fault::StackUnderflow => "StackUnderflow"@,
        Fault::UnknownFunction(s) => "UnknownFunction("@ + quoted(s) + ")"@,
        Fault::Effect(s) => "Effect("@ + quoted(s) + ")"@,
        Fault::CallStackOverflow(n) => "CallStackOverflow("@ + decimal(n as nat) + ")"@,
        Fault::RefinementFailed { fn_name, param_index, binding, reason } =>
            "RefinementFailed { fn_name: "@ + quoted(fn_name) + ", param_index: "@ + decimal(
                param_index,
            ) + ", binding: "@ + quoted(binding) + ", reason: "@ + quoted(reason) + " }"@,
        Fault::DivByZero { op } => "DivByZero { op: "@ + quoted(op) + " }"@,
    }
}

impl VmError {
    /// The error, as other error texts show it.
    pub fn show(&self) -> (s: String)
        ensures
            s@ == shown_fault(self@),
    {
        match self {
            VmError::Panic(s) => enclosed("Panic(", quote(s.as_str()), ")"),
            VmError::TypeMismatch(s) => enclosed("TypeMismatch(", quote(s.as_str()), ")"),
            VmError::StackUnderflow => "StackUnderflow".to_owned(),
            VmError::UnknownFunction(s) => enclosed("UnknownFunction(", quote(s.as_str()), ")"),
            VmError::Effect(s) => enclosed("Effect(", quote(s.as_str()), ")"),
            VmError::CallStackOverflow(n) => {
                let mut t = "CallStackOverflow(".to_owned();
                append_decimal(&mut t, *n as u128);
                t.append(")");
                t
            },
            VmError::RefinementFailed { fn_name, param_index, binding, reason } => {
                let mut t = "RefinementFailed { fn_name: ".to_owned();
                t.append(quote(fn_name.as_str()).as_str());
                t.append(", param_index: ");
                append_decimal(&mut t, *param_index as u128);
                t.append(", binding: ");
                t.append(quote(binding.as_str()).as_str());
                t.append(", reason: ");
                t.append(quote(reason.as_str()).as_str());
                t.append(" }");
                t
            },
            VmError::DivByZero { op } => enclosed("DivByZero { op: ", quote(op), " }"),
        }
    }
}

} // verus!
