//! The byte encoding of ops that function bodies are hashed in.

use indexmap::IndexMap;
use vstd::prelude::*;

use crate::op::{canonical, canonical_op, Op};
use crate::text::{bytes_of, digit, signed_decimal};

verus! {

/// What the encoding of an op holds: its tag, then nothing, one number, or
/// named numbers.
pub struct Form {
    pub tag: Seq<char>,
    pub value: Option<i64>,
    pub fields: Seq<(Seq<char>, i64)>,
}

pub open spec fn unit_form(tag: Seq<char>) -> Form {
    Form { tag, value: None, fields: Seq::empty() }
}

pub open spec fn value_form(tag: Seq<char>, n: i64) -> Form {
    Form { tag, value: Some(n), fields: Seq::empty() }
}

pub open spec fn fields_form(tag: Seq<char>, fields: Seq<(Seq<char>, i64)>) -> Form {
    Form { tag, value: None, fields }
}

/// The encoded form of a canonical op. A field access is encoded by its field
/// name alone.
pub open spec fn form(op: Op) -> Form {
    match op {
        Op::PushConst(n) => value_form("PushConst"@, n as i64),
        Op::Pop => unit_form("Pop"@),
        Op::Dup => unit_form("Dup"@),
        Op::LoadLocal(n) => value_form("LoadLocal"@, n as i64),
        Op::StoreLocal(n) => value_form("StoreLocal"@, n as i64),
        Op::MakeRecord { shape_idx, field_count } => fields_form("MakeRecord"@, seq![("shape_idx"@,
            shape_idx as i64), ("field_count"@, field_count as i64)]),
        Op::MakeTuple(n) => value_form("MakeTuple"@, n as i64),
        Op::MakeList(n) => value_form("MakeList"@, n as i64),
        Op::MakeVariant { name_idx, arity } => fields_form("MakeVariant"@, seq![("name_idx"@,
            name_idx as i64), ("arity"@, arity as i64)]),
        Op::GetField { name_idx, .. } => value_form("GetField"@, name_idx as i64),
        Op::GetElem(n) => value_form("GetElem"@, n as i64),
        Op::TestVariant(n) => value_form("TestVariant"@, n as i64),
        Op::GetVariant(n) => value_form("GetVariant"@, n as i64),
        Op::GetVariantArg(n) => value_form("GetVariantArg"@, n as i64),
        Op::GetListLen => unit_form("GetListLen"@),
        Op::GetListElem(n) => value_form("GetListElem"@, n as i64),
        Op::ListAppend => unit_form("ListAppend"@),
        Op::GetListElemDyn => unit_form("GetListElemDyn"@),
        Op::Jump(n) => value_form("Jump"@, n as i64),
        Op::JumpIf(n) => value_form("JumpIf"@, n as i64),
        Op::JumpIfNot(n) => value_form("JumpIfNot"@, n as i64),
        Op::Call { fn_id, arity, node_id_idx } => fields_form("Call"@, seq![("fn_id"@,
            fn_id as i64), ("arity"@, arity as i64), ("node_id_idx"@, node_id_idx as i64)]),
        Op::TailCall { fn_id, arity, node_id_idx } => fields_form("TailCall"@, seq![("fn_id"@,
            fn_id as i64), ("arity"@, arity as i64), ("node_id_idx"@, node_id_idx as i64)]),
        Op::MakeClosure { fn_id, capture_count } => fields_form("MakeClosure"@, seq![("fn_id"@,
            fn_id as i64), ("capture_count"@, capture_count as i64)]),
        Op::CallClosure { arity, node_id_idx } => fields_form("CallClosure"@, seq![("arity"@,
            arity as i64), ("node_id_idx"@, node_id_idx as i64)]),
        Op::SortByKey { node_id_idx } => fields_form("SortByKey"@, seq![("node_id_idx"@,
            node_id_idx as i64)]),
        Op::ParallelMap { node_id_idx } => fields_form("ParallelMap"@, seq![("node_id_idx"@,
            node_id_idx as i64)]),
        Op::ListMap { node_id_idx } => fields_form("ListMap"@, seq![("node_id_idx"@,
            node_id_idx as i64)]),
        Op::ListFilter { node_id_idx } => fields_form("ListFilter"@, seq![("node_id_idx"@,
            node_id_idx as i64)]),
        Op::ListFold { node_id_idx } => fields_form("ListFold"@, seq![("node_id_idx"@,
            node_id_idx as i64)]),
        Op::EffectCall { kind_idx, op_idx, arity, node_id_idx } => fields_form("EffectCall"@,
            seq![("kind_idx"@, kind_idx as i64), ("op_idx"@, op_idx as i64), ("arity"@,
            arity as i64), ("node_id_idx"@, node_id_idx as i64)]),
        Op::Return => unit_form("Return"@),
        Op::Panic(n) => value_form("Panic"@, n as i64),
        Op::IntAdd => unit_form("IntAdd"@),
        Op::IntSub => unit_form("IntSub"@),
        Op::IntMul => unit_form("IntMul"@),
        Op::IntDiv => unit_form("IntDiv"@),
        Op::IntMod => unit_form("IntMod"@),
        Op::IntNeg => unit_form("IntNeg"@),
        Op::IntLt => unit_form("IntLt"@),
        Op::IntLe => unit_form("IntLe"@),
        Op::FloatAdd => unit_form("FloatAdd"@),
        Op::FloatSub => unit_form("FloatSub"@),
        Op::FloatMul => unit_form("FloatMul"@),
        Op::FloatDiv => unit_form("FloatDiv"@),
        Op::FloatNeg => unit_form("FloatNeg"@),
        Op::FloatLt => unit_form("FloatLt"@),
        Op::FloatLe => unit_form("FloatLe"@),
        Op::NumAdd => unit_form("NumAdd"@),
        Op::NumSub => unit_form("NumSub"@),
        Op::NumMul => unit_form("NumMul"@),
        Op::NumDiv => unit_form("NumDiv"@),
        Op::NumMod => unit_form("NumMod"@),
        Op::NumNeg => unit_form("NumNeg"@),
        Op::NumEq => unit_form("NumEq"@),
        Op::NumLt => unit_form("NumLt"@),
        Op::NumLe => unit_form("NumLe"@),
        Op::BoolAnd => unit_form("BoolAnd"@),
        Op::BoolOr => unit_form("BoolOr"@),
        Op::BoolNot => unit_form("BoolNot"@),
        Op::StrConcat => unit_form("StrConcat"@),
        Op::StrLen => unit_form("StrLen"@),
        Op::StrEq => unit_form("StrEq"@),
        Op::BytesLen => unit_form("BytesLen"@),
        Op::BytesEq => unit_form("BytesEq"@),
        _ => unit_form(""@),
    }
}

/// A character inside a JSON string.
pub open spec fn escaped_char(c: char) -> Seq<char> {
    if c == '"' {
        "\\\""@
    } else if c == '\\' {
        "\\\\"@
    } else if c as int == 0x08 {
        "\\b"@
    } else if c as int == 0x09 {
        "\\t"@
    } else if c as int == 0x0a {
        "\\n"@
    } else if c as int == 0x0c {
        "\\f"@
    } else if c as int == 0x0d {
        "\\r"@
    } else if (c as int) < 0x20 {
        "\\u00"@ + digit(c as int / 16) + digit(c as int % 16)
    } else {
        seq![c]
    }
}

/// The characters of a text inside a JSON string.
pub open spec fn escaped(t: Seq<char>) -> Seq<char>
    decreases t.len(),
{
    if t.len() == 0 {
        Seq::empty()
    } else {
        escaped(t.drop_last()) + escaped_char(t.last())
    }
}

/// A JSON string.
pub open spec fn json_string(t: Seq<char>) -> Seq<char> {
    "\""@ + escaped(t) + "\""@
}

/// A JSON object with one member.
pub open spec fn single(name: Seq<char>, value: Seq<char>) -> Seq<char> {
    "{"@ + json_string(name) + ":"@ + value + "}"@
}

/// Named numbers as the members of a JSON object.
pub open spec fn members(fields: Seq<(Seq<char>, i64)>) -> Seq<char>
    decreases fields.len(),
{
    if fields.len() == 0 {
        Seq::empty()
    } else {
        let m = json_string(fields.last().0) + ":"@ + signed_decimal(fields.last().1 as int);
        if fields.len() == 1 {
            m
        } else {
            members(fields.drop_last()) + ","@ + m
        }
    }
}

/// Whether no name occurs twice.
pub open spec fn names_differ(fields: Seq<(Seq<char>, i64)>) -> bool {
    forall|i: int, j: int|
        0 <= i < j < fields.len() ==> (#[trigger] fields[i]).0 != (#[trigger] fields[j]).0
}

/// The JSON text of an encoded form.
pub open spec fn form_json(f: Form) -> Seq<char> {
    match f.value {
        Some(n) => single(f.tag, signed_decimal(n as int)),
        None => if f.fields.len() == 0 {
            json_string(f.tag)
        } else {
            single(f.tag, "{"@ + members(f.fields) + "}"@)
        },
    }
}

/// The bytes of an encoded form.
pub open spec fn form_bytes(f: Form) -> Seq<u8> {
    bytes_of(form_json(f))
}

/// The bytes that an op contributes to the hash of its body.
pub open spec fn op_bytes(op: Op) -> Seq<u8> {
    form_bytes(form(canonical(op)))
}

/// The views of named numbers.
pub open spec fn named(fields: Seq<(&'static str, i64)>) -> Seq<(Seq<char>, i64)> {
    Seq::new(fields.len(), |i: int| (fields[i].0@, fields[i].1))
}

/// Trusted: `serde_json::to_vec` of a string never fails and gives the UTF-8
/// bytes of the text in quotes, with quotes, backslashes and control
/// characters escaped.
#[verifier::external_body]
fn text_to_json(tag: &str) -> (bytes: Vec<u8>)
    ensures
        bytes@ == bytes_of(json_string(tag@)),
{
    serde_json::to_vec(tag).expect("a string can be written")
}

/// Trusted: `serde_json::to_vec` of a map with one entry never fails and gives
/// the bytes of an object with that entry, without spaces, the number in
/// decimal notation.
#[verifier::external_body]
fn number_to_json(tag: &str, n: i64) -> (bytes: Vec<u8>)
    ensures
        bytes@ == bytes_of(single(tag@, signed_decimal(n as int))),
{
    serde_json::to_vec(&IndexMap::<&str, i64>::from([(tag, n)])).expect("a map can be written")
}

/// Trusted: `serde_json::to_vec` of a map whose one entry is a map of numbers
/// never fails and gives the bytes of an object in an object, without spaces.
/// The numbers stand in decimal notation and in the order in which they were
/// collected, which is theirs in the list where no name occurs twice.
#[verifier::external_body]
fn numbers_to_json(tag: &str, fields: &Vec<(&'static str, i64)>) -> (bytes: Vec<u8>)
    requires
        names_differ(named(fields@)),
    ensures
        bytes@ == bytes_of(single(tag@, "{"@ + members(named(fields@)) + "}"@)),
{
    let inner: IndexMap<&str, i64> = fields.iter().copied().collect();
    serde_json::to_vec(&IndexMap::<&str, IndexMap<&str, i64>>::from([(tag, inner)])).expect(
        "a map can be written",
    )
}

/// The named numbers of an op have different names.
proof fn lemma_names_differ(op: Op)
    ensures
        names_differ(form(op).fields),
{
    reveal_strlit("shape_idx");
    reveal_strlit("field_count");
    reveal_strlit("name_idx");
    reveal_strlit("arity");
    reveal_strlit("fn_id");
    reveal_strlit("node_id_idx");
    reveal_strlit("capture_count");
    reveal_strlit("kind_idx");
    reveal_strlit("op_idx");
    assert("fn_id"@[0] != "arity"@[0]);
    assert("shape_idx"@.len() != "field_count"@.len());
    assert("name_idx"@.len() != "arity"@.len());
    assert("fn_id"@.len() != "node_id_idx"@.len());
    assert("fn_id"@.len() != "capture_count"@.len());
    assert("arity"@.len() != "node_id_idx"@.len());
    assert("kind_idx"@.len() != "op_idx"@.len());
    assert("kind_idx"@.len() != "arity"@.len());
    assert("kind_idx"@.len() != "node_id_idx"@.len());
    assert("op_idx"@.len() != "arity"@.len());
    assert("op_idx"@.len() != "node_id_idx"@.len());
}

/// An encoded form.
struct OpForm {
    tag: &'static str,
    value: Option<i64>,
    fields: Vec<(&'static str, i64)>,
}

impl OpForm {
    spec fn form(self) -> Form {
        Form { tag: self.tag@, value: self.value, fields: named(self.fields@) }
    }

    fn of_unit(tag: &'static str) -> (f: OpForm)
        ensures
            f.form() == unit_form(tag@),
    {
        let f = OpForm { tag, value: None, fields: Vec::new() };
        assert(named(f.fields@) =~= Seq::empty());
        f
    }

    fn of_value(tag: &'static str, n: i64) -> (f: OpForm)
        ensures
            f.form() == value_form(tag@, n),
    {
        let f = OpForm { tag, value: Some(n), fields: Vec::new() };
        assert(named(f.fields@) =~= Seq::empty());
        f
    }

    fn of_fields(tag: &'static str, fields: Vec<(&'static str, i64)>) -> (f: OpForm)
        ensures
            f.form() == fields_form(tag@, named(fields@)),
    {
        OpForm { tag, value: None, fields }
    }

    #[verifier::rlimit(40)]
    fn of_op(op: Op) -> (f: OpForm)
        ensures
            f.form() == form(op),
    {
        let f = match op {
            Op::PushConst(n) => OpForm::of_value("PushConst", n as i64),
            Op::Pop => OpForm::of_unit("Pop"),
            Op::Dup => OpForm::of_unit("Dup"),
            Op::LoadLocal(n) => OpForm::of_value("LoadLocal", n as i64),
            Op::StoreLocal(n) => OpForm::of_value("StoreLocal", n as i64),
            Op::MakeRecord { shape_idx, field_count } => OpForm::of_fields("MakeRecord",
                vec![("shape_idx", shape_idx as i64), ("field_count", field_count as i64)]),
            Op::MakeTuple(n) => OpForm::of_value("MakeTuple", n as i64),
            Op::MakeList(n) => OpForm::of_value("MakeList", n as i64),
            Op::MakeVariant { name_idx, arity } => OpForm::of_fields("MakeVariant",
                vec![("name_idx", name_idx as i64), ("arity", arity as i64)]),
            Op::GetField { name_idx, .. } => OpForm::of_value("GetField", name_idx as i64),
            Op::GetElem(n) => OpForm::of_value("GetElem", n as i64),
            Op::TestVariant(n) => OpForm::of_value("TestVariant", n as i64),
            Op::GetVariant(n) => OpForm::of_value("GetVariant", n as i64),
            Op::GetVariantArg(n) => OpForm::of_value("GetVariantArg", n as i64),
            Op::GetListLen => OpForm::of_unit("GetListLen"),
            Op::GetListElem(n) => OpForm::of_value("GetListElem", n as i64),
            Op::ListAppend => OpForm::of_unit("ListAppend"),
            Op::GetListElemDyn => OpForm::of_unit("GetListElemDyn"),
            Op::Jump(n) => OpForm::of_value("Jump", n as i64),
            Op::JumpIf(n) => OpForm::of_value("JumpIf", n as i64),
            Op::JumpIfNot(n) => OpForm::of_value("JumpIfNot", n as i64),
            Op::Call { fn_id, arity, node_id_idx } => OpForm::of_fields("Call", vec![("fn_id",
                fn_id as i64), ("arity", arity as i64), ("node_id_idx", node_id_idx as i64)]),
            Op::TailCall { fn_id, arity, node_id_idx } => OpForm::of_fields("TailCall",
                vec![("fn_id", fn_id as i64), ("arity", arity as i64), ("node_id_idx",
                node_id_idx as i64)]),
            Op::MakeClosure { fn_id, capture_count } => OpForm::of_fields("MakeClosure",
                vec![("fn_id", fn_id as i64), ("capture_count", capture_count as i64)]),
            Op::CallClosure { arity, node_id_idx } => OpForm::of_fields("CallClosure",
                vec![("arity", arity as i64), ("node_id_idx", node_id_idx as i64)]),
            Op::SortByKey { node_id_idx } => OpForm::of_fields("SortByKey", vec![("node_id_idx",
                node_id_idx as i64)]),
            Op::ParallelMap { node_id_idx } => OpForm::of_fields("ParallelMap",
                vec![("node_id_idx", node_id_idx as i64)]),
            Op::ListMap { node_id_idx } => OpForm::of_fields("ListMap", vec![("node_id_idx",
                node_id_idx as i64)]),
            Op::ListFilter { node_id_idx } => OpForm::of_fields("ListFilter", vec![("node_id_idx",
                node_id_idx as i64)]),
            Op::ListFold { node_id_idx } => OpForm::of_fields("ListFold", vec![("node_id_idx",
                node_id_idx as i64)]),
            Op::EffectCall { kind_idx, op_idx, arity, node_id_idx } =>
                OpForm::of_fields("EffectCall", vec![("kind_idx", kind_idx as i64), ("op_idx",
                op_idx as i64), ("arity", arity as i64), ("node_id_idx", node_id_idx as i64)]),
            Op::Return => OpForm::of_unit("Return"),
            Op::Panic(n) => OpForm::of_value("Panic", n as i64),
            Op::IntAdd => OpForm::of_unit("IntAdd"),
            Op::IntSub => OpForm::of_unit("IntSub"),
            Op::IntMul => OpForm::of_unit("IntMul"),
            Op::IntDiv => OpForm::of_unit("IntDiv"),
            Op::IntMod => OpForm::of_unit("IntMod"),
            Op::IntNeg => OpForm::of_unit("IntNeg"),
            Op::IntLt => OpForm::of_unit("IntLt"),
            Op::IntLe => OpForm::of_unit("IntLe"),
            Op::FloatAdd => OpForm::of_unit("FloatAdd"),
            Op::FloatSub => OpForm::of_unit("FloatSub"),
            Op::FloatMul => OpForm::of_unit("FloatMul"),
            Op::FloatDiv => OpForm::of_unit("FloatDiv"),
            Op::FloatNeg => OpForm::of_unit("FloatNeg"),
            Op::FloatLt => OpForm::of_unit("FloatLt"),
            Op::FloatLe => OpForm::of_unit("FloatLe"),
            Op::NumAdd => OpForm::of_unit("NumAdd"),
            Op::NumSub => OpForm::of_unit("NumSub"),
            Op::NumMul => OpForm::of_unit("NumMul"),
            Op::NumDiv => OpForm::of_unit("NumDiv"),
            Op::NumMod => OpForm::of_unit("NumMod"),
            Op::NumNeg => OpForm::of_unit("NumNeg"),
            Op::NumEq => OpForm::of_unit("NumEq"),
            Op::NumLt => OpForm::of_unit("NumLt"),
            Op::NumLe => OpForm::of_unit("NumLe"),
            Op::BoolAnd => OpForm::of_unit("BoolAnd"),
            Op::BoolOr => OpForm::of_unit("BoolOr"),
            Op::BoolNot => OpForm::of_unit("BoolNot"),
            Op::StrConcat => OpForm::of_unit("StrConcat"),
            Op::StrLen => OpForm::of_unit("StrLen"),
            Op::StrEq => OpForm::of_unit("StrEq"),
            Op::BytesLen => OpForm::of_unit("BytesLen"),
            Op::BytesEq => OpForm::of_unit("BytesEq"),
            _ => OpForm::of_unit(""),
        };
        assert(f.form().fields =~= form(op).fields);
        f
    }
}

/// Encodes the canonical form of an op.
pub fn encode_op(op: Op) -> (bytes: Vec<u8>)
    ensures
        bytes@ == op_bytes(op),
{
    let f = OpForm::of_op(canonical_op(op));
    proof {
        lemma_names_differ(canonical(op));
    }
    match f.value {
        Some(n) => number_to_json(f.tag, n),
        None => if f.fields.len() == 0 {
            text_to_json(f.tag)
        } else {
            numbers_to_json(f.tag, &f.fields)
        },
    }
}

} // verus!
