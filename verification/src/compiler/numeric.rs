//! What is known of the numeric type of an expression before it runs.
//!
//! The classification is conservative: whatever is not plainly an `Int` or a
//! `Float` is `Unknown`, and gets the op that looks at its operands.

use indexmap::IndexMap;
use vstd::prelude::*;

use crate::ast::{CExpr, CLit, RecordField, Stage, TypeExpr, TypeField};
use crate::text::same_text;

verus! {

#[derive(Debug, Clone, Copy, PartialEq, Eq, Structural)]
pub enum NumTy {
    Int,
    Float,
    Unknown,
}

/// The entries of a map from names to numeric types.
pub uninterp spec fn num_types(m: IndexMap<String, NumTy>) -> Map<Seq<char>, NumTy>;

/// Trusted: `IndexMap::new` makes a map without entries.
#[verifier::external_body]
pub(crate) fn new_num_types() -> (m: IndexMap<String, NumTy>)
    ensures
        (num_types(m) == Map::<Seq<char>, NumTy>::empty()),
{
    IndexMap::new()
}

/// Trusted: `IndexMap::get` finds the entry whose key is the text `name`, if
/// there is one.
#[verifier::external_body]
pub(crate) fn get_num_type(m: &IndexMap<String, NumTy>, name: &str) -> (t: Option<NumTy>)
    ensures
        t == (if num_types(*m).contains_key(name@) {
            Some(num_types(*m)[name@])
        } else {
            None
        }),
{
    m.get(name).copied()
}

/// Trusted: `IndexMap::insert` adds an entry, or replaces the value of the
/// entry with an equal key.
#[verifier::external_body]
pub(crate) fn insert_num_type(m: &mut IndexMap<String, NumTy>, name: String, t: NumTy)
    ensures
        num_types(*final(m)) == num_types(*old(m)).insert(name@, t),
{
    m.insert(name, t);
}

/// The entries of a map from names to the numeric types of record fields.
pub uninterp spec fn record_types(m: IndexMap<String, IndexMap<String, NumTy>>) -> Map<
    Seq<char>,
    Map<Seq<char>, NumTy>,
>;

/// Trusted: `IndexMap::new` makes a map without entries.
#[verifier::external_body]
pub(crate) fn new_record_types() -> (m: IndexMap<String, IndexMap<String, NumTy>>)
    ensures
        (record_types(m) == Map::<Seq<char>, Map<Seq<char>, NumTy>>::empty()),
{
    IndexMap::new()
}

/// Trusted: `IndexMap::get` finds the entry whose key is the text `name`, if
/// there is one.
#[verifier::external_body]
pub(crate) fn get_record_types<'a>(
    m: &'a IndexMap<String, IndexMap<String, NumTy>>,
    name: &str,
) -> (fields: Option<&'a IndexMap<String, NumTy>>)
    ensures
        fields is Some <==> record_types(*m).contains_key(name@),
        fields matches Some(f) ==> num_types(*f) == record_types(*m)[name@],
{
    m.get(name)
}

/// Trusted: `IndexMap::insert` adds an entry, or replaces the value of the
/// entry with an equal key.
#[verifier::external_body]
pub(crate) fn insert_record_types(
    m: &mut IndexMap<String, IndexMap<String, NumTy>>,
    name: String,
    fields: IndexMap<String, NumTy>,
)
    ensures
        record_types(*final(m)) == record_types(*old(m)).insert(name@, num_types(fields)),
{
    m.insert(name, fields);
}

/// The numeric type that a type expression denotes. A refined type is what its
/// base is.
pub open spec fn type_num(ty: TypeExpr) -> NumTy
    decreases ty,
{
    match ty {
        TypeExpr::Named { name, args } => if args@.len() > 0 {
            NumTy::Unknown
        } else if name@ == "Int"@ {
            NumTy::Int
        } else if name@ == "Float"@ {
            NumTy::Float
        } else {
            NumTy::Unknown
        },
        TypeExpr::Refined { base, .. } => type_num(*base),
        _ => NumTy::Unknown,
    }
}

pub fn classify_type_expr(ty: &TypeExpr) -> (t: NumTy)
    ensures
        t == type_num(*ty),
    decreases ty,
{
    match ty {
        TypeExpr::Named { name, args } => {
            if args.len() > 0 {
                NumTy::Unknown
            } else if same_text(name.as_str(), "Int") {
                NumTy::Int
            } else if same_text(name.as_str(), "Float") {
                NumTy::Float
            } else {
                NumTy::Unknown
            }
        },
        TypeExpr::Refined { base, .. } => classify_type_expr(base),
        _ => NumTy::Unknown,
    }
}

/// The definition of a type name: the last one without parameters.
pub open spec fn definition(stages: Seq<Stage>, name: Seq<char>) -> Option<TypeExpr>
    decreases stages.len(),
{
    if stages.len() == 0 {
        None
    } else {
        match stages.last() {
            Stage::TypeDecl(d) => if d.params@.len() == 0 && d.name@ == name {
                Some(d.definition)
            } else {
                definition(stages.drop_last(), name)
            },
            _ => definition(stages.drop_last(), name),
        }
    }
}

fn find_definition<'a>(stages: &'a [Stage], name: &str) -> (d: Option<&'a TypeExpr>)
    ensures
        d is Some <==> definition(stages@, name@) is Some,
        d matches Some(t) ==> definition(stages@, name@) == Some(*t),
{
    let mut i: usize = stages.len();
    assert(stages@.take(i as int) =~= stages@);
    while i > 0
        invariant
            i <= stages.len(),
            definition(stages@, name@) == definition(stages@.take(i as int), name@),
        decreases i,
    {
        i = i - 1;
        assert(stages@.take(i + 1).drop_last() =~= stages@.take(i as int));
        if let Stage::TypeDecl(d) = &stages[i] {
            if d.params.len() == 0 && same_text(d.name.as_str(), name) {
                return Some(&d.definition);
            }
        }
    }
    None
}

/// The numeric types of the fields of a record type.
pub open spec fn type_fields(fs: Seq<TypeField>) -> Map<Seq<char>, NumTy>
    decreases fs.len(),
{
    if fs.len() == 0 {
        Map::empty()
    } else {
        type_fields(fs.drop_last()).insert(fs.last().name@, type_num(fs.last().ty))
    }
}

/// The numeric types of the fields that values of a type have, if it is a
/// record type or a name for one. At most `hops` names are looked up.
pub open spec fn fields_of_type(ty: TypeExpr, stages: Seq<Stage>, hops: nat) -> Option<
    Map<Seq<char>, NumTy>,
>
    decreases hops, ty,
{
    match ty {
        TypeExpr::Record { fields } => Some(type_fields(fields@)),
        TypeExpr::Refined { base, .. } => fields_of_type(*base, stages, hops),
        TypeExpr::Named { name, args } => if args@.len() > 0 || hops == 0 {
            None
        } else {
            match definition(stages, name@) {
                Some(t) => fields_of_type(t, stages, (hops - 1) as nat),
                None => None,
            }
        },
        _ => None,
    }
}

/// The fields of a record type. Every declaration is looked up at most once on
/// the way, so `hops` is the number of declarations: a longer way would go in
/// circles.
pub fn record_field_types(ty: &TypeExpr, stages: &[Stage], hops: usize) -> (fields: Option<
    IndexMap<String, NumTy>,
>)
    ensures
        fields is Some <==> fields_of_type(*ty, stages@, hops as nat) is Some,
        fields matches Some(m) ==> fields_of_type(*ty, stages@, hops as nat) == Some(num_types(m)),
    decreases hops, ty,
{
    match ty {
        TypeExpr::Record { fields } => {
            let mut m = new_num_types();
            let mut i: usize = 0;
            assert(fields@.take(0) =~= Seq::empty());
            while i < fields.len()
                invariant
                    i <= fields.len(),
                    num_types(m) == type_fields(fields@.take(i as int)),
                decreases fields.len() - i,
            {
                assert(fields@.take(i + 1).drop_last() =~= fields@.take(i as int));
                insert_num_type(
                    &mut m,
                    fields[i].name.clone(),
                    classify_type_expr(&fields[i].ty),
                );
                i = i + 1;
            }
            assert(fields@.take(i as int) =~= fields@);
            Some(m)
        },
        TypeExpr::Refined { base, .. } => record_field_types(base, stages, hops),
        TypeExpr::Named { name, args } => {
            if args.len() > 0 || hops == 0 {
                None
            } else {
                match find_definition(stages, name.as_str()) {
                    Some(t) => record_field_types(t, stages, hops - 1),
                    None => None,
                }
            }
        },
        _ => None,
    }
}

/// The operators that keep the numeric type of their operands.
pub open spec fn keeps_type(op: Seq<char>) -> bool {
    op == "+"@ || op == "-"@ || op == "*"@ || op == "/"@ || op == "%"@
}

/// The common type of two operands.
pub open spec fn common(a: NumTy, b: NumTy) -> NumTy {
    if a == b {
        a
    } else {
        NumTy::Unknown
    }
}

/// What a name map says of a name.
pub open spec fn num_at(m: Map<Seq<char>, NumTy>, name: Seq<char>) -> NumTy {
    if m.contains_key(name) {
        m[name]
    } else {
        NumTy::Unknown
    }
}

/// The numeric type of an expression, from what is known of the locals and of
/// the fields of those that hold records.
pub open spec fn expr_num(
    locals: Map<Seq<char>, NumTy>,
    records: Map<Seq<char>, Map<Seq<char>, NumTy>>,
    e: CExpr,
) -> NumTy
    decreases e,
{
    match e {
        CExpr::Literal { value } => match value {
            CLit::Int { .. } => NumTy::Int,
            CLit::Float { .. } => NumTy::Float,
            _ => NumTy::Unknown,
        },
        CExpr::Var { name } => num_at(locals, name@),
        CExpr::BinOp { op, lhs, rhs } => if keeps_type(op@) {
            common(expr_num(locals, records, *lhs), expr_num(locals, records, *rhs))
        } else {
            NumTy::Unknown
        },
        CExpr::UnaryOp { op, expr } => if op@ == "-"@ {
            expr_num(locals, records, *expr)
        } else {
            NumTy::Unknown
        },
        CExpr::FieldAccess { value, field } => match *value {
            CExpr::Var { name } => if records.contains_key(name@) {
                num_at(records[name@], field@)
            } else {
                NumTy::Unknown
            },
            _ => NumTy::Unknown,
        },
        _ => NumTy::Unknown,
    }
}

pub fn common_type(a: NumTy, b: NumTy) -> (t: NumTy)
    ensures
        t == common(a, b),
{
    if a == b {
        a
    } else {
        NumTy::Unknown
    }
}

fn look_up(m: &IndexMap<String, NumTy>, name: &str) -> (t: NumTy)
    ensures
        t == num_at(num_types(*m), name@),
{
    match get_num_type(m, name) {
        Some(t) => t,
        None => NumTy::Unknown,
    }
}

pub fn classify_expr(
    locals: &IndexMap<String, NumTy>,
    records: &IndexMap<String, IndexMap<String, NumTy>>,
    e: &CExpr,
) -> (t: NumTy)
    ensures
        t == expr_num(num_types(*locals), record_types(*records), *e),
    decreases e,
{
    match e {
        CExpr::Literal { value } => match value {
            CLit::Int { .. } => NumTy::Int,
            CLit::Float { .. } => NumTy::Float,
            _ => NumTy::Unknown,
        },
        CExpr::Var { name } => look_up(locals, name.as_str()),
        CExpr::BinOp { op, lhs, rhs } => {
            let o = op.as_str();
            if same_text(o, "+") || same_text(o, "-") || same_text(o, "*") || same_text(o, "/")
                || same_text(o, "%") {
                common_type(classify_expr(locals, records, lhs), classify_expr(locals, records,
                    rhs))
            } else {
                NumTy::Unknown
            }
        },
        CExpr::UnaryOp { op, expr } => {
            if same_text(op.as_str(), "-") {
                classify_expr(locals, records, expr)
            } else {
                NumTy::Unknown
            }
        },
        CExpr::FieldAccess { value, field } => {
            if let CExpr::Var { name } = &**value {
                if let Some(fields) = get_record_types(records, name.as_str()) {
                    return look_up(fields, field.as_str());
                }
            }
            NumTy::Unknown
        },
        _ => NumTy::Unknown,
    }
}

/// The numeric types of the first fields of a record literal.
pub open spec fn literal_fields(
    locals: Map<Seq<char>, NumTy>,
    records: Map<Seq<char>, Map<Seq<char>, NumTy>>,
    fs: Seq<RecordField>,
) -> Map<Seq<char>, NumTy>
    decreases fs.len(),
{
    if fs.len() == 0 {
        Map::empty()
    } else {
        literal_fields(locals, records, fs.drop_last()).insert(
            fs.last().name@,
            expr_num(locals, records, fs.last().value),
        )
    }
}

pub fn classify_fields(
    locals: &IndexMap<String, NumTy>,
    records: &IndexMap<String, IndexMap<String, NumTy>>,
    fs: &Vec<RecordField>,
) -> (m: IndexMap<String, NumTy>)
    ensures
        num_types(m) == literal_fields(num_types(*locals), record_types(*records), fs@),
{
    let mut m = new_num_types();
    let mut i: usize = 0;
    assert(fs@.take(0) =~= Seq::empty());
    while i < fs.len()
        invariant
            i <= fs.len(),
            num_types(m) == literal_fields(
                num_types(*locals),
                record_types(*records),
                fs@.take(i as int),
            ),
        decreases fs.len() - i,
    {
        assert(fs@.take(i + 1).drop_last() =~= fs@.take(i as int));
        insert_num_type(
            &mut m,
            fs[i].name.clone(),
            classify_expr(locals, records, &fs[i].value),
        );
        i = i + 1;
    }
    assert(fs@.take(i as int) =~= fs@);
    m
}

} // verus!
