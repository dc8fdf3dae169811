//! The canonical syntax tree that the compiler takes as its input.

use std::sync::Arc;
use vstd::prelude::*;

verus! {

/// One top-level declaration.
#[derive(Debug, PartialEq)]
pub enum Stage {
    Import(Import),
    FnDecl(FnDecl),
    TypeDecl(TypeDecl),
}

/// `import "reference" as alias`.
#[derive(Debug, PartialEq)]
pub struct Import {
    pub reference: String,
    pub alias: String,
}

#[derive(Debug, PartialEq)]
pub struct FnDecl {
    pub name: String,
    pub params: Vec<Param>,
    pub effects: Vec<Effect>,
    pub body: CExpr,
}

#[derive(Debug, PartialEq)]
pub struct TypeDecl {
    pub name: String,
    pub params: Vec<String>,
    pub definition: TypeExpr,
}

#[derive(Debug, PartialEq)]
pub struct Param {
    pub name: String,
    pub ty: TypeExpr,
}

/// An effect on a signature, with its optional argument.
#[derive(Debug, PartialEq)]
pub struct Effect {
    pub name: String,
    pub arg: Option<EffectArgExpr>,
}

#[derive(Debug, PartialEq)]
pub enum EffectArgExpr {
    Str { value: String },
    Int { value: i64 },
    Ident { value: String },
}

#[derive(Debug, PartialEq)]
pub enum TypeExpr {
    Named { name: String, args: Vec<TypeExpr> },
    Record { fields: Vec<TypeField> },
    /// `base{binding | predicate}`.
    Refined { base: Box<TypeExpr>, binding: String, predicate: Arc<CExpr> },
    Tuple { items: Vec<TypeExpr> },
    Function { params: Vec<TypeExpr>, ret: Box<TypeExpr> },
    Union { variants: Vec<UnionVariant> },
}

#[derive(Debug, PartialEq)]
pub struct TypeField {
    pub name: String,
    pub ty: TypeExpr,
}

#[derive(Debug, PartialEq)]
pub struct UnionVariant {
    pub name: String,
    pub payload: Option<TypeExpr>,
}

/// A literal. A float literal is kept as it was written.
#[derive(Debug, PartialEq)]
pub enum CLit {
    Int { value: i64 },
    /// `value` is the text of the literal, `bits` the IEEE 754 bit pattern of
    /// the number it denotes (that of zero where the text denotes none).
    Float { value: String, bits: u64 },
    Bool { value: bool },
    Str { value: String },
    Bytes { value: String },
    Unit,
}

/// An expression.
#[derive(Debug, PartialEq)]
pub enum CExpr {
    Literal { value: CLit },
    Var { name: String },
    Let { name: String, ty: Option<TypeExpr>, value: Box<CExpr>, body: Box<CExpr> },
    Block { statements: Vec<CExpr>, result: Box<CExpr> },
    /// `node_id` names the node in traces.
    Call { node_id: Option<String>, callee: Box<CExpr>, args: Vec<CExpr> },
    Constructor { name: String, args: Vec<CExpr> },
    Match { scrutinee: Box<CExpr>, arms: Vec<Arm> },
    RecordLit { fields: Vec<RecordField> },
    TupleLit { items: Vec<CExpr> },
    ListLit { items: Vec<CExpr> },
    FieldAccess { value: Box<CExpr>, field: String },
    BinOp { op: String, lhs: Box<CExpr>, rhs: Box<CExpr> },
    UnaryOp { op: String, expr: Box<CExpr> },
    Lambda { params: Vec<Param>, body: Box<CExpr> },
    Return { value: Box<CExpr> },
}

#[derive(Debug, PartialEq)]
pub struct RecordField {
    pub name: String,
    pub value: CExpr,
}

#[derive(Debug, PartialEq)]
pub struct Arm {
    pub pattern: Pattern,
    pub body: CExpr,
}

#[derive(Debug, PartialEq)]
pub enum Pattern {
    PWild,
    PVar { name: String },
    PLiteral { value: CLit },
    PConstructor { name: String, args: Vec<Pattern> },
    PRecord { fields: Vec<PatternField> },
    PTuple { items: Vec<Pattern> },
}

#[derive(Debug, PartialEq)]
pub struct PatternField {
    pub name: String,
    pub pattern: Pattern,
}

/// Hands out a second owner of a shared expression.
///
/// Trusted: `<Arc<T> as Clone>::clone` returns a pointer to the same value.
#[verifier::external_body]
pub(crate) fn share_expr(e: &Arc<CExpr>) -> (shared: Arc<CExpr>)
    ensures
        shared == *e,
{
    Arc::clone(e)
}

} // verus!
