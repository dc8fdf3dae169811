//! A compiled program: functions, a constant pool and record shapes.

use indexmap::IndexMap;
use std::sync::Arc;
use sha2::{Digest, Sha256};
use vstd::bytes::{spec_u16_to_le_bytes, spec_u64_to_le_bytes, u16_to_le_bytes, u64_to_le_bytes};
use vstd::prelude::*;

use crate::ast::CExpr;
use crate::index_maps;
use crate::index_maps::get_name_id;
use crate::op::{canonical, canonical_code, Const, Op};
use crate::op_encoding::{encode_op, op_bytes};
use crate::text::same_text;

verus! {

/// Content hash of a function body: a truncated SHA-256 digest.
pub type BodyHash = [u8; 16];

/// The hash of a body that has not been hashed yet.
pub const ZERO_BODY_HASH: BodyHash = [0, 0, 0, 0, 0, 0, 0, 0, 0, 0, 0, 0, 0, 0, 0, 0];

/// A compiled program.
#[derive(Debug, PartialEq)]
pub struct Program {
    pub constants: Vec<Const>,
    pub functions: Vec<Function>,
    /// Global function names and their index in `functions`.
    pub function_names: IndexMap<String, u32>,
    /// Imported module aliases and the modules they stand for.
    pub module_aliases: IndexMap<String, String>,
    /// The function to start with, if one was chosen.
    pub entry: Option<u32>,
    /// Field-name lists of record literals, as indices of field-name
    /// constants.
    pub record_shapes: Vec<Vec<u32>>,
}

#[derive(Debug, Clone, PartialEq)]
pub struct Function {
    pub name: String,
    pub arity: u16,
    pub locals_count: u16,
    pub code: Vec<Op>,
    /// Effects declared on the signature.
    pub effects: Vec<DeclaredEffect>,
    /// Content hash of the body; identifies closures.
    pub body_hash: BodyHash,
    /// One entry per parameter: the predicate of a refined parameter type.
    pub refinements: Vec<Option<Refinement>>,
    /// How many field-access sites the body holds.
    pub field_ic_sites: u16,
}

/// The predicate of a refined parameter type `Type{binding | predicate}`.
#[derive(Debug, Clone, PartialEq)]
pub struct Refinement {
    pub binding: String,
    pub predicate: Arc<CExpr>,
}

#[derive(Debug, Clone, PartialEq)]
pub struct DeclaredEffect {
    pub kind: String,
    pub arg: Option<EffectArg>,
}

#[derive(Debug, Clone, PartialEq)]
pub enum EffectArg {
    Str(String),
    Int(i64),
    Ident(String),
}

/// A function, seen as a mathematical object.
#[verifier::ext_equal]
pub struct FunctionView {
    pub name: Seq<char>,
    pub arity: u16,
    pub locals_count: u16,
    pub code: Seq<Op>,
    pub effects: Seq<EffectDecl>,
    pub body_hash: Seq<u8>,
    pub refinements: Seq<Option<(Seq<char>, CExpr)>>,
    pub field_ic_sites: u16,
}

pub open spec fn refinement_view(r: Option<Refinement>) -> Option<(Seq<char>, CExpr)> {
    match r {
        Some(r) => Some((r.binding@, *r.predicate)),
        None => None,
    }
}

impl View for Function {
    type V = FunctionView;

    open spec fn view(&self) -> FunctionView {
        FunctionView {
            name: self.name@,
            arity: self.arity,
            locals_count: self.locals_count,
            code: self.code@,
            effects: effect_views(self.effects@),
            body_hash: self.body_hash@,
            refinements: Seq::new(
                self.refinements@.len(),
                |i: int| refinement_view(self.refinements@[i]),
            ),
            field_ic_sites: self.field_ic_sites,
        }
    }
}

pub open spec fn function_views(fs: Seq<Function>) -> Seq<FunctionView> {
    Seq::new(fs.len(), |i: int| fs[i]@)
}

/// A declared effect, seen as a mathematical object.
pub struct EffectDecl {
    pub kind: Seq<char>,
    pub arg: Option<EffectArgument>,
}

pub enum EffectArgument {
    Str(Seq<char>),
    Int(i64),
    Ident(Seq<char>),
}

impl View for EffectArg {
    type V = EffectArgument;

    open spec fn view(&self) -> EffectArgument {
        match self {
            EffectArg::Str(s) => EffectArgument::Str(s@),
            EffectArg::Int(n) => EffectArgument::Int(*n),
            EffectArg::Ident(s) => EffectArgument::Ident(s@),
        }
    }
}

impl View for DeclaredEffect {
    type V = EffectDecl;

    open spec fn view(&self) -> EffectDecl {
        EffectDecl {
            kind: self.kind@,
            arg: match self.arg {
                Some(a) => Some(a@),
                None => None,
            },
        }
    }
}

impl DeclaredEffect {
    pub fn duplicate(&self) -> (e: DeclaredEffect)
        ensures
            e@ == self@,
    {
        let arg = match &self.arg {
            Some(EffectArg::Str(s)) => Some(EffectArg::Str(s.clone())),
            Some(EffectArg::Int(n)) => Some(EffectArg::Int(*n)),
            Some(EffectArg::Ident(s)) => Some(EffectArg::Ident(s.clone())),
            None => None,
        };
        DeclaredEffect { kind: self.kind.clone(), arg }
    }

    pub fn same(&self, other: &DeclaredEffect) -> (eq: bool)
        ensures
            eq <==> self@ == other@,
    {
        if !same_text(self.kind.as_str(), other.kind.as_str()) {
            return false;
        }
        match (&self.arg, &other.arg) {
            (None, None) => true,
            (Some(EffectArg::Str(a)), Some(EffectArg::Str(b))) => same_text(
                a.as_str(),
                b.as_str(),
            ),
            (Some(EffectArg::Int(a)), Some(EffectArg::Int(b))) => *a == *b,
            (Some(EffectArg::Ident(a)), Some(EffectArg::Ident(b))) => same_text(
                a.as_str(),
                b.as_str(),
            ),
            _ => false,
        }
    }
}

pub open spec fn effect_views(v: Seq<DeclaredEffect>) -> Seq<EffectDecl> {
    Seq::new(v.len(), |i: int| v[i]@)
}

/// The list with an effect added at its end, unless it is there already.
pub open spec fn add_effect(out: Seq<EffectDecl>, e: EffectDecl) -> Seq<EffectDecl> {
    if out.contains(e) {
        out
    } else {
        out.push(e)
    }
}

/// The list with the effects of one function added.
pub open spec fn add_effects(out: Seq<EffectDecl>, es: Seq<EffectDecl>) -> Seq<EffectDecl>
    decreases es.len(),
{
    if es.len() == 0 {
        out
    } else {
        add_effect(add_effects(out, es.drop_last()), es.last())
    }
}

/// The effects of all functions, each once, in the order of their first
/// occurrence.
pub open spec fn all_effects(fs: Seq<Function>) -> Seq<EffectDecl>
    decreases fs.len(),
{
    if fs.len() == 0 {
        Seq::empty()
    } else {
        add_effects(all_effects(fs.drop_last()), effect_views(fs.last().effects@))
    }
}

fn add_if_new(out: &mut Vec<DeclaredEffect>, e: &DeclaredEffect)
    ensures
        effect_views(final(out)@) == add_effect(effect_views(old(out)@), e@),
{
    let ghost before = effect_views(out@);
    let mut i: usize = 0;
    while i < out.len()
        invariant
            i <= out.len(),
            before == effect_views(out@),
            forall|j: int| 0 <= j < i ==> #[trigger] before[j] != e@,
        decreases out.len() - i,
    {
        if out[i].same(e) {
            assert(before[i as int] == e@);
            return ;
        }
        i = i + 1;
    }
    out.push(e.duplicate());
    assert(effect_views(out@) =~= before.push(e@));
}

impl Program {
    /// The index of a function by its name.
    pub fn lookup(&self, name: &str) -> (id: Option<u32>)
        ensures
            id == (if index_maps::name_ids(self.function_names).contains_key(name@) {
                Some(index_maps::name_ids(self.function_names)[name@])
            } else {
                None
            }),
    {
        get_name_id(&self.function_names, name)
    }

    /// The effects that the functions declare, each once, in order.
    pub fn declared_effects(&self) -> (out: Vec<DeclaredEffect>)
        ensures
            effect_views(out@) == all_effects(self.functions@),
    {
        let ghost fs = self.functions@;
        let mut out: Vec<DeclaredEffect> = Vec::new();
        let mut i: usize = 0;
        assert(effect_views(out@) =~= all_effects(fs.take(0)));
        while i < self.functions.len()
            invariant
                i <= self.functions.len(),
                fs == self.functions@,
                effect_views(out@) == all_effects(fs.take(i as int)),
            decreases self.functions.len() - i,
        {
            let f = &self.functions[i];
            let ghost before = effect_views(out@);
            let ghost es = effect_views(f.effects@);
            let mut k: usize = 0;
            assert(es.take(0) =~= Seq::<EffectDecl>::empty());
            while k < f.effects.len()
                invariant
                    k <= f.effects.len(),
                    es == effect_views(f.effects@),
                    effect_views(out@) == add_effects(before, es.take(k as int)),
                decreases f.effects.len() - k,
            {
                assert(es.take(k + 1).drop_last() =~= es.take(k as int));
                add_if_new(&mut out, &f.effects[k]);
                k = k + 1;
            }
            assert(es.take(k as int) =~= es);
            assert(fs.take(i + 1).drop_last() =~= fs.take(i as int));
            i = i + 1;
        }
        assert(fs.take(i as int) =~= fs);
        out
    }
}

/// The SHA-256 digest of some bytes.
pub uninterp spec fn sha256(data: Seq<u8>) -> Seq<u8>;

/// Trusted: `<Sha256 as Digest>::digest` depends on the bytes alone and gives
/// 32 bytes.
#[verifier::external_body]
fn sha256_digest(data: &Vec<u8>) -> (digest: [u8; 32])
    ensures
        digest@ == sha256(data@),
{
    Sha256::digest(data).into()
}

/// The bytes of one op in the hashed text: their number, then themselves.
pub open spec fn framed_op(op: Op) -> Seq<u8> {
    spec_u64_to_le_bytes(op_bytes(op).len() as u64) + op_bytes(op)
}

/// The bytes of all ops in the hashed text.
pub open spec fn framed_ops(code: Seq<Op>) -> Seq<u8>
    decreases code.len(),
{
    if code.len() == 0 {
        Seq::empty()
    } else {
        framed_ops(code.drop_last()) + framed_op(code.last())
    }
}

/// The text that a body is hashed as.
pub open spec fn body_text(arity: u16, locals_count: u16, code: Seq<Op>) -> Seq<u8> {
    spec_u16_to_le_bytes(arity) + spec_u16_to_le_bytes(locals_count) + spec_u64_to_le_bytes(
        code.len() as u64,
    ) + framed_ops(code)
}

/// The content hash of a body: the first half of a digest.
pub open spec fn body_hash_of(arity: u16, locals_count: u16, code: Seq<Op>) -> Seq<u8> {
    sha256(body_text(arity, locals_count, code)).take(16)
}

/// The hash of a body that has not been hashed yet.
pub fn zero_body_hash() -> (h: BodyHash)
    ensures
        h == ZERO_BODY_HASH,
{
    ZERO_BODY_HASH
}

/// Hashes a function body. Bodies that differ only in allocation tiers, fused
/// windows, moved-out loads, typed equalities or field access sites get the
/// same hash.
pub fn compute_body_hash(arity: u16, locals_count: u16, code: &Vec<Op>) -> (h: BodyHash)
    ensures
        h@ == body_hash_of(arity, locals_count, code@),
{
    let mut text: Vec<u8> = u16_to_le_bytes(arity);
    let mut part: Vec<u8> = u16_to_le_bytes(locals_count);
    text.append(&mut part);
    let mut part: Vec<u8> = u64_to_le_bytes(code.len() as u64);
    text.append(&mut part);
    let ghost head = text@;
    let mut i: usize = 0;
    assert(text@ =~= head + framed_ops(code@.take(0)));
    while i < code.len()
        invariant
            i <= code.len(),
            text@ == head + framed_ops(code@.take(i as int)),
        decreases code.len() - i,
    {
        let mut bytes = encode_op(code[i]);
        let mut len = u64_to_le_bytes(bytes.len() as u64);
        text.append(&mut len);
        text.append(&mut bytes);
        proof {
            assert(code@.take(i + 1).drop_last() =~= code@.take(i as int));
            assert(text@ =~= head + framed_ops(code@.take(i + 1)));
        }
        i = i + 1;
    }
    assert(code@.take(i as int) =~= code@);
    let digest = sha256_digest(&text);
    let h: BodyHash = [
        digest[0],
        digest[1],
        digest[2],
        digest[3],
        digest[4],
        digest[5],
        digest[6],
        digest[7],
        digest[8],
        digest[9],
        digest[10],
        digest[11],
        digest[12],
        digest[13],
        digest[14],
        digest[15],
    ];
    assert(h@ =~= digest@.take(16));
    h
}

/// Law: the hash of a body depends on its canonical code alone, so no lowering
/// pass that keeps the canonical code changes it.
pub proof fn law_hash_depends_on_canonical_code(
    arity: u16,
    locals_count: u16,
    a: Seq<Op>,
    b: Seq<Op>,
)
    requires
        canonical_code(a) == canonical_code(b),
    ensures
        body_hash_of(arity, locals_count, a) == body_hash_of(arity, locals_count, b),
{
    assert(a.len() == canonical_code(a).len());
    assert(b.len() == canonical_code(b).len());
    lemma_framed_ops(a, b);
}

proof fn lemma_framed_ops(a: Seq<Op>, b: Seq<Op>)
    requires
        canonical_code(a) == canonical_code(b),
    ensures
        framed_ops(a) == framed_ops(b),
    decreases a.len(),
{
    assert(a.len() == canonical_code(a).len());
    assert(b.len() == canonical_code(b).len());
    if a.len() > 0 {
        assert forall|i: int| 0 <= i < a.len() implies canonical(#[trigger] a[i]) == canonical(
            b[i],
        ) by {
            assert(canonical_code(a)[i] == canonical(a[i]));
            assert(canonical_code(b)[i] == canonical(b[i]));
        }
        assert(op_bytes(a.last()) == op_bytes(b.last()));
        assert(canonical_code(a.drop_last()) =~= canonical_code(b.drop_last()));
        lemma_framed_ops(a.drop_last(), b.drop_last());
    }
}

} // verus!
