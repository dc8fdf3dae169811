//! The compilation of a whole program: declarations, bodies, queued lambdas,
//! and the passes over the finished code.

use vstd::prelude::*;

use crate::arena;
use crate::arena::{build_arena_index, ArenaReport};
use crate::ast::{share_expr, Effect, EffectArgExpr, FnDecl, Param, Stage, TypeExpr};
use crate::compiler::draft::{
    jobs, with_local, CompileError, Draft, FnCompiler, Globals, LambdaJob, Names, PendingLambda,
};
use crate::compiler::expr::expr;
use crate::compiler::liveness::{apply_last_load_takes, law_takes_keep_shape, with_takes};
use crate::compiler::lowering::{
    apply_arena_lowering, apply_escape_lowering, arena_lowered, law_lowering_keeps_shape,
    stack_lowered,
};
use crate::compiler::numeric::{
    classify_type_expr, fields_of_type, insert_num_type, insert_record_types, new_num_types,
    new_record_types, record_field_types, type_num, NumTy,
};
use crate::compiler::peephole;
use crate::compiler::pool::{constants, lists, ConstPool, PoolView};
use crate::compiler::queue::{law_queue_is_bounded, queued};
use crate::escape;
use crate::escape::{build_escape_index, EscapeReport, Policy};
use crate::index_maps;
use crate::index_maps::{
    get_name_id, insert_alias, insert_name_id, listed, new_aliases, new_name_ids,
};
use crate::op::{canonical_code, Const, Op};
use crate::program::{
    body_hash_of, compute_body_hash, effect_views, function_views,
    law_hash_depends_on_canonical_code, refinement_view, BodyHash, DeclaredEffect, EffectArg,
    EffectArgument, EffectDecl, Function, FunctionView, Program, Refinement, ZERO_BODY_HASH,
};
use crate::text::{same_text, texts};

verus! {

broadcast use crate::compiler::draft::lemma_with_local;

// ---------------------------------------------------------------------------
// Declarations
// ---------------------------------------------------------------------------

/// The module that an import refers to: the part behind `std.`.
pub open spec fn module_name(reference: Seq<char>) -> Seq<char> {
    if reference.len() >= 4 && reference.take(4) == "std."@ {
        reference.skip(4)
    } else {
        reference
    }
}

/// The imported aliases and their modules.
pub open spec fn modules_of(stages: Seq<Stage>) -> Map<Seq<char>, Seq<char>>
    decreases stages.len(),
{
    if stages.len() == 0 {
        Map::empty()
    } else {
        match stages.last() {
            Stage::Import(i) => modules_of(stages.drop_last()).insert(
                i.alias@,
                module_name(i.reference@),
            ),
            _ => modules_of(stages.drop_last()),
        }
    }
}

/// The imported aliases, in the order in which they first occur.
pub open spec fn modules_listed(stages: Seq<Stage>) -> Seq<Seq<char>>
    decreases stages.len(),
{
    if stages.len() == 0 {
        Seq::empty()
    } else {
        match stages.last() {
            Stage::Import(i) => listed(modules_listed(stages.drop_last()), i.alias@),
            _ => modules_listed(stages.drop_last()),
        }
    }
}

pub open spec fn effect_of(e: Effect) -> EffectDecl {
    EffectDecl {
        kind: e.name@,
        arg: match e.arg {
            Some(EffectArgExpr::Str { value }) => Some(EffectArgument::Str(value@)),
            Some(EffectArgExpr::Int { value }) => Some(EffectArgument::Int(value)),
            Some(EffectArgExpr::Ident { value }) => Some(EffectArgument::Ident(value@)),
            None => None,
        },
    }
}

/// The predicate of a parameter, if its type is refined.
pub open spec fn refinement_of(p: Param) -> Option<(Seq<char>, crate::ast::CExpr)> {
    match p.ty {
        TypeExpr::Refined { binding, predicate, .. } => Some((binding@, *predicate)),
        _ => None,
    }
}

/// A declared function, before its body is compiled.
pub open spec fn declaration(d: FnDecl) -> FunctionView {
    FunctionView {
        name: d.name@,
        arity: d.params@.len() as u16,
        locals_count: 0,
        code: Seq::empty(),
        effects: Seq::new(d.effects@.len(), |i: int| effect_of(d.effects@[i])),
        body_hash: ZERO_BODY_HASH@,
        refinements: Seq::new(d.params@.len(), |i: int| refinement_of(d.params@[i])),
        field_ic_sites: 0,
    }
}

/// The declared functions, in order.
pub open spec fn declared(stages: Seq<Stage>) -> Seq<FunctionView>
    decreases stages.len(),
{
    if stages.len() == 0 {
        Seq::empty()
    } else {
        match stages.last() {
            Stage::FnDecl(d) => declared(stages.drop_last()).push(declaration(d)),
            _ => declared(stages.drop_last()),
        }
    }
}

/// The numbers of the declared functions. A name that is declared twice has
/// the number of its last declaration.
pub open spec fn numbered(stages: Seq<Stage>) -> Map<Seq<char>, u32>
    decreases stages.len(),
{
    if stages.len() == 0 {
        Map::empty()
    } else {
        match stages.last() {
            Stage::FnDecl(d) => numbered(stages.drop_last()).insert(
                d.name@,
                declared(stages.drop_last()).len() as u32,
            ),
            _ => numbered(stages.drop_last()),
        }
    }
}

/// The names of the declared functions, in the order in which they first occur.
pub open spec fn functions_listed(stages: Seq<Stage>) -> Seq<Seq<char>>
    decreases stages.len(),
{
    if stages.len() == 0 {
        Seq::empty()
    } else {
        match stages.last() {
            Stage::FnDecl(d) => listed(functions_listed(stages.drop_last()), d.name@),
            _ => functions_listed(stages.drop_last()),
        }
    }
}

// ---------------------------------------------------------------------------
// Bodies
// ---------------------------------------------------------------------------

/// The start of a function body.
pub open spec fn started(s: Draft) -> Draft {
    Draft {
        code: Seq::empty(),
        locals: Map::empty(),
        next_local: 0,
        peak_local: 0,
        types: Map::empty(),
        records: Map::empty(),
        sites: 0,
        ..s
    }
}

/// A local of which the numeric type is known.
pub open spec fn with_typed_local(s: Draft, name: Seq<char>, t: NumTy) -> Draft {
    let b = with_local(s, name);
    Draft { types: b.types.insert(name, t), ..b }
}

/// The captured values, of which nothing is known, as the first `k` locals.
pub open spec fn with_captures(s: Draft, names: Seq<Seq<char>>, k: nat) -> Draft
    decreases k,
{
    if k == 0 || k > names.len() {
        s
    } else {
        with_typed_local(with_captures(s, names, (k - 1) as nat), names[k - 1], NumTy::Unknown)
    }
}

/// The first `k` parameters of a lambda as locals.
pub open spec fn with_lambda_params(s: Draft, ps: Seq<Param>, k: nat) -> Draft
    decreases k,
{
    if k == 0 || k > ps.len() {
        s
    } else {
        with_typed_local(
            with_lambda_params(s, ps, (k - 1) as nat),
            ps[k - 1].name@,
            type_num(ps[k - 1].ty),
        )
    }
}

/// The first `k` parameters of a declared function as locals. Of one with a
/// record type the types of the fields are known.
pub open spec fn with_params(s: Draft, ps: Seq<Param>, k: nat, stages: Seq<Stage>) -> Draft
    decreases k,
{
    if k == 0 || k > ps.len() {
        s
    } else {
        let p = ps[k - 1];
        let a = with_typed_local(
            with_params(s, ps, (k - 1) as nat, stages),
            p.name@,
            type_num(p.ty),
        );
        match fields_of_type(p.ty, stages, stages.len()) {
            Some(fields) => Draft { records: a.records.insert(p.name@, fields), ..a },
            None => a,
        }
    }
}

/// The end of a function body: its code becomes that of a function.
pub open spec fn finished(s: Draft, fn_id: u32) -> Draft {
    if fn_id < s.functions.len() {
        let f = FunctionView {
            code: s.code.push(Op::Return),
            field_ic_sites: s.sites as u16,
            locals_count: s.peak_local,
            ..s.functions[fn_id as int]
        };
        Draft { functions: s.functions.update(fn_id as int, f), code: Seq::empty(), ..s }
    } else {
        s
    }
}

/// The body of a declared function.
pub open spec fn compiled_decl(n: Globals, s: Draft, d: FnDecl, stages: Seq<Stage>) -> Draft {
    let a = with_params(started(s), d.params@, d.params@.len(), stages);
    let b = expr(n, a, d.body, true);
    if n.functions.contains_key(d.name@) {
        finished(b, n.functions[d.name@])
    } else {
        b
    }
}

/// The bodies of the functions among the first `k` declarations.
pub open spec fn compiled_decls(n: Globals, s: Draft, stages: Seq<Stage>, k: nat) -> Draft
    decreases k,
{
    if k == 0 || k > stages.len() {
        s
    } else {
        let a = compiled_decls(n, s, stages, (k - 1) as nat);
        match stages[k - 1] {
            Stage::FnDecl(d) => compiled_decl(n, a, d, stages),
            _ => a,
        }
    }
}

/// The body of a queued lambda.
pub open spec fn compiled_lambda(n: Globals, s: Draft, job: LambdaJob) -> Draft {
    let a = with_captures(started(s), job.captures, job.captures.len());
    let b = with_lambda_params(a, job.params, job.params.len());
    finished(expr(n, b, job.body, true), job.fn_id)
}

proof fn lemma_captures_queue(s: Draft, names: Seq<Seq<char>>, k: nat)
    ensures
        with_captures(s, names, k).pending == s.pending,
    decreases k,
{
    if k == 0 || k > names.len() {
    } else {
        lemma_captures_queue(s, names, (k - 1) as nat);
    }
}

proof fn lemma_lambda_params_queue(s: Draft, ps: Seq<Param>, k: nat)
    ensures
        with_lambda_params(s, ps, k).pending == s.pending,
    decreases k,
{
    if k == 0 || k > ps.len() {
    } else {
        lemma_lambda_params_queue(s, ps, (k - 1) as nat);
    }
}

/// Compiling a queued lambda queues only lambdas that stand in its body.
proof fn lemma_lambda_queue(n: Globals, s: Draft, job: LambdaJob)
    ensures
        queued(compiled_lambda(n, s, job).pending) <= queued(s.pending)
            + crate::compiler::queue::lambdas(job.body),
{
    let a = with_captures(started(s), job.captures, job.captures.len());
    let b = with_lambda_params(a, job.params, job.params.len());
    lemma_captures_queue(started(s), job.captures, job.captures.len());
    lemma_lambda_params_queue(a, job.params, job.params.len());
    law_queue_is_bounded(n, b, job.body, true);
}

/// The last queued lambda, taken off the queue and compiled.
pub open spec fn next_lambda(n: Globals, s: Draft) -> Draft {
    compiled_lambda(n, Draft { pending: s.pending.drop_last(), ..s }, s.pending.last())
}

/// Every step shortens the work that is queued.
pub proof fn lemma_next_lambda(n: Globals, s: Draft)
    requires
        s.pending.len() > 0,
    ensures
        queued(next_lambda(n, s).pending) < queued(s.pending),
{
    lemma_lambda_queue(n, Draft { pending: s.pending.drop_last(), ..s }, s.pending.last());
}

/// The bodies of all queued lambdas, the last one first.
pub open spec fn drained(n: Globals, s: Draft) -> Draft
    decreases queued(s.pending),
{
    if s.pending.len() == 0 {
        s
    } else {
        proof {
            lemma_next_lambda(n, s);
        }
        drained(n, next_lambda(n, s))
    }
}

/// A program whose functions are declared.
pub open spec fn opened(stages: Seq<Stage>) -> Draft {
    Draft {
        pool: PoolView { consts: Seq::empty(), shapes: Seq::empty() },
        functions: declared(stages),
        pending: Seq::empty(),
        fault: None,
        code: Seq::empty(),
        locals: Map::empty(),
        next_local: 0,
        peak_local: 0,
        types: Map::empty(),
        records: Map::empty(),
        sites: 0,
    }
}

/// The names that the functions of a program can refer to. Calls in declared
/// functions carry the ids of their nodes, calls in lambdas do not.
pub open spec fn globals(stages: Seq<Stage>, traced: bool) -> Globals {
    Globals { functions: numbered(stages), modules: modules_of(stages), traced }
}

/// A program with all bodies compiled.
pub open spec fn draft_of(stages: Seq<Stage>) -> Draft {
    drained(
        globals(stages, false),
        compiled_decls(globals(stages, true), opened(stages), stages, stages.len()),
    )
}

fn module_of(reference: &String) -> (module: String)
    ensures
        module@ == module_name(reference@),
{
    let r = reference.as_str();
    let n: usize = r.unicode_len();
    if n >= 4 && same_text(r.substring_char(0, 4), "std.") {
        assert(r@.subrange(0, 4) =~= r@.take(4));
        let rest = r.substring_char(4, n);
        assert(rest@ =~= r@.skip(4));
        rest.to_owned()
    } else {
        if n >= 4 {
            assert(r@.subrange(0, 4) =~= r@.take(4));
        }
        r.to_owned()
    }
}

fn declare_effects(es: &Vec<Effect>) -> (out: Vec<DeclaredEffect>)
    ensures
        effect_views(out@) == Seq::new(es@.len(), |i: int| effect_of(es@[i])),
{
    let mut out: Vec<DeclaredEffect> = Vec::new();
    let mut i: usize = 0;
    while i < es.len()
        invariant
            i <= es.len(),
            out@.len() == i,
            forall|j: int| 0 <= j < i ==> (#[trigger] out@[j])@ == effect_of(es@[j]),
        decreases es.len() - i,
    {
        let arg = match &es[i].arg {
            Some(EffectArgExpr::Str { value }) => Some(EffectArg::Str(value.clone())),
            Some(EffectArgExpr::Int { value }) => Some(EffectArg::Int(*value)),
            Some(EffectArgExpr::Ident { value }) => Some(EffectArg::Ident(value.clone())),
            None => None,
        };
        out.push(DeclaredEffect { kind: es[i].name.clone(), arg });
        i = i + 1;
    }
    assert(effect_views(out@) =~= Seq::new(es@.len(), |i: int| effect_of(es@[i])));
    out
}

fn declare_refinements(ps: &Vec<Param>) -> (out: Vec<Option<Refinement>>)
    ensures
        out@.len() == ps@.len(),
        forall|j: int|
            0 <= j < ps@.len() ==> refinement_view(#[trigger] out@[j]) == refinement_of(ps@[j]),
{
    let mut out: Vec<Option<Refinement>> = Vec::new();
    let mut i: usize = 0;
    while i < ps.len()
        invariant
            i <= ps.len(),
            out@.len() == i,
            forall|j: int|
                0 <= j < i ==> refinement_view(#[trigger] out@[j]) == refinement_of(ps@[j]),
        decreases ps.len() - i,
    {
        let r = match &ps[i].ty {
            TypeExpr::Refined { binding, predicate, .. } => Some(
                Refinement { binding: binding.clone(), predicate: share_expr(predicate) },
            ),
            _ => None,
        };
        out.push(r);
        i = i + 1;
    }
    out
}

fn declare(d: &FnDecl) -> (f: Function)
    ensures
        f@ == declaration(*d),
{
    let f = Function {
        name: d.name.clone(),
        arity: d.params.len() as u16,
        locals_count: 0,
        code: Vec::new(),
        effects: declare_effects(&d.effects),
        body_hash: ZERO_BODY_HASH,
        refinements: declare_refinements(&d.params),
        field_ic_sites: 0,
    };
    assert(f@ =~= declaration(*d));
    f
}

impl<'a> FnCompiler<'a> {
    /// A compiler for a program with these declared functions.
    fn open(functions: Vec<Function>) -> (c: FnCompiler<'a>)
        ensures
            c.wf(),
            c@ == (Draft { functions: function_views(functions@), ..opened(Seq::empty()) }),
    {
        let c = FnCompiler {
            pool: ConstPool::new(),
            functions,
            pending_lambdas: Vec::new(),
            fault: None,
            code: Vec::new(),
            locals: new_name_ids(),
            next_local: 0,
            peak_local: 0,
            local_types: new_num_types(),
            local_record_field_types: new_record_types(),
            field_get_sites: 0,
        };
        assert(c@.pending =~= Seq::empty());
        c
    }

    fn start(&mut self)
        requires
            old(self).wf(),
        ensures
            final(self).wf(),
            final(self)@ == started(old(self)@),
    {
        self.code = Vec::new();
        self.locals = new_name_ids();
        self.next_local = 0;
        self.peak_local = 0;
        self.local_types = new_num_types();
        self.local_record_field_types = new_record_types();
        self.field_get_sites = 0;
    }

    fn add_typed_local(&mut self, name: &String, t: NumTy)
        requires
            old(self).wf(),
        ensures
            final(self).wf(),
            final(self)@ == with_typed_local(old(self)@, name@, t),
    {
        self.alloc_local(name.as_str());
        insert_num_type(&mut self.local_types, name.clone(), t);
    }

    fn finish(&mut self, fn_id: u32)
        requires
            old(self).wf(),
        ensures
            final(self).wf(),
            final(self)@ == finished(old(self)@, fn_id),
    {
        let ghost s0 = self@;
        if (fn_id as usize) < self.functions.len() {
            let mut code: Vec<Op> = Vec::new();
            std::mem::swap(&mut code, &mut self.code);
            code.push(Op::Return);
            let ghost fs = self.functions@;
            let sites = self.field_get_sites as u16;
            let peak: u16 = self.peak_local;
            let f = &mut self.functions[fn_id as usize];
            f.code = code;
            f.field_ic_sites = sites;
            f.locals_count = peak;
            assert(function_views(self.functions@) =~= finished(s0, fn_id).functions);
            assert(self@.code =~= Seq::empty());
        }
    }

    fn compile_decl(&mut self, n: &Names, d: &'a FnDecl, stages: &'a [Stage])
        requires
            old(self).wf(),
        ensures
            final(self).wf(),
            final(self)@ == compiled_decl(n@, old(self)@, *d, stages@),
    {
        self.start();
        let ghost s1 = self@;
        let mut k: usize = 0;
        while k < d.params.len()
            invariant
                self.wf(),
                k <= d.params.len(),
                self@ == with_params(s1, d.params@, k as nat, stages@),
            decreases d.params.len() - k,
        {
            let p = &d.params[k];
            self.add_typed_local(&p.name, classify_type_expr(&p.ty));
            if let Some(fields) = record_field_types(&p.ty, stages, stages.len()) {
                insert_record_types(&mut self.local_record_field_types, p.name.clone(), fields);
            }
            k = k + 1;
        }
        self.compile_expr(n, &d.body, true);
        if let Some(fn_id) = get_name_id(n.functions, d.name.as_str()) {
            self.finish(fn_id);
        }
    }

    fn compile_pending(&mut self, n: &Names, job: PendingLambda<'a>)
        requires
            old(self).wf(),
        ensures
            final(self).wf(),
            final(self)@ == compiled_lambda(n@, old(self)@, job@),
    {
        self.start();
        let ghost s1 = self@;
        let mut k: usize = 0;
        while k < job.capture_names.len()
            invariant
                self.wf(),
                k <= job.capture_names.len(),
                self@ == with_captures(s1, texts(job.capture_names@), k as nat),
            decreases job.capture_names.len() - k,
        {
            self.add_typed_local(&job.capture_names[k], NumTy::Unknown);
            k = k + 1;
        }
        let ghost s2 = self@;
        let mut k: usize = 0;
        while k < job.params.len()
            invariant
                self.wf(),
                k <= job.params.len(),
                self@ == with_lambda_params(s2, job.params@, k as nat),
            decreases job.params.len() - k,
        {
            let p = &job.params[k];
            self.add_typed_local(&p.name, classify_type_expr(&p.ty));
            k = k + 1;
        }
        self.compile_expr(n, job.body, true);
        self.finish(job.fn_id);
    }
}

// ---------------------------------------------------------------------------
// Passes
// ---------------------------------------------------------------------------

/// The passes that can be left out.
#[derive(Debug, Clone, Copy, PartialEq, Eq, Structural)]
pub struct Passes {
    /// Aggregates that never leave their frame go to the stack slab.
    pub stack_records: bool,
    /// Aggregates that never leave the request go to the request arena.
    pub arena_records: bool,
    /// The last load of a local moves its value.
    pub take_locals: bool,
}

/// All fusion passes, in their order.
pub open spec fn fused(code: Seq<Op>, consts: Seq<Const>) -> Seq<Op> {
    let c1 = peephole::fuse(code, 0, 3, |k: int| peephole::add_const_rule(code, consts, k));
    let c2 = peephole::fuse(c1, 0, 4, |k: int| peephole::add_const_store_rule(c1, k));
    let c3 = peephole::fuse(c2, 0, 3, |k: int| peephole::add_locals_rule(c2, k));
    let c4 = peephole::fuse(c3, 0, 3, |k: int| peephole::sub_mul_locals_rule(c3, k));
    let c5 = peephole::fuse(c4, 0, 4, |k: int| peephole::eq_const_jump_rule(c4, consts, k));
    let c6 = peephole::fuse(c5, 0, 3, |k: int| peephole::store_eq_jump_rule(c5, k));
    let c7 = peephole::fuse(c6, 0, 3, |k: int| peephole::field_arith_rule(c6, k));
    peephole::fuse(c7, 0, 2, |k: int| peephole::field_rule(c7, k))
}

fn fuse_all(code: &mut Vec<Op>, consts: &Vec<Const>)
    ensures
        final(code)@ == fused(old(code)@, consts@),
{
    peephole::apply_peephole(code, consts);
    peephole::apply_peephole_slice2(code);
    peephole::apply_peephole_slice3(code);
    peephole::apply_peephole_slice4(code);
    peephole::apply_peephole_slice5(code, consts);
    peephole::apply_peephole_slice6(code);
    peephole::apply_peephole_slice7(code);
    peephole::apply_peephole_slice9(code);
}

/// The functions with the stack tier applied.
pub open spec fn on_stack_tier(fs: Seq<Function>, idx: Map<(Seq<char>, u32), bool>) -> Seq<
    FunctionView,
> {
    Seq::new(
        fs.len(),
        |i: int|
            FunctionView { code: stack_lowered(fs[i].code@, fs[i].name@, idx), ..fs[i]@ },
    )
}

/// The functions with the arena tier applied.
pub open spec fn on_arena_tier(fs: Seq<Function>, idx: Map<(Seq<char>, u32), bool>) -> Seq<
    FunctionView,
> {
    Seq::new(
        fs.len(),
        |i: int|
            FunctionView { code: arena_lowered(fs[i].code@, fs[i].name@, idx), ..fs[i]@ },
    )
}

/// What the stack pass makes of the functions, by what the escape analysis
/// reports of them.
pub open spec fn stack_pass(on: bool, fs: Seq<Function>, out: Seq<Function>) -> bool {
    if on {
        exists|rs: Seq<EscapeReport>| #[trigger]
            escape::program_reports(fs, Policy::Frame, rs) && function_views(out) == on_stack_tier(
                fs,
                escape::index_of(rs),
            )
    } else {
        function_views(out) == function_views(fs)
    }
}

/// What the arena pass makes of the functions.
pub open spec fn arena_pass(on: bool, fs: Seq<Function>, out: Seq<Function>) -> bool {
    if on {
        exists|rs: Seq<ArenaReport>| #[trigger]
            arena::program_reports(fs, rs) && function_views(out) == on_arena_tier(
                fs,
                arena::index_of(rs),
            )
    } else {
        function_views(out) == function_views(fs)
    }
}

/// A function with its code fused, its last loads moved, and its body hashed.
pub open spec fn sealed(f: FunctionView, consts: Seq<Const>, take_locals: bool) -> FunctionView {
    let c = fused(f.code, consts);
    let code = if take_locals {
        with_takes(c)
    } else {
        c
    };
    FunctionView {
        code,
        body_hash: if f.body_hash == ZERO_BODY_HASH@ {
            body_hash_of(f.arity, f.locals_count, code)
        } else {
            f.body_hash
        },
        ..f
    }
}

/// The way from the compiled bodies `a` over the two tiers to the program.
pub open spec fn lowered_to(
    stages: Seq<Stage>,
    passes: Passes,
    a: Seq<Function>,
    b: Seq<Function>,
    c: Seq<Function>,
    p: Program,
) -> bool {
    &&& function_views(a) == draft_of(stages).functions
    &&& stack_pass(passes.stack_records, a, b)
    &&& arena_pass(passes.arena_records, b, c)
    &&& function_views(p.functions@) == Seq::new(
        c.len(),
        |i: int| sealed(c[i]@, p.constants@, passes.take_locals),
    )
}

/// Whether a program is what the declarations compile to.
pub open spec fn compiled(stages: Seq<Stage>, passes: Passes, p: Program) -> bool {
    &&& exists|a: Seq<Function>, b: Seq<Function>, c: Seq<Function>| #[trigger]
        lowered_to(stages, passes, a, b, c, p)
    &&& constants(p.constants@) == draft_of(stages).pool.consts
    &&& lists(p.record_shapes@) == draft_of(stages).pool.shapes
    &&& index_maps::name_ids(p.function_names) == numbered(stages)
    &&& index_maps::name_order(p.function_names) == functions_listed(stages)
    &&& index_maps::aliases(p.module_aliases) == modules_of(stages)
    &&& index_maps::alias_order(p.module_aliases) == modules_listed(stages)
    &&& p.entry is None
}

fn is_zero(h: &BodyHash) -> (zero: bool)
    ensures
        zero <==> h@ == ZERO_BODY_HASH@,
{
    let z: BodyHash = ZERO_BODY_HASH;
    let mut i: usize = 0;
    while i < 16
        invariant
            i <= 16,
            z == ZERO_BODY_HASH,
            forall|j: int| 0 <= j < i ==> h@[j] == z@[j],
        decreases 16 - i,
    {
        if h[i] != z[i] {
            return false;
        }
        i = i + 1;
    }
    assert(h@ =~= z@);
    true
}

fn seal(f: &mut Function, consts: &Vec<Const>, take_locals: bool)
    ensures
        final(f)@ == sealed(old(f)@, consts@, take_locals),
{
    let ghost f0 = f@;
    let mut code: Vec<Op> = Vec::new();
    std::mem::swap(&mut code, &mut f.code);
    fuse_all(&mut code, consts);
    if take_locals {
        apply_last_load_takes(&mut code);
    }
    if is_zero(&f.body_hash) {
        f.body_hash = compute_body_hash(f.arity, f.locals_count, &code);
    }
    f.code = code;
    assert(f@ =~= sealed(f0, consts@, take_locals));
}

/// Compiles a program with some of the passes.
pub fn compile_program_with(stages: &[Stage], passes: Passes) -> (r: Result<Program, CompileError>)
    ensures
        match r {
            Ok(p) => draft_of(stages@).fault is None && compiled(stages@, passes, p),
            Err(e) => draft_of(stages@).fault == Some(e@),
        },
{
    let mut module_aliases = new_aliases();
    let mut function_names = new_name_ids();
    let mut functions: Vec<Function> = Vec::new();
    let mut k: usize = 0;
    assert(stages@.take(0) =~= Seq::empty());
    assert(function_views(functions@) =~= Seq::empty());
    while k < stages.len()
        invariant
            k <= stages.len(),
            index_maps::aliases(module_aliases) == modules_of(stages@.take(k as int)),
            index_maps::alias_order(module_aliases) == modules_listed(stages@.take(k as int)),
            index_maps::name_order(function_names) == functions_listed(stages@.take(k as int)),
            index_maps::name_ids(function_names) == numbered(stages@.take(k as int)),
            function_views(functions@) == declared(stages@.take(k as int)),
        decreases stages.len() - k,
    {
        assert(stages@.take(k + 1).drop_last() =~= stages@.take(k as int));
        match &stages[k] {
            Stage::Import(i) => {
                insert_alias(&mut module_aliases, i.alias.clone(), module_of(&i.reference));
            },
            Stage::FnDecl(d) => {
                let ghost fs = functions@;
                assert(function_views(fs).len() == fs.len());
                insert_name_id(&mut function_names, d.name.clone(), functions.len() as u32);
                functions.push(declare(d));
                assert(function_views(functions@) =~= function_views(fs).push(declaration(*d)));
            },
            Stage::TypeDecl(_) => {},
        }
        k = k + 1;
    }
    assert(stages@.take(k as int) =~= stages@);
    let mut c = FnCompiler::open(functions);
    assert(c@ =~= opened(stages@));
    let traced = Names { functions: &function_names, modules: &module_aliases, traced: true };
    let mut k: usize = 0;
    while k < stages.len()
        invariant
            c.wf(),
            k <= stages.len(),
            traced@ == globals(stages@, true),
            c@ == compiled_decls(globals(stages@, true), opened(stages@), stages@, k as nat),
        decreases stages.len() - k,
    {
        if let Stage::FnDecl(d) = &stages[k] {
            c.compile_decl(&traced, d, stages);
        }
        k = k + 1;
    }
    let untraced = Names { functions: &function_names, modules: &module_aliases, traced: false };
    while c.pending_lambdas.len() > 0
        invariant
            c.wf(),
            untraced@ == globals(stages@, false),
            drained(globals(stages@, false), c@) == draft_of(stages@),
        decreases queued(c@.pending),
    {
        let ghost s = c@;
        let ghost ps = c.pending_lambdas@;
        if let Some(job) = c.pending_lambdas.pop() {
            assert(jobs(c.pending_lambdas@) =~= jobs(ps).drop_last());
            assert(job@ == s.pending.last());
            c.compile_pending(&untraced, job);
            assert(c@ == next_lambda(globals(stages@, false), s));
            proof {
                lemma_next_lambda(globals(stages@, false), s);
            }
        }
    }
    assert(c@.pending.len() == 0);
    assert(c@ == draft_of(stages@));
    let FnCompiler { pool, functions, fault, .. } = c;
    if let Some(e) = fault {
        return Err(e);
    }
    let (constants, record_shapes) = pool.finish();
    let ghost a = functions@;
    let functions = lower_to_stack(functions, passes.stack_records);
    let ghost b = functions@;
    let functions = lower_to_arena(functions, passes.arena_records);
    let ghost d = functions@;
    let functions = seal_all(functions, &constants, passes.take_locals);
    let p = Program {
        constants,
        functions,
        function_names,
        module_aliases,
        entry: None,
        record_shapes,
    };
    assert(lowered_to(stages@, passes, a, b, d, p));
    Ok(p)
}

fn lower_to_stack(functions: Vec<Function>, on: bool) -> (out: Vec<Function>)
    ensures
        stack_pass(on, functions@, out@),
{
    let mut functions = functions;
    if on {
        let idx = build_escape_index(functions.as_slice());
        let ghost fs = functions@;
        let mut i: usize = 0;
        while i < functions.len()
            invariant
                i <= functions.len(),
                functions@.len() == fs.len(),
                forall|j: int|
                    0 <= j < i ==> (#[trigger] functions@[j])@ == on_stack_tier(fs, idx@)[j],
                forall|j: int| i <= j < fs.len() ==> #[trigger] functions@[j] == fs[j],
            decreases functions.len() - i,
        {
            let f = &mut functions[i];
            apply_escape_lowering(&mut f.code, f.name.as_str(), &idx);
            assert(functions@[i as int]@ =~= on_stack_tier(fs, idx@)[i as int]);
            i = i + 1;
        }
        assert(function_views(functions@) =~= on_stack_tier(fs, idx@));
    }
    functions
}

fn lower_to_arena(functions: Vec<Function>, on: bool) -> (out: Vec<Function>)
    ensures
        arena_pass(on, functions@, out@),
{
    let mut functions = functions;
    if on {
        let idx = build_arena_index(functions.as_slice());
        let ghost fs = functions@;
        let mut i: usize = 0;
        while i < functions.len()
            invariant
                i <= functions.len(),
                functions@.len() == fs.len(),
                forall|j: int|
                    0 <= j < i ==> (#[trigger] functions@[j])@ == on_arena_tier(fs, idx@)[j],
                forall|j: int| i <= j < fs.len() ==> #[trigger] functions@[j] == fs[j],
            decreases functions.len() - i,
        {
            let f = &mut functions[i];
            apply_arena_lowering(&mut f.code, f.name.as_str(), &idx);
            assert(functions@[i as int]@ =~= on_arena_tier(fs, idx@)[i as int]);
            i = i + 1;
        }
        assert(function_views(functions@) =~= on_arena_tier(fs, idx@));
    }
    functions
}

fn seal_all(functions: Vec<Function>, consts: &Vec<Const>, take_locals: bool) -> (out: Vec<
    Function,
>)
    ensures
        function_views(out@) == Seq::new(
            functions@.len(),
            |i: int| sealed(functions@[i]@, consts@, take_locals),
        ),
{
    let mut functions = functions;
    let ghost fs = functions@;
    let mut i: usize = 0;
    while i < functions.len()
        invariant
            i <= functions.len(),
            functions@.len() == fs.len(),
            forall|j: int|
                0 <= j < i ==> (#[trigger] functions@[j])@ == sealed(fs[j]@, consts@, take_locals),
            forall|j: int| i <= j < fs.len() ==> #[trigger] functions@[j] == fs[j],
        decreases functions.len() - i,
    {
        seal(&mut functions[i], consts, take_locals);
        i = i + 1;
    }
    assert(function_views(functions@) =~= Seq::new(
        fs.len(),
        |i: int| sealed(fs[i]@, consts@, take_locals),
    ));
    functions
}

/// Compiles a program with all passes.
pub fn compile_program(stages: &[Stage]) -> (r: Result<Program, CompileError>)
    ensures
        match r {
            Ok(p) => draft_of(stages@).fault is None && compiled(
                stages@,
                (Passes { stack_records: true, arena_records: true, take_locals: true }),
                p,
            ),
            Err(e) => draft_of(stages@).fault == Some(e@),
        },
{
    compile_program_with(
        stages,
        Passes { stack_records: true, arena_records: true, take_locals: true },
    )
}

// ---------------------------------------------------------------------------
// Laws
// ---------------------------------------------------------------------------

/// The fusion passes together keep the canonical form of a body.
proof fn lemma_fused(code: Seq<Op>, consts: Seq<Const>)
    ensures
        canonical_code(fused(code, consts)) == canonical_code(code),
{
    let c1 = peephole::fuse(code, 0, 3, |k: int| peephole::add_const_rule(code, consts, k));
    let c2 = peephole::fuse(c1, 0, 4, |k: int| peephole::add_const_store_rule(c1, k));
    let c3 = peephole::fuse(c2, 0, 3, |k: int| peephole::add_locals_rule(c2, k));
    let c4 = peephole::fuse(c3, 0, 3, |k: int| peephole::sub_mul_locals_rule(c3, k));
    let c5 = peephole::fuse(c4, 0, 4, |k: int| peephole::eq_const_jump_rule(c4, consts, k));
    let c6 = peephole::fuse(c5, 0, 3, |k: int| peephole::store_eq_jump_rule(c5, k));
    let c7 = peephole::fuse(c6, 0, 3, |k: int| peephole::field_arith_rule(c6, k));
    peephole::law_fusion_keeps_canonical_code(code, consts);
    peephole::law_fusion_keeps_canonical_code(c1, consts);
    peephole::law_fusion_keeps_canonical_code(c2, consts);
    peephole::law_fusion_keeps_canonical_code(c3, consts);
    peephole::law_fusion_keeps_canonical_code(c4, consts);
    peephole::law_fusion_keeps_canonical_code(c5, consts);
    peephole::law_fusion_keeps_canonical_code(c6, consts);
    peephole::law_fusion_keeps_canonical_code(c7, consts);
}

/// The hash that a compiled body gets: the one it has, or that of its code.
pub open spec fn final_hash(f: FunctionView) -> Seq<u8> {
    if f.body_hash == ZERO_BODY_HASH@ {
        body_hash_of(f.arity, f.locals_count, f.code)
    } else {
        f.body_hash
    }
}

/// What the passes keep of a function.
pub open spec fn same_but_lowered(f: FunctionView, g: FunctionView) -> bool {
    &&& g == (FunctionView { code: g.code, body_hash: g.body_hash, ..f })
    &&& canonical_code(g.code) == canonical_code(f.code)
    &&& g.body_hash == final_hash(f)
}

proof fn lemma_passes(stages: Seq<Stage>, passes: Passes, p: Program, i: int)
    requires
        compiled(stages, passes, p),
        0 <= i < p.functions@.len(),
    ensures
        p.functions@.len() == draft_of(stages).functions.len(),
        same_but_lowered(draft_of(stages).functions[i], p.functions@[i]@),
{
    let (a, b, c) = choose|a: Seq<Function>, b: Seq<Function>, c: Seq<Function>| #[trigger]
        lowered_to(stages, passes, a, b, c, p);
    let fs = draft_of(stages).functions;
    assert(function_views(a).len() == a.len());
    assert(function_views(b).len() == b.len());
    assert(function_views(c).len() == c.len());
    assert(function_views(p.functions@).len() == p.functions@.len());
    if passes.stack_records {
        let rs = choose|rs: Seq<EscapeReport>| #[trigger]
            escape::program_reports(a, Policy::Frame, rs) && function_views(b) == on_stack_tier(
                a,
                escape::index_of(rs),
            );
        law_lowering_keeps_shape(a[i].code@, a[i].name@, escape::index_of(rs));
        assert(function_views(b)[i] == on_stack_tier(a, escape::index_of(rs))[i]);
    }
    assert(function_views(a)[i] == a[i]@);
    assert(function_views(b)[i] == b[i]@);
    if passes.arena_records {
        let rs = choose|rs: Seq<ArenaReport>| #[trigger]
            arena::program_reports(b, rs) && function_views(c) == on_arena_tier(
                b,
                arena::index_of(rs),
            );
        law_lowering_keeps_shape(b[i].code@, b[i].name@, arena::index_of(rs));
        assert(function_views(c)[i] == on_arena_tier(b, arena::index_of(rs))[i]);
    }
    assert(function_views(c)[i] == c[i]@);
    assert(function_views(p.functions@)[i] == p.functions@[i]@);
    lemma_fused(c[i]@.code, p.constants@);
    law_takes_keep_shape(fused(c[i]@.code, p.constants@));
    law_hash_depends_on_canonical_code(
        fs[i].arity,
        fs[i].locals_count,
        fs[i].code,
        p.functions@[i]@.code,
    );
}

/// Law: a program is the same whichever passes run, but for the form of its
/// code. In particular its bodies have the same hashes, which identify
/// closures.
pub proof fn law_passes_keep_identity(
    stages: Seq<Stage>,
    x: Passes,
    y: Passes,
    p: Program,
    q: Program,
    i: int,
)
    requires
        compiled(stages, x, p),
        compiled(stages, y, q),
        0 <= i < p.functions@.len(),
    ensures
        p.functions@.len() == q.functions@.len(),
        p.functions@[i]@ == (FunctionView { code: p.functions@[i]@.code, ..q.functions@[i]@ }),
        canonical_code(p.functions@[i].code@) == canonical_code(q.functions@[i].code@),
{
    lemma_passes(stages, x, p, i);
    lemma_function_count(stages, y, q);
    lemma_passes(stages, y, q, i);
}

proof fn lemma_function_count(stages: Seq<Stage>, passes: Passes, p: Program)
    requires
        compiled(stages, passes, p),
    ensures
        p.functions@.len() == draft_of(stages).functions.len(),
{
    let (a, b, c) = choose|a: Seq<Function>, b: Seq<Function>, c: Seq<Function>| #[trigger]
        lowered_to(stages, passes, a, b, c, p);
    assert(function_views(a).len() == a.len());
    assert(function_views(b).len() == b.len());
    assert(function_views(c).len() == c.len());
    assert(function_views(p.functions@).len() == p.functions@.len());
    if passes.stack_records {
        let rs = choose|rs: Seq<EscapeReport>| #[trigger]
            escape::program_reports(a, Policy::Frame, rs) && function_views(b) == on_stack_tier(
                a,
                escape::index_of(rs),
            );
        assert(on_stack_tier(a, escape::index_of(rs)).len() == a.len());
    }
    if passes.arena_records {
        let rs = choose|rs: Seq<ArenaReport>| #[trigger]
            arena::program_reports(b, rs) && function_views(c) == on_arena_tier(
                b,
                arena::index_of(rs),
            );
        assert(on_arena_tier(b, arena::index_of(rs)).len() == b.len());
    }
}

} // verus!
