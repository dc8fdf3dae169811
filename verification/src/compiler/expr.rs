//! The code of expressions.

use vstd::prelude::*;

use crate::ast::{Arm, CExpr, Param, RecordField};
use crate::compiler::combinators::{
    argument_count, closing, combinator, find_combinator, keeper, keeper_of, tag_of, taken,
    tested_tag, Combinator,
};
use crate::compiler::draft::{
    emitted, emitted_all, failed, field_read, interned, jobs, number, stored, with_local,
    CompileError, CompileFault, Draft, FnCompiler, Globals, LambdaJob, Names, PendingLambda,
};
use crate::compiler::free_vars::{bind_params, free, free_vars, names, param_names};
use crate::compiler::numeric::{
    classify_expr, classify_fields, classify_type_expr, common, common_type, expr_num,
    insert_num_type, insert_record_types, literal_fields, type_num, NumTy,
};
use crate::compiler::patterns::{literal, patched, places, tested};
use crate::compiler::pool;
use crate::compiler::pool::Constant;
use crate::index_maps::{copy_name_ids, get_alias, get_name_id};
use crate::op::Op;
use crate::program::{function_views, Function, FunctionView, ZERO_BODY_HASH};
use crate::text::{append_decimal, decimal, same_text, texts};

verus! {

/// A variable: a local, or else a function as a closure without captures.
pub open spec fn variable(n: Globals, s: Draft, name: Seq<char>) -> Draft {
    if s.locals.contains_key(name) {
        emitted(s, Op::LoadLocal(s.locals[name] as u16))
    } else if n.functions.contains_key(name) {
        emitted(s, Op::MakeClosure { fn_id: n.functions[name], capture_count: 0 })
    } else {
        failed(s, CompileFault::UnknownVariable(name))
    }
}

/// A local for the value on the stack, of which a numeric type is known.
pub open spec fn bound_to(s: Draft, name: Seq<char>, t: NumTy) -> Draft {
    let b = stored(s, name);
    Draft { types: b.types.insert(name, t), ..b }
}

/// What is known of the fields of a local that a record literal is bound to.
pub open spec fn with_record_types(s: Draft, name: Seq<char>, value: CExpr) -> Draft {
    match value {
        CExpr::RecordLit { fields } => Draft {
            records: s.records.insert(name, literal_fields(s.types, s.records, fields@)),
            ..s
        },
        _ => s,
    }
}

pub open spec fn unary(s: Draft, op: Seq<char>) -> Draft {
    if op == "-"@ {
        emitted(s, Op::NumNeg)
    } else if op == "not"@ {
        emitted(s, Op::BoolNot)
    } else {
        failed(s, CompileFault::UnknownUnary(op))
    }
}

/// The form of an operator for operands of one type.
pub open spec fn typed(t: NumTy, int_op: Op, float_op: Op, num_op: Op) -> Op {
    match t {
        NumTy::Int => int_op,
        NumTy::Float => float_op,
        NumTy::Unknown => num_op,
    }
}

/// The two values on top of the stack, exchanged.
pub open spec fn swapped(s: Draft) -> Draft {
    let a = s.next_local;
    let s = with_local(s, "__swap_a"@);
    let b = s.next_local;
    let s = with_local(s, "__swap_b"@);
    emitted_all(
        s,
        seq![Op::StoreLocal(b), Op::StoreLocal(a), Op::LoadLocal(b), Op::LoadLocal(a)],
    )
}

/// A binary operator on the two values on top of the stack. A comparison that
/// has no op of its own is the negation or the reversal of one that has.
pub open spec fn binary(s: Draft, op: Seq<char>, t: NumTy) -> Draft {
    if op == "+"@ {
        emitted(s, typed(t, Op::IntAdd, Op::FloatAdd, Op::NumAdd))
    } else if op == "-"@ {
        emitted(s, typed(t, Op::IntSub, Op::FloatSub, Op::NumSub))
    } else if op == "*"@ {
        emitted(s, typed(t, Op::IntMul, Op::FloatMul, Op::NumMul))
    } else if op == "/"@ {
        emitted(s, typed(t, Op::IntDiv, Op::FloatDiv, Op::NumDiv))
    } else if op == "%"@ {
        emitted(s, typed(t, Op::IntMod, Op::NumMod, Op::NumMod))
    } else if op == "=="@ {
        emitted(s, typed(t, Op::IntEq, Op::FloatEq, Op::NumEq))
    } else if op == "!="@ {
        emitted(emitted(s, typed(t, Op::IntEq, Op::FloatEq, Op::NumEq)), Op::BoolNot)
    } else if op == "<"@ {
        emitted(s, typed(t, Op::IntLt, Op::FloatLt, Op::NumLt))
    } else if op == "<="@ {
        emitted(s, typed(t, Op::IntLe, Op::FloatLe, Op::NumLe))
    } else if op == ">"@ {
        emitted(swapped(s), typed(t, Op::IntLt, Op::FloatLt, Op::NumLt))
    } else if op == ">="@ {
        emitted(swapped(s), typed(t, Op::IntLe, Op::FloatLe, Op::NumLe))
    } else if op == "and"@ {
        emitted(s, Op::BoolAnd)
    } else if op == "or"@ {
        emitted(s, Op::BoolOr)
    } else {
        failed(s, CompileFault::UnknownBinary(op))
    }
}

/// The locals that a lambda captures: the free names of its body that are
/// locals where it stands.
pub open spec fn captured(s: Draft, params: Seq<Param>, body: CExpr) -> Seq<Seq<char>> {
    free(body, param_names(params, Set::empty()), Seq::empty()).filter(
        |n: Seq<char>| s.locals.contains_key(n),
    )
}

/// The loads of locals.
pub open spec fn loads(s: Draft, names: Seq<Seq<char>>) -> Seq<Op> {
    Seq::new(names.len(), |i: int| Op::LoadLocal(s.locals[names[i]] as u16))
}

/// A function that has no body yet.
pub open spec fn lambda_stub(fn_id: u32, arity: u16) -> FunctionView {
    FunctionView {
        name: "__lambda_"@ + decimal(fn_id as nat),
        arity,
        locals_count: 0,
        code: Seq::empty(),
        effects: Seq::empty(),
        body_hash: ZERO_BODY_HASH@,
        refinements: Seq::empty(),
        field_ic_sites: 0,
    }
}

/// A closure over the captured locals. The body is left for later.
pub open spec fn lambda(s: Draft, params: Seq<Param>, body: CExpr) -> Draft {
    let captures = captured(s, params, body);
    let fn_id = s.functions.len() as u32;
    let arity = (captures.len() + params.len()) as u16;
    let t = emitted(
        emitted_all(s, loads(s, captures)),
        Op::MakeClosure { fn_id, capture_count: captures.len() as u16 },
    );
    Draft {
        functions: s.functions.push(lambda_stub(fn_id, arity)),
        pending: s.pending.push(LambdaJob { fn_id, captures, params, body }),
        ..t
    }
}

/// The module function that a callee `alias.name` stands for.
pub open spec fn module_call(n: Globals, callee: CExpr) -> Option<(Seq<char>, Seq<char>)> {
    match callee {
        CExpr::FieldAccess { value, field } => match *value {
            CExpr::Var { name } => if n.modules.contains_key(name@) {
                Some((n.modules[name@], field@))
            } else {
                None
            },
            _ => None,
        },
        _ => None,
    }
}

/// The node id that a call carries.
pub open spec fn call_id(n: Globals, node_id: Option<String>) -> Seq<char> {
    match node_id {
        Some(id) => if n.traced {
            id@
        } else {
            "n_?"@
        },
        None => "n_?"@,
    }
}

/// The list of the entries of the map on the stack.
pub open spec fn entries(s: Draft, node_id_idx: u32) -> Draft {
    let kind_idx = number(s, Constant::Str("map"@));
    let s = interned(s, Constant::Str("map"@));
    let op_idx = number(s, Constant::Str("entries"@));
    let s = interned(s, Constant::Str("entries"@));
    emitted(s, Op::EffectCall { kind_idx, op_idx, arity: 1, node_id_idx })
}

/// An effect on arguments that are on the stack.
pub open spec fn effect(
    s: Draft,
    kind: Seq<char>,
    op: Seq<char>,
    arity: u16,
    node_id_idx: u32,
) -> Draft {
    let kind_idx = number(s, Constant::Str(kind));
    let s = interned(s, Constant::Str(kind));
    let op_idx = number(s, Constant::Str(op));
    let s = interned(s, Constant::Str(op));
    emitted(s, Op::EffectCall { kind_idx, op_idx, arity, node_id_idx })
}

/// The code that leaves the value of an expression on the stack. In tail
/// position a call of a function replaces the frame.
pub open spec fn expr(n: Globals, s: Draft, e: CExpr, tail: bool) -> Draft
    decreases e, 2nat,
{
    match e {
        CExpr::Literal { value } => literal(s, value),
        CExpr::Var { name } => variable(n, s, name@),
        CExpr::Let { name, ty, value, body } => {
            let t = match ty {
                Some(ty) => type_num(ty),
                None => expr_num(s.types, s.records, *value),
            };
            let a = expr(n, with_record_types(s, name@, *value), *value, false);
            expr(n, bound_to(a, name@, t), *body, tail)
        },
        CExpr::Block { statements, result } => expr(
            n,
            statements_of(n, s, statements@, statements@.len()),
            *result,
            tail,
        ),
        CExpr::Call { .. } => call(n, s, e, tail),
        CExpr::Constructor { name, args } => {
            let a = exprs(n, s, args@, args@.len());
            let c = Constant::VariantName(name@);
            emitted(
                interned(a, c),
                Op::MakeVariant { name_idx: number(a, c), arity: args@.len() as u16 },
            )
        },
        CExpr::Match { scrutinee, arms } => {
            let a = expr(n, s, *scrutinee, false);
            let (b, ends) = match_arms(
                n,
                stored(a, "__scrut"@),
                arms@,
                arms@.len(),
                tail,
                a.next_local,
            );
            let c = Constant::Str("non-exhaustive match"@);
            let d = emitted(interned(b, c), Op::Panic(number(b, c)));
            Draft { code: patched(d.code, ends, d.code.len() as int), ..d }
        },
        CExpr::RecordLit { fields } => {
            let (a, ids) = record_fields(n, s, fields@, fields@.len());
            emitted(
                Draft { pool: pool::with_shape(a.pool, ids), ..a },
                Op::MakeRecord {
                    shape_idx: pool::shape_number(a.pool, ids),
                    field_count: ids.len() as u16,
                },
            )
        },
        CExpr::TupleLit { items } => emitted(
            exprs(n, s, items@, items@.len()),
            Op::MakeTuple(items@.len() as u16),
        ),
        CExpr::ListLit { items } => emitted(
            exprs(n, s, items@, items@.len()),
            Op::MakeList(items@.len() as u32),
        ),
        CExpr::FieldAccess { value, field } => field_read(expr(n, s, *value, false), field@),
        CExpr::BinOp { op, lhs, rhs } => {
            let t = common(
                expr_num(s.types, s.records, *lhs),
                expr_num(s.types, s.records, *rhs),
            );
            binary(expr(n, expr(n, s, *lhs, false), *rhs, false), op@, t)
        },
        CExpr::UnaryOp { op, expr: x } => unary(expr(n, s, *x, false), op@),
        CExpr::Lambda { params, body } => lambda(s, params@, *body),
        CExpr::Return { value } => emitted(expr(n, s, *value, true), Op::Return),
    }
}

/// The first `k` expressions, one value each.
pub open spec fn exprs(n: Globals, s: Draft, xs: Seq<CExpr>, k: nat) -> Draft
    decreases xs, k,
{
    if k == 0 || k > xs.len() {
        s
    } else {
        expr(n, exprs(n, s, xs, (k - 1) as nat), xs[k - 1], false)
    }
}

/// The first `k` statements, whose values are dropped.
pub open spec fn statements_of(n: Globals, s: Draft, xs: Seq<CExpr>, k: nat) -> Draft
    decreases xs, k,
{
    if k == 0 || k > xs.len() {
        s
    } else {
        emitted(expr(n, statements_of(n, s, xs, (k - 1) as nat), xs[k - 1], false), Op::Pop)
    }
}

/// The values of the first `k` fields, and the numbers of their names.
pub open spec fn record_fields(n: Globals, s: Draft, fs: Seq<RecordField>, k: nat) -> (
    Draft,
    Seq<u32>,
)
    decreases fs, k,
{
    if k == 0 || k > fs.len() {
        (s, Seq::empty())
    } else {
        let (a, ids) = record_fields(n, s, fs, (k - 1) as nat);
        let b = expr(n, a, fs[k - 1].value, false);
        let c = Constant::FieldName(fs[k - 1].name@);
        (interned(b, c), ids.push(number(b, c)))
    }
}

/// The first `k` arms of a match on the value in a local, and the places of
/// the jumps to its end. A failed test goes on with the next arm; the locals
/// of an arm end with it.
pub open spec fn match_arms(
    n: Globals,
    s: Draft,
    arms: Seq<Arm>,
    k: nat,
    tail: bool,
    scrutinee: u16,
) -> (Draft, Seq<nat>)
    decreases arms, k,
{
    if k == 0 || k > arms.len() {
        (s, Seq::empty())
    } else {
        let (a, ends) = match_arms(n, s, arms, (k - 1) as nat, tail, scrutinee);
        let (t, fails) = tested(
            emitted(a, Op::LoadLocal(scrutinee)),
            Seq::empty(),
            arms[k - 1].pattern,
        );
        let b = expr(n, t, arms[k - 1].body, tail);
        let d = emitted(b, Op::Jump(0));
        (
            Draft {
                code: patched(d.code, fails, d.code.len() as int),
                next_local: a.next_local,
                locals: a.locals,
                ..d
            },
            ends.push(b.code.len()),
        )
    }
}

/// The first `k` arguments of a combinator, each in its local or on the stack,
/// and the locals.
pub open spec fn arguments(
    n: Globals,
    s: Draft,
    c: Combinator,
    args: Seq<CExpr>,
    k: nat,
    node_id_idx: u32,
) -> (Draft, Seq<u16>)
    decreases args, k,
{
    if k == 0 {
        (s, Seq::empty())
    } else {
        let i = (k - 1) as nat;
        let (a, slots) = arguments(n, s, c, args, i, node_id_idx);
        if i >= args.len() {
            (failed(a, CompileFault::MissingArgument(i)), slots.push(0))
        } else {
            let b = expr(n, a, args[i as int], false);
            let d = if c == Combinator::MapFold && i == 0 {
                entries(b, node_id_idx)
            } else {
                b
            };
            match keeper(c, i) {
                Some(name) => (stored(d, name), slots.push(d.next_local)),
                None => (d, slots.push(0)),
            }
        }
    }
}

/// A combinator in line.
pub open spec fn in_line(
    n: Globals,
    s: Draft,
    c: Combinator,
    args: Seq<CExpr>,
    node_id_idx: u32,
) -> Draft
    decreases args, 4nat,
{
    match tested_tag(c) {
        Some(tag) => {
            let t = Constant::VariantName(tag);
            let (a, slots) = arguments(n, interned(s, t), c, args, taken(c), node_id_idx);
            closing(a, c, slots, number(s, t))
        },
        None => {
            let (a, slots) = arguments(n, s, c, args, taken(c), node_id_idx);
            closing(a, c, slots, 0)
        },
    }
}

/// The code of a call: of a module function in line or as an effect, of a
/// function by its number, or of a closure.
pub open spec fn call(n: Globals, s: Draft, e: CExpr, tail: bool) -> Draft
    decreases e, 1nat,
{
    match e {
        CExpr::Call { node_id, callee, args } => {
            let id = Constant::NodeId(call_id(n, node_id));
            let node_id_idx = number(s, id);
            let s = interned(s, id);
            let arity = args@.len() as u16;
            match module_call(n, *callee) {
                Some((module, op)) => match combinator(module, op) {
                    Some(c) => in_line(n, s, c, args@, node_id_idx),
                    None => effect(
                        exprs(n, s, args@, args@.len()),
                        module,
                        op,
                        arity,
                        node_id_idx,
                    ),
                },
                None => match *callee {
                    CExpr::Var { name } => if n.functions.contains_key(name@) {
                        let a = exprs(n, s, args@, args@.len());
                        let fn_id = n.functions[name@];
                        emitted(
                            a,
                            if tail {
                                Op::TailCall { fn_id, arity, node_id_idx }
                            } else {
                                Op::Call { fn_id, arity, node_id_idx }
                            },
                        )
                    } else {
                        let a = variable(n, s, name@);
                        emitted(
                            exprs(n, a, args@, args@.len()),
                            Op::CallClosure { arity, node_id_idx },
                        )
                    },
                    _ => {
                        let a = expr(n, s, *callee, false);
                        emitted(
                            exprs(n, a, args@, args@.len()),
                            Op::CallClosure { arity, node_id_idx },
                        )
                    },
                },
            }
        },
        _ => s,
    }
}

fn pick(t: NumTy, int_op: Op, float_op: Op, num_op: Op) -> (op: Op)
    ensures
        op == typed(t, int_op, float_op, num_op),
{
    match t {
        NumTy::Int => int_op,
        NumTy::Float => float_op,
        NumTy::Unknown => num_op,
    }
}

impl<'a> FnCompiler<'a> {
    /// Compiles a variable.
    pub fn compile_var(&mut self, n: &Names, name: &str)
        requires
            old(self).wf(),
        ensures
            final(self).wf(),
            final(self)@ == variable(n@, old(self)@, name@),
    {
        if let Some(slot) = get_name_id(&self.locals, name) {
            self.emit(Op::LoadLocal(slot as u16));
        } else if let Some(fn_id) = get_name_id(n.functions, name) {
            self.emit(Op::MakeClosure { fn_id, capture_count: 0 });
        } else {
            self.fail(CompileError::UnknownVariable { name: name.to_owned() });
        }
    }

    pub fn compile_unop(&mut self, op: &str)
        requires
            old(self).wf(),
        ensures
            final(self).wf(),
            final(self)@ == unary(old(self)@, op@),
    {
        if same_text(op, "-") {
            self.emit(Op::NumNeg);
        } else if same_text(op, "not") {
            self.emit(Op::BoolNot);
        } else {
            self.fail(CompileError::UnknownUnary { op: op.to_owned() });
        }
    }

    /// Exchanges the two values on top of the stack.
    pub fn emit_swap_top2(&mut self)
        requires
            old(self).wf(),
        ensures
            final(self).wf(),
            final(self)@ == swapped(old(self)@),
    {
        let a: u16 = self.alloc_local("__swap_a");
        let b: u16 = self.alloc_local("__swap_b");
        let mut code: Vec<Op> = Vec::new();
        code.push(Op::StoreLocal(b));
        code.push(Op::StoreLocal(a));
        code.push(Op::LoadLocal(b));
        code.push(Op::LoadLocal(a));
        self.emit_all(code);
    }

    /// Compiles a binary operator whose operands are on the stack.
    pub fn compile_binop(&mut self, op: &str, t: NumTy)
        requires
            old(self).wf(),
        ensures
            final(self).wf(),
            final(self)@ == binary(old(self)@, op@, t),
    {
        if same_text(op, "+") {
            self.emit(pick(t, Op::IntAdd, Op::FloatAdd, Op::NumAdd));
        } else if same_text(op, "-") {
            self.emit(pick(t, Op::IntSub, Op::FloatSub, Op::NumSub));
        } else if same_text(op, "*") {
            self.emit(pick(t, Op::IntMul, Op::FloatMul, Op::NumMul));
        } else if same_text(op, "/") {
            self.emit(pick(t, Op::IntDiv, Op::FloatDiv, Op::NumDiv));
        } else if same_text(op, "%") {
            self.emit(pick(t, Op::IntMod, Op::NumMod, Op::NumMod));
        } else if same_text(op, "==") {
            self.emit(pick(t, Op::IntEq, Op::FloatEq, Op::NumEq));
        } else if same_text(op, "!=") {
            self.emit(pick(t, Op::IntEq, Op::FloatEq, Op::NumEq));
            self.emit(Op::BoolNot);
        } else if same_text(op, "<") {
            self.emit(pick(t, Op::IntLt, Op::FloatLt, Op::NumLt));
        } else if same_text(op, "<=") {
            self.emit(pick(t, Op::IntLe, Op::FloatLe, Op::NumLe));
        } else if same_text(op, ">") {
            self.emit_swap_top2();
            self.emit(pick(t, Op::IntLt, Op::FloatLt, Op::NumLt));
        } else if same_text(op, ">=") {
            self.emit_swap_top2();
            self.emit(pick(t, Op::IntLe, Op::FloatLe, Op::NumLe));
        } else if same_text(op, "and") {
            self.emit(Op::BoolAnd);
        } else if same_text(op, "or") {
            self.emit(Op::BoolOr);
        } else {
            self.fail(CompileError::UnknownBinary { op: op.to_owned() });
        }
    }

    /// The free names of a lambda that are locals here.
    fn captures(&self, params: &Vec<Param>, body: &CExpr) -> (captures: Vec<String>)
        ensures
            texts(captures@) == captured(self@, params@, *body),
    {
        let mut bound: Vec<String> = Vec::new();
        let mut frees: Vec<String> = Vec::new();
        assert(names(bound@) =~= Set::empty());
        assert(texts(frees@) =~= Seq::empty());
        bind_params(params, &mut bound);
        free_vars(body, &mut bound, &mut frees);
        let ghost all = texts(frees@);
        let ghost known = |n: Seq<char>| self@.locals.contains_key(n);
        let mut out: Vec<String> = Vec::new();
        let mut i: usize = 0;
        proof {
            reveal(Seq::filter);
        }
        assert(texts(out@) =~= all.take(0).filter(known));
        while i < frees.len()
            invariant
                i <= frees.len(),
                all == texts(frees@),
                known == (|n: Seq<char>| self@.locals.contains_key(n)),
                texts(out@) == all.take(i as int).filter(known),
            decreases frees.len() - i,
        {
            let ghost o = out@;
            proof {
                reveal(Seq::filter);
                assert(all.take(i + 1).drop_last() =~= all.take(i as int));
            }
            if get_name_id(&self.locals, frees[i].as_str()).is_some() {
                let copy = frees[i].clone();
                out.push(copy);
                assert(texts(out@) =~= texts(o).push(all[i as int]));
            }
            i = i + 1;
        }
        assert(all.take(i as int) =~= all);
        out
    }

    /// Makes a closure and queues its body.
    pub fn compile_lambda(&mut self, params: &'a Vec<Param>, body: &'a CExpr)
        requires
            old(self).wf(),
        ensures
            final(self).wf(),
            final(self)@ == lambda(old(self)@, params@, *body),
    {
        let ghost s0 = self@;
        let captures = self.captures(params, body);
        let ghost names = texts(captures@);
        let fn_id = self.functions.len() as u32;
        let mut name = "__lambda_".to_owned();
        append_decimal(&mut name, fn_id as u128);
        let arity = (captures.len() as u128 + params.len() as u128) as u16;
        let stub = Function {
            name,
            arity,
            locals_count: 0,
            code: Vec::new(),
            effects: Vec::new(),
            body_hash: ZERO_BODY_HASH,
            refinements: Vec::new(),
            field_ic_sites: 0,
        };
        let ghost fs = self.functions@;
        let ghost ps = self.pending_lambdas@;
        assert(stub@ =~= lambda_stub(fn_id, arity));
        self.functions.push(stub);
        assert(function_views(self.functions@) =~= function_views(fs).push(
            lambda_stub(fn_id, arity),
        ));
        let ghost s1 = self@;
        let mut i: usize = 0;
        assert(self@.code =~= s1.code + loads(s0, names).take(0));
        while i < captures.len()
            invariant
                self.wf(),
                i <= captures.len(),
                names == texts(captures@),
                s1.locals == s0.locals,
                self@ == (Draft { code: s1.code + loads(s0, names).take(i as int), ..s1 }),
                forall|j: int|
                    0 <= j < names.len() ==> s0.locals.contains_key(#[trigger] names[j]),
            decreases captures.len() - i,
        {
            assert(s0.locals.contains_key(names[i as int]));
            if let Some(slot) = get_name_id(&self.locals, captures[i].as_str()) {
                let ghost before = self@.code;
                self.emit(Op::LoadLocal(slot as u16));
                assert(self@.code =~= s1.code + loads(s0, names).take(i + 1));
            }
            i = i + 1;
        }
        assert(loads(s0, names).take(i as int) =~= loads(s0, names));
        self.emit(Op::MakeClosure { fn_id, capture_count: captures.len() as u16 });
        let job = PendingLambda { fn_id, capture_names: captures, params, body };
        self.pending_lambdas.push(job);
        assert(jobs(self.pending_lambdas@) =~= jobs(ps).push(job@));
        assert(self@ =~= lambda(s0, params@, *body));
    }

    /// Binds the value on the stack to a name.
    fn bind_local(&mut self, name: &String, t: NumTy)
        requires
            old(self).wf(),
        ensures
            final(self).wf(),
            final(self)@ == bound_to(old(self)@, name@, t),
    {
        self.store_local(name.as_str());
        insert_num_type(&mut self.local_types, name.clone(), t);
    }

    /// Compiles an expression.
    pub fn compile_expr(&mut self, n: &Names, e: &'a CExpr, tail: bool)
        requires
            old(self).wf(),
        ensures
            final(self).wf(),
            final(self)@ == expr(n@, old(self)@, *e, tail),
        decreases e, 2nat,
    {
        match e {
            CExpr::Literal { value } => {
                self.compile_lit(value);
            },
            CExpr::Var { name } => {
                self.compile_var(n, name.as_str());
            },
            CExpr::Let { name, ty, value, body } => {
                let t = match ty {
                    Some(ty) => classify_type_expr(ty),
                    None => classify_expr(&self.local_types, &self.local_record_field_types, value),
                };
                if let CExpr::RecordLit { fields } = &**value {
                    let m = classify_fields(
                        &self.local_types,
                        &self.local_record_field_types,
                        fields,
                    );
                    insert_record_types(&mut self.local_record_field_types, name.clone(), m);
                }
                self.compile_expr(n, value, false);
                self.bind_local(name, t);
                self.compile_expr(n, body, tail);
            },
            CExpr::Block { statements, result } => {
                self.compile_statements(n, statements);
                self.compile_expr(n, result, tail);
            },
            CExpr::Call { .. } => {
                self.compile_call(n, e, tail);
            },
            CExpr::Constructor { name, args } => {
                self.compile_exprs(n, args);
                let name_idx: u32 = self.variant(name.as_str());
                self.emit(Op::MakeVariant { name_idx, arity: args.len() as u16 });
            },
            CExpr::Match { scrutinee, arms } => {
                self.compile_expr(n, scrutinee, false);
                let slot: u16 = self.store_local("__scrut");
                let ends = self.compile_arms(n, arms, tail, slot);
                let message: u32 = self.text("non-exhaustive match");
                self.emit(Op::Panic(message));
                self.patch(&ends);
            },
            CExpr::RecordLit { fields } => {
                let ids = self.compile_record_fields(n, fields);
                let field_count = ids.len() as u16;
                let shape_idx: u32 = self.pool.record_shape(ids);
                self.emit(Op::MakeRecord { shape_idx, field_count });
            },
            CExpr::TupleLit { items } => {
                self.compile_exprs(n, items);
                self.emit(Op::MakeTuple(items.len() as u16));
            },
            CExpr::ListLit { items } => {
                self.compile_exprs(n, items);
                self.emit(Op::MakeList(items.len() as u32));
            },
            CExpr::FieldAccess { value, field } => {
                self.compile_expr(n, value, false);
                self.read_field(field.as_str());
            },
            CExpr::BinOp { op, lhs, rhs } => {
                let a = classify_expr(&self.local_types, &self.local_record_field_types, lhs);
                let b = classify_expr(&self.local_types, &self.local_record_field_types, rhs);
                self.compile_expr(n, lhs, false);
                self.compile_expr(n, rhs, false);
                self.compile_binop(op.as_str(), common_type(a, b));
            },
            CExpr::UnaryOp { op, expr } => {
                self.compile_expr(n, expr, false);
                self.compile_unop(op.as_str());
            },
            CExpr::Lambda { params, body } => {
                self.compile_lambda(params, body);
            },
            CExpr::Return { value } => {
                self.compile_expr(n, value, true);
                self.emit(Op::Return);
            },
        }
    }

    fn compile_exprs(&mut self, n: &Names, xs: &'a Vec<CExpr>)
        requires
            old(self).wf(),
        ensures
            final(self).wf(),
            final(self)@ == exprs(n@, old(self)@, xs@, xs@.len()),
        decreases xs, 0nat,
    {
        let ghost s0 = self@;
        let mut k: usize = 0;
        while k < xs.len()
            invariant
                self.wf(),
                k <= xs.len(),
                self@ == exprs(n@, s0, xs@, k as nat),
            decreases xs.len() - k,
        {
            self.compile_expr(n, &xs[k], false);
            k = k + 1;
        }
    }

    fn compile_statements(&mut self, n: &Names, xs: &'a Vec<CExpr>)
        requires
            old(self).wf(),
        ensures
            final(self).wf(),
            final(self)@ == statements_of(n@, old(self)@, xs@, xs@.len()),
        decreases xs, 0nat,
    {
        let ghost s0 = self@;
        let mut k: usize = 0;
        while k < xs.len()
            invariant
                self.wf(),
                k <= xs.len(),
                self@ == statements_of(n@, s0, xs@, k as nat),
            decreases xs.len() - k,
        {
            self.compile_expr(n, &xs[k], false);
            self.emit(Op::Pop);
            k = k + 1;
        }
    }

    fn compile_record_fields(&mut self, n: &Names, fs: &'a Vec<RecordField>) -> (ids: Vec<u32>)
        requires
            old(self).wf(),
        ensures
            final(self).wf(),
            (final(self)@, ids@) == record_fields(n@, old(self)@, fs@, fs@.len()),
        decreases fs, 0nat,
    {
        let ghost s0 = self@;
        let mut ids: Vec<u32> = Vec::new();
        let mut k: usize = 0;
        while k < fs.len()
            invariant
                self.wf(),
                k <= fs.len(),
                (self@, ids@) == record_fields(n@, s0, fs@, k as nat),
            decreases fs.len() - k,
        {
            let f = &fs[k];
            assert(decreases_to!(fs => fs@[k as int]));
            self.compile_expr(n, &f.value, false);
            let id: u32 = self.pool.field(f.name.as_str());
            ids.push(id);
            k = k + 1;
        }
        ids
    }

    fn compile_arms(&mut self, n: &Names, arms: &'a Vec<Arm>, tail: bool, scrutinee: u16) -> (ends:
        Vec<usize>)
        requires
            old(self).wf(),
        ensures
            final(self).wf(),
            (final(self)@, places(ends@)) == match_arms(
                n@,
                old(self)@,
                arms@,
                arms@.len(),
                tail,
                scrutinee,
            ),
        decreases arms, 0nat,
    {
        let ghost s0 = self@;
        let mut ends: Vec<usize> = Vec::new();
        let mut k: usize = 0;
        assert(places(ends@) =~= Seq::empty());
        while k < arms.len()
            invariant
                self.wf(),
                k <= arms.len(),
                (self@, places(ends@)) == match_arms(n@, s0, arms@, k as nat, tail, scrutinee),
            decreases arms.len() - k,
        {
            let arm = &arms[k];
            assert(decreases_to!(arms => arms@[k as int]));
            let ghost e0 = ends@;
            let next_local: u16 = self.next_local;
            let locals = copy_name_ids(&self.locals);
            self.emit(Op::LoadLocal(scrutinee));
            let mut fails: Vec<usize> = Vec::new();
            assert(places(fails@) =~= Seq::empty());
            self.compile_pattern_test(&arm.pattern, &mut fails);
            self.compile_expr(n, &arm.body, tail);
            ends.push(self.code.len());
            assert(places(ends@) =~= places(e0).push(self@.code.len()));
            self.emit(Op::Jump(0));
            self.patch(&fails);
            self.next_local = next_local;
            self.locals = locals;
            k = k + 1;
        }
        ends
    }

    /// Compiles the arguments of a combinator. Gives the locals they are in.
    fn compile_arguments(
        &mut self,
        n: &Names,
        c: Combinator,
        args: &'a Vec<CExpr>,
        node_id_idx: u32,
    ) -> (slots: Vec<u16>)
        requires
            old(self).wf(),
        ensures
            final(self).wf(),
            (final(self)@, slots@) == arguments(
                n@,
                old(self)@,
                c,
                args@,
                taken(c),
                node_id_idx,
            ),
            slots@.len() == taken(c),
        decreases args, 0nat,
    {
        let ghost s0 = self@;
        let count: usize = argument_count(c);
        let mut slots: Vec<u16> = Vec::new();
        let mut k: usize = 0;
        while k < count
            invariant
                self.wf(),
                k <= count,
                count == taken(c),
                slots@.len() == k,
                (self@, slots@) == arguments(n@, s0, c, args@, k as nat, node_id_idx),
            decreases count - k,
        {
            if k >= args.len() {
                self.fail(CompileError::MissingArgument { position: k });
                slots.push(0);
            } else {
                self.compile_expr(n, &args[k], false);
                if c == Combinator::MapFold && k == 0 {
                    self.emit_entries(node_id_idx);
                }
                match keeper_of(c, k) {
                    Some(name) => {
                        let slot: u16 = self.store_local(name);
                        slots.push(slot);
                    },
                    None => {
                        slots.push(0);
                    },
                }
            }
            k = k + 1;
        }
        slots
    }

    fn emit_entries(&mut self, node_id_idx: u32)
        requires
            old(self).wf(),
        ensures
            final(self).wf(),
            final(self)@ == entries(old(self)@, node_id_idx),
    {
        let kind_idx: u32 = self.text("map");
        let op_idx: u32 = self.text("entries");
        self.emit(Op::EffectCall { kind_idx, op_idx, arity: 1, node_id_idx });
    }

    /// Compiles a call.
    pub fn compile_call(&mut self, n: &Names, e: &'a CExpr, tail: bool)
        requires
            old(self).wf(),
        ensures
            final(self).wf(),
            final(self)@ == call(n@, old(self)@, *e, tail),
        decreases e, 1nat,
    {
        if let CExpr::Call { node_id, callee, args } = e {
            let node_id_idx: u32 = match node_id {
                Some(id) => if n.traced {
                    self.node_id(id.as_str())
                } else {
                    self.node_id("n_?")
                },
                None => self.node_id("n_?"),
            };
            let arity = args.len() as u16;
            if let CExpr::FieldAccess { value, field } = &**callee {
                if let CExpr::Var { name } = &**value {
                    if let Some(module) = get_alias(n.modules, name.as_str()) {
                        self.compile_module_call(n, module, field, args, node_id_idx);
                        return ;
                    }
                }
            }
            if let CExpr::Var { name } = &**callee {
                if let Some(fn_id) = get_name_id(n.functions, name.as_str()) {
                    self.compile_exprs(n, args);
                    if tail {
                        self.emit(Op::TailCall { fn_id, arity, node_id_idx });
                    } else {
                        self.emit(Op::Call { fn_id, arity, node_id_idx });
                    }
                    return ;
                }
                self.compile_var(n, name.as_str());
            } else {
                self.compile_expr(n, callee, false);
            }
            self.compile_exprs(n, args);
            self.emit(Op::CallClosure { arity, node_id_idx });
        }
    }

    /// Compiles a combinator in line, if the name stands for one.
    pub fn try_emit_higher_order(
        &mut self,
        n: &Names,
        module: &str,
        op: &str,
        args: &'a Vec<CExpr>,
        node_id_idx: u32,
    ) -> (done: bool)
        requires
            old(self).wf(),
        ensures
            final(self).wf(),
            done <==> combinator(module@, op@) is Some,
            !done ==> final(self)@ == old(self)@,
            done ==> final(self)@ == in_line(
                n@,
                old(self)@,
                combinator(module@, op@)->0,
                args@,
                node_id_idx,
            ),
        decreases args, 1nat,
    {
        match find_combinator(module, op) {
            Some(c) => {
                let tag: u32 = match tag_of(c) {
                    Some(tag) => self.variant(tag),
                    None => 0,
                };
                let slots = self.compile_arguments(n, c, args, node_id_idx);
                self.emit_closing(c, &slots, tag);
                true
            },
            None => false,
        }
    }

    fn compile_module_call(
        &mut self,
        n: &Names,
        module: &String,
        op: &String,
        args: &'a Vec<CExpr>,
        node_id_idx: u32,
    )
        requires
            old(self).wf(),
        ensures
            final(self).wf(),
            final(self)@ == (match combinator(module@, op@) {
                Some(c) => in_line(n@, old(self)@, c, args@, node_id_idx),
                None => effect(
                    exprs(n@, old(self)@, args@, args@.len()),
                    module@,
                    op@,
                    args@.len() as u16,
                    node_id_idx,
                ),
            }),
        decreases args, 2nat,
    {
        if !self.try_emit_higher_order(n, module.as_str(), op.as_str(), args, node_id_idx) {
            self.compile_exprs(n, args);
            let kind_idx: u32 = self.text(module.as_str());
            let op_idx: u32 = self.text(op.as_str());
            self.emit(Op::EffectCall { kind_idx, op_idx, arity: args.len() as u16, node_id_idx });
        }
    }
}

} // verus!
