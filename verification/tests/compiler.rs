use std::sync::Arc;

use lex_bytecode::ast::{
    Arm, CExpr, CLit, Effect, EffectArgExpr, FnDecl, Import, Param, Pattern, PatternField,
    RecordField, Stage, TypeDecl, TypeExpr, TypeField,
};
use lex_bytecode::compiler::assembly::{compile_program_with, Passes};
use lex_bytecode::compiler::free_vars::free_vars;
use lex_bytecode::compiler::pool::ConstPool;
use lex_bytecode::compiler::{compile_program, CompileError};
use lex_bytecode::op::{Const, Op};
use lex_bytecode::program::{compute_body_hash, EffectArg, Program, ZERO_BODY_HASH};

fn named(name: &str) -> TypeExpr {
    TypeExpr::Named { name: name.into(), args: vec![] }
}

fn var(name: &str) -> CExpr {
    CExpr::Var { name: name.into() }
}

fn num(value: i64) -> CExpr {
    CExpr::Literal { value: CLit::Int { value } }
}

fn text(value: &str) -> CExpr {
    CExpr::Literal { value: CLit::Str { value: value.into() } }
}

fn bin(op: &str, lhs: CExpr, rhs: CExpr) -> CExpr {
    CExpr::BinOp { op: op.into(), lhs: Box::new(lhs), rhs: Box::new(rhs) }
}

fn field(value: CExpr, field: &str) -> CExpr {
    CExpr::FieldAccess { value: Box::new(value), field: field.into() }
}

fn call(callee: CExpr, args: Vec<CExpr>) -> CExpr {
    CExpr::Call { node_id: None, callee: Box::new(callee), args }
}

fn param(name: &str, ty: TypeExpr) -> Param {
    Param { name: name.into(), ty }
}

fn lambda(params: &[&str], body: CExpr) -> CExpr {
    let params = params.iter().map(|p| param(p, named("T"))).collect();
    CExpr::Lambda { params, body: Box::new(body) }
}

fn function(name: &str, params: Vec<Param>, body: CExpr) -> Stage {
    Stage::FnDecl(FnDecl { name: name.into(), params, effects: vec![], body })
}

fn import(reference: &str, alias: &str) -> Stage {
    Stage::Import(Import { reference: reference.into(), alias: alias.into() })
}

/// Compiles without any optional pass, so that the code is the plain one but
/// for fusion.
fn plain(stages: &[Stage]) -> Program {
    let passes = Passes { stack_records: false, arena_records: false, take_locals: false };
    compile_program_with(stages, passes).unwrap()
}

fn code(p: &Program, name: &str) -> Vec<Op> {
    let id = p.lookup(name).unwrap();
    p.functions[id as usize].code.clone()
}

fn int_params(names: &[&str]) -> Vec<Param> {
    names.iter().map(|n| param(n, named("Int"))).collect()
}

#[test]
fn literals_go_through_the_pool() {
    let body = CExpr::TupleLit {
        items: vec![
            num(7),
            num(7),
            text("a"),
            text("a"),
            CExpr::Literal { value: CLit::Bool { value: true } },
            CExpr::Literal { value: CLit::Bool { value: true } },
            CExpr::Literal { value: CLit::Unit },
            CExpr::Literal { value: CLit::Unit },
            CExpr::Literal { value: CLit::Float { value: "1.5".into(), bits: 1.5f64.to_bits() } },
            CExpr::Literal { value: CLit::Bytes { value: "00ff".into() } },
        ],
    };
    let p = plain(&[function("f", vec![], body)]);
    assert_eq!(
        p.constants,
        vec![
            Const::Int(7),
            Const::Str("a".into()),
            Const::Bool(true),
            Const::Unit,
            Const::Unit,
            Const::Float(1.5f64.to_bits()),
            Const::Bytes(vec![]),
        ],
    );
    assert_eq!(
        code(&p, "f"),
        vec![
            Op::PushConst(0),
            Op::PushConst(0),
            Op::PushConst(1),
            Op::PushConst(1),
            Op::PushConst(2),
            Op::PushConst(2),
            Op::PushConst(3),
            Op::PushConst(4),
            Op::PushConst(5),
            Op::PushConst(6),
            Op::MakeTuple(10),
            Op::Return,
        ],
    );
}

#[test]
fn pool_numbers_are_stable() {
    let mut pool = ConstPool::new();
    let a = pool.field("x");
    let b = pool.variant("x");
    let c = pool.text("x");
    let d = pool.node_id("x");
    assert_eq!((a, b, c, d), (0, 1, 2, 3));
    assert_eq!(pool.integer(5), 4);
    assert_eq!(pool.truth(false), 5);
    assert_eq!(pool.truth(true), 6);
    assert_eq!(pool.float(0), 7);
    assert_eq!(pool.float(0), 8);
    assert_eq!(pool.unit(), 9);
    assert_eq!(pool.bytes(), 10);
    assert_eq!(pool.record_shape(vec![0, 4]), 0);
    assert_eq!(pool.record_shape(vec![4, 0]), 1);
    assert_eq!(pool.record_shape(vec![0, 4]), 0);
    assert_eq!(pool.field("x"), 0);
    assert_eq!(pool.variant("x"), 1);
    assert_eq!(pool.text("x"), 2);
    assert_eq!(pool.node_id("x"), 3);
    assert_eq!(pool.integer(5), 4);
    assert_eq!(pool.truth(true), 6);
    assert_eq!(pool.consts().len(), 11);
    let (constants, shapes) = pool.finish();
    assert_eq!(constants[1], Const::VariantName("x".into()));
    assert_eq!(shapes, vec![vec![0, 4], vec![4, 0]]);
}

#[test]
fn typed_operands_get_typed_ops() {
    let p = plain(&[
        function("ints", int_params(&["a", "b"]), bin("/", var("a"), var("b"))),
        function(
            "floats",
            vec![param("a", named("Float")), param("b", named("Float"))],
            bin("+", var("a"), var("b")),
        ),
        function(
            "mixed",
            vec![param("a", named("Float")), param("b", named("Int"))],
            bin("%", var("a"), var("b")),
        ),
        function("unlike", int_params(&["a", "b"]), bin("!=", var("a"), var("b"))),
    ]);
    let two = |last: &[Op]| {
        let mut v = vec![Op::LoadLocal(0), Op::LoadLocal(1)];
        v.extend_from_slice(last);
        v.push(Op::Return);
        v
    };
    assert_eq!(code(&p, "ints"), two(&[Op::IntDiv]));
    assert_eq!(code(&p, "floats"), two(&[Op::FloatAdd]));
    assert_eq!(code(&p, "mixed"), two(&[Op::NumMod]));
    assert_eq!(code(&p, "unlike"), two(&[Op::IntEq, Op::BoolNot]));
}

#[test]
fn every_operator_has_its_op() {
    let cases: Vec<(&str, Vec<Op>)> = vec![
        ("+", vec![Op::NumAdd]),
        ("-", vec![Op::NumSub]),
        ("*", vec![Op::NumMul]),
        ("/", vec![Op::NumDiv]),
        ("%", vec![Op::NumMod]),
        ("==", vec![Op::NumEq]),
        ("!=", vec![Op::NumEq, Op::BoolNot]),
        ("<", vec![Op::NumLt]),
        ("<=", vec![Op::NumLe]),
        ("and", vec![Op::BoolAnd]),
        ("or", vec![Op::BoolOr]),
    ];
    for (op, expected) in cases {
        let params = vec![param("a", named("T")), param("b", named("T"))];
        let p = plain(&[function("f", params, bin(op, var("a"), var("b")))]);
        let got = code(&p, "f");
        assert_eq!(got[2..got.len() - 1].to_vec(), expected, "{op}");
    }
}

#[test]
fn greater_than_swaps_its_operands() {
    let p = plain(&[function("f", int_params(&["a", "b"]), bin(">", var("a"), var("b")))]);
    assert_eq!(
        code(&p, "f"),
        vec![
            Op::LoadLocal(0),
            Op::LoadLocal(1),
            Op::StoreLocal(3),
            Op::StoreLocal(2),
            Op::LoadLocal(3),
            Op::LoadLocal(2),
            Op::IntLt,
            Op::Return,
        ],
    );
    assert_eq!(p.functions[0].locals_count, 4);
}

#[test]
fn record_types_of_parameters_are_known() {
    let point = TypeExpr::Record {
        fields: vec![
            TypeField { name: "x".into(), ty: named("Int") },
            TypeField { name: "y".into(), ty: named("Int") },
        ],
    };
    let sum = || bin("+", field(var("r"), "x"), field(var("r"), "y"));
    let p = plain(&[
        Stage::TypeDecl(TypeDecl { name: "P".into(), params: vec![], definition: point }),
        Stage::TypeDecl(TypeDecl { name: "Q".into(), params: vec![], definition: named("P") }),
        Stage::TypeDecl(TypeDecl { name: "Loop".into(), params: vec![],
            definition: named("Loop") }),
        function("f", vec![param("r", named("Q"))], sum()),
        function("g", vec![param("r", named("Loop"))], sum()),
    ]);
    assert_eq!(
        code(&p, "f"),
        vec![
            Op::LoadLocalGetField { local_idx: 0, name_idx: 0, site_idx: 0 },
            Op::GetField { name_idx: 0, site_idx: 0 },
            Op::LoadLocalGetFieldAdd { local_idx: 0, name_idx: 1, site_idx: 1 },
            Op::GetField { name_idx: 1, site_idx: 1 },
            Op::IntAdd,
            Op::Return,
        ],
    );
    assert_eq!(code(&p, "g")[4], Op::NumAdd);
    assert_eq!(p.functions[0].field_ic_sites, 2);
}

#[test]
fn record_literals_share_their_shapes() {
    let rec = |a: &str, b: &str| CExpr::RecordLit {
        fields: vec![
            RecordField { name: a.into(), value: num(1) },
            RecordField { name: b.into(), value: num(2) },
        ],
    };
    let body = CExpr::ListLit { items: vec![rec("a", "b"), rec("a", "b"), rec("b", "a")] };
    let p = plain(&[function("f", vec![], body)]);
    assert_eq!(p.record_shapes, vec![vec![1, 3], vec![3, 1]]);
    let shapes: Vec<u32> = code(&p, "f")
        .into_iter()
        .filter_map(|op| match op {
            Op::MakeRecord { shape_idx, .. } => Some(shape_idx),
            _ => None,
        })
        .collect();
    assert_eq!(shapes, vec![0, 0, 1]);
}

#[test]
fn match_tests_arms_in_order() {
    let body = CExpr::Match {
        scrutinee: Box::new(var("x")),
        arms: vec![
            Arm {
                pattern: Pattern::PConstructor {
                    name: "Some".into(),
                    args: vec![Pattern::PVar { name: "v".into() }],
                },
                body: var("v"),
            },
            Arm { pattern: Pattern::PWild, body: num(0) },
        ],
    };
    let p = plain(&[function("f", vec![param("x", named("T"))], body)]);
    assert_eq!(
        p.constants,
        vec![
            Const::VariantName("Some".into()),
            Const::Int(0),
            Const::Str("non-exhaustive match".into()),
        ],
    );
    assert_eq!(
        code(&p, "f"),
        vec![
            Op::LoadLocal(0),
            Op::StoreLocal(1),
            Op::LoadLocal(1),
            Op::Dup,
            Op::TestVariant(0),
            Op::JumpIf(2),
            Op::Pop,
            Op::Jump(4),
            Op::GetVariantArg(0),
            Op::StoreLocal(2),
            Op::LoadLocal(2),
            Op::Jump(5),
            Op::LoadLocal(1),
            Op::Pop,
            Op::PushConst(1),
            Op::Jump(1),
            Op::Panic(2),
            Op::Return,
        ],
    );
    // The local of the first arm is free again in the second one.
    assert_eq!(p.functions[0].locals_count, 3);
}

#[test]
fn literal_patterns_compare_by_type() {
    let lit = |l: CLit| Arm { pattern: Pattern::PLiteral { value: l }, body: num(0) };
    let body = CExpr::Match {
        scrutinee: Box::new(var("x")),
        arms: vec![
            lit(CLit::Str { value: "s".into() }),
            lit(CLit::Bytes { value: "".into() }),
            lit(CLit::Int { value: 3 }),
            lit(CLit::Float { value: "1".into(), bits: 1f64.to_bits() }),
            lit(CLit::Bool { value: true }),
        ],
    };
    let p = plain(&[function("f", vec![param("x", named("T"))], body)]);
    let tests: Vec<Op> = code(&p, "f")
        .into_iter()
        .filter(|op| {
            matches!(op, Op::StrEq | Op::BytesEq | Op::IntEq | Op::FloatEq | Op::NumEq)
        })
        .collect();
    assert_eq!(tests, vec![Op::StrEq, Op::BytesEq, Op::IntEq, Op::FloatEq, Op::NumEq]);
}

#[test]
fn nested_patterns_go_through_locals() {
    let body = CExpr::Match {
        scrutinee: Box::new(var("x")),
        arms: vec![Arm {
            pattern: Pattern::PTuple {
                items: vec![
                    Pattern::PRecord {
                        fields: vec![PatternField {
                            name: "k".into(),
                            pattern: Pattern::PVar { name: "v".into() },
                        }],
                    },
                    Pattern::PConstructor {
                        name: "Pair".into(),
                        args: vec![Pattern::PWild, Pattern::PWild],
                    },
                ],
            },
            body: var("v"),
        }],
    };
    let p = plain(&[function("f", vec![param("x", named("T"))], body)]);
    assert_eq!(
        code(&p, "f"),
        vec![
            Op::LoadLocal(0),
            Op::StoreLocal(1),
            Op::LoadLocal(1),
            Op::StoreLocal(2),
            Op::LoadLocal(2),
            Op::GetElem(0),
            Op::StoreLocal(3),
            Op::LoadLocalGetField { local_idx: 3, name_idx: 0, site_idx: 0 },
            Op::GetField { name_idx: 0, site_idx: 0 },
            Op::StoreLocal(4),
            Op::LoadLocal(2),
            Op::GetElem(1),
            Op::Dup,
            Op::TestVariant(1),
            Op::JumpIf(2),
            Op::Pop,
            Op::Jump(9),
            Op::StoreLocal(5),
            Op::LoadLocal(5),
            Op::GetVariantArg(0),
            Op::Pop,
            Op::LoadLocal(5),
            Op::GetVariantArg(1),
            Op::Pop,
            Op::LoadLocal(4),
            Op::Jump(1),
            Op::Panic(2),
            Op::Return,
        ],
    );
}

#[test]
fn calls_are_direct_tail_or_through_closures() {
    let p = plain(&[
        function("g", int_params(&["x"]), var("x")),
        function("tail", vec![], call(var("g"), vec![num(1)])),
        function("inner", vec![], bin("+", call(var("g"), vec![num(1)]), num(2))),
        function("value", vec![], var("g")),
        function("local", vec![param("h", named("T"))], call(var("h"), vec![num(1)])),
        function("direct", vec![], call(lambda(&["x"], var("x")), vec![num(1)])),
    ]);
    let node = 0;
    assert_eq!(p.constants[0], Const::NodeId("n_?".into()));
    assert_eq!(
        code(&p, "tail"),
        vec![
            Op::PushConst(1),
            Op::TailCall { fn_id: 0, arity: 1, node_id_idx: node },
            Op::Return,
        ],
    );
    assert_eq!(
        code(&p, "inner")[1],
        Op::Call { fn_id: 0, arity: 1, node_id_idx: node },
    );
    assert_eq!(
        code(&p, "value"),
        vec![Op::MakeClosure { fn_id: 0, capture_count: 0 }, Op::Return],
    );
    assert_eq!(
        code(&p, "local"),
        vec![
            Op::LoadLocal(0),
            Op::PushConst(1),
            Op::CallClosure { arity: 1, node_id_idx: node },
            Op::Return,
        ],
    );
    assert_eq!(
        code(&p, "direct"),
        vec![
            Op::MakeClosure { fn_id: 6, capture_count: 0 },
            Op::PushConst(1),
            Op::CallClosure { arity: 1, node_id_idx: node },
            Op::Return,
        ],
    );
    assert_eq!(p.functions[6].name, "__lambda_6");
}

#[test]
fn call_sites_carry_their_node_ids() {
    let marked = |id: &str| CExpr::Call {
        node_id: Some(id.into()),
        callee: Box::new(var("f")),
        args: vec![],
    };
    let p = plain(&[
        function("f", vec![], num(1)),
        function("g", vec![], bin("+", marked("n_0.1"), num(1))),
        function("h", vec![], lambda(&[], marked("n_0.2"))),
    ]);
    assert!(p.constants.contains(&Const::NodeId("n_0.1".into())));
    assert!(p.constants.contains(&Const::NodeId("n_?".into())));
    assert!(!p.constants.contains(&Const::NodeId("n_0.2".into())));
}

#[test]
fn lambdas_capture_the_locals_they_mention() {
    // x and g are locals here; g is a function as well, and the local wins.
    let inner = lambda(&["y"], bin("+", bin("+", var("x"), var("y")), var("x")));
    let body = CExpr::Let {
        name: "g".into(),
        ty: None,
        value: Box::new(num(5)),
        body: Box::new(CExpr::TupleLit { items: vec![inner, lambda(&[], var("g"))] }),
    };
    let p = plain(&[
        function("g", vec![], num(1)),
        function("f", int_params(&["x"]), body),
    ]);
    let f = code(&p, "f");
    assert_eq!(
        f[2..7].to_vec(),
        vec![
            Op::LoadLocal(0),
            Op::MakeClosure { fn_id: 2, capture_count: 1 },
            Op::LoadLocal(1),
            Op::MakeClosure { fn_id: 3, capture_count: 1 },
            Op::MakeTuple(2),
        ],
    );
    assert_eq!(p.functions[2].arity, 2);
    assert_eq!(p.functions[2].locals_count, 2);
    assert_eq!(
        p.functions[2].code,
        vec![
            Op::LoadLocal(0),
            Op::LoadLocal(1),
            Op::NumAdd,
            Op::LoadLocal(0),
            Op::NumAdd,
            Op::Return,
        ],
    );
    assert_eq!(p.functions[3].code, vec![Op::LoadLocal(0), Op::Return]);
}

#[test]
fn lambdas_in_lambdas_are_compiled_too() {
    let p = plain(&[function("f", int_params(&["x"]), lambda(&["y"], lambda(&["z"], var("x"))))]);
    assert_eq!(p.functions.len(), 3);
    assert_eq!(
        p.functions[1].code,
        vec![Op::LoadLocal(0), Op::MakeClosure { fn_id: 2, capture_count: 1 }, Op::Return],
    );
    assert_eq!(p.functions[2].code, vec![Op::LoadLocal(0), Op::Return]);
}

#[test]
fn free_names_are_found_once_in_order() {
    let e = CExpr::Let {
        name: "a".into(),
        ty: None,
        value: Box::new(var("z")),
        body: Box::new(CExpr::Match {
            scrutinee: Box::new(bin("+", var("a"), var("y"))),
            arms: vec![
                Arm { pattern: Pattern::PVar { name: "b".into() }, body: var("b") },
                Arm { pattern: Pattern::PWild, body: bin("+", var("b"), var("z")) },
            ],
        }),
    };
    let mut bound = vec!["y".to_string()];
    let mut out = Vec::new();
    free_vars(&e, &mut bound, &mut out);
    assert_eq!(out, vec!["z".to_string(), "b".to_string()]);
    assert_eq!(bound, vec!["y".to_string()]);
}

#[test]
fn module_calls_become_effects() {
    let body = call(field(var("out"), "print"), vec![text("hi")]);
    let p = plain(&[import("std.io", "out"), import("./own", "own"), function("f", vec![], body)]);
    assert_eq!(p.module_aliases.get("out"), Some(&"io".to_string()));
    assert_eq!(p.module_aliases.get("own"), Some(&"./own".to_string()));
    assert_eq!(
        p.constants,
        vec![
            Const::NodeId("n_?".into()),
            Const::Str("hi".into()),
            Const::Str("io".into()),
            Const::Str("print".into()),
        ],
    );
    assert_eq!(
        code(&p, "f"),
        vec![
            Op::PushConst(1),
            Op::EffectCall { kind_idx: 2, op_idx: 3, arity: 1, node_id_idx: 0 },
            Op::Return,
        ],
    );
}

#[test]
fn declarations_keep_effects_and_refinements() {
    let predicate = Arc::new(bin(">", var("n"), num(0)));
    let ty = TypeExpr::Refined {
        base: Box::new(named("Int")),
        binding: "n".into(),
        predicate: Arc::clone(&predicate),
    };
    let effects = vec![
        Effect { name: "io".into(), arg: None },
        Effect { name: "budget".into(), arg: Some(EffectArgExpr::Int { value: 3 }) },
        Effect { name: "net".into(), arg: Some(EffectArgExpr::Str { value: "x".into() }) },
        Effect { name: "fs".into(), arg: Some(EffectArgExpr::Ident { value: "p".into() }) },
    ];
    let p = plain(&[Stage::FnDecl(FnDecl {
        name: "f".into(),
        params: vec![param("a", ty), param("b", named("Int"))],
        effects,
        body: bin("+", var("a"), var("b")),
    })]);
    let f = &p.functions[0];
    assert_eq!(f.arity, 2);
    assert_eq!(f.effects.len(), 4);
    assert_eq!(f.effects[1].arg, Some(EffectArg::Int(3)));
    assert_eq!(f.effects[2].arg, Some(EffectArg::Str("x".into())));
    assert_eq!(f.effects[3].arg, Some(EffectArg::Ident("p".into())));
    let r = f.refinements[0].as_ref().unwrap();
    assert_eq!(r.binding, "n");
    assert_eq!(r.predicate, predicate);
    assert!(f.refinements[1].is_none());
    // The base of a refined type is what it is compiled as.
    assert_eq!(f.code[0], Op::LoadLocalAddLocal { lhs_idx: 0, rhs_idx: 1 });
}

#[test]
fn errors_name_what_is_wrong() {
    let fails = |body: CExpr| {
        compile_program(&[import("list", "list"), function("f", vec![], body)]).unwrap_err()
    };
    let e = fails(var("nowhere"));
    assert_eq!(e, CompileError::UnknownVariable { name: "nowhere".into() });
    assert_eq!(e.message(), "unknown var in compiler: nowhere");
    let e = fails(CExpr::UnaryOp { op: "~".into(), expr: Box::new(num(1)) });
    assert_eq!(e, CompileError::UnknownUnary { op: "~".into() });
    assert_eq!(e.message(), "unknown unary: ~");
    let e = fails(bin("**", num(1), num(2)));
    assert_eq!(e, CompileError::UnknownBinary { op: "**".into() });
    assert_eq!(e.message(), "unknown binop: \"**\"");
    let e = fails(call(field(var("list"), "map"), vec![num(1)]));
    assert_eq!(e, CompileError::MissingArgument { position: 1 });
    assert_eq!(e.message(), "missing argument 1");
    // The first error counts.
    let e = fails(bin("**", var("a"), var("b")));
    assert_eq!(e, CompileError::UnknownVariable { name: "a".into() });
}

#[test]
fn too_many_locals_are_refused() {
    let mut body = num(0);
    for _ in 0..300 {
        body = CExpr::Let {
            name: "x".into(),
            ty: None,
            value: Box::new(num(1)),
            body: Box::new(body),
        };
    }
    let p = plain(&[function("f", vec![], body)]);
    assert_eq!(p.functions[0].locals_count, 300);
    let params = (0..70000).map(|i| param(&format!("p{i}"), named("T"))).collect();
    let e = compile_program(&[function("g", params, num(0))]).unwrap_err();
    assert_eq!(e, CompileError::TooManyLocals);
    assert_eq!(e.message(), "too many locals");
    assert_eq!(CompileError::TooManyFieldAccesses.message(), "too many field accesses");
}

#[test]
fn passes_change_code_but_not_hashes() {
    let rec = CExpr::RecordLit { fields: vec![RecordField { name: "a".into(), value: num(1) }] };
    let local = CExpr::Let {
        name: "r".into(),
        ty: None,
        value: Box::new(rec),
        body: Box::new(field(var("r"), "a")),
    };
    let stages = || {
        let rec = CExpr::RecordLit {
            fields: vec![RecordField { name: "a".into(), value: var("x") }],
        };
        vec![
            function("local", vec![], CExpr::Block { statements: vec![],
                result: Box::new(num(1)) }),
            function("made", int_params(&["x"]), rec),
        ]
    };
    let p = plain(&stages());
    let q = compile_program(&stages()).unwrap();
    for (f, g) in p.functions.iter().zip(q.functions.iter()) {
        assert_eq!(f.body_hash, g.body_hash);
        assert_ne!(f.body_hash, ZERO_BODY_HASH);
        assert_eq!(f.body_hash, compute_body_hash(f.arity, f.locals_count, &f.code));
    }
    assert_eq!(
        code(&p, "made"),
        vec![Op::LoadLocal(0), Op::MakeRecord { shape_idx: 0, field_count: 1 }, Op::Return],
    );
    assert_eq!(
        code(&q, "made"),
        vec![Op::TakeLocal(0), Op::AllocArenaRecord { shape_idx: 0, field_count: 1 }, Op::Return],
    );
    let r = compile_program(&[function("f", vec![], local)]).unwrap();
    assert!(code(&r, "f").contains(&Op::AllocStackRecord { shape_idx: 0, field_count: 1 }));
}

#[test]
fn names_stay_in_order() {
    let p = plain(&[
        import("std.str", "s"),
        function("b", vec![], num(1)),
        import("std.list", "l"),
        function("a", vec![], num(2)),
        function("b", vec![], num(3)),
        import("std.iter", "s"),
    ]);
    let names: Vec<&str> = p.function_names.keys().map(|k| k.as_str()).collect();
    assert_eq!(names, ["b", "a"]);
    let aliases: Vec<&str> = p.module_aliases.keys().map(|k| k.as_str()).collect();
    assert_eq!(aliases, ["s", "l"]);
    assert_eq!(p.module_aliases["s"], "iter");
}

#[test]
fn last_declaration_of_a_name_wins() {
    let p = plain(&[
        function("f", vec![], num(1)),
        function("f", vec![], num(2)),
        function("g", vec![], call(var("f"), vec![])),
    ]);
    assert_eq!(p.lookup("f"), Some(1));
    assert_eq!(p.lookup("missing"), None);
    assert!(p.functions[0].code.is_empty());
    assert_eq!(
        p.functions[2].code[0],
        Op::TailCall { fn_id: 1, arity: 0, node_id_idx: 2 },
    );
}

fn flow(op: &str, args: Vec<CExpr>) -> Program {
    let body = call(field(var("flow"), op), args);
    plain(&[import("std.flow", "flow"), function("f", vec![param("a", named("T"))], body)])
}

#[test]
fn flow_closures_have_their_code() {
    let p = flow("branch", vec![var("a"), var("a"), var("a")]);
    let t = &p.functions[1];
    assert_eq!((t.name.as_str(), t.arity, t.locals_count), ("__flow_branch", 4, 4));
    let once = |f: u16| {
        vec![
            Op::LoadLocal(f),
            Op::LoadLocal(3),
            Op::CallClosure { arity: 1, node_id_idx: 1 },
        ]
    };
    let mut expected = once(0);
    expected.push(Op::JumpIfNot(4));
    expected.extend(once(1));
    expected.push(Op::Return);
    expected.extend(once(2));
    expected.push(Op::Return);
    assert_eq!(t.code, expected);
    assert_eq!(t.body_hash, compute_body_hash(4, 4, &expected));
    assert_eq!(
        code(&p, "f"),
        vec![
            Op::LoadLocal(0),
            Op::LoadLocal(0),
            Op::LoadLocal(0),
            Op::MakeClosure { fn_id: 1, capture_count: 3 },
            Op::Return,
        ],
    );
    let p = flow("retry_with_backoff", vec![var("a"), num(3), num(10)]);
    let t = &p.functions[1];
    assert_eq!((t.name.as_str(), t.arity, t.locals_count), ("__flow_retry_backoff", 4, 7));
    assert_eq!(t.code.len(), 35);
    assert_eq!(t.code[7], Op::JumpIfNot(25));
    assert_eq!(t.code[11], Op::JumpIfNot(7));
    assert_eq!(t.code[32], Op::Jump(-29));
}

#[test]
fn compiled_code_finds_what_it_refers_to() {
    let body = CExpr::Match {
        scrutinee: Box::new(call(
            field(var("list"), "map"),
            vec![
                CExpr::ListLit { items: vec![var("n"), num(2)] },
                lambda(&["x"], bin("+", var("x"), call(lambda(&["y"], var("n")), vec![var("x")]))),
            ],
        )),
        arms: vec![
            Arm {
                pattern: Pattern::PConstructor { name: "Some".into(), args: vec![Pattern::PWild] },
                body: CExpr::RecordLit {
                    fields: vec![RecordField { name: "a".into(), value: text("t") }],
                },
            },
            Arm { pattern: Pattern::PVar { name: "all".into() }, body: var("all") },
        ],
    };
    let p = plain(&[
        import("std.list", "list"),
        function("f", int_params(&["n"]), body),
        function("g", vec![], call(var("f"), vec![num(1)])),
    ]);
    assert_eq!(p.functions.len(), 4);
    for f in &p.functions {
        assert_eq!(f.code.last(), Some(&Op::Return));
        let n = f.code.len() as i64;
        for (at, op) in f.code.iter().enumerate() {
            match op {
                Op::Jump(off) | Op::JumpIf(off) | Op::JumpIfNot(off) => {
                    let target = at as i64 + 1 + *off as i64;
                    assert!(0 <= target && target < n);
                }
                Op::LoadLocal(i) | Op::StoreLocal(i) => assert!(*i < f.locals_count),
                Op::PushConst(i) => assert!((*i as usize) < p.constants.len()),
                Op::Call { fn_id, node_id_idx, .. } | Op::TailCall { fn_id, node_id_idx, .. } => {
                    assert!((*fn_id as usize) < p.functions.len());
                    assert!(matches!(p.constants[*node_id_idx as usize], Const::NodeId(_)));
                }
                Op::MakeClosure { fn_id, .. } => {
                    assert!((*fn_id as usize) < p.functions.len());
                }
                Op::TestVariant(i) => {
                    assert!(matches!(p.constants[*i as usize], Const::VariantName(_)));
                }
                Op::MakeRecord { shape_idx, field_count } => {
                    let shape = &p.record_shapes[*shape_idx as usize];
                    assert_eq!(shape.len(), *field_count as usize);
                    for i in shape {
                        assert!(matches!(p.constants[*i as usize], Const::FieldName(_)));
                    }
                }
                _ => {}
            }
        }
    }
}
