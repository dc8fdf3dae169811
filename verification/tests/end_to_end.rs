use lex_bytecode::ast::{Arm, CExpr, CLit, Effect, FnDecl, Import, Param, Pattern, Stage, TypeExpr};
use lex_bytecode::compiler::assembly::{compile_program_with, Passes};
use lex_bytecode::conc_registry::ActorRegistry;
use lex_bytecode::program::Program;
use lex_bytecode::shape_registry::ShapeRegistry;
use lex_bytecode::value::{ActorCell, Value};
use lex_bytecode::verify::verify_program;
use lex_bytecode::vm::arith::FloatOp;
use lex_bytecode::vm::{EffectHandler, Host, Vm, VmError};

struct Desk;

impl Host for Desk {
    fn float_op(&mut self, _op: FloatOp, a: u64, _b: u64) -> u64 {
        a
    }

    fn par_map(
        &mut self,
        _closure: Value,
        items: Vec<Value>,
        _seats: Vec<Option<u64>>,
        _step_limit: u64,
    ) -> Result<Vec<Value>, VmError> {
        Ok(items)
    }

    fn native_send(&mut self, _handler: u64, msg: Value) -> Result<Value, String> {
        Ok(msg)
    }

    fn max_workers(&mut self) -> usize {
        1
    }

    fn add_actor(&mut self, _cell: ActorCell) -> u64 {
        0
    }

    fn take_actor(&mut self, _handle: u64) -> Option<ActorCell> {
        None
    }

    fn put_actor(&mut self, _handle: u64, _cell: ActorCell) {}

    fn take_names(&mut self) -> ActorRegistry {
        ActorRegistry::new()
    }

    fn put_names(&mut self, _names: ActorRegistry) {}

    fn take_shapes(&mut self) -> ShapeRegistry {
        ShapeRegistry::new()
    }

    fn put_shapes(&mut self, _shapes: ShapeRegistry) {}
}

/// Maps as lists of pairs, a cursor that ends at once, and sleeps that are
/// counted by nobody.
struct Library;

impl EffectHandler for Library {
    fn dispatch(&mut self, kind: &str, op: &str, mut args: Vec<Value>) -> Result<Value, String> {
        match (kind, op) {
            ("map", "entries") => Ok(args.remove(0)),
            ("sql", "cursor_next") => Ok(variant("None", vec![])),
            ("time", "sleep_ms") => Ok(Value::Unit),
            _ => Err(format!("no {kind}.{op}")),
        }
    }

    fn note_call_budget(&mut self, _budget_cost: u64) -> Result<(), String> {
        Ok(())
    }

    fn enter_request_scope(&mut self) -> u64 {
        0
    }

    fn exit_request_scope(&mut self, _scope_id: u64) {}

    fn spawn_for_worker(&mut self) -> Option<u64> {
        None
    }
}

fn variant(name: &str, args: Vec<Value>) -> Value {
    Value::Variant { name: name.into(), args }
}

fn ints(v: &[i64]) -> Value {
    Value::List(v.iter().map(|n| Value::Int(*n)).collect())
}

fn var(name: &str) -> CExpr {
    CExpr::Var { name: name.into() }
}

fn num(value: i64) -> CExpr {
    CExpr::Literal { value: CLit::Int { value } }
}

fn bin(op: &str, lhs: CExpr, rhs: CExpr) -> CExpr {
    CExpr::BinOp { op: op.into(), lhs: Box::new(lhs), rhs: Box::new(rhs) }
}

fn lambda(params: &[&str], body: CExpr) -> CExpr {
    let params = params
        .iter()
        .map(|p| Param {
            name: p.to_string(),
            ty: TypeExpr::Named { name: "T".into(), args: vec![] },
        })
        .collect();
    CExpr::Lambda { params, body: Box::new(body) }
}

fn apply(f: CExpr, args: Vec<CExpr>) -> CExpr {
    CExpr::Call { node_id: None, callee: Box::new(f), args }
}

fn module(m: &str, op: &str, args: Vec<CExpr>) -> CExpr {
    apply(CExpr::FieldAccess { value: Box::new(var(m)), field: op.into() }, args)
}

fn tag(name: &str, args: Vec<CExpr>) -> CExpr {
    CExpr::Constructor { name: name.into(), args }
}

fn list(items: &[i64]) -> CExpr {
    CExpr::ListLit { items: items.iter().map(|n| num(*n)).collect() }
}

fn compile(body: CExpr, passes: bool) -> Program {
    let mut stages: Vec<Stage> = ["list", "iter", "map", "option", "result", "flow"]
        .iter()
        .map(|m| {
            Stage::Import(Import { reference: format!("std.{m}"), alias: m.to_string() })
        })
        .collect();
    stages.push(Stage::FnDecl(FnDecl {
        name: "main".into(),
        params: vec![],
        effects: vec![Effect { name: "io".into(), arg: None }],
        body,
    }));
    let passes = Passes { stack_records: passes, arena_records: passes, take_locals: passes };
    let p = compile_program_with(&stages, passes).unwrap();
    assert_eq!(verify_program(&p.functions), vec![]);
    p
}

/// Runs an expression with and without the optional passes.
fn eval(body: impl Fn() -> CExpr) -> Result<Value, VmError> {
    let p = compile(body(), false);
    let plain = Vm::with_handler(&p, Box::new(Library), Box::new(Desk)).call("main", vec![]);
    let q = compile(body(), true);
    let lowered = Vm::with_handler(&q, Box::new(Library), Box::new(Desk)).call("main", vec![]);
    assert_eq!(plain, lowered);
    plain
}

fn iter(items: &[i64]) -> CExpr {
    module("iter", "from_list", vec![list(items)])
}

fn to_list(it: CExpr) -> CExpr {
    module("iter", "to_list", vec![it])
}

/// n, n + 1, ... up to 2.
fn lazy() -> CExpr {
    let next = tag(
        "Some",
        vec![CExpr::TupleLit { items: vec![var("s"), bin("+", var("s"), num(1))] }],
    );
    let step = lambda(
        &["s"],
        CExpr::Match {
            scrutinee: Box::new(bin("<", var("s"), num(3))),
            arms: vec![
                Arm {
                    pattern: Pattern::PLiteral { value: CLit::Bool { value: true } },
                    body: next,
                },
                Arm { pattern: Pattern::PWild, body: tag("None", vec![]) },
            ],
        },
    );
    module("iter", "unfold", vec![num(0), step])
}

#[test]
fn eager_iterators() {
    let plus = || lambda(&["x"], bin("+", var("x"), num(10)));
    assert_eq!(eval(|| to_list(iter(&[1, 2, 3]))), Ok(ints(&[1, 2, 3])));
    assert_eq!(
        eval(|| module("iter", "collect", vec![iter(&[4])])),
        Ok(ints(&[4])),
    );
    assert_eq!(
        eval(|| to_list(module("iter", "map", vec![iter(&[1, 2]), plus()]))),
        Ok(ints(&[11, 12])),
    );
    let small = || lambda(&["x"], bin("<", var("x"), num(3)));
    assert_eq!(
        eval(|| to_list(module("iter", "filter", vec![iter(&[1, 5, 2]), small()]))),
        Ok(ints(&[1, 2])),
    );
    let sum = || lambda(&["a", "x"], bin("+", var("a"), var("x")));
    assert_eq!(
        eval(|| module("iter", "fold", vec![iter(&[1, 5, 2]), num(100), sum()])),
        Ok(Value::Int(108)),
    );
    assert_eq!(
        eval(|| to_list(module("iter", "take", vec![iter(&[1, 5, 2]), num(2)]))),
        Ok(ints(&[1, 5])),
    );
    assert_eq!(
        eval(|| to_list(module("iter", "take", vec![iter(&[1]), num(2)]))),
        Ok(ints(&[1])),
    );
    assert_eq!(
        eval(|| to_list(module("iter", "skip", vec![iter(&[1, 5, 2]), num(2)]))),
        Ok(ints(&[2])),
    );
    assert_eq!(
        eval(|| to_list(module("iter", "skip", vec![iter(&[1, 5, 2]), num(9)]))),
        Ok(ints(&[])),
    );
    assert_eq!(
        eval(|| module("iter", "count", vec![iter(&[1, 5, 2])])),
        Ok(Value::Int(3)),
    );
    assert_eq!(
        eval(|| module("iter", "is_empty", vec![iter(&[])])),
        Ok(Value::Bool(true)),
    );
    assert_eq!(
        eval(|| module("iter", "is_empty", vec![iter(&[1])])),
        Ok(Value::Bool(false)),
    );
}

#[test]
fn next_of_every_iterator() {
    let eager = |items: &[i64], at: i64| variant("__IterEager", vec![ints(items), Value::Int(at)]);
    assert_eq!(
        eval(|| module("iter", "next", vec![iter(&[7, 8])])),
        Ok(variant("Some", vec![Value::Tuple(vec![Value::Int(7), eager(&[7, 8], 1)])])),
    );
    assert_eq!(
        eval(|| module("iter", "next", vec![iter(&[])])),
        Ok(variant("None", vec![])),
    );
    let first = eval(|| module("iter", "next", vec![lazy()])).unwrap();
    match first {
        Value::Variant { name, mut args } => {
            assert_eq!(name, "Some");
            match args.remove(0) {
                Value::Tuple(items) => {
                    assert_eq!(items[0], Value::Int(0));
                    match &items[1] {
                        Value::Variant { name, args } => {
                            assert_eq!(name, "__IterLazy");
                            assert_eq!(args[0], Value::Int(1));
                        }
                        other => panic!("{other:?}"),
                    }
                }
                other => panic!("{other:?}"),
            }
        }
        other => panic!("{other:?}"),
    }
    assert_eq!(
        eval(|| module("iter", "next", vec![tag("__IterCursor", vec![num(1)])])),
        Ok(variant("None", vec![])),
    );
}

#[test]
fn next_leaves_one_value() {
    let beside = |it: CExpr| CExpr::TupleLit {
        items: vec![num(5), module("iter", "next", vec![it])],
    };
    let none = || variant("None", vec![]);
    assert_eq!(eval(|| beside(iter(&[]))), Ok(Value::Tuple(vec![Value::Int(5), none()])));
    assert_eq!(
        eval(|| beside(tag("__IterCursor", vec![num(1)]))),
        Ok(Value::Tuple(vec![Value::Int(5), none()])),
    );
    match eval(|| beside(lazy())) {
        Ok(Value::Tuple(items)) => assert_eq!(items[0], Value::Int(5)),
        other => panic!("{other:?}"),
    }
}

#[test]
fn lazy_iterators_are_drawn_out() {
    assert_eq!(eval(|| to_list(lazy())), Ok(ints(&[0, 1, 2])));
}

#[test]
fn folds_over_maps() {
    let pair = |a: i64, b: i64| CExpr::TupleLit { items: vec![num(a), num(b)] };
    let f = || lambda(&["acc", "k", "v"], bin("+", var("acc"), bin("*", var("k"), var("v"))));
    let m = || CExpr::ListLit { items: vec![pair(2, 3), pair(4, 5)] };
    assert_eq!(
        eval(|| module("map", "fold", vec![m(), num(1), f()])),
        Ok(Value::Int(27)),
    );
}

#[test]
fn combinators_on_results_and_options() {
    let plus = || lambda(&["x"], bin("+", var("x"), num(1)));
    let some = || lambda(&["x"], tag("Some", vec![bin("+", var("x"), num(1))]));
    let okay = || lambda(&["x"], tag("Ok", vec![bin("+", var("x"), num(1))]));
    let zero = || lambda(&[], num(0));
    let one = |name: &str| variant(name, vec![Value::Int(1)]);
    let two = |name: &str| variant(name, vec![Value::Int(2)]);
    let cases: Vec<(&str, &str, &str, CExpr, Value)> = vec![
        ("result", "map", "Ok", plus(), two("Ok")),
        ("result", "map", "Err", plus(), one("Err")),
        ("result", "map_err", "Err", plus(), two("Err")),
        ("result", "map_err", "Ok", plus(), one("Ok")),
        ("result", "and_then", "Ok", okay(), two("Ok")),
        ("result", "and_then", "Err", okay(), one("Err")),
        ("result", "or_else", "Err", okay(), two("Ok")),
        ("result", "or_else", "Ok", okay(), one("Ok")),
        ("result", "unwrap_or_else", "Ok", plus(), Value::Int(1)),
        ("result", "unwrap_or_else", "Err", plus(), Value::Int(2)),
        ("option", "map", "Some", plus(), two("Some")),
        ("option", "and_then", "Some", some(), two("Some")),
        ("option", "or_else", "Some", zero(), one("Some")),
        ("option", "unwrap_or_else", "Some", zero(), Value::Int(1)),
    ];
    for (m, op, name, f, expected) in cases {
        let p = compile(module(m, op, vec![tag(name, vec![num(1)]), f]), true);
        let r = Vm::with_handler(&p, Box::new(Library), Box::new(Desk)).call("main", vec![]);
        assert_eq!(r, Ok(expected), "{m}.{op} on {name}");
    }
    let none = || tag("None", vec![]);
    assert_eq!(eval(|| module("option", "map", vec![none(), plus()])), Ok(variant("None", vec![])));
    assert_eq!(eval(|| module("option", "or_else", vec![none(), zero()])), Ok(Value::Int(0)));
    assert_eq!(
        eval(|| module("option", "unwrap_or_else", vec![none(), zero()])),
        Ok(Value::Int(0)),
    );
}

#[test]
fn combinators_on_lists() {
    let plus = || lambda(&["x"], bin("+", var("x"), num(1)));
    let neg = || lambda(&["x"], CExpr::UnaryOp { op: "-".into(), expr: Box::new(var("x")) });
    let big = || lambda(&["x"], bin(">=", var("x"), num(2)));
    let sub = || lambda(&["a", "x"], bin("-", var("a"), var("x")));
    assert_eq!(eval(|| module("list", "map", vec![list(&[1, 2]), plus()])), Ok(ints(&[2, 3])));
    assert_eq!(
        eval(|| module("list", "sort_by", vec![list(&[1, 3, 2]), neg()])),
        Ok(ints(&[3, 2, 1])),
    );
    assert_eq!(
        eval(|| module("list", "filter", vec![list(&[1, 3, 2]), big()])),
        Ok(ints(&[3, 2])),
    );
    assert_eq!(
        eval(|| module("list", "fold", vec![list(&[1, 3, 2]), num(10), sub()])),
        Ok(Value::Int(4)),
    );
    assert_eq!(
        eval(|| module("list", "par_map", vec![list(&[1, 3]), plus()])),
        Ok(ints(&[1, 3])),
    );
}

#[test]
fn flows_build_closures() {
    let plus = || lambda(&["x"], bin("+", var("x"), num(1)));
    let twice = || lambda(&["x"], bin("*", var("x"), num(2)));
    let small = || lambda(&["x"], bin("<", var("x"), num(3)));
    let zero = || lambda(&[], num(0));
    let fails = || lambda(&["x"], tag("Err", vec![var("x")]));
    let okay = || lambda(&["x"], tag("Ok", vec![var("x")]));
    assert_eq!(
        eval(|| apply(module("flow", "sequential", vec![plus(), twice()]), vec![num(3)])),
        Ok(Value::Int(8)),
    );
    let branch = || module("flow", "branch", vec![small(), plus(), twice()]);
    assert_eq!(eval(|| apply(branch(), vec![num(2)])), Ok(Value::Int(3)));
    assert_eq!(eval(|| apply(branch(), vec![num(4)])), Ok(Value::Int(8)));
    assert_eq!(
        eval(|| apply(module("flow", "parallel", vec![zero(), zero()]), vec![])),
        Ok(Value::Tuple(vec![Value::Int(0), Value::Int(0)])),
    );
    assert_eq!(
        eval(|| module(
            "flow",
            "parallel_list",
            vec![CExpr::ListLit { items: vec![zero(), zero()] }],
        )),
        Ok(ints(&[0, 0])),
    );
    assert_eq!(
        eval(|| apply(module("flow", "retry", vec![fails(), num(3)]), vec![num(7)])),
        Ok(variant("Err", vec![Value::Int(7)])),
    );
    assert_eq!(
        eval(|| apply(module("flow", "retry", vec![okay(), num(3)]), vec![num(7)])),
        Ok(variant("Ok", vec![Value::Int(7)])),
    );
    assert_eq!(
        eval(|| apply(
            module("flow", "retry_with_backoff", vec![fails(), num(3), num(1)]),
            vec![num(7)],
        )),
        Ok(variant("Err", vec![Value::Int(7)])),
    );
}

#[test]
fn captured_names_and_patterns_at_run_time() {
    let body = || CExpr::Let {
        name: "k".into(),
        ty: None,
        value: Box::new(num(5)),
        body: Box::new(CExpr::Match {
            scrutinee: Box::new(CExpr::TupleLit { items: vec![num(1), num(2)] }),
            arms: vec![
                Arm {
                    pattern: Pattern::PTuple {
                        items: vec![
                            Pattern::PLiteral { value: CLit::Int { value: 9 } },
                            Pattern::PWild,
                        ],
                    },
                    body: num(0),
                },
                Arm {
                    pattern: Pattern::PTuple {
                        items: vec![
                            Pattern::PVar { name: "a".into() },
                            Pattern::PVar { name: "b".into() },
                        ],
                    },
                    body: apply(
                        lambda(&["x"], bin("+", bin("+", var("k"), var("x")), var("b"))),
                        vec![var("a")],
                    ),
                },
            ],
        }),
    };
    assert_eq!(eval(body), Ok(Value::Int(8)));
    let nothing = || CExpr::Match { scrutinee: Box::new(num(1)), arms: vec![] };
    assert_eq!(eval(nothing), Err(VmError::Panic("non-exhaustive match".into())));
}
