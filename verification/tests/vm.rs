use std::cell::RefCell;
use std::rc::Rc;
use std::sync::Arc;

use indexmap::IndexMap;
use lex_bytecode::actor_table::{ActorTable, Taken};
use lex_bytecode::ast::{CExpr, CLit};
use lex_bytecode::compiler::peephole::{
    apply_peephole, apply_peephole_slice2, apply_peephole_slice4, apply_peephole_slice5,
    apply_peephole_slice6,
};
use lex_bytecode::conc_registry::ActorRegistry;
use lex_bytecode::jit_hook::JitHook;
use lex_bytecode::json::{Json, Member};
use lex_bytecode::op::{Const, Op};
use lex_bytecode::parser_runtime::run_parser;
use lex_bytecode::program::{
    DeclaredEffect, EffectArg, Function, Program, Refinement, ZERO_BODY_HASH,
};
use lex_bytecode::shape_registry::{ShapeRegistry, DYNAMIC_SHAPE_ID_BASE};
use lex_bytecode::value::{ActorCell, ActorHandler, Field, NativeActorHandler, Value};
use lex_bytecode::vm::arith::FloatOp;
use lex_bytecode::vm::workers::{deal, gather, par_max_concurrency, worker_count};
use lex_bytecode::vm::{DenyAllEffects, EffectHandler, Host, Tracer, Vm, VmError, MAX_CALL_DEPTH};

/// What several machines share.
struct Shared {
    actors: ActorTable,
    names: Option<ActorRegistry>,
    shapes: Option<ShapeRegistry>,
}

/// Floats by the machine, a parallel map that fails on an empty list, native
/// actors that give their message back, and actors that other desks may share.
struct Desk {
    shared: Rc<RefCell<Shared>>,
}

fn shared() -> Rc<RefCell<Shared>> {
    Rc::new(RefCell::new(Shared {
        actors: ActorTable::new(),
        names: Some(ActorRegistry::new()),
        shapes: Some(ShapeRegistry::new()),
    }))
}

fn desk() -> Box<Desk> {
    Box::new(Desk { shared: shared() })
}

impl Host for Desk {
    fn float_op(&mut self, op: FloatOp, a: u64, b: u64) -> u64 {
        let (x, y) = (f64::from_bits(a), f64::from_bits(b));
        let z = match op {
            FloatOp::Add => x + y,
            FloatOp::Sub => x - y,
            FloatOp::Mul => x * y,
            FloatOp::Div => x / y,
            FloatOp::Rem => x % y,
        };
        z.to_bits()
    }

    fn par_map(
        &mut self,
        closure: Value,
        items: Vec<Value>,
        seats: Vec<Option<u64>>,
        _step_limit: u64,
    ) -> Result<Vec<Value>, VmError> {
        match closure {
            Value::Closure { fn_id: 1, .. } => Ok(items),
            Value::Closure { fn_id: 2, .. } => Ok(items
                .iter()
                .enumerate()
                .map(|(i, _)| match seats[i % seats.len()] {
                    Some(seat) => Value::Int(seat as i64),
                    None => Value::Unit,
                })
                .collect()),
            _ => Err(VmError::Effect("par_map worker: no".into())),
        }
    }

    fn native_send(&mut self, handler: u64, msg: Value) -> Result<Value, String> {
        if handler == 7 {
            Ok(Value::List(vec![msg]))
        } else {
            Err("closed".into())
        }
    }

    fn max_workers(&mut self) -> usize {
        2
    }

    fn add_actor(&mut self, cell: ActorCell) -> u64 {
        self.shared.borrow_mut().actors.insert(cell)
    }

    fn take_actor(&mut self, handle: u64) -> Option<ActorCell> {
        match self.shared.borrow_mut().actors.take(handle) {
            Taken::Cell(cell) => Some(cell),
            Taken::Missing | Taken::Busy => None,
        }
    }

    fn put_actor(&mut self, handle: u64, cell: ActorCell) {
        self.shared.borrow_mut().actors.put(handle, cell);
    }

    fn take_names(&mut self) -> ActorRegistry {
        self.shared.borrow_mut().names.take().expect("names are there")
    }

    fn put_names(&mut self, names: ActorRegistry) {
        self.shared.borrow_mut().names = Some(names);
    }

    fn take_shapes(&mut self) -> ShapeRegistry {
        self.shared.borrow_mut().shapes.take().expect("shapes are there")
    }

    fn put_shapes(&mut self, shapes: ShapeRegistry) {
        self.shared.borrow_mut().shapes = Some(shapes);
    }
}

fn function(name: &str, arity: u16, locals_count: u16, code: Vec<Op>) -> Function {
    Function {
        name: name.into(),
        arity,
        locals_count,
        code,
        effects: vec![],
        body_hash: ZERO_BODY_HASH,
        refinements: vec![],
        field_ic_sites: 4,
    }
}

fn program(functions: Vec<Function>, constants: Vec<Const>) -> Program {
    let mut names = IndexMap::new();
    for (i, f) in functions.iter().enumerate() {
        names.insert(f.name.clone(), i as u32);
    }
    Program {
        constants,
        functions,
        function_names: names,
        module_aliases: IndexMap::new(),
        entry: None,
        record_shapes: vec![vec![0, 1]],
    }
}

fn run(code: Vec<Op>, constants: Vec<Const>, args: Vec<Value>) -> Result<Value, VmError> {
    let p = program(vec![function("main", args.len() as u16, 8, code)], constants);
    let mut vm = Vm::new(&p, desk());
    vm.call("main", args)
}

fn float(x: f64) -> Value {
    Value::Float(x.to_bits())
}

fn ints(v: &[i64]) -> Value {
    Value::List(v.iter().map(|n| Value::Int(*n)).collect())
}

fn two(op: Op) -> Vec<Op> {
    vec![Op::LoadLocal(0), Op::LoadLocal(1), op, Op::Return]
}

#[test]
fn integer_arithmetic() {
    let calc = |op: Op, a: i64, b: i64| run(two(op), vec![], vec![Value::Int(a), Value::Int(b)]);
    assert_eq!(calc(Op::IntAdd, 2, 3), Ok(Value::Int(5)));
    assert_eq!(calc(Op::IntAdd, i64::MAX, 1), Ok(Value::Int(i64::MIN)));
    assert_eq!(calc(Op::IntSub, 2, 3), Ok(Value::Int(-1)));
    assert_eq!(calc(Op::IntMul, -4, 3), Ok(Value::Int(-12)));
    assert_eq!(calc(Op::IntDiv, -7, 2), Ok(Value::Int(-3)));
    assert_eq!(calc(Op::IntMod, -7, 2), Ok(Value::Int(-1)));
    assert_eq!(calc(Op::IntLt, 2, 3), Ok(Value::Bool(true)));
    assert_eq!(calc(Op::IntLe, 3, 3), Ok(Value::Bool(true)));
    assert_eq!(calc(Op::IntEq, 3, 4), Ok(Value::Bool(false)));
    assert_eq!(calc(Op::IntDiv, 1, 0), Err(VmError::DivByZero { op: "division" }));
    assert_eq!(calc(Op::NumMod, 1, 0), Err(VmError::DivByZero { op: "modulo" }));
    assert_eq!(
        calc(Op::IntDiv, 1, 0).unwrap_err().message(),
        "integer division by zero",
    );
}

#[test]
fn float_arithmetic_is_the_hosts() {
    let calc = |op: Op, a: f64, b: f64| run(two(op), vec![], vec![float(a), float(b)]);
    assert_eq!(calc(Op::FloatAdd, 0.5, 0.25), Ok(float(0.75)));
    assert_eq!(calc(Op::NumSub, 0.5, 0.25), Ok(float(0.25)));
    assert_eq!(calc(Op::FloatMul, 1.5, 2.0), Ok(float(3.0)));
    assert_eq!(calc(Op::NumDiv, 1.0, 4.0), Ok(float(0.25)));
    assert_eq!(calc(Op::FloatLt, -1.0, 0.0), Ok(Value::Bool(true)));
    assert_eq!(calc(Op::NumLe, f64::NAN, 0.0), Ok(Value::Bool(false)));
    assert_eq!(calc(Op::NumEq, 0.0, -0.0), Ok(Value::Bool(true)));
    let neg = run(vec![Op::LoadLocal(0), Op::NumNeg, Op::Return], vec![], vec![float(2.0)]);
    assert_eq!(neg, Ok(float(-2.0)));
}

#[test]
fn wrong_operands_are_refused() {
    let r = run(two(Op::IntAdd), vec![], vec![Value::Int(1), Value::Bool(true)]);
    assert_eq!(r, Err(VmError::Panic("expected Int, got Bool(true)".into())));
    let r = run(two(Op::NumAdd), vec![], vec![Value::Int(1), Value::Bool(true)]);
    assert_eq!(r, Err(VmError::TypeMismatch("Num op: Int(1) Bool(true)".into())));
    let r = run(vec![Op::LoadLocal(0), Op::GetListLen, Op::Return], vec![], vec![
        Value::Variant { name: "Some".into(), args: vec![Value::Str("a\"b".into())] },
    ]);
    let text = "GetListLen on non-list: Variant { name: \"Some\", args: [Str(\"a\\\"b\")] }";
    assert_eq!(r, Err(VmError::TypeMismatch(text.into())));
    assert_eq!(run(vec![Op::Pop, Op::Return], vec![], vec![]), Err(VmError::StackUnderflow));
    assert_eq!(VmError::StackUnderflow.message(), "stack underflow");
}

#[test]
fn constants_and_aggregates() {
    let constants = vec![
        Const::FieldName("a".into()),
        Const::FieldName("b".into()),
        Const::Int(1),
        Const::Str("x".into()),
        Const::VariantName("Some".into()),
        Const::Unit,
        Const::Bool(true),
        Const::Bytes(vec![1, 2]),
        Const::Float(1.5f64.to_bits()),
    ];
    let run = |code: Vec<Op>| run(code, constants.clone(), vec![]);
    let rec = vec![
        Op::PushConst(2),
        Op::PushConst(3),
        Op::MakeRecord { shape_idx: 0, field_count: 2 },
    ];
    let with = |tail: Vec<Op>| {
        let mut code = rec.clone();
        code.extend(tail);
        code.push(Op::Return);
        run(code)
    };
    assert_eq!(
        with(vec![]),
        Ok(Value::Record {
            shape_id: 0,
            fields: vec![
                Field { name: "a".into(), value: Value::Int(1) },
                Field { name: "b".into(), value: Value::Str("x".into()) },
            ],
        }),
    );
    assert_eq!(
        with(vec![Op::GetField { name_idx: 1, site_idx: 0 }]),
        Ok(Value::Str("x".into())),
    );
    assert!(matches!(
        with(vec![Op::GetField { name_idx: 4, site_idx: 0 }]),
        Err(VmError::TypeMismatch(_)),
    ));
    let some = || vec![Op::PushConst(2), Op::MakeVariant { name_idx: 4, arity: 1 }];
    let mut code = some();
    code.extend([Op::GetVariantArg(0), Op::Return]);
    assert_eq!(run(code), Ok(Value::Int(1)));
    let mut code = some();
    code.extend([Op::TestVariant(4), Op::Return]);
    assert_eq!(run(code), Ok(Value::Bool(true)));
    let code = vec![
        Op::PushConst(5),
        Op::PushConst(6),
        Op::PushConst(7),
        Op::PushConst(8),
        Op::MakeTuple(4),
        Op::GetElem(2),
        Op::Return,
    ];
    assert_eq!(run(code), Ok(Value::Bytes(vec![1, 2])));
    let code = vec![
        Op::MakeList(0),
        Op::PushConst(2),
        Op::ListAppend,
        Op::GetListLen,
        Op::Return,
    ];
    assert_eq!(run(code), Ok(Value::Int(1)));
    assert_eq!(run(vec![Op::Panic(3)]), Err(VmError::Panic("x".into())));
}

#[test]
fn stack_records_are_counted_and_materialize() {
    let constants = vec![Const::FieldName("a".into()), Const::FieldName("b".into()), Const::Int(4)];
    let code = vec![
        Op::PushConst(2),
        Op::PushConst(2),
        Op::AllocStackRecord { shape_idx: 0, field_count: 2 },
        Op::GetField { name_idx: 1, site_idx: 0 },
        Op::Return,
    ];
    let p = program(vec![function("main", 0, 0, code)], constants);
    let mut vm = Vm::new(&p, desk());
    vm.keep_ic_stats();
    assert_eq!(vm.call("main", vec![]), Ok(Value::Int(4)));
    assert_eq!(vm.call("main", vec![]), Ok(Value::Int(4)));
    let counts = vm.alloc_counts();
    assert_eq!(counts.stack_record_allocs, 2);
    assert_eq!(counts.heap_record_allocs, 0);
    let table = vm.ic_stats().unwrap().table();
    assert_eq!(table, "fn_id\tsite_idx\tshape_id\thits\n0\t0\t0\t2\n");
}

#[test]
fn request_scopes_hold_arena_records() {
    let constants = vec![Const::FieldName("a".into()), Const::FieldName("b".into()), Const::Int(4)];
    let code = vec![
        Op::PushConst(2),
        Op::PushConst(2),
        Op::AllocArenaRecord { shape_idx: 0, field_count: 2 },
        Op::Return,
    ];
    let mut f = function("main", 0, 0, code);
    f.effects = vec![DeclaredEffect { kind: "io".into(), arg: None }];
    let mut p = program(vec![f], constants);
    // The second name is no name of a field.
    p.record_shapes.push(vec![0, 2]);
    let mut vm = Vm::new(&p, desk());
    assert!(!vm.arena_scope_active());
    // Without a scope the record goes to the heap.
    let heap = vm.call("main", vec![]).unwrap();
    assert!(matches!(heap, Value::Record { .. }));
    let scope = vm.enter_request_scope();
    assert!(vm.arena_scope_active());
    let handle = vm.call("main", vec![]).unwrap();
    assert!(matches!(handle, Value::ArenaRecord { .. }));
    assert_eq!(vm.get_record_field(&handle, "b"), Some(Value::Int(4)));
    assert_eq!(vm.get_record_field(&handle, "c"), None);
    assert_eq!(
        vm.value_to_json(&handle),
        Ok(Json::Object(vec![
            Member { key: "a".into(), value: Json::Int(4) },
            Member { key: "b".into(), value: Json::Int(4) },
        ])),
    );
    let reshaped = |shape_id: u32| match &handle {
        Value::ArenaRecord { slab_start, field_count, .. } => Value::ArenaRecord {
            shape_id,
            slab_start: *slab_start,
            field_count: *field_count,
        },
        _ => Value::Unit,
    };
    assert_eq!(
        vm.value_to_json(&Value::List(vec![reshaped(1), reshaped(9)])),
        Ok(Json::Array(vec![
            Json::Object(vec![Member { key: "a".into(), value: Json::Int(4) }]),
            Json::Null,
        ])),
    );
    assert!(vm.value_to_json(&Value::ArenaTuple { slab_start: 90, arity: 1 }).is_err());
    let owned = vm.materialize_arena_handles(handle).unwrap();
    assert_eq!(owned, heap);
    vm.exit_request_scope(scope);
    assert!(!vm.arena_scope_active());
    let counts = vm.alloc_counts();
    assert_eq!(counts.arena_record_allocs, 1);
}

#[test]
fn jumps_and_loops() {
    // i := 0; while i < n { i := i + 1 }; i
    let code = vec![
        Op::PushConst(0),
        Op::StoreLocal(1),
        Op::LoadLocal(1),
        Op::LoadLocal(0),
        Op::IntLt,
        Op::JumpIfNot(5),
        Op::LoadLocal(1),
        Op::PushConst(1),
        Op::IntAdd,
        Op::StoreLocal(1),
        Op::Jump(-9),
        Op::LoadLocal(1),
        Op::Return,
    ];
    let constants = vec![Const::Int(0), Const::Int(1)];
    assert_eq!(run(code.clone(), constants.clone(), vec![Value::Int(10)]), Ok(Value::Int(10)));
    let p = program(vec![function("main", 1, 2, code)], constants);
    let mut vm = Vm::new(&p, desk());
    vm.set_step_limit(50);
    assert_eq!(
        vm.call("main", vec![Value::Int(1000)]),
        Err(VmError::Panic("step limit exceeded in `main` (51 > 50)".into())),
    );
}

#[test]
fn fused_code_gives_the_same_results() {
    let consts = || vec![Const::Int(5), Const::Int(14)];
    let code = vec![
        Op::LoadLocal(0),
        Op::PushConst(0),
        Op::IntAdd,
        Op::StoreLocal(1),
        Op::LoadLocal(1),
        Op::LoadLocal(0),
        Op::IntMul,
        Op::StoreLocal(2),
        Op::LoadLocal(2),
        Op::StoreLocal(3),
        Op::LoadLocal(3),
        Op::PushConst(1),
        Op::IntEq,
        Op::JumpIfNot(2),
        Op::PushConst(0),
        Op::Return,
        Op::LoadLocal(3),
        Op::Return,
    ];
    let mut fused = code.clone();
    apply_peephole(&mut fused, &consts());
    apply_peephole_slice2(&mut fused);
    apply_peephole_slice4(&mut fused);
    apply_peephole_slice5(&mut fused, &consts());
    apply_peephole_slice6(&mut fused);
    assert!(matches!(fused[0], Op::LoadLocalAddIntConstStoreLocal { .. }));
    assert!(matches!(fused[4], Op::LoadLocalMulLocal { .. }));
    assert!(matches!(fused[8], Op::LoadLocalStoreEqIntConstJumpIfNot { .. }));
    for (x, y) in [(2, 5), (3, 24)] {
        let args = || vec![Value::Int(x)];
        assert_eq!(run(code.clone(), consts(), args()), Ok(Value::Int(y)));
        assert_eq!(run(fused.clone(), consts(), args()), Ok(Value::Int(y)));
    }
}

#[test]
fn calls_recursion_and_tail_calls() {
    // down(n) = if n == 0 then 0 else down(n - 1), once with calls, once with
    // tail calls.
    let body = |tail: bool, id: u32| {
        let again = if tail {
            Op::TailCall { fn_id: id, arity: 1, node_id_idx: 2 }
        } else {
            Op::Call { fn_id: id, arity: 1, node_id_idx: 2 }
        };
        vec![
            Op::LoadLocal(0),
            Op::PushConst(0),
            Op::IntEq,
            Op::JumpIfNot(2),
            Op::PushConst(0),
            Op::Return,
            Op::LoadLocal(0),
            Op::PushConst(1),
            Op::IntSub,
            again,
            Op::Return,
        ]
    };
    let constants = vec![Const::Int(0), Const::Int(1), Const::NodeId("n".into())];
    let p = program(
        vec![function("down", 1, 1, body(false, 0)), function("tail", 1, 1, body(true, 1))],
        constants,
    );
    let mut vm = Vm::new(&p, desk());
    assert_eq!(vm.call("down", vec![Value::Int(100)]), Ok(Value::Int(0)));
    assert_eq!(
        vm.call("down", vec![Value::Int(5000)]),
        Err(VmError::CallStackOverflow(MAX_CALL_DEPTH)),
    );
    assert_eq!(vm.call("tail", vec![Value::Int(5000)]), Ok(Value::Int(0)));
    assert_eq!(
        vm.call("down", vec![]),
        Err(VmError::Panic("arity mismatch calling down".into())),
    );
    assert_eq!(
        vm.call("up", vec![]),
        Err(VmError::Panic("no function `up`".into())),
    );
    // A failed call leaves nothing behind.
    assert_eq!(vm.call("down", vec![Value::Int(3)]), Ok(Value::Int(0)));
}

fn add_one() -> Function {
    function("add_one", 1, 1, vec![Op::LoadLocal(0), Op::PushConst(0), Op::IntAdd, Op::Return])
}

fn closure(fn_id: u32, captures: Vec<Value>) -> Value {
    Value::Closure { fn_id, body_hash: ZERO_BODY_HASH, captures }
}

#[test]
fn closures_are_called_with_their_captures() {
    let sum = function("sum", 2, 2, two(Op::IntAdd));
    let p = program(vec![sum, add_one()], vec![Const::Int(1)]);
    let mut vm = Vm::new(&p, desk());
    let f = closure(0, vec![Value::Int(40)]);
    assert_eq!(vm.invoke_closure_1(f, Value::Int(2)), Ok(Value::Int(42)));
    let g = closure(0, vec![]);
    assert_eq!(vm.invoke_closure_2(g, Value::Int(1), Value::Int(2)), Ok(Value::Int(3)));
    let h = closure(1, vec![]);
    assert_eq!(vm.invoke_closure_value(h, vec![Value::Int(1)]), Ok(Value::Int(2)));
    assert!(vm.invoke_closure_value(Value::Unit, vec![]).is_err());
}

fn list_op(op: Op, f: Function, extra: Vec<Value>, xs: Value) -> Result<Value, VmError> {
    let n = extra.len() as u16;
    let mut code = vec![Op::LoadLocal(0)];
    for i in 0..n {
        code.push(Op::LoadLocal(i + 1));
    }
    code.extend([Op::MakeClosure { fn_id: 1, capture_count: 0 }, op, Op::Return]);
    let p = program(vec![function("main", n + 1, n + 1, code), f], vec![Const::Int(1)]);
    let mut vm = Vm::new(&p, desk());
    let mut args = vec![xs];
    args.extend(extra);
    vm.call("main", args)
}

#[test]
fn list_operations() {
    let id = 0;
    assert_eq!(
        list_op(Op::ListMap { node_id_idx: id }, add_one(), vec![], ints(&[1, 2])),
        Ok(ints(&[2, 3])),
    );
    let small = function(
        "small",
        1,
        1,
        vec![Op::LoadLocal(0), Op::PushConst(0), Op::IntLe, Op::Return],
    );
    assert_eq!(
        list_op(Op::ListFilter { node_id_idx: id }, small, vec![], ints(&[3, 1, 2, 0])),
        Ok(ints(&[1, 0])),
    );
    let sum = function("sum", 2, 2, two(Op::IntAdd));
    assert_eq!(
        list_op(Op::ListFold { node_id_idx: id }, sum, vec![Value::Int(10)], ints(&[1, 2])),
        Ok(Value::Int(13)),
    );
    let own = || function("own", 1, 1, vec![Op::LoadLocal(0), Op::Return]);
    assert_eq!(
        list_op(Op::SortByKey { node_id_idx: id }, own(), vec![], ints(&[3, 1, 2])),
        Ok(ints(&[1, 2, 3])),
    );
    assert_eq!(
        list_op(Op::ParallelMap { node_id_idx: id }, own(), vec![], ints(&[3, 1])),
        Ok(ints(&[3, 1])),
    );
    assert!(matches!(
        list_op(Op::ListMap { node_id_idx: id }, own(), vec![], Value::Unit),
        Err(VmError::TypeMismatch(_)),
    ));
}

#[test]
fn parallel_work_is_dealt_and_gathered() {
    assert_eq!(par_max_concurrency(Some(3), Some(8)), 3);
    assert_eq!(par_max_concurrency(Some(0), Some(8)), 8);
    assert_eq!(par_max_concurrency(None, None), 4);
    assert_eq!(par_max_concurrency(Some(1000), None), 64);
    assert_eq!(worker_count(4, 2), 2);
    assert_eq!(worker_count(4, 0), 1);
    let items = (0..5).map(Value::Int).collect();
    let shares = deal(items, 2);
    let places: Vec<Vec<usize>> =
        shares.iter().map(|s| s.iter().map(|(i, _)| *i).collect()).collect();
    assert_eq!(places, vec![vec![0, 2, 4], vec![1, 3]]);
    assert_eq!(shares[1][1].1, Value::Int(3));
    assert_eq!(
        gather(vec![Some(Ok(Value::Int(1))), Some(Ok(Value::Int(2)))]),
        Ok(vec![Value::Int(1), Value::Int(2)]),
    );
    assert_eq!(
        gather(vec![Some(Ok(Value::Int(1))), Some(Err("no".into())), None]),
        Err(VmError::Effect("par_map worker: no".into())),
    );
    assert_eq!(
        gather(vec![None]),
        Err(VmError::Panic("par_map worker did not produce a result".into())),
    );
}

struct Echo {
    budget: u64,
    log: Rc<RefCell<Vec<String>>>,
}

impl EffectHandler for Echo {
    fn dispatch(&mut self, kind: &str, op: &str, args: Vec<Value>) -> Result<Value, String> {
        self.log.borrow_mut().push(format!("{kind}.{op}/{}", args.len()));
        if op == "fail" {
            Err("refused".into())
        } else {
            Ok(Value::Tuple(args))
        }
    }

    fn note_call_budget(&mut self, cost: u64) -> Result<(), String> {
        if cost > self.budget {
            return Err(format!("budget exceeded: {cost}"));
        }
        self.budget -= cost;
        Ok(())
    }

    fn enter_request_scope(&mut self) -> u64 {
        self.log.borrow_mut().push("open".into());
        7
    }

    fn exit_request_scope(&mut self, scope_id: u64) {
        self.log.borrow_mut().push(format!("close {scope_id}"));
    }

    fn spawn_for_worker(&mut self) -> Option<u64> {
        None
    }
}

#[test]
fn scopes_go_to_the_handler() {
    let p = program(vec![function("main", 0, 0, vec![])], vec![]);
    let log = Rc::new(RefCell::new(vec![]));
    let echo = Box::new(Echo { budget: 0, log: Rc::clone(&log) });
    let mut vm = Vm::with_handler(&p, echo, desk());
    let scope = vm.enter_request_scope();
    assert_eq!(scope, 7);
    vm.exit_request_scope(scope);
    drop(vm);
    assert_eq!(*log.borrow(), ["open", "close 7"]);
    let mut alone = Vm::new(&p, desk());
    assert_eq!(alone.enter_request_scope(), 0);
}

struct Recorder {
    log: Rc<RefCell<Vec<String>>>,
}

impl Tracer for Recorder {
    fn enter_call(&mut self, node_id: &str, name: &str, _args: &[Value]) {
        self.log.borrow_mut().push(format!("call {node_id} {name}"));
    }

    fn enter_effect(&mut self, node_id: &str, kind: &str, op: &str, _args: &[Value]) {
        self.log.borrow_mut().push(format!("effect {node_id} {kind}.{op}"));
    }

    fn exit_ok(&mut self, _value: &Value) {
        self.log.borrow_mut().push("ok".into());
    }

    fn exit_err(&mut self, message: &str) {
        self.log.borrow_mut().push(format!("err {message}"));
    }

    fn exit_call_tail(&mut self) {
        self.log.borrow_mut().push("tail".into());
    }

    fn override_effect(&mut self, node_id: &str) -> Option<Value> {
        if node_id == "n_fixed" {
            Some(Value::Str("recorded".into()))
        } else {
            None
        }
    }
}

fn effect_program(node: &str, op: &str) -> Program {
    let constants = vec![
        Const::Str("io".into()),
        Const::Str(op.into()),
        Const::NodeId(node.into()),
        Const::Int(5),
    ];
    let code = vec![
        Op::PushConst(3),
        Op::EffectCall { kind_idx: 0, op_idx: 1, arity: 1, node_id_idx: 2 },
        Op::Return,
    ];
    let mut f = function("main", 0, 0, code);
    f.effects = vec![DeclaredEffect { kind: "io".into(), arg: None }];
    program(vec![f], constants)
}

#[test]
fn effects_go_to_the_handler() {
    let log = Rc::new(RefCell::new(vec![]));
    let p = effect_program("n_1", "put");
    let mut vm = Vm::with_handler(
        &p,
        Box::new(Echo { budget: 0, log: Rc::clone(&log) }),
        desk(),
    );
    let trace = Rc::new(RefCell::new(vec![]));
    vm.set_tracer(Box::new(Recorder { log: Rc::clone(&trace) }));
    assert_eq!(vm.call("main", vec![]), Ok(Value::Tuple(vec![Value::Int(5)])));
    assert_eq!(*log.borrow(), vec!["io.put/1".to_string()]);
    assert_eq!(*trace.borrow(), vec!["effect n_1 io.put".to_string(), "ok".to_string()]);

    let p = effect_program("n_1", "fail");
    let mut vm = Vm::with_handler(
        &p,
        Box::new(Echo { budget: 0, log: Rc::clone(&log) }),
        desk(),
    );
    assert_eq!(vm.call("main", vec![]), Err(VmError::Effect("refused".into())));

    let p = effect_program("n_1", "put");
    let mut vm = Vm::new(&p, desk());
    assert_eq!(
        vm.call("main", vec![]),
        Err(VmError::Effect("effects not permitted (attempted io.put)".into())),
    );

    let p = effect_program("n_fixed", "put");
    let mut vm = Vm::with_handler(&p, Box::new(DenyAllEffects), desk());
    vm.set_tracer(Box::new(Recorder { log: trace }));
    assert_eq!(vm.call("main", vec![]), Ok(Value::Str("recorded".into())));
}

#[test]
fn budgets_are_charged_per_call() {
    let mut costly = function("costly", 0, 0, vec![Op::PushConst(0), Op::Return]);
    costly.effects =
        vec![DeclaredEffect { kind: "budget".into(), arg: Some(EffectArg::Int(3)) }];
    let main = function(
        "main",
        0,
        0,
        vec![Op::Call { fn_id: 0, arity: 0, node_id_idx: 1 }, Op::Return],
    );
    let mut main2 = main.clone();
    main2.effects = vec![DeclaredEffect { kind: "io".into(), arg: None }];
    let p = program(vec![costly, main2], vec![Const::Unit, Const::NodeId("n".into())]);
    let log = Rc::new(RefCell::new(vec![]));
    let mut vm = Vm::with_handler(&p, Box::new(Echo { budget: 4, log }), desk());
    assert_eq!(vm.call("main", vec![]), Ok(Value::Unit));
    assert_eq!(
        vm.call("main", vec![]),
        Err(VmError::Effect("budget exceeded: 3".into())),
    );
}

#[test]
fn refined_parameters_are_checked() {
    let positive = CExpr::BinOp {
        op: ">".into(),
        lhs: Box::new(CExpr::Var { name: "n".into() }),
        rhs: Box::new(CExpr::Literal { value: CLit::Int { value: 0 } }),
    };
    let mut f = function("pos", 1, 1, vec![Op::LoadLocal(0), Op::Return]);
    f.refinements =
        vec![Some(Refinement { binding: "n".into(), predicate: Arc::new(positive) })];
    let main = function(
        "main",
        1,
        1,
        vec![Op::LoadLocal(0), Op::Call { fn_id: 0, arity: 1, node_id_idx: 0 }, Op::Return],
    );
    let p = program(vec![f, main], vec![Const::NodeId("n".into())]);
    let mut vm = Vm::new(&p, desk());
    assert_eq!(vm.call("main", vec![Value::Int(2)]), Ok(Value::Int(2)));
    let e = vm.call("main", vec![Value::Int(-2)]).unwrap_err();
    assert!(matches!(
        &e,
        VmError::RefinementFailed { fn_name, param_index: 0, binding, .. }
            if fn_name == "pos" && binding == "n"
    ));
    assert!(e.message().starts_with("refinement violated: argument 0 of `pos` (binding `n`): "));
}

#[test]
fn pure_calls_are_remembered() {
    let main = function(
        "main",
        1,
        1,
        vec![
            Op::LoadLocal(0),
            Op::Call { fn_id: 1, arity: 1, node_id_idx: 1 },
            Op::LoadLocal(0),
            Op::Call { fn_id: 1, arity: 1, node_id_idx: 1 },
            Op::IntAdd,
            Op::Return,
        ],
    );
    let p = program(vec![main, add_one()], vec![Const::Int(1), Const::NodeId("n".into())]);
    let mut vm = Vm::new(&p, desk());
    assert_eq!(vm.call("main", vec![Value::Int(1)]), Ok(Value::Int(4)));
    assert_eq!(vm.pure_memo_hits, 1);
}

struct Tens;

impl JitHook for Tens {
    fn try_call(
        &mut self,
        fn_id: u32,
        args: &[Value],
        steps: u64,
        _step_limit: u64,
    ) -> (Result<Option<Value>, VmError>, u64) {
        match (fn_id, args) {
            (1, [Value::Int(n)]) if *n >= 10 => (Ok(Some(Value::Int(n * 10))), steps + 5),
            _ => (Ok(None), steps),
        }
    }
}

#[test]
fn calls_are_offered_to_the_hook() {
    let main = function(
        "main",
        1,
        1,
        vec![Op::LoadLocal(0), Op::Call { fn_id: 1, arity: 1, node_id_idx: 1 }, Op::Return],
    );
    let p = program(vec![main, add_one()], vec![Const::Int(1), Const::NodeId("n".into())]);
    let mut vm = Vm::new(&p, desk());
    vm.set_jit_hook(Some(Box::new(Tens)));
    assert_eq!(vm.call("main", vec![Value::Int(1)]), Ok(Value::Int(2)));
    assert_eq!(vm.call("main", vec![Value::Int(12)]), Ok(Value::Int(120)));
    vm.set_jit_hook(None);
}

/// Answers without counting a step, and fails on zero.
struct Free;

impl JitHook for Free {
    fn try_call(
        &mut self,
        fn_id: u32,
        args: &[Value],
        steps: u64,
        _step_limit: u64,
    ) -> (Result<Option<Value>, VmError>, u64) {
        match (fn_id, args) {
            (1, [Value::Int(0)]) => (Err(VmError::Effect("asked".into())), steps),
            (1, [Value::Int(n)]) => (Ok(Some(Value::Int(*n))), steps),
            _ => (Ok(None), steps),
        }
    }
}

#[test]
fn the_hook_counts_the_steps() {
    let main = function(
        "main",
        1,
        1,
        vec![Op::LoadLocal(0), Op::Call { fn_id: 1, arity: 1, node_id_idx: 1 }, Op::Return],
    );
    let p = program(vec![main, add_one()], vec![Const::Int(1), Const::NodeId("n".into())]);
    let run = |limit: u64, n: i64| {
        let mut vm = Vm::new(&p, desk());
        vm.set_step_limit(limit);
        vm.set_jit_hook(Some(Box::new(Free)));
        vm.call("main", vec![Value::Int(n)])
    };
    assert_eq!(run(2, 7), Ok(Value::Int(7)));
    assert!(matches!(run(1, 7), Err(VmError::Panic(_))));
    // The call is offered though its op took the last step.
    assert_eq!(run(1, 0), Err(VmError::Effect("asked".into())));
    // A call from outside is offered though no steps are left, and is free.
    let mut vm = Vm::new(&p, desk());
    vm.set_step_limit(0);
    vm.steps = 1;
    vm.set_jit_hook(Some(Box::new(Free)));
    assert_eq!(vm.invoke(1, vec![Value::Int(3)]), Ok(Value::Int(3)));
    assert_eq!(vm.steps, 1);
    assert!(matches!(vm.call("main", vec![Value::Int(3)]), Err(VmError::Panic(_))));
}

/// Sets the step count back at every call.
struct Rewind;

impl JitHook for Rewind {
    fn try_call(
        &mut self,
        _fn_id: u32,
        _args: &[Value],
        _steps: u64,
        _step_limit: u64,
    ) -> (Result<Option<Value>, VmError>, u64) {
        (Ok(None), 0)
    }
}

#[test]
fn the_hook_may_count_down() {
    let main = function(
        "main",
        1,
        1,
        vec![Op::LoadLocal(0), Op::Call { fn_id: 1, arity: 1, node_id_idx: 1 }, Op::Return],
    );
    let p = program(vec![main, add_one()], vec![Const::Int(1), Const::NodeId("n".into())]);
    let mut vm = Vm::new(&p, desk());
    vm.steps = 90;
    vm.set_step_limit(10);
    assert!(matches!(vm.call("main", vec![Value::Int(1)]), Err(VmError::Panic(_))));
    vm.set_jit_hook(Some(Box::new(Rewind)));
    assert_eq!(vm.call("main", vec![Value::Int(1)]), Ok(Value::Int(2)));
    assert!(vm.steps < 10);
}

#[test]
fn the_tracer_hears_of_a_call_before_the_hook() {
    let call = Op::Call { fn_id: 1, arity: 1, node_id_idx: 1 };
    let tail = Op::TailCall { fn_id: 1, arity: 1, node_id_idx: 1 };
    let heard = |op: Op, n: i64| {
        let main = function("main", 1, 1, vec![Op::LoadLocal(0), op, Op::Return]);
        let p = program(vec![main, add_one()], vec![Const::Int(1), Const::NodeId("n".into())]);
        let log = Rc::new(RefCell::new(vec![]));
        let mut vm = Vm::new(&p, desk());
        vm.set_tracer(Box::new(Recorder { log: Rc::clone(&log) }));
        vm.set_jit_hook(Some(Box::new(Free)));
        let r = vm.call("main", vec![Value::Int(n)]);
        drop(vm);
        let events = log.borrow().clone();
        (r.is_ok(), events)
    };
    assert_eq!(heard(call, 7), (true, vec!["call n add_one".to_string(), "ok".into()]));
    assert_eq!(heard(call, 0), (false, vec!["call n add_one".to_string()]));
    assert_eq!(
        heard(tail, 7),
        (true, vec!["tail".to_string(), "call n add_one".into(), "ok".into()]),
    );
    assert_eq!(heard(tail, 0), (false, vec!["tail".to_string(), "call n add_one".into()]));
}

fn conc(op: &str, arity: u16) -> Program {
    let mut code: Vec<Op> = (0..arity).map(Op::LoadLocal).collect();
    code.extend([Op::EffectCall { kind_idx: 0, op_idx: 1, arity, node_id_idx: 2 }, Op::Return]);
    let constants = vec![
        Const::Str("conc".into()),
        Const::Str(op.into()),
        Const::NodeId("n".into()),
        Const::Int(1),
    ];
    let mut main = function("main", arity, arity.max(1), code);
    main.effects = vec![DeclaredEffect { kind: "conc".into(), arg: None }];
    // (state, msg) -> (state + msg, state)
    let step = function(
        "step",
        2,
        2,
        vec![
            Op::LoadLocal(0),
            Op::LoadLocal(1),
            Op::IntAdd,
            Op::LoadLocal(0),
            Op::MakeTuple(2),
            Op::Return,
        ],
    );
    program(vec![main, step], constants)
}

fn variant(name: &str, args: Vec<Value>) -> Value {
    Value::Variant { name: name.into(), args }
}

#[test]
fn actors_keep_their_state() {
    let p = conc("ask", 2);
    let shared = shared();
    let mut vm = Vm::new(&p, Box::new(Desk { shared: Rc::clone(&shared) }));
    let actor = |cell| Value::Actor(shared.borrow_mut().actors.insert(cell));
    let counter = actor(ActorCell {
        state: Value::Int(10),
        handler: ActorHandler::Lex(closure(1, vec![])),
    });
    assert_eq!(vm.call("main", vec![counter.duplicate(), Value::Int(5)]), Ok(Value::Int(10)));
    assert_eq!(vm.call("main", vec![counter.duplicate(), Value::Int(5)]), Ok(Value::Int(15)));
    // Another machine sees the same actor.
    let mut other = Vm::new(&p, Box::new(Desk { shared: Rc::clone(&shared) }));
    assert_eq!(other.call("main", vec![counter.duplicate(), Value::Int(1)]), Ok(Value::Int(20)));
    assert_eq!(vm.call("main", vec![counter, Value::Int(0)]), Ok(Value::Int(21)));
    let native = actor(ActorCell {
        state: Value::Unit,
        handler: ActorHandler::Native(NativeActorHandler { id: 7 }),
    });
    assert_eq!(vm.call("main", vec![native, Value::Int(5)]), Ok(ints(&[5])));
    let closed = actor(ActorCell {
        state: Value::Unit,
        handler: ActorHandler::Native(NativeActorHandler { id: 8 }),
    });
    assert_eq!(
        vm.call("main", vec![closed, Value::Int(5)]),
        Err(VmError::Effect("conc.ask: native handler error: closed".into())),
    );
    assert_eq!(
        vm.call("main", vec![Value::Unit, Value::Int(5)]),
        Err(VmError::Effect("conc.ask: first arg must be an Actor, got Unit".into())),
    );
    assert_eq!(
        vm.call("main", vec![Value::Actor(99), Value::Int(5)]),
        Err(VmError::Effect("conc.ask: no such actor".into())),
    );
}

#[test]
fn an_actor_is_back_after_a_failed_message() {
    let p = conc("ask", 2);
    let shared = shared();
    let mut vm = Vm::new(&p, Box::new(Desk { shared: Rc::clone(&shared) }));
    let handle = shared.borrow_mut().actors.insert(ActorCell {
        state: Value::Int(10),
        handler: ActorHandler::Lex(closure(1, vec![])),
    });
    let text = "conc.ask: handler error: Panic(\"expected Int, got Unit\")";
    assert_eq!(
        vm.call("main", vec![Value::Actor(handle), Value::Unit]),
        Err(VmError::Effect(text.into())),
    );
    match shared.borrow_mut().actors.take(handle) {
        Taken::Cell(cell) => assert_eq!(cell.state, Value::Int(10)),
        other => panic!("{other:?}"),
    }
    assert!(matches!(shared.borrow_mut().actors.take(handle), Taken::Busy));
    assert!(matches!(shared.borrow_mut().actors.take(handle + 1), Taken::Missing));
}

#[test]
fn actors_are_spawned() {
    let p = conc("spawn", 2);
    let shared = shared();
    let mut vm = Vm::new(&p, Box::new(Desk { shared: Rc::clone(&shared) }));
    let mut other = Vm::new(&p, Box::new(Desk { shared: Rc::clone(&shared) }));
    let a = vm.call("main", vec![Value::Int(1), closure(1, vec![])]);
    assert_eq!(a, Ok(Value::Actor(0)));
    let b = other.call("main", vec![Value::Int(1), closure(1, vec![])]);
    assert_eq!(b, Ok(Value::Actor(1)));
    assert_eq!(
        vm.call("main", vec![Value::Int(1), Value::Int(2)]),
        Err(VmError::Effect("conc.spawn: handler must be a Closure, got Int(2)".into())),
    );
}

#[test]
fn actors_are_found_by_name() {
    let shared = shared();
    let on = |op: &str, args: Vec<Value>| {
        let p = conc(op, args.len() as u16);
        let mut vm = Vm::new(&p, Box::new(Desk { shared: Rc::clone(&shared) }));
        vm.call("main", args)
    };
    let name = || Value::Str("db".into());
    assert_eq!(on("lookup", vec![name()]), Ok(variant("None", vec![])));
    assert_eq!(
        on("unregister", vec![name()]),
        Ok(variant("Err", vec![variant("NotRegistered", vec![name()])])),
    );
    assert_eq!(on("registered", vec![]), Ok(Value::List(vec![])));
    assert_eq!(
        on("lookup", vec![Value::Int(-1)]),
        Err(VmError::Effect("conc.lookup: name must be Str, got Some(Int(-1))".into())),
    );
    assert_eq!(
        on("lookup", vec![]),
        Err(VmError::Effect("conc.lookup: name must be Str, got None".into())),
    );
    assert_eq!(
        on("register", vec![Value::Actor(3), name()]),
        Ok(variant("Ok", vec![Value::Unit])),
    );
    // Machines that were made later know the name.
    assert_eq!(
        on("register", vec![Value::Actor(4), name()]),
        Ok(variant("Err", vec![variant("AlreadyRegistered", vec![name()])])),
    );
    assert_eq!(on("lookup", vec![name()]), Ok(variant("Some", vec![Value::Actor(3)])));
    assert_eq!(on("registered", vec![]), Ok(Value::List(vec![name()])));
    assert_eq!(on("unregister", vec![name()]), Ok(variant("Ok", vec![Value::Unit])));
    assert_eq!(on("lookup", vec![name()]), Ok(variant("None", vec![])));
    assert_eq!(on("dance", vec![]), Err(VmError::Effect("unknown conc.dance".into())));
}

/// Names a handler for every worker.
struct Chief {
    seats: u64,
}

impl EffectHandler for Chief {
    fn dispatch(&mut self, _kind: &str, _op: &str, _args: Vec<Value>) -> Result<Value, String> {
        Err("no".into())
    }

    fn note_call_budget(&mut self, _budget_cost: u64) -> Result<(), String> {
        Ok(())
    }

    fn enter_request_scope(&mut self) -> u64 {
        0
    }

    fn exit_request_scope(&mut self, _scope_id: u64) {}

    fn spawn_for_worker(&mut self) -> Option<u64> {
        self.seats += 1;
        Some(self.seats)
    }
}

#[test]
fn every_worker_gets_a_handler() {
    let code = vec![
        Op::LoadLocal(0),
        Op::MakeClosure { fn_id: 2, capture_count: 0 },
        Op::ParallelMap { node_id_idx: 0 },
        Op::Return,
    ];
    let p = program(
        vec![function("main", 1, 1, code), add_one(), add_one()],
        vec![Const::NodeId("n".into())],
    );
    let mut vm = Vm::with_handler(&p, Box::new(Chief { seats: 10 }), desk());
    assert_eq!(vm.call("main", vec![ints(&[7, 8, 9])]), Ok(ints(&[11, 12, 11])));
    assert_eq!(vm.call("main", vec![ints(&[7])]), Ok(ints(&[13])));
    assert_eq!(vm.call("main", vec![ints(&[])]), Ok(ints(&[])));
    assert_eq!(vm.call("main", vec![ints(&[7])]), Ok(ints(&[15])));
    let mut vm = Vm::new(&p, desk());
    assert_eq!(vm.call("main", vec![ints(&[7])]), Ok(Value::List(vec![Value::Unit])));
}

#[test]
fn parsers_run_inside_the_machine() {
    let constants = vec![
        Const::Str("parser".into()),
        Const::Str("run".into()),
        Const::NodeId("n".into()),
        Const::Int(1),
    ];
    let code = vec![
        Op::LoadLocal(0),
        Op::LoadLocal(1),
        Op::EffectCall { kind_idx: 0, op_idx: 1, arity: 2, node_id_idx: 2 },
        Op::Return,
    ];
    let mut main = function("main", 2, 2, code);
    main.effects = vec![DeclaredEffect { kind: "parser".into(), arg: None }];
    let length = function(
        "length",
        1,
        1,
        vec![Op::LoadLocal(0), Op::GetListLen, Op::Return],
    );
    let p = program(vec![main, length], constants);
    let mut vm = Vm::new(&p, desk());
    let rec = |fields: Vec<(&str, Value)>| Value::Record {
        shape_id: 0,
        fields: fields
            .into_iter()
            .map(|(n, value)| Field { name: n.into(), value })
            .collect(),
    };
    let kind = |k: &str| ("kind", Value::Str(k.into()));
    let digits = || rec(vec![kind("Many"), ("p", rec(vec![kind("Digit")]))]);
    let node = rec(vec![kind("Map"), ("p", digits()), ("f", closure(1, vec![]))]);
    assert_eq!(
        vm.call("main", vec![node, Value::Str("123x".into())]),
        Ok(variant("Ok", vec![Value::Int(3)])),
    );
    let r = vm.call("main", vec![rec(vec![kind("Digit")]), Value::Str("x".into())]).unwrap();
    assert_eq!(
        r,
        variant(
            "Err",
            vec![rec(vec![("pos", Value::Int(0)), ("message",
                Value::Str("expected digit".into()))])],
        ),
    );
    // The machine can be asked for closures from outside, too.
    let node = rec(vec![kind("Map"), ("p", digits()), ("f", closure(1, vec![]))]);
    assert_eq!(run_parser(&node, "12x", 0, &mut vm), Ok((Value::Int(2), 2)));
    let node = rec(vec![kind("Map"), ("p", rec(vec![kind("Digit")])), ("f", closure(1, vec![]))]);
    let text = "map: closure failed: TypeMismatch(\"GetListLen on non-list: Str(\\\"1\\\")\")";
    assert_eq!(run_parser(&node, "1", 0, &mut vm), Err((0, text.into())));
}

#[test]
fn machines_share_shape_ids() {
    let constants = vec![
        Const::Str("parser".into()),
        Const::Str("run".into()),
        Const::NodeId("n".into()),
    ];
    let code = vec![
        Op::LoadLocal(0),
        Op::LoadLocal(1),
        Op::EffectCall { kind_idx: 0, op_idx: 1, arity: 2, node_id_idx: 2 },
        Op::Return,
    ];
    let mut main = function("main", 2, 2, code);
    main.effects = vec![DeclaredEffect { kind: "parser".into(), arg: None }];
    let p = program(vec![main], constants);
    let shared = shared();
    let shape = || {
        let mut vm = Vm::new(&p, Box::new(Desk { shared: Rc::clone(&shared) }));
        let digit = Value::Record {
            shape_id: 0,
            fields: vec![Field { name: "kind".into(), value: Value::Str("Digit".into()) }],
        };
        match vm.call("main", vec![digit, Value::Str("x".into())]) {
            Ok(Value::Variant { args, .. }) => match &args[0] {
                Value::Record { shape_id, .. } => *shape_id,
                other => panic!("{other:?}"),
            },
            other => panic!("{other:?}"),
        }
    };
    let other = Value::record_dynamic(
        vec![Field { name: "x".into(), value: Value::Unit }],
        shared.borrow_mut().shapes.as_mut().expect("shapes are there"),
    );
    assert!(matches!(other, Value::Record { shape_id: DYNAMIC_SHAPE_ID_BASE, .. }));
    assert_eq!(shape(), DYNAMIC_SHAPE_ID_BASE + 1);
    assert_eq!(shape(), DYNAMIC_SHAPE_ID_BASE + 1);
    assert_eq!(shared.borrow().shapes.as_ref().expect("shapes are there").len(), 2);
}

#[test]
fn tiers_read_alike() {
    let constants = vec![
        Const::FieldName("a".into()),
        Const::FieldName("b".into()),
        Const::Int(4),
        Const::Int(5),
        Const::FieldName("c".into()),
    ];
    let read = |build: Op, get: Op| {
        let code = vec![Op::PushConst(2), Op::PushConst(3), build, get, Op::Return];
        let mut f = function("main", 0, 0, code);
        f.field_ic_sites = 1;
        let p = program(vec![f], constants.clone());
        let mut vm = Vm::new(&p, desk());
        vm.enter_request_scope();
        vm.call("main", vec![])
    };
    let (shape_idx, field_count) = (0, 2);
    let records = [
        Op::MakeRecord { shape_idx, field_count },
        Op::AllocStackRecord { shape_idx, field_count },
        Op::AllocArenaRecord { shape_idx, field_count },
    ];
    for build in records {
        let field = |name_idx: u32| read(build, Op::GetField { name_idx, site_idx: 0 });
        assert_eq!(field(0), Ok(Value::Int(4)));
        assert_eq!(field(1), Ok(Value::Int(5)));
        assert!(matches!(field(4), Err(VmError::TypeMismatch(_))));
    }
    let tuples =
        [Op::MakeTuple(2), Op::AllocStackTuple { arity: 2 }, Op::AllocArenaTuple { arity: 2 }];
    for build in tuples {
        assert_eq!(read(build, Op::GetElem(1)), Ok(Value::Int(5)));
        assert_eq!(
            read(build, Op::GetElem(2)),
            Err(VmError::TypeMismatch("tuple index 2 out of range".into())),
        );
    }
}

#[test]
fn tracers_hear_of_calls_in_order() {
    let constants = vec![
        Const::NodeId("n_call".into()),
        Const::NodeId("n_tail".into()),
        Const::NodeId("n_closure".into()),
        Const::Int(3),
    ];
    let main = function(
        "main",
        0,
        0,
        vec![
            Op::PushConst(3),
            Op::Call { fn_id: 1, arity: 1, node_id_idx: 0 },
            Op::Pop,
            Op::PushConst(3),
            Op::Call { fn_id: 1, arity: 1, node_id_idx: 0 },
            Op::Return,
        ],
    );
    let once = function(
        "once",
        1,
        1,
        vec![
            Op::LoadLocal(0),
            Op::TailCall { fn_id: 2, arity: 1, node_id_idx: 1 },
        ],
    );
    let twice = function(
        "twice",
        1,
        1,
        vec![
            Op::MakeClosure { fn_id: 3, capture_count: 0 },
            Op::LoadLocal(0),
            Op::CallClosure { arity: 1, node_id_idx: 2 },
            Op::Return,
        ],
    );
    let same = function("same", 1, 1, vec![Op::LoadLocal(0), Op::Return]);
    let p = program(vec![main, once, twice, same], constants);
    let mut vm = Vm::new(&p, desk());
    let trace = Rc::new(RefCell::new(vec![]));
    vm.set_tracer(Box::new(Recorder { log: Rc::clone(&trace) }));
    assert_eq!(vm.call("main", vec![]), Ok(Value::Int(3)));
    assert_eq!(
        *trace.borrow(),
        vec![
            "call n_call once",
            "tail",
            "call n_tail twice",
            "call n_closure same",
            "ok",
            "ok",
            "call n_call once",
            "ok",
        ],
    );
}

#[test]
fn a_call_that_is_too_deep_is_heard_of_first() {
    let constants = vec![Const::NodeId("n".into())];
    let mut down = function(
        "down",
        0,
        0,
        vec![Op::Call { fn_id: 0, arity: 0, node_id_idx: 0 }, Op::Return],
    );
    down.effects = vec![DeclaredEffect { kind: "io".into(), arg: None }];
    let p = program(vec![down], constants);
    let mut vm = Vm::new(&p, desk());
    let trace = Rc::new(RefCell::new(vec![]));
    vm.set_tracer(Box::new(Recorder { log: Rc::clone(&trace) }));
    assert_eq!(vm.call("down", vec![]), Err(VmError::CallStackOverflow(MAX_CALL_DEPTH)));
    assert_eq!(trace.borrow().len(), MAX_CALL_DEPTH as usize);
}
