use lex_bytecode::float_bits::{eq, finite, le, lt, nan, neg};
use lex_bytecode::text::{append_hex, append_signed, decode_hex};
use lex_bytecode::value::{Field, MapEntry, MapKey, Value};
use lex_bytecode::vm::memo::{memo_args_exceed, MemoFnState};
use lex_bytecode::vm::sort_keys::{compare_sort_keys, sort_order};
use lex_bytecode::vm::VmError;

fn float(x: f64) -> Value {
    Value::Float(x.to_bits())
}

#[test]
fn keys_are_texts_or_integers() {
    assert_eq!(MapKey::from_value(&Value::Int(3)), Ok(MapKey::Int(3)));
    assert_eq!(MapKey::from_value(&Value::Str("a".into())), Ok(MapKey::Str("a".into())));
    assert_eq!(
        MapKey::from_value(&Value::Bool(true)),
        Err("map/set key must be Str or Int, got Bool(true)".to_string()),
    );
    assert_eq!(MapKey::Int(3).as_value(), Value::Int(3));
    assert_eq!(MapKey::Str("a".into()).into_value(), Value::Str("a".into()));
}

#[test]
fn values_are_shown() {
    let field = |name: &str, value| Field { name: name.into(), value };
    let rec = Value::Record {
        shape_id: 7,
        fields: vec![field("a", Value::Int(1)), field("b", Value::Unit)],
    };
    let text = "Record { shape_id: 7, fields: {\"a\": Int(1), \"b\": Unit} }";
    assert_eq!(rec.show(), text);
    assert_eq!(Value::Bytes(vec![0, 255]).show(), "Bytes([0, 255])");
    assert_eq!(Value::List(vec![]).show(), "List([])");
    assert_eq!(
        Value::Tuple(vec![Value::Int(-3), Value::Str("x\n".into())]).show(),
        "Tuple([Int(-3), Str(\"x\\n\")])",
    );
    assert_eq!(
        Value::Closure { fn_id: 2, body_hash: [1; 16], captures: vec![Value::Bool(false)] }.show(),
        "Closure { fn_id: 2, body_hash: [1, 1, 1, 1, 1, 1, 1, 1, 1, 1, 1, 1, 1, 1, 1, 1], \
         captures: [Bool(false)] }",
    );
    let entry = |key, n| MapEntry { key, value: Value::Int(n) };
    assert_eq!(
        Value::Dict(vec![entry(MapKey::Str("k".into()), 1), entry(MapKey::Int(2), 3)]).show(),
        "Map({Str(\"k\"): Int(1), Int(2): Int(3)})",
    );
    assert_eq!(Value::KeySet(vec![MapKey::Int(2)]).show(), "Set({Int(2)})");
    assert_eq!(
        Value::StackRecord { shape_id: 1, slab_start: 2, field_count: 3 }.show(),
        "StackRecord { shape_id: 1, slab_start: 2, field_count: 3 }",
    );
    assert_eq!(
        Value::ArenaTuple { slab_start: 2, arity: 3 }.show(),
        "ArenaTuple { slab_start: 2, arity: 3 }",
    );
    assert_eq!(Value::Deque(vec![float(1.5)]).show(), "Deque([Float])");
}

#[test]
fn errors_are_shown() {
    assert_eq!(VmError::Effect("no".into()).show(), "Effect(\"no\")");
    assert_eq!(VmError::StackUnderflow.show(), "StackUnderflow");
    assert_eq!(VmError::CallStackOverflow(1024).show(), "CallStackOverflow(1024)");
    assert_eq!(VmError::DivByZero { op: "modulo" }.show(), "DivByZero { op: \"modulo\" }");
    let e = VmError::RefinementFailed {
        fn_name: "f".into(),
        param_index: 1,
        binding: "x".into(),
        reason: "why".into(),
    };
    assert_eq!(e.show(), format!("{e:?}"));
    assert_eq!(VmError::Panic("a\tb".into()).show(), "Panic(\"a\\tb\")");
}

#[test]
fn accessors_give_what_the_value_holds() {
    assert_eq!(Value::Int(-4).as_int(), -4);
    assert_eq!(f64::from_bits(float(2.5).as_float()), 2.5);
    assert!(Value::Bool(true).as_bool());
    assert_eq!(Value::Str("x".into()).as_str(), "x");
}

#[test]
fn equality_of_values() {
    let rec = |a: &str, b: &str| Value::Record {
        shape_id: 0,
        fields: vec![
            Field { name: a.into(), value: Value::Int(1) },
            Field { name: b.into(), value: Value::Int(1) },
        ],
    };
    assert_eq!(rec("a", "b"), rec("b", "a"));
    assert_ne!(rec("a", "b"), rec("a", "c"));
    assert_eq!(float(0.0), float(-0.0));
    assert_ne!(float(f64::NAN), float(f64::NAN));
    assert_ne!(Value::Int(1), float(1.0));
    let closure = |fn_id: u32, hash: u8, n: i64| Value::Closure {
        fn_id,
        body_hash: [hash; 16],
        captures: vec![Value::Int(n)],
    };
    assert_eq!(closure(1, 7, 2), closure(9, 7, 2));
    assert_ne!(closure(1, 7, 2), closure(1, 8, 2));
    assert_ne!(closure(1, 7, 2), closure(1, 7, 3));
    let v = Value::Variant { name: "Some".into(), args: vec![rec("a", "b")] };
    assert_eq!(v.duplicate(), v);
}

#[test]
fn floats_compare_by_their_bits() {
    let bits = |x: f64| x.to_bits();
    let samples = [0.0, -0.0, 1.0, -1.0, 1.5, f64::MIN_POSITIVE, f64::INFINITY, -f64::INFINITY,
        f64::NAN];
    for x in samples {
        assert_eq!(nan(bits(x)), x.is_nan());
        assert_eq!(finite(bits(x)), x.is_finite());
        assert_eq!(neg(bits(x)), bits(-x));
        for y in samples {
            assert_eq!(eq(bits(x), bits(y)), x == y, "{x} {y}");
            assert_eq!(lt(bits(x), bits(y)), x < y, "{x} {y}");
            assert_eq!(le(bits(x), bits(y)), x <= y, "{x} {y}");
        }
    }
}

#[test]
fn sorting_by_keys_is_stable() {
    assert!(compare_sort_keys(&Value::Int(1), &Value::Int(1)));
    assert!(!compare_sort_keys(&Value::Str("b".into()), &Value::Str("a".into())));
    assert!(compare_sort_keys(&Value::Int(9), &Value::Str("a".into())));
    let keys = vec![Value::Int(2), Value::Int(1), Value::Int(2), Value::Int(1)];
    assert_eq!(sort_order(&keys), vec![1, 3, 0, 2]);
    let keys: Vec<Value> = [2.5, -1.0, 0.0, -0.0].into_iter().map(float).collect();
    assert_eq!(sort_order(&keys), vec![1, 2, 3, 0]);
}

#[test]
fn hex_texts() {
    let mut s = String::new();
    append_hex(&mut s, &[0, 255, 16]);
    assert_eq!(s, "00ff10");
    assert_eq!(decode_hex(&s), Some(vec![0, 255, 16]));
    assert_eq!(decode_hex("AB"), Some(vec![0xab]));
    assert_eq!(decode_hex("abc"), None);
    assert_eq!(decode_hex("zz"), None);
    let mut s = String::new();
    append_signed(&mut s, i128::MIN);
    assert_eq!(s, i128::MIN.to_string());
}

#[test]
fn memo_functions_warm_up() {
    let mut s = MemoFnState::new();
    assert!(s.enabled);
    let mut n = 0;
    while s.enabled && n < 100000 {
        s.probe(false);
        n += 1;
    }
    assert!(!s.enabled);
    assert!(memo_args_exceed(&vec![Value::List(vec![Value::Int(1), Value::Int(2)])], 1));
    assert!(!memo_args_exceed(&vec![Value::Int(1)], 8));
}
