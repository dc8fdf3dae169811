use lex_bytecode::value::{Field, Value, NO_SHAPE_ID};
use lex_bytecode::vm::memo::hash_call_args;

fn rec(pairs: &[(&str, Value)]) -> Value {
    let fields = pairs
        .iter()
        .map(|(k, v)| Field { name: k.to_string(), value: v.duplicate() })
        .collect();
    Value::Record { shape_id: NO_SHAPE_ID, fields }
}

#[test]
fn identical_args_hash_equal() {
    let a = vec![Value::Int(7), Value::Str("hi".into())];
    let b = vec![Value::Int(7), Value::Str("hi".into())];
    assert_eq!(hash_call_args(&a), hash_call_args(&b));
}

#[test]
fn distinct_scalars_differ() {
    assert_ne!(hash_call_args(&vec![Value::Int(7)]), hash_call_args(&vec![Value::Int(8)]));
    assert_ne!(hash_call_args(&vec![Value::Int(0)]), hash_call_args(&vec![Value::Bool(false)]));
    assert_ne!(hash_call_args(&vec![Value::Int(0)]), hash_call_args(&vec![Value::Unit]));
    assert_ne!(hash_call_args(&vec![Value::Bool(true)]), hash_call_args(&vec![Value::Bool(false)]));
}

#[test]
fn arity_is_part_of_the_key() {
    assert_ne!(
        hash_call_args(&vec![Value::Int(1), Value::Int(2)]),
        hash_call_args(&vec![Value::Int(1)]),
    );
    // A 2-arg call vs a single Tuple arg of the same elements
    // must not collide.
    assert_ne!(
        hash_call_args(&vec![Value::Int(1), Value::Int(2)]),
        hash_call_args(&vec![Value::Tuple(vec![Value::Int(1), Value::Int(2)])]),
    );
}

#[test]
fn record_hash_is_field_order_independent() {
    // Equality of records ignores the order of their fields.
    let r1 = rec(&[("a", Value::Int(1)), ("b", Value::Int(2))]);
    let r2 = rec(&[("b", Value::Int(2)), ("a", Value::Int(1))]);
    assert_eq!(r1, r2, "precondition: records compare equal");
    assert_eq!(hash_call_args(&vec![r1]), hash_call_args(&vec![r2]));
}

#[test]
fn record_distinguishes_values_and_keys() {
    let base = rec(&[("a", Value::Int(1)), ("b", Value::Int(2))]);
    let diff_val = rec(&[("a", Value::Int(1)), ("b", Value::Int(3))]);
    let diff_key = rec(&[("a", Value::Int(1)), ("c", Value::Int(2))]);
    assert_ne!(hash_call_args(&vec![base.duplicate()]), hash_call_args(&vec![diff_val]));
    assert_ne!(hash_call_args(&vec![base]), hash_call_args(&vec![diff_key]));
}

#[test]
fn shape_id_does_not_affect_record_key() {
    let field = || Field { name: "a".into(), value: Value::Int(1) };
    let r_no_shape = Value::Record { shape_id: NO_SHAPE_ID, fields: vec![field()] };
    let r_shaped = Value::Record { shape_id: 3, fields: vec![field()] };
    assert_eq!(r_no_shape, r_shaped);
    assert_eq!(hash_call_args(&vec![r_no_shape]), hash_call_args(&vec![r_shaped]));
}

#[test]
fn variant_name_and_args_matter() {
    let some1 = Value::Variant { name: "Some".into(), args: vec![Value::Int(1)] };
    let some1b = Value::Variant { name: "Some".into(), args: vec![Value::Int(1)] };
    let some2 = Value::Variant { name: "Some".into(), args: vec![Value::Int(2)] };
    let none = Value::Variant { name: "None".into(), args: vec![] };
    assert_eq!(hash_call_args(&vec![some1.duplicate()]), hash_call_args(&vec![some1b]));
    assert_ne!(hash_call_args(&vec![some1.duplicate()]), hash_call_args(&vec![some2]));
    assert_ne!(hash_call_args(&vec![some1]), hash_call_args(&vec![none]));
}

fn float(x: f64) -> Value {
    Value::Float(x.to_bits())
}

#[test]
fn float_bit_pattern_keys() {
    assert_eq!(hash_call_args(&vec![float(1.5)]), hash_call_args(&vec![float(1.5)]));
    assert_ne!(hash_call_args(&vec![float(1.5)]), hash_call_args(&vec![float(2.5)]));
    // Same NaN bit pattern → same key (harmless: pure callee is
    // deterministic on bit-identical args).
    let nan = f64::NAN;
    assert_eq!(hash_call_args(&vec![float(nan)]), hash_call_args(&vec![float(nan)]));
}
