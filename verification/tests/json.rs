use lex_bytecode::json::{put_member, Json, Member};
use lex_bytecode::program::ZERO_BODY_HASH;
use lex_bytecode::shape_registry::ShapeRegistry;
use lex_bytecode::value::{Field, MapEntry, MapKey, Value};

fn obj(members: Vec<(&str, Json)>) -> Json {
    Json::Object(
        members.into_iter().map(|(k, value)| Member { key: k.into(), value }).collect(),
    )
}

fn text(s: &str) -> Json {
    Json::Str(s.into())
}

#[test]
fn values_as_documents() {
    assert_eq!(Value::Int(3).to_json(), Json::Int(3));
    assert_eq!(Value::Float(1.5f64.to_bits()).to_json(), Json::Float(1.5f64.to_bits()));
    assert_eq!(Value::Float(f64::NAN.to_bits()).to_json(), Json::Null);
    assert_eq!(Value::Unit.to_json(), Json::Null);
    assert_eq!(Value::Bytes(vec![0xde, 0xad]).to_json(), obj(vec![("$bytes", text("dead"))]));
    assert_eq!(
        Value::Variant { name: "Some".into(), args: vec![Value::Bool(true)] }.to_json(),
        obj(vec![("$variant", text("Some")), ("args", Json::Array(vec![Json::Bool(true)]))]),
    );
    assert_eq!(
        Value::Tuple(vec![Value::Int(1), Value::Str("a".into())]).to_json(),
        Json::Array(vec![Json::Int(1), text("a")]),
    );
    let mut hash = ZERO_BODY_HASH;
    hash[0] = 0xab;
    assert_eq!(
        Value::Closure { fn_id: 1, body_hash: hash, captures: vec![] }.to_json(),
        text("<closure ab000000>"),
    );
    let entry = |key: MapKey| MapEntry { key, value: Value::Int(1) };
    assert_eq!(
        Value::Dict(vec![entry(MapKey::Str("k".into()))]).to_json(),
        obj(vec![("k", Json::Int(1))]),
    );
    assert_eq!(
        Value::Dict(vec![entry(MapKey::Int(2))]).to_json(),
        Json::Array(vec![Json::Array(vec![Json::Int(2), Json::Int(1)])]),
    );
    assert_eq!(
        Value::KeySet(vec![MapKey::Str("a".into()), MapKey::Int(2)]).to_json(),
        Json::Array(vec![text("a"), Json::Int(2)]),
    );
    assert_eq!(
        Value::F64Array { rows: 1, cols: 1, data: vec![2.0f64.to_bits()] }.to_json(),
        obj(vec![
            ("$f64_array", Json::Bool(true)),
            ("cols", Json::Int(1)),
            ("data", Json::Array(vec![Json::Float(2.0f64.to_bits())])),
            ("rows", Json::Int(1)),
        ]),
    );
}

#[test]
fn documents_as_values() {
    let mut registry = ShapeRegistry::new();
    let mut read = |j: Json| Value::from_json(&j, &mut registry);
    assert_eq!(read(Json::Null), Value::Unit);
    assert_eq!(read(Json::Int(4)), Value::Int(4));
    assert_eq!(read(obj(vec![("$bytes", text("00ff"))])), Value::Bytes(vec![0, 255]));
    assert_eq!(
        read(obj(vec![("$variant", text("None")), ("args", Json::Array(vec![]))])),
        Value::Variant { name: "None".into(), args: vec![] },
    );
    // No hex digits: an ordinary record.
    assert!(matches!(read(obj(vec![("$bytes", text("zz"))])), Value::Record { .. }));
    let doc = || obj(vec![("a", Json::Int(1)), ("b", Json::Array(vec![text("x")]))]);
    let v = read(doc());
    assert_eq!(v.to_json(), doc());
    match v {
        Value::Record { fields, .. } => {
            assert_eq!(fields[1].name, "b");
            assert_eq!(fields[1].value, Value::List(vec![Value::Str("x".into())]));
        }
        other => panic!("{other:?}"),
    }
}

#[test]
fn records_that_look_like_no_variant_come_back() {
    let mut registry = ShapeRegistry::new();
    for members in [
        vec![("$variant", "Some")],
        vec![("$variant", "Some"), ("args", "none")],
        vec![("$bytes", "0")],
    ] {
        let fields: Vec<Field> = members
            .iter()
            .map(|(k, v)| Field { name: (*k).into(), value: Value::Str((*v).into()) })
            .collect();
        let v = Value::record_interned(fields, &mut registry);
        assert_eq!(Value::from_json(&v.to_json(), &mut registry), v);
    }
}

#[test]
fn records_get_the_shape_of_their_names() {
    let mut registry = ShapeRegistry::new();
    assert!(registry.has_room());
    let fields = |a: &str, b: &str| {
        vec![
            Field { name: a.into(), value: Value::Int(1) },
            Field { name: b.into(), value: Value::Int(2) },
        ]
    };
    let id = |v: Value| match v {
        Value::Record { shape_id, .. } => shape_id,
        other => panic!("{other:?}"),
    };
    let x = id(Value::record_dynamic(fields("a", "b"), &mut registry));
    let y = id(Value::record_interned(fields("b", "a"), &mut registry));
    let z = id(Value::record_interned(fields("b", "c"), &mut registry));
    assert_eq!(x, y);
    assert_ne!(x, z);
}

#[test]
fn members_stay_in_order() {
    let mut members = vec![];
    put_member(&mut members, "b".into(), Json::Int(1));
    put_member(&mut members, "a".into(), Json::Int(2));
    put_member(&mut members, "b".into(), Json::Int(3));
    assert_eq!(Json::Object(members), obj(vec![("a", Json::Int(2)), ("b", Json::Int(3))]));
}
