use lex_bytecode::shape_registry::{intern, ShapeRegistry, DYNAMIC_SHAPE_ID_BASE};

fn names(list: &[&str]) -> Vec<String> {
    list.iter().map(|s| s.to_string()).collect()
}

#[test]
fn same_fields_yield_same_id_regardless_of_order() {
    let mut registry = ShapeRegistry::new();
    let a = intern(&mut registry, names(&["x", "y", "z"]));
    let b = intern(&mut registry, names(&["z", "y", "x"]));
    let c = intern(&mut registry, names(&["y", "x", "z"]));
    assert_eq!(a, b);
    assert_eq!(b, c);
}

#[test]
fn distinct_fields_yield_distinct_ids() {
    let mut registry = ShapeRegistry::new();
    let a = intern(&mut registry, names(&["a", "b"]));
    let b = intern(&mut registry, names(&["a", "c"]));
    assert_ne!(a, b);
}

#[test]
fn ids_are_in_the_dynamic_range() {
    let mut registry = ShapeRegistry::new();
    let id = intern(&mut registry, names(&["only_for_this_test"]));
    assert!(id >= DYNAMIC_SHAPE_ID_BASE);
    assert!(id < u32::MAX);
}
