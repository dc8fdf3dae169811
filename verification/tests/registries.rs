use lex_bytecode::conc_registry::{
    lookup, register, registered, unregister, ActorRegistry, RegError, _reset_for_tests,
};
use lex_bytecode::value::Value;

#[test]
fn names_are_taken_and_given_back() {
    let mut r = ActorRegistry::new();
    assert_eq!(register(&mut r, "b", Value::Actor(1)), Ok(()));
    assert_eq!(register(&mut r, "a", Value::Actor(2)), Ok(()));
    assert_eq!(
        register(&mut r, "b", Value::Actor(3)),
        Err(RegError::AlreadyRegistered("b".into())),
    );
    assert_eq!(lookup(&r, "b"), Some(Value::Actor(1)));
    assert_eq!(lookup(&r, "c"), None);
    assert_eq!(registered(&r), vec!["a".to_string(), "b".to_string()]);
    assert_eq!(unregister(&mut r, "b"), Ok(()));
    assert_eq!(unregister(&mut r, "b"), Err(RegError::NotRegistered("b".into())));
    assert_eq!(register(&mut r, "b", Value::Actor(3)), Ok(()));
    _reset_for_tests(&mut r);
    assert!(registered(&r).is_empty());
}
