use lex_bytecode::parser_runtime::{run_parser, ClosureCaller};
use lex_bytecode::value::{Field, Value};

/// Answers with the argument, in a list; three times.
struct Listing {
    left: u32,
}

impl ClosureCaller for Listing {
    fn call_closure(&mut self, closure: Value, args: Vec<Value>) -> Result<Value, String> {
        if self.left == 0 {
            return Err("spent".into());
        }
        self.left -= 1;
        match closure {
            Value::Str(_) => Ok(leaf("Eof", vec![])),
            _ => Ok(Value::List(args)),
        }
    }
}

fn leaf(kind: &str, more: Vec<(&str, Value)>) -> Value {
    let mut fields = vec![Field { name: "kind".into(), value: Value::Str(kind.into()) }];
    for (n, value) in more {
        fields.push(Field { name: n.into(), value });
    }
    Value::Record { shape_id: 0, fields }
}

fn chr(c: &str) -> Value {
    leaf("Char", vec![("ch", Value::Str(c.into()))])
}

fn parse(node: Value, input: &str) -> Result<(Value, usize), (usize, String)> {
    run_parser(&node, input, 0, &mut Listing { left: 3 })
}

fn text(s: &str) -> Value {
    Value::Str(s.into())
}

#[test]
fn leaves() {
    assert_eq!(parse(chr("a"), "ab"), Ok((text("a"), 1)));
    assert_eq!(parse(chr("a"), "b"), Err((0, "expected \"a\"".into())));
    assert_eq!(parse(chr("a"), ""), Err((0, "expected \"a\", got EOF".into())));
    let s = leaf("String", vec![("s", text("let"))]);
    assert_eq!(parse(s, "let x"), Ok((text("let"), 3)));
    assert_eq!(parse(leaf("Digit", vec![]), "7"), Ok((text("7"), 1)));
    assert_eq!(parse(leaf("Alpha", vec![]), "x"), Ok((text("x"), 1)));
    assert_eq!(parse(leaf("Whitespace", vec![]), "\t"), Ok((text("\t"), 1)));
    assert_eq!(parse(leaf("Eof", vec![]), ""), Ok((Value::Unit, 0)));
    assert_eq!(parse(leaf("Eof", vec![]), "x"), Err((0, "expected EOF".into())));
    assert_eq!(
        parse(leaf("Odd", vec![]), "x"),
        Err((0, "unknown parser kind: \"Odd\"".into())),
    );
    assert_eq!(parse(Value::Unit, "x"), Err((0, "parser: expected Parser node".into())));
}

#[test]
fn combinations() {
    let seq = leaf("Seq", vec![("a", chr("a")), ("b", chr("b"))]);
    assert_eq!(parse(seq, "ab"), Ok((Value::Tuple(vec![text("a"), text("b")]), 2)));
    let alt = || leaf("Alt", vec![("a", chr("a")), ("b", chr("b"))]);
    assert_eq!(parse(alt(), "b"), Ok((text("b"), 1)));
    let many = leaf("Many", vec![("p", alt())]);
    assert_eq!(
        parse(many, "abac"),
        Ok((Value::List(vec![text("a"), text("b"), text("a")]), 3)),
    );
    let opt = || leaf("Optional", vec![("p", chr("a"))]);
    assert_eq!(
        parse(opt(), "a"),
        Ok((Value::Variant { name: "Some".into(), args: vec![text("a")] }, 1)),
    );
    assert_eq!(
        parse(opt(), "b"),
        Ok((Value::Variant { name: "None".into(), args: vec![] }, 0)),
    );
    assert_eq!(
        parse(leaf("Seq", vec![("a", chr("a"))]), "a"),
        Err((0, "seq: missing b".into())),
    );
}

#[test]
fn closures_take_part() {
    let map = leaf("Map", vec![("p", chr("a")), ("f", Value::Unit)]);
    assert_eq!(parse(map, "a"), Ok((Value::List(vec![text("a")]), 1)));
    let end = || leaf("AndThen", vec![("p", chr("a")), ("f", text("next"))]);
    assert_eq!(parse(end(), "a"), Ok((Value::Unit, 1)));
    assert_eq!(parse(end(), "ab"), Err((1, "expected EOF".into())));
    let spent = run_parser(&end(), "a", 0, &mut Listing { left: 0 });
    assert_eq!(spent, Err((1, "and_then: closure failed: spent".into())));
}

#[test]
fn parsers_stop_between_characters() {
    let e = "\u{e9}";
    let input = "\u{e9}\u{e9}\u{e8}";
    let many = || leaf("Many", vec![("p", chr(e))]);
    assert_eq!(parse(many(), input), Ok((Value::List(vec![text(e), text(e)]), 4)));
    let both = leaf("Seq", vec![("a", many()), ("b", chr("x"))]);
    assert_eq!(parse(both, input), Err((4, "expected \"x\"".into())));
}
