use lex_bytecode::op::Op;
use lex_bytecode::program::{Function, ZERO_BODY_HASH};
use lex_bytecode::verify::{verify_function, verify_program};


fn make_fn(name: &str, code: Vec<Op>) -> Function {
    Function {
        name: name.to_string(),
        arity: 0,
        locals_count: 4,
        code,
        effects: vec![],
        body_hash: ZERO_BODY_HASH,
        refinements: vec![],
        field_ic_sites: 0,
    }
}

#[test]
fn clean_match_no_errors() {
    // Simulates a two-arm match that is properly balanced:
    //   LoadLocal(0)               ; push scrutinee   depth=1
    //   Dup                        ; dup              depth=2
    //   TestVariant("Ok")          ; pop+push Bool    depth=2
    //   JumpIfNot(+3)              ; pop Bool, fall or jump  depth=1
    //   Pop                        ; pop scrutinee    depth=0
    //   PushConst(0)               ; push result      depth=1
    //   Jump(+2)                   ; to end           depth=1
    //   Pop                        ; pop scrutinee (wildcard arm) depth=0
    //   PushConst(1)               ; push result      depth=1
    //   Return                     ; end              depth=0
    let code = vec![
        Op::LoadLocal(0),           // pc 0, depth 0→1
        Op::Dup,                    // pc 1, depth 1→2
        Op::TestVariant(0),         // pc 2, depth 2→2
        Op::JumpIfNot(3),           // pc 3, depth 2→1; target=pc7
        Op::Pop,                    // pc 4, depth 1→0
        Op::PushConst(0),           // pc 5, depth 0→1
        Op::Jump(2),                // pc 6, depth 1→1; target=pc9
        Op::Pop,                    // pc 7, depth 1→0  (wildcard arm)
        Op::PushConst(1),           // pc 8, depth 0→1
        Op::Return,                 // pc 9, depth 1→0
    ];
    let f = make_fn("clean", code);
    let mut errs = Vec::new();
    verify_function(&f, &mut errs);
    assert!(errs.is_empty(), "expected no errors, got: {errs:?}");
}

#[test]
fn leaked_scrutinee_detected() {
    // Two paths reach pc6 at different depths — mismatch detected.
    // Fall path: pc2→pc3→pc6 at depth 1.
    // Jump path: pc4→pc5→pc6 at depth 2 (extra push leaks).
    let mismatch2 = vec![
        Op::PushConst(0),    // pc0 depth 0→1
        Op::JumpIfNot(2),    // pc1 depth 1→0; fall=pc2 depth0, jump=pc4 depth0
        Op::PushConst(0),    // pc2 depth 0→1
        Op::Jump(2),         // pc3 target=pc6, depth=1
        Op::PushConst(0),    // pc4 depth 0→1
        Op::PushConst(0),    // pc5 depth 1→2
        Op::Return,          // pc6: reached at depth=1 (from pc3) AND depth=2 (from pc5+fall)
    ];
    let f2 = make_fn("mismatch", mismatch2);
    let mut errs2 = Vec::new();
    verify_function(&f2, &mut errs2);
    assert!(!errs2.is_empty(), "expected stack mismatch error");
    assert_eq!(errs2[0].fn_name, "mismatch");
}

#[test]
fn mismatch_is_reported_in_words() {
    let f = make_fn("leaky", vec![
        Op::PushConst(0),
        Op::JumpIfNot(2),
        Op::PushConst(0),
        Op::Jump(2),
        Op::PushConst(0),
        Op::PushConst(0),
        Op::Return,
    ]);
    let errs = verify_program(&[make_fn("fine", vec![Op::PushConst(0), Op::Return]), f]);
    assert_eq!(errs.len(), 1);
    assert_eq!(
        errs[0].message(),
        "stack depth mismatch in `leaky` at pc 6: path A leaves depth 2, path B leaves depth 1",
    );
}

#[test]
fn a_pc_is_reported_once() {
    // pc 6 is entered at the depths 0, 1 and 2.
    let code = vec![
        Op::PushConst(0),
        Op::JumpIf(4),
        Op::PushConst(0),
        Op::PushConst(0),
        Op::JumpIf(1),
        Op::PushConst(0),
        Op::Return,
    ];
    let errors = verify_program(&[make_fn("f", code)]);
    assert_eq!(errors.len(), 1);
    assert_eq!(errors[0].fn_name, "f");
    assert_eq!(errors[0].pc, 6);
}
