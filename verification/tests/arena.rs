use lex_bytecode::arena::{analyze_function, analyze_program, build_arena_index, ArenaReport};
use lex_bytecode::escape::analyze_function as analyze_frame;
use lex_bytecode::op::Op;
use lex_bytecode::program::{Function, ZERO_BODY_HASH};


fn func(name: &str, locals_count: u16, arity: u16, code: Vec<Op>) -> Function {
    Function {
        name: name.into(),
        arity,
        locals_count,
        code,
        effects: vec![],
        body_hash: ZERO_BODY_HASH,
        refinements: vec![],
        field_ic_sites: 0,
    }
}

fn assert_eligible(report: &ArenaReport, expected: &[(u32, bool)]) {
    let got: Vec<(u32, bool)> = report
        .sites
        .iter()
        .map(|s| (s.pc, s.arena_eligible))
        .collect();
    assert_eq!(
        got, expected,
        "arena eligibility for `{}` differs from expected",
        report.fn_name
    );
}


#[test]
fn record_returned_is_arena_eligible() {
    let f = func("handler", 0, 0, vec![
        Op::PushConst(0),
        Op::PushConst(1),
        Op::MakeRecord { shape_idx: 0, field_count: 2 },
        Op::Return,
    ]);
    let r = analyze_function(&f);
    assert_eligible(&r, &[(2, true)]);
}

#[test]
fn tuple_returned_is_arena_eligible() {
    let f = func("handler_t", 0, 0, vec![
        Op::PushConst(0),
        Op::PushConst(1),
        Op::MakeTuple(2),
        Op::Return,
    ]);
    let r = analyze_function(&f);
    assert_eligible(&r, &[(2, true)]);
}

#[test]
fn record_round_tripped_and_returned_is_arena_eligible() {
    let f = func("handler_rt", 1, 0, vec![
        Op::PushConst(0),
        Op::PushConst(1),
        Op::MakeRecord { shape_idx: 0, field_count: 2 },
        Op::StoreLocal(0),
        Op::LoadLocal(0),
        Op::Return,
    ]);
    let r = analyze_function(&f);
    assert_eligible(&r, &[(2, true)]);
}


#[test]
fn record_passed_to_call_is_not_arena_eligible() {
    let f = func("caller", 0, 0, vec![
        Op::PushConst(0),
        Op::MakeRecord { shape_idx: 0, field_count: 1 },
        Op::Call { fn_id: 1, arity: 1, node_id_idx: 0 },
        Op::Return,
    ]);
    let r = analyze_function(&f);
    assert_eligible(&r, &[(1, false)]);
}

#[test]
fn record_captured_in_closure_is_not_arena_eligible() {
    let f = func("capturer", 0, 0, vec![
        Op::PushConst(0),
        Op::MakeRecord { shape_idx: 0, field_count: 1 },
        Op::MakeClosure { fn_id: 1, capture_count: 1 },
        Op::Return,
    ]);
    let r = analyze_function(&f);
    assert_eligible(&r, &[(1, false)]);
}

#[test]
fn record_passed_to_effect_is_not_arena_eligible() {
    let f = func("effecting", 0, 0, vec![
        Op::PushConst(0),
        Op::MakeRecord { shape_idx: 0, field_count: 1 },
        Op::EffectCall { kind_idx: 0, op_idx: 0, arity: 1, node_id_idx: 0 },
        Op::Return,
    ]);
    let r = analyze_function(&f);
    assert_eligible(&r, &[(1, false)]);
}


#[test]
fn record_dropped_is_arena_eligible() {
    let f = func("drop", 0, 0, vec![
        Op::PushConst(0),
        Op::MakeRecord { shape_idx: 0, field_count: 1 },
        Op::Pop,
        Op::PushConst(0),
        Op::Return,
    ]);
    let r = analyze_function(&f);
    assert_eligible(&r, &[(1, true)]);
}

#[test]
fn outer_returned_aggregate_is_arena_eligible_inner_field_is_not() {
    let f = func("nest", 0, 0, vec![
        Op::PushConst(0),
        Op::MakeRecord { shape_idx: 0, field_count: 1 }, // inner @ pc=1
        Op::PushConst(1),
        Op::MakeRecord { shape_idx: 1, field_count: 2 }, // outer @ pc=3
        Op::Return,
    ]);
    let r = analyze_function(&f);
    assert_eligible(&r, &[(1, false), (3, true)]);
}

#[test]
fn arena_two_sites_classified_independently() {
    let f = func("mixed", 1, 0, vec![
        Op::PushConst(0),
        Op::MakeRecord { shape_idx: 0, field_count: 1 }, // pc=1: kept, returned
        Op::StoreLocal(0),
        Op::PushConst(0),
        Op::MakeRecord { shape_idx: 0, field_count: 1 }, // pc=4: passed to call
        Op::Call { fn_id: 1, arity: 1, node_id_idx: 0 },
        Op::Pop,
        Op::LoadLocal(0),
        Op::Return,
    ]);
    let r = analyze_function(&f);
    assert_eligible(&r, &[(1, true), (4, false)]);
}

#[test]
fn build_arena_index_keys_by_fn_and_pc() {
    let f = func("idx_test", 0, 0, vec![
        Op::PushConst(0),
        Op::MakeRecord { shape_idx: 0, field_count: 1 },
        Op::Return,
    ]);
    let idx = build_arena_index(&[f]);
    assert_eq!(idx.get("idx_test", 1), Some(true));
}

#[test]
fn analyze_program_skips_functions_with_no_sites() {
    let f1 = func("noaggs", 0, 0, vec![Op::PushConst(0), Op::Return]);
    let f2 = func("hasagg", 0, 0, vec![
        Op::PushConst(0),
        Op::MakeRecord { shape_idx: 0, field_count: 1 },
        Op::Return,
    ]);
    let reports = analyze_program(&[f1, f2]);
    assert_eq!(reports.len(), 1);
    assert_eq!(reports[0].fn_name, "hasagg");
}


#[test]
fn parity_with_frame_escape_on_shared_hatch() {
    let f = func("parity_hatch", 0, 0, vec![
        Op::PushConst(0),
        Op::MakeRecord { shape_idx: 0, field_count: 1 },
        Op::Call { fn_id: 1, arity: 1, node_id_idx: 0 },
        Op::Return,
    ]);
    let arena = analyze_function(&f);
    let frame = analyze_frame(&f);
    assert!(!arena.sites[0].arena_eligible);
    assert!(frame.sites[0].escapes);
}

#[test]
fn diverges_from_frame_escape_on_return() {
    let f = func("parity_return", 0, 0, vec![
        Op::PushConst(0),
        Op::MakeRecord { shape_idx: 0, field_count: 1 },
        Op::Return,
    ]);
    let arena = analyze_function(&f);
    let frame = analyze_frame(&f);
    assert!(arena.sites[0].arena_eligible);
    assert!(frame.sites[0].escapes);
}
