use lex_bytecode::escape::{
    analyze_function, analyze_program, build_escape_index, EscapeReport, SiteKind,
};
use lex_bytecode::op::Op;
use lex_bytecode::program::{Function, ZERO_BODY_HASH};


fn func(name: &str, locals_count: u16, arity: u16, code: Vec<Op>) -> Function {
    Function {
        name: name.into(),
        arity,
        locals_count,
        code,
        effects: vec![],
        body_hash: ZERO_BODY_HASH,
        refinements: vec![],
        field_ic_sites: 0,
    }
}

fn assert_escapes(report: &EscapeReport, expected: &[(u32, bool)]) {
    let got: Vec<(u32, bool)> = report.sites.iter().map(|s| (s.pc, s.escapes)).collect();
    assert_eq!(got, expected,
        "escape report for `{}` differs from expected", report.fn_name);
}

#[test]
fn record_built_and_dropped_does_not_escape() {
    let f = func("dropper", 0, 0, vec![
        Op::PushConst(0),
        Op::PushConst(1),
        Op::MakeRecord { shape_idx: 0, field_count: 2 },
        Op::Pop,
        Op::PushConst(0),
        Op::Return,
    ]);
    let r = analyze_function(&f);
    assert_escapes(&r, &[(2, false)]);
}

#[test]
fn record_returned_escapes() {
    let f = func("returner", 0, 0, vec![
        Op::PushConst(0),
        Op::PushConst(1),
        Op::MakeRecord { shape_idx: 0, field_count: 2 },
        Op::Return,
    ]);
    let r = analyze_function(&f);
    assert_escapes(&r, &[(2, true)]);
}

#[test]
fn record_field_read_only_does_not_escape() {
    let f = func("reader", 0, 0, vec![
        Op::PushConst(0),
        Op::PushConst(1),
        Op::MakeRecord { shape_idx: 0, field_count: 2 },
        Op::GetField { name_idx: 0, site_idx: 0 },
        Op::Return,
    ]);
    let r = analyze_function(&f);
    assert_escapes(&r, &[(2, false)]);
}

#[test]
fn record_round_tripped_through_local_does_not_escape() {
    let f = func("roundtrip", 1, 0, vec![
        Op::PushConst(0),
        Op::PushConst(1),
        Op::MakeRecord { shape_idx: 0, field_count: 2 },
        Op::StoreLocal(0),
        Op::LoadLocal(0),
        Op::GetField { name_idx: 0, site_idx: 0 },
        Op::Return,
    ]);
    let r = analyze_function(&f);
    assert_escapes(&r, &[(2, false)]);
}

#[test]
fn record_stored_into_outer_record_escapes() {
    let f = func("nest", 0, 0, vec![
        Op::PushConst(0),
        Op::PushConst(1),
        Op::MakeRecord { shape_idx: 0, field_count: 2 }, // inner @ pc=2
        Op::PushConst(2),
        Op::MakeRecord { shape_idx: 1, field_count: 2 }, // outer @ pc=4
        Op::Return,                                       // outer escapes
    ]);
    let r = analyze_function(&f);
    assert_escapes(&r, &[(2, true), (4, true)]);
}

#[test]
fn record_passed_to_call_escapes() {
    let f = func("passer", 0, 0, vec![
        Op::PushConst(0),
        Op::PushConst(1),
        Op::MakeRecord { shape_idx: 0, field_count: 2 },
        Op::Call { fn_id: 1, arity: 1, node_id_idx: 0 },
        Op::Return,
    ]);
    let r = analyze_function(&f);
    assert_escapes(&r, &[(2, true)]);
}

#[test]
fn record_captured_in_closure_escapes() {
    let f = func("capturer", 0, 0, vec![
        Op::PushConst(0),
        Op::PushConst(1),
        Op::MakeRecord { shape_idx: 0, field_count: 2 },
        Op::MakeClosure { fn_id: 1, capture_count: 1 },
        Op::Return,
    ]);
    let r = analyze_function(&f);
    assert_escapes(&r, &[(2, true)]);
}

#[test]
fn record_in_one_branch_returned_escapes_after_merge() {
    let f = func("brancher", 0, 1, vec![
        Op::LoadLocal(0),                          // pc=0
        Op::JumpIfNot(4),                          // pc=1; offset 4 → pc=6
        Op::PushConst(0),                          // pc=2
        Op::MakeRecord { shape_idx: 0, field_count: 1 }, // pc=3 (then-branch)
        Op::Jump(2),                               // pc=4; offset 2 → pc=7
        Op::PushConst(1),                          // pc=5 (unreached fall-through dead code)
        Op::MakeRecord { shape_idx: 0, field_count: 1 }, // pc=6 (else-branch)
        Op::Return,                                // pc=7 (merge + return)
    ]);
    let r = analyze_function(&f);
    assert_escapes(&r, &[(3, true), (6, true)]);
}

#[test]
fn escape_two_sites_classified_independently() {
    let f = func("mixed", 1, 0, vec![
        Op::PushConst(0),
        Op::MakeRecord { shape_idx: 0, field_count: 1 }, // keeper @ pc=1
        Op::StoreLocal(0),
        Op::PushConst(0),
        Op::MakeRecord { shape_idx: 0, field_count: 1 }, // discard @ pc=4
        Op::Pop,
        Op::LoadLocal(0),
        Op::Return,
    ]);
    let r = analyze_function(&f);
    assert_escapes(&r, &[(1, true), (4, false)]);
}

#[test]
fn function_with_no_record_sites_produces_empty_report() {
    let f = func("pure_arith", 0, 2, vec![
        Op::LoadLocal(0),
        Op::LoadLocal(1),
        Op::IntAdd,
        Op::Return,
    ]);
    let r = analyze_function(&f);
    assert!(r.sites.is_empty());
}

#[test]
fn analyze_program_skips_no_record_functions() {
    let f1 = func("noreds", 0, 0, vec![Op::PushConst(0), Op::Return]);
    let f2 = func("hasrec", 0, 0, vec![
        Op::PushConst(0),
        Op::MakeRecord { shape_idx: 0, field_count: 1 },
        Op::Return,
    ]);
    let reports = analyze_program(&[f1, f2]);
    assert_eq!(reports.len(), 1);
    assert_eq!(reports[0].fn_name, "hasrec");
}

#[test]
fn record_passed_to_effect_call_escapes() {
    let f = func("effecting", 0, 0, vec![
        Op::PushConst(0),
        Op::MakeRecord { shape_idx: 0, field_count: 1 },
        Op::EffectCall { kind_idx: 0, op_idx: 0, arity: 1, node_id_idx: 0 },
        Op::Return,
    ]);
    let r = analyze_function(&f);
    assert_escapes(&r, &[(1, true)]);
}

#[test]
fn record_duplicated_escapes() {
    let f = func("duper", 0, 0, vec![
        Op::PushConst(0),
        Op::MakeRecord { shape_idx: 0, field_count: 1 },
        Op::Dup,
        Op::Pop,
        Op::Pop,
        Op::PushConst(0),
        Op::Return,
    ]);
    let r = analyze_function(&f);
    assert_escapes(&r, &[(1, true)]);
}

#[test]
fn record_in_list_escapes() {
    let f = func("listed", 0, 0, vec![
        Op::PushConst(0),
        Op::MakeRecord { shape_idx: 0, field_count: 1 },
        Op::MakeList(1),
        Op::Return,
    ]);
    let r = analyze_function(&f);
    assert_escapes(&r, &[(1, true)]);
}

#[test]
fn build_escape_index_keys_by_fn_and_pc() {
    let f = func("idx_test", 0, 0, vec![
        Op::PushConst(0),
        Op::MakeRecord { shape_idx: 0, field_count: 1 },
        Op::Pop,
        Op::PushConst(0),
        Op::Return,
    ]);
    let idx = build_escape_index(&[f]);
    assert_eq!(idx.get("idx_test", 1), Some(false));
}


#[test]
fn tuple_built_and_dropped_does_not_escape() {
    let f = func("tup_drop", 0, 0, vec![
        Op::PushConst(0),
        Op::PushConst(1),
        Op::MakeTuple(2), // pc=2
        Op::Pop,
        Op::PushConst(0),
        Op::Return,
    ]);
    let r = analyze_function(&f);
    assert_escapes(&r, &[(2, false)]);
    assert_eq!(r.sites[0].kind, SiteKind::Tuple);
    assert_eq!(r.sites[0].field_count, 2);
}

#[test]
fn tuple_returned_escapes() {
    let f = func("tup_ret", 0, 0, vec![
        Op::PushConst(0),
        Op::PushConst(1),
        Op::MakeTuple(2), // pc=2
        Op::Return,
    ]);
    let r = analyze_function(&f);
    assert_escapes(&r, &[(2, true)]);
}

#[test]
fn tuple_elem_read_only_does_not_escape() {
    let f = func("tup_read", 0, 0, vec![
        Op::PushConst(0),
        Op::PushConst(1),
        Op::MakeTuple(2), // pc=2
        Op::GetElem(0),
        Op::Return,
    ]);
    let r = analyze_function(&f);
    assert_escapes(&r, &[(2, false)]);
}

#[test]
fn tuple_round_tripped_through_local_does_not_escape() {
    let f = func("tup_rt", 1, 0, vec![
        Op::PushConst(0),
        Op::PushConst(1),
        Op::MakeTuple(2), // pc=2
        Op::StoreLocal(0),
        Op::LoadLocal(0),
        Op::GetElem(1),
        Op::Return,
    ]);
    let r = analyze_function(&f);
    assert_escapes(&r, &[(2, false)]);
}

#[test]
fn tuple_passed_to_call_escapes() {
    let f = func("tup_call", 0, 0, vec![
        Op::PushConst(0),
        Op::PushConst(1),
        Op::MakeTuple(2), // pc=2
        Op::Call { fn_id: 1, arity: 1, node_id_idx: 0 },
        Op::Return,
    ]);
    let r = analyze_function(&f);
    assert_escapes(&r, &[(2, true)]);
}

#[test]
fn record_stored_into_tuple_escapes_tuple_stays_local() {
    let f = func("rec_in_tup", 0, 0, vec![
        Op::PushConst(0),
        Op::MakeRecord { shape_idx: 0, field_count: 1 }, // rec @ pc=1
        Op::MakeTuple(1),                                // tup @ pc=2 holds rec
        Op::Pop,
        Op::PushConst(0),
        Op::Return,
    ]);
    let r = analyze_function(&f);
    assert_escapes(&r, &[(1, true), (2, false)]);
}

#[test]
fn tuple_stored_into_record_escapes() {
    let f = func("tup_in_rec", 0, 0, vec![
        Op::PushConst(0),
        Op::PushConst(1),
        Op::MakeTuple(2),                                // tup @ pc=2
        Op::MakeRecord { shape_idx: 0, field_count: 1 }, // rec @ pc=3 holds tup
        Op::Return,
    ]);
    let r = analyze_function(&f);
    assert_escapes(&r, &[(2, true), (3, true)]);
}

#[test]
fn tuple_and_record_sites_carry_distinct_kinds() {
    let f = func("mixed_kinds", 0, 0, vec![
        Op::PushConst(0),
        Op::MakeRecord { shape_idx: 7, field_count: 1 }, // pc=1 record
        Op::Pop,
        Op::PushConst(0),
        Op::PushConst(1),
        Op::MakeTuple(2), // pc=5 tuple
        Op::Pop,
        Op::PushConst(0),
        Op::Return,
    ]);
    let r = analyze_function(&f);
    assert_eq!(r.sites.len(), 2);
    assert_eq!((r.sites[0].pc, r.sites[0].kind, r.sites[0].shape_idx), (1, SiteKind::Record, 7));
    assert_eq!((r.sites[1].pc, r.sites[1].kind, r.sites[1].field_count), (5, SiteKind::Tuple, 2));
    assert!(!r.sites[0].escapes && !r.sites[1].escapes);
}

#[test]
fn aggregate_overwritten_in_dead_slot_does_not_escape() {
    let f = func("overwrite", 1, 0, vec![
        Op::PushConst(0),
        Op::MakeRecord { shape_idx: 0, field_count: 1 }, // rec1 @ pc=1
        Op::StoreLocal(0),
        Op::PushConst(0),
        Op::StoreLocal(0), // overwrite local 0 with an Int
        Op::PushConst(0),
        Op::Return,
    ]);
    let r = analyze_function(&f);
    assert_escapes(&r, &[(1, false)]);
}

#[test]
fn aggregate_loaded_then_returned_still_escapes() {
    let f = func("load_then_return", 1, 0, vec![
        Op::PushConst(0),
        Op::MakeRecord { shape_idx: 0, field_count: 1 }, // rec1 @ pc=1
        Op::StoreLocal(0),
        Op::LoadLocal(0),
        Op::Return, // returns rec1 → escapes
    ]);
    let r = analyze_function(&f);
    assert_escapes(&r, &[(1, true)]);
}

#[test]
fn tuple_only_function_now_produces_report() {
    let f = func("tuponly", 0, 0, vec![
        Op::PushConst(0),
        Op::PushConst(1),
        Op::MakeTuple(2),
        Op::Pop,
        Op::PushConst(0),
        Op::Return,
    ]);
    let reports = analyze_program(&[f]);
    assert_eq!(reports.len(), 1);
    assert_eq!(reports[0].sites.len(), 1);
    assert_eq!(reports[0].sites[0].kind, SiteKind::Tuple);
}
