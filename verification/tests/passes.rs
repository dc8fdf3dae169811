use lex_bytecode::arena::build_arena_index;
use lex_bytecode::compiler::liveness::apply_last_load_takes;
use lex_bytecode::compiler::lowering::{apply_arena_lowering, apply_escape_lowering};
use lex_bytecode::compiler::peephole::{
    apply_peephole, apply_peephole_slice2, apply_peephole_slice3, apply_peephole_slice4,
    apply_peephole_slice5, apply_peephole_slice6, apply_peephole_slice7, apply_peephole_slice9,
    collect_jump_targets,
};
use lex_bytecode::escape::build_escape_index;
use lex_bytecode::op::{canonical_op, resolve_jump, Const, Op};
use lex_bytecode::op_encoding::encode_op;
use lex_bytecode::program::{compute_body_hash, Function, ZERO_BODY_HASH};
use lex_bytecode::site_index::SiteIndex;

fn func(name: &str, code: Vec<Op>) -> Function {
    Function {
        name: name.into(),
        arity: 0,
        locals_count: 4,
        code,
        effects: vec![],
        body_hash: ZERO_BODY_HASH,
        refinements: vec![],
        field_ic_sites: 0,
    }
}

#[test]
fn fusion_of_constant_additions() {
    let constants = vec![Const::Int(1), Const::Str("s".into())];
    let source = vec![
        Op::LoadLocal(2),
        Op::PushConst(0),
        Op::IntAdd,
        Op::StoreLocal(3),
        Op::LoadLocal(2),
        Op::PushConst(1),
        Op::IntAdd,
        Op::Return,
    ];
    let mut code = source.clone();
    apply_peephole(&mut code, &constants);
    assert_eq!(code[0], Op::LoadLocalAddIntConst { local_idx: 2, imm_const_idx: 0 });
    assert_eq!(code[1..].to_vec(), source[1..].to_vec());
    apply_peephole_slice2(&mut code);
    assert_eq!(
        code[0],
        Op::LoadLocalAddIntConstStoreLocal { src: 2, imm_const_idx: 0, dest: 3 },
    );
    let hash = |c: &Vec<Op>| compute_body_hash(0, 4, c);
    assert_eq!(hash(&code), hash(&source));
}

#[test]
fn windows_with_a_jump_target_stay() {
    let constants = vec![Const::Int(1)];
    let source = vec![
        Op::LoadLocal(0),
        Op::PushConst(0),
        Op::IntAdd,
        Op::JumpIf(-3),
        Op::Return,
    ];
    let targets = collect_jump_targets(&source);
    assert!(targets.contains(&1) && targets.len() == 1);
    let mut code = source.clone();
    apply_peephole(&mut code, &constants);
    assert_eq!(code, source);
}

#[test]
fn fusion_of_locals_and_fields() {
    let mut code = vec![Op::LoadLocal(0), Op::LoadLocal(1), Op::IntAdd];
    apply_peephole_slice3(&mut code);
    assert_eq!(code[0], Op::LoadLocalAddLocal { lhs_idx: 0, rhs_idx: 1 });
    let mut code = vec![Op::LoadLocal(0), Op::LoadLocal(1), Op::IntSub];
    apply_peephole_slice4(&mut code);
    assert_eq!(code[0], Op::LoadLocalSubLocal { lhs_idx: 0, rhs_idx: 1 });
    let mut code = vec![Op::LoadLocal(0), Op::LoadLocal(1), Op::IntMul];
    apply_peephole_slice4(&mut code);
    assert_eq!(code[0], Op::LoadLocalMulLocal { lhs_idx: 0, rhs_idx: 1 });
    let field = Op::GetField { name_idx: 5, site_idx: 6 };
    for (op, fused) in [
        (Op::IntAdd, Op::LoadLocalGetFieldAdd { local_idx: 0, name_idx: 5, site_idx: 6 }),
        (Op::IntSub, Op::LoadLocalGetFieldSub { local_idx: 0, name_idx: 5, site_idx: 6 }),
        (Op::IntMul, Op::LoadLocalGetFieldMul { local_idx: 0, name_idx: 5, site_idx: 6 }),
    ] {
        let mut code = vec![Op::LoadLocal(0), field, op];
        apply_peephole_slice7(&mut code);
        assert_eq!(code, vec![fused, field, op]);
    }
    let mut code = vec![Op::LoadLocal(0), field, Op::Return];
    apply_peephole_slice9(&mut code);
    assert_eq!(
        code[0],
        Op::LoadLocalGetField { local_idx: 0, name_idx: 5, site_idx: 6 },
    );
}

#[test]
fn fusion_of_pattern_tests() {
    let constants = vec![Const::Int(3)];
    let mut code = vec![
        Op::LoadLocal(0),
        Op::StoreLocal(1),
        Op::LoadLocal(1),
        Op::PushConst(0),
        Op::IntEq,
        Op::JumpIfNot(1),
        Op::Return,
        Op::Return,
    ];
    apply_peephole_slice5(&mut code, &constants);
    assert_eq!(
        code[2],
        Op::LoadLocalEqIntConstJumpIfNot { local_idx: 1, imm_const_idx: 0, jump_offset: 1 },
    );
    apply_peephole_slice6(&mut code);
    assert_eq!(
        code[0],
        Op::LoadLocalStoreEqIntConstJumpIfNot {
            src: 0,
            dst: 1,
            imm_const_idx: 0,
            jump_offset: 1,
        },
    );
}

#[test]
fn last_loads_move() {
    let mut c = vec![Op::LoadLocal(0), Op::LoadLocal(0), Op::IntAdd, Op::Return];
    apply_last_load_takes(&mut c);
    assert_eq!(c, vec![Op::LoadLocal(0), Op::TakeLocal(0), Op::IntAdd, Op::Return]);
    // A loop keeps its local alive.
    let source = vec![Op::LoadLocal(0), Op::JumpIf(-2), Op::PushConst(0), Op::Return];
    let mut c = source.clone();
    apply_last_load_takes(&mut c);
    assert_eq!(c, source);
}

#[test]
fn allocation_tiers() {
    let rec = Op::MakeRecord { shape_idx: 0, field_count: 1 };
    let f = func("f", vec![Op::PushConst(0), rec, Op::Pop, Op::PushConst(0), rec, Op::Return]);
    let escapes = build_escape_index(&[f.clone()]);
    let mut code = f.code.clone();
    apply_escape_lowering(&mut code, "f", &escapes);
    assert_eq!(code[1], Op::AllocStackRecord { shape_idx: 0, field_count: 1 });
    assert_eq!(code[4], rec);
    let g = func("f", code.clone());
    let eligible = build_arena_index(&[g]);
    apply_arena_lowering(&mut code, "f", &eligible);
    assert_eq!(code[1], Op::AllocStackRecord { shape_idx: 0, field_count: 1 });
    assert_eq!(code[4], Op::AllocArenaRecord { shape_idx: 0, field_count: 1 });
    assert_eq!(compute_body_hash(0, 4, &code), compute_body_hash(0, 4, &f.code));
    let mut other = f.code.clone();
    apply_escape_lowering(&mut other, "g", &escapes);
    assert_eq!(other, f.code);
}

#[test]
fn site_flags_are_replaced() {
    let mut idx = SiteIndex::new();
    idx.insert("f".into(), 1, true);
    idx.insert("g".into(), 1, true);
    idx.insert("f".into(), 1, false);
    assert_eq!(idx.get("f", 1), Some(false));
    assert_eq!(idx.get("g", 1), Some(true));
    assert_eq!(idx.get("f", 2), None);
}

#[test]
fn jumps_resolve_inside_the_code() {
    assert_eq!(resolve_jump(3, 1, -4, 10), Some(0));
    assert_eq!(resolve_jump(3, 1, -5, 10), None);
    assert_eq!(resolve_jump(3, 4, 2, 10), Some(9));
}

#[test]
fn ops_are_encoded_as_json() {
    let text = |op: Op| String::from_utf8(encode_op(op)).unwrap();
    assert_eq!(text(Op::Return), "\"Return\"");
    assert_eq!(text(Op::LoadLocal(7)), "{\"LoadLocal\":7}");
    assert_eq!(text(Op::TakeLocal(7)), "{\"LoadLocal\":7}");
    assert_eq!(text(Op::Jump(-3)), "{\"Jump\":-3}");
    assert_eq!(text(Op::GetField { name_idx: 2, site_idx: 9 }), "{\"GetField\":2}");
    assert_eq!(
        text(Op::AllocArenaRecord { shape_idx: 4, field_count: 2 }),
        "{\"MakeRecord\":{\"shape_idx\":4,\"field_count\":2}}",
    );
    assert_eq!(canonical_op(Op::FloatEq), Op::NumEq);
}

#[test]
fn different_ops_are_encoded_differently() {
    let ops = vec![
        Op::Pop,
        Op::Dup,
        Op::Return,
        Op::IntLt,
        Op::IntLe,
        Op::NumEq,
        Op::PushConst(1),
        Op::LoadLocal(1),
        Op::LoadLocal(11),
        Op::StoreLocal(1),
        Op::Jump(1),
        Op::Jump(-1),
        Op::JumpIf(1),
        Op::JumpIfNot(1),
        Op::MakeRecord { shape_idx: 1, field_count: 11 },
        Op::MakeRecord { shape_idx: 11, field_count: 1 },
        Op::MakeVariant { name_idx: 1, arity: 1 },
        Op::Call { fn_id: 1, arity: 1, node_id_idx: 1 },
        Op::TailCall { fn_id: 1, arity: 1, node_id_idx: 1 },
        Op::EffectCall { kind_idx: 1, op_idx: 2, arity: 3, node_id_idx: 4 },
        Op::EffectCall { kind_idx: 1, op_idx: 2, arity: 3, node_id_idx: 5 },
    ];
    for (i, a) in ops.iter().enumerate() {
        for (j, b) in ops.iter().enumerate() {
            assert_eq!(encode_op(*a) == encode_op(*b), i == j);
        }
    }
}

#[test]
fn body_hashes_are_digests_of_the_canonical_code() {
    assert_eq!(
        compute_body_hash(1, 1, &vec![Op::LoadLocal(0), Op::Return]),
        [25, 89, 250, 93, 212, 163, 68, 65, 160, 246, 68, 178, 155, 224, 231, 107],
    );
    let code = vec![
        Op::AllocStackRecord { shape_idx: 4, field_count: 2 },
        Op::Jump(-3),
        Op::CallClosure { arity: 1, node_id_idx: 9 },
        Op::IntEq,
    ];
    assert_eq!(
        compute_body_hash(2, 3, &code),
        [113, 176, 11, 205, 177, 49, 97, 69, 82, 186, 173, 169, 144, 137, 115, 173],
    );
}

#[test]
fn targets_outside_the_body_are_collected() {
    let targets = collect_jump_targets(&vec![Op::Jump(5)]);
    assert_eq!(targets.len(), 1);
    assert!(targets.contains(&6));
    assert!(collect_jump_targets(&vec![Op::Jump(-3)]).is_empty());
}
