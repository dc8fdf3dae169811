//! Lowering of aggregate constructors to cheaper allocation tiers.
//!
//! A site that never leaves its frame goes to the stack slab, one that never
//! leaves the request to the request arena, any other stays on the heap. Each
//! rewrite replaces one op in place, so pcs, jump offsets and stack effects
//! stay as they are.

use vstd::prelude::*;

use crate::op::Op;
use crate::site_index::SiteIndex;

verus! {

/// The flag of the site at `pc`.
pub open spec fn flag_at(
    idx: Map<(Seq<char>, u32), bool>,
    fn_name: Seq<char>,
    pc: int,
) -> Option<bool> {
    if idx.contains_key((fn_name, pc as u32)) {
        Some(idx[(fn_name, pc as u32)])
    } else {
        None
    }
}

/// A constructor, moved to the stack tier.
pub open spec fn on_stack(op: Op) -> Op {
    match op {
        Op::MakeRecord { shape_idx, field_count } => Op::AllocStackRecord {
            shape_idx,
            field_count,
        },
        Op::MakeTuple(arity) => Op::AllocStackTuple { arity },
        _ => op,
    }
}

/// A constructor, moved to the arena tier.
pub open spec fn in_arena(op: Op) -> Op {
    match op {
        Op::MakeRecord { shape_idx, field_count } => Op::AllocArenaRecord {
            shape_idx,
            field_count,
        },
        Op::MakeTuple(arity) => Op::AllocArenaTuple { arity },
        _ => op,
    }
}

/// Sites that are known not to escape move to the stack.
pub open spec fn stack_lowered(
    code: Seq<Op>,
    fn_name: Seq<char>,
    escapes: Map<(Seq<char>, u32), bool>,
) -> Seq<Op> {
    Seq::new(
        code.len(),
        |pc: int|
            if flag_at(escapes, fn_name, pc) == Some(false) {
                on_stack(code[pc])
            } else {
                code[pc]
            },
    )
}

/// Sites that are known to be eligible move to the arena.
pub open spec fn arena_lowered(
    code: Seq<Op>,
    fn_name: Seq<char>,
    eligible: Map<(Seq<char>, u32), bool>,
) -> Seq<Op> {
    Seq::new(
        code.len(),
        |pc: int|
            if flag_at(eligible, fn_name, pc) == Some(true) {
                in_arena(code[pc])
            } else {
                code[pc]
            },
    )
}

/// Rewrites the sites that do not escape the frame.
pub fn apply_escape_lowering(code: &mut Vec<Op>, fn_name: &str, escape_index: &SiteIndex)
    ensures
        final(code)@ == stack_lowered(old(code)@, fn_name@, escape_index@),
{
    let ghost c0 = code@;
    let ghost goal = stack_lowered(c0, fn_name@, escape_index@);
    let mut pc: usize = 0;
    while pc < code.len()
        invariant
            pc <= code.len(),
            code@.len() == c0.len(),
            goal == stack_lowered(c0, fn_name@, escape_index@),
            forall|i: int| 0 <= i < pc ==> code@[i] == goal[i],
            forall|i: int| pc <= i < code@.len() ==> code@[i] == c0[i],
        decreases code.len() - pc,
    {
        let flag = escape_index.get(fn_name, pc as u32);
        if let Some(false) = flag {
            match code[pc] {
                Op::MakeRecord { shape_idx, field_count } => {
                    code.set(pc, Op::AllocStackRecord { shape_idx, field_count });
                },
                Op::MakeTuple(arity) => {
                    code.set(pc, Op::AllocStackTuple { arity });
                },
                _ => {},
            }
        }
        pc = pc + 1;
    }
    assert(code@ =~= goal);
}

/// Rewrites the remaining sites that do not escape the request.
pub fn apply_arena_lowering(code: &mut Vec<Op>, fn_name: &str, arena_index: &SiteIndex)
    ensures
        final(code)@ == arena_lowered(old(code)@, fn_name@, arena_index@),
{
    let ghost c0 = code@;
    let ghost goal = arena_lowered(c0, fn_name@, arena_index@);
    let mut pc: usize = 0;
    while pc < code.len()
        invariant
            pc <= code.len(),
            code@.len() == c0.len(),
            goal == arena_lowered(c0, fn_name@, arena_index@),
            forall|i: int| 0 <= i < pc ==> code@[i] == goal[i],
            forall|i: int| pc <= i < code@.len() ==> code@[i] == c0[i],
        decreases code.len() - pc,
    {
        let flag = arena_index.get(fn_name, pc as u32);
        if let Some(true) = flag {
            match code[pc] {
                Op::MakeRecord { shape_idx, field_count } => {
                    code.set(pc, Op::AllocArenaRecord { shape_idx, field_count });
                },
                Op::MakeTuple(arity) => {
                    code.set(pc, Op::AllocArenaTuple { arity });
                },
                _ => {},
            }
        }
        pc = pc + 1;
    }
    assert(code@ =~= goal);
}

/// Law: lowering changes neither the canonical form of a body, and so not its
/// hash, nor its control flow or stack effects.
pub proof fn law_lowering_keeps_shape(
    code: Seq<Op>,
    fn_name: Seq<char>,
    idx: Map<(Seq<char>, u32), bool>,
)
    ensures
        crate::op::canonical_code(stack_lowered(code, fn_name, idx))
            == crate::op::canonical_code(code),
        crate::op::canonical_code(arena_lowered(code, fn_name, idx))
            == crate::op::canonical_code(code),
        crate::verify::mismatches(stack_lowered(code, fn_name, idx))
            == crate::verify::mismatches(code),
        crate::verify::mismatches(arena_lowered(code, fn_name, idx))
            == crate::verify::mismatches(code),
{
    let s = stack_lowered(code, fn_name, idx);
    let a = arena_lowered(code, fn_name, idx);
    assert(crate::op::canonical_code(s) =~= crate::op::canonical_code(code));
    assert(crate::op::canonical_code(a) =~= crate::op::canonical_code(code));
    crate::verify::lemma_same_walk(
        code,
        s,
        Seq::new(code.len(), |i: int| None),
        seq![(0nat, 0int)],
        Set::empty(),
    );
    crate::verify::lemma_same_walk(
        code,
        a,
        Seq::new(code.len(), |i: int| None),
        seq![(0nat, 0int)],
        Set::empty(),
    );
}

/// Law: a site that the stack tier took is out of reach of the arena tier.
pub proof fn law_stack_tier_comes_first(
    code: Seq<Op>,
    fn_name: Seq<char>,
    escapes: Map<(Seq<char>, u32), bool>,
    eligible: Map<(Seq<char>, u32), bool>,
    pc: int,
)
    requires
        0 <= pc < code.len(),
        flag_at(escapes, fn_name, pc) == Some(false),
    ensures
        arena_lowered(stack_lowered(code, fn_name, escapes), fn_name, eligible)[pc] == on_stack(
            code[pc],
        ),
{
}

} // verus!
