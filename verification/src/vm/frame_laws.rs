//! What the ops on the running frame do to its operands, its locals and its
//! place in the code.

use vstd::prelude::*;

use crate::op::Op;
use crate::program::Program;
use crate::value::Val;
use crate::verify::op_delta;
use crate::vm::fault::Fault;
use crate::vm::op_laws::{is_one, is_two, leaves};
use crate::vm::plain::{code_len, is_plain, plain, Move};
use crate::vm::records::{field_name, fields_of, shape_at, variant_name};
use crate::vm::state::{FrameView, State};

verus! {

/// The frames with the running one at another slot.
pub open spec fn moved_to(s: State, pc: int) -> Seq<FrameView> {
    s.frames.drop_last().push(FrameView { pc: pc as nat, ..s.frames.last() })
}

proof fn lemma_moved(s: State, pc: nat)
    requires
        s.frames.len() > 0,
    ensures
        s.frames.update(s.frames.len() - 1, FrameView { pc, ..s.frames.last() }) == moved_to(
            s,
            pc as int,
        ),
{
    assert(s.frames.update(s.frames.len() - 1, FrameView { pc, ..s.frames.last() }) =~= moved_to(
        s,
        pc as int,
    ));
}

/// Law: a pop takes the topmost operand off, and a duplication puts it on once
/// more; what lies below stays.
pub proof fn law_operand_ops(p: Program, s: State, st: Seq<Val>, a: Val)
    requires
        s.frames.len() > 0,
        s.stack == st.push(a),
    ensures
        leaves(p, s, Op::Pop, st),
        leaves(p, s, Op::Dup, st.push(a).push(a)),
{
    reveal(leaves);
    lemma_moved(s, s.frames.last().pc + 1);
    assert(s.stack.take(st.len() as int) =~= st);
}

/// Law: a load puts the value of a local on the stack; a store takes the
/// topmost operand off and puts it into a local, of which a load gives it back;
/// a take is a load that leaves nothing behind. Other locals stay.
pub proof fn law_local_ops(p: Program, s: State, st: Seq<Val>, a: Val, i: u16)
    requires
        s.frames.len() > 0,
        s.frames.last().locals_start + i < s.locals.len(),
    ensures
        leaves(
            p,
            s,
            Op::LoadLocal(i),
            s.stack.push(s.locals[s.frames.last().locals_start + i]),
        ),
        plain(p, s, Op::TakeLocal(i)) matches Move::Go(t) && {
            &&& t.stack == s.stack.push(s.locals[s.frames.last().locals_start + i])
            &&& t.locals == s.locals.update(s.frames.last().locals_start + i, Val::Unit)
            &&& t.frames == moved_to(s, s.frames.last().pc as int + 1)
        },
        s.stack == st.push(a) ==> (plain(p, s, Op::StoreLocal(i)) matches Move::Go(t) && {
            &&& t.stack == st
            &&& t.locals == s.locals.update(s.frames.last().locals_start + i, a)
            &&& t.frames == moved_to(s, s.frames.last().pc as int + 1)
            &&& plain(p, t, Op::LoadLocal(i)) matches Move::Go(u) && u.stack == st.push(a)
        }),
{
    reveal(leaves);
    lemma_moved(s, s.frames.last().pc + 1);
    if s.stack == st.push(a) {
        assert(s.stack.take(st.len() as int) =~= st);
    }
}

/// Law: a jump goes to the slot that its offset names, counted from the slot
/// behind it, and fails outside the code. A conditional jump takes a truth
/// value off and goes there, or to the next slot.
pub proof fn law_jump_ops(p: Program, s: State, st: Seq<Val>, b: bool, off: i32)
    requires
        s.frames.len() > 0,
        0 <= s.frames.last().pc + 1 + off < code_len(p, s),
    ensures
        plain(p, s, Op::Jump(off)) matches Move::Go(t) && {
            &&& t.stack == s.stack
            &&& t.locals == s.locals
            &&& t.frames == moved_to(s, s.frames.last().pc + 1 + off)
        },
        s.stack == st.push(Val::Bool(b)) ==> (plain(p, s, Op::JumpIf(off)) matches Move::Go(t) && {
            &&& t.stack == st
            &&& t.locals == s.locals
            &&& b ==> t.frames == moved_to(s, s.frames.last().pc + 1 + off)
            &&& !b ==> t.frames == moved_to(s, s.frames.last().pc as int + 1)
        }),
        s.stack == st.push(Val::Bool(b)) ==> (plain(p, s, Op::JumpIfNot(off)) matches Move::Go(t)
            && {
            &&& t.stack == st
            &&& t.locals == s.locals
            &&& !b ==> t.frames == moved_to(s, s.frames.last().pc + 1 + off)
            &&& b ==> t.frames == moved_to(s, s.frames.last().pc as int + 1)
        }),
{
    let to = (s.frames.last().pc + 1 + off) as nat;
    lemma_moved(s, to);
    lemma_moved(s, s.frames.last().pc + 1);
    if s.stack == st.push(Val::Bool(b)) {
        assert(s.stack.take(st.len() as int) =~= st);
    }
}

/// Law: a tuple, a list and a variant hold the topmost operands, the deepest
/// first, and the variant its tag; a closure holds the number and the hash of
/// its function and what it captures.
pub proof fn law_constructor_ops(
    p: Program,
    s: State,
    st: Seq<Val>,
    parts: Seq<Val>,
    i: u32,
    tag: Seq<char>,
)
    requires
        s.frames.len() > 0,
        s.stack == st + parts,
        parts.len() <= u16::MAX,
    ensures
        leaves(p, s, Op::MakeTuple(parts.len() as u16), st.push(Val::Tuple(parts))),
        leaves(p, s, Op::MakeList(parts.len() as u32), st.push(Val::List(parts))),
        variant_name(p, i) == Ok::<Seq<char>, Fault>(tag) ==> leaves(
            p,
            s,
            Op::MakeVariant { name_idx: i, arity: parts.len() as u16 },
            st.push(Val::Variant { name: tag, args: parts }),
        ),
        i < p.functions@.len() ==> leaves(
            p,
            s,
            Op::MakeClosure { fn_id: i, capture_count: parts.len() as u16 },
            st.push(
                Val::Closure {
                    fn_id: i,
                    body_hash: p.functions@[i as int].body_hash@,
                    captures: parts,
                },
            ),
        ),
{
    reveal(leaves);
    lemma_moved(s, s.frames.last().pc + 1);
    assert(s.stack.take(st.len() as int) =~= st);
    assert(s.stack.skip(st.len() as int) =~= parts);
}

/// Law: a test of a variant tells whether it has that tag; a part of a variant
/// or of a tuple is the one at that place, and there is none at a place that it
/// does not have.
pub proof fn law_part_ops(
    p: Program,
    s: State,
    st: Seq<Val>,
    name: Seq<char>,
    parts: Seq<Val>,
    i: u32,
    tag: Seq<char>,
    k: u16,
)
    requires
        s.frames.len() > 0,
    ensures
        s.stack == st.push(Val::Variant { name, args: parts }) ==> {
            &&& variant_name(p, i) == Ok::<Seq<char>, Fault>(tag) ==> leaves(
                p,
                s,
                Op::TestVariant(i),
                st.push(Val::Bool(name == tag)),
            )
            &&& leaves(p, s, Op::GetVariant(i), st.push(Val::Tuple(parts)))
            &&& k < parts.len() ==> leaves(p, s, Op::GetVariantArg(k), st.push(parts[k as int]))
            &&& k >= parts.len() ==> plain(p, s, Op::GetVariantArg(k)) is Fail
        },
        s.stack == st.push(Val::Tuple(parts)) ==> {
            &&& k < parts.len() ==> leaves(p, s, Op::GetElem(k), st.push(parts[k as int]))
            &&& k >= parts.len() ==> plain(p, s, Op::GetElem(k)) is Fail
        },
{
    reveal(leaves);
    lemma_moved(s, s.frames.last().pc + 1);
    if s.stack == st.push(Val::Variant { name, args: parts }) || s.stack == st.push(
        Val::Tuple(parts),
    ) {
        assert(s.stack.take(st.len() as int) =~= st);
    }
}

/// The names of a shape are these.
pub open spec fn shape_has(p: Program, shape_idx: u32, names: Seq<Seq<char>>) -> bool {
    shape_at(p, shape_idx) matches Some(shape) && shape.len() == names.len() && forall|i: int|
        0 <= i < names.len() ==> field_name(p, #[trigger] shape[i]) == Ok::<Seq<char>, Fault>(
            names[i],
        )
}

proof fn lemma_shape_names(p: Program, shape: Seq<u32>, names: Seq<Seq<char>>, k: nat)
    requires
        shape.len() == names.len(),
        k <= names.len(),
        forall|i: int|
            0 <= i < names.len() ==> field_name(p, #[trigger] shape[i]) == Ok::<Seq<char>, Fault>(
                names[i],
            ),
    ensures
        crate::vm::records::shape_names(p, shape, k) == Ok::<Seq<Seq<char>>, Fault>(
            names.take(k as int),
        ),
    decreases k,
{
    if k == 0 {
        assert(names.take(0) =~= Seq::empty());
    } else {
        lemma_shape_names(p, shape, names, (k - 1) as nat);
        assert(field_name(p, shape[k - 1]) == Ok::<Seq<char>, Fault>(names[k - 1]));
        assert(names.take(k as int) =~= names.take(k - 1).push(names[k - 1]));
    }
}

proof fn lemma_fields(names: Seq<Seq<char>>, values: Seq<Val>)
    requires
        names.len() >= values.len(),
        names.no_duplicates(),
    ensures
        fields_of(names, values) == (names.take(values.len() as int), values),
    decreases values.len(),
{
    if values.len() == 0 {
        assert(names.take(0) =~= Seq::empty());
        assert(values =~= Seq::empty());
    } else {
        let n = values.len();
        lemma_fields(names, values.drop_last());
        let front = names.take(n - 1);
        crate::value_ops::lemma_find_from(front, names[n - 1], 0);
        assert forall|j: int| 0 <= j < front.len() implies #[trigger] front[j] != names[n - 1] by {
            assert(front[j] == names[j]);
        }
        assert(front.push(names[n - 1]) =~= names.take(n as int));
        assert(values.drop_last().push(values.last()) =~= values);
    }
}

/// Law: a record holds the topmost operands under the names of its shape, in
/// that order; the field of a name is the value under it.
pub proof fn law_record_ops(
    p: Program,
    s: State,
    st: Seq<Val>,
    shape_idx: u32,
    names: Seq<Seq<char>>,
    parts: Seq<Val>,
)
    requires
        s.frames.len() > 0,
        s.stack == st + parts,
        parts.len() == names.len(),
        parts.len() <= u16::MAX,
        names.no_duplicates(),
        shape_has(p, shape_idx, names),
    ensures
        plain(
            p,
            s,
            Op::MakeRecord { shape_idx, field_count: parts.len() as u16 },
        ) matches Move::Go(t) && {
            &&& t.stack == st.push(Val::Record { shape_id: shape_idx, names, values: parts })
            &&& t.locals == s.locals
            &&& t.frames == moved_to(s, s.frames.last().pc as int + 1)
        },
{
    lemma_moved(s, s.frames.last().pc + 1);
    assert(s.stack.take(st.len() as int) =~= st);
    assert(s.stack.skip(st.len() as int) =~= parts);
    let shape = shape_at(p, shape_idx)->0;
    lemma_shape_names(p, shape, names, names.len());
    assert(names.take(names.len() as int) =~= names);
    lemma_fields(names, parts);
}

/// Law: the field of a name is the value that the record has under it, and
/// there is none under a name that the record does not have.
pub proof fn law_field_ops(
    p: Program,
    s: State,
    st: Seq<Val>,
    id: u32,
    names: Seq<Seq<char>>,
    values: Seq<Val>,
    i: u32,
    name: Seq<char>,
    site_idx: u32,
    k: int,
)
    requires
        s.frames.len() > 0,
        s.stack == st.push(Val::Record { shape_id: id, names, values }),
        names.len() == values.len(),
        names.no_duplicates(),
        field_name(p, i) == Ok::<Seq<char>, Fault>(name),
    ensures
        0 <= k < names.len() && names[k] == name ==> (plain(
            p,
            s,
            Op::GetField { name_idx: i, site_idx },
        ) matches Move::Go(t) && t.stack == st.push(values[k]) && t.locals == s.locals),
        !names.contains(name) ==> plain(p, s, Op::GetField { name_idx: i, site_idx }) is Fail,
{
    crate::value_ops::lemma_find_from(names, name, 0);
    assert(s.stack.take(st.len() as int) =~= st);
}

// ---------------------------------------------------------------------------
// Depths
// ---------------------------------------------------------------------------

/// The op changes the number of operands as the verifier says.
#[verifier::opaque]
spec fn changes_depth(p: Program, s: State, op: Op) -> bool {
    match plain(p, s, op) {
        Move::Go(t) => t.stack.len() == s.stack.len() + op_delta(op),
        Move::Ask(_, _, _, u) => u.stack.len() + 1 == s.stack.len() + op_delta(op),
        Move::Fail(_, _) => true,
    }
}

#[verifier::spinoff_prover]
#[verifier::rlimit(40)]
proof fn lemma_depth_computes(p: Program, s: State, op: Op)
    requires
        is_one(op) || is_two(op),
    ensures
        changes_depth(p, s, op),
{
    reveal(changes_depth);
}

#[verifier::spinoff_prover]
#[verifier::rlimit(40)]
proof fn lemma_depth_builds(p: Program, s: State, op: Op)
    requires
        op is MakeRecord || op is MakeTuple || op is MakeList || op is MakeVariant
            || op is MakeClosure || op is AllocArenaRecord || op is AllocArenaTuple
            || op is AllocStackRecord || op is AllocStackTuple,
    ensures
        changes_depth(p, s, op),
{
    reveal(changes_depth);
}

#[verifier::spinoff_prover]
#[verifier::rlimit(40)]
proof fn lemma_depth_moves(p: Program, s: State, op: Op)
    requires
        op is PushConst || op is Pop || op is Dup || op is LoadLocal || op is StoreLocal
            || op is TakeLocal || op is GetField || op is GetElem || op is TestVariant || op is Jump
            || op is JumpIf || op is JumpIfNot || op is Panic,
    ensures
        changes_depth(p, s, op),
{
    reveal(changes_depth);
}

#[verifier::spinoff_prover]
#[verifier::rlimit(40)]
proof fn lemma_depth_fused(p: Program, s: State, op: Op)
    requires
        op is LoadLocalAddIntConst || op is LoadLocalAddLocal || op is LoadLocalSubLocal
            || op is LoadLocalMulLocal || op is LoadLocalGetField || op is LoadLocalGetFieldAdd
            || op is LoadLocalGetFieldSub || op is LoadLocalGetFieldMul
            || op is LoadLocalAddIntConstStoreLocal || op is LoadLocalEqIntConstJumpIfNot
            || op is LoadLocalStoreEqIntConstJumpIfNot,
    ensures
        changes_depth(p, s, op),
{
    reveal(changes_depth);
}

/// Law: every op on the running frame alone that goes through changes the
/// number of operands by the amount that the stack verifier counts for it.
pub proof fn law_ops_change_the_depth_as_verified(p: Program, s: State, op: Op)
    requires
        is_plain(op),
    ensures
        match plain(p, s, op) {
            Move::Go(t) => t.stack.len() == s.stack.len() + op_delta(op),
            Move::Ask(_, _, _, u) => u.stack.len() + 1 == s.stack.len() + op_delta(op),
            Move::Fail(_, _) => true,
        },
{
    if is_one(op) || is_two(op) {
        lemma_depth_computes(p, s, op);
    } else if op is MakeRecord || op is MakeTuple || op is MakeList || op is MakeVariant
        || op is MakeClosure || op is AllocArenaRecord || op is AllocArenaTuple
        || op is AllocStackRecord || op is AllocStackTuple {
        lemma_depth_builds(p, s, op);
    } else if op is PushConst || op is Pop || op is Dup || op is LoadLocal || op is StoreLocal
        || op is TakeLocal || op is GetField || op is GetElem || op is TestVariant || op is Jump
        || op is JumpIf || op is JumpIfNot || op is Panic {
        lemma_depth_moves(p, s, op);
    } else {
        lemma_depth_fused(p, s, op);
    }
    reveal(changes_depth);
}

} // verus!
