//! Where ops that work on the running frame alone lead.

use vstd::prelude::*;

use crate::compiler::draft::{interned, number, with_local, Draft};
use crate::compiler::pool::{including, lemma_including, lemma_place_of_member, Constant};
use crate::compiler::soundness::{fine, is_const};
use crate::op::Op;
use crate::program::Program;
use crate::value::Val;
use crate::vm::arith::{binary, unary, Calc};
use crate::vm::fault::Fault;
use crate::vm::op_laws::{is_one, is_two};
use crate::vm::plain::{code_len, is_plain, plain, Move};
use crate::vm::records::{const_at, const_val, variant_name};
use crate::vm::runs::variant;
use crate::vm::state::{goto, local_slot, top_frame, State};
use crate::vm::step::MAX_PC;

verus! {

/// The op at the slot of the running frame, where its function has this code.
pub open spec fn next_op(code: Seq<Op>, s: State) -> Option<Op> {
    if s.frames.len() > 0 && top_frame(s).pc < code.len() && top_frame(s).pc <= MAX_PC {
        Some(code[top_frame(s).pc as int])
    } else {
        None
    }
}

/// One op that works on the running frame alone.
pub open spec fn step(p: Program, code: Seq<Op>, s: State) -> Option<State> {
    match next_op(code, s) {
        None => None,
        Some(op) => if is_plain(op) {
            match plain(p, s, op) {
                Move::Go(t) => Some(t),
                _ => None,
            }
        } else {
            None
        },
    }
}

/// The state after `n` ops that work on the running frame alone, where its
/// function has this code, if all of them go through.
pub open spec fn steps(p: Program, code: Seq<Op>, s: State, n: nat) -> Option<State>
    decreases n,
{
    if n == 0 {
        Some(s)
    } else {
        match steps(p, code, s, (n - 1) as nat) {
            None => None,
            Some(t) => step(p, code, t),
        }
    }
}

/// The code begins with that of a draft and goes on behind it, as long as the
/// code of the running function, and the program holds the constants of the
/// draft.
pub open spec fn holds(p: Program, code: Seq<Op>, s: State, d: Draft) -> bool {
    &&& s.frames.len() > 0
    &&& code_len(p, s) == code.len()
    &&& d.code.len() < code.len()
    &&& d.code.len() <= MAX_PC
    &&& forall|i: int| 0 <= i < d.code.len() ==> #[trigger] code[i] == d.code[i]
    &&& forall|i: int|
        0 <= i < d.pool.consts.len() ==> i < p.constants@.len() && (#[trigger] p.constants@[i])@
            == d.pool.consts[i]
}

/// The state with the running frame at a slot, over other operands and locals.
pub open spec fn at(s: State, pc: nat, stack: Seq<Val>, locals: Seq<Val>) -> State {
    State { stack, locals, ..goto(s, pc) }
}

/// So many ops lead to a slot with these operands and locals.
#[verifier::opaque]
pub open spec fn reaches(p: Program, code: Seq<Op>, s: State, n: nat, pc: nat, stack: Seq<Val>,
    locals: Seq<Val>) -> bool {
    steps(p, code, s, n) == Some(at(s, pc, stack, locals))
}

pub open spec fn op_at(code: Seq<Op>, s: State, pc: nat, op: Op) -> bool {
    &&& s.frames.len() > 0
    &&& next_op(code, goto(s, pc)) == Some(op)
}

pub proof fn lemma_at(s: State, pc: nat, stack: Seq<Val>, locals: Seq<Val>, k: nat)
    requires
        s.frames.len() > 0,
    ensures
        goto(at(s, pc, stack, locals), k) == at(s, k, stack, locals),
        top_frame(at(s, pc, stack, locals)).pc == pc,
        top_frame(at(s, pc, stack, locals)).fn_id == top_frame(s).fn_id,
        top_frame(at(s, pc, stack, locals)).locals_start == top_frame(s).locals_start,
{
    assert(goto(at(s, pc, stack, locals), k).frames =~= at(s, k, stack, locals).frames);
}

/// What so many ops lead to, some number of ops leads to.
pub proof fn lemma_reached(
    p: Program,
    code: Seq<Op>,
    s: State,
    n: nat,
    pc: nat,
    stack: Seq<Val>,
    locals: Seq<Val>,
)
    requires
        reaches(p, code, s, n, pc, stack, locals),
    ensures
        exists|m: nat| #[trigger] steps(p, code, s, m) == Some(at(s, pc, stack, locals)),
{
    reveal(reaches);
}

/// One op more.
pub proof fn lemma_step(
    p: Program,
    code: Seq<Op>,
    s: State,
    n: nat,
    pc: nat,
    stack: Seq<Val>,
    locals: Seq<Val>,
    op: Op,
    pc2: nat,
    stack2: Seq<Val>,
    locals2: Seq<Val>,
)
    requires
        reaches(p, code, s, n, pc, stack, locals),
        op_at(code, s, pc, op),
        is_plain(op),
        plain(p, at(s, pc, stack, locals), op) == Move::Go(at(s, pc2, stack2, locals2)),
    ensures
        reaches(p, code, s, n + 1, pc2, stack2, locals2),
{
    reveal(reaches);
    assert(next_op(code, at(s, pc, stack, locals)) == next_op(code, goto(s, pc)));
}

pub proof fn lemma_load(
    p: Program,
    code: Seq<Op>,
    s: State,
    n: nat,
    pc: nat,
    stack: Seq<Val>,
    locals: Seq<Val>,
    i: u16,
)
    requires
        reaches(p, code, s, n, pc, stack, locals),
        op_at(code, s, pc, Op::LoadLocal(i)),
        local_slot(s, i) < locals.len(),
    ensures
        reaches(p, code, s, n + 1, pc + 1, stack.push(locals[local_slot(s, i)]), locals),
{
    lemma_at(s, pc, stack, locals, pc + 1);
    let out = stack.push(locals[local_slot(s, i)]);
    assert(plain(p, at(s, pc, stack, locals), Op::LoadLocal(i)) == Move::Go(
        at(s, pc + 1, out, locals),
    ));
    lemma_step(p, code, s, n, pc, stack, locals, Op::LoadLocal(i), pc + 1, out, locals);
}

pub proof fn lemma_store(
    p: Program,
    code: Seq<Op>,
    s: State,
    n: nat,
    pc: nat,
    stack: Seq<Val>,
    v: Val,
    locals: Seq<Val>,
    i: u16,
)
    requires
        reaches(p, code, s, n, pc, stack.push(v), locals),
        op_at(code, s, pc, Op::StoreLocal(i)),
        local_slot(s, i) < locals.len(),
    ensures
        reaches(p, code, s, n + 1, pc + 1, stack, locals.update(local_slot(s, i), v)),
{
    lemma_at(s, pc, stack.push(v), locals, pc + 1);
    assert(stack.push(v).take(stack.len() as int) =~= stack);
    let to = locals.update(local_slot(s, i), v);
    assert(plain(p, at(s, pc, stack.push(v), locals), Op::StoreLocal(i)) == Move::Go(
        at(s, pc + 1, stack, to),
    ));
    lemma_step(p, code, s, n, pc, stack.push(v), locals, Op::StoreLocal(i), pc + 1, stack, to);
}

pub proof fn lemma_const(
    p: Program,
    code: Seq<Op>,
    s: State,
    n: nat,
    pc: nat,
    stack: Seq<Val>,
    locals: Seq<Val>,
    i: u32,
    c: i64,
)
    requires
        reaches(p, code, s, n, pc, stack, locals),
        op_at(code, s, pc, Op::PushConst(i)),
        const_at(p, i) matches Some(k) && const_val(k) == Val::Int(c),
    ensures
        reaches(p, code, s, n + 1, pc + 1, stack.push(Val::Int(c)), locals),
{
    lemma_at(s, pc, stack, locals, pc + 1);
    let out = stack.push(Val::Int(c));
    assert(plain(p, at(s, pc, stack, locals), Op::PushConst(i)) == Move::Go(
        at(s, pc + 1, out, locals),
    ));
    lemma_step(p, code, s, n, pc, stack, locals, Op::PushConst(i), pc + 1, out, locals);
}

/// An op with one operand.
pub proof fn lemma_unary(
    p: Program,
    code: Seq<Op>,
    s: State,
    n: nat,
    pc: nat,
    stack: Seq<Val>,
    a: Val,
    locals: Seq<Val>,
    op: Op,
    v: Val,
)
    requires
        reaches(p, code, s, n, pc, stack.push(a), locals),
        op_at(code, s, pc, op),
        is_one(op),
        unary(op, a) == Calc::Value(v),
    ensures
        reaches(p, code, s, n + 1, pc + 1, stack.push(v), locals),
{
    lemma_at(s, pc, stack.push(a), locals, pc + 1);
    assert(stack.push(a).take(stack.len() as int) =~= stack);
    assert(plain(p, at(s, pc, stack.push(a), locals), op) == Move::Go(
        at(s, pc + 1, stack.push(v), locals),
    ));
    lemma_step(p, code, s, n, pc, stack.push(a), locals, op, pc + 1, stack.push(v), locals);
}

/// An op with two operands.
pub proof fn lemma_binary(
    p: Program,
    code: Seq<Op>,
    s: State,
    n: nat,
    pc: nat,
    stack: Seq<Val>,
    a: Val,
    b: Val,
    locals: Seq<Val>,
    op: Op,
    v: Val,
)
    requires
        reaches(p, code, s, n, pc, stack.push(a).push(b), locals),
        op_at(code, s, pc, op),
        is_two(op),
        binary(op, a, b) == Calc::Value(v),
    ensures
        reaches(p, code, s, n + 1, pc + 1, stack.push(v), locals),
{
    let st = stack.push(a).push(b);
    lemma_at(s, pc, st, locals, pc + 1);
    assert(st.take(stack.len() as int) =~= stack);
    assert(plain(p, at(s, pc, st, locals), op) == Move::Go(
        at(s, pc + 1, stack.push(v), locals),
    ));
    lemma_step(p, code, s, n, pc, st, locals, op, pc + 1, stack.push(v), locals);
}

pub proof fn lemma_test(
    p: Program,
    code: Seq<Op>,
    s: State,
    n: nat,
    pc: nat,
    stack: Seq<Val>,
    tag: Seq<char>,
    args: Seq<Val>,
    locals: Seq<Val>,
    i: u32,
    name: Seq<char>,
)
    requires
        reaches(p, code, s, n, pc, stack.push(Val::Variant { name: tag, args }), locals),
        op_at(code, s, pc, Op::TestVariant(i)),
        variant_name(p, i) matches Ok(t) && t == name,
    ensures
        reaches(p, code, s, n + 1, pc + 1, stack.push(Val::Bool(tag == name)), locals),
{
    let st = stack.push(Val::Variant { name: tag, args });
    lemma_at(s, pc, st, locals, pc + 1);
    assert(st.take(stack.len() as int) =~= stack);
    let out = stack.push(Val::Bool(tag == name));
    assert(plain(p, at(s, pc, st, locals), Op::TestVariant(i)) == Move::Go(
        at(s, pc + 1, out, locals),
    ));
    lemma_step(p, code, s, n, pc, st, locals, Op::TestVariant(i), pc + 1, out, locals);
}

/// A jump if the operand is `when`.
pub proof fn lemma_jump_when(
    p: Program,
    code: Seq<Op>,
    s: State,
    n: nat,
    pc: nat,
    stack: Seq<Val>,
    b: bool,
    locals: Seq<Val>,
    when: bool,
    off: i32,
)
    requires
        reaches(p, code, s, n, pc, stack.push(Val::Bool(b)), locals),
        op_at(
            code,
            s,
            pc,
            if when {
                Op::JumpIf(off)
            } else {
                Op::JumpIfNot(off)
            },
        ),
        0 <= pc + 1 + off < code_len(p, s),
    ensures
        reaches(
            p,
            code,
            s,
            n + 1,
            if b == when {
                (pc + 1 + off) as nat
            } else {
                pc + 1
            },
            stack,
            locals,
        ),
{
    let st = stack.push(Val::Bool(b));
    let op = if when {
        Op::JumpIf(off)
    } else {
        Op::JumpIfNot(off)
    };
    let to = if b == when {
        (pc + 1 + off) as nat
    } else {
        pc + 1
    };
    lemma_at(s, pc, st, locals, to);
    lemma_at(s, pc, stack, locals, to);
    assert(st.take(stack.len() as int) =~= stack);
    assert(plain(p, at(s, pc, st, locals), op) == Move::Go(at(s, to, stack, locals)));
    lemma_step(p, code, s, n, pc, st, locals, op, to, stack, locals);
}

pub proof fn lemma_jump(
    p: Program,
    code: Seq<Op>,
    s: State,
    n: nat,
    pc: nat,
    stack: Seq<Val>,
    locals: Seq<Val>,
    off: i32,
)
    requires
        reaches(p, code, s, n, pc, stack, locals),
        op_at(code, s, pc, Op::Jump(off)),
        0 <= pc + 1 + off < code_len(p, s),
    ensures
        reaches(p, code, s, n + 1, (pc + 1 + off) as nat, stack, locals),
{
    let to = (pc + 1 + off) as nat;
    lemma_at(s, pc, stack, locals, to);
    assert(plain(p, at(s, pc, stack, locals), Op::Jump(off)) == Move::Go(
        at(s, to, stack, locals),
    ));
    lemma_step(p, code, s, n, pc, stack, locals, Op::Jump(off), to, stack, locals);
}

pub proof fn lemma_make_variant(
    p: Program,
    code: Seq<Op>,
    s: State,
    n: nat,
    pc: nat,
    stack: Seq<Val>,
    args: Seq<Val>,
    locals: Seq<Val>,
    i: u32,
    arity: u16,
    name: Seq<char>,
)
    requires
        reaches(p, code, s, n, pc, stack + args, locals),
        args.len() == arity,
        op_at(code, s, pc, Op::MakeVariant { name_idx: i, arity }),
        variant_name(p, i) matches Ok(t) && t == name,
    ensures
        reaches(p, code, s, n + 1, pc + 1, stack.push(variant(name, args)), locals),
{
    let st = stack + args;
    let op = Op::MakeVariant { name_idx: i, arity };
    lemma_at(s, pc, st, locals, pc + 1);
    assert(st.take(stack.len() as int) =~= stack);
    assert(st.skip(stack.len() as int) =~= args);
    let out = stack.push(variant(name, args));
    assert(plain(p, at(s, pc, st, locals), op) == Move::Go(at(s, pc + 1, out, locals)));
    lemma_step(p, code, s, n, pc, st, locals, op, pc + 1, out, locals);
}

pub proof fn lemma_make_pair(
    p: Program,
    code: Seq<Op>,
    s: State,
    n: nat,
    pc: nat,
    stack: Seq<Val>,
    a: Val,
    b: Val,
    locals: Seq<Val>,
)
    requires
        reaches(p, code, s, n, pc, stack.push(a).push(b), locals),
        op_at(code, s, pc, Op::MakeTuple(2)),
    ensures
        reaches(p, code, s, n + 1, pc + 1, stack.push(Val::Tuple(seq![a, b])), locals),
{
    let st = stack.push(a).push(b);
    lemma_at(s, pc, st, locals, pc + 1);
    assert(st.take(stack.len() as int) =~= stack);
    assert(st.skip(stack.len() as int) =~= seq![a, b]);
    let out = stack.push(Val::Tuple(seq![a, b]));
    assert(plain(p, at(s, pc, st, locals), Op::MakeTuple(2)) == Move::Go(
        at(s, pc + 1, out, locals),
    ));
    lemma_step(p, code, s, n, pc, st, locals, Op::MakeTuple(2), pc + 1, out, locals);
}

/// An element of a tuple.
pub proof fn lemma_elem(
    p: Program,
    code: Seq<Op>,
    s: State,
    n: nat,
    pc: nat,
    stack: Seq<Val>,
    items: Seq<Val>,
    locals: Seq<Val>,
    i: u16,
)
    requires
        reaches(p, code, s, n, pc, stack.push(Val::Tuple(items)), locals),
        op_at(code, s, pc, Op::GetElem(i)),
        i < items.len(),
    ensures
        reaches(p, code, s, n + 1, pc + 1, stack.push(items[i as int]), locals),
{
    let st = stack.push(Val::Tuple(items));
    lemma_at(s, pc, st, locals, pc + 1);
    assert(st.take(stack.len() as int) =~= stack);
    let out = stack.push(items[i as int]);
    assert(plain(p, at(s, pc, st, locals), Op::GetElem(i)) == Move::Go(
        at(s, pc + 1, out, locals),
    ));
    lemma_step(p, code, s, n, pc, st, locals, Op::GetElem(i), pc + 1, out, locals);
}

/// An empty list.
pub proof fn lemma_no_items(
    p: Program,
    code: Seq<Op>,
    s: State,
    n: nat,
    pc: nat,
    stack: Seq<Val>,
    locals: Seq<Val>,
)
    requires
        reaches(p, code, s, n, pc, stack, locals),
        op_at(code, s, pc, Op::MakeList(0)),
    ensures
        reaches(p, code, s, n + 1, pc + 1, stack.push(Val::List(Seq::empty())), locals),
{
    lemma_at(s, pc, stack, locals, pc + 1);
    assert(stack.take(stack.len() as int) =~= stack);
    assert(stack.skip(stack.len() as int) =~= Seq::empty());
    let out = stack.push(Val::List(Seq::empty()));
    assert(plain(p, at(s, pc, stack, locals), Op::MakeList(0)) == Move::Go(
        at(s, pc + 1, out, locals),
    ));
    lemma_step(p, code, s, n, pc, stack, locals, Op::MakeList(0), pc + 1, out, locals);
}

/// A constant that is entered stands under its number, and the others under
/// theirs.
pub proof fn lemma_entered(d: Draft, c: Constant)
    ensures
        d.pool.consts.len() <= interned(d, c).pool.consts.len(),
        interned(d, c).pool.consts.len() <= u32::MAX ==> is_const(
            interned(d, c).pool,
            number(d, c),
            c,
        ),
        forall|i: u32, k: Constant| #[trigger]
            is_const(d.pool, i, k) ==> is_const(interned(d, c).pool, i, k),
{
    lemma_including(d.pool.consts, c, c);
    lemma_place_of_member(including(d.pool.consts, c), c);
}

/// A fresh local takes the next slot.
pub proof fn lemma_fresh(d: Draft, name: Seq<char>)
    ensures
        with_local(d, name).fault is None ==> {
            &&& d.fault is None
            &&& with_local(d, name).next_local == d.next_local + 1
            &&& with_local(d, name).next_local <= with_local(d, name).peak_local
        },
        d.peak_local <= with_local(d, name).peak_local,
        with_local(d, name).code == d.code,
        with_local(d, name).pool == d.pool,
{
    reveal(with_local);
}

/// The ops of the running function.
pub proof fn lemma_ops(p: Program, code: Seq<Op>, s: State, d: Draft)
    requires
        holds(p, code, s, d),
    ensures
        forall|k: nat, op: Op| k < d.code.len() && d.code[k as int] == op ==> #[trigger] op_at(
            code,
            s,
            k,
            op,
        ),
{
}

/// The tags that the program holds.
pub proof fn lemma_tags(p: Program, code: Seq<Op>, s: State, d: Draft)
    requires
        holds(p, code, s, d),
    ensures
        forall|i: u32, name: Seq<char>| #[trigger]
            is_const(d.pool, i, Constant::VariantName(name)) ==> variant_name(p, i) == Ok::<
                Seq<char>,
                Fault,
            >(name),
        forall|i: u32, c: i64| #[trigger]
            is_const(d.pool, i, Constant::Int(c)) ==> (const_at(p, i) matches Some(k)
                && const_val(k)
                == Val::Int(c)),
{
    assert forall|i: u32, name: Seq<char>| #[trigger]
        is_const(d.pool, i, Constant::VariantName(name)) implies variant_name(p, i) == Ok::<
        Seq<char>,
        Fault,
    >(name) by {
        assert(p.constants@[i as int]@ == d.pool.consts[i as int]);
    }
    assert forall|i: u32, c: i64| #[trigger]
        is_const(d.pool, i, Constant::Int(c)) implies (const_at(p, i) matches Some(k)
            && const_val(k)
        == Val::Int(c)) by {
        assert(p.constants@[i as int]@ == d.pool.consts[i as int]);
    }
}

/// The running frame, whose function holds this code, stands at a slot of it
/// and has the locals of the code.
pub open spec fn stands(p: Program, code: Seq<Op>, s: State, t: Draft, pc: nat) -> bool {
    &&& fine(t)
    &&& holds(p, code, s, t)
    &&& top_frame(s).pc == pc
    &&& top_frame(s).locals_start + t.peak_local <= s.locals.len()
}

/// The running frame stands where the code of `t` goes on from that of `d`.
pub open spec fn poised(p: Program, code: Seq<Op>, s: State, d: Draft, t: Draft) -> bool {
    stands(p, code, s, t, d.code.len())
}

/// A frame stands where it is.
pub proof fn lemma_start(p: Program, code: Seq<Op>, s: State)
    requires
        s.frames.len() > 0,
    ensures
        reaches(p, code, s, 0, top_frame(s).pc, s.stack, s.locals),
{
    reveal(reaches);
    assert(goto(s, top_frame(s).pc).frames =~= s.frames);
}

} // verus!
