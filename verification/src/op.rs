//! The bytecode instruction set.

use vstd::prelude::*;

verus! {

/// Constant pool entry.
///
/// A float constant is held as its IEEE 754 bit pattern.
#[derive(Debug, Clone, PartialEq)]
pub enum Const {
    Int(i64),
    Float(u64),
    Bool(bool),
    Str(String),
    Bytes(Vec<u8>),
    Unit,
    /// A field name, used by record construction and field access.
    FieldName(String),
    /// A variant tag, used by variant construction and tests.
    VariantName(String),
    /// A syntax tree node id, attached to calls so that traces can name them.
    NodeId(String),
}

#[derive(Debug, Clone, Copy, PartialEq, Eq, Structural)]
pub enum Op {
    // stack manipulation
    PushConst(u32),
    Pop,
    Dup,
    // locals
    LoadLocal(u16),
    /// Like `LoadLocal`, but moves the value out and leaves `Unit` behind.
    TakeLocal(u16),
    StoreLocal(u16),
    // constructors / pattern matching
    /// Pops `field_count` values and pairs them with the field names of
    /// `Program.record_shapes[shape_idx]`.
    MakeRecord { shape_idx: u32, field_count: u16 },
    /// `MakeRecord` at a site that never leaves the frame.
    AllocStackRecord { shape_idx: u32, field_count: u16 },
    /// `MakeRecord` at a site that never leaves the request scope.
    AllocArenaRecord { shape_idx: u32, field_count: u16 },
    MakeTuple(u16),
    /// `MakeTuple` at a site that never leaves the frame.
    AllocStackTuple { arity: u16 },
    /// `MakeTuple` at a site that never leaves the request scope.
    AllocArenaTuple { arity: u16 },
    MakeList(u32),
    MakeVariant { name_idx: u32, arity: u16 },
    /// Record field access. `site_idx` numbers the field accesses of one
    /// function and keys its inline cache.
    GetField { name_idx: u32, site_idx: u32 },
    GetElem(u16),
    /// Pushes whether the top of the stack carries the variant tag.
    TestVariant(u32),
    /// Replaces a variant by the tuple of its arguments.
    GetVariant(u32),
    /// Pops a variant and pushes one of its arguments.
    GetVariantArg(u16),
    GetListLen,
    GetListElem(u32),
    /// Stack: `[list, value]` to `[list with value appended]`.
    ListAppend,
    /// Stack: `[list, index]` to `[list[index]]`.
    GetListElemDyn,
    // control flow
    Jump(i32),
    /// Pops a `Bool` and jumps when it is true.
    JumpIf(i32),
    /// Pops a `Bool` and jumps when it is false.
    JumpIfNot(i32),
    Call { fn_id: u32, arity: u16, node_id_idx: u32 },
    TailCall { fn_id: u32, arity: u16, node_id_idx: u32 },
    /// Pops `capture_count` values and pairs them with `fn_id`.
    MakeClosure { fn_id: u32, capture_count: u16 },
    /// Pops `arity` arguments and the closure beneath them, and calls it.
    CallClosure { arity: u16, node_id_idx: u32 },
    /// Stable sort by key. Stack: `[xs, f]` to `[sorted xs]`.
    SortByKey { node_id_idx: u32 },
    /// Parallel map. Stack: `[xs, f]` to `[mapped xs]`, in input order.
    ParallelMap { node_id_idx: u32 },
    /// Stack: `[xs, f]` to `[mapped xs]`.
    ListMap { node_id_idx: u32 },
    /// Stack: `[xs, f]` to `[kept xs]`.
    ListFilter { node_id_idx: u32 },
    /// Stack: `[xs, init, f]` to `[accumulator]`.
    ListFold { node_id_idx: u32 },
    /// Pops `arity` arguments, dispatches to the effect handler, pushes the
    /// result.
    EffectCall { kind_idx: u32, op_idx: u32, arity: u16, node_id_idx: u32 },
    Return,
    /// Aborts with the constant message.
    Panic(u32),
    // arithmetic; the `Num` family dispatches on the operands at run time
    IntAdd,
    IntSub,
    IntMul,
    IntDiv,
    IntMod,
    IntNeg,
    IntEq,
    IntLt,
    IntLe,
    FloatAdd,
    FloatSub,
    FloatMul,
    FloatDiv,
    FloatNeg,
    FloatEq,
    FloatLt,
    FloatLe,
    NumAdd,
    NumSub,
    NumMul,
    NumDiv,
    NumMod,
    NumNeg,
    NumEq,
    NumLt,
    NumLe,
    BoolAnd,
    BoolOr,
    BoolNot,
    // strings and bytes
    StrConcat,
    StrLen,
    StrEq,
    BytesLen,
    BytesEq,
    // Superinstructions. Each one stands in the first slot of the window it
    // replaces; the slots behind it keep the primitive ops they held
    // (tombstones), so that the length of the code and every jump offset stay
    // valid.
    /// `LoadLocal + PushConst + IntAdd`; steps over two tombstones.
    LoadLocalAddIntConst { local_idx: u16, imm_const_idx: u32 },
    /// `LoadLocal + PushConst + IntAdd + StoreLocal`; three tombstones.
    LoadLocalAddIntConstStoreLocal { src: u16, imm_const_idx: u32, dest: u16 },
    /// `LoadLocal + LoadLocal + IntAdd`; two tombstones.
    LoadLocalAddLocal { lhs_idx: u16, rhs_idx: u16 },
    /// `LoadLocal + LoadLocal + IntSub`; two tombstones.
    LoadLocalSubLocal { lhs_idx: u16, rhs_idx: u16 },
    /// `LoadLocal + LoadLocal + IntMul`; two tombstones.
    LoadLocalMulLocal { lhs_idx: u16, rhs_idx: u16 },
    /// `LoadLocal + PushConst + IntEq + JumpIfNot`; three tombstones. The
    /// offset counts from the end of the window.
    LoadLocalEqIntConstJumpIfNot { local_idx: u16, imm_const_idx: u32, jump_offset: i32 },
    /// `LoadLocal + StoreLocal` in front of the previous one; five tombstones.
    LoadLocalStoreEqIntConstJumpIfNot { src: u16, dst: u16, imm_const_idx: u32, jump_offset: i32 },
    /// `LoadLocal + GetField + IntAdd`; two tombstones.
    LoadLocalGetFieldAdd { local_idx: u16, name_idx: u32, site_idx: u32 },
    /// `LoadLocal + GetField + IntSub`; two tombstones.
    LoadLocalGetFieldSub { local_idx: u16, name_idx: u32, site_idx: u32 },
    /// `LoadLocal + GetField + IntMul`; two tombstones.
    LoadLocalGetFieldMul { local_idx: u16, name_idx: u32, site_idx: u32 },
    /// `LoadLocal + GetField`; one tombstone.
    LoadLocalGetField { local_idx: u16, name_idx: u32, site_idx: u32 },
}

/// The target of a relative jump, if it lies inside a body of `n` slots.
pub open spec fn jump_target(base: nat, off: i32, n: nat) -> Option<nat> {
    if 0 <= base + off < n {
        Some((base + off) as nat)
    } else {
        None
    }
}

/// Resolves a jump offset that counts from the slot `pc + width`. A target
/// outside the `n` slots of the body is no target.
pub fn resolve_jump(pc: usize, width: usize, off: i32, n: usize) -> (target: Option<usize>)
    ensures
        target matches Some(t) ==> jump_target((pc + width) as nat, off, n as nat) == Some(
            t as nat,
        ),
        target is None ==> jump_target((pc + width) as nat, off, n as nat) is None,
{
    let t: i128 = pc as i128 + width as i128 + off as i128;
    if t >= 0 && t < n as i128 {
        Some(t as usize)
    } else {
        None
    }
}

/// The form of an op that a body is hashed in. A superinstruction stands for
/// the load that its window started with, an allocation tier for the plain
/// constructor, a typed equality for the untyped one. A field access site has
/// no influence on the hash.
pub open spec fn canonical(op: Op) -> Op {
    match op {
        Op::TakeLocal(i) => Op::LoadLocal(i),
        Op::AllocStackRecord { shape_idx, field_count }
        | Op::AllocArenaRecord { shape_idx, field_count } => Op::MakeRecord {
            shape_idx,
            field_count,
        },
        Op::AllocStackTuple { arity } | Op::AllocArenaTuple { arity } => Op::MakeTuple(arity),
        Op::GetField { name_idx, .. } => Op::GetField { name_idx, site_idx: 0 },
        Op::IntEq | Op::FloatEq => Op::NumEq,
        Op::LoadLocalAddIntConst { local_idx, .. }
        | Op::LoadLocalEqIntConstJumpIfNot { local_idx, .. }
        | Op::LoadLocalGetFieldAdd { local_idx, .. }
        | Op::LoadLocalGetFieldSub { local_idx, .. }
        | Op::LoadLocalGetFieldMul { local_idx, .. }
        | Op::LoadLocalGetField { local_idx, .. } => Op::LoadLocal(local_idx),
        Op::LoadLocalAddIntConstStoreLocal { src, .. }
        | Op::LoadLocalStoreEqIntConstJumpIfNot { src, .. } => Op::LoadLocal(src),
        Op::LoadLocalAddLocal { lhs_idx, .. }
        | Op::LoadLocalSubLocal { lhs_idx, .. }
        | Op::LoadLocalMulLocal { lhs_idx, .. } => Op::LoadLocal(lhs_idx),
        _ => op,
    }
}

/// The canonical form of a body.
pub open spec fn canonical_code(code: Seq<Op>) -> Seq<Op> {
    Seq::new(code.len(), |i: int| canonical(code[i]))
}

/// Computes [`canonical`].
pub fn canonical_op(op: Op) -> (c: Op)
    ensures
        c == canonical(op),
{
    match op {
        Op::TakeLocal(i) => Op::LoadLocal(i),
        Op::AllocStackRecord { shape_idx, field_count }
        | Op::AllocArenaRecord { shape_idx, field_count } => Op::MakeRecord {
            shape_idx,
            field_count,
        },
        Op::AllocStackTuple { arity } | Op::AllocArenaTuple { arity } => Op::MakeTuple(arity),
        Op::GetField { name_idx, .. } => Op::GetField { name_idx, site_idx: 0 },
        Op::IntEq | Op::FloatEq => Op::NumEq,
        Op::LoadLocalAddIntConst { local_idx, .. }
        | Op::LoadLocalEqIntConstJumpIfNot { local_idx, .. }
        | Op::LoadLocalGetFieldAdd { local_idx, .. }
        | Op::LoadLocalGetFieldSub { local_idx, .. }
        | Op::LoadLocalGetFieldMul { local_idx, .. }
        | Op::LoadLocalGetField { local_idx, .. } => Op::LoadLocal(local_idx),
        Op::LoadLocalAddIntConstStoreLocal { src, .. }
        | Op::LoadLocalStoreEqIntConstJumpIfNot { src, .. } => Op::LoadLocal(src),
        Op::LoadLocalAddLocal { lhs_idx, .. }
        | Op::LoadLocalSubLocal { lhs_idx, .. }
        | Op::LoadLocalMulLocal { lhs_idx, .. } => Op::LoadLocal(lhs_idx),
        _ => op,
    }
}

} // verus!
