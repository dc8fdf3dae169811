//! Last-use analysis: the last load of a local becomes a move.
//!
//! Backward liveness over the control flow of a body. A load whose slot is not
//! live behind it is the last read on every path, so the value can move out of
//! the local. Superinstructions read their slots by index and are never
//! rewritten; their tombstones count as if they ran, which can only make more
//! slots live.

use vstd::prelude::*;

use crate::escape;
use crate::escape::pcs;
use crate::op;
use crate::op::{resolve_jump, Op};

verus! {

/// The op reads the local `r`.
pub open spec fn reads(op: Op, r: u16) -> bool {
    match op {
        Op::LoadLocal(i) | Op::TakeLocal(i) => i == r,
        Op::LoadLocalAddIntConst { local_idx, .. }
        | Op::LoadLocalEqIntConstJumpIfNot { local_idx, .. }
        | Op::LoadLocalGetFieldAdd { local_idx, .. }
        | Op::LoadLocalGetFieldSub { local_idx, .. }
        | Op::LoadLocalGetFieldMul { local_idx, .. }
        | Op::LoadLocalGetField { local_idx, .. } => local_idx == r,
        Op::LoadLocalAddIntConstStoreLocal { src, .. }
        | Op::LoadLocalStoreEqIntConstJumpIfNot { src, .. } => src == r,
        Op::LoadLocalAddLocal { lhs_idx, rhs_idx }
        | Op::LoadLocalSubLocal { lhs_idx, rhs_idx }
        | Op::LoadLocalMulLocal { lhs_idx, rhs_idx } => lhs_idx == r || rhs_idx == r,
        _ => false,
    }
}

/// The op writes the local `r`.
pub open spec fn writes(op: Op, r: u16) -> bool {
    match op {
        Op::StoreLocal(i) => i == r,
        Op::LoadLocalAddIntConstStoreLocal { dest, .. } => dest == r,
        Op::LoadLocalStoreEqIntConstJumpIfNot { dst, .. } => dst == r,
        _ => false,
    }
}

/// The pcs behind an op, with tombstones taken as live ops.
pub open spec fn next_of(pc: nat, op: Op, n: nat) -> Seq<nat> {
    match op {
        Op::Jump(off) => escape::opt_target(op::jump_target(pc + 1, off, n)),
        Op::JumpIf(off) | Op::JumpIfNot(off) => escape::fall_through(pc + 1, n)
            + escape::opt_target(op::jump_target(pc + 1, off, n)),
        Op::LoadLocalEqIntConstJumpIfNot { jump_offset, .. } => escape::fall_through(pc + 1, n)
            + escape::opt_target(op::jump_target(pc + 4, jump_offset, n)),
        Op::LoadLocalStoreEqIntConstJumpIfNot { jump_offset, .. } => escape::fall_through(
            pc + 1,
            n,
        ) + escape::opt_target(op::jump_target(pc + 6, jump_offset, n)),
        Op::Return | Op::Panic(_) | Op::TailCall { .. } => Seq::empty(),
        _ => escape::fall_through(pc + 1, n),
    }
}

/// Control can go from `pc` to `t`.
pub open spec fn leads_to(code: Seq<Op>, pc: nat, t: nat) -> bool {
    next_of(pc, code[pc as int], code.len()).contains(t)
}

/// Some path of at most `h` steps from `pc` reads the local `r` before it
/// writes it.
pub open spec fn live_within(code: Seq<Op>, h: nat, pc: nat, r: u16) -> bool
    decreases h,
{
    &&& pc < code.len()
    &&& {
        ||| reads(code[pc as int], r)
        ||| h > 0 && !writes(code[pc as int], r) && exists|t: nat| #[trigger]
            leads_to(code, pc, t) && live_within(code, (h - 1) as nat, t, r)
    }
}

/// The local `r` is live on entry to `pc`.
pub open spec fn live_in(code: Seq<Op>, pc: nat, r: u16) -> bool {
    exists|h: nat| live_within(code, h, pc, r)
}

/// The local `r` is live behind the op at `pc`.
pub open spec fn live_out(code: Seq<Op>, pc: nat, r: u16) -> bool {
    exists|t: nat| #[trigger] leads_to(code, pc, t) && live_in(code, t, r)
}

/// How many slots an op occupies, tombstones included.
pub open spec fn width(op: Op) -> nat {
    match op {
        Op::LoadLocalGetField { .. } => 2,
        Op::LoadLocalAddIntConst { .. }
        | Op::LoadLocalAddLocal { .. }
        | Op::LoadLocalSubLocal { .. }
        | Op::LoadLocalMulLocal { .. }
        | Op::LoadLocalGetFieldAdd { .. }
        | Op::LoadLocalGetFieldSub { .. }
        | Op::LoadLocalGetFieldMul { .. } => 3,
        Op::LoadLocalAddIntConstStoreLocal { .. } | Op::LoadLocalEqIntConstJumpIfNot { .. } => 4,
        Op::LoadLocalStoreEqIntConstJumpIfNot { .. } => 6,
        _ => 1,
    }
}

/// The slot at `q` holds an op whose window goes over `pc`.
pub open spec fn hides(code: Seq<Op>, q: int, pc: int) -> bool {
    0 <= q < pc && q < code.len() && pc < q + width(code[q])
}

/// An op before `end` hides the slot at `pc`.
spec fn hidden_by(code: Seq<Op>, end: int, pc: int) -> bool {
    exists|q: int| q < end && #[trigger] hides(code, q, pc)
}

/// The slot at `pc` is a tombstone.
pub open spec fn is_tombstone(code: Seq<Op>, pc: int) -> bool {
    exists|q: int| #[trigger] hides(code, q, pc)
}

/// The op at `pc` after the pass: a load of a local that is dead behind it
/// moves the value out.
pub open spec fn taken(code: Seq<Op>, pc: int) -> Op {
    match code[pc] {
        Op::LoadLocal(i) => if !is_tombstone(code, pc) && !live_out(code, pc as nat, i) {
            Op::TakeLocal(i)
        } else {
            code[pc]
        },
        _ => code[pc],
    }
}

/// The body after the pass.
pub open spec fn with_takes(code: Seq<Op>) -> Seq<Op> {
    Seq::new(code.len(), |pc: int| taken(code, pc))
}

fn reads_local(op: &Op, r: u16) -> (yes: bool)
    ensures
        yes == reads(*op, r),
{
    match *op {
        Op::LoadLocal(i) | Op::TakeLocal(i) => i == r,
        Op::LoadLocalAddIntConst { local_idx, .. }
        | Op::LoadLocalEqIntConstJumpIfNot { local_idx, .. }
        | Op::LoadLocalGetFieldAdd { local_idx, .. }
        | Op::LoadLocalGetFieldSub { local_idx, .. }
        | Op::LoadLocalGetFieldMul { local_idx, .. }
        | Op::LoadLocalGetField { local_idx, .. } => local_idx == r,
        Op::LoadLocalAddIntConstStoreLocal { src, .. }
        | Op::LoadLocalStoreEqIntConstJumpIfNot { src, .. } => src == r,
        Op::LoadLocalAddLocal { lhs_idx, rhs_idx }
        | Op::LoadLocalSubLocal { lhs_idx, rhs_idx }
        | Op::LoadLocalMulLocal { lhs_idx, rhs_idx } => lhs_idx == r || rhs_idx == r,
        _ => false,
    }
}

fn writes_local(op: &Op, r: u16) -> (yes: bool)
    ensures
        yes == writes(*op, r),
{
    match *op {
        Op::StoreLocal(i) => i == r,
        Op::LoadLocalAddIntConstStoreLocal { dest, .. } => dest == r,
        Op::LoadLocalStoreEqIntConstJumpIfNot { dst, .. } => dst == r,
        _ => false,
    }
}

/// One more than the largest local that an op touches.
spec fn touches_below(op: Op, n: nat) -> bool {
    forall|r: u16| (#[trigger] reads(op, r) || writes(op, r)) ==> r < n
}

fn max_u(a: usize, b: u16) -> (m: usize)
    ensures
        m >= a,
        m > b,
        m == a || m == b + 1,
{
    if a > b as usize {
        a
    } else {
        b as usize + 1
    }
}

/// How many locals a body touches.
fn count_slots(code: &Vec<Op>) -> (n: usize)
    ensures
        n <= 0x1_0000,
        forall|i: int| 0 <= i < code@.len() ==> touches_below(#[trigger] code@[i], n as nat),
{
    let mut n: usize = 0;
    let mut i: usize = 0;
    while i < code.len()
        invariant
            i <= code.len(),
            n <= 0x1_0000,
            forall|j: int| 0 <= j < i ==> touches_below(#[trigger] code@[j], n as nat),
        decreases code.len() - i,
    {
        let ghost n0 = n;
        match code[i] {
            Op::LoadLocal(k) | Op::TakeLocal(k) | Op::StoreLocal(k) => {
                n = max_u(n, k);
            },
            Op::LoadLocalAddIntConst { local_idx, .. }
            | Op::LoadLocalEqIntConstJumpIfNot { local_idx, .. }
            | Op::LoadLocalGetFieldAdd { local_idx, .. }
            | Op::LoadLocalGetFieldSub { local_idx, .. }
            | Op::LoadLocalGetFieldMul { local_idx, .. }
            | Op::LoadLocalGetField { local_idx, .. } => {
                n = max_u(n, local_idx);
            },
            Op::LoadLocalAddIntConstStoreLocal { src, dest, .. } => {
                n = max_u(max_u(n, src), dest);
            },
            Op::LoadLocalStoreEqIntConstJumpIfNot { src, dst, .. } => {
                n = max_u(max_u(n, src), dst);
            },
            Op::LoadLocalAddLocal { lhs_idx, rhs_idx }
            | Op::LoadLocalSubLocal { lhs_idx, rhs_idx }
            | Op::LoadLocalMulLocal { lhs_idx, rhs_idx } => {
                n = max_u(max_u(n, lhs_idx), rhs_idx);
            },
            _ => {},
        }
        assert(touches_below(code@[i as int], n as nat));
        assert forall|j: int| 0 <= j < i implies touches_below(#[trigger] code@[j], n as nat) by {
            assert(touches_below(code@[j], n0 as nat));
            assert forall|r: u16| (#[trigger] reads(code@[j], r) || writes(code@[j], r)) implies r
                < n by {
                assert(r < n0);
            }
        }
        i = i + 1;
    }
    n
}

fn next_pcs_of(pc: usize, op: &Op, n: usize) -> (v: Vec<usize>)
    requires
        pc < n,
    ensures
        pcs(v@) == next_of(pc as nat, *op, n as nat),
        forall|i: int| 0 <= i < v@.len() ==> #[trigger] v@[i] < n,
{
    let mut v: Vec<usize> = Vec::new();
    let falls = match *op {
        Op::Jump(_) | Op::Return | Op::Panic(_) | Op::TailCall { .. } => false,
        _ => true,
    };
    if falls && 1 < n - pc {
        v.push(pc + 1);
    }
    let target: Option<usize> = match *op {
        Op::Jump(off) | Op::JumpIf(off) | Op::JumpIfNot(off) => resolve_jump(pc, 1, off, n),
        Op::LoadLocalEqIntConstJumpIfNot { jump_offset, .. } => resolve_jump(
            pc,
            4,
            jump_offset,
            n,
        ),
        Op::LoadLocalStoreEqIntConstJumpIfNot { jump_offset, .. } => resolve_jump(
            pc,
            6,
            jump_offset,
            n,
        ),
        _ => None,
    };
    if let Some(t) = target {
        v.push(t);
    }
    assert(pcs(v@) =~= next_of(pc as nat, *op, n as nat));
    v
}

fn width_of(op: &Op) -> (w: usize)
    ensures
        w == width(*op),
{
    match *op {
        Op::LoadLocalGetField { .. } => 2,
        Op::LoadLocalAddIntConst { .. }
        | Op::LoadLocalAddLocal { .. }
        | Op::LoadLocalSubLocal { .. }
        | Op::LoadLocalMulLocal { .. }
        | Op::LoadLocalGetFieldAdd { .. }
        | Op::LoadLocalGetFieldSub { .. }
        | Op::LoadLocalGetFieldMul { .. } => 3,
        Op::LoadLocalAddIntConstStoreLocal { .. } | Op::LoadLocalEqIntConstJumpIfNot { .. } => 4,
        Op::LoadLocalStoreEqIntConstJumpIfNot { .. } => 6,
        _ => 1,
    }
}

/// Bits that are still unset in one row.
spec fn unset(row: Seq<bool>) -> nat
    decreases row.len(),
{
    if row.len() == 0 {
        0
    } else {
        unset(row.drop_last()) + (if row.last() { 0nat } else { 1nat })
    }
}

spec fn total_unset(rows: Seq<Vec<bool>>) -> nat
    decreases rows.len(),
{
    if rows.len() == 0 {
        0
    } else {
        total_unset(rows.drop_last()) + unset(rows.last()@)
    }
}

proof fn lemma_set_bit(row: Seq<bool>, k: int)
    requires
        0 <= k < row.len(),
        !row[k],
    ensures
        unset(row.update(k, true)) + 1 == unset(row),
    decreases row.len(),
{
    if k == row.len() - 1 {
        assert(row.update(k, true).drop_last() =~= row.drop_last());
    } else {
        lemma_set_bit(row.drop_last(), k);
        assert(row.update(k, true).drop_last() =~= row.drop_last().update(k, true));
    }
}

proof fn lemma_set_row(rows: Seq<Vec<bool>>, pc: int, row: Vec<bool>)
    requires
        0 <= pc < rows.len(),
    ensures
        total_unset(rows.update(pc, row)) + unset(rows[pc]@) == total_unset(rows) + unset(row@),
    decreases rows.len(),
{
    if pc == rows.len() - 1 {
        assert(rows.update(pc, row).drop_last() =~= rows.drop_last());
    } else {
        lemma_set_row(rows.drop_last(), pc, row);
        assert(rows.update(pc, row).drop_last() =~= rows.drop_last().update(pc, row));
    }
}

/// The rows have the right shape and every set bit is live.
spec fn rows_ok(code: Seq<Op>, rows: Seq<Vec<bool>>, nslots: nat) -> bool {
    &&& rows.len() == code.len()
    &&& forall|pc: int| 0 <= pc < rows.len() ==> (#[trigger] rows[pc])@.len() == nslots
    &&& forall|pc: int, r: u16|
        0 <= pc < rows.len() && r < nslots && #[trigger] rows[pc]@[r as int] ==> live_in(
            code,
            pc as nat,
            r,
        )
}

/// The bit that the rows give for `r` on entry to `pc`.
spec fn bit_in(code: Seq<Op>, rows: Seq<Vec<bool>>, pc: nat, r: u16) -> bool {
    ||| reads(code[pc as int], r)
    ||| !writes(code[pc as int], r) && exists|t: nat| #[trigger]
        leads_to(code, pc, t) && rows[t as int]@[r as int]
}

fn any_next_live(
    code: &Vec<Op>,
    next: &Vec<usize>,
    rows: &Vec<Vec<bool>>,
    pc: usize,
    r: u16,
    nslots: usize,
) -> (yes: bool)
    requires
        pc < code@.len(),
        r < nslots,
        rows_ok(code@, rows@, nslots as nat),
        pcs(next@) == next_of(pc as nat, code@[pc as int], code@.len()),
        forall|i: int| 0 <= i < next@.len() ==> #[trigger] next@[i] < code@.len(),
    ensures
        yes <==> exists|t: nat| #[trigger]
            leads_to(code@, pc as nat, t) && rows@[t as int]@[r as int],
{
    let mut i: usize = 0;
    while i < next.len()
        invariant
            i <= next.len(),
            r < nslots,
            rows_ok(code@, rows@, nslots as nat),
            pcs(next@) == next_of(pc as nat, code@[pc as int], code@.len()),
            forall|j: int| 0 <= j < next@.len() ==> #[trigger] next@[j] < code@.len(),
            forall|j: int| 0 <= j < i ==> !rows@[(#[trigger] next@[j]) as int]@[r as int],
        decreases next.len() - i,
    {
        let t: usize = next[i];
        assert(rows@[t as int]@.len() == nslots);
        if rows[t][r as usize] {
            assert(pcs(next@)[i as int] == t as nat);
            assert(leads_to(code@, pc as nat, t as nat));
            return true;
        }
        i = i + 1;
    }
    assert forall|t: nat| #[trigger] leads_to(code@, pc as nat,
        t) implies !rows@[t as int]@[r as int] by {
        let j = choose|j: int| 0 <= j < pcs(next@).len() && pcs(next@)[j] == t;
        assert(next@[j] as nat == t);
    }
    false
}

proof fn lemma_bit_is_live(code: Seq<Op>, rows: Seq<Vec<bool>>, nslots: nat, pc: nat, r: u16)
    requires
        rows_ok(code, rows, nslots),
        pc < code.len(),
        r < nslots,
        bit_in(code, rows, pc, r),
    ensures
        live_in(code, pc, r),
{
    if reads(code[pc as int], r) {
        assert(live_within(code, 0, pc, r));
    } else {
        let t = choose|t: nat| #[trigger] leads_to(code, pc, t) && rows[t as int]@[r as int];
        lemma_next_in_range(code, pc, t);
        assert(live_in(code, t, r));
        let h = choose|h: nat| live_within(code, h, t, r);
        assert(live_within(code, h + 1, pc, r));
    }
}

proof fn lemma_next_in_range(code: Seq<Op>, pc: nat, t: nat)
    requires
        pc < code.len(),
        leads_to(code, pc, t),
    ensures
        t < code.len(),
{
}

/// Rows that no step changes hold every live bit.
proof fn lemma_fixpoint_is_complete(
    code: Seq<Op>,
    rows: Seq<Vec<bool>>,
    nslots: nat,
    h: nat,
    pc: nat,
    r: u16,
)
    requires
        rows_ok(code, rows, nslots),
        r < nslots,
        forall|q: nat, s: u16|
            q < code.len() && s < nslots && #[trigger] bit_in(code, rows, q, s)
                ==> rows[q as int]@[s as int],
        live_within(code, h, pc, r),
    ensures
        rows[pc as int]@[r as int],
    decreases h,
{
    if !reads(code[pc as int], r) {
        let t = choose|t: nat| #[trigger]
            leads_to(code, pc, t) && live_within(code, (h - 1) as nat, t, r);
        lemma_fixpoint_is_complete(code, rows, nslots, (h - 1) as nat, t, r);
        assert(leads_to(code, pc, t) && rows[t as int]@[r as int]);
    }
    assert(bit_in(code, rows, pc, r));
}

/// Liveness on entry to every pc, by iteration to the fixpoint.
fn solve(code: &Vec<Op>, nslots: usize) -> (rows: Vec<Vec<bool>>)
    requires
        nslots <= 0x1_0000,
    ensures
        rows@.len() == code@.len(),
        forall|pc: int| 0 <= pc < rows@.len() ==> (#[trigger] rows@[pc])@.len() == nslots,
        forall|pc: nat, r: u16|
            pc < code@.len() && r < nslots ==> (#[trigger] rows@[pc as int]@[r as int] <==> live_in(
                code@,
                pc,
                r,
            )),
{
    let n: usize = code.len();
    let mut rows: Vec<Vec<bool>> = Vec::new();
    let mut i: usize = 0;
    while i < n
        invariant
            i <= n,
            rows@.len() == i,
            forall|pc: int| 0 <= pc < rows@.len() ==> (#[trigger] rows@[pc])@.len() == nslots,
            forall|pc: int, r: int|
                0 <= pc < rows@.len() && 0 <= r < nslots ==> !#[trigger] rows@[pc]@[r],
        decreases n - i,
    {
        let mut row: Vec<bool> = Vec::new();
        let mut k: usize = 0;
        while k < nslots
            invariant
                k <= nslots,
                row@.len() == k,
                forall|r: int| 0 <= r < k ==> !#[trigger] row@[r],
            decreases nslots - k,
        {
            row.push(false);
            k = k + 1;
        }
        rows.push(row);
        i = i + 1;
    }
    let mut changed: bool = true;
    while changed
        invariant
            n == code@.len(),
            nslots <= 0x1_0000,
            rows_ok(code@, rows@, nslots as nat),
            !changed ==> forall|q: nat, s: u16|
                q < code@.len() && s < nslots && #[trigger] bit_in(code@, rows@, q, s)
                    ==> rows@[q as int]@[s as int],
        decreases total_unset(rows@), (if changed { 1int } else { 0int }),
    {
        let ghost start = total_unset(rows@);
        let ghost rows0 = rows@;
        changed = false;
        let mut left: usize = n;
        while left > 0
            invariant
                left <= n,
                n == code@.len(),
                nslots <= 0x1_0000,
                rows_ok(code@, rows@, nslots as nat),
                changed ==> total_unset(rows@) < start,
                !changed ==> rows@ == rows0 && total_unset(rows@) == start,
                !changed ==> forall|q: nat, s: u16|
                    left <= q < code@.len() && s < nslots && #[trigger] bit_in(
                        code@,
                        rows@,
                        q,
                        s,
                    ) ==> rows@[q as int]@[s as int],
            decreases left,
        {
            let pc: usize = left - 1;
            let next = next_pcs_of(pc, &code[pc], n);
            let mut k: usize = 0;
            while k < nslots
                invariant
                    k <= nslots,
                    pc == left - 1,
                    left <= n,
                    n == code@.len(),
                    nslots <= 0x1_0000,
                    pcs(next@) == next_of(pc as nat, code@[pc as int], code@.len()),
                    forall|i: int| 0 <= i < next@.len() ==> #[trigger] next@[i] < code@.len(),
                    rows_ok(code@, rows@, nslots as nat),
                    changed ==> total_unset(rows@) < start,
                    !changed ==> rows@ == rows0 && total_unset(rows@) == start,
                    !changed ==> forall|q: nat, s: u16|
                        left <= q < code@.len() && s < nslots && #[trigger] bit_in(
                            code@,
                            rows@,
                            q,
                            s,
                        ) ==> rows@[q as int]@[s as int],
                    !changed ==> forall|s: u16|
                        s < k && #[trigger] bit_in(code@, rows@, pc as nat, s)
                            ==> rows@[pc as int]@[s as int],
                decreases nslots - k,
            {
                let r: u16 = k as u16;
                assert(rows@[pc as int]@.len() == nslots);
                if !rows[pc][k] {
                    let live = reads_local(&code[pc], r) || (!writes_local(&code[pc], r)
                        && any_next_live(code, &next, &rows, pc, r, nslots));
                    if live {
                        let ghost before = rows@;
                        proof {
                            assert(bit_in(code@, rows@, pc as nat, r));
                            lemma_bit_is_live(code@, rows@, nslots as nat, pc as nat, r);
                        }
                        let mut row = rows[pc].clone();
                        assert(row@ =~= before[pc as int]@);
                        row.set(k, true);
                        let ghost row_now = row;
                        rows.set(pc, row);
                        proof {
                            lemma_set_bit(before[pc as int]@, k as int);
                            lemma_set_row(before, pc as int, row_now);
                            assert forall|q: int, s: u16|
                                0 <= q < rows@.len() && s < nslots
                                    && #[trigger] rows@[q]@[s as int] implies live_in(
                                code@,
                                q as nat,
                                s,
                            ) by {
                                if q != pc || s != r {
                                    assert(before[q]@[s as int]);
                                }
                            }
                        }
                        changed = true;
                    } else {
                        assert(!bit_in(code@, rows@, pc as nat, r));
                    }
                }
                k = k + 1;
            }
            left = left - 1;
        }
    }
    proof {
        assert forall|pc: nat, r: u16|
            pc < code@.len() && r < nslots implies (#[trigger] rows@[pc as int]@[r as int]
            <==> live_in(code@, pc, r)) by {
            if live_in(code@, pc, r) {
                let h = choose|h: nat| live_within(code@, h, pc, r);
                lemma_fixpoint_is_complete(code@, rows@, nslots as nat, h, pc, r);
            }
        }
    }
    rows
}

/// Rewrites every load whose local is dead behind it.
pub fn apply_last_load_takes(code: &mut Vec<Op>)
    ensures
        final(code)@ == with_takes(old(code)@),
{
    let n: usize = code.len();
    let ghost c0 = code@;
    let nslots: usize = count_slots(code);
    if nslots == 0 {
        assert forall|pc: int| 0 <= pc < c0.len() implies #[trigger] c0[pc] == taken(c0, pc) by {
            assert(touches_below(c0[pc], 0));
            if let Op::LoadLocal(i) = c0[pc] {
                assert(reads(c0[pc], i));
            }
        }
        assert(code@ =~= with_takes(c0));
        return ;
    }
    let rows = solve(code, nslots);
    let mut tombstone: Vec<bool> = Vec::new();
    let mut hidden_up_to: usize = 0;
    let mut pc: usize = 0;
    // The end of the furthest window so far tells which slots are hidden.
    while pc < n
        invariant
            pc <= n,
            n == code@.len(),
            code@ == c0,
            tombstone@.len() == pc,
            forall|j: int| 0 <= j < pc ==> (#[trigger] tombstone@[j] <==> is_tombstone(c0, j)),
            forall|t: int|
                pc <= t < n ==> (t < hidden_up_to <==> #[trigger] hidden_by(c0, pc as int, t)),
        decreases n - pc,
    {
        let hidden = pc < hidden_up_to;
        assert(hidden <==> is_tombstone(c0, pc as int)) by {
            assert(hidden <==> hidden_by(c0, pc as int, pc as int));
            if is_tombstone(c0, pc as int) {
                let q = choose|q: int| #[trigger] hides(c0, q, pc as int);
                assert(q < pc);
            }
        }
        tombstone.push(hidden);
        let w: usize = width_of(&code[pc]);
        let ghost hid0 = hidden_up_to;
        if w <= n - pc {
            if pc + w > hidden_up_to {
                hidden_up_to = pc + w;
            }
        } else {
            hidden_up_to = n;
        }
        proof {
            assert forall|t: int| pc + 1 <= t < n implies (t < hidden_up_to
                <==> #[trigger] hidden_by(c0, pc + 1, t)) by {
                assert(t < hid0 <==> hidden_by(c0, pc as int, t));
                assert(hides(c0, pc as int, t) <==> t < pc + w);
                if hidden_by(c0, pc as int, t) {
                    let q = choose|q: int| q < pc && #[trigger] hides(c0, q, t);
                    assert(q < pc + 1 && hides(c0, q, t));
                }
            }
        }
        pc = pc + 1;
    }
    let mut at: usize = 0;
    while at < n
        invariant
            at <= n,
            n == code@.len(),
            n == c0.len(),
            tombstone@.len() == n,
            nslots <= 0x1_0000,
            rows@.len() == n,
            forall|q: int| 0 <= q < rows@.len() ==> (#[trigger] rows@[q])@.len() == nslots,
            forall|q: nat, r: u16|
                q < n && r < nslots ==> (#[trigger] rows@[q as int]@[r as int] <==> live_in(
                    c0,
                    q,
                    r,
                )),
            forall|j: int| 0 <= j < n ==> (#[trigger] tombstone@[j] <==> is_tombstone(c0, j)),
            forall|j: int| 0 <= j < n ==> touches_below(#[trigger] c0[j], nslots as nat),
            forall|j: int| 0 <= j < at ==> #[trigger] code@[j] == taken(c0, j),
            forall|j: int| at <= j < n ==> #[trigger] code@[j] == c0[j],
        decreases n - at,
    {
        if !tombstone[at] {
            if let Op::LoadLocal(i) = code[at] {
                let next = next_pcs_of(at, &code[at], n);
                assert(touches_below(c0[at as int], nslots as nat));
                assert(reads(c0[at as int], i));
                let live = next_is_live(&next, &rows, i, nslots, Ghost(c0), Ghost(at as nat));
                if !live {
                    code.set(at, Op::TakeLocal(i));
                }
            }
        }
        at = at + 1;
    }
    assert(code@ =~= with_takes(c0));
}

fn next_is_live(
    next: &Vec<usize>,
    rows: &Vec<Vec<bool>>,
    r: u16,
    nslots: usize,
    Ghost(code): Ghost<Seq<Op>>,
    Ghost(pc): Ghost<nat>,
) -> (live: bool)
    requires
        pc < code.len(),
        r < nslots,
        rows@.len() == code.len(),
        forall|q: int| 0 <= q < rows@.len() ==> (#[trigger] rows@[q])@.len() == nslots,
        forall|q: nat, s: u16|
            q < code.len() && s < nslots ==> (#[trigger] rows@[q as int]@[s as int] <==> live_in(
                code,
                q,
                s,
            )),
        pcs(next@) == next_of(pc, code[pc as int], code.len()),
        forall|i: int| 0 <= i < next@.len() ==> #[trigger] next@[i] < code.len(),
    ensures
        live <==> live_out(code, pc, r),
{
    let mut i: usize = 0;
    while i < next.len()
        invariant
            i <= next.len(),
            r < nslots,
            rows@.len() == code.len(),
            forall|q: int| 0 <= q < rows@.len() ==> (#[trigger] rows@[q])@.len() == nslots,
            forall|q: nat, s: u16|
                q < code.len() && s < nslots
                    ==> (#[trigger] rows@[q as int]@[s as int] <==> live_in(
                    code,
                    q,
                    s,
                )),
            pcs(next@) == next_of(pc, code[pc as int], code.len()),
            forall|j: int| 0 <= j < next@.len() ==> #[trigger] next@[j] < code.len(),
            forall|j: int| 0 <= j < i ==> !live_in(code, (#[trigger] next@[j]) as nat, r),
        decreases next.len() - i,
    {
        let t: usize = next[i];
        assert(rows@[t as int]@.len() == nslots);
        assert(rows@[t as nat as int]@[r as int] <==> live_in(code, t as nat, r));
        if rows[t][r as usize] {
            assert(pcs(next@)[i as int] == t as nat);
            assert(leads_to(code, pc, t as nat));
            return true;
        }
        i = i + 1;
    }
    assert forall|t: nat| #[trigger] leads_to(code, pc, t) implies !live_in(code, t, r) by {
        let j = choose|j: int| 0 <= j < pcs(next@).len() && pcs(next@)[j] == t;
        assert(next@[j] as nat == t);
    }
    false
}


// ---------------------------------------------------------------------------
// Laws
// ---------------------------------------------------------------------------

/// `path` follows the control flow.
pub open spec fn is_path(code: Seq<Op>, path: Seq<nat>) -> bool {
    &&& path.len() > 0
    &&& forall|i: int| 0 <= i < path.len() ==> #[trigger] path[i] < code.len()
    &&& forall|i: int| 1 <= i < path.len() ==> leads_to(code, path[i - 1], #[trigger] path[i])
}

proof fn lemma_path_live(code: Seq<Op>, path: Seq<nat>, r: u16)
    requires
        is_path(code, path),
        reads(code[path.last() as int], r),
        forall|i: int|
            0 <= i < path.len() - 1 ==> !writes(code[(#[trigger] path[i]) as int], r),
    ensures
        live_in(code, path[0], r),
    decreases path.len(),
{
    assert(path[path.len() - 1] == path.last());
    if path.len() == 1 {
        assert(live_within(code, 0, path[0], r));
    } else {
        let rest = path.drop_first();
        assert forall|i: int| 0 <= i < rest.len() implies #[trigger] rest[i] < code.len() by {
            assert(rest[i] == path[i + 1]);
        }
        assert forall|i: int| 1 <= i < rest.len() implies leads_to(
            code,
            rest[i - 1],
            #[trigger] rest[i],
        ) by {
            assert(rest[i] == path[i + 1]);
            assert(rest[i - 1] == path[i]);
        }
        assert forall|i: int| 0 <= i < rest.len() - 1 implies !writes(
            code[(#[trigger] rest[i]) as int],
            r,
        ) by {
            assert(rest[i] == path[i + 1]);
        }
        lemma_path_live(code, rest, r);
        assert(rest[0] == path[1]);
        assert(leads_to(code, path[0], path[1]));
        let h = choose|h: nat| live_within(code, h, rest[0], r);
        assert(live_within(code, h + 1, path[0], r));
    }
}

/// Law: a value that a load moves out is never missed. On every path behind
/// the load, the local is written again before it is read.
pub proof fn law_taken_local_is_dead(code: Seq<Op>, pc: nat, r: u16, path: Seq<nat>)
    requires
        pc < code.len(),
        code[pc as int] == Op::LoadLocal(r),
        with_takes(code)[pc as int] == Op::TakeLocal(r),
        is_path(code, path),
        leads_to(code, pc, path[0]),
        reads(code[path.last() as int], r),
    ensures
        exists|i: int|
            0 <= i < path.len() - 1 && writes(code[(#[trigger] path[i]) as int], r),
{
    if !exists|i: int| 0 <= i < path.len() - 1 && writes(code[(#[trigger] path[i]) as int], r) {
        lemma_path_live(code, path, r);
    }
}

/// Law: the pass changes neither the canonical form of a body, and so not its
/// hash, nor what the verifier finds in it.
pub proof fn law_takes_keep_shape(code: Seq<Op>)
    ensures
        op::canonical_code(with_takes(code)) == op::canonical_code(code),
        crate::verify::mismatches(with_takes(code)) == crate::verify::mismatches(code),
{
    let t = with_takes(code);
    assert(op::canonical_code(t) =~= op::canonical_code(code));
    crate::verify::lemma_same_walk(
        code,
        t,
        Seq::new(code.len(), |i: int| None),
        seq![(0nat, 0int)],
        Set::empty(),
    );
}

} // verus!
