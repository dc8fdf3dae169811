//! Stack-depth verifier.
//!
//! Walks the control flow of a function and tracks the depth of the value
//! stack. Two paths into one pc that carry different depths mean that a branch
//! leaked values or took too many. Code that no path reaches is not checked.

use vstd::prelude::*;

use crate::escape;
use crate::escape::pcs;
use crate::op::Op;
use crate::program::Function;
use crate::text::{append_decimal, append_signed, decimal, signed_decimal};

verus! {

/// Two paths into `pc` that leave different stack depths.
#[derive(Debug, Clone, PartialEq)]
pub struct StackError {
    pub fn_name: String,
    pub pc: usize,
    pub depth_a: i128,
    pub depth_b: i128,
}

/// A mismatch at a pc: the depth that was recorded first, and the other one.
pub struct Mismatch {
    pub pc: nat,
    pub depth_a: int,
    pub depth_b: int,
}

impl View for StackError {
    type V = Mismatch;

    open spec fn view(&self) -> Mismatch {
        Mismatch {
            pc: self.pc as nat,
            depth_a: self.depth_a as int,
            depth_b: self.depth_b as int,
        }
    }
}

/// The text of a disagreement.
pub open spec fn mismatch_text(fn_name: Seq<char>, m: Mismatch) -> Seq<char> {
    "stack depth mismatch in `"@ + fn_name + "` at pc "@ + decimal(m.pc) + ": path A leaves depth "@
        + signed_decimal(m.depth_a) + ", path B leaves depth "@ + signed_decimal(m.depth_b)
}

impl StackError {
    pub fn message(&self) -> (t: String)
        ensures
            t@ == mismatch_text(self.fn_name@, self@),
    {
        let mut t = "stack depth mismatch in `".to_owned();
        t.append(self.fn_name.as_str());
        t.append("` at pc ");
        append_decimal(&mut t, self.pc as u128);
        t.append(": path A leaves depth ");
        append_signed(&mut t, self.depth_a);
        t.append(", path B leaves depth ");
        append_signed(&mut t, self.depth_b);
        t
    }
}

/// Net change of the stack depth that an op causes.
pub open spec fn op_delta(op: Op) -> int {
    match op {
        Op::PushConst(_) | Op::Dup | Op::LoadLocal(_) | Op::TakeLocal(_) => 1,
        Op::Pop | Op::StoreLocal(_) => -1,
        Op::MakeRecord { field_count, .. }
        | Op::AllocStackRecord { field_count, .. }
        | Op::AllocArenaRecord { field_count, .. } => 1 - field_count,
        Op::MakeTuple(n) => 1 - n,
        Op::AllocStackTuple { arity } | Op::AllocArenaTuple { arity } => 1 - arity,
        Op::MakeList(n) => 1 - n,
        Op::MakeVariant { arity, .. } => 1 - arity,
        Op::MakeClosure { capture_count, .. } => 1 - capture_count,
        Op::GetField { .. }
        | Op::GetElem(_)
        | Op::GetListElem(_)
        | Op::GetListLen
        | Op::TestVariant(_)
        | Op::GetVariant(_)
        | Op::GetVariantArg(_) => 0,
        Op::ListAppend | Op::GetListElemDyn => -1,
        Op::Jump(_) => 0,
        Op::JumpIf(_) | Op::JumpIfNot(_) => -1,
        Op::Call { arity, .. } | Op::TailCall { arity, .. } | Op::EffectCall { arity, .. } => 1
            - arity,
        Op::CallClosure { arity, .. } => -(arity as int),
        Op::SortByKey { .. }
        | Op::ParallelMap { .. }
        | Op::ListMap { .. }
        | Op::ListFilter { .. } => -1,
        Op::ListFold { .. } => -2,
        Op::Return => -1,
        Op::Panic(_) => 0,
        Op::IntNeg
        | Op::FloatNeg
        | Op::NumNeg
        | Op::BoolNot
        | Op::StrLen
        | Op::BytesLen => 0,
        Op::LoadLocalAddIntConst { .. }
        | Op::LoadLocalAddLocal { .. }
        | Op::LoadLocalSubLocal { .. }
        | Op::LoadLocalMulLocal { .. }
        | Op::LoadLocalGetField { .. } => 1,
        Op::LoadLocalAddIntConstStoreLocal { .. }
        | Op::LoadLocalEqIntConstJumpIfNot { .. }
        | Op::LoadLocalStoreEqIntConstJumpIfNot { .. }
        | Op::LoadLocalGetFieldAdd { .. }
        | Op::LoadLocalGetFieldSub { .. }
        | Op::LoadLocalGetFieldMul { .. } => 0,
        // the remaining ops are binary
        _ => -1,
    }
}

/// The pcs that control can reach next. Behind a superinstruction whose
/// tombstones cancel out, the tombstones are walked as if they were live.
pub open spec fn next_pcs(pc: nat, op: Op, n: nat) -> Seq<nat> {
    match op {
        Op::LoadLocalAddLocal { .. }
        | Op::LoadLocalSubLocal { .. }
        | Op::LoadLocalMulLocal { .. }
        | Op::LoadLocalGetField { .. } => escape::fall_through(pc + 1, n),
        _ => escape::successors(pc, op, n),
    }
}

/// Depths recorded so far, and edges `(target, depth)` that wait.
pub open spec fn unvisited(ds: Seq<Option<int>>) -> nat
    decreases ds.len(),
{
    if ds.len() == 0 {
        0
    } else {
        unvisited(ds.drop_last()) + (if ds.last() is None { 1nat } else { 0nat })
    }
}

pub proof fn lemma_visit(ds: Seq<Option<int>>, pc: int, d: int)
    requires
        0 <= pc < ds.len(),
        ds[pc] is None,
    ensures
        unvisited(ds.update(pc, Some(d))) < unvisited(ds),
    decreases ds.len(),
{
    if pc == ds.len() - 1 {
        assert(ds.update(pc, Some(d)).drop_last() =~= ds.drop_last());
    } else {
        lemma_visit(ds.drop_last(), pc, d);
        assert(ds.update(pc, Some(d)).drop_last() =~= ds.drop_last().update(pc, Some(d)));
    }
}

/// The edges out of an op that is entered at a given depth.
pub open spec fn out_edges(pc: nat, op: Op, n: nat, depth: int) -> Seq<(nat, int)> {
    Seq::new(next_pcs(pc, op, n).len(), |i: int| (next_pcs(pc, op, n)[i], depth + op_delta(op)))
}

/// Depth-first walk: takes the last waiting edge; records the depth at its
/// target if there is none yet and goes on from there, else reports a depth
/// that differs, unless the target is reported already. Yields the final
/// depths and the reports in order.
pub open spec fn walk(
    code: Seq<Op>,
    ds: Seq<Option<int>>,
    wl: Seq<(nat, int)>,
    told: Set<nat>,
) -> (Seq<Option<int>>, Seq<Mismatch>)
    decreases unvisited(ds), wl.len(),
{
    if wl.len() == 0 {
        (ds, Seq::empty())
    } else {
        let pc = wl.last().0;
        let depth = wl.last().1;
        let rest = wl.drop_last();
        if pc >= ds.len() {
            walk(code, ds, rest, told)
        } else {
            match ds[pc as int] {
                Some(prev) => {
                    if prev != depth && !told.contains(pc) {
                        let (ds2, errs) = walk(code, ds, rest, told.insert(pc));
                        (ds2, seq![Mismatch { pc, depth_a: prev, depth_b: depth }] + errs)
                    } else {
                        walk(code, ds, rest, told)
                    }
                },
                None => {
                    proof {
                        lemma_visit(ds, pc as int, depth);
                    }
                    walk(
                        code,
                        ds.update(pc as int, Some(depth)),
                        rest + out_edges(pc, code[pc as int], code.len(), depth),
                        told,
                    )
                },
            }
        }
    }
}

/// The walk of a whole body, from its entry at depth 0.
pub open spec fn walk_body(code: Seq<Op>) -> (Seq<Option<int>>, Seq<Mismatch>) {
    walk(code, Seq::new(code.len(), |i: int| None), seq![(0nat, 0int)], Set::empty())
}

/// The mismatches that the verifier reports for a body, in order: one for each
/// pc that two paths enter at different depths.
pub open spec fn mismatches(code: Seq<Op>) -> Seq<Mismatch> {
    if code.len() == 0 {
        Seq::empty()
    } else {
        walk_body(code).1
    }
}

/// The reports carry the name of the function and its mismatches.
pub open spec fn reported(
    fn_name: Seq<char>,
    errors: Seq<StackError>,
    found: Seq<Mismatch>,
) -> bool {
    &&& errors.len() == found.len()
    &&& forall|i: int|
        0 <= i < errors.len() ==> (#[trigger] errors[i]).fn_name@ == fn_name && errors[i]@
            == found[i]
}

/// Net change of the stack depth.
pub fn stack_delta(op: &Op) -> (delta: i64)
    ensures
        delta == op_delta(*op),
        -0x1_0000_0000 < delta <= 1,
{
    match *op {
        Op::PushConst(_) | Op::Dup | Op::LoadLocal(_) | Op::TakeLocal(_) => 1,
        Op::Pop | Op::StoreLocal(_) => -1,
        Op::MakeRecord { field_count, .. }
        | Op::AllocStackRecord { field_count, .. }
        | Op::AllocArenaRecord { field_count, .. } => 1 - field_count as i64,
        Op::MakeTuple(n) => 1 - n as i64,
        Op::AllocStackTuple { arity } | Op::AllocArenaTuple { arity } => 1 - arity as i64,
        Op::MakeList(n) => 1 - n as i64,
        Op::MakeVariant { arity, .. } => 1 - arity as i64,
        Op::MakeClosure { capture_count, .. } => 1 - capture_count as i64,
        Op::GetField { .. }
        | Op::GetElem(_)
        | Op::GetListElem(_)
        | Op::GetListLen
        | Op::TestVariant(_)
        | Op::GetVariant(_)
        | Op::GetVariantArg(_) => 0,
        Op::ListAppend | Op::GetListElemDyn => -1,
        Op::Jump(_) => 0,
        Op::JumpIf(_) | Op::JumpIfNot(_) => -1,
        Op::Call { arity, .. } | Op::TailCall { arity, .. } | Op::EffectCall { arity, .. } => 1
            - arity as i64,
        Op::CallClosure { arity, .. } => -(arity as i64),
        Op::SortByKey { .. }
        | Op::ParallelMap { .. }
        | Op::ListMap { .. }
        | Op::ListFilter { .. } => -1,
        Op::ListFold { .. } => -2,
        Op::Return => -1,
        Op::Panic(_) => 0,
        Op::IntNeg
        | Op::FloatNeg
        | Op::NumNeg
        | Op::BoolNot
        | Op::StrLen
        | Op::BytesLen => 0,
        Op::LoadLocalAddIntConst { .. }
        | Op::LoadLocalAddLocal { .. }
        | Op::LoadLocalSubLocal { .. }
        | Op::LoadLocalMulLocal { .. }
        | Op::LoadLocalGetField { .. } => 1,
        Op::LoadLocalAddIntConstStoreLocal { .. }
        | Op::LoadLocalEqIntConstJumpIfNot { .. }
        | Op::LoadLocalStoreEqIntConstJumpIfNot { .. }
        | Op::LoadLocalGetFieldAdd { .. }
        | Op::LoadLocalGetFieldSub { .. }
        | Op::LoadLocalGetFieldMul { .. } => 0,
        _ => -1,
    }
}

fn next_pcs_of(pc: usize, op: &Op, n: usize) -> (v: Vec<usize>)
    requires
        pc < n,
    ensures
        pcs(v@) == next_pcs(pc as nat, *op, n as nat),
{
    match *op {
        Op::LoadLocalAddLocal { .. }
        | Op::LoadLocalSubLocal { .. }
        | Op::LoadLocalMulLocal { .. }
        | Op::LoadLocalGetField { .. } => {
            let mut v: Vec<usize> = Vec::new();
            if 1 < n - pc {
                v.push(pc + 1);
            }
            assert(pcs(v@) =~= next_pcs(pc as nat, *op, n as nat));
            v
        },
        _ => escape::successors_of(pc, op, n),
    }
}

spec fn view_depths(v: Seq<Option<i128>>) -> Seq<Option<int>> {
    Seq::new(
        v.len(),
        |i: int|
            match v[i] {
                Some(d) => Some(d as int),
                None => None,
            },
    )
}

spec fn view_edges(v: Seq<(usize, i128)>) -> Seq<(nat, int)> {
    Seq::new(v.len(), |i: int| (v[i].0 as nat, v[i].1 as int))
}

spec fn view_told(v: Seq<bool>) -> Set<nat> {
    Set::new(|pc: nat| pc < v.len() && v[pc as int])
}

spec fn view_errors(v: Seq<StackError>) -> Seq<Mismatch> {
    Seq::new(v.len(), |i: int| v[i]@)
}

/// A depth that a walk over `k` ops can reach.
spec fn within(d: int, k: int) -> bool {
    -(k * 0x1_0000_0000) <= d <= k
}

proof fn lemma_unvisited_bound(ds: Seq<Option<int>>)
    ensures
        unvisited(ds) <= ds.len(),
    decreases ds.len(),
{
    if ds.len() > 0 {
        lemma_unvisited_bound(ds.drop_last());
    }
}

/// Verifies one function and appends what it finds to `errors`.
pub fn verify_function(func: &Function, errors: &mut Vec<StackError>)
    ensures
        final(errors)@.len() == old(errors)@.len() + mismatches(func.code@).len(),
        final(errors)@.take(old(errors)@.len() as int) == old(errors)@,
        reported(
            func.name@,
            final(errors)@.skip(old(errors)@.len() as int),
            mismatches(func.code@),
        ),
        forall|i: int, j: int|
            old(errors)@.len() <= i < j < final(errors)@.len() ==> (#[trigger] final(errors)@[i]).pc
                != (#[trigger] final(errors)@[j]).pc,
{
    proof {
        law_each_pc_is_reported_once(func.code@);
    }
    let n: usize = func.code.len();
    if n == 0 {
        assert(errors@.take(errors@.len() as int) =~= errors@);
        return ;
    }
    let mut depths: Vec<Option<i128>> = Vec::new();
    let mut told: Vec<bool> = Vec::new();
    let mut i: usize = 0;
    while i < n
        invariant
            i <= n,
            depths@.len() == i,
            told@.len() == i,
            forall|j: int| 0 <= j < i ==> (#[trigger] depths@[j]) is None,
            forall|j: int| 0 <= j < i ==> !(#[trigger] told@[j]),
        decreases n - i,
    {
        depths.push(None);
        told.push(false);
        i = i + 1;
    }
    let mut worklist: Vec<(usize, i128)> = Vec::new();
    worklist.push((0, 0));
    let ghost e0 = errors@;
    let ghost goal = walk_body(func.code@);
    proof {
        assert(view_depths(depths@) =~= Seq::new(func.code@.len(), |i: int| None));
        assert(view_edges(worklist@) =~= seq![(0nat, 0int)]);
        assert(view_told(told@) =~= Set::empty());
        lemma_unvisited_bound(view_depths(depths@));
        assert(errors@.take(e0.len() as int) =~= e0);
        assert(view_errors(errors@.skip(e0.len() as int)) + goal.1 =~= goal.1);
    }
    while worklist.len() > 0
        invariant
            n == func.code.len(),
            depths@.len() == n,
            told@.len() == n,
            e0 == old(errors)@,
            e0.len() <= errors@.len(),
            errors@.take(e0.len() as int) == e0,
            forall|j: int|
                e0.len() <= j < errors@.len() ==> (#[trigger] errors@[j]).fn_name@ == func.name@,
            view_errors(errors@.skip(e0.len() as int)) + walk(
                func.code@,
                view_depths(depths@),
                view_edges(worklist@),
                view_told(told@),
            ).1 == goal.1,
            unvisited(view_depths(depths@)) <= n,
            forall|j: int|
                0 <= j < worklist@.len() ==> within(
                    (#[trigger] worklist@[j]).1 as int,
                    n - unvisited(view_depths(depths@)),
                ),
        decreases unvisited(view_depths(depths@)), worklist.len(),
    {
        let ghost ds = view_depths(depths@);
        let ghost wl = view_edges(worklist@);
        let ghost wl_exec = worklist@;
        let ghost errs0 = errors@;
        let popped = worklist.pop();
        let (pc, depth) = match popped {
            Some(edge) => edge,
            None => {
                assert(false);
                (0, 0)
            },
        };
        proof {
            assert(wl.last() == (pc as nat, depth as int));
            assert(view_edges(worklist@) =~= wl.drop_last());
            assert(within(wl_exec[wl_exec.len() - 1].1 as int, n - unvisited(ds)));
            assert forall|j: int| 0 <= j < worklist@.len() implies within(
                (#[trigger] worklist@[j]).1 as int,
                n - unvisited(ds),
            ) by {
                assert(worklist@[j] == wl_exec[j]);
            }
        }
        if pc >= n {
            continue ;
        }
        if let Some(prev) = depths[pc] {
            assert(ds[pc as int] == Some(prev as int));
            if prev != depth && !told[pc] {
                let ghost before = view_told(told@);
                told.set(pc, true);
                assert(view_told(told@) =~= before.insert(pc as nat));
                errors.push(
                    StackError { fn_name: func.name.clone(), pc, depth_a: prev, depth_b: depth },
                );
                proof {
                    let err = Mismatch {
                        pc: pc as nat,
                        depth_a: prev as int,
                        depth_b: depth as int,
                    };
                    assert(errors@.take(e0.len() as int) =~= errs0.take(e0.len() as int));
                    assert(view_errors(errors@.skip(e0.len() as int)) =~= view_errors(
                        errs0.skip(e0.len() as int),
                    ).push(err));
                    let rest = walk(func.code@, ds, wl.drop_last(), view_told(told@)).1;
                    assert(view_errors(errs0.skip(e0.len() as int)).push(err) + rest
                        =~= view_errors(errs0.skip(e0.len() as int)) + (seq![err] + rest));
                }
            }
            continue ;
        }
        assert(ds[pc as int] is None);
        depths.set(pc, Some(depth));
        let delta: i64 = stack_delta(&func.code[pc]);
        proof {
            assert(view_depths(depths@) =~= ds.update(pc as int, Some(depth as int)));
            lemma_visit(ds, pc as int, depth as int);
            assert(0 <= unvisited(ds) <= n);
        }
        let next_depth: i128 = depth + delta as i128;
        let succs = next_pcs_of(pc, &func.code[pc], n);
        let ghost es = out_edges(pc as nat, func.code@[pc as int], n as nat, depth as int);
        let ghost base = wl.drop_last();
        let mut k: usize = 0;
        assert(view_edges(worklist@) =~= base + es.take(0));
        while k < succs.len()
            invariant
                k <= succs.len(),
                pcs(succs@) == next_pcs(pc as nat, func.code@[pc as int], n as nat),
                es == out_edges(pc as nat, func.code@[pc as int], n as nat, depth as int),
                next_depth == depth + op_delta(func.code@[pc as int]),
                view_edges(worklist@) == base + es.take(k as int),
                within(next_depth as int, n - unvisited(view_depths(depths@))),
                forall|j: int|
                    0 <= j < worklist@.len() ==> within(
                        (#[trigger] worklist@[j]).1 as int,
                        n - unvisited(view_depths(depths@)),
                    ),
            decreases succs.len() - k,
        {
            let ghost before = view_edges(worklist@);
            worklist.push((succs[k], next_depth));
            assert(pcs(succs@)[k as int] == succs@[k as int] as nat);
            assert(view_edges(worklist@) =~= before.push(es[k as int]));
            assert(es.take(k + 1) =~= es.take(k as int).push(es[k as int]));
            assert(base + es.take(k as int).push(es[k as int]) =~= (base + es.take(k as int)).push(
                es[k as int],
            ));
            k = k + 1;
        }
        assert(es.take(k as int) =~= es);
    }
    proof {
        let added = errors@.skip(e0.len() as int);
        assert(view_errors(added) + Seq::<Mismatch>::empty() =~= view_errors(added));
        assert(view_errors(added) == mismatches(func.code@));
        assert forall|i: int, j: int|
            e0.len() <= i < j < errors@.len() implies (#[trigger] errors@[i]).pc != (
        #[trigger] errors@[j]).pc by {
            assert(view_errors(added)[i - e0.len()] == errors@[i]@);
            assert(view_errors(added)[j - e0.len()] == errors@[j]@);
        }
        assert forall|i: int| 0 <= i < added.len() implies (#[trigger] added[i]).fn_name@
            == func.name@ && added[i]@ == mismatches(func.code@)[i] by {
            assert(added[i] == errors@[e0.len() + i]);
            assert(view_errors(added)[i] == added[i]@);
        }
    }
}

/// The reports for all functions, one function after the other.
pub open spec fn program_mismatches(fs: Seq<Function>, errors: Seq<StackError>) -> bool
    decreases fs.len(),
{
    if fs.len() == 0 {
        errors.len() == 0
    } else {
        let found = mismatches(fs.last().code@);
        let split = errors.len() - found.len();
        &&& 0 <= split
        &&& program_mismatches(fs.drop_last(), errors.take(split))
        &&& reported(fs.last().name@, errors.skip(split), found)
    }
}

/// Verifies all functions.
pub fn verify_program(functions: &[Function]) -> (errors: Vec<StackError>)
    ensures
        program_mismatches(functions@, errors@),
{
    let mut errors: Vec<StackError> = Vec::new();
    let mut i: usize = 0;
    while i < functions.len()
        invariant
            i <= functions.len(),
            program_mismatches(functions@.take(i as int), errors@),
        decreases functions.len() - i,
    {
        assert(functions@.take(i + 1).drop_last() =~= functions@.take(i as int));
        verify_function(&functions[i], &mut errors);
        i = i + 1;
    }
    assert(functions@.take(i as int) =~= functions@);
    errors
}


// ---------------------------------------------------------------------------
// Laws
// ---------------------------------------------------------------------------

/// One depth for every pc that control can reach, such that every edge agrees
/// with it.
pub open spec fn consistent(code: Seq<Op>, ds: Seq<Option<int>>) -> bool {
    &&& ds.len() == code.len()
    &&& ds[0] == Some(0int)
    &&& forall|pc: nat, t: nat|
        pc < ds.len() && ds[pc as int] is Some && #[trigger] next_pcs(
            pc,
            code[pc as int],
            code.len(),
        ).contains(t) ==> ds[t as int] == Some(ds[pc as int]->0 + op_delta(code[pc as int]))
}

spec fn waits(wl: Seq<(nat, int)>, t: nat, d: int) -> bool {
    exists|i: int| 0 <= i < wl.len() && #[trigger] wl[i] == (t, d)
}

/// Every edge out of a visited pc waits or agrees.
spec fn settled(code: Seq<Op>, ds: Seq<Option<int>>, wl: Seq<(nat, int)>) -> bool {
    &&& ds.len() == code.len()
    &&& waits(wl, 0, 0) || ds[0] == Some(0int)
    &&& forall|i: int| 0 <= i < wl.len() ==> (#[trigger] wl[i]).0 < code.len()
    &&& forall|pc: nat, t: nat|
        pc < ds.len() && ds[pc as int] is Some && #[trigger] next_pcs(
            pc,
            code[pc as int],
            code.len(),
        ).contains(t) ==> waits(wl, t, ds[pc as int]->0 + op_delta(code[pc as int]))
            || ds[t as int] == Some(ds[pc as int]->0 + op_delta(code[pc as int]))
}

proof fn lemma_next_in_range(pc: nat, op: Op, n: nat)
    ensures
        forall|i: int|
            0 <= i < next_pcs(pc, op, n).len() ==> #[trigger] next_pcs(pc, op, n)[i] < n,
{
}

/// The reports name no pc twice, none that was told before, and none behind
/// the end.
spec fn each_once(errs: Seq<Mismatch>, told: Set<nat>, n: nat) -> bool {
    &&& forall|i: int|
        0 <= i < errs.len() ==> (#[trigger] errs[i]).pc < n && !told.contains(errs[i].pc)
    &&& forall|i: int, j: int|
        0 <= i < j < errs.len() ==> (#[trigger] errs[i]).pc != (#[trigger] errs[j]).pc
}

proof fn lemma_reports_differ(
    code: Seq<Op>,
    ds: Seq<Option<int>>,
    wl: Seq<(nat, int)>,
    told: Set<nat>,
)
    ensures
        each_once(walk(code, ds, wl, told).1, told, ds.len()),
    decreases unvisited(ds), wl.len(),
{
    if wl.len() > 0 {
        let pc = wl.last().0;
        let depth = wl.last().1;
        let rest = wl.drop_last();
        if pc >= ds.len() {
            lemma_reports_differ(code, ds, rest, told);
        } else if ds[pc as int] is None {
            lemma_visit(ds, pc as int, depth);
            let ds2 = ds.update(pc as int, Some(depth));
            let wl2 = rest + out_edges(pc, code[pc as int], code.len(), depth);
            lemma_reports_differ(code, ds2, wl2, told);
            assert(walk(code, ds, wl, told) == walk(code, ds2, wl2, told));
        } else if ds[pc as int]->0 != depth && !told.contains(pc) {
            lemma_reports_differ(code, ds, rest, told.insert(pc));
            let later = walk(code, ds, rest, told.insert(pc)).1;
            let m = Mismatch { pc, depth_a: ds[pc as int]->0, depth_b: depth };
            let all = seq![m] + later;
            assert(walk(code, ds, wl, told).1 == all);
            assert forall|i: int| 0 <= i < all.len() implies (#[trigger] all[i]).pc < ds.len()
                && !told.contains(all[i].pc) by {
                if i > 0 {
                    assert(all[i] == later[i - 1]);
                }
            }
            assert forall|i: int, j: int| 0 <= i < j < all.len() implies (#[trigger] all[i]).pc != (
            #[trigger] all[j]).pc by {
                assert(all[j] == later[j - 1]);
                if i > 0 {
                    assert(all[i] == later[i - 1]);
                }
            }
        } else {
            lemma_reports_differ(code, ds, rest, told);
            assert(walk(code, ds, wl, told) == walk(code, ds, rest, told));
        }
    }
}

/// Law: a body yields at most one report for each pc, whatever the number of
/// paths into it.
pub proof fn law_each_pc_is_reported_once(code: Seq<Op>)
    ensures
        forall|i: int|
            0 <= i < mismatches(code).len() ==> (#[trigger] mismatches(code)[i]).pc < code.len(),
        forall|i: int, j: int|
            0 <= i < j < mismatches(code).len() ==> (#[trigger] mismatches(code)[i]).pc != (
            #[trigger] mismatches(code)[j]).pc,
{
    lemma_reports_differ(
        code,
        Seq::new(code.len(), |i: int| None),
        seq![(0nat, 0int)],
        Set::empty(),
    );
}

proof fn lemma_silent_walk_is_consistent(
    code: Seq<Op>,
    ds: Seq<Option<int>>,
    wl: Seq<(nat, int)>,
)
    requires
        code.len() > 0,
        settled(code, ds, wl),
        walk(code, ds, wl, Set::empty()).1.len() == 0,
    ensures
        consistent(code, walk(code, ds, wl, Set::empty()).0),
    decreases unvisited(ds), wl.len(),
{
    if wl.len() > 0 {
        let pc = wl.last().0;
        let depth = wl.last().1;
        let rest = wl.drop_last();
        assert(wl[wl.len() - 1].0 < code.len());
        let (ds2, wl2) = match ds[pc as int] {
            Some(prev) => (ds, rest),
            None => (
                ds.update(pc as int, Some(depth)),
                rest + out_edges(pc, code[pc as int], code.len(), depth),
            ),
        };
        let es = out_edges(pc, code[pc as int], code.len(), depth);
        let next = next_pcs(pc, code[pc as int], code.len());
        lemma_next_in_range(pc, code[pc as int], code.len());
        assert(ds2[pc as int] == Some(depth)) by {
            if ds[pc as int] is Some {
                let errs = walk(code, ds, rest, Set::empty().insert(pc)).1;
                let m = Mismatch { pc, depth_a: ds[pc as int]->0, depth_b: depth };
                assert((seq![m] + errs).len() > 0);
            }
        }
        assert forall|t: nat, d: int|
            t < ds.len() && (#[trigger] waits(wl, t, d) || ds[t as int] == Some(d)) implies waits(
            wl2,
            t,
            d,
        ) || ds2[t as int] == Some(d) by {
            if waits(wl, t, d) {
                let i = choose|i: int| 0 <= i < wl.len() && #[trigger] wl[i] == (t, d);
                if i < wl.len() - 1 {
                    assert(wl2[i] == (t, d));
                }
            }
        }
        assert(waits(wl, 0, 0) || ds[0] == Some(0int));
        assert forall|i: int| 0 <= i < wl2.len() implies (#[trigger] wl2[i]).0 < code.len() by {
            if i < rest.len() {
                assert(wl2[i] == wl[i]);
            } else {
                assert(wl2[i] == es[i - rest.len()]);
            }
        }
        assert forall|q: nat, t: nat|
            q < ds2.len() && ds2[q as int] is Some && #[trigger] next_pcs(
                q,
                code[q as int],
                code.len(),
            ).contains(t) implies waits(wl2, t, ds2[q as int]->0 + op_delta(code[q as int]))
            || ds2[t as int] == Some(ds2[q as int]->0 + op_delta(code[q as int])) by {
            let d = ds2[q as int]->0 + op_delta(code[q as int]);
            lemma_next_in_range(q, code[q as int], code.len());
            if ds[q as int] is Some {
                assert(waits(wl, t, d) || ds[t as int] == Some(d));
            } else {
                let j = choose|j: int| 0 <= j < next.len() && next[j] == t;
                assert(wl2[rest.len() + j] == (t, d));
            }
        }
        if ds[pc as int] is None {
            lemma_visit(ds, pc as int, depth);
        }
        lemma_silent_walk_is_consistent(code, ds2, wl2);
    }
}

/// The recorded depths and the waiting edges agree with `full`.
spec fn agrees(ds: Seq<Option<int>>, wl: Seq<(nat, int)>, full: Seq<Option<int>>) -> bool {
    &&& ds.len() == full.len()
    &&& forall|i: int| 0 <= i < ds.len() && (#[trigger] ds[i]) is Some ==> ds[i] == full[i]
    &&& forall|i: int|
        0 <= i < wl.len() ==> (#[trigger] wl[i]).0 < full.len() && full[wl[i].0 as int] == Some(
            wl[i].1,
        )
}

proof fn lemma_consistent_walk_is_silent(
    code: Seq<Op>,
    ds: Seq<Option<int>>,
    wl: Seq<(nat, int)>,
    full: Seq<Option<int>>,
)
    requires
        consistent(code, full),
        agrees(ds, wl, full),
    ensures
        walk(code, ds, wl, Set::empty()).1.len() == 0,
    decreases unvisited(ds), wl.len(),
{
    if wl.len() > 0 {
        let pc = wl.last().0;
        let depth = wl.last().1;
        let rest = wl.drop_last();
        assert(wl[wl.len() - 1].0 < full.len());
        assert forall|i: int| 0 <= i < rest.len() implies (#[trigger] rest[i]).0 < full.len()
            && full[rest[i].0 as int] == Some(rest[i].1) by {
            assert(rest[i] == wl[i]);
        }
        match ds[pc as int] {
            Some(prev) => {
                lemma_consistent_walk_is_silent(code, ds, rest, full);
            },
            None => {
                let op = code[pc as int];
                let next = next_pcs(pc, op, code.len());
                let es = out_edges(pc, op, code.len(), depth);
                let wl2 = rest + es;
                lemma_visit(ds, pc as int, depth);
                lemma_next_in_range(pc, op, code.len());
                assert forall|i: int| 0 <= i < wl2.len() implies (#[trigger] wl2[i]).0 < full.len()
                    && full[wl2[i].0 as int] == Some(wl2[i].1) by {
                    if i < rest.len() {
                        assert(wl2[i] == rest[i]);
                    } else {
                        assert(wl2[i] == es[i - rest.len()]);
                        assert(next.contains(next[i - rest.len()]));
                    }
                }
                lemma_consistent_walk_is_silent(
                    code,
                    ds.update(pc as int, Some(depth)),
                    wl2,
                    full,
                );
            },
        }
    }
}

/// Law: the verifier is silent on a body if and only if every pc that control
/// can reach has one stack depth on which all paths agree.
pub proof fn law_silent_iff_consistent(code: Seq<Op>)
    requires
        code.len() > 0,
    ensures
        mismatches(code).len() == 0 <==> exists|ds: Seq<Option<int>>| consistent(code, ds),
        mismatches(code).len() == 0 ==> consistent(code, walk_body(code).0),
{
    let ds = Seq::new(code.len(), |i: int| None::<int>);
    let wl = seq![(0nat, 0int)];
    assert(wl[0] == (0nat, 0int));
    assert(waits(wl, 0, 0));
    if mismatches(code).len() == 0 {
        lemma_silent_walk_is_consistent(code, ds, wl);
    }
    if exists|full: Seq<Option<int>>| consistent(code, full) {
        let full = choose|full: Seq<Option<int>>| consistent(code, full);
        lemma_consistent_walk_is_silent(code, ds, wl, full);
    }
}

/// Bodies whose ops have the same stack effects and the same successors are
/// walked alike.
pub proof fn lemma_same_walk(
    code: Seq<Op>,
    other: Seq<Op>,
    ds: Seq<Option<int>>,
    wl: Seq<(nat, int)>,
    told: Set<nat>,
)
    requires
        code.len() == other.len() == ds.len(),
        forall|i: nat|
            i < code.len() ==> op_delta(#[trigger] other[i as int]) == op_delta(code[i as int])
                && next_pcs(i, other[i as int], code.len()) == next_pcs(
                i,
                code[i as int],
                code.len(),
            ),
    ensures
        walk(other, ds, wl, told) == walk(code, ds, wl, told),
    decreases unvisited(ds), wl.len(),
{
    if wl.len() > 0 {
        let pc = wl.last().0;
        let depth = wl.last().1;
        let rest = wl.drop_last();
        if pc >= ds.len() || ds[pc as int] is Some {
            lemma_same_walk(code, other, ds, rest, told);
            lemma_same_walk(code, other, ds, rest, told.insert(pc));
        } else {
            lemma_visit(ds, pc as int, depth);
            assert(op_delta(other[pc as int]) == op_delta(code[pc as int]));
            assert(next_pcs(pc, other[pc as int], code.len()) == next_pcs(
                pc,
                code[pc as int],
                code.len(),
            ));
            assert(out_edges(pc, other[pc as int], code.len(), depth) =~= out_edges(
                pc,
                code[pc as int],
                code.len(),
                depth,
            ));
            lemma_same_walk(
                code,
                other,
                ds.update(pc as int, Some(depth)),
                rest + out_edges(pc, code[pc as int], code.len(), depth),
                told,
            );
        }
    }
}

/// The op is no superinstruction.
pub open spec fn is_primitive(op: Op) -> bool {
    match op {
        Op::LoadLocalAddIntConst { .. }
        | Op::LoadLocalAddIntConstStoreLocal { .. }
        | Op::LoadLocalAddLocal { .. }
        | Op::LoadLocalSubLocal { .. }
        | Op::LoadLocalMulLocal { .. }
        | Op::LoadLocalEqIntConstJumpIfNot { .. }
        | Op::LoadLocalStoreEqIntConstJumpIfNot { .. }
        | Op::LoadLocalGetFieldAdd { .. }
        | Op::LoadLocalGetFieldSub { .. }
        | Op::LoadLocalGetFieldMul { .. }
        | Op::LoadLocalGetField { .. } => false,
        _ => true,
    }
}

/// The tombstones behind a superinstruction whose tombstones are walked are
/// those that fusion leaves: together they change nothing.
pub open spec fn tombstones_cancel(code: Seq<Op>, i: int) -> bool {
    match code[i] {
        Op::LoadLocalAddLocal { .. }
        | Op::LoadLocalSubLocal { .. }
        | Op::LoadLocalMulLocal { .. } => i + 2 < code.len() && (code[i + 1] is LoadLocal
            || code[i + 1] is TakeLocal) && (code[i + 2] is IntAdd || code[i + 2] is IntSub
            || code[i + 2] is IntMul),
        Op::LoadLocalGetField { .. } => i + 1 < code.len() && code[i + 1] is GetField,
        _ => true,
    }
}

/// No op takes more values than the stack holds.
pub open spec fn no_underflow(code: Seq<Op>, ds: Seq<Option<int>>) -> bool {
    forall|pc: int|
        0 <= pc < ds.len() && (#[trigger] ds[pc]) is Some ==> ds[pc]->0 >= escape::op_pops(
            code[pc],
        )
}

/// The depth behind an op that is walked on to the next one.
proof fn lemma_walked_on(code: Seq<Op>, ds: Seq<Option<int>>, q: nat)
    requires
        consistent(code, ds),
        q + 1 < code.len(),
        ds[q as int] is Some,
        next_pcs(q, code[q as int], code.len()) == escape::fall_through(q + 1, code.len()),
    ensures
        ds[(q + 1) as int] == Some(ds[q as int]->0 + op_delta(code[q as int])),
{
    let next = next_pcs(q, code[q as int], code.len());
    assert(next[0] == q + 1);
    assert(next.contains(q + 1));
}

proof fn lemma_derived_depth(
    code: Seq<Op>,
    entry: escape::AbsState,
    ds: Seq<Option<int>>,
    h: nat,
    pc: nat,
    s: escape::AbsState,
)
    requires
        code.len() > 0,
        entry.stack.len() == 0,
        consistent(code, ds),
        no_underflow(code, ds),
        forall|i: int| 0 <= i < code.len() ==> #[trigger] tombstones_cancel(code, i),
        escape::derivable(code, entry, h, pc, s),
    ensures
        pc < ds.len(),
        ds[pc as int] == Some(s.stack.len() as int),
    decreases h,
{
    if h > 0 {
        let g = (h - 1) as nat;
        if escape::derivable(code, entry, g, pc, s) {
            lemma_derived_depth(code, entry, ds, g, pc, s);
        } else if exists|q: nat, t: escape::AbsState| #[trigger]
            escape::flows(code, q, t, pc, s) && escape::derivable(code, entry, g, q, t) {
            let (q, t) = choose|q: nat, t: escape::AbsState| #[trigger]
                escape::flows(code, q, t, pc, s) && escape::derivable(code, entry, g, q, t);
            lemma_derived_depth(code, entry, ds, g, q, t);
            let op = code[q as int];
            assert(tombstones_cancel(code, q as int));
            assert(ds[q as int]->0 >= escape::op_pops(op));
            lemma_next_in_range(q, op, code.len());
            match op {
                Op::LoadLocalAddLocal { .. }
                | Op::LoadLocalSubLocal { .. }
                | Op::LoadLocalMulLocal { .. } => {
                    lemma_walked_on(code, ds, q);
                    lemma_walked_on(code, ds, q + 1);
                    if q + 3 < code.len() {
                        lemma_walked_on(code, ds, q + 2);
                    }
                    assert(pc == q + 3);
                },
                Op::LoadLocalGetField { .. } => {
                    lemma_walked_on(code, ds, q);
                    if q + 2 < code.len() {
                        lemma_walked_on(code, ds, q + 1);
                    }
                    assert(pc == q + 2);
                },
                _ => {
                    assert(next_pcs(q, op, code.len()).contains(pc));
                },
            }
        } else {
            let (a, b) = choose|a: escape::AbsState, b: escape::AbsState|
                s == #[trigger] escape::merge_states(a, b) && escape::derivable(
                    code,
                    entry,
                    g,
                    pc,
                    a,
                ) && escape::derivable(code, entry, g, pc, b);
            lemma_derived_depth(code, entry, ds, g, pc, a);
            lemma_derived_depth(code, entry, ds, g, pc, b);
        }
    }
}

/// Law: a silent verifier and a stack that never underflows give the agreement
/// on depths under which the escape analysis is exact. Superinstructions have
/// the tombstones behind them that fusion leaves.
pub proof fn law_verified_code_has_agreeing_depths(code: Seq<Op>, locals_count: u16, arity: u16)
    requires
        code.len() > 0,
        mismatches(code).len() == 0,
        no_underflow(code, walk_body(code).0),
        forall|i: int| 0 <= i < code.len() ==> #[trigger] tombstones_cancel(code, i),
    ensures
        escape::depths_agree(code, escape::entry_state(locals_count, arity)),
{
    let entry = escape::entry_state(locals_count, arity);
    let ds = walk_body(code).0;
    law_silent_iff_consistent(code);
    assert forall|pc: nat, a: escape::AbsState, b: escape::AbsState| #[trigger]
        escape::derived(code, entry, pc, a) && #[trigger] escape::derived(
            code,
            entry,
            pc,
            b,
        ) implies a.stack.len() == b.stack.len() by {
        let h = choose|h: nat| escape::derivable(code, entry, h, pc, a);
        let k = choose|h: nat| escape::derivable(code, entry, h, pc, b);
        lemma_derived_depth(code, entry, ds, h, pc, a);
        lemma_derived_depth(code, entry, ds, k, pc, b);
    }
}

} // verus!
