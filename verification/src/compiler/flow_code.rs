//! The code of the `flow` combinators.
//!
//! Most of them make a closure over their arguments, which are on the stack.
//! In the frame of such a closure the captured values come first, then its own
//! argument.

use vstd::prelude::*;

use crate::compiler::draft::{emitted, emitted_all, interned, number, with_local, Draft, FnCompiler};
use crate::compiler::pool::Constant;
use crate::op::Op;
use crate::program::{body_hash_of, compute_body_hash, function_views, Function, FunctionView};

verus! {

/// A synthetic function with its code, and a closure of it over the values on
/// the stack.
pub open spec fn with_trampoline(
    s: Draft,
    name: Seq<char>,
    arity: u16,
    locals_count: u16,
    capture_count: u16,
    code: Seq<Op>,
) -> Draft {
    let f = FunctionView {
        name,
        arity,
        locals_count,
        code,
        effects: Seq::empty(),
        body_hash: body_hash_of(arity, locals_count, code),
        refinements: Seq::empty(),
        field_ic_sites: 0,
    };
    emitted(
        Draft { functions: s.functions.push(f), ..s },
        Op::MakeClosure { fn_id: s.functions.len() as u32, capture_count },
    )
}

/// The closure `(x) -> g(f(x))` over the two functions on the stack. In its
/// frame: `f`, `g`, `x`, a temporary.
pub open spec fn flow_sequential(s: Draft) -> Draft {
    let nid = number(s, Constant::NodeId("n_flow_sequential"@));
    let s = interned(s, Constant::NodeId("n_flow_sequential"@));
    with_trampoline(s, "__flow_sequential"@, 3, 4, 2, flow_sequential_code(nid))
}

/// The code of that closure.
pub open spec fn flow_sequential_code(nid: u32) -> Seq<Op> {
    seq![
        Op::LoadLocal(0),
        Op::LoadLocal(2),
        Op::CallClosure { arity: 1, node_id_idx: nid },
        Op::StoreLocal(3),
        Op::LoadLocal(1),
        Op::LoadLocal(3),
        Op::CallClosure { arity: 1, node_id_idx: nid },
        Op::Return,
    ]
}

/// The closure `() -> (fa(), fb())`. In its frame: `fa`, `fb`.
pub open spec fn flow_parallel(s: Draft) -> Draft {
    let nid = number(s, Constant::NodeId("n_flow_parallel"@));
    let s = interned(s, Constant::NodeId("n_flow_parallel"@));
    with_trampoline(s, "__flow_parallel"@, 2, 2, 2, flow_parallel_code(nid))
}

/// The code of that closure.
pub open spec fn flow_parallel_code(nid: u32) -> Seq<Op> {
    seq![
        Op::LoadLocal(0),
        Op::CallClosure { arity: 0, node_id_idx: nid },
        Op::LoadLocal(1),
        Op::CallClosure { arity: 0, node_id_idx: nid },
        Op::MakeTuple(2),
        Op::Return,
    ]
}

/// The closure that gives `t(x)` where `cond(x)` holds and `f(x)` elsewhere.
/// In its frame: `cond`, `t`, `f`, `x`.
pub open spec fn flow_branch(s: Draft) -> Draft {
    let nid = number(s, Constant::NodeId("n_flow_branch"@));
    let s = interned(s, Constant::NodeId("n_flow_branch"@));
    with_trampoline(s, "__flow_branch"@, 4, 4, 3, flow_branch_code(nid))
}

/// The code of that closure.
pub open spec fn flow_branch_code(nid: u32) -> Seq<Op> {
    seq![
        Op::LoadLocal(0),
        Op::LoadLocal(3),
        Op::CallClosure { arity: 1, node_id_idx: nid },
        Op::JumpIfNot(4),
        Op::LoadLocal(1),
        Op::LoadLocal(3),
        Op::CallClosure { arity: 1, node_id_idx: nid },
        Op::Return,
        Op::LoadLocal(2),
        Op::LoadLocal(3),
        Op::CallClosure { arity: 1, node_id_idx: nid },
        Op::Return,
    ]
}

/// The closure that calls `f(x)` up to `max` times, until it gives an `Ok`. In
/// its frame: `f`, `max`, `x`, the count, the last result.
pub open spec fn flow_retry(s: Draft) -> Draft {
    let nid = number(s, Constant::NodeId("n_flow_retry"@));
    let s = interned(s, Constant::NodeId("n_flow_retry"@));
    let ok = number(s, Constant::VariantName("Ok"@));
    let s = interned(s, Constant::VariantName("Ok"@));
    let zero = number(s, Constant::Int(0));
    let s = interned(s, Constant::Int(0));
    let one = number(s, Constant::Int(1));
    let s = interned(s, Constant::Int(1));
    with_trampoline(s, "__flow_retry"@, 3, 5, 2, flow_retry_code(nid, ok, zero, one))
}

/// The code of that closure.
pub open spec fn flow_retry_code(nid: u32, ok: u32, zero: u32, one: u32) -> Seq<Op> {
    seq![
        Op::PushConst(zero),
        Op::StoreLocal(3),
        Op::LoadLocal(3),
        Op::LoadLocal(1),
        Op::IntLt,
        Op::JumpIfNot(14),
        Op::LoadLocal(0),
        Op::LoadLocal(2),
        Op::CallClosure { arity: 1, node_id_idx: nid },
        Op::StoreLocal(4),
        Op::LoadLocal(4),
        Op::TestVariant(ok),
        Op::JumpIfNot(2),
        Op::LoadLocal(4),
        Op::Return,
        Op::LoadLocal(3),
        Op::PushConst(one),
        Op::IntAdd,
        Op::StoreLocal(3),
        Op::Jump((-18) as i32),
        Op::LoadLocal(4),
        Op::Return,
    ]
}

/// The same with a pause before every attempt but the first, twice as long each
/// time. In its frame: `f`, `max`, the first pause, `x`, the count, the last
/// result, the next pause.
pub open spec fn flow_retry_with_backoff(s: Draft) -> Draft {
    let call_nid = number(s, Constant::NodeId("n_flow_retry_backoff"@));
    let s = interned(s, Constant::NodeId("n_flow_retry_backoff"@));
    let sleep_nid = number(s, Constant::NodeId("n_flow_retry_backoff_sleep"@));
    let s = interned(s, Constant::NodeId("n_flow_retry_backoff_sleep"@));
    let kind_idx = number(s, Constant::Str("time"@));
    let s = interned(s, Constant::Str("time"@));
    let op_idx = number(s, Constant::Str("sleep_ms"@));
    let s = interned(s, Constant::Str("sleep_ms"@));
    let ok = number(s, Constant::VariantName("Ok"@));
    let s = interned(s, Constant::VariantName("Ok"@));
    let zero = number(s, Constant::Int(0));
    let s = interned(s, Constant::Int(0));
    let one = number(s, Constant::Int(1));
    let s = interned(s, Constant::Int(1));
    let two = number(s, Constant::Int(2));
    let s = interned(s, Constant::Int(2));
    with_trampoline(s, "__flow_retry_backoff"@, 4, 7, 3, flow_retry_with_backoff_code(call_nid,
        sleep_nid, kind_idx, op_idx, ok, zero, one, two))
}

/// The code of that closure.
pub open spec fn flow_retry_with_backoff_code(call_nid: u32, sleep_nid: u32, kind_idx: u32,
    op_idx: u32, ok: u32, zero: u32, one: u32, two: u32) -> Seq<Op> {
    seq![
        Op::LoadLocal(2),
        Op::StoreLocal(6),
        Op::PushConst(zero),
        Op::StoreLocal(4),
        Op::LoadLocal(4),
        Op::LoadLocal(1),
        Op::IntLt,
        Op::JumpIfNot(25),
        Op::PushConst(zero),
        Op::LoadLocal(4),
        Op::IntLt,
        Op::JumpIfNot(7),
        Op::LoadLocal(6),
        Op::EffectCall { kind_idx, op_idx, arity: 1, node_id_idx: sleep_nid },
        Op::Pop,
        Op::LoadLocal(6),
        Op::PushConst(two),
        Op::NumMul,
        Op::StoreLocal(6),
        Op::LoadLocal(0),
        Op::LoadLocal(3),
        Op::CallClosure { arity: 1, node_id_idx: call_nid },
        Op::StoreLocal(5),
        Op::LoadLocal(5),
        Op::TestVariant(ok),
        Op::JumpIfNot(2),
        Op::LoadLocal(5),
        Op::Return,
        Op::LoadLocal(4),
        Op::PushConst(one),
        Op::IntAdd,
        Op::StoreLocal(4),
        Op::Jump((-29) as i32),
        Op::LoadLocal(5),
        Op::Return,
    ]
}

/// The list of what the functions in the list `xs` give, called in order.
pub open spec fn flow_parallel_list(s: Draft, xs: u16) -> Draft {
    let zero = number(s, Constant::Int(0));
    let s = interned(s, Constant::Int(0));
    let nid = number(s, Constant::NodeId("n_flow_parallel_list"@));
    let s = interned(s, Constant::NodeId("n_flow_parallel_list"@));
    let one = number(s, Constant::Int(1));
    let s = interned(s, Constant::Int(1));
    let out = s.next_local;
    let s = with_local(s, "__fpl_out"@);
    let i = s.next_local;
    let s = with_local(s, "__fpl_i"@);
    emitted_all(
        s,
        seq![
            Op::MakeList(0),
            Op::StoreLocal(out),
            Op::PushConst(zero),
            Op::StoreLocal(i),
            Op::LoadLocal(i),
            Op::LoadLocal(xs),
            Op::GetListLen,
            Op::IntLt,
            Op::JumpIfNot(12),
            Op::LoadLocal(out),
            Op::LoadLocal(xs),
            Op::LoadLocal(i),
            Op::GetListElemDyn,
            Op::CallClosure { arity: 0, node_id_idx: nid },
            Op::ListAppend,
            Op::StoreLocal(out),
            Op::LoadLocal(i),
            Op::PushConst(one),
            Op::IntAdd,
            Op::StoreLocal(i),
            Op::Jump((-17) as i32),
            Op::LoadLocal(out),
        ],
    )
}

impl<'a> FnCompiler<'a> {
    /// Adds a function whose code is known and hashed at once, and makes the
    /// closure.
    pub fn install_trampoline(
        &mut self,
        name: &str,
        arity: u16,
        locals_count: u16,
        capture_count: u16,
        code: Vec<Op>,
    )
        requires
            old(self).wf(),
        ensures
            final(self).wf(),
            final(self)@ == with_trampoline(
                old(self)@,
                name@,
                arity,
                locals_count,
                capture_count,
                code@,
            ),
    {
        let ghost fs = self.functions@;
        let fn_id = self.functions.len() as u32;
        let body_hash = compute_body_hash(arity, locals_count, &code);
        let f = Function {
            name: name.to_owned(),
            arity,
            locals_count,
            code,
            effects: Vec::new(),
            body_hash,
            refinements: Vec::new(),
            field_ic_sites: 0,
        };
        assert(f@.effects =~= Seq::empty());
        assert(f@.refinements =~= Seq::empty());
        self.functions.push(f);
        assert(function_views(self.functions@) =~= function_views(fs).push(f@));
        self.emit(Op::MakeClosure { fn_id, capture_count });
    }

    pub fn emit_flow_sequential(&mut self)
        requires
            old(self).wf(),
        ensures
            final(self).wf(),
            final(self)@ == flow_sequential(old(self)@),
    {
        let nid: u32 = self.node_id("n_flow_sequential");
        let mut code: Vec<Op> = Vec::new();
        code.push(Op::LoadLocal(0));
        code.push(Op::LoadLocal(2));
        code.push(Op::CallClosure { arity: 1, node_id_idx: nid });
        code.push(Op::StoreLocal(3));
        code.push(Op::LoadLocal(1));
        code.push(Op::LoadLocal(3));
        code.push(Op::CallClosure { arity: 1, node_id_idx: nid });
        code.push(Op::Return);
        assert(code@ =~= flow_sequential_code(nid));
        self.install_trampoline("__flow_sequential", 3, 4, 2, code);
    }

    pub fn emit_flow_parallel(&mut self)
        requires
            old(self).wf(),
        ensures
            final(self).wf(),
            final(self)@ == flow_parallel(old(self)@),
    {
        let nid: u32 = self.node_id("n_flow_parallel");
        let mut code: Vec<Op> = Vec::new();
        code.push(Op::LoadLocal(0));
        code.push(Op::CallClosure { arity: 0, node_id_idx: nid });
        code.push(Op::LoadLocal(1));
        code.push(Op::CallClosure { arity: 0, node_id_idx: nid });
        code.push(Op::MakeTuple(2));
        code.push(Op::Return);
        assert(code@ =~= flow_parallel_code(nid));
        self.install_trampoline("__flow_parallel", 2, 2, 2, code);
    }

    pub fn emit_flow_branch(&mut self)
        requires
            old(self).wf(),
        ensures
            final(self).wf(),
            final(self)@ == flow_branch(old(self)@),
    {
        let nid: u32 = self.node_id("n_flow_branch");
        let mut code: Vec<Op> = Vec::new();
        code.push(Op::LoadLocal(0));
        code.push(Op::LoadLocal(3));
        code.push(Op::CallClosure { arity: 1, node_id_idx: nid });
        code.push(Op::JumpIfNot(4));
        code.push(Op::LoadLocal(1));
        code.push(Op::LoadLocal(3));
        code.push(Op::CallClosure { arity: 1, node_id_idx: nid });
        code.push(Op::Return);
        code.push(Op::LoadLocal(2));
        code.push(Op::LoadLocal(3));
        code.push(Op::CallClosure { arity: 1, node_id_idx: nid });
        code.push(Op::Return);
        assert(code@ =~= flow_branch_code(nid));
        self.install_trampoline("__flow_branch", 4, 4, 3, code);
    }

    pub fn emit_flow_retry(&mut self)
        requires
            old(self).wf(),
        ensures
            final(self).wf(),
            final(self)@ == flow_retry(old(self)@),
    {
        let nid: u32 = self.node_id("n_flow_retry");
        let ok: u32 = self.variant("Ok");
        let zero: u32 = self.integer(0);
        let one: u32 = self.integer(1);
        let mut code: Vec<Op> = Vec::new();
        code.push(Op::PushConst(zero));
        code.push(Op::StoreLocal(3));
        code.push(Op::LoadLocal(3));
        code.push(Op::LoadLocal(1));
        code.push(Op::IntLt);
        code.push(Op::JumpIfNot(14));
        code.push(Op::LoadLocal(0));
        code.push(Op::LoadLocal(2));
        code.push(Op::CallClosure { arity: 1, node_id_idx: nid });
        code.push(Op::StoreLocal(4));
        code.push(Op::LoadLocal(4));
        code.push(Op::TestVariant(ok));
        code.push(Op::JumpIfNot(2));
        code.push(Op::LoadLocal(4));
        code.push(Op::Return);
        code.push(Op::LoadLocal(3));
        code.push(Op::PushConst(one));
        code.push(Op::IntAdd);
        code.push(Op::StoreLocal(3));
        code.push(Op::Jump(-18));
        code.push(Op::LoadLocal(4));
        code.push(Op::Return);
        assert(code@ =~= flow_retry_code(nid, ok, zero, one));
        self.install_trampoline("__flow_retry", 3, 5, 2, code);
    }

    pub fn emit_flow_retry_with_backoff(&mut self)
        requires
            old(self).wf(),
        ensures
            final(self).wf(),
            final(self)@ == flow_retry_with_backoff(old(self)@),
    {
        let call_nid: u32 = self.node_id("n_flow_retry_backoff");
        let sleep_nid: u32 = self.node_id("n_flow_retry_backoff_sleep");
        let kind_idx: u32 = self.text("time");
        let op_idx: u32 = self.text("sleep_ms");
        let ok: u32 = self.variant("Ok");
        let zero: u32 = self.integer(0);
        let one: u32 = self.integer(1);
        let two: u32 = self.integer(2);
        let mut code: Vec<Op> = Vec::new();
        code.push(Op::LoadLocal(2));
        code.push(Op::StoreLocal(6));
        code.push(Op::PushConst(zero));
        code.push(Op::StoreLocal(4));
        code.push(Op::LoadLocal(4));
        code.push(Op::LoadLocal(1));
        code.push(Op::IntLt);
        code.push(Op::JumpIfNot(25));
        code.push(Op::PushConst(zero));
        code.push(Op::LoadLocal(4));
        code.push(Op::IntLt);
        code.push(Op::JumpIfNot(7));
        code.push(Op::LoadLocal(6));
        code.push(Op::EffectCall { kind_idx, op_idx, arity: 1, node_id_idx: sleep_nid });
        code.push(Op::Pop);
        code.push(Op::LoadLocal(6));
        code.push(Op::PushConst(two));
        code.push(Op::NumMul);
        code.push(Op::StoreLocal(6));
        code.push(Op::LoadLocal(0));
        code.push(Op::LoadLocal(3));
        code.push(Op::CallClosure { arity: 1, node_id_idx: call_nid });
        code.push(Op::StoreLocal(5));
        code.push(Op::LoadLocal(5));
        code.push(Op::TestVariant(ok));
        code.push(Op::JumpIfNot(2));
        code.push(Op::LoadLocal(5));
        code.push(Op::Return);
        code.push(Op::LoadLocal(4));
        code.push(Op::PushConst(one));
        code.push(Op::IntAdd);
        code.push(Op::StoreLocal(4));
        code.push(Op::Jump(-29));
        code.push(Op::LoadLocal(5));
        code.push(Op::Return);
        assert(code@ =~= flow_retry_with_backoff_code(call_nid, sleep_nid, kind_idx, op_idx, ok,
            zero, one, two));
        self.install_trampoline("__flow_retry_backoff", 4, 7, 3, code);
    }

    pub fn emit_flow_parallel_list(&mut self, xs: u16)
        requires
            old(self).wf(),
        ensures
            final(self).wf(),
            final(self)@ == flow_parallel_list(old(self)@, xs),
    {
        let zero: u32 = self.integer(0);
        let nid: u32 = self.node_id("n_flow_parallel_list");
        let one: u32 = self.integer(1);
        let out: u16 = self.alloc_local("__fpl_out");
        let i: u16 = self.alloc_local("__fpl_i");
        let mut code: Vec<Op> = Vec::new();
        code.push(Op::MakeList(0));
        code.push(Op::StoreLocal(out));
        code.push(Op::PushConst(zero));
        code.push(Op::StoreLocal(i));
        code.push(Op::LoadLocal(i));
        code.push(Op::LoadLocal(xs));
        code.push(Op::GetListLen);
        code.push(Op::IntLt);
        code.push(Op::JumpIfNot(12));
        code.push(Op::LoadLocal(out));
        code.push(Op::LoadLocal(xs));
        code.push(Op::LoadLocal(i));
        code.push(Op::GetListElemDyn);
        code.push(Op::CallClosure { arity: 0, node_id_idx: nid });
        code.push(Op::ListAppend);
        code.push(Op::StoreLocal(out));
        code.push(Op::LoadLocal(i));
        code.push(Op::PushConst(one));
        code.push(Op::IntAdd);
        code.push(Op::StoreLocal(i));
        code.push(Op::Jump(-17));
        code.push(Op::LoadLocal(out));
        self.emit_all(code);
    }
}

} // verus!
