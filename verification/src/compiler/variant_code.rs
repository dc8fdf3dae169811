//! The code of the combinators on `Result` and `Option`.
//!
//! The arguments are in locals already: the value in `val`, the function in `f`.

use vstd::prelude::*;

use crate::compiler::draft::{emitted_all, interned, number, with_local, Draft, FnCompiler};
use crate::compiler::pool::Constant;
use crate::op::Op;

verus! {

/// The value with its payload, if it carries the tag, replaced by what the
/// function makes of it, under the same tag again.
pub open spec fn variant_map(s: Draft, val: u16, f: u16, tag: u32) -> Draft {
    let nid = number(s, Constant::NodeId("n_hov"@));
    let s = interned(s, Constant::NodeId("n_hov"@));
    let arg = s.next_local;
    let s = with_local(s, "__hov_arg"@);
    emitted_all(
        s,
        seq![
            Op::LoadLocal(val),
            Op::Dup,
            Op::TestVariant(tag),
            Op::JumpIfNot(7),
            Op::GetVariantArg(0),
            Op::StoreLocal(arg),
            Op::LoadLocal(f),
            Op::LoadLocal(arg),
            Op::CallClosure { arity: 1, node_id_idx: nid },
            Op::MakeVariant { name_idx: tag, arity: 1 },
            Op::Jump(0),
        ],
    )
}

/// The same, but the result of the function stands for itself.
pub open spec fn variant_and_then(s: Draft, val: u16, f: u16, tag: u32) -> Draft {
    let nid = number(s, Constant::NodeId("n_hov"@));
    let s = interned(s, Constant::NodeId("n_hov"@));
    let arg = s.next_local;
    let s = with_local(s, "__hov_arg"@);
    emitted_all(
        s,
        seq![
            Op::LoadLocal(val),
            Op::Dup,
            Op::TestVariant(tag),
            Op::JumpIfNot(6),
            Op::GetVariantArg(0),
            Op::StoreLocal(arg),
            Op::LoadLocal(f),
            Op::LoadLocal(arg),
            Op::CallClosure { arity: 1, node_id_idx: nid },
            Op::Jump(0),
        ],
    )
}

/// The value, unless it carries the tag: then what the function makes of its
/// payload.
pub open spec fn result_or_else(s: Draft, val: u16, f: u16, tag: u32) -> Draft {
    let nid = number(s, Constant::NodeId("n_hoe"@));
    let s = interned(s, Constant::NodeId("n_hoe"@));
    emitted_all(
        s,
        seq![
            Op::LoadLocal(val),
            Op::Dup,
            Op::TestVariant(tag),
            Op::JumpIfNot(6),
            Op::Pop,
            Op::LoadLocal(f),
            Op::LoadLocal(val),
            Op::GetVariantArg(0),
            Op::CallClosure { arity: 1, node_id_idx: nid },
            Op::Jump(0),
        ],
    )
}

/// The value, unless it carries the tag: then what the function gives.
pub open spec fn option_or_else(s: Draft, val: u16, f: u16, tag: u32) -> Draft {
    let nid = number(s, Constant::NodeId("n_hoe"@));
    let s = interned(s, Constant::NodeId("n_hoe"@));
    emitted_all(
        s,
        seq![
            Op::LoadLocal(val),
            Op::Dup,
            Op::TestVariant(tag),
            Op::JumpIfNot(4),
            Op::Pop,
            Op::LoadLocal(f),
            Op::CallClosure { arity: 0, node_id_idx: nid },
            Op::Jump(0),
        ],
    )
}

/// The payload of a value with the tag, or what the function gives.
pub open spec fn option_unwrap_or_else(s: Draft, val: u16, f: u16, tag: u32) -> Draft {
    let nid = number(s, Constant::NodeId("n_uoe"@));
    let s = interned(s, Constant::NodeId("n_uoe"@));
    emitted_all(
        s,
        seq![
            Op::LoadLocal(val),
            Op::Dup,
            Op::TestVariant(tag),
            Op::JumpIfNot(2),
            Op::GetVariantArg(0),
            Op::Jump(3),
            Op::Pop,
            Op::LoadLocal(f),
            Op::CallClosure { arity: 0, node_id_idx: nid },
        ],
    )
}

/// The payload of a value with the tag, or what the function makes of the
/// other payload.
pub open spec fn result_unwrap_or_else(s: Draft, val: u16, f: u16, tag: u32) -> Draft {
    let nid = number(s, Constant::NodeId("n_ruoe"@));
    let s = interned(s, Constant::NodeId("n_ruoe"@));
    emitted_all(
        s,
        seq![
            Op::LoadLocal(val),
            Op::Dup,
            Op::TestVariant(tag),
            Op::JumpIfNot(2),
            Op::GetVariantArg(0),
            Op::Jump(5),
            Op::Pop,
            Op::LoadLocal(f),
            Op::LoadLocal(val),
            Op::GetVariantArg(0),
            Op::CallClosure { arity: 1, node_id_idx: nid },
        ],
    )
}

impl<'a> FnCompiler<'a> {
    pub fn emit_variant_map(&mut self, val: u16, f: u16, tag: u32)
        requires
            old(self).wf(),
        ensures
            final(self).wf(),
            final(self)@ == variant_map(old(self)@, val, f, tag),
    {
        let nid: u32 = self.node_id("n_hov");
        let arg: u16 = self.alloc_local("__hov_arg");
        let mut code: Vec<Op> = Vec::new();
        code.push(Op::LoadLocal(val));
        code.push(Op::Dup);
        code.push(Op::TestVariant(tag));
        code.push(Op::JumpIfNot(7));
        code.push(Op::GetVariantArg(0));
        code.push(Op::StoreLocal(arg));
        code.push(Op::LoadLocal(f));
        code.push(Op::LoadLocal(arg));
        code.push(Op::CallClosure { arity: 1, node_id_idx: nid });
        code.push(Op::MakeVariant { name_idx: tag, arity: 1 });
        code.push(Op::Jump(0));
        self.emit_all(code);
    }

    pub fn emit_variant_and_then(&mut self, val: u16, f: u16, tag: u32)
        requires
            old(self).wf(),
        ensures
            final(self).wf(),
            final(self)@ == variant_and_then(old(self)@, val, f, tag),
    {
        let nid: u32 = self.node_id("n_hov");
        let arg: u16 = self.alloc_local("__hov_arg");
        let mut code: Vec<Op> = Vec::new();
        code.push(Op::LoadLocal(val));
        code.push(Op::Dup);
        code.push(Op::TestVariant(tag));
        code.push(Op::JumpIfNot(6));
        code.push(Op::GetVariantArg(0));
        code.push(Op::StoreLocal(arg));
        code.push(Op::LoadLocal(f));
        code.push(Op::LoadLocal(arg));
        code.push(Op::CallClosure { arity: 1, node_id_idx: nid });
        code.push(Op::Jump(0));
        self.emit_all(code);
    }

    pub fn emit_result_or_else(&mut self, val: u16, f: u16, tag: u32)
        requires
            old(self).wf(),
        ensures
            final(self).wf(),
            final(self)@ == result_or_else(old(self)@, val, f, tag),
    {
        let nid: u32 = self.node_id("n_hoe");
        let mut code: Vec<Op> = Vec::new();
        code.push(Op::LoadLocal(val));
        code.push(Op::Dup);
        code.push(Op::TestVariant(tag));
        code.push(Op::JumpIfNot(6));
        code.push(Op::Pop);
        code.push(Op::LoadLocal(f));
        code.push(Op::LoadLocal(val));
        code.push(Op::GetVariantArg(0));
        code.push(Op::CallClosure { arity: 1, node_id_idx: nid });
        code.push(Op::Jump(0));
        self.emit_all(code);
    }

    pub fn emit_option_or_else(&mut self, val: u16, f: u16, tag: u32)
        requires
            old(self).wf(),
        ensures
            final(self).wf(),
            final(self)@ == option_or_else(old(self)@, val, f, tag),
    {
        let nid: u32 = self.node_id("n_hoe");
        let mut code: Vec<Op> = Vec::new();
        code.push(Op::LoadLocal(val));
        code.push(Op::Dup);
        code.push(Op::TestVariant(tag));
        code.push(Op::JumpIfNot(4));
        code.push(Op::Pop);
        code.push(Op::LoadLocal(f));
        code.push(Op::CallClosure { arity: 0, node_id_idx: nid });
        code.push(Op::Jump(0));
        self.emit_all(code);
    }

    pub fn emit_option_unwrap_or_else(&mut self, val: u16, f: u16, tag: u32)
        requires
            old(self).wf(),
        ensures
            final(self).wf(),
            final(self)@ == option_unwrap_or_else(old(self)@, val, f, tag),
    {
        let nid: u32 = self.node_id("n_uoe");
        let mut code: Vec<Op> = Vec::new();
        code.push(Op::LoadLocal(val));
        code.push(Op::Dup);
        code.push(Op::TestVariant(tag));
        code.push(Op::JumpIfNot(2));
        code.push(Op::GetVariantArg(0));
        code.push(Op::Jump(3));
        code.push(Op::Pop);
        code.push(Op::LoadLocal(f));
        code.push(Op::CallClosure { arity: 0, node_id_idx: nid });
        self.emit_all(code);
    }

    pub fn emit_result_unwrap_or_else(&mut self, val: u16, f: u16, tag: u32)
        requires
            old(self).wf(),
        ensures
            final(self).wf(),
            final(self)@ == result_unwrap_or_else(old(self)@, val, f, tag),
    {
        let nid: u32 = self.node_id("n_ruoe");
        let mut code: Vec<Op> = Vec::new();
        code.push(Op::LoadLocal(val));
        code.push(Op::Dup);
        code.push(Op::TestVariant(tag));
        code.push(Op::JumpIfNot(2));
        code.push(Op::GetVariantArg(0));
        code.push(Op::Jump(5));
        code.push(Op::Pop);
        code.push(Op::LoadLocal(f));
        code.push(Op::LoadLocal(val));
        code.push(Op::GetVariantArg(0));
        code.push(Op::CallClosure { arity: 1, node_id_idx: nid });
        self.emit_all(code);
    }
}

} // verus!
