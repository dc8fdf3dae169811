//! The code of the list combinators: one op each, on arguments that are on the
//! stack.

use vstd::prelude::*;

use crate::compiler::draft::{emitted_all, interned, number, Draft, FnCompiler};
use crate::compiler::pool::Constant;
use crate::op::Op;

verus! {

/// Maps the list on the stack by the function on top of it.
pub open spec fn list_map(s: Draft) -> Draft {
    let node_id_idx = number(s, Constant::NodeId("n_list_map"@));
    let s = interned(s, Constant::NodeId("n_list_map"@));
    emitted_all(
        s,
        seq![
            Op::ListMap { node_id_idx },
        ],
    )
}

/// The same, in parallel.
pub open spec fn list_par_map(s: Draft) -> Draft {
    let node_id_idx = number(s, Constant::NodeId("n_list_par_map"@));
    let s = interned(s, Constant::NodeId("n_list_par_map"@));
    emitted_all(
        s,
        seq![
            Op::ParallelMap { node_id_idx },
        ],
    )
}

/// Sorts the list by the keys that the function gives.
pub open spec fn list_sort_by(s: Draft) -> Draft {
    let node_id_idx = number(s, Constant::NodeId("n_list_sort_by"@));
    let s = interned(s, Constant::NodeId("n_list_sort_by"@));
    emitted_all(
        s,
        seq![
            Op::SortByKey { node_id_idx },
        ],
    )
}

/// Keeps the elements for which the function holds.
pub open spec fn list_filter(s: Draft) -> Draft {
    let node_id_idx = number(s, Constant::NodeId("n_list_filter"@));
    let s = interned(s, Constant::NodeId("n_list_filter"@));
    emitted_all(
        s,
        seq![
            Op::ListFilter { node_id_idx },
        ],
    )
}

/// Folds the list from a start value.
pub open spec fn list_fold(s: Draft) -> Draft {
    let node_id_idx = number(s, Constant::NodeId("n_list_fold"@));
    let s = interned(s, Constant::NodeId("n_list_fold"@));
    emitted_all(
        s,
        seq![
            Op::ListFold { node_id_idx },
        ],
    )
}

impl<'a> FnCompiler<'a> {
    pub fn emit_list_map(&mut self)
        requires
            old(self).wf(),
        ensures
            final(self).wf(),
            final(self)@ == list_map(old(self)@),
    {
        let node_id_idx: u32 = self.node_id("n_list_map");
        let mut code: Vec<Op> = Vec::new();
        code.push(Op::ListMap { node_id_idx });
        self.emit_all(code);
    }

    pub fn emit_list_par_map(&mut self)
        requires
            old(self).wf(),
        ensures
            final(self).wf(),
            final(self)@ == list_par_map(old(self)@),
    {
        let node_id_idx: u32 = self.node_id("n_list_par_map");
        let mut code: Vec<Op> = Vec::new();
        code.push(Op::ParallelMap { node_id_idx });
        self.emit_all(code);
    }

    pub fn emit_list_sort_by(&mut self)
        requires
            old(self).wf(),
        ensures
            final(self).wf(),
            final(self)@ == list_sort_by(old(self)@),
    {
        let node_id_idx: u32 = self.node_id("n_list_sort_by");
        let mut code: Vec<Op> = Vec::new();
        code.push(Op::SortByKey { node_id_idx });
        self.emit_all(code);
    }

    pub fn emit_list_filter(&mut self)
        requires
            old(self).wf(),
        ensures
            final(self).wf(),
            final(self)@ == list_filter(old(self)@),
    {
        let node_id_idx: u32 = self.node_id("n_list_filter");
        let mut code: Vec<Op> = Vec::new();
        code.push(Op::ListFilter { node_id_idx });
        self.emit_all(code);
    }

    pub fn emit_list_fold(&mut self)
        requires
            old(self).wf(),
        ensures
            final(self).wf(),
            final(self)@ == list_fold(old(self)@),
    {
        let node_id_idx: u32 = self.node_id("n_list_fold");
        let mut code: Vec<Op> = Vec::new();
        code.push(Op::ListFold { node_id_idx });
        self.emit_all(code);
    }
}

} // verus!
