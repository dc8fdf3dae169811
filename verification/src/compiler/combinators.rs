//! The functions of the standard modules that take functions: which they are,
//! where their arguments go, and the code behind them.

use vstd::prelude::*;

use crate::compiler::draft::{Draft, FnCompiler};
use crate::compiler::flow_code::{
    flow_branch, flow_parallel, flow_parallel_list, flow_retry, flow_retry_with_backoff,
    flow_sequential,
};
use crate::compiler::iter_code::{
    iter_count, iter_filter, iter_fold, iter_from_list, iter_is_empty, iter_map, iter_next,
    iter_skip, iter_take, iter_to_list, iter_unfold, map_fold,
};
use crate::compiler::list_code::{list_filter, list_fold, list_map, list_par_map, list_sort_by};
use crate::compiler::variant_code::{
    option_or_else, option_unwrap_or_else, result_or_else, result_unwrap_or_else, variant_and_then,
    variant_map,
};
use crate::text::same_text;

verus! {

/// A function of a standard module that is compiled in line.
#[derive(Debug, Clone, Copy, PartialEq, Eq, Structural)]
pub enum Combinator {
    ResultMap,
    ResultAndThen,
    ResultMapErr,
    ResultOrElse,
    ResultUnwrapOrElse,
    OptionMap,
    OptionAndThen,
    OptionOrElse,
    OptionUnwrapOrElse,
    ListMap,
    ListParMap,
    ListSortBy,
    ListFilter,
    ListFold,
    IterFromList,
    IterUnfold,
    IterNext,
    IterIsEmpty,
    IterCount,
    IterTake,
    IterSkip,
    IterToList,
    IterMap,
    IterFilter,
    IterFold,
    MapFold,
    FlowSequential,
    FlowBranch,
    FlowRetry,
    FlowRetryWithBackoff,
    FlowParallel,
    FlowParallelList,
}

/// The combinator of a module and a name in it.
pub open spec fn combinator(module: Seq<char>, op: Seq<char>) -> Option<Combinator> {
    if module == "result"@ {
        if op == "map"@ {
            Some(Combinator::ResultMap)
        } else if op == "and_then"@ {
            Some(Combinator::ResultAndThen)
        } else if op == "map_err"@ {
            Some(Combinator::ResultMapErr)
        } else if op == "or_else"@ {
            Some(Combinator::ResultOrElse)
        } else if op == "unwrap_or_else"@ {
            Some(Combinator::ResultUnwrapOrElse)
        } else {
            None
        }
    } else if module == "option"@ {
        if op == "map"@ {
            Some(Combinator::OptionMap)
        } else if op == "and_then"@ {
            Some(Combinator::OptionAndThen)
        } else if op == "or_else"@ {
            Some(Combinator::OptionOrElse)
        } else if op == "unwrap_or_else"@ {
            Some(Combinator::OptionUnwrapOrElse)
        } else {
            None
        }
    } else if module == "list"@ {
        if op == "map"@ {
            Some(Combinator::ListMap)
        } else if op == "par_map"@ {
            Some(Combinator::ListParMap)
        } else if op == "sort_by"@ {
            Some(Combinator::ListSortBy)
        } else if op == "filter"@ {
            Some(Combinator::ListFilter)
        } else if op == "fold"@ {
            Some(Combinator::ListFold)
        } else {
            None
        }
    } else if module == "iter"@ {
        if op == "from_list"@ {
            Some(Combinator::IterFromList)
        } else if op == "unfold"@ {
            Some(Combinator::IterUnfold)
        } else if op == "next"@ {
            Some(Combinator::IterNext)
        } else if op == "is_empty"@ {
            Some(Combinator::IterIsEmpty)
        } else if op == "count"@ {
            Some(Combinator::IterCount)
        } else if op == "take"@ {
            Some(Combinator::IterTake)
        } else if op == "skip"@ {
            Some(Combinator::IterSkip)
        } else if op == "to_list"@ {
            Some(Combinator::IterToList)
        } else if op == "collect"@ {
            Some(Combinator::IterToList)
        } else if op == "map"@ {
            Some(Combinator::IterMap)
        } else if op == "filter"@ {
            Some(Combinator::IterFilter)
        } else if op == "fold"@ {
            Some(Combinator::IterFold)
        } else {
            None
        }
    } else if module == "map"@ {
        if op == "fold"@ {
            Some(Combinator::MapFold)
        } else {
            None
        }
    } else if module == "flow"@ {
        if op == "sequential"@ {
            Some(Combinator::FlowSequential)
        } else if op == "branch"@ {
            Some(Combinator::FlowBranch)
        } else if op == "retry"@ {
            Some(Combinator::FlowRetry)
        } else if op == "retry_with_backoff"@ {
            Some(Combinator::FlowRetryWithBackoff)
        } else if op == "parallel"@ {
            Some(Combinator::FlowParallel)
        } else if op == "parallel_list"@ {
            Some(Combinator::FlowParallelList)
        } else {
            None
        }
    } else {
        None
    }
}

pub fn find_combinator(module: &str, op: &str) -> (c: Option<Combinator>)
    ensures
        c == combinator(module@, op@),
{
    if same_text(module, "result") {
        if same_text(op, "map") {
            Some(Combinator::ResultMap)
        } else if same_text(op, "and_then") {
            Some(Combinator::ResultAndThen)
        } else if same_text(op, "map_err") {
            Some(Combinator::ResultMapErr)
        } else if same_text(op, "or_else") {
            Some(Combinator::ResultOrElse)
        } else if same_text(op, "unwrap_or_else") {
            Some(Combinator::ResultUnwrapOrElse)
        } else {
            None
        }
    } else if same_text(module, "option") {
        if same_text(op, "map") {
            Some(Combinator::OptionMap)
        } else if same_text(op, "and_then") {
            Some(Combinator::OptionAndThen)
        } else if same_text(op, "or_else") {
            Some(Combinator::OptionOrElse)
        } else if same_text(op, "unwrap_or_else") {
            Some(Combinator::OptionUnwrapOrElse)
        } else {
            None
        }
    } else if same_text(module, "list") {
        if same_text(op, "map") {
            Some(Combinator::ListMap)
        } else if same_text(op, "par_map") {
            Some(Combinator::ListParMap)
        } else if same_text(op, "sort_by") {
            Some(Combinator::ListSortBy)
        } else if same_text(op, "filter") {
            Some(Combinator::ListFilter)
        } else if same_text(op, "fold") {
            Some(Combinator::ListFold)
        } else {
            None
        }
    } else if same_text(module, "iter") {
        if same_text(op, "from_list") {
            Some(Combinator::IterFromList)
        } else if same_text(op, "unfold") {
            Some(Combinator::IterUnfold)
        } else if same_text(op, "next") {
            Some(Combinator::IterNext)
        } else if same_text(op, "is_empty") {
            Some(Combinator::IterIsEmpty)
        } else if same_text(op, "count") {
            Some(Combinator::IterCount)
        } else if same_text(op, "take") {
            Some(Combinator::IterTake)
        } else if same_text(op, "skip") {
            Some(Combinator::IterSkip)
        } else if same_text(op, "to_list") {
            Some(Combinator::IterToList)
        } else if same_text(op, "collect") {
            Some(Combinator::IterToList)
        } else if same_text(op, "map") {
            Some(Combinator::IterMap)
        } else if same_text(op, "filter") {
            Some(Combinator::IterFilter)
        } else if same_text(op, "fold") {
            Some(Combinator::IterFold)
        } else {
            None
        }
    } else if same_text(module, "map") {
        if same_text(op, "fold") {
            Some(Combinator::MapFold)
        } else {
            None
        }
    } else if same_text(module, "flow") {
        if same_text(op, "sequential") {
            Some(Combinator::FlowSequential)
        } else if same_text(op, "branch") {
            Some(Combinator::FlowBranch)
        } else if same_text(op, "retry") {
            Some(Combinator::FlowRetry)
        } else if same_text(op, "retry_with_backoff") {
            Some(Combinator::FlowRetryWithBackoff)
        } else if same_text(op, "parallel") {
            Some(Combinator::FlowParallel)
        } else if same_text(op, "parallel_list") {
            Some(Combinator::FlowParallelList)
        } else {
            None
        }
    } else {
        None
    }
}

/// The variant tag that a combinator tests.
pub open spec fn tested_tag(c: Combinator) -> Option<Seq<char>> {
    match c {
        Combinator::ResultMap | Combinator::ResultAndThen
            | Combinator::ResultUnwrapOrElse => Some("Ok"@),
        Combinator::ResultMapErr | Combinator::ResultOrElse => Some("Err"@),
        Combinator::OptionMap | Combinator::OptionAndThen
            | Combinator::OptionUnwrapOrElse => Some("Some"@),
        Combinator::OptionOrElse => Some("None"@),
        _ => None,
    }
}

pub fn tag_of(c: Combinator) -> (tag: Option<&'static str>)
    ensures
        tag is Some <==> tested_tag(c) is Some,
        tag matches Some(t) ==> tested_tag(c) == Some(t@),
{
    match c {
        Combinator::ResultMap | Combinator::ResultAndThen
            | Combinator::ResultUnwrapOrElse => Some("Ok"),
        Combinator::ResultMapErr | Combinator::ResultOrElse => Some("Err"),
        Combinator::OptionMap | Combinator::OptionAndThen
            | Combinator::OptionUnwrapOrElse => Some("Some"),
        Combinator::OptionOrElse => Some("None"),
        _ => None,
    }
}

/// How many arguments a combinator takes.
pub open spec fn taken(c: Combinator) -> nat {
    match c {
        Combinator::IterFromList | Combinator::IterNext | Combinator::IterIsEmpty
            | Combinator::IterCount | Combinator::IterToList | Combinator::FlowParallelList => 1,
        Combinator::ListFold | Combinator::IterFold | Combinator::MapFold | Combinator::FlowBranch
            | Combinator::FlowRetryWithBackoff => 3,
        _ => 2,
    }
}

pub fn argument_count(c: Combinator) -> (n: usize)
    ensures
        n == taken(c),
{
    match c {
        Combinator::IterFromList | Combinator::IterNext | Combinator::IterIsEmpty
            | Combinator::IterCount | Combinator::IterToList | Combinator::FlowParallelList => 1,
        Combinator::ListFold | Combinator::IterFold | Combinator::MapFold | Combinator::FlowBranch
            | Combinator::FlowRetryWithBackoff => 3,
        _ => 2,
    }
}

/// The local that keeps an argument; none where it stays on the stack.
pub open spec fn keeper(c: Combinator, k: nat) -> Option<Seq<char>> {
    match c {
        Combinator::ResultMap | Combinator::ResultAndThen | Combinator::ResultMapErr
            | Combinator::OptionMap | Combinator::OptionAndThen => if k == 0 {
            Some("__hov"@)
        } else {
            Some("__hof"@)
        },
        Combinator::ResultOrElse | Combinator::OptionOrElse => if k == 0 {
            Some("__hoe"@)
        } else {
            Some("__hoe_f"@)
        },
        Combinator::ResultUnwrapOrElse => if k == 0 {
            Some("__ruoe_val"@)
        } else {
            Some("__ruoe_f"@)
        },
        Combinator::OptionUnwrapOrElse => if k == 0 {
            Some("__uoe_val"@)
        } else {
            Some("__uoe_f"@)
        },
        Combinator::IterNext => Some("__in_it"@),
        Combinator::IterIsEmpty => Some("__ie_it"@),
        Combinator::IterCount => Some("__ic_it"@),
        Combinator::IterTake => if k == 0 {
            Some("__itk_it"@)
        } else {
            Some("__itk_n"@)
        },
        Combinator::IterSkip => if k == 0 {
            Some("__isk_it"@)
        } else {
            Some("__isk_n"@)
        },
        Combinator::IterToList => Some("__itl_it"@),
        Combinator::IterMap => if k == 0 {
            Some("__im_it"@)
        } else {
            Some("__im_f"@)
        },
        Combinator::IterFilter => if k == 0 {
            Some("__if_it"@)
        } else {
            Some("__if_f"@)
        },
        Combinator::IterFold => if k == 0 {
            Some("__ifo_it"@)
        } else if k == 1 {
            Some("__ifo_acc"@)
        } else {
            Some("__ifo_f"@)
        },
        Combinator::MapFold => if k == 0 {
            Some("__mf_xs"@)
        } else if k == 1 {
            Some("__mf_acc"@)
        } else {
            Some("__mf_f"@)
        },
        Combinator::FlowParallelList => Some("__fpl_xs"@),
        _ => None,
    }
}

pub fn keeper_of(c: Combinator, k: usize) -> (name: Option<&'static str>)
    ensures
        name is Some <==> keeper(c, k as nat) is Some,
        name matches Some(n) ==> keeper(c, k as nat) == Some(n@),
{
    match c {
        Combinator::ResultMap | Combinator::ResultAndThen | Combinator::ResultMapErr
            | Combinator::OptionMap | Combinator::OptionAndThen => if k == 0 {
            Some("__hov")
        } else {
            Some("__hof")
        },
        Combinator::ResultOrElse | Combinator::OptionOrElse => if k == 0 {
            Some("__hoe")
        } else {
            Some("__hoe_f")
        },
        Combinator::ResultUnwrapOrElse => if k == 0 {
            Some("__ruoe_val")
        } else {
            Some("__ruoe_f")
        },
        Combinator::OptionUnwrapOrElse => if k == 0 {
            Some("__uoe_val")
        } else {
            Some("__uoe_f")
        },
        Combinator::IterNext => Some("__in_it"),
        Combinator::IterIsEmpty => Some("__ie_it"),
        Combinator::IterCount => Some("__ic_it"),
        Combinator::IterTake => if k == 0 {
            Some("__itk_it")
        } else {
            Some("__itk_n")
        },
        Combinator::IterSkip => if k == 0 {
            Some("__isk_it")
        } else {
            Some("__isk_n")
        },
        Combinator::IterToList => Some("__itl_it"),
        Combinator::IterMap => if k == 0 {
            Some("__im_it")
        } else {
            Some("__im_f")
        },
        Combinator::IterFilter => if k == 0 {
            Some("__if_it")
        } else {
            Some("__if_f")
        },
        Combinator::IterFold => if k == 0 {
            Some("__ifo_it")
        } else if k == 1 {
            Some("__ifo_acc")
        } else {
            Some("__ifo_f")
        },
        Combinator::MapFold => if k == 0 {
            Some("__mf_xs")
        } else if k == 1 {
            Some("__mf_acc")
        } else {
            Some("__mf_f")
        },
        Combinator::FlowParallelList => Some("__fpl_xs"),
        _ => None,
    }
}

/// The code behind the arguments. `slots` are the locals of the arguments,
/// `tag` is the number of the tested tag.
pub open spec fn closing(s: Draft, c: Combinator, slots: Seq<u16>, tag: u32) -> Draft {
    match c {
        Combinator::ResultMap => variant_map(s, slots[0], slots[1], tag),
        Combinator::ResultAndThen => variant_and_then(s, slots[0], slots[1], tag),
        Combinator::ResultMapErr => variant_map(s, slots[0], slots[1], tag),
        Combinator::ResultOrElse => result_or_else(s, slots[0], slots[1], tag),
        Combinator::ResultUnwrapOrElse => result_unwrap_or_else(s, slots[0], slots[1], tag),
        Combinator::OptionMap => variant_map(s, slots[0], slots[1], tag),
        Combinator::OptionAndThen => variant_and_then(s, slots[0], slots[1], tag),
        Combinator::OptionOrElse => option_or_else(s, slots[0], slots[1], tag),
        Combinator::OptionUnwrapOrElse => option_unwrap_or_else(s, slots[0], slots[1], tag),
        Combinator::ListMap => list_map(s),
        Combinator::ListParMap => list_par_map(s),
        Combinator::ListSortBy => list_sort_by(s),
        Combinator::ListFilter => list_filter(s),
        Combinator::ListFold => list_fold(s),
        Combinator::IterFromList => iter_from_list(s),
        Combinator::IterUnfold => iter_unfold(s),
        Combinator::IterNext => iter_next(s, slots[0]),
        Combinator::IterIsEmpty => iter_is_empty(s, slots[0]),
        Combinator::IterCount => iter_count(s, slots[0]),
        Combinator::IterTake => iter_take(s, slots[0], slots[1]),
        Combinator::IterSkip => iter_skip(s, slots[0], slots[1]),
        Combinator::IterToList => iter_to_list(s, slots[0]),
        Combinator::IterMap => iter_map(s, slots[0], slots[1]),
        Combinator::IterFilter => iter_filter(s, slots[0], slots[1]),
        Combinator::IterFold => iter_fold(s, slots[0], slots[1], slots[2]),
        Combinator::MapFold => map_fold(s, slots[0], slots[1], slots[2]),
        Combinator::FlowSequential => flow_sequential(s),
        Combinator::FlowBranch => flow_branch(s),
        Combinator::FlowRetry => flow_retry(s),
        Combinator::FlowRetryWithBackoff => flow_retry_with_backoff(s),
        Combinator::FlowParallel => flow_parallel(s),
        Combinator::FlowParallelList => flow_parallel_list(s, slots[0]),
    }
}

impl<'a> FnCompiler<'a> {
    pub fn emit_closing(&mut self, c: Combinator, slots: &Vec<u16>, tag: u32)
        requires
            old(self).wf(),
            slots@.len() == taken(c),
        ensures
            final(self).wf(),
            final(self)@ == closing(old(self)@, c, slots@, tag),
    {
        match c {
            Combinator::ResultMap => self.emit_variant_map(slots[0], slots[1], tag),
            Combinator::ResultAndThen => self.emit_variant_and_then(slots[0], slots[1], tag),
            Combinator::ResultMapErr => self.emit_variant_map(slots[0], slots[1], tag),
            Combinator::ResultOrElse => self.emit_result_or_else(slots[0], slots[1], tag),
            Combinator::ResultUnwrapOrElse => self.emit_result_unwrap_or_else(slots[0], slots[1],
                tag),
            Combinator::OptionMap => self.emit_variant_map(slots[0], slots[1], tag),
            Combinator::OptionAndThen => self.emit_variant_and_then(slots[0], slots[1], tag),
            Combinator::OptionOrElse => self.emit_option_or_else(slots[0], slots[1], tag),
            Combinator::OptionUnwrapOrElse => self.emit_option_unwrap_or_else(slots[0], slots[1],
                tag),
            Combinator::ListMap => self.emit_list_map(),
            Combinator::ListParMap => self.emit_list_par_map(),
            Combinator::ListSortBy => self.emit_list_sort_by(),
            Combinator::ListFilter => self.emit_list_filter(),
            Combinator::ListFold => self.emit_list_fold(),
            Combinator::IterFromList => self.emit_iter_from_list(),
            Combinator::IterUnfold => self.emit_iter_unfold(),
            Combinator::IterNext => self.emit_iter_next(slots[0]),
            Combinator::IterIsEmpty => self.emit_iter_is_empty(slots[0]),
            Combinator::IterCount => self.emit_iter_count(slots[0]),
            Combinator::IterTake => self.emit_iter_take(slots[0], slots[1]),
            Combinator::IterSkip => self.emit_iter_skip(slots[0], slots[1]),
            Combinator::IterToList => self.emit_iter_to_list(slots[0]),
            Combinator::IterMap => self.emit_iter_map(slots[0], slots[1]),
            Combinator::IterFilter => self.emit_iter_filter(slots[0], slots[1]),
            Combinator::IterFold => self.emit_iter_fold(slots[0], slots[1], slots[2]),
            Combinator::MapFold => self.emit_map_fold(slots[0], slots[1], slots[2]),
            Combinator::FlowSequential => self.emit_flow_sequential(),
            Combinator::FlowBranch => self.emit_flow_branch(),
            Combinator::FlowRetry => self.emit_flow_retry(),
            Combinator::FlowRetryWithBackoff => self.emit_flow_retry_with_backoff(),
            Combinator::FlowParallel => self.emit_flow_parallel(),
            Combinator::FlowParallelList => self.emit_flow_parallel_list(slots[0]),
        }
    }
}

} // verus!
