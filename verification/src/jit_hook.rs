//! The seam through which calls can be handed to another tier.

use vstd::prelude::*;

use crate::value::{vals, Value};
use crate::vm::fault::VmError;
use crate::vm::outside::{hears, reply_view, Exchange};

verus! {

/// Consulted at every call, behind the refinement checks and the memo table.
///
/// A hook has to do what the interpreter would do. It gets the step count and
/// the step limit, and hands back the step count it has come to. `Ok(None)`
/// declines the call.
pub trait JitHook {
    /// Which exchanges the hook may take part in, by what it is told and what
    /// it answers.
    open spec fn may(&self, x: Exchange) -> bool {
        true
    }

    /// What the hook has heard, if it keeps a record of it.
    open spec fn heard(&self) -> Option<Seq<Exchange>> {
        None
    }

    fn try_call(&mut self, fn_id: u32, args: &[Value], steps: u64, step_limit: u64) -> (answer: (
        Result<Option<Value>, VmError>,
        u64,
    ))
        ensures
            old(self).may(
                Exchange::Hook {
                    fn_id,
                    args: vals(args@),
                    steps,
                    limit: step_limit,
                    reply: reply_view(answer.0, answer.1),
                },
            ),
            hears(
                old(self).heard(),
                Exchange::Hook {
                    fn_id,
                    args: vals(args@),
                    steps,
                    limit: step_limit,
                    reply: reply_view(answer.0, answer.1),
                },
                final(self).heard(),
            ),
    ;
}

} // verus!
