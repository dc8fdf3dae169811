//! The machine as a caller of closures for the parser interpreter.

use vstd::prelude::*;

use crate::parser_runtime::ClosureCaller;
use crate::program::Program;
use crate::value::{Val, Value};
use crate::vm::dispatch::called;
use crate::vm::runs::{answer_of, valid_call};
use crate::vm::world::{Call, Callee, World};
use crate::vm::{kept, Vm};

verus! {

/// A call of a closure that the machine has made, and what a parser hears of
/// it.
pub open spec fn closure_called(
    p: Program,
    c: Call,
    closure: Val,
    args: Seq<Val>,
    before: World,
    answer: Result<Val, Seq<char>>,
    after: World,
) -> bool {
    &&& c.callee == Callee::Value(closure)
    &&& c.args == args
    &&& c.before == before
    &&& c.after == after
    &&& answer_of(c.outcome) == answer
    &&& valid_call(p, c)
}

impl<'a> ClosureCaller for Vm<'a> {
    open spec fn ready(&self) -> bool {
        self.wf()
    }

    /// The closure was called, and the machine is where the call has left it.
    open spec fn may_answer(
        &self,
        closure: Val,
        args: Seq<Val>,
        answer: Result<Val, Seq<char>>,
        after: &Self,
    ) -> bool {
        &&& kept(*self, *after)
        &&& exists|c: Call| #[trigger]
            closure_called(self.program(), c, closure, args, self@, answer, after@)
    }

    fn call_closure(&mut self, closure: Value, args: Vec<Value>) -> (r: Result<Value, String>) {
        let ghost p = self.program();
        let ghost before = self@;
        let ghost callee = closure@;
        let ghost given = crate::value::vals(args@);
        let r = self.invoke_closure_value(closure, args);
        let ghost c = choose|c: Call| #[trigger]
            called(p, c, Callee::Value(callee), given, before, self@, r);
        let answer = match r {
            Ok(v) => Ok(v),
            Err(e) => Err(e.show()),
        };
        assert(closure_called(
            p,
            c,
            callee,
            given,
            before,
            crate::parser_runtime::answer_view(answer),
            self@,
        ));
        answer
    }
}

} // verus!
