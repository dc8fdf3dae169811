//! Parsers run by the machine itself, which calls their closures.

use vstd::prelude::*;

use crate::parser_runtime::{
    extends, fail_at, get_member, get_text_member, lemma_extends, lemma_extends_push, lemma_parse,
    none_variant, pair, parse, parse_many, parsed, remaining, run_leaf, some_variant, walked, Reply,
};
use crate::program::Program;
use crate::text::{bytes_of, same_text};
use crate::value;
use crate::value::{vals, Val, Value};
use crate::vm::dispatch::{all_valid, called, moved_on};
use crate::vm::runs::{in_a_row, replies_of, reply_of, valid_call, world_after, world_before};
use crate::vm::world::{Call, Callee, World};
use crate::vm::{kept, Vm};

verus! {

broadcast use crate::value::lemma_view;

/// Calls that a parser has made since a world.
#[verifier::opaque]
pub open spec fn parser_calls(p: Program, calls: Seq<Call>, w0: World, here: World) -> bool {
    all_valid(p, calls) && in_a_row(calls, w0) && here == world_after(calls, w0)
}

/// One more call of a parser.
proof fn lemma_call_more(p: Program, calls: Seq<Call>, w0: World, here: World, c: Call)
    requires
        parser_calls(p, calls, w0, here),
        valid_call(p, c),
        c.before == here,
        c.callee is Value,
        c.args.len() == 1,
    ensures
        parser_calls(p, calls.push(c), w0, c.after),
        replies_of(calls.push(c)) == replies_of(calls).push(reply_of(c)),
        extends(replies_of(calls.push(c)), replies_of(calls)),
{
    reveal(parser_calls);
    let more = calls.push(c);
    assert forall|k: int| 0 <= k < more.len() implies valid_call(p, #[trigger] more[k]) by {
        if k < calls.len() {
            assert(more[k] == calls[k]);
        }
    }
    assert forall|k: int| 0 <= k < more.len() implies (#[trigger] more[k]).callee is Value
        && more[k].args.len() == 1 && more[k].before == world_before(more, k, w0) by {
        if k < calls.len() {
            assert(more[k] == calls[k]);
            if k > 0 {
                assert(more[k - 1] == calls[k - 1]);
            }
        }
    }
    assert(replies_of(more) =~= replies_of(calls).push(reply_of(c)));
    lemma_extends_push(replies_of(calls), reply_of(c));
}

impl<'a> Vm<'a> {
    /// Calls a closure for a parser.
    fn call_for_parser(
        &mut self,
        f: Value,
        v: Value,
        before: Ghost<Seq<Call>>,
        w0: Ghost<World>,
    ) -> (out: (Result<Value, String>, Ghost<Seq<Call>>))
        requires
            old(self).wf(),
            parser_calls(old(self).program(), before@, w0@, old(self)@),
        ensures
            kept(*old(self), *final(self)),
            moved_on(old(self)@, final(self)@),
            out.0 is Ok ==> final(self).fuel() < old(self).fuel(),
            parser_calls(old(self).program(), out.1@, w0@, final(self)@),
            replies_of(out.1@) == replies_of(before@).push(
                Reply {
                    closure: f@,
                    arg: v@,
                    answer: crate::parser_runtime::answer_view(out.0),
                },
            ),
            extends(replies_of(out.1@), replies_of(before@)),
        decreases old(self).fuel(), 5nat, Val::Unit, 0nat, 0nat,
    {
        let ghost p = self.program();
        let ghost here = self@;
        let ghost fv = f@;
        let args = vec![v];
        let ghost given = vals(args@);
        assert(given =~= seq![v@]);
        let r = self.invoke_closure_value(f, args);
        let ghost c = choose|c: Call| #[trigger]
            called(p, c, Callee::Value(fv), given, here, self@, r);
        proof {
            lemma_call_more(p, before@, w0@, here, c);
        }
        let calls: Ghost<Seq<Call>> = Ghost(before@.push(c));
        match r {
            Ok(x) => (Ok(x), calls),
            Err(e) => (Err(e.show()), calls),
        }
    }

    /// Runs a parser on the input from a position on.
    fn parse_node(
        &mut self,
        node: &Value,
        input: &str,
        pos: usize,
        before: Ghost<Seq<Call>>,
        w0: Ghost<World>,
    ) -> (out: (Result<(Value, usize), (usize, String)>, Ghost<Seq<Call>>))
        requires
            old(self).wf(),
            parser_calls(old(self).program(), before@, w0@, old(self)@),
        ensures
            kept(*old(self), *final(self)),
            moved_on(old(self)@, final(self)@),
            parser_calls(old(self).program(), out.1@, w0@, final(self)@),
            walked(
                node@,
                bytes_of(input@),
                pos as nat,
                replies_of(before@),
                replies_of(out.1@),
                out.0,
            ),
        decreases old(self).fuel(), 6nat, node, 0nat, 0nat,
    {
        let ghost bytes = bytes_of(input@);
        let ghost r0 = replies_of(before@);
        proof {
            lemma_extends_push(r0, arbitrary());
            assert(node@ == value::view_of(*node));
        }
        if let Value::Record { .. } = node {
        } else {
            return (fail_at(pos, "parser: expected Parser node"), before);
        }
        let kind = match get_text_member(node, "kind") {
            Some(kind) => kind.as_str(),
            None => return (fail_at(pos, "parser: malformed node (no kind)"), before),
        };
        if same_text(kind, "Seq") {
            let a = match get_member(node, "a") {
                Some(a) => a,
                None => return (fail_at(pos, "seq: missing a"), before),
            };
            let b = match get_member(node, "b") {
                Some(b) => b,
                None => return (fail_at(pos, "seq: missing b"), before),
            };
            let (r, first) = self.parse_node(a, input, pos, before, w0);
            match r {
                Ok((va, p1)) => {
                    let (r, second) = self.parse_node(b, input, p1, first, w0);
                    proof {
                        lemma_parse(
                            a@,
                            bytes,
                            pos as nat,
                            replies_of(first@),
                            replies_of(second@),
                            r0.len(),
                        );
                        lemma_extends(r0, replies_of(first@), replies_of(second@));
                    }
                    match r {
                        Ok((vb, p2)) => (Ok((pair(va, vb), p2)), second),
                        Err(e) => (Err(e), second),
                    }
                },
                Err(e) => (Err(e), first),
            }
        } else if same_text(kind, "Alt") {
            let a = match get_member(node, "a") {
                Some(a) => a,
                None => return (fail_at(pos, "alt: missing a"), before),
            };
            let b = match get_member(node, "b") {
                Some(b) => b,
                None => return (fail_at(pos, "alt: missing b"), before),
            };
            let (r, first) = self.parse_node(a, input, pos, before, w0);
            match r {
                Ok(done) => (Ok(done), first),
                Err(_) => {
                    let (r, second) = self.parse_node(b, input, pos, first, w0);
                    proof {
                        lemma_parse(
                            a@,
                            bytes,
                            pos as nat,
                            replies_of(first@),
                            replies_of(second@),
                            r0.len(),
                        );
                        lemma_extends(r0, replies_of(first@), replies_of(second@));
                    }
                    (r, second)
                },
            }
        } else if same_text(kind, "Many") {
            let p = match get_member(node, "p") {
                Some(p) => p,
                None => return (fail_at(pos, "many: missing p"), before),
            };
            self.parse_repeated(p, input, pos, before, w0)
        } else if same_text(kind, "Optional") {
            let p = match get_member(node, "p") {
                Some(p) => p,
                None => return (fail_at(pos, "optional: missing p"), before),
            };
            let (r, first) = self.parse_node(p, input, pos, before, w0);
            match r {
                Ok((v, np)) => (Ok((some_variant(v), np)), first),
                Err(_) => (Ok((none_variant(), pos)), first),
            }
        } else if same_text(kind, "Map") {
            let p = match get_member(node, "p") {
                Some(p) => p,
                None => return (fail_at(pos, "map: missing p"), before),
            };
            let f = match get_member(node, "f") {
                Some(f) => f.duplicate(),
                None => return (fail_at(pos, "map: missing f"), before),
            };
            let (r, first) = self.parse_node(p, input, pos, before, w0);
            match r {
                Ok((v, np)) => {
                    let (answer, second) = self.call_for_parser(f, v, first, w0);
                    proof {
                        lemma_extends(r0, replies_of(first@), replies_of(second@));
                        lemma_parse(
                            p@,
                            bytes,
                            pos as nat,
                            replies_of(first@),
                            replies_of(second@),
                            r0.len(),
                        );
                    }
                    match answer {
                        Ok(mapped) => (Ok((mapped, np)), second),
                        Err(e) => (
                            Err((pos, "map: closure failed: ".to_owned().concat(e.as_str()))),
                            second,
                        ),
                    }
                },
                Err(e) => (Err(e), first),
            }
        } else if same_text(kind, "AndThen") {
            let p = match get_member(node, "p") {
                Some(p) => p,
                None => return (fail_at(pos, "and_then: missing p"), before),
            };
            let f = match get_member(node, "f") {
                Some(f) => f.duplicate(),
                None => return (fail_at(pos, "and_then: missing f"), before),
            };
            let (r, first) = self.parse_node(p, input, pos, before, w0);
            match r {
                Ok((v, np)) => {
                    let (answer, second) = self.call_for_parser(f, v, first, w0);
                    proof {
                        lemma_extends(r0, replies_of(first@), replies_of(second@));
                        lemma_parse(
                            p@,
                            bytes,
                            pos as nat,
                            replies_of(first@),
                            replies_of(second@),
                            r0.len(),
                        );
                    }
                    match answer {
                        Ok(then) => {
                            let (r, third) = self.parse_node(&then, input, np, second, w0);
                            proof {
                                let r1 = replies_of(first@);
                                let r2 = replies_of(second@);
                                let r3 = replies_of(third@);
                                lemma_extends(r1, r2, r3);
                                lemma_extends(r0, r1, r3);
                                lemma_parse(p@, bytes, pos as nat, r1, r3, r0.len());
                                assert(r3.take(r2.len() as int)[r1.len() as int] == r2[r1.len()
                                    as int]);
                            }
                            (r, third)
                        },
                        Err(e) => (
                            Err((np, "and_then: closure failed: ".to_owned().concat(e.as_str()))),
                            second,
                        ),
                    }
                },
                Err(e) => (Err(e), first),
            }
        } else {
            (run_leaf(kind, node, input, pos), before)
        }
    }

    /// Runs a parser as often as it succeeds and moves on.
    fn parse_repeated(
        &mut self,
        p: &Value,
        input: &str,
        pos: usize,
        before: Ghost<Seq<Call>>,
        w0: Ghost<World>,
    ) -> (out: (Result<(Value, usize), (usize, String)>, Ghost<Seq<Call>>))
        requires
            old(self).wf(),
            parser_calls(old(self).program(), before@, w0@, old(self)@),
        ensures
            kept(*old(self), *final(self)),
            moved_on(old(self)@, final(self)@),
            parser_calls(old(self).program(), out.1@, w0@, final(self)@),
            extends(replies_of(out.1@), replies_of(before@)),
            parse_many(
                p@,
                bytes_of(input@),
                pos as nat,
                Seq::empty(),
                replies_of(out.1@),
                replies_of(before@).len(),
            ) == Some((parsed(out.0), replies_of(out.1@).len())),
        decreases old(self).fuel(), 6nat, p, 1nat, 0nat,
    {
        let ghost bytes = bytes_of(input@);
        let ghost r0 = replies_of(before@);
        let ghost program = self.program();
        let ghost start = self@;
        let n: usize = input.as_bytes().len();
        let mut cur: usize = pos;
        let mut out: Vec<Value> = Vec::new();
        let mut calls: Ghost<Seq<Call>> = before;
        proof {
            lemma_extends_push(r0, arbitrary());
            assert(vals(out@) =~= Seq::<Val>::empty());
        }
        loop
            invariant
                bytes == bytes_of(input@),
                n == bytes.len(),
                kept(*old(self), *self),
                program == old(self).program(),
                start == old(self)@,
                moved_on(start, self@),
                self.fuel() <= old(self).fuel(),
                parser_calls(program, calls@, w0@, self@),
                extends(replies_of(calls@), r0),
                r0 == replies_of(before@),
                // The rest of the repetition decides the whole.
                forall|later: Seq<Reply>| #[trigger]
                    extends(later, replies_of(calls@)) ==> parse_many(
                        p@,
                        bytes,
                        pos as nat,
                        Seq::empty(),
                        later,
                        r0.len(),
                    ) == parse_many(
                        p@,
                        bytes,
                        cur as nat,
                        vals(out@),
                        later,
                        replies_of(calls@).len(),
                    ),
            decreases remaining(n as nat, cur as nat),
        {
            let (r, next) = self.parse_node(p, input, cur, calls, w0);
            let ghost here = replies_of(calls@);
            let ghost there = replies_of(next@);
            proof {
                lemma_extends(r0, here, there);
                lemma_extends_push(there, arbitrary());
                lemma_parse(p@, bytes, cur as nat, there, there, here.len());
            }
            match r {
                Ok((v, np)) => {
                    if np > cur && np <= n {
                        let ghost items = vals(out@);
                        let ghost item = v@;
                        out.push(v);
                        assert(vals(out@) =~= items.push(item));
                        proof {
                            assert forall|later: Seq<Reply>| #[trigger]
                                extends(later, there) implies parse_many(
                                p@,
                                bytes,
                                pos as nat,
                                Seq::empty(),
                                later,
                                r0.len(),
                            ) == parse_many(
                                p@,
                                bytes,
                                np as nat,
                                vals(out@),
                                later,
                                there.len(),
                            ) by {
                                lemma_extends(here, there, later);
                                lemma_parse(p@, bytes, cur as nat, there, later, here.len());
                            }
                        }
                        cur = np;
                        calls = next;
                    } else {
                        return (Ok((Value::List(out), cur)), next);
                    }
                },
                Err(_) => {
                    return (Ok((Value::List(out), cur)), next);
                },
            }
        }
    }

    /// Runs a parser on an input from its start. The calls that it makes are
    /// the second result.
    pub(crate) fn run_parser_from_start(&mut self, parser: &Value, input: &str) -> (out: (
        Result<(Value, usize), (usize, String)>,
        Ghost<Seq<Call>>,
    ))
        requires
            old(self).wf(),
        ensures
            kept(*old(self), *final(self)),
            moved_on(old(self)@, final(self)@),
            all_valid(old(self).program(), out.1@),
            in_a_row(out.1@, old(self)@),
            final(self)@ == world_after(out.1@, old(self)@),
            parse(parser@, bytes_of(input@), 0, replies_of(out.1@), 0) == Some(
                (parsed(out.0), out.1@.len()),
            ),
        decreases old(self).fuel(), 6nat, *parser, 2nat, 0nat,
    {
        let ghost none = Seq::<Call>::empty();
        proof {
            reveal(parser_calls);
        }
        let (r, calls) = self.parse_node(parser, input, 0, Ghost(none), Ghost(self@));
        assert(replies_of(calls@).len() == calls@.len());
        (r, calls)
    }
}

} // verus!
