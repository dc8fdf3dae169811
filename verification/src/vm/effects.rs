//! Effects: the parser interpreter, actors, and the handler.

use vstd::prelude::*;

use crate::conc_registry;
use crate::parser_runtime::answer_view;
use crate::text;
use crate::text::same_text;
use crate::value;
use crate::value::{
    field_names, field_vals, vals, ActorCell, ActorHandler, Field, Val, Value, NO_SHAPE_ID,
};
use crate::vm::arena_values::{copy_list, copy_value};
use crate::vm::calls::{act_of, no_replies};
use crate::vm::dispatch::{all_valid, called, moved_on};
use crate::vm::fault::{Fault, VmError};
use crate::vm::records::{const_str, get_str_const, str_const};
use crate::vm::runs::{
    announced, arg_text, conc_result, effect_acts, effect_args, effect_ends, effect_result, err_of,
    handled, lists_names, lookup_result, message_result, names_changed, ok_of, parse_error,
    parse_error_names, parser_result, register_result, shapes_changed, shown_arg, spawn_result,
    texts_val, unregister_result, variant as variant_val,
};
use crate::vm::state::push;
use crate::vm::step::running;
use crate::vm::outside::actor_option_view;
use crate::vm::world::{arg_at, taken, Call, Callee, Replies};
use crate::vm::{actor_view, kept, Vm};

verus! {

broadcast use crate::value::lemma_view;

/// A variant with a name and arguments.
fn variant(name: &str, args: Vec<Value>) -> (v: Value)
    ensures
        v@ == variant_val(name@, vals(args@)),
{
    Value::Variant { name: name.to_owned(), args }
}

fn variant_ok(payload: Value) -> (v: Value)
    ensures
        v@ == ok_of(payload@),
{
    let args = vec![payload];
    assert(vals(args@) =~= seq![payload@]);
    variant("Ok", args)
}

fn variant_err(payload: Value) -> (v: Value)
    ensures
        v@ == err_of(payload@),
{
    let args = vec![payload];
    assert(vals(args@) =~= seq![payload@]);
    variant("Err", args)
}

/// A variant with one text.
fn variant_text(name: &str, text: String) -> (v: Value)
    ensures
        v@ == variant_val(name@, seq![Val::Str(text@)]),
{
    let args = vec![Value::Str(text)];
    assert(vals(args@) =~= seq![Val::Str(text@)]);
    variant(name, args)
}

/// An argument, or the unit where there is none.
fn get_arg(args: &Vec<Value>, i: usize) -> (v: Value)
    ensures
        v@ == arg_at(vals(args@), i as nat),
{
    if i < args.len() {
        args[i].duplicate()
    } else {
        Value::Unit
    }
}

/// The text in an argument.
fn get_arg_text(args: &Vec<Value>, i: usize) -> (t: Option<String>)
    ensures
        match t {
            Some(s) => arg_text(vals(args@), i as nat) == Some(s@),
            None => arg_text(vals(args@), i as nat) is None,
        },
{
    if i < args.len() {
        let v = &args[i];
        assert(v@ == value::view_of(*v));
        match v {
            Value::Str(s) => Some(s.clone()),
            _ => None,
        }
    } else {
        None
    }
}

fn show_arg(args: &Vec<Value>, i: usize) -> (s: String)
    ensures
        s@ == shown_arg(vals(args@), i as nat),
{
    if i < args.len() {
        let mut s = "Some(".to_owned();
        s.append(args[i].show().as_str());
        s.append(")");
        s
    } else {
        "None".to_owned()
    }
}

/// A text that starts with the name of an op on actors.
fn conc_text(op: &str, rest: &str, last: &str) -> (t: String)
    ensures
        t@ == "conc."@ + op@ + rest@ + last@,
{
    let mut t = "conc.".to_owned();
    t.append(op);
    t.append(rest);
    t.append(last);
    t
}

/// Names as a list of texts.
fn text_values(names: &Vec<String>) -> (v: Value)
    ensures
        v@ == texts_val(text::texts(names@)),
{
    let mut out: Vec<Value> = Vec::with_capacity(names.len());
    let mut i: usize = 0;
    while i < names.len()
        invariant
            i <= names.len(),
            out@.len() == i,
            forall|j: int| 0 <= j < i ==> (#[trigger] out@[j])@ == Val::Str(names@[j]@),
        decreases names.len() - i,
    {
        out.push(Value::Str(names[i].clone()));
        i = i + 1;
    }
    assert(vals(out@) =~= Seq::new(
        text::texts(names@).len(),
        |i: int| Val::Str(text::texts(names@)[i]),
    ));
    Value::List(out)
}

impl<'a> Vm<'a> {
    fn conc_spawn(&mut self, args: &Vec<Value>) -> (out: (Result<Value, String>, Ghost<Replies>))
        requires
            old(self).wf(),
        ensures
            kept(*old(self), *final(self)),
            (answer_view(out.0), final(self)@) == spawn_result(old(self)@, vals(args@), out.1@),
            moved_on(old(self)@, final(self)@),
    {
        let init = get_arg(args, 0);
        let handler = get_arg(args, 1);
        assert(handler@ == value::view_of(handler));
        if let Value::Closure { .. } = &handler {
            let handle: u64 = self.ask_add_actor(
                ActorCell { state: init, handler: ActorHandler::Lex(handler) },
            );
            let ghost rp = Replies { handle, ..no_replies() };
            (Ok(Value::Actor(handle)), Ghost(rp))
        } else {
            (
                Err(
                    "conc.spawn: handler must be a Closure, got ".to_owned().concat(
                        handler.show().as_str(),
                    ),
                ),
                Ghost(no_replies()),
            )
        }
    }

    fn conc_register(&mut self, args: &Vec<Value>) -> (out: (
        Result<Value, String>,
        Ghost<Replies>,
    ))
        requires
            old(self).wf(),
        ensures
            kept(*old(self), *final(self)),
            (answer_view(out.0), final(self)@) == register_result(
                old(self)@,
                vals(args@),
                out.1@,
            ),
            moved_on(old(self)@, final(self)@),
    {
        let actor = get_arg(args, 0);
        assert(actor@ == value::view_of(actor));
        if let Value::Actor(_) = &actor {
        } else {
            return (
                Err(
                    "conc.register: first arg must be an Actor, got ".to_owned().concat(
                        actor.show().as_str(),
                    ),
                ),
                Ghost(no_replies()),
            );
        }
        match get_arg_text(args, 1) {
            None => (
                Err(
                    "conc.register: name must be Str, got ".to_owned().concat(
                        show_arg(args, 1).as_str(),
                    ),
                ),
                Ghost(no_replies()),
            ),
            Some(name) => {
                let mut names = self.ask_take_names();
                let ghost rp = Replies { names: names@, ..no_replies() };
                let r = conc_registry::register(&mut names, name.as_str(), actor);
                self.say_put_names(names);
                match r {
                    Ok(()) => (Ok(variant_ok(Value::Unit)), Ghost(rp)),
                    Err(_) => (
                        Ok(variant_err(variant_text("AlreadyRegistered", name))),
                        Ghost(rp),
                    ),
                }
            },
        }
    }

    fn conc_lookup(&mut self, args: &Vec<Value>) -> (out: (Result<Value, String>, Ghost<Replies>))
        requires
            old(self).wf(),
        ensures
            kept(*old(self), *final(self)),
            (answer_view(out.0), final(self)@) == lookup_result(old(self)@, vals(args@), out.1@),
            moved_on(old(self)@, final(self)@),
    {
        match get_arg_text(args, 0) {
            None => (
                Err(
                    "conc.lookup: name must be Str, got ".to_owned().concat(show_arg(args,
                        0).as_str()),
                ),
                Ghost(no_replies()),
            ),
            Some(name) => {
                let names = self.ask_take_names();
                let ghost rp = Replies { names: names@, ..no_replies() };
                let found = conc_registry::lookup(&names, name.as_str());
                self.say_put_names(names);
                match found {
                    Some(actor) => {
                        let found = vec![actor];
                        assert(vals(found@) =~= seq![actor@]);
                        (Ok(variant("Some", found)), Ghost(rp))
                    },
                    None => {
                        let none: Vec<Value> = Vec::new();
                        assert(vals(none@) =~= Seq::<Val>::empty());
                        (Ok(variant("None", none)), Ghost(rp))
                    },
                }
            },
        }
    }

    fn conc_unregister(&mut self, args: &Vec<Value>) -> (out: (
        Result<Value, String>,
        Ghost<Replies>,
    ))
        requires
            old(self).wf(),
        ensures
            kept(*old(self), *final(self)),
            (answer_view(out.0), final(self)@) == unregister_result(
                old(self)@,
                vals(args@),
                out.1@,
            ),
            moved_on(old(self)@, final(self)@),
    {
        match get_arg_text(args, 0) {
            None => (
                Err(
                    "conc.unregister: name must be Str, got ".to_owned().concat(
                        show_arg(args, 0).as_str(),
                    ),
                ),
                Ghost(no_replies()),
            ),
            Some(name) => {
                let mut names = self.ask_take_names();
                let ghost rp = Replies { names: names@, ..no_replies() };
                let r = conc_registry::unregister(&mut names, name.as_str());
                self.say_put_names(names);
                match r {
                    Ok(()) => (Ok(variant_ok(Value::Unit)), Ghost(rp)),
                    Err(_) => (Ok(variant_err(variant_text("NotRegistered", name))), Ghost(rp)),
                }
            },
        }
    }

    fn conc_registered(&mut self) -> (out: (Result<Value, String>, Ghost<Replies>))
        requires
            old(self).wf(),
        ensures
            kept(*old(self), *final(self)),
            final(self)@ == names_changed(old(self)@, out.1@, out.1@.names),
            exists|list: Seq<Seq<char>>| #[trigger]
                lists_names(out.1@.names, list) && answer_view(out.0) == Ok::<Val, Seq<char>>(
                    texts_val(list),
                ),
            moved_on(old(self)@, final(self)@),
    {
        let names = self.ask_take_names();
        let ghost rp = Replies { names: names@, ..no_replies() };
        let list = conc_registry::registered(&names);
        self.say_put_names(names);
        let v = text_values(&list);
        assert(lists_names(rp.names, text::texts(list@)));
        (Ok(v), Ghost(rp))
    }

    /// Takes what the closure of an actor gave, a new state and a reply, and
    /// puts the actor back.
    fn finish_message(
        &mut self,
        handle: u64,
        cell: ActorCell,
        op: &str,
        ask: bool,
        v: Value,
    ) -> (r: Result<Value, String>)
        requires
            old(self).wf(),
        ensures
            kept(*old(self), *final(self)),
            (answer_view(r), final(self)@) == handled(
                old(self).program(),
                old(self)@,
                handle,
                actor_view(cell),
                v@,
                op@,
                ask,
            ),
            final(self)@.sh.turns == old(self)@.sh.turns,
            final(self)@.sh.limit == old(self)@.sh.limit,
    {
        let bound: usize = self.machine.arena.len();
        let owned = match copy_value(self.program, &self.machine.arena, &v, bound) {
            Ok(x) => x,
            Err(e) => {
                self.say_put_actor(handle, cell);
                return Err(conc_text(op, ": handler error: ", e.show().as_str()));
            },
        };
        assert(owned@ == value::view_of(owned));
        match owned {
            Value::Tuple(parts) => {
                let mut parts = parts;
                let ghost both = vals(parts@);
                if parts.len() == 2 {
                    let reply = parts.pop().unwrap();
                    let state = parts.pop().unwrap();
                    assert(reply@ == both[1]);
                    assert(state@ == both[0]);
                    self.say_put_actor(handle, ActorCell { state, handler: cell.handler });
                    if ask {
                        Ok(reply)
                    } else {
                        Ok(Value::Unit)
                    }
                } else {
                    self.say_put_actor(handle, cell);
                    let other = Value::Tuple(parts);
                    assert(other@ == value::view_of(other));
                    Err(
                        conc_text(
                            op,
                            ": handler must return a 2-tuple (new_state, reply), got ",
                            other.show().as_str(),
                        ),
                    )
                }
            },
            other => {
                self.say_put_actor(handle, cell);
                Err(
                    conc_text(
                        op,
                        ": handler must return a 2-tuple (new_state, reply), got ",
                        other.show().as_str(),
                    ),
                )
            },
        }
    }

    /// Sends a message to an actor.
    fn conc_message(&mut self, op: &str, ask: bool, args: &Vec<Value>) -> (out: (
        Result<Value, String>,
        Ghost<Replies>,
        Ghost<Seq<Call>>,
    ))
        requires
            old(self).wf(),
        ensures
            kept(*old(self), *final(self)),
            moved_on(old(self)@, final(self)@),
            all_valid(old(self).program(), out.2@),
            message_result(
                old(self).program(),
                old(self)@,
                op@,
                ask,
                vals(args@),
                out.1@,
                out.2@,
                answer_view(out.0),
                final(self)@,
            ),
        decreases old(self).fuel(), 5nat, Val::Unit, 0nat, 0nat,
    {
        let ghost p = self.program();
        let ghost none = Seq::<Call>::empty();
        let target = get_arg(args, 0);
        let msg = get_arg(args, 1);
        assert(target@ == value::view_of(target));
        let handle: u64 = match &target {
            Value::Actor(h) => *h,
            other => {
                return (
                    Err(conc_text(op, ": first arg must be an Actor, got ", other.show().as_str())),
                    Ghost(no_replies()),
                    Ghost(none),
                );
            },
        };
        let taken = self.ask_take_actor(handle);
        let ghost w = self@;
        let ghost rp = Replies { actor: actor_option_view(taken), ..no_replies() };
        let cell = match taken {
            Some(cell) => cell,
            None => {
                proof {
                    reveal_strlit("");
                    assert("conc."@ + op@ + ": no such actor"@ + ""@ =~= "conc."@ + op@
                        + ": no such actor"@);
                }
                return (Err(conc_text(op, ": no such actor", "")), Ghost(rp), Ghost(none));
            },
        };
        let state = cell.state.duplicate();
        match &cell.handler {
            ActorHandler::Lex(f) => {
                let f = f.duplicate();
                let ghost fv = f@;
                let call_args = vec![state, msg];
                let ghost given = vals(call_args@);
                assert(given =~= seq![actor_view(cell).state, msg@]);
                let r = self.invoke_closure_value(f, call_args);
                let ghost c = choose|c: Call| #[trigger]
                    called(p, c, Callee::Value(fv), given, w, self@, r);
                let calls: Ghost<Seq<Call>> = Ghost(none.push(c));
                match r {
                    Err(e) => {
                        self.say_put_actor(handle, cell);
                        (
                            Err(conc_text(op, ": handler error: ", e.show().as_str())),
                            Ghost(rp),
                            calls,
                        )
                    },
                    Ok(v) => {
                        let r = self.finish_message(handle, cell, op, ask, v);
                        (r, Ghost(rp), calls)
                    },
                }
            },
            ActorHandler::Native(native) => {
                let id: u64 = native.id;
                self.say_put_actor(handle, cell);
                match self.ask_native(id, msg) {
                    Ok(v) => {
                        let ghost rp = Replies { effect: Ok(v@), ..rp };
                        let reply = if ask {
                            v
                        } else {
                            Value::Unit
                        };
                        (Ok(reply), Ghost(rp), Ghost(none))
                    },
                    Err(t) => {
                        let ghost rp = Replies { effect: Err(t@), ..rp };
                        (
                            Err(conc_text(op, ": native handler error: ", t.as_str())),
                            Ghost(rp),
                            Ghost(none),
                        )
                    },
                }
            },
        }
    }

    /// Carries out an op on actors.
    fn run_conc_op(&mut self, op: &str, args: &Vec<Value>) -> (out: (
        Result<Value, String>,
        Ghost<Replies>,
        Ghost<Seq<Call>>,
    ))
        requires
            old(self).wf(),
        ensures
            kept(*old(self), *final(self)),
            moved_on(old(self)@, final(self)@),
            all_valid(old(self).program(), out.2@),
            conc_result(
                old(self).program(),
                old(self)@,
                op@,
                vals(args@),
                out.1@,
                out.2@,
                answer_view(out.0),
                final(self)@,
            ),
        decreases old(self).fuel(), 6nat, Val::Unit, 0nat, 0nat,
    {
        let ghost none = Seq::<Call>::empty();
        let (r, rp) = if same_text(op, "spawn") {
            self.conc_spawn(args)
        } else if same_text(op, "ask") {
            return self.conc_message(op, true, args);
        } else if same_text(op, "tell") {
            return self.conc_message(op, false, args);
        } else if same_text(op, "register") {
            self.conc_register(args)
        } else if same_text(op, "lookup") {
            self.conc_lookup(args)
        } else if same_text(op, "unregister") {
            self.conc_unregister(args)
        } else if same_text(op, "registered") {
            self.conc_registered()
        } else {
            (Err("unknown conc.".to_owned().concat(op)), Ghost(no_replies()))
        };
        (r, rp, Ghost(none))
    }

    /// The record of a parse error.
    fn parse_error_record(&mut self, pos: usize, text: String) -> (out: (Value, Ghost<Replies>))
        requires
            old(self).wf(),
        ensures
            kept(*old(self), *final(self)),
            ({
                let e = parse_error(out.1@.shapes, pos as nat, text@);
                &&& out.0@ == e.0
                &&& final(self)@ == shapes_changed(old(self)@, out.1@, e.1)
                &&& out.1@ == (Replies { shapes: out.1@.shapes, ..no_replies() })
            }),
    {
        let fields = vec![
            Field { name: "pos".to_owned(), value: Value::Int(pos as i64) },
            Field { name: "message".to_owned(), value: Value::Str(text) },
        ];
        assert(field_names(fields@) =~= parse_error_names());
        assert(field_vals(fields@) =~= seq![Val::Int(pos as i64), Val::Str(text@)]);
        let mut shapes = self.ask_take_shapes();
        let ghost rp = Replies { shapes: shapes@, ..no_replies() };
        let v = if shapes.has_room() {
            Value::record_dynamic(fields, &mut shapes)
        } else {
            Value::Record { shape_id: NO_SHAPE_ID, fields }
        };
        self.say_put_shapes(shapes);
        (v, Ghost(rp))
    }

    /// Runs a parser on a text.
    fn run_parser_op(&mut self, args: &Vec<Value>) -> (out: (
        Result<Value, String>,
        Ghost<Replies>,
        Ghost<Seq<Call>>,
    ))
        requires
            old(self).wf(),
        ensures
            kept(*old(self), *final(self)),
            moved_on(old(self)@, final(self)@),
            all_valid(old(self).program(), out.2@),
            out.1@.overridden is None,
            parser_result(
                old(self)@,
                vals(args@),
                out.1@,
                out.2@,
                answer_view(out.0),
                final(self)@,
            ),
        decreases old(self).fuel(), 7nat, Val::Unit, 0nat, 0nat,
    {
        if args.len() == 0 {
            let r = Err("parser.run: missing parser arg".to_owned());
            return (r, Ghost(no_replies()), Ghost(Seq::empty()));
        }
        let input = match get_arg_text(args, 1) {
            Some(input) => input,
            None => {
                let r = Err("parser.run: input must be Str".to_owned());
                return (r, Ghost(no_replies()), Ghost(Seq::empty()));
            },
        };
        let (r, calls) = self.run_parser_from_start(&args[0], input.as_str());
        match r {
            Ok((v, _)) => (Ok(variant_ok(v)), Ghost(no_replies()), calls),
            Err((pos, text)) => {
                let (e, rp) = self.parse_error_record(pos, text);
                (Ok(variant_err(e)), rp, calls)
            },
        }
    }

    /// Carries out an effect.
    pub(crate) fn op_effect_call(
        &mut self,
        kind_idx: u32,
        op_idx: u32,
        arity: u16,
        node_id_idx: u32,
    ) -> (out: (Result<Option<Value>, VmError>, Ghost<Replies>, Ghost<Seq<Call>>))
        requires
            old(self).wf(),
            running(old(self).machine_of()),
        ensures
            kept(*old(self), *final(self)),
            moved_on(old(self)@, final(self)@),
            all_valid(old(self).program(), out.2@),
            effect_acts(
                old(self).program(),
                old(self)@,
                kind_idx,
                op_idx,
                arity,
                node_id_idx,
                out.1@,
                out.2@,
                act_of(out.0, final(self)@),
            ),
        decreases old(self).fuel(), 7nat, Val::Unit, 1nat, 0nat,
    {
        let ghost p = self.program();
        let ghost w = self@;
        let ghost none = Seq::<Call>::empty();
        let n: usize = arity as usize;
        if self.machine.stack.len() < n {
            return (Err(VmError::StackUnderflow), Ghost(no_replies()), Ghost(none));
        }
        let program = self.program;
        self.machine.advance(1);
        let given = self.machine.take_top(n);
        let ghost w0 = self@;
        let bound: usize = self.machine.arena.len();
        let args = if bound == 0 {
            given
        } else {
            match copy_list(program, &self.machine.arena, &given, bound) {
                Ok(args) => args,
                Err(e) => return (Err(e), Ghost(no_replies()), Ghost(none)),
            }
        };
        assert(effect_args(p, w.m, arity) == Ok::<Seq<Val>, Fault>(vals(args@)));
        let kind = match get_str_const(program, kind_idx, "expected Str const for effect kind") {
            Ok(kind) => kind,
            Err(e) => return (Err(e), Ghost(no_replies()), Ghost(none)),
        };
        let op = match get_str_const(program, op_idx, "expected Str const for effect op") {
            Ok(op) => op,
            Err(e) => return (Err(e), Ghost(no_replies()), Ghost(none)),
        };
        let node = const_str(program, node_id_idx);
        self.say_enter_effect(node.as_str(), kind.as_str(), op.as_str(), &args);
        let overridden = self.ask_override(node.as_str());
        let ghost given = vals(args@);
        let ghost w2 = self@;
        let (result, rp, calls): (Result<Value, String>, Ghost<Replies>, Ghost<Seq<Call>>) =
            match overridden {
            Some(v) => {
                let ghost rp = Replies { overridden: Some(v@), ..no_replies() };
                (Ok(v), Ghost(rp), Ghost(none))
            },
            None => if same_text(kind.as_str(), "parser") && same_text(op.as_str(), "run") {
                let (r, rp, calls) = self.run_parser_op(&args);
                (r, rp, calls)
            } else if same_text(kind.as_str(), "conc") {
                let (r, rp, calls) = self.run_conc_op(op.as_str(), &args);
                (r, Ghost(Replies { overridden: None, ..rp@ }), calls)
            } else {
                let r = self.ask_handler(kind.as_str(), op.as_str(), args);
                let ghost rp = Replies { effect: answer_view(r), ..no_replies() };
                (r, Ghost(rp), Ghost(none))
            },
        };
        proof {
            assert(effect_result(
                p,
                w2,
                kind@,
                op@,
                given,
                rp@,
                calls@,
                answer_view(result),
                self@,
            ));
        }
        let ghost w1 = self@;
        let ghost answer = answer_view(result);
        let r: Result<Option<Value>, VmError> = match result {
            Ok(v) => {
                self.say_exit_ok(&v);
                self.machine.push(v);
                Ok(None)
            },
            Err(t) => {
                self.say_exit_err(t.as_str());
                Err(VmError::Effect(t))
            },
        };
        proof {
            let act = act_of(r, self@);
            let k = str_const(p, kind_idx, "expected Str const for effect kind"@);
            let o = str_const(p, op_idx, "expected Str const for effect op"@);
            let a = effect_args(p, w.m, arity);
            assert(k->Ok_0 == kind@);
            assert(o->Ok_0 == op@);
            assert(a->Ok_0 == given);
            assert(w2 == announced(p, w0, kind@, op@, given, node_id_idx, rp@));
            assert(w0 == taken(w, arity as nat));
            assert(effect_ends(
                p,
                announced(p, w0, k->Ok_0, o->Ok_0, a->Ok_0, node_id_idx, rp@),
                k->Ok_0,
                o->Ok_0,
                a->Ok_0,
                rp@,
                calls@,
                answer,
                w1,
                act,
            ));
        }
        (r, rp, calls)
    }
}

} // verus!
