//! The interpreter of parser values.
//!
//! A parser is a record with a `kind`. The kinds `Map` and `AndThen` carry a
//! closure; a [`ClosureCaller`] calls it.

use vstd::prelude::*;

use crate::text::{bytes_of, same_text};
use crate::value;
use crate::value::{vals, Val, Value};
use crate::value_ops::{find_field, find_name};

verus! {

broadcast use crate::value::lemma_view;

/// Calls closures for the interpreter.
pub trait ClosureCaller {
    /// The caller can be asked.
    open spec fn ready(&self) -> bool {
        true
    }

    /// What a call may answer, and what becomes of the caller.
    open spec fn may_answer(
        &self,
        closure: Val,
        args: Seq<Val>,
        answer: Result<Val, Seq<char>>,
        after: &Self,
    ) -> bool {
        true
    }

    fn call_closure(&mut self, closure: Value, args: Vec<Value>) -> (r: Result<Value, String>)
        requires
            old(self).ready(),
        ensures
            final(self).ready(),
            old(self).may_answer(closure@, vals(args@), answer_view(r), final(self)),
    ;
}

/// A value and the position behind it, or a position and why the parser failed
/// there.
pub type Parsed = Result<(Val, nat), (nat, Seq<char>)>;

/// A closure that was called on a value, and what came back.
pub struct Reply {
    pub closure: Val,
    pub arg: Val,
    pub answer: Result<Val, Seq<char>>,
}

/// The reply is what a caller answered, and left the caller behind; behind
/// `usize::MAX` calls nobody is asked any more.
pub open spec fn replied<C: ClosureCaller>(before: C, k: nat, reply: Reply, after: C) -> bool {
    if k < usize::MAX {
        before.may_answer(reply.closure, seq![reply.arg], reply.answer, &after)
    } else {
        after == before && reply.answer == Err::<Val, Seq<char>>("too many closure calls"@)
    }
}

/// The replies are what a caller answered, one call after the other.
pub open spec fn answered<C: ClosureCaller>(first: C, replies: Seq<Reply>, last: C) -> bool
    decreases replies.len(),
{
    if replies.len() == 0 {
        last == first
    } else {
        exists|mid: C|
            answered(first, replies.drop_last(), mid) && #[trigger] replied(
                mid,
                (replies.len() - 1) as nat,
                replies.last(),
                last,
            )
    }
}

/// The text of a string literal that denotes a text.
pub uninterp spec fn quoted(s: Seq<char>) -> Seq<char>;

/// Trusted: `<str as Debug>::fmt` depends on the text alone.
#[verifier::external_body]
pub(crate) fn quote(s: &str) -> (q: String)
    ensures
        q@ == quoted(s@),
{
    format!("{s:?}")
}

/// Trusted: `<String as From<char>>::from` gives the text of one character.
#[verifier::external_body]
fn one_char(c: char) -> (s: String)
    ensures
        s@ == seq![c],
{
    String::from(c)
}

/// A field of a record.
pub open spec fn member(node: Val, name: Seq<char>) -> Option<Val> {
    match node {
        Val::Record { names, values, .. } => match find_name(names, name) {
            Some(i) => if 0 <= i < values.len() {
                Some(values[i])
            } else {
                None
            },
            None => None,
        },
        _ => None,
    }
}

/// A field of a record that holds a text.
pub open spec fn text_member(node: Val, name: Seq<char>) -> Option<Seq<char>> {
    match member(node, name) {
        Some(Val::Str(s)) => Some(s),
        _ => None,
    }
}

/// The input has some bytes at a position.
pub open spec fn has_at(input: Seq<u8>, pos: nat, want: Seq<u8>) -> bool {
    pos + want.len() <= input.len() && input.subrange(pos as int, (pos + want.len()) as int) == want
}

pub open spec fn is_digit(b: u8) -> bool {
    0x30 <= b <= 0x39
}

pub open spec fn is_alpha(b: u8) -> bool {
    0x41 <= b <= 0x5a || 0x61 <= b <= 0x7a
}

pub open spec fn is_space(b: u8) -> bool {
    b == 0x20 || b == 0x09 || b == 0x0a || b == 0x0c || b == 0x0d
}

/// One byte of a class.
pub open spec fn one_of(input: Seq<u8>, pos: nat, hit: bool, expected: Seq<char>) -> Parsed {
    if pos < input.len() && hit {
        Ok((Val::Str(seq![input[pos as int] as char]), pos + 1))
    } else {
        Err((pos, expected))
    }
}

pub open spec fn parse_char(node: Val, input: Seq<u8>, pos: nat) -> Parsed {
    match text_member(node, "ch"@) {
        None => Err((pos, "char: missing ch"@)),
        Some(want) => if pos + bytes_of(want).len() > input.len() {
            Err((pos, "expected "@ + quoted(want) + ", got EOF"@))
        } else if has_at(input, pos, bytes_of(want)) {
            Ok((Val::Str(want), pos + bytes_of(want).len()))
        } else {
            Err((pos, "expected "@ + quoted(want)))
        },
    }
}

pub open spec fn parse_string(node: Val, input: Seq<u8>, pos: nat) -> Parsed {
    match text_member(node, "s"@) {
        None => Err((pos, "string: missing s"@)),
        Some(want) => if has_at(input, pos, bytes_of(want)) {
            Ok((Val::Str(want), pos + bytes_of(want).len()))
        } else {
            Err((pos, "expected "@ + quoted(want)))
        },
    }
}

/// A parser without parts.
pub open spec fn parse_leaf(kind: Seq<char>, node: Val, input: Seq<u8>, pos: nat) -> Parsed {
    if kind == "Char"@ {
        parse_char(node, input, pos)
    } else if kind == "String"@ {
        parse_string(node, input, pos)
    } else if kind == "Digit"@ {
        one_of(input, pos, is_digit(input[pos as int]), "expected digit"@)
    } else if kind == "Alpha"@ {
        one_of(input, pos, is_alpha(input[pos as int]), "expected alpha"@)
    } else if kind == "Whitespace"@ {
        one_of(input, pos, is_space(input[pos as int]), "expected whitespace"@)
    } else if kind == "Eof"@ {
        if pos == input.len() {
            Ok((Val::Unit, pos))
        } else {
            Err((pos, "expected EOF"@))
        }
    } else {
        Err((pos, "unknown parser kind: "@ + quoted(kind)))
    }
}

pub open spec fn remaining(n: nat, at: nat) -> nat {
    if at < n {
        (n - at) as nat
    } else {
        0
    }
}

/// The later of two places.
pub open spec fn onward(at: nat, n: nat) -> nat {
    if n < at {
        at
    } else {
        n
    }
}

/// The reply at a place, if it answers the call of `closure` on `arg`.
pub open spec fn reply_to(replies: Seq<Reply>, at: nat, closure: Val, arg: Val) -> Option<
    Result<Val, Seq<char>>,
> {
    if at < replies.len() && replies[at as int].closure == closure
        && replies[at as int].arg == arg {
        Some(replies[at as int].answer)
    } else {
        None
    }
}

/// What a parser makes of the input from a position on, where the closures that
/// it calls get the replies from place `at` on. The second result is the place
/// of the next reply. There is no result if the replies are not those to the
/// calls that the parser makes.
pub open spec fn parse(
    node: Val,
    input: Seq<u8>,
    pos: nat,
    replies: Seq<Reply>,
    at: nat,
) -> Option<(Parsed, nat)>
    decreases remaining(replies.len(), at), node, 0nat, 0nat,
{
    match (node, text_member(node, "kind"@)) {
        (Val::Record { .. }, Some(kind)) => if kind == "Seq"@ {
            match (member(node, "a"@), member(node, "b"@)) {
                (None, _) => Some((Err((pos, "seq: missing a"@)), at)),
                (_, None) => Some((Err((pos, "seq: missing b"@)), at)),
                (Some(a), Some(b)) => match parse(a, input, pos, replies, at) {
                    Some((Ok((va, p1)), n)) => match parse(b, input, p1, replies, onward(at, n)) {
                        Some((Ok((vb, p2)), m)) => Some((Ok((Val::Tuple(seq![va, vb]), p2)), m)),
                        other => other,
                    },
                    other => other,
                },
            }
        } else if kind == "Alt"@ {
            match (member(node, "a"@), member(node, "b"@)) {
                (None, _) => Some((Err((pos, "alt: missing a"@)), at)),
                (_, None) => Some((Err((pos, "alt: missing b"@)), at)),
                (Some(a), Some(b)) => match parse(a, input, pos, replies, at) {
                    Some((Err(_), n)) => parse(b, input, pos, replies, onward(at, n)),
                    other => other,
                },
            }
        } else if kind == "Many"@ {
            match member(node, "p"@) {
                None => Some((Err((pos, "many: missing p"@)), at)),
                Some(p) => parse_many(p, input, pos, Seq::empty(), replies, at),
            }
        } else if kind == "Optional"@ {
            match member(node, "p"@) {
                None => Some((Err((pos, "optional: missing p"@)), at)),
                Some(p) => match parse(p, input, pos, replies, at) {
                    Some((Ok((v, np)), n)) => Some(
                        (Ok((Val::Variant { name: "Some"@, args: seq![v] }, np)), n),
                    ),
                    Some((Err(_), n)) => Some(
                        (Ok((Val::Variant { name: "None"@, args: Seq::empty() }, pos)), n),
                    ),
                    None => None,
                },
            }
        } else if kind == "Map"@ {
            match (member(node, "p"@), member(node, "f"@)) {
                (None, _) => Some((Err((pos, "map: missing p"@)), at)),
                (_, None) => Some((Err((pos, "map: missing f"@)), at)),
                (Some(p), Some(f)) => match parse(p, input, pos, replies, at) {
                    Some((Ok((v, np)), n)) => match reply_to(replies, n, f, v) {
                        Some(Ok(mapped)) => Some((Ok((mapped, np)), n + 1)),
                        Some(Err(e)) => Some((Err((pos, "map: closure failed: "@ + e)), n + 1)),
                        None => None,
                    },
                    other => other,
                },
            }
        } else if kind == "AndThen"@ {
            match (member(node, "p"@), member(node, "f"@)) {
                (None, _) => Some((Err((pos, "and_then: missing p"@)), at)),
                (_, None) => Some((Err((pos, "and_then: missing f"@)), at)),
                (Some(p), Some(f)) => match parse(p, input, pos, replies, at) {
                    Some((Ok((v, np)), n)) => match reply_to(replies, n, f, v) {
                        Some(Ok(then)) => if at <= n {
                            parse(then, input, np, replies, n + 1)
                        } else {
                            None
                        },
                        Some(Err(e)) => Some((Err((np, "and_then: closure failed: "@ + e)), n + 1)),
                        None => None,
                    },
                    other => other,
                },
            }
        } else {
            Some((parse_leaf(kind, node, input, pos), at))
        },
        (Val::Record { .. }, None) => Some((Err((pos, "parser: malformed node (no kind)"@)), at)),
        _ => Some((Err((pos, "parser: expected Parser node"@)), at)),
    }
}

/// A parser applied as often as it succeeds and moves on.
pub open spec fn parse_many(
    p: Val,
    input: Seq<u8>,
    cur: nat,
    out: Seq<Val>,
    replies: Seq<Reply>,
    at: nat,
) -> Option<(Parsed, nat)>
    decreases remaining(replies.len(), at), p, 1nat, remaining(input.len(), cur),
{
    match parse(p, input, cur, replies, at) {
        None => None,
        Some((Ok((v, np)), n)) => if cur < np <= input.len() {
            parse_many(p, input, np, out.push(v), replies, onward(at, n))
        } else {
            Some((Ok((Val::List(out), cur)), n))
        },
        Some((Err(_), n)) => Some((Ok((Val::List(out), cur)), n)),
    }
}

/// Longer replies that start with the replies that were used give the same
/// result.
pub proof fn lemma_parse(
    node: Val,
    input: Seq<u8>,
    pos: nat,
    short: Seq<Reply>,
    long: Seq<Reply>,
    at: nat,
)
    requires
        short.len() <= long.len(),
        long.take(short.len() as int) == short,
    ensures
        parse(node, input, pos, short, at) matches Some((r, n)) ==> at <= n && (n <= short.len()
            ==> parse(node, input, pos, long, at) == Some((r, n))),
    decreases remaining(short.len(), at), node, 0nat, 0nat,
{
    assert forall|i: int| 0 <= i < short.len() implies short[i] == long[i] by {
        assert(long.take(short.len() as int)[i] == long[i]);
    }
    match (node, text_member(node, "kind"@)) {
        (Val::Record { .. }, Some(kind)) => {
            let a = member(node, "a"@);
            let b = member(node, "b"@);
            let p = member(node, "p"@);
            if (kind == "Seq"@ || kind == "Alt"@) && a is Some && b is Some {
                lemma_parse(a->0, input, pos, short, long, at);
                match parse(a->0, input, pos, short, at) {
                    Some((Ok((va, p1)), n)) => {
                        if kind == "Seq"@ {
                            lemma_parse(b->0, input, p1, short, long, n);
                        }
                    },
                    Some((Err(_), n)) => {
                        lemma_parse(b->0, input, pos, short, long, n);
                    },
                    None => {},
                }
            } else if kind == "Many"@ && p is Some {
                lemma_parse_many(p->0, input, pos, Seq::empty(), short, long, at);
            } else if p is Some {
                lemma_parse(p->0, input, pos, short, long, at);
                let f = member(node, "f"@);
                if kind == "AndThen"@ && f is Some {
                    match parse(p->0, input, pos, short, at) {
                        Some((Ok((v, np)), n)) => match reply_to(short, n, f->0, v) {
                            Some(Ok(then)) => {
                                lemma_parse(then, input, np, short, long, n + 1);
                            },
                            _ => {},
                        },
                        _ => {},
                    }
                }
            }
        },
        _ => {},
    }
}

proof fn lemma_parse_many(
    p: Val,
    input: Seq<u8>,
    cur: nat,
    out: Seq<Val>,
    short: Seq<Reply>,
    long: Seq<Reply>,
    at: nat,
)
    requires
        short.len() <= long.len(),
        long.take(short.len() as int) == short,
    ensures
        parse_many(p, input, cur, out, short, at) matches Some((r, n)) ==> at <= n && (n
            <= short.len() ==> parse_many(p, input, cur, out, long, at) == Some((r, n))),
    decreases remaining(short.len(), at), p, 1nat, remaining(input.len(), cur),
{
    lemma_parse(p, input, cur, short, long, at);
    match parse(p, input, cur, short, at) {
        Some((Ok((v, np)), n)) => {
            if cur < np <= input.len() {
                lemma_parse_many(p, input, np, out.push(v), short, long, n);
            }
        },
        _ => {},
    }
}

/// A result, seen as a mathematical object.
pub open spec fn parsed(r: Result<(Value, usize), (usize, String)>) -> Parsed {
    match r {
        Ok((v, pos)) => Ok((v@, pos as nat)),
        Err((pos, text)) => Err((pos as nat, text@)),
    }
}

/// The field of a parser node.
pub(crate) fn get_member<'a>(node: &'a Value, name: &str) -> (m: Option<&'a Value>)
    ensures
        m is Some <==> member(node@, name@) is Some,
        m matches Some(v) ==> member(node@, name@) == Some(v@),
        m matches Some(v) ==> decreases_to!(*node => *v),
{
    assert(node@ == value::view_of(*node));
    match node {
        Value::Record { fields, .. } => match find_field(fields, name) {
            Some(i) => Some(&fields[i].value),
            None => None,
        },
        _ => None,
    }
}

/// The text in a field of a parser node.
pub(crate) fn get_text_member<'a>(node: &'a Value, name: &str) -> (m: Option<&'a String>)
    ensures
        m is Some <==> text_member(node@, name@) is Some,
        m matches Some(v) ==> text_member(node@, name@) == Some(v@),
{
    match get_member(node, name) {
        Some(v) => {
            assert(v@ == value::view_of(*v));
            match v {
                Value::Str(s) => Some(s),
                _ => None,
            }
        },
        None => None,
    }
}

/// Whether the input has some bytes at a position.
fn bytes_at(input: &[u8], pos: usize, want: &[u8]) -> (yes: bool)
    ensures
        yes <==> has_at(input@, pos as nat, want@),
{
    let n: usize = input.len();
    if pos > n || want.len() > n - pos {
        return false;
    }
    let mut i: usize = 0;
    while i < want.len()
        invariant
            i <= want.len(),
            pos + want.len() <= input.len(),
            forall|j: int| 0 <= j < i ==> input@[pos + j] == want@[j],
        decreases want.len() - i,
    {
        if input[pos + i] != want[i] {
            assert(input@.subrange(pos as int,
                (pos + want@.len()) as int)[i as int] != want@[i as int]);
            return false;
        }
        i = i + 1;
    }
    assert(input@.subrange(pos as int, (pos + want@.len()) as int) =~= want@);
    true
}

fn expected_text(want: &str, rest: &str) -> (t: String)
    ensures
        t@ == "expected "@ + quoted(want@) + rest@,
{
    let mut t = "expected ".to_owned();
    t.append(quote(want).as_str());
    t.append(rest);
    t
}

/// Reads one byte of a class.
fn run_one_of(input: &[u8], pos: usize, hit: bool, expected: &str) -> (r: Result<
    (Value, usize),
    (usize, String),
>)
    requires
        hit ==> pos < input@.len() && input@[pos as int] < 0x80,
    ensures
        parsed(r) == one_of(input@, pos as nat, hit, expected@),
{
    if hit {
        let s = one_char(input[pos] as char);
        Ok((Value::Str(s), pos + 1))
    } else {
        Err((pos, expected.to_owned()))
    }
}

/// Runs a parser without parts.
pub(crate) fn run_leaf(kind: &str, node: &Value, text: &str, pos: usize) -> (r: Result<
    (Value, usize),
    (usize, String),
>)
    ensures
        parsed(r) == parse_leaf(kind@, node@, bytes_of(text@), pos as nat),
{
    let input = text.as_bytes();
    let n: usize = input.len();
    if same_text(kind, "Char") {
        match get_text_member(node, "ch") {
            None => Err((pos, "char: missing ch".to_owned())),
            Some(want) => {
                let w = want.as_str().as_bytes();
                if pos > n || w.len() > n - pos {
                    Err((pos, expected_text(want.as_str(), ", got EOF")))
                } else if bytes_at(input, pos, w) {
                    Ok((Value::Str(want.clone()), pos + w.len()))
                } else {
                    let t = expected_text(want.as_str(), "");
                    proof {
                        reveal_strlit("");
                        assert("expected "@ + quoted(want@) + ""@ =~= "expected "@ + quoted(want@));
                    }
                    Err((pos, t))
                }
            },
        }
    } else if same_text(kind, "String") {
        match get_text_member(node, "s") {
            None => Err((pos, "string: missing s".to_owned())),
            Some(want) => {
                let w = want.as_str().as_bytes();
                if bytes_at(input, pos, w) {
                    Ok((Value::Str(want.clone()), pos + w.len()))
                } else {
                    let t = expected_text(want.as_str(), "");
                    proof {
                        reveal_strlit("");
                        assert("expected "@ + quoted(want@) + ""@ =~= "expected "@ + quoted(want@));
                    }
                    Err((pos, t))
                }
            },
        }
    } else if same_text(kind, "Digit") {
        let hit = pos < n && input[pos] >= 0x30 && input[pos] <= 0x39;
        run_one_of(input, pos, hit, "expected digit")
    } else if same_text(kind, "Alpha") {
        let hit = pos < n && ((input[pos] >= 0x41 && input[pos] <= 0x5a) || (input[pos] >= 0x61
            && input[pos] <= 0x7a));
        run_one_of(input, pos, hit, "expected alpha")
    } else if same_text(kind, "Whitespace") {
        let hit = pos < n && (input[pos] == 0x20 || input[pos] == 0x09 || input[pos] == 0x0a
            || input[pos] == 0x0c || input[pos] == 0x0d);
        run_one_of(input, pos, hit, "expected whitespace")
    } else if same_text(kind, "Eof") {
        if pos == n {
            Ok((Value::Unit, pos))
        } else {
            Err((pos, "expected EOF".to_owned()))
        }
    } else {
        let mut t = "unknown parser kind: ".to_owned();
        t.append(quote(kind).as_str());
        Err((pos, t))
    }
}

/// Replies that start with earlier ones.
pub open spec fn extends(long: Seq<Reply>, short: Seq<Reply>) -> bool {
    short.len() <= long.len() && long.take(short.len() as int) == short
}

pub proof fn lemma_extends(a: Seq<Reply>, b: Seq<Reply>, c: Seq<Reply>)
    requires
        extends(b, a),
        extends(c, b),
    ensures
        extends(c, a),
{
    assert(c.take(a.len() as int) =~= b.take(a.len() as int)) by {
        assert forall|i: int| 0 <= i < a.len() implies c[i] == b[i] by {
            assert(c.take(b.len() as int)[i] == c[i]);
        }
    }
}

pub proof fn lemma_extends_push(a: Seq<Reply>, r: Reply)
    ensures
        extends(a.push(r), a),
        extends(a, a),
{
    assert(a.push(r).take(a.len() as int) =~= a);
    assert(a.take(a.len() as int) =~= a);
}

/// A walk over a parser came to this result with these replies.
pub open spec fn walked(
    node: Val,
    input: Seq<u8>,
    pos: nat,
    before: Seq<Reply>,
    after: Seq<Reply>,
    r: Result<(Value, usize), (usize, String)>,
) -> bool {
    extends(after, before) && parse(node, input, pos, after, before.len()) == Some(
        (parsed(r), after.len()),
    )
}

/// The variant `Some(v)`.
pub(crate) fn some_variant(v: Value) -> (s: Value)
    ensures
        s@ == (Val::Variant { name: "Some"@, args: seq![v@] }),
{
    let args = vec![v];
    assert(vals(args@) =~= seq![v@]);
    Value::Variant { name: "Some".to_owned(), args }
}

/// The variant `None`.
pub(crate) fn none_variant() -> (s: Value)
    ensures
        s@ == (Val::Variant { name: "None"@, args: Seq::empty() }),
{
    let args: Vec<Value> = Vec::new();
    assert(vals(args@) =~= Seq::<Val>::empty());
    Value::Variant { name: "None".to_owned(), args }
}

/// The pair of two values.
pub(crate) fn pair(a: Value, b: Value) -> (t: Value)
    ensures
        t@ == Val::Tuple(seq![a@, b@]),
{
    let items = vec![a, b];
    assert(vals(items@) =~= seq![a@, b@]);
    Value::Tuple(items)
}

pub(crate) fn fail_at(pos: usize, text: &str) -> (r: Result<(Value, usize), (usize, String)>)
    ensures
        parsed(r) == Err::<(Val, nat), (nat, Seq<char>)>((pos as nat, text@)),
{
    Err((pos, text.to_owned()))
}

/// One more reply.
proof fn lemma_answered_more<C: ClosureCaller>(
    first: C,
    replies: Seq<Reply>,
    mid: C,
    reply: Reply,
    last: C,
)
    requires
        answered(first, replies, mid),
        replied(mid, replies.len(), reply, last),
    ensures
        answered(first, replies.push(reply), last),
{
    let more = replies.push(reply);
    assert(more.drop_last() =~= replies);
    assert(answered(first, more.drop_last(), mid) && replied(
        mid,
        (more.len() - 1) as nat,
        more.last(),
        last,
    ));
}

/// How many calls are left behind these replies.
spec fn made(replies: Seq<Reply>, left: usize) -> bool {
    if replies.len() < usize::MAX {
        left == usize::MAX - replies.len()
    } else {
        left == 0
    }
}

/// Calls a closure on a value, as long as calls are left, and writes the reply
/// down.
fn ask<C: ClosureCaller>(
    caller: &mut C,
    left: &mut usize,
    closure: Value,
    arg: Value,
    before: Ghost<Seq<Reply>>,
    first: Ghost<C>,
) -> (out: (Result<Value, String>, Ghost<Seq<Reply>>))
    requires
        old(caller).ready(),
        answered(first@, before@, *old(caller)),
        made(before@, *old(left)),
    ensures
        final(caller).ready(),
        answered(first@, out.1@, *final(caller)),
        made(out.1@, *final(left)),
        *final(left) <= *old(left),
        out.0 is Ok ==> *final(left) < *old(left),
        out.1@ == before@.push(
            Reply { closure: closure@, arg: arg@, answer: answer_view(out.0) },
        ),
{
    let ghost f = closure@;
    let ghost x = arg@;
    let ghost c = *caller;
    let answer = if *left == 0 {
        Err("too many closure calls".to_owned())
    } else {
        *left = *left - 1;
        let args = vec![arg];
        assert(vals(args@) =~= seq![x]);
        caller.call_closure(closure, args)
    };
    let after: Ghost<Seq<Reply>> = Ghost(
        before@.push(Reply { closure: f, arg: x, answer: answer_view(answer) }),
    );
    proof {
        assert(replied(c, before@.len(), after@.last(), *caller));
        lemma_answered_more(first@, before@, c, after@.last(), *caller);
    }
    (answer, after)
}

fn walk<C: ClosureCaller>(
    node: &Value,
    input: &str,
    pos: usize,
    caller: &mut C,
    left: &mut usize,
    before: Ghost<Seq<Reply>>,
    first_caller: Ghost<C>,
) -> (out: (Result<(Value, usize), (usize, String)>, Ghost<Seq<Reply>>))
    requires
        old(caller).ready(),
        answered(first_caller@, before@, *old(caller)),
        made(before@, *old(left)),
    ensures
        final(caller).ready(),
        answered(first_caller@, out.1@, *final(caller)),
        made(out.1@, *final(left)),
        walked(node@, bytes_of(input@), pos as nat, before@, out.1@, out.0),
        *final(left) <= *old(left),
    decreases *old(left), node, 0nat,
{
    let ghost bytes = bytes_of(input@);
    proof {
        lemma_extends_push(before@, arbitrary());
        assert(node@ == value::view_of(*node));
    }
    if let Value::Record { .. } = node {
    } else {
        return (fail_at(pos, "parser: expected Parser node"), before);
    }
    let kind = match get_text_member(node, "kind") {
        Some(kind) => kind.as_str(),
        None => return (fail_at(pos, "parser: malformed node (no kind)"), before),
    };
    if same_text(kind, "Seq") {
        let a = match get_member(node, "a") {
            Some(a) => a,
            None => return (fail_at(pos, "seq: missing a"), before),
        };
        let b = match get_member(node, "b") {
            Some(b) => b,
            None => return (fail_at(pos, "seq: missing b"), before),
        };
        let (r, first) = walk(a, input, pos, caller, left, before, first_caller);
        match r {
            Ok((va, p1)) => {
                let (r, second) = walk(b, input, p1, caller, left, first, first_caller);
                proof {
                    lemma_parse(a@, bytes, pos as nat, first@, second@, before@.len());
                    lemma_extends(before@, first@, second@);
                }
                match r {
                    Ok((vb, p2)) => (Ok((pair(va, vb), p2)), second),
                    Err(e) => (Err(e), second),
                }
            },
            Err(e) => (Err(e), first),
        }
    } else if same_text(kind, "Alt") {
        let a = match get_member(node, "a") {
            Some(a) => a,
            None => return (fail_at(pos, "alt: missing a"), before),
        };
        let b = match get_member(node, "b") {
            Some(b) => b,
            None => return (fail_at(pos, "alt: missing b"), before),
        };
        let (r, first) = walk(a, input, pos, caller, left, before, first_caller);
        match r {
            Ok(done) => (Ok(done), first),
            Err(_) => {
                let (r, second) = walk(b, input, pos, caller, left, first, first_caller);
                proof {
                    lemma_parse(a@, bytes, pos as nat, first@, second@, before@.len());
                    lemma_extends(before@, first@, second@);
                }
                (r, second)
            },
        }
    } else if same_text(kind, "Many") {
        let p = match get_member(node, "p") {
            Some(p) => p,
            None => return (fail_at(pos, "many: missing p"), before),
        };
        walk_many(p, input, pos, caller, left, before, first_caller)
    } else if same_text(kind, "Optional") {
        let p = match get_member(node, "p") {
            Some(p) => p,
            None => return (fail_at(pos, "optional: missing p"), before),
        };
        let (r, first) = walk(p, input, pos, caller, left, before, first_caller);
        match r {
            Ok((v, np)) => (Ok((some_variant(v), np)), first),
            Err(_) => (Ok((none_variant(), pos)), first),
        }
    } else if same_text(kind, "Map") {
        let p = match get_member(node, "p") {
            Some(p) => p,
            None => return (fail_at(pos, "map: missing p"), before),
        };
        let f = match get_member(node, "f") {
            Some(f) => f.duplicate(),
            None => return (fail_at(pos, "map: missing f"), before),
        };
        let (r, first) = walk(p, input, pos, caller, left, before, first_caller);
        match r {
            Ok((v, np)) => {
                let ghost fv = f@;
                let ghost arg = v@;
                let (answer, second) = ask(caller, left, f, v, first, first_caller);
                let ghost reply = Reply { closure: fv, arg, answer: answer_view(answer) };
                proof {
                    lemma_extends_push(first@, reply);
                    lemma_extends(before@, first@, second@);
                    lemma_parse(p@, bytes, pos as nat, first@, second@, before@.len());
                }
                match answer {
                    Ok(mapped) => (Ok((mapped, np)), second),
                    Err(e) => (
                        Err((pos, "map: closure failed: ".to_owned().concat(e.as_str()))),
                        second,
                    ),
                }
            },
            Err(e) => (Err(e), first),
        }
    } else if same_text(kind, "AndThen") {
        let p = match get_member(node, "p") {
            Some(p) => p,
            None => return (fail_at(pos, "and_then: missing p"), before),
        };
        let f = match get_member(node, "f") {
            Some(f) => f.duplicate(),
            None => return (fail_at(pos, "and_then: missing f"), before),
        };
        let (r, first) = walk(p, input, pos, caller, left, before, first_caller);
        match r {
            Ok((v, np)) => {
                let ghost fv = f@;
                let ghost arg = v@;
                let (answer, second) = ask(caller, left, f, v, first, first_caller);
                let ghost reply = Reply { closure: fv, arg, answer: answer_view(answer) };
                proof {
                    lemma_extends_push(first@, reply);
                    lemma_extends(before@, first@, second@);
                    lemma_parse(p@, bytes, pos as nat, first@, second@, before@.len());
                }
                match answer {
                    Ok(then) => {
                        let (r, third) = walk(&then, input, np, caller, left, second, first_caller);
                        proof {
                            lemma_extends(first@, second@, third@);
                            lemma_extends(before@, first@, third@);
                            lemma_parse(p@, bytes, pos as nat, first@, third@, before@.len());
                            assert(third@.take(second@.len() as int)[first@.len() as int] == reply);
                        }
                        (r, third)
                    },
                    Err(e) => (
                        Err((np, "and_then: closure failed: ".to_owned().concat(e.as_str()))),
                        second,
                    ),
                }
            },
            Err(e) => (Err(e), first),
        }
    } else {
        (run_leaf(kind, node, input, pos), before)
    }
}

/// What came back from a closure, seen as a mathematical object.
pub open spec fn answer_view(r: Result<Value, String>) -> Result<Val, Seq<char>> {
    match r {
        Ok(v) => Ok(v@),
        Err(t) => Err(t@),
    }
}

/// More replies behind a partly finished repetition.
proof fn lemma_many_step(
    p: Val,
    input: Seq<u8>,
    cur: nat,
    out: Seq<Val>,
    first: Seq<Reply>,
    last: Seq<Reply>,
    at: nat,
)
    requires
        extends(last, first),
        parse(p, input, cur, first, at) matches Some((r, n)) && n == first.len(),
    ensures
        parse(p, input, cur, last, at) == parse(p, input, cur, first, at),
        at <= first.len(),
{
    lemma_parse(p, input, cur, first, last, at);
}

fn walk_many<C: ClosureCaller>(
    p: &Value,
    input: &str,
    pos: usize,
    caller: &mut C,
    left: &mut usize,
    before: Ghost<Seq<Reply>>,
    first_caller: Ghost<C>,
) -> (out: (Result<(Value, usize), (usize, String)>, Ghost<Seq<Reply>>))
    requires
        old(caller).ready(),
        answered(first_caller@, before@, *old(caller)),
        made(before@, *old(left)),
    ensures
        final(caller).ready(),
        answered(first_caller@, out.1@, *final(caller)),
        made(out.1@, *final(left)),
        extends(out.1@, before@),
        parse_many(
            p@,
            bytes_of(input@),
            pos as nat,
            Seq::empty(),
            out.1@,
            before@.len(),
        ) == Some((parsed(out.0), out.1@.len())),
        *final(left) <= *old(left),
    decreases *old(left), p, 1nat,
{
    let ghost bytes = bytes_of(input@);
    let ghost fuel = *left;
    let n: usize = input.as_bytes().len();
    let mut cur: usize = pos;
    let mut out: Vec<Value> = Vec::new();
    let mut replies: Ghost<Seq<Reply>> = before;
    proof {
        lemma_extends_push(before@, arbitrary());
        assert(vals(out@) =~= Seq::<Val>::empty());
    }
    loop
        invariant
            bytes == bytes_of(input@),
            n == bytes.len(),
            extends(replies@, before@),
            caller.ready(),
            answered(first_caller@, replies@, *caller),
            made(replies@, *left),
            *left <= fuel,
            fuel == *old(left),
            // The rest of the repetition decides the whole.
            forall|later: Seq<Reply>| #[trigger]
                extends(later, replies@) ==> parse_many(
                    p@,
                    bytes,
                    pos as nat,
                    Seq::empty(),
                    later,
                    before@.len(),
                ) == parse_many(p@, bytes, cur as nat, vals(out@), later, replies@.len()),
        decreases remaining(n as nat, cur as nat),
    {
        let (r, next) = walk(p, input, cur, caller, left, replies, first_caller);
        proof {
            lemma_extends(before@, replies@, next@);
            lemma_extends_push(next@, arbitrary());
            lemma_parse(p@, bytes, cur as nat, next@, next@, replies@.len());
        }
        match r {
            Ok((v, np)) => {
                if np > cur && np <= n {
                    let ghost items = vals(out@);
                    let ghost here = replies@;
                    let ghost item = v@;
                    out.push(v);
                    assert(vals(out@) =~= items.push(item));
                    proof {
                        assert forall|later: Seq<Reply>| #[trigger]
                            extends(later, next@) implies parse_many(
                            p@,
                            bytes,
                            pos as nat,
                            Seq::empty(),
                            later,
                            before@.len(),
                        ) == parse_many(p@, bytes, np as nat, vals(out@), later, next@.len()) by {
                            lemma_extends(here, next@, later);
                            lemma_many_step(p@, bytes, cur as nat, items, next@, later, here.len());
                        }
                    }
                    cur = np;
                    replies = next;
                } else {
                    return (Ok((Value::List(out), cur)), next);
                }
            },
            Err(_) => {
                return (Ok((Value::List(out), cur)), next);
            },
        }
    }
}

/// Runs a parser on the input from a position on. Gives the value and the
/// position behind it, or the position and the text of a failure. No more than
/// `usize::MAX` closures are called.
pub fn run_parser<C: ClosureCaller>(node: &Value, input: &str, pos: usize, caller: &mut C) -> (r:
    Result<(Value, usize), (usize, String)>)
    requires
        old(caller).ready(),
    ensures
        final(caller).ready(),
        exists|replies: Seq<Reply>|
            #[trigger] answered(*old(caller), replies, *final(caller)) && parse(
                node@,
                bytes_of(input@),
                pos as nat,
                replies,
                0,
            ) == Some((parsed(r), replies.len())),
{
    let mut left: usize = usize::MAX;
    let (r, replies) = walk(node, input, pos, caller, &mut left, Ghost(Seq::empty()),
        Ghost(*caller));
    assert(parse(node@, bytes_of(input@), pos as nat, replies@, 0) == Some(
        (parsed(r), replies@.len()),
    ));
    r
}

// ---------------------------------------------------------------------------
// Laws
// ---------------------------------------------------------------------------

/// A result inside the input, at or behind a position.
pub open spec fn lies_within(r: Parsed, pos: nat, n: nat) -> bool {
    match r {
        Ok((_, p)) => pos <= p <= n,
        Err((p, _)) => pos <= p <= n,
    }
}

/// Law: a parser never moves back and never leaves the input, whether it
/// succeeds or fails, and whatever its closures give.
pub proof fn law_parsers_move_forward(
    node: Val,
    input: Seq<u8>,
    pos: nat,
    replies: Seq<Reply>,
    at: nat,
)
    requires
        pos <= input.len(),
    ensures
        parse(node, input, pos, replies, at) matches Some((r, n)) ==> at <= n && lies_within(
            r,
            pos,
            input.len(),
        ),
    decreases remaining(replies.len(), at), node, 0nat, 0nat,
{
    match (node, text_member(node, "kind"@)) {
        (Val::Record { .. }, Some(kind)) => {
            let a = member(node, "a"@);
            let b = member(node, "b"@);
            let p = member(node, "p"@);
            if (kind == "Seq"@ || kind == "Alt"@) && a is Some && b is Some {
                law_parsers_move_forward(a->0, input, pos, replies, at);
                match parse(a->0, input, pos, replies, at) {
                    Some((Ok((va, p1)), n)) => {
                        law_parsers_move_forward(b->0, input, p1, replies, n);
                    },
                    Some((Err(_), n)) => {
                        law_parsers_move_forward(b->0, input, pos, replies, n);
                    },
                    None => {},
                }
            } else if kind == "Many"@ && p is Some {
                lemma_many_moves_forward(p->0, input, pos, Seq::empty(), replies, at);
            } else if p is Some {
                law_parsers_move_forward(p->0, input, pos, replies, at);
                let f = member(node, "f"@);
                if kind == "AndThen"@ && f is Some {
                    match parse(p->0, input, pos, replies, at) {
                        Some((Ok((v, np)), n)) => match reply_to(replies, n, f->0, v) {
                            Some(Ok(next)) => {
                                law_parsers_move_forward(next, input, np, replies, n + 1);
                            },
                            _ => {},
                        },
                        _ => {},
                    }
                }
            }
        },
        _ => {},
    }
}

proof fn lemma_many_moves_forward(
    p: Val,
    input: Seq<u8>,
    cur: nat,
    out: Seq<Val>,
    replies: Seq<Reply>,
    at: nat,
)
    requires
        cur <= input.len(),
    ensures
        parse_many(p, input, cur, out, replies, at) matches Some((r, n)) ==> at <= n && lies_within(
            r,
            cur,
            input.len(),
        ),
    decreases remaining(replies.len(), at), p, 1nat, remaining(input.len(), cur),
{
    law_parsers_move_forward(p, input, cur, replies, at);
    match parse(p, input, cur, replies, at) {
        Some((Ok((v, np)), n)) => {
            if cur < np <= input.len() {
                lemma_many_moves_forward(p, input, np, out.push(v), replies, n);
            }
        },
        _ => {},
    }
}

/// A parser that calls no closure.
pub open spec fn is_plain(node: Val) -> bool
    decreases node,
{
    match (node, text_member(node, "kind"@)) {
        (Val::Record { .. }, Some(kind)) => {
            &&& kind != "Map"@
            &&& kind != "AndThen"@
            &&& member(node, "a"@) matches Some(a) ==> is_plain(a)
            &&& member(node, "b"@) matches Some(b) ==> is_plain(b)
            &&& member(node, "p"@) matches Some(p) ==> is_plain(p)
        },
        _ => true,
    }
}

/// Law: what a parser without closures gives depends on the input and the
/// position alone.
pub proof fn law_plain_parsers_are_determined(
    node: Val,
    input: Seq<u8>,
    pos: nat,
    replies: Seq<Reply>,
    at: nat,
)
    requires
        is_plain(node),
    ensures
        parse(node, input, pos, Seq::empty(), 0) matches Some((r, n)) && n == 0 && parse(
            node,
            input,
            pos,
            replies,
            at,
        ) == Some((r, at)),
    decreases node, 0nat, 0nat,
{
    let none = Seq::<Reply>::empty();
    match (node, text_member(node, "kind"@)) {
        (Val::Record { .. }, Some(kind)) => {
            let a = member(node, "a"@);
            let b = member(node, "b"@);
            let p = member(node, "p"@);
            if (kind == "Seq"@ || kind == "Alt"@) && a is Some && b is Some {
                law_plain_parsers_are_determined(a->0, input, pos, replies, at);
                match parse(a->0, input, pos, none, 0) {
                    Some((Ok((va, p1)), n)) => {
                        law_plain_parsers_are_determined(b->0, input, p1, replies, at);
                    },
                    Some((Err(_), n)) => {
                        law_plain_parsers_are_determined(b->0, input, pos, replies, at);
                    },
                    None => {},
                }
            } else if kind == "Many"@ && p is Some {
                lemma_plain_many(p->0, input, pos, Seq::empty(), replies, at);
            } else if p is Some {
                law_plain_parsers_are_determined(p->0, input, pos, replies, at);
            }
        },
        _ => {},
    }
}

proof fn lemma_plain_many(
    p: Val,
    input: Seq<u8>,
    cur: nat,
    out: Seq<Val>,
    replies: Seq<Reply>,
    at: nat,
)
    requires
        is_plain(p),
    ensures
        parse_many(p, input, cur, out, Seq::empty(), 0) matches Some((r, n)) && n == 0
            && parse_many(p, input, cur, out, replies, at) == Some((r, at)),
    decreases p, 1nat, remaining(input.len(), cur),
{
    law_plain_parsers_are_determined(p, input, cur, replies, at);
    match parse(p, input, cur, Seq::empty(), 0) {
        Some((Ok((v, np)), n)) => {
            if cur < np <= input.len() {
                lemma_plain_many(p, input, np, out.push(v), replies, at);
            }
        },
        _ => {},
    }
}

} // verus!
