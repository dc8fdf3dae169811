//! What the kinds of parsers do.

use vstd::prelude::*;

use crate::parser_runtime::{lemma_parse, member, parse, parse_many, text_member, Parsed, Reply};
use crate::text::bytes_of;
use crate::value::Val;

verus! {

/// The parser makes this of the input from a position on, and uses the replies
/// from `at` to below `n`.
pub open spec fn makes(
    node: Val,
    input: Seq<u8>,
    pos: nat,
    replies: Seq<Reply>,
    at: nat,
    r: Parsed,
    n: nat,
) -> bool {
    parse(node, input, pos, replies, at) == Some((r, n))
}

/// A parser of a kind.
pub open spec fn is_parser(node: Val, kind: Seq<char>) -> bool {
    node is Record && text_member(node, "kind"@) == Some(kind)
}

/// A parser of a kind that is made of two others.
pub open spec fn is_pair(node: Val, kind: Seq<char>, a: Val, b: Val) -> bool {
    is_parser(node, kind) && member(node, "a"@) == Some(a) && member(node, "b"@) == Some(b)
}

/// A parser of a kind that is made of another and a closure.
pub open spec fn is_mapped(node: Val, kind: Seq<char>, p: Val, f: Val) -> bool {
    is_parser(node, kind) && member(node, "p"@) == Some(p) && member(node, "f"@) == Some(f)
}

/// The reply at a place is the answer to the call of a closure on a value.
pub open spec fn answers(
    replies: Seq<Reply>,
    n: nat,
    f: Val,
    v: Val,
    answer: Result<Val, Seq<char>>,
) -> bool {
    n < replies.len() && replies[n as int] == (Reply { closure: f, arg: v, answer })
}

/// The kinds are different words.
proof fn lemma_kinds()
    ensures
        "Seq"@.len() == 3 && "Seq"@[0] == 'S',
        "Alt"@.len() == 3 && "Alt"@[0] == 'A',
        "Many"@.len() == 4 && "Many"@[0] == 'M',
        "Optional"@.len() == 8,
        "Map"@.len() == 3 && "Map"@[0] == 'M',
        "AndThen"@.len() == 7,
        "Char"@.len() == 4 && "Char"@[0] == 'C',
        "String"@.len() == 6,
        "Digit"@.len() == 5 && "Digit"@[0] == 'D',
        "Alpha"@.len() == 5 && "Alpha"@[0] == 'A',
        "Whitespace"@.len() == 10,
        "Eof"@.len() == 3 && "Eof"@[0] == 'E',
{
    reveal_strlit("Seq");
    reveal_strlit("Alt");
    reveal_strlit("Many");
    reveal_strlit("Optional");
    reveal_strlit("Map");
    reveal_strlit("AndThen");
    reveal_strlit("Char");
    reveal_strlit("String");
    reveal_strlit("Digit");
    reveal_strlit("Alpha");
    reveal_strlit("Whitespace");
    reveal_strlit("Eof");
}

proof fn lemma_onward(node: Val, input: Seq<u8>, pos: nat, replies: Seq<Reply>, at: nat)
    ensures
        parse(node, input, pos, replies, at) matches Some((_, n)) ==> at <= n,
{
    assert(replies.take(replies.len() as int) =~= replies);
    lemma_parse(node, input, pos, replies, replies, at);
}

/// Law: a sequence lets the first parser read, and the second one go on where
/// the first one stopped; it gives the pair of what they gave, and fails where
/// and as the one that failed.
pub proof fn law_sequence(
    node: Val,
    a: Val,
    b: Val,
    input: Seq<u8>,
    pos: nat,
    replies: Seq<Reply>,
    at: nat,
    ra: Parsed,
    n: nat,
    rb: Parsed,
    m: nat,
)
    requires
        is_pair(node, "Seq"@, a, b),
        makes(a, input, pos, replies, at, ra, n),
        ra matches Ok((_, p)) ==> makes(b, input, p, replies, n, rb, m),
    ensures
        match (ra, rb) {
            (Ok((va, _)), Ok((vb, p))) => makes(
                node,
                input,
                pos,
                replies,
                at,
                Ok((Val::Tuple(seq![va, vb]), p)),
                m,
            ),
            (Ok(_), Err(_)) => makes(node, input, pos, replies, at, rb, m),
            (Err(_), _) => makes(node, input, pos, replies, at, ra, n),
        },
{
    lemma_kinds();
    lemma_onward(a, input, pos, replies, at);
}

/// Law: an alternative gives what the first parser gives, and only if that one
/// fails, what the second one makes of the same input.
pub proof fn law_alternative(
    node: Val,
    a: Val,
    b: Val,
    input: Seq<u8>,
    pos: nat,
    replies: Seq<Reply>,
    at: nat,
    ra: Parsed,
    n: nat,
    rb: Parsed,
    m: nat,
)
    requires
        is_pair(node, "Alt"@, a, b),
        makes(a, input, pos, replies, at, ra, n),
        ra is Err ==> makes(b, input, pos, replies, n, rb, m),
    ensures
        ra is Ok ==> makes(node, input, pos, replies, at, ra, n),
        ra is Err ==> makes(node, input, pos, replies, at, rb, m),
{
    lemma_kinds();
    lemma_onward(a, input, pos, replies, at);
}

/// Law: an optional parser never fails: it gives what the parser gave, or
/// nothing, and is then where it was.
pub proof fn law_optional(
    node: Val,
    p: Val,
    input: Seq<u8>,
    pos: nat,
    replies: Seq<Reply>,
    at: nat,
    r: Parsed,
    n: nat,
)
    requires
        is_parser(node, "Optional"@),
        member(node, "p"@) == Some(p),
        makes(p, input, pos, replies, at, r, n),
    ensures
        match r {
            Ok((v, q)) => makes(
                node,
                input,
                pos,
                replies,
                at,
                Ok((Val::Variant { name: "Some"@, args: seq![v] }, q)),
                n,
            ),
            Err(_) => makes(
                node,
                input,
                pos,
                replies,
                at,
                Ok((Val::Variant { name: "None"@, args: Seq::empty() }, pos)),
                n,
            ),
        },
{
    lemma_kinds();
}

/// Law: a mapped parser reads what the parser reads, and gives what the closure
/// gives on its value; it fails as the parser fails, or if the closure does.
pub proof fn law_mapped(
    node: Val,
    p: Val,
    f: Val,
    input: Seq<u8>,
    pos: nat,
    replies: Seq<Reply>,
    at: nat,
    r: Parsed,
    n: nat,
    answer: Result<Val, Seq<char>>,
)
    requires
        is_mapped(node, "Map"@, p, f),
        makes(p, input, pos, replies, at, r, n),
        r matches Ok((v, _)) ==> answers(replies, n, f, v, answer),
    ensures
        match (r, answer) {
            (Ok((_, q)), Ok(w)) => makes(node, input, pos, replies, at, Ok((w, q)), n + 1),
            (Ok(_), Err(_)) => parse(node, input, pos, replies, at) matches Some((x, k)) && x is Err
                && k == n + 1,
            (Err(_), _) => makes(node, input, pos, replies, at, r, n),
        },
{
    lemma_kinds();
}

/// Law: a chained parser lets the parser read, asks the closure for the next
/// parser, and lets that one go on where the first one stopped.
pub proof fn law_chained(
    node: Val,
    p: Val,
    f: Val,
    input: Seq<u8>,
    pos: nat,
    replies: Seq<Reply>,
    at: nat,
    r: Parsed,
    n: nat,
    answer: Result<Val, Seq<char>>,
    rb: Parsed,
    m: nat,
)
    requires
        is_mapped(node, "AndThen"@, p, f),
        makes(p, input, pos, replies, at, r, n),
        r matches Ok((v, q)) ==> answers(replies, n, f, v, answer) && (answer matches Ok(next)
            ==> makes(next, input, q, replies, n + 1, rb, m)),
    ensures
        match (r, answer) {
            (Ok(_), Ok(_)) => makes(node, input, pos, replies, at, rb, m),
            (Ok(_), Err(_)) => parse(node, input, pos, replies, at) matches Some((x, k)) && x is Err
                && k == n + 1,
            (Err(_), _) => makes(node, input, pos, replies, at, r, n),
        },
{
    lemma_kinds();
    lemma_onward(p, input, pos, replies, at);
}

/// The parser reads `vs`, one after the other, each from where the last one
/// stopped, and moves on each time; `marks` are the positions between them and
/// `uses` the places of the replies.
pub open spec fn is_row(
    p: Val,
    input: Seq<u8>,
    replies: Seq<Reply>,
    marks: Seq<nat>,
    uses: Seq<nat>,
    vs: Seq<Val>,
) -> bool {
    &&& marks.len() == vs.len() + 1
    &&& uses.len() == vs.len() + 1
    &&& forall|k: int|
        0 <= k < vs.len() ==> (#[trigger] marks[k]) < marks[k + 1] <= input.len() && makes(
            p,
            input,
            marks[k],
            replies,
            uses[k],
            Ok((vs[k], marks[k + 1])),
            uses[k + 1],
        )
}

/// The parser fails or does not move on.
pub open spec fn is_stuck(
    p: Val,
    input: Seq<u8>,
    pos: nat,
    replies: Seq<Reply>,
    at: nat,
    n: nat,
) -> bool {
    parse(p, input, pos, replies, at) matches Some((r, m)) && m == n && match r {
        Ok((_, q)) => !(pos < q <= input.len()),
        Err(_) => true,
    }
}

/// Law: a repeated parser never fails: it gives all that the parser reads, one
/// after the other, up to where the parser fails or does not move on.
pub proof fn law_repeated(
    node: Val,
    p: Val,
    input: Seq<u8>,
    replies: Seq<Reply>,
    marks: Seq<nat>,
    uses: Seq<nat>,
    vs: Seq<Val>,
    n: nat,
)
    requires
        is_parser(node, "Many"@),
        member(node, "p"@) == Some(p),
        is_row(p, input, replies, marks, uses, vs),
        is_stuck(p, input, marks.last(), replies, uses.last(), n),
    ensures
        makes(node, input, marks[0], replies, uses[0], Ok((Val::List(vs), marks.last())), n),
{
    lemma_kinds();
    lemma_repeated(p, input, replies, marks, uses, vs, n, 0);
    assert(vs.take(0) =~= Seq::empty());
}

proof fn lemma_repeated(
    p: Val,
    input: Seq<u8>,
    replies: Seq<Reply>,
    marks: Seq<nat>,
    uses: Seq<nat>,
    vs: Seq<Val>,
    n: nat,
    k: int,
)
    requires
        0 <= k <= vs.len(),
        is_row(p, input, replies, marks, uses, vs),
        is_stuck(p, input, marks.last(), replies, uses.last(), n),
    ensures
        parse_many(p, input, marks[k], vs.take(k), replies, uses[k]) == Some(
            (Ok::<_, (nat, Seq<char>)>((Val::List(vs), marks.last())), n),
        ),
    decreases vs.len() - k,
{
    if k < vs.len() {
        assert(marks[k] < marks[k + 1]);
        lemma_onward(p, input, marks[k], replies, uses[k]);
        lemma_repeated(p, input, replies, marks, uses, vs, n, k + 1);
        assert(vs.take(k + 1) =~= vs.take(k).push(vs[k]));
    } else {
        assert(vs.take(k) =~= vs);
    }
}

/// A digit, a letter or a blank, by the name of the kind.
pub open spec fn in_class(kind: Seq<char>, b: u8) -> bool {
    ||| kind == "Digit"@ && b - 48 < 10 && b >= 48
    ||| kind == "Alpha"@ && (65 <= b < 65 + 26 || 97 <= b < 97 + 26)
    ||| kind == "Whitespace"@ && (b == 32 || 9 <= b < 14 && b != 11)
}

/// Law: a parser of a class of characters reads one character of that class and
/// gives it; it fails in front of any other and at the end of the input, and
/// never moves on when it fails.
pub proof fn law_classes(node: Val, kind: Seq<char>, input: Seq<u8>, pos: nat)
    requires
        is_parser(node, kind),
        kind == "Digit"@ || kind == "Alpha"@ || kind == "Whitespace"@,
    ensures
        parse(node, input, pos, Seq::empty(), 0) matches Some((r, n)) && n == 0 && (r is Ok <==> pos
            < input.len() && in_class(kind, input[pos as int])) && match r {
            Ok((v, q)) => q == pos + 1 && v == Val::Str(seq![input[pos as int] as char]),
            Err((q, _)) => q == pos,
        },
{
    lemma_kinds();
}

/// Law: a parser of a text succeeds if and only if the input goes on with that
/// text; it gives the text and stops behind it, and never moves on when it
/// fails.
pub proof fn law_texts(
    node: Val,
    kind: Seq<char>,
    want: Seq<char>,
    input: Seq<u8>,
    pos: nat,
)
    requires
        is_parser(node, kind),
        kind == "Char"@ && text_member(node, "ch"@) == Some(want) || kind == "String"@
            && text_member(node, "s"@) == Some(want),
        pos <= input.len(),
    ensures
        parse(node, input, pos, Seq::empty(), 0) matches Some((r, n)) && n == 0 && (r is Ok
            <==> bytes_of(want).is_prefix_of(input.skip(pos as int))) && match r {
            Ok((v, q)) => v == Val::Str(want) && input.subrange(pos as int, q as int) == bytes_of(
                want,
            ),
            Err((q, _)) => q == pos,
        },
{
    lemma_kinds();
    let w = bytes_of(want);
    let rest = input.skip(pos as int);
    if w.is_prefix_of(rest) {
        assert(rest.subrange(0, w.len() as int) =~= input.subrange(
            pos as int,
            (pos + w.len()) as int,
        ));
    }
    if pos + w.len() <= input.len() && input.subrange(pos as int, (pos + w.len()) as int) == w {
        assert(rest.subrange(0, w.len() as int) =~= w);
    }
}

/// Law: the parser of the end succeeds at the end of the input and nowhere
/// else.
pub proof fn law_end(node: Val, input: Seq<u8>, pos: nat)
    requires
        is_parser(node, "Eof"@),
    ensures
        parse(node, input, pos, Seq::empty(), 0) matches Some((r, n)) && n == 0 && (r is Ok <==> pos
            == input.len()) && (r matches Ok((v, q)) ==> v == Val::Unit && q == pos),
{
    lemma_kinds();
}

} // verus!
