//! Where parsers stop: between the characters of the text that they read.

use vstd::prelude::*;
use vstd::utf8::{
    encode_utf8, is_char_boundary, length_of_first_scalar, pop_first_scalar, valid_utf8,
};

use crate::parser_runtime::{
    has_at, law_parsers_move_forward, member, parse, parse_leaf, parse_many, remaining, reply_to,
    text_member, Parsed, Reply,
};
use crate::text::bytes_of;
use crate::value::Val;

verus! {

/// A place in the bytes of a text at which a character begins, or the end.
pub open spec fn between_chars(text: Seq<char>, p: nat) -> bool {
    is_char_boundary(bytes_of(text), p as int)
}

/// A result whose position lies between characters.
pub open spec fn stops_between(text: Seq<char>, r: Parsed) -> bool {
    match r {
        Ok((_, p)) => between_chars(text, p),
        Err((p, _)) => between_chars(text, p),
    }
}

/// A boundary of what follows a boundary is one of the whole.
proof fn lemma_onward(b: Seq<u8>, i: int, j: int)
    requires
        valid_utf8(b),
        0 <= i <= b.len(),
        is_char_boundary(b, i),
        valid_utf8(b.subrange(i, b.len() as int)),
        is_char_boundary(b.subrange(i, b.len() as int), j),
        0 <= j <= b.len() - i,
    ensures
        is_char_boundary(b, i + j),
    decreases b.len(),
{
    if i == 0 {
        assert(b.subrange(0, b.len() as int) =~= b);
    } else {
        let tail = pop_first_scalar(b);
        let k = length_of_first_scalar(b);
        reveal_with_fuel(is_char_boundary, 2);
        assert(k <= i);
        assert(tail.subrange(i - k, tail.len() as int) =~= b.subrange(i, b.len() as int));
        lemma_onward(tail, i - k, j);
    }
}

/// Behind a text that a text begins with, a character begins.
proof fn lemma_prefix(b: Seq<u8>, s: Seq<char>)
    requires
        valid_utf8(b),
        encode_utf8(s).len() <= b.len(),
        b.subrange(0, encode_utf8(s).len() as int) == encode_utf8(s),
    ensures
        is_char_boundary(b, encode_utf8(s).len() as int),
    decreases s.len(),
{
    let e = encode_utf8(s);
    if s.len() > 0 {
        vstd::utf8::encode_utf8_first_scalar(s);
        let k = length_of_first_scalar(e);
        assert(e[0] == b.subrange(0, e.len() as int)[0]);
        assert(b[0] == e[0]);
        let rest = encode_utf8(s.drop_first());
        let tail = pop_first_scalar(b);
        assert(e.len() == k + rest.len());
        assert(tail.subrange(0, rest.len() as int) =~= rest) by {
            assert forall|i: int| 0 <= i < rest.len() implies tail[i] == rest[i] by {
                assert(b.subrange(0, e.len() as int)[i + k] == e[i + k]);
            }
        }
        lemma_prefix(tail, s.drop_first());
    }
}

proof fn lemma_literal(text: Seq<char>, pos: nat, s: Seq<char>)
    requires
        between_chars(text, pos),
        has_at(bytes_of(text), pos, bytes_of(s)),
    ensures
        between_chars(text, pos + bytes_of(s).len()),
{
    let b = bytes_of(text);
    vstd::utf8::encode_utf8_valid_utf8(text);
    vstd::utf8::valid_utf8_split(b, pos as int);
    let rest = b.subrange(pos as int, b.len() as int);
    let n = bytes_of(s).len() as int;
    assert(rest.subrange(0, n) =~= b.subrange(pos as int, pos + n));
    lemma_prefix(rest, s);
    lemma_onward(b, pos as int, n);
}

proof fn lemma_ascii(text: Seq<char>, pos: nat)
    requires
        between_chars(text, pos),
        pos < bytes_of(text).len(),
        bytes_of(text)[pos as int] < 0x80,
    ensures
        between_chars(text, pos + 1),
{
    let b = bytes_of(text);
    vstd::utf8::encode_utf8_valid_utf8(text);
    vstd::utf8::valid_utf8_split(b, pos as int);
    let rest = b.subrange(pos as int, b.len() as int);
    reveal_with_fuel(is_char_boundary, 2);
    assert(rest[0] == b[pos as int]);
    assert(is_char_boundary(rest, 1));
    lemma_onward(b, pos as int, 1);
}

proof fn lemma_leaf(kind: Seq<char>, node: Val, text: Seq<char>, pos: nat)
    requires
        between_chars(text, pos),
        pos <= bytes_of(text).len(),
    ensures
        stops_between(text, parse_leaf(kind, node, bytes_of(text), pos)),
{
    let b = bytes_of(text);
    if pos < b.len() && b[pos as int] < 0x80 {
        lemma_ascii(text, pos);
    }
    if let Some(want) = text_member(node, "ch"@) {
        if has_at(b, pos, bytes_of(want)) {
            lemma_literal(text, pos, want);
        }
    }
    if let Some(want) = text_member(node, "s"@) {
        if has_at(b, pos, bytes_of(want)) {
            lemma_literal(text, pos, want);
        }
    }
}

/// Law: a parser that starts between two characters of a text stops between
/// two characters, whether it succeeds or fails, and whatever its closures give.
pub proof fn law_parsers_stop_between_characters(
    node: Val,
    text: Seq<char>,
    pos: nat,
    replies: Seq<Reply>,
    at: nat,
)
    requires
        pos <= bytes_of(text).len(),
        between_chars(text, pos),
    ensures
        parse(node, bytes_of(text), pos, replies, at) matches Some((r, n)) ==> stops_between(
            text,
            r,
        ),
    decreases remaining(replies.len(), at), node, 0nat, 0nat,
{
    let input = bytes_of(text);
    match (node, text_member(node, "kind"@)) {
        (Val::Record { .. }, Some(kind)) => {
            let a = member(node, "a"@);
            let b = member(node, "b"@);
            let p = member(node, "p"@);
            lemma_leaf(kind, node, text, pos);
            if (kind == "Seq"@ || kind == "Alt"@) && a is Some && b is Some {
                law_parsers_stop_between_characters(a->0, text, pos, replies, at);
                law_parsers_move_forward(a->0, input, pos, replies, at);
                match parse(a->0, input, pos, replies, at) {
                    Some((Ok((va, p1)), n)) => {
                        law_parsers_stop_between_characters(b->0, text, p1, replies, n);
                    },
                    Some((Err(_), n)) => {
                        law_parsers_stop_between_characters(b->0, text, pos, replies, n);
                    },
                    None => {},
                }
            } else if kind == "Many"@ && p is Some {
                lemma_many(p->0, text, pos, Seq::empty(), replies, at);
            } else if p is Some {
                law_parsers_stop_between_characters(p->0, text, pos, replies, at);
                law_parsers_move_forward(p->0, input, pos, replies, at);
                let f = member(node, "f"@);
                if kind == "AndThen"@ && f is Some {
                    match parse(p->0, input, pos, replies, at) {
                        Some((Ok((v, np)), n)) => match reply_to(replies, n, f->0, v) {
                            Some(Ok(next)) => {
                                law_parsers_stop_between_characters(next, text, np, replies, n + 1);
                            },
                            _ => {},
                        },
                        _ => {},
                    }
                }
            }
        },
        _ => {},
    }
}

proof fn lemma_many(
    p: Val,
    text: Seq<char>,
    cur: nat,
    out: Seq<Val>,
    replies: Seq<Reply>,
    at: nat,
)
    requires
        cur <= bytes_of(text).len(),
        between_chars(text, cur),
    ensures
        parse_many(p, bytes_of(text), cur, out, replies, at) matches Some((r, n))
            ==> stops_between(text, r),
    decreases remaining(replies.len(), at), p, 1nat, remaining(bytes_of(text).len(), cur),
{
    let input = bytes_of(text);
    law_parsers_stop_between_characters(p, text, cur, replies, at);
    law_parsers_move_forward(p, input, cur, replies, at);
    match parse(p, input, cur, replies, at) {
        Some((Ok((v, np)), n)) => {
            if cur < np <= input.len() {
                lemma_many(p, text, np, out.push(v), replies, n);
            }
        },
        _ => {},
    }
}

} // verus!
