//! Different arguments are written differently, so they can share a memo key
//! only if digests collide.

use vstd::bytes::{
    lemma_auto_spec_u32_to_from_le_bytes, lemma_auto_spec_u64_to_from_le_bytes,
    spec_u32_to_le_bytes,
};
use vstd::prelude::*;

use crate::text::{bytes_of, lemma_bytes_injective};
use crate::value::{Key, Val};
use crate::vm::memo::{
    args_writes, entry_writes, key_writes, keys_writes, length_word, list_writes, value_writes,
    word, word_writes,
};

verus! {

/// All bytes that were written, one after the other.
pub open spec fn joined(w: Seq<Seq<u8>>) -> Seq<u8>
    decreases w.len(),
{
    if w.len() == 0 {
        Seq::empty()
    } else {
        joined(w.drop_last()) + w.last()
    }
}

/// A length that a word holds.
pub open spec fn fits(n: nat) -> bool {
    n <= u64::MAX
}

/// A value without handles, records and tables, as a machine can hold it.
pub open spec fn is_written_out(v: Val) -> bool
    decreases v,
{
    match v {
        Val::Str(s) => fits(bytes_of(s).len()),
        Val::Bytes(b) => fits(b.len()),
        Val::List(x) => fits(x.len()) && forall|i: int|
            0 <= i < x.len() ==> is_written_out(#[trigger] x[i]),
        Val::Tuple(x) => fits(x.len()) && forall|i: int|
            0 <= i < x.len() ==> is_written_out(#[trigger] x[i]),
        Val::Deque(x) => fits(x.len()) && forall|i: int|
            0 <= i < x.len() ==> is_written_out(#[trigger] x[i]),
        Val::Variant { name, args } => fits(bytes_of(name).len()) && fits(args.len()) && forall|
            i: int,
        |
            0 <= i < args.len() ==> is_written_out(#[trigger] args[i]),
        Val::Closure { body_hash, captures, .. } => body_hash.len() == 16 && fits(captures.len())
            && forall|i: int|
            0 <= i < captures.len() ==> is_written_out(#[trigger] captures[i]),
        Val::F64Array { rows, cols, data } => data.len() == rows * cols,
        Val::Dict { keys, values } => fits(values.len()) && keys.len() == values.len()
            && keys_fit(keys) && forall|i: int|
            0 <= i < values.len() ==> is_written_out(#[trigger] values[i]),
        Val::KeySet(ks) => fits(ks.len()) && keys_fit(ks),
        Val::Record { .. }
        | Val::StackRecord { .. }
        | Val::StackTuple { .. }
        | Val::ArenaRecord { .. }
        | Val::ArenaTuple { .. }
        | Val::ArrowTable(_) => false,
        _ => true,
    }
}

pub open spec fn keys_fit(ks: Seq<Key>) -> bool {
    forall|i: int| 0 <= i < ks.len() ==> key_fits(#[trigger] ks[i])
}

pub open spec fn key_fits(k: Key) -> bool {
    k matches Key::Str(s) ==> fits(bytes_of(s).len())
}

pub open spec fn all_written_out(v: Seq<Val>) -> bool {
    forall|i: int| 0 <= i < v.len() ==> is_written_out(#[trigger] v[i])
}

/// The same value, but for the numbers of functions: a closure is the body and
/// what it captured.
pub open spec fn alike(a: Val, b: Val) -> bool
    decreases a,
{
    match (a, b) {
        (Val::List(x), Val::List(y)) => x.len() == y.len() && forall|i: int|
            0 <= i < x.len() ==> alike(#[trigger] x[i], y[i]),
        (Val::Tuple(x), Val::Tuple(y)) => x.len() == y.len() && forall|i: int|
            0 <= i < x.len() ==> alike(#[trigger] x[i], y[i]),
        (Val::Deque(x), Val::Deque(y)) => x.len() == y.len() && forall|i: int|
            0 <= i < x.len() ==> alike(#[trigger] x[i], y[i]),
        (Val::Variant { name: m, args: x }, Val::Variant { name: n, args: y }) => m == n && x.len()
            == y.len() && forall|i: int| 0 <= i < x.len() ==> alike(#[trigger] x[i], y[i]),
        (
            Val::Closure { body_hash: m, captures: x, .. },
            Val::Closure { body_hash: n, captures: y, .. },
        ) => m == n && x.len() == y.len() && forall|i: int|
            0 <= i < x.len() ==> alike(#[trigger] x[i], y[i]),
        (Val::Dict { keys: m, values: x }, Val::Dict { keys: n, values: y }) => m == n && x.len()
            == y.len() && forall|i: int| 0 <= i < x.len() ==> alike(#[trigger] x[i], y[i]),
        _ => a == b,
    }
}

pub open spec fn all_alike(x: Seq<Val>, y: Seq<Val>) -> bool {
    x.len() == y.len() && forall|i: int| 0 <= i < x.len() ==> alike(#[trigger] x[i], y[i])
}

/// Values of one kind with the same parts are alike.
proof fn lemma_alike(a: Val, b: Val)
    ensures
        alike(a, b) == (match (a, b) {
            (Val::List(x), Val::List(y)) => all_alike(x, y),
            (Val::Tuple(x), Val::Tuple(y)) => all_alike(x, y),
            (Val::Deque(x), Val::Deque(y)) => all_alike(x, y),
            (Val::Variant { name: m, args: x }, Val::Variant { name: n, args: y }) => m == n
                && all_alike(x, y),
            (
                Val::Closure { body_hash: m, captures: x, .. },
                Val::Closure { body_hash: n, captures: y, .. },
            ) => m == n && all_alike(x, y),
            (Val::Dict { keys: m, values: x }, Val::Dict { keys: n, values: y }) => m == n
                && all_alike(x, y),
            _ => a == b,
        }),
{
    reveal_with_fuel(alike, 2);
}

proof fn lemma_written_out(v: Val)
    ensures
        is_written_out(v) ==> match v {
            Val::List(x) => fits(x.len()) && all_written_out(x),
            Val::Tuple(x) => fits(x.len()) && all_written_out(x),
            Val::Deque(x) => fits(x.len()) && all_written_out(x),
            Val::Variant { name, args } => fits(bytes_of(name).len()) && fits(args.len())
                && all_written_out(args),
            Val::Closure { body_hash, captures, .. } => body_hash.len() == 16 && fits(
                captures.len(),
            ) && all_written_out(captures),
            Val::Dict { keys, values } => fits(values.len()) && keys.len() == values.len()
                && keys_fit(keys) && all_written_out(values),
            _ => true,
        },
{
    reveal_with_fuel(is_written_out, 2);
}

proof fn lemma_joined(a: Seq<Seq<u8>>, b: Seq<Seq<u8>>)
    ensures
        joined(a + b) == joined(a) + joined(b),
    decreases b.len(),
{
    if b.len() == 0 {
        assert(a + b =~= a);
        assert(joined(a) + joined(b) =~= joined(a));
    } else {
        assert((a + b).drop_last() =~= a + b.drop_last());
        lemma_joined(a, b.drop_last());
        assert(joined(a + b) =~= joined(a) + joined(b));
    }
}

proof fn lemma_joined_few(x: Seq<u8>, y: Seq<u8>, z: Seq<u8>, w: Seq<u8>)
    ensures
        joined(seq![x]) == x,
        joined(seq![x, y]) == x + y,
        joined(seq![x, y, z]) == x + (y + z),
        joined(seq![x, y, z, w]) == x + (y + (z + w)),
{
    reveal_with_fuel(joined, 5);
    assert(seq![x].drop_last() =~= Seq::empty());
    assert(seq![x, y].drop_last() =~= seq![x]);
    assert(seq![x, y, z].drop_last() =~= seq![x, y]);
    assert(seq![x, y, z, w].drop_last() =~= seq![x, y, z]);
    assert(joined(seq![x]) =~= x);
    assert(joined(seq![x, y]) =~= x + y);
    assert(joined(seq![x, y, z]) =~= x + (y + z));
    assert(joined(seq![x, y, z, w]) =~= x + (y + (z + w)));
}

/// The parts in front, if they are equally long, and behind.
proof fn lemma_halves(a: Seq<u8>, x: Seq<u8>, b: Seq<u8>, y: Seq<u8>)
    requires
        a + x == b + y,
        a.len() == b.len(),
    ensures
        a == b,
        x == y,
{
    let w = a + x;
    assert(a =~= w.take(a.len() as int));
    assert(b =~= w.take(a.len() as int));
    assert(x =~= w.skip(a.len() as int));
    assert(y =~= w.skip(a.len() as int));
}

proof fn lemma_words(x: u64, y: u64)
    ensures
        word(x).len() == 8,
        word(x) == word(y) ==> x == y,
{
    lemma_auto_spec_u64_to_from_le_bytes();
}

/// The byte that tells what kind of value follows.
spec fn tag(v: Val) -> u8 {
    value_writes(v)[0][0]
}

/// The bytes behind the tag.
spec fn rest(v: Val) -> Seq<u8> {
    match v {
        Val::Int(n) => word(n as u64),
        Val::Float(f) => word(f),
        Val::Bool(b) => seq![if b { 1u8 } else { 0u8 }],
        Val::Str(s) => length_word(bytes_of(s).len()) + bytes_of(s),
        Val::Bytes(b) => length_word(b.len()) + b,
        Val::List(x) => length_word(x.len()) + joined(list_writes(x)),
        Val::Tuple(x) => length_word(x.len()) + joined(list_writes(x)),
        Val::Deque(x) => length_word(x.len()) + joined(list_writes(x)),
        Val::Variant { name, args } => length_word(bytes_of(name).len()) + (bytes_of(name) + (
        length_word(args.len()) + joined(list_writes(args)))),
        Val::Closure { body_hash, captures, .. } => body_hash + (length_word(captures.len())
            + joined(list_writes(captures))),
        Val::F64Array { rows, cols, data } => spec_u32_to_le_bytes(rows) + (
        spec_u32_to_le_bytes(cols) + joined(word_writes(data))),
        Val::Dict { keys, values } => length_word(values.len()) + joined(
            entry_writes(keys, values),
        ),
        Val::KeySet(ks) => length_word(ks.len()) + joined(keys_writes(ks)),
        Val::Actor(h) => word(h),
        Val::Ticker(h) => word(h),
        _ => Seq::empty(),
    }
}

/// The bytes of a value: its tag, then the rest.
#[verifier::spinoff_prover]
#[verifier::rlimit(40)]
proof fn lemma_shape(v: Val)
    requires
        is_written_out(v),
    ensures
        joined(value_writes(v)) == seq![tag(v)] + rest(v),
{
    let t = seq![tag(v)];
    let none = Seq::<u8>::empty();
    match v {
        Val::Int(n) => {
            lemma_joined_few(t, word(n as u64), none, none);
        },
        Val::Float(f) => {
            lemma_joined_few(t, word(f), none, none);
        },
        Val::Bool(b) => {
            lemma_joined_few(t, seq![if b { 1u8 } else { 0u8 }], none, none);
        },
        Val::Str(s) => {
            lemma_joined_few(t, length_word(bytes_of(s).len()), bytes_of(s), none);
        },
        Val::Bytes(b) => {
            lemma_joined_few(t, length_word(b.len()), b, none);
        },
        Val::Unit => {
            lemma_joined_few(t, none, none, none);
            assert(t + none =~= t);
        },
        Val::List(x) | Val::Tuple(x) | Val::Deque(x) => {
            let n = length_word(x.len());
            let head = seq![t, n];
            assert(value_writes(v) == head + list_writes(x));
            lemma_joined(head, list_writes(x));
            lemma_joined_few(t, n, none, none);
            assert(t + n + joined(list_writes(x)) =~= t + (n + joined(list_writes(x))));
        },
        Val::Variant { name, args } => {
            let n = length_word(bytes_of(name).len());
            let m = length_word(args.len());
            let b = bytes_of(name);
            let l = joined(list_writes(args));
            lemma_joined(seq![t, n, b, m], list_writes(args));
            lemma_joined_few(t, n, b, m);
            assert(value_writes(v) == seq![t, n, b, m] + list_writes(args));
            assert(t + (n + (b + m)) + l =~= t + (n + (b + (m + l))));
        },
        Val::Closure { body_hash, captures, .. } => {
            let m = length_word(captures.len());
            let l = joined(list_writes(captures));
            lemma_joined(seq![t, body_hash, m], list_writes(captures));
            lemma_joined_few(t, body_hash, m, none);
            assert(value_writes(v) == seq![t, body_hash, m] + list_writes(captures));
            assert(t + (body_hash + m) + l =~= t + (body_hash + (m + l)));
        },
        Val::F64Array { rows, cols, data } => {
            let a = spec_u32_to_le_bytes(rows);
            let b = spec_u32_to_le_bytes(cols);
            let l = joined(word_writes(data));
            lemma_joined(seq![t, a, b], word_writes(data));
            lemma_joined_few(t, a, b, none);
            assert(value_writes(v) == seq![t, a, b] + word_writes(data));
            assert(t + (a + b) + l =~= t + (a + (b + l)));
        },
        Val::Dict { keys, values } => {
            let n = length_word(values.len());
            let l = joined(entry_writes(keys, values));
            lemma_joined(seq![t, n], entry_writes(keys, values));
            lemma_joined_few(t, n, none, none);
            assert(value_writes(v) == seq![t, n] + entry_writes(keys, values));
            assert(t + n + l =~= t + (n + l));
        },
        Val::KeySet(ks) => {
            let n = length_word(ks.len());
            let l = joined(keys_writes(ks));
            lemma_joined(seq![t, n], keys_writes(ks));
            lemma_joined_few(t, n, none, none);
            assert(value_writes(v) == seq![t, n] + keys_writes(ks));
            assert(t + n + l =~= t + (n + l));
        },
        Val::Actor(h) => {
            lemma_joined_few(t, word(h), none, none);
        },
        Val::Ticker(h) => {
            lemma_joined_few(t, word(h), none, none);
        },
        _ => {},
    }
}

/// Values of different kinds have different tags.
proof fn lemma_tags(a: Val, b: Val)
    requires
        is_written_out(a),
        is_written_out(b),
        tag(a) == tag(b),
    ensures
        a is Int <==> b is Int,
        a is Float <==> b is Float,
        a is Bool <==> b is Bool,
        a is Str <==> b is Str,
        a is Bytes <==> b is Bytes,
        a is Unit <==> b is Unit,
        a is List <==> b is List,
        a is Tuple <==> b is Tuple,
        a is Deque <==> b is Deque,
        a is Variant <==> b is Variant,
        a is Closure <==> b is Closure,
        a is F64Array <==> b is F64Array,
        a is Dict <==> b is Dict,
        a is KeySet <==> b is KeySet,
        a is Actor <==> b is Actor,
        a is Ticker <==> b is Ticker,
{
}

/// Two words in front of other bytes.
proof fn lemma_words_split(x: u64, r: Seq<u8>, y: u64, q: Seq<u8>)
    requires
        word(x) + r == word(y) + q,
    ensures
        x == y,
        r == q,
{
    lemma_words(x, y);
    lemma_words(y, x);
    lemma_halves(word(x), r, word(y), q);
}

/// Two lengths in front of other bytes.
proof fn lemma_lengths_split(m: nat, r: Seq<u8>, n: nat, q: Seq<u8>)
    requires
        length_word(m) + r == length_word(n) + q,
        fits(m),
        fits(n),
    ensures
        m == n,
        r == q,
{
    lemma_words_split(m as u64, r, n as u64, q);
}

/// Two byte strings behind their lengths.
proof fn lemma_strings_split(a: Seq<u8>, r: Seq<u8>, b: Seq<u8>, q: Seq<u8>)
    requires
        length_word(a.len()) + (a + r) == length_word(b.len()) + (b + q),
        fits(a.len()),
        fits(b.len()),
    ensures
        a == b,
        r == q,
{
    lemma_lengths_split(a.len(), a + r, b.len(), b + q);
    lemma_halves(a, r, b, q);
}

proof fn lemma_signed_words(x: i64, y: i64)
    ensures
        x as u64 == y as u64 ==> x == y,
{
    assert(x as u64 == y as u64 ==> x == y) by (bit_vector);
}

/// The bytes of a key.
spec fn key_bytes(k: Key) -> Seq<u8> {
    match k {
        Key::Str(s) => seq![key_writes(k)[0][0]] + (length_word(bytes_of(s).len()) + bytes_of(s)),
        Key::Int(n) => seq![key_writes(k)[0][0]] + word(n as u64),
    }
}

proof fn lemma_key_shape(k: Key)
    ensures
        joined(key_writes(k)) == key_bytes(k),
{
    let t = seq![key_writes(k)[0][0]];
    let none = Seq::<u8>::empty();
    match k {
        Key::Str(s) => {
            lemma_joined_few(t, length_word(bytes_of(s).len()), bytes_of(s), none);
        },
        Key::Int(n) => {
            lemma_joined_few(t, word(n as u64), none, none);
        },
    }
}

proof fn lemma_keys_apart(a: Key, r: Seq<u8>, b: Key, q: Seq<u8>)
    requires
        joined(key_writes(a)) + r == joined(key_writes(b)) + q,
        key_fits(a),
        key_fits(b),
    ensures
        a == b,
        r == q,
{
    lemma_key_shape(a);
    lemma_key_shape(b);
    let s = seq![key_writes(a)[0][0]];
    let t = seq![key_writes(b)[0][0]];
    let x = key_bytes(a).skip(1);
    let y = key_bytes(b).skip(1);
    assert(key_bytes(a) =~= s + x);
    assert(key_bytes(b) =~= t + y);
    assert(s + x + r =~= s + (x + r));
    assert(t + y + q =~= t + (y + q));
    lemma_halves(s, x + r, t, y + q);
    assert(s[0] == t[0]);
    match (a, b) {
        (Key::Str(m), Key::Str(n)) => {
            let lm = length_word(bytes_of(m).len());
            let ln = length_word(bytes_of(n).len());
            assert(x =~= lm + bytes_of(m));
            assert(y =~= ln + bytes_of(n));
            assert(lm + bytes_of(m) + r =~= lm + (bytes_of(m) + r));
            assert(ln + bytes_of(n) + q =~= ln + (bytes_of(n) + q));
            lemma_strings_split(bytes_of(m), r, bytes_of(n), q);
            lemma_bytes_injective(m, n);
        },
        (Key::Int(m), Key::Int(n)) => {
            assert(x =~= word(m as u64));
            assert(y =~= word(n as u64));
            lemma_words_split(m as u64, r, n as u64, q);
            lemma_signed_words(m, n);
        },
        _ => {},
    }
}

/// The first value of a list, and the others.
proof fn lemma_list_front(v: Seq<Val>)
    requires
        v.len() > 0,
    ensures
        list_writes(v) == value_writes(v[0]) + list_writes(v.drop_first()),
    decreases v.len(),
{
    let w = v.drop_first();
    if v.len() == 1 {
        assert(v.drop_last() =~= Seq::empty());
        assert(w =~= Seq::empty());
        assert(list_writes(v) =~= value_writes(v[0]) + list_writes(w));
    } else {
        lemma_list_front(v.drop_last());
        assert(v.drop_last().drop_first() =~= w.drop_last());
        assert(list_writes(v) =~= value_writes(v[0]) + list_writes(w));
    }
}

proof fn lemma_keys_front(v: Seq<Key>)
    requires
        v.len() > 0,
    ensures
        keys_writes(v) == key_writes(v[0]) + keys_writes(v.drop_first()),
    decreases v.len(),
{
    let w = v.drop_first();
    if v.len() == 1 {
        assert(v.drop_last() =~= Seq::empty());
        assert(w =~= Seq::empty());
        assert(keys_writes(v) =~= key_writes(v[0]) + keys_writes(w));
    } else {
        lemma_keys_front(v.drop_last());
        assert(v.drop_last().drop_first() =~= w.drop_last());
        assert(keys_writes(v) =~= key_writes(v[0]) + keys_writes(w));
    }
}

/// Keys behind the values make no difference.
proof fn lemma_entries_prefix(ks: Seq<Key>, ls: Seq<Key>, v: Seq<Val>)
    requires
        forall|i: int| 0 <= i < v.len() ==> ks[i] == ls[i],
    ensures
        entry_writes(ks, v) == entry_writes(ls, v),
    decreases v.len(),
{
    if v.len() > 0 {
        lemma_entries_prefix(ks, ls, v.drop_last());
    }
}

proof fn lemma_entries_front(ks: Seq<Key>, v: Seq<Val>)
    requires
        v.len() > 0,
        ks.len() == v.len(),
    ensures
        entry_writes(ks, v) == key_writes(ks[0]) + (value_writes(v[0]) + entry_writes(
            ks.drop_first(),
            v.drop_first(),
        )),
    decreases v.len(),
{
    let w = v.drop_first();
    let ls = ks.drop_first();
    if v.len() == 1 {
        assert(v.drop_last() =~= Seq::empty());
        assert(w =~= Seq::empty());
        assert(entry_writes(ks, v.drop_last()) == Seq::<Seq<u8>>::empty());
        assert(entry_writes(ls, w) == Seq::<Seq<u8>>::empty());
        assert(v.last() == v[0]);
        assert(entry_writes(ks, v) =~= key_writes(ks[0]) + (value_writes(v[0]) + entry_writes(
            ls,
            w,
        )));
    } else {
        let v1 = v.drop_last();
        let k1 = ks.drop_last();
        lemma_entries_front(k1, v1);
        lemma_entries_prefix(ks, k1, v1);
        assert(v1.drop_first() =~= w.drop_last());
        lemma_entries_prefix(k1.drop_first(), ls, w.drop_last());
        assert(ls[w.len() - 1] == ks[v.len() - 1]);
        let a = key_writes(ks[0]);
        let b = value_writes(v[0]);
        let c = entry_writes(ls, w.drop_last());
        let e = key_writes(ks[v.len() - 1]);
        let f = value_writes(v.last());
        assert(v1[0] == v[0] && k1[0] == ks[0] && w.last() == v.last());
        assert(entry_writes(ks, v) == a + (b + c) + e + f);
        assert(entry_writes(ls, w) == c + e + f);
        assert(a + (b + c) + e + f =~= a + (b + (c + e + f)));
        assert(entry_writes(ks, v) =~= key_writes(ks[0]) + (value_writes(v[0]) + entry_writes(
            ls,
            w,
        )));
    }
}

proof fn lemma_word_lists_apart(x: Seq<u64>, r: Seq<u8>, y: Seq<u64>, q: Seq<u8>)
    requires
        x.len() == y.len(),
        joined(word_writes(x)) + r == joined(word_writes(y)) + q,
    ensures
        x == y,
        r == q,
    decreases x.len(),
{
    lemma_words_len(x);
    lemma_words_len(y);
    lemma_halves(joined(word_writes(x)), r, joined(word_writes(y)), q);
    if x.len() > 0 {
        let x1 = x.drop_last();
        let y1 = y.drop_last();
        assert(word_writes(x).drop_last() =~= word_writes(x1));
        assert(word_writes(y).drop_last() =~= word_writes(y1));
        lemma_words_len(x1);
        lemma_words_len(y1);
        lemma_halves(
            joined(word_writes(x1)),
            word(x.last()),
            joined(word_writes(y1)),
            word(y.last()),
        );
        lemma_words(x.last(), y.last());
        let none = Seq::<u8>::empty();
        lemma_word_lists_apart(x1, none, y1, none);
        assert(x =~= x1.push(x.last()));
        assert(y =~= y1.push(y.last()));
    } else {
        assert(x =~= y);
    }
}

proof fn lemma_words_len(x: Seq<u64>)
    ensures
        joined(word_writes(x)).len() == 8 * x.len(),
    decreases x.len(),
{
    if x.len() > 0 {
        assert(word_writes(x).drop_last() =~= word_writes(x.drop_last()));
        lemma_words_len(x.drop_last());
        lemma_words(x.last(), x.last());
    }
}

proof fn lemma_key_lists_apart(x: Seq<Key>, r: Seq<u8>, y: Seq<Key>, q: Seq<u8>)
    requires
        x.len() == y.len(),
        keys_fit(x),
        keys_fit(y),
        joined(keys_writes(x)) + r == joined(keys_writes(y)) + q,
    ensures
        x == y,
        r == q,
    decreases x.len(),
{
    if x.len() > 0 {
        let x1 = x.drop_first();
        let y1 = y.drop_first();
        lemma_keys_front(x);
        lemma_keys_front(y);
        lemma_joined(key_writes(x[0]), keys_writes(x1));
        lemma_joined(key_writes(y[0]), keys_writes(y1));
        let a = joined(key_writes(x[0]));
        let b = joined(key_writes(y[0]));
        let c = joined(keys_writes(x1));
        let d = joined(keys_writes(y1));
        assert(a + c + r =~= a + (c + r));
        assert(b + d + q =~= b + (d + q));
        lemma_keys_apart(x[0], c + r, y[0], d + q);
        assert(keys_fit(x1)) by {
            assert forall|i: int| 0 <= i < x1.len() implies key_fits(#[trigger] x1[i]) by {
                assert(x1[i] == x[i + 1]);
            }
        }
        assert(keys_fit(y1)) by {
            assert forall|i: int| 0 <= i < y1.len() implies key_fits(#[trigger] y1[i]) by {
                assert(y1[i] == y[i + 1]);
            }
        }
        lemma_key_lists_apart(x1, r, y1, q);
        assert(x =~= seq![x[0]] + x1);
        assert(y =~= seq![y[0]] + y1);
    } else {
        assert(x =~= y);
        assert(joined(keys_writes(x)) =~= Seq::empty());
        assert(joined(keys_writes(y)) =~= Seq::empty());
        assert(joined(keys_writes(x)) + r =~= r);
        assert(joined(keys_writes(y)) + q =~= q);
    }
}

/// Lists of values of the same length, in front of other bytes.
proof fn lemma_lists_apart(x: Seq<Val>, r: Seq<u8>, y: Seq<Val>, q: Seq<u8>)
    requires
        x.len() == y.len(),
        all_written_out(x),
        all_written_out(y),
        joined(list_writes(x)) + r == joined(list_writes(y)) + q,
    ensures
        all_alike(x, y),
        r == q,
    decreases x, 1int, x.len(),
{
    if x.len() > 0 {
        let x1 = x.drop_first();
        let y1 = y.drop_first();
        lemma_list_front(x);
        lemma_list_front(y);
        lemma_joined(value_writes(x[0]), list_writes(x1));
        lemma_joined(value_writes(y[0]), list_writes(y1));
        let a = joined(value_writes(x[0]));
        let b = joined(value_writes(y[0]));
        let c = joined(list_writes(x1));
        let d = joined(list_writes(y1));
        assert(a + c + r =~= a + (c + r));
        assert(b + d + q =~= b + (d + q));
        lemma_values_apart(x[0], c + r, y[0], d + q);
        assert forall|i: int| 0 <= i < x1.len() implies is_written_out(#[trigger] x1[i]) by {
            assert(x1[i] == x[i + 1]);
        }
        assert forall|i: int| 0 <= i < y1.len() implies is_written_out(#[trigger] y1[i]) by {
            assert(y1[i] == y[i + 1]);
        }
        lemma_lists_apart(x1, r, y1, q);
        assert forall|i: int| 0 <= i < x.len() implies alike(#[trigger] x[i], y[i]) by {
            if i > 0 {
                assert(x1[i - 1] == x[i] && y1[i - 1] == y[i]);
            }
        }
    } else {
        assert(joined(list_writes(x)) + r =~= r);
        assert(joined(list_writes(y)) + q =~= q);
    }
}

/// Entries of maps of the same size, in front of other bytes.
proof fn lemma_entries_apart(
    ks: Seq<Key>,
    x: Seq<Val>,
    r: Seq<u8>,
    ls: Seq<Key>,
    y: Seq<Val>,
    q: Seq<u8>,
)
    requires
        x.len() == y.len(),
        ks.len() == x.len(),
        ls.len() == y.len(),
        keys_fit(ks),
        keys_fit(ls),
        all_written_out(x),
        all_written_out(y),
        joined(entry_writes(ks, x)) + r == joined(entry_writes(ls, y)) + q,
    ensures
        ks == ls,
        all_alike(x, y),
        r == q,
    decreases x, 1int, x.len(),
{
    if x.len() > 0 {
        let x1 = x.drop_first();
        let y1 = y.drop_first();
        let k1 = ks.drop_first();
        let l1 = ls.drop_first();
        lemma_entries_front(ks, x);
        lemma_entries_front(ls, y);
        lemma_joined(key_writes(ks[0]), value_writes(x[0]) + entry_writes(k1, x1));
        lemma_joined(key_writes(ls[0]), value_writes(y[0]) + entry_writes(l1, y1));
        lemma_joined(value_writes(x[0]), entry_writes(k1, x1));
        lemma_joined(value_writes(y[0]), entry_writes(l1, y1));
        let g = joined(key_writes(ks[0]));
        let h = joined(key_writes(ls[0]));
        let a = joined(value_writes(x[0]));
        let b = joined(value_writes(y[0]));
        let c = joined(entry_writes(k1, x1));
        let d = joined(entry_writes(l1, y1));
        assert(g + (a + c) + r =~= g + (a + (c + r)));
        assert(h + (b + d) + q =~= h + (b + (d + q)));
        lemma_keys_apart(ks[0], a + (c + r), ls[0], b + (d + q));
        lemma_values_apart(x[0], c + r, y[0], d + q);
        assert forall|i: int| 0 <= i < x1.len() implies is_written_out(#[trigger] x1[i]) by {
            assert(x1[i] == x[i + 1]);
        }
        assert forall|i: int| 0 <= i < y1.len() implies is_written_out(#[trigger] y1[i]) by {
            assert(y1[i] == y[i + 1]);
        }
        assert forall|i: int| 0 <= i < k1.len() implies key_fits(#[trigger] k1[i]) by {
            assert(k1[i] == ks[i + 1]);
        }
        assert forall|i: int| 0 <= i < l1.len() implies key_fits(#[trigger] l1[i]) by {
            assert(l1[i] == ls[i + 1]);
        }
        lemma_entries_apart(k1, x1, r, l1, y1, q);
        assert(ks =~= seq![ks[0]] + k1);
        assert(ls =~= seq![ls[0]] + l1);
        assert forall|i: int| 0 <= i < x.len() implies alike(#[trigger] x[i], y[i]) by {
            if i > 0 {
                assert(x1[i - 1] == x[i] && y1[i - 1] == y[i]);
            }
        }
    } else {
        assert(ks =~= ls);
        assert(joined(entry_writes(ks, x)) + r =~= r);
        assert(joined(entry_writes(ls, y)) + q =~= q);
    }
}

/// Two values in front of other bytes.
#[verifier::spinoff_prover]
#[verifier::rlimit(60)]
proof fn lemma_values_apart(a: Val, r: Seq<u8>, b: Val, q: Seq<u8>)
    requires
        is_written_out(a),
        is_written_out(b),
        joined(value_writes(a)) + r == joined(value_writes(b)) + q,
    ensures
        alike(a, b),
        r == q,
    decreases a, 0int, 0nat,
{
    lemma_shape(a);
    lemma_shape(b);
    lemma_alike(a, b);
    lemma_written_out(a);
    lemma_written_out(b);
    let s = seq![tag(a)];
    let t = seq![tag(b)];
    let x = rest(a);
    let y = rest(b);
    assert(s + x + r =~= s + (x + r));
    assert(t + y + q =~= t + (y + q));
    lemma_halves(s, x + r, t, y + q);
    assert(s[0] == t[0]);
    lemma_tags(a, b);
    match (a, b) {
        (Val::Int(m), Val::Int(n)) => {
            lemma_words_split(m as u64, r, n as u64, q);
            lemma_signed_words(m, n);
        },
        (Val::Float(m), Val::Float(n)) => {
            lemma_words_split(m, r, n, q);
        },
        (Val::Bool(m), Val::Bool(n)) => {
            lemma_halves(x, r, y, q);
            assert(x[0] == y[0]);
        },
        (Val::Str(m), Val::Str(n)) => {
            let (u, v) = (bytes_of(m), bytes_of(n));
            assert(x + r =~= length_word(u.len()) + (u + r));
            assert(y + q =~= length_word(v.len()) + (v + q));
            lemma_strings_split(u, r, v, q);
            lemma_bytes_injective(m, n);
        },
        (Val::Bytes(u), Val::Bytes(v)) => {
            assert(x + r =~= length_word(u.len()) + (u + r));
            assert(y + q =~= length_word(v.len()) + (v + q));
            lemma_strings_split(u, r, v, q);
        },
        (Val::Unit, Val::Unit) => {
            assert(x + r =~= r);
            assert(y + q =~= q);
        },
        (Val::List(u), Val::List(v))
        | (Val::Tuple(u), Val::Tuple(v))
        | (Val::Deque(u), Val::Deque(v)) => {
            let (c, d) = (joined(list_writes(u)), joined(list_writes(v)));
            assert(x + r =~= length_word(u.len()) + (c + r));
            assert(y + q =~= length_word(v.len()) + (d + q));
            lemma_lengths_split(u.len(), c + r, v.len(), d + q);
            lemma_lists_apart(u, r, v, q);
        },
        (Val::Variant { name: m, args: u }, Val::Variant { name: n, args: v }) => {
            let (c, d) = (joined(list_writes(u)), joined(list_writes(v)));
            let (e, f) = (bytes_of(m), bytes_of(n));
            let (g, h) = (length_word(u.len()) + c, length_word(v.len()) + d);
            assert(x + r =~= length_word(e.len()) + (e + (g + r)));
            assert(y + q =~= length_word(f.len()) + (f + (h + q)));
            lemma_strings_split(e, g + r, f, h + q);
            lemma_bytes_injective(m, n);
            assert(g + r =~= length_word(u.len()) + (c + r));
            assert(h + q =~= length_word(v.len()) + (d + q));
            lemma_lengths_split(u.len(), c + r, v.len(), d + q);
            lemma_lists_apart(u, r, v, q);
        },
        (
            Val::Closure { body_hash: e, captures: u, .. },
            Val::Closure { body_hash: f, captures: v, .. },
        ) => {
            let (c, d) = (joined(list_writes(u)), joined(list_writes(v)));
            let (g, h) = (length_word(u.len()) + c, length_word(v.len()) + d);
            assert(x + r =~= e + (g + r));
            assert(y + q =~= f + (h + q));
            lemma_halves(e, g + r, f, h + q);
            assert(g + r =~= length_word(u.len()) + (c + r));
            assert(h + q =~= length_word(v.len()) + (d + q));
            lemma_lengths_split(u.len(), c + r, v.len(), d + q);
            lemma_lists_apart(u, r, v, q);
        },
        (
            Val::F64Array { rows: ar, cols: ac, data: u },
            Val::F64Array { rows: br, cols: bc, data: v },
        ) => {
            lemma_auto_spec_u32_to_from_le_bytes();
            let (c, d) = (joined(word_writes(u)), joined(word_writes(v)));
            let (g, h) = (spec_u32_to_le_bytes(ac), spec_u32_to_le_bytes(bc));
            assert(x + r =~= spec_u32_to_le_bytes(ar) + (g + (c + r)));
            assert(y + q =~= spec_u32_to_le_bytes(br) + (h + (d + q)));
            lemma_halves(
                spec_u32_to_le_bytes(ar),
                g + (c + r),
                spec_u32_to_le_bytes(br),
                h + (d + q),
            );
            lemma_halves(g, c + r, h, d + q);
            lemma_word_lists_apart(u, r, v, q);
        },
        (Val::Dict { keys: ks, values: u }, Val::Dict { keys: ls, values: v }) => {
            let (c, d) = (joined(entry_writes(ks, u)), joined(entry_writes(ls, v)));
            assert(x + r =~= length_word(u.len()) + (c + r));
            assert(y + q =~= length_word(v.len()) + (d + q));
            lemma_lengths_split(u.len(), c + r, v.len(), d + q);
            lemma_entries_apart(ks, u, r, ls, v, q);
        },
        (Val::KeySet(u), Val::KeySet(v)) => {
            let (c, d) = (joined(keys_writes(u)), joined(keys_writes(v)));
            assert(x + r =~= length_word(u.len()) + (c + r));
            assert(y + q =~= length_word(v.len()) + (d + q));
            lemma_lengths_split(u.len(), c + r, v.len(), d + q);
            lemma_key_lists_apart(u, r, v, q);
        },
        (Val::Actor(m), Val::Actor(n)) => {
            lemma_words_split(m, r, n, q);
        },
        (Val::Ticker(m), Val::Ticker(n)) => {
            lemma_words_split(m, r, n, q);
        },
        _ => {},
    }
}

/// Law: what is fed to the hasher determines the arguments. Argument lists
/// without records and tables of which the same bytes are hashed are the same,
/// so different ones have the same memo key only if digests collide.
pub proof fn law_hashed_bytes_determine_the_arguments(x: Seq<Val>, y: Seq<Val>)
    requires
        all_written_out(x),
        all_written_out(y),
        fits(x.len()),
        fits(y.len()),
        joined(args_writes(x)) == joined(args_writes(y)),
    ensures
        all_alike(x, y),
{
    let none = Seq::<u8>::empty();
    let (m, n) = (length_word(x.len()), length_word(y.len()));
    lemma_joined(seq![m], list_writes(x));
    lemma_joined(seq![n], list_writes(y));
    lemma_joined_few(m, none, none, none);
    lemma_joined_few(n, none, none, none);
    let (c, d) = (joined(list_writes(x)), joined(list_writes(y)));
    assert(c + none =~= c && d + none =~= d);
    lemma_lengths_split(x.len(), c, y.len(), d);
    lemma_lists_apart(x, none, y, none);
}

/// Law: the same of the writes themselves.
pub proof fn law_writes_determine_the_arguments(x: Seq<Val>, y: Seq<Val>)
    requires
        all_written_out(x),
        all_written_out(y),
        fits(x.len()),
        fits(y.len()),
        args_writes(x) == args_writes(y),
    ensures
        all_alike(x, y),
{
    law_hashed_bytes_determine_the_arguments(x, y);
}

} // verus!
