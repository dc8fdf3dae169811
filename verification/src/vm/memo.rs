//! Memoization of pure functions: the key of a call, the bound on what a key
//! may cost, and the rule that switches memoization off for a function whose
//! calls do not repeat.
//!
//! The cache compares keys only, so argument lists that are equal must have
//! the same key. A key is made of two digests of the same writes, of which the
//! second starts with one more byte.

use std::collections::hash_map::DefaultHasher;
use std::hash::Hasher;
use vstd::prelude::*;
use vstd::std_specs::hash::DefaultHasherAdditionalSpecFns;

use crate::float_bits;
use crate::text::bytes_of;
use crate::value;
use crate::value::{Field, Key, MapEntry, MapKey, Val, Value};
use crate::value_ops;

verus! {

broadcast use crate::value::lemma_view;

/// How many calls a function has to show a first hit.
pub const MEMO_WARMUP_CALLS: u32 = 64;

/// The largest argument payload that is hashed.
pub const MEMO_MAX_ARG_BYTES: usize = 4096;

/// Whether the calls of one function are worth remembering.
#[derive(Debug, Clone, Copy, PartialEq, Eq, Structural)]
pub struct MemoFnState {
    pub calls: u32,
    pub hits: u32,
    pub enabled: bool,
}

/// `x + 1`, or `x` where that is too large.
pub open spec fn bump(x: u32) -> u32 {
    if x < u32::MAX {
        (x + 1) as u32
    } else {
        x
    }
}

impl MemoFnState {
    /// A function starts enabled.
    pub fn new() -> (s: MemoFnState)
        ensures
            s == (MemoFnState { calls: 0, hits: 0, enabled: true }),
    {
        MemoFnState { calls: 0, hits: 0, enabled: true }
    }

    /// The state behind a probe of the cache.
    pub open spec fn after_probe(self, hit: bool) -> MemoFnState {
        let calls = bump(self.calls);
        if hit {
            MemoFnState { calls, hits: bump(self.hits), enabled: self.enabled }
        } else {
            MemoFnState {
                calls,
                hits: self.hits,
                enabled: self.enabled && !(calls >= MEMO_WARMUP_CALLS && self.hits == 0),
            }
        }
    }

    /// Counts a probe. A function that has gone through the warm-up without a
    /// hit is switched off for good.
    pub fn probe(&mut self, hit: bool)
        ensures
            *final(self) == old(self).after_probe(hit),
    {
        if self.calls < u32::MAX {
            self.calls = self.calls + 1;
        }
        if hit {
            if self.hits < u32::MAX {
                self.hits = self.hits + 1;
            }
        } else if self.calls >= MEMO_WARMUP_CALLS && self.hits == 0 {
            self.enabled = false;
        }
    }
}

// ---------------------------------------------------------------------------
// What a key costs
// ---------------------------------------------------------------------------

/// The bytes of a text or a byte string plus one per value, nested ones
/// included.
pub open spec fn arg_cost(v: Val) -> nat
    decreases v,
{
    match v {
        Val::Str(s) => bytes_of(s).len() + 1,
        Val::Bytes(b) => b.len() + 1,
        Val::List(items) => 1 + args_cost(items),
        Val::Tuple(items) => 1 + args_cost(items),
        Val::Record { values, .. } => 1 + args_cost(values),
        Val::Dict { values, .. } => 1 + args_cost(values),
        Val::Variant { args, .. } => 1 + args_cost(args),
        _ => 1,
    }
}

/// The cost of all arguments.
pub open spec fn args_cost(v: Seq<Val>) -> nat
    decreases v,
{
    if v.len() == 0 {
        0
    } else {
        args_cost(v.drop_last()) + arg_cost(v.last())
    }
}

proof fn lemma_costs_grow(v: Seq<Val>, k: int)
    requires
        0 <= k <= v.len(),
    ensures
        args_cost(v.take(k)) <= args_cost(v),
    decreases v.len(),
{
    if k < v.len() {
        lemma_costs_grow(v.drop_last(), k);
        assert(v.drop_last().take(k) =~= v.take(k));
    } else {
        assert(v.take(k) =~= v);
    }
}

proof fn lemma_cost_step(v: Seq<Val>, i: int)
    requires
        0 <= i < v.len(),
    ensures
        args_cost(v.take(i + 1)) == args_cost(v.take(i)) + arg_cost(v[i]),
{
    assert(v.take(i + 1).drop_last() =~= v.take(i));
}

/// Takes the cost of a value off a budget, if it is not larger.
fn spend(v: &Value, budget: usize) -> (left: Option<usize>)
    ensures
        left matches Some(l) ==> l + arg_cost(v@) == budget,
        left is None ==> arg_cost(v@) > budget,
    decreases v,
{
    proof {
        assert(v@ == value::view_of(*v));
    }
    match v {
        Value::Str(s) => {
            let n: usize = s.as_str().as_bytes().len();
            if n >= budget {
                None
            } else {
                Some(budget - n - 1)
            }
        },
        Value::Bytes(b) => {
            if b.len() >= budget {
                None
            } else {
                Some(budget - b.len() - 1)
            }
        },
        Value::List(items) => if budget == 0 {
            None
        } else {
            spend_all(items, budget - 1)
        },
        Value::Tuple(items) => if budget == 0 {
            None
        } else {
            spend_all(items, budget - 1)
        },
        Value::Record { fields, .. } => if budget == 0 {
            None
        } else {
            spend_fields(fields, budget - 1)
        },
        Value::Dict(entries) => if budget == 0 {
            None
        } else {
            spend_entries(entries, budget - 1)
        },
        Value::Variant { args, .. } => if budget == 0 {
            None
        } else {
            spend_all(args, budget - 1)
        },
        _ => if budget == 0 {
            None
        } else {
            Some(budget - 1)
        },
    }
}

fn spend_all(v: &Vec<Value>, budget: usize) -> (left: Option<usize>)
    ensures
        left matches Some(l) ==> l + args_cost(value::vals(v@)) == budget,
        left is None ==> args_cost(value::vals(v@)) > budget,
    decreases v,
{
    let ghost all = value::vals(v@);
    let mut left: usize = budget;
    let mut i: usize = 0;
    assert(all.take(0) =~= Seq::<Val>::empty());
    while i < v.len()
        invariant
            i <= v.len(),
            all == value::vals(v@),
            left + args_cost(all.take(i as int)) == budget,
        decreases v.len() - i,
    {
        proof {
            lemma_cost_step(all, i as int);
            lemma_costs_grow(all, i + 1);
        }
        let next = spend(&v[i], left);
        match next {
            Some(l) => {
                left = l;
            },
            None => {
                return None;
            },
        }
        i = i + 1;
    }
    assert(all.take(i as int) =~= all);
    Some(left)
}

fn spend_fields(v: &Vec<Field>, budget: usize) -> (left: Option<usize>)
    ensures
        left matches Some(l) ==> l + args_cost(value::field_vals(v@)) == budget,
        left is None ==> args_cost(value::field_vals(v@)) > budget,
    decreases v,
{
    let ghost all = value::field_vals(v@);
    let mut left: usize = budget;
    let mut i: usize = 0;
    assert(all.take(0) =~= Seq::<Val>::empty());
    while i < v.len()
        invariant
            i <= v.len(),
            all == value::field_vals(v@),
            left + args_cost(all.take(i as int)) == budget,
        decreases v.len() - i,
    {
        proof {
            lemma_cost_step(all, i as int);
            lemma_costs_grow(all, i + 1);
        }
        let next = spend(&v[i].value, left);
        match next {
            Some(l) => {
                left = l;
            },
            None => {
                return None;
            },
        }
        i = i + 1;
    }
    assert(all.take(i as int) =~= all);
    Some(left)
}

fn spend_entries(v: &Vec<MapEntry>, budget: usize) -> (left: Option<usize>)
    ensures
        left matches Some(l) ==> l + args_cost(value::entry_vals(v@)) == budget,
        left is None ==> args_cost(value::entry_vals(v@)) > budget,
    decreases v,
{
    let ghost all = value::entry_vals(v@);
    let mut left: usize = budget;
    let mut i: usize = 0;
    assert(all.take(0) =~= Seq::<Val>::empty());
    while i < v.len()
        invariant
            i <= v.len(),
            all == value::entry_vals(v@),
            left + args_cost(all.take(i as int)) == budget,
        decreases v.len() - i,
    {
        proof {
            lemma_cost_step(all, i as int);
            lemma_costs_grow(all, i + 1);
        }
        let next = spend(&v[i].value, left);
        match next {
            Some(l) => {
                left = l;
            },
            None => {
                return None;
            },
        }
        i = i + 1;
    }
    assert(all.take(i as int) =~= all);
    Some(left)
}

/// Whether hashing the arguments costs more than the budget. The walk stops as
/// soon as the budget is spent.
pub fn memo_args_exceed(args: &Vec<Value>, budget: usize) -> (yes: bool)
    ensures
        yes <==> args_cost(value::vals(args@)) > budget,
{
    spend_all(args, budget).is_none()
}

// ---------------------------------------------------------------------------
// The key
// ---------------------------------------------------------------------------

/// Eight bytes, least significant first.
pub open spec fn word(x: u64) -> Seq<u8> {
    vstd::bytes::spec_u64_to_le_bytes(x)
}

/// A length as a word.
pub open spec fn length_word(n: nat) -> Seq<u8> {
    word(n as u64)
}

/// The writes of a key of a map or a set.
pub open spec fn key_writes(k: Key) -> Seq<Seq<u8>> {
    match k {
        Key::Str(s) => seq![seq![0x01u8], length_word(bytes_of(s).len()), bytes_of(s)],
        Key::Int(n) => seq![seq![0x02u8], word(n as u64)],
    }
}

pub open spec fn keys_writes(ks: Seq<Key>) -> Seq<Seq<u8>>
    decreases ks.len(),
{
    if ks.len() == 0 {
        Seq::empty()
    } else {
        keys_writes(ks.drop_last()) + key_writes(ks.last())
    }
}

/// The bit patterns of a matrix.
pub open spec fn word_writes(d: Seq<u64>) -> Seq<Seq<u8>> {
    Seq::new(d.len(), |i: int| word(d[i]))
}

/// The names of the columns of a table.
pub open spec fn column_writes(names: Seq<Seq<char>>) -> Seq<Seq<u8>>
    decreases names.len(),
{
    if names.len() == 0 {
        Seq::empty()
    } else {
        column_writes(names.drop_last()) + seq![bytes_of(names.last()), seq![0xfeu8]]
    }
}

/// The writes of a value: a tag, then what equality looks at.
pub open spec fn value_writes(v: Val) -> Seq<Seq<u8>>
    decreases v, 0int,
{
    match v {
        Val::Int(n) => seq![seq![0x01u8], word(n as u64)],
        Val::Float(f) => seq![seq![0x02u8], word(f)],
        Val::Bool(b) => seq![seq![0x03u8], seq![if b { 1u8 } else { 0u8 }]],
        Val::Str(s) => seq![seq![0x04u8], length_word(bytes_of(s).len()), bytes_of(s)],
        Val::Bytes(b) => seq![seq![0x05u8], length_word(b.len()), b],
        Val::Unit => seq![seq![0x06u8]],
        Val::List(items) => seq![seq![0x07u8], length_word(items.len())] + list_writes(items),
        Val::Tuple(items) => seq![seq![0x08u8], length_word(items.len())] + list_writes(items),
        Val::Deque(items) => seq![seq![0x09u8], length_word(items.len())] + list_writes(items),
        Val::Record { names, values, .. } => seq![
            seq![0x0au8],
            word((fields_sum(names, values) % 0x1_0000_0000_0000_0000) as u64),
            length_word(values.len()),
        ],
        Val::Variant { name, args } => seq![
            seq![0x0bu8],
            length_word(bytes_of(name).len()),
            bytes_of(name),
            length_word(args.len()),
        ] + list_writes(args),
        Val::Closure { body_hash, captures, .. } => seq![
            seq![0x0cu8],
            body_hash,
            length_word(captures.len()),
        ] + list_writes(captures),
        Val::F64Array { rows, cols, data } => seq![
            seq![0x0du8],
            vstd::bytes::spec_u32_to_le_bytes(rows),
            vstd::bytes::spec_u32_to_le_bytes(cols),
        ] + word_writes(data),
        Val::Dict { keys, values } => seq![seq![0x0eu8], length_word(values.len())]
            + entry_writes(keys, values),
        Val::KeySet(ks) => seq![seq![0x0fu8], length_word(ks.len())] + keys_writes(ks),
        Val::Actor(h) => seq![seq![0x10u8], word(h)],
        Val::Ticker(h) => seq![seq![0x11u8], word(h)],
        Val::ArrowTable(t) => seq![
            seq![0x12u8],
            word(t.num_rows as u64),
            word(t.num_columns as u64),
        ] + column_writes(t.names),
        _ => Seq::empty(),
    }
}

/// The writes of values one after the other.
pub open spec fn list_writes(v: Seq<Val>) -> Seq<Seq<u8>>
    decreases v, 1int,
{
    if v.len() == 0 {
        Seq::empty()
    } else {
        list_writes(v.drop_last()) + value_writes(v.last())
    }
}

pub open spec fn entry_writes(ks: Seq<Key>, v: Seq<Val>) -> Seq<Seq<u8>>
    decreases v, 1int,
{
    if v.len() == 0 {
        Seq::empty()
    } else {
        entry_writes(ks, v.drop_last()) + key_writes(ks[v.len() - 1]) + value_writes(v.last())
    }
}

/// The sum of the digests of the fields. A sum does not depend on the order of
/// its terms.
pub open spec fn fields_sum(names: Seq<Seq<char>>, v: Seq<Val>) -> int
    decreases v, 1int,
{
    if v.len() == 0 {
        0
    } else {
        fields_sum(names, v.drop_last()) + DefaultHasher::spec_finish(
            seq![bytes_of(names[v.len() - 1]), seq![0xffu8]] + value_writes(v.last()),
        )
    }
}

/// All writes of an argument list.
pub open spec fn args_writes(args: Seq<Val>) -> Seq<Seq<u8>> {
    seq![length_word(args.len())] + list_writes(args)
}

/// The memo key of an argument list.
pub open spec fn memo_key(args: Seq<Val>) -> Seq<u8> {
    word(DefaultHasher::spec_finish(args_writes(args))) + word(
        DefaultHasher::spec_finish(seq![seq![0x9eu8]] + args_writes(args)),
    )
}

fn put_byte(h: &mut DefaultHasher, b: u8)
    ensures
        final(h)@ == old(h)@.push(seq![b]),
{
    let mut v: Vec<u8> = Vec::new();
    v.push(b);
    assert(v@ =~= seq![b]);
    h.write(v.as_slice());
}

fn put_word(h: &mut DefaultHasher, x: u64)
    ensures
        final(h)@ == old(h)@.push(word(x)),
{
    let v = vstd::bytes::u64_to_le_bytes(x);
    h.write(v.as_slice());
}

fn put_text(h: &mut DefaultHasher, s: &str)
    ensures
        final(h)@ == old(h)@ + seq![length_word(bytes_of(s@).len()), bytes_of(s@)],
{
    let b = s.as_bytes();
    put_word(h, b.len() as u64);
    h.write(b);
    assert(h@ =~= old(h)@ + seq![length_word(bytes_of(s@).len()), bytes_of(s@)]);
}

/// Feeds a key of a map or a set into the hasher.
pub fn hash_mapkey_into(k: &MapKey, h: &mut DefaultHasher)
    ensures
        final(h)@ == old(h)@ + key_writes(k@),
{
    match k {
        MapKey::Str(s) => {
            put_byte(h, 0x01);
            put_text(h, s.as_str());
        },
        MapKey::Int(n) => {
            put_byte(h, 0x02);
            put_word(h, *n as u64);
        },
    }
    assert(h@ =~= old(h)@ + key_writes(k@));
}

fn hash_list_into(v: &Vec<Value>, h: &mut DefaultHasher)
    requires
        value_ops::all_owned(value::vals(v@)),
    ensures
        final(h)@ == old(h)@ + list_writes(value::vals(v@)),
    decreases v, 1int,
{
    let ghost h0 = h@;
    let ghost all = value::vals(v@);
    let mut i: usize = 0;
    assert(all.take(0) =~= Seq::<Val>::empty());
    assert(h@ =~= h0 + list_writes(all.take(0)));
    while i < v.len()
        invariant
            i <= v.len(),
            all == value::vals(v@),
            value_ops::all_owned(all),
            h@ == h0 + list_writes(all.take(i as int)),
        decreases v.len() - i,
    {
        proof {
            assert(all.take(i + 1).drop_last() =~= all.take(i as int));
            assert(value_ops::is_owned(all[i as int]));
        }
        let ghost h1 = h@;
        hash_value_into(&v[i], h);
        assert(h@ =~= h0 + (list_writes(all.take(i as int)) + value_writes(all[i as int])));
        i = i + 1;
    }
    assert(all.take(i as int) =~= all);
}

fn sum_fields(v: &Vec<Field>) -> (sum: u64)
    requires
        value_ops::all_owned(value::field_vals(v@)),
    ensures
        sum == fields_sum(value::field_names(v@), value::field_vals(v@))
            % 0x1_0000_0000_0000_0000,
    decreases v, 1int,
{
    let ghost all = value::field_vals(v@);
    let ghost names = value::field_names(v@);
    let mut sum: u64 = 0;
    let mut i: usize = 0;
    assert(all.take(0) =~= Seq::<Val>::empty());
    while i < v.len()
        invariant
            i <= v.len(),
            all == value::field_vals(v@),
            names == value::field_names(v@),
            value_ops::all_owned(all),
            sum == fields_sum(names, all.take(i as int)) % 0x1_0000_0000_0000_0000,
        decreases v.len() - i,
    {
        let mut e = DefaultHasher::new();
        e.write(v[i].name.as_str().as_bytes());
        put_byte(&mut e, 0xff);
        proof {
            assert(value_ops::is_owned(all[i as int]));
        }
        hash_value_into(&v[i].value, &mut e);
        let d: u64 = e.finish();
        proof {
            assert(all.take(i + 1).drop_last() =~= all.take(i as int));
            assert(e@ =~= seq![bytes_of(names[i as int]), seq![0xffu8]] + value_writes(
                all[i as int],
            ));
            vstd::arithmetic::div_mod::lemma_add_mod_noop(
                fields_sum(names, all.take(i as int)),
                d as int,
                0x1_0000_0000_0000_0000,
            );
        }
        sum = sum.wrapping_add(d);
        i = i + 1;
    }
    assert(all.take(i as int) =~= all);
    sum
}

fn hash_entries_into(v: &Vec<MapEntry>, h: &mut DefaultHasher)
    requires
        value_ops::all_owned(value::entry_vals(v@)),
    ensures
        final(h)@ == old(h)@ + entry_writes(value::entry_keys(v@), value::entry_vals(v@)),
    decreases v, 1int,
{
    let ghost h0 = h@;
    let ghost all = value::entry_vals(v@);
    let ghost ks = value::entry_keys(v@);
    let mut i: usize = 0;
    assert(all.take(0) =~= Seq::<Val>::empty());
    assert(h@ =~= h0 + entry_writes(ks, all.take(0)));
    while i < v.len()
        invariant
            i <= v.len(),
            all == value::entry_vals(v@),
            ks == value::entry_keys(v@),
            value_ops::all_owned(all),
            h@ == h0 + entry_writes(ks, all.take(i as int)),
        decreases v.len() - i,
    {
        proof {
            assert(all.take(i + 1).drop_last() =~= all.take(i as int));
            assert(value_ops::is_owned(all[i as int]));
        }
        hash_mapkey_into(&v[i].key, h);
        hash_value_into(&v[i].value, h);
        assert(h@ =~= h0 + (entry_writes(ks, all.take(i as int)) + key_writes(ks[i as int])
            + value_writes(all[i as int])));
        i = i + 1;
    }
    assert(all.take(i as int) =~= all);
}

fn hash_keys_into(v: &Vec<MapKey>, h: &mut DefaultHasher)
    ensures
        final(h)@ == old(h)@ + keys_writes(value::keys(v@)),
{
    let ghost h0 = h@;
    let ghost ks = value::keys(v@);
    let mut i: usize = 0;
    assert(h@ =~= h0 + keys_writes(ks.take(0)));
    while i < v.len()
        invariant
            i <= v.len(),
            ks == value::keys(v@),
            h@ == h0 + keys_writes(ks.take(i as int)),
        decreases v.len() - i,
    {
        assert(ks.take(i + 1).drop_last() =~= ks.take(i as int));
        hash_mapkey_into(&v[i], h);
        assert(h@ =~= h0 + (keys_writes(ks.take(i as int)) + key_writes(ks[i as int])));
        i = i + 1;
    }
    assert(ks.take(i as int) =~= ks);
}

/// Feeds a value into the hasher, in step with the equality of values. The
/// first byte keeps the kinds of values apart.
pub fn hash_value_into(v: &Value, h: &mut DefaultHasher)
    requires
        value_ops::is_owned(v@),
    ensures
        final(h)@ == old(h)@ + value_writes(v@),
    decreases v, 2int,
{
    let ghost h0 = h@;
    proof {
        assert(v@ == value::view_of(*v));
        value_ops::lemma_is_owned(v@);
    }
    match v {
        Value::Int(n) => {
            put_byte(h, 0x01);
            put_word(h, *n as u64);
        },
        Value::Float(f) => {
            put_byte(h, 0x02);
            put_word(h, *f);
        },
        Value::Bool(b) => {
            put_byte(h, 0x03);
            put_byte(h, if *b { 1 } else { 0 });
        },
        Value::Str(s) => {
            put_byte(h, 0x04);
            put_text(h, s.as_str());
        },
        Value::Bytes(b) => {
            put_byte(h, 0x05);
            put_word(h, b.len() as u64);
            h.write(b.as_slice());
        },
        Value::Unit => {
            put_byte(h, 0x06);
        },
        Value::List(items) => {
            put_byte(h, 0x07);
            put_word(h, items.len() as u64);
            hash_list_into(items, h);
        },
        Value::Tuple(items) => {
            put_byte(h, 0x08);
            put_word(h, items.len() as u64);
            hash_list_into(items, h);
        },
        Value::Deque(items) => {
            put_byte(h, 0x09);
            put_word(h, items.len() as u64);
            hash_list_into(items, h);
        },
        Value::Record { fields, .. } => {
            put_byte(h, 0x0a);
            let sum: u64 = sum_fields(fields);
            put_word(h, sum);
            put_word(h, fields.len() as u64);
        },
        Value::Variant { name, args } => {
            put_byte(h, 0x0b);
            put_text(h, name.as_str());
            put_word(h, args.len() as u64);
            hash_list_into(args, h);
        },
        Value::Closure { body_hash, captures, .. } => {
            put_byte(h, 0x0c);
            h.write(body_hash.as_slice());
            put_word(h, captures.len() as u64);
            hash_list_into(captures, h);
        },
        Value::F64Array { rows, cols, data } => {
            put_byte(h, 0x0d);
            let r = vstd::bytes::u32_to_le_bytes(*rows);
            h.write(r.as_slice());
            let c = vstd::bytes::u32_to_le_bytes(*cols);
            h.write(c.as_slice());
            let ghost h1 = h@;
            let mut i: usize = 0;
            assert(h@ =~= h1 + word_writes(data@.take(0)));
            while i < data.len()
                invariant
                    i <= data.len(),
                    h@ == h1 + word_writes(data@.take(i as int)),
                decreases data.len() - i,
            {
                put_word(h, data[i]);
                i = i + 1;
                assert(h@ =~= h1 + word_writes(data@.take(i as int)));
            }
            assert(data@.take(i as int) =~= data@);
        },
        Value::Dict(entries) => {
            put_byte(h, 0x0e);
            put_word(h, entries.len() as u64);
            hash_entries_into(entries, h);
        },
        Value::KeySet(ks) => {
            put_byte(h, 0x0f);
            put_word(h, ks.len() as u64);
            hash_keys_into(ks, h);
        },
        Value::Actor(a) => {
            put_byte(h, 0x10);
            put_word(h, *a);
        },
        Value::Ticker(t) => {
            put_byte(h, 0x11);
            put_word(h, *t);
        },
        Value::ArrowTable(t) => {
            put_byte(h, 0x12);
            put_word(h, t.num_rows as u64);
            put_word(h, t.num_columns as u64);
            let ghost h1 = h@;
            let ghost names = t@.names;
            let mut i: usize = 0;
            assert(h@ =~= h1 + column_writes(names.take(0)));
            while i < t.schema.len()
                invariant
                    i <= t.schema.len(),
                    names == t@.names,
                    h@ == h1 + column_writes(names.take(i as int)),
                decreases t.schema.len() - i,
            {
                h.write(t.schema[i].name.as_str().as_bytes());
                put_byte(h, 0xfe);
                assert(names.take(i + 1).drop_last() =~= names.take(i as int));
                assert(h@ =~= h1 + (column_writes(names.take(i as int)) + seq![
                    bytes_of(names[i as int]),
                    seq![0xfeu8],
                ]));
                i = i + 1;
            }
            assert(names.take(i as int) =~= names);
        },
        _ => {},
    }
    assert(h@ =~= h0 + value_writes(v@));
}

/// The memo key of a call.
pub fn hash_call_args(args: &Vec<Value>) -> (key: [u8; 16])
    requires
        value_ops::all_owned(value::vals(args@)),
    ensures
        key@ == memo_key(value::vals(args@)),
{
    let mut h0 = DefaultHasher::new();
    let mut h1 = DefaultHasher::new();
    put_byte(&mut h1, 0x9e);
    put_word(&mut h0, args.len() as u64);
    put_word(&mut h1, args.len() as u64);
    hash_list_into(args, &mut h0);
    hash_list_into(args, &mut h1);
    assert(h0@ =~= args_writes(value::vals(args@)));
    assert(h1@ =~= seq![seq![0x9eu8]] + args_writes(value::vals(args@)));
    let lo = vstd::bytes::u64_to_le_bytes(h0.finish());
    let hi = vstd::bytes::u64_to_le_bytes(h1.finish());
    proof {
        vstd::bytes::lemma_auto_spec_u64_to_from_le_bytes();
    }
    let key: [u8; 16] = [
        lo[0],
        lo[1],
        lo[2],
        lo[3],
        lo[4],
        lo[5],
        lo[6],
        lo[7],
        hi[0],
        hi[1],
        hi[2],
        hi[3],
        hi[4],
        hi[5],
        hi[6],
        hi[7],
    ];
    assert(key@ =~= memo_key(value::vals(args@)));
    key
}

// ---------------------------------------------------------------------------
// Laws
// ---------------------------------------------------------------------------

/// The record names no field twice, and no number is a negative zero, here and
/// in all nested values.
pub open spec fn is_tidy(v: Val) -> bool
    decreases v,
{
    match v {
        Val::Float(f) => f != float_bits::SIGN_BIT,
        Val::F64Array { data, .. } => forall|i: int|
            0 <= i < data.len() ==> #[trigger] data[i] != float_bits::SIGN_BIT,
        Val::List(items) => forall|i: int| 0 <= i < items.len() ==> is_tidy(#[trigger] items[i]),
        Val::Tuple(items) => forall|i: int| 0 <= i < items.len() ==> is_tidy(#[trigger] items[i]),
        Val::Deque(items) => forall|i: int| 0 <= i < items.len() ==> is_tidy(#[trigger] items[i]),
        Val::Variant { args, .. } => forall|i: int|
            0 <= i < args.len() ==> is_tidy(#[trigger] args[i]),
        Val::Closure { captures, .. } => forall|i: int|
            0 <= i < captures.len() ==> is_tidy(#[trigger] captures[i]),
        Val::Dict { values, .. } => forall|i: int|
            0 <= i < values.len() ==> is_tidy(#[trigger] values[i]),
        Val::Record { names, values, .. } => names.len() == values.len() && names.no_duplicates()
            && forall|i: int| 0 <= i < values.len() ==> is_tidy(#[trigger] values[i]),
        _ => true,
    }
}

pub open spec fn all_tidy(v: Seq<Val>) -> bool {
    forall|i: int| 0 <= i < v.len() ==> is_tidy(#[trigger] v[i])
}

/// Equal numbers that are no negative zeros have the same bits.
proof fn lemma_equal_floats(x: u64, y: u64)
    requires
        float_bits::float_eq(x, y),
        x != float_bits::SIGN_BIT,
        y != float_bits::SIGN_BIT,
    ensures
        x == y,
{
}

/// Field by field, some field of the other record has the same name and the
/// same writes.
spec fn fields_pair_up(
    xn: Seq<Seq<char>>,
    xv: Seq<Val>,
    yn: Seq<Seq<char>>,
    yv: Seq<Val>,
) -> bool {
    forall|i: int| 0 <= i < xv.len() ==> #[trigger] field_pairs_up(xn[i], xv[i], yn, yv)
}

spec fn field_pairs_up(name: Seq<char>, v: Val, yn: Seq<Seq<char>>, yv: Seq<Val>) -> bool {
    exists|j: int|
        0 <= j < yv.len() && yn[j] == name && value_writes(#[trigger] yv[j]) == value_writes(v)
}

spec fn digest_at(names: Seq<Seq<char>>, v: Seq<Val>, i: int) -> int {
    DefaultHasher::spec_finish(seq![bytes_of(names[i]), seq![0xffu8]] + value_writes(v[i])) as int
}

proof fn lemma_sum_prefix(names: Seq<Seq<char>>, other: Seq<Seq<char>>, v: Seq<Val>)
    requires
        forall|i: int| 0 <= i < v.len() ==> names[i] == other[i],
    ensures
        fields_sum(names, v) == fields_sum(other, v),
    decreases v.len(),
{
    if v.len() > 0 {
        lemma_sum_prefix(names, other, v.drop_last());
    }
}

proof fn lemma_sum_remove(names: Seq<Seq<char>>, v: Seq<Val>, j: int)
    requires
        names.len() == v.len(),
        0 <= j < v.len(),
    ensures
        fields_sum(names, v) == digest_at(names, v, j) + fields_sum(names.remove(j), v.remove(j)),
    decreases v.len(),
{
    let last = v.len() - 1;
    if j == last {
        assert(v.remove(j) =~= v.drop_last());
        lemma_sum_prefix(names, names.remove(j), v.drop_last());
    } else {
        let n2 = names.drop_last();
        let v2 = v.drop_last();
        lemma_sum_prefix(names, n2, v2);
        lemma_sum_remove(n2, v2, j);
        let nr = names.remove(j);
        let vr = v.remove(j);
        assert(vr.drop_last() =~= v2.remove(j));
        assert(vr.last() == v.last());
        assert(nr[vr.len() - 1] == names[last]);
        lemma_sum_prefix(nr, n2.remove(j), v2.remove(j));
    }
}

proof fn lemma_sums_agree(
    xn: Seq<Seq<char>>,
    xv: Seq<Val>,
    yn: Seq<Seq<char>>,
    yv: Seq<Val>,
)
    requires
        xn.len() == xv.len(),
        yn.len() == yv.len(),
        xv.len() == yv.len(),
        xn.no_duplicates(),
        yn.no_duplicates(),
        fields_pair_up(xn, xv, yn, yv),
    ensures
        fields_sum(xn, xv) == fields_sum(yn, yv),
    decreases xv.len(),
{
    if xv.len() > 0 {
        let k = xv.len() - 1;
        assert(xv[k] == xv.last());
        assert(field_pairs_up(xn[k], xv[k], yn, yv));
        let j = choose|j: int|
            0 <= j < yv.len() && yn[j] == xn[k] && value_writes(#[trigger] yv[j]) == value_writes(
                xv[k],
            );
        let xn2 = xn.drop_last();
        let xv2 = xv.drop_last();
        let yn2 = yn.remove(j);
        let yv2 = yv.remove(j);
        assert forall|i: int| 0 <= i < xv2.len() implies #[trigger] field_pairs_up(
            xn2[i],
            xv2[i],
            yn2,
            yv2,
        ) by {
            assert(xv2[i] == xv[i]);
            assert(field_pairs_up(xn[i], xv[i], yn, yv));
            let m = choose|m: int|
                0 <= m < yv.len() && yn[m] == xn[i] && value_writes(#[trigger] yv[m])
                    == value_writes(xv[i]);
            assert(xn[i] != xn[k]);
            assert(m != j);
            let m2 = if m < j { m } else { m - 1 };
            assert(yv2[m2] == yv[m]);
            assert(yn2[m2] == yn[m]);
        }
        assert(yn2.no_duplicates()) by {
            assert forall|a: int, b: int|
                0 <= a < yn2.len() && 0 <= b < yn2.len() && a != b implies yn2[a] != yn2[b] by {
                let a2 = if a < j { a } else { a + 1 };
                let b2 = if b < j { b } else { b + 1 };
                assert(yn2[a] == yn[a2] && yn2[b] == yn[b2]);
            }
        }
        lemma_sums_agree(xn2, xv2, yn2, yv2);
        lemma_sum_remove(yn, yv, j);
        lemma_sum_prefix(xn, xn2, xv2);
    }
}

proof fn lemma_equal_lists(x: Seq<Val>, y: Seq<Val>)
    requires
        value_ops::all_eq(x, y),
        all_tidy(x),
        all_tidy(y),
    ensures
        list_writes(x) == list_writes(y),
    decreases x, 1int,
{
    if x.len() > 0 {
        let x2 = x.drop_last();
        let y2 = y.drop_last();
        assert forall|i: int| 0 <= i < x2.len() implies value_ops::val_eq(
            #[trigger] x2[i],
            y2[i],
        ) && is_tidy(x2[i]) by {
            assert(x2[i] == x[i] && y2[i] == y[i]);
        }
        assert forall|i: int| 0 <= i < y2.len() implies is_tidy(#[trigger] y2[i]) by {
            assert(y2[i] == y[i]);
        }
        lemma_equal_lists(x2, y2);
        assert(x[x.len() - 1] == x.last() && y[y.len() - 1] == y.last());
        lemma_equal_values(x.last(), y.last());
    }
}

proof fn lemma_equal_entries(ks: Seq<Key>, x: Seq<Val>, y: Seq<Val>)
    requires
        value_ops::all_eq(x, y),
        all_tidy(x),
        all_tidy(y),
    ensures
        entry_writes(ks, x) == entry_writes(ks, y),
    decreases x, 1int,
{
    if x.len() > 0 {
        let x2 = x.drop_last();
        let y2 = y.drop_last();
        assert forall|i: int| 0 <= i < x2.len() implies value_ops::val_eq(
            #[trigger] x2[i],
            y2[i],
        ) && is_tidy(x2[i]) by {
            assert(x2[i] == x[i] && y2[i] == y[i]);
        }
        assert forall|i: int| 0 <= i < y2.len() implies is_tidy(#[trigger] y2[i]) by {
            assert(y2[i] == y[i]);
        }
        lemma_equal_entries(ks, x2, y2);
        assert(x[x.len() - 1] == x.last() && y[y.len() - 1] == y.last());
        lemma_equal_values(x.last(), y.last());
    }
}

/// Equal values are written alike.
proof fn lemma_equal_values(a: Val, b: Val)
    requires
        value_ops::val_eq(a, b),
        is_tidy(a),
        is_tidy(b),
    ensures
        value_writes(a) == value_writes(b),
    decreases a, 2int,
{
    value_ops::lemma_val_eq(a, b);
    match (a, b) {
        (Val::Float(x), Val::Float(y)) => {
            lemma_equal_floats(x, y);
        },
        (Val::List(x), Val::List(y)) => {
            lemma_equal_lists(x, y);
        },
        (Val::Tuple(x), Val::Tuple(y)) => {
            lemma_equal_lists(x, y);
        },
        (Val::Deque(x), Val::Deque(y)) => {
            lemma_equal_lists(x, y);
        },
        (Val::Variant { args: x, .. }, Val::Variant { args: y, .. }) => {
            lemma_equal_lists(x, y);
        },
        (Val::Closure { captures: x, .. }, Val::Closure { captures: y, .. }) => {
            lemma_equal_lists(x, y);
        },
        (Val::Dict { keys: ks, values: x }, Val::Dict { values: y, .. }) => {
            lemma_equal_entries(ks, x, y);
        },
        (Val::F64Array { data: x, .. }, Val::F64Array { data: y, .. }) => {
            assert forall|i: int| 0 <= i < x.len() implies #[trigger] x[i] == y[i] by {
                lemma_equal_floats(x[i], y[i]);
            }
            assert(x =~= y);
        },
        (
            Val::Record { names: xn, values: xv, .. },
            Val::Record { names: yn, values: yv, .. },
        ) => {
            assert forall|i: int| 0 <= i < xv.len() implies #[trigger] field_pairs_up(
                xn[i],
                xv[i],
                yn,
                yv,
            ) by {
                assert(value_ops::find_name(yn, xn[i]) is Some);
                value_ops::lemma_find_from(yn, xn[i], 0);
                let j = value_ops::find_name(yn, xn[i])->0;
                assert(value_ops::val_eq(xv[i], yv[j]));
                lemma_equal_values(xv[i], yv[j]);
                assert(value_writes(yv[j]) == value_writes(xv[i]));
            }
            lemma_sums_agree(xn, xv, yn, yv);
        },
        _ => {},
    }
}

/// Law: argument lists that are equal have the same memo key, whatever the
/// order of record fields, the shape ids and the function ids of closures. A
/// negative zero is left out: it equals a zero but has other bits, which costs
/// a miss.
pub proof fn law_equal_args_have_equal_keys(x: Seq<Val>, y: Seq<Val>)
    requires
        value_ops::all_eq(x, y),
        all_tidy(x),
        all_tidy(y),
    ensures
        memo_key(x) == memo_key(y),
{
    lemma_equal_lists(x, y);
}

/// Law: a function that hits during the warm-up stays enabled for good; one
/// that does not is switched off at the end of it and never comes back.
pub proof fn law_warm_up_decides(s: MemoFnState, hit: bool)
    ensures
        s.hits > 0 && s.enabled ==> s.after_probe(hit).enabled && s.after_probe(hit).hits > 0,
        !s.enabled ==> !s.after_probe(hit).enabled,
        s.enabled && s.hits == 0 && !hit ==> (s.after_probe(hit).enabled <==> bump(s.calls)
            < MEMO_WARMUP_CALLS),
{
}

} // verus!
