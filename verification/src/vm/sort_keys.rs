//! The order of sort keys, and stable sorting by it.

use vstd::prelude::*;

use crate::float_bits;
use crate::text::{not_after, text_le};
use crate::value;
use crate::value::{vals, Val, Value};

verus! {

broadcast use crate::value::lemma_view;

/// The key `a` may stand in front of the key `b`. Integers, floats and texts
/// have their own order; keys of different or other kinds count as equal, and
/// so does a NaN beside any float.
pub open spec fn key_le(a: Val, b: Val) -> bool {
    match (a, b) {
        (Val::Int(x), Val::Int(y)) => x <= y,
        (Val::Float(x), Val::Float(y)) => !float_bits::float_lt(y, x),
        (Val::Str(x), Val::Str(y)) => text_le(x, y),
        _ => true,
    }
}

/// Computes [`key_le`].
pub fn compare_sort_keys(a: &Value, b: &Value) -> (le: bool)
    ensures
        le == key_le(a@, b@),
{
    assert(a@ == value::view_of(*a));
    assert(b@ == value::view_of(*b));
    match (a, b) {
        (Value::Int(x), Value::Int(y)) => *x <= *y,
        (Value::Float(x), Value::Float(y)) => !float_bits::lt(*y, *x),
        (Value::Str(x), Value::Str(y)) => not_after(x.as_str(), y.as_str()),
        _ => true,
    }
}

/// Item `x` has to come before item `y`: its key is smaller, or the keys are
/// equal and it came first.
pub open spec fn comes_first(keys: Seq<Val>, x: nat, y: nat) -> bool {
    key_le(keys[x as int], keys[y as int]) && (key_le(keys[y as int], keys[x as int]) ==> x < y)
}

/// The order of these keys is consistent. It is, unless there are NaNs or keys
/// of different kinds among them.
pub open spec fn consistent(keys: Seq<Val>) -> bool {
    forall|a: int, b: int, c: int|
        0 <= a < keys.len() && 0 <= b < keys.len() && 0 <= c < keys.len() && #[trigger] key_le(
            keys[a],
            keys[b],
        ) && #[trigger] key_le(keys[b], keys[c]) ==> key_le(keys[a], keys[c])
}

/// Every number from `lo` to below `hi`, once.
pub open spec fn arranges(order: Seq<usize>, lo: nat, hi: nat) -> bool {
    &&& order.len() == hi - lo
    &&& forall|i: int| 0 <= i < order.len() ==> lo <= #[trigger] order[i] < hi
    &&& forall|i: int, j: int|
        0 <= i < j < order.len() ==> #[trigger] order[i] != #[trigger] order[j]
}

/// The items stand in the order of their keys, and equal keys as they came.
pub open spec fn in_order(keys: Seq<Val>, order: Seq<usize>) -> bool {
    forall|i: int, j: int|
        0 <= i < j < order.len() ==> comes_first(
            keys,
            #[trigger] order[i] as nat,
            #[trigger] order[j] as nat,
        )
}

/// All of `order` comes before `x`.
spec fn all_first(keys: Seq<Val>, order: Seq<usize>, x: usize) -> bool {
    forall|i: int| 0 <= i < order.len() ==> comes_first(keys, #[trigger] order[i] as nat, x as nat)
}

/// The elements are among the first of two lists.
spec fn taken_from(out: Seq<usize>, l: Seq<usize>, i: int, r: Seq<usize>, j: int) -> bool {
    forall|k: int|
        0 <= k < out.len() ==> l.take(i).contains(#[trigger] out[k]) || r.take(j).contains(out[k])
}

fn merge(keys: &Vec<Value>, l: Vec<usize>, r: Vec<usize>, mid: Ghost<(nat, nat, nat)>) -> (out: Vec<
    usize,
>)
    requires
        mid@.0 <= mid@.1 <= mid@.2 <= keys@.len(),
        arranges(l@, mid@.0, mid@.1),
        arranges(r@, mid@.1, mid@.2),
        consistent(vals(keys@)) ==> in_order(vals(keys@), l@),
        consistent(vals(keys@)) ==> in_order(vals(keys@), r@),
    ensures
        arranges(out@, mid@.0, mid@.2),
        consistent(vals(keys@)) ==> in_order(vals(keys@), out@),
{
    let ghost ks = vals(keys@);
    let ghost ok = consistent(ks);
    let ghost (lo, m, hi) = mid@;
    let mut out: Vec<usize> = Vec::with_capacity(l.len());
    let mut i: usize = 0;
    let mut j: usize = 0;
    while i < l.len() || j < r.len()
        invariant
            i <= l.len(),
            j <= r.len(),
            out@.len() == i + j,
            ks == vals(keys@),
            ok == consistent(ks),
            lo <= m <= hi <= keys@.len(),
            arranges(l@, lo, m),
            arranges(r@, m, hi),
            ok ==> in_order(ks, l@),
            ok ==> in_order(ks, r@),
            ok ==> in_order(ks, out@),
            ok ==> forall|a: int| i <= a < l@.len() ==> all_first(ks, out@, #[trigger] l@[a]),
            ok ==> forall|b: int| j <= b < r@.len() ==> all_first(ks, out@, #[trigger] r@[b]),
            taken_from(out@, l@, i as int, r@, j as int),
            forall|x: int| 0 <= x < out@.len() ==> lo <= #[trigger] out@[x] < hi,
            forall|x: int, y: int|
                0 <= x < y < out@.len() ==> #[trigger] out@[x] != #[trigger] out@[y],
        decreases l.len() - i + (r.len() - j),
    {
        let from_left = if i >= l.len() {
            false
        } else if j >= r.len() {
            true
        } else {
            compare_sort_keys(&keys[l[i]], &keys[r[j]])
        };
        let ghost before = out@;
        let x: usize = if from_left {
            l[i]
        } else {
            r[j]
        };
        proof {
            lemma_not_taken(before, l@, i as int, r@, j as int, lo, m, hi, from_left);
            if ok {
                if from_left {
                    assert(all_first(ks, before, l@[i as int]));
                } else {
                    assert(all_first(ks, before, r@[j as int]));
                }
            }
        }
        out.push(x);
        if from_left {
            i = i + 1;
            proof {
                if ok {
                    assert forall|a: int| i <= a < l@.len() implies all_first(
                        ks,
                        out@,
                        #[trigger] l@[a],
                    ) by {
                        assert(all_first(ks, before, l@[a]));
                        assert(comes_first(ks, l@[i - 1] as nat, l@[a] as nat));
                    }
                    assert forall|b: int| j <= b < r@.len() implies all_first(
                        ks,
                        out@,
                        #[trigger] r@[b],
                    ) by {
                        assert(all_first(ks, before, r@[b]));
                        assert(key_le(ks[x as int], ks[r@[j as int] as int]));
                        if j < b {
                            assert(comes_first(ks, r@[j as int] as nat, r@[b] as nat));
                        }
                        assert(key_le(ks[x as int], ks[r@[b] as int]));
                    }
                }
                assert(l@.take(i as int)[i - 1] == x);
                lemma_taken_grows(before, l@, i - 1, r@, j as int, i as int, j as int);
            }
        } else {
            j = j + 1;
            proof {
                if ok {
                    assert forall|b: int| j <= b < r@.len() implies all_first(
                        ks,
                        out@,
                        #[trigger] r@[b],
                    ) by {
                        assert(all_first(ks, before, r@[b]));
                        assert(comes_first(ks, r@[j - 1] as nat, r@[b] as nat));
                    }
                    assert forall|a: int| i <= a < l@.len() implies all_first(
                        ks,
                        out@,
                        #[trigger] l@[a],
                    ) by {
                        assert(all_first(ks, before, l@[a]));
                        assert(!key_le(ks[l@[i as int] as int], ks[x as int]));
                        lemma_total(ks[l@[i as int] as int], ks[x as int]);
                        if i < a {
                            assert(comes_first(ks, l@[i as int] as nat, l@[a] as nat));
                            assert(key_le(ks[l@[i as int] as int], ks[l@[a] as int]));
                        }
                        assert(key_le(ks[x as int], ks[l@[a] as int]));
                    }
                }
                assert(r@.take(j as int)[j - 1] == x);
                lemma_taken_grows(before, l@, i as int, r@, j - 1, i as int, j as int);
            }
        }
    }
    out
}

proof fn lemma_total(a: Val, b: Val)
    ensures
        key_le(a, b) || key_le(b, a),
{
    match (a, b) {
        (Val::Str(x), Val::Str(y)) => {
            crate::text::lemma_text_order();
            assert((crate::text::text_order())(x, y) || (crate::text::text_order())(y, x));
        },
        _ => {},
    }
}

/// The next element of either list has not been taken yet.
proof fn lemma_not_taken(
    out: Seq<usize>,
    l: Seq<usize>,
    i: int,
    r: Seq<usize>,
    j: int,
    lo: nat,
    m: nat,
    hi: nat,
    left: bool,
)
    requires
        0 <= i <= l.len(),
        0 <= j <= r.len(),
        left ==> i < l.len(),
        !left ==> j < r.len(),
        arranges(l, lo, m),
        arranges(r, m, hi),
        taken_from(out, l, i, r, j),
    ensures
        forall|k: int|
            0 <= k < out.len() ==> #[trigger] out[k] != (if left {
                l[i]
            } else {
                r[j]
            }),
{
    assert forall|k: int| 0 <= k < out.len() implies #[trigger] out[k] != (if left {
        l[i]
    } else {
        r[j]
    }) by {
        if l.take(i).contains(out[k]) {
            let a = choose|a: int| 0 <= a < i && l.take(i)[a] == out[k];
            assert(l[a] == out[k]);
            assert(left ==> l[a] != l[i]);
        } else {
            let b = choose|b: int| 0 <= b < j && r.take(j)[b] == out[k];
            assert(r[b] == out[k]);
            assert(!left ==> r[b] != r[j]);
        }
    }
}

proof fn lemma_taken_grows(
    out: Seq<usize>,
    l: Seq<usize>,
    i: int,
    r: Seq<usize>,
    j: int,
    i2: int,
    j2: int,
)
    requires
        taken_from(out, l, i, r, j),
        0 <= i <= i2 <= l.len(),
        0 <= j <= j2 <= r.len(),
    ensures
        taken_from(out, l, i2, r, j2),
{
    assert forall|k: int| 0 <= k < out.len() implies l.take(i2).contains(#[trigger] out[k])
        || r.take(j2).contains(out[k]) by {
        if l.take(i).contains(out[k]) {
            let a = choose|a: int| 0 <= a < i && l.take(i)[a] == out[k];
            assert(l.take(i2)[a] == out[k]);
        } else {
            let b = choose|b: int| 0 <= b < j && r.take(j)[b] == out[k];
            assert(r.take(j2)[b] == out[k]);
        }
    }
}

/// The order that sorts the items from `lo` to below `hi`.
fn sort_range(keys: &Vec<Value>, lo: usize, hi: usize) -> (order: Vec<usize>)
    requires
        lo <= hi <= keys@.len(),
    ensures
        arranges(order@, lo as nat, hi as nat),
        consistent(vals(keys@)) ==> in_order(vals(keys@), order@),
    decreases hi - lo,
{
    if hi - lo <= 1 {
        let mut one: Vec<usize> = Vec::new();
        if lo < hi {
            one.push(lo);
        }
        return one;
    }
    let mid: usize = lo + (hi - lo) / 2;
    let l = sort_range(keys, lo, mid);
    let r = sort_range(keys, mid, hi);
    merge(keys, l, r, Ghost((lo as nat, mid as nat, hi as nat)))
}

/// The order that sorts items by their keys, equal keys as they came.
pub fn sort_order(keys: &Vec<Value>) -> (order: Vec<usize>)
    ensures
        arranges(order@, 0, keys@.len()),
        consistent(vals(keys@)) ==> in_order(vals(keys@), order@),
{
    let n: usize = keys.len();
    sort_range(keys, 0, n)
}

/// A float that is a number.
pub open spec fn is_number(v: Val) -> bool {
    v matches Val::Float(x) && !float_bits::is_nan(x)
}

/// Law: integer keys are consistent, and so are text keys and floats without a
/// NaN among them.
pub proof fn law_uniform_keys_are_consistent(keys: Seq<Val>)
    requires
        (forall|i: int| 0 <= i < keys.len() ==> #[trigger] keys[i] is Int) || (forall|i: int|
            0 <= i < keys.len() ==> #[trigger] keys[i] is Str) || (forall|i: int|
            0 <= i < keys.len() ==> is_number(#[trigger] keys[i])),
    ensures
        consistent(keys),
{
    crate::text::lemma_text_order();
    assert forall|a: int, b: int, c: int|
        0 <= a < keys.len() && 0 <= b < keys.len() && 0 <= c < keys.len() && #[trigger] key_le(
            keys[a],
            keys[b],
        ) && #[trigger] key_le(keys[b], keys[c]) implies key_le(keys[a], keys[c]) by {
        if keys[a] is Str {
            let order = crate::text::text_order();
            assert(order(keys[a]->Str_0, keys[b]->Str_0));
            assert(order(keys[b]->Str_0, keys[c]->Str_0));
            assert(order(keys[a]->Str_0, keys[c]->Str_0));
        }
    }
}

} // verus!
