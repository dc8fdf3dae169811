//! What the list ops that call closures come to.

use vstd::prelude::*;

use crate::value::Val;
use crate::vm::plain::next;
use crate::vm::runs::{
    filter_acts, fold_acts, fold_call, folded, item_call, kept, map_acts, one_by_one, reordered,
    sort_acts, stop_fault, stops, values_of,
};
use crate::vm::sort_keys::{
    arranges, comes_first, consistent, in_order, law_uniform_keys_are_consistent,
};
use crate::vm::state::drop_top;
use crate::vm::world::{with_machine, Act, Call, Callee, Outcome, World};

verus! {

/// The list and the closure on top of the operands.
pub open spec fn takes_list(w: World, st: Seq<Val>, items: Seq<Val>, f: Val) -> bool {
    w.m.frames.len() > 0 && f is Closure && w.m.stack == st.push(Val::List(items)).push(f)
}

/// Call `k` was the call of the closure on these arguments and gave this value.
pub open spec fn gave(calls: Seq<Call>, k: int, f: Val, args: Seq<Val>, v: Val) -> bool {
    &&& calls[k].callee == Callee::Value(f)
    &&& calls[k].args == args
    &&& calls[k].outcome == Outcome::Value(v)
}

/// Law: a map calls the closure once on every element, in their order, and
/// leaves the list of what the calls gave, in the same order.
pub proof fn law_map_calls_on_every_element(
    w: World,
    calls: Seq<Call>,
    w2: World,
    st: Seq<Val>,
    items: Seq<Val>,
    f: Val,
)
    requires
        takes_list(w, st, items, f),
        map_acts(w, calls, Act::Next(w2)),
    ensures
        calls.len() == items.len(),
        w2.m.stack.last() matches Val::List(r) && r.len() == items.len() && forall|k: int|
            0 <= k < items.len() ==> #[trigger] gave(calls, k, f, seq![items[k]], r[k]),
{
    lemma_all_called(w, calls, st, items, f, false);
    let r = w2.m.stack.last()->List_0;
    assert(r == values_of(calls));
    assert forall|k: int| 0 <= k < items.len() implies #[trigger] gave(
        calls,
        k,
        f,
        seq![items[k]],
        r[k],
    ) by {
        assert(calls[k].outcome is Value);
    }
}

/// A row of calls that did not stop was made on every element.
proof fn lemma_all_called(
    w: World,
    calls: Seq<Call>,
    st: Seq<Val>,
    items: Seq<Val>,
    f: Val,
    bools: bool,
)
    requires
        takes_list(w, st, items, f),
        exists|w0: World| #[trigger] one_by_one(calls, w0, f, items, bools),
        stop_fault(calls, bools) is None,
    ensures
        calls.len() == items.len(),
        forall|k: int|
            0 <= k < calls.len() ==> (#[trigger] calls[k]).callee == Callee::Value(f)
                && calls[k].args == seq![items[k]] && calls[k].outcome is Value && (bools
                ==> calls[k].outcome->Value_0 is Bool),
{
    let w0 = choose|w0: World| #[trigger] one_by_one(calls, w0, f, items, bools);
    assert forall|k: int| 0 <= k < calls.len() implies (#[trigger] calls[k]).callee
        == Callee::Value(f) && calls[k].args == seq![items[k]] && calls[k].outcome is Value && (
    bools ==> calls[k].outcome->Value_0 is Bool) by {
        assert(item_call(calls, k, w0, f, items));
        if k < calls.len() - 1 {
            assert(!stops(calls[k].outcome, bools));
        } else {
            assert(calls[k] == calls.last());
        }
    }
}

/// The places whose flag is true, in their order.
pub open spec fn places(flags: Seq<Val>) -> Seq<int>
    decreases flags.len(),
{
    if flags.len() == 0 {
        Seq::empty()
    } else if flags.last() == Val::Bool(true) {
        places(flags.drop_last()).push(flags.len() - 1)
    } else {
        places(flags.drop_last())
    }
}

/// The places of the true flags, in ascending order, and all of them.
pub open spec fn picks(pick: Seq<int>, flags: Seq<Val>) -> bool {
    &&& forall|i: int|
        0 <= i < pick.len() ==> 0 <= #[trigger] pick[i] < flags.len() && flags[pick[i]]
            == Val::Bool(true)
    &&& forall|i: int, j: int| 0 <= i < j < pick.len() ==> #[trigger] pick[i] < #[trigger] pick[j]
    &&& forall|k: int|
        0 <= k < flags.len() && #[trigger] flags[k] == Val::Bool(true) ==> pick.contains(k)
}

proof fn lemma_places(items: Seq<Val>, flags: Seq<Val>)
    requires
        flags.len() <= items.len(),
    ensures
        picks(places(flags), flags),
        kept(items, flags) == Seq::new(places(flags).len(), |i: int| items[places(flags)[i]]),
    decreases flags.len(),
{
    let p = places(flags);
    if flags.len() > 0 {
        let front = flags.drop_last();
        let q = places(front);
        lemma_places(items, front);
        assert forall|i: int| 0 <= i < p.len() implies 0 <= #[trigger] p[i] < flags.len()
            && flags[p[i]] == Val::Bool(true) by {
            if i < q.len() {
                assert(p[i] == q[i]);
                assert(front[q[i]] == flags[q[i]]);
            }
        }
        assert forall|i: int, j: int| 0 <= i < j < p.len() implies #[trigger] p[i]
            < #[trigger] p[j] by {
            assert(p[i] == q[i]);
            if j < q.len() {
                assert(p[j] == q[j]);
            }
        }
        assert forall|k: int|
            0 <= k < flags.len() && #[trigger] flags[k] == Val::Bool(true) implies p.contains(
            k,
        ) by {
            if k < flags.len() - 1 {
                assert(front[k] == flags[k]);
                assert(q.contains(k));
                let i = choose|i: int| 0 <= i < q.len() && q[i] == k;
                assert(p[i] == k);
            } else {
                assert(p[p.len() - 1] == k);
            }
        }
    }
    assert(kept(items, flags) =~= Seq::new(p.len(), |i: int| items[p[i]]));
}

/// Law: a filter calls the closure once on every element, in their order, and
/// leaves the elements for which it gave true, in their order, and no others.
pub proof fn law_filter_keeps_what_is_true(
    w: World,
    calls: Seq<Call>,
    w2: World,
    st: Seq<Val>,
    items: Seq<Val>,
    f: Val,
)
    requires
        takes_list(w, st, items, f),
        filter_acts(w, calls, Act::Next(w2)),
    ensures
        calls.len() == items.len(),
        w2.m.stack.last() matches Val::List(r) && exists|pick: Seq<int>, flags: Seq<Val>|
            {
                &&& #[trigger] picks(pick, flags)
                &&& flags.len() == items.len()
                &&& forall|k: int|
                    0 <= k < items.len() ==> #[trigger] gave(
                        calls,
                        k,
                        f,
                        seq![items[k]],
                        flags[k],
                    )
                &&& r.len() == pick.len()
                &&& forall|i: int| 0 <= i < r.len() ==> #[trigger] r[i] == items[pick[i]]
            },
{
    lemma_all_called(w, calls, st, items, f, true);
    let flags = values_of(calls);
    lemma_places(items, flags);
    assert forall|k: int| 0 <= k < items.len() implies #[trigger] gave(
        calls,
        k,
        f,
        seq![items[k]],
        flags[k],
    ) by {
        assert(calls[k].outcome is Value);
    }
    assert(picks(places(flags), flags));
}

/// Law: a fold calls the closure on the initial value and the first element, on
/// what that gave and the second element, and so on; it leaves what the last
/// call gave, or the initial value if there is no element.
pub proof fn law_fold_goes_through_the_list(
    w: World,
    calls: Seq<Call>,
    w2: World,
    st: Seq<Val>,
    items: Seq<Val>,
    init: Val,
    f: Val,
)
    requires
        w.m.frames.len() > 0,
        f is Closure,
        w.m.stack == st.push(Val::List(items)).push(init).push(f),
        fold_acts(w, calls, Act::Next(w2)),
    ensures
        calls.len() == items.len(),
        forall|k: int|
            0 <= k < items.len() ==> {
                &&& (#[trigger] calls[k]).callee == Callee::Value(f)
                &&& calls[k].outcome is Value
                &&& k == 0 ==> calls[k].args == seq![init, items[0]]
                &&& k > 0 ==> calls[k].args == seq![calls[k - 1].outcome->Value_0, items[k]]
            },
        items.len() == 0 ==> w2.m.stack.last() == init,
        items.len() > 0 ==> w2.m.stack.last() == calls.last().outcome->Value_0,
{
    let w0 = with_machine(w, drop_top(next(w.m), 3));
    assert(folded(calls, w0, f, init, items));
    assert forall|k: int| 0 <= k < items.len() implies {
        &&& (#[trigger] calls[k]).callee == Callee::Value(f)
        &&& calls[k].outcome is Value
        &&& k == 0 ==> calls[k].args == seq![init, items[0]]
        &&& k > 0 ==> calls[k].args == seq![calls[k - 1].outcome->Value_0, items[k]]
    } by {
        assert(fold_call(calls, k, w0, f, init, items));
        if k > 0 {
            assert(calls[k - 1].outcome is Value);
        }
        assert(k == calls.len() - 1 ==> calls[k] == calls.last());
    }
}

/// An order of so many places: each of them once.
pub open spec fn is_order(order: Seq<usize>, n: nat) -> bool {
    &&& order.len() == n
    &&& order.no_duplicates()
    &&& forall|i: int| 0 <= i < n ==> #[trigger] order[i] < n
}

/// Law: a sort by integer keys calls the closure once on every element, in their
/// order, and leaves the same elements in the order of what the calls gave, the
/// smaller first; elements with the same key stay in the order that they had.
pub proof fn law_sort_orders_by_the_keys(
    w: World,
    calls: Seq<Call>,
    w2: World,
    st: Seq<Val>,
    items: Seq<Val>,
    f: Val,
    keys: Seq<i64>,
)
    requires
        takes_list(w, st, items, f),
        sort_acts(w, calls, Act::Next(w2)),
        keys.len() == calls.len(),
        forall|k: int|
            0 <= k < calls.len() ==> (#[trigger] calls[k]).outcome == Outcome::Value(
                Val::Int(keys[k]),
            ),
    ensures
        calls.len() == items.len(),
        forall|k: int|
            0 <= k < items.len() ==> #[trigger] gave(
                calls,
                k,
                f,
                seq![items[k]],
                Val::Int(keys[k]),
            ),
        w2.m.stack.last() matches Val::List(r) && r.len() == items.len() && exists|
            order: Seq<usize>,
        |
            {
                &&& #[trigger] is_order(order, items.len())
                &&& forall|i: int| 0 <= i < r.len() ==> #[trigger] r[i] == items[order[i] as int]
                &&& forall|i: int, j: int|
                    0 <= i < j < r.len() ==> keys[#[trigger] order[i] as int]
                        <= keys[#[trigger] order[j] as int]
                &&& forall|i: int, j: int|
                    0 <= i < j < r.len() && keys[#[trigger] order[i] as int]
                        == keys[#[trigger] order[j] as int] ==> order[i] < order[j]
            },
{
    let vs = values_of(calls);
    assert(stop_fault(calls, false) is None) by {
        if calls.len() > 0 {
            assert(calls[calls.len() - 1].outcome is Value);
        }
    }
    lemma_all_called(w, calls, st, items, f, false);
    assert forall|k: int| 0 <= k < vs.len() implies #[trigger] vs[k] == Val::Int(keys[k]) by {
        assert(calls[k].outcome is Value);
    }
    law_uniform_keys_are_consistent(vs);
    let r = w2.m.stack.last()->List_0;
    let order = choose|order: Seq<usize>| #[trigger]
        arranges(order, 0, items.len()) && (consistent(vs) ==> in_order(vs, order)) && r
            == reordered(items, order);
    assert(is_order(order, items.len()));
    assert forall|i: int, j: int| 0 <= i < j < r.len() implies keys[#[trigger] order[i] as int]
        <= keys[#[trigger] order[j] as int] by {
        assert(comes_first(vs, order[i] as nat, order[j] as nat));
    }
    assert forall|i: int, j: int|
        0 <= i < j < r.len() && keys[#[trigger] order[i] as int]
            == keys[#[trigger] order[j] as int] implies order[i] < order[j] by {
        assert(comes_first(vs, order[i] as nat, order[j] as nat));
    }
}

} // verus!
