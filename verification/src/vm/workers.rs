//! How a parallel map shares out its items and collects the results.

use vstd::prelude::*;

use crate::value::{vals, Val, Value};
use crate::vm::fault::{Fault, VmError};

verus! {

/// The most workers of a parallel map.
pub const MAX_WORKERS: usize = 64;

/// How many workers there may be: as many as was asked for, if that is a
/// positive number, or as many as the machine offers, or four; but never more
/// than [`MAX_WORKERS`].
pub open spec fn concurrency(asked: Option<usize>, offered: Option<usize>) -> usize {
    let n: usize = match asked {
        Some(n) if n > 0 => n,
        _ => match offered {
            Some(n) => n,
            None => 4,
        },
    };
    if n > MAX_WORKERS {
        MAX_WORKERS
    } else {
        n
    }
}

pub fn par_max_concurrency(asked: Option<usize>, offered: Option<usize>) -> (n: usize)
    ensures
        n == concurrency(asked, offered),
{
    let by_machine: usize = match offered {
        Some(n) => n,
        None => 4,
    };
    let n: usize = match asked {
        Some(n) => if n > 0 {
            n
        } else {
            by_machine
        },
        None => by_machine,
    };
    if n > MAX_WORKERS {
        MAX_WORKERS
    } else {
        n
    }
}

/// How many workers are put to work: no more than there are items, at least
/// one.
pub open spec fn workers(limit: usize, items: nat) -> nat {
    let n = if limit as nat <= items {
        limit as nat
    } else {
        items
    };
    if n == 0 {
        1
    } else {
        n
    }
}

pub fn worker_count(limit: usize, items: usize) -> (n: usize)
    ensures
        n == workers(limit, items as nat),
{
    let n: usize = if limit <= items {
        limit
    } else {
        items
    };
    if n == 0 {
        1
    } else {
        n
    }
}

/// The share of one worker: every `n`-th item, with its position.
pub open spec fn share(items: Seq<Val>, n: nat, w: nat, upto: nat) -> Seq<(nat, Val)>
    decreases upto,
{
    if upto == 0 || upto > items.len() || n == 0 {
        Seq::empty()
    } else {
        let rest = share(items, n, w, (upto - 1) as nat);
        if (upto - 1) % (n as int) == w {
            rest.push(((upto - 1) as nat, items[upto - 1]))
        } else {
            rest
        }
    }
}

pub open spec fn share_view(v: Seq<(usize, Value)>) -> Seq<(nat, Val)> {
    Seq::new(v.len(), |i: int| (v[i].0 as nat, v[i].1@))
}

/// Deals the items out in turn.
pub fn deal(items: Vec<Value>, n: usize) -> (shares: Vec<Vec<(usize, Value)>>)
    requires
        n > 0,
    ensures
        shares@.len() == n,
        forall|w: int|
            0 <= w < n ==> share_view((#[trigger] shares@[w])@) == share(
                vals(items@),
                n as nat,
                w as nat,
                items@.len(),
            ),
{
    let ghost all = vals(items@);
    let mut shares: Vec<Vec<(usize, Value)>> = Vec::new();
    let mut k: usize = 0;
    while k < n
        invariant
            k <= n,
            shares@.len() == k,
            forall|w: int| 0 <= w < k ==> share_view((#[trigger] shares@[w])@) == share(
                all,
                n as nat,
                w as nat,
                0,
            ),
        decreases n - k,
    {
        let none: Vec<(usize, Value)> = Vec::new();
        assert(share_view(none@) =~= share(all, n as nat, k as nat, 0));
        shares.push(none);
        k = k + 1;
    }
    let count: usize = items.len();
    let mut i: usize = 0;
    for v in it: items
        invariant
            n > 0,
            shares@.len() == n,
            all.len() == it.seq().len(),
            all.len() == count,
            forall|j: int| 0 <= j < all.len() ==> all[j] == (#[trigger] it.seq()[j])@,
            i == it.index(),
            forall|w: int| 0 <= w < n ==> share_view((#[trigger] shares@[w])@) == share(
                all,
                n as nat,
                w as nat,
                i as nat,
            ),
    {
        let ghost before = shares@;
        let w: usize = i % n;
        shares[w].push((i, v));
        i = i + 1;
    }
    shares
}

/// The first failure in the order of the items: an item whose call failed, or
/// one that no worker came to.
pub open spec fn first_failure(results: Seq<Option<Result<Value, String>>>) -> Option<Fault>
    decreases results.len(),
{
    if results.len() == 0 {
        None
    } else {
        match first_failure(results.drop_last()) {
            Some(f) => Some(f),
            None => match results.last() {
                Some(Ok(_)) => None,
                Some(Err(e)) => Some(Fault::Effect("par_map worker: "@ + e@)),
                None => Some(Fault::Panic("par_map worker did not produce a result"@)),
            },
        }
    }
}

/// Collects the results in the order of the items.
pub fn gather(results: Vec<Option<Result<Value, String>>>) -> (r: Result<Vec<Value>, VmError>)
    ensures
        match r {
            Ok(v) => {
                &&& first_failure(results@) is None
                &&& v@.len() == results@.len()
                &&& forall|i: int|
                    0 <= i < v@.len() ==> #[trigger] results@[i] == Some(
                        Ok::<Value, String>(v@[i]),
                    )
            },
            Err(e) => first_failure(results@) == Some(e@),
        },
{
    let ghost all = results@;
    let mut out: Vec<Value> = Vec::new();
    assert(all.take(0) =~= Seq::empty());
    for r in it: results
        invariant
            it.seq() == all,
            out@.len() == it.index(),
            first_failure(all.take(it.index())) is None,
            forall|i: int|
                0 <= i < out@.len() ==> #[trigger] all[i] == Some(Ok::<Value, String>(out@[i])),
    {
        let ghost k = it.index();
        assert(all.take(k + 1).drop_last() =~= all.take(k));
        match r {
            Some(Ok(v)) => {
                out.push(v);
            },
            Some(Err(e)) => {
                let mut t = "par_map worker: ".to_owned();
                t.append(e.as_str());
                proof {
                    lemma_first_failure(all, k + 1);
                }
                return Err(VmError::Effect(t));
            },
            None => {
                proof {
                    lemma_first_failure(all, k + 1);
                }
                return Err(
                    VmError::Panic("par_map worker did not produce a result".to_owned()),
                );
            },
        }
    }
    assert(all.take(all.len() as int) =~= all);
    Ok(out)
}

/// What fails first among some results fails first among more.
proof fn lemma_first_failure(results: Seq<Option<Result<Value, String>>>, k: int)
    requires
        0 <= k <= results.len(),
        first_failure(results.take(k)) is Some,
    ensures
        first_failure(results) == first_failure(results.take(k)),
    decreases results.len() - k,
{
    if k < results.len() {
        assert(results.take(k + 1).drop_last() =~= results.take(k));
        lemma_first_failure(results, k + 1);
    } else {
        assert(results.take(k) =~= results);
    }
}

/// Law: every item is dealt to one worker, the one whose turn it is.
pub proof fn law_every_item_is_dealt_once(items: Seq<Val>, n: nat, w: nat, i: nat)
    requires
        n > 0,
        i < items.len(),
    ensures
        share(items, n, w, items.len()).contains((i, items[i as int])) <==> (i as int) % (n as int)
            == w,
{
    lemma_share(items, n, w, items.len(), i);
}

proof fn lemma_share(items: Seq<Val>, n: nat, w: nat, upto: nat, i: nat)
    requires
        n > 0,
        upto <= items.len(),
        i < items.len(),
    ensures
        share(items, n, w, upto).contains((i, items[i as int])) <==> i < upto && (i as int) % (
        n as int) == w,
    decreases upto,
{
    if upto > 0 {
        lemma_share(items, n, w, (upto - 1) as nat, i);
        let rest = share(items, n, w, (upto - 1) as nat);
        let all = share(items, n, w, upto);
        if (upto - 1) % (n as int) == w {
            let last = ((upto - 1) as nat, items[upto - 1]);
            assert(all == rest.push(last));
            assert(all[rest.len() as int] == last);
            if rest.contains((i, items[i as int])) {
                let q = choose|q: int| 0 <= q < rest.len() && rest[q] == (i, items[i as int]);
                assert(all[q] == (i, items[i as int]));
            }
            if all.contains((i, items[i as int])) && i != upto - 1 {
                let q = choose|q: int| 0 <= q < all.len() && all[q] == (i, items[i as int]);
                assert(rest[q] == (i, items[i as int]));
            }
        }
    }
}

} // verus!
