//! What it means that two values are equal.

use vstd::prelude::*;

use crate::value::Val;
use crate::value_ops::{
    all_eq, fields_eq, find_from, find_name, lemma_find_from, lemma_val_eq, val_eq,
};

verus! {

/// A value that is equal to no other one: no numbers with fractions, records or
/// closures in it, and no handles of an arena.
pub open spec fn is_exact(v: Val) -> bool
    decreases v,
{
    match v {
        Val::List(x) => forall|i: int| 0 <= i < x.len() ==> is_exact(#[trigger] x[i]),
        Val::Tuple(x) => forall|i: int| 0 <= i < x.len() ==> is_exact(#[trigger] x[i]),
        Val::Deque(x) => forall|i: int| 0 <= i < x.len() ==> is_exact(#[trigger] x[i]),
        Val::Variant { args, .. } => forall|i: int|
            0 <= i < args.len() ==> is_exact(#[trigger] args[i]),
        Val::Dict { values, .. } => forall|i: int|
            0 <= i < values.len() ==> is_exact(#[trigger] values[i]),
        Val::Int(_) | Val::Bool(_) | Val::Str(_) | Val::Bytes(_) | Val::Unit => true,
        Val::KeySet(_) | Val::Actor(_) | Val::Ticker(_) | Val::ArrowTable(_) => true,
        _ => false,
    }
}

pub open spec fn all_exact(x: Seq<Val>) -> bool {
    forall|i: int| 0 <= i < x.len() ==> is_exact(#[trigger] x[i])
}

/// The parts of a value whose parts stand in a row.
spec fn parts(v: Val) -> Seq<Val> {
    match v {
        Val::List(x) => x,
        Val::Tuple(x) => x,
        Val::Deque(x) => x,
        Val::Variant { args, .. } => args,
        Val::Dict { values, .. } => values,
        _ => Seq::empty(),
    }
}

proof fn lemma_parts_are_exact(v: Val)
    requires
        is_exact(v),
    ensures
        all_exact(parts(v)),
{
    reveal_with_fuel(is_exact, 2);
}

/// Law: exact values are equal if and only if they are the same value.
pub proof fn law_exact_values_are_equal_to_themselves_alone(a: Val, b: Val)
    requires
        is_exact(a),
    ensures
        val_eq(a, b) <==> a == b,
    decreases a,
{
    lemma_val_eq(a, b);
    lemma_parts_are_exact(a);
    let x = parts(a);
    let y = parts(b);
    if x.len() == y.len() {
        assert forall|i: int| 0 <= i < x.len() implies (val_eq(#[trigger] x[i], y[i]) <==> x[i]
            == y[i]) by {
            assert(decreases_to!(a => x[i]));
            law_exact_values_are_equal_to_themselves_alone(x[i], y[i]);
        }
    }
    assert(all_eq(x, y) <==> x =~= y) by {
        if x =~= y {
            assert(x == y);
        }
    }
}

/// A record's names, each once, one for each value.
pub open spec fn names_fit(names: Seq<Seq<char>>, values: Seq<Val>) -> bool {
    names.no_duplicates() && names.len() == values.len()
}

proof fn lemma_found(names: Seq<Seq<char>>, k: int, i: int)
    requires
        0 <= k <= i < names.len(),
        names.no_duplicates(),
    ensures
        find_from(names, names[i], k) == Some(i),
    decreases i - k,
{
    if k < i {
        lemma_found(names, k + 1, i);
    }
}

/// A record has a field of this name and value.
pub open spec fn has_field(r: Val, name: Seq<char>, v: Val) -> bool {
    exists|j: int|
        0 <= j < r->Record_values.len() && #[trigger] r->Record_names[j] == name
            && r->Record_values[j] == v
}

/// Law: records are equal if and only if they have as many fields, and each
/// field of the one is a field of the other of the same name and value, in
/// whatever order they stand and whatever shape they were made with.
pub proof fn law_equal_records_have_the_same_fields(a: Val, b: Val)
    requires
        a matches Val::Record { names, values, .. } && names_fit(names, values) && all_exact(
            values,
        ),
        b matches Val::Record { names, values, .. } && names_fit(names, values),
    ensures
        val_eq(a, b) <==> a->Record_values.len() == b->Record_values.len() && forall|i: int|
            0 <= i < a->Record_values.len() ==> #[trigger] has_field(
                b,
                a->Record_names[i],
                a->Record_values[i],
            ),
{
    lemma_val_eq(a, b);
    let (xn, xv) = (a->Record_names, a->Record_values);
    let (yn, yv) = (b->Record_names, b->Record_values);
    if val_eq(a, b) {
        assert forall|i: int| 0 <= i < xv.len() implies #[trigger] has_field(
            b,
            xn[i],
            xv[i],
        ) by {
            assert(find_name(yn, xn[i]) is Some);
            lemma_find_from(yn, xn[i], 0);
            let j = find_name(yn, xn[i])->Some_0;
            law_exact_values_are_equal_to_themselves_alone(xv[i], yv[j]);
            assert(yn[j] == xn[i]);
        }
    }
    if xv.len() == yv.len() && forall|i: int|
        0 <= i < xv.len() ==> #[trigger] has_field(b, xn[i], xv[i]) {
        assert forall|i: int| 0 <= i < xv.len() implies find_name(
            yn,
            #[trigger] xn[i],
        ) is Some by {
            assert(has_field(b, xn[i], xv[i]));
            let j = choose|j: int|
                0 <= j < yv.len() && #[trigger] yn[j] == xn[i] && yv[j] == xv[i];
            lemma_found(yn, 0, j);
        }
        assert forall|i: int, j: int|
            0 <= i < xv.len() && 0 <= j < yv.len() && find_name(yn, xn[i]) == Some(
                j,
            ) implies val_eq(#[trigger] xv[i], #[trigger] yv[j]) by {
            assert(has_field(b, xn[i], xv[i]));
            let l = choose|l: int|
                0 <= l < yv.len() && #[trigger] yn[l] == xn[i] && yv[l] == xv[i];
            lemma_found(yn, 0, l);
            law_exact_values_are_equal_to_themselves_alone(xv[i], yv[j]);
        }
        assert(fields_eq(xn, xv, yn, yv));
    }
}

/// Law: closures are equal if and only if they have the same body and the same
/// captured values, whatever number their function has.
pub proof fn law_equal_closures_have_the_same_body(a: Val, b: Val)
    requires
        a matches Val::Closure { captures, .. } && all_exact(captures),
        b is Closure,
    ensures
        val_eq(a, b) <==> a->Closure_body_hash == b->Closure_body_hash && a->Closure_captures
            == b->Closure_captures,
{
    lemma_val_eq(a, b);
    let (x, y) = (a->Closure_captures, b->Closure_captures);
    if x.len() == y.len() {
        assert forall|i: int| 0 <= i < x.len() implies (val_eq(#[trigger] x[i], y[i]) <==> x[i]
            == y[i]) by {
            law_exact_values_are_equal_to_themselves_alone(x[i], y[i]);
        }
    }
    assert(all_eq(x, y) <==> x =~= y);
}

} // verus!
