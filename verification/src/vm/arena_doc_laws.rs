//! What the documents of arena values and of materialized values have to do
//! with each other.

use vstd::prelude::*;

use crate::json::{front, object_of, put, Doc, Obj};
use crate::json_values::{
    all_printable, doc_of, docs_of, is_printable, lemma_docs_of, lemma_order_facts,
};
use crate::program::Program;
use crate::value::Val;
use crate::value_ops::{find_name, lemma_find_from};
use crate::vm::arena_docs::{
    arena_doc, common, gathered, handle_cells, lemma_list, lemma_slab, list_cells, named, shaped,
    Drawn,
};
use crate::vm::arena_values::{materialize, materialize_all};
use crate::vm::fault::Fault;
use crate::vm::records::{field_name, fields_of, shape_at, shape_names};

verus! {

/// As many values as keys.
spec fn paired(o: Obj) -> bool {
    o.keys.len() == o.values.len()
}

proof fn lemma_put_paired(o: Obj, k: Seq<char>, a: Doc)
    requires
        paired(o),
    ensures
        paired(put(o, k, a)),
    decreases o.keys.len(),
{
    if o.keys.len() > 0 {
        lemma_put_paired(front(o), k, a);
    }
}

/// Of two members set under one key, the second stays.
proof fn lemma_put_twice(o: Obj, k: Seq<char>, a: Doc, b: Doc)
    requires
        paired(o),
    ensures
        put(put(o, k, a), k, b) == put(o, k, b),
    decreases o.keys.len(),
{
    let p = put(o, k, a);
    if o.keys.len() == 0 {
        assert(p.values.drop_last().push(b) =~= seq![b]);
    } else if o.keys.last() == k {
        assert(p.values.drop_last().push(b) =~= o.values.drop_last().push(b));
    } else if crate::text::text_le(o.keys.last(), k) {
        assert(p.values.drop_last().push(b) =~= o.values.push(b));
    } else {
        lemma_put_twice(front(o), k, a, b);
        lemma_put_paired(front(o), k, a);
        let g = put(front(o), k, a);
        assert(front(p).keys =~= g.keys);
        assert(front(p).values =~= g.values);
    }
}

/// Members under two keys may be set in either order.
proof fn lemma_put_swap(o: Obj, j: Seq<char>, b: Doc, k: Seq<char>, a: Doc)
    requires
        paired(o),
        j != k,
    ensures
        put(put(o, j, b), k, a) == put(put(o, k, a), j, b),
    decreases o.keys.len(),
{
    let l = put(put(o, j, b), k, a);
    let r = put(put(o, k, a), j, b);
    lemma_order_facts(j, k, j);
    reveal_with_fuel(put, 3);
    if o.keys.len() == 0 {
        assert(l.keys =~= r.keys);
        assert(l.values =~= r.values);
    } else {
        let last = o.keys.last();
        let f = front(o);
        lemma_order_facts(last, j, k);
        lemma_order_facts(last, k, j);
        lemma_order_facts(j, k, last);
        lemma_order_facts(k, j, last);
        lemma_order_facts(j, last, k);
        lemma_order_facts(k, last, j);
        lemma_put_swap(f, j, b, k, a);
        lemma_put_paired(f, j, b);
        lemma_put_paired(f, k, a);
        lemma_around(o, put(f, j, b));
        lemma_around(o, put(f, k, a));
        let pj = put(o, j, b);
        let pk = put(o, k, a);
        assert(pj.values.drop_last() =~= front(pj).values);
        assert(front(Obj { keys: o.keys, values: f.values.push(b) }).values =~= f.values);
        assert(front(Obj { keys: o.keys, values: f.values.push(a) }).values =~= f.values);
        assert(front(Obj { keys: o.keys.push(j), values: o.values.push(b) }).keys =~= o.keys);
        assert(front(Obj { keys: o.keys.push(j), values: o.values.push(b) }).values =~= o.values);
        assert(front(Obj { keys: o.keys.push(k), values: o.values.push(a) }).keys =~= o.keys);
        assert(front(Obj { keys: o.keys.push(k), values: o.values.push(a) }).values =~= o.values);
        assert(l.keys =~= r.keys);
        assert(l.values =~= r.values);
    }
}

/// An object that lost and regained its last member.
proof fn lemma_around(o: Obj, g: Obj)
    requires
        o.keys.len() > 0,
        paired(o),
        paired(g),
    ensures
        front(Obj { keys: g.keys.push(o.keys.last()), values: g.values.push(o.values.last()) })
            == g,
{
    let p = Obj { keys: g.keys.push(o.keys.last()), values: g.values.push(o.values.last()) };
    assert(front(p).keys =~= g.keys);
    assert(front(p).values =~= g.values);
}

proof fn lemma_object_paired(keys: Seq<Seq<char>>, ds: Seq<Doc>)
    ensures
        paired(object_of(keys, ds)),
    decreases ds.len(),
{
    if ds.len() > 0 {
        lemma_object_paired(keys, ds.drop_last());
        lemma_put_paired(object_of(keys, ds.drop_last()), keys[ds.len() - 1], ds.last());
    }
}

/// Keys beyond the values do not matter.
proof fn lemma_same_keys(a: Seq<Seq<char>>, b: Seq<Seq<char>>, ds: Seq<Doc>)
    requires
        forall|i: int| 0 <= i < ds.len() ==> #[trigger] a[i] == b[i],
    ensures
        object_of(a, ds) == object_of(b, ds),
    decreases ds.len(),
{
    if ds.len() > 0 {
        lemma_same_keys(a, b, ds.drop_last());
        assert(a[ds.len() - 1] == b[ds.len() - 1]);
    }
}

/// A value that takes the place of another is set under its key.
proof fn lemma_object_update(keys: Seq<Seq<char>>, ds: Seq<Doc>, i: int, d: Doc)
    requires
        0 <= i < ds.len(),
        forall|j: int| i < j < ds.len() ==> #[trigger] keys[j] != keys[i],
    ensures
        object_of(keys, ds.update(i, d)) == put(object_of(keys, ds), keys[i], d),
    decreases ds.len(),
{
    let n = ds.len() - 1;
    let before = object_of(keys, ds.drop_last());
    lemma_object_paired(keys, ds.drop_last());
    if i == n {
        assert(ds.update(i, d).drop_last() =~= ds.drop_last());
        lemma_put_twice(before, keys[i], ds[n], d);
    } else {
        assert(ds.update(i, d).drop_last() =~= ds.drop_last().update(i, d));
        lemma_object_update(keys, ds.drop_last(), i, d);
        assert(keys[n] != keys[i]);
        lemma_put_swap(before, keys[i], d, keys[n], ds[n]);
    }
}

/// Fields that were added one by one make the object of the names and values
/// that were added, and no name occurs twice in them.
proof fn lemma_fields(names: Seq<Seq<char>>, vs: Seq<Val>)
    ensures
        fields_of(names, vs).0.len() == fields_of(names, vs).1.len(),
        forall|i: int, j: int|
            0 <= i < j < fields_of(names, vs).0.len() ==> #[trigger] fields_of(names, vs).0[i]
                != #[trigger] fields_of(names, vs).0[j],
        object_of(fields_of(names, vs).0, docs_of(fields_of(names, vs).1)) == object_of(
            names,
            docs_of(vs),
        ),
    decreases vs.len(),
{
    if vs.len() > 0 {
        let w = vs.drop_last();
        let name = names[vs.len() - 1];
        let v = vs.last();
        lemma_fields(names, w);
        let f = fields_of(names, w);
        lemma_find_from(f.0, name, 0);
        lemma_docs_of(f.1);
        lemma_docs_of(vs);
        lemma_docs_of(w);
        assert(docs_of(vs).drop_last() =~= docs_of(w));
        let g = fields_of(names, vs);
        lemma_docs_of(g.1);
        match find_name(f.0, name) {
            Some(i) => {
                assert(docs_of(g.1) =~= docs_of(f.1).update(i, doc_of(v)));
                lemma_object_update(f.0, docs_of(f.1), i, doc_of(v));
            },
            None => {
                assert(docs_of(g.1) =~= docs_of(f.1).push(doc_of(v)));
                assert(docs_of(g.1).drop_last() =~= docs_of(f.1));
                lemma_same_keys(g.0, f.0, docs_of(f.1));
            },
        }
    }
}

/// No shape of the program names a field twice.
pub open spec fn names_differ(p: Program) -> bool {
    forall|id: u32, i: int, j: int|
        #![trigger p.record_shapes@[id as int]@[i], p.record_shapes@[id as int]@[j]]
        id < p.record_shapes@.len() && 0 <= i < j < p.record_shapes@[id as int]@.len()
            ==> field_name(p, p.record_shapes@[id as int]@[i]) != field_name(
            p,
            p.record_shapes@[id as int]@[j],
        ) || field_name(p, p.record_shapes@[id as int]@[i]) is Err
}

/// A document and a materialized value that go together.
spec fn agreed(p: Program, d: Drawn, m: Val) -> bool {
    &&& d is Ok ==> is_printable(m) && d == Ok::<Doc, Fault>(doc_of(m))
    &&& names_differ(p) && is_printable(m) ==> d is Ok
}

spec fn all_agreed(p: Program, ds: Seq<Drawn>, vs: Seq<Val>, n: nat) -> bool {
    forall|i: int| 0 <= i < n ==> agreed(p, #[trigger] ds[i], vs[i])
}

spec fn printable_first(vs: Seq<Val>, n: nat) -> bool {
    forall|i: int| 0 <= i < n ==> is_printable(#[trigger] vs[i])
}

proof fn lemma_gathered(p: Program, ds: Seq<Drawn>, vs: Seq<Val>, n: nat)
    requires
        n <= vs.len(),
        all_agreed(p, ds, vs, n),
    ensures
        gathered(ds, n) is Ok ==> printable_first(vs, n) && gathered(ds, n) == Ok::<
            Seq<Doc>,
            Fault,
        >(docs_of(vs).take(n as int)),
        names_differ(p) && printable_first(vs, n) ==> gathered(ds, n) is Ok,
    decreases n,
{
    lemma_docs_of(vs);
    if n > 0 {
        lemma_gathered(p, ds, vs, (n - 1) as nat);
        assert(agreed(p, ds[n - 1], vs[n - 1]));
        assert(docs_of(vs).take(n as int) =~= docs_of(vs).take(n - 1).push(doc_of(vs[n - 1])));
    } else {
        assert(docs_of(vs).take(0) =~= Seq::<Doc>::empty());
    }
}

proof fn lemma_named(p: Program, names: Seq<Seq<char>>, ds: Seq<Drawn>, vs: Seq<Val>, n: nat)
    requires
        n <= vs.len(),
        all_agreed(p, ds, vs, n),
    ensures
        named(names, ds, n) is Ok ==> printable_first(vs, n) && named(names, ds, n) == Ok::<
            Obj,
            Fault,
        >(object_of(names, docs_of(vs).take(n as int))),
        names_differ(p) && printable_first(vs, n) ==> named(names, ds, n) is Ok,
    decreases n,
{
    lemma_docs_of(vs);
    if n > 0 {
        lemma_named(p, names, ds, vs, (n - 1) as nat);
        assert(agreed(p, ds[n - 1], vs[n - 1]));
        assert(docs_of(vs).take(n as int).drop_last() =~= docs_of(vs).take(n - 1));
    }
}

proof fn lemma_shaped(p: Program, shape: Seq<u32>, names: Seq<Seq<char>>, ds: Seq<Drawn>, n: nat)
    requires
        shape_names(p, shape, n) is Ok,
        n <= names.len(),
        shape_names(p, shape, n) == Ok::<Seq<Seq<char>>, Fault>(names.take(n as int)),
    ensures
        shaped(p, shape, ds, n) == named(names, ds, n),
        forall|i: int|
            0 <= i < n ==> i < shape.len() && field_name(p, #[trigger] shape[i]) == Ok::<
                Seq<char>,
                Fault,
            >(names[i]),
    decreases n,
{
    if n > 0 {
        let before = shape_names(p, shape, (n - 1) as nat)->Ok_0;
        assert(names.take(n as int) =~= before.push(names.take(n as int).last()));
        assert(before =~= names.take(n - 1));
        lemma_shaped(p, shape, names, ds, (n - 1) as nat);
        assert(names.take(n as int).last() == names[n - 1]);
    }
}

proof fn lemma_shape_names_len(p: Program, shape: Seq<u32>, n: nat)
    ensures
        shape_names(p, shape, n) matches Ok(names) ==> names.len() == n,
    decreases n,
{
    if n > 0 {
        lemma_shape_names_len(p, shape, (n - 1) as nat);
    }
}

/// Fields with different names stay as they are.
pub proof fn lemma_fields_differ(names: Seq<Seq<char>>, vs: Seq<Val>)
    requires
        vs.len() <= names.len(),
        forall|i: int, j: int|
            0 <= i < j < vs.len() ==> #[trigger] names[i] != #[trigger] names[j],
    ensures
        fields_of(names, vs) == (names.take(vs.len() as int), vs),
    decreases vs.len(),
{
    if vs.len() == 0 {
        assert(names.take(0) =~= Seq::<Seq<char>>::empty());
        assert(vs =~= Seq::<Val>::empty());
    } else {
        let n = vs.len() - 1;
        lemma_fields_differ(names, vs.drop_last());
        let f = fields_of(names, vs.drop_last());
        lemma_find_from(f.0, names[n], 0);
        assert(find_name(f.0, names[n]) is None) by {
            if let Some(i) = find_name(f.0, names[n]) {
                assert(f.0[i] == names[i]);
            }
        }
        assert(names.take(n).push(names[n]) =~= names.take(n + 1));
        assert(vs.drop_last().push(vs.last()) =~= vs);
    }
}

proof fn lemma_fields_printable(names: Seq<Seq<char>>, vs: Seq<Val>)
    requires
        all_printable(vs),
    ensures
        all_printable(fields_of(names, vs).1),
    decreases vs.len(),
{
    if vs.len() > 0 {
        assert(all_printable(vs.drop_last()));
        lemma_fields_printable(names, vs.drop_last());
        let f = fields_of(names, vs.drop_last());
        lemma_find_from(f.0, names[vs.len() - 1], 0);
        lemma_fields(names, vs.drop_last());
        assert(is_printable(vs[vs.len() - 1]));
    }
}

proof fn lemma_docs_all(p: Program, arena: Seq<Val>, items: Seq<Val>, bound: nat)
    requires
        materialize_all(p, arena, items, bound) is Ok,
    ensures
        ({
            let vs = materialize_all(p, arena, items, bound)->Ok_0;
            &&& vs.len() == items.len()
            &&& all_agreed(p, list_cells(p, arena, items, bound), vs, items.len())
        }),
    decreases bound, items, 1nat,
{
    if items.len() > 0 {
        lemma_docs_all(p, arena, items.drop_last(), bound);
        lemma_docs_value(p, arena, items.last(), bound);
        let vs = materialize_all(p, arena, items, bound)->Ok_0;
        let ws = materialize_all(p, arena, items.drop_last(), bound)->Ok_0;
        let ds = list_cells(p, arena, items, bound);
        let es = list_cells(p, arena, items.drop_last(), bound);
        lemma_list(p, arena, items, bound);
        lemma_list(p, arena, items.drop_last(), bound);
        assert forall|i: int| 0 <= i < items.len() implies agreed(p, #[trigger] ds[i], vs[i]) by {
            if i < items.len() - 1 {
                assert(agreed(p, es[i], ws[i]));
                assert(ds[i] == es[i]);
            }
        }
    }
}

/// The values of a list.
proof fn lemma_items(p: Program, arena: Seq<Val>, items: Seq<Val>, bound: nat)
    requires
        materialize_all(p, arena, items, bound) is Ok,
    ensures
        ({
            let vs = materialize_all(p, arena, items, bound)->Ok_0;
            let r = gathered(list_cells(p, arena, items, bound), items.len());
            &&& r is Ok ==> all_printable(vs) && r == Ok::<Seq<Doc>, Fault>(docs_of(vs))
            &&& names_differ(p) && all_printable(vs) ==> r is Ok
        }),
    decreases bound, items, 2nat,
{
    let vs = materialize_all(p, arena, items, bound)->Ok_0;
    lemma_docs_all(p, arena, items, bound);
    lemma_gathered(p, list_cells(p, arena, items, bound), vs, items.len());
    lemma_docs_of(vs);
    assert(docs_of(vs).take(items.len() as int) =~= docs_of(vs));
}

/// The values of a record.
proof fn lemma_record(
    p: Program,
    arena: Seq<Val>,
    names: Seq<Seq<char>>,
    values: Seq<Val>,
    bound: nat,
)
    requires
        materialize_all(p, arena, values, bound) is Ok,
    ensures
        ({
            let vs = materialize_all(p, arena, values, bound)->Ok_0;
            let r = named(names, list_cells(p, arena, values, bound), values.len());
            &&& r is Ok ==> all_printable(vs) && r == Ok::<Obj, Fault>(
                object_of(names, docs_of(vs)),
            )
            &&& names_differ(p) && all_printable(vs) ==> r is Ok
        }),
    decreases bound, values, 2nat,
{
    let vs = materialize_all(p, arena, values, bound)->Ok_0;
    lemma_docs_all(p, arena, values, bound);
    lemma_named(p, names, list_cells(p, arena, values, bound), vs, values.len());
    lemma_docs_of(vs);
    assert(docs_of(vs).take(values.len() as int) =~= docs_of(vs));
}

/// The first cells of a handle are those of the list that it covers.
proof fn lemma_cells(p: Program, arena: Seq<Val>, start: u32, count: nat, n: nat, bound: nat)
    requires
        start < bound,
        n <= count,
        start + n <= arena.len(),
    ensures
        ({
            let part = arena.subrange(start as int, start + n);
            forall|i: int|
                0 <= i < n ==> #[trigger] handle_cells(p, arena, start, count, bound)[i]
                    == list_cells(p, arena, part, start as nat)[i]
        }),
{
    let part = arena.subrange(start as int, start + n);
    lemma_slab(p, arena, start, count, bound);
    lemma_list(p, arena, part, start as nat);
}

/// Objects and lists that see the same documents are the same.
proof fn lemma_same_docs(names: Seq<Seq<char>>, a: Seq<Drawn>, b: Seq<Drawn>, n: nat)
    requires
        forall|i: int| 0 <= i < n ==> #[trigger] a[i] == b[i],
    ensures
        gathered(a, n) == gathered(b, n),
        named(names, a, n) == named(names, b, n),
    decreases n,
{
    if n > 0 {
        lemma_same_docs(names, a, b, (n - 1) as nat);
        assert(a[n - 1] == b[n - 1]);
    }
}

/// A record of the arena.
proof fn lemma_arena_record(
    p: Program,
    arena: Seq<Val>,
    v: Val,
    shape_id: u32,
    start: u32,
    count: u16,
    bound: nat,
)
    requires
        v == (Val::ArenaRecord { shape_id, slab_start: start, field_count: count }),
        materialize(p, arena, v, bound) is Ok,
    ensures
        agreed(p, arena_doc(p, arena, v, bound), materialize(p, arena, v, bound)->Ok_0),
    decreases bound, v, 0nat,
{
    let m = materialize(p, arena, v, bound)->Ok_0;
    let shape = shape_at(p, shape_id)->0;
    let n = common(count, shape);
    let ds = handle_cells(p, arena, start, count as nat, bound);
    let names = shape_names(p, shape, n)->Ok_0;
    lemma_shape_names_len(p, shape, n);
    assert(names.take(n as int) =~= names);
    lemma_shaped(p, shape, names, ds, n);
    if n == 0 {
        assert(docs_of(Seq::<Val>::empty()) =~= Seq::<Doc>::empty());
        assert(is_printable(m));
    } else {
        let part = arena.subrange(start as int, start + n);
        let vs = materialize_all(p, arena, part, start as nat)->Ok_0;
        lemma_record(p, arena, names, part, start as nat);
        lemma_docs_all(p, arena, part, start as nat);
        lemma_cells(p, arena, start, count as nat, n, bound);
        lemma_same_docs(names, ds, list_cells(p, arena, part, start as nat), n);
        lemma_fields(names, vs);
        if all_printable(vs) {
            lemma_fields_printable(names, vs);
        }
        if names_differ(p) {
            assert forall|i: int, j: int| 0 <= i < j < vs.len() implies #[trigger] names[i]
                != #[trigger] names[j] by {
                assert(p.record_shapes@[shape_id as int]@ == shape);
                assert(field_name(p, shape[i]) == Ok::<Seq<char>, Fault>(names[i]));
                assert(field_name(p, shape[j]) == Ok::<Seq<char>, Fault>(names[j]));
                let a = p.record_shapes@[shape_id as int]@[i];
                let b = p.record_shapes@[shape_id as int]@[j];
            }
            lemma_fields_differ(names, vs);
        }
    }
}

proof fn lemma_docs_value(p: Program, arena: Seq<Val>, v: Val, bound: nat)
    requires
        materialize(p, arena, v, bound) is Ok,
    ensures
        agreed(p, arena_doc(p, arena, v, bound), materialize(p, arena, v, bound)->Ok_0),
    decreases bound, v, 1nat,
{
    let m = materialize(p, arena, v, bound)->Ok_0;
    match v {
        Val::List(items) => {
            lemma_items(p, arena, items, bound);
        },
        Val::Tuple(items) => {
            lemma_items(p, arena, items, bound);
        },
        Val::Deque(items) => {
            lemma_items(p, arena, items, bound);
        },
        Val::Variant { name, args } => {
            lemma_items(p, arena, args, bound);
            let ds = docs_of(m->args);
            let both = seq![Doc::Str(name), Doc::Array(ds)];
            assert(both.drop_last() =~= seq![Doc::Str(name)]);
            assert(both.drop_last().drop_last() =~= Seq::<Doc>::empty());
            reveal_with_fuel(object_of, 3);
        },
        Val::Record { shape_id, names, values } => {
            lemma_record(p, arena, names, values, bound);
        },
        Val::ArenaRecord { shape_id, slab_start, field_count } => {
            lemma_arena_record(p, arena, v, shape_id, slab_start, field_count, bound);
        },
        Val::ArenaTuple { slab_start, arity } => {
            let ds = handle_cells(p, arena, slab_start, arity as nat, bound);
            if arity == 0 {
                assert(docs_of(Seq::<Val>::empty()) =~= Seq::<Doc>::empty());
            } else {
                let part = arena.subrange(slab_start as int, slab_start + arity);
                lemma_items(p, arena, part, slab_start as nat);
                lemma_cells(p, arena, slab_start, arity as nat, arity as nat, bound);
                lemma_same_docs(
                    Seq::empty(),
                    ds,
                    list_cells(p, arena, part, slab_start as nat),
                    arity as nat,
                );
            }
        },
        _ => {},
    }
}

/// Law: where a value can be materialized, its document, if it has one, is that
/// of the materialized value.
pub proof fn law_documents_are_those_of_materialized_values(
    p: Program,
    arena: Seq<Val>,
    v: Val,
    bound: nat,
)
    requires
        materialize(p, arena, v, bound) is Ok,
        arena_doc(p, arena, v, bound) is Ok,
    ensures
        is_printable(materialize(p, arena, v, bound)->Ok_0),
        arena_doc(p, arena, v, bound) == Ok::<Doc, Fault>(
            doc_of(materialize(p, arena, v, bound)->Ok_0),
        ),
{
    lemma_docs_value(p, arena, v, bound);
}

/// Law: in a program whose shapes name no field twice, a value whose
/// materialization has a document has one.
pub proof fn law_printable_values_have_documents(
    p: Program,
    arena: Seq<Val>,
    v: Val,
    bound: nat,
)
    requires
        names_differ(p),
        materialize(p, arena, v, bound) matches Ok(m) && is_printable(m),
    ensures
        arena_doc(p, arena, v, bound) is Ok,
{
    lemma_docs_value(p, arena, v, bound);
}

} // verus!
