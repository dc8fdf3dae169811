//! Values as JSON documents and back.

use vstd::prelude::*;

use crate::float_bits;
use crate::json;
use crate::json::{docs, object_of, put_member, Doc, Json, Member, Obj};
use crate::shape_registry::{intern, ShapeRegistry};
use crate::text;
use crate::text::{append_hex, bytes_of, decode_hex, hex, same_text, unhex};
use crate::value;
use crate::value::{Field, Key, MapEntry, MapKey, TableSummary, Val, Value};
use crate::value_ops::find_name;

verus! {

broadcast use {crate::value::lemma_view, crate::json::lemma_view};

/// A number as a document; what is not finite has none.
pub open spec fn float_doc(f: u64) -> Doc {
    if float_bits::is_finite(f) {
        Doc::Float(f)
    } else {
        Doc::Null
    }
}

/// A key as a document.
pub open spec fn key_doc(k: Key) -> Doc {
    match k {
        Key::Str(s) => Doc::Str(s),
        Key::Int(n) => Doc::Int(n),
    }
}

pub open spec fn all_text_keys(ks: Seq<Key>) -> bool {
    forall|i: int| 0 <= i < ks.len() ==> (#[trigger] ks[i]) is Str
}

pub open spec fn key_texts(ks: Seq<Key>) -> Seq<Seq<char>> {
    Seq::new(ks.len(), |i: int| ks[i]->Str_0)
}

/// The document of a table: its size and its columns, without its cells.
pub open spec fn table_doc(t: value::Table) -> Doc {
    Doc::Object(
        object_of(
            seq!["$arrow_table"@, "nrows"@, "ncols"@, "schema"@],
            seq![
                Doc::Bool(true),
                Doc::Int(t.num_rows),
                Doc::Int(t.num_columns),
                Doc::Array(
                    Seq::new(
                        t.names.len(),
                        |i: int|
                            Doc::Object(
                                object_of(
                                    seq!["name"@, "type"@],
                                    seq![Doc::Str(t.names[i]), Doc::Str(t.data_types[i])],
                                ),
                            ),
                    ),
                ),
            ],
        ),
    )
}

/// Keys and values as two-element arrays.
pub open spec fn pair_docs(keys: Seq<Key>, ds: Seq<Doc>) -> Seq<Doc> {
    Seq::new(ds.len(), |i: int| Doc::Array(seq![key_doc(keys[i]), ds[i]]))
}

/// The document of a value. Bytes, variants and matrices carry a marker;
/// closures show the first bytes of their body hash.
pub open spec fn doc_of(v: Val) -> Doc
    decreases v, 0int,
{
    match v {
        Val::Int(n) => Doc::Int(n),
        Val::Float(f) => float_doc(f),
        Val::Bool(b) => Doc::Bool(b),
        Val::Str(s) => Doc::Str(s),
        Val::Bytes(b) => Doc::Object(object_of(seq!["$bytes"@], seq![Doc::Str(hex(b))])),
        Val::Unit => Doc::Null,
        Val::List(items) => Doc::Array(docs_of(items)),
        Val::Tuple(items) => Doc::Array(docs_of(items)),
        Val::Deque(items) => Doc::Array(docs_of(items)),
        Val::Record { names, values, .. } => Doc::Object(
            object_of(
                names,
                docs_of(values),
            ),
        ),
        Val::Variant { name, args } => Doc::Object(
            object_of(
                seq!["$variant"@, "args"@],
                seq![
                    Doc::Str(name),
                    Doc::Array(docs_of(args)),
                ],
            ),
        ),
        Val::Closure { body_hash, .. } => Doc::Str(
            "<closure "@ + hex(body_hash.take(4)) + ">"@,
        ),
        Val::F64Array { rows, cols, data } => Doc::Object(
            object_of(
                seq!["$f64_array"@, "rows"@, "cols"@, "data"@],
                seq![
                    Doc::Bool(true),
                    Doc::Int(rows as i64),
                    Doc::Int(cols as i64),
                    Doc::Array(Seq::new(data.len(), |i: int| float_doc(data[i]))),
                ],
            ),
        ),
        Val::Dict { keys, values } => {
            let ds = docs_of(values);
            if all_text_keys(keys) {
                Doc::Object(object_of(key_texts(keys), ds))
            } else {
                Doc::Array(pair_docs(keys, ds))
            }
        },
        Val::KeySet(ks) => Doc::Array(Seq::new(ks.len(), |i: int| key_doc(ks[i]))),
        Val::Actor(_) => Doc::Str("<actor>"@),
        Val::Ticker(_) => Doc::Str("<ticker>"@),
        Val::ArrowTable(t) => table_doc(t),
        _ => Doc::Null,
    }
}

/// The documents of a list of values.
pub open spec fn docs_of(v: Seq<Val>) -> Seq<Doc>
    decreases v, 1int,
{
    if v.len() == 0 {
        Seq::empty()
    } else {
        docs_of(v.drop_last()).push(doc_of(v.last()))
    }
}

pub proof fn lemma_docs_of(v: Seq<Val>)
    ensures
        docs_of(v).len() == v.len(),
        forall|i: int| 0 <= i < v.len() ==> #[trigger] docs_of(v)[i] == doc_of(v[i]),
    decreases v.len(),
{
    if v.len() > 0 {
        lemma_docs_of(v.drop_last());
    }
}

/// The value holds no slab or arena handle, except among the captures of a
/// closure.
pub open spec fn is_printable(v: Val) -> bool
    decreases v,
{
    match v {
        Val::StackRecord { .. } => false,
        Val::StackTuple { .. } => false,
        Val::ArenaRecord { .. } => false,
        Val::ArenaTuple { .. } => false,
        Val::List(items) => forall|i: int|
            0 <= i < items.len() ==> is_printable(#[trigger] items[i]),
        Val::Tuple(items) => forall|i: int|
            0 <= i < items.len() ==> is_printable(#[trigger] items[i]),
        Val::Deque(items) => forall|i: int|
            0 <= i < items.len() ==> is_printable(#[trigger] items[i]),
        Val::Record { values, .. } => forall|i: int|
            0 <= i < values.len() ==> is_printable(#[trigger] values[i]),
        Val::Variant { args, .. } => forall|i: int|
            0 <= i < args.len() ==> is_printable(#[trigger] args[i]),
        Val::Dict { values, .. } => forall|i: int|
            0 <= i < values.len() ==> is_printable(#[trigger] values[i]),
        _ => true,
    }
}

pub open spec fn all_printable(v: Seq<Val>) -> bool {
    forall|i: int| 0 <= i < v.len() ==> is_printable(#[trigger] v[i])
}

fn printable_values(v: &Vec<Value>) -> (yes: bool)
    ensures
        yes <==> all_printable(value::vals(v@)),
    decreases v,
{
    let mut i: usize = 0;
    while i < v.len()
        invariant
            i <= v.len(),
            forall|j: int| 0 <= j < i ==> is_printable(#[trigger] value::vals(v@)[j]),
        decreases v.len() - i,
    {
        if !v[i].printable() {
            assert(!is_printable(value::vals(v@)[i as int]));
            return false;
        }
        i = i + 1;
    }
    true
}

fn printable_fields(v: &Vec<Field>) -> (yes: bool)
    ensures
        yes <==> all_printable(value::field_vals(v@)),
    decreases v,
{
    let mut i: usize = 0;
    while i < v.len()
        invariant
            i <= v.len(),
            forall|j: int| 0 <= j < i ==> is_printable(#[trigger] value::field_vals(v@)[j]),
        decreases v.len() - i,
    {
        if !v[i].value.printable() {
            assert(!is_printable(value::field_vals(v@)[i as int]));
            return false;
        }
        i = i + 1;
    }
    true
}

fn printable_entries(v: &Vec<MapEntry>) -> (yes: bool)
    ensures
        yes <==> all_printable(value::entry_vals(v@)),
    decreases v,
{
    let mut i: usize = 0;
    while i < v.len()
        invariant
            i <= v.len(),
            forall|j: int| 0 <= j < i ==> is_printable(#[trigger] value::entry_vals(v@)[j]),
        decreases v.len() - i,
    {
        if !v[i].value.printable() {
            assert(!is_printable(value::entry_vals(v@)[i as int]));
            return false;
        }
        i = i + 1;
    }
    true
}

/// [`is_printable`], one level deep.
proof fn lemma_is_printable(v: Val)
    ensures
        is_printable(v) == (match v {
            Val::StackRecord { .. } => false,
            Val::StackTuple { .. } => false,
            Val::ArenaRecord { .. } => false,
            Val::ArenaTuple { .. } => false,
            Val::List(items) => all_printable(items),
            Val::Tuple(items) => all_printable(items),
            Val::Deque(items) => all_printable(items),
            Val::Record { values, .. } => all_printable(values),
            Val::Variant { args, .. } => all_printable(args),
            Val::Dict { values, .. } => all_printable(values),
            _ => true,
        }),
{
    reveal_with_fuel(is_printable, 2);
}

impl Value {
    /// Whether the value holds no slab or arena handle, except among the
    /// captures of a closure.
    pub fn printable(&self) -> (yes: bool)
        ensures
            yes == is_printable(self@),
        decreases self,
    {
        let yes = match self {
            Value::StackRecord { .. } => false,
            Value::StackTuple { .. } => false,
            Value::ArenaRecord { .. } => false,
            Value::ArenaTuple { .. } => false,
            Value::List(items) => printable_values(items),
            Value::Tuple(items) => printable_values(items),
            Value::Deque(items) => printable_values(items),
            Value::Record { fields, .. } => printable_fields(fields),
            Value::Variant { args, .. } => printable_values(args),
            Value::Dict(entries) => printable_entries(entries),
            _ => true,
        };
        proof {
            lemma_is_printable(self@);
            assert(self@ == value::view_of(*self));
        }
        yes
    }
}

fn number(f: u64) -> (j: Json)
    ensures
        j@ == float_doc(f),
{
    if float_bits::finite(f) {
        Json::Float(f)
    } else {
        Json::Null
    }
}

fn key_json(k: &MapKey) -> (j: Json)
    ensures
        j@ == key_doc(k@),
{
    match k {
        MapKey::Str(s) => Json::Str(s.clone()),
        MapKey::Int(n) => Json::Int(*n),
    }
}

fn list_json(v: &Vec<Value>) -> (out: Vec<Json>)
    requires
        all_printable(value::vals(v@)),
    ensures
        docs(out@) == docs_of(value::vals(v@)),
    decreases v,
{
    let mut out: Vec<Json> = Vec::new();
    let mut i: usize = 0;
    while i < v.len()
        invariant
            i <= v.len(),
            out@.len() == i,
            all_printable(value::vals(v@)),
            forall|j: int| 0 <= j < i ==> (#[trigger] out@[j])@ == doc_of(v@[j]@),
        decreases v.len() - i,
    {
        assert(is_printable(value::vals(v@)[i as int]));
        out.push(v[i].to_json());
        i = i + 1;
    }
    proof {
        lemma_docs_of(value::vals(v@));
    }
    assert(docs(out@) =~= docs_of(value::vals(v@)));
    out
}

/// The members of one-entry and two-entry objects and the like.
fn put_literal(members: &mut Vec<Member>, key: &str, value: Json)
    ensures
        json::obj_view(final(members)@) == json::put(json::obj_view(old(members)@), key@, value@),
{
    put_member(members, key.to_owned(), value);
}

fn fields_json(v: &Vec<Field>) -> (out: Vec<Member>)
    requires
        all_printable(value::field_vals(v@)),
    ensures
        json::obj_view(out@) == object_of(
            value::field_names(v@),
            docs_of(value::field_vals(v@)),
        ),
    decreases v,
{
    let ghost names = value::field_names(v@);
    let ghost ds = docs_of(value::field_vals(v@));
    proof {
        lemma_docs_of(value::field_vals(v@));
    }
    let mut out: Vec<Member> = Vec::new();
    let mut i: usize = 0;
    proof {
        assert(json::obj_view(out@).keys =~= json::empty_obj().keys);
        assert(json::obj_view(out@).values =~= json::empty_obj().values);
    }
    while i < v.len()
        invariant
            i <= v.len(),
            all_printable(value::field_vals(v@)),
            names == value::field_names(v@),
            ds.len() == v@.len(),
            forall|k: int| 0 <= k < v@.len() ==> #[trigger] ds[k] == doc_of(v@[k].value@),
            json::obj_view(out@) == object_of(names, ds.take(i as int)),
        decreases v.len() - i,
    {
        assert(is_printable(value::field_vals(v@)[i as int]));
        let item = v[i].value.to_json();
        assert(ds.take(i + 1).drop_last() =~= ds.take(i as int));
        put_member(&mut out, v[i].name.clone(), item);
        i = i + 1;
    }
    assert(ds.take(i as int) =~= ds);
    out
}

fn text_keyed_json(v: &Vec<MapEntry>) -> (out: Vec<Member>)
    requires
        all_printable(value::entry_vals(v@)),
        all_text_keys(value::entry_keys(v@)),
    ensures
        json::obj_view(out@) == object_of(
            key_texts(value::entry_keys(v@)),
            docs_of(value::entry_vals(v@)),
        ),
    decreases v,
{
    let ghost names = key_texts(value::entry_keys(v@));
    let ghost ds = docs_of(value::entry_vals(v@));
    proof {
        lemma_docs_of(value::entry_vals(v@));
    }
    let mut out: Vec<Member> = Vec::new();
    let mut i: usize = 0;
    proof {
        assert(json::obj_view(out@).keys =~= json::empty_obj().keys);
        assert(json::obj_view(out@).values =~= json::empty_obj().values);
    }
    while i < v.len()
        invariant
            i <= v.len(),
            all_printable(value::entry_vals(v@)),
            all_text_keys(value::entry_keys(v@)),
            names == key_texts(value::entry_keys(v@)),
            ds.len() == v@.len(),
            forall|k: int| 0 <= k < v@.len() ==> #[trigger] ds[k] == doc_of(v@[k].value@),
            json::obj_view(out@) == object_of(names, ds.take(i as int)),
        decreases v.len() - i,
    {
        assert(is_printable(value::entry_vals(v@)[i as int]));
        assert(value::entry_keys(v@)[i as int] is Str);
        let item = v[i].value.to_json();
        assert(ds.take(i + 1).drop_last() =~= ds.take(i as int));
        match &v[i].key {
            MapKey::Str(s) => {
                put_member(&mut out, s.clone(), item);
            },
            MapKey::Int(_) => {
                assert(false);
            },
        }
        i = i + 1;
    }
    assert(ds.take(i as int) =~= ds);
    out
}

fn pairs_json(v: &Vec<MapEntry>) -> (out: Vec<Json>)
    requires
        all_printable(value::entry_vals(v@)),
    ensures
        docs(out@) == Seq::new(
            v@.len(),
            |i: int|
                Doc::Array(
                    seq![key_doc(value::entry_keys(v@)[i]), doc_of(value::entry_vals(v@)[i])],
                ),
        ),
    decreases v,
{
    let mut out: Vec<Json> = Vec::new();
    let mut i: usize = 0;
    while i < v.len()
        invariant
            i <= v.len(),
            out@.len() == i,
            all_printable(value::entry_vals(v@)),
            forall|j: int|
                0 <= j < i ==> (#[trigger] out@[j])@ == Doc::Array(
                    seq![key_doc(value::entry_keys(v@)[j]), doc_of(value::entry_vals(v@)[j])],
                ),
        decreases v.len() - i,
    {
        assert(is_printable(value::entry_vals(v@)[i as int]));
        let mut pair: Vec<Json> = Vec::new();
        pair.push(key_json(&v[i].key));
        pair.push(v[i].value.to_json());
        assert(docs(pair@) =~= seq![
            key_doc(value::entry_keys(v@)[i as int]),
            doc_of(value::entry_vals(v@)[i as int]),
        ]);
        out.push(Json::Array(pair));
        i = i + 1;
    }
    assert(docs(out@) =~= Seq::new(
        v@.len(),
        |i: int|
            Doc::Array(seq![key_doc(value::entry_keys(v@)[i]), doc_of(value::entry_vals(v@)[i])]),
    ));
    out
}

fn has_text_keys(v: &Vec<MapEntry>) -> (yes: bool)
    ensures
        yes == all_text_keys(value::entry_keys(v@)),
{
    let mut i: usize = 0;
    while i < v.len()
        invariant
            i <= v.len(),
            forall|j: int| 0 <= j < i ==> (#[trigger] value::entry_keys(v@)[j]) is Str,
        decreases v.len() - i,
    {
        match &v[i].key {
            MapKey::Str(_) => {},
            MapKey::Int(_) => {
                assert(!(value::entry_keys(v@)[i as int] is Str));
                return false;
            },
        }
        i = i + 1;
    }
    true
}

fn keys_json(v: &Vec<MapKey>) -> (out: Vec<Json>)
    ensures
        docs(out@) == Seq::new(v@.len(), |i: int| key_doc(value::keys(v@)[i])),
{
    let mut out: Vec<Json> = Vec::new();
    let mut i: usize = 0;
    while i < v.len()
        invariant
            i <= v.len(),
            out@.len() == i,
            forall|j: int| 0 <= j < i ==> (#[trigger] out@[j])@ == key_doc(v@[j]@),
        decreases v.len() - i,
    {
        out.push(key_json(&v[i]));
        i = i + 1;
    }
    assert(docs(out@) =~= Seq::new(v@.len(), |i: int| key_doc(value::keys(v@)[i])));
    out
}

fn numbers_json(v: &Vec<u64>) -> (out: Vec<Json>)
    ensures
        docs(out@) == Seq::new(v@.len(), |i: int| float_doc(v@[i])),
{
    let mut out: Vec<Json> = Vec::new();
    let mut i: usize = 0;
    while i < v.len()
        invariant
            i <= v.len(),
            out@.len() == i,
            forall|j: int| 0 <= j < i ==> (#[trigger] out@[j])@ == float_doc(v@[j]),
        decreases v.len() - i,
    {
        out.push(number(v[i]));
        i = i + 1;
    }
    assert(docs(out@) =~= Seq::new(v@.len(), |i: int| float_doc(v@[i])));
    out
}

fn new_members() -> (m: Vec<Member>)
    ensures
        json::obj_view(m@) == json::empty_obj(),
{
    let m: Vec<Member> = Vec::new();
    assert(json::obj_view(m@).keys =~= json::empty_obj().keys);
    assert(json::obj_view(m@).values =~= json::empty_obj().values);
    m
}

/// Setting members in turn builds the object with these members.
proof fn lemma_object_of_push(keys: Seq<Seq<char>>, values: Seq<Doc>, v: Doc)
    requires
        keys.len() > values.len(),
    ensures
        object_of(keys, values.push(v)) == json::put(
            object_of(keys, values),
            keys[values.len() as int],
            v,
        ),
{
    assert(values.push(v).drop_last() =~= values);
}

fn table_json(t: &TableSummary) -> (j: Json)
    ensures
        j@ == table_doc(t@),
{
    let ghost ks = seq!["name"@, "type"@];
    let mut cols: Vec<Json> = Vec::new();
    let mut i: usize = 0;
    while i < t.schema.len()
        invariant
            i <= t.schema.len(),
            cols@.len() == i,
            ks == seq!["name"@, "type"@],
            forall|k: int|
                0 <= k < i ==> (#[trigger] cols@[k])@ == Doc::Object(
                    object_of(ks, seq![Doc::Str(t@.names[k]), Doc::Str(t@.data_types[k])]),
                ),
        decreases t.schema.len() - i,
    {
        let mut o = new_members();
        put_literal(&mut o, "name", Json::Str(t.schema[i].name.clone()));
        put_literal(&mut o, "type", Json::Str(t.schema[i].data_type.clone()));
        proof {
            let a = Doc::Str(t@.names[i as int]);
            let b = Doc::Str(t@.data_types[i as int]);
            let none = Seq::<Doc>::empty();
            lemma_object_of_push(ks, none, a);
            lemma_object_of_push(ks, none.push(a), b);
            assert(none.push(a).push(b) =~= seq![a, b]);
        }
        cols.push(Json::Object(o));
        i = i + 1;
    }
    let ghost cd = docs(cols@);
    let mut m = new_members();
    put_literal(&mut m, "$arrow_table", Json::Bool(true));
    put_literal(&mut m, "nrows", Json::Int(t.num_rows));
    put_literal(&mut m, "ncols", Json::Int(t.num_columns));
    put_literal(&mut m, "schema", Json::Array(cols));
    proof {
        let keys = seq!["$arrow_table"@, "nrows"@, "ncols"@, "schema"@];
        let none = Seq::<Doc>::empty();
        let a = Doc::Bool(true);
        let b = Doc::Int(t.num_rows);
        let c = Doc::Int(t.num_columns);
        let d = Doc::Array(cd);
        lemma_object_of_push(keys, none, a);
        lemma_object_of_push(keys, none.push(a), b);
        lemma_object_of_push(keys, none.push(a).push(b), c);
        lemma_object_of_push(keys, none.push(a).push(b).push(c), d);
        assert(none.push(a).push(b).push(c).push(d) =~= seq![a, b, c, d]);
        assert(cd =~= Seq::new(
            t@.names.len(),
            |i: int|
                Doc::Object(
                    object_of(
                        seq!["name"@, "type"@],
                        seq![Doc::Str(t@.names[i]), Doc::Str(t@.data_types[i])],
                    ),
                ),
        ));
    }
    Json::Object(m)
}

impl Value {
    /// The document of the value.
    pub fn to_json(&self) -> (j: Json)
        requires
            is_printable(self@),
        ensures
            j@ == doc_of(self@),
        decreases self,
    {
        proof {
            assert(self@ == value::view_of(*self));
            reveal_with_fuel(is_printable, 2);
        }
        let ghost none = Seq::<Doc>::empty();
        match self {
            Value::Int(n) => Json::Int(*n),
            Value::Float(f) => number(*f),
            Value::Bool(b) => Json::Bool(*b),
            Value::Str(s) => Json::Str(s.clone()),
            Value::Bytes(b) => {
                let mut h = String::new();
                append_hex(&mut h, b.as_slice());
                let mut m = new_members();
                assert(h@ =~= hex(b@));
                put_literal(&mut m, "$bytes", Json::Str(h));
                proof {
                    let a = Doc::Str(hex(b@));
                    lemma_object_of_push(seq!["$bytes"@], none, a);
                    assert(none.push(a) =~= seq![a]);
                }
                Json::Object(m)
            },
            Value::Unit => Json::Null,
            Value::List(items) => Json::Array(list_json(items)),
            Value::Tuple(items) => Json::Array(list_json(items)),
            Value::Deque(items) => Json::Array(list_json(items)),
            Value::Record { fields, .. } => Json::Object(fields_json(fields)),
            Value::Variant { name, args } => {
                let list = list_json(args);
                let mut m = new_members();
                put_literal(&mut m, "$variant", Json::Str(name.clone()));
                put_literal(&mut m, "args", Json::Array(list));
                proof {
                    let ks = seq!["$variant"@, "args"@];
                    let a = Doc::Str(name@);
                    let b = Doc::Array(docs_of(value::vals(args@)));
                    lemma_object_of_push(ks, none, a);
                    lemma_object_of_push(ks, none.push(a), b);
                    assert(none.push(a).push(b) =~= seq![a, b]);
                }
                Json::Object(m)
            },
            Value::Closure { body_hash, .. } => {
                let mut s = "<closure ".to_owned();
                let prefix = vstd::slice::slice_subrange(body_hash.as_slice(), 0, 4);
                append_hex(&mut s, prefix);
                s.append(">");
                assert(prefix@ =~= body_hash@.take(4));
                Json::Str(s)
            },
            Value::F64Array { rows, cols, data } => {
                let list = numbers_json(data);
                let mut m = new_members();
                put_literal(&mut m, "$f64_array", Json::Bool(true));
                put_literal(&mut m, "rows", Json::Int(*rows as i64));
                put_literal(&mut m, "cols", Json::Int(*cols as i64));
                put_literal(&mut m, "data", Json::Array(list));
                proof {
                    let ks = seq!["$f64_array"@, "rows"@, "cols"@, "data"@];
                    let a = Doc::Bool(true);
                    let b = Doc::Int(*rows as i64);
                    let c = Doc::Int(*cols as i64);
                    let d = Doc::Array(Seq::new(data@.len(), |i: int| float_doc(data@[i])));
                    lemma_object_of_push(ks, none, a);
                    lemma_object_of_push(ks, none.push(a), b);
                    lemma_object_of_push(ks, none.push(a).push(b), c);
                    lemma_object_of_push(ks, none.push(a).push(b).push(c), d);
                    assert(none.push(a).push(b).push(c).push(d) =~= seq![a, b, c, d]);
                }
                Json::Object(m)
            },
            Value::Dict(entries) => {
                proof {
                    lemma_docs_of(value::entry_vals(entries@));
                    assert(Seq::new(
                        entries@.len(),
                        |i: int|
                            Doc::Array(
                                seq![
                                    key_doc(value::entry_keys(entries@)[i]),
                                    doc_of(value::entry_vals(entries@)[i]),
                                ],
                            ),
                    ) =~= pair_docs(
                        value::entry_keys(entries@),
                        docs_of(value::entry_vals(entries@)),
                    ));
                }
                if has_text_keys(entries) {
                    Json::Object(text_keyed_json(entries))
                } else {
                    Json::Array(pairs_json(entries))
                }
            },
            Value::KeySet(ks) => Json::Array(keys_json(ks)),
            Value::Actor(_) => Json::Str("<actor>".to_owned()),
            Value::Ticker(_) => Json::Str("<ticker>".to_owned()),
            Value::ArrowTable(t) => table_json(t),
            _ => {
                assert(false);
                Json::Null
            },
        }
    }
}


// ---------------------------------------------------------------------------
// Documents as values
// ---------------------------------------------------------------------------

/// The object is the document of a variant.
pub open spec fn is_variant_doc(o: Obj) -> bool {
    &&& find_name(o.keys, "$variant"@) is Some
    &&& o.values[find_name(o.keys, "$variant"@)->0] is Str
    &&& find_name(o.keys, "args"@) is Some
    &&& o.values[find_name(o.keys, "args"@)->0] is Array
}

/// The object is the document of bytes.
pub open spec fn is_bytes_doc(o: Obj) -> bool {
    &&& o.keys.len() == 1
    &&& o.keys[0] == "$bytes"@
    &&& o.values[0] is Str
    &&& unhex(bytes_of(o.values[0]->Str_0)) is Some
}

/// The value of a document, with the ids of record shapes taken from `ids`.
pub open spec fn value_from(d: Doc, ids: Map<Seq<Seq<char>>, u32>) -> Val
    decreases d, 0int,
{
    match d {
        Doc::Null => Val::Unit,
        Doc::Bool(b) => Val::Bool(b),
        Doc::Int(n) => Val::Int(n),
        Doc::Float(f) => Val::Float(f),
        Doc::Str(s) => Val::Str(s),
        Doc::Array(items) => Val::List(values_from(items, ids)),
        Doc::Object(o) => if o.keys.len() == o.values.len() && is_variant_doc(o) {
            let args = o.values[find_name(o.keys, "args"@)->0];
            proof {
                crate::value_ops::lemma_find_from(o.keys, "args"@, 0);
            }
            Val::Variant {
                name: o.values[find_name(o.keys, "$variant"@)->0]->Str_0,
                args: values_from(args->Array_0, ids),
            }
        } else if is_bytes_doc(o) {
            Val::Bytes(unhex(bytes_of(o.values[0]->Str_0))->0)
        } else {
            Val::Record {
                shape_id: ids[text::sorted(o.keys)],
                names: o.keys,
                values: values_from(o.values, ids),
            }
        },
    }
}

pub open spec fn values_from(d: Seq<Doc>, ids: Map<Seq<Seq<char>>, u32>) -> Seq<Val>
    decreases d, 1int,
{
    if d.len() == 0 {
        Seq::empty()
    } else {
        values_from(d.drop_last(), ids).push(value_from(d.last(), ids))
    }
}

proof fn lemma_values_from(d: Seq<Doc>, ids: Map<Seq<Seq<char>>, u32>)
    ensures
        values_from(d, ids).len() == d.len(),
        forall|i: int| 0 <= i < d.len()
            ==> #[trigger] values_from(d, ids)[i] == value_from(d[i], ids),
    decreases d.len(),
{
    if d.len() > 0 {
        lemma_values_from(d.drop_last(), ids);
    }
}

/// How many objects a document holds.
pub open spec fn object_count(d: Doc) -> nat
    decreases d, 0int,
{
    match d {
        Doc::Array(items) => object_counts(items),
        Doc::Object(o) => 1 + object_counts(o.values),
        _ => 0,
    }
}

pub open spec fn object_counts(d: Seq<Doc>) -> nat
    decreases d, 1int,
{
    if d.len() == 0 {
        0
    } else {
        object_counts(d.drop_last()) + object_count(d.last())
    }
}

proof fn lemma_count_at(d: Seq<Doc>, i: int)
    requires
        0 <= i < d.len(),
    ensures
        object_count(d[i]) <= object_counts(d),
    decreases d.len(),
{
    if i < d.len() - 1 {
        lemma_count_at(d.drop_last(), i);
    }
}

/// The shapes of all records in the value of a document have ids.
pub open spec fn shapes_known(d: Doc, ids: Map<Seq<Seq<char>>, u32>) -> bool
    decreases d, 0int,
{
    match d {
        Doc::Array(items) => all_shapes_known(items, ids),
        Doc::Object(o) => if o.keys.len() == o.values.len() && is_variant_doc(o) {
            proof {
                crate::value_ops::lemma_find_from(o.keys, "args"@, 0);
            }
            all_shapes_known(o.values[find_name(o.keys, "args"@)->0]->Array_0, ids)
        } else if is_bytes_doc(o) {
            true
        } else {
            ids.contains_key(text::sorted(o.keys)) && all_shapes_known(o.values, ids)
        },
        _ => true,
    }
}

pub open spec fn all_shapes_known(d: Seq<Doc>, ids: Map<Seq<Seq<char>>, u32>) -> bool
    decreases d, 1int,
{
    if d.len() == 0 {
        true
    } else {
        all_shapes_known(d.drop_last(), ids) && shapes_known(d.last(), ids)
    }
}

/// Every shape keeps its id.
pub open spec fn extends(a: Map<Seq<Seq<char>>, u32>, b: Map<Seq<Seq<char>>, u32>) -> bool {
    forall|k: Seq<Seq<char>>| #[trigger] a.contains_key(k) ==> b.contains_key(k) && b[k] == a[k]
}

/// More ids do not change the value of a document.
proof fn lemma_more_ids(d: Doc, a: Map<Seq<Seq<char>>, u32>, b: Map<Seq<Seq<char>>, u32>)
    requires
        extends(a, b),
        shapes_known(d, a),
    ensures
        shapes_known(d, b),
        value_from(d, a) == value_from(d, b),
    decreases d, 0int,
{
    match d {
        Doc::Array(items) => {
            lemma_more_ids_all(items, a, b);
        },
        Doc::Object(o) => {
            if o.keys.len() == o.values.len() && is_variant_doc(o) {
                crate::value_ops::lemma_find_from(o.keys, "args"@, 0);
                lemma_more_ids_all(o.values[find_name(o.keys, "args"@)->0]->Array_0, a, b);
            } else if !is_bytes_doc(o) {
                lemma_more_ids_all(o.values, a, b);
            }
        },
        _ => {},
    }
}

proof fn lemma_more_ids_all(
    d: Seq<Doc>,
    a: Map<Seq<Seq<char>>, u32>,
    b: Map<Seq<Seq<char>>, u32>,
)
    requires
        extends(a, b),
        all_shapes_known(d, a),
    ensures
        all_shapes_known(d, b),
        values_from(d, a) == values_from(d, b),
    decreases d, 1int,
{
    if d.len() > 0 {
        lemma_more_ids_all(d.drop_last(), a, b);
        lemma_more_ids(d.last(), a, b);
    }
}

fn values_from_json(items: &Vec<Json>, registry: &mut ShapeRegistry) -> (out: Vec<Value>)
    requires
        old(registry).wf(),
        old(registry)@.dom().len() + object_counts(docs(items@)) <= u32::MAX
            - crate::shape_registry::DYNAMIC_SHAPE_ID_BASE,
    ensures
        final(registry).wf(),
        extends(old(registry)@, final(registry)@),
        final(registry)@.dom().len() <= old(registry)@.dom().len() + object_counts(docs(items@)),
        all_shapes_known(docs(items@), final(registry)@),
        value::vals(out@) == values_from(docs(items@), final(registry)@),
    decreases items,
{
    let ghost ds = docs(items@);
    let ghost start = registry@;
    let mut out: Vec<Value> = Vec::new();
    let mut i: usize = 0;
    assert(ds.take(0) =~= Seq::<Doc>::empty());
    assert(ds.take(items.len() as int) =~= ds);
    while i < items.len()
        invariant
            i <= items.len(),
            ds == docs(items@),
            registry.wf(),
            extends(start, registry@),
            start.dom().len() + object_counts(ds) <= u32::MAX
                - crate::shape_registry::DYNAMIC_SHAPE_ID_BASE,
            registry@.dom().len() <= start.dom().len() + object_counts(ds.take(i as int)),
            all_shapes_known(ds.take(i as int), registry@),
            value::vals(out@) == values_from(ds.take(i as int), registry@),
        decreases items.len() - i,
    {
        let ghost before = registry@;
        let ghost out0 = out@;
        proof {
            assert(ds.take(i + 1).drop_last() =~= ds.take(i as int));
            assert(ds.take(i + 1).last() == ds[i as int]);
            lemma_prefix_counts(ds, i + 1);
        }
        let v = Value::from_json(&items[i], registry);
        proof {
            lemma_more_ids_all(ds.take(i as int), before, registry@);
        }
        out.push(v);
        assert(value::vals(out@) =~= value::vals(out0).push(v@));
        i = i + 1;
    }
    assert(ds.take(i as int) =~= ds);
    out
}

proof fn lemma_prefix_counts(d: Seq<Doc>, k: int)
    requires
        0 <= k <= d.len(),
    ensures
        object_counts(d.take(k)) <= object_counts(d),
    decreases d.len(),
{
    if k < d.len() {
        lemma_prefix_counts(d.drop_last(), k);
        assert(d.drop_last().take(k) =~= d.take(k));
    } else {
        assert(d.take(k) =~= d);
    }
}

fn fields_from_json(members: &Vec<Member>, registry: &mut ShapeRegistry) -> (out: Vec<Field>)
    requires
        old(registry).wf(),
        old(registry)@.dom().len() + object_counts(json::member_docs(members@)) <= u32::MAX
            - crate::shape_registry::DYNAMIC_SHAPE_ID_BASE,
    ensures
        final(registry).wf(),
        extends(old(registry)@, final(registry)@),
        final(registry)@.dom().len() <= old(registry)@.dom().len() + object_counts(
            json::member_docs(members@),
        ),
        all_shapes_known(json::member_docs(members@), final(registry)@),
        value::field_names(out@) == json::member_keys(members@),
        value::field_vals(out@) == values_from(json::member_docs(members@), final(registry)@),
    decreases members,
{
    let ghost ds = json::member_docs(members@);
    let ghost ks = json::member_keys(members@);
    let ghost start = registry@;
    let mut out: Vec<Field> = Vec::new();
    let mut i: usize = 0;
    assert(ds.take(0) =~= Seq::<Doc>::empty());
    assert(value::field_names(out@) =~= ks.take(0));
    while i < members.len()
        invariant
            i <= members.len(),
            ds == json::member_docs(members@),
            ks == json::member_keys(members@),
            registry.wf(),
            extends(start, registry@),
            start.dom().len() + object_counts(ds) <= u32::MAX
                - crate::shape_registry::DYNAMIC_SHAPE_ID_BASE,
            registry@.dom().len() <= start.dom().len() + object_counts(ds.take(i as int)),
            all_shapes_known(ds.take(i as int), registry@),
            value::field_names(out@) == ks.take(i as int),
            value::field_vals(out@) == values_from(ds.take(i as int), registry@),
        decreases members.len() - i,
    {
        let ghost before = registry@;
        let ghost out0 = out@;
        proof {
            assert(ds.take(i + 1).drop_last() =~= ds.take(i as int));
            assert(ds.take(i + 1).last() == ds[i as int]);
            lemma_prefix_counts(ds, i + 1);
        }
        let v = Value::from_json(&members[i].value, registry);
        proof {
            lemma_more_ids_all(ds.take(i as int), before, registry@);
        }
        out.push(Field { name: members[i].key.clone(), value: v });
        assert(value::field_vals(out@) =~= value::field_vals(out0).push(v@));
        assert(value::field_names(out@) =~= value::field_names(out0).push(ks[i as int]));
        assert(ks.take(i + 1) =~= ks.take(i as int).push(ks[i as int]));
        i = i + 1;
    }
    assert(ds.take(i as int) =~= ds);
    assert(ks.take(i as int) =~= ks);
    out
}

fn find_member(members: &Vec<Member>, key: &str) -> (at: Option<usize>)
    ensures
        at matches Some(i) ==> i < members@.len() && find_name(json::member_keys(members@), key@)
            == Some(i as int),
        at is None ==> find_name(json::member_keys(members@), key@) is None,
{
    let ghost ks = json::member_keys(members@);
    let mut i: usize = 0;
    while i < members.len()
        invariant
            i <= members.len(),
            ks == json::member_keys(members@),
            find_name(ks, key@) == crate::value_ops::find_from(ks, key@, i as int),
        decreases members.len() - i,
    {
        assert(ks[i as int] == members@[i as int].key@);
        if same_text(members[i].key.as_str(), key) {
            return Some(i);
        }
        i = i + 1;
    }
    None
}

/// The names of fields.
pub(crate) fn names_of(fields: &Vec<Field>) -> (names: Vec<String>)
    ensures
        text::texts(names@) == value::field_names(fields@),
{
    let mut names: Vec<String> = Vec::new();
    let mut i: usize = 0;
    while i < fields.len()
        invariant
            i <= fields.len(),
            names@.len() == i,
            forall|j: int| 0 <= j < i ==> (#[trigger] names@[j])@ == fields@[j].name@,
        decreases fields.len() - i,
    {
        names.push(fields[i].name.clone());
        i = i + 1;
    }
    assert(text::texts(names@) =~= value::field_names(fields@));
    names
}

impl Value {
    /// A record whose shape id comes from the registry.
    pub fn record_dynamic(fields: Vec<Field>, registry: &mut ShapeRegistry) -> (v: Value)
        requires
            old(registry)@.dom().len() < u32::MAX - crate::shape_registry::DYNAMIC_SHAPE_ID_BASE,
        ensures
            final(registry).wf(),
            final(registry)@ == crate::shape_registry::interned(
                old(registry)@,
                value::field_names(fields@),
            ),
            final(registry)@.contains_key(text::sorted(value::field_names(fields@))),
            v@ == (Val::Record {
                shape_id: final(registry)@[text::sorted(value::field_names(fields@))],
                names: value::field_names(fields@),
                values: value::field_vals(fields@),
            }),
    {
        let names = names_of(&fields);
        let shape_id: u32 = intern(registry, names);
        let v = Value::Record { shape_id, fields };
        assert(v@ == value::view_of(v));
        v
    }

    /// A record of fields whose names are shared texts already. Names are
    /// owned here, so this is [`Value::record_dynamic`].
    pub fn record_interned(fields: Vec<Field>, registry: &mut ShapeRegistry) -> (v: Value)
        requires
            old(registry)@.dom().len() < u32::MAX - crate::shape_registry::DYNAMIC_SHAPE_ID_BASE,
        ensures
            final(registry).wf(),
            final(registry)@ == crate::shape_registry::interned(
                old(registry)@,
                value::field_names(fields@),
            ),
            final(registry)@.contains_key(text::sorted(value::field_names(fields@))),
            v@ == (Val::Record {
                shape_id: final(registry)@[text::sorted(value::field_names(fields@))],
                names: value::field_names(fields@),
                values: value::field_vals(fields@),
            }),
    {
        Value::record_dynamic(fields, registry)
    }

    /// The value of a document. Reads back what [`Value::to_json`] writes for
    /// texts, numbers, booleans, bytes, units, lists, variants and records.
    pub fn from_json(j: &Json, registry: &mut ShapeRegistry) -> (v: Value)
        requires
            old(registry)@.dom().len() + object_count(j@) <= u32::MAX
                - crate::shape_registry::DYNAMIC_SHAPE_ID_BASE,
        ensures
            final(registry).wf(),
            extends(old(registry)@, final(registry)@),
            final(registry)@.dom().len() <= old(registry)@.dom().len() + object_count(j@),
            shapes_known(j@, final(registry)@),
            v@ == value_from(j@, final(registry)@),
        decreases j,
    {
        proof {
            use_type_invariant(&*registry);
            assert(j@ == json::view_of(*j));
        }
        match j {
            Json::Null => Value::Unit,
            Json::Bool(b) => Value::Bool(*b),
            Json::Int(n) => Value::Int(*n),
            Json::Float(f) => Value::Float(*f),
            Json::Str(s) => Value::Str(s.clone()),
            Json::Array(items) => {
                let list = values_from_json(items, registry);
                let v = Value::List(list);
                assert(v@ == value::view_of(v));
                v
            },
            Json::Object(members) => {
                let ghost o = json::obj_view(members@);
                let name_at = find_member(members, "$variant");
                let args_at = find_member(members, "args");
                if name_at.is_some() && args_at.is_some() {
                    let n: usize = name_at.unwrap();
                    let a: usize = args_at.unwrap();
                    assert(o.values[n as int] == members@[n as int].value@);
                    assert(o.values[a as int] == members@[a as int].value@);
                    assert(members@[n as int].value@ == json::view_of(members@[n as int].value));
                    assert(members@[a as int].value@ == json::view_of(members@[a as int].value));
                    if let Json::Str(name) = &members[n].value {
                        if let Json::Array(args) = &members[a].value {
                            proof {
                                lemma_count_at(o.values, a as int);
                            }
                            let list = values_from_json(args, registry);
                            let v = Value::Variant { name: name.clone(), args: list };
                            assert(v@ == value::view_of(v));
                            return v;
                        }
                    }
                }
                assert(!is_variant_doc(o));
                if members.len() == 1 && same_text(members[0].key.as_str(), "$bytes") {
                    assert(members@[0].value@ == json::view_of(members@[0].value));
                    if let Json::Str(h) = &members[0].value {
                        let decoded = decode_hex(h.as_str());
                        if let Some(bytes) = decoded {
                            return Value::Bytes(bytes);
                        }
                    }
                }
                assert(!is_bytes_doc(o));
                let ghost before = registry@;
                let fields = fields_from_json(members, registry);
                let ghost mid = registry@;
                let v = Value::record_dynamic(fields, registry);
                proof {
                    assert(extends(mid, registry@));
                    lemma_more_ids_all(o.values, mid, registry@);
                }
                v
            },
        }
    }
}


// ---------------------------------------------------------------------------
// Laws
// ---------------------------------------------------------------------------

/// The record is written like a variant: it has a text under `$variant` and a
/// list under `args`.
pub open spec fn looks_like_variant(names: Seq<Seq<char>>, values: Seq<Val>) -> bool {
    exists|i: int, j: int|
        0 <= i < names.len() && 0 <= j < names.len() && #[trigger] names[i] == "$variant"@
            && values[i] is Str && #[trigger] names[j] == "args"@ && values[j] is List
}

/// The record is written like bytes: it has one text, under `$bytes`.
pub open spec fn looks_like_bytes(names: Seq<Seq<char>>, values: Seq<Val>) -> bool {
    names.len() == 1 && names[0] == "$bytes"@ && values[0] is Str
}

/// Values that a document keeps: numbers that are finite, texts, booleans,
/// bytes, units, and lists, variants and records of such values. A record must
/// not look like a variant or like bytes.
pub open spec fn round_trips(v: Val) -> bool
    decreases v,
{
    match v {
        Val::Int(_) | Val::Bool(_) | Val::Str(_) | Val::Bytes(_) | Val::Unit => true,
        Val::Float(f) => float_bits::is_finite(f),
        Val::List(items) => forall|i: int|
            0 <= i < items.len() ==> round_trips(#[trigger] items[i]),
        Val::Variant { args, .. } => forall|i: int|
            0 <= i < args.len() ==> round_trips(#[trigger] args[i]),
        Val::Record { names, values, .. } => {
            &&& names.len() == values.len()
            &&& names.no_duplicates()
            &&& !looks_like_variant(names, values)
            &&& !looks_like_bytes(names, values)
            &&& forall|i: int| 0 <= i < values.len() ==> round_trips(#[trigger] values[i])
        },
        _ => false,
    }
}

/// Keys in strictly ascending order, one value each.
spec fn is_sorted_obj(o: Obj) -> bool {
    &&& o.keys.len() == o.values.len()
    &&& forall|i: int, j: int|
        0 <= i < j < o.keys.len() ==> text::text_le(#[trigger] o.keys[i], #[trigger] o.keys[j])
            && o.keys[i] != o.keys[j]
}

/// The object holds this member.
spec fn has_member(o: Obj, k: Seq<char>, v: Doc) -> bool {
    exists|i: int| 0 <= i < o.keys.len() && #[trigger] o.keys[i] == k && o.values[i] == v
}

spec fn has_key(o: Obj, k: Seq<char>) -> bool {
    exists|i: int| 0 <= i < o.keys.len() && #[trigger] o.keys[i] == k
}

pub proof fn lemma_order_facts(a: Seq<char>, b: Seq<char>, c: Seq<char>)
    ensures
        text::text_le(a, b) || text::text_le(b, a),
        text::text_le(a, b) && text::text_le(b, a) ==> a == b,
        text::text_le(a, b) && text::text_le(b, c) ==> text::text_le(a, c),
{
    text::lemma_text_order();
    let r = text::text_order();
    assert(r(a, b) == text::text_le(a, b));
    assert(r(b, a) == text::text_le(b, a));
    assert(r(b, c) == text::text_le(b, c));
    assert(r(a, c) == text::text_le(a, c));
}

/// Setting a member keeps the order, and all members with other keys.
proof fn lemma_put(o: Obj, k: Seq<char>, v: Doc)
    requires
        is_sorted_obj(o),
    ensures
        is_sorted_obj(json::put(o, k, v)),
        has_member(json::put(o, k, v), k, v),
        forall|q: Seq<char>, w: Doc| q != k && #[trigger] has_member(o, q, w)
            ==> has_member(json::put(o, k, v), q, w),
        forall|q: Seq<char>| #[trigger] has_key(json::put(o, k, v), q) ==> q == k || has_key(o, q),
        json::put(o, k, v).keys.len() == o.keys.len() + (if has_key(o, k) { 0int } else { 1int }),
    decreases o.keys.len(),
{
    let p = json::put(o, k, v);
    if o.keys.len() == 0 {
        assert(p.keys[0] == k && p.values[0] == v);
        assert forall|q: Seq<char>| #[trigger] has_key(p, q) implies q == k || has_key(o, q) by {}
    } else {
        let n = o.keys.len() - 1;
        let last = o.keys[n];
        if last == k {
            assert(p.keys[n] == k && p.values[n] == v);
            assert forall|q: Seq<char>, w: Doc| q != k
                && #[trigger] has_member(o, q, w) implies has_member(p, q, w) by {
                let i = choose|i: int| 0 <= i < o.keys.len() && #[trigger] o.keys[i] == q
                    && o.values[i] == w;
                assert(p.keys[i] == q && p.values[i] == w);
            }
            assert(has_key(o, k));
        } else if text::text_le(last, k) {
            assert(p.keys[n + 1] == k && p.values[n + 1] == v);
            assert forall|i: int, j: int| 0 <= i < j < p.keys.len() implies text::text_le(
                #[trigger] p.keys[i],
                #[trigger] p.keys[j],
            ) && p.keys[i] != p.keys[j] by {
                if j == n + 1 {
                    if i < n {
                        assert(text::text_le(o.keys[i], o.keys[n]));
                        lemma_order_facts(o.keys[i], last, k);
                        lemma_order_facts(last, o.keys[i], k);
                    }
                } else {
                    assert(text::text_le(o.keys[i], o.keys[j]));
                }
            }
            assert forall|q: Seq<char>, w: Doc| q != k
                && #[trigger] has_member(o, q, w) implies has_member(p, q, w) by {
                let i = choose|i: int| 0 <= i < o.keys.len() && #[trigger] o.keys[i] == q
                    && o.values[i] == w;
                assert(p.keys[i] == q && p.values[i] == w);
            }
            assert forall|q: Seq<char>| #[trigger] has_key(p, q) implies q == k
                || has_key(o, q) by {
                let i = choose|i: int| 0 <= i < p.keys.len() && #[trigger] p.keys[i] == q;
                if i <= n {
                    assert(o.keys[i] == q);
                }
            }
            if has_key(o, k) {
                let i = choose|i: int| 0 <= i < o.keys.len() && #[trigger] o.keys[i] == k;
                assert(i < n);
                assert(text::text_le(o.keys[i], o.keys[n]));
                lemma_order_facts(k, last, k);
                assert(false);
            }
        } else {
            let f = json::front(o);
            assert forall|i: int, j: int| 0 <= i < j < f.keys.len() implies text::text_le(
                #[trigger] f.keys[i],
                #[trigger] f.keys[j],
            ) && f.keys[i] != f.keys[j] by {
                assert(text::text_le(o.keys[i], o.keys[j]));
            }
            lemma_put(f, k, v);
            let g = json::put(f, k, v);
            assert(has_key(o, k) == has_key(f, k)) by {
                if has_key(o, k) {
                    let i = choose|i: int| 0 <= i < o.keys.len() && #[trigger] o.keys[i] == k;
                    assert(f.keys[i] == k);
                }
                if has_key(f, k) {
                    let i = choose|i: int| 0 <= i < f.keys.len() && #[trigger] f.keys[i] == k;
                    assert(o.keys[i] == k);
                }
            }
            let m = g.keys.len() as int;
            assert(p.keys[m] == last);
            assert forall|i: int, j: int| 0 <= i < j < p.keys.len() implies text::text_le(
                #[trigger] p.keys[i],
                #[trigger] p.keys[j],
            ) && p.keys[i] != p.keys[j] by {
                if j == m {
                    let q = g.keys[i];
                    assert(p.keys[i] == q);
                    assert(has_key(g, q));
                    lemma_order_facts(last, k, last);
                    if q != k {
                        assert(has_key(f, q));
                        let z = choose|z: int| 0 <= z < f.keys.len() && #[trigger] f.keys[z] == q;
                        assert(o.keys[z] == q);
                        assert(text::text_le(o.keys[z], o.keys[n]));
                    }
                } else {
                    assert(p.keys[i] == g.keys[i] && p.keys[j] == g.keys[j]);
                }
            }
            let at = choose|i: int| 0 <= i < g.keys.len() && #[trigger] g.keys[i] == k
                && g.values[i] == v;
            assert(p.keys[at] == k && p.values[at] == v);
            assert forall|q: Seq<char>, w: Doc| q != k
                && #[trigger] has_member(o, q, w) implies has_member(p, q, w) by {
                let i = choose|i: int| 0 <= i < o.keys.len() && #[trigger] o.keys[i] == q
                    && o.values[i] == w;
                if i < n {
                    assert(f.keys[i] == q && f.values[i] == w);
                    assert(has_member(f, q, w));
                    assert(has_member(g, q, w));
                    let z = choose|z: int| 0 <= z < g.keys.len() && #[trigger] g.keys[z] == q
                        && g.values[z] == w;
                    assert(p.keys[z] == q && p.values[z] == w);
                } else {
                    assert(p.keys[m] == q && p.values[m] == w);
                }
            }
            assert forall|q: Seq<char>| #[trigger] has_key(p, q) implies q == k
                || has_key(o, q) by {
                let i = choose|i: int| 0 <= i < p.keys.len() && #[trigger] p.keys[i] == q;
                if i < m {
                    assert(g.keys[i] == q);
                    assert(has_key(g, q));
                    if q != k {
                        let z = choose|z: int| 0 <= z < f.keys.len() && #[trigger] f.keys[z] == q;
                        assert(o.keys[z] == q);
                    }
                } else {
                    assert(o.keys[n] == q);
                }
            }
        }
    }
}

/// An object built from distinct keys holds exactly these members.
proof fn lemma_object_of(keys: Seq<Seq<char>>, values: Seq<Doc>)
    requires
        keys.len() >= values.len(),
        keys.no_duplicates(),
    ensures
        is_sorted_obj(object_of(keys, values)),
        object_of(keys, values).keys.len() == values.len(),
        forall|i: int| 0 <= i < values.len()
            ==> has_member(object_of(keys, values), #[trigger] keys[i], values[i]),
        forall|q: Seq<char>| #[trigger] has_key(object_of(keys, values), q) ==> exists|i: int|
            0 <= i < values.len() && #[trigger] keys[i] == q,
    decreases values.len(),
{
    if values.len() > 0 {
        let front = values.drop_last();
        let n = values.len() - 1;
        lemma_object_of(keys, front);
        let o = object_of(keys, front);
        lemma_put(o, keys[n], values[n]);
        if has_key(o, keys[n]) {
            let i = choose|i: int| 0 <= i < front.len() && #[trigger] keys[i] == keys[n];
            assert(false);
        }
        let p = object_of(keys, values);
        assert(p == json::put(o, keys[n], values[n]));
        assert forall|i: int| 0 <= i < values.len() implies has_member(p, #[trigger] keys[i],
            values[i]) by {
            if i < n {
                assert(has_member(o, keys[i], front[i]));
                assert(keys[i] != keys[n]);
            }
        }
        assert forall|q: Seq<char>| #[trigger] has_key(p, q) implies exists|i: int|
            0 <= i < values.len() && #[trigger] keys[i] == q by {
            if q == keys[n] {
                assert(keys[n] == q);
            } else {
                assert(has_key(o, q));
                let i = choose|i: int| 0 <= i < front.len() && #[trigger] keys[i] == q;
                assert(keys[i] == q);
            }
        }
    } else {
        assert forall|q: Seq<char>| !#[trigger] has_key(object_of(keys, values), q) by {}
    }
}

proof fn lemma_found(o: Obj, k: Seq<char>, v: Doc)
    requires
        is_sorted_obj(o),
        has_member(o, k, v),
    ensures
        find_name(o.keys, k) is Some,
        0 <= find_name(o.keys, k)->0 < o.keys.len(),
        o.values[find_name(o.keys, k)->0] == v,
{
    crate::value_ops::lemma_find_from(o.keys, k, 0);
    let i = choose|i: int| 0 <= i < o.keys.len() && #[trigger] o.keys[i] == k && o.values[i] == v;
    assert(o.keys[i] == k);
    let j = find_name(o.keys, k)->0;
    if i < j {
        assert(o.keys[i] != o.keys[j]);
    } else if j < i {
        assert(o.keys[j] != o.keys[i]);
    }
}

/// Where a member of the document of a record comes from.
proof fn lemma_origin(
    names: Seq<Seq<char>>,
    values: Seq<Val>,
    o: Obj,
    k: Seq<char>,
) -> (i: int)
    requires
        names.len() == values.len(),
        names.no_duplicates(),
        forall|i: int| 0 <= i < values.len() ==> round_trips(#[trigger] values[i]),
        o == object_of(names, docs_of(values)),
        find_name(o.keys, k) is Some,
    ensures
        0 <= i < names.len(),
        names[i] == k,
        o.values[find_name(o.keys, k)->0] == doc_of(values[i]),
        o.values[find_name(o.keys, k)->0] is Str ==> values[i] is Str,
        o.values[find_name(o.keys, k)->0] is Array ==> values[i] is List,
{
    let ds = docs_of(values);
    lemma_docs_of(values);
    lemma_object_of(names, ds);
    crate::value_ops::lemma_find_from(o.keys, k, 0);
    let at = find_name(o.keys, k)->0;
    assert(o.keys[at] == k);
    assert(has_key(o, k));
    let i = choose|i: int| 0 <= i < ds.len() && #[trigger] names[i] == k;
    assert(has_member(o, names[i], ds[i]));
    lemma_found(o, k, ds[i]);
    assert(round_trips(values[i]));
    i
}

proof fn lemma_lists_round_trip(v: Seq<Val>, ids: Map<Seq<Seq<char>>, u32>)
    requires
        forall|i: int| 0 <= i < v.len() ==> round_trips(#[trigger] v[i]),
    ensures
        crate::value_ops::all_eq(values_from(docs_of(v), ids), v),
    decreases v, 1int,
{
    lemma_docs_of(v);
    lemma_values_from(docs_of(v), ids);
    assert forall|i: int| 0 <= i < v.len() implies crate::value_ops::val_eq(
        #[trigger] values_from(docs_of(v), ids)[i],
        v[i],
    ) by {
        law_json_round_trip(v[i], ids);
        assert(docs_of(v)[i] == doc_of(v[i]));
    }
}

/// Law: what a document keeps of a value is read back as an equal value,
/// whatever ids its shapes have.
pub proof fn law_json_round_trip(v: Val, ids: Map<Seq<Seq<char>>, u32>)
    requires
        round_trips(v),
    ensures
        crate::value_ops::val_eq(value_from(doc_of(v), ids), v),
    decreases v, 0int,
{
    let r = value_from(doc_of(v), ids);
    crate::value_ops::lemma_val_eq(r, v);
    match v {
        Val::Bytes(b) => {
            let o = object_of(seq!["$bytes"@], seq![Doc::Str(hex(b))]);
            let none = Seq::<Doc>::empty();
            lemma_object_of_push(seq!["$bytes"@], none, Doc::Str(hex(b)));
            assert(none.push(Doc::Str(hex(b))) =~= seq![Doc::Str(hex(b))]);
            assert(o == json::put(json::empty_obj(), "$bytes"@, Doc::Str(hex(b))));
            assert(o.keys =~= seq!["$bytes"@]);
            assert(o.values =~= seq![Doc::Str(hex(b))]);
            reveal_strlit("$variant");
            reveal_strlit("$bytes");
            assert("$variant"@.len() != "$bytes"@.len());
            crate::value_ops::lemma_find_from(o.keys, "$variant"@, 0);
            text::law_hex_round_trip(b);
        },
        Val::List(items) => {
            lemma_lists_round_trip(items, ids);
        },
        Val::Variant { name, args } => {
            let ks = seq!["$variant"@, "args"@];
            let ds = seq![Doc::Str(name), Doc::Array(docs_of(args))];
            let o = object_of(ks, ds);
            reveal_strlit("$variant");
            reveal_strlit("args");
            assert("$variant"@.len() != "args"@.len());
            assert(ks.no_duplicates());
            lemma_object_of(ks, ds);
            assert(has_member(o, ks[0], ds[0]));
            assert(has_member(o, ks[1], ds[1]));
            lemma_found(o, "$variant"@, Doc::Str(name));
            lemma_found(o, "args"@, Doc::Array(docs_of(args)));
            assert(is_variant_doc(o));
            lemma_lists_round_trip(args, ids);
        },
        Val::Record { names, values, .. } => {
            let ds = docs_of(values);
            let o = object_of(names, ds);
            lemma_docs_of(values);
            lemma_object_of(names, ds);
            if is_variant_doc(o) {
                let i = lemma_origin(names, values, o, "$variant"@);
                let j = lemma_origin(names, values, o, "args"@);
                assert(names[i] == "$variant"@ && names[j] == "args"@);
                assert(looks_like_variant(names, values));
            }
            if is_bytes_doc(o) {
                crate::value_ops::lemma_find_from(o.keys, "$bytes"@, 0);
                let i = lemma_origin(names, values, o, "$bytes"@);
                assert(looks_like_bytes(names, values));
            }
            let rv = values_from(o.values, ids);
            lemma_values_from(o.values, ids);
            assert forall|i: int| 0 <= i < rv.len() implies find_name(
                names,
                #[trigger] o.keys[i],
            ) is Some by {
                crate::value_ops::lemma_find_from(names, o.keys[i], 0);
                assert(has_key(o, o.keys[i]));
            }
            assert forall|i: int, j: int|
                0 <= i < rv.len() && 0 <= j < values.len() && find_name(names, o.keys[i]) == Some(
                    j,
                ) implies crate::value_ops::val_eq(#[trigger] rv[i], #[trigger] values[j]) by {
                crate::value_ops::lemma_find_from(names, o.keys[i], 0);
                assert(names[j] == o.keys[i]);
                assert(has_member(o, names[j], ds[j]));
                let z = choose|z: int| 0 <= z < o.keys.len() && #[trigger] o.keys[z] == names[j]
                    && o.values[z] == ds[j];
                if z < i {
                    assert(o.keys[z] != o.keys[i]);
                } else if i < z {
                    assert(o.keys[i] != o.keys[z]);
                }
                assert(o.values[i] == doc_of(values[j]));
                law_json_round_trip(values[j], ids);
            }
            assert(crate::value_ops::fields_eq(o.keys, rv, names, values));
        },
        _ => {},
    }
}

} // verus!
