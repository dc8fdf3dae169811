//! JSON documents, as plain values.

use vstd::prelude::*;

use crate::text;
use crate::text::{not_after, same_text, text_le};

verus! {

/// A JSON document. A number is an integer, or a float held as its bit
/// pattern.
#[derive(Debug, PartialEq)]
pub enum Json {
    Null,
    Bool(bool),
    Int(i64),
    Float(u64),
    Str(String),
    Array(Vec<Json>),
    /// The members in ascending order of their keys; no key occurs twice.
    Object(Vec<Member>),
}

#[derive(Debug, PartialEq)]
pub struct Member {
    pub key: String,
    pub value: Json,
}

/// A JSON document, seen as a mathematical object.
pub enum Doc {
    Null,
    Bool(bool),
    Int(i64),
    Float(u64),
    Str(Seq<char>),
    Array(Seq<Doc>),
    Object(Obj),
}

/// The members of an object.
pub struct Obj {
    pub keys: Seq<Seq<char>>,
    pub values: Seq<Doc>,
}

impl View for Json {
    type V = Doc;

    open spec fn view(&self) -> Doc
        decreases self,
    {
        match self {
            Json::Null => Doc::Null,
            Json::Bool(b) => Doc::Bool(*b),
            Json::Int(n) => Doc::Int(*n),
            Json::Float(f) => Doc::Float(*f),
            Json::Str(s) => Doc::Str(s@),
            Json::Array(items) => Doc::Array(
                Seq::new(
                    items@.len(),
                    |i: int|
                        if 0 <= i < items@.len() {
                            items@[i].view()
                        } else {
                            Doc::Null
                        },
                ),
            ),
            Json::Object(members) => Doc::Object(
                Obj {
                    keys: Seq::new(members@.len(), |i: int| members@[i].key@),
                    values: Seq::new(
                        members@.len(),
                        |i: int|
                            if 0 <= i < members@.len() {
                                members@[i].value.view()
                            } else {
                                Doc::Null
                            },
                    ),
                },
            ),
        }
    }
}

pub open spec fn docs(v: Seq<Json>) -> Seq<Doc> {
    Seq::new(v.len(), |i: int| v[i]@)
}

pub open spec fn member_keys(v: Seq<Member>) -> Seq<Seq<char>> {
    Seq::new(v.len(), |i: int| v[i].key@)
}

pub open spec fn member_docs(v: Seq<Member>) -> Seq<Doc> {
    Seq::new(v.len(), |i: int| v[i].value@)
}

pub open spec fn obj_view(v: Seq<Member>) -> Obj {
    Obj { keys: member_keys(v), values: member_docs(v) }
}

/// The view of a document, one level deep.
pub open spec fn view_of(j: Json) -> Doc {
    match j {
        Json::Null => Doc::Null,
        Json::Bool(b) => Doc::Bool(b),
        Json::Int(n) => Doc::Int(n),
        Json::Float(f) => Doc::Float(f),
        Json::Str(s) => Doc::Str(s@),
        Json::Array(items) => Doc::Array(docs(items@)),
        Json::Object(members) => Doc::Object(obj_view(members@)),
    }
}

pub broadcast proof fn lemma_view(j: Json)
    ensures
        #[trigger] j@ == view_of(j),
{
    reveal_with_fuel(<Json as View>::view, 2);
    match j {
        Json::Array(items) => {
            assert(j@->Array_0 =~= docs(items@));
        },
        Json::Object(members) => {
            assert(j@->Object_0.keys =~= member_keys(members@));
            assert(j@->Object_0.values =~= member_docs(members@));
        },
        _ => {},
    }
}

/// An object without members.
pub open spec fn empty_obj() -> Obj {
    Obj { keys: Seq::empty(), values: Seq::empty() }
}

/// The object without its last member.
pub open spec fn front(o: Obj) -> Obj {
    Obj { keys: o.keys.drop_last(), values: o.values.drop_last() }
}

/// The object with a member set: the value of an equal key is replaced, a new
/// key goes to its place in the order.
pub open spec fn put(o: Obj, k: Seq<char>, v: Doc) -> Obj
    decreases o.keys.len(),
{
    if o.keys.len() == 0 {
        Obj { keys: seq![k], values: seq![v] }
    } else if o.keys.last() == k {
        Obj { keys: o.keys, values: o.values.drop_last().push(v) }
    } else if text_le(o.keys.last(), k) {
        Obj { keys: o.keys.push(k), values: o.values.push(v) }
    } else {
        let f = put(front(o), k, v);
        Obj { keys: f.keys.push(o.keys.last()), values: f.values.push(o.values.last()) }
    }
}

/// The object with these members, set one after the other.
pub open spec fn object_of(keys: Seq<Seq<char>>, values: Seq<Doc>) -> Obj
    decreases values.len(),
{
    if values.len() == 0 {
        empty_obj()
    } else {
        put(
            object_of(keys, values.drop_last()),
            keys[values.len() - 1],
            values.last(),
        )
    }
}

/// Sets a member.
pub fn put_member(members: &mut Vec<Member>, key: String, value: Json)
    ensures
        obj_view(final(members)@) == put(obj_view(old(members)@), key@, value@),
{
    let ghost o = obj_view(members@);
    let ghost m0 = members@;
    let mut at: usize = members.len();
    assert(members@.take(at as int) =~= members@);
    while at > 0 && !not_after(members[at - 1].key.as_str(), key.as_str())
        invariant
            at <= members.len(),
            members@ == m0,
            o == obj_view(m0),
            forall|i: int| at <= i < m0.len() ==> !text_le((#[trigger] m0[i]).key@, key@),
        decreases at,
    {
        at = at - 1;
    }
    let ghost vv = value@;
    let ghost kk = key@;
    if at > 0 && same_text(members[at - 1].key.as_str(), key.as_str()) {
        proof {
            lemma_put_replaces(m0, at as int, kk, vv);
        }
        let _old = members.remove(at - 1);
        members.insert(at - 1, Member { key, value });
        proof {
            let res = obj_view(members@);
            assert(res.keys =~= o.keys);
            assert(res.values =~= o.values.update(at - 1, vv));
        }
    } else {
        proof {
            lemma_put_inserts(m0, at as int, kk, vv);
        }
        members.insert(at, Member { key, value });
        proof {
            let res = obj_view(members@);
            assert(res.keys =~= o.keys.insert(at as int, kk));
            assert(res.values =~= o.values.insert(at as int, vv));
        }
    }
}

proof fn lemma_text_not_le_ne(a: Seq<char>, b: Seq<char>)
    requires
        !text_le(a, b),
    ensures
        a != b,
{
    text::lemma_text_order();
    let r = text::text_order();
    assert(r(a, a));
}

proof fn lemma_put_replaces(m: Seq<Member>, at: int, k: Seq<char>, v: Doc)
    requires
        0 < at <= m.len(),
        m[at - 1].key@ == k,
        forall|i: int| at <= i < m.len() ==> !text_le((#[trigger] m[i]).key@, k),
    ensures
        put(obj_view(m), k, v) == (Obj {
            keys: obj_view(m).keys,
            values: obj_view(m).values.update(at - 1, v),
        }),
    decreases m.len(),
{
    let o = obj_view(m);
    let goal = Obj { keys: o.keys, values: o.values.update(at - 1, v) };
    assert(o.keys.last() == m[m.len() - 1].key@);
    if at == m.len() {
        assert(put(o, k, v).values =~= goal.values);
    } else {
        lemma_text_not_le_ne(m[m.len() - 1].key@, k);
        let f = m.drop_last();
        assert forall|i: int| at <= i < f.len() implies !text_le((#[trigger] f[i]).key@, k) by {
            assert(f[i] == m[i]);
        }
        lemma_put_replaces(f, at, k, v);
        assert(front(o).keys =~= obj_view(f).keys);
        assert(front(o).values =~= obj_view(f).values);
        assert(front(o) == obj_view(f));
        assert(put(o, k, v).keys =~= goal.keys);
        assert(put(o, k, v).values =~= goal.values);
    }
}

proof fn lemma_put_inserts(m: Seq<Member>, at: int, k: Seq<char>, v: Doc)
    requires
        0 <= at <= m.len(),
        at > 0 ==> m[at - 1].key@ != k && text_le(m[at - 1].key@, k),
        forall|i: int| at <= i < m.len() ==> !text_le((#[trigger] m[i]).key@, k),
    ensures
        put(obj_view(m), k, v) == (Obj {
            keys: obj_view(m).keys.insert(at, k),
            values: obj_view(m).values.insert(at, v),
        }),
    decreases m.len(),
{
    let o = obj_view(m);
    let goal = Obj { keys: o.keys.insert(at, k), values: o.values.insert(at, v) };
    if m.len() == 0 {
        assert(put(o, k, v).keys =~= goal.keys);
        assert(put(o, k, v).values =~= goal.values);
    } else {
        assert(o.keys.last() == m[m.len() - 1].key@);
        if at == m.len() {
            assert(put(o, k, v).keys =~= goal.keys);
            assert(put(o, k, v).values =~= goal.values);
        } else {
            lemma_text_not_le_ne(m[m.len() - 1].key@, k);
            let f = m.drop_last();
            assert forall|i: int| at <= i < f.len() implies !text_le((#[trigger] f[i]).key@, k) by {
                assert(f[i] == m[i]);
            }
            lemma_put_inserts(f, at, k, v);
            assert(front(o).keys =~= obj_view(f).keys);
            assert(front(o).values =~= obj_view(f).values);
            assert(front(o) == obj_view(f));
            assert(put(o, k, v).keys =~= goal.keys);
            assert(put(o, k, v).values =~= goal.values);
        }
    }
}

} // verus!
