//! The constant pool and the record shapes that the functions of one program
//! share.

use indexmap::IndexMap;
use vstd::prelude::*;

use crate::index_maps;
use crate::index_maps::{
    get_int_id, get_list_id, get_name_id, insert_int_id, insert_list_id, insert_name_id,
    new_int_ids, new_list_ids, new_name_ids,
};
use crate::op::Const;

verus! {

/// A constant, seen as a mathematical object.
pub enum Constant {
    Int(i64),
    Float(u64),
    Bool(bool),
    Str(Seq<char>),
    Bytes(Seq<u8>),
    Unit,
    FieldName(Seq<char>),
    VariantName(Seq<char>),
    NodeId(Seq<char>),
}

impl View for Const {
    type V = Constant;

    open spec fn view(&self) -> Constant {
        match self {
            Const::Int(n) => Constant::Int(*n),
            Const::Float(b) => Constant::Float(*b),
            Const::Bool(b) => Constant::Bool(*b),
            Const::Str(s) => Constant::Str(s@),
            Const::Bytes(b) => Constant::Bytes(b@),
            Const::Unit => Constant::Unit,
            Const::FieldName(s) => Constant::FieldName(s@),
            Const::VariantName(s) => Constant::VariantName(s@),
            Const::NodeId(s) => Constant::NodeId(s@),
        }
    }
}

pub open spec fn constants(v: Seq<Const>) -> Seq<Constant> {
    Seq::new(v.len(), |i: int| v[i]@)
}

pub open spec fn lists(v: Seq<Vec<u32>>) -> Seq<Seq<u32>> {
    Seq::new(v.len(), |i: int| v[i]@)
}

/// Where an item stands for the first time.
pub open spec fn is_first<T>(v: Seq<T>, x: T, i: int) -> bool {
    &&& 0 <= i < v.len()
    &&& v[i] == x
    &&& forall|j: int| 0 <= j < i ==> v[j] != x
}

/// The place of an item in a list that holds it.
pub open spec fn place<T>(v: Seq<T>, x: T) -> int {
    choose|i: int| is_first(v, x, i)
}

/// The list with an item in it.
pub open spec fn including<T>(v: Seq<T>, x: T) -> Seq<T> {
    if v.contains(x) {
        v
    } else {
        v.push(x)
    }
}

/// The number of an item in a list that includes it.
pub open spec fn number_of<T>(v: Seq<T>, x: T) -> u32 {
    place(including(v, x), x) as u32
}

proof fn lemma_first_exists<T>(v: Seq<T>, x: T, n: int)
    requires
        0 <= n < v.len(),
        v[n] == x,
    ensures
        exists|i: int| is_first(v, x, i),
    decreases n,
{
    if forall|j: int| 0 <= j < n ==> v[j] != x {
        assert(is_first(v, x, n));
    } else {
        let j = choose|j: int| 0 <= j < n && v[j] == x;
        lemma_first_exists(v, x, j);
    }
}

/// An item has one first place.
pub proof fn lemma_place<T>(v: Seq<T>, x: T, i: int)
    requires
        is_first(v, x, i),
    ensures
        place(v, x) == i,
{
    let k = place(v, x);
    assert(is_first(v, x, k));
    if k < i {
        assert(v[k] != x);
    } else if i < k {
        assert(v[i] != x);
    }
}

/// The place of an item that the list holds.
pub proof fn lemma_place_of_member<T>(v: Seq<T>, x: T)
    requires
        v.contains(x),
    ensures
        is_first(v, x, place(v, x)),
{
    let n = choose|n: int| 0 <= n < v.len() && v[n] == x;
    lemma_first_exists(v, x, n);
}

/// A list that includes an item holds it; what it held keeps its place.
pub proof fn lemma_including<T>(v: Seq<T>, x: T, y: T)
    ensures
        including(v, x).contains(x),
        v.contains(y) ==> including(v, x).contains(y) && place(including(v, x), y) == place(v, y),
        !v.contains(x) ==> place(including(v, x), x) == v.len(),
{
    let w = including(v, x);
    if !v.contains(x) {
        assert(w[v.len() as int] == x);
        assert(is_first(w, x, v.len() as int));
        lemma_place(w, x, v.len() as int);
    }
    if v.contains(y) {
        lemma_place_of_member(v, y);
        assert(is_first(w, y, place(v, y)));
        lemma_place(w, y, place(v, y));
        assert(w[place(v, y)] == y);
    }
}

/// What the pool holds.
#[verifier::ext_equal]
pub struct PoolView {
    pub consts: Seq<Constant>,
    pub shapes: Seq<Seq<u32>>,
}

/// A map that gives the number of every listed item of one kind.
spec fn numbers<K, T>(m: Map<K, u32>, v: Seq<T>, tag: spec_fn(K) -> T) -> bool {
    forall|k: K|
        #![trigger m.contains_key(k)]
        #![trigger tag(k)]
        (m.contains_key(k) <==> v.contains(tag(k))) && (m.contains_key(k) ==> m[k] == place(
            v,
            tag(k),
        ) as u32)
}

proof fn lemma_numbers_other<K, T>(m: Map<K, u32>, v: Seq<T>, tag: spec_fn(K) -> T, x: T)
    requires
        numbers(m, v, tag),
        forall|k: K| #[trigger] tag(k) != x,
    ensures
        numbers(m, v.push(x), tag),
{
    assert forall|k: K| #![trigger m.contains_key(k)] #![trigger tag(k)]
        (m.contains_key(k) <==> v.push(x).contains(tag(k))) && (m.contains_key(k) ==> m[k] == place(
            v.push(x),
            tag(k),
        ) as u32) by {
        if v.contains(tag(k)) {
            lemma_place_of_member(v, tag(k));
            assert(is_first(v.push(x), tag(k), place(v, tag(k))));
            lemma_place(v.push(x), tag(k), place(v, tag(k)));
            assert(v.push(x)[place(v, tag(k))] == tag(k));
        }
        if v.push(x).contains(tag(k)) {
            let i = choose|i: int| 0 <= i < v.push(x).len() && v.push(x)[i] == tag(k);
            assert(i < v.len());
            assert(v[i] == tag(k));
        }
    }
}

proof fn lemma_numbers_new<K, T>(m: Map<K, u32>, v: Seq<T>, tag: spec_fn(K) -> T, key: K)
    requires
        numbers(m, v, tag),
        !m.contains_key(key),
        forall|a: K, b: K| #[trigger] tag(a) == #[trigger] tag(b) ==> a == b,
    ensures
        numbers(m.insert(key, v.len() as u32), v.push(tag(key)), tag),
        v.push(tag(key)) == including(v, tag(key)),
        number_of(v, tag(key)) == v.len() as u32,
{
    let x = tag(key);
    let w = v.push(x);
    let n = m.insert(key, v.len() as u32);
    assert(!v.contains(x));
    lemma_including(v, x, x);
    assert forall|k: K| #![trigger n.contains_key(k)] #![trigger tag(k)]
        (n.contains_key(k) <==> w.contains(tag(k))) && (n.contains_key(k) ==> n[k] == place(
            w,
            tag(k),
        ) as u32) by {
        if k != key {
            assert(tag(k) != x);
            lemma_including(v, x, tag(k));
            if w.contains(tag(k)) {
                let i = choose|i: int| 0 <= i < w.len() && w[i] == tag(k);
                assert(i < v.len());
                assert(v[i] == tag(k));
            }
        }
    }
}

spec fn field_tag() -> spec_fn(Seq<char>) -> Constant {
    |n: Seq<char>| Constant::FieldName(n)
}

spec fn variant_tag() -> spec_fn(Seq<char>) -> Constant {
    |n: Seq<char>| Constant::VariantName(n)
}

spec fn node_tag() -> spec_fn(Seq<char>) -> Constant {
    |n: Seq<char>| Constant::NodeId(n)
}

spec fn str_tag() -> spec_fn(Seq<char>) -> Constant {
    |n: Seq<char>| Constant::Str(n)
}

spec fn int_tag() -> spec_fn(i64) -> Constant {
    |n: i64| Constant::Int(n)
}

/// The pool under construction. Every name, integer, truth value and text
/// stands in it once; floats, byte strings and units are entered anew each
/// time.
pub struct ConstPool {
    pool: Vec<Const>,
    fields: IndexMap<String, u32>,
    variants: IndexMap<String, u32>,
    node_ids: IndexMap<String, u32>,
    ints: IndexMap<i64, u32>,
    no: Option<u32>,
    yes: Option<u32>,
    strs: IndexMap<String, u32>,
    record_shapes: Vec<Vec<u32>>,
    record_shape_dedup: IndexMap<Vec<u32>, u32>,
}

/// The pool with a constant in it.
pub open spec fn with_const(p: PoolView, c: Constant) -> PoolView {
    PoolView { consts: including(p.consts, c), ..p }
}

/// The number under which a constant is entered.
pub open spec fn const_number(p: PoolView, c: Constant) -> u32 {
    number_of(p.consts, c)
}

/// The pool with a constant entered anew.
pub open spec fn with_fresh_const(p: PoolView, c: Constant) -> PoolView {
    PoolView { consts: p.consts.push(c), ..p }
}

/// The pool with a record shape in it.
pub open spec fn with_shape(p: PoolView, fields: Seq<u32>) -> PoolView {
    PoolView { shapes: including(p.shapes, fields), ..p }
}

/// The number under which a record shape is entered.
pub open spec fn shape_number(p: PoolView, fields: Seq<u32>) -> u32 {
    number_of(p.shapes, fields)
}

spec fn bool_number(slot: Option<u32>, v: Seq<Constant>, b: bool) -> bool {
    &&& slot is Some <==> v.contains(Constant::Bool(b))
    &&& slot matches Some(i) ==> i == place(v, Constant::Bool(b)) as u32
}

proof fn lemma_bool_other(slot: Option<u32>, v: Seq<Constant>, b: bool, c: Constant)
    requires
        bool_number(slot, v, b),
        c != Constant::Bool(b),
    ensures
        bool_number(slot, v.push(c), b),
{
    let x = Constant::Bool(b);
    if v.contains(x) {
        lemma_place_of_member(v, x);
        assert(is_first(v.push(c), x, place(v, x)));
        lemma_place(v.push(c), x, place(v, x));
        assert(v.push(c)[place(v, x)] == x);
    }
    if v.push(c).contains(x) {
        let i = choose|i: int| 0 <= i < v.push(c).len() && v.push(c)[i] == x;
        assert(v[i] == x);
    }
}

impl View for ConstPool {
    type V = PoolView;

    closed spec fn view(&self) -> PoolView {
        PoolView { consts: constants(self.pool@), shapes: lists(self.record_shapes@) }
    }
}

impl ConstPool {
    /// The side tables number what the pool holds.
    pub closed spec fn wf(&self) -> bool {
        &&& numbers(index_maps::name_ids(self.fields), self@.consts, field_tag())
        &&& numbers(index_maps::name_ids(self.variants), self@.consts, variant_tag())
        &&& numbers(index_maps::name_ids(self.node_ids), self@.consts, node_tag())
        &&& numbers(index_maps::name_ids(self.strs), self@.consts, str_tag())
        &&& numbers(index_maps::int_ids(self.ints), self@.consts, int_tag())
        &&& bool_number(self.no, self@.consts, false)
        &&& bool_number(self.yes, self@.consts, true)
        &&& numbers(
            index_maps::list_ids(self.record_shape_dedup),
            self@.shapes,
            |k: Seq<u32>| k,
        )
    }

    /// The constants in their order.
    pub fn consts(&self) -> (v: &Vec<Const>)
        ensures
            constants(v@) == self@.consts,
    {
        &self.pool
    }

    /// The constants and the record shapes.
    pub fn finish(self) -> (parts: (Vec<Const>, Vec<Vec<u32>>))
        ensures
            constants(parts.0@) == self@.consts,
            lists(parts.1@) == self@.shapes,
    {
        (self.pool, self.record_shapes)
    }

    proof fn lemma_other(&self, c: Constant)
        requires
            self.wf(),
        ensures
            !(c is FieldName) ==> numbers(
                index_maps::name_ids(self.fields),
                self@.consts.push(c),
                field_tag(),
            ),
            !(c is VariantName) ==> numbers(
                index_maps::name_ids(self.variants),
                self@.consts.push(c),
                variant_tag(),
            ),
            !(c is NodeId) ==> numbers(
                index_maps::name_ids(self.node_ids),
                self@.consts.push(c),
                node_tag(),
            ),
            !(c is Str) ==> numbers(
                index_maps::name_ids(self.strs),
                self@.consts.push(c),
                str_tag(),
            ),
            !(c is Int) ==> numbers(
                index_maps::int_ids(self.ints),
                self@.consts.push(c),
                int_tag(),
            ),
            c != Constant::Bool(false) ==> bool_number(self.no, self@.consts.push(c), false),
            c != Constant::Bool(true) ==> bool_number(self.yes, self@.consts.push(c), true),
    {
        let v = self@.consts;
        if !(c is FieldName) {
            lemma_numbers_other(index_maps::name_ids(self.fields), v, field_tag(), c);
        }
        if !(c is VariantName) {
            lemma_numbers_other(index_maps::name_ids(self.variants), v, variant_tag(), c);
        }
        if !(c is NodeId) {
            lemma_numbers_other(index_maps::name_ids(self.node_ids), v, node_tag(), c);
        }
        if !(c is Str) {
            lemma_numbers_other(index_maps::name_ids(self.strs), v, str_tag(), c);
        }
        if !(c is Int) {
            lemma_numbers_other(index_maps::int_ids(self.ints), v, int_tag(), c);
        }
        if c != Constant::Bool(false) {
            lemma_bool_other(self.no, v, false, c);
        }
        if c != Constant::Bool(true) {
            lemma_bool_other(self.yes, v, true, c);
        }
    }

    pub fn new() -> (p: ConstPool)
        ensures
            p.wf(),
            p@ == (PoolView { consts: Seq::empty(), shapes: Seq::empty() }),
    {
        let p = ConstPool {
            pool: Vec::new(),
            fields: new_name_ids(),
            variants: new_name_ids(),
            node_ids: new_name_ids(),
            ints: new_int_ids(),
            no: None,
            yes: None,
            strs: new_name_ids(),
            record_shapes: Vec::new(),
            record_shape_dedup: new_list_ids(),
        };
        assert(p@.consts =~= Seq::empty());
        assert(p@.shapes =~= Seq::empty());
        p
    }

    /// Enters a field name.
    pub fn field(&mut self, name: &str) -> (i: u32)
        requires
            old(self).wf(),
        ensures
            final(self).wf(),
            final(self)@ == with_const(old(self)@, Constant::FieldName(name@)),
            i == const_number(old(self)@, Constant::FieldName(name@)),
    {
        let ghost c = Constant::FieldName(name@);
        let ghost p = self@;
        assert(c == field_tag()(name@));
        if let Some(i) = get_name_id(&self.fields, name) {
            return i;
        }
        let i = self.pool.len() as u32;
        proof {
            lemma_numbers_new(index_maps::name_ids(self.fields), p.consts, field_tag(), name@);
            self.lemma_other(c);
        }
        self.pool.push(Const::FieldName(name.to_owned()));
        insert_name_id(&mut self.fields, name.to_owned(), i);
        assert(constants(self.pool@) =~= p.consts.push(c));
        assert(self@ =~= with_const(p, c));
        i
    }

    /// Enters a variant tag.
    pub fn variant(&mut self, name: &str) -> (i: u32)
        requires
            old(self).wf(),
        ensures
            final(self).wf(),
            final(self)@ == with_const(old(self)@, Constant::VariantName(name@)),
            i == const_number(old(self)@, Constant::VariantName(name@)),
    {
        let ghost c = Constant::VariantName(name@);
        let ghost p = self@;
        assert(c == variant_tag()(name@));
        if let Some(i) = get_name_id(&self.variants, name) {
            return i;
        }
        let i = self.pool.len() as u32;
        proof {
            lemma_numbers_new(index_maps::name_ids(self.variants), p.consts, variant_tag(), name@);
            self.lemma_other(c);
        }
        self.pool.push(Const::VariantName(name.to_owned()));
        insert_name_id(&mut self.variants, name.to_owned(), i);
        assert(constants(self.pool@) =~= p.consts.push(c));
        assert(self@ =~= with_const(p, c));
        i
    }

    /// Enters a node id.
    pub fn node_id(&mut self, name: &str) -> (i: u32)
        requires
            old(self).wf(),
        ensures
            final(self).wf(),
            final(self)@ == with_const(old(self)@, Constant::NodeId(name@)),
            i == const_number(old(self)@, Constant::NodeId(name@)),
    {
        let ghost c = Constant::NodeId(name@);
        let ghost p = self@;
        assert(c == node_tag()(name@));
        if let Some(i) = get_name_id(&self.node_ids, name) {
            return i;
        }
        let i = self.pool.len() as u32;
        proof {
            lemma_numbers_new(index_maps::name_ids(self.node_ids), p.consts, node_tag(), name@);
            self.lemma_other(c);
        }
        self.pool.push(Const::NodeId(name.to_owned()));
        insert_name_id(&mut self.node_ids, name.to_owned(), i);
        assert(constants(self.pool@) =~= p.consts.push(c));
        assert(self@ =~= with_const(p, c));
        i
    }

    /// Enters a text.
    pub fn text(&mut self, name: &str) -> (i: u32)
        requires
            old(self).wf(),
        ensures
            final(self).wf(),
            final(self)@ == with_const(old(self)@, Constant::Str(name@)),
            i == const_number(old(self)@, Constant::Str(name@)),
    {
        let ghost c = Constant::Str(name@);
        let ghost p = self@;
        assert(c == str_tag()(name@));
        if let Some(i) = get_name_id(&self.strs, name) {
            return i;
        }
        let i = self.pool.len() as u32;
        proof {
            lemma_numbers_new(index_maps::name_ids(self.strs), p.consts, str_tag(), name@);
            self.lemma_other(c);
        }
        self.pool.push(Const::Str(name.to_owned()));
        insert_name_id(&mut self.strs, name.to_owned(), i);
        assert(constants(self.pool@) =~= p.consts.push(c));
        assert(self@ =~= with_const(p, c));
        i
    }

    /// Enters an integer.
    pub fn integer(&mut self, n: i64) -> (i: u32)
        requires
            old(self).wf(),
        ensures
            final(self).wf(),
            final(self)@ == with_const(old(self)@, Constant::Int(n)),
            i == const_number(old(self)@, Constant::Int(n)),
    {
        let ghost c = Constant::Int(n);
        let ghost p = self@;
        assert(c == int_tag()(n));
        if let Some(i) = get_int_id(&self.ints, n) {
            return i;
        }
        let i = self.pool.len() as u32;
        proof {
            lemma_numbers_new(index_maps::int_ids(self.ints), p.consts, int_tag(), n);
            self.lemma_other(c);
        }
        self.pool.push(Const::Int(n));
        insert_int_id(&mut self.ints, n, i);
        assert(constants(self.pool@) =~= p.consts.push(c));
        assert(self@ =~= with_const(p, c));
        i
    }

    /// Enters a truth value.
    pub fn truth(&mut self, b: bool) -> (i: u32)
        requires
            old(self).wf(),
        ensures
            final(self).wf(),
            final(self)@ == with_const(old(self)@, Constant::Bool(b)),
            i == const_number(old(self)@, Constant::Bool(b)),
    {
        let ghost c = Constant::Bool(b);
        let ghost p = self@;
        let known = if b {
            self.yes
        } else {
            self.no
        };
        if let Some(i) = known {
            return i;
        }
        let i = self.pool.len() as u32;
        proof {
            lemma_including(p.consts, c, c);
            self.lemma_other(c);
        }
        self.pool.push(Const::Bool(b));
        if b {
            self.yes = Some(i);
        } else {
            self.no = Some(i);
        }
        assert(constants(self.pool@) =~= p.consts.push(c));
        assert(self@ =~= with_const(p, c));
        i
    }

    fn fresh(&mut self, constant: Const) -> (i: u32)
        requires
            old(self).wf(),
            constant@ is Float || constant@ is Unit || constant@ is Bytes,
        ensures
            final(self).wf(),
            final(self)@ == with_fresh_const(old(self)@, constant@),
            i == old(self)@.consts.len() as u32,
    {
        let ghost p = self@;
        let i = self.pool.len() as u32;
        proof {
            self.lemma_other(constant@);
        }
        let ghost c = constant@;
        self.pool.push(constant);
        assert(constants(self.pool@) =~= p.consts.push(c));
        i
    }

    /// Enters a float, by its bit pattern.
    pub fn float(&mut self, bits: u64) -> (i: u32)
        requires
            old(self).wf(),
        ensures
            final(self).wf(),
            final(self)@ == with_fresh_const(old(self)@, Constant::Float(bits)),
            i == old(self)@.consts.len() as u32,
    {
        self.fresh(Const::Float(bits))
    }

    /// Enters the unit value.
    pub fn unit(&mut self) -> (i: u32)
        requires
            old(self).wf(),
        ensures
            final(self).wf(),
            final(self)@ == with_fresh_const(old(self)@, Constant::Unit),
            i == old(self)@.consts.len() as u32,
    {
        self.fresh(Const::Unit)
    }

    /// Enters the empty byte string, which stands for every byte literal.
    pub fn bytes(&mut self) -> (i: u32)
        requires
            old(self).wf(),
        ensures
            final(self).wf(),
            final(self)@ == with_fresh_const(old(self)@, Constant::Bytes(Seq::empty())),
            i == old(self)@.consts.len() as u32,
    {
        let empty: Vec<u8> = Vec::new();
        assert(empty@ =~= Seq::<u8>::empty());
        self.fresh(Const::Bytes(empty))
    }

    /// Enters a record shape.
    pub fn record_shape(&mut self, idxs: Vec<u32>) -> (i: u32)
        requires
            old(self).wf(),
        ensures
            final(self).wf(),
            final(self)@ == with_shape(old(self)@, idxs@),
            i == shape_number(old(self)@, idxs@),
    {
        let ghost p = self@;
        let ghost key = idxs@;
        let ghost tag = |k: Seq<u32>| k;
        assert(tag(key) == key);
        if let Some(i) = get_list_id(&self.record_shape_dedup, &idxs) {
            return i;
        }
        let i = self.record_shapes.len() as u32;
        proof {
            lemma_numbers_new(index_maps::list_ids(self.record_shape_dedup), p.shapes, tag, key);
        }
        insert_list_id(&mut self.record_shape_dedup, idxs.clone(), i);
        self.record_shapes.push(idxs);
        assert(lists(self.record_shapes@) =~= p.shapes.push(key));
        assert(self@ =~= with_shape(p, key));
        i
    }
}

/// Law: a constant stands in the pool under the number it was given, and what
/// is entered later does not move it.
pub proof fn law_numbers_are_stable(p: PoolView, c: Constant, d: Constant)
    requires
        p.consts.len() < u32::MAX,
    ensures
        with_const(p, c).consts[const_number(p, c) as int] == c,
        p.consts.contains(d) ==> const_number(with_const(p, c), d) == const_number(p, d),
        const_number(with_const(p, c), c) == const_number(p, c),
{
    lemma_including(p.consts, c, c);
    lemma_including(p.consts, c, d);
    lemma_place_of_member(including(p.consts, c), c);
    if p.consts.contains(d) {
        lemma_place_of_member(p.consts, d);
    }
}

} // verus!
