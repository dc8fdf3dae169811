//! Operations on runtime values.

use vstd::prelude::*;

use crate::float_bits;
use crate::text::same_text;
use crate::value;
use crate::value::{Field, MapEntry, MapKey, TableColumn, TableSummary, Value};
use crate::value::{entry_keys, entry_vals, field_names, field_vals, keys, vals, Key, Val};
use crate::vm::shown::shown;

verus! {

broadcast use crate::value::lemma_view;

impl MapKey {
    pub fn duplicate(&self) -> (k: MapKey)
        ensures
            k@ == self@,
    {
        match self {
            MapKey::Str(s) => MapKey::Str(s.clone()),
            MapKey::Int(n) => MapKey::Int(*n),
        }
    }

    fn same(&self, other: &MapKey) -> (eq: bool)
        ensures
            eq <==> self@ == other@,
    {
        match (self, other) {
            (MapKey::Str(a), MapKey::Str(b)) => same_text(a.as_str(), b.as_str()),
            (MapKey::Int(a), MapKey::Int(b)) => *a == *b,
            _ => false,
        }
    }
}

impl TableSummary {
    pub fn duplicate(&self) -> (t: TableSummary)
        ensures
            t@ == self@,
    {
        let mut schema: Vec<TableColumn> = Vec::new();
        let mut i: usize = 0;
        while i < self.schema.len()
            invariant
                i <= self.schema.len(),
                schema@.len() == i,
                forall|j: int|
                    0 <= j < i ==> (#[trigger] schema@[j]).name@ == self.schema@[j].name@
                        && schema@[j].data_type@ == self.schema@[j].data_type@,
            decreases self.schema.len() - i,
        {
            schema.push(
                TableColumn {
                    name: self.schema[i].name.clone(),
                    data_type: self.schema[i].data_type.clone(),
                },
            );
            i = i + 1;
        }
        let t = TableSummary {
            content: self.content,
            num_rows: self.num_rows,
            num_columns: self.num_columns,
            schema,
        };
        assert(t@.names =~= self@.names);
        assert(t@.data_types =~= self@.data_types);
        t
    }
}

impl TableSummary {
    fn same(&self, other: &TableSummary) -> (eq: bool)
        ensures
            eq <==> self@ == other@,
    {
        if self.content != other.content || self.num_rows != other.num_rows || self.num_columns
            != other.num_columns || self.schema.len() != other.schema.len() {
            assert(self.schema.len() != other.schema.len() ==> self@.names.len()
                != other@.names.len());
            return false;
        }
        let mut i: usize = 0;
        while i < self.schema.len()
            invariant
                i <= self.schema.len(),
                self.schema.len() == other.schema.len(),
                forall|j: int|
                    0 <= j < i ==> (#[trigger] self.schema@[j]).name@ == other.schema@[j].name@
                        && self.schema@[j].data_type@ == other.schema@[j].data_type@,
            decreases self.schema.len() - i,
        {
            if !same_text(self.schema[i].name.as_str(), other.schema[i].name.as_str()) {
                assert(self@.names[i as int] != other@.names[i as int]);
                return false;
            }
            if !same_text(self.schema[i].data_type.as_str(), other.schema[i].data_type.as_str()) {
                assert(self@.data_types[i as int] != other@.data_types[i as int]);
                return false;
            }
            i = i + 1;
        }
        assert(self@.names =~= other@.names);
        assert(self@.data_types =~= other@.data_types);
        true
    }
}

/// Copies a list of values.
pub fn duplicate_all(v: &Vec<Value>) -> (out: Vec<Value>)
    ensures
        vals(out@) == vals(v@),
    decreases v,
{
    let mut out: Vec<Value> = Vec::new();
    let mut i: usize = 0;
    while i < v.len()
        invariant
            i <= v.len(),
            out@.len() == i,
            forall|j: int| 0 <= j < i ==> (#[trigger] out@[j])@ == v@[j]@,
        decreases v.len() - i,
    {
        out.push(v[i].duplicate());
        i = i + 1;
    }
    assert(vals(out@) =~= vals(v@));
    out
}

fn duplicate_fields(v: &Vec<Field>) -> (out: Vec<Field>)
    ensures
        field_names(out@) == field_names(v@),
        field_vals(out@) == field_vals(v@),
    decreases v,
{
    let mut out: Vec<Field> = Vec::new();
    let mut i: usize = 0;
    while i < v.len()
        invariant
            i <= v.len(),
            out@.len() == i,
            forall|j: int|
                0 <= j < i ==> (#[trigger] out@[j]).value@ == v@[j].value@ && out@[j].name@
                    == v@[j].name@,
        decreases v.len() - i,
    {
        out.push(Field { name: v[i].name.clone(), value: v[i].value.duplicate() });
        i = i + 1;
    }
    assert(field_vals(out@) =~= field_vals(v@));
    assert(field_names(out@) =~= field_names(v@));
    out
}

fn duplicate_entries(v: &Vec<MapEntry>) -> (out: Vec<MapEntry>)
    ensures
        entry_keys(out@) == entry_keys(v@),
        entry_vals(out@) == entry_vals(v@),
    decreases v,
{
    let mut out: Vec<MapEntry> = Vec::new();
    let mut i: usize = 0;
    while i < v.len()
        invariant
            i <= v.len(),
            out@.len() == i,
            forall|j: int|
                0 <= j < i ==> (#[trigger] out@[j]).value@ == v@[j].value@ && out@[j].key@
                    == v@[j].key@,
        decreases v.len() - i,
    {
        out.push(MapEntry { key: v[i].key.duplicate(), value: v[i].value.duplicate() });
        i = i + 1;
    }
    assert(entry_vals(out@) =~= entry_vals(v@));
    assert(entry_keys(out@) =~= entry_keys(v@));
    out
}

fn duplicate_keys(v: &Vec<MapKey>) -> (out: Vec<MapKey>)
    ensures
        keys(out@) == keys(v@),
{
    let mut out: Vec<MapKey> = Vec::new();
    let mut i: usize = 0;
    while i < v.len()
        invariant
            i <= v.len(),
            out@.len() == i,
            forall|j: int| 0 <= j < i ==> (#[trigger] out@[j])@ == v@[j]@,
        decreases v.len() - i,
    {
        out.push(v[i].duplicate());
        i = i + 1;
    }
    assert(keys(out@) =~= keys(v@));
    out
}

fn duplicate_words(v: &Vec<u64>) -> (out: Vec<u64>)
    ensures
        out@ == v@,
{
    let out = v.clone();
    assert(out@ =~= v@);
    out
}

fn duplicate_bytes(v: &Vec<u8>) -> (out: Vec<u8>)
    ensures
        out@ == v@,
{
    let out = v.clone();
    assert(out@ =~= v@);
    out
}

impl Value {
    /// A copy of the value.
    pub fn duplicate(&self) -> (v: Value)
        ensures
            v@ == self@,
        decreases self,
    {
        match self {
            Value::Int(n) => Value::Int(*n),
            Value::Float(f) => Value::Float(*f),
            Value::Bool(b) => Value::Bool(*b),
            Value::Str(s) => Value::Str(s.clone()),
            Value::Bytes(b) => Value::Bytes(duplicate_bytes(b)),
            Value::Unit => Value::Unit,
            Value::List(items) => Value::List(duplicate_all(items)),
            Value::Tuple(items) => Value::Tuple(duplicate_all(items)),
            Value::Record { shape_id, fields } => Value::Record {
                shape_id: *shape_id,
                fields: duplicate_fields(fields),
            },
            Value::StackRecord { shape_id, slab_start, field_count } => Value::StackRecord {
                shape_id: *shape_id,
                slab_start: *slab_start,
                field_count: *field_count,
            },
            Value::StackTuple { slab_start, arity } => Value::StackTuple {
                slab_start: *slab_start,
                arity: *arity,
            },
            Value::ArenaRecord { shape_id, slab_start, field_count } => Value::ArenaRecord {
                shape_id: *shape_id,
                slab_start: *slab_start,
                field_count: *field_count,
            },
            Value::ArenaTuple { slab_start, arity } => Value::ArenaTuple {
                slab_start: *slab_start,
                arity: *arity,
            },
            Value::Variant { name, args } => Value::Variant {
                name: name.clone(),
                args: duplicate_all(args),
            },
            Value::Closure { fn_id, body_hash, captures } => Value::Closure {
                fn_id: *fn_id,
                body_hash: *body_hash,
                captures: duplicate_all(captures),
            },
            Value::F64Array { rows, cols, data } => Value::F64Array {
                rows: *rows,
                cols: *cols,
                data: duplicate_words(data),
            },
            Value::Dict(entries) => Value::Dict(duplicate_entries(entries)),
            Value::KeySet(keys) => Value::KeySet(duplicate_keys(keys)),
            Value::Deque(items) => Value::Deque(duplicate_all(items)),
            Value::Actor(h) => Value::Actor(*h),
            Value::Ticker(h) => Value::Ticker(*h),
            Value::ArrowTable(t) => Value::ArrowTable(t.duplicate()),
        }
    }
}


// ---------------------------------------------------------------------------
// Equality
// ---------------------------------------------------------------------------

/// The first position of a name, from `k` on.
pub open spec fn find_from(names: Seq<Seq<char>>, name: Seq<char>, k: int) -> Option<int>
    decreases names.len() - k,
{
    if k >= names.len() {
        None
    } else if names[k] == name {
        Some(k)
    } else {
        find_from(names, name, k + 1)
    }
}

/// The first position of a name.
pub open spec fn find_name(names: Seq<Seq<char>>, name: Seq<char>) -> Option<int> {
    find_from(names, name, 0)
}

/// A name is found where it first occurs, if it occurs.
pub proof fn lemma_find_from(names: Seq<Seq<char>>, name: Seq<char>, k: int)
    requires
        0 <= k,
    ensures
        match find_from(names, name, k) {
            Some(i) => k <= i < names.len() && names[i] == name && forall|j: int|
                k <= j < i ==> #[trigger] names[j] != name,
            None => forall|j: int| k <= j < names.len() ==> #[trigger] names[j] != name,
        },
    decreases names.len() - k,
{
    if k < names.len() && names[k] != name {
        lemma_find_from(names, name, k + 1);
    }
}

/// A value that holds no handle into a slab or an arena.
pub open spec fn is_owned(v: Val) -> bool
    decreases v,
{
    match v {
        Val::StackRecord { .. }
        | Val::StackTuple { .. }
        | Val::ArenaRecord { .. }
        | Val::ArenaTuple { .. } => false,
        Val::List(items) => forall|i: int|
            0 <= i < items.len() ==> is_owned(#[trigger] items[i]),
        Val::Tuple(items) => forall|i: int|
            0 <= i < items.len() ==> is_owned(#[trigger] items[i]),
        Val::Deque(items) => forall|i: int|
            0 <= i < items.len() ==> is_owned(#[trigger] items[i]),
        Val::Record { values, .. } => forall|i: int|
            0 <= i < values.len() ==> is_owned(#[trigger] values[i]),
        Val::Variant { args, .. } => forall|i: int|
            0 <= i < args.len() ==> is_owned(#[trigger] args[i]),
        Val::Closure { captures, .. } => forall|i: int|
            0 <= i < captures.len() ==> is_owned(#[trigger] captures[i]),
        Val::Dict { values, .. } => forall|i: int|
            0 <= i < values.len() ==> is_owned(#[trigger] values[i]),
        _ => true,
    }
}

pub open spec fn all_owned(v: Seq<Val>) -> bool {
    forall|i: int| 0 <= i < v.len() ==> is_owned(#[trigger] v[i])
}

/// [`is_owned`], one level deep.
pub proof fn lemma_is_owned(v: Val)
    ensures
        is_owned(v) == (match v {
            Val::StackRecord { .. } => false,
            Val::StackTuple { .. } => false,
            Val::ArenaRecord { .. } => false,
            Val::ArenaTuple { .. } => false,
            Val::List(items) => all_owned(items),
            Val::Tuple(items) => all_owned(items),
            Val::Deque(items) => all_owned(items),
            Val::Record { values, .. } => all_owned(values),
            Val::Variant { args, .. } => all_owned(args),
            Val::Closure { captures, .. } => all_owned(captures),
            Val::Dict { values, .. } => all_owned(values),
            _ => true,
        }),
{
    reveal_with_fuel(is_owned, 2);
}

/// Equality of owned values. Floats compare as numbers; records by their
/// fields in any order and without their shape ids; closures by the hash of
/// their body and their captures, not by their function id; actors, tickers
/// and tables by identity.
pub open spec fn val_eq(a: Val, b: Val) -> bool
    decreases a,
{
    match (a, b) {
        (Val::Int(x), Val::Int(y)) => x == y,
        (Val::Float(x), Val::Float(y)) => float_bits::float_eq(x, y),
        (Val::Bool(x), Val::Bool(y)) => x == y,
        (Val::Str(x), Val::Str(y)) => x == y,
        (Val::Bytes(x), Val::Bytes(y)) => x == y,
        (Val::Unit, Val::Unit) => true,
        (Val::List(x), Val::List(y)) => x.len() == y.len() && forall|i: int|
            0 <= i < x.len() ==> val_eq(#[trigger] x[i], y[i]),
        (Val::Tuple(x), Val::Tuple(y)) => x.len() == y.len() && forall|i: int|
            0 <= i < x.len() ==> val_eq(#[trigger] x[i], y[i]),
        (Val::Deque(x), Val::Deque(y)) => x.len() == y.len() && forall|i: int|
            0 <= i < x.len() ==> val_eq(#[trigger] x[i], y[i]),
        (
            Val::Record { names: xn, values: xv, .. },
            Val::Record { names: yn, values: yv, .. },
        ) => xv.len() == yv.len() && (forall|i: int|
            0 <= i < xv.len() ==> find_name(yn, #[trigger] xn[i]) is Some)
                && (forall|i: int, j: int|
            0 <= i < xv.len() && 0 <= j < yv.len() && find_name(yn, xn[i]) == Some(j) ==> val_eq(
                #[trigger] xv[i],
                #[trigger] yv[j],
            )),
        (Val::Variant { name: xn, args: x }, Val::Variant { name: yn, args: y }) => xn == yn
            && x.len() == y.len() && forall|i: int|
            0 <= i < x.len() ==> val_eq(#[trigger] x[i], y[i]),
        (
            Val::Closure { body_hash: xh, captures: x, .. },
            Val::Closure { body_hash: yh, captures: y, .. },
        ) => xh == yh && x.len() == y.len() && forall|i: int|
            0 <= i < x.len() ==> val_eq(#[trigger] x[i], y[i]),
        (
            Val::F64Array { rows: xr, cols: xc, data: x },
            Val::F64Array { rows: yr, cols: yc, data: y },
        ) => xr == yr && xc == yc && x.len() == y.len() && forall|i: int|
            0 <= i < x.len() ==> float_bits::float_eq(#[trigger] x[i], y[i]),
        (Val::Dict { keys: xk, values: x }, Val::Dict { keys: yk, values: y }) => xk == yk
            && x.len() == y.len() && forall|i: int|
            0 <= i < x.len() ==> val_eq(#[trigger] x[i], y[i]),
        (Val::KeySet(x), Val::KeySet(y)) => x == y,
        (Val::Actor(x), Val::Actor(y)) => x == y,
        (Val::Ticker(x), Val::Ticker(y)) => x == y,
        (Val::ArrowTable(x), Val::ArrowTable(y)) => x == y,
        _ => false,
    }
}

/// Lists of equal values.
pub open spec fn all_eq(x: Seq<Val>, y: Seq<Val>) -> bool {
    x.len() == y.len() && forall|i: int| 0 <= i < x.len() ==> val_eq(#[trigger] x[i], y[i])
}

/// Fields that are equal in any order.
pub open spec fn fields_eq(
    xn: Seq<Seq<char>>,
    xv: Seq<Val>,
    yn: Seq<Seq<char>>,
    yv: Seq<Val>,
) -> bool {
    &&& xv.len() == yv.len()
    &&& forall|i: int| 0 <= i < xv.len() ==> find_name(yn, #[trigger] xn[i]) is Some
    &&& forall|i: int, j: int|
        0 <= i < xv.len() && 0 <= j < yv.len() && find_name(yn, xn[i]) == Some(j) ==> val_eq(
            #[trigger] xv[i],
            #[trigger] yv[j],
        )
}

/// Lists of equal numbers.
pub open spec fn floats_eq(x: Seq<u64>, y: Seq<u64>) -> bool {
    x.len() == y.len() && forall|i: int|
        0 <= i < x.len() ==> float_bits::float_eq(#[trigger] x[i], y[i])
}

/// [`val_eq`], one level deep.
pub open spec fn eq_of(a: Val, b: Val) -> bool {
    match (a, b) {
        (Val::Int(x), Val::Int(y)) => x == y,
        (Val::Float(x), Val::Float(y)) => float_bits::float_eq(x, y),
        (Val::Bool(x), Val::Bool(y)) => x == y,
        (Val::Str(x), Val::Str(y)) => x == y,
        (Val::Bytes(x), Val::Bytes(y)) => x == y,
        (Val::Unit, Val::Unit) => true,
        (Val::List(x), Val::List(y)) => all_eq(x, y),
        (Val::Tuple(x), Val::Tuple(y)) => all_eq(x, y),
        (Val::Deque(x), Val::Deque(y)) => all_eq(x, y),
        (
            Val::Record { names: xn, values: xv, .. },
            Val::Record { names: yn, values: yv, .. },
        ) => fields_eq(xn, xv, yn, yv),
        (Val::Variant { name: xn, args: x }, Val::Variant { name: yn, args: y }) => xn == yn
            && all_eq(x, y),
        (
            Val::Closure { body_hash: xh, captures: x, .. },
            Val::Closure { body_hash: yh, captures: y, .. },
        ) => xh == yh && all_eq(x, y),
        (
            Val::F64Array { rows: xr, cols: xc, data: x },
            Val::F64Array { rows: yr, cols: yc, data: y },
        ) => xr == yr && xc == yc && floats_eq(x, y),
        (Val::Dict { keys: xk, values: x }, Val::Dict { keys: yk, values: y }) => xk == yk
            && all_eq(x, y),
        (Val::KeySet(x), Val::KeySet(y)) => x == y,
        (Val::Actor(x), Val::Actor(y)) => x == y,
        (Val::Ticker(x), Val::Ticker(y)) => x == y,
        (Val::ArrowTable(x), Val::ArrowTable(y)) => x == y,
        _ => false,
    }
}

pub proof fn lemma_val_eq(a: Val, b: Val)
    ensures
        val_eq(a, b) == eq_of(a, b),
{
    match (a, b) {
        (Val::List(x), Val::List(y)) => {
            assert(val_eq(a, b) == all_eq(x, y));
        },
        (Val::Tuple(x), Val::Tuple(y)) => {
            assert(val_eq(a, b) == all_eq(x, y));
        },
        (Val::Deque(x), Val::Deque(y)) => {
            assert(val_eq(a, b) == all_eq(x, y));
        },
        (
            Val::Record { names: xn, values: xv, .. },
            Val::Record { names: yn, values: yv, .. },
        ) => {
            assert(val_eq(a, b) == fields_eq(xn, xv, yn, yv));
        },
        (Val::Variant { name: xn, args: x }, Val::Variant { name: yn, args: y }) => {
            assert(val_eq(a, b) == (xn == yn && all_eq(x, y)));
        },
        (
            Val::Closure { body_hash: xh, captures: x, .. },
            Val::Closure { body_hash: yh, captures: y, .. },
        ) => {
            assert(val_eq(a, b) == (xh == yh && all_eq(x, y)));
        },
        (Val::Dict { keys: xk, values: x }, Val::Dict { keys: yk, values: y }) => {
            assert(val_eq(a, b) == (xk == yk && all_eq(x, y)));
        },
        _ => {},
    }
}

/// Position of a name among fields.
pub fn find_field(fields: &Vec<Field>, name: &str) -> (at: Option<usize>)
    ensures
        at matches Some(i) ==> find_name(field_names(fields@), name@) == Some(i as int) && i
            < fields@.len(),
        at is None ==> find_name(field_names(fields@), name@) is None,
{
    proof {
        lemma_find_from(field_names(fields@), name@, 0);
    }
    let mut i: usize = 0;
    while i < fields.len()
        invariant
            i <= fields.len(),
            find_name(field_names(fields@), name@) == find_from(
                field_names(fields@),
                name@,
                i as int,
            ),
        decreases fields.len() - i,
    {
        if same_text(fields[i].name.as_str(), name) {
            assert(field_names(fields@)[i as int] == name@);
            return Some(i);
        }
        assert(field_names(fields@)[i as int] == fields@[i as int].name@);
        i = i + 1;
    }
    None
}

pub fn same_bytes(a: &Vec<u8>, b: &Vec<u8>) -> (eq: bool)
    ensures
        eq <==> a@ == b@,
{
    if a.len() != b.len() {
        return false;
    }
    let mut i: usize = 0;
    while i < a.len()
        invariant
            i <= a.len(),
            a.len() == b.len(),
            forall|j: int| 0 <= j < i ==> a@[j] == b@[j],
        decreases a.len() - i,
    {
        if a[i] != b[i] {
            return false;
        }
        i = i + 1;
    }
    assert(a@ =~= b@);
    true
}

/// Whether two body hashes are the same.
pub fn same_hash(a: &[u8; 16], b: &[u8; 16]) -> (eq: bool)
    ensures
        eq <==> a@ == b@,
{
    let mut i: usize = 0;
    while i < 16
        invariant
            i <= 16,
            forall|j: int| 0 <= j < i ==> a@[j] == b@[j],
        decreases 16 - i,
    {
        if a[i] != b[i] {
            return false;
        }
        i = i + 1;
    }
    assert(a@ =~= b@);
    true
}

fn same_floats(a: &Vec<u64>, b: &Vec<u64>) -> (eq: bool)
    ensures
        eq <==> floats_eq(a@, b@),
{
    if a.len() != b.len() {
        return false;
    }
    let mut i: usize = 0;
    while i < a.len()
        invariant
            i <= a.len(),
            a.len() == b.len(),
            forall|j: int| 0 <= j < i ==> float_bits::float_eq(#[trigger] a@[j], b@[j]),
        decreases a.len() - i,
    {
        if !float_bits::eq(a[i], b[i]) {
            assert(!float_bits::float_eq(a@[i as int], b@[i as int]));
            return false;
        }
        i = i + 1;
    }
    true
}

fn same_keys(a: &Vec<MapKey>, b: &Vec<MapKey>) -> (eq: bool)
    ensures
        eq <==> keys(a@) == keys(b@),
{
    if a.len() != b.len() {
        assert(keys(a@).len() != keys(b@).len());
        return false;
    }
    let mut i: usize = 0;
    while i < a.len()
        invariant
            i <= a.len(),
            a.len() == b.len(),
            forall|j: int| 0 <= j < i ==> (#[trigger] a@[j])@ == b@[j]@,
        decreases a.len() - i,
    {
        if !a[i].same(&b[i]) {
            assert(keys(a@)[i as int] != keys(b@)[i as int]);
            return false;
        }
        i = i + 1;
    }
    assert(keys(a@) =~= keys(b@));
    true
}

fn same_all(a: &Vec<Value>, b: &Vec<Value>) -> (eq: bool)
    ensures
        eq <==> all_eq(vals(a@), vals(b@)),
    decreases a,
{
    if a.len() != b.len() {
        return false;
    }
    let mut i: usize = 0;
    while i < a.len()
        invariant
            i <= a.len(),
            a.len() == b.len(),
            forall|j: int| 0 <= j < i ==> val_eq(#[trigger] vals(a@)[j], vals(b@)[j]),
        decreases a.len() - i,
    {
        if !a[i].same(&b[i]) {
            assert(!val_eq(vals(a@)[i as int], vals(b@)[i as int]));
            return false;
        }
        i = i + 1;
    }
    true
}

fn same_fields(a: &Vec<Field>, b: &Vec<Field>) -> (eq: bool)
    ensures
        eq <==> fields_eq(field_names(a@), field_vals(a@), field_names(b@), field_vals(b@)),
    decreases a,
{
    if a.len() != b.len() {
        return false;
    }
    let mut i: usize = 0;
    while i < a.len()
        invariant
            i <= a.len(),
            a.len() == b.len(),
            forall|k: int|
                0 <= k < i ==> find_name(field_names(b@), #[trigger] field_names(a@)[k]) is Some,
            forall|k: int, j: int|
                0 <= k < i && 0 <= j < b@.len() && find_name(field_names(b@), field_names(a@)[k])
                    == Some(j) ==> val_eq(
                    #[trigger] field_vals(a@)[k],
                    #[trigger] field_vals(b@)[j],
                ),
        decreases a.len() - i,
    {
        let found = find_field(b, a[i].name.as_str());
        assert(field_names(a@)[i as int] == a@[i as int].name@);
        assert(field_vals(a@)[i as int] == a@[i as int].value@);
        match found {
            Some(j) => {
                assert(field_vals(b@)[j as int] == b@[j as int].value@);
                if !a[i].value.same(&b[j].value) {
                    assert(!val_eq(field_vals(a@)[i as int], field_vals(b@)[j as int]));
                    return false;
                }
            },
            None => {
                return false;
            },
        }
        i = i + 1;
    }
    true
}

fn same_entries(a: &Vec<MapEntry>, b: &Vec<MapEntry>) -> (eq: bool)
    ensures
        eq <==> entry_keys(a@) == entry_keys(b@) && all_eq(entry_vals(a@), entry_vals(b@)),
    decreases a,
{
    if a.len() != b.len() {
        assert(entry_keys(a@).len() != entry_keys(b@).len());
        return false;
    }
    let mut i: usize = 0;
    while i < a.len()
        invariant
            i <= a.len(),
            a.len() == b.len(),
            forall|j: int| 0 <= j < i ==> (#[trigger] a@[j]).key@ == b@[j].key@,
            forall|j: int| 0 <= j < i ==> val_eq(#[trigger] entry_vals(a@)[j], entry_vals(b@)[j]),
        decreases a.len() - i,
    {
        if !a[i].key.same(&b[i].key) {
            assert(entry_keys(a@)[i as int] != entry_keys(b@)[i as int]);
            return false;
        }
        if !a[i].value.same(&b[i].value) {
            assert(!val_eq(entry_vals(a@)[i as int], entry_vals(b@)[i as int]));
            return false;
        }
        i = i + 1;
    }
    assert(entry_keys(a@) =~= entry_keys(b@));
    true
}

fn all_owned_values(v: &Vec<Value>) -> (yes: bool)
    ensures
        yes <==> all_owned(vals(v@)),
    decreases v,
{
    let mut i: usize = 0;
    while i < v.len()
        invariant
            i <= v.len(),
            forall|j: int| 0 <= j < i ==> is_owned(#[trigger] vals(v@)[j]),
        decreases v.len() - i,
    {
        if !v[i].owned() {
            assert(!is_owned(vals(v@)[i as int]));
            return false;
        }
        i = i + 1;
    }
    true
}

fn all_owned_fields(v: &Vec<Field>) -> (yes: bool)
    ensures
        yes <==> all_owned(field_vals(v@)),
    decreases v,
{
    let mut i: usize = 0;
    while i < v.len()
        invariant
            i <= v.len(),
            forall|j: int| 0 <= j < i ==> is_owned(#[trigger] field_vals(v@)[j]),
        decreases v.len() - i,
    {
        if !v[i].value.owned() {
            assert(!is_owned(field_vals(v@)[i as int]));
            return false;
        }
        i = i + 1;
    }
    true
}

fn all_owned_entries(v: &Vec<MapEntry>) -> (yes: bool)
    ensures
        yes <==> all_owned(entry_vals(v@)),
    decreases v,
{
    let mut i: usize = 0;
    while i < v.len()
        invariant
            i <= v.len(),
            forall|j: int| 0 <= j < i ==> is_owned(#[trigger] entry_vals(v@)[j]),
        decreases v.len() - i,
    {
        if !v[i].value.owned() {
            assert(!is_owned(entry_vals(v@)[i as int]));
            return false;
        }
        i = i + 1;
    }
    true
}

impl Value {
    /// Whether the value holds no handle into a slab or an arena.
    pub fn owned(&self) -> (yes: bool)
        ensures
            yes == is_owned(self@),
        decreases self,
    {
        let yes = match self {
            Value::StackRecord { .. } => false,
            Value::StackTuple { .. } => false,
            Value::ArenaRecord { .. } => false,
            Value::ArenaTuple { .. } => false,
            Value::List(items) => all_owned_values(items),
            Value::Tuple(items) => all_owned_values(items),
            Value::Deque(items) => all_owned_values(items),
            Value::Record { fields, .. } => all_owned_fields(fields),
            Value::Variant { args, .. } => all_owned_values(args),
            Value::Closure { captures, .. } => all_owned_values(captures),
            Value::Dict(entries) => all_owned_entries(entries),
            _ => true,
        };
        proof {
            lemma_is_owned(self@);
            assert(self@ == value::view_of(*self));
        }
        yes
    }

    /// Equality of values. A handle equals nothing; no well-typed program
    /// compares one.
    pub fn same(&self, other: &Value) -> (eq: bool)
        ensures
            eq == val_eq(self@, other@),
        decreases self,
    {
        let eq = match (self, other) {
            (Value::Int(a), Value::Int(b)) => *a == *b,
            (Value::Float(a), Value::Float(b)) => float_bits::eq(*a, *b),
            (Value::Bool(a), Value::Bool(b)) => *a == *b,
            (Value::Str(a), Value::Str(b)) => same_text(a.as_str(), b.as_str()),
            (Value::Bytes(a), Value::Bytes(b)) => same_bytes(a, b),
            (Value::Unit, Value::Unit) => true,
            (Value::List(a), Value::List(b)) => same_all(a, b),
            (Value::Tuple(a), Value::Tuple(b)) => same_all(a, b),
            (Value::Deque(a), Value::Deque(b)) => same_all(a, b),
            (Value::Record { fields: a, .. }, Value::Record { fields: b, .. }) => same_fields(a, b),
            (Value::Variant { name: an, args: a }, Value::Variant { name: bn, args: b }) =>
                same_text(an.as_str(), bn.as_str()) && same_all(a, b),
            (
                Value::Closure { body_hash: ah, captures: a, .. },
                Value::Closure { body_hash: bh, captures: b, .. },
            ) => same_hash(ah, bh) && same_all(a, b),
            (
                Value::F64Array { rows: ar, cols: ac, data: a },
                Value::F64Array { rows: br, cols: bc, data: b },
            ) => *ar == *br && *ac == *bc && same_floats(a, b),
            (Value::Dict(a), Value::Dict(b)) => same_entries(a, b),
            (Value::KeySet(a), Value::KeySet(b)) => same_keys(a, b),
            (Value::Actor(a), Value::Actor(b)) => *a == *b,
            (Value::Ticker(a), Value::Ticker(b)) => *a == *b,
            (Value::ArrowTable(a), Value::ArrowTable(b)) => a.same(b),
            _ => false,
        };
        proof {
            lemma_val_eq(self@, other@);
            assert(self@ == value::view_of(*self));
            assert(other@ == value::view_of(*other));
        }
        eq
    }
}

impl PartialEq for Value {
    fn eq(&self, other: &Self) -> (r: bool) {
        self.same(other)
    }
}

impl vstd::std_specs::cmp::PartialEqSpecImpl for Value {
    open spec fn obeys_eq_spec() -> bool {
        true
    }

    open spec fn eq_spec(&self, other: &Self) -> bool {
        val_eq(self@, other@)
    }
}

/// The key that a value makes.
pub open spec fn key_of(v: Val) -> Option<Key> {
    match v {
        Val::Str(s) => Some(Key::Str(s)),
        Val::Int(n) => Some(Key::Int(n)),
        _ => None,
    }
}

/// The value that a key was made of.
pub open spec fn key_value(k: Key) -> Val {
    match k {
        Key::Str(s) => Val::Str(s),
        Key::Int(n) => Val::Int(n),
    }
}

impl MapKey {
    /// The key that a text or an integer makes.
    pub fn from_value(v: &Value) -> (k: Result<MapKey, String>)
        ensures
            match k {
                Ok(k) => key_of(v@) == Some(k@),
                Err(t) => key_of(v@) is None && t@ == "map/set key must be Str or Int, got "@
                    + shown(v@),
            },
    {
        proof {
            assert(v@ == value::view_of(*v));
        }
        match v {
            Value::Str(s) => Ok(MapKey::Str(s.clone())),
            Value::Int(n) => Ok(MapKey::Int(*n)),
            _ => {
                let mut t = "map/set key must be Str or Int, got ".to_owned();
                t.append(v.show().as_str());
                Err(t)
            },
        }
    }

    /// The value of a key, which is used up.
    pub fn into_value(self) -> (v: Value)
        ensures
            v@ == key_value(self@),
    {
        match self {
            MapKey::Str(s) => Value::Str(s),
            MapKey::Int(n) => Value::Int(n),
        }
    }

    /// The value of a key.
    pub fn as_value(&self) -> (v: Value)
        ensures
            v@ == key_value(self@),
    {
        match self {
            MapKey::Str(s) => Value::Str(s.clone()),
            MapKey::Int(n) => Value::Int(*n),
        }
    }
}

/// Law: a value that makes a key is given back by the key, and a key is made
/// again by its value.
pub proof fn law_keys_round_trip(v: Val, k: Key)
    ensures
        key_of(v) matches Some(m) ==> key_value(m) == v,
        key_of(key_value(k)) == Some(k),
{
}

impl Value {
    pub fn as_int(&self) -> (n: i64)
        requires
            self@ is Int,
        ensures
            self@ == Val::Int(n),
    {
        proof {
            assert(self@ == value::view_of(*self));
        }
        match self {
            Value::Int(n) => *n,
            _ => 0,
        }
    }

    /// The bit pattern of a float.
    pub fn as_float(&self) -> (bits: u64)
        requires
            self@ is Float,
        ensures
            self@ == Val::Float(bits),
    {
        proof {
            assert(self@ == value::view_of(*self));
        }
        match self {
            Value::Float(bits) => *bits,
            _ => 0,
        }
    }

    pub fn as_bool(&self) -> (b: bool)
        requires
            self@ is Bool,
        ensures
            self@ == Val::Bool(b),
    {
        proof {
            assert(self@ == value::view_of(*self));
        }
        match self {
            Value::Bool(b) => *b,
            _ => false,
        }
    }

    pub fn as_str(&self) -> (s: &str)
        requires
            self@ is Str,
        ensures
            self@ == Val::Str(s@),
    {
        proof {
            assert(self@ == value::view_of(*self));
        }
        match self {
            Value::Str(s) => s.as_str(),
            _ => "",
        }
    }
}

} // verus!
