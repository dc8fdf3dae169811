//! Runtime values.

use vstd::prelude::*;

use crate::program::BodyHash;

verus! {

/// A runtime value.
///
/// A float is held as its IEEE 754 bit pattern. Actors and tickers are held as
/// handles: two handles are the same if and only if they name the same cell.
#[derive(Debug)]
pub enum Value {
    Int(i64),
    Float(u64),
    Bool(bool),
    Str(String),
    Bytes(Vec<u8>),
    Unit,
    List(Vec<Value>),
    Tuple(Vec<Value>),
    /// The fields in insertion order; no name occurs twice. `shape_id` names
    /// the set of field names, or is [`NO_SHAPE_ID`].
    Record { shape_id: u32, fields: Vec<Field> },
    /// A record whose fields live in the stack slab of the frame.
    StackRecord { shape_id: u32, slab_start: u32, field_count: u16 },
    /// A tuple whose elements live in the stack slab of the frame.
    StackTuple { slab_start: u32, arity: u16 },
    /// A record whose fields live in the request arena.
    ArenaRecord { shape_id: u32, slab_start: u32, field_count: u16 },
    /// A tuple whose elements live in the request arena.
    ArenaTuple { slab_start: u32, arity: u16 },
    Variant { name: String, args: Vec<Value> },
    /// A first-class function. Its identity is the hash of its body and the
    /// values it captured.
    Closure { fn_id: u32, body_hash: BodyHash, captures: Vec<Value> },
    /// A dense matrix, row by row.
    F64Array { rows: u32, cols: u32, data: Vec<u64> },
    /// Entries in ascending order of their keys; no key occurs twice.
    Dict(Vec<MapEntry>),
    /// Keys in ascending order; none occurs twice.
    KeySet(Vec<MapKey>),
    Deque(Vec<Value>),
    Actor(u64),
    Ticker(u64),
    ArrowTable(TableSummary),
}

#[derive(Debug)]
pub struct Field {
    pub name: String,
    pub value: Value,
}

#[derive(Debug)]
pub struct MapEntry {
    pub key: MapKey,
    pub value: Value,
}

/// An actor: a state and what is done with a message.
#[derive(Debug)]
pub struct ActorCell {
    pub state: Value,
    pub handler: ActorHandler,
}

#[derive(Debug)]
pub enum ActorHandler {
    /// A closure of a state and a message that gives a new state and a reply.
    Lex(Value),
    /// A bridge to the host, which gets the message.
    Native(NativeActorHandler),
}

/// The name that the host gave a native bridge.
#[derive(Debug, Clone, Copy, PartialEq, Eq, Structural)]
pub struct NativeActorHandler {
    pub id: u64,
}

/// A key of a map or a set.
#[derive(Debug, Clone, PartialEq, Eq, PartialOrd, Ord, Hash)]
pub enum MapKey {
    Str(String),
    Int(i64),
}

/// What is known of a columnar table. Tables with the same `content` hold the
/// same schema and the same cells.
#[derive(Debug)]
pub struct TableSummary {
    pub content: u64,
    pub num_rows: i64,
    pub num_columns: i64,
    pub schema: Vec<TableColumn>,
}

#[derive(Debug)]
pub struct TableColumn {
    pub name: String,
    pub data_type: String,
}

/// The shape id of a record that has none.
pub const NO_SHAPE_ID: u32 = 0xffff_ffff;

/// A value, seen as a mathematical object.
pub enum Val {
    Int(i64),
    Float(u64),
    Bool(bool),
    Str(Seq<char>),
    Bytes(Seq<u8>),
    Unit,
    List(Seq<Val>),
    Tuple(Seq<Val>),
    Record { shape_id: u32, names: Seq<Seq<char>>, values: Seq<Val> },
    StackRecord { shape_id: u32, slab_start: u32, field_count: u16 },
    StackTuple { slab_start: u32, arity: u16 },
    ArenaRecord { shape_id: u32, slab_start: u32, field_count: u16 },
    ArenaTuple { slab_start: u32, arity: u16 },
    Variant { name: Seq<char>, args: Seq<Val> },
    Closure { fn_id: u32, body_hash: Seq<u8>, captures: Seq<Val> },
    F64Array { rows: u32, cols: u32, data: Seq<u64> },
    Dict { keys: Seq<Key>, values: Seq<Val> },
    KeySet(Seq<Key>),
    Deque(Seq<Val>),
    Actor(u64),
    Ticker(u64),
    ArrowTable(Table),
}

/// A key, seen as a mathematical object.
pub enum Key {
    Str(Seq<char>),
    Int(i64),
}

/// A table summary, seen as a mathematical object.
pub struct Table {
    pub content: u64,
    pub num_rows: i64,
    pub num_columns: i64,
    pub names: Seq<Seq<char>>,
    pub data_types: Seq<Seq<char>>,
}

impl View for MapKey {
    type V = Key;

    open spec fn view(&self) -> Key {
        match self {
            MapKey::Str(s) => Key::Str(s@),
            MapKey::Int(n) => Key::Int(*n),
        }
    }
}

impl View for TableSummary {
    type V = Table;

    open spec fn view(&self) -> Table {
        Table {
            content: self.content,
            num_rows: self.num_rows,
            num_columns: self.num_columns,
            names: Seq::new(self.schema@.len(), |i: int| self.schema@[i].name@),
            data_types: Seq::new(self.schema@.len(), |i: int| self.schema@[i].data_type@),
        }
    }
}

impl View for Value {
    type V = Val;

    open spec fn view(&self) -> Val
        decreases self,
    {
        match self {
            Value::Int(n) => Val::Int(*n),
            Value::Float(f) => Val::Float(*f),
            Value::Bool(b) => Val::Bool(*b),
            Value::Str(s) => Val::Str(s@),
            Value::Bytes(b) => Val::Bytes(b@),
            Value::Unit => Val::Unit,
            Value::List(items) => Val::List(
                Seq::new(
                    items@.len(),
                    |i: int|
                        if 0 <= i < items@.len() {
                            items@[i].view()
                        } else {
                            Val::Unit
                        },
                ),
            ),
            Value::Tuple(items) => Val::Tuple(
                Seq::new(
                    items@.len(),
                    |i: int|
                        if 0 <= i < items@.len() {
                            items@[i].view()
                        } else {
                            Val::Unit
                        },
                ),
            ),
            Value::Record { shape_id, fields } => Val::Record {
                shape_id: *shape_id,
                names: Seq::new(fields@.len(), |i: int| fields@[i].name@),
                values: Seq::new(
                    fields@.len(),
                    |i: int|
                        if 0 <= i < fields@.len() {
                            fields@[i].value.view()
                        } else {
                            Val::Unit
                        },
                ),
            },
            Value::StackRecord { shape_id, slab_start, field_count } => Val::StackRecord {
                shape_id: *shape_id,
                slab_start: *slab_start,
                field_count: *field_count,
            },
            Value::StackTuple { slab_start, arity } => Val::StackTuple {
                slab_start: *slab_start,
                arity: *arity,
            },
            Value::ArenaRecord { shape_id, slab_start, field_count } => Val::ArenaRecord {
                shape_id: *shape_id,
                slab_start: *slab_start,
                field_count: *field_count,
            },
            Value::ArenaTuple { slab_start, arity } => Val::ArenaTuple {
                slab_start: *slab_start,
                arity: *arity,
            },
            Value::Variant { name, args } => Val::Variant {
                name: name@,
                args: Seq::new(
                    args@.len(),
                    |i: int|
                        if 0 <= i < args@.len() {
                            args@[i].view()
                        } else {
                            Val::Unit
                        },
                ),
            },
            Value::Closure { fn_id, body_hash, captures } => Val::Closure {
                fn_id: *fn_id,
                body_hash: body_hash@,
                captures: Seq::new(
                    captures@.len(),
                    |i: int|
                        if 0 <= i < captures@.len() {
                            captures@[i].view()
                        } else {
                            Val::Unit
                        },
                ),
            },
            Value::F64Array { rows, cols, data } => Val::F64Array {
                rows: *rows,
                cols: *cols,
                data: data@,
            },
            Value::Dict(entries) => Val::Dict {
                keys: Seq::new(entries@.len(), |i: int| entries@[i].key@),
                values: Seq::new(
                    entries@.len(),
                    |i: int|
                        if 0 <= i < entries@.len() {
                            entries@[i].value.view()
                        } else {
                            Val::Unit
                        },
                ),
            },
            Value::KeySet(keys) => Val::KeySet(Seq::new(keys@.len(), |i: int| keys@[i]@)),
            Value::Deque(items) => Val::Deque(
                Seq::new(
                    items@.len(),
                    |i: int|
                        if 0 <= i < items@.len() {
                            items@[i].view()
                        } else {
                            Val::Unit
                        },
                ),
            ),
            Value::Actor(h) => Val::Actor(*h),
            Value::Ticker(h) => Val::Ticker(*h),
            Value::ArrowTable(t) => Val::ArrowTable(t@),
        }
    }
}

/// The values of a list.
pub open spec fn vals(v: Seq<Value>) -> Seq<Val> {
    Seq::new(v.len(), |i: int| v[i]@)
}

/// The values of the fields.
pub open spec fn field_vals(v: Seq<Field>) -> Seq<Val> {
    Seq::new(v.len(), |i: int| v[i].value@)
}

/// The names of the fields.
pub open spec fn field_names(v: Seq<Field>) -> Seq<Seq<char>> {
    Seq::new(v.len(), |i: int| v[i].name@)
}

pub open spec fn entry_vals(v: Seq<MapEntry>) -> Seq<Val> {
    Seq::new(v.len(), |i: int| v[i].value@)
}

pub open spec fn entry_keys(v: Seq<MapEntry>) -> Seq<Key> {
    Seq::new(v.len(), |i: int| v[i].key@)
}

pub open spec fn keys(v: Seq<MapKey>) -> Seq<Key> {
    Seq::new(v.len(), |i: int| v[i]@)
}

/// The view of a value, one level deep.
pub open spec fn view_of(v: Value) -> Val {
    match v {
        Value::Int(n) => Val::Int(n),
        Value::Float(f) => Val::Float(f),
        Value::Bool(b) => Val::Bool(b),
        Value::Str(s) => Val::Str(s@),
        Value::Bytes(b) => Val::Bytes(b@),
        Value::Unit => Val::Unit,
        Value::List(items) => Val::List(vals(items@)),
        Value::Tuple(items) => Val::Tuple(vals(items@)),
        Value::Record { shape_id, fields } => Val::Record {
            shape_id,
            names: field_names(fields@),
            values: field_vals(fields@),
        },
        Value::StackRecord { shape_id, slab_start, field_count } => Val::StackRecord {
            shape_id,
            slab_start,
            field_count,
        },
        Value::StackTuple { slab_start, arity } => Val::StackTuple { slab_start, arity },
        Value::ArenaRecord { shape_id, slab_start, field_count } => Val::ArenaRecord {
            shape_id,
            slab_start,
            field_count,
        },
        Value::ArenaTuple { slab_start, arity } => Val::ArenaTuple { slab_start, arity },
        Value::Variant { name, args } => Val::Variant { name: name@, args: vals(args@) },
        Value::Closure { fn_id, body_hash, captures } => Val::Closure {
            fn_id,
            body_hash: body_hash@,
            captures: vals(captures@),
        },
        Value::F64Array { rows, cols, data } => Val::F64Array { rows, cols, data: data@ },
        Value::Dict(entries) => Val::Dict {
            keys: entry_keys(entries@),
            values: entry_vals(entries@),
        },
        Value::KeySet(v) => Val::KeySet(keys(v@)),
        Value::Deque(items) => Val::Deque(vals(items@)),
        Value::Actor(h) => Val::Actor(h),
        Value::Ticker(h) => Val::Ticker(h),
        Value::ArrowTable(t) => Val::ArrowTable(t@),
    }
}

pub broadcast proof fn lemma_view(v: Value)
    ensures
        #[trigger] v@ == view_of(v),
{
    reveal_with_fuel(<Value as View>::view, 2);
    match v {
        Value::List(items) => {
            assert(v@->List_0 =~= vals(items@));
        },
        Value::Tuple(items) => {
            assert(v@->Tuple_0 =~= vals(items@));
        },
        Value::Deque(items) => {
            assert(v@->Deque_0 =~= vals(items@));
        },
        Value::Record { shape_id, fields } => {
            assert(v@->names =~= field_names(fields@));
            assert(v@->Record_values =~= field_vals(fields@));
        },
        Value::Variant { name, args } => {
            assert(v@->args =~= vals(args@));
        },
        Value::Closure { fn_id, body_hash, captures } => {
            assert(v@->captures =~= vals(captures@));
        },
        Value::Dict(entries) => {
            assert(v@->keys =~= entry_keys(entries@));
            assert(v@->Dict_values =~= entry_vals(entries@));
        },
        Value::KeySet(ks) => {
            assert(v@->KeySet_0 =~= keys(ks@));
        },
        _ => {},
    }
}

} // verus!
