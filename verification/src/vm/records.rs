//! Constants, record construction and field access.

use vstd::prelude::*;

use crate::op::Const;
use crate::program::Program;
use crate::text::same_text;
use crate::value;
use crate::value::{field_names, field_vals, vals, Field, Val, Value};
use crate::value_ops::{find_field, find_name};
use crate::vm::fault::{mismatch, mismatch_fault, mismatch_with, panic_with, Fault, VmError};
use crate::vm::shown::{show_const, shown_const};
use crate::vm::state::record_shape;

verus! {

broadcast use crate::value::lemma_view;

/// The value of a constant. Names are texts.
pub open spec fn const_val(c: Const) -> Val {
    match c {
        Const::Int(n) => Val::Int(n),
        Const::Float(f) => Val::Float(f),
        Const::Bool(b) => Val::Bool(b),
        Const::Str(s) => Val::Str(s@),
        Const::Bytes(b) => Val::Bytes(b@),
        Const::Unit => Val::Unit,
        Const::FieldName(s) => Val::Str(s@),
        Const::VariantName(s) => Val::Str(s@),
        Const::NodeId(s) => Val::Str(s@),
    }
}

pub(crate) fn const_to_value(c: &Const) -> (v: Value)
    ensures
        v@ == const_val(*c),
{
    match c {
        Const::Int(n) => Value::Int(*n),
        Const::Float(f) => Value::Float(*f),
        Const::Bool(b) => Value::Bool(*b),
        Const::Str(s) => Value::Str(s.clone()),
        Const::Bytes(b) => Value::Bytes(b.clone()),
        Const::Unit => Value::Unit,
        Const::FieldName(s) => Value::Str(s.clone()),
        Const::VariantName(s) => Value::Str(s.clone()),
        Const::NodeId(s) => Value::Str(s.clone()),
    }
}

/// The constant at an index.
pub open spec fn const_at(p: Program, i: u32) -> Option<Const> {
    if i < p.constants@.len() {
        Some(p.constants@[i as int])
    } else {
        None
    }
}

/// An index that no constant has.
pub open spec fn no_const() -> Fault {
    Fault::Panic("constant index out of range"@)
}

/// An index that no record shape has.
pub open spec fn no_shape() -> Fault {
    Fault::Panic("record shape index out of range"@)
}

/// A slot that a slab does not have.
pub open spec fn no_slot() -> Fault {
    Fault::Panic("slab index out of range"@)
}

/// The text of a node id or string constant; empty for any other.
pub open spec fn const_text(p: Program, i: u32) -> Seq<char> {
    match const_at(p, i) {
        Some(Const::NodeId(s)) => s@,
        Some(Const::Str(s)) => s@,
        _ => Seq::empty(),
    }
}

pub(crate) fn const_str(program: &Program, i: u32) -> (s: String)
    ensures
        s@ == const_text(*program, i),
{
    if (i as usize) < program.constants.len() {
        match &program.constants[i as usize] {
            Const::NodeId(s) => return s.clone(),
            Const::Str(s) => return s.clone(),
            _ => {},
        }
    }
    let s = String::new();
    assert(s@ =~= Seq::<char>::empty());
    s
}

/// The text of a string constant.
pub open spec fn str_const(p: Program, i: u32, missing: Seq<char>) -> Result<Seq<char>, Fault> {
    match const_at(p, i) {
        None => Err(no_const()),
        Some(Const::Str(s)) => Ok(s@),
        _ => Err(Fault::TypeMismatch(missing)),
    }
}

pub(crate) fn get_str_const<'a>(program: &'a Program, i: u32, missing: &str) -> (r: Result<
    &'a String,
    VmError,
>)
    ensures
        match r {
            Ok(s) => str_const(*program, i, missing@) == Ok::<Seq<char>, Fault>(s@),
            Err(e) => str_const(*program, i, missing@) == Err::<Seq<char>, Fault>(e@),
        },
{
    if (i as usize) >= program.constants.len() {
        return Err(panic_with("constant index out of range"));
    }
    match &program.constants[i as usize] {
        Const::Str(s) => Ok(s),
        _ => Err(mismatch(missing)),
    }
}

/// The name of a field-name constant.
pub open spec fn field_name(p: Program, i: u32) -> Result<Seq<char>, Fault> {
    match const_at(p, i) {
        None => Err(no_const()),
        Some(Const::FieldName(s)) => Ok(s@),
        _ => Err(Fault::TypeMismatch("expected FieldName const"@)),
    }
}

pub(crate) fn get_field_name<'a>(program: &'a Program, i: u32) -> (r: Result<&'a String, VmError>)
    ensures
        match r {
            Ok(s) => field_name(*program, i) == Ok::<Seq<char>, Fault>(s@),
            Err(e) => field_name(*program, i) == Err::<Seq<char>, Fault>(e@),
        },
{
    if (i as usize) >= program.constants.len() {
        return Err(panic_with("constant index out of range"));
    }
    match &program.constants[i as usize] {
        Const::FieldName(s) => Ok(s),
        _ => Err(mismatch("expected FieldName const")),
    }
}

/// The name of a variant-name constant.
pub open spec fn variant_name(p: Program, i: u32) -> Result<Seq<char>, Fault> {
    match const_at(p, i) {
        None => Err(no_const()),
        Some(Const::VariantName(s)) => Ok(s@),
        _ => Err(Fault::TypeMismatch("expected VariantName const"@)),
    }
}

pub(crate) fn get_variant_name<'a>(program: &'a Program, i: u32) -> (r: Result<&'a String, VmError>)
    ensures
        match r {
            Ok(s) => variant_name(*program, i) == Ok::<Seq<char>, Fault>(s@),
            Err(e) => variant_name(*program, i) == Err::<Seq<char>, Fault>(e@),
        },
{
    if (i as usize) >= program.constants.len() {
        return Err(panic_with("constant index out of range"));
    }
    match &program.constants[i as usize] {
        Const::VariantName(s) => Ok(s),
        _ => Err(mismatch("expected VariantName const")),
    }
}

/// An integer constant.
pub open spec fn int_const(p: Program, i: u32, missing: Seq<char>) -> Result<i64, Fault> {
    match const_at(p, i) {
        None => Err(no_const()),
        Some(Const::Int(n)) => Ok(n),
        _ => Err(Fault::TypeMismatch(missing)),
    }
}

pub(crate) fn get_int_const(program: &Program, i: u32, missing: &str) -> (r: Result<i64, VmError>)
    ensures
        match r {
            Ok(n) => int_const(*program, i, missing@) == Ok::<i64, Fault>(n),
            Err(e) => int_const(*program, i, missing@) == Err::<i64, Fault>(e@),
        },
{
    if (i as usize) >= program.constants.len() {
        return Err(panic_with("constant index out of range"));
    }
    match &program.constants[i as usize] {
        Const::Int(n) => Ok(*n),
        _ => Err(mismatch(missing)),
    }
}

/// An integer constant that an op adds.
pub open spec fn addend_const(p: Program, i: u32, missing: Seq<char>) -> Result<i64, Fault> {
    match const_at(p, i) {
        None => Err(no_const()),
        Some(Const::Int(n)) => Ok(n),
        Some(c) => Err(Fault::TypeMismatch(missing + shown_const(c))),
    }
}

pub(crate) fn get_addend_const(program: &Program, i: u32, missing: &str) -> (r: Result<
    i64,
    VmError,
>)
    ensures
        match r {
            Ok(n) => addend_const(*program, i, missing@) == Ok::<i64, Fault>(n),
            Err(e) => addend_const(*program, i, missing@) == Err::<i64, Fault>(e@),
        },
{
    if (i as usize) >= program.constants.len() {
        return Err(panic_with("constant index out of range"));
    }
    match &program.constants[i as usize] {
        Const::Int(n) => Ok(*n),
        c => Err(VmError::TypeMismatch(missing.to_owned().concat(show_const(c).as_str()))),
    }
}

/// The fields with one more: a name that is there already gets a new value.
pub open spec fn put_field(
    names: Seq<Seq<char>>,
    values: Seq<Val>,
    name: Seq<char>,
    v: Val,
) -> (Seq<Seq<char>>, Seq<Val>) {
    match find_name(names, name) {
        Some(i) => (names, values.update(i, v)),
        None => (names.push(name), values.push(v)),
    }
}

/// The fields that names and values make up, added one by one.
pub open spec fn fields_of(names: Seq<Seq<char>>, values: Seq<Val>) -> (Seq<Seq<char>>, Seq<Val>)
    decreases values.len(),
{
    if values.len() == 0 {
        (Seq::empty(), Seq::empty())
    } else {
        let front = fields_of(names, values.drop_last());
        put_field(front.0, front.1, names[values.len() - 1], values.last())
    }
}

/// The names of the first `k` fields of a shape.
pub open spec fn shape_names(p: Program, shape: Seq<u32>, k: nat) -> Result<Seq<Seq<char>>, Fault>
    decreases k,
{
    if k == 0 {
        Ok(Seq::empty())
    } else {
        match shape_names(p, shape, (k - 1) as nat) {
            Err(f) => Err(f),
            Ok(names) => if k > shape.len() {
                Err(no_shape())
            } else {
                match field_name(p, shape[k - 1]) {
                    Ok(name) => Ok(names.push(name)),
                    Err(f) => Err(f),
                }
            },
        }
    }
}

/// The field names of a record shape.
pub open spec fn shape_at(p: Program, i: u32) -> Option<Seq<u32>> {
    if i < p.record_shapes@.len() {
        Some(p.record_shapes@[i as int]@)
    } else {
        None
    }
}

/// The record that a shape and values make up.
pub open spec fn heap_record(p: Program, shape_idx: u32, values: Seq<Val>) -> Result<Val, Fault> {
    match shape_at(p, shape_idx) {
        None => Err(no_shape()),
        Some(shape) => match shape_names(p, shape, values.len()) {
            Err(f) => Err(f),
            Ok(names) => {
                let fields = fields_of(names, values);
                Ok(Val::Record { shape_id: shape_idx, names: fields.0, values: fields.1 })
            },
        },
    }
}

proof fn lemma_shape_names_len(p: Program, shape: Seq<u32>, k: nat)
    ensures
        shape_names(p, shape, k) matches Ok(names) ==> names.len() == k,
    decreases k,
{
    if k > 0 {
        lemma_shape_names_len(p, shape, (k - 1) as nat);
    }
}

/// A shape whose names hold up to `k` holds up to every smaller count, and the
/// first failure stays the failure.
proof fn lemma_shape_names_fail(p: Program, shape: Seq<u32>, k: nat, n: nat)
    requires
        k <= n,
        shape_names(p, shape, k) is Err,
    ensures
        shape_names(p, shape, n) == shape_names(p, shape, k),
    decreases n,
{
    if k < n {
        lemma_shape_names_fail(p, shape, k, (n - 1) as nat);
    }
}

/// Adds a field, or replaces the value of the field with that name.
pub(crate) fn add_field(fields: &mut Vec<Field>, name: String, v: Value)
    ensures
        (
            field_names(final(fields)@),
            field_vals(final(fields)@),
        ) == put_field(field_names(old(fields)@), field_vals(old(fields)@), name@, v@),
{
    let ghost before = fields@;
    match find_field(fields, name.as_str()) {
        Some(i) => {
            fields[i].value = v;
            assert(field_names(fields@) =~= field_names(before));
            assert(field_vals(fields@) =~= field_vals(before).update(i as int, v@));
        },
        None => {
            fields.push(Field { name, value: v });
            assert(field_names(fields@) =~= field_names(before).push(name@));
            assert(field_vals(fields@) =~= field_vals(before).push(v@));
        },
    }
}

/// Checks that the first `n` names of a shape can be had.
pub(crate) fn check_shape(program: &Program, shape_idx: u32, n: usize) -> (r: Result<(), VmError>)
    ensures
        match r {
            Ok(()) => shape_at(*program, shape_idx) is Some && shape_names(
                *program,
                shape_at(*program, shape_idx)->0,
                n as nat,
            ) is Ok,
            Err(e) => match shape_at(*program, shape_idx) {
                None => e@ == no_shape(),
                Some(shape) => shape_names(*program, shape, n as nat) == Err::<
                    Seq<Seq<char>>,
                    Fault,
                >(e@),
            },
        },
{
    if (shape_idx as usize) >= program.record_shapes.len() {
        return Err(panic_with("record shape index out of range"));
    }
    let shape = &program.record_shapes[shape_idx as usize];
    let mut i: usize = 0;
    while i < n
        invariant
            i <= n,
            shape_at(*program, shape_idx) == Some(shape@),
            shape_names(*program, shape@, i as nat) is Ok,
        decreases n - i,
    {
        if i >= shape.len() {
            proof {
                assert(shape_names(*program, shape@, (i + 1) as nat) is Err);
                lemma_shape_names_fail(*program, shape@, (i + 1) as nat, n as nat);
            }
            return Err(panic_with("record shape index out of range"));
        }
        if let Err(e) = get_field_name(program, shape[i]) {
            proof {
                assert(shape_names(*program, shape@, (i + 1) as nat) == Err::<
                    Seq<Seq<char>>,
                    Fault,
                >(e@));
                lemma_shape_names_fail(*program, shape@, (i + 1) as nat, n as nat);
            }
            return Err(e);
        }
        i = i + 1;
    }
    Ok(())
}

/// The values in the opposite order.
pub(crate) fn reversed(v: Vec<Value>) -> (out: Vec<Value>)
    ensures
        out@.len() == v@.len(),
        forall|j: int| 0 <= j < out@.len() ==> #[trigger] out@[j] == v@[v@.len() - 1 - j],
{
    let ghost source = v@;
    let mut v = v;
    let mut out: Vec<Value> = Vec::with_capacity(v.len());
    while v.len() > 0
        invariant
            v@.len() + out@.len() == source.len(),
            v@ == source.take(v@.len() as int),
            forall|j: int|
                0 <= j < out@.len() ==> #[trigger] out@[j] == source[source.len() - 1 - j],
        decreases v.len(),
    {
        let x = v.pop().unwrap();
        out.push(x);
    }
    out
}

/// Builds a record on the heap.
pub(crate) fn build_record(program: &Program, shape_idx: u32, values: Vec<Value>) -> (r: Result<
    Value,
    VmError,
>)
    ensures
        match r {
            Ok(v) => heap_record(*program, shape_idx, vals(values@)) == Ok::<Val, Fault>(v@),
            Err(e) => heap_record(*program, shape_idx, vals(values@)) == Err::<Val, Fault>(e@),
        },
{
    let n: usize = values.len();
    if let Err(e) = check_shape(program, shape_idx, n) {
        return Err(e);
    }
    let ghost all = vals(values@);
    let ghost source = values@;
    let shape = &program.record_shapes[shape_idx as usize];
    let ghost names = shape_names(*program, shape@, n as nat)->Ok_0;
    let mut fields: Vec<Field> = Vec::with_capacity(n);
    let mut values = reversed(values);
    let mut i: usize = 0;
    assert(field_names(fields@) =~= Seq::empty());
    assert(field_vals(fields@) =~= Seq::empty());
    while i < n
        invariant
            i <= n,
            n == all.len(),
            shape@ == shape_at(*program, shape_idx)->0,
            shape_names(*program, shape@, n as nat) == Ok::<Seq<Seq<char>>, Fault>(names),
            values@.len() == n - i,
            all == vals(source),
            forall|j: int| 0 <= j < values@.len() ==> #[trigger] values@[j] == source[n - 1 - j],
            (field_names(fields@), field_vals(fields@)) == fields_of(names, all.take(i as int)),
        decreases n - i,
    {
        proof {
            if shape_names(*program, shape@, (i + 1) as nat) is Err {
                lemma_shape_names_fail(*program, shape@, (i + 1) as nat, n as nat);
            }
            lemma_shape_names_prefix(*program, shape@, (i + 1) as nat, n as nat);
        }
        let name = match get_field_name(program, shape[i]) {
            Ok(s) => s.clone(),
            Err(e) => return Err(e),
        };
        let v = values.pop().unwrap();
        add_field(&mut fields, name, v);
        proof {
            assert(all.take(i + 1).drop_last() =~= all.take(i as int));
            assert(v == source[i as int]);
        }
        i = i + 1;
    }
    assert(all.take(n as int) =~= all);
    Ok(Value::Record { shape_id: shape_idx, fields })
}

/// The names of a shorter prefix are a prefix of the names.
pub proof fn lemma_shape_names_prefix(p: Program, shape: Seq<u32>, k: nat, n: nat)
    requires
        0 < k <= n,
        shape_names(p, shape, n) is Ok,
    ensures
        shape_names(p, shape, k) is Ok,
        k <= shape.len(),
        field_name(p, shape[k - 1]) == Ok::<Seq<char>, Fault>(
            shape_names(p, shape, n)->Ok_0[k - 1],
        ),
        shape_names(p, shape, n)->Ok_0.len() == n,
    decreases n,
{
    lemma_shape_names_len(p, shape, n);
    lemma_shape_names_len(p, shape, (n - 1) as nat);
    if k < n {
        lemma_shape_names_prefix(p, shape, k, (n - 1) as nat);
    }
}

/// The first field of a shape from slot `k` on that has a name.
pub open spec fn find_in_shape(p: Program, shape: Seq<u32>, name: Seq<char>, k: int) -> Option<int>
    decreases shape.len() - k,
{
    if k < 0 || k >= shape.len() {
        None
    } else if field_name(p, shape[k]) == Ok::<Seq<char>, Fault>(name) {
        Some(k)
    } else {
        find_in_shape(p, shape, name, k + 1)
    }
}

/// Where the fields of a slab record lie.
pub open spec fn slab_field(
    p: Program,
    slab: Seq<Val>,
    shape_id: u32,
    slab_start: u32,
    name: Seq<char>,
    place: Seq<char>,
) -> Result<Val, Fault> {
    match shape_at(p, shape_id) {
        None => Err(no_shape()),
        Some(shape) => match find_in_shape(p, shape, name, 0) {
            None => Err(Fault::TypeMismatch("missing field `"@ + name + "` on "@ + place)),
            Some(i) => slot_of(slab, slab_start, i),
        },
    }
}

/// What the read of a named field gives. The kinds of record differ only in
/// where their fields lie; `what` and `arena_place` go into error texts.
pub open spec fn field_of(
    p: Program,
    slab: Seq<Val>,
    arena: Seq<Val>,
    rec: Val,
    name_idx: u32,
    what: Seq<char>,
    arena_place: Seq<char>,
) -> Result<Val, Fault> {
    match rec {
        Val::Record { names, values, .. } => match field_name(p, name_idx) {
            Err(f) => Err(f),
            Ok(name) => match find_name(names, name) {
                Some(i) => Ok(values[i]),
                None => Err(Fault::TypeMismatch("missing field `"@ + name + "`"@)),
            },
        },
        Val::StackRecord { shape_id, slab_start, .. } => match field_name(p, name_idx) {
            Err(f) => Err(f),
            Ok(name) => slab_field(p, slab, shape_id, slab_start, name, "stack record"@),
        },
        Val::ArenaRecord { shape_id, slab_start, .. } => match field_name(p, name_idx) {
            Err(f) => Err(f),
            Ok(name) => slab_field(p, arena, shape_id, slab_start, name, arena_place),
        },
        _ => Err(mismatch_fault(what, rec)),
    }
}

/// The position of a field in a shape, found by its name.
pub(crate) fn resolve_stack_field(
    program: &Program,
    shape_id: u32,
    name: &str,
    place: &str,
) -> (r: Result<usize, VmError>)
    ensures
        match r {
            Ok(i) => shape_at(*program, shape_id) is Some && find_in_shape(
                *program,
                shape_at(*program, shape_id)->0,
                name@,
                0,
            ) == Some(i as int),
            Err(e) => match shape_at(*program, shape_id) {
                None => e@ == no_shape(),
                Some(shape) => find_in_shape(*program, shape, name@, 0) is None && e@
                    == Fault::TypeMismatch("missing field `"@ + name@ + "` on "@ + place@),
            },
        },
{
    if (shape_id as usize) >= program.record_shapes.len() {
        return Err(panic_with("record shape index out of range"));
    }
    let shape = &program.record_shapes[shape_id as usize];
    let mut i: usize = 0;
    while i < shape.len()
        invariant
            i <= shape.len(),
            shape_at(*program, shape_id) == Some(shape@),
            find_in_shape(*program, shape@, name@, 0) == find_in_shape(
                *program,
                shape@,
                name@,
                i as int,
            ),
        decreases shape.len() - i,
    {
        if let Ok(s) = get_field_name(program, shape[i]) {
            if same_text(s.as_str(), name) {
                assert(field_name(*program, shape@[i as int]) == Ok::<Seq<char>, Fault>(name@));
                return Ok(i);
            }
        }
        i = i + 1;
    }
    let mut t = "missing field `".to_owned();
    t.append(name);
    t.append("` on ");
    t.append(place);
    Err(VmError::TypeMismatch(t))
}

/// Where a field was found: the shape, the field name, the position.
#[derive(Debug, Clone, Copy)]
struct CacheEntry {
    shape_id: u32,
    name_idx: u32,
    offset: usize,
}

/// One remembered field position per field access site of every function.
pub struct FieldCache<'a> {
    program: &'a Program,
    slots: Vec<Vec<Option<CacheEntry>>>,
}

/// An entry that says where the field is.
spec fn entry_ok(p: Program, e: CacheEntry) -> bool {
    field_name(p, e.name_idx) is Ok && shape_at(p, e.shape_id) is Some && find_in_shape(
        p,
        shape_at(p, e.shape_id)->0,
        field_name(p, e.name_idx)->Ok_0,
        0,
    ) == Some(e.offset as int)
}

spec fn slot_ok(p: Program, slot: Option<CacheEntry>) -> bool {
    slot matches Some(e) ==> entry_ok(p, e)
}

spec fn slots_ok(p: Program, slots: Seq<Vec<Option<CacheEntry>>>) -> bool {
    forall|f: int, i: int|
        0 <= f < slots.len() && 0 <= i < slots[f]@.len() ==> slot_ok(p, #[trigger] slots[f]@[i])
}

/// The slots of all functions, seen as mathematical objects.
spec fn slot_views(slots: Seq<Vec<Option<CacheEntry>>>) -> Seq<Seq<Option<CacheEntry>>> {
    Seq::new(slots.len(), |f: int| slots[f]@)
}

/// The sites of a function: those it has, or as many as it declares, all
/// without an entry, if it has none yet.
spec fn sites_of(p: Program, slots: Seq<Seq<Option<CacheEntry>>>, f: int) -> Seq<
    Option<CacheEntry>,
> {
    if slots[f].len() == 0 {
        Seq::new(p.functions@[f].field_ic_sites as nat, |i: int| None)
    } else {
        slots[f]
    }
}

/// The slots with an entry at site `i` of function `f`, if there is such a
/// site.
spec fn installed(
    p: Program,
    slots: Seq<Seq<Option<CacheEntry>>>,
    f: int,
    i: int,
    entry: CacheEntry,
) -> Seq<Seq<Option<CacheEntry>>> {
    if f < slots.len() && f < p.functions@.len() {
        let sites = sites_of(p, slots, f);
        slots.update(
            f,
            if i < sites.len() {
                sites.update(i, Some(entry))
            } else {
                sites
            },
        )
    } else {
        slots
    }
}

/// Remembers an entry at site `i` of function `f`.
fn install(
    program: &Program,
    slots: &mut Vec<Vec<Option<CacheEntry>>>,
    f: usize,
    i: usize,
    entry: CacheEntry,
)
    requires
        slots_ok(*program, old(slots)@),
        entry_ok(*program, entry),
    ensures
        slots_ok(*program, final(slots)@),
        slot_views(final(slots)@) == installed(
            *program,
            slot_views(old(slots)@),
            f as int,
            i as int,
            entry,
        ),
{
    let ghost before = slots@;
    if f >= slots.len() || f >= program.functions.len() {
        return ;
    }
    if slots[f].len() == 0 {
        let n: usize = program.functions[f].field_ic_sites as usize;
        let mut sites: Vec<Option<CacheEntry>> = Vec::with_capacity(n);
        let mut k: usize = 0;
        while k < n
            invariant
                k <= n,
                sites@.len() == k,
                forall|j: int| 0 <= j < k ==> #[trigger] sites@[j] is None,
            decreases n - k,
        {
            sites.push(None);
            k = k + 1;
        }
        if i < n {
            sites[i] = Some(entry);
        }
        assert(sites@ =~= installed(*program, slot_views(before), f as int, i as int, entry)[
            f as int
        ]);
        slots[f] = sites;
    } else if i < slots[f].len() {
        slots[f][i] = Some(entry);
    }
    assert(slot_views(slots@) =~= installed(
        *program,
        slot_views(before),
        f as int,
        i as int,
        entry,
    ));
}

/// What the sites remember: the shape, the field name and the position that
/// each site of each function met last.
spec fn memory_of(slots: Seq<Seq<Option<CacheEntry>>>) -> Map<(u32, u32), (u32, u32, usize)> {
    Map::new(
        |k: (u32, u32)| k.0 < slots.len() && k.1 < slots[k.0 as int].len() && slots[k.0 as int][
            k.1 as int
        ] is Some,
        |k: (u32, u32)|
            {
                let e = slots[k.0 as int][k.1 as int]->0;
                (e.shape_id, e.name_idx, e.offset)
            },
    )
}

/// How many field access sites a function declares.
pub open spec fn declared_sites(p: Program, fn_id: u32) -> nat {
    if fn_id < p.functions@.len() {
        p.functions@[fn_id as int].field_ic_sites as nat
    } else {
        0
    }
}

impl<'a> FieldCache<'a> {
    #[verifier::type_invariant]
    spec fn inv(self) -> bool {
        slots_ok(*self.program, self.slots@)
    }

    /// What the sites remember, by function and site: the shape, the field
    /// name and the position that the site met last.
    pub closed spec fn memory(self) -> Map<(u32, u32), (u32, u32, usize)> {
        memory_of(slot_views(self.slots@))
    }

    /// How many sites of a function can remember something.
    pub closed spec fn sites(self, fn_id: u32) -> nat {
        let slots = slot_views(self.slots@);
        if fn_id < slots.len() && fn_id < self.program.functions@.len() {
            sites_of(*self.program, slots, fn_id as int).len()
        } else {
            0
        }
    }

    pub closed spec fn program(self) -> Program {
        *self.program
    }

    /// An empty cache for a program.
    pub fn new(program: &'a Program) -> (c: FieldCache<'a>)
        ensures
            c.program() == *program,
            c.memory() == Map::<(u32, u32), (u32, u32, usize)>::empty(),
            forall|fn_id: u32| #[trigger] c.sites(fn_id) == declared_sites(*program, fn_id),
    {
        let n: usize = program.functions.len();
        let mut slots: Vec<Vec<Option<CacheEntry>>> = Vec::with_capacity(n);
        let mut i: usize = 0;
        while i < n
            invariant
                i <= n,
                slots@.len() == i,
                forall|f: int| 0 <= f < i ==> (#[trigger] slots@[f])@.len() == 0,
            decreases n - i,
        {
            slots.push(Vec::new());
            i = i + 1;
        }
        assert(memory_of(slot_views(slots@)) =~= Map::empty());
        FieldCache { program, slots }
    }

    /// The position of a field, from the cache if the site has seen the shape
    /// and the name before, else by a search that the site then remembers.
    pub fn resolve(
        &mut self,
        fn_id: u32,
        site_idx: u32,
        shape_id: u32,
        name_idx: u32,
        place: &str,
    ) -> (r: Result<usize, VmError>)
        ensures
            final(self).program() == old(self).program(),
            final(self).memory() == match r {
                Ok(i) => if site_idx < old(self).sites(fn_id) {
                    old(self).memory().insert((fn_id, site_idx), (shape_id, name_idx, i))
                } else {
                    old(self).memory()
                },
                Err(_) => old(self).memory(),
            },
            forall|f: u32| #[trigger] final(self).sites(f) == old(self).sites(f),
            match field_name(old(self).program(), name_idx) {
                Err(f) => r is Err && r->Err_0@ == f,
                Ok(name) => match r {
                    Ok(i) => shape_at(old(self).program(), shape_id) is Some && find_in_shape(
                        old(self).program(),
                        shape_at(old(self).program(), shape_id)->0,
                        name,
                        0,
                    ) == Some(i as int),
                    Err(e) => match shape_at(old(self).program(), shape_id) {
                        None => e@ == no_shape(),
                        Some(shape) => find_in_shape(old(self).program(), shape, name, 0) is None
                            && e@ == Fault::TypeMismatch(
                            "missing field `"@ + name + "` on "@ + place@,
                        ),
                    },
                },
            },
    {
        proof {
            use_type_invariant(&*self);
        }
        let program = self.program;
        let name = match get_field_name(program, name_idx) {
            Ok(s) => s,
            Err(e) => return Err(e),
        };
        let f: usize = fn_id as usize;
        let i: usize = site_idx as usize;
        if f < self.slots.len() && i < self.slots[f].len() {
            if let Some(e) = self.slots[f][i] {
                if e.shape_id == shape_id && e.name_idx == name_idx {
                    assert(slot_ok(*self.program, self.slots@[f as int]@[i as int]));
                    proof {
                        let views = slot_views(self.slots@);
                        assert(views[f as int].len() > 0);
                        assert(memory_of(views).insert(
                            (fn_id, site_idx),
                            (shape_id, name_idx, e.offset),
                        ) =~= memory_of(views));
                    }
                    return Ok(e.offset);
                }
            }
        }
        let offset = match resolve_stack_field(program, shape_id, name.as_str(), place) {
            Ok(offset) => offset,
            Err(e) => return Err(e),
        };
        let entry = CacheEntry { shape_id, name_idx, offset };
        assert(entry_ok(*program, entry));
        let mut slots: Vec<Vec<Option<CacheEntry>>> = Vec::new();
        let ghost views = slot_views(self.slots@);
        std::mem::swap(&mut self.slots, &mut slots);
        install(program, &mut slots, f, i, entry);
        proof {
            let after = installed(*program, views, f as int, i as int, entry);
            let m = memory_of(views);
            if site_idx < old(self).sites(fn_id) {
                assert(memory_of(after) =~= m.insert(
                    (fn_id, site_idx),
                    (shape_id, name_idx, offset),
                ));
            } else {
                assert(memory_of(after) =~= m);
            }
        }
        self.slots = slots;
        Ok(offset)
    }
}

/// The shape of a record.
pub(crate) fn shape_of(v: &Value) -> (shape_id: Option<u32>)
    ensures
        shape_id == record_shape(v@),
{
    proof {
        assert(v@ == value::view_of(*v));
    }
    match v {
        Value::Record { shape_id, .. } => Some(*shape_id),
        Value::StackRecord { shape_id, .. } => Some(*shape_id),
        Value::ArenaRecord { shape_id, .. } => Some(*shape_id),
        _ => None,
    }
}

/// Reads a field by name.
pub(crate) fn read_field(
    cache: &mut FieldCache,
    slab: &Vec<Value>,
    arena: &Vec<Value>,
    rec: &Value,
    fn_id: u32,
    name_idx: u32,
    site_idx: u32,
    what: &str,
    arena_place: &str,
) -> (r: Result<Value, VmError>)
    ensures
        final(cache).program() == old(cache).program(),
        match r {
            Ok(v) => field_of(
                old(cache).program(),
                vals(slab@),
                vals(arena@),
                rec@,
                name_idx,
                what@,
                arena_place@,
            ) == Ok::<Val, Fault>(v@),
            Err(e) => field_of(
                old(cache).program(),
                vals(slab@),
                vals(arena@),
                rec@,
                name_idx,
                what@,
                arena_place@,
            ) == Err::<Val, Fault>(e@),
        },
{
    proof {
        assert(rec@ == value::view_of(*rec));
    }
    match rec {
        Value::Record { fields, .. } => {
            let name = match get_field_name(cache.program, name_idx) {
                Ok(s) => s,
                Err(e) => return Err(e),
            };
            match find_field(fields, name.as_str()) {
                Some(i) => Ok(fields[i].value.duplicate()),
                None => {
                    let mut t = "missing field `".to_owned();
                    t.append(name.as_str());
                    t.append("`");
                    Err(VmError::TypeMismatch(t))
                },
            }
        },
        Value::StackRecord { shape_id, slab_start, .. } => {
            match cache.resolve(fn_id, site_idx, *shape_id, name_idx, "stack record") {
                Ok(off) => read_slot(slab, *slab_start, off),
                Err(e) => Err(e),
            }
        },
        Value::ArenaRecord { shape_id, slab_start, .. } => {
            match cache.resolve(fn_id, site_idx, *shape_id, name_idx, arena_place) {
                Ok(off) => read_slot(arena, *slab_start, off),
                Err(e) => Err(e),
            }
        },
        _ => Err(mismatch_with(what, rec)),
    }
}

/// The slot of a slab at an offset from a start.
pub open spec fn slot_of(slab: Seq<Val>, start: u32, off: int) -> Result<Val, Fault> {
    if start + off < slab.len() {
        Ok(slab[start + off])
    } else {
        Err(no_slot())
    }
}

pub(crate) fn read_slot(slab: &Vec<Value>, start: u32, off: usize) -> (r: Result<Value, VmError>)
    ensures
        match r {
            Ok(v) => slot_of(vals(slab@), start, off as int) == Ok::<Val, Fault>(v@),
            Err(e) => slot_of(vals(slab@), start, off as int) == Err::<Val, Fault>(e@),
        },
{
    let n: usize = slab.len();
    match (start as usize).checked_add(off) {
        Some(at) => if at < n {
            assert(vals(slab@)[at as int] == slab@[at as int]@);
            Ok(slab[at].duplicate())
        } else {
            Err(panic_with("slab index out of range"))
        },
        None => Err(panic_with("slab index out of range")),
    }
}

} // verus!
