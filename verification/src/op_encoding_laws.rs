//! Different code is hashed as different text.

use vstd::bytes::{
    lemma_auto_spec_u16_to_from_le_bytes, lemma_auto_spec_u64_to_from_le_bytes,
    spec_u16_to_le_bytes, spec_u64_to_le_bytes,
};
use vstd::prelude::*;

use crate::op::{canonical, canonical_code, Op};
use crate::op_encoding::{escaped, form, form_json, json_string, members, op_bytes, single, Form};
use crate::program::{body_text, framed_op, framed_ops};
use crate::text::{bytes_of, decimal, digit, lemma_bytes_injective, signed_decimal};

verus! {

/// A text of letters and underscores.
spec fn wordy(t: Seq<char>) -> bool {
    forall|i: int| 0 <= i < t.len() ==> word_char(#[trigger] t[i])
}

spec fn word_char(c: char) -> bool {
    'a' <= c <= 'z' || 'A' <= c <= 'Z' || c == '_'
}

/// A number by which tags differ.
spec fn mark(t: Seq<char>) -> int {
    t.len() + 8 * (t[t.len() - 1] as int) + 7 * (t[2] as int) + 7 * (t[t.len() - 2] as int)
}

/// The mark of the tag of a canonical op.
spec fn kind(op: Op) -> int {
    match op {
        Op::PushConst(_) => 2547,
        Op::Pop => 2460,
        Op::Dup => 2502,
        Op::LoadLocal(_) => 2231,
        Op::StoreLocal(_) => 2330,
        Op::MakeRecord { .. } => 2357,
        Op::MakeTuple(_) => 2322,
        Op::MakeList(_) => 2490,
        Op::MakeVariant { .. } => 2458,
        Op::GetField { .. } => 2376,
        Op::GetElem(_) => 2398,
        Op::TestVariant(_) => 2514,
        Op::GetVariant(_) => 2520,
        Op::GetVariantArg(_) => 2447,
        Op::GetListLen => 2409,
        Op::GetListElem(_) => 2402,
        Op::ListAppend => 2385,
        Op::GetListElemDyn => 2553,
        Op::Jump(_) => 2426,
        Op::JumpIf(_) => 2096,
        Op::JumpIfNot(_) => 2477,
        Op::Call { .. } => 2380,
        Op::TailCall { .. } => 2363,
        Op::MakeClosure { .. } => 2366,
        Op::CallClosure { .. } => 2373,
        Op::SortByKey { .. } => 2482,
        Op::ParallelMap { .. } => 2384,
        Op::ListMap { .. } => 2387,
        Op::ListFilter { .. } => 2434,
        Op::ListFold { .. } => 2369,
        Op::EffectCall { .. } => 2344,
        Op::Return => 2496,
        Op::Panic(_) => 2302,
        Op::IntAdd => 2318,
        Op::IntSub => 2421,
        Op::IntMul => 2501,
        Op::IntDiv => 2497,
        Op::IntMod => 2395,
        Op::IntNeg => 2349,
        Op::IntLt => 2277,
        Op::IntLe => 2157,
        Op::FloatAdd => 2285,
        Op::FloatSub => 2388,
        Op::FloatMul => 2468,
        Op::FloatDiv => 2464,
        Op::FloatNeg => 2316,
        Op::FloatLt => 2244,
        Op::FloatLe => 2124,
        Op::NumAdd => 2269,
        Op::NumSub => 2372,
        Op::NumMul => 2452,
        Op::NumDiv => 2448,
        Op::NumMod => 2346,
        Op::NumNeg => 2300,
        Op::NumEq => 2155,
        Op::NumLt => 2228,
        Op::NumLe => 2108,
        Op::BoolAnd => 2354,
        Op::BoolOr => 2248,
        Op::BoolNot => 2489,
        Op::StrConcat => 2414,
        Op::StrLen => 2391,
        Op::StrEq => 2190,
        Op::BytesLen => 2407,
        Op::BytesEq => 2206,
        _ => 0,
    }
}

/// The tag of a canonical op is a word with the mark of the op.
#[verifier::spinoff_prover]
#[verifier::rlimit(40)]
proof fn lemma_tag(op: Op)
    requires
        canonical(op) == op,
    ensures
        mark(form(op).tag) == kind(op),
        wordy(form(op).tag),
{
    reveal_strlit("PushConst");
    reveal_strlit("Pop");
    reveal_strlit("Dup");
    reveal_strlit("LoadLocal");
    reveal_strlit("StoreLocal");
    reveal_strlit("MakeRecord");
    reveal_strlit("MakeTuple");
    reveal_strlit("MakeList");
    reveal_strlit("MakeVariant");
    reveal_strlit("GetField");
    reveal_strlit("GetElem");
    reveal_strlit("TestVariant");
    reveal_strlit("GetVariant");
    reveal_strlit("GetVariantArg");
    reveal_strlit("GetListLen");
    reveal_strlit("GetListElem");
    reveal_strlit("ListAppend");
    reveal_strlit("GetListElemDyn");
    reveal_strlit("Jump");
    reveal_strlit("JumpIf");
    reveal_strlit("JumpIfNot");
    reveal_strlit("Call");
    reveal_strlit("TailCall");
    reveal_strlit("MakeClosure");
    reveal_strlit("CallClosure");
    reveal_strlit("SortByKey");
    reveal_strlit("ParallelMap");
    reveal_strlit("ListMap");
    reveal_strlit("ListFilter");
    reveal_strlit("ListFold");
    reveal_strlit("EffectCall");
    reveal_strlit("Return");
    reveal_strlit("Panic");
    reveal_strlit("IntAdd");
    reveal_strlit("IntSub");
    reveal_strlit("IntMul");
    reveal_strlit("IntDiv");
    reveal_strlit("IntMod");
    reveal_strlit("IntNeg");
    reveal_strlit("IntLt");
    reveal_strlit("IntLe");
    reveal_strlit("FloatAdd");
    reveal_strlit("FloatSub");
    reveal_strlit("FloatMul");
    reveal_strlit("FloatDiv");
    reveal_strlit("FloatNeg");
    reveal_strlit("FloatLt");
    reveal_strlit("FloatLe");
    reveal_strlit("NumAdd");
    reveal_strlit("NumSub");
    reveal_strlit("NumMul");
    reveal_strlit("NumDiv");
    reveal_strlit("NumMod");
    reveal_strlit("NumNeg");
    reveal_strlit("NumEq");
    reveal_strlit("NumLt");
    reveal_strlit("NumLe");
    reveal_strlit("BoolAnd");
    reveal_strlit("BoolOr");
    reveal_strlit("BoolNot");
    reveal_strlit("StrConcat");
    reveal_strlit("StrLen");
    reveal_strlit("StrEq");
    reveal_strlit("BytesLen");
    reveal_strlit("BytesEq");
}

/// Ops with the same mark have fields of the same names.
#[verifier::spinoff_prover]
proof fn lemma_kind_names(a: Op, b: Op)
    requires
        canonical(a) == a,
        canonical(b) == b,
        kind(a) == kind(b),
    ensures
        form(a).value is Some <==> form(b).value is Some,
        form(a).fields.len() == form(b).fields.len(),
        forall|i: int|
            0 <= i < form(a).fields.len() ==> (#[trigger] form(a).fields[i]).0 == form(
                b,
            ).fields[i].0,
{
}

/// Ops with the same mark and the same numbers are the same.
#[verifier::spinoff_prover]
proof fn lemma_kind_op(a: Op, b: Op)
    requires
        canonical(a) == a,
        canonical(b) == b,
        kind(a) == kind(b),
        form(a).value == form(b).value,
        form(a).fields == form(b).fields,
    ensures
        a == b,
{
    let f = form(a).fields;
    let g = form(b).fields;
    assert(f[0].1 == g[0].1 && f[1].1 == g[1].1 && f[2].1 == g[2].1 && f[3].1 == g[3].1);
}

/// A word needs no escapes.
proof fn lemma_escaped(t: Seq<char>)
    requires
        wordy(t),
    ensures
        escaped(t) == t,
    decreases t.len(),
{
    if t.len() > 0 {
        let s = t.drop_last();
        assert forall|i: int| 0 <= i < s.len() implies word_char(#[trigger] s[i]) by {
            assert(s[i] == t[i]);
        }
        lemma_escaped(s);
        assert(word_char(t[t.len() - 1]));
        assert(escaped(t) =~= t);
    }
}

/// What stands in front of the first `c`, and what behind.
proof fn lemma_split(a: Seq<char>, x: Seq<char>, b: Seq<char>, y: Seq<char>, c: char)
    requires
        a.push(c) + x == b.push(c) + y,
        forall|i: int| 0 <= i < a.len() ==> #[trigger] a[i] != c,
        forall|i: int| 0 <= i < b.len() ==> #[trigger] b[i] != c,
    ensures
        a == b,
        x == y,
{
    let w = a.push(c) + x;
    assert(w[a.len() as int] == c);
    assert(w[b.len() as int] == c);
    if a.len() < b.len() {
        assert(w[a.len() as int] == b[a.len() as int]);
    }
    if b.len() < a.len() {
        assert(w[b.len() as int] == a[b.len() as int]);
    }
    assert forall|i: int| 0 <= i < a.len() implies #[trigger] a[i] == b[i] by {
        assert(w[i] == a[i]);
        assert(w[i] == b[i]);
    }
    assert(a =~= b);
    assert(w.len() == a.len() + 1 + x.len());
    assert(w.len() == b.len() + 1 + y.len());
    assert forall|i: int| 0 <= i < x.len() implies #[trigger] x[i] == y[i] by {
        assert(w[a.len() + 1 + i] == x[i]);
        assert((b.push(c) + y)[b.len() + 1 + i] == y[i]);
    }
    assert(x =~= y);
}

/// What stands behind the last `c`, and what in front.
proof fn lemma_split_back(x: Seq<char>, a: Seq<char>, y: Seq<char>, b: Seq<char>, c: char)
    requires
        x.push(c) + a == y.push(c) + b,
        forall|i: int| 0 <= i < a.len() ==> #[trigger] a[i] != c,
        forall|i: int| 0 <= i < b.len() ==> #[trigger] b[i] != c,
    ensures
        a == b,
        x == y,
{
    let w = x.push(c) + a;
    assert(w.len() == x.len() + 1 + a.len());
    assert(w.len() == y.len() + 1 + b.len());
    assert(w[x.len() as int] == c);
    assert(w[y.len() as int] == c);
    if x.len() < y.len() {
        assert(w[y.len() as int] == a[y.len() - x.len() - 1]);
    }
    if y.len() < x.len() {
        assert(w[x.len() as int] == b[x.len() - y.len() - 1]);
    }
    assert forall|i: int| 0 <= i < x.len() implies #[trigger] x[i] == y[i] by {
        assert(w[i] == x[i]);
        assert(w[i] == y[i]);
    }
    assert(x =~= y);
    assert forall|i: int| 0 <= i < a.len() implies #[trigger] a[i] == b[i] by {
        assert(w[x.len() + 1 + i] == a[i]);
    }
    assert(a =~= b);
}

/// The texts behind a common text, and in front of one.
proof fn lemma_strip(u: Seq<char>, x: Seq<char>, y: Seq<char>, v: Seq<char>)
    requires
        u + x + v == u + y + v,
    ensures
        x == y,
{
    let w = u + x + v;
    assert(w.len() == u.len() + x.len() + v.len());
    assert(w.len() == u.len() + y.len() + v.len());
    assert forall|i: int| 0 <= i < x.len() implies #[trigger] x[i] == y[i] by {
        assert(w[u.len() + i] == x[i]);
        assert((u + y + v)[u.len() + i] == y[i]);
    }
    assert(x =~= y);
}

spec fn is_digit(c: char) -> bool {
    '0' <= c <= '9'
}

proof fn lemma_digit(d: int)
    requires
        0 <= d < 10,
    ensures
        digit(d).len() == 1,
        digit(d)[0] as int == 0x30 + d,
{
    reveal_strlit("0");
    reveal_strlit("1");
    reveal_strlit("2");
    reveal_strlit("3");
    reveal_strlit("4");
    reveal_strlit("5");
    reveal_strlit("6");
    reveal_strlit("7");
    reveal_strlit("8");
    reveal_strlit("9");
}

proof fn lemma_decimal(n: nat)
    ensures
        decimal(n).len() >= 1,
        n >= 10 ==> decimal(n).len() >= 2,
        forall|i: int| 0 <= i < decimal(n).len() ==> is_digit(#[trigger] decimal(n)[i]),
    decreases n,
{
    lemma_digit((n % 10) as int);
    if n >= 10 {
        let t = decimal(n / 10);
        lemma_decimal(n / 10);
        assert forall|i: int| 0 <= i < decimal(n).len() implies is_digit(
            #[trigger] decimal(n)[i],
        ) by {
            if i < t.len() {
                assert(decimal(n)[i] == t[i]);
            }
        }
    }
}

proof fn lemma_decimal_injective(a: nat, b: nat)
    requires
        decimal(a) == decimal(b),
    ensures
        a == b,
    decreases a,
{
    lemma_decimal(a);
    lemma_decimal(b);
    lemma_digit((a % 10) as int);
    lemma_digit((b % 10) as int);
    if a >= 10 {
        let x = decimal(a / 10);
        let y = decimal(b / 10);
        let w = decimal(a);
        assert(w[w.len() - 1] == digit((a % 10) as int)[0]);
        assert(w[w.len() - 1] == digit((b % 10) as int)[0]);
        assert(x =~= w.take(w.len() - 1));
        assert(y =~= w.take(w.len() - 1));
        lemma_decimal_injective(a / 10, b / 10);
    }
}

/// Signed numbers are made of digits behind a sign.
proof fn lemma_signed(n: int)
    ensures
        signed_decimal(n).len() >= 1,
        forall|i: int|
            0 <= i < signed_decimal(n).len() ==> is_digit(#[trigger] signed_decimal(n)[i])
                || signed_decimal(n)[i] == '-',
        n < 0 ==> signed_decimal(n)[0] == '-',
        n >= 0 ==> is_digit(signed_decimal(n)[0]),
{
    reveal_strlit("-");
    if n < 0 {
        let t = decimal((-n) as nat);
        lemma_decimal((-n) as nat);
        assert forall|i: int| 0 <= i < signed_decimal(n).len() implies is_digit(
            #[trigger] signed_decimal(n)[i],
        ) || signed_decimal(n)[i] == '-' by {
            if i > 0 {
                assert(signed_decimal(n)[i] == t[i - 1]);
            }
        }
    } else {
        lemma_decimal(n as nat);
    }
}

proof fn lemma_signed_injective(a: int, b: int)
    requires
        signed_decimal(a) == signed_decimal(b),
    ensures
        a == b,
{
    lemma_signed(a);
    lemma_signed(b);
    reveal_strlit("-");
    if a < 0 {
        let w = signed_decimal(a);
        assert(decimal((-a) as nat) =~= w.skip(1));
        assert(decimal((-b) as nat) =~= w.skip(1));
        lemma_decimal_injective((-a) as nat, (-b) as nat);
    } else {
        lemma_decimal_injective(a as nat, b as nat);
    }
}

/// Numbers under the same names that stand as the same members are the same.
proof fn lemma_members(f: Seq<(Seq<char>, i64)>, g: Seq<(Seq<char>, i64)>)
    requires
        f.len() == g.len(),
        forall|i: int| 0 <= i < f.len() ==> (#[trigger] f[i]).0 == g[i].0,
        members(f) == members(g),
    ensures
        f == g,
    decreases f.len(),
{
    if f.len() > 0 {
        let name = f.last().0;
        let a = signed_decimal(f.last().1 as int);
        let b = signed_decimal(g.last().1 as int);
        assert(name == g.last().0);
        lemma_signed(f.last().1 as int);
        lemma_signed(g.last().1 as int);
        reveal_strlit(":");
        let (x, y) = if f.len() == 1 {
            (json_string(name), json_string(name))
        } else {
            (
                members(f.drop_last()) + ","@ + json_string(name),
                members(g.drop_last()) + ","@ + json_string(name),
            )
        };
        assert(members(f) =~= x.push(':') + a);
        assert(members(g) =~= y.push(':') + b);
        lemma_split_back(x, a, y, b, ':');
        lemma_signed_injective(f.last().1 as int, g.last().1 as int);
        if f.len() > 1 {
            let tail = ","@ + json_string(name);
            assert(Seq::<char>::empty() + members(f.drop_last()) + tail =~= x);
            assert(Seq::<char>::empty() + members(g.drop_last()) + tail =~= y);
            lemma_strip(
                Seq::empty(),
                members(f.drop_last()),
                members(g.drop_last()),
                tail,
            );
            assert forall|i: int| 0 <= i < f.drop_last().len() implies (
            #[trigger] f.drop_last()[i]).0 == g.drop_last()[i].0 by {
                assert(f.drop_last()[i] == f[i]);
            }
            lemma_members(f.drop_last(), g.drop_last());
        }
        assert forall|i: int| 0 <= i < f.len() implies #[trigger] f[i] == g[i] by {
            if i < f.len() - 1 {
                assert(f.drop_last()[i] == f[i]);
                assert(g.drop_last()[i] == g[i]);
            }
        }
    }
    assert(f =~= g);
}

/// The value in an object with one member.
spec fn inner(f: Form) -> Seq<char> {
    match f.value {
        Some(n) => signed_decimal(n as int),
        None => "{"@ + members(f.fields) + "}"@,
    }
}

/// Whether a form is encoded as a text.
spec fn bare(f: Form) -> bool {
    f.value is None && f.fields.len() == 0
}

/// An object whose name is a word.
proof fn lemma_single(name: Seq<char>, v: Seq<char>)
    requires
        wordy(name),
    ensures
        single(name, v) == seq!['{', '"'] + name.push('"') + (":"@ + v + "}"@),
{
    lemma_escaped(name);
    reveal_strlit("{");
    reveal_strlit("\"");
    assert(single(name, v) =~= seq!['{', '"'] + name.push('"') + (":"@ + v + "}"@));
}

/// The same text comes from forms with the same tag and the same value.
proof fn lemma_json(f: Form, g: Form)
    requires
        wordy(f.tag),
        wordy(g.tag),
        form_json(f) == form_json(g),
    ensures
        f.tag == g.tag,
        bare(f) <==> bare(g),
        !bare(f) ==> inner(f) == inner(g),
{
    let w = form_json(f);
    lemma_escaped(f.tag);
    lemma_escaped(g.tag);
    reveal_strlit("{");
    reveal_strlit("\"");
    assert(bare(f) ==> w[0] == '"');
    assert(!bare(f) ==> w[0] == '{');
    assert(bare(g) ==> w[0] == '"');
    assert(!bare(g) ==> w[0] == '{');
    assert(forall|i: int| 0 <= i < f.tag.len() ==> word_char(#[trigger] f.tag[i]));
    assert(forall|i: int| 0 <= i < g.tag.len() ==> word_char(#[trigger] g.tag[i]));
    if bare(f) {
        lemma_strip("\""@, f.tag, g.tag, "\""@);
    } else {
        let head = seq!['{', '"'];
        let x = ":"@ + inner(f) + "}"@;
        let y = ":"@ + inner(g) + "}"@;
        lemma_single(f.tag, inner(f));
        lemma_single(g.tag, inner(g));
        assert(w =~= head + (f.tag.push('"') + x) + Seq::<char>::empty());
        assert(w =~= head + (g.tag.push('"') + y) + Seq::<char>::empty());
        lemma_strip(head, f.tag.push('"') + x, g.tag.push('"') + y, Seq::empty());
        lemma_split(f.tag, x, g.tag, y, '"');
        lemma_strip(":"@, inner(f), inner(g), "}"@);
    }
}

/// Law: two ops have the same encoding if and only if they have the same
/// canonical form.
pub proof fn law_encoding_tells_ops_apart(a: Op, b: Op)
    ensures
        op_bytes(a) == op_bytes(b) <==> canonical(a) == canonical(b),
{
    if op_bytes(a) == op_bytes(b) {
        let x = canonical(a);
        let y = canonical(b);
        lemma_bytes_injective(form_json(form(x)), form_json(form(y)));
        lemma_tag(x);
        lemma_tag(y);
        lemma_json(form(x), form(y));
        lemma_kind_names(x, y);
        let f = form(x);
        let g = form(y);
        if f.value is Some {
            lemma_signed_injective(f.value->Some_0 as int, g.value->Some_0 as int);
        } else if !bare(f) {
            lemma_strip("{"@, members(f.fields), members(g.fields), "}"@);
            lemma_members(f.fields, g.fields);
        } else {
            assert(f.fields =~= g.fields);
        }
        lemma_kind_op(x, y);
    }
}

/// A text has at most four bytes a character.
proof fn lemma_bytes_len(t: Seq<char>)
    ensures
        bytes_of(t).len() <= 4 * t.len(),
    decreases t.len(),
{
    if t.len() > 0 {
        lemma_bytes_len(t.drop_first());
    }
}

proof fn lemma_decimal_len(n: nat)
    ensures
        decimal(n).len() <= n + 1,
    decreases n,
{
    lemma_digit((n % 10) as int);
    if n >= 10 {
        lemma_decimal_len(n / 10);
    }
}

/// A number of a field.
spec fn short(n: i64) -> bool {
    -0x8000_0000 <= n <= 0xffff_ffff
}

proof fn lemma_signed_len(n: i64)
    requires
        short(n),
    ensures
        signed_decimal(n as int).len() <= 0x1_0000_0001,
{
    reveal_strlit("-");
    if n < 0 {
        lemma_decimal_len((-n) as nat);
    } else {
        lemma_decimal_len(n as nat);
    }
}

/// Few short numbers under short names.
spec fn modest(f: Seq<(Seq<char>, i64)>) -> bool {
    &&& f.len() <= 4
    &&& forall|i: int|
        0 <= i < f.len() ==> wordy((#[trigger] f[i]).0) && f[i].0.len() <= 16 && short(f[i].1)
}

proof fn lemma_modest(op: Op)
    ensures
        modest(form(op).fields),
        form(op).value matches Some(n) ==> short(n),
{
    reveal_strlit("shape_idx");
    reveal_strlit("field_count");
    reveal_strlit("name_idx");
    reveal_strlit("arity");
    reveal_strlit("fn_id");
    reveal_strlit("node_id_idx");
    reveal_strlit("capture_count");
    reveal_strlit("kind_idx");
    reveal_strlit("op_idx");
    assert(wordy("shape_idx"@) && "shape_idx"@.len() <= 16);
    assert(wordy("field_count"@) && "field_count"@.len() <= 16);
    assert(wordy("name_idx"@) && "name_idx"@.len() <= 16);
    assert(wordy("arity"@) && "arity"@.len() <= 16);
    assert(wordy("fn_id"@) && "fn_id"@.len() <= 16);
    assert(wordy("node_id_idx"@) && "node_id_idx"@.len() <= 16);
    assert(wordy("capture_count"@) && "capture_count"@.len() <= 16);
    assert(wordy("kind_idx"@) && "kind_idx"@.len() <= 16);
    assert(wordy("op_idx"@) && "op_idx"@.len() <= 16);
}

proof fn lemma_members_len(f: Seq<(Seq<char>, i64)>)
    requires
        modest(f),
    ensures
        members(f).len() <= f.len() * 0x2_0000_0000,
    decreases f.len(),
{
    if f.len() > 0 {
        lemma_escaped(f[f.len() - 1].0);
        lemma_signed_len(f.last().1);
        reveal_strlit("\"");
        reveal_strlit(":");
        reveal_strlit(",");
        let g = f.drop_last();
        assert forall|i: int| 0 <= i < g.len() implies wordy((#[trigger] g[i]).0) && g[i].0.len()
            <= 16 && short(g[i].1) by {
            assert(g[i] == f[i]);
        }
        lemma_members_len(g);
    }
}

/// The encoding of an op is short enough for its length to be written.
proof fn lemma_op_len(op: Op)
    ensures
        op_bytes(op).len() <= u64::MAX,
{
    let c = canonical(op);
    let f = form(c);
    lemma_tag(c);
    lemma_modest(c);
    lemma_escaped(f.tag);
    lemma_members_len(f.fields);
    if let Some(n) = f.value {
        lemma_signed_len(n);
    }
    reveal_strlit("\"");
    reveal_strlit(":");
    reveal_strlit("{");
    reveal_strlit("}");
    assert(kind(c) <= 4000);
    assert(f.tag.len() <= 4000);
    lemma_bytes_len(form_json(f));
}

/// The first op of a text, and the others.
proof fn lemma_framed_first(code: Seq<Op>)
    requires
        code.len() > 0,
    ensures
        framed_ops(code) == framed_op(code[0]) + framed_ops(code.drop_first()),
    decreases code.len(),
{
    let rest = code.drop_first();
    if code.len() == 1 {
        assert(code.drop_last() =~= Seq::<Op>::empty());
        assert(rest =~= Seq::<Op>::empty());
        assert(framed_ops(code) =~= framed_op(code[0]) + framed_ops(rest));
    } else {
        lemma_framed_first(code.drop_last());
        assert(code.drop_last().drop_first() =~= rest.drop_last());
        assert(framed_ops(code) =~= framed_op(code[0]) + framed_ops(rest));
    }
}

/// The texts in front, if they have the same length, and behind.
proof fn lemma_halves(a: Seq<u8>, x: Seq<u8>, b: Seq<u8>, y: Seq<u8>)
    requires
        a + x == b + y,
        a.len() == b.len(),
    ensures
        a == b,
        x == y,
{
    let w = a + x;
    assert(a =~= w.take(a.len() as int));
    assert(b =~= w.take(a.len() as int));
    assert(x =~= w.skip(a.len() as int));
    assert(y =~= w.skip(a.len() as int));
}

proof fn lemma_framed_ops_apart(a: Seq<Op>, b: Seq<Op>)
    requires
        a.len() == b.len(),
        framed_ops(a) == framed_ops(b),
    ensures
        canonical_code(a) == canonical_code(b),
    decreases a.len(),
{
    if a.len() > 0 {
        lemma_auto_spec_u64_to_from_le_bytes();
        lemma_framed_first(a);
        lemma_framed_first(b);
        lemma_op_len(a[0]);
        lemma_op_len(b[0]);
        let m = op_bytes(a[0]).len() as u64;
        let n = op_bytes(b[0]).len() as u64;
        let x = op_bytes(a[0]) + framed_ops(a.drop_first());
        let y = op_bytes(b[0]) + framed_ops(b.drop_first());
        assert(framed_ops(a) =~= spec_u64_to_le_bytes(m) + x);
        assert(framed_ops(b) =~= spec_u64_to_le_bytes(n) + y);
        lemma_halves(spec_u64_to_le_bytes(m), x, spec_u64_to_le_bytes(n), y);
        assert(m == n);
        lemma_halves(
            op_bytes(a[0]),
            framed_ops(a.drop_first()),
            op_bytes(b[0]),
            framed_ops(b.drop_first()),
        );
        law_encoding_tells_ops_apart(a[0], b[0]);
        lemma_framed_ops_apart(a.drop_first(), b.drop_first());
        assert forall|i: int| 0 <= i < a.len() implies canonical(#[trigger] a[i]) == canonical(
            b[i],
        ) by {
            if i > 0 {
                assert(canonical_code(a.drop_first())[i - 1] == canonical(a[i]));
                assert(canonical_code(b.drop_first())[i - 1] == canonical(b[i]));
            }
        }
    }
    assert(canonical_code(a) =~= canonical_code(b));
}

/// Law: two bodies are hashed as the same text only if they have as many
/// parameters, as many locals and the same canonical code.
pub proof fn law_body_text_tells_bodies_apart(
    arity1: u16,
    locals1: u16,
    code1: Seq<Op>,
    arity2: u16,
    locals2: u16,
    code2: Seq<Op>,
)
    requires
        code1.len() <= u64::MAX,
        code2.len() <= u64::MAX,
        body_text(arity1, locals1, code1) == body_text(arity2, locals2, code2),
    ensures
        arity1 == arity2,
        locals1 == locals2,
        canonical_code(code1) == canonical_code(code2),
{
    lemma_auto_spec_u16_to_from_le_bytes();
    lemma_auto_spec_u64_to_from_le_bytes();
    let n1 = spec_u64_to_le_bytes(code1.len() as u64);
    let n2 = spec_u64_to_le_bytes(code2.len() as u64);
    let a1 = spec_u16_to_le_bytes(arity1);
    let a2 = spec_u16_to_le_bytes(arity2);
    let l1 = spec_u16_to_le_bytes(locals1);
    let l2 = spec_u16_to_le_bytes(locals2);
    lemma_halves(a1 + l1 + n1, framed_ops(code1), a2 + l2 + n2, framed_ops(code2));
    lemma_halves(a1 + l1, n1, a2 + l2, n2);
    lemma_halves(a1, l1, a2, l2);
    lemma_framed_ops_apart(code1, code2);
}

} // verus!
