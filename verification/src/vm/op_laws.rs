//! What the ops on operands do, in terms of numbers, truth values and texts.

use vstd::prelude::*;

use crate::float_bits::{is_nan, SIGN_BIT};
use crate::meaning::{divides, int_gives, lemma_spellings, parts_at, precedes, size, wraps_to};
use crate::op::Op;
use crate::program::Program;
use crate::text::{bytes_le, bytes_of, lemma_bytes_injective};
use crate::value::Val;
use crate::vm::arith::{binary, int_quotient, int_remainder, unary, Calc, FloatOp};
use crate::vm::fault::Fault;
use crate::vm::plain::{plain, Move};
use crate::vm::state::{FrameView, State};

verus! {

/// The op goes through: it leaves these operands and goes on to the next slot,
/// and nothing else changes.
#[verifier::opaque]
pub open spec fn leaves(p: Program, s: State, op: Op, stack: Seq<Val>) -> bool {
    plain(p, s, op) matches Move::Go(t) && {
        &&& t.stack == stack
        &&& t.locals == s.locals
        &&& t.slab == s.slab
        &&& t.arena == s.arena
        &&& t.scopes == s.scopes
        &&& t.counts == s.counts
        &&& t.hits == s.hits
        &&& t.frames == s.frames.drop_last().push(
            FrameView { pc: s.frames.last().pc + 1, ..s.frames.last() },
        )
    }
}

/// The op on two operands leaves this value in their place.
pub open spec fn makes(p: Program, s: State, op: Op, st: Seq<Val>, v: Val) -> bool {
    leaves(p, s, op, st.push(v))
}

/// The op fails.
#[verifier::opaque]
pub open spec fn fails_with(p: Program, s: State, op: Op, f: Fault) -> bool {
    plain(p, s, op) matches Move::Fail(g, _) && g == f
}

/// An op that only takes two operands.
pub open spec fn is_two(op: Op) -> bool {
    match op {
        Op::IntAdd
        | Op::IntSub
        | Op::IntMul
        | Op::IntDiv
        | Op::IntMod
        | Op::IntEq
        | Op::IntLt
        | Op::IntLe
        | Op::FloatAdd
        | Op::FloatSub
        | Op::FloatMul
        | Op::FloatDiv
        | Op::FloatEq
        | Op::FloatLt
        | Op::FloatLe
        | Op::NumAdd
        | Op::NumSub
        | Op::NumMul
        | Op::NumDiv
        | Op::NumMod
        | Op::NumEq
        | Op::NumLt
        | Op::NumLe
        | Op::BoolAnd
        | Op::BoolOr
        | Op::StrConcat
        | Op::StrEq
        | Op::BytesEq
        | Op::ListAppend
        | Op::GetListElemDyn => true,
        _ => false,
    }
}

/// An op that only takes one operand.
pub open spec fn is_one(op: Op) -> bool {
    match op {
        Op::IntNeg
        | Op::FloatNeg
        | Op::NumNeg
        | Op::BoolNot
        | Op::StrLen
        | Op::BytesLen
        | Op::GetVariant(_)
        | Op::GetVariantArg(_)
        | Op::GetListElem(_)
        | Op::GetListLen => true,
        _ => false,
    }
}

proof fn lemma_two(p: Program, s: State, op: Op, st: Seq<Val>, a: Val, b: Val)
    requires
        s.frames.len() > 0,
        s.stack == st.push(a).push(b),
        is_two(op),
    ensures
        binary(op, a, b) matches Calc::Value(v) ==> makes(p, s, op, st, v),
        binary(op, a, b) matches Calc::Fail(f) ==> fails_with(p, s, op, f),
        binary(op, a, b) matches Calc::Ask(f, x, y) ==> asks(p, s, op, st, f, x, y),
{
    reveal(leaves);
    reveal(fails_with);
    reveal(asks);
    assert(s.stack.take(st.len() as int) =~= st);
    let f = s.frames.last();
    assert(s.frames.update(s.frames.len() - 1, FrameView { pc: f.pc + 1, ..f })
        =~= s.frames.drop_last().push(FrameView { pc: f.pc + 1, ..f }));
}

proof fn lemma_one(p: Program, s: State, op: Op, st: Seq<Val>, a: Val)
    requires
        s.frames.len() > 0,
        s.stack == st.push(a),
        is_one(op),
    ensures
        unary(op, a) matches Calc::Value(v) ==> makes(p, s, op, st, v),
        unary(op, a) matches Calc::Fail(f) ==> fails_with(p, s, op, f),
{
    reveal(leaves);
    reveal(fails_with);
    reveal(asks);
    assert(s.stack.take(st.len() as int) =~= st);
    let f = s.frames.last();
    assert(s.frames.update(s.frames.len() - 1, FrameView { pc: f.pc + 1, ..f })
        =~= s.frames.drop_last().push(FrameView { pc: f.pc + 1, ..f }));
}

/// The op takes its two operands and leaves a float operation to the host,
/// whose answer goes on the stack.
#[verifier::opaque]
pub open spec fn asks(
    p: Program,
    s: State,
    op: Op,
    st: Seq<Val>,
    f: FloatOp,
    x: u64,
    y: u64,
) -> bool {
    plain(p, s, op) matches Move::Ask(g, a, b, t) && {
        &&& g == f
        &&& a == x
        &&& b == y
        &&& t.stack == st
        &&& t.locals == s.locals
        &&& t.slab == s.slab
        &&& t.arena == s.arena
        &&& t.frames == s.frames.drop_last().push(
            FrameView { pc: s.frames.last().pc + 1, ..s.frames.last() },
        )
    }
}

/// The ops of an operator: on integers, and on operands of any type.
pub open spec fn is_form(op: Seq<char>, form: Op) -> bool {
    if op == "+"@ {
        form is IntAdd || form is NumAdd
    } else if op == "-"@ {
        form is IntSub || form is NumSub
    } else if op == "*"@ {
        form is IntMul || form is NumMul
    } else if op == "/"@ {
        form is IntDiv || form is NumDiv
    } else if op == "%"@ {
        form is IntMod || form is NumMod
    } else if op == "=="@ {
        form is IntEq || form is NumEq
    } else if op == "<"@ {
        form is IntLt || form is NumLt
    } else if op == "<="@ {
        form is IntLe || form is NumLe
    } else {
        false
    }
}

/// How large a quotient and a remainder can be.
proof fn lemma_small(n: int, b: int, q: int, r: int)
    requires
        0 <= n,
        b != 0,
        n == b * q + r,
        0 <= r < size(b),
    ensures
        r <= n,
        -n <= q <= n,
        q == n && n > 0 ==> b == 1,
        q == -n && n > 0 ==> b == -1,
{
    if q == 0 {
        assert(b * q == 0) by (nonlinear_arith)
            requires
                q == 0,
        ;
    } else if (b > 0) == (q > 0) {
        assert(b * q >= size(b) && b * q >= size(q)) by (nonlinear_arith)
            requires
                b != 0,
                q != 0,
                (b > 0) == (q > 0),
        ;
        if size(b) >= 2 {
            assert(b * q >= 2 * size(q)) by (nonlinear_arith)
                requires
                    size(b) >= 2,
                    q != 0,
                    (b > 0) == (q > 0),
            ;
        }
    } else {
        assert(b * q <= -size(b)) by (nonlinear_arith)
            requires
                b != 0,
                q != 0,
                (b > 0) != (q > 0),
        ;
    }
}

pub proof fn lemma_quotient(x: i64, y: i64)
    requires
        y != 0,
    ensures
        exists|q: int, m: int| #[trigger]
            divides(x as int, y as int, q, m) && wraps_to(q, int_quotient(x, y)),
        exists|q: int| #[trigger] divides(x as int, y as int, q, int_remainder(x, y) as int),
{
    let a = x as int;
    let b = y as int;
    let n = size(a);
    vstd::arithmetic::div_mod::lemma_fundamental_div_mod(n, b);
    let k = n / b;
    let r = n % b;
    assert(0 <= r < size(b)) by (nonlinear_arith)
        requires
            b != 0,
            r == n % b,
    ;
    lemma_small(n, b, k, r);
    let (q, m) = if a >= 0 {
        (k, r)
    } else {
        (-k, -r)
    };
    assert(a == q * b + m) by (nonlinear_arith)
        requires
            n == b * k + r,
            (a == n && q == k && m == r) || (a == -n && q == -k && m == -r),
    ;
    assert(divides(a, b, q, m));
    if b == -1 {
        assert(r == 0);
        assert(k == -n) by (nonlinear_arith)
            requires
                n == b * k + r,
                b == -1,
                r == 0,
        ;
        assert(divides(a, b, q, 0));
    }
    assert(m as i64 as int == m);
    assert(divides(a, b, q, int_remainder(x, y) as int));
    assert(wraps_to(q, int_quotient(x, y)));
}

/// Law: an op on two integers leaves the value of its operator: the sum, the
/// difference or the product, wrapped around, the quotient or the remainder,
/// rounded towards zero, or whether the comparison holds. A division by zero
/// fails.
pub proof fn law_integer_ops(
    p: Program,
    s: State,
    op: Seq<char>,
    form: Op,
    st: Seq<Val>,
    x: i64,
    y: i64,
)
    requires
        s.frames.len() > 0,
        s.stack == st.push(Val::Int(x)).push(Val::Int(y)),
        is_form(op, form),
    ensures
        !(y == 0 && (op == "/"@ || op == "%"@)) ==> exists|v: Val| #[trigger]
            makes(p, s, form, st, v) && int_gives(op, x as int, y as int, v),
        y == 0 && (form is IntDiv || form is NumDiv) ==> fails_with(
            p,
            s,
            form,
            Fault::DivByZero { op: "division"@ },
        ),
        y == 0 && (form is IntMod || form is NumMod) ==> fails_with(
            p,
            s,
            form,
            Fault::DivByZero { op: "modulo"@ },
        ),
{
    let a = Val::Int(x);
    let b = Val::Int(y);
    lemma_two(p, s, form, st, a, b);
    lemma_int_value(op, form, x, y);
    if let Calc::Value(v) = binary(form, a, b) {
        assert(makes(p, s, form, st, v));
    }
}

/// The value of an op on two integers.
#[verifier::spinoff_prover]
#[verifier::rlimit(40)]
pub proof fn lemma_int_value(op: Seq<char>, form: Op, x: i64, y: i64)
    requires
        is_form(op, form),
    ensures
        !(y == 0 && (op == "/"@ || op == "%"@)) ==> (binary(form, Val::Int(x), Val::Int(y)) matches
            Calc::Value(v) && int_gives(op, x as int, y as int, v)),
        y == 0 && (form is IntDiv || form is NumDiv) ==> binary(form, Val::Int(x), Val::Int(y))
            == Calc::Fail(Fault::DivByZero { op: "division"@ }),
        y == 0 && (form is IntMod || form is NumMod) ==> binary(form, Val::Int(x), Val::Int(y))
            == Calc::Fail(Fault::DivByZero { op: "modulo"@ }),
{
    lemma_equal_ints(x, y);
    if y != 0 {
        lemma_quotient(x, y);
    }
    lemma_product(x, y);
    lemma_spellings();
    let v = binary(form, Val::Int(x), Val::Int(y));
    if op == "+"@ {
        assert(v == Calc::Value(Val::Int(x.wrapping_add(y))));
        assert(wraps_to(x + y, x.wrapping_add(y)));
        assert(int_gives(op, x as int, y as int, Val::Int(x.wrapping_add(y))));
    } else if op == "-"@ {
        assert(v == Calc::Value(Val::Int(x.wrapping_sub(y))));
        assert(wraps_to(x - y, x.wrapping_sub(y)));
        assert(int_gives(op, x as int, y as int, Val::Int(x.wrapping_sub(y))));
    } else if op == "*"@ {
        assert(v == Calc::Value(Val::Int(x.wrapping_mul(y))));
        assert(int_gives(op, x as int, y as int, Val::Int(x.wrapping_mul(y))));
    } else if op == "/"@ {
        assert(y != 0 ==> v == Calc::Value(Val::Int(int_quotient(x, y))));
        if y != 0 {
            let r = int_quotient(x, y);
            let (q, m) = choose|q: int, m: int| #[trigger]
                divides(x as int, y as int, q, m) && wraps_to(q, r);
            lemma_quotient_given(x as int, y as int, q, m, r);
        }
    } else if op == "%"@ {
        assert(y != 0 ==> v == Calc::Value(Val::Int(int_remainder(x, y))));
        if y != 0 {
            let r = int_remainder(x, y);
            let q = choose|q: int| #[trigger] divides(x as int, y as int, q, r as int);
            lemma_remainder_given(x as int, y as int, q, r);
        }
    } else if op == "=="@ {
        assert(v == Calc::Value(Val::Bool(x == y)));
    } else if op == "<"@ {
        assert(v == Calc::Value(Val::Bool(x < y)));
    } else {
        assert(v == Calc::Value(Val::Bool(x <= y)));
    }
}

proof fn lemma_remainder_given(x: int, y: int, q: int, r: i64)
    requires
        divides(x, y, q, r as int),
    ensures
        int_gives("%"@, x, y, Val::Int(r)),
{
    lemma_spellings();
    let v = Val::Int(r);
    assert(divides(x, y, q, v->Int_0 as int));
    assert(exists|k: int| #[trigger] divides(x, y, k, v->Int_0 as int));
}

proof fn lemma_quotient_given(x: int, y: int, q: int, m: int, r: i64)
    requires
        divides(x, y, q, m),
        wraps_to(q, r),
    ensures
        int_gives("/"@, x, y, Val::Int(r)),
{
    lemma_spellings();
}

proof fn lemma_equal_ints(x: i64, y: i64)
    ensures
        crate::value_ops::val_eq(Val::Int(x), Val::Int(y)) == (x == y),
{
}

proof fn lemma_product(x: i64, y: i64)
    ensures
        wraps_to(x * y, x.wrapping_mul(y)),
{
}

/// Law: `and` leaves true only for two true operands, `or` leaves false only
/// for two false ones, `not` leaves the other truth value, and equality whether
/// they are the same. With that, the negation of an `or` is the `and` of the
/// negations.
pub proof fn law_truth_ops(p: Program, s: State, st: Seq<Val>, a: bool, b: bool)
    requires
        s.frames.len() > 0,
    ensures
        s.stack == st.push(Val::Bool(a)).push(Val::Bool(b)) ==> {
            &&& makes(
                p,
                s,
                Op::BoolAnd,
                st,
                Val::Bool(
                    if a {
                        b
                    } else {
                        false
                    },
                ),
            )
            &&& makes(
                p,
                s,
                Op::BoolOr,
                st,
                Val::Bool(
                    if a {
                        true
                    } else {
                        b
                    },
                ),
            )
            &&& makes(p, s, Op::NumEq, st, Val::Bool(a == b))
        },
        s.stack == st.push(Val::Bool(a)) ==> makes(p, s, Op::BoolNot, st, Val::Bool(!a)),
        ({
            let or = binary(Op::BoolOr, Val::Bool(a), Val::Bool(b));
            let not_a = unary(Op::BoolNot, Val::Bool(a))->Value_0;
            let not_b = unary(Op::BoolNot, Val::Bool(b))->Value_0;
            unary(Op::BoolNot, or->Value_0) == binary(Op::BoolAnd, not_a, not_b)
        }),
{
    if s.stack == st.push(Val::Bool(a)).push(Val::Bool(b)) {
        lemma_two(p, s, Op::BoolAnd, st, Val::Bool(a), Val::Bool(b));
        lemma_two(p, s, Op::BoolOr, st, Val::Bool(a), Val::Bool(b));
        lemma_two(p, s, Op::NumEq, st, Val::Bool(a), Val::Bool(b));
    }
    if s.stack == st.push(Val::Bool(a)) {
        lemma_one(p, s, Op::BoolNot, st, Val::Bool(a));
    }
}

/// Law: a negation leaves the number of the other sign, wrapped around.
pub proof fn law_integer_negation(p: Program, s: State, st: Seq<Val>, x: i64)
    requires
        s.frames.len() > 0,
        s.stack == st.push(Val::Int(x)),
    ensures
        exists|r: i64|
            wraps_to(-x, r) && #[trigger] makes(p, s, Op::IntNeg, st, Val::Int(r)) && makes(
                p,
                s,
                Op::NumNeg,
                st,
                Val::Int(r),
            ),
{
    lemma_one(p, s, Op::IntNeg, st, Val::Int(x));
    lemma_one(p, s, Op::NumNeg, st, Val::Int(x));
    let r = 0i64.wrapping_sub(x);
    assert(wraps_to(-x, r));
    assert(makes(p, s, Op::IntNeg, st, Val::Int(r)));
}

/// The order of byte strings, by where they part.
pub proof fn lemma_order(a: Seq<u8>, b: Seq<u8>)
    ensures
        bytes_le(a, b) <==> a == b || precedes(a, b),
    decreases a.len(),
{
    if a.len() == 0 {
        if b.len() == 0 {
            assert(a =~= b);
        } else {
            assert(parts_at(a, b, 0));
        }
    } else if b.len() == 0 {
    } else if a[0] != b[0] {
        if a[0] < b[0] {
            assert(parts_at(a, b, 0));
        } else if precedes(a, b) {
            let k = choose|k: int| #[trigger] parts_at(a, b, k);
            assert(k == 0);
        }
    } else {
        let x = a.drop_first();
        let y = b.drop_first();
        lemma_order(x, y);
        if x == y {
            assert(a =~= seq![a[0]] + x);
            assert(b =~= seq![b[0]] + y);
        }
        if precedes(x, y) {
            let k = choose|k: int| #[trigger] parts_at(x, y, k);
            assert forall|i: int| 0 <= i < k + 1 implies a[i] == b[i] by {
                if i > 0 {
                    assert(x[i - 1] == a[i] && y[i - 1] == b[i]);
                }
            }
            assert(k < x.len() ==> x[k] == a[k + 1] && y[k] == b[k + 1]);
            assert(parts_at(a, b, k + 1));
        }
        if precedes(a, b) {
            let k = choose|k: int| #[trigger] parts_at(a, b, k);
            if k > 0 {
                assert forall|i: int| 0 <= i < k - 1 implies x[i] == y[i] by {
                    assert(x[i] == a[i + 1] && y[i] == b[i + 1]);
                }
                assert(k - 1 < x.len() ==> x[k - 1] == a[k] && y[k - 1] == b[k]);
                assert(parts_at(x, y, k - 1));
            }
        }
    }
}

/// No byte string comes before itself, nor two before each other.
pub proof fn lemma_one_way(a: Seq<u8>, b: Seq<u8>)
    ensures
        precedes(a, b) ==> !precedes(b, a) && a != b,
{
    if precedes(a, b) {
        let k = choose|k: int| #[trigger] parts_at(a, b, k);
        if precedes(b, a) {
            let j = choose|j: int| #[trigger] parts_at(b, a, j);
            if j < k {
                assert(a[j] == b[j]);
            } else if k < j {
                assert(a[k] == b[k]);
            }
        }
    }
}

/// Of two byte strings one comes before the other, or they are the same.
pub proof fn lemma_comparable(a: Seq<u8>, b: Seq<u8>)
    ensures
        a == b || precedes(a, b) || precedes(b, a),
    decreases a.len(),
{
    lemma_order(a, b);
    lemma_order(b, a);
    lemma_bytes_either(a, b);
}

proof fn lemma_bytes_either(a: Seq<u8>, b: Seq<u8>)
    ensures
        bytes_le(a, b) || bytes_le(b, a),
    decreases a.len(),
{
    if a.len() > 0 && b.len() > 0 && a[0] == b[0] {
        lemma_bytes_either(a.drop_first(), b.drop_first());
    }
}

/// Law: the ops on two texts leave the one behind the other, whether they are
/// the same, and whether the first comes before the second in the order of
/// their bytes.
pub proof fn law_text_ops(p: Program, s: State, st: Seq<Val>, a: Seq<char>, b: Seq<char>)
    requires
        s.frames.len() > 0,
        s.stack == st.push(Val::Str(a)).push(Val::Str(b)),
    ensures
        makes(p, s, Op::StrConcat, st, Val::Str(a + b)),
        makes(p, s, Op::NumAdd, st, Val::Str(a + b)),
        makes(p, s, Op::StrEq, st, Val::Bool(a == b)),
        makes(p, s, Op::NumEq, st, Val::Bool(a == b)),
        makes(p, s, Op::NumLt, st, Val::Bool(precedes(bytes_of(a), bytes_of(b)))),
        makes(p, s, Op::NumLe, st, Val::Bool(a == b || precedes(bytes_of(a), bytes_of(b)))),
{
    lemma_two(p, s, Op::StrConcat, st, Val::Str(a), Val::Str(b));
    lemma_two(p, s, Op::NumAdd, st, Val::Str(a), Val::Str(b));
    lemma_two(p, s, Op::StrEq, st, Val::Str(a), Val::Str(b));
    lemma_two(p, s, Op::NumEq, st, Val::Str(a), Val::Str(b));
    lemma_two(p, s, Op::NumLt, st, Val::Str(a), Val::Str(b));
    lemma_two(p, s, Op::NumLe, st, Val::Str(a), Val::Str(b));
    let x = bytes_of(a);
    let y = bytes_of(b);
    lemma_order(x, y);
    lemma_order(y, x);
    lemma_one_way(x, y);
    lemma_one_way(y, x);
    lemma_comparable(x, y);
    lemma_bytes_injective(a, b);
}

/// The bits of a number that is not negative.
pub open spec fn upright(x: u64) -> bool {
    x < SIGN_BIT
}

/// Whether a number is below another, by their bits: of two numbers of the same
/// sign the bits decide, the other way round below zero; of two of different
/// signs the negative one is below, but for the two zeros.
pub open spec fn below(x: u64, y: u64) -> bool {
    if is_nan(x) || is_nan(y) {
        false
    } else if upright(x) && upright(y) {
        x < y
    } else if !upright(x) && !upright(y) {
        y < x
    } else {
        !upright(x) && !(x == SIGN_BIT && y == 0)
    }
}

/// Whether two patterns are the same number.
pub open spec fn same_number(x: u64, y: u64) -> bool {
    !is_nan(x) && !is_nan(y) && (x == y || (x == 0 && y == SIGN_BIT) || (x == SIGN_BIT && y == 0))
}

/// Law: the ops on two floats leave whether the numbers are the same, whether
/// the first is below the second, and whether it is not above it; nothing holds
/// of a pattern that is no number. Arithmetic is asked of the host, under the
/// name of its operator and with the operands in their order.
pub proof fn law_float_ops(p: Program, s: State, st: Seq<Val>, x: u64, y: u64)
    requires
        s.frames.len() > 0,
        s.stack == st.push(Val::Float(x)).push(Val::Float(y)),
    ensures
        makes(p, s, Op::FloatEq, st, Val::Bool(same_number(x, y))),
        makes(p, s, Op::NumEq, st, Val::Bool(same_number(x, y))),
        makes(p, s, Op::FloatLt, st, Val::Bool(below(x, y))),
        makes(p, s, Op::NumLt, st, Val::Bool(below(x, y))),
        makes(p, s, Op::FloatLe, st, Val::Bool(below(x, y) || same_number(x, y))),
        makes(p, s, Op::NumLe, st, Val::Bool(below(x, y) || same_number(x, y))),
        asks(p, s, Op::FloatAdd, st, FloatOp::Add, x, y),
        asks(p, s, Op::FloatSub, st, FloatOp::Sub, x, y),
        asks(p, s, Op::FloatMul, st, FloatOp::Mul, x, y),
        asks(p, s, Op::FloatDiv, st, FloatOp::Div, x, y),
        asks(p, s, Op::NumAdd, st, FloatOp::Add, x, y),
        asks(p, s, Op::NumSub, st, FloatOp::Sub, x, y),
        asks(p, s, Op::NumMul, st, FloatOp::Mul, x, y),
        asks(p, s, Op::NumDiv, st, FloatOp::Div, x, y),
        asks(p, s, Op::NumMod, st, FloatOp::Rem, x, y),
{
    let a = Val::Float(x);
    let b = Val::Float(y);
    lemma_two(p, s, Op::FloatEq, st, a, b);
    lemma_two(p, s, Op::NumEq, st, a, b);
    lemma_two(p, s, Op::FloatLt, st, a, b);
    lemma_two(p, s, Op::NumLt, st, a, b);
    lemma_two(p, s, Op::FloatLe, st, a, b);
    lemma_two(p, s, Op::NumLe, st, a, b);
    lemma_two(p, s, Op::FloatAdd, st, a, b);
    lemma_two(p, s, Op::FloatSub, st, a, b);
    lemma_two(p, s, Op::FloatMul, st, a, b);
    lemma_two(p, s, Op::FloatDiv, st, a, b);
    lemma_two(p, s, Op::NumAdd, st, a, b);
    lemma_two(p, s, Op::NumSub, st, a, b);
    lemma_two(p, s, Op::NumMul, st, a, b);
    lemma_two(p, s, Op::NumDiv, st, a, b);
    lemma_two(p, s, Op::NumMod, st, a, b);
}

/// Law: the negation of a float differs from it in its sign alone.
pub proof fn law_float_negation(p: Program, s: State, st: Seq<Val>, x: u64)
    requires
        s.frames.len() > 0,
        s.stack == st.push(Val::Float(x)),
    ensures
        exists|r: u64|
            r != x && r % SIGN_BIT == x % SIGN_BIT && #[trigger] makes(
                p,
                s,
                Op::FloatNeg,
                st,
                Val::Float(r),
            ) && makes(p, s, Op::NumNeg, st, Val::Float(r)),
{
    lemma_one(p, s, Op::FloatNeg, st, Val::Float(x));
    lemma_one(p, s, Op::NumNeg, st, Val::Float(x));
    let r = crate::float_bits::float_neg(x);
    assert(makes(p, s, Op::FloatNeg, st, Val::Float(r)));
}

/// Law: an element of a list is the one at that place, and there is none at a
/// place that the list does not have; a list that something was appended to
/// has it behind its elements; the length is the number of elements.
pub proof fn law_list_ops(p: Program, s: State, st: Seq<Val>, xs: Seq<Val>, b: Val, k: u32)
    requires
        s.frames.len() > 0,
        xs.len() <= i64::MAX,
    ensures
        s.stack == st.push(Val::List(xs)).push(b) ==> makes(
            p,
            s,
            Op::ListAppend,
            st,
            Val::List(xs.push(b)),
        ),
        s.stack == st.push(Val::List(xs)).push(b) ==> (b matches Val::Int(i) ==> if 0 <= i
            < xs.len() {
            makes(p, s, Op::GetListElemDyn, st, xs[i as int])
        } else {
            fails_with(p, s, Op::GetListElemDyn, Fault::TypeMismatch("list index oob"@))
        }),
        s.stack == st.push(Val::List(xs)) ==> exists|n: i64|
            n == xs.len() && #[trigger] makes(p, s, Op::GetListLen, st, Val::Int(n)),
        s.stack == st.push(Val::List(xs)) ==> if k < xs.len() {
            makes(p, s, Op::GetListElem(k), st, xs[k as int])
        } else {
            fails_with(p, s, Op::GetListElem(k), Fault::TypeMismatch("list index oob"@))
        },
{
    if s.stack == st.push(Val::List(xs)).push(b) {
        lemma_two(p, s, Op::ListAppend, st, Val::List(xs), b);
        lemma_two(p, s, Op::GetListElemDyn, st, Val::List(xs), b);
    }
    if s.stack == st.push(Val::List(xs)) {
        lemma_one(p, s, Op::GetListLen, st, Val::List(xs));
        lemma_one(p, s, Op::GetListElem(k), st, Val::List(xs));
        assert(makes(p, s, Op::GetListLen, st, Val::Int(xs.len() as i64)));
    }
}

/// Law: the length of a text is the number of its bytes, that of a byte string
/// too; byte strings are equal if they are the same.
pub proof fn law_length_ops(p: Program, s: State, st: Seq<Val>, t: Seq<char>, a: Seq<u8>,
    b: Seq<u8>)
    requires
        s.frames.len() > 0,
        bytes_of(t).len() <= i64::MAX,
        a.len() <= i64::MAX,
    ensures
        s.stack == st.push(Val::Str(t)) ==> exists|n: i64|
            n == bytes_of(t).len() && #[trigger] makes(p, s, Op::StrLen, st, Val::Int(n)),
        s.stack == st.push(Val::Bytes(a)) ==> exists|n: i64|
            n == a.len() && #[trigger] makes(p, s, Op::BytesLen, st, Val::Int(n)),
        s.stack == st.push(Val::Bytes(a)).push(Val::Bytes(b)) ==> makes(
            p,
            s,
            Op::BytesEq,
            st,
            Val::Bool(a == b),
        ),
{
    if s.stack == st.push(Val::Str(t)) {
        lemma_one(p, s, Op::StrLen, st, Val::Str(t));
        assert(makes(p, s, Op::StrLen, st, Val::Int(bytes_of(t).len() as i64)));
    }
    if s.stack == st.push(Val::Bytes(a)) {
        lemma_one(p, s, Op::BytesLen, st, Val::Bytes(a));
        assert(makes(p, s, Op::BytesLen, st, Val::Int(a.len() as i64)));
    }
    if s.stack == st.push(Val::Bytes(a)).push(Val::Bytes(b)) {
        lemma_two(p, s, Op::BytesEq, st, Val::Bytes(a), Val::Bytes(b));
    }
}

} // verus!
